//! Declarations of the outside types that the library holds, and the
//! trusted wrappers around the calls it makes into them.

use vstd::prelude::*;

verus! {

#[verifier::external_type_specification]
#[verifier::external_body]
#[verifier::reject_recursive_types(K)]
#[verifier::reject_recursive_types(V)]
#[verifier::reject_recursive_types(S)]
pub struct ExDashMap<K, V, S>(dashmap::DashMap<K, V, S>);

#[verifier::external_type_specification]
#[verifier::external_body]
#[verifier::reject_recursive_types(K)]
#[verifier::reject_recursive_types(V)]
#[verifier::reject_recursive_types(S)]
pub struct ExCache<K, V, S>(moka::sync::Cache<K, V, S>);

#[verifier::external_type_specification]
#[verifier::external_body]
pub struct ExFxBuildHasher(rustc_hash::FxBuildHasher);

#[verifier::external_type_specification]
#[verifier::external_body]
pub struct ExSemaphore(tokio::sync::Semaphore);

#[verifier::external_type_specification]
#[verifier::external_body]
pub struct ExOwnedSemaphorePermit(tokio::sync::OwnedSemaphorePermit);

#[verifier::external_type_specification]
#[verifier::external_body]
pub struct ExInstant(std::time::Instant);

#[verifier::external_type_specification]
#[verifier::external_body]
pub struct ExMessage(hickory_proto::op::Message);

use crate::prefetch::PrefetchEntry;
use dashmap::DashMap;
use rustc_hash::FxBuildHasher;
use std::sync::Arc;
use tokio::sync::{OwnedSemaphorePermit, Semaphore};

/// The 64-bit FxHash of a byte string.
pub uninterp spec fn fx_hash_of(b: Seq<u8>) -> u64;

/// Relies on rustc_hash::FxHasher (write, finish): the hash depends on the
/// bytes alone.
#[verifier::external_body]
pub(crate) fn fx_hash(b: &[u8]) -> (r: u64)
    ensures
        r == fx_hash_of(b@),
{
    let mut h = rustc_hash::FxHasher::default();
    std::hash::Hasher::write(&mut h, b);
    std::hash::Hasher::finish(&h)
}

/// Access table keyed by fingerprint.
pub type HotTable = DashMap<u64, PrefetchEntry, FxBuildHasher>;

/// Time table keyed by fingerprint (milliseconds on the manager's clock).
pub type StampTable = DashMap<u64, u64, FxBuildHasher>;

/// What an access table holds.
pub uninterp spec fn hot_contents(m: HotTable) -> Map<u64, PrefetchEntry>;

/// What a time table holds.
pub uninterp spec fn stamp_contents(m: StampTable) -> Map<u64, u64>;

/// Relies on DashMap::with_capacity_and_hasher: a new map is empty.
#[verifier::external_body]
pub(crate) fn hot_table_new(capacity: usize) -> (r: HotTable)
    ensures
        hot_contents(r).dom().is_empty(),
{
    DashMap::with_capacity_and_hasher(capacity, FxBuildHasher::default())
}

/// Relies on DashMap::get: the value stored under `k`, cloned.
#[verifier::external_body]
pub(crate) fn hot_table_get(m: &HotTable, k: u64) -> (r: Option<PrefetchEntry>)
    ensures
        r is Some == hot_contents(*m).contains_key(k),
        r is Some ==> r.unwrap() == hot_contents(*m)[k],
{
    m.get(&k).map(|e| e.value().clone())
}

/// Relies on DashMap::insert: `k` maps to `v` afterwards, other keys are kept.
#[verifier::external_body]
pub(crate) fn hot_table_insert(m: &mut HotTable, k: u64, v: PrefetchEntry)
    ensures
        hot_contents(*final(m)) == hot_contents(*old(m)).insert(k, v),
{
    m.insert(k, v);
}

/// Relies on DashMap::len: the number of keys.
#[verifier::external_body]
pub(crate) fn hot_table_len(m: &HotTable) -> (r: usize)
    ensures
        r == hot_contents(*m).dom().len(),
{
    m.len()
}

/// Relies on DashMap::iter: every key once, in no particular order.
#[verifier::external_body]
pub(crate) fn hot_table_keys(m: &HotTable) -> (r: Vec<u64>)
    ensures
        r@.no_duplicates(),
        r@.to_set() == hot_contents(*m).dom(),
{
    m.iter().map(|e| *e.key()).collect()
}

/// Relies on DashMap::with_capacity_and_hasher: a new map is empty.
#[verifier::external_body]
pub(crate) fn stamp_table_new(capacity: usize) -> (r: StampTable)
    ensures
        stamp_contents(r).dom().is_empty(),
{
    DashMap::with_capacity_and_hasher(capacity, FxBuildHasher::default())
}

/// Relies on DashMap::get: the value stored under `k`.
#[verifier::external_body]
pub(crate) fn stamp_table_get(m: &StampTable, k: u64) -> (r: Option<u64>)
    ensures
        r is Some == stamp_contents(*m).contains_key(k),
        r is Some ==> r.unwrap() == stamp_contents(*m)[k],
{
    m.get(&k).map(|e| *e.value())
}

/// Relies on DashMap::insert: `k` maps to `v` afterwards, other keys are kept.
#[verifier::external_body]
pub(crate) fn stamp_table_insert(m: &mut StampTable, k: u64, v: u64)
    ensures
        stamp_contents(*final(m)) == stamp_contents(*old(m)).insert(k, v),
{
    m.insert(k, v);
}

/// Relies on DashMap::remove: `k` is absent afterwards, other keys are kept.
#[verifier::external_body]
pub(crate) fn stamp_table_remove(m: &mut StampTable, k: u64)
    ensures
        stamp_contents(*final(m)) == stamp_contents(*old(m)).remove(k),
{
    m.remove(&k);
}

/// Relation cache: entries expire and are evicted beyond a capacity, so
/// what a lookup finds depends on time as well.
pub type RelationCache = moka::sync::Cache<u64, Vec<String>>;

/// The names of a list of names, as text.
pub open spec fn names_view(v: Seq<String>) -> Seq<Seq<char>> {
    v.map_values(|s: String| s@)
}

/// What was last written under each key of a relation cache and not
/// invalidated since. Expiry and eviction may hide an entry from lookups;
/// they never bring back another value.
pub uninterp spec fn relation_contents(c: RelationCache) -> Map<u64, Seq<Seq<char>>>;

/// Longest time-to-live moka accepts: 1000 years.
pub const MAX_RELATION_TTL_SECS: u64 = 31_536_000_000;

/// Relies on moka's Cache builder (max_capacity, time_to_live, build):
/// `build` panics on a time-to-live above 1000 years; a new cache holds
/// nothing.
#[verifier::external_body]
pub(crate) fn relation_cache_new(capacity: u64, ttl_secs: u64) -> (r: RelationCache)
    requires
        ttl_secs <= MAX_RELATION_TTL_SECS,
    ensures
        relation_contents(r).dom().is_empty(),
{
    moka::sync::Cache::builder()
        .max_capacity(capacity)
        .time_to_live(std::time::Duration::from_secs(ttl_secs))
        .build()
}

/// Relies on moka::sync::Cache::get: a clone of the value last inserted
/// under `k` while it is neither expired, evicted nor invalidated;
/// otherwise nothing.
#[verifier::external_body]
pub(crate) fn relation_cache_get(c: &RelationCache, k: u64) -> (r: Option<Vec<String>>)
    ensures
        r is Some ==> relation_contents(*c).contains_key(k) && names_view(r.unwrap()@)
            == relation_contents(*c)[k],
{
    c.get(&k)
}

/// Relies on moka::sync::Cache::insert: `k` holds `v` afterwards.
#[verifier::external_body]
pub(crate) fn relation_cache_insert(c: &mut RelationCache, k: u64, v: Vec<String>)
    ensures
        relation_contents(*final(c)) == relation_contents(*old(c)).insert(k, names_view(v@)),
{
    c.insert(k, v)
}

/// Relies on moka::sync::Cache::invalidate: `k` holds nothing afterwards.
#[verifier::external_body]
pub(crate) fn relation_cache_invalidate(c: &mut RelationCache, k: u64)
    ensures
        relation_contents(*final(c)) == relation_contents(*old(c)).remove(k),
{
    c.invalidate(&k)
}

/// The number of permits a semaphore was made with.
pub uninterp spec fn permits_of(s: Semaphore) -> usize;

/// Relies on tokio's Semaphore::new, which panics above
/// `Semaphore::MAX_PERMITS` (`usize::MAX >> 3`, that is `usize::MAX / 8`).
#[verifier::external_body]
pub(crate) fn slots_new(permits: usize) -> (r: Arc<Semaphore>)
    requires
        permits <= usize::MAX / 8,
    ensures
        permits_of(*r) == permits,
{
    Arc::new(Semaphore::new(permits))
}

/// Relies on tokio's Semaphore::try_acquire_owned: a permit when one is free
/// at the moment of the call.
#[verifier::external_body]
pub(crate) fn slots_try_take(s: &Arc<Semaphore>) -> (r: Option<OwnedSemaphorePermit>) {
    Arc::clone(s).try_acquire_owned().ok()
}

/// Relies on std::time::Instant::now.
#[verifier::external_body]
pub(crate) fn clock_start() -> (r: std::time::Instant) {
    std::time::Instant::now()
}

/// Relies on std::time::Instant::elapsed: whole milliseconds since `start`.
#[verifier::external_body]
pub(crate) fn clock_millis(start: &std::time::Instant) -> (r: u64) {
    start.elapsed().as_millis() as u64
}

/// Relies on hickory's BinDecodable::from_bytes for Message.
#[verifier::external_body]
pub(crate) fn decode_message(b: &[u8]) -> (r: Option<hickory_proto::op::Message>) {
    <hickory_proto::op::Message as hickory_proto::serialize::binary::BinDecodable>::from_bytes(b).ok()
}

/// One answer record as plain values: its type code, its owner name as text,
/// and the target name as text when its data is a CNAME.
pub type AnswerText = (u16, String, Option<String>);

/// Relies on hickory's Message::answers, Record::record_type, Record::name,
/// Record::data and Name::to_utf8: the answers, in order, as text.
#[verifier::external_body]
pub(crate) fn answer_texts(m: &hickory_proto::op::Message) -> (r: Vec<AnswerText>) {
    m.answers().iter().map(|rec| (
        u16::from(rec.record_type()),
        rec.name().to_utf8(),
        match rec.data() {
            Some(hickory_proto::rr::RData::CNAME(t)) => Some(t.0.to_utf8()),
            _ => None,
        },
    )).collect()
}


/// ASCII lowercase of one character; others are kept.
pub open spec fn lower_char(c: char) -> char {
    if 'A' <= c && c <= 'Z' {
        ((c as u8) + 32) as char
    } else {
        c
    }
}

/// `s` without its trailing dots.
pub open spec fn trim_dots(s: Seq<char>) -> Seq<char>
    decreases s.len(),
{
    if s.len() > 0 && s.last() == '.' {
        trim_dots(s.drop_last())
    } else {
        s
    }
}

/// Relies on str::trim_end_matches with the pattern '.': every trailing dot
/// is removed and nothing else.
#[verifier::external_body]
pub(crate) fn trim_trailing_dots(s: &str) -> (r: String)
    ensures
        r@ == trim_dots(s@),
{
    s.trim_end_matches('.').to_string()
}

/// Relies on str::to_ascii_lowercase: 'A'..='Z' become 'a'..='z', all other
/// characters are kept.
#[verifier::external_body]
pub(crate) fn ascii_lowercase(s: &str) -> (r: String)
    ensures
        r@ == s@.map_values(|c: char| lower_char(c)),
{
    s.to_ascii_lowercase()
}


/// The network ipnet reads from `s`: its address bytes (4 for IPv4, 16 for
/// IPv6) and its prefix length.
pub uninterp spec fn net_of(s: Seq<char>) -> Option<(Seq<u8>, u8)>;

/// Whether ipnet reads `s` as a network (address/prefix, IPv4 or IPv6).
pub open spec fn is_ip_net(s: Seq<char>) -> bool {
    net_of(s) is Some
}

/// Relies on ipnet's `FromStr for IpNet`, `addr`, `prefix_len` and the
/// address octets: the outcome depends on the text alone, and a prefix never
/// exceeds the address width.
#[verifier::external_body]
pub(crate) fn parse_ip_net(s: &str) -> (r: Option<(Vec<u8>, u8)>)
    ensures
        r is Some == net_of(s@) is Some,
        r matches Some((a, p)) ==> net_of(s@) == Some((a@, p)),
        r matches Some((a, p)) ==> (a@.len() == 4 && p <= 32) || (a@.len() == 16 && p <= 128),
{
    match s.parse::<ipnet::IpNet>() {
        Ok(ipnet::IpNet::V4(n)) => Some((n.addr().octets().to_vec(), n.prefix_len())),
        Ok(ipnet::IpNet::V6(n)) => Some((n.addr().octets().to_vec(), n.prefix_len())),
        Err(_) => None,
    }
}

/// Whether the regular expression `pattern` matches somewhere in `text`
/// (`None` when the pattern does not compile).
pub uninterp spec fn regex_match_of(pattern: Seq<char>, text: Seq<char>) -> Option<bool>;

/// Relies on regex::Regex::new and Regex::is_match: the outcome depends on
/// the pattern and the text alone.
#[verifier::external_body]
pub(crate) fn regex_is_match(pattern: &str, text: &str) -> (r: Option<bool>)
    ensures
        r == regex_match_of(pattern@, text@),
{
    regex::Regex::new(pattern).ok().map(|re| re.is_match(text))
}

/// `s` cut at every `sep`: always at least one part; parts may be empty.
pub open spec fn split_on(s: Seq<char>, sep: char) -> Seq<Seq<char>>
    decreases s.len(),
{
    if s.len() == 0 {
        seq![Seq::empty()]
    } else {
        let init = split_on(s.drop_last(), sep);
        if s.last() == sep {
            init.push(Seq::empty())
        } else {
            init.update(init.len() - 1, init.last().push(s.last()))
        }
    }
}

/// Relies on str::split with a char pattern: the parts between separators,
/// in order, including empty ones.
#[verifier::external_body]
pub(crate) fn split_commas(s: &str) -> (r: Vec<String>)
    ensures
        r@.map_values(|p: String| p@) == split_on(s@, ','),
{
    s.split(',').map(|p| p.to_string()).collect()
}

/// `s` without leading and trailing Unicode white space.
pub uninterp spec fn trimmed(s: Seq<char>) -> Seq<char>;

/// Relies on str::trim: the result depends on the text alone and the empty
/// text stays empty.
#[verifier::external_body]
pub(crate) fn trim_space(s: &str) -> (r: String)
    ensures
        r@ == trimmed(s@),
        s@.len() == 0 ==> r@.len() == 0,
{
    s.trim().to_string()
}


/// ASCII uppercase of one character; others are kept.
pub open spec fn upper_char(c: char) -> char {
    if 'a' <= c && c <= 'z' {
        ((c as u8) - 32) as char
    } else {
        c
    }
}

/// Relies on str::to_ascii_uppercase: 'a'..='z' become 'A'..='Z', all other
/// characters are kept.
#[verifier::external_body]
pub(crate) fn ascii_uppercase(s: &str) -> (r: String)
    ensures
        r@ == s@.map_values(|c: char| upper_char(c)),
{
    s.to_ascii_uppercase()
}

/// The record type code hickory reads from the name `s`.
pub uninterp spec fn record_type_of(s: Seq<char>) -> Option<u16>;

/// Relies on hickory's `FromStr for RecordType` and `From<RecordType> for
/// u16`: the outcome depends on the name alone. The parser asserts (in
/// debug builds) that the name holds no ASCII lowercase letter.
#[verifier::external_body]
pub(crate) fn record_type_code(s: &str) -> (r: Option<u16>)
    requires
        forall|i: int| 0 <= i < s@.len() ==> !('a' <= #[trigger] s@[i] && s@[i] <= 'z'),
    ensures
        r == record_type_of(s@),
{
    s.parse::<hickory_proto::rr::RecordType>().ok().map(u16::from)
}


/// Response answers by fingerprint, bounded and evicted by moka.
pub type AnswerCache = moka::sync::Cache<u64, crate::cache::StoredAnswer>;

/// What was last written under each key of an answer cache (bytes,
/// response code, deadline). Eviction may hide an entry from lookups; it
/// never brings back another value.
pub uninterp spec fn answer_contents(c: AnswerCache) -> Map<u64, (Seq<u8>, u8, u64)>;

/// Relies on moka's Cache builder (max_capacity, build): a new cache holds
/// nothing.
#[verifier::external_body]
pub(crate) fn answer_cache_new(capacity: u64) -> (r: AnswerCache)
    ensures
        answer_contents(r).dom().is_empty(),
{
    moka::sync::Cache::builder().max_capacity(capacity).build()
}

/// Relies on moka::sync::Cache::get: a clone of the value last inserted
/// under `k` while it is neither evicted nor replaced; otherwise nothing.
#[verifier::external_body]
pub(crate) fn answer_cache_get(c: &AnswerCache, k: u64) -> (r: Option<crate::cache::StoredAnswer>)
    ensures
        r is Some ==> answer_contents(*c).contains_key(k) && crate::cache::answer_view(r.unwrap())
            == answer_contents(*c)[k],
{
    c.get(&k)
}

/// Relies on moka::sync::Cache::insert: `k` holds `v` afterwards.
#[verifier::external_body]
pub(crate) fn answer_cache_insert(c: &mut AnswerCache, k: u64, v: crate::cache::StoredAnswer)
    ensures
        answer_contents(*final(c)) == answer_contents(*old(c)).insert(k, crate::cache::answer_view(v)),
{
    c.insert(k, v)
}

} // verus!
