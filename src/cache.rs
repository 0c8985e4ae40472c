//! Cache keys and the response cache rules: fingerprints, the effective TTL,
//! which responses may be stored, and the transaction-id patch on reuse.

use vstd::prelude::*;
use vstd::utf8::encode_utf8;

use crate::bindings::{
    answer_cache_get, answer_cache_insert, answer_cache_new, answer_contents, fx_hash, fx_hash_of, AnswerCache,
};
use crate::wire::{lower_bytes, set_transaction_id};
use std::collections::HashSet;

verus! {

broadcast use vstd::std_specs::hash::group_hash_axioms;

/// A stored upstream answer.
#[derive(Debug, Clone)]
pub struct CacheEntry {
    /// Wire bytes of the response; the first two (the transaction id) are
    /// patched before each send.
    pub bytes: Vec<u8>,
    /// Response code number (0 = NOERROR, 2 = SERVFAIL, 3 = NXDOMAIN, 5 = REFUSED).
    pub rcode: u8,
    /// Identity of the upstream that answered.
    pub source: String,
    pub qname: String,
    pub pipeline_id: String,
    pub qtype: u16,
}

/// The bytes a string contributes to a key: its UTF-8, then `0xFF`.
pub open spec fn str_key(s: Seq<char>) -> Seq<u8> {
    encode_utf8(s).push(0xFF)
}

/// The bytes a 16-bit value contributes to a key, big-endian.
pub open spec fn u16_key(v: u16) -> Seq<u8> {
    seq![(v / 256) as u8, (v % 256) as u8]
}

/// Bytes hashed for the fingerprint of (pipeline, qname, qtype): the qname's
/// bytes enter ASCII-lowercased.
pub open spec fn fingerprint_bytes(pipeline: Seq<char>, qname: Seq<char>, qtype: u16) -> Seq<u8> {
    str_key(pipeline) + lower_bytes(encode_utf8(qname)) + u16_key(qtype)
}

pub open spec fn fingerprint_of(pipeline: Seq<char>, qname: Seq<char>, qtype: u16) -> u64 {
    fx_hash_of(fingerprint_bytes(pipeline, qname, qtype))
}

pub(crate) fn push_bytes(out: &mut Vec<u8>, b: &[u8])
    ensures
        final(out)@ == old(out)@ + b@,
{
    let mut i: usize = 0;
    while i < b.len()
        invariant
            i <= b@.len(),
            out@ == old(out)@ + b@.subrange(0, i as int),
        decreases b@.len() - i,
    {
        out.push(b[i]);
        i = i + 1;
        proof {
            assert(b@.subrange(0, i as int) =~= b@.subrange(0, i - 1) + seq![b@[i - 1]]);
        }
    }
    proof {
        assert(b@.subrange(0, b@.len() as int) =~= b@);
    }
}

pub(crate) fn push_lower(out: &mut Vec<u8>, b: &[u8])
    ensures
        final(out)@ == old(out)@ + lower_bytes(b@),
{
    let mut i: usize = 0;
    while i < b.len()
        invariant
            i <= b@.len(),
            out@ == old(out)@ + lower_bytes(b@.subrange(0, i as int)),
        decreases b@.len() - i,
    {
        let c = b[i];
        let l = if c >= 65 && c <= 90 {
            c + 32
        } else {
            c
        };
        out.push(l);
        i = i + 1;
        proof {
            assert(lower_bytes(b@.subrange(0, i as int)) =~= lower_bytes(b@.subrange(0, i - 1)) + seq![l]);
        }
    }
    proof {
        assert(b@.subrange(0, b@.len() as int) =~= b@);
    }
}

pub(crate) fn push_str_key(out: &mut Vec<u8>, s: &str)
    ensures
        final(out)@ == old(out)@ + str_key(s@),
{
    push_bytes(out, s.as_bytes());
    out.push(0xFF);
    proof {
        assert(final(out)@ =~= old(out)@ + str_key(s@));
    }
}

pub(crate) fn push_u16_key(out: &mut Vec<u8>, v: u16)
    ensures
        final(out)@ == old(out)@ + u16_key(v),
{
    out.push((v / 256) as u8);
    out.push((v % 256) as u8);
    proof {
        assert(final(out)@ =~= old(out)@ + u16_key(v));
    }
}

/// Cache key of a query within a pipeline. The qname is read
/// case-insensitively (ASCII); the transaction id takes no part.
pub fn fingerprint(pipeline_id: &str, qname: &str, qtype: u16) -> (r: u64)
    ensures
        r == fingerprint_of(pipeline_id@, qname@, qtype),
{
    let mut k: Vec<u8> = Vec::new();
    push_str_key(&mut k, pipeline_id);
    push_lower(&mut k, qname.as_bytes());
    push_u16_key(&mut k, qtype);
    proof {
        assert(k@ =~= fingerprint_bytes(pipeline_id@, qname@, qtype));
    }
    fx_hash(k.as_slice())
}

/// Two qnames that differ only in ASCII case have the same fingerprint in a
/// pipeline, for every query type.
pub proof fn fingerprint_ignores_ascii_case(pipeline: Seq<char>, a: Seq<char>, b: Seq<char>, qtype: u16)
    requires
        lower_bytes(encode_utf8(a)) == lower_bytes(encode_utf8(b)),
    ensures
        fingerprint_of(pipeline, a, qtype) == fingerprint_of(pipeline, b, qtype),
{
}


pub const RCODE_NOERROR: u8 = 0;

pub const RCODE_SERVFAIL: u8 = 2;

pub const RCODE_NXDOMAIN: u8 = 3;

pub const RCODE_REFUSED: u8 = 5;

/// Only NOERROR and NXDOMAIN answers are stored, and never a truncated
/// answer that came over UDP.
pub open spec fn cacheable(rcode: u8, truncated: bool, over_udp: bool) -> bool {
    (rcode == RCODE_NOERROR || rcode == RCODE_NXDOMAIN) && !(truncated && over_udp)
}

pub fn is_cacheable(rcode: u8, truncated: bool, over_udp: bool) -> (r: bool)
    ensures
        r == cacheable(rcode, truncated, over_udp),
{
    (rcode == RCODE_NOERROR || rcode == RCODE_NXDOMAIN) && !(truncated && over_udp)
}

/// `x` raised to `lo`, then lowered to `hi`.
pub open spec fn clamp_ttl(x: u32, lo: u32, hi: u32) -> u32 {
    let raised = if x < lo {
        lo
    } else {
        x
    };
    if raised > hi {
        hi
    } else {
        raised
    }
}

/// TTL given to a stored answer: its smallest record TTL, at least the
/// global minimum, at most `upper`.
pub fn effective_ttl(min_from_response: u32, min_global: u32, upper: u32) -> (r: u32)
    ensures
        r == clamp_ttl(min_from_response, min_global, upper),
{
    let raised = if min_from_response < min_global {
        min_global
    } else {
        min_from_response
    };
    if raised > upper {
        upper
    } else {
        raised
    }
}

/// Stored bytes with `tx_id` big-endian in the first two (a message shorter
/// than two bytes is kept as it is).
pub open spec fn patched(stored: Seq<u8>, tx_id: u16) -> Seq<u8> {
    if stored.len() < 2 {
        stored
    } else {
        seq![(tx_id / 256) as u8, (tx_id % 256) as u8] + stored.subrange(2, stored.len() as int)
    }
}

/// Transaction-id isolation: what is sent for a stored answer starts with
/// the requester's id and is the stored bytes after it, so any two
/// requesters get the same bytes past the id.
pub proof fn txid_isolation(stored: Seq<u8>, t1: u16, t2: u16)
    requires
        stored.len() >= 2,
    ensures
        patched(stored, t1).len() == stored.len(),
        patched(stored, t1)[0] as int * 256 + patched(stored, t1)[1] as int == t1 as int,
        patched(stored, t1).subrange(2, stored.len() as int) == stored.subrange(2, stored.len() as int),
        patched(stored, t1).subrange(2, stored.len() as int) == patched(stored, t2).subrange(
            2,
            stored.len() as int,
        ),
{
    assert(patched(stored, t1).subrange(2, stored.len() as int) =~= stored.subrange(2, stored.len() as int));
    assert(patched(stored, t2).subrange(2, stored.len() as int) =~= stored.subrange(2, stored.len() as int));
}

/// The bytes to send for a stored answer: the stored bytes with the
/// requester's transaction id in the first two.
pub fn patched_response(stored: &[u8], tx_id: u16) -> (r: Vec<u8>)
    ensures
        r@ == patched(stored@, tx_id),
        r@.len() == stored@.len(),
        stored@.len() >= 2 ==> r@[0] == (tx_id / 256) as u8 && r@[1] == (tx_id % 256) as u8,
        stored@.len() >= 2 ==> r@.subrange(2, r@.len() as int) == stored@.subrange(2, stored@.len() as int),
        stored@.len() < 2 ==> r@ == stored@,
{
    let mut out: Vec<u8> = Vec::new();
    push_bytes(&mut out, stored);
    proof {
        assert(out@ =~= stored@);
    }
    set_transaction_id(out.as_mut_slice(), tx_id);
    proof {
        if stored@.len() >= 2 {
            assert(out@[0] as int * 256 + out@[1] as int == tx_id as int);
            assert(out@ =~= patched(stored@, tx_id));
        }
    }
    out
}

/// A stored answer and when it stops being served (milliseconds).
#[derive(Clone)]
pub struct StoredAnswer {
    pub entry: CacheEntry,
    pub expires_at: u64,
}

/// What the cache rules read of a stored answer: its bytes, its response
/// code and its deadline.
pub open spec fn answer_view(a: StoredAnswer) -> (Seq<u8>, u8, u64) {
    (a.entry.bytes@, a.entry.rcode, a.expires_at)
}

/// An answer stored under `fp` is served at `now` only before its deadline.
pub open spec fn live(m: Map<u64, (Seq<u8>, u8, u64)>, fp: u64, now: u64) -> bool {
    m.contains_key(fp) && now < m[fp].2
}

/// Result of a lookup.
pub enum CacheLookup {
    /// A live answer: its bytes, response code and milliseconds left.
    Hit { bytes: Vec<u8>, rcode: u8, remaining_ttl: u64 },
    /// An answer whose deadline has passed.
    Expired,
    /// Nothing found (never stored, replaced by nothing, or evicted).
    Miss,
}

/// Result of asking for an answer with single-flight.
pub enum Flight {
    /// A live answer's bytes.
    Present { bytes: Vec<u8> },
    /// The caller must resolve the query and then call `complete`.
    Leader,
    /// Another caller is resolving the query.
    Follower,
}

/// Outcome of `begin` given whether the lookup found a live answer:
/// 0 present, 1 leader, 2 follower.
pub open spec fn begin_kind(inflight: Set<u64>, fp: u64, found: bool) -> int {
    if found {
        0
    } else if inflight.contains(fp) {
        2
    } else {
        1
    }
}

/// In-flight set after `begin`.
pub open spec fn begin_inflight(inflight: Set<u64>, fp: u64, found: bool) -> Set<u64> {
    if begin_kind(inflight, fp, found) == 1 {
        inflight.insert(fp)
    } else {
        inflight
    }
}

/// How many of successive `begin` calls for `fp` lead, the lookups of
/// which found a live answer as `found` says.
pub open spec fn leaders(inflight: Set<u64>, fp: u64, found: Seq<bool>) -> nat
    decreases found.len(),
{
    if found.len() == 0 {
        0
    } else {
        (if begin_kind(inflight, fp, found[0]) == 1 {
            1nat
        } else {
            0nat
        }) + leaders(begin_inflight(inflight, fp, found[0]), fp, found.drop_first())
    }
}

proof fn lemma_no_more_leaders(inflight: Set<u64>, fp: u64, found: Seq<bool>)
    requires
        inflight.contains(fp),
    ensures
        leaders(inflight, fp, found) == 0,
    decreases found.len(),
{
    if found.len() > 0 {
        lemma_no_more_leaders(begin_inflight(inflight, fp, found[0]), fp, found.drop_first());
    }
}

/// Single-flight: of any number of `begin` calls for one fingerprint
/// before it completes, whatever their lookups find, at most one leads;
/// exactly one when none was in flight and no lookup found an answer.
pub proof fn single_flight(inflight: Set<u64>, fp: u64, found: Seq<bool>)
    ensures
        leaders(inflight, fp, found) <= 1,
        found.len() > 0 && !inflight.contains(fp) && (forall|i: int| 0 <= i < found.len() ==> !found[i])
            ==> leaders(inflight, fp, found) == 1,
    decreases found.len(),
{
    if found.len() > 0 {
        let next = begin_inflight(inflight, fp, found[0]);
        if begin_kind(inflight, fp, found[0]) == 1 {
            lemma_no_more_leaders(next, fp, found.drop_first());
        } else {
            single_flight(next, fp, found.drop_first());
            if inflight.contains(fp) {
                lemma_no_more_leaders(inflight, fp, found);
            }
        }
    }
}

/// Remaining lifetime of a live answer at `now`.
pub open spec fn remaining(m: Map<u64, (Seq<u8>, u8, u64)>, fp: u64, now: u64) -> int {
    m[fp].2 - now
}

/// TTL monotonicity: an answer live at a later time was live earlier, and
/// its remaining lifetime only shrinks as time goes on.
pub proof fn ttl_monotone(m: Map<u64, (Seq<u8>, u8, u64)>, fp: u64, t1: u64, t2: u64)
    requires
        t1 <= t2,
    ensures
        live(m, fp, t2) ==> live(m, fp, t1),
        live(m, fp, t2) ==> 0 < remaining(m, fp, t2) <= remaining(m, fp, t1),
{
}

/// Whether `complete` stores the answer: it is cacheable and the cache
/// can hold anything at all.
pub open spec fn stores(capacity: u64, entry: Option<CacheEntry>, truncated: bool, over_udp: bool) -> bool {
    match entry {
        Some(e) => cacheable(e.rcode, truncated, over_udp) && capacity > 0,
        None => false,
    }
}

/// Stored answers after `complete`: a stored answer replaces what `fp`
/// held; otherwise nothing changes.
pub open spec fn completed(
    m: Map<u64, (Seq<u8>, u8, u64)>,
    capacity: u64,
    fp: u64,
    entry: Option<CacheEntry>,
    truncated: bool,
    over_udp: bool,
    expires_at: u64,
) -> Map<u64, (Seq<u8>, u8, u64)> {
    if stores(capacity, entry, truncated, over_udp) {
        m.insert(fp, (entry.unwrap().bytes@, entry.unwrap().rcode, expires_at))
    } else {
        m
    }
}

/// SERVFAIL and REFUSED answers, and truncated answers over UDP, never
/// enter the cache.
pub proof fn non_cacheable_not_stored(
    m: Map<u64, (Seq<u8>, u8, u64)>,
    capacity: u64,
    fp: u64,
    e: CacheEntry,
    truncated: bool,
    over_udp: bool,
    expires_at: u64,
)
    requires
        e.rcode == RCODE_SERVFAIL || e.rcode == RCODE_REFUSED || (truncated && over_udp),
    ensures
        completed(m, capacity, fp, Some(e), truncated, over_udp, expires_at) == m,
{
}

/// Response cache with single-flight: answers keyed by fingerprint, each
/// with a deadline, held in a bounded moka cache (which evicts on its own),
/// and the fingerprints being resolved.
pub struct ResponseCache {
    entries: AnswerCache,
    inflight: HashSet<u64>,
    capacity: u64,
}

impl ResponseCache {
    /// Answers last stored under each key (an evicted one may no longer be
    /// found).
    pub closed spec fn entries_view(&self) -> Map<u64, (Seq<u8>, u8, u64)> {
        answer_contents(self.entries)
    }

    pub closed spec fn inflight_view(&self) -> Set<u64> {
        self.inflight@
    }

    pub closed spec fn capacity_view(&self) -> u64 {
        self.capacity
    }

    /// Every stored answer is NOERROR or NXDOMAIN.
    pub open spec fn wf(&self) -> bool {
        forall|k: u64|
            #[trigger] self.entries_view().contains_key(k) ==> (self.entries_view()[k].1
                == RCODE_NOERROR || self.entries_view()[k].1 == RCODE_NXDOMAIN)
    }

    pub fn new(capacity: u64) -> (r: Self)
        ensures
            r.wf(),
            r.entries_view().dom().is_empty(),
            r.inflight_view().is_empty(),
            r.capacity_view() == capacity,
    {
        ResponseCache { entries: answer_cache_new(capacity), inflight: HashSet::new(), capacity }
    }

    /// The answer stored under `fp`, if it is found and still live at `now`.
    pub fn lookup(&self, fp: u64, now: u64) -> (r: CacheLookup)
        requires
            self.wf(),
        ensures
            r is Hit ==> live(self.entries_view(), fp, now),
            r is Expired ==> self.entries_view().contains_key(fp) && !live(self.entries_view(), fp, now),
            !self.entries_view().contains_key(fp) ==> r is Miss,
            r matches CacheLookup::Hit { bytes, rcode, remaining_ttl } ==> bytes@
                == self.entries_view()[fp].0 && rcode == self.entries_view()[fp].1
                && remaining_ttl == remaining(self.entries_view(), fp, now),
    {
        match answer_cache_get(&self.entries, fp) {
            None => CacheLookup::Miss,
            Some(a) => {
                if now < a.expires_at {
                    CacheLookup::Hit { bytes: a.entry.bytes, rcode: a.entry.rcode, remaining_ttl: a.expires_at - now }
                } else {
                    CacheLookup::Expired
                }
            },
        }
    }

    /// The bytes to send for `fp` to a requester with `tx_id`, when a live
    /// answer is found: see `patched_response`.
    pub fn respond(&self, fp: u64, tx_id: u16, now: u64) -> (r: Option<Vec<u8>>)
        requires
            self.wf(),
        ensures
            r is Some ==> live(self.entries_view(), fp, now),
            !self.entries_view().contains_key(fp) ==> r is None,
            r matches Some(b) ==> b@ == patched(self.entries_view()[fp].0, tx_id),
    {
        match self.lookup(fp, now) {
            CacheLookup::Hit { bytes, rcode: _, remaining_ttl: _ } => Some(patched_response(bytes.as_slice(), tx_id)),
            _ => None,
        }
    }

    /// Answers at once from a live answer that the lookup finds; otherwise
    /// the first caller for `fp` becomes the leader and later ones follow
    /// until `complete`.
    pub fn begin(&mut self, fp: u64, now: u64) -> (r: Flight)
        requires
            old(self).wf(),
        ensures
            final(self).wf(),
            final(self).entries_view() == old(self).entries_view(),
            final(self).capacity_view() == old(self).capacity_view(),
            exists|found: bool|
                {
                    &&& found ==> live(old(self).entries_view(), fp, now)
                    &&& !old(self).entries_view().contains_key(fp) ==> !found
                    &&& final(self).inflight_view() == begin_inflight(old(self).inflight_view(), fp, found)
                    &&& (r is Present) == (#[trigger] begin_kind(old(self).inflight_view(), fp, found) == 0)
                    &&& (r is Leader) == (begin_kind(old(self).inflight_view(), fp, found) == 1)
                    &&& (r is Follower) == (begin_kind(old(self).inflight_view(), fp, found) == 2)
                },
            r matches Flight::Present { bytes } ==> bytes@ == old(self).entries_view()[fp].0,
    {
        match self.lookup(fp, now) {
            CacheLookup::Hit { bytes, rcode: _, remaining_ttl: _ } => {
                proof {
                    assert(begin_kind(old(self).inflight_view(), fp, true) == 0);
                }
                Flight::Present { bytes }
            },
            _ => {
                if self.inflight.contains(&fp) {
                    proof {
                        assert(begin_kind(old(self).inflight_view(), fp, false) == 2);
                    }
                    Flight::Follower
                } else {
                    self.inflight.insert(fp);
                    proof {
                        assert(begin_kind(old(self).inflight_view(), fp, false) == 1);
                        assert(self.inflight_view() == begin_inflight(old(self).inflight_view(), fp, false));
                    }
                    Flight::Leader
                }
            },
        }
    }

    /// Ends the flight for `fp` and stores the leader's answer as
    /// `completed` says, to be served for `ttl_secs` seconds from `now`.
    pub fn complete(
        &mut self,
        fp: u64,
        entry: Option<CacheEntry>,
        truncated: bool,
        over_udp: bool,
        ttl_secs: u32,
        now: u64,
    )
        requires
            old(self).wf(),
        ensures
            final(self).wf(),
            final(self).capacity_view() == old(self).capacity_view(),
            final(self).inflight_view() == old(self).inflight_view().remove(fp),
            final(self).entries_view() == completed(
                old(self).entries_view(),
                old(self).capacity_view(),
                fp,
                entry,
                truncated,
                over_udp,
                now.saturating_add(((ttl_secs as u64) * 1000) as u64),
            ),
    {
        self.inflight.remove(&fp);
        assert(self.entries_view() == old(self).entries_view());
        assert(self.wf());
        let expires_at = now.saturating_add((ttl_secs as u64) * 1000);
        if let Some(e) = entry {
            if is_cacheable(e.rcode, truncated, over_udp) && self.capacity > 0 {
                let ghost rc = e.rcode;
                answer_cache_insert(&mut self.entries, fp, StoredAnswer { entry: e, expires_at });
                proof {
                    assert forall|k: u64| #[trigger] self.entries_view().contains_key(k) implies (
                    self.entries_view()[k].1 == RCODE_NOERROR || self.entries_view()[k].1
                        == RCODE_NXDOMAIN) by {
                        if k != fp {
                            assert(old(self).entries_view().contains_key(k));
                        } else {
                            assert(self.entries_view()[k].1 == rc);
                        }
                    }
                }
            }
        }
    }
}

} // verus!
