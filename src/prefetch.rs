//! Hot-domain prefetching: access counting, related-job generation, CDN
//! relations learned from CNAME chains, and job admission.

use vstd::prelude::*;

use crate::bindings::{
    answer_texts, clock_millis, clock_start, decode_message, names_view, permits_of,
    relation_contents, hot_contents, hot_table_get, hot_table_insert, hot_table_keys,
    hot_table_len, hot_table_new, relation_cache_get, relation_cache_insert,
    relation_cache_invalidate, relation_cache_new, slots_new,
    slots_try_take, stamp_contents, stamp_table_get, stamp_table_insert, stamp_table_new,
    stamp_table_remove, HotTable, RelationCache, StampTable,
};
use crate::bindings::{fx_hash, fx_hash_of};
use crate::cache::{
    fingerprint, fingerprint_of, push_lower, push_str_key, push_u16_key, str_key, u16_key, CacheEntry,
};
use crate::bindings::AnswerText;
use crate::cname::{bfs_related, cdn_relations_of, cname_edges_of, normalize_domain_str, normalized};
use crate::wire::lower_bytes;
use hickory_proto::op::Message;
use vstd::utf8::encode_utf8;
use std::sync::Arc;
use tokio::sync::{OwnedSemaphorePermit, Semaphore};

verus! {

/// Access statistics of one (qname, qtype) in a pipeline. Times are
/// milliseconds on the manager's clock.
#[derive(Debug, Clone)]
pub struct PrefetchEntry {
    pub qname: String,
    pub qtype: u16,
    pub upstream: String,
    pub access_count: u64,
    pub last_access: u64,
    pub first_access: u64,
}

/// Prefetch settings.
#[derive(Debug, Clone)]
pub struct PrefetchConfig {
    pub enabled: bool,
    /// Accesses after which a domain counts as hot.
    pub hot_threshold: u64,
    /// Prefetch jobs that may run at once.
    pub concurrency: usize,
    /// Least time between two prefetches of one job, in milliseconds.
    pub min_interval: u64,
    /// Prefetch AAAA when A was asked.
    pub ipv6_on_ipv4_enabled: bool,
    /// Prefetch the domains that the asked one is known to alias to.
    pub cdn_prefetch_enabled: bool,
}

impl Default for PrefetchConfig {
    fn default() -> (r: Self)
        ensures
            r.enabled,
            r.hot_threshold == 10,
            r.concurrency == 5,
            r.min_interval == 30_000,
            r.ipv6_on_ipv4_enabled,
            r.cdn_prefetch_enabled,
    {
        PrefetchConfig {
            enabled: true,
            hot_threshold: 10,
            concurrency: 5,
            min_interval: 30_000,
            ipv6_on_ipv4_enabled: true,
            cdn_prefetch_enabled: true,
        }
    }
}

/// A query to run ahead of demand.
#[derive(Debug, Clone)]
pub struct PrefetchJob {
    pub pipeline_id: String,
    pub qname: String,
    pub qtype: u16,
    pub upstream: String,
}

/// Hot-domain counts.
#[derive(Debug, Clone)]
pub struct PrefetchStats {
    pub total_domains: usize,
    pub hot_domains: usize,
    pub total_accesses: u64,
}

/// Relation cache lookups and how many found something.
#[derive(Debug, Clone, Copy)]
pub struct CdnRelationStats {
    pub lookups: u64,
    pub hits: u64,
}

/// Most origins whose relations are kept.
pub const CDN_RELATION_CACHE_CAPACITY: u64 = 10_000;

/// Seconds a learned relation is kept.
pub const CDN_RELATION_TTL_SECS: u64 = 600;

/// Room reserved up front in the access and time tables.
const TABLE_CAPACITY: usize = 2048;

pub const QTYPE_A: u16 = 1;

pub const QTYPE_AAAA: u16 = 28;

/// A job as plain values: pipeline, qname, qtype, upstream.
pub open spec fn job_view(j: PrefetchJob) -> (Seq<char>, Seq<char>, u16, Seq<char>) {
    (j.pipeline_id@, j.qname@, j.qtype, j.upstream@)
}

pub open spec fn job_views(js: Seq<PrefetchJob>) -> Seq<(Seq<char>, Seq<char>, u16, Seq<char>)> {
    js.map_values(|j: PrefetchJob| job_view(j))
}

/// Jobs that follow a resolved query: AAAA for an A query when that is on,
/// then one job per related domain, same type, when CDN prefetch is on.
pub open spec fn related_job_views(
    c: PrefetchConfig,
    pipeline: Seq<char>,
    qname: Seq<char>,
    qtype: u16,
    upstream: Seq<char>,
    related: Option<Seq<Seq<char>>>,
) -> Seq<(Seq<char>, Seq<char>, u16, Seq<char>)> {
    if !c.enabled {
        Seq::empty()
    } else {
        let v6 = if c.ipv6_on_ipv4_enabled && qtype == QTYPE_A {
            seq![(pipeline, qname, QTYPE_AAAA, upstream)]
        } else {
            Seq::empty()
        };
        let cdn = match related {
            Some(ds) if c.cdn_prefetch_enabled => ds.map_values(
                |d: Seq<char>| (pipeline, d, qtype, upstream),
            ),
            _ => Seq::empty(),
        };
        v6 + cdn
    }
}

/// The names a relation-cache answer holds, as text.
pub open spec fn names_of(o: Option<Vec<String>>) -> Option<Seq<Seq<char>>> {
    match o {
        Some(v) => Some(names_view(v@)),
        None => None,
    }
}

pub open spec fn seq_of(o: Option<Vec<String>>) -> Option<Seq<String>> {
    match o {
        Some(v) => Some(v@),
        None => None,
    }
}

/// Builds the jobs of `related_job_views` from an answer of the relation
/// cache.
pub fn jobs_for(
    c: &PrefetchConfig,
    pipeline_id: &str,
    qname: &str,
    qtype: u16,
    upstream: &str,
    related: Option<Vec<String>>,
) -> (r: Vec<PrefetchJob>)
    ensures
        job_views(r@) == related_job_views(
            *c,
            pipeline_id@,
            qname@,
            qtype,
            upstream@,
            names_of(related),
        ),
{
    let mut jobs: Vec<PrefetchJob> = Vec::new();
    if !c.enabled {
        proof {
            assert(job_views(jobs@) =~= Seq::empty());
        }
        return jobs;
    }
    if c.ipv6_on_ipv4_enabled && qtype == QTYPE_A {
        jobs.push(
            PrefetchJob {
                pipeline_id: pipeline_id.to_owned(),
                qname: qname.to_owned(),
                qtype: QTYPE_AAAA,
                upstream: upstream.to_owned(),
            },
        );
    }
    let ghost v6 = job_views(jobs@);
    proof {
        assert(v6 =~= (if c.ipv6_on_ipv4_enabled && qtype == QTYPE_A {
            seq![(pipeline_id@, qname@, QTYPE_AAAA, upstream@)]
        } else {
            Seq::empty()
        }));
    }
    if c.cdn_prefetch_enabled {
        if let Some(ds) = related {
            let mut i: usize = 0;
            while i < ds.len()
                invariant
                    i <= ds@.len(),
                    job_views(jobs@) == v6 + ds@.subrange(0, i as int).map_values(
                        |d: String| (pipeline_id@, d@, qtype, upstream@),
                    ),
                decreases ds@.len() - i,
            {
                let ghost before = jobs@;
                let name = ds[i].clone();
                jobs.push(
                    PrefetchJob {
                        pipeline_id: pipeline_id.to_owned(),
                        qname: name,
                        qtype,
                        upstream: upstream.to_owned(),
                    },
                );
                i = i + 1;
                proof {
                    assert(job_views(jobs@) =~= job_views(before).push(
                        (pipeline_id@, ds@[i - 1]@, qtype, upstream@),
                    ));
                    assert(ds@.subrange(0, i as int) =~= ds@.subrange(0, i - 1).push(ds@[i - 1]));
                    assert(job_views(jobs@) =~= v6 + ds@.subrange(0, i as int).map_values(
                        |d: String| (pipeline_id@, d@, qtype, upstream@),
                    ));
                }
            }
            proof {
                assert(ds@.subrange(0, ds@.len() as int) =~= ds@);
                assert(names_view(ds@).map_values(|d: Seq<char>| (pipeline_id@, d, qtype, upstream@))
                    =~= ds@.map_values(|d: String| (pipeline_id@, d@, qtype, upstream@)));
            }
            return jobs;
        }
    }
    proof {
        assert(job_views(jobs@) =~= v6 + Seq::empty());
    }
    jobs
}


/// Key of the relations learned for `primary` (read case-insensitively)
/// from one upstream in one pipeline.
pub open spec fn relation_key_of(pipeline: Seq<char>, upstream: Seq<char>, primary: Seq<char>) -> u64 {
    fx_hash_of(str_key(pipeline) + str_key(upstream) + lower_bytes(encode_utf8(primary)))
}

/// Key under which a job's last prefetch time is kept.
pub open spec fn job_key_of(j: PrefetchJob) -> u64 {
    fx_hash_of(str_key(j.pipeline_id@) + str_key(j.qname@) + u16_key(j.qtype) + str_key(j.upstream@))
}

pub fn cdn_relation_key(pipeline_id: &str, upstream: &str, primary: &str) -> (r: u64)
    ensures
        r == relation_key_of(pipeline_id@, upstream@, primary@),
{
    let mut k: Vec<u8> = Vec::new();
    push_str_key(&mut k, pipeline_id);
    push_str_key(&mut k, upstream);
    push_lower(&mut k, primary.as_bytes());
    proof {
        assert(k@ =~= str_key(pipeline_id@) + str_key(upstream@) + lower_bytes(encode_utf8(primary@)));
    }
    fx_hash(k.as_slice())
}

pub fn job_hash(job: &PrefetchJob) -> (r: u64)
    ensures
        r == job_key_of(*job),
{
    let mut k: Vec<u8> = Vec::new();
    push_str_key(&mut k, job.pipeline_id.as_str());
    push_str_key(&mut k, job.qname.as_str());
    push_u16_key(&mut k, job.qtype);
    push_str_key(&mut k, job.upstream.as_str());
    proof {
        assert(k@ =~= str_key(job.pipeline_id@) + str_key(job.qname@) + u16_key(job.qtype) + str_key(
            job.upstream@,
        ));
    }
    fx_hash(k.as_slice())
}

/// The entry after one more access at `now`: a known entry keeps its names
/// and first time, counts one more (saturating) and moves its last time; an
/// unknown one starts at one access.
pub open spec fn touched(
    prev: Option<PrefetchEntry>,
    qname: String,
    qtype: u16,
    upstream: String,
    now: u64,
) -> PrefetchEntry {
    match prev {
        Some(e) => PrefetchEntry {
            qname: e.qname,
            qtype: e.qtype,
            upstream: e.upstream,
            access_count: if e.access_count == u64::MAX {
                e.access_count
            } else {
                (e.access_count + 1) as u64
            },
            last_access: now,
            first_access: e.first_access,
        },
        None => PrefetchEntry {
            qname,
            qtype,
            upstream,
            access_count: 1,
            last_access: now,
            first_access: now,
        },
    }
}

/// One access to key `k`: its entry is touched and, once it reaches the hot
/// threshold, the key gets a prefetch time unless it has one.
pub open spec fn access_step(
    t: (Map<u64, PrefetchEntry>, Map<u64, u64>),
    k: u64,
    qname: String,
    qtype: u16,
    upstream: String,
    now: u64,
    threshold: u64,
) -> (Map<u64, PrefetchEntry>, Map<u64, u64>) {
    let prev = if t.0.contains_key(k) {
        Some(t.0[k])
    } else {
        None
    };
    let e = touched(prev, qname, qtype, upstream, now);
    let stamps = if e.access_count >= threshold && !t.1.contains_key(k) {
        t.1.insert(k, now)
    } else {
        t.1
    };
    (t.0.insert(k, e), stamps)
}

/// Accesses to each (key, qname) of `ks`, in order.
pub open spec fn access_fold(
    t: (Map<u64, PrefetchEntry>, Map<u64, u64>),
    ks: Seq<(u64, String)>,
    qtype: u16,
    upstream: String,
    now: u64,
    threshold: u64,
) -> (Map<u64, PrefetchEntry>, Map<u64, u64>)
    decreases ks.len(),
{
    if ks.len() == 0 {
        t
    } else {
        access_step(
            access_fold(t, ks.drop_last(), qtype, upstream, now, threshold),
            ks.last().0,
            ks.last().1,
            qtype,
            upstream,
            now,
            threshold,
        )
    }
}

/// The keys one cache hit touches: its own fingerprint, then that of each
/// related domain in the entry's pipeline with the entry's type.
pub open spec fn access_keys(entry: CacheEntry, hash: u64, related: Option<Seq<String>>) -> Seq<
    (u64, String),
> {
    seq![(hash, entry.qname)] + match related {
        Some(ds) => ds.map_values(
            |d: String| (fingerprint_of(entry.pipeline_id@, d@, entry.qtype), d),
        ),
        None => Seq::empty(),
    }
}

/// Milliseconds from `then` to `now`, zero when `now` is earlier.
pub open spec fn elapsed_ms(now: u64, then: u64) -> int {
    if now >= then {
        now - then
    } else {
        0
    }
}

/// A job keyed `h` may start at `now`: it never started, or the minimum
/// interval has passed since it last did.
pub open spec fn job_due(stamps: Map<u64, u64>, h: u64, now: u64, min_interval: u64) -> bool {
    !stamps.contains_key(h) || elapsed_ms(now, stamps[h]) >= min_interval
}

/// The time table before (`st`) and after (`st2`) admitting the job keyed
/// `h` at `now`, `granted` telling whether a permit came back: a job not due
/// changes nothing and gets none; a granted job records `now`; a due job
/// without a permit loses its record.
pub open spec fn admission_at(
    st: Map<u64, u64>,
    st2: Map<u64, u64>,
    h: u64,
    now: u64,
    min_interval: u64,
    granted: bool,
) -> bool {
    &&& !job_due(st, h, now, min_interval) ==> !granted && st2 == st
    &&& granted ==> job_due(st, h, now, min_interval) && st2 == st.insert(h, now)
    &&& job_due(st, h, now, min_interval) && !granted ==> st2 == st.remove(h)
}

/// Number of keys among `ks` whose entry has reached `threshold`.
pub open spec fn hot_count(ks: Seq<u64>, m: Map<u64, PrefetchEntry>, threshold: u64) -> nat
    decreases ks.len(),
{
    if ks.len() == 0 {
        0
    } else {
        hot_count(ks.drop_last(), m, threshold) + if m[ks.last()].access_count >= threshold {
            1nat
        } else {
            0nat
        }
    }
}

/// Sum of the access counts of the keys among `ks`.
pub open spec fn access_sum(ks: Seq<u64>, m: Map<u64, PrefetchEntry>) -> nat
    decreases ks.len(),
{
    if ks.len() == 0 {
        0
    } else {
        access_sum(ks.drop_last(), m) + m[ks.last()].access_count as nat
    }
}

/// Keys of `m` whose entry has reached `threshold`.
pub open spec fn hot_keys(m: Map<u64, PrefetchEntry>, threshold: u64) -> Set<u64> {
    m.dom().filter(|k: u64| m[k].access_count >= threshold)
}

proof fn lemma_hot_count(ks: Seq<u64>, m: Map<u64, PrefetchEntry>, threshold: u64)
    requires
        ks.no_duplicates(),
    ensures
        hot_count(ks, m, threshold) == ks.to_set().filter(|k: u64| m[k].access_count >= threshold).len(),
    decreases ks.len(),
{
    let f = |k: u64| m[k].access_count >= threshold;
    if ks.len() == 0 {
        assert(ks.to_set().filter(f) =~= Set::empty());
    } else {
        let init = ks.drop_last();
        let x = ks.last();
        assert(init.no_duplicates()) by {
            assert forall|i: int, j: int| 0 <= i < j < init.len() implies init[i] != init[j] by {
                assert(init[i] == ks[i] && init[j] == ks[j]);
            }
        }
        lemma_hot_count(init, m, threshold);
        assert(ks =~= init.push(x));
        init.lemma_push_to_set_commute(x);
        assert(!init.to_set().contains(x)) by {
            if init.to_set().contains(x) {
                let i = choose|i: int| 0 <= i < init.len() && init[i] == x;
                assert(ks[i] == ks[ks.len() - 1]);
            }
        }
        vstd::seq_lib::seq_to_set_is_finite(init);
        init.to_set().lemma_len_filter(f);
        if f(x) {
            assert(ks.to_set().filter(f) =~= init.to_set().filter(f).insert(x));
        } else {
            assert(ks.to_set().filter(f) =~= init.to_set().filter(f));
        }
    }
}

proof fn lemma_access_sum_remove(ks: Seq<u64>, m: Map<u64, PrefetchEntry>, i: int)
    requires
        0 <= i < ks.len(),
    ensures
        access_sum(ks, m) == access_sum(ks.remove(i), m) + m[ks[i]].access_count,
    decreases ks.len(),
{
    if i == ks.len() - 1 {
        assert(ks.remove(i) =~= ks.drop_last());
    } else {
        let init = ks.drop_last();
        lemma_access_sum_remove(init, m, i);
        assert(ks.remove(i).drop_last() =~= init.remove(i));
        assert(ks.remove(i).last() == ks.last());
    }
}

/// The access sum does not depend on the order in which keys are listed.
proof fn lemma_access_sum_set(a: Seq<u64>, b: Seq<u64>, m: Map<u64, PrefetchEntry>)
    requires
        a.no_duplicates(),
        b.no_duplicates(),
        a.to_set() == b.to_set(),
    ensures
        access_sum(a, m) == access_sum(b, m),
    decreases a.len(),
{
    a.unique_seq_to_set();
    b.unique_seq_to_set();
    if a.len() == 0 {
        assert(b.len() == 0);
    } else {
        let x = a.last();
        assert(a.to_set().contains(x));
        assert(b.to_set().contains(x));
        let i = choose|i: int| 0 <= i < b.len() && b[i] == x;
        lemma_access_sum_remove(b, m, i);
        let a1 = a.drop_last();
        let b1 = b.remove(i);
        assert(a1.no_duplicates()) by {
            assert forall|p: int, q: int| 0 <= p < q < a1.len() implies a1[p] != a1[q] by {
                assert(a1[p] == a[p] && a1[q] == a[q]);
            }
        }
        assert(b1.no_duplicates()) by {
            assert forall|p: int, q: int| 0 <= p < q < b1.len() implies b1[p] != b1[q] by {
                let pp = if p < i { p } else { p + 1 };
                let qq = if q < i { q } else { q + 1 };
                assert(b1[p] == b[pp] && b1[q] == b[qq]);
            }
        }
        assert(a1.to_set() =~= b1.to_set()) by {
            assert forall|k: u64| a1.to_set().contains(k) implies b1.to_set().contains(k) by {
                let p = choose|p: int| 0 <= p < a1.len() && a1[p] == k;
                assert(a[p] == k);
                assert(k != x);
                assert(b.to_set().contains(k));
                let q = choose|q: int| 0 <= q < b.len() && b[q] == k;
                assert(q != i);
                if q < i {
                    assert(b1[q] == k);
                } else {
                    assert(b1[q - 1] == k);
                }
            }
            assert forall|k: u64| b1.to_set().contains(k) implies a1.to_set().contains(k) by {
                let q = choose|q: int| 0 <= q < b1.len() && b1[q] == k;
                let qq = if q < i { q } else { q + 1 };
                assert(b[qq] == k);
                assert(k != x);
                assert(a.to_set().contains(k));
                let p = choose|p: int| 0 <= p < a.len() && a[p] == k;
                assert(p != a.len() - 1);
                assert(a1[p] == k);
            }
        }
        lemma_access_sum_set(a1, b1, m);
    }
}

/// Concurrency slots for a configured concurrency: at least one, at most
/// tokio's permit limit.
pub open spec fn slot_count(concurrency: usize) -> usize {
    if concurrency < 1 {
        1
    } else if concurrency > usize::MAX / 8 {
        (usize::MAX / 8) as usize
    } else {
        concurrency
    }
}

/// Relation key of an origin as registered: its normalized form.
pub open spec fn origin_key_of(pipeline: Seq<char>, upstream: Seq<char>, origin: Seq<char>) -> u64 {
    relation_key_of(pipeline, upstream, normalized(origin))
}

/// The relation cache after learning from `texts`: the origin's key holds
/// the related names (`bfs_related`), or nothing when there are none.
pub open spec fn relations_after(
    m: Map<u64, Seq<Seq<char>>>,
    pipeline: Seq<char>,
    upstream: Seq<char>,
    origin: Seq<char>,
    texts: Seq<AnswerText>,
) -> Map<u64, Seq<Seq<char>>> {
    let names = bfs_related(cname_edges_of(texts), normalized(origin));
    let key = origin_key_of(pipeline, upstream, origin);
    if names.len() == 0 {
        m.remove(key)
    } else {
        m.insert(key, names)
    }
}

/// The relation-cache update that answers given as (type, owner, CNAME
/// target) call for: the key of the normalized origin, and the related
/// names in breadth-first order (at most `CNAME_RELATION_LIMIT`, each
/// within `CNAME_CHAIN_LIMIT` links), or `None` when there are none.
pub fn relation_update(pipeline_id: &str, upstream: &str, origin: &str, texts: &Vec<AnswerText>) -> (r: (
    u64,
    Option<Vec<String>>,
))
    ensures
        r.0 == origin_key_of(pipeline_id@, upstream@, origin@),
        r.1 is None <==> bfs_related(cname_edges_of(texts@), normalized(origin@)).len() == 0,
        r.1 matches Some(v) ==> names_view(v@) == bfs_related(cname_edges_of(texts@), normalized(origin@)),
{
    let related = cdn_relations_of(origin, texts);
    let origin_norm = normalize_domain_str(origin);
    let key = cdn_relation_key(pipeline_id, upstream, origin_norm.as_str());
    if related.len() == 0 {
        (key, None)
    } else {
        (key, Some(related))
    }
}

/// Hot-domain bookkeeping and prefetch admission.
pub struct PrefetchManager {
    config: PrefetchConfig,
    hot_domains: HotTable,
    last_prefetch: StampTable,
    concurrency: Arc<Semaphore>,
    cdn_relations: RelationCache,
    cdn_relation_lookups: u64,
    cdn_relation_hits: u64,
    clock: std::time::Instant,
}

impl PrefetchManager {
    pub closed spec fn spec_config(&self) -> PrefetchConfig {
        self.config
    }

    /// Access entries by fingerprint.
    pub closed spec fn hot_view(&self) -> Map<u64, PrefetchEntry> {
        hot_contents(self.hot_domains)
    }

    /// Last prefetch time by key.
    pub closed spec fn stamp_view(&self) -> Map<u64, u64> {
        stamp_contents(self.last_prefetch)
    }

    pub closed spec fn lookups_view(&self) -> u64 {
        self.cdn_relation_lookups
    }

    pub closed spec fn hits_view(&self) -> u64 {
        self.cdn_relation_hits
    }

    /// Related names stored by relation key.
    pub closed spec fn relations_view(&self) -> Map<u64, Seq<Seq<char>>> {
        relation_contents(self.cdn_relations)
    }

    /// The number of prefetch jobs that may run at once.
    pub closed spec fn slots_view(&self) -> usize {
        permits_of(*self.concurrency)
    }

    /// A manager with no statistics and no relations; `concurrency` jobs
    /// may run at once, at least one and at most tokio's permit limit.
    pub fn new(config: PrefetchConfig) -> (r: Self)
        ensures
            r.spec_config() == config,
            r.hot_view().dom().is_empty(),
            r.stamp_view().dom().is_empty(),
            r.relations_view().dom().is_empty(),
            r.lookups_view() == 0,
            r.hits_view() == 0,
            r.slots_view() == slot_count(config.concurrency),
    {
        let most: usize = usize::MAX / 8;
        let limit = if config.concurrency < 1 {
            1
        } else if config.concurrency > most {
            most
        } else {
            config.concurrency
        };
        PrefetchManager {
            config,
            hot_domains: hot_table_new(TABLE_CAPACITY),
            last_prefetch: stamp_table_new(TABLE_CAPACITY),
            concurrency: slots_new(limit),
            cdn_relations: relation_cache_new(CDN_RELATION_CACHE_CAPACITY, CDN_RELATION_TTL_SECS),
            cdn_relation_lookups: 0,
            cdn_relation_hits: 0,
            clock: clock_start(),
        }
    }

    /// The settings.
    pub fn config(&self) -> (r: &PrefetchConfig)
        ensures
            *r == self.spec_config(),
    {
        &self.config
    }

    fn touch(&mut self, k: u64, qname: &String, qtype: u16, upstream: &String, now: u64)
        ensures
            final(self).cdn_relations == old(self).cdn_relations,
            final(self).concurrency == old(self).concurrency,
            (final(self).hot_view(), final(self).stamp_view()) == access_step(
                (old(self).hot_view(), old(self).stamp_view()),
                k,
                *qname,
                qtype,
                *upstream,
                now,
                old(self).config.hot_threshold,
            ),
            final(self).config == old(self).config,
            final(self).cdn_relation_lookups == old(self).cdn_relation_lookups,
            final(self).cdn_relation_hits == old(self).cdn_relation_hits,
    {
        let e = match hot_table_get(&self.hot_domains, k) {
            Some(prev) => PrefetchEntry {
                qname: prev.qname,
                qtype: prev.qtype,
                upstream: prev.upstream,
                access_count: if prev.access_count == u64::MAX {
                    prev.access_count
                } else {
                    prev.access_count + 1
                },
                last_access: now,
                first_access: prev.first_access,
            },
            None => PrefetchEntry {
                qname: qname.clone(),
                qtype,
                upstream: upstream.clone(),
                access_count: 1,
                last_access: now,
                first_access: now,
            },
        };
        if e.access_count >= self.config.hot_threshold {
            if stamp_table_get(&self.last_prefetch, k).is_none() {
                stamp_table_insert(&mut self.last_prefetch, k, now);
            }
        }
        hot_table_insert(&mut self.hot_domains, k, e);
    }

    /// Counts a cache hit at time `now` (milliseconds on the manager's
    /// clock), given what the relation cache holds for the entry's origin.
    /// Every touched key whose count reaches the hot threshold gets a
    /// prefetch time unless it has one. Nothing happens when prefetch is off.
    pub fn record_access_at(
        &mut self,
        hash: u64,
        entry: &CacheEntry,
        related: Option<Vec<String>>,
        now: u64,
    )
        ensures
            final(self).slots_view() == old(self).slots_view(),
            final(self).relations_view() == old(self).relations_view(),
            final(self).spec_config() == old(self).spec_config(),
            final(self).lookups_view() == old(self).lookups_view(),
            final(self).hits_view() == old(self).hits_view(),
            !old(self).spec_config().enabled ==> final(self).hot_view() == old(self).hot_view()
                && final(self).stamp_view() == old(self).stamp_view(),
            old(self).spec_config().enabled ==> (final(self).hot_view(), final(self).stamp_view())
                == access_fold(
                (old(self).hot_view(), old(self).stamp_view()),
                access_keys(*entry, hash, seq_of(related)),
                entry.qtype,
                entry.source,
                now,
                old(self).spec_config().hot_threshold,
            ),
    {
        if !self.config.enabled {
            return;
        }
        let ghost t0 = (self.hot_view(), self.stamp_view());
        let ghost keys = access_keys(*entry, hash, seq_of(related));
        let ghost thr = self.config.hot_threshold;
        self.touch(hash, &entry.qname, entry.qtype, &entry.source, now);
        proof {
            let sub1 = keys.subrange(0, 1);
            assert(sub1.drop_last() =~= Seq::<(u64, String)>::empty());
            assert(sub1.last() == (hash, entry.qname));
            assert(access_fold(t0, sub1.drop_last(), entry.qtype, entry.source, now, thr) == t0);
            assert(access_fold(t0, sub1, entry.qtype, entry.source, now, thr) == access_step(
                t0,
                hash,
                entry.qname,
                entry.qtype,
                entry.source,
                now,
                thr,
            ));
        }
        if let Some(ds) = related {
            let mut i: usize = 0;
            while i < ds.len()
                invariant
                    i <= ds@.len(),
                    seq_of(related) == Some(ds@),
                    keys == access_keys(*entry, hash, Some(ds@)),
                    keys.len() == ds@.len() + 1,
                    self.config.enabled,
                    self.config.hot_threshold == thr,
                    self.config == old(self).config,
                    self.cdn_relation_lookups == old(self).cdn_relation_lookups,
                    self.cdn_relation_hits == old(self).cdn_relation_hits,
                    self.cdn_relations == old(self).cdn_relations,
                    self.concurrency == old(self).concurrency,
                    (self.hot_view(), self.stamp_view()) == access_fold(
                        t0,
                        keys.subrange(0, i + 1),
                        entry.qtype,
                        entry.source,
                        now,
                        thr,
                    ),
                decreases ds@.len() - i,
            {
                let k = fingerprint(entry.pipeline_id.as_str(), ds[i].as_str(), entry.qtype);
                self.touch(k, &ds[i], entry.qtype, &entry.source, now);
                i = i + 1;
                proof {
                    let sub = keys.subrange(0, i + 1);
                    assert(sub.drop_last() =~= keys.subrange(0, i as int));
                    assert(sub.last() == keys[i as int]);
                    assert(keys[i as int] == (k, ds@[i - 1]));
                }
            }
            proof {
                assert(keys.subrange(0, ds@.len() as int + 1) =~= keys);
            }
        } else {
            proof {
                assert(keys.subrange(0, 1) =~= keys);
            }
        }
    }

    /// Counts a cache hit now; see `record_access_at`. The relation cache is
    /// asked only when CDN prefetch is on.
    pub fn record_access(&mut self, hash: u64, entry: &CacheEntry, _ttl_secs: u64)
        ensures
            final(self).slots_view() == old(self).slots_view(),
            final(self).relations_view() == old(self).relations_view(),
            final(self).spec_config() == old(self).spec_config(),
            !old(self).spec_config().enabled ==> final(self).hot_view() == old(self).hot_view()
                && final(self).stamp_view() == old(self).stamp_view()
                && final(self).lookups_view() == old(self).lookups_view(),
            old(self).spec_config().enabled ==> exists|related: Option<Seq<String>>, now: u64|
                (!old(self).spec_config().cdn_prefetch_enabled ==> related is None) && (related is Some
                    ==> old(self).relations_view().contains_key(
                    relation_key_of(entry.pipeline_id@, entry.source@, entry.qname@),
                ) && names_view(related.unwrap()) == old(self).relations_view()[relation_key_of(
                    entry.pipeline_id@,
                    entry.source@,
                    entry.qname@,
                )]) && (
                final(self).hot_view(),
                final(self).stamp_view(),
            ) == access_fold(
                (old(self).hot_view(), old(self).stamp_view()),
                access_keys(*entry, hash, related),
                entry.qtype,
                entry.source,
                now,
                old(self).spec_config().hot_threshold,
            ),
    {
        if !self.config.enabled {
            return;
        }
        let related = if self.config.cdn_prefetch_enabled {
            self.lookup_cdn_relations(
                entry.pipeline_id.as_str(),
                entry.source.as_str(),
                entry.qname.as_str(),
            )
        } else {
            None
        };
        let ghost mid = *self;
        let now = clock_millis(&self.clock);
        self.record_access_at(hash, entry, related, now);
        proof {
            assert(mid.hot_view() == old(self).hot_view());
        }
    }

    /// Looks up the relations of `primary` for this pipeline and upstream,
    /// counting the lookup and, when something was found, the hit.
    fn lookup_cdn_relations(&mut self, pipeline_id: &str, upstream: &str, primary: &str) -> (r:
        Option<Vec<String>>)
        ensures
            final(self).cdn_relations == old(self).cdn_relations,
            final(self).concurrency == old(self).concurrency,
            r is Some ==> old(self).relations_view().contains_key(relation_key_of(pipeline_id@, upstream@, primary@))
                && names_view(r.unwrap()@) == old(self).relations_view()[relation_key_of(
                pipeline_id@,
                upstream@,
                primary@,
            )],
            final(self).config == old(self).config,
            final(self).hot_view() == old(self).hot_view(),
            final(self).stamp_view() == old(self).stamp_view(),
            final(self).cdn_relation_lookups == old(self).cdn_relation_lookups.wrapping_add(1),
            final(self).cdn_relation_hits == if r is Some {
                old(self).cdn_relation_hits.wrapping_add(1)
            } else {
                old(self).cdn_relation_hits
            },
    {
        let key = cdn_relation_key(pipeline_id, upstream, primary);
        self.cdn_relation_lookups = self.cdn_relation_lookups.wrapping_add(1);
        let found = relation_cache_get(&self.cdn_relations, key);
        if found.is_some() {
            self.cdn_relation_hits = self.cdn_relation_hits.wrapping_add(1);
        }
        found
    }

    /// Jobs to run after a successful resolution of `qname`: see
    /// `related_job_views`. With prefetch off there are none and nothing is
    /// looked up; the relation cache is asked only when CDN prefetch is on.
    pub fn related_jobs(&mut self, pipeline_id: &str, qname: &str, qtype: u16, upstream: &str) -> (r:
        Vec<PrefetchJob>)
        ensures
            final(self).slots_view() == old(self).slots_view(),
            final(self).relations_view() == old(self).relations_view(),
            final(self).spec_config() == old(self).spec_config(),
            final(self).hot_view() == old(self).hot_view(),
            final(self).stamp_view() == old(self).stamp_view(),
            !(old(self).spec_config().enabled && old(self).spec_config().cdn_prefetch_enabled) ==> (
            final(self).lookups_view() == old(self).lookups_view() && final(self).hits_view()
                == old(self).hits_view()),
            !old(self).spec_config().enabled ==> r@.len() == 0,
            !old(self).spec_config().cdn_prefetch_enabled ==> job_views(r@) == related_job_views(
                old(self).spec_config(),
                pipeline_id@,
                qname@,
                qtype,
                upstream@,
                None,
            ),
            old(self).spec_config().enabled && old(self).spec_config().cdn_prefetch_enabled ==> (
            final(self).lookups_view() == old(self).lookups_view().wrapping_add(1) && exists|
                related: Option<Seq<Seq<char>>>,
            |
                (related is Some ==> old(self).relations_view().contains_key(
                    relation_key_of(pipeline_id@, upstream@, qname@),
                ) && related.unwrap() == old(self).relations_view()[relation_key_of(
                    pipeline_id@,
                    upstream@,
                    qname@,
                )]) && final(self).hits_view() == (if related is Some {
                    old(self).hits_view().wrapping_add(1)
                } else {
                    old(self).hits_view()
                }) && job_views(r@) == related_job_views(
                    old(self).spec_config(),
                    pipeline_id@,
                    qname@,
                    qtype,
                    upstream@,
                    related,
                )),
    {
        if !self.config.enabled {
            return Vec::new();
        }
        let related = if self.config.cdn_prefetch_enabled {
            self.lookup_cdn_relations(pipeline_id, upstream, qname)
        } else {
            None
        };
        jobs_for(&self.config, pipeline_id, qname, qtype, upstream, related)
    }

    /// Admits `job` at time `now` (milliseconds on the manager's clock),
    /// given whether a concurrency slot was free. A job that is not due
    /// (see `job_due`) is refused and changes nothing. A due job records
    /// `now` as its prefetch time; if no slot was free the record is removed
    /// again.
    pub fn try_prepare_job_at(&mut self, job: &PrefetchJob, now: u64) -> (r: Option<
        OwnedSemaphorePermit,
    >)
        ensures
            final(self).slots_view() == old(self).slots_view(),
            final(self).relations_view() == old(self).relations_view(),
            final(self).spec_config() == old(self).spec_config(),
            final(self).hot_view() == old(self).hot_view(),
            final(self).lookups_view() == old(self).lookups_view(),
            final(self).hits_view() == old(self).hits_view(),
            !old(self).spec_config().enabled || !job_due(
                old(self).stamp_view(),
                job_key_of(*job),
                now,
                old(self).spec_config().min_interval,
            ) ==> r is None && final(self).stamp_view() == old(self).stamp_view(),
            r is Some ==> old(self).spec_config().enabled && job_due(
                old(self).stamp_view(),
                job_key_of(*job),
                now,
                old(self).spec_config().min_interval,
            ) && final(self).stamp_view() == old(self).stamp_view().insert(job_key_of(*job), now),
            old(self).spec_config().enabled && job_due(
                old(self).stamp_view(),
                job_key_of(*job),
                now,
                old(self).spec_config().min_interval,
            ) && r is None ==> final(self).stamp_view() == old(self).stamp_view().remove(
                job_key_of(*job),
            ),
    {
        if !self.config.enabled {
            return None;
        }
        let hash = job_hash(job);
        if let Some(last) = stamp_table_get(&self.last_prefetch, hash) {
            let elapsed = if now >= last {
                now - last
            } else {
                0
            };
            if elapsed < self.config.min_interval {
                return None;
            }
        }
        stamp_table_insert(&mut self.last_prefetch, hash, now);
        match slots_try_take(&self.concurrency) {
            Some(permit) => Some(permit),
            None => {
                stamp_table_remove(&mut self.last_prefetch, hash);
                proof {
                    assert(self.stamp_view() =~= old(self).stamp_view().remove(hash));
                }
                None
            },
        }
    }

    /// Admits `job` now; see `try_prepare_job_at`.
    pub fn try_prepare_job(&mut self, job: &PrefetchJob) -> (r: Option<OwnedSemaphorePermit>)
        ensures
            final(self).relations_view() == old(self).relations_view(),
            final(self).slots_view() == old(self).slots_view(),
            final(self).spec_config() == old(self).spec_config(),
            final(self).hot_view() == old(self).hot_view(),
            final(self).lookups_view() == old(self).lookups_view(),
            final(self).hits_view() == old(self).hits_view(),
            !old(self).spec_config().enabled ==> r is None && final(self).stamp_view() == old(
                self,
            ).stamp_view(),
            old(self).spec_config().enabled ==> exists|now: u64|
                #[trigger] admission_at(
                    old(self).stamp_view(),
                    final(self).stamp_view(),
                    job_key_of(*job),
                    now,
                    old(self).spec_config().min_interval,
                    r is Some,
                ),
    {
        if !self.config.enabled {
            return None;
        }
        let now = clock_millis(&self.clock);
        let r = self.try_prepare_job_at(job, now);
        proof {
            let h = job_key_of(*job);
            let st = old(self).stamp_view();
            let mi = old(self).spec_config().min_interval;
            assert(!job_due(st, h, now, mi) ==> r is None && self.stamp_view() == st);
            assert(r is Some ==> job_due(st, h, now, mi) && self.stamp_view() == st.insert(h, now));
            assert(job_due(st, h, now, mi) && r is None ==> self.stamp_view() == st.remove(h));
            assert(admission_at(st, self.stamp_view(), h, now, mi, r is Some));
        }
        r
    }

    /// Counts of the access table: keys, keys that reached the hot threshold,
    /// and all accesses (saturating).
    pub fn get_stats(&self) -> (r: PrefetchStats)
        ensures
            r.total_domains == self.hot_view().dom().len(),
            r.hot_domains == hot_keys(self.hot_view(), self.spec_config().hot_threshold).len(),
            forall|ks: Seq<u64>|
                ks.no_duplicates() && ks.to_set() == self.hot_view().dom() ==> r.total_accesses as int == if access_sum(ks, self.hot_view()) > u64::MAX {
                    u64::MAX as int
                } else {
                    access_sum(ks, self.hot_view()) as int
                },
    {
        let total_domains = hot_table_len(&self.hot_domains);
        let keys = hot_table_keys(&self.hot_domains);
        let ghost m = self.hot_view();
        let ghost thr = self.config.hot_threshold;
        let mut hot: usize = 0;
        let mut total: u64 = 0;
        let mut i: usize = 0;
        while i < keys.len()
            invariant
                i <= keys@.len(),
                keys@.to_set() == m.dom(),
                m == self.hot_view(),
                thr == self.config.hot_threshold,
                hot == hot_count(keys@.subrange(0, i as int), m, thr),
                hot <= i,
                total as int == if access_sum(keys@.subrange(0, i as int), m) > u64::MAX {
                    u64::MAX as int
                } else {
                    access_sum(keys@.subrange(0, i as int), m) as int
                },
            decreases keys@.len() - i,
        {
            let k = keys[i];
            proof {
                assert(keys@.to_set().contains(keys@[i as int]));
            }
            let e = hot_table_get(&self.hot_domains, k);
            let e = match e {
                Some(e) => e,
                None => {
                    proof {
                        assert(false);
                    }
                    return PrefetchStats { total_domains, hot_domains: hot, total_accesses: total };
                },
            };
            if e.access_count >= self.config.hot_threshold {
                hot = hot + 1;
            }
            total = total.saturating_add(e.access_count);
            i = i + 1;
            proof {
                let sub = keys@.subrange(0, i as int);
                assert(sub.drop_last() =~= keys@.subrange(0, i - 1));
                assert(sub.last() == k);
            }
        }
        proof {
            assert(keys@.subrange(0, keys@.len() as int) =~= keys@);
            lemma_hot_count(keys@, m, thr);
            assert forall|ks: Seq<u64>| ks.no_duplicates() && ks.to_set() == m.dom() implies access_sum(ks, m)
                == access_sum(keys@, m) by {
                lemma_access_sum_set(ks, keys@, m);
            }
            assert(hot_keys(m, thr) =~= keys@.to_set().filter(|k: u64| m[k].access_count >= thr));
        }
        PrefetchStats { total_domains, hot_domains: hot, total_accesses: total }
    }

    /// Learns the related names of `origin` from a decoded response and
    /// updates the relation cache as `relation_update` says: the key gets
    /// the names found, or loses what it held when there are none. Nothing
    /// happens unless both prefetch and CDN prefetch are on.
    pub fn register_cdn_relations_from_message(
        &mut self,
        pipeline_id: &str,
        upstream: &str,
        origin: &str,
        message: &Message,
    )
        ensures
            final(self).spec_config() == old(self).spec_config(),
            final(self).hot_view() == old(self).hot_view(),
            final(self).stamp_view() == old(self).stamp_view(),
            final(self).lookups_view() == old(self).lookups_view(),
            final(self).hits_view() == old(self).hits_view(),
            final(self).slots_view() == old(self).slots_view(),
            !(old(self).spec_config().enabled && old(self).spec_config().cdn_prefetch_enabled)
                ==> final(self).relations_view() == old(self).relations_view(),
            old(self).spec_config().enabled && old(self).spec_config().cdn_prefetch_enabled ==> exists|
                texts: Seq<AnswerText>,
            |
                final(self).relations_view() == relations_after(
                    old(self).relations_view(),
                    pipeline_id@,
                    upstream@,
                    origin@,
                    texts,
                ),
    {
        if !self.config.enabled || !self.config.cdn_prefetch_enabled {
            return;
        }
        let texts = answer_texts(message);
        self.learn_relations(pipeline_id, upstream, origin, &texts);
    }

    /// Updates the relation cache from answers given as (type, owner, CNAME
    /// target), as `relations_after` says, when prefetch and CDN prefetch
    /// are on; otherwise changes nothing.
    pub fn learn_relations(&mut self, pipeline_id: &str, upstream: &str, origin: &str, texts: &Vec<AnswerText>)
        ensures
            final(self).spec_config() == old(self).spec_config(),
            final(self).hot_view() == old(self).hot_view(),
            final(self).stamp_view() == old(self).stamp_view(),
            final(self).lookups_view() == old(self).lookups_view(),
            final(self).hits_view() == old(self).hits_view(),
            final(self).slots_view() == old(self).slots_view(),
            !(old(self).spec_config().enabled && old(self).spec_config().cdn_prefetch_enabled)
                ==> final(self).relations_view() == old(self).relations_view(),
            old(self).spec_config().enabled && old(self).spec_config().cdn_prefetch_enabled
                ==> final(self).relations_view() == relations_after(
                old(self).relations_view(),
                pipeline_id@,
                upstream@,
                origin@,
                texts@,
            ),
    {
        if !self.config.enabled || !self.config.cdn_prefetch_enabled {
            return;
        }
        let (key, related) = relation_update(pipeline_id, upstream, origin, texts);
        match related {
            None => relation_cache_invalidate(&mut self.cdn_relations, key),
            Some(names) => relation_cache_insert(&mut self.cdn_relations, key, names),
        }
    }

    /// Decodes `response` and learns from it as
    /// `register_cdn_relations_from_message` does; a response that does not
    /// decode changes nothing.
    pub fn register_cdn_relations_from_response(
        &mut self,
        pipeline_id: &str,
        upstream: &str,
        origin: &str,
        response: &[u8],
    )
        ensures
            final(self).spec_config() == old(self).spec_config(),
            final(self).hot_view() == old(self).hot_view(),
            final(self).stamp_view() == old(self).stamp_view(),
            final(self).lookups_view() == old(self).lookups_view(),
            final(self).hits_view() == old(self).hits_view(),
            final(self).slots_view() == old(self).slots_view(),
            !(old(self).spec_config().enabled && old(self).spec_config().cdn_prefetch_enabled)
                ==> final(self).relations_view() == old(self).relations_view(),
            old(self).spec_config().enabled && old(self).spec_config().cdn_prefetch_enabled ==> (
            final(self).relations_view() == old(self).relations_view() || exists|
                texts: Seq<AnswerText>,
            |
                final(self).relations_view() == relations_after(
                    old(self).relations_view(),
                    pipeline_id@,
                    upstream@,
                    origin@,
                    texts,
                )),
    {
        if !self.config.enabled || !self.config.cdn_prefetch_enabled {
            return;
        }
        if let Some(message) = decode_message(response) {
            self.register_cdn_relations_from_message(pipeline_id, upstream, origin, &message);
        }
    }

    /// Lookups of the relation cache so far and how many found something.
    pub fn cdn_relation_stats(&self) -> (r: CdnRelationStats)
        ensures
            r.lookups == self.lookups_view(),
            r.hits == self.hits_view(),
    {
        CdnRelationStats { lookups: self.cdn_relation_lookups, hits: self.cdn_relation_hits }
    }
}

} // verus!
