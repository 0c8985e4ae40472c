//! Request- and response-phase decisions: what each action does, the
//! request phase over a set of pipelines, and pipeline jumps counted
//! against a limit.

use vstd::prelude::*;

use crate::config::{Action, Pipeline, Transport};
use crate::matcher::{combined, rule_matches, rule_outcomes, RequestView};

verus! {

/// What the response phase does next.
#[derive(Debug)]
pub enum ResponseDecision {
    /// Keep the current response and go on with the next action.
    Keep,
    /// Log, keep the current response and go on.
    Log { level: Option<String> },
    /// Stop with the current response.
    Accept,
    /// Replace the response with a refusal.
    Refuse,
    /// Replace the response with one carrying this response code.
    Replace { rcode: String },
    /// Replace the response with a fixed address answer.
    ReplaceIp { ip: String },
    /// Ask another upstream and use its response.
    Reissue { upstream: Option<String>, transport: Option<Transport> },
    /// Restart the response phase in another pipeline.
    Jump { pipeline: String },
}

/// The decision for `a` after `jumps` response-phase jumps under `limit`,
/// and the jump count afterwards. A jump beyond the limit is a no-op.
pub open spec fn response_step_of(a: Action, jumps: u32, limit: u32) -> (ResponseDecision, u32) {
    match a {
        Action::Log { level } => (ResponseDecision::Log { level }, jumps),
        Action::StaticResponse { rcode } => (ResponseDecision::Replace { rcode }, jumps),
        Action::StaticIpResponse { ip } => (ResponseDecision::ReplaceIp { ip }, jumps),
        Action::JumpToPipeline { pipeline } => if jumps < limit {
            (ResponseDecision::Jump { pipeline }, (jumps + 1) as u32)
        } else {
            (ResponseDecision::Keep, jumps)
        },
        Action::Allow => (ResponseDecision::Accept, jumps),
        Action::Deny => (ResponseDecision::Refuse, jumps),
        Action::Forward { upstream, transport } => (ResponseDecision::Reissue { upstream, transport }, jumps),
        Action::Continue => (ResponseDecision::Keep, jumps),
    }
}

/// Whether a decision leaves the current response as it is.
pub open spec fn keeps_response(d: ResponseDecision) -> bool {
    d is Keep || d is Log || d is Accept
}

fn copy_opt(s: &Option<String>) -> (r: Option<String>)
    ensures
        r == *s,
{
    match s {
        Some(v) => Some(v.clone()),
        None => None,
    }
}

pub fn response_step(a: &Action, jumps: u32, limit: u32) -> (r: (ResponseDecision, u32))
    ensures
        r == response_step_of(*a, jumps, limit),
{
    match a {
        Action::Log { level } => (ResponseDecision::Log { level: copy_opt(level) }, jumps),
        Action::StaticResponse { rcode } => (ResponseDecision::Replace { rcode: rcode.clone() }, jumps),
        Action::StaticIpResponse { ip } => (ResponseDecision::ReplaceIp { ip: ip.clone() }, jumps),
        Action::JumpToPipeline { pipeline } => {
            if jumps < limit {
                (ResponseDecision::Jump { pipeline: pipeline.clone() }, jumps + 1)
            } else {
                (ResponseDecision::Keep, jumps)
            }
        },
        Action::Allow => (ResponseDecision::Accept, jumps),
        Action::Deny => (ResponseDecision::Refuse, jumps),
        Action::Forward { upstream, transport } => (
            ResponseDecision::Reissue { upstream: copy_opt(upstream), transport: *transport },
            jumps,
        ),
        Action::Continue => (ResponseDecision::Keep, jumps),
    }
}

/// Jump count after running `actions` in order from `jumps`.
pub open spec fn jumps_after(actions: Seq<Action>, jumps: u32, limit: u32) -> u32
    decreases actions.len(),
{
    if actions.len() == 0 {
        jumps
    } else {
        response_step_of(actions.last(), jumps_after(actions.drop_last(), jumps, limit), limit).1
    }
}

/// Jump bound: once `limit` jumps were taken, a jump leaves the response as
/// it is and takes no further jump; from within the limit, no sequence of
/// actions takes the count past it.
pub proof fn response_jump_bound(a: Action, actions: Seq<Action>, jumps: u32, limit: u32)
    ensures
        a is JumpToPipeline && jumps >= limit ==> keeps_response(response_step_of(a, jumps, limit).0)
            && response_step_of(a, jumps, limit).1 == jumps,
        jumps <= limit ==> jumps_after(actions, jumps, limit) <= limit,
    decreases actions.len(),
{
    if actions.len() > 0 {
        response_jump_bound(a, actions.drop_last(), jumps, limit);
    }
}


/// What the request phase does next.
#[derive(Debug)]
pub enum RequestDecision {
    /// Go on with the next action (or the next rule after the last one).
    Next,
    /// Log and go on.
    Log { level: Option<String> },
    /// Stop and answer REFUSED.
    Refuse,
    /// Stop and answer with this response code.
    Synthesize { rcode: String },
    /// Stop and answer with this address (A or AAAA by its family).
    SynthesizeIp { ip: String },
    /// Stop and ask this upstream (the global default when `None`) over
    /// this transport.
    Upstream { upstream: Option<String>, transport: Transport },
    /// Restart rule evaluation in another pipeline.
    Jump { pipeline: String },
}

/// The request-phase decision for `a`: `allow` goes to the default upstream
/// over UDP, a `forward` without a transport uses UDP.
pub open spec fn request_step_of(a: Action) -> RequestDecision {
    match a {
        Action::Log { level } => RequestDecision::Log { level },
        Action::StaticResponse { rcode } => RequestDecision::Synthesize { rcode },
        Action::StaticIpResponse { ip } => RequestDecision::SynthesizeIp { ip },
        Action::JumpToPipeline { pipeline } => RequestDecision::Jump { pipeline },
        Action::Allow => RequestDecision::Upstream { upstream: None, transport: Transport::Udp },
        Action::Deny => RequestDecision::Refuse,
        Action::Forward { upstream, transport } => RequestDecision::Upstream {
            upstream,
            transport: match transport {
                Some(t) => t,
                None => Transport::Udp,
            },
        },
        Action::Continue => RequestDecision::Next,
    }
}

pub fn request_step(a: &Action) -> (r: RequestDecision)
    ensures
        r == request_step_of(*a),
{
    match a {
        Action::Log { level } => RequestDecision::Log { level: copy_opt(level) },
        Action::StaticResponse { rcode } => RequestDecision::Synthesize { rcode: rcode.clone() },
        Action::StaticIpResponse { ip } => RequestDecision::SynthesizeIp { ip: ip.clone() },
        Action::JumpToPipeline { pipeline } => RequestDecision::Jump { pipeline: pipeline.clone() },
        Action::Allow => RequestDecision::Upstream { upstream: None, transport: Transport::Udp },
        Action::Deny => RequestDecision::Refuse,
        Action::Forward { upstream, transport } => {
            let t = match transport {
                Some(t) => *t,
                None => Transport::Udp,
            };
            RequestDecision::Upstream { upstream: copy_opt(upstream), transport: t }
        },
        Action::Continue => RequestDecision::Next,
    }
}


/// Index of the first pipeline with id `id`.
pub open spec fn find_pipeline(ps: Seq<Pipeline>, id: Seq<char>, from: int) -> Option<int>
    decreases ps.len() - from,
{
    if from < 0 || from >= ps.len() {
        None
    } else if ps[from].id@ == id {
        Some(from)
    } else {
        find_pipeline(ps, id, from + 1)
    }
}

/// Request-phase evaluation from action `a` of rule `r` in pipeline `p`
/// after `jumps` jumps: rules whose matchers do not hold are skipped, a
/// matching rule's actions run in order, `continue` moves to the next
/// rule, a jump restarts in the named pipeline while fewer than `limit`
/// jumps were taken (otherwise, or to an unknown pipeline, it does
/// nothing), and the first terminal action decides. Without one the query
/// goes to the default upstream over UDP. Yields the decision and the
/// pipeline and rule where it was taken.
pub open spec fn request_eval(
    ps: Seq<Pipeline>,
    q: RequestView,
    p: int,
    r: int,
    a: int,
    jumps: nat,
    limit: nat,
) -> (RequestDecision, int, int)
    decreases (if jumps < limit {
        limit - jumps
    } else {
        0
    }) as nat, (if 0 <= p < ps.len() && r <= ps[p].rules@.len() {
        ps[p].rules@.len() - r
    } else {
        0
    }) as nat, (if 0 <= p < ps.len() && 0 <= r < ps[p].rules@.len() && a
        <= ps[p].rules@[r].actions@.len() {
        ps[p].rules@[r].actions@.len() - a
    } else {
        0
    }) as nat,
{
    if !(0 <= p < ps.len()) || r < 0 || a < 0 || r >= ps[p].rules@.len() {
        (RequestDecision::Upstream { upstream: None, transport: Transport::Udp }, p, r)
    } else {
        let rule = ps[p].rules@[r];
        if a == 0 && !combined(rule.matcher_operator, rule_outcomes(rule.matchers@, q)) {
            request_eval(ps, q, p, r + 1, 0, jumps, limit)
        } else if a >= rule.actions@.len() {
            request_eval(ps, q, p, r + 1, 0, jumps, limit)
        } else {
            let act = rule.actions@[a];
            match act {
                Action::Continue => request_eval(ps, q, p, r + 1, 0, jumps, limit),
                Action::JumpToPipeline { pipeline } => if jumps < limit && find_pipeline(
                    ps,
                    pipeline@,
                    0,
                ) is Some {
                    request_eval(
                        ps,
                        q,
                        find_pipeline(ps, pipeline@, 0).unwrap(),
                        0,
                        0,
                        jumps + 1,
                        limit,
                    )
                } else {
                    request_eval(ps, q, p, r, a + 1, jumps, limit)
                },
                Action::Log { level: _ } => request_eval(ps, q, p, r, a + 1, jumps, limit),
                _ => (request_step_of(act), p, r),
            }
        }
    }
}

proof fn lemma_find_in_range(ps: Seq<Pipeline>, id: Seq<char>, from: int)
    ensures
        find_pipeline(ps, id, from) matches Some(i) ==> from <= i < ps.len(),
    decreases ps.len() - from,
{
    if 0 <= from < ps.len() && ps[from].id@ != id {
        lemma_find_in_range(ps, id, from + 1);
    }
}

/// Levels of the `log` actions the request phase passes, in order, up to
/// the decision of `request_eval`.
pub open spec fn request_logs(
    ps: Seq<Pipeline>,
    q: RequestView,
    p: int,
    r: int,
    a: int,
    jumps: nat,
    limit: nat,
) -> Seq<Option<String>>
    decreases (if jumps < limit {
        limit - jumps
    } else {
        0
    }) as nat, (if 0 <= p < ps.len() && r <= ps[p].rules@.len() {
        ps[p].rules@.len() - r
    } else {
        0
    }) as nat, (if 0 <= p < ps.len() && 0 <= r < ps[p].rules@.len() && a
        <= ps[p].rules@[r].actions@.len() {
        ps[p].rules@[r].actions@.len() - a
    } else {
        0
    }) as nat,
{
    if !(0 <= p < ps.len()) || r < 0 || a < 0 || r >= ps[p].rules@.len() {
        Seq::empty()
    } else {
        let rule = ps[p].rules@[r];
        if a == 0 && !combined(rule.matcher_operator, rule_outcomes(rule.matchers@, q)) {
            request_logs(ps, q, p, r + 1, 0, jumps, limit)
        } else if a >= rule.actions@.len() {
            request_logs(ps, q, p, r + 1, 0, jumps, limit)
        } else {
            let act = rule.actions@[a];
            match act {
                Action::Continue => request_logs(ps, q, p, r + 1, 0, jumps, limit),
                Action::JumpToPipeline { pipeline } => if jumps < limit && find_pipeline(
                    ps,
                    pipeline@,
                    0,
                ) is Some {
                    request_logs(
                        ps,
                        q,
                        find_pipeline(ps, pipeline@, 0).unwrap(),
                        0,
                        0,
                        jumps + 1,
                        limit,
                    )
                } else {
                    request_logs(ps, q, p, r, a + 1, jumps, limit)
                },
                Action::Log { level } => seq![level] + request_logs(ps, q, p, r, a + 1, jumps, limit),
                _ => Seq::empty(),
            }
        }
    }
}


fn find_pipeline_index(ps: &Vec<Pipeline>, id: &String) -> (r: Option<usize>)
    ensures
        match find_pipeline(ps@, id@, 0) {
            Some(i) => r == Some(i as usize),
            None => r is None,
        },
        r matches Some(i) ==> i < ps@.len() && find_pipeline(ps@, id@, 0) == Some(i as int),
{
    let mut i: usize = 0;
    proof {
        lemma_find_in_range(ps@, id@, 0);
    }
    while i < ps.len()
        invariant
            i <= ps@.len(),
            find_pipeline(ps@, id@, 0) == find_pipeline(ps@, id@, i as int),
        decreases ps@.len() - i,
    {
        if ps[i].id == *id {
            return Some(i);
        }
        i = i + 1;
    }
    None
}

/// Runs the request phase of `pipelines[start]` for `q` (see
/// `request_eval`), allowing at most `limit` jumps. Returns the decision,
/// the pipeline index and the rule index where it was taken.
pub fn evaluate_request(pipelines: &Vec<Pipeline>, start: usize, q: &RequestView, limit: u32) -> (r: (
    RequestDecision,
    usize,
    usize,
    Vec<Option<String>>,
))
    requires
        start < pipelines@.len(),
    ensures
        r.0 == request_eval(pipelines@, *q, start as int, 0, 0, 0, limit as nat).0,
        r.1 as int == request_eval(pipelines@, *q, start as int, 0, 0, 0, limit as nat).1,
        r.2 as int == request_eval(pipelines@, *q, start as int, 0, 0, 0, limit as nat).2,
        r.3@ == request_logs(pipelines@, *q, start as int, 0, 0, 0, limit as nat),
{
    let ghost goal = request_eval(pipelines@, *q, start as int, 0, 0, 0, limit as nat);
    let ghost goal_logs = request_logs(pipelines@, *q, start as int, 0, 0, 0, limit as nat);
    let mut logs: Vec<Option<String>> = Vec::new();
    let mut p: usize = start;
    let mut r: usize = 0;
    let mut a: usize = 0;
    let mut jumps: u32 = 0;
    loop
        invariant
            p < pipelines@.len(),
            r <= pipelines@[p as int].rules@.len(),
            r < pipelines@[p as int].rules@.len() ==> a <= pipelines@[p as int].rules@[r as int].actions@.len(),
            r == pipelines@[p as int].rules@.len() ==> a == 0,
            jumps <= limit,
            goal == request_eval(pipelines@, *q, start as int, 0, 0, 0, limit as nat),
            goal == request_eval(pipelines@, *q, p as int, r as int, a as int, jumps as nat, limit as nat),
            goal_logs == request_logs(pipelines@, *q, start as int, 0, 0, 0, limit as nat),
            goal_logs == logs@ + request_logs(pipelines@, *q, p as int, r as int, a as int, jumps as nat, limit as nat),
        decreases (limit - jumps) as nat, (pipelines@[p as int].rules@.len() - r) as nat, (if r
            < pipelines@[p as int].rules@.len() {
            pipelines@[p as int].rules@[r as int].actions@.len() - a
        } else {
            0
        }) as nat,
    {
        let rules = &pipelines[p].rules;
        if r >= rules.len() {
            proof {
                assert(logs@ + Seq::<Option<String>>::empty() =~= logs@);
            }
            return (RequestDecision::Upstream { upstream: None, transport: Transport::Udp }, p, r, logs);
        }
        let rule = &rules[r];
        if a == 0 && !rule_matches(rule, q) {
            r = r + 1;
            continue;
        }
        if a >= rule.actions.len() {
            r = r + 1;
            a = 0;
            continue;
        }
        match &rule.actions[a] {
            Action::Continue => {
                r = r + 1;
                a = 0;
            },
            Action::JumpToPipeline { pipeline } => {
                match find_pipeline_index(pipelines, pipeline) {
                    Some(np) if jumps < limit => {
                        p = np;
                        r = 0;
                        a = 0;
                        jumps = jumps + 1;
                    },
                    _ => {
                        a = a + 1;
                    },
                }
            },
            Action::Log { level } => {
                let ghost before = logs@;
                logs.push(copy_opt(level));
                proof {
                    assert(logs@ + request_logs(pipelines@, *q, p as int, r as int, a + 1, jumps as nat, limit as nat)
                        =~= before + (seq![*level] + request_logs(pipelines@, *q, p as int, r as int, a + 1, jumps as nat, limit as nat)));
                }
                a = a + 1;
            },
            act => {
                proof {
                    assert(logs@ + Seq::<Option<String>>::empty() =~= logs@);
                }
                return (request_step(act), p, r, logs);
            },
        }
    }
}

} // verus!
