//! Request predicates and how a rule's predicates combine under its
//! operator, evaluated left to right with short-circuit; pipeline selection.

use vstd::prelude::*;
use vstd::utf8::encode_utf8;

use crate::bindings::{
    ascii_uppercase, net_of, parse_ip_net, record_type_code, record_type_of, regex_is_match,
    regex_match_of, split_commas, split_on, trim_space, trimmed, upper_char,
};
use crate::config::{
    MatchOperator, Matcher, MatcherWithOp, PipelineSelectRule, PipelineSelectorMatcher,
    PipelineSelectorMatcherWithOp, ResponseMatcher, ResponseMatcherWithOp, Rule,
};
use crate::wire::{lower_byte, lower_bytes};

verus! {

/// AND-NOT and the legacy NOT negate every predicate after the first.
pub open spec fn negates_rest(op: MatchOperator) -> bool {
    op == MatchOperator::AndNot || op == MatchOperator::OrNot || op == MatchOperator::Not
}

/// OR and OR-NOT fold with "or"; the others with "and".
pub open spec fn is_disjunction(op: MatchOperator) -> bool {
    op == MatchOperator::Or || op == MatchOperator::OrNot
}

/// Predicate `i` as the fold sees it.
pub open spec fn term(op: MatchOperator, ps: Seq<bool>, i: int) -> bool {
    if i > 0 && negates_rest(op) {
        !ps[i]
    } else {
        ps[i]
    }
}

/// AND: all hold; OR: one holds; AND-NOT: the first holds and no later one;
/// OR-NOT: the first holds or a later one does not. Without predicates the
/// "and" operators hold and the "or" operators do not.
pub open spec fn combined(op: MatchOperator, ps: Seq<bool>) -> bool {
    if is_disjunction(op) {
        exists|i: int| 0 <= i < ps.len() && #[trigger] term(op, ps, i)
    } else {
        forall|i: int| 0 <= i < ps.len() ==> #[trigger] term(op, ps, i)
    }
}

/// Combines predicate outcomes in order and says how many were consulted:
/// evaluation stops at the first term that decides the result (a false one
/// under "and", a true one under "or").
pub fn combine_outcomes(op: MatchOperator, outcomes: &[bool]) -> (r: (bool, usize))
    ensures
        r.0 == combined(op, outcomes@),
        r.1 <= outcomes@.len(),
        forall|i: int| 0 <= i < r.1 - 1 ==> #[trigger] term(op, outcomes@, i) != is_disjunction(op),
        r.1 < outcomes@.len() ==> r.1 > 0 && term(op, outcomes@, r.1 - 1) == is_disjunction(op),
{
    let disj = op == MatchOperator::Or || op == MatchOperator::OrNot;
    let neg = op == MatchOperator::AndNot || op == MatchOperator::OrNot || op == MatchOperator::Not;
    let mut i: usize = 0;
    while i < outcomes.len()
        invariant
            i <= outcomes@.len(),
            disj == is_disjunction(op),
            neg == negates_rest(op),
            forall|j: int| 0 <= j < i ==> #[trigger] term(op, outcomes@, j) != disj,
        decreases outcomes@.len() - i,
    {
        let t = if i > 0 && neg {
            !outcomes[i]
        } else {
            outcomes[i]
        };
        assert(term(op, outcomes@, i as int) == t);
        if t == disj {
            return (disj, i + 1);
        }
        i = i + 1;
    }
    (!disj, i)
}

/// Law of the operators: AND holds iff every predicate does, OR iff one
/// does, AND-NOT iff the first does and none after it, OR-NOT iff the first
/// does or one after it does not.
pub proof fn operator_semantics(ps: Seq<bool>)
    ensures
        combined(MatchOperator::And, ps) == forall|i: int| 0 <= i < ps.len() ==> #[trigger] ps[i],
        combined(MatchOperator::Or, ps) == exists|i: int| 0 <= i < ps.len() && #[trigger] ps[i],
        ps.len() > 0 ==> combined(MatchOperator::AndNot, ps) == (ps[0] && forall|i: int|
            1 <= i < ps.len() ==> !#[trigger] ps[i]),
        ps.len() > 0 ==> combined(MatchOperator::OrNot, ps) == (ps[0] || exists|i: int|
            1 <= i < ps.len() && !#[trigger] ps[i]),
{
    let and = MatchOperator::And;
    let or = MatchOperator::Or;
    let an = MatchOperator::AndNot;
    let on = MatchOperator::OrNot;
    assert(combined(and, ps) == forall|i: int| 0 <= i < ps.len() ==> #[trigger] ps[i]) by {
        assert forall|i: int| 0 <= i < ps.len() implies term(and, ps, i) == ps[i] by {}
    }
    assert(combined(or, ps) == exists|i: int| 0 <= i < ps.len() && #[trigger] ps[i]) by {
        if exists|i: int| 0 <= i < ps.len() && #[trigger] ps[i] {
            let i = choose|i: int| 0 <= i < ps.len() && #[trigger] ps[i];
            assert(term(or, ps, i));
        }
    }
    if ps.len() > 0 {
        assert(term(an, ps, 0) == ps[0]);
        assert(term(on, ps, 0) == ps[0]);
        assert(combined(an, ps) == (ps[0] && forall|i: int| 1 <= i < ps.len() ==> !#[trigger] ps[i])) by {
            if ps[0] && forall|i: int| 1 <= i < ps.len() ==> !#[trigger] ps[i] {
                assert forall|i: int| 0 <= i < ps.len() implies #[trigger] term(an, ps, i) by {
                    if i > 0 {
                        assert(!ps[i]);
                    }
                }
            }
            if combined(an, ps) {
                assert forall|i: int| 1 <= i < ps.len() implies !#[trigger] ps[i] by {
                    assert(term(an, ps, i));
                }
            }
        }
        assert(combined(on, ps) == (ps[0] || exists|i: int| 1 <= i < ps.len() && !#[trigger] ps[i])) by {
            if exists|i: int| 1 <= i < ps.len() && !#[trigger] ps[i] {
                let i = choose|i: int| 1 <= i < ps.len() && !#[trigger] ps[i];
                assert(term(on, ps, i));
            }
            if combined(on, ps) && !ps[0] {
                let i = choose|i: int| 0 <= i < ps.len() && #[trigger] term(on, ps, i);
                assert(i != 0);
                assert(!ps[i]);
            }
        }
    }
}


/// What request predicates look at.
pub struct RequestView {
    /// The query name as quick parse gives it (lowercased, dotted).
    pub qname: String,
    pub qclass: u16,
    /// Whether the query carries an EDNS record.
    pub edns: bool,
    /// Client address bytes: 4 for IPv4, 16 for IPv6.
    pub client_ip: Vec<u8>,
    /// Tag of the listener that received the query.
    pub listener_label: String,
}

/// `name` is `suffix` or ends with `.` and then `suffix`, ASCII case
/// ignored.
pub open spec fn suffix_match(name: Seq<u8>, suffix: Seq<u8>) -> bool {
    let n = lower_bytes(name);
    let s = lower_bytes(suffix);
    n == s || (n.len() > s.len() && n.subrange(n.len() - s.len(), n.len() as int) == s && n[n.len()
        - s.len() - 1] == 0x2E)
}

pub fn domain_suffix_matches(name: &str, suffix: &str) -> (r: bool)
    ensures
        r == suffix_match(encode_utf8(name@), encode_utf8(suffix@)),
{
    let nb = name.as_bytes();
    let sb = suffix.as_bytes();
    let nl = nb.len();
    let sl = sb.len();
    let ghost n = lower_bytes(nb@);
    let ghost s = lower_bytes(sb@);
    assert(nb@ == encode_utf8(name@));
    assert(n.len() == nl && s.len() == sl);
    if nl < sl {
        proof {
            assert(n.len() != s.len());
        }
        return false;
    }
    let mut j: usize = 0;
    while j < sl
        invariant
            nl == nb@.len(),
            sl == sb@.len(),
            nb@ == encode_utf8(name@),
            sb@ == encode_utf8(suffix@),
            sl <= nl,
            n == lower_bytes(nb@),
            s == lower_bytes(sb@),
            j <= sl,
            forall|k: int| 0 <= k < j ==> n[nl - sl + k] == s[k],
        decreases sl - j,
    {
        let a = if nb[nl - sl + j] >= 65 && nb[nl - sl + j] <= 90 {
            nb[nl - sl + j] + 32
        } else {
            nb[nl - sl + j]
        };
        let b = if sb[j] >= 65 && sb[j] <= 90 {
            sb[j] + 32
        } else {
            sb[j]
        };
        if a != b {
            proof {
                assert(n.len() == nl && s.len() == sl);
                assert(n[nl - sl + j] == lower_byte(nb@[nl - sl + j]));
                assert(s[j as int] == lower_byte(sb@[j as int]));
                assert(n[nl - sl + j] != s[j as int]);
                assert(n.subrange(nl - sl, nl as int)[j as int] != s[j as int]);
                assert(n != s);
            }
            return false;
        }
        j = j + 1;
    }
    proof {
        assert(n.subrange(nl - sl, nl as int) =~= s);
    }
    if nl == sl {
        proof {
            assert(n =~= s);
        }
        return true;
    }
    let dot = nb[nl - sl - 1];
    proof {
        assert(n[nl - sl - 1] == lower_byte(dot));
        assert(n != s);
    }
    dot == 0x2E
}

/// `2^(8 - rem)`: the divisor that keeps the top `rem` bits of a byte.
pub open spec fn top_bits_divisor(rem: int) -> int {
    if rem == 1 {
        128
    } else if rem == 2 {
        64
    } else if rem == 3 {
        32
    } else if rem == 4 {
        16
    } else if rem == 5 {
        8
    } else if rem == 6 {
        4
    } else {
        2
    }
}

fn top_bits_div(rem: u8) -> (r: u8)
    requires
        1 <= rem <= 7,
    ensures
        r as int == top_bits_divisor(rem as int),
{
    if rem == 1 {
        128
    } else if rem == 2 {
        64
    } else if rem == 3 {
        32
    } else if rem == 4 {
        16
    } else if rem == 5 {
        8
    } else if rem == 6 {
        4
    } else {
        2
    }
}

/// `a` and `b` agree on their first `bits` bits.
pub open spec fn prefix_eq(a: Seq<u8>, b: Seq<u8>, bits: int) -> bool {
    &&& forall|i: int| 0 <= i < bits / 8 ==> a[i] == b[i]
    &&& bits % 8 == 0 || a[bits / 8] as int / top_bits_divisor(bits % 8) == b[bits / 8] as int
        / top_bits_divisor(bits % 8)
}

/// `ip` lies in the network written `cidr`.
pub open spec fn in_net(cidr: Seq<char>, ip: Seq<u8>) -> bool {
    match net_of(cidr) {
        Some((a, p)) => a.len() == ip.len() && prefix_eq(a, ip, p as int),
        None => false,
    }
}

/// `ip` lies in one of the comma-separated networks of `list` (blank parts
/// are skipped).
pub open spec fn in_net_list(list: Seq<char>, ip: Seq<u8>) -> bool {
    exists|i: int|
        0 <= i < split_on(list, ',').len() && trimmed(#[trigger] split_on(list, ',')[i]).len() > 0
            && in_net(trimmed(split_on(list, ',')[i]), ip)
}

pub fn ip_in_net(cidr: &str, ip: &[u8]) -> (r: bool)
    ensures
        r == in_net(cidr@, ip@),
{
    match parse_ip_net(cidr) {
        None => false,
        Some((a, p)) => {
            if a.len() != ip.len() {
                return false;
            }
            let full = (p / 8) as usize;
            let rem = p % 8;
            let mut i: usize = 0;
            while i < full
                invariant
                    a@.len() == ip@.len(),
                    net_of(cidr@) == Some((a@, p)),
                    full as int == p as int / 8,
                    full <= a@.len(),
                    i <= full,
                    forall|k: int| 0 <= k < i ==> a@[k] == ip@[k],
                decreases full - i,
            {
                if a[i] != ip[i] {
                    proof {
                        assert(a@[i as int] != ip@[i as int]);
                        assert(!prefix_eq(a@, ip@, p as int));
                    }
                    return false;
                }
                i = i + 1;
            }
            if rem == 0 {
                true
            } else {
                let d = top_bits_div(rem);
                a[full] / d == ip[full] / d
            }
        },
    }
}

pub fn ip_in_net_list(list: &str, ip: &[u8]) -> (r: bool)
    ensures
        r == in_net_list(list@, ip@),
{
    let parts = split_commas(list);
    let ghost views = parts@.map_values(|p: String| p@);
    let mut i: usize = 0;
    while i < parts.len()
        invariant
            i <= parts@.len(),
            views == parts@.map_values(|p: String| p@),
            views == split_on(list@, ','),
            forall|j: int|
                0 <= j < i ==> !(trimmed(#[trigger] views[j]).len() > 0 && in_net(trimmed(views[j]), ip@)),
        decreases parts@.len() - i,
    {
        let part = trim_space(parts[i].as_str());
        assert(views[i as int] == parts@[i as int]@);
        if !part.as_str().is_empty() && ip_in_net(part.as_str(), ip) {
            return true;
        }
        i = i + 1;
    }
    false
}

/// ASCII uppercase of one byte.
pub open spec fn upper_byte(b: u8) -> u8 {
    if 97 <= b <= 122 {
        (b - 32) as u8
    } else {
        b
    }
}

/// Class code of a class name, ASCII case ignored: IN 1, CH 3, HS 4,
/// NONE 254, ANY or `*` 255.
pub open spec fn class_code_of(s: Seq<u8>) -> Option<u16> {
    let u = s.map_values(|b: u8| upper_byte(b));
    if u == seq![73u8, 78u8] {
        Some(1)
    } else if u == seq![67u8, 72u8] {
        Some(3)
    } else if u == seq![72u8, 83u8] {
        Some(4)
    } else if u == seq![78u8, 79u8, 78u8, 69u8] {
        Some(254)
    } else if u == seq![65u8, 78u8, 89u8] || u == seq![42u8] {
        Some(255)
    } else {
        None
    }
}

fn upper_u8(b: u8) -> (r: u8)
    ensures
        r == upper_byte(b),
{
    if b >= 97 && b <= 122 {
        b - 32
    } else {
        b
    }
}

pub fn qclass_code(name: &str) -> (r: Option<u16>)
    ensures
        r == class_code_of(encode_utf8(name@)),
{
    let b = name.as_bytes();
    let ghost u = b@.map_values(|x: u8| upper_byte(x));
    let n = b.len();
    if n == 1 {
        let x = upper_u8(b[0]);
        proof {
            assert(u =~= seq![x]);
            assert(seq![x].len() == 1);
            assert(u != seq![73u8, 78u8] && u != seq![67u8, 72u8] && u != seq![72u8, 83u8]);
            assert(u != seq![78u8, 79u8, 78u8, 69u8] && u != seq![65u8, 78u8, 89u8]);
            assert(b@ == encode_utf8(name@));
            if x == 42 {
                assert(u == seq![42u8]);
            } else {
                assert(u != seq![42u8]) by {
                    assert(u[0] != seq![42u8][0]);
                }
            }
        }
        return if x == 42 {
            Some(255)
        } else {
            None
        };
    }
    if n == 2 {
        let x = upper_u8(b[0]);
        let y = upper_u8(b[1]);
        proof {
            assert(u[0] == x && u[1] == y);
            assert(u =~= seq![x, y]);
        }
        return if x == 73 && y == 78 {
            Some(1)
        } else if x == 67 && y == 72 {
            Some(3)
        } else if x == 72 && y == 83 {
            Some(4)
        } else {
            None
        };
    }
    if n == 3 {
        let x = upper_u8(b[0]);
        let y = upper_u8(b[1]);
        let z = upper_u8(b[2]);
        proof {
            assert(u =~= seq![x, y, z]);
        }
        return if x == 65 && y == 78 && z == 89 {
            Some(255)
        } else {
            None
        };
    }
    if n == 4 {
        let x = upper_u8(b[0]);
        let y = upper_u8(b[1]);
        let z = upper_u8(b[2]);
        let w = upper_u8(b[3]);
        proof {
            assert(u =~= seq![x, y, z, w]);
        }
        return if x == 78 && y == 79 && z == 78 && w == 69 {
            Some(254)
        } else {
            None
        };
    }
    proof {
        assert(u.len() == n);
    }
    None
}

/// Whether a request predicate holds. A regular expression that does not
/// compile matches nothing.
pub open spec fn matcher_holds(m: Matcher, q: RequestView) -> bool {
    match m {
        Matcher::Any => true,
        Matcher::DomainSuffix { value } => suffix_match(encode_utf8(q.qname@), encode_utf8(value@)),
        Matcher::DomainRegex { value } => regex_match_of(value@, q.qname@) == Some(true),
        Matcher::ClientIp { cidr } => in_net_list(cidr@, q.client_ip@),
        Matcher::Qclass { value } => class_code_of(encode_utf8(value@)) == Some(q.qclass),
        Matcher::EdnsPresent { expect } => q.edns == expect,
    }
}

/// Whether a selection predicate holds.
pub open spec fn selector_holds(m: PipelineSelectorMatcher, q: RequestView) -> bool {
    match m {
        PipelineSelectorMatcher::ListenerLabel { value } => q.listener_label@ == value@,
        PipelineSelectorMatcher::ClientIp { cidr } => in_net_list(cidr@, q.client_ip@),
        PipelineSelectorMatcher::DomainSuffix { value } => suffix_match(
            encode_utf8(q.qname@),
            encode_utf8(value@),
        ),
        PipelineSelectorMatcher::DomainRegex { value } => regex_match_of(value@, q.qname@) == Some(true),
        PipelineSelectorMatcher::Any => true,
        PipelineSelectorMatcher::Qclass { value } => class_code_of(encode_utf8(value@)) == Some(q.qclass),
        PipelineSelectorMatcher::EdnsPresent { expect } => q.edns == expect,
    }
}

fn regex_holds(pattern: &str, text: &str) -> (r: bool)
    ensures
        r == (regex_match_of(pattern@, text@) == Some(true)),
{
    match regex_is_match(pattern, text) {
        Some(b) => b,
        None => false,
    }
}

pub fn matcher_matches(m: &Matcher, q: &RequestView) -> (r: bool)
    ensures
        r == matcher_holds(*m, *q),
{
    match m {
        Matcher::Any => true,
        Matcher::DomainSuffix { value } => domain_suffix_matches(q.qname.as_str(), value.as_str()),
        Matcher::DomainRegex { value } => regex_holds(value.as_str(), q.qname.as_str()),
        Matcher::ClientIp { cidr } => ip_in_net_list(cidr.as_str(), q.client_ip.as_slice()),
        Matcher::Qclass { value } => match qclass_code(value.as_str()) {
            Some(c) => c == q.qclass,
            None => false,
        },
        Matcher::EdnsPresent { expect } => q.edns == *expect,
    }
}

pub fn selector_matches(m: &PipelineSelectorMatcher, q: &RequestView) -> (r: bool)
    ensures
        r == selector_holds(*m, *q),
{
    match m {
        PipelineSelectorMatcher::ListenerLabel { value } => q.listener_label == *value,
        PipelineSelectorMatcher::ClientIp { cidr } => ip_in_net_list(cidr.as_str(), q.client_ip.as_slice()),
        PipelineSelectorMatcher::DomainSuffix { value } => domain_suffix_matches(
            q.qname.as_str(),
            value.as_str(),
        ),
        PipelineSelectorMatcher::DomainRegex { value } => regex_holds(value.as_str(), q.qname.as_str()),
        PipelineSelectorMatcher::Any => true,
        PipelineSelectorMatcher::Qclass { value } => match qclass_code(value.as_str()) {
            Some(c) => c == q.qclass,
            None => false,
        },
        PipelineSelectorMatcher::EdnsPresent { expect } => q.edns == *expect,
    }
}

pub open spec fn rule_outcomes(ms: Seq<MatcherWithOp>, q: RequestView) -> Seq<bool> {
    ms.map_values(|m: MatcherWithOp| matcher_holds(m.matcher, q))
}

pub open spec fn selector_outcomes(ms: Seq<PipelineSelectorMatcherWithOp>, q: RequestView) -> Seq<bool> {
    ms.map_values(|m: PipelineSelectorMatcherWithOp| selector_holds(m.matcher, q))
}

/// Whether a rule's request matchers hold together under its operator;
/// matchers after the first decisive one are not evaluated.
pub fn rule_matches(rule: &Rule, q: &RequestView) -> (r: bool)
    ensures
        r == combined(rule.matcher_operator, rule_outcomes(rule.matchers@, *q)),
{
    let op = rule.matcher_operator;
    let ghost ps = rule_outcomes(rule.matchers@, *q);
    let disj = op == MatchOperator::Or || op == MatchOperator::OrNot;
    let neg = op == MatchOperator::AndNot || op == MatchOperator::OrNot || op == MatchOperator::Not;
    let mut i: usize = 0;
    while i < rule.matchers.len()
        invariant
            i <= rule.matchers@.len(),
            op == rule.matcher_operator,
            ps == rule_outcomes(rule.matchers@, *q),
            ps.len() == rule.matchers@.len(),
            disj == is_disjunction(op),
            neg == negates_rest(op),
            forall|j: int| 0 <= j < i ==> #[trigger] term(op, ps, j) != disj,
        decreases rule.matchers@.len() - i,
    {
        let holds = matcher_matches(&rule.matchers[i].matcher, q);
        let t = if i > 0 && neg {
            !holds
        } else {
            holds
        };
        assert(term(op, ps, i as int) == t);
        if t == disj {
            proof {
                if disj {
                    assert(combined(op, ps));
                } else {
                    assert(!combined(op, ps));
                }
            }
            return disj;
        }
        i = i + 1;
    }
    !disj
}

fn select_rule_matches(sel: &PipelineSelectRule, q: &RequestView) -> (r: bool)
    ensures
        r == combined(sel.matcher_operator, selector_outcomes(sel.matchers@, *q)),
{
    let op = sel.matcher_operator;
    let ghost ps = selector_outcomes(sel.matchers@, *q);
    let disj = op == MatchOperator::Or || op == MatchOperator::OrNot;
    let neg = op == MatchOperator::AndNot || op == MatchOperator::OrNot || op == MatchOperator::Not;
    let mut i: usize = 0;
    while i < sel.matchers.len()
        invariant
            i <= sel.matchers@.len(),
            op == sel.matcher_operator,
            ps == selector_outcomes(sel.matchers@, *q),
            ps.len() == sel.matchers@.len(),
            disj == is_disjunction(op),
            neg == negates_rest(op),
            forall|j: int| 0 <= j < i ==> #[trigger] term(op, ps, j) != disj,
        decreases sel.matchers@.len() - i,
    {
        let holds = selector_matches(&sel.matchers[i].matcher, q);
        let t = if i > 0 && neg {
            !holds
        } else {
            holds
        };
        assert(term(op, ps, i as int) == t);
        if t == disj {
            proof {
                if disj {
                    assert(combined(op, ps));
                } else {
                    assert(!combined(op, ps));
                }
            }
            return disj;
        }
        i = i + 1;
    }
    !disj
}

/// The pipeline chosen for a request: that of the first selection rule
/// whose predicates hold, else `default`.
pub open spec fn selected_pipeline(sels: Seq<PipelineSelectRule>, q: RequestView) -> Seq<char>
    decreases sels.len(),
{
    if sels.len() == 0 {
        "default"@
    } else if combined(sels[0].matcher_operator, selector_outcomes(sels[0].matchers@, q)) {
        sels[0].pipeline@
    } else {
        selected_pipeline(sels.drop_first(), q)
    }
}

pub fn select_pipeline(sels: &Vec<PipelineSelectRule>, q: &RequestView) -> (r: String)
    ensures
        r@ == selected_pipeline(sels@, *q),
{
    let mut i: usize = 0;
    proof {
        assert(sels@.subrange(0, sels@.len() as int) =~= sels@);
    }
    while i < sels.len()
        invariant
            i <= sels@.len(),
            selected_pipeline(sels@, *q) == selected_pipeline(sels@.subrange(i as int, sels@.len() as int), *q),
        decreases sels@.len() - i,
    {
        let ghost rest = sels@.subrange(i as int, sels@.len() as int);
        proof {
            assert(rest[0] == sels@[i as int]);
            assert(rest.drop_first() =~= sels@.subrange(i + 1, sels@.len() as int));
        }
        if select_rule_matches(&sels[i], q) {
            return sels[i].pipeline.clone();
        }
        i = i + 1;
    }
    proof {
        assert(sels@.subrange(i as int, sels@.len() as int).len() == 0);
    }
    "default".to_owned()
}


/// What response predicates look at, besides the request.
pub struct ResponseView {
    /// Identity of the upstream that answered.
    pub upstream: String,
    /// Its address bytes (4 or 16).
    pub upstream_ip: Vec<u8>,
    /// Address bytes of the A and AAAA answers.
    pub answer_ips: Vec<Vec<u8>>,
    /// Type codes of the answers.
    pub answer_types: Vec<u16>,
    pub rcode: u8,
    /// Whether the response carries an EDNS record.
    pub edns: bool,
}

/// `value` equals `lit` once ASCII-uppercased.
pub open spec fn upper_eq(value: Seq<u8>, lit: Seq<u8>) -> bool {
    value.map_values(|b: u8| upper_byte(b)) == lit
}

fn eq_upper(value: &str, lit: &str) -> (r: bool)
    ensures
        r == upper_eq(encode_utf8(value@), encode_utf8(lit@)),
{
    let v = value.as_bytes();
    let l = lit.as_bytes();
    let ghost u = v@.map_values(|b: u8| upper_byte(b));
    if v.len() != l.len() {
        proof {
            assert(u.len() != l@.len());
        }
        return false;
    }
    let mut i: usize = 0;
    while i < v.len()
        invariant
            v@ == encode_utf8(value@),
            l@ == encode_utf8(lit@),
            u == v@.map_values(|b: u8| upper_byte(b)),
            v@.len() == l@.len(),
            i <= v@.len(),
            forall|k: int| 0 <= k < i ==> u[k] == l@[k],
        decreases v@.len() - i,
    {
        if upper_u8(v[i]) != l[i] {
            proof {
                assert(u[i as int] != l@[i as int]);
            }
            return false;
        }
        i = i + 1;
    }
    proof {
        assert(u =~= l@);
    }
    true
}

/// Response code number of a response code name, ASCII case ignored.
pub open spec fn rcode_code_of(v: Seq<u8>) -> Option<u8> {
    if upper_eq(v, encode_utf8("NOERROR"@)) {
        Some(0)
    } else if upper_eq(v, encode_utf8("FORMERR"@)) {
        Some(1)
    } else if upper_eq(v, encode_utf8("SERVFAIL"@)) {
        Some(2)
    } else if upper_eq(v, encode_utf8("NXDOMAIN"@)) {
        Some(3)
    } else if upper_eq(v, encode_utf8("NOTIMP"@)) {
        Some(4)
    } else if upper_eq(v, encode_utf8("REFUSED"@)) {
        Some(5)
    } else {
        None
    }
}

pub fn rcode_code(name: &str) -> (r: Option<u8>)
    ensures
        r == rcode_code_of(encode_utf8(name@)),
{
    if eq_upper(name, "NOERROR") {
        Some(0)
    } else if eq_upper(name, "FORMERR") {
        Some(1)
    } else if eq_upper(name, "SERVFAIL") {
        Some(2)
    } else if eq_upper(name, "NXDOMAIN") {
        Some(3)
    } else if eq_upper(name, "NOTIMP") {
        Some(4)
    } else if eq_upper(name, "REFUSED") {
        Some(5)
    } else {
        None
    }
}

/// Type code of a record type name, ASCII case ignored.
pub open spec fn type_code_of(name: Seq<char>) -> Option<u16> {
    record_type_of(name.map_values(|c: char| upper_char(c)))
}

pub fn type_code(name: &str) -> (r: Option<u16>)
    ensures
        r == type_code_of(name@),
{
    let upper = ascii_uppercase(name);
    proof {
        assert forall|i: int| 0 <= i < upper@.len() implies !('a' <= #[trigger] upper@[i] && upper@[i] <= 'z') by {
            assert(upper@[i] == upper_char(name@[i]));
        }
    }
    record_type_code(upper.as_str())
}

/// Whether a response predicate holds.
pub open spec fn response_matcher_holds(m: ResponseMatcher, q: RequestView, r: ResponseView) -> bool {
    match m {
        ResponseMatcher::UpstreamEquals { value } => r.upstream@ == value@,
        ResponseMatcher::RequestDomainSuffix { value } => suffix_match(
            encode_utf8(q.qname@),
            encode_utf8(value@),
        ),
        ResponseMatcher::RequestDomainRegex { value } => regex_match_of(value@, q.qname@) == Some(true),
        ResponseMatcher::ResponseUpstreamIp { cidr } => in_net_list(cidr@, r.upstream_ip@),
        ResponseMatcher::ResponseAnswerIp { cidr } => exists|i: int|
            0 <= i < r.answer_ips@.len() && in_net_list(cidr@, #[trigger] r.answer_ips@[i]@),
        ResponseMatcher::ResponseType { value } => match type_code_of(value@) {
            Some(t) => exists|i: int| 0 <= i < r.answer_types@.len() && #[trigger] r.answer_types@[i] == t,
            None => false,
        },
        ResponseMatcher::ResponseRcode { value } => rcode_code_of(encode_utf8(value@)) == Some(r.rcode),
        ResponseMatcher::ResponseQclass { value } => class_code_of(encode_utf8(value@)) == Some(q.qclass),
        ResponseMatcher::ResponseEdnsPresent { expect } => r.edns == expect,
    }
}

fn any_answer_in(cidr: &str, ips: &Vec<Vec<u8>>) -> (r: bool)
    ensures
        r == exists|i: int| 0 <= i < ips@.len() && in_net_list(cidr@, #[trigger] ips@[i]@),
{
    let mut i: usize = 0;
    while i < ips.len()
        invariant
            i <= ips@.len(),
            forall|k: int| 0 <= k < i ==> !in_net_list(cidr@, #[trigger] ips@[k]@),
        decreases ips@.len() - i,
    {
        if ip_in_net_list(cidr, ips[i].as_slice()) {
            return true;
        }
        i = i + 1;
    }
    false
}

fn any_type_is(t: u16, types: &Vec<u16>) -> (r: bool)
    ensures
        r == exists|i: int| 0 <= i < types@.len() && #[trigger] types@[i] == t,
{
    let mut i: usize = 0;
    while i < types.len()
        invariant
            i <= types@.len(),
            forall|k: int| 0 <= k < i ==> #[trigger] types@[k] != t,
        decreases types@.len() - i,
    {
        if types[i] == t {
            return true;
        }
        i = i + 1;
    }
    false
}

pub fn response_matcher_matches(m: &ResponseMatcher, q: &RequestView, r: &ResponseView) -> (res: bool)
    ensures
        res == response_matcher_holds(*m, *q, *r),
{
    match m {
        ResponseMatcher::UpstreamEquals { value } => r.upstream == *value,
        ResponseMatcher::RequestDomainSuffix { value } => domain_suffix_matches(
            q.qname.as_str(),
            value.as_str(),
        ),
        ResponseMatcher::RequestDomainRegex { value } => regex_holds(value.as_str(), q.qname.as_str()),
        ResponseMatcher::ResponseUpstreamIp { cidr } => ip_in_net_list(cidr.as_str(), r.upstream_ip.as_slice()),
        ResponseMatcher::ResponseAnswerIp { cidr } => any_answer_in(cidr.as_str(), &r.answer_ips),
        ResponseMatcher::ResponseType { value } => match type_code(value.as_str()) {
            Some(t) => any_type_is(t, &r.answer_types),
            None => false,
        },
        ResponseMatcher::ResponseRcode { value } => match rcode_code(value.as_str()) {
            Some(c) => c == r.rcode,
            None => false,
        },
        ResponseMatcher::ResponseQclass { value } => match qclass_code(value.as_str()) {
            Some(c) => c == q.qclass,
            None => false,
        },
        ResponseMatcher::ResponseEdnsPresent { expect } => r.edns == *expect,
    }
}

pub open spec fn response_outcomes(ms: Seq<ResponseMatcherWithOp>, q: RequestView, r: ResponseView) -> Seq<bool> {
    ms.map_values(|m: ResponseMatcherWithOp| response_matcher_holds(m.matcher, q, r))
}

/// Whether a rule's response matchers hold together under its response
/// operator; matchers after the first decisive one are not evaluated.
pub fn response_rule_matches(rule: &Rule, q: &RequestView, resp: &ResponseView) -> (r: bool)
    ensures
        r == combined(rule.response_matcher_operator, response_outcomes(rule.response_matchers@, *q, *resp)),
{
    let op = rule.response_matcher_operator;
    let ghost ps = response_outcomes(rule.response_matchers@, *q, *resp);
    let disj = op == MatchOperator::Or || op == MatchOperator::OrNot;
    let neg = op == MatchOperator::AndNot || op == MatchOperator::OrNot || op == MatchOperator::Not;
    let mut i: usize = 0;
    while i < rule.response_matchers.len()
        invariant
            i <= rule.response_matchers@.len(),
            op == rule.response_matcher_operator,
            ps == response_outcomes(rule.response_matchers@, *q, *resp),
            ps.len() == rule.response_matchers@.len(),
            disj == is_disjunction(op),
            neg == negates_rest(op),
            forall|j: int| 0 <= j < i ==> #[trigger] term(op, ps, j) != disj,
        decreases rule.response_matchers@.len() - i,
    {
        let holds = response_matcher_matches(&rule.response_matchers[i].matcher, q, resp);
        let t = if i > 0 && neg {
            !holds
        } else {
            holds
        };
        assert(term(op, ps, i as int) == t);
        if t == disj {
            proof {
                if disj {
                    assert(combined(op, ps));
                } else {
                    assert(!combined(op, ps));
                }
            }
            return disj;
        }
        i = i + 1;
    }
    !disj
}

} // verus!
