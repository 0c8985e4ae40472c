//! Routing configuration: global settings with their defaults, pipelines of
//! rules, matchers and actions, and the checks a configuration must pass
//! before it is compiled.

use vstd::prelude::*;

use crate::bindings::{is_ip_net, parse_ip_net, split_commas, split_on, trim_space, trimmed};

verus! {

/// A whole configuration file.
#[derive(Debug, Clone)]
pub struct PipelineConfig {
    pub version: Option<String>,
    pub settings: GlobalSettings,
    /// Pipeline selection rules, evaluated in order.
    pub pipeline_select: Vec<PipelineSelectRule>,
    pub pipelines: Vec<Pipeline>,
}

/// Settings that apply to every pipeline.
#[derive(Debug, Clone)]
pub struct GlobalSettings {
    /// Least TTL given to a stored answer, in seconds.
    pub min_ttl: u32,
    pub bind_udp: String,
    pub bind_tcp: String,
    /// Most entries the response cache holds.
    pub cache_capacity: u64,
    pub default_upstream: String,
    pub upstream_timeout_ms: u64,
    /// Most pipeline jumps in the response phase.
    pub response_jump_limit: u32,
    pub udp_pool_size: usize,
    pub tcp_pool_size: usize,
    pub flow_control_initial_permits: usize,
    pub flow_control_min_permits: usize,
    pub flow_control_max_permits: usize,
    pub flow_control_latency_threshold_ms: u64,
    pub flow_control_adjustment_interval_secs: u64,
}

pub fn default_min_ttl() -> (r: u32)
    ensures
        r == 0,
{
    0
}

pub fn default_bind_udp() -> (r: String)
    ensures
        r@ == "0.0.0.0:5353"@,
{
    "0.0.0.0:5353".to_owned()
}

pub fn default_bind_tcp() -> (r: String)
    ensures
        r@ == "0.0.0.0:5353"@,
{
    "0.0.0.0:5353".to_owned()
}

pub fn default_cache_capacity() -> (r: u64)
    ensures
        r == 10_000,
{
    10_000
}

pub fn default_upstream() -> (r: String)
    ensures
        r@ == "1.1.1.1:53"@,
{
    "1.1.1.1:53".to_owned()
}

pub fn default_upstream_timeout_ms() -> (r: u64)
    ensures
        r == 2000,
{
    2000
}

pub fn default_response_jump_limit() -> (r: u32)
    ensures
        r == 10,
{
    10
}

pub fn default_udp_pool_size() -> (r: usize)
    ensures
        r == 64,
{
    64
}

pub fn default_tcp_pool_size() -> (r: usize)
    ensures
        r == 64,
{
    64
}

pub fn default_flow_control_initial_permits() -> (r: usize)
    ensures
        r == 500,
{
    500
}

pub fn default_flow_control_min_permits() -> (r: usize)
    ensures
        r == 100,
{
    100
}

pub fn default_flow_control_max_permits() -> (r: usize)
    ensures
        r == 800,
{
    800
}

pub fn default_flow_control_latency_threshold_ms() -> (r: u64)
    ensures
        r == 100,
{
    100
}

pub fn default_flow_control_adjustment_interval_secs() -> (r: u64)
    ensures
        r == 5,
{
    5
}

impl Default for GlobalSettings {
    fn default() -> (r: Self)
        ensures
            r.min_ttl == 0,
            r.bind_udp@ == "0.0.0.0:5353"@,
            r.bind_tcp@ == "0.0.0.0:5353"@,
            r.cache_capacity == 10_000,
            r.default_upstream@ == "1.1.1.1:53"@,
            r.upstream_timeout_ms == 2000,
            r.response_jump_limit == 10,
            r.udp_pool_size == 64,
            r.tcp_pool_size == 64,
            r.flow_control_initial_permits == 500,
            r.flow_control_min_permits == 100,
            r.flow_control_max_permits == 800,
            r.flow_control_latency_threshold_ms == 100,
            r.flow_control_adjustment_interval_secs == 5,
    {
        GlobalSettings {
            min_ttl: default_min_ttl(),
            bind_udp: default_bind_udp(),
            bind_tcp: default_bind_tcp(),
            default_upstream: default_upstream(),
            upstream_timeout_ms: default_upstream_timeout_ms(),
            response_jump_limit: default_response_jump_limit(),
            udp_pool_size: default_udp_pool_size(),
            tcp_pool_size: default_tcp_pool_size(),
            flow_control_initial_permits: default_flow_control_initial_permits(),
            flow_control_min_permits: default_flow_control_min_permits(),
            flow_control_max_permits: default_flow_control_max_permits(),
            flow_control_latency_threshold_ms: default_flow_control_latency_threshold_ms(),
            flow_control_adjustment_interval_secs: default_flow_control_adjustment_interval_secs(),
            cache_capacity: default_cache_capacity(),
        }
    }
}

/// An ordered list of rules under an id.
#[derive(Debug, Clone)]
pub struct Pipeline {
    pub id: String,
    pub rules: Vec<Rule>,
}

/// Request matchers and actions, and response matchers with the actions
/// for a match and for a miss.
#[derive(Debug, Clone)]
pub struct Rule {
    pub name: String,
    pub matchers: Vec<MatcherWithOp>,
    pub matcher_operator: MatchOperator,
    pub actions: Vec<Action>,
    pub response_matchers: Vec<ResponseMatcherWithOp>,
    pub response_matcher_operator: MatchOperator,
    pub response_actions_on_match: Vec<Action>,
    pub response_actions_on_miss: Vec<Action>,
}

/// Request-phase predicates.
#[derive(Debug, Clone)]
pub enum Matcher {
    Any,
    /// Domain suffix, case-insensitive.
    DomainSuffix { value: String },
    /// Domain regular expression.
    DomainRegex { value: String },
    /// Client address within a network.
    ClientIp { cidr: String },
    /// Query class by name (IN, CH, HS).
    Qclass { value: String },
    /// Whether the query carries an EDNS record.
    EdnsPresent { expect: bool },
}

/// Pipeline selection predicates.
#[derive(Debug, Clone)]
pub enum PipelineSelectorMatcher {
    /// Equality with the listener's label.
    ListenerLabel { value: String },
    ClientIp { cidr: String },
    DomainSuffix { value: String },
    DomainRegex { value: String },
    Any,
    Qclass { value: String },
    EdnsPresent { expect: bool },
}

/// Chooses `pipeline` when its matchers hold.
#[derive(Debug, Clone)]
pub struct PipelineSelectRule {
    pub pipeline: String,
    pub matchers: Vec<PipelineSelectorMatcherWithOp>,
    pub matcher_operator: MatchOperator,
}

#[derive(Debug, Clone)]
pub struct MatcherWithOp {
    pub operator: MatchOperator,
    pub matcher: Matcher,
}

#[derive(Debug, Clone)]
pub struct PipelineSelectorMatcherWithOp {
    pub operator: MatchOperator,
    pub matcher: PipelineSelectorMatcher,
}

#[derive(Debug, Clone)]
pub struct ResponseMatcherWithOp {
    pub operator: MatchOperator,
    pub matcher: ResponseMatcher,
}

/// Response-phase predicates.
#[derive(Debug, Clone)]
pub enum ResponseMatcher {
    /// The upstream used, by string equality.
    UpstreamEquals { value: String },
    RequestDomainSuffix { value: String },
    RequestDomainRegex { value: String },
    /// Address of the answering upstream within one of comma-separated networks.
    ResponseUpstreamIp { cidr: String },
    /// An A/AAAA answer within one of comma-separated networks.
    ResponseAnswerIp { cidr: String },
    /// Record type by name (A, AAAA, CNAME, ...).
    ResponseType { value: String },
    /// Response code by name (NOERROR, NXDOMAIN, SERVFAIL, ...).
    ResponseRcode { value: String },
    ResponseQclass { value: String },
    ResponseEdnsPresent { expect: bool },
}

/// What a matching rule does.
#[derive(Debug, Clone)]
pub enum Action {
    /// Log at a level (trace, debug, info, warn, error).
    Log { level: Option<String> },
    /// Answer with a fixed response code.
    StaticResponse { rcode: String },
    /// Answer with a fixed address (A or AAAA by its family).
    StaticIpResponse { ip: String },
    /// Go on in another pipeline.
    JumpToPipeline { pipeline: String },
    /// Stop: forward to the default upstream (request phase) or keep the
    /// response (response phase).
    Allow,
    /// Stop and refuse.
    Deny,
    /// Forward; the default upstream when none is given, UDP when no
    /// transport is given.
    Forward { upstream: Option<String>, transport: Option<Transport> },
    /// Go on with the next rule.
    Continue,
}

#[derive(Debug, Clone, Copy, PartialEq, Eq, Structural)]
pub enum Transport {
    Udp,
    Tcp,
}

/// How a rule's matchers are combined.
#[derive(Debug, Clone, Copy, PartialEq, Eq, Structural)]
pub enum MatchOperator {
    And,
    Or,
    AndNot,
    OrNot,
    /// Kept for old configurations; never produced by parsing.
    Not,
}

pub fn default_match_operator() -> (r: MatchOperator)
    ensures
        r == MatchOperator::And,
{
    MatchOperator::And
}

/// Why a configuration was refused.
#[derive(Debug, Clone, PartialEq, Eq)]
pub enum ConfigError {
    /// A network that does not parse.
    InvalidCidr { cidr: String },
    /// A response matcher `request_domain_suffix` with an empty value.
    EmptyDomainSuffix,
}

/// A comma-separated list of networks: every part that is not blank once
/// trimmed parses.
pub open spec fn cidr_list_ok(s: Seq<char>) -> bool {
    forall|i: int|
        0 <= i < split_on(s, ',').len() ==> trimmed(#[trigger] split_on(s, ',')[i]).len() == 0
            || is_ip_net(trimmed(split_on(s, ',')[i]))
}

pub open spec fn matcher_ok(m: Matcher) -> bool {
    match m {
        Matcher::ClientIp { cidr } => is_ip_net(cidr@),
        _ => true,
    }
}

pub open spec fn response_matcher_ok(m: ResponseMatcher) -> bool {
    match m {
        ResponseMatcher::RequestDomainSuffix { value } => value@.len() > 0,
        ResponseMatcher::ResponseUpstreamIp { cidr } => cidr_list_ok(cidr@),
        ResponseMatcher::ResponseAnswerIp { cidr } => cidr_list_ok(cidr@),
        _ => true,
    }
}

pub open spec fn selector_matcher_ok(m: PipelineSelectorMatcher) -> bool {
    match m {
        PipelineSelectorMatcher::ClientIp { cidr } => is_ip_net(cidr@),
        _ => true,
    }
}

pub open spec fn rule_ok(r: Rule) -> bool {
    &&& forall|i: int| 0 <= i < r.matchers@.len() ==> matcher_ok(#[trigger] r.matchers@[i].matcher)
    &&& forall|i: int|
        0 <= i < r.response_matchers@.len() ==> response_matcher_ok(
            #[trigger] r.response_matchers@[i].matcher,
        )
}

pub open spec fn pipeline_ok(p: Pipeline) -> bool {
    forall|i: int| 0 <= i < p.rules@.len() ==> rule_ok(#[trigger] p.rules@[i])
}

pub open spec fn select_rule_ok(s: PipelineSelectRule) -> bool {
    forall|i: int| 0 <= i < s.matchers@.len() ==> selector_matcher_ok(#[trigger] s.matchers@[i].matcher)
}

/// Every network in the configuration parses and no response matcher has
/// an empty domain suffix.
pub open spec fn config_ok(c: PipelineConfig) -> bool {
    &&& forall|i: int| 0 <= i < c.pipelines@.len() ==> pipeline_ok(#[trigger] c.pipelines@[i])
    &&& forall|i: int|
        0 <= i < c.pipeline_select@.len() ==> select_rule_ok(#[trigger] c.pipeline_select@[i])
}

/// What an error may say: a network that does not parse, or an empty
/// suffix.
pub open spec fn error_fits(e: ConfigError) -> bool {
    match e {
        ConfigError::InvalidCidr { cidr } => !is_ip_net(cidr@),
        ConfigError::EmptyDomainSuffix => true,
    }
}

fn check_net(s: &str) -> (r: Result<(), ConfigError>)
    ensures
        r is Ok == is_ip_net(s@),
        r matches Err(e) ==> error_fits(e),
{
    if parse_ip_net(s).is_some() {
        Ok(())
    } else {
        Err(ConfigError::InvalidCidr { cidr: s.to_owned() })
    }
}

fn check_net_list(s: &str) -> (r: Result<(), ConfigError>)
    ensures
        r is Ok == cidr_list_ok(s@),
        r matches Err(e) ==> error_fits(e),
{
    let parts = split_commas(s);
    let ghost views = parts@.map_values(|p: String| p@);
    let mut i: usize = 0;
    while i < parts.len()
        invariant
            i <= parts@.len(),
            views == parts@.map_values(|p: String| p@),
            views == split_on(s@, ','),
            forall|j: int|
                0 <= j < i ==> trimmed(#[trigger] views[j]).len() == 0 || is_ip_net(trimmed(views[j])),
        decreases parts@.len() - i,
    {
        let part = trim_space(parts[i].as_str());
        assert(views[i as int] == parts@[i as int]@);
        if !part.as_str().is_empty() {
            if let Err(e) = check_net(part.as_str()) {
                return Err(e);
            }
        }
        i = i + 1;
    }
    Ok(())
}

fn check_rule(r: &Rule) -> (res: Result<(), ConfigError>)
    ensures
        res is Ok == rule_ok(*r),
        res matches Err(e) ==> error_fits(e),
{
    let mut i: usize = 0;
    while i < r.matchers.len()
        invariant
            i <= r.matchers@.len(),
            forall|j: int| 0 <= j < i ==> matcher_ok(#[trigger] r.matchers@[j].matcher),
        decreases r.matchers@.len() - i,
    {
        if let Matcher::ClientIp { cidr } = &r.matchers[i].matcher {
            if let Err(e) = check_net(cidr.as_str()) {
                return Err(e);
            }
        }
        i = i + 1;
    }
    let mut k: usize = 0;
    while k < r.response_matchers.len()
        invariant
            k <= r.response_matchers@.len(),
            forall|j: int| 0 <= j < r.matchers@.len() ==> matcher_ok(#[trigger] r.matchers@[j].matcher),
            forall|j: int|
                0 <= j < k ==> response_matcher_ok(#[trigger] r.response_matchers@[j].matcher),
        decreases r.response_matchers@.len() - k,
    {
        match &r.response_matchers[k].matcher {
            ResponseMatcher::RequestDomainSuffix { value } => {
                if value.as_str().is_empty() {
                    return Err(ConfigError::EmptyDomainSuffix);
                }
            },
            ResponseMatcher::ResponseUpstreamIp { cidr } => {
                if let Err(e) = check_net_list(cidr.as_str()) {
                    return Err(e);
                }
            },
            ResponseMatcher::ResponseAnswerIp { cidr } => {
                if let Err(e) = check_net_list(cidr.as_str()) {
                    return Err(e);
                }
            },
            _ => {},
        }
        k = k + 1;
    }
    Ok(())
}

fn check_select_rule(s: &PipelineSelectRule) -> (res: Result<(), ConfigError>)
    ensures
        res is Ok == select_rule_ok(*s),
        res matches Err(e) ==> error_fits(e),
{
    let mut i: usize = 0;
    while i < s.matchers.len()
        invariant
            i <= s.matchers@.len(),
            forall|j: int| 0 <= j < i ==> selector_matcher_ok(#[trigger] s.matchers@[j].matcher),
        decreases s.matchers@.len() - i,
    {
        if let PipelineSelectorMatcher::ClientIp { cidr } = &s.matchers[i].matcher {
            if let Err(e) = check_net(cidr.as_str()) {
                return Err(e);
            }
        }
        i = i + 1;
    }
    Ok(())
}

/// Checks a parsed configuration before use: every client-ip network, every
/// non-blank part of the response upstream-ip and answer-ip network lists,
/// and every selector client-ip network must parse, and no response
/// `request_domain_suffix` may be empty. Pipelines are checked in order,
/// then selectors; the first failure is returned.
pub fn validate_config(cfg: &PipelineConfig) -> (r: Result<(), ConfigError>)
    ensures
        r is Ok == config_ok(*cfg),
        r matches Err(e) ==> error_fits(e),
{
    let mut p: usize = 0;
    while p < cfg.pipelines.len()
        invariant
            p <= cfg.pipelines@.len(),
            forall|j: int| 0 <= j < p ==> pipeline_ok(#[trigger] cfg.pipelines@[j]),
        decreases cfg.pipelines@.len() - p,
    {
        let rules = &cfg.pipelines[p].rules;
        let mut k: usize = 0;
        while k < rules.len()
            invariant
                k <= rules@.len(),
                p < cfg.pipelines@.len(),
                *rules == cfg.pipelines@[p as int].rules,
                forall|j: int| 0 <= j < k ==> rule_ok(#[trigger] rules@[j]),
            decreases rules@.len() - k,
        {
            if let Err(e) = check_rule(&rules[k]) {
                proof {
                    assert(!rule_ok(cfg.pipelines@[p as int].rules@[k as int]));
                    assert(!pipeline_ok(cfg.pipelines@[p as int]));
                }
                return Err(e);
            }
            k = k + 1;
        }
        p = p + 1;
    }
    let mut s: usize = 0;
    while s < cfg.pipeline_select.len()
        invariant
            s <= cfg.pipeline_select@.len(),
            forall|j: int| 0 <= j < cfg.pipelines@.len() ==> pipeline_ok(#[trigger] cfg.pipelines@[j]),
            forall|j: int| 0 <= j < s ==> select_rule_ok(#[trigger] cfg.pipeline_select@[j]),
        decreases cfg.pipeline_select@.len() - s,
    {
        if let Err(e) = check_select_rule(&cfg.pipeline_select[s]) {
            return Err(e);
        }
        s = s + 1;
    }
    Ok(())
}

} // verus!
