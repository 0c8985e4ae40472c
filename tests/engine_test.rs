use hickory_proto::op::{Edns, Message, MessageType, Query};
use hickory_proto::rr::rdata::A;
use hickory_proto::rr::{DNSClass, Name, RData, Record, RecordType};
use hickory_proto::serialize::binary::{BinDecodable, BinEncodable};
use kixdns::cache::{
    effective_ttl, fingerprint, is_cacheable, patched_response, CacheEntry, CacheLookup, Flight,
    ResponseCache,
};
use kixdns::config::{
    default_bind_tcp, default_bind_udp, default_match_operator, default_upstream, validate_config,
    Action, ConfigError, GlobalSettings, MatchOperator, Matcher, MatcherWithOp, Pipeline,
    PipelineConfig, PipelineSelectRule, PipelineSelectorMatcher, PipelineSelectorMatcherWithOp,
    ResponseMatcher, ResponseMatcherWithOp, Rule,
};
use kixdns::config::Transport;
use kixdns::engine::{request_step, response_step, RequestDecision, ResponseDecision};
use kixdns::flow::FlowControl;
use kixdns::matcher::combine_outcomes;
use kixdns::wire::{parse_quick, parse_response_quick, set_transaction_id};

fn query_bytes(id: u16, name: &str, rtype: RecordType, edns: bool) -> Vec<u8> {
    let mut m = Message::new();
    m.set_id(id);
    m.set_message_type(MessageType::Query);
    m.add_query(Query::query(Name::from_ascii(name).unwrap(), rtype));
    if edns {
        m.set_edns(Edns::new());
    }
    m.to_bytes().unwrap()
}

fn answer_bytes(id: u16, name: &str, ttls: &[u32]) -> Vec<u8> {
    let mut m = Message::new();
    m.set_id(id);
    m.set_message_type(MessageType::Response);
    let n = Name::from_ascii(name).unwrap();
    m.add_query(Query::query(n.clone(), RecordType::A));
    for (i, t) in ttls.iter().enumerate() {
        let rec = Record::from_rdata(n.clone(), *t, RData::A(A::new(93, 184, 216, 34 + i as u8)));
        m.add_answer(rec);
    }
    m.to_bytes().unwrap()
}

fn entry(bytes: Vec<u8>, rcode: u8) -> CacheEntry {
    CacheEntry {
        bytes,
        rcode,
        source: "1.1.1.1:53".to_string(),
        qname: "example.com".to_string(),
        pipeline_id: "p1".to_string(),
        qtype: 1,
    }
}

#[test]
fn quick_parse_matches_full_parse() {
    let bytes = query_bytes(0xBEEF, "WWW.Example.COM.", RecordType::AAAA, false);
    let full = Message::from_bytes(&bytes).unwrap();
    let mut buf = [0u8; 256];
    let q = parse_quick(&bytes, &mut buf).unwrap();
    let fq = &full.queries()[0];
    assert_eq!(q.tx_id, full.id());
    assert_eq!(q.qtype, u16::from(fq.query_type()));
    assert_eq!(q.qclass, u16::from(fq.query_class()));
    assert_eq!(q.qname, fq.name().to_ascii().trim_end_matches('.').to_ascii_lowercase());
    assert_eq!(q.qname, "www.example.com");
    assert_eq!(q.qclass, u16::from(DNSClass::IN));
}

#[test]
fn quick_parse_rejects_short_and_empty_queries() {
    let mut buf = [0u8; 64];
    assert!(parse_quick(&[0u8; 11], &mut buf).is_none());
    let mut bytes = query_bytes(1, "a.test.", RecordType::A, false);
    bytes[4] = 0;
    bytes[5] = 0;
    assert!(parse_quick(&bytes, &mut buf).is_none());
}

#[test]
fn quick_parse_follows_pointers_and_detects_loops() {
    // header, then a name that is a pointer to "a.test" stored after the question
    let mut p = vec![0x12, 0x34, 1, 0, 0, 1, 0, 0, 0, 0, 0, 0];
    p.extend_from_slice(&[0xC0, 18, 0, 1, 0, 1]);
    p.extend_from_slice(&[1, b'A', 4, b't', b'e', b's', b't', 0]);
    let mut buf = [0u8; 64];
    let q = parse_quick(&p, &mut buf).unwrap();
    assert_eq!(q.qname, "a.test");
    assert_eq!(q.tx_id, 0x1234);
    assert_eq!(q.qtype, 1);
    let mut looped = vec![0x12, 0x34, 1, 0, 0, 1, 0, 0, 0, 0, 0, 0];
    looped.extend_from_slice(&[0xC0, 12, 0, 1, 0, 1]);
    assert!(parse_quick(&looped, &mut buf).is_none());
}

#[test]
fn quick_parse_needs_room_for_the_name() {
    let bytes = query_bytes(7, "abcdef.test.", RecordType::A, false);
    let mut small = [0u8; 5];
    assert!(parse_quick(&bytes, &mut small).is_none());
    let mut exact = [0u8; 11];
    assert_eq!(parse_quick(&bytes, &mut exact).unwrap().qname, "abcdef.test");
}

#[test]
fn response_quick_parse_reads_rcode_tc_and_min_ttl() {
    let bytes = answer_bytes(9, "example.com.", &[300, 60, 120]);
    let r = parse_response_quick(&bytes).unwrap();
    assert_eq!(r.rcode, 0);
    assert!(!r.truncated);
    assert_eq!(r.min_ttl, 60);
    let mut tc = bytes.clone();
    tc[2] |= 0x02;
    tc[3] = (tc[3] & 0xF0) | 3;
    let r = parse_response_quick(&tc).unwrap();
    assert!(r.truncated);
    assert_eq!(r.rcode, 3);
    let none = answer_bytes(9, "example.com.", &[]);
    assert_eq!(parse_response_quick(&none).unwrap().min_ttl, 0);
    assert!(parse_response_quick(&bytes[..bytes.len() - 3]).is_some());
    assert!(parse_response_quick(&bytes[..bytes.len() - 7]).is_none());
    assert!(parse_response_quick(&[0u8; 4]).is_none());
}

#[test]
fn transaction_id_is_written_big_endian() {
    let mut p = vec![0u8, 0, 7, 8];
    set_transaction_id(&mut p, 0x5678);
    assert_eq!(p, vec![0x56, 0x78, 7, 8]);
    let mut tiny = vec![1u8];
    set_transaction_id(&mut tiny, 0x5678);
    assert_eq!(tiny, vec![1]);
}

#[test]
fn fingerprint_ignores_case_and_depends_on_pipeline_and_type() {
    assert_eq!(fingerprint("p1", "Example.COM", 1), fingerprint("p1", "example.com", 1));
    assert_ne!(fingerprint("p1", "example.com", 1), fingerprint("p2", "example.com", 1));
    assert_ne!(fingerprint("p1", "example.com", 1), fingerprint("p1", "example.com", 28));
}

#[test]
fn effective_ttl_is_clamped() {
    assert_eq!(effective_ttl(5, 30, 3600), 30);
    assert_eq!(effective_ttl(60, 0, 3600), 60);
    assert_eq!(effective_ttl(86400, 0, 3600), 3600);
}

#[test]
fn only_good_answers_are_cacheable() {
    assert!(is_cacheable(0, false, true));
    assert!(is_cacheable(3, false, true));
    assert!(!is_cacheable(2, false, false));
    assert!(!is_cacheable(5, false, false));
    assert!(!is_cacheable(0, true, true));
    assert!(is_cacheable(0, true, false));
}

#[test]
fn cache_miss_then_hit_patches_transaction_id() {
    let upstream = answer_bytes(0x1234, "example.com.", &[60]);
    let fp = fingerprint("p1", "example.com", 1);
    let mut cache = ResponseCache::new(10_000);
    assert!(matches!(cache.lookup(fp, 0), CacheLookup::Miss));
    assert!(matches!(cache.begin(fp, 0), Flight::Leader));
    let ttl = parse_response_quick(&upstream).unwrap().min_ttl;
    cache.complete(fp, Some(entry(upstream.clone(), 0)), false, true, ttl, 0);
    let second = cache.respond(fp, 0x5678, 1_000).unwrap();
    assert_eq!(&second[..2], &[0x56, 0x78]);
    assert_eq!(&second[2..], &upstream[2..]);
    match cache.lookup(fp, 1_000) {
        CacheLookup::Hit { remaining_ttl, .. } => assert_eq!(remaining_ttl, 59_000),
        _ => panic!("expected a hit"),
    }
    assert!(matches!(cache.lookup(fp, 60_000), CacheLookup::Expired));
    assert!(cache.respond(fp, 1, 60_000).is_none());
}

#[test]
fn patched_response_keeps_the_rest() {
    let stored = vec![0u8, 0, 1, 2, 3];
    assert_eq!(patched_response(&stored, 0xABCD), vec![0xAB, 0xCD, 1, 2, 3]);
}

#[test]
fn single_flight_has_one_leader() {
    let fp = fingerprint("p1", "slow.test", 1);
    let mut cache = ResponseCache::new(16);
    let mut leaders = 0;
    for _ in 0..1000 {
        if matches!(cache.begin(fp, 5), Flight::Leader) {
            leaders += 1;
        }
    }
    assert_eq!(leaders, 1);
    let bytes = answer_bytes(0, "slow.test.", &[30]);
    cache.complete(fp, Some(entry(bytes.clone(), 0)), false, true, 30, 5);
    for id in 0..1000u16 {
        match cache.begin(fp, 6) {
            Flight::Present { bytes: b } => assert_eq!(&b[2..], &bytes[2..]),
            _ => panic!("expected the stored answer"),
        }
        let sent = cache.respond(fp, id, 6).unwrap();
        assert_eq!(u16::from_be_bytes([sent[0], sent[1]]), id);
    }
}

#[test]
fn failed_and_truncated_answers_are_not_stored() {
    let fp = 42;
    let mut cache = ResponseCache::new(16);
    for rcode in [2u8, 5u8] {
        assert!(matches!(cache.begin(fp, 0), Flight::Leader));
        cache.complete(fp, Some(entry(vec![0; 12], rcode)), false, true, 60, 0);
        assert!(matches!(cache.lookup(fp, 0), CacheLookup::Miss));
    }
    assert!(matches!(cache.begin(fp, 0), Flight::Leader));
    cache.complete(fp, Some(entry(vec![0; 12], 0)), true, true, 60, 0);
    assert!(matches!(cache.lookup(fp, 0), CacheLookup::Miss));
    cache.complete(fp, Some(entry(vec![9; 12], 0)), false, false, 60, 0);
    match cache.lookup(fp, 0) {
        CacheLookup::Hit { bytes, .. } => assert_eq!(bytes, vec![9; 12]),
        _ => panic!("expected the TCP answer"),
    }
}

#[test]
fn stored_answers_are_replaced_and_a_zero_capacity_cache_stores_nothing() {
    let mut cache = ResponseCache::new(16);
    cache.complete(1, Some(entry(vec![1; 12], 0)), false, true, 60, 0);
    cache.complete(1, Some(entry(vec![4; 12], 3)), false, true, 60, 0);
    match cache.lookup(1, 0) {
        CacheLookup::Hit { bytes, rcode, .. } => {
            assert_eq!(bytes, vec![4; 12]);
            assert_eq!(rcode, 3);
        }
        _ => panic!("expected the latest answer"),
    }
    let mut none = ResponseCache::new(0);
    none.complete(1, Some(entry(vec![1; 12], 0)), false, true, 60, 0);
    assert!(matches!(none.lookup(1, 0), CacheLookup::Miss));
}

#[test]
fn operators_combine_with_short_circuit() {
    assert_eq!(combine_outcomes(MatchOperator::And, &[true, false, true]), (false, 2));
    assert_eq!(combine_outcomes(MatchOperator::And, &[true, true]), (true, 2));
    assert_eq!(combine_outcomes(MatchOperator::Or, &[false, true, false]), (true, 2));
    assert_eq!(combine_outcomes(MatchOperator::Or, &[]), (false, 0));
    assert_eq!(combine_outcomes(MatchOperator::And, &[]), (true, 0));
    assert_eq!(combine_outcomes(MatchOperator::AndNot, &[true, false, false]), (true, 3));
    assert_eq!(combine_outcomes(MatchOperator::AndNot, &[true, true]), (false, 2));
    assert_eq!(combine_outcomes(MatchOperator::AndNot, &[false, false]), (false, 1));
    assert_eq!(combine_outcomes(MatchOperator::OrNot, &[false, true, false]), (true, 3));
    assert_eq!(combine_outcomes(MatchOperator::OrNot, &[false, true]), (false, 2));
}

#[test]
fn response_jumps_stop_at_the_limit() {
    let jump = Action::JumpToPipeline { pipeline: "p2".to_string() };
    let (d, n) = response_step(&jump, 0, 1);
    assert!(matches!(d, ResponseDecision::Jump { ref pipeline } if pipeline == "p2"));
    assert_eq!(n, 1);
    let (d, n) = response_step(&jump, 1, 1);
    assert!(matches!(d, ResponseDecision::Keep));
    assert_eq!(n, 1);
    assert!(matches!(response_step(&Action::Deny, 0, 10).0, ResponseDecision::Refuse));
    assert!(matches!(response_step(&Action::Allow, 0, 10).0, ResponseDecision::Accept));
    let log = Action::Log { level: Some("info".to_string()) };
    assert!(matches!(response_step(&log, 3, 10), (ResponseDecision::Log { .. }, 3)));
}

fn rule_with(matchers: Vec<MatcherWithOp>, response_matchers: Vec<ResponseMatcherWithOp>) -> Rule {
    Rule {
        name: "rule".to_string(),
        matchers,
        matcher_operator: default_match_operator(),
        actions: vec![Action::Log { level: Some("info".to_string()) }],
        response_matchers,
        response_matcher_operator: default_match_operator(),
        response_actions_on_match: Vec::new(),
        response_actions_on_miss: Vec::new(),
    }
}

fn config_with(rule: Rule, select: Vec<PipelineSelectRule>) -> PipelineConfig {
    PipelineConfig {
        version: None,
        settings: GlobalSettings::default(),
        pipeline_select: select,
        pipelines: vec![Pipeline { id: "p1".to_string(), rules: vec![rule] }],
    }
}

#[test]
fn global_settings_defaults() {
    let s = GlobalSettings::default();
    assert_eq!(s.flow_control_initial_permits, 500);
    assert_eq!(s.flow_control_min_permits, 100);
    assert_eq!(s.flow_control_max_permits, 800);
    assert_eq!(s.flow_control_latency_threshold_ms, 100);
    assert_eq!(s.flow_control_adjustment_interval_secs, 5);
    assert_eq!(s.cache_capacity, 10_000);
    assert_eq!(s.response_jump_limit, 10);
    assert_eq!(s.upstream_timeout_ms, 2000);
    assert_eq!(s.min_ttl, 0);
    assert_eq!(default_bind_udp(), "0.0.0.0:5353");
    assert_eq!(default_bind_tcp(), "0.0.0.0:5353");
    assert_eq!(default_upstream(), "1.1.1.1:53");
    assert_eq!(default_match_operator(), MatchOperator::And);
}

#[test]
fn valid_config_passes() {
    let m = MatcherWithOp {
        operator: MatchOperator::And,
        matcher: Matcher::ClientIp { cidr: "10.0.0.0/8".to_string() },
    };
    let rm = ResponseMatcherWithOp {
        operator: MatchOperator::And,
        matcher: ResponseMatcher::ResponseAnswerIp { cidr: "0.0.0.0/0, ,::/0".to_string() },
    };
    assert_eq!(validate_config(&config_with(rule_with(vec![m], vec![rm]), Vec::new())), Ok(()));
}

#[test]
fn bad_networks_are_refused() {
    let m = MatcherWithOp {
        operator: MatchOperator::And,
        matcher: Matcher::ClientIp { cidr: "10.0.0.0/33".to_string() },
    };
    assert_eq!(
        validate_config(&config_with(rule_with(vec![m], Vec::new()), Vec::new())),
        Err(ConfigError::InvalidCidr { cidr: "10.0.0.0/33".to_string() })
    );
    let rm = ResponseMatcherWithOp {
        operator: MatchOperator::And,
        matcher: ResponseMatcher::ResponseUpstreamIp { cidr: "1.1.1.0/24, nope".to_string() },
    };
    assert_eq!(
        validate_config(&config_with(rule_with(Vec::new(), vec![rm]), Vec::new())),
        Err(ConfigError::InvalidCidr { cidr: "nope".to_string() })
    );
    let sel = PipelineSelectRule {
        pipeline: "p1".to_string(),
        matchers: vec![PipelineSelectorMatcherWithOp {
            operator: MatchOperator::And,
            matcher: PipelineSelectorMatcher::ClientIp { cidr: "bad".to_string() },
        }],
        matcher_operator: MatchOperator::And,
    };
    assert_eq!(
        validate_config(&config_with(rule_with(Vec::new(), Vec::new()), vec![sel])),
        Err(ConfigError::InvalidCidr { cidr: "bad".to_string() })
    );
}

#[test]
fn empty_suffix_is_refused() {
    let rm = ResponseMatcherWithOp {
        operator: MatchOperator::Or,
        matcher: ResponseMatcher::RequestDomainSuffix { value: String::new() },
    };
    assert_eq!(
        validate_config(&config_with(rule_with(Vec::new(), vec![rm]), Vec::new())),
        Err(ConfigError::EmptyDomainSuffix)
    );
}

#[test]
fn edns_query_parses_quickly() {
    let bytes = query_bytes(3, "e.test.", RecordType::A, true);
    let mut buf = [0u8; 32];
    let q = parse_quick(&bytes, &mut buf).unwrap();
    assert_eq!(q.qname, "e.test");
    assert_eq!(q.qtype, 1);
    assert!(q.edns);
    let plain = query_bytes(3, "e.test.", RecordType::A, false);
    assert!(!parse_quick(&plain, &mut buf).unwrap().edns);
    let mut with_answer = bytes.clone();
    with_answer[7] = 1;
    assert!(!parse_quick(&with_answer, &mut buf).unwrap().edns);
}

#[test]
fn request_actions_decide_the_route() {
    assert!(matches!(request_step(&Action::Deny), RequestDecision::Refuse));
    assert!(matches!(
        request_step(&Action::Allow),
        RequestDecision::Upstream { upstream: None, transport: Transport::Udp }
    ));
    let fwd = Action::Forward { upstream: Some("1.1.1.1:53".to_string()), transport: None };
    match request_step(&fwd) {
        RequestDecision::Upstream { upstream: Some(u), transport } => {
            assert_eq!(u, "1.1.1.1:53");
            assert_eq!(transport, Transport::Udp);
        }
        _ => panic!("expected a forward"),
    }
    let tcp = Action::Forward { upstream: None, transport: Some(Transport::Tcp) };
    assert!(matches!(
        request_step(&tcp),
        RequestDecision::Upstream { upstream: None, transport: Transport::Tcp }
    ));
    let ip = Action::StaticIpResponse { ip: "127.0.0.1".to_string() };
    assert!(matches!(request_step(&ip), RequestDecision::SynthesizeIp { ref ip } if ip == "127.0.0.1"));
    assert!(matches!(request_step(&Action::Continue), RequestDecision::Next));
    let jump = Action::JumpToPipeline { pipeline: "p2".to_string() };
    assert!(matches!(request_step(&jump), RequestDecision::Jump { ref pipeline } if pipeline == "p2"));
}

#[test]
fn flow_permits_are_capped_and_adjusted() {
    let mut f = FlowControl::new(2, 1, 40, 100);
    assert_eq!(f.limit(), 2);
    assert!(f.try_acquire());
    assert!(f.try_acquire());
    assert!(!f.try_acquire());
    f.release();
    assert_eq!(f.in_flight(), 1);
    f.adjust(true);
    assert_eq!(f.limit(), 4);
    for _ in 0..64 {
        f.record_latency(1_000);
    }
    f.adjust(true);
    assert_eq!(f.limit(), 3);
    f.adjust(true);
    assert_eq!(f.limit(), 2);
    f.adjust(true);
    assert_eq!(f.limit(), 2);
    assert_eq!(FlowControl::new(900, 100, 800, 100).limit(), 800);
    assert_eq!(FlowControl::new(5, 100, 800, 100).limit(), 100);
}
