use kixdns::config::{
    Action, MatchOperator, Matcher, MatcherWithOp, Pipeline, PipelineSelectRule,
    PipelineSelectorMatcher, PipelineSelectorMatcherWithOp, Rule, Transport,
};
use kixdns::engine::{evaluate_request, response_step, RequestDecision, ResponseDecision};
use kixdns::config::{ResponseMatcher, ResponseMatcherWithOp};
use kixdns::matcher::{
    domain_suffix_matches, ip_in_net, ip_in_net_list, matcher_matches, qclass_code, rcode_code,
    response_matcher_matches, response_rule_matches, rule_matches, select_pipeline, type_code,
    RequestView, ResponseView,
};

fn view(qname: &str, client_ip: Vec<u8>) -> RequestView {
    RequestView {
        qname: qname.to_string(),
        qclass: 1,
        edns: false,
        client_ip,
        listener_label: "default".to_string(),
    }
}

fn with_op(m: Matcher) -> MatcherWithOp {
    MatcherWithOp { operator: MatchOperator::And, matcher: m }
}

fn rule(matchers: Vec<MatcherWithOp>, op: MatchOperator, actions: Vec<Action>) -> Rule {
    Rule {
        name: "r".to_string(),
        matchers,
        matcher_operator: op,
        actions,
        response_matchers: Vec::new(),
        response_matcher_operator: MatchOperator::And,
        response_actions_on_match: Vec::new(),
        response_actions_on_miss: Vec::new(),
    }
}

fn pipeline(id: &str, rules: Vec<Rule>) -> Pipeline {
    Pipeline { id: id.to_string(), rules }
}

#[test]
fn suffix_matches_on_label_boundaries() {
    assert!(domain_suffix_matches("x.block.test", "block.test"));
    assert!(domain_suffix_matches("block.test", "BLOCK.test"));
    assert!(domain_suffix_matches("X.Block.Test", "block.test"));
    assert!(!domain_suffix_matches("xblock.test", "block.test"));
    assert!(!domain_suffix_matches("test", "block.test"));
}

#[test]
fn networks_contain_addresses() {
    assert!(ip_in_net("10.0.0.0/8", &[10, 1, 2, 3]));
    assert!(!ip_in_net("10.0.0.0/8", &[11, 0, 0, 1]));
    assert!(ip_in_net("192.168.1.128/25", &[192, 168, 1, 200]));
    assert!(!ip_in_net("192.168.1.128/25", &[192, 168, 1, 100]));
    assert!(ip_in_net("0.0.0.0/0", &[8, 8, 8, 8]));
    assert!(!ip_in_net("10.0.0.0/8", &[0; 16]));
    assert!(!ip_in_net("not a net", &[10, 0, 0, 1]));
    let mut v6 = [0u8; 16];
    v6[0] = 0x20;
    v6[1] = 0x01;
    v6[2] = 0x0d;
    v6[3] = 0xb8;
    assert!(ip_in_net("2001:db8::/32", &v6));
    assert!(ip_in_net_list("192.0.2.0/24, ,10.0.0.0/8", &[10, 9, 9, 9]));
    assert!(!ip_in_net_list("192.0.2.0/24", &[10, 9, 9, 9]));
}

#[test]
fn class_names_map_to_codes() {
    assert_eq!(qclass_code("IN"), Some(1));
    assert_eq!(qclass_code("in"), Some(1));
    assert_eq!(qclass_code("CH"), Some(3));
    assert_eq!(qclass_code("hs"), Some(4));
    assert_eq!(qclass_code("NONE"), Some(254));
    assert_eq!(qclass_code("ANY"), Some(255));
    assert_eq!(qclass_code("*"), Some(255));
    assert_eq!(qclass_code("INX"), None);
}

#[test]
fn matchers_read_the_request() {
    let q = view("ads.example.com", vec![10, 0, 0, 1]);
    assert!(matcher_matches(&Matcher::DomainRegex { value: "(?i)^ads\\.".to_string() }, &q));
    assert!(!matcher_matches(&Matcher::DomainRegex { value: "^cdn\\.".to_string() }, &q));
    assert!(!matcher_matches(&Matcher::DomainRegex { value: "(".to_string() }, &q));
    assert!(matcher_matches(&Matcher::Qclass { value: "IN".to_string() }, &q));
    assert!(matcher_matches(&Matcher::EdnsPresent { expect: false }, &q));
    assert!(matcher_matches(&Matcher::ClientIp { cidr: "10.0.0.0/8".to_string() }, &q));
    let r = rule(
        vec![with_op(Matcher::Any), with_op(Matcher::ClientIp { cidr: "10.0.0.0/8".to_string() })],
        MatchOperator::AndNot,
        Vec::new(),
    );
    assert!(!rule_matches(&r, &q));
}

#[test]
fn selection_takes_the_first_matching_rule() {
    let sel = |p: &str, m: PipelineSelectorMatcher| PipelineSelectRule {
        pipeline: p.to_string(),
        matchers: vec![PipelineSelectorMatcherWithOp { operator: MatchOperator::And, matcher: m }],
        matcher_operator: MatchOperator::And,
    };
    let rules = vec![
        sel("lab", PipelineSelectorMatcher::ListenerLabel { value: "lab".to_string() }),
        sel("office", PipelineSelectorMatcher::ClientIp { cidr: "10.0.0.0/8".to_string() }),
        sel("all", PipelineSelectorMatcher::Any),
    ];
    assert_eq!(select_pipeline(&rules, &view("a.test", vec![10, 0, 0, 1])), "office");
    assert_eq!(select_pipeline(&rules, &view("a.test", vec![192, 0, 2, 1])), "all");
    assert_eq!(select_pipeline(&Vec::new(), &view("a.test", vec![192, 0, 2, 1])), "default");
}

#[test]
fn static_ip_rule_answers_without_upstream() {
    let p1 = pipeline(
        "p1",
        vec![rule(
            vec![with_op(Matcher::DomainSuffix { value: "block.test".to_string() })],
            MatchOperator::And,
            vec![Action::StaticIpResponse { ip: "127.0.0.1".to_string() }],
        )],
    );
    let (d, p, r, _) = evaluate_request(&vec![p1.clone()], 0, &view("x.block.test", vec![1, 2, 3, 4]), 10);
    assert!(matches!(d, RequestDecision::SynthesizeIp { ref ip } if ip == "127.0.0.1"));
    assert_eq!((p, r), (0, 0));
    let (d, _, _, _) = evaluate_request(&vec![p1], 0, &view("example.com", vec![1, 2, 3, 4]), 10);
    assert!(matches!(d, RequestDecision::Upstream { upstream: None, transport: Transport::Udp }));
}

#[test]
fn regex_deny_refuses() {
    let p1 = pipeline(
        "p1",
        vec![rule(
            vec![with_op(Matcher::DomainRegex { value: "(?i)^ads\\.".to_string() })],
            MatchOperator::And,
            vec![Action::Deny],
        )],
    );
    let (d, _, _, _) = evaluate_request(&vec![p1], 0, &view("ads.example.com", vec![1, 2, 3, 4]), 10);
    assert!(matches!(d, RequestDecision::Refuse));
}

#[test]
fn jump_routes_to_second_pipeline() {
    let p1 = pipeline(
        "p1",
        vec![rule(
            vec![with_op(Matcher::ClientIp { cidr: "10.0.0.0/8".to_string() })],
            MatchOperator::And,
            vec![Action::JumpToPipeline { pipeline: "p2".to_string() }],
        )],
    );
    let p2 = pipeline(
        "p2",
        vec![rule(
            vec![with_op(Matcher::Any)],
            MatchOperator::And,
            vec![Action::Forward { upstream: Some("8.8.8.8:53".to_string()), transport: None }],
        )],
    );
    let ps = vec![p1, p2];
    let (d, p, r, _) = evaluate_request(&ps, 0, &view("example.com", vec![10, 1, 1, 1]), 10);
    match d {
        RequestDecision::Upstream { upstream: Some(u), transport } => {
            assert_eq!(u, "8.8.8.8:53");
            assert_eq!(transport, Transport::Udp);
        }
        _ => panic!("expected a forward"),
    }
    assert_eq!((p, r), (1, 0));
    let (d, p, _, _) = evaluate_request(&ps, 0, &view("example.com", vec![192, 0, 2, 1]), 10);
    assert!(matches!(d, RequestDecision::Upstream { upstream: None, .. }));
    assert_eq!(p, 0);
    let on_match = vec![Action::Log { level: None }, Action::Allow];
    let (first, n) = response_step(&on_match[0], 0, 10);
    assert!(matches!(first, ResponseDecision::Log { .. }));
    let (second, _) = response_step(&on_match[1], n, 10);
    assert!(matches!(second, ResponseDecision::Accept));
}

#[test]
fn request_jumps_are_capped() {
    let looping = pipeline(
        "loop",
        vec![rule(
            vec![with_op(Matcher::Any)],
            MatchOperator::And,
            vec![Action::JumpToPipeline { pipeline: "loop".to_string() }, Action::Deny],
        )],
    );
    let (d, _, _, _) = evaluate_request(&vec![looping], 0, &view("a.test", vec![1, 1, 1, 1]), 3);
    assert!(matches!(d, RequestDecision::Refuse));
}

#[test]
fn continue_moves_to_the_next_rule() {
    let p1 = pipeline(
        "p1",
        vec![
            rule(vec![with_op(Matcher::Any)], MatchOperator::And, vec![Action::Continue, Action::Deny]),
            rule(
                vec![with_op(Matcher::Any)],
                MatchOperator::And,
                vec![Action::StaticResponse { rcode: "NXDOMAIN".to_string() }],
            ),
        ],
    );
    let (d, _, r, _) = evaluate_request(&vec![p1], 0, &view("a.test", vec![1, 1, 1, 1]), 3);
    assert!(matches!(d, RequestDecision::Synthesize { ref rcode } if rcode == "NXDOMAIN"));
    assert_eq!(r, 1);
}

fn response(rcode: u8) -> ResponseView {
    ResponseView {
        upstream: "8.8.8.8:53".to_string(),
        upstream_ip: vec![8, 8, 8, 8],
        answer_ips: vec![vec![93, 184, 216, 34]],
        answer_types: vec![5, 1],
        rcode,
        edns: true,
    }
}

#[test]
fn names_of_types_and_codes() {
    assert_eq!(type_code("a"), Some(1));
    assert_eq!(type_code("AAAA"), Some(28));
    assert_eq!(type_code("cname"), Some(5));
    assert_eq!(type_code("mx"), Some(15));
    assert_eq!(type_code("bogus"), None);
    assert_eq!(rcode_code("noerror"), Some(0));
    assert_eq!(rcode_code("NXDOMAIN"), Some(3));
    assert_eq!(rcode_code("ServFail"), Some(2));
    assert_eq!(rcode_code("REFUSED"), Some(5));
    assert_eq!(rcode_code("NOPE"), None);
}

#[test]
fn response_matchers_read_the_response() {
    let q = view("www.example.com", vec![10, 0, 0, 1]);
    let r = response(0);
    let m = |m: ResponseMatcher| response_matcher_matches(&m, &q, &r);
    assert!(m(ResponseMatcher::UpstreamEquals { value: "8.8.8.8:53".to_string() }));
    assert!(!m(ResponseMatcher::UpstreamEquals { value: "1.1.1.1:53".to_string() }));
    assert!(m(ResponseMatcher::ResponseAnswerIp { cidr: "0.0.0.0/0".to_string() }));
    assert!(!m(ResponseMatcher::ResponseAnswerIp { cidr: "10.0.0.0/8".to_string() }));
    assert!(m(ResponseMatcher::ResponseUpstreamIp { cidr: "8.8.8.0/24,1.1.1.0/24".to_string() }));
    assert!(m(ResponseMatcher::ResponseType { value: "cname".to_string() }));
    assert!(!m(ResponseMatcher::ResponseType { value: "AAAA".to_string() }));
    assert!(m(ResponseMatcher::ResponseRcode { value: "NOERROR".to_string() }));
    assert!(!m(ResponseMatcher::ResponseRcode { value: "NXDOMAIN".to_string() }));
    assert!(m(ResponseMatcher::RequestDomainSuffix { value: "example.com".to_string() }));
    assert!(m(ResponseMatcher::ResponseEdnsPresent { expect: true }));
    assert!(m(ResponseMatcher::ResponseQclass { value: "IN".to_string() }));
}

#[test]
fn response_rule_uses_its_own_operator() {
    let q = view("www.example.com", vec![10, 0, 0, 1]);
    let mut r = rule(Vec::new(), MatchOperator::And, Vec::new());
    r.response_matchers = vec![
        ResponseMatcherWithOp {
            operator: MatchOperator::And,
            matcher: ResponseMatcher::ResponseRcode { value: "SERVFAIL".to_string() },
        },
        ResponseMatcherWithOp {
            operator: MatchOperator::And,
            matcher: ResponseMatcher::ResponseAnswerIp { cidr: "0.0.0.0/0".to_string() },
        },
    ];
    r.response_matcher_operator = MatchOperator::Or;
    assert!(response_rule_matches(&r, &q, &response(0)));
    r.response_matcher_operator = MatchOperator::And;
    assert!(!response_rule_matches(&r, &q, &response(0)));
    assert!(response_rule_matches(&r, &q, &response(2)));
}

#[test]
fn passed_log_actions_are_returned_in_order() {
    let p1 = pipeline(
        "p1",
        vec![
            rule(
                vec![with_op(Matcher::Any)],
                MatchOperator::And,
                vec![Action::Log { level: Some("info".to_string()) }, Action::Continue],
            ),
            rule(
                vec![with_op(Matcher::Any)],
                MatchOperator::And,
                vec![Action::Log { level: None }, Action::Deny, Action::Log { level: Some("warn".to_string()) }],
            ),
        ],
    );
    let (d, _, _, logs) = evaluate_request(&vec![p1], 0, &view("a.test", vec![1, 1, 1, 1]), 3);
    assert!(matches!(d, RequestDecision::Refuse));
    assert_eq!(logs, vec![Some("info".to_string()), None]);
}
