use hickory_proto::op::{Message, MessageType};
use hickory_proto::rr::rdata::CNAME;
use hickory_proto::rr::{Name, RData, Record, RecordType};
use hickory_proto::serialize::binary::{BinEncodable, BinEncoder};
use kixdns::cache::CacheEntry;
use kixdns::prefetch::{
    cdn_relation_key, relation_update, PrefetchConfig, PrefetchEntry, PrefetchJob, PrefetchManager,
};
use std::time::Duration;

fn pause(d: Duration) {
    let start = std::time::Instant::now();
    while start.elapsed() < d {}
}

fn a() -> u16 {
    u16::from(RecordType::A)
}

fn aaaa() -> u16 {
    u16::from(RecordType::AAAA)
}

fn entry_for(qname: &str, qtype: u16) -> CacheEntry {
    CacheEntry {
        bytes: Vec::new(),
        rcode: 0,
        source: "8.8.8.8:53".to_string(),
        qname: qname.to_string(),
        pipeline_id: "test".to_string(),
        qtype,
    }
}

#[test]
fn prefetch_test_prefetch_config_default() {
    let config = PrefetchConfig::default();
    assert!(config.enabled);
    assert_eq!(config.hot_threshold, 10);
}

#[test]
fn prefetch_test_prefetch_manager_creation() {
    let config = PrefetchConfig::default();
    let manager = PrefetchManager::new(config);

    let stats = manager.get_stats();
    assert_eq!(stats.total_domains, 0);
}

#[test]
fn prefetch_test_test_prefetch_manager_creation() {
    let config = PrefetchConfig::default();
    let manager = PrefetchManager::new(config);

    let stats = manager.get_stats();
    assert_eq!(stats.total_domains, 0);
    assert_eq!(stats.hot_domains, 0);
    assert_eq!(stats.total_accesses, 0);
}

#[test]
fn test_prefetch_record_access() {
    let config = PrefetchConfig {
        enabled: true,
        hot_threshold: 5,
        ..Default::default()
    };
    let mut manager = PrefetchManager::new(config);
    let entry = entry_for("example.com", 1);
    let hash = 12345u64;

    for i in 1..=6 {
        manager.record_access(hash, &entry, 300);
        println!("Access count: {}", i);
    }

    let stats = manager.get_stats();
    assert_eq!(stats.total_domains, 1);
    assert!(stats.total_accesses >= 6);
}

#[test]
fn test_prefetch_disabled() {
    let config = PrefetchConfig {
        enabled: false,
        ..Default::default()
    };
    let mut manager = PrefetchManager::new(config);
    let entry = entry_for("example.com", 1);
    let hash = 12345u64;

    for _ in 0..20 {
        manager.record_access(hash, &entry, 300);
    }

    let stats = manager.get_stats();
    assert_eq!(stats.total_domains, 0);
}

#[test]
fn prefetch_test_test_prefetch_config_default() {
    let config = PrefetchConfig::default();
    assert!(config.enabled);
    assert_eq!(config.hot_threshold, 10);
    assert_eq!(config.concurrency, 5);
    assert_eq!(Duration::from_millis(config.min_interval), Duration::from_secs(30));
    assert!(config.ipv6_on_ipv4_enabled);
    assert!(config.cdn_prefetch_enabled);
}

#[test]
fn test_prefetch_entry_creation() {
    let entry = PrefetchEntry {
        qname: "test.com".to_string(),
        qtype: 1,
        upstream: "1.1.1.1:53".to_string(),
        access_count: 0,
        last_access: 0,
        first_access: 0,
    };

    assert_eq!(entry.qname.as_str(), "test.com");
    assert_eq!(entry.qtype, 1);
    assert_eq!(entry.access_count, 0);
}

#[test]
fn test_prefetch_min_interval() {
    let config = PrefetchConfig {
        enabled: true,
        hot_threshold: 2,
        min_interval: 100,
        ..Default::default()
    };
    let mut manager = PrefetchManager::new(config);
    let entry = entry_for("example.com", 1);
    let hash = 12345u64;

    manager.record_access(hash, &entry, 300);
    manager.record_access(hash, &entry, 300);
    pause(Duration::from_millis(50));
    manager.record_access(hash, &entry, 300);
    manager.record_access(hash, &entry, 300);
    pause(Duration::from_millis(100));

    let stats = manager.get_stats();
    assert_eq!(stats.total_domains, 1);
}

#[test]
fn test_prefetch_multiple_domains() {
    let config = PrefetchConfig::default();
    let mut manager = PrefetchManager::new(config);

    let domains = vec![("example.com", 1u16), ("test.com", 1), ("github.com", 1)];

    for (i, (qname, qtype)) in domains.iter().enumerate() {
        let entry = entry_for(qname, *qtype);
        let hash = (i + 1) as u64;
        for _ in 0..15 {
            manager.record_access(hash, &entry, 300);
        }
    }

    let stats = manager.get_stats();
    assert_eq!(stats.total_domains, 3);
    assert!(stats.total_accesses >= 45);
    assert_eq!(stats.hot_domains, 3);
    assert_eq!(stats.total_accesses, 45);
}

#[test]
fn test_related_jobs_generate_ipv6_and_dynamic_cdn() {
    let config = PrefetchConfig::default();
    let mut manager = PrefetchManager::new(config);
    let pipeline = "default";
    let qname = "example.com";
    let upstream = "8.8.8.8:53";

    let response = build_cname_response("example.com.", "cdn.example.com.");
    manager.register_cdn_relations_from_response(pipeline, upstream, qname, &response);

    let jobs = manager.related_jobs(pipeline, qname, a(), upstream);
    assert_eq!(jobs.len(), 2);
    assert!(jobs.iter().any(|job| job.qtype == aaaa()));
    assert!(jobs
        .iter()
        .any(|job| job.qtype == a() && job.qname.as_str() == "cdn.example.com"));
}

#[test]
fn test_related_jobs_respect_feature_flags() {
    let mut config = PrefetchConfig::default();
    config.ipv6_on_ipv4_enabled = false;
    let mut manager = PrefetchManager::new(config.clone());
    let pipeline = "p1";
    let qname = "example.com";
    let upstream = "1.1.1.1:53";

    let response = build_cname_response("example.com.", "cdn.example.com.");
    manager.register_cdn_relations_from_response(pipeline, upstream, qname, &response);

    let jobs = manager.related_jobs(pipeline, qname, a(), upstream);
    assert_eq!(jobs.len(), 1);
    assert_eq!(jobs[0].qname.as_str(), "cdn.example.com");
    assert_eq!(jobs[0].qtype, a());

    let mut config_cdn_disabled = config;
    config_cdn_disabled.ipv6_on_ipv4_enabled = true;
    config_cdn_disabled.cdn_prefetch_enabled = false;
    let mut manager_cdn_disabled = PrefetchManager::new(config_cdn_disabled);
    let jobs_ipv6 = manager_cdn_disabled.related_jobs(pipeline, qname, a(), upstream);
    assert_eq!(jobs_ipv6.len(), 1);
    assert_eq!(jobs_ipv6[0].qtype, aaaa());
    assert_eq!(jobs_ipv6[0].qname.as_str(), "example.com");
}

#[test]
fn test_cname_multi_branch_resolution() {
    let mut config = PrefetchConfig::default();
    config.ipv6_on_ipv4_enabled = false;
    let mut manager = PrefetchManager::new(config);
    let pipeline = "p1";
    let qname = "example.com";
    let upstream = "1.1.1.1:53";

    let response = build_cname_response_multi(&[
        ("example.com.", "cdn-a.example.com."),
        ("example.com.", "cdn-b.example.com."),
        ("cdn-a.example.com.", "edge-a.example.com."),
    ]);
    manager.register_cdn_relations_from_response(pipeline, upstream, qname, &response);

    let jobs = manager.related_jobs(pipeline, qname, a(), upstream);
    let names: Vec<&str> = jobs.iter().map(|j| j.qname.as_str()).collect();
    assert!(names.contains(&"cdn-a.example.com"));
    assert!(names.contains(&"cdn-b.example.com"));
    assert!(names.contains(&"edge-a.example.com"));
}

#[test]
fn test_cdn_relation_cache_hit_stats() {
    let mut config = PrefetchConfig::default();
    config.ipv6_on_ipv4_enabled = false;
    let mut manager = PrefetchManager::new(config);
    let pipeline = "p1";
    let qname = "example.com";
    let upstream = "1.1.1.1:53";

    let _ = manager.related_jobs(pipeline, qname, a(), upstream);
    let stats = manager.cdn_relation_stats();
    assert_eq!(stats.lookups, 1);
    assert_eq!(stats.hits, 0);

    let response = build_cname_response("example.com.", "cdn.example.com.");
    manager.register_cdn_relations_from_response(pipeline, upstream, qname, &response);

    let _ = manager.related_jobs(pipeline, qname, a(), upstream);
    let stats = manager.cdn_relation_stats();
    assert_eq!(stats.lookups, 2);
    assert_eq!(stats.hits, 1);
    let hit_rate = stats.hits as f64 / stats.lookups as f64;
    assert!(hit_rate > 0.0);
}

#[test]
fn cname_walk_is_breadth_first_and_skips_the_origin() {
    let mut config = PrefetchConfig::default();
    config.ipv6_on_ipv4_enabled = false;
    let mut manager = PrefetchManager::new(config);
    let response = build_cname_response_multi(&[
        ("Example.COM.", "a.example.com."),
        ("a.example.com.", "b.example.com."),
        ("b.example.com.", "example.com."),
        ("example.com.", "c.example.com."),
    ]);
    manager.register_cdn_relations_from_response("p1", "1.1.1.1:53", "example.com", &response);
    let jobs = manager.related_jobs("p1", "EXAMPLE.com", a(), "1.1.1.1:53");
    let names: Vec<&str> = jobs.iter().map(|j| j.qname.as_str()).collect();
    assert_eq!(names, vec!["a.example.com", "c.example.com", "b.example.com"]);
}

#[test]
fn cname_walk_without_links_drops_relations() {
    let mut config = PrefetchConfig::default();
    config.ipv6_on_ipv4_enabled = false;
    let mut manager = PrefetchManager::new(config);
    let response = build_cname_response("example.com.", "cdn.example.com.");
    manager.register_cdn_relations_from_response("p1", "u", "example.com", &response);
    assert_eq!(manager.related_jobs("p1", "example.com", a(), "u").len(), 1);
    let empty = build_cname_response_multi(&[]);
    manager.register_cdn_relations_from_response("p1", "u", "example.com", &empty);
    assert_eq!(manager.related_jobs("p1", "example.com", a(), "u").len(), 0);
}

#[test]
fn cname_walk_keeps_at_most_thirty_two() {
    let mut config = PrefetchConfig::default();
    config.ipv6_on_ipv4_enabled = false;
    let mut manager = PrefetchManager::new(config);
    let targets: Vec<String> = (0..40).map(|i| format!("t{}.example.com.", i)).collect();
    let pairs: Vec<(&str, &str)> = targets.iter().map(|t| ("example.com.", t.as_str())).collect();
    let response = build_cname_response_multi(&pairs);
    manager.register_cdn_relations_from_response("p1", "u", "example.com", &response);
    assert_eq!(manager.related_jobs("p1", "example.com", a(), "u").len(), 32);
}

#[test]
fn cname_walk_stops_after_eight_links() {
    let mut config = PrefetchConfig::default();
    config.ipv6_on_ipv4_enabled = false;
    let mut manager = PrefetchManager::new(config);
    let names: Vec<String> = (0..12).map(|i| format!("n{}.example.com.", i)).collect();
    let mut pairs: Vec<(&str, &str)> = vec![("example.com.", names[0].as_str())];
    for i in 0..11 {
        pairs.push((names[i].as_str(), names[i + 1].as_str()));
    }
    let response = build_cname_response_multi(&pairs);
    manager.register_cdn_relations_from_response("p1", "u", "example.com", &response);
    assert_eq!(manager.related_jobs("p1", "example.com", a(), "u").len(), 8);
}

#[test]
fn jobs_are_admitted_once_per_interval() {
    let mut manager = PrefetchManager::new(PrefetchConfig::default());
    let job = PrefetchJob {
        pipeline_id: "p1".to_string(),
        qname: "example.com".to_string(),
        qtype: 1,
        upstream: "u".to_string(),
    };
    let first = manager.try_prepare_job_at(&job, 1_000);
    assert!(first.is_some());
    assert!(manager.try_prepare_job_at(&job, 20_000).is_none());
    assert!(manager.try_prepare_job_at(&job, 31_000).is_some());
}

#[test]
fn concurrency_slots_limit_admission() {
    let config = PrefetchConfig {
        concurrency: 1,
        min_interval: 0,
        ..Default::default()
    };
    let mut manager = PrefetchManager::new(config);
    let job = |q: &str| PrefetchJob {
        pipeline_id: "p1".to_string(),
        qname: q.to_string(),
        qtype: 1,
        upstream: "u".to_string(),
    };
    let held = manager.try_prepare_job(&job("a.test"));
    assert!(held.is_some());
    assert!(manager.try_prepare_job(&job("b.test")).is_none());
    drop(held);
    assert!(manager.try_prepare_job(&job("b.test")).is_some());
}

#[test]
fn disabled_manager_admits_nothing() {
    let config = PrefetchConfig {
        enabled: false,
        ..Default::default()
    };
    let mut manager = PrefetchManager::new(config);
    let job = PrefetchJob {
        pipeline_id: "p1".to_string(),
        qname: "x".to_string(),
        qtype: 1,
        upstream: "u".to_string(),
    };
    assert!(manager.try_prepare_job(&job).is_none());
    assert!(manager.related_jobs("p1", "x", 1, "u").is_empty());
}

#[test]
fn hot_threshold_marks_related_domains() {
    let config = PrefetchConfig {
        hot_threshold: 2,
        ..Default::default()
    };
    let mut manager = PrefetchManager::new(config);
    let entry = entry_for("example.com", 1);
    let related = Some(vec!["cdn.example.com".to_string()]);
    manager.record_access_at(7, &entry, related.clone(), 10);
    manager.record_access_at(7, &entry, related, 20);
    let stats = manager.get_stats();
    assert_eq!(stats.total_domains, 2);
    assert_eq!(stats.hot_domains, 2);
    assert_eq!(stats.total_accesses, 4);
}

fn build_cname_response(origin: &str, target: &str) -> Vec<u8> {
    build_cname_response_multi(&[(origin, target)])
}

fn build_cname_response_multi(records: &[(&str, &str)]) -> Vec<u8> {
    let mut message = Message::new();
    message.set_message_type(MessageType::Response);
    message.set_id(0);

    for (origin, target) in records {
        let origin_name = Name::from_ascii(origin).unwrap();
        let target_name = Name::from_ascii(target).unwrap();
        let record = Record::from_rdata(origin_name, 60, RData::CNAME(CNAME(target_name)));
        message.add_answer(record);
    }
    let mut buf = Vec::new();
    {
        let mut encoder = BinEncoder::new(&mut buf);
        message.emit(&mut encoder).unwrap();
    }
    buf
}

fn cname(owner: &str, target: &str) -> (u16, String, Option<String>) {
    (5, owner.to_string(), Some(target.to_string()))
}

#[test]
fn relation_update_lists_names_breadth_first() {
    let texts = vec![
        cname("Example.COM.", "a.example.com."),
        (1, "a.example.com.".to_string(), None),
        cname("a.example.com.", "b.example.com."),
        cname("b.example.com.", "example.com."),
        cname("example.com.", "c.example.com."),
        cname("c.example.com.", "c.example.com."),
    ];
    let (key, names) = relation_update("p1", "u", "EXAMPLE.com.", &texts);
    assert_eq!(key, cdn_relation_key("p1", "u", "example.com"));
    assert_eq!(
        names,
        Some(vec!["a.example.com".to_string(), "c.example.com".to_string(), "b.example.com".to_string()])
    );
    let (_, none) = relation_update("p1", "u", "example.com", &vec![(1, "example.com.".to_string(), None)]);
    assert_eq!(none, None);
}

#[test]
fn learn_relations_follows_the_flags() {
    let texts = vec![cname("example.com.", "cdn.example.com.")];
    let mut config = PrefetchConfig::default();
    config.ipv6_on_ipv4_enabled = false;
    config.cdn_prefetch_enabled = false;
    let mut off = PrefetchManager::new(config.clone());
    off.learn_relations("p1", "u", "example.com", &texts);
    config.cdn_prefetch_enabled = true;
    let mut on = PrefetchManager::new(config);
    on.learn_relations("p1", "u", "example.com", &texts);
    let jobs = on.related_jobs("p1", "example.com", a(), "u");
    assert_eq!(jobs.len(), 1);
    assert_eq!(jobs[0].qname.as_str(), "cdn.example.com");
    on.learn_relations("p1", "u", "example.com", &Vec::new());
    assert!(on.related_jobs("p1", "example.com", a(), "u").is_empty());
}
