use std::sync::Arc;
use std::time::Duration;

use dns_filter::cache::ResponseCache;
use dns_filter::dns::{
    blocked_response, domain_from_name, finish_query, formerr_response, is_valid_query,
    prepare_query, query_log_labels, servfail_response, should_block, Finished, Prepared,
};
use dns_filter::matchers::{ExactMatcher, Matcher};
use dns_filter::message::{
    DnsMessage, DnsName, DnsQuestion, MessageType, OP_QUERY, RCODE_FORMERR, RCODE_NXDOMAIN,
    RCODE_SERVFAIL, TYPE_A, TYPE_AAAA,
};
use dns_filter::rules::{ExceptionMatcher, RuleEngine};
use dns_filter::stats::QueryLogger;
use dns_filter::storage::QueryAction;

fn create_query(domain: &str) -> DnsMessage {
    let mut msg = DnsMessage::new(42, MessageType::Query);
    msg.op_code = OP_QUERY;
    msg.recursion_desired = true;
    msg.add_query(DnsQuestion::new(DnsName::from_ascii(domain).unwrap(), TYPE_A));
    msg
}

fn exact_rules(domains: Vec<&str>) -> RuleEngine {
    RuleEngine::with_exceptions(Arc::new(ExceptionMatcher::new()), vec![(
        "exact".to_string(),
        Arc::new(ExactMatcher::new(domains.into_iter().map(|d| d.to_string()).collect()))
            as Arc<dyn Matcher>,
    )])
}

#[test]
fn test_blocked_response_creates_nxdomain() {
    let req = create_query("ads.example.com");
    let resp = blocked_response(&req);
    assert_eq!(resp.response_code, RCODE_NXDOMAIN);
}

#[test]
fn test_blocked_response_preserves_id() {
    let req = create_query("ads.example.com");
    assert_eq!(req.id, 42);
    let resp = blocked_response(&req);
    assert_eq!(resp.id, 42);
}

#[test]
fn test_blocked_response_is_response() {
    let req = create_query("ads.example.com");
    let resp = blocked_response(&req);
    assert_eq!(resp.message_type, MessageType::Response);
}

#[test]
fn test_blocked_response_preserves_query() {
    let req = create_query("example.com");
    let resp = blocked_response(&req);
    assert_eq!(resp.queries.len(), 1);
    let domain = resp.queries.first().unwrap().name.text().clone();
    assert!(domain == "example.com" || domain == "example.com.");
}

#[test]
fn test_blocked_response_sets_ra() {
    let req = create_query("ads.example.com");
    let resp = blocked_response(&req);
    assert!(resp.recursion_available);
}

#[test]
fn test_blocked_response_preserves_opcode() {
    let req = create_query("ads.example.com");
    let resp = blocked_response(&req);
    assert_eq!(resp.op_code, OP_QUERY);
}

#[test]
fn test_blocked_response_serializes() {
    let req = create_query("ads.example.com");
    let resp = blocked_response(&req);
    let bytes = resp.to_bytes().unwrap();
    assert!(!bytes.is_empty());
    let parsed = DnsMessage::from_bytes(&bytes).unwrap();
    assert_eq!(parsed.response_code, RCODE_NXDOMAIN);
}

#[test]
fn test_should_block_returns_true_for_blocked_domain() {
    let rules = exact_rules(vec!["ads.example.com"]);
    let req = create_query("ads.example.com");
    assert!(should_block(&req, &rules));
}

#[test]
fn test_should_block_returns_false_for_allowed_domain() {
    let rules = exact_rules(vec!["ads.example.com"]);
    let req = create_query("safe.example.com");
    assert!(!should_block(&req, &rules));
}

#[test]
fn test_should_block_matches_any_query() {
    let rules = exact_rules(vec!["blocked.com"]);
    let mut msg = DnsMessage::new(1, MessageType::Query);
    msg.add_query(DnsQuestion::new(DnsName::from_ascii("allowed.com").unwrap(), TYPE_A));
    msg.add_query(DnsQuestion::new(DnsName::from_ascii("blocked.com").unwrap(), TYPE_AAAA));
    assert!(should_block(&msg, &rules));
}

#[test]
fn test_is_valid_query_accepts_query() {
    let req = create_query("example.com");
    assert!(is_valid_query(&req));
}

#[test]
fn test_is_valid_query_rejects_response() {
    let req = create_query("example.com");
    let resp = blocked_response(&req);
    assert!(!is_valid_query(&resp));
}

#[test]
fn test_is_valid_query_rejects_empty_queries() {
    let msg = DnsMessage::new(0, MessageType::Query);
    assert!(!is_valid_query(&msg));
}

#[test]
fn test_formerr_response() {
    let resp = formerr_response();
    assert_eq!(resp.message_type, MessageType::Response);
    assert_eq!(resp.response_code, RCODE_FORMERR);
    assert!(resp.recursion_available);
}

#[test]
fn test_servfail_response() {
    let req = create_query("example.com");
    let resp = servfail_response(&req);
    assert_eq!(resp.message_type, MessageType::Response);
    assert_eq!(resp.response_code, RCODE_SERVFAIL);
    assert_eq!(resp.id, 42);
    assert_eq!(resp.queries.len(), 1);
}

#[test]
fn test_blocked_response_no_queries() {
    let msg = DnsMessage::new(1, MessageType::Query);
    let resp = blocked_response(&msg);
    assert_eq!(resp.response_code, RCODE_NXDOMAIN);
    assert_eq!(resp.queries.len(), 0);
}

#[test]
fn test_should_block_empty_rules() {
    let rules = RuleEngine::with_exceptions(Arc::new(ExceptionMatcher::new()), Vec::new());
    let req = create_query("example.com");
    assert!(!should_block(&req, &rules));
}

fn prepared_reply_code(p: Prepared) -> u16 {
    match p {
        Prepared::Reply { bytes, .. } => DnsMessage::from_bytes(&bytes).unwrap().response_code,
        _ => panic!("expected a reply"),
    }
}

#[test]
fn test_handle_dns_query_blocks_filtered_domain() {
    let rules = exact_rules(vec!["ads.example.com", "tracker.example.com"]);
    let mut cache = ResponseCache::new(Duration::from_secs(300));
    let mut stats = QueryLogger::new();
    let bytes = create_query("ads.example.com").to_bytes().unwrap();
    let p = prepare_query(&bytes, &rules, &mut cache, &mut stats, 0);
    assert!(matches!(p, Prepared::Reply { action: Some(QueryAction::Blocked), .. }));
    assert_eq!(prepared_reply_code(p), RCODE_NXDOMAIN);
    assert_eq!(stats.get_stats().total_blocked, 1);
}

#[test]
fn test_handle_dns_query_allows_unfiltered() {
    let rules = exact_rules(vec!["ads.example.com"]);
    let mut cache = ResponseCache::new(Duration::from_secs(300));
    let mut stats = QueryLogger::new();
    let bytes = create_query("example.com").to_bytes().unwrap();
    match prepare_query(&bytes, &rules, &mut cache, &mut stats, 0) {
        Prepared::Forward { request } => {
            assert_eq!(request.id, 42);
            match finish_query(&request, None, &mut cache, &mut stats, 0) {
                Finished::Reply { bytes, action } => {
                    assert_eq!(action, QueryAction::Error);
                    let parsed = DnsMessage::from_bytes(&bytes).unwrap();
                    assert_eq!(parsed.message_type, MessageType::Response);
                    assert_ne!(parsed.response_code, RCODE_FORMERR);
                    assert_eq!(parsed.id, 42);
                }
                Finished::Failed => panic!("expected a reply"),
            }
        }
        _ => panic!("expected forwarding"),
    }
    assert_eq!(stats.get_stats().cache_misses, 1);
}

#[test]
fn test_handle_dns_query_formerr_on_garbage() {
    let rules = exact_rules(vec![]);
    let mut cache = ResponseCache::new(Duration::from_secs(300));
    let mut stats = QueryLogger::new();
    let garbage = vec![0, 1, 2, 3, 4, 5, 6, 7, 8, 9];
    let p = prepare_query(&garbage, &rules, &mut cache, &mut stats, 0);
    assert_eq!(prepared_reply_code(p), RCODE_FORMERR);
}

#[test]
fn test_handle_dns_query_formerr_on_empty() {
    let rules = exact_rules(vec![]);
    let mut cache = ResponseCache::new(Duration::from_secs(300));
    let mut stats = QueryLogger::new();
    let p = prepare_query(&[], &rules, &mut cache, &mut stats, 0);
    assert_eq!(prepared_reply_code(p), RCODE_FORMERR);
}

#[test]
fn test_handle_dns_query_formerr_on_response() {
    let rules = exact_rules(vec![]);
    let mut cache = ResponseCache::new(Duration::from_secs(300));
    let mut stats = QueryLogger::new();
    let bytes = blocked_response(&create_query("example.com")).to_bytes().unwrap();
    let p = prepare_query(&bytes, &rules, &mut cache, &mut stats, 0);
    assert_eq!(prepared_reply_code(p), RCODE_FORMERR);
}

#[test]
fn test_handle_dns_query_formerr_on_no_question() {
    let rules = exact_rules(vec![]);
    let mut cache = ResponseCache::new(Duration::from_secs(300));
    let mut stats = QueryLogger::new();
    let bytes = DnsMessage::new(1, MessageType::Query).to_bytes().unwrap();
    let p = prepare_query(&bytes, &rules, &mut cache, &mut stats, 0);
    assert_eq!(prepared_reply_code(p), RCODE_FORMERR);
}

#[test]
fn forwarded_answer_is_cached_and_reused() {
    let rules = exact_rules(vec![]);
    let mut cache = ResponseCache::new(Duration::from_secs(300));
    let mut stats = QueryLogger::new();
    let req = create_query("example.com");
    let bytes = req.to_bytes().unwrap();
    let request = match prepare_query(&bytes, &rules, &mut cache, &mut stats, 10) {
        Prepared::Forward { request } => request,
        _ => panic!("expected forwarding"),
    };
    let mut answer = DnsMessage::new(42, MessageType::Response);
    answer.add_query(DnsQuestion::new(DnsName::from_ascii("example.com").unwrap(), TYPE_A));
    let answer_bytes = answer.to_bytes().unwrap();
    match finish_query(&request, Some(answer_bytes.clone()), &mut cache, &mut stats, 10) {
        Finished::Reply { bytes, action } => {
            assert_eq!(bytes, answer_bytes);
            assert_eq!(action, QueryAction::Allowed);
        }
        Finished::Failed => panic!("expected a reply"),
    }
    let mut again = create_query("example.com");
    again.id = 7;
    let p = prepare_query(&again.to_bytes().unwrap(), &rules, &mut cache, &mut stats, 20);
    match p {
        Prepared::Reply { bytes, action } => {
            assert_eq!(action, Some(QueryAction::Cached));
            assert_eq!(DnsMessage::from_bytes(&bytes).unwrap().id, 7);
        }
        _ => panic!("expected the cached answer"),
    }
    let stats = stats.get_stats();
    assert_eq!(stats.total_allowed, 1);
    assert_eq!(stats.cache_hits, 1);
    assert_eq!(stats.cache_misses, 1);
}

#[test]
fn domain_and_labels_of_queries() {
    let name = DnsName::from_ascii("www.example.com.").unwrap();
    assert_eq!(domain_from_name(&name), "www.example.com");
    let req = create_query("example.com");
    let (domain, query_type) = query_log_labels(&req);
    assert_eq!(domain, "example.com");
    assert_eq!(query_type, "A");
    let (d, t) = query_log_labels(&DnsMessage::new(1, MessageType::Query));
    assert_eq!(d, "");
    assert_eq!(t, "");
}

#[test]
fn exception_rules_allow_blocked_domains() {
    let mut exceptions = ExceptionMatcher::new();
    exceptions.add("Allowed.example.com".to_string());
    let rules = RuleEngine::with_exceptions(
        Arc::new(exceptions),
        vec![(
            "exact".to_string(),
            Arc::new(ExactMatcher::new(vec![
                "allowed.example.com".to_string(),
                "x.allowed.example.com".to_string(),
                "ads.example.com".to_string(),
            ])) as Arc<dyn Matcher>,
        )],
    );
    assert!(!should_block(&create_query("allowed.example.com"), &rules));
    assert!(!should_block(&create_query("x.allowed.example.com"), &rules));
    assert!(should_block(&create_query("ads.example.com"), &rules));
}
