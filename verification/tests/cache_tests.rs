use std::time::Duration;

use dns_filter::cache::ResponseCache;
use dns_filter::message::{
    DnsMessage, DnsName, DnsQuestion, MessageType, OP_QUERY, RCODE_NXDOMAIN, TYPE_A,
};

fn cache_query(domain: &str) -> DnsMessage {
    let mut msg = DnsMessage::new(42, MessageType::Query);
    msg.op_code = OP_QUERY;
    msg.recursion_desired = true;
    msg.add_query(DnsQuestion::new(DnsName::from_ascii(domain).unwrap(), TYPE_A));
    msg
}

fn cache_response(req: &DnsMessage) -> DnsMessage {
    let mut resp = DnsMessage::new(req.id, MessageType::Response);
    resp.response_code = RCODE_NXDOMAIN;
    for q in &req.queries {
        resp.add_query(q.clone());
    }
    resp
}

#[test]
fn test_cache_empty() {
    let cache = ResponseCache::new(Duration::from_secs(300));
    assert!(cache.is_empty());
    assert_eq!(cache.len(), 0);
}

#[test]
fn test_cache_insert_and_get() {
    let mut cache = ResponseCache::new(Duration::from_secs(300));
    let req = cache_query("example.com");
    let resp = cache_response(&req);
    let resp_bytes = resp.to_bytes().unwrap();

    cache.insert(&req, resp_bytes);
    assert_eq!(cache.len(), 1);

    let cached = cache.get(&req).unwrap();
    assert!(cached.is_some());
    let parsed = DnsMessage::from_bytes(&cached.unwrap()).unwrap();
    assert_eq!(parsed.response_code, RCODE_NXDOMAIN);
}

#[test]
fn test_cache_miss() {
    let mut cache = ResponseCache::new(Duration::from_secs(300));
    let req = cache_query("example.com");
    assert!(cache.get(&req).unwrap().is_none());
}

#[test]
fn test_cache_id_masking() {
    let mut cache = ResponseCache::new(Duration::from_secs(300));
    let req = cache_query("example.com");
    let resp = cache_response(&req);
    cache.insert(&req, resp.to_bytes().unwrap());

    let mut req2 = cache_query("example.com");
    req2.id = 999;
    let cached = cache.get(&req2).unwrap();
    assert!(cached.is_some());
    let parsed = DnsMessage::from_bytes(&cached.unwrap()).unwrap();
    assert_eq!(parsed.id, 999);
}

#[test]
fn test_cache_multiple_queries() {
    let mut cache = ResponseCache::new(Duration::from_secs(300));
    let req1 = cache_query("example.com");
    let req2 = cache_query("other.com");
    let resp1 = cache_response(&req1);
    let resp2 = cache_response(&req2);

    cache.insert(&req1, resp1.to_bytes().unwrap());
    cache.insert(&req2, resp2.to_bytes().unwrap());
    assert_eq!(cache.len(), 2);

    assert!(cache.get(&req1).unwrap().is_some());
    assert!(cache.get(&req2).unwrap().is_some());
}

#[test]
fn test_cache_overwrite() {
    let mut cache = ResponseCache::new(Duration::from_secs(300));
    let req = cache_query("example.com");
    let resp = cache_response(&req);

    cache.insert(&req, resp.to_bytes().unwrap());
    cache.insert(&req, resp.to_bytes().unwrap());
    assert_eq!(cache.len(), 1);
}

#[test]
fn test_cache_expiry() {
    let mut cache = ResponseCache::new(Duration::from_secs(0));
    let req = cache_query("example.com");
    let resp = cache_response(&req);
    cache.insert(&req, resp.to_bytes().unwrap());
    assert!(cache.get(&req).unwrap().is_none());
    assert_eq!(cache.len(), 0);
}

#[test]
fn cache_hit_before_expiry_and_miss_after() {
    let mut cache = ResponseCache::new(Duration::from_millis(1000));
    let req = cache_query("example.com");
    let resp = cache_response(&req);
    cache.insert_at(&req, resp.to_bytes().unwrap(), 5_000_000_000);
    assert!(cache.get_at(&req, 5_999_999_999).unwrap().is_some());
    assert_eq!(cache.len(), 1);
    assert!(cache.get_at(&req, 6_000_000_000).unwrap().is_none());
    assert_eq!(cache.len(), 0);
}

#[test]
fn cache_key_ignores_case_of_names() {
    let mut cache = ResponseCache::new(Duration::from_secs(300));
    let req = cache_query("Example.COM");
    let resp = cache_response(&req);
    cache.insert_at(&req, resp.to_bytes().unwrap(), 0);
    let lower = cache_query("example.com");
    assert!(cache.get_at(&lower, 1).unwrap().is_some());
}

#[test]
fn cache_key_separates_record_types() {
    let req = cache_query("example.com");
    let mut other = DnsMessage::new(42, MessageType::Query);
    other.add_query(DnsQuestion::new(
        DnsName::from_ascii("example.com").unwrap(),
        dns_filter::message::TYPE_AAAA,
    ));
    let a = dns_filter::cache::cache_key(&req);
    let b = dns_filter::cache::cache_key(&other);
    assert_ne!(a, b);
    let mut expected = b"example.com".to_vec();
    expected.push(0);
    expected.extend_from_slice(b"A:IN");
    expected.push(0);
    assert_eq!(a, expected);
}

#[test]
fn cache_malformed_entry_reports_error() {
    let mut cache = ResponseCache::new(Duration::from_secs(300));
    let req = cache_query("example.com");
    cache.insert_at(&req, vec![1, 2, 3], 0);
    assert!(cache.get_at(&req, 1).is_err());
}

#[test]
fn cache_ttl_below_a_millisecond_still_holds() {
    let mut cache = ResponseCache::new(Duration::from_nanos(500));
    let req = cache_query("example.com");
    let resp = cache_response(&req);
    cache.insert_at(&req, resp.to_bytes().unwrap(), 100);
    assert!(cache.get_at(&req, 599).unwrap().is_some());
    assert!(cache.get_at(&req, 600).unwrap().is_none());
}

#[test]
fn cache_store_again_for_same_questions() {
    let mut cache = ResponseCache::new(Duration::from_secs(300));
    let req = cache_query("example.com");
    let mut r1 = cache_response(&req);
    r1.response_code = dns_filter::message::RCODE_SERVFAIL;
    cache.insert_at(&req, r1.to_bytes().unwrap(), 0);
    let mut req2 = cache_query("EXAMPLE.com");
    req2.id = 7;
    let r2 = cache_response(&req2);
    cache.insert_at(&req2, r2.to_bytes().unwrap(), 1);
    assert_eq!(cache.len(), 1);
    let got = DnsMessage::from_bytes(&cache.get_at(&req, 2).unwrap().unwrap()).unwrap();
    assert_eq!(got.id, 42);
    assert_eq!(got.response_code, RCODE_NXDOMAIN);
}
