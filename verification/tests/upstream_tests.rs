use std::time::Duration;

use dns_filter::upstream::{
    doh_url, length_prefix, prefixed_length, resolve_addr, tls_host, ForwardFailure, ForwardStep,
    Protocol, UpstreamClient, UpstreamConfig, UpstreamManager,
};

#[test]
fn test_protocol_parse() {
    assert_eq!(Protocol::parse("udp"), Some(Protocol::Udp));
    assert_eq!(Protocol::parse("UDP"), Some(Protocol::Udp));
    assert_eq!(Protocol::parse("tcp"), Some(Protocol::Tcp));
    assert_eq!(Protocol::parse("tls"), Some(Protocol::Tls));
    assert_eq!(Protocol::parse("https"), Some(Protocol::Https));
    assert_eq!(Protocol::parse("doh"), Some(Protocol::Https));
    assert_eq!(Protocol::parse("unknown"), None);
}

#[test]
fn test_protocol_default_port() {
    assert_eq!(Protocol::Udp.default_port(), 53);
    assert_eq!(Protocol::Tcp.default_port(), 53);
    assert_eq!(Protocol::Tls.default_port(), 853);
    assert_eq!(Protocol::Https.default_port(), 443);
}

#[test]
fn test_upstream_config() {
    let cfg = UpstreamConfig::new(Protocol::Udp, "1.1.1.1:53");
    assert_eq!(cfg.protocol, Protocol::Udp);
    assert_eq!(cfg.address, "1.1.1.1:53");
    assert_eq!(cfg.timeout, Duration::from_secs(5));

    let cfg =
        UpstreamConfig::new(Protocol::Udp, "1.1.1.1:53").with_timeout(Duration::from_secs(3));
    assert_eq!(cfg.timeout, Duration::from_secs(3));
}

#[test]
fn test_upstream_manager_empty() {
    let mgr = UpstreamManager::new(vec![]);
    assert!(mgr.is_empty());
    assert_eq!(mgr.len(), 0);
}

#[test]
fn test_upstream_manager_with_configs() {
    let mgr = UpstreamManager::new(vec![
        UpstreamConfig::new(Protocol::Udp, "1.1.1.1:53"),
        UpstreamConfig::new(Protocol::Udp, "8.8.8.8:53"),
    ]);
    assert!(!mgr.is_empty());
    assert_eq!(mgr.len(), 2);
}

#[test]
fn test_resolve_addr_with_port() {
    let addr = resolve_addr("1.1.1.1:53", 53).unwrap();
    assert_eq!(addr.to_string(), "1.1.1.1:53");
}

#[test]
fn test_resolve_addr_default_port() {
    let addr = resolve_addr("1.1.1.1", 53).unwrap();
    assert_eq!(addr.to_string(), "1.1.1.1:53");
}

#[test]
fn test_resolve_addr_invalid() {
    assert!(resolve_addr("", 53).is_err());
    assert!(resolve_addr("not-an-address:abc", 53).is_err());
}

#[test]
fn test_resolve_addr_ipv6() {
    let addr = resolve_addr("[::1]:53", 53).unwrap();
    assert_eq!(addr.to_string(), "[::1]:53");
}

#[test]
fn test_resolve_addr_ipv6_default_port() {
    let addr = resolve_addr("::1", 53).unwrap();
    assert_eq!(addr.port(), 53);
    assert!(addr.is_ipv6());
}

#[test]
fn resolve_addr_error_message() {
    let e = resolve_addr("nope", 853).unwrap_err();
    assert_eq!(e.address, "nope");
    assert_eq!(e.to_string(), "invalid address 'nope': invalid socket address syntax");
}

#[test]
fn resolve_addr_keeps_bracketed_host_without_port() {
    let addr = resolve_addr("2001:db8::1", 853).unwrap();
    assert_eq!(addr.to_string(), "[2001:db8::1]:853");
    assert_eq!(resolve_addr("[::1]", 53).unwrap().to_string(), "[::1]:53");
}

#[test]
fn client_labels_and_configs() {
    let mgr = UpstreamManager::new(vec![
        UpstreamConfig::new(Protocol::Tls, "dns.quad9.net:853"),
        UpstreamConfig::new(Protocol::Https, "https://dns.example/dns-query"),
    ]);
    assert_eq!(mgr.client(0).label(), "dns.quad9.net:853");
    assert_eq!(mgr.client(1).config().protocol, Protocol::Https);
    let c = UpstreamClient::new(UpstreamConfig::new(Protocol::Tcp, "9.9.9.9"));
    assert_eq!(c.label(), "9.9.9.9");
}

#[test]
fn failover_takes_first_answer() {
    let mgr = UpstreamManager::new(vec![
        UpstreamConfig::new(Protocol::Udp, "127.0.0.1:1"),
        UpstreamConfig::new(Protocol::Udp, "127.0.0.1:2"),
        UpstreamConfig::new(Protocol::Udp, "127.0.0.1:3"),
    ]);
    let step = mgr.first_step();
    assert!(matches!(step, ForwardStep::Try(0)));
    let step = mgr.next_step(0, Err("timeout".to_string()));
    assert!(matches!(step, ForwardStep::Try(1)));
    match mgr.next_step(1, Ok(vec![1, 2, 3])) {
        ForwardStep::Answer(r) => assert_eq!(r, vec![1, 2, 3]),
        other => panic!("unexpected step {:?}", other),
    }
}

#[test]
fn failover_reports_last_error() {
    let mgr = UpstreamManager::new(vec![
        UpstreamConfig::new(Protocol::Udp, "127.0.0.1:1"),
        UpstreamConfig::new(Protocol::Udp, "127.0.0.1:2"),
    ]);
    match mgr.next_step(1, Err("refused".to_string())) {
        ForwardStep::Fail(f) => {
            assert_eq!(f, ForwardFailure::AllFailed("refused".to_string()));
            assert_eq!(f.to_string(), "refused");
        }
        other => panic!("unexpected step {:?}", other),
    }
    let empty = UpstreamManager::new(vec![]);
    match empty.first_step() {
        ForwardStep::Fail(f) => assert_eq!(f.to_string(), "no upstreams configured"),
        other => panic!("unexpected step {:?}", other),
    }
}

#[test]
fn tls_host_and_doh_url() {
    assert_eq!(tls_host("dns.quad9.net:853"), "dns.quad9.net");
    assert_eq!(tls_host("one.one.one.one"), "one.one.one.one");
    assert_eq!(doh_url("https://dns.example/q"), "https://dns.example/q");
    assert_eq!(doh_url("http://dns.example/q"), "http://dns.example/q");
    assert_eq!(doh_url("dns.example"), "https://dns.example/dns-query");
}

#[test]
fn tcp_length_prefix_round_trip() {
    assert_eq!(length_prefix(0x1234), [0x12, 0x34]);
    assert_eq!(length_prefix(29), [0, 29]);
    assert_eq!(length_prefix(65536 + 7), [0, 7]);
    assert_eq!(prefixed_length([0x12, 0x34]), 0x1234);
    assert_eq!(prefixed_length(length_prefix(512)), 512);
}
