use std::time::Duration;

use dns_filter::cache::ResponseCache;
use dns_filter::config::{Config, ListConfig, UpstreamConfig as ConfiguredUpstream};
use dns_filter::daemon::{
    cache_ttl, lists_to_download, metrics_enabled, override_opt, override_or, prune_age_secs,
    upstream_configs,
};
use dns_filter::dashboard::timestamp_str;
use dns_filter::domain_rules::RuleEngine;
use dns_filter::message::{
    DnsMessage, DnsName, DnsQuestion, MessageType, RCODE_NXDOMAIN, TYPE_A,
};
use dns_filter::metrics::QueryLabels;
use dns_filter::net::SocketAddress;
use dns_filter::server::{handle_request, handle_response, should_block, Handled, ServerOptions};
use dns_filter::storage::QueryAction;
use dns_filter::upstream::Protocol;

fn root_query(domain: &str) -> DnsMessage {
    let mut msg = DnsMessage::new(42, MessageType::Query);
    msg.recursion_desired = true;
    msg.add_query(DnsQuestion::new(DnsName::from_ascii(domain).unwrap(), TYPE_A));
    msg
}

#[test]
fn server_options_defaults() {
    let o = ServerOptions::default();
    assert_eq!(o.listen_addr, SocketAddress::V4 { octets: vec![127, 0, 0, 1], port: 5353 });
    assert_eq!(o.upstream_addr.to_string(), "1.1.1.1:53");
    assert!(o.cache_enabled);
    assert!(o.log_queries);
    assert_eq!(o.cache_ttl, Duration::from_secs(300));
}

#[test]
fn server_blocks_rule_names_and_subdomains() {
    let rules = RuleEngine::new(vec!["ads.example.com".to_string()]);
    assert!(should_block(&root_query("ads.example.com"), &rules));
    assert!(should_block(&root_query("x.ads.example.com"), &rules));
    assert!(!should_block(&root_query("example.com"), &rules));
    let mut cache = ResponseCache::new(Duration::from_secs(300));
    let bytes = root_query("x.ads.example.com").to_bytes().unwrap();
    // Names read off the wire are fully qualified: their text ends with a dot.
    assert!(matches!(handle_request(&bytes, &rules, &mut cache, true, 0), Handled::Forward(_)));
    let fq_rules = RuleEngine::new(vec!["ads.example.com.".to_string()]);
    match handle_request(&bytes, &fq_rules, &mut cache, true, 0) {
        Handled::Reply(b) => {
            let m = DnsMessage::from_bytes(&b).unwrap();
            assert_eq!(m.response_code, RCODE_NXDOMAIN);
            assert_eq!(m.id, 42);
        }
        _ => panic!("expected NXDOMAIN"),
    }
}

#[test]
fn server_forwards_then_answers_from_cache() {
    let rules = RuleEngine::new(vec![]);
    let mut cache = ResponseCache::new(Duration::from_secs(300));
    let bytes = root_query("example.com").to_bytes().unwrap();
    let request = match handle_request(&bytes, &rules, &mut cache, true, 0) {
        Handled::Forward(r) => r,
        _ => panic!("expected forwarding"),
    };
    let answer = DnsMessage::new(42, MessageType::Response).to_bytes().unwrap();
    let sent = handle_response(&request, answer.clone(), &mut cache, true, 0);
    assert_eq!(sent, answer);
    assert_eq!(cache.len(), 1);
    match handle_request(&bytes, &rules, &mut cache, true, 1) {
        Handled::Reply(b) => assert_eq!(DnsMessage::from_bytes(&b).unwrap().id, 42),
        _ => panic!("expected the cached answer"),
    }
    match handle_request(&bytes, &rules, &mut cache, false, 1) {
        Handled::Forward(_) => {}
        _ => panic!("without the cache every query is forwarded"),
    }
    assert!(matches!(handle_request(&[1, 2], &rules, &mut cache, true, 1), Handled::Failed));
}

#[test]
fn server_without_cache_stores_nothing() {
    let rules = RuleEngine::new(vec![]);
    let mut cache = ResponseCache::new(Duration::from_secs(300));
    let request = root_query("example.com");
    let sent = handle_response(&request, vec![9, 9], &mut cache, false, 0);
    assert_eq!(sent, vec![9, 9]);
    assert!(cache.is_empty());
}

#[test]
fn daemon_overrides() {
    let configured = "127.0.0.1:53".to_string();
    assert_eq!(override_or(Some("0.0.0.0:53".to_string()), &configured), "0.0.0.0:53");
    assert_eq!(override_or(None, &configured), "127.0.0.1:53");
    assert_eq!(override_opt(None, &Some("q.db".to_string())), Some("q.db".to_string()));
    assert_eq!(override_opt(Some("a.db".to_string()), &None), Some("a.db".to_string()));
    assert_eq!(override_opt(None, &None), None);
    assert!(metrics_enabled("127.0.0.1:9120"));
    assert!(!metrics_enabled(""));
}

#[test]
fn daemon_upstreams_from_settings() {
    let mut config = Config::default();
    config.upstream = vec![];
    let ups = upstream_configs(&config).unwrap();
    assert_eq!(ups.len(), 1);
    assert_eq!(ups[0].protocol, Protocol::Udp);
    assert_eq!(ups[0].address, "1.1.1.1:53");

    config.upstream = vec![
        ConfiguredUpstream { protocol: "carrier-pigeon".to_string(), address: "x".to_string() },
        ConfiguredUpstream { protocol: "DoH".to_string(), address: "dns.example".to_string() },
        ConfiguredUpstream { protocol: "tcp".to_string(), address: "9.9.9.9:53".to_string() },
    ];
    let ups = upstream_configs(&config).unwrap();
    assert_eq!(ups.len(), 2);
    assert_eq!(ups[0].protocol, Protocol::Https);
    assert_eq!(ups[0].address, "dns.example");
    assert_eq!(ups[1].protocol, Protocol::Tcp);
    assert_eq!(ups[1].timeout, Duration::from_secs(5));

    config.upstream =
        vec![ConfiguredUpstream { protocol: "smtp".to_string(), address: "x".to_string() }];
    let err = upstream_configs(&config).unwrap_err();
    assert_eq!(err.to_string(), "no valid upstream resolvers configured");
}

#[test]
fn daemon_cache_and_prune_settings() {
    let mut config = Config::default();
    assert_eq!(cache_ttl(&config), Duration::from_secs(300));
    config.cache = false;
    assert_eq!(cache_ttl(&config), Duration::from_secs(0));
    assert_eq!(prune_age_secs(&config), None);
    config.prune_days = 2;
    assert_eq!(prune_age_secs(&config), Some(172800));
}

#[test]
fn daemon_lists_to_download() {
    let lists = vec![
        ListConfig { name: "ads".to_string(), path: "https://x.org/ads.txt".to_string(), enabled: true },
        ListConfig { name: "local".to_string(), path: "lists/local.txt".to_string(), enabled: true },
        ListConfig { name: "off".to_string(), path: "http://x.org/off.txt".to_string(), enabled: false },
        ListConfig { name: "plain".to_string(), path: "http://x.org/p".to_string(), enabled: true },
    ];
    let d = lists_to_download(&lists);
    assert_eq!(d.len(), 2);
    assert_eq!(d[0].name, "ads");
    assert_eq!(d[0].url, "https://x.org/ads.txt");
    assert_eq!(d[0].file_name, "ads.txt");
    assert_eq!(d[1].file_name, "plain.txt");
}

#[test]
fn dashboard_timestamps() {
    assert_eq!(timestamp_str(0), "00:00:00");
    assert_eq!(timestamp_str(3661), "01:01:01");
    assert_eq!(timestamp_str(86399), "23:59:59");
    assert_eq!(timestamp_str(90061), "01:01:01");
    assert_eq!(timestamp_str(-1), "07:00:15");
}

#[test]
fn metrics_labels_name_actions() {
    assert_eq!(QueryLabels::for_action(QueryAction::Blocked).action, "blocked");
    assert_eq!(QueryLabels::for_action(QueryAction::Cached).action, "cached");
    assert_eq!(QueryLabels::for_action(QueryAction::Allowed).action, "allowed");
    assert_eq!(QueryLabels::for_action(QueryAction::Error).action, "error");
}
