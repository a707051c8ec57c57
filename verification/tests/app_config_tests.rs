use std::time::Duration;

use dns_filter::app_config::{AppConfig, ConfigError, UpstreamConfig, UpstreamProtocol};
use dns_filter::net::SocketAddress;

fn v4(a: u8, b: u8, c: u8, d: u8, port: u16) -> SocketAddress {
    SocketAddress::V4 { octets: vec![a, b, c, d], port }
}

#[test]
fn defaults_match_existing_runtime_behavior() {
    let config = AppConfig::default();

    assert_eq!(config.listen, "127.0.0.1:5353");
    assert!(config.cache);
    assert_eq!(config.cache_ttl_seconds, 300);
    assert!(config.log_queries);
    assert_eq!(config.list_dir, "lists");
    assert_eq!(
        config.upstream,
        vec![UpstreamConfig {
            protocol: UpstreamProtocol::Udp,
            address: "1.1.1.1:53".to_string()
        }]
    );
}

#[test]
fn parses_toml_configuration() {
    let config = AppConfig::from_toml(
        r#"
listen = "0.0.0.0:5353"
cache = false
cache_ttl_seconds = 60
log_queries = false
list_dir = "blocklists"

[[upstream]]
protocol = "udp"
address = "9.9.9.9:53"
"#,
    )
    .expect("configuration should parse");

    assert_eq!(config.listen_addr().unwrap(), v4(0, 0, 0, 0, 5353));
    assert!(!config.cache);
    assert_eq!(config.cache_ttl(), Duration::from_secs(60));
    assert!(!config.log_queries);
    assert_eq!(config.list_dir, "blocklists");
    assert_eq!(config.first_udp_upstream_addr().unwrap(), v4(9, 9, 9, 9, 53));
}

#[test]
fn rejects_missing_upstreams() {
    let error = AppConfig::from_toml(
        r#"
upstream = []
"#,
    )
    .expect_err("configuration without upstreams should fail");

    assert!(error.to_string().contains("at least one upstream"));
}

#[test]
fn rejects_invalid_listen_address() {
    let error = AppConfig::from_toml(
        r#"
listen = "not-a-socket"
"#,
    )
    .expect_err("invalid listen socket should fail");

    assert!(error.to_string().contains("invalid listen address"));
}

#[test]
fn empty_text_gives_the_defaults() {
    let config = AppConfig::from_toml("").unwrap();
    assert_eq!(config, AppConfig::default());
    assert!(config.validate().is_ok());
}

#[test]
fn comments_and_unknown_keys() {
    let config = AppConfig::from_toml("# a comment\ncache = true # trailing\n").unwrap();
    assert!(config.cache);
    assert!(AppConfig::from_toml("mystery = 1\n").is_err());
}

#[test]
fn rejects_bad_values() {
    assert!(AppConfig::from_toml("cache = maybe\n").is_err());
    assert!(AppConfig::from_toml("cache_ttl_seconds = -1\n").is_err());
    let e = AppConfig::from_toml("[[upstream]]\nprotocol = \"tcp\"\naddress = \"1.1.1.1:53\"\n");
    assert!(e.is_err());
}

#[test]
fn rejects_invalid_upstream_address() {
    let e = AppConfig::from_toml("[[upstream]]\nprotocol = \"udp\"\naddress = \"nowhere\"\n")
        .expect_err("bad upstream address");
    assert!(matches!(e, ConfigError::InvalidUpstreamAddress { .. }));
    assert!(e.to_string().contains("invalid upstream address"));
}

#[test]
fn ipv6_listen_address() {
    let config = AppConfig::from_toml("listen = \"[::1]:5300\"\n").unwrap();
    assert_eq!(
        config.listen_addr().unwrap(),
        SocketAddress::V6 { segments: vec![0, 0, 0, 0, 0, 0, 0, 1], port: 5300, scope_id: 0 }
    );
}

#[test]
fn hash_inside_quotes_is_text() {
    let config = AppConfig::from_toml("list_dir = \"my#lists\"\n").unwrap();
    assert_eq!(config.list_dir, "my#lists");
    let mut expected = AppConfig::default();
    expected.list_dir = "my#lists".to_string();
    assert_eq!(config, expected);
    let c = AppConfig::from_toml("list_dir = \"a\\\"#b\" # comment\n").unwrap();
    assert_eq!(c.list_dir, "a\\\"#b");
    assert!(AppConfig::from_toml("list_dir = 'x#y'\n").is_err());
}
