use dns_filter::config::{
    default_cache_ttl, default_lists_dir, default_listen, default_metrics_addr, default_true,
    default_upstream, Config,
};

/// A reader for a disk on which no settings file exists.
fn read_missing(_path: &str) -> Option<Config> {
    None
}

#[test]
fn test_default_config() {
    let config = Config::default();
    assert_eq!(config.listen, "127.0.0.1:53");
    assert!(config.cache);
    assert_eq!(config.cache_ttl, 300);
    assert_eq!(config.lists_dir, "lists");
}

#[test]
fn test_candidate_paths() {
    let paths = Config::candidate_paths(None);
    assert!(!paths.is_empty());
    assert!(paths.iter().any(|p| p.ends_with("config.toml")));
}

#[test]
fn test_load_nonexistent_falls_back() {
    let config = Config::load(
        Some("/nonexistent/path/config.toml"),
        None,
        |p| std::path::Path::new(p).exists(),
        read_missing,
    );
    assert_eq!(config.listen, "127.0.0.1:53");
}

#[test]
fn test_metrics_addr_default() {
    let config = Config::default();
    assert_eq!(config.metrics_addr, "127.0.0.1:9120");
}

#[test]
fn config_defaults_of_fields() {
    assert_eq!(default_listen(), "127.0.0.1:53");
    assert!(default_true());
    assert_eq!(default_cache_ttl(), 300);
    assert_eq!(default_lists_dir(), "lists");
    assert_eq!(default_metrics_addr(), "127.0.0.1:9120");
    let ups = default_upstream();
    assert_eq!(ups.len(), 1);
    assert_eq!(ups[0].protocol, "udp");
    assert_eq!(ups[0].address, "1.1.1.1:53");
    let config = Config::default();
    assert!(!config.log_queries);
    assert!(config.log_file.is_none());
    assert!(config.lists.is_empty());
    assert!(config.storage_path.is_none());
    assert_eq!(config.prune_days, 0);
}

#[test]
fn candidate_paths_in_priority_order() {
    assert_eq!(
        Config::candidate_paths(Some("/home/user")),
        vec![
            "config.toml".to_string(),
            "dns-filter.toml".to_string(),
            "/home/user/.config/dns-filter/config.toml".to_string(),
            "/etc/dns-filter/config.toml".to_string(),
        ]
    );
    assert_eq!(
        Config::candidate_paths(Some("/root/")),
        vec![
            "config.toml".to_string(),
            "dns-filter.toml".to_string(),
            "/root/.config/dns-filter/config.toml".to_string(),
            "/etc/dns-filter/config.toml".to_string(),
        ]
    );
    assert_eq!(Config::candidate_paths(None).len(), 3);
}

#[test]
fn find_takes_first_existing_candidate() {
    let found = Config::find(Some("/h"), |p| p == "/h/.config/dns-filter/config.toml" || p == "/etc/dns-filter/config.toml");
    assert_eq!(found, Some("/h/.config/dns-filter/config.toml".to_string()));
    assert_eq!(Config::find(None, |_| false), None);
}

#[test]
fn load_uses_explicit_then_found_then_defaults() {
    let mut custom = Config::default();
    custom.listen = "0.0.0.0:5353".to_string();
    let c = custom.clone();
    let loaded = Config::load(Some("my.toml"), None, |_| false, move |p| {
        if p == "my.toml" { Some(c.clone()) } else { None }
    });
    assert_eq!(loaded.listen, "0.0.0.0:5353");

    let c2 = custom.clone();
    let found = Config::load(Some(""), None, |p| p == "dns-filter.toml", move |p| {
        if p == "dns-filter.toml" { Some(c2.clone()) } else { None }
    });
    assert_eq!(found.listen, "0.0.0.0:5353");

    let none = Config::load(None, None, |_| false, |_| panic!("nothing to read"));
    assert_eq!(none.listen, "127.0.0.1:53");

    let unreadable = Config::load(Some("bad.toml"), None, |_| true, |_| None);
    assert_eq!(unreadable.listen, "127.0.0.1:53");
}
