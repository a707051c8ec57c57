use std::sync::Arc;

use dns_filter::domain_rules::RuleEngine as DomainRules;
use dns_filter::filter::{parse_exception, parse_line, RuleMatcher};
use dns_filter::matchers::{ExactMatcher, Matcher, SuffixMatcher};
use dns_filter::rules::{
    exceptions_of_lists, is_rule_list_file, rules_of_lists, ExceptionMatcher, RuleEngine,
};

#[test]
fn lib_test_plain_domain() {
    assert_eq!(
        parse_line("ads.example.com"),
        Some("ads.example.com".to_string())
    );
}

#[test]
fn lib_test_ublock_rule() {
    assert_eq!(
        parse_line("||ads.example.com^"),
        Some("ads.example.com".to_string())
    );
}

#[test]
fn lib_test_comment() {
    assert_eq!(parse_line("! this is a comment"), None);
}

#[test]
fn lib_test_empty_line() {
    assert_eq!(parse_line(""), None);
    assert_eq!(parse_line("   "), None);
}

#[test]
fn parser_test_plain_domain() {
    assert_eq!(
        parse_line("ads.example.com"),
        Some("ads.example.com".to_string())
    );
}

#[test]
fn parser_test_ublock_rule() {
    assert_eq!(
        parse_line("||ads.example.com^"),
        Some("ads.example.com".to_string())
    );
}

#[test]
fn parser_test_comment() {
    assert_eq!(parse_line("! this is a comment"), None);
}

#[test]
fn parser_test_empty_line() {
    assert_eq!(parse_line(""), None);
    assert_eq!(parse_line("   "), None);
}

#[test]
fn parse_line_lowercases_and_trims() {
    assert_eq!(parse_line("  Ads.Example.COM \t"), Some("ads.example.com".to_string()));
    assert_eq!(parse_line("||Tracker.net"), Some("tracker.net".to_string()));
    assert_eq!(parse_line("||^"), None);
    assert_eq!(parse_line("||"), None);
}

#[test]
fn parse_line_reads_hosts_file_lines() {
    assert_eq!(parse_line("0.0.0.0 ads.example.com"), Some("ads.example.com".to_string()));
    assert_eq!(
        parse_line("127.0.0.1\t  Tracker.Example.com  other.example.com"),
        Some("tracker.example.com".to_string())
    );
}

#[test]
fn test_rule_engine() {
    let matcher = Arc::new(ExactMatcher::new(vec!["ads.example.com".to_string()]));
    let engine = RuleEngine::new(vec![("test".to_string(), matcher as Arc<dyn Matcher>)]);
    assert!(engine.is_blocked("ads.example.com"));
    assert!(!engine.is_blocked("example.com"));
}

#[test]
fn rule_engine_any_matcher_blocks() {
    let exact = Arc::new(ExactMatcher::new(vec!["a.com".to_string()])) as Arc<dyn Matcher>;
    let suffix = Arc::new(SuffixMatcher::new(vec!["b.com".to_string()])) as Arc<dyn Matcher>;
    let engine = RuleEngine::new(vec![("exact".to_string(), exact), ("suffix".to_string(), suffix)]);
    assert_eq!(engine.matcher_count(), 2);
    assert!(engine.is_blocked("a.com"));
    assert!(engine.is_blocked("x.b.com"));
    assert!(!engine.is_blocked("x.a.com"));
}

#[test]
fn rules_of_lists_keeps_order() {
    let lists = vec![
        "! header\nAds.com\n\n||t.net^\r\n".to_string(),
        "0.0.0.0 hosts.org\n".to_string(),
    ];
    assert_eq!(
        rules_of_lists(&lists),
        vec!["ads.com".to_string(), "t.net".to_string(), "hosts.org".to_string()]
    );
}

#[test]
fn domain_rules_block_subdomains() {
    let rules = DomainRules::new(vec!["ads.example.com".to_string(), "tracker.net".to_string()]);
    assert_eq!(rules.count(), 2);
    assert!(rules.is_blocked("ads.example.com"));
    assert!(rules.is_blocked("foo.ADS.example.com"));
    assert!(!rules.is_blocked("badads.example.com"));
    assert!(!rules.is_blocked("example.com"));
}

#[test]
fn rule_matcher_matches_text_suffixes() {
    let mut m = RuleMatcher::new();
    assert!(!m.is_blocked("example.com"));
    m.add("example.com".to_string());
    assert!(m.is_blocked("example.com"));
    assert!(m.is_blocked("ads.example.com"));
    assert!(m.is_blocked("badexample.com"));
    assert!(!m.is_blocked("example.org"));
}

#[test]
fn parse_line_keeps_lines_not_starting_with_an_address() {
    assert_eq!(parse_line("foo bar"), Some("foo bar".to_string()));
    assert_eq!(parse_line("example.com # note"), Some("example.com # note".to_string()));
    assert_eq!(parse_line("::1 localhost"), Some("localhost".to_string()));
    assert_eq!(parse_line("1.2.3 host.example"), Some("1.2.3 host.example".to_string()));
}

#[test]
fn rule_list_files_end_in_txt() {
    assert!(is_rule_list_file("ads.txt"));
    assert!(is_rule_list_file("my.ads.txt"));
    assert!(!is_rule_list_file("ads.txt.bak"));
    assert!(!is_rule_list_file(".txt"));
    assert!(!is_rule_list_file("txt"));
    assert!(!is_rule_list_file("ads.TXT"));
    assert!(is_rule_list_file("..txt"));
}

#[test]
fn exception_lines() {
    assert_eq!(parse_line("@@||allowed.example.com^"), None);
    assert_eq!(parse_exception("@@||Allowed.example.com^"), Some("allowed.example.com".to_string()));
    assert_eq!(parse_exception("  @@good.org "), Some("good.org".to_string()));
    assert_eq!(parse_exception("@@"), None);
    assert_eq!(parse_exception("@@||^"), None);
    assert_eq!(parse_exception("||ads.example.com^"), None);
    let lists = vec!["ads.com\n@@||ok.ads.com^\n".to_string()];
    assert_eq!(rules_of_lists(&lists), vec!["ads.com".to_string()]);
    assert_eq!(exceptions_of_lists(&lists), vec!["ok.ads.com".to_string()]);
    let mut m = ExceptionMatcher::new();
    assert!(!m.is_allowed("ok.ads.com"));
    m.add("ok.ads.com".to_string());
    assert!(m.is_allowed("OK.ads.com"));
    assert!(m.is_allowed("x.ok.ads.com"));
    assert!(!m.is_allowed("ads.com"));
}
