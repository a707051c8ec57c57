use dns_filter::matchers::{ExactMatcher, Matcher, SuffixMatcher};
use dns_filter::stats::QueryLogger;

#[test]
fn test_exact_matcher() {
    let matcher = ExactMatcher::new(vec!["ads.example.com".to_string()]);
    assert!(matcher.is_blocked("ads.example.com"));
    assert!(!matcher.is_blocked("foo.ads.example.com"));
    assert!(!matcher.is_blocked("example.com"));
}

#[test]
fn test_exact_matcher_case_insensitive() {
    let matcher = ExactMatcher::new(vec!["ADS.EXAMPLE.COM".to_string()]);
    assert!(matcher.is_blocked("ads.example.com"));
    assert!(matcher.is_blocked("ADS.EXAMPLE.COM"));
}

#[test]
fn test_suffix_matcher_exact() {
    let matcher = SuffixMatcher::new(vec!["ads.example.com".to_string()]);
    assert!(matcher.is_blocked("ads.example.com"));
}

#[test]
fn test_suffix_matcher_subdomain() {
    let matcher = SuffixMatcher::new(vec!["ads.example.com".to_string()]);
    assert!(matcher.is_blocked("foo.ads.example.com"));
    assert!(matcher.is_blocked("bar.foo.ads.example.com"));
}

#[test]
fn test_suffix_matcher_no_match() {
    let matcher = SuffixMatcher::new(vec!["ads.example.com".to_string()]);
    assert!(!matcher.is_blocked("example.com"));
    assert!(!matcher.is_blocked("other.com"));
    assert!(!matcher.is_blocked("ads.example.org"));
}

#[test]
fn test_suffix_matcher_case_insensitive() {
    let matcher = SuffixMatcher::new(vec!["ADS.EXAMPLE.COM".to_string()]);
    assert!(matcher.is_blocked("foo.ADS.EXAMPLE.COM"));
    assert!(matcher.is_blocked("foo.ads.example.com"));
}

#[test]
fn test_suffix_matcher_multiple_levels() {
    let matcher = SuffixMatcher::new(vec![
        "example.com".to_string(),
        "ads.another.org".to_string(),
    ]);
    assert!(matcher.is_blocked("example.com"));
    assert!(matcher.is_blocked("foo.example.com"));
    assert!(matcher.is_blocked("ads.another.org"));
    assert!(matcher.is_blocked("foo.ads.another.org"));
    assert!(!matcher.is_blocked("another.org"));
}

#[test]
fn suffix_matcher_does_not_match_inside_labels() {
    let matcher = SuffixMatcher::new(vec!["example.com".to_string()]);
    assert!(!matcher.is_blocked("badexample.com"));
}

#[test]
fn matcher_add_and_count() {
    let mut exact = ExactMatcher::new(vec![]);
    assert_eq!(exact.count(), 0);
    exact.add("Tracker.Example.com".to_string());
    exact.add("tracker.example.com".to_string());
    assert_eq!(exact.count(), 1);
    assert!(exact.is_blocked("TRACKER.example.com"));

    let mut suffix = SuffixMatcher::new(vec![]);
    suffix.add("ads.net".to_string());
    assert_eq!(suffix.count(), 1);
    assert!(suffix.is_blocked("x.ads.net"));
    assert_eq!(exact.name(), "ExactMatcher");
    assert_eq!(suffix.name(), "SuffixMatcher");
}

#[test]
fn test_query_logger_blocked() {
    let mut logger = QueryLogger::new();
    logger.record_blocked("ads.example.com");
    logger.record_blocked("ads.example.com");
    logger.record_blocked("tracker.example.com");

    let stats = logger.get_stats();
    assert_eq!(stats.total_queries, 3);
    assert_eq!(stats.total_blocked, 3);
    assert_eq!(stats.total_allowed, 0);
}

#[test]
fn test_query_logger_allowed() {
    let mut logger = QueryLogger::new();
    logger.record_allowed();
    logger.record_allowed();
    logger.record_blocked("ads.example.com");

    let stats = logger.get_stats();
    assert_eq!(stats.total_queries, 3);
    assert_eq!(stats.total_blocked, 1);
    assert_eq!(stats.total_allowed, 2);
}

#[test]
fn test_query_logger_cache() {
    let mut logger = QueryLogger::new();
    logger.record_cache_hit();
    logger.record_cache_hit();
    logger.record_cache_miss();

    let stats = logger.get_stats();
    assert_eq!(stats.cache_hits, 2);
    assert_eq!(stats.cache_misses, 1);
}

#[test]
fn test_query_logger_domain_tracking() {
    let mut logger = QueryLogger::new();
    logger.record_blocked("ads.example.com");
    logger.record_blocked("ads.example.com");
    logger.record_blocked("tracker.example.com");

    let stats = logger.get_stats();
    assert_eq!(stats.blocked_by_domain.len(), 2);
    assert_eq!(
        stats.blocked_by_domain[0],
        ("ads.example.com".to_string(), 2)
    );
    assert_eq!(
        stats.blocked_by_domain[1],
        ("tracker.example.com".to_string(), 1)
    );
}

#[test]
fn test_query_logger_reset() {
    let mut logger = QueryLogger::new();
    logger.record_blocked("ads.example.com");
    logger.record_allowed();
    logger.record_cache_hit();

    let stats_before = logger.get_stats();
    assert!(stats_before.total_queries > 0);

    logger.reset();
    let stats_after = logger.get_stats();
    assert_eq!(stats_after.total_queries, 0);
    assert_eq!(stats_after.total_blocked, 0);
    assert_eq!(stats_after.cache_hits, 0);
}

#[test]
fn query_logger_totals_add_up() {
    let mut logger = QueryLogger::default();
    logger.record_blocked("a.com");
    logger.record_allowed();
    logger.record_allowed();
    logger.record_cache_hit();
    let stats = logger.get_stats();
    assert_eq!(stats.total_queries, stats.total_blocked + stats.total_allowed);
    assert_eq!(stats.cache_hits, 1);
    assert_eq!(stats.cache_misses, 0);
}

#[test]
fn matchers_after_several_additions() {
    let mut exact = ExactMatcher::new(vec!["A.com".to_string()]);
    exact.add("b.COM".to_string());
    exact.add("c.com".to_string());
    assert!(exact.is_blocked("a.com"));
    assert!(exact.is_blocked("B.com"));
    assert!(exact.is_blocked("c.com"));
    assert!(!exact.is_blocked("x.c.com"));
    let mut suffix = SuffixMatcher::new(vec!["example.com".to_string()]);
    suffix.add("Ads.Another.org".to_string());
    suffix.add("t.net".to_string());
    assert!(suffix.is_blocked("foo.example.com"));
    assert!(suffix.is_blocked("foo.ads.another.org"));
    assert!(suffix.is_blocked("T.NET"));
    assert!(!suffix.is_blocked("another.org"));
    assert!(!suffix.is_blocked("badexample.com"));
    assert!(!suffix.is_blocked("at.net"));
}
