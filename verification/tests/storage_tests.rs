use dns_filter::storage::{prune_cutoff, summarize_counts, QueryAction, StatsSummary};

#[test]
fn summarize_counts_by_action() {
    let rows = vec![
        ("blocked".to_string(), 1),
        ("allowed".to_string(), 1),
        ("cached".to_string(), 1),
        ("error".to_string(), 1),
    ];
    let stats = summarize_counts(&rows);
    assert_eq!(stats.total, 4);
    assert_eq!(stats.blocked, 1);
    assert_eq!(stats.allowed, 1);
    assert_eq!(stats.cached, 1);
    assert_eq!(stats.errors, 1);
}

#[test]
fn summarize_no_rows() {
    let stats = summarize_counts(&vec![]);
    assert_eq!(stats.total, 0);
    assert_eq!(stats.blocked, 0);
    let d = StatsSummary::default();
    assert_eq!(d.total, 0);
    assert_eq!(d.errors, 0);
}

#[test]
fn summarize_other_actions_count_in_total_only() {
    let rows = vec![("blocked".to_string(), 3), ("odd".to_string(), 5), ("blocked".to_string(), 2)];
    let stats = summarize_counts(&rows);
    assert_eq!(stats.total, 10);
    assert_eq!(stats.blocked, 5);
    assert_eq!(stats.allowed, 0);
}

#[test]
fn action_names() {
    assert_eq!(QueryAction::Blocked.as_str(), "blocked");
    assert_eq!(QueryAction::Allowed.as_str(), "allowed");
    assert_eq!(QueryAction::Cached.as_str(), "cached");
    assert_eq!(QueryAction::Error.as_str(), "error");
}

#[test]
fn prune_cutoff_saturates() {
    assert_eq!(prune_cutoff(1000, 0), 1000);
    assert_eq!(prune_cutoff(1000, 400), 600);
    assert_eq!(prune_cutoff(10, 400), 0);
}

#[test]
fn counts_fit_detects_overflow() {
    let rows = vec![("blocked".to_string(), i64::MAX), ("allowed".to_string(), 0)];
    assert!(dns_filter::storage::counts_fit(&rows));
    let over = vec![("blocked".to_string(), i64::MAX), ("odd".to_string(), 1)];
    assert!(!dns_filter::storage::counts_fit(&over));
    let back = vec![("error".to_string(), -5), ("error".to_string(), 3)];
    assert!(dns_filter::storage::counts_fit(&back));
    assert_eq!(summarize_counts(&back).errors, -2);
}
