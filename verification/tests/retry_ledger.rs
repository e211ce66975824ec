use vault_sync::retry_ledger::{truncate, RetryEntry, RetryLedger, ERROR_CAP};

#[test]
fn record_and_clear_roundtrip() {
    let mut l = RetryLedger::load(None);
    assert!(l.is_empty());

    l.record_failure("a.md", "fetch: boom", 10);
    l.record_failure("b.md", "materialize: bad", 11);
    assert_eq!(l.len(), 2);

    assert!(l.clear("a.md"));
    assert_eq!(l.len(), 1);
    assert_eq!(l.pending()[0].path, "b.md");
    assert!(!l.clear("a.md"), "nothing left to forget");
}

#[test]
fn repeated_failures_increment_attempts_preserve_first_ts() {
    let mut l = RetryLedger::load(None);
    l.record_failure("x.md", "err1", 100);
    let first = l.pending()[0].first_failed_ts;
    l.record_failure("x.md", "err2", 200);
    let e = l.pending().into_iter().next().unwrap();
    assert_eq!(e.attempts, 2);
    assert_eq!(e.first_failed_ts, first, "first_failed_ts must be stable");
    assert_eq!(e.first_failed_ts, 100);
    assert_eq!(e.last_attempt_ts, 200);
    assert_eq!(e.last_error, "err2");
}

#[test]
fn state_is_durable_across_reload() {
    let mut l = RetryLedger::load(None);
    l.record_failure("stuck.md", "fetch: decode error", 5);
    let written = l.entries().clone();
    let l2 = RetryLedger::load(Some(written));
    assert_eq!(l2.len(), 1, "failed item must persist across reload");
    assert_eq!(l2.pending()[0].path, "stuck.md");
    assert_eq!(l2.pending(), l.pending());
}

#[test]
fn corrupt_file_loads_as_empty_not_error() {
    let l = RetryLedger::load(None);
    assert!(l.is_empty(), "corrupt ledger must load empty, never panic");
}

#[test]
fn error_string_is_capped() {
    let mut l = RetryLedger::load(None);
    l.record_failure("big.md", &"x".repeat(5000), 1);
    assert!(l.pending()[0].last_error.len() <= ERROR_CAP + 3);
    assert_eq!(l.pending()[0].last_error, format!("{}...", "x".repeat(ERROR_CAP)));
}

#[test]
fn errors_are_cut_between_characters() {
    assert_eq!(truncate("abc", 3), "abc");
    assert_eq!(truncate("abcd", 3), "abc...");
    assert_eq!(truncate("", 0), "");
    assert_eq!(truncate("a", 0), "...");
    assert_eq!(truncate("a\u{e9}b", 2), "a...");
    assert_eq!(truncate("a\u{e9}b", 3), "a\u{e9}...");
    assert_eq!(truncate("\u{20ac}\u{20ac}", 5), "\u{20ac}...");
    assert_eq!(truncate("\u{1f6a8}x", 4), "\u{1f6a8}...");
    assert_eq!(truncate("\u{1f6a8}x", 3), "...");
}

#[test]
fn attempts_stop_at_the_largest_number() {
    let e = RetryEntry {
        path: "x.md".to_string(),
        last_error: String::new(),
        first_failed_ts: 1,
        last_attempt_ts: 1,
        attempts: u32::MAX,
    };
    let mut l = RetryLedger::load(Some(vec![("x.md".to_string(), e)]));
    l.record_failure("x.md", "again", 9);
    assert_eq!(l.pending()[0].attempts, u32::MAX);
    assert_eq!(l.pending()[0].last_attempt_ts, 9);
}
