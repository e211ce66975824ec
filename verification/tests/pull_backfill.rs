use std::collections::HashSet;
use vault_sync::materializer::{MaterializeOutcome, SkipReason};
use vault_sync::pull_backfill::{
    next_since, plan_backfill, plan_page, should_backfill, ChangeRow, PullBackfillStats,
    FETCH_CONCURRENCY, PAGE_LIMIT,
};

fn row(path: &str, lsn: i64) -> ChangeRow {
    ChangeRow { path: path.to_string(), lsn }
}

#[test]
fn should_backfill_pulls_missing_safe_nonsubstrate() {
    assert!(should_backfill("Mainframe/01_Notes/server-only.md", false));
}

#[test]
fn should_backfill_skips_present() {
    assert!(!should_backfill("Mainframe/01_Notes/already-here.md", true));
}

#[test]
fn should_backfill_pulls_former_substrate() {
    assert!(should_backfill("Mainframe/02_Projects/Protocols/p.md", false));
}

#[test]
fn should_backfill_skips_traversal() {
    assert!(!should_backfill("../escape.md", false));
}

#[test]
fn plan_backfill_selects_server_only_notes_including_substrate() {
    let changes = vec![
        row("Mainframe/01_Notes/The Tselem Bridge.md", 10),
        row("Mainframe/01_Notes/already-here.md", 11),
        row("Mainframe/02_Projects/Protocols/p.md", 12),
        row("../escape.md", 13),
    ];
    let present: HashSet<&str> = ["Mainframe/01_Notes/already-here.md"].into_iter().collect();
    let mut plan = plan_backfill(&changes, |p| present.contains(p));
    plan.sort();
    assert_eq!(
        plan,
        vec![
            "Mainframe/01_Notes/The Tselem Bridge.md".to_string(),
            "Mainframe/02_Projects/Protocols/p.md".to_string(),
        ],
        "all server-only, safe notes (incl. former substrate) must be pulled"
    );
}

#[test]
fn plan_backfill_empty_when_all_present() {
    let changes = vec![
        row("Mainframe/01_Notes/a.md", 1),
        row("Mainframe/01_Notes/b.md", 2),
    ];
    let plan = plan_backfill(&changes, |_| true);
    assert!(plan.is_empty(), "nothing to pull when everything is present");
}

#[test]
fn every_row_of_a_page_is_counted_once() {
    let changes = vec![
        row("a.md", 1),
        row("b.md", 2),
        row("c.md", 3),
        row("d.md", 4),
        row("../e.md", 5),
    ];
    let present = [false, true, false, false, false];
    let planned = plan_page(&changes, &present);
    assert_eq!(planned, vec!["a.md", "c.md", "d.md"]);
    let outcomes = vec![
        Some(MaterializeOutcome::Wrote { path: "/v/a.md".to_string() }),
        Some(MaterializeOutcome::Skipped(SkipReason::IdenticalToLocal)),
        None,
    ];
    let mut stats = PullBackfillStats::default();
    stats.add_page(&changes, &present, &outcomes);
    assert_eq!(
        stats,
        PullBackfillStats {
            enumerated: 5,
            created: 1,
            already_present: 1,
            refused_or_unsafe: 2,
            failed: 1,
        }
    );
    let more = vec![row("f.md", 6)];
    let failed = vec![Some(MaterializeOutcome::IntegrityFailed {
        path: "/v/f.md".to_string(),
        expected_sha: "x".to_string(),
        actual_sha: "y".to_string(),
    })];
    stats.add_page(&more, &[false], &failed);
    assert_eq!((stats.enumerated, stats.failed), (6, 2));
}

#[test]
fn the_walk_ends_where_the_list_does() {
    assert_eq!(next_since(0, false, 10), Some(10));
    assert_eq!(next_since(10, false, 10), None);
    assert_eq!(next_since(10, false, 9), None);
    assert_eq!(next_since(0, true, 10), None);
    assert_eq!((PAGE_LIMIT, FETCH_CONCURRENCY), (2000, 6));
}
