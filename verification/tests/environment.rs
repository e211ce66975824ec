use std::time::Duration;
use vault_sync::pull_backfill::{
    is_backfill_disabled, read_backfill_interval, DEFAULT_BACKFILL_INTERVAL_SECS,
    ENV_BACKFILL_INTERVAL_SECS, ENV_DISABLE_BACKFILL,
};
use vault_sync::push_rate_limit;
use vault_sync::push_rate_limit::{read_max_per_sec, DEFAULT_MAX_PUSH_PER_SEC, ENV_MAX_PER_SEC};
use vault_sync::reconciliation;
use vault_sync::reconciliation::{
    recon_pairs_from_sync_roots, EnvReader, MapEnv, SyncRoot, ENV_INTERVAL_SECS,
};
use vault_sync::sync_health::{
    is_recovery_disabled, is_stalled, read_threshold, watchdog_tick, SyncHealth,
    DEFAULT_STALL_THRESHOLD_SECS, ENV_DISABLE_RECOVERY, ENV_STALL_THRESHOLD,
};
use vault_sync::tray_state::TrayState;

fn env_with(pairs: &[(&str, &str)]) -> MapEnv {
    MapEnv(
        pairs
            .iter()
            .map(|(k, v)| (k.to_string(), v.to_string()))
            .collect(),
    )
}

fn secs(n: u64) -> Duration {
    Duration::from_secs(n)
}

fn tray() -> TrayState {
    TrayState::new("sub".to_string(), "url".to_string(), "/v".to_string())
}

#[test]
fn read_interval_defaults_when_env_missing() {
    let env = env_with(&[]);
    assert_eq!(secs(reconciliation::read_interval(&env)), secs(600));
}

#[test]
fn read_interval_uses_env_when_valid() {
    let env = env_with(&[(ENV_INTERVAL_SECS, "60")]);
    assert_eq!(secs(reconciliation::read_interval(&env)), secs(60));
}

#[test]
fn read_interval_falls_back_to_default_on_zero() {
    let env = env_with(&[(ENV_INTERVAL_SECS, "0")]);
    assert_eq!(secs(reconciliation::read_interval(&env)), secs(600));
}

#[test]
fn read_interval_falls_back_to_default_on_malformed() {
    let env = env_with(&[(ENV_INTERVAL_SECS, "abc")]);
    assert_eq!(secs(reconciliation::read_interval(&env)), secs(600));
}

#[test]
fn reconciliation_is_disabled_false_when_env_missing() {
    let env = env_with(&[]);
    assert!(!reconciliation::is_disabled(&env));
}

#[test]
fn reconciliation_is_disabled_false_when_env_empty_string() {
    let env = env_with(&[(reconciliation::ENV_DISABLE, "")]);
    assert!(!reconciliation::is_disabled(&env));
}

#[test]
fn reconciliation_is_disabled_true_when_env_set_to_one() {
    let env = env_with(&[(reconciliation::ENV_DISABLE, "1")]);
    assert!(reconciliation::is_disabled(&env));
}

#[test]
fn reconciliation_is_disabled_true_when_env_set_to_true() {
    let env = env_with(&[(reconciliation::ENV_DISABLE, "true")]);
    assert!(reconciliation::is_disabled(&env));
}

#[test]
fn later_settings_override_earlier_ones() {
    let env = env_with(&[("k", "1"), ("other", "x"), ("k", "2")]);
    assert_eq!(env.get("k"), Some("2".to_string()));
    assert_eq!(env.get("missing"), None);
}

#[test]
fn written_interval_is_read_back() {
    for n in [1u64, 7, 600, u64::MAX] {
        let text = n.to_string();
        let env = env_with(&[(ENV_INTERVAL_SECS, text.as_str())]);
        assert_eq!(reconciliation::read_interval(&env), n);
    }
    let over = "18446744073709551616";
    assert_eq!(reconciliation::read_interval(&env_with(&[(ENV_INTERVAL_SECS, over)])), 600);
    assert_eq!(reconciliation::read_interval(&env_with(&[(ENV_INTERVAL_SECS, "+5")])), 5);
    assert_eq!(reconciliation::read_interval(&env_with(&[(ENV_INTERVAL_SECS, "-5")])), 600);
}

#[test]
fn tray_state_note_recon_pass_folds_counts() {
    let mut s = tray();
    assert_eq!(s.recon_pulls_total, 0);
    assert_eq!(s.recon_pushes_total, 0);
    assert!(s.last_recon_at.is_none());

    s.note_recon_pass(3, 2, 1_700_000_000);
    assert_eq!(s.recon_pulls_total, 3);
    assert_eq!(s.recon_pushes_total, 2);
    assert!(s.last_recon_at.is_some());

    s.note_recon_pass(5, 1, 1_700_000_600);
    assert_eq!(s.recon_pulls_total, 8);
    assert_eq!(s.recon_pushes_total, 3);
}

#[test]
fn tray_state_recon_in_progress_round_trips() {
    let mut s = tray();
    assert!(!s.recon_in_progress);
    s.set_recon_in_progress(true);
    assert!(s.recon_in_progress);
    s.set_recon_in_progress(false);
    assert!(!s.recon_in_progress);
}

#[test]
fn passes_count_only_when_they_go_through() {
    let mut s = tray();
    reconciliation::begin_pass(&mut s);
    assert!(s.recon_in_progress);
    reconciliation::finish_pass(&mut s, None, 5);
    assert!(!s.recon_in_progress);
    assert_eq!((s.recon_pulls_total, s.recon_pushes_total, s.last_recon_at), (0, 0, None));
    reconciliation::begin_pass(&mut s);
    reconciliation::finish_pass(&mut s, Some((4, 9)), 6);
    assert_eq!(
        (s.recon_pulls_total, s.recon_pushes_total, s.last_recon_at),
        (4, 9, Some(6))
    );
}

fn root(path: &str, route: &str, subscriber_id: &str) -> SyncRoot {
    SyncRoot {
        path: path.to_string(),
        route: route.to_string(),
        subscriber_id: subscriber_id.to_string(),
    }
}

#[test]
fn recon_pairs_from_sync_roots_two_roots_subscriber_priority() {
    let roots = vec![
        root("/vaults/Mainframe", "", "sub-own"),
        root("/vaults/Dev", "dev", ""),
    ];
    let pairs = recon_pairs_from_sync_roots(&roots, "sub-fallback");
    assert_eq!(pairs.len(), 2, "must produce one pair per sync_root");
    assert_eq!(pairs[0].0, "/vaults/Mainframe");
    assert_eq!(pairs[0].1, "sub-own", "first root must use its own subscriber_id");
    assert_eq!(pairs[1].0, "/vaults/Dev");
    assert_eq!(
        pairs[1].1, "sub-fallback",
        "second root (empty subscriber_id) must fall back to config subscriber_id"
    );
}

#[test]
fn recon_pairs_from_sync_roots_empty_is_noop() {
    let pairs = recon_pairs_from_sync_roots(&[], "sub-fallback");
    assert!(pairs.is_empty());
}

#[test]
fn recon_pairs_from_sync_roots_single_legacy_root_uses_fallback() {
    let roots = vec![root("/vaults/Mainframe", "", "")];
    let pairs = recon_pairs_from_sync_roots(&roots, "sub-legacy-123");
    assert_eq!(pairs.len(), 1);
    assert_eq!(pairs[0].0, "/vaults/Mainframe");
    assert_eq!(pairs[0].1, "sub-legacy-123");
}

#[test]
fn recon_pairs_from_sync_roots_both_explicit_no_fallback_used() {
    let roots = vec![root("/a", "", "sub-a"), root("/b", "b", "sub-b")];
    let pairs = recon_pairs_from_sync_roots(&roots, "sub-should-not-appear");
    assert_eq!(pairs.len(), 2);
    assert_eq!(pairs[0].1, "sub-a");
    assert_eq!(pairs[1].1, "sub-b");
    assert!(!pairs[0].1.contains("should-not-appear"));
    assert!(!pairs[1].1.contains("should-not-appear"));
}

#[test]
fn read_backfill_interval_default_and_override() {
    assert_eq!(
        secs(read_backfill_interval(&env_with(&[]))),
        secs(DEFAULT_BACKFILL_INTERVAL_SECS)
    );
    let env = env_with(&[(ENV_BACKFILL_INTERVAL_SECS, "120")]);
    assert_eq!(secs(read_backfill_interval(&env)), secs(120));
}

#[test]
fn read_backfill_interval_falls_back_on_zero_and_malformed() {
    let zero = env_with(&[(ENV_BACKFILL_INTERVAL_SECS, "0")]);
    assert_eq!(
        secs(read_backfill_interval(&zero)),
        secs(DEFAULT_BACKFILL_INTERVAL_SECS)
    );
    let bad = env_with(&[(ENV_BACKFILL_INTERVAL_SECS, "hourly")]);
    assert_eq!(
        secs(read_backfill_interval(&bad)),
        secs(DEFAULT_BACKFILL_INTERVAL_SECS)
    );
}

#[test]
fn is_backfill_disabled_reads_env() {
    assert!(!is_backfill_disabled(&env_with(&[])));
    assert!(is_backfill_disabled(&env_with(&[(ENV_DISABLE_BACKFILL, "1")])));
}

#[test]
fn read_max_per_sec_defaults_when_env_missing() {
    let env = env_with(&[]);
    assert_eq!(read_max_per_sec(&env), DEFAULT_MAX_PUSH_PER_SEC);
}

#[test]
fn read_max_per_sec_uses_env_when_valid() {
    let env = env_with(&[(ENV_MAX_PER_SEC, "50")]);
    assert_eq!(read_max_per_sec(&env), 50);
}

#[test]
fn read_max_per_sec_falls_back_on_zero() {
    let env = env_with(&[(ENV_MAX_PER_SEC, "0")]);
    assert_eq!(read_max_per_sec(&env), DEFAULT_MAX_PUSH_PER_SEC);
}

#[test]
fn read_max_per_sec_falls_back_on_malformed() {
    let env = env_with(&[(ENV_MAX_PER_SEC, "twenty")]);
    assert_eq!(read_max_per_sec(&env), DEFAULT_MAX_PUSH_PER_SEC);
}

#[test]
fn push_rate_limit_is_disabled_false_when_env_missing() {
    assert!(!push_rate_limit::is_disabled(&env_with(&[])));
}

#[test]
fn push_rate_limit_is_disabled_false_when_env_empty_string() {
    assert!(!push_rate_limit::is_disabled(&env_with(&[(push_rate_limit::ENV_DISABLE, "")])));
}

#[test]
fn push_rate_limit_is_disabled_true_when_env_set_to_one() {
    assert!(push_rate_limit::is_disabled(&env_with(&[(push_rate_limit::ENV_DISABLE, "1")])));
}

#[test]
fn push_rate_limit_is_disabled_true_when_env_set_to_true() {
    assert!(push_rate_limit::is_disabled(&env_with(&[(push_rate_limit::ENV_DISABLE, "true")])));
}

#[test]
fn regression_2026_06_13_pending_with_14h_no_progress_is_stalled() {
    let fourteen_hours = 14 * 3600;
    let threshold = DEFAULT_STALL_THRESHOLD_SECS;
    assert!(
        is_stalled(80, fourteen_hours, threshold),
        "80 pending pushes with no progress for 14h MUST trip the stall detector"
    );
}

#[test]
fn is_stalled_false_when_zero_pending_no_matter_the_idle_window() {
    let week = 7 * 24 * 3600;
    assert!(
        !is_stalled(0, week, DEFAULT_STALL_THRESHOLD_SECS),
        "zero pending = no diffs to push = not a stall"
    );
}

#[test]
fn is_stalled_false_when_recent_progress_with_pending() {
    let recent = DEFAULT_STALL_THRESHOLD_SECS / 2;
    assert!(
        !is_stalled(5, recent, DEFAULT_STALL_THRESHOLD_SECS),
        "pending + recent progress = healthy"
    );
}

#[test]
fn is_stalled_true_at_exact_threshold() {
    assert!(
        is_stalled(1, DEFAULT_STALL_THRESHOLD_SECS, DEFAULT_STALL_THRESHOLD_SECS),
        "elapsed == threshold MUST trip (>= boundary, not >)"
    );
}

#[test]
fn is_stalled_false_just_below_threshold() {
    assert!(
        !is_stalled(1, DEFAULT_STALL_THRESHOLD_SECS - 1, DEFAULT_STALL_THRESHOLD_SECS),
        "elapsed = threshold - 1 must NOT trip"
    );
}

#[test]
fn mark_progress_resets_secs_since_progress() {
    let mut h = SyncHealth::new();
    assert_eq!(h.secs_since_progress(500), 500);
    h.mark_progress(500);
    let elapsed = h.secs_since_progress(503);
    assert!(elapsed < 5, "mark_progress must reset elapsed to near-zero, got {elapsed}s");
    assert_eq!(h.secs_since_progress(500), 0);
    assert_eq!(h.secs_since_progress(0), 0);
}

#[test]
fn read_threshold_defaults_when_env_missing() {
    let env = env_with(&[]);
    assert_eq!(secs(read_threshold(&env)), secs(DEFAULT_STALL_THRESHOLD_SECS));
}

#[test]
fn read_threshold_uses_env_when_valid() {
    let env = env_with(&[(ENV_STALL_THRESHOLD, "120")]);
    assert_eq!(secs(read_threshold(&env)), secs(120));
}

#[test]
fn read_threshold_falls_back_on_zero() {
    let env = env_with(&[(ENV_STALL_THRESHOLD, "0")]);
    assert_eq!(
        secs(read_threshold(&env)),
        secs(DEFAULT_STALL_THRESHOLD_SECS),
        "zero must not disable the watchdog"
    );
}

#[test]
fn read_threshold_falls_back_on_malformed() {
    let env = env_with(&[(ENV_STALL_THRESHOLD, "fifteen-min")]);
    assert_eq!(secs(read_threshold(&env)), secs(DEFAULT_STALL_THRESHOLD_SECS));
}

#[test]
fn is_recovery_disabled_false_when_unset_or_empty() {
    assert!(!is_recovery_disabled(&env_with(&[])));
    assert!(!is_recovery_disabled(&env_with(&[(ENV_DISABLE_RECOVERY, "")])));
}

#[test]
fn is_recovery_disabled_true_when_set() {
    assert!(is_recovery_disabled(&env_with(&[(ENV_DISABLE_RECOVERY, "1")])));
}

#[test]
fn watchdog_fires_on_stall() {
    let health = SyncHealth::new();
    let evt = watchdog_tick(&health, 0, 0, false, 5).expect("event captured");
    assert_eq!(evt.pending, 5);
    assert!(
        evt.recovery_will_restart,
        "recovery_disabled=false must propagate as recovery_will_restart=true"
    );
    let quiet = watchdog_tick(&health, 1000, 900, true, 2).unwrap();
    assert_eq!(quiet.secs_since_progress, 1000);
    assert!(!quiet.recovery_will_restart);
}

#[test]
fn watchdog_does_not_fire_when_no_pending() {
    let health = SyncHealth::new();
    for now in 0..5u64 {
        assert!(
            watchdog_tick(&health, now * 1000, 0, false, 0).is_none(),
            "on_stall must NOT fire when pending == 0 (idle != dormant)"
        );
    }
}

#[test]
fn a_stall_lasts_until_there_is_progress() {
    let mut health = SyncHealth::new();
    health.mark_progress(100);
    assert!(watchdog_tick(&health, 999, 900, false, 1).is_none());
    assert!(watchdog_tick(&health, 1000, 900, false, 1).is_some());
    assert!(watchdog_tick(&health, 5000, 900, false, 1).is_some());
    health.mark_progress(5000);
    assert!(watchdog_tick(&health, 5000, 900, false, 1).is_none());
}
