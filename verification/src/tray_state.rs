//! Counters for the tray.

use vstd::prelude::*;

verus! {

/// What the tray shows.
pub struct TrayState {
    pub subscriber_id: String,
    pub server_url: String,
    pub vault_root: String,
    pub uploads_sent: u64,
    pub uploads_failed: u64,
    pub uploads_pending: usize,
    /// Unix seconds of the last accepted upload.
    pub uploads_last_at: Option<i64>,
    pub integrity_failures: u64,
    pub conflict_unresolved: usize,
    pub conflict_storm_latched: bool,
    pub recon_pulls_total: u64,
    pub recon_pushes_total: u64,
    /// Unix seconds of the last completed reconciliation pass.
    pub last_recon_at: Option<i64>,
    pub recon_in_progress: bool,
}

/// A counter one higher, held at its largest value.
pub open spec fn plus(n: u64, d: u64) -> u64 {
    if n + d > u64::MAX {
        u64::MAX
    } else {
        (n + d) as u64
    }
}

impl TrayState {
    /// A tray that has counted nothing.
    pub fn new(subscriber_id: String, server_url: String, vault_root: String) -> (t: TrayState)
        ensures
            t == (TrayState {
                subscriber_id,
                server_url,
                vault_root,
                uploads_sent: 0,
                uploads_failed: 0,
                uploads_pending: 0,
                uploads_last_at: None,
                integrity_failures: 0,
                conflict_unresolved: 0,
                conflict_storm_latched: false,
                recon_pulls_total: 0,
                recon_pushes_total: 0,
                last_recon_at: None,
                recon_in_progress: false,
            }),
    {
        TrayState {
            subscriber_id,
            server_url,
            vault_root,
            uploads_sent: 0,
            uploads_failed: 0,
            uploads_pending: 0,
            uploads_last_at: None,
            integrity_failures: 0,
            conflict_unresolved: 0,
            conflict_storm_latched: false,
            recon_pulls_total: 0,
            recon_pushes_total: 0,
            last_recon_at: None,
            recon_in_progress: false,
        }
    }

    /// Counts an accepted upload.
    pub fn inc_uploads_sent(&mut self, at: i64)
        ensures
            *final(self) == (TrayState {
                uploads_sent: plus(old(self).uploads_sent, 1),
                uploads_last_at: Some(at),
                ..*old(self)
            }),
    {
        self.uploads_sent = self.uploads_sent.saturating_add(1);
        self.uploads_last_at = Some(at);
    }

    /// Counts an upload that failed for now.
    pub fn inc_uploads_failed(&mut self)
        ensures
            *final(self) == (TrayState {
                uploads_failed: plus(old(self).uploads_failed, 1),
                ..*old(self)
            }),
    {
        self.uploads_failed = self.uploads_failed.saturating_add(1);
    }

    /// Shows the journal depth.
    pub fn set_uploads_pending(&mut self, n: usize)
        ensures
            *final(self) == (TrayState { uploads_pending: n, ..*old(self) }),
    {
        self.uploads_pending = n;
    }

    /// Counts a write that did not verify.
    pub fn inc_integrity_failures(&mut self)
        ensures
            *final(self) == (TrayState {
                integrity_failures: plus(old(self).integrity_failures, 1),
                ..*old(self)
            }),
    {
        self.integrity_failures = self.integrity_failures.saturating_add(1);
    }

    /// Shows the number of conflict copies.
    pub fn set_conflict_unresolved(&mut self, n: usize)
        ensures
            *final(self) == (TrayState { conflict_unresolved: n, ..*old(self) }),
    {
        self.conflict_unresolved = n;
    }

    /// Shows whether the conflict breaker is latched.
    pub fn set_conflict_storm_latched(&mut self, on: bool)
        ensures
            *final(self) == (TrayState { conflict_storm_latched: on, ..*old(self) }),
    {
        self.conflict_storm_latched = on;
    }

    /// Shows whether a reconciliation pass is running.
    pub fn set_recon_in_progress(&mut self, on: bool)
        ensures
            *final(self) == (TrayState { recon_in_progress: on, ..*old(self) }),
    {
        self.recon_in_progress = on;
    }

    /// Folds the counts of a completed reconciliation pass in.
    pub fn note_recon_pass(&mut self, pulls: u64, pushes: u64, at: i64)
        ensures
            *final(self) == (TrayState {
                recon_pulls_total: plus(old(self).recon_pulls_total, pulls),
                recon_pushes_total: plus(old(self).recon_pushes_total, pushes),
                last_recon_at: Some(at),
                ..*old(self)
            }),
    {
        self.recon_pulls_total = self.recon_pulls_total.saturating_add(pulls);
        self.recon_pushes_total = self.recon_pushes_total.saturating_add(pushes);
        self.last_recon_at = Some(at);
    }
}

/// Each report to the tray changes what it is about and nothing else; counts go up
/// by what is reported.
pub proof fn law_tray_counts_what_is_reported(
    a: &mut TrayState,
    b: &mut TrayState,
    c: &mut TrayState,
    d: &mut TrayState,
    at: i64,
    pulls: u64,
    pushes: u64,
)
    requires
        call_ensures(TrayState::inc_uploads_sent, (a, at), ()),
        call_ensures(TrayState::inc_uploads_failed, (b,), ()),
        call_ensures(TrayState::inc_integrity_failures, (c,), ()),
        call_ensures(TrayState::note_recon_pass, (d, pulls, pushes, at), ()),
        old(a).uploads_sent < u64::MAX,
        old(b).uploads_failed < u64::MAX,
        old(c).integrity_failures < u64::MAX,
        old(d).recon_pulls_total + pulls <= u64::MAX,
        old(d).recon_pushes_total + pushes <= u64::MAX,
    ensures
        final(a).uploads_sent == old(a).uploads_sent + 1,
        final(a).uploads_last_at == Some(at),
        final(a).uploads_failed == old(a).uploads_failed,
        final(a).uploads_pending == old(a).uploads_pending,
        final(b).uploads_failed == old(b).uploads_failed + 1,
        final(b).uploads_sent == old(b).uploads_sent,
        final(b).uploads_last_at == old(b).uploads_last_at,
        final(c).integrity_failures == old(c).integrity_failures + 1,
        final(c).uploads_failed == old(c).uploads_failed,
        final(d).recon_pulls_total == old(d).recon_pulls_total + pulls,
        final(d).recon_pushes_total == old(d).recon_pushes_total + pushes,
        final(d).last_recon_at == Some(at),
        final(d).recon_in_progress == old(d).recon_in_progress,
{
}

/// A new tray has counted nothing, and shows what it is told.
pub proof fn law_tray_shows_what_it_is_told(
    subscriber: String,
    server: String,
    root: String,
    t: TrayState,
    a: &mut TrayState,
    b: &mut TrayState,
    c: &mut TrayState,
    d: &mut TrayState,
    n: usize,
    on: bool,
)
    requires
        call_ensures(TrayState::new, (subscriber, server, root), t),
        call_ensures(TrayState::set_uploads_pending, (a, n), ()),
        call_ensures(TrayState::set_conflict_unresolved, (b, n), ()),
        call_ensures(TrayState::set_conflict_storm_latched, (c, on), ()),
        call_ensures(TrayState::set_recon_in_progress, (d, on), ()),
    ensures
        t.subscriber_id == subscriber && t.server_url == server && t.vault_root == root,
        t.uploads_sent == 0 && t.uploads_failed == 0 && t.uploads_pending == 0,
        t.integrity_failures == 0 && t.conflict_unresolved == 0 && !t.conflict_storm_latched,
        t.recon_pulls_total == 0 && t.recon_pushes_total == 0 && !t.recon_in_progress,
        t.uploads_last_at is None && t.last_recon_at is None,
        final(a).uploads_pending == n && final(a).uploads_sent == old(a).uploads_sent,
        final(b).conflict_unresolved == n && final(b).uploads_pending == old(b).uploads_pending,
        final(c).conflict_storm_latched == on && final(c).conflict_unresolved == old(c).conflict_unresolved,
        final(d).recon_in_progress == on && final(d).last_recon_at == old(d).last_recon_at,
{
}

} // verus!
