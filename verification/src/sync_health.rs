//! Whether the push pipeline makes progress.
//!
//! A process that is alive is not yet one that works: the watchdog looks for
//! pending pushes with no progress, and nothing else counts as a stall.

use vstd::prelude::*;

use crate::reconciliation;
use crate::reconciliation::EnvReader;

verus! {

/// Seconds without progress before a stall is declared: a quarter of an hour.
pub const DEFAULT_STALL_THRESHOLD_SECS: u64 = 900;

/// Variable that sets the threshold.
pub const ENV_STALL_THRESHOLD: &'static str = "VAULT_SYNC_STALL_THRESHOLD_SECS";

/// Variable that switches the restart off; stalls are still reported.
pub const ENV_DISABLE_RECOVERY: &'static str = "VAULT_SYNC_DISABLE_STALL_WATCHDOG";

/// When the pipeline last made progress. All times are whole seconds since the
/// start of the process.
#[derive(Debug, Clone, Copy, PartialEq, Eq, Structural)]
pub struct SyncHealth {
    pub last_progress_secs: u64,
}

impl SyncHealth {
    /// Seconds from the last progress to `now`.
    pub open spec fn idle(self, now: u64) -> u64 {
        if now >= self.last_progress_secs {
            (now - self.last_progress_secs) as u64
        } else {
            0
        }
    }

    /// The state at the start of the process, which counts as progress.
    pub fn new() -> (h: SyncHealth)
        ensures
            h.last_progress_secs == 0,
    {
        SyncHealth { last_progress_secs: 0 }
    }

    /// Notes progress at `now`.
    pub fn mark_progress(&mut self, now: u64)
        ensures
            final(self).last_progress_secs == now,
    {
        self.last_progress_secs = now;
    }

    /// Seconds from the last progress to `now`.
    pub fn secs_since_progress(&self, now: u64) -> (r: u64)
        ensures
            r == self.idle(now),
    {
        if now >= self.last_progress_secs {
            now - self.last_progress_secs
        } else {
            0
        }
    }
}

/// There is something to push, and for at least the threshold nothing was.
pub open spec fn stalled(pending: nat, idle: nat, threshold: nat) -> bool {
    pending > 0 && idle >= threshold
}

/// Whether the pipeline has stalled.
pub fn is_stalled(pending: usize, secs_since_progress: u64, threshold_secs: u64) -> (r: bool)
    ensures
        r == stalled(pending as nat, secs_since_progress as nat, threshold_secs as nat),
{
    pending > 0 && secs_since_progress >= threshold_secs
}

/// The stall threshold, in seconds.
pub fn read_threshold<E: EnvReader>(env: &E) -> (r: u64)
    ensures
        r == reconciliation::secs_or(
            env.lookup(ENV_STALL_THRESHOLD@),
            DEFAULT_STALL_THRESHOLD_SECS,
        ),
        r > 0,
{
    reconciliation::read_secs(env, ENV_STALL_THRESHOLD, DEFAULT_STALL_THRESHOLD_SECS)
}

/// Whether the restart is switched off.
pub fn is_recovery_disabled<E: EnvReader>(env: &E) -> (r: bool)
    ensures
        r == reconciliation::switched_on(env.lookup(ENV_DISABLE_RECOVERY@)),
{
    reconciliation::read_switch(env, ENV_DISABLE_RECOVERY)
}

/// What is reported of a stall.
#[derive(Debug, Clone, Copy, PartialEq, Eq, Structural)]
pub struct StallEvent {
    pub pending: usize,
    pub secs_since_progress: u64,
    /// The process is to be restarted.
    pub recovery_will_restart: bool,
}

/// One look of the watchdog: the stall to report, after which it stops looking.
pub fn watchdog_tick(
    health: &SyncHealth,
    now: u64,
    threshold_secs: u64,
    recovery_disabled: bool,
    pending: usize,
) -> (r: Option<StallEvent>)
    ensures
        r == (if stalled(pending as nat, health.idle(now) as nat, threshold_secs as nat) {
            Some(
                StallEvent {
                    pending,
                    secs_since_progress: health.idle(now),
                    recovery_will_restart: !recovery_disabled,
                },
            )
        } else {
            None
        }),
{
    let elapsed: u64 = health.secs_since_progress(now);
    if is_stalled(pending, elapsed, threshold_secs) {
        Some(
            StallEvent {
                pending,
                secs_since_progress: elapsed,
                recovery_will_restart: !recovery_disabled,
            },
        )
    } else {
        None
    }
}

/// With nothing to push there is no stall, however long nothing happened.
pub proof fn law_idle_is_not_stalled(idle: nat, threshold: nat)
    ensures
        !stalled(0, idle, threshold),
{
}

/// A pipeline that made progress stalls exactly when the threshold has passed
/// since, and once stalled it stays so until it makes progress.
pub proof fn law_stall_lasts_until_progress(
    health: SyncHealth,
    now: u64,
    later: u64,
    pending: nat,
    threshold: nat,
)
    requires
        health.last_progress_secs <= now <= later,
        pending > 0,
    ensures
        stalled(pending, health.idle(now) as nat, threshold) <==> now >= health.last_progress_secs
            + threshold,
        stalled(pending, health.idle(now) as nat, threshold) ==> stalled(
            pending,
            health.idle(later) as nat,
            threshold,
        ),
        threshold > 0 ==> !stalled(
            pending,
            (SyncHealth { last_progress_secs: now }).idle(now) as nat,
            threshold,
        ),
{
}

/// The watchdog reports a stall exactly where something is pending and the last
/// progress is at least the threshold ago, and says how long ago it was.
pub proof fn law_watchdog_reports_stalls(
    health: SyncHealth,
    now: u64,
    threshold: u64,
    disabled: bool,
    pending: usize,
    r: Option<StallEvent>,
)
    requires
        call_ensures(watchdog_tick, (&health, now, threshold, disabled, pending), r),
        health.last_progress_secs <= now,
    ensures
        r is Some <==> pending > 0 && health.last_progress_secs + threshold <= now,
        r is Some ==> {
            &&& r->0.pending == pending
            &&& r->0.secs_since_progress == now - health.last_progress_secs
            &&& r->0.recovery_will_restart == !disabled
        },
{
}

/// A stall is declared after a quarter of an hour unless the variable sets another
/// time, and the restart is switched off by any value of the other variable.
pub proof fn law_watchdog_settings<E: EnvReader>(env: &E, secs: u64, off: bool, n: nat)
    requires
        call_ensures(read_threshold::<E>, (env,), secs),
        call_ensures(is_recovery_disabled::<E>, (env,), off),
        0 < n <= u64::MAX,
    ensures
        env.lookup("VAULT_SYNC_STALL_THRESHOLD_SECS"@) is None ==> secs == 900,
        env.lookup("VAULT_SYNC_STALL_THRESHOLD_SECS"@) == Some(crate::numbers::dec_text(n)) ==> secs
            == n,
        off <==> env.lookup("VAULT_SYNC_DISABLE_STALL_WATCHDOG"@) is Some && env.lookup(
            "VAULT_SYNC_DISABLE_STALL_WATCHDOG"@,
        )->0.len() > 0,
{
    reconciliation::law_written_interval_is_read(n, 900);
}

/// The time without progress starts anew at each progress, and a clock that was set
/// back counts as none.
pub proof fn law_progress_starts_the_clock_anew(
    h: &mut SyncHealth,
    now: u64,
    after: SyncHealth,
    later: u64,
    idle: u64,
)
    requires
        call_ensures(SyncHealth::mark_progress, (h, now), ()),
        after == *final(h),
        call_ensures(SyncHealth::secs_since_progress, (&after, later), idle),
    ensures
        later >= now ==> idle == later - now,
        later < now ==> idle == 0,
{
}

} // verus!
