//! The periodic sweep that finds what the event-driven paths missed.

use vstd::prelude::*;

use crate::numbers;
use crate::text;
use crate::tray_state::TrayState;

verus! {

/// Seconds between two passes unless another interval is set.
pub const DEFAULT_RECON_INTERVAL_SECS: u64 = 600;

/// Variable that switches the sweep off.
pub const ENV_DISABLE: &'static str = "VAULT_SYNC_DISABLE_RECON";

/// Variable that sets the interval.
pub const ENV_INTERVAL_SECS: &'static str = "VAULT_SYNC_RECON_INTERVAL_SECS";

/// Where settings are looked up.
pub trait EnvReader {
    /// The value of a variable.
    spec fn lookup(&self, key: Seq<char>) -> Option<Seq<char>>;

    /// The value of a variable.
    fn get(&self, key: &str) -> (r: Option<String>)
        ensures
            text::opt_text(r) == self.lookup(key@),
    ;
}

/// The value that the last pair with this key gives.
pub open spec fn last_value(pairs: Seq<(String, String)>, key: Seq<char>) -> Option<Seq<char>>
    decreases pairs.len(),
{
    if pairs.len() == 0 {
        None
    } else if pairs.last().0@ == key {
        Some(pairs.last().1@)
    } else {
        last_value(pairs.drop_last(), key)
    }
}

/// Settings from a list of pairs; a later pair overrides an earlier one.
#[derive(Debug)]
pub struct MapEnv(pub Vec<(String, String)>);

impl EnvReader for MapEnv {
    open spec fn lookup(&self, key: Seq<char>) -> Option<Seq<char>> {
        last_value(self.0@, key)
    }

    fn get(&self, key: &str) -> (r: Option<String>) {
        let mut i: usize = self.0.len();
        assert(self.0@.subrange(0, i as int) =~= self.0@);
        while i > 0
            invariant
                i <= self.0@.len(),
                last_value(self.0@, key@) == last_value(self.0@.subrange(0, i as int), key@),
            decreases i,
        {
            let ghost head = self.0@.subrange(0, i as int);
            assert(head.last() == self.0@[i - 1]);
            assert(head.drop_last() =~= self.0@.subrange(0, i - 1));
            if text::str_eq(self.0[i - 1].0.as_str(), key) {
                return Some(self.0[i - 1].1.clone());
            }
            i = i - 1;
        }
        None
    }
}

/// A positive number of seconds, or the default where the value is missing,
/// malformed or zero.
pub open spec fn secs_or(value: Option<Seq<char>>, default: u64) -> u64 {
    match value {
        Some(s) => match numbers::parsed(s, u64::MAX as nat) {
            Some(n) => if n > 0 {
                n as u64
            } else {
                default
            },
            None => default,
        },
        None => default,
    }
}

/// The switch is set to something.
pub open spec fn switched_on(value: Option<Seq<char>>) -> bool {
    value is Some && value->0.len() > 0
}

/// Reads a positive number of seconds.
pub fn read_secs<E: EnvReader>(env: &E, key: &str, default: u64) -> (r: u64)
    ensures
        r == secs_or(env.lookup(key@), default),
{
    match env.get(key) {
        Some(s) => match numbers::parse_u64(s.as_str()) {
            Some(n) => {
                if n > 0 {
                    n
                } else {
                    default
                }
            },
            None => default,
        },
        None => default,
    }
}

/// Reads a switch: any value but the empty one turns it on.
pub fn read_switch<E: EnvReader>(env: &E, key: &str) -> (r: bool)
    ensures
        r == switched_on(env.lookup(key@)),
{
    match env.get(key) {
        Some(s) => text::chars_of(s.as_str()).len() > 0,
        None => false,
    }
}

/// Seconds between two passes.
pub fn read_interval<E: EnvReader>(env: &E) -> (r: u64)
    ensures
        r == secs_or(env.lookup(ENV_INTERVAL_SECS@), DEFAULT_RECON_INTERVAL_SECS),
        r > 0,
{
    read_secs(env, ENV_INTERVAL_SECS, DEFAULT_RECON_INTERVAL_SECS)
}

/// Whether the sweep is switched off.
pub fn is_disabled<E: EnvReader>(env: &E) -> (r: bool)
    ensures
        r == switched_on(env.lookup(ENV_DISABLE@)),
{
    read_switch(env, ENV_DISABLE)
}

/// A folder that is kept in sync.
#[derive(Debug, PartialEq, Eq)]
pub struct SyncRoot {
    pub path: String,
    pub route: String,
    /// Subscriber of this folder; empty for the common one.
    pub subscriber_id: String,
}

/// The subscriber a folder is swept for.
pub open spec fn effective_subscriber(root: SyncRoot, fallback: Seq<char>) -> Seq<char> {
    if root.subscriber_id@.len() > 0 {
        root.subscriber_id@
    } else {
        fallback
    }
}

/// Folder and subscriber of each sweep, in the order of the folders.
pub fn recon_pairs_from_sync_roots(
    sync_roots: &[SyncRoot],
    fallback_subscriber_id: &str,
) -> (r: Vec<(String, String)>)
    ensures
        r@.len() == sync_roots@.len(),
        forall|i: int|
            0 <= i < r@.len() ==> {
                &&& (#[trigger] r@[i]).0@ == sync_roots@[i].path@
                &&& r@[i].1@ == effective_subscriber(sync_roots@[i], fallback_subscriber_id@)
            },
{
    let mut out: Vec<(String, String)> = Vec::new();
    let mut i: usize = 0;
    while i < sync_roots.len()
        invariant
            i <= sync_roots@.len(),
            out@.len() == i,
            forall|k: int|
                0 <= k < i ==> {
                    &&& (#[trigger] out@[k]).0@ == sync_roots@[k].path@
                    &&& out@[k].1@ == effective_subscriber(
                        sync_roots@[k],
                        fallback_subscriber_id@,
                    )
                },
        decreases sync_roots@.len() - i,
    {
        let root = &sync_roots[i];
        let own: usize = text::chars_of(root.subscriber_id.as_str()).len();
        let sub = if own > 0 {
            root.subscriber_id.clone()
        } else {
            fallback_subscriber_id.to_string()
        };
        out.push((root.path.clone(), sub));
        i = i + 1;
    }
    out
}

/// Shows that a pass is running.
pub fn begin_pass(tray: &mut TrayState)
    ensures
        *final(tray) == (TrayState { recon_in_progress: true, ..*old(tray) }),
{
    tray.set_recon_in_progress(true);
}

/// Shows that the pass is over. One that went through, with so many notes to pull
/// and to push, is added to the totals; a failed one (`None`) is not.
pub fn finish_pass(tray: &mut TrayState, counts: Option<(u64, u64)>, at: i64)
    ensures
        *final(tray) == (match counts {
            Some((pulls, pushes)) => TrayState {
                recon_in_progress: false,
                recon_pulls_total: crate::tray_state::plus(old(tray).recon_pulls_total, pulls),
                recon_pushes_total: crate::tray_state::plus(old(tray).recon_pushes_total, pushes),
                last_recon_at: Some(at),
                ..*old(tray)
            },
            None => TrayState { recon_in_progress: false, ..*old(tray) },
        }),
{
    tray.set_recon_in_progress(false);
    match counts {
        Some((pulls, pushes)) => {
            tray.note_recon_pass(pulls, pushes, at);
        },
        None => {},
    }
}

/// However the interval is set, a sweep never spins.
pub proof fn law_interval_is_positive(value: Option<Seq<char>>, default: u64)
    requires
        default > 0,
    ensures
        secs_or(value, default) > 0,
{
}

/// A setting written in decimal is the setting that is read.
pub proof fn law_written_interval_is_read(n: nat, default: u64)
    requires
        0 < n <= u64::MAX,
    ensures
        secs_or(Some(numbers::dec_text(n)), default) == n,
{
    numbers::law_print_then_parse(n, u64::MAX as nat);
}

/// The number that is set counts where it is a positive one; anything else, and
/// nothing, leaves the default.
pub proof fn law_bad_setting_is_the_default(value: Option<Seq<char>>, default: u64)
    ensures
        value is None ==> secs_or(value, default) == default,
        value is Some && value->0.len() == 0 ==> secs_or(value, default) == default,
        value is Some && numbers::parsed(value->0, u64::MAX as nat) is None ==> secs_or(
            value,
            default,
        ) == default,
        secs_or(Some(numbers::dec_text(0)), default) == default,
{
    numbers::law_print_then_parse(0, u64::MAX as nat);
}

/// A sweep is due every ten minutes unless the variable sets another interval, and
/// is switched off by any value of the other variable but the empty one.
pub proof fn law_sweep_settings<E: EnvReader>(env: &E, interval: u64, off: bool, n: nat)
    requires
        call_ensures(read_interval::<E>, (env,), interval),
        call_ensures(is_disabled::<E>, (env,), off),
        0 < n <= u64::MAX,
    ensures
        env.lookup("VAULT_SYNC_RECON_INTERVAL_SECS"@) is None ==> interval == 600,
        env.lookup("VAULT_SYNC_RECON_INTERVAL_SECS"@) == Some(numbers::dec_text(n)) ==> interval
            == n,
        off <==> env.lookup("VAULT_SYNC_DISABLE_RECON"@) is Some && env.lookup(
            "VAULT_SYNC_DISABLE_RECON"@,
        )->0.len() > 0,
{
    law_written_interval_is_read(n, 600);
}

/// The last pair with a key gives its value.
pub proof fn law_last_pair_counts(pairs: Seq<(String, String)>, i: int)
    requires
        0 <= i < pairs.len(),
        forall|j: int| i < j < pairs.len() ==> (#[trigger] pairs[j]).0@ != pairs[i].0@,
    ensures
        last_value(pairs, pairs[i].0@) == Some(pairs[i].1@),
    decreases pairs.len(),
{
    let t = pairs.drop_last();
    if i < t.len() {
        assert(pairs[pairs.len() - 1].0@ != pairs[i].0@);
        assert(t[i] == pairs[i]);
        assert forall|j: int| i < j < t.len() implies (#[trigger] t[j]).0@ != t[i].0@ by {
            assert(t[j] == pairs[j]);
        }
        law_last_pair_counts(t, i);
    }
}

/// A key that no pair has has no value.
pub proof fn law_unknown_key_has_no_value(pairs: Seq<(String, String)>, key: Seq<char>)
    requires
        forall|j: int| 0 <= j < pairs.len() ==> (#[trigger] pairs[j]).0@ != key,
    ensures
        last_value(pairs, key) is None,
    decreases pairs.len(),
{
    if pairs.len() > 0 {
        let t = pairs.drop_last();
        assert(pairs[pairs.len() - 1].0@ != key);
        assert forall|j: int| 0 <= j < t.len() implies (#[trigger] t[j]).0@ != key by {
            assert(t[j] == pairs[j]);
        }
        law_unknown_key_has_no_value(t, key);
    }
}

/// Every folder is swept, in order, for its own subscriber if it names one and for
/// the common one otherwise.
pub proof fn law_every_folder_is_swept(
    roots: &[SyncRoot],
    fallback: &str,
    r: Vec<(String, String)>,
    i: int,
)
    requires
        call_ensures(recon_pairs_from_sync_roots, (roots, fallback), r),
        0 <= i < roots@.len(),
    ensures
        r@.len() == roots@.len(),
        r@[i].0@ == roots@[i].path@,
        roots@[i].subscriber_id@.len() > 0 ==> r@[i].1@ == roots@[i].subscriber_id@,
        roots@[i].subscriber_id@.len() == 0 ==> r@[i].1@ == fallback@,
{
}

/// Only a pass that went through adds to the totals, and no pass is shown as
/// running behind its end.
pub proof fn law_failed_pass_adds_nothing(
    tray: &mut TrayState,
    counts: Option<(u64, u64)>,
    at: i64,
)
    requires
        call_ensures(finish_pass, (tray, counts, at), ()),
    ensures
        !final(tray).recon_in_progress,
        counts is None ==> final(tray).recon_pulls_total == old(tray).recon_pulls_total && final(tray).recon_pushes_total == old(tray).recon_pushes_total && final(tray).last_recon_at == old(tray).last_recon_at,
        counts is Some ==> final(tray).last_recon_at == Some(at),
        counts is Some && old(tray).recon_pulls_total + (counts->0).0 <= u64::MAX ==> final(tray).recon_pulls_total == old(tray).recon_pulls_total + (counts->0).0,
        counts is Some && old(tray).recon_pushes_total + (counts->0).1 <= u64::MAX ==> final(tray).recon_pushes_total == old(tray).recon_pushes_total + (counts->0).1,
{
}

} // verus!
