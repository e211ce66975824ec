//! Valves against deletions that get out of hand.
//!
//! A file called `redflag.md` in the vault keeps the daemon from starting to
//! sync. A burst of deletions pauses their propagation until someone has
//! confirmed it.

use vstd::prelude::*;

use crate::paths;
use crate::sliding_window;
use crate::text;

verus! {

/// The file that stops the daemon; the name has to match letter by letter.
pub const REDFLAG_FILENAME: &'static str = "redflag.md";

/// Looks for the file in a vault.
#[derive(Debug)]
pub struct RedflagGate {
    pub vault_root: String,
}

/// Whether the file was found.
#[derive(Debug, PartialEq, Eq)]
pub enum RedflagStatus {
    Clear,
    /// The file, and when it was last changed (nanoseconds since the epoch).
    Tripped { path: String, mtime: u128 },
}

/// What the disk says of the file.
#[derive(Debug, Clone, Copy, PartialEq, Eq, Structural)]
pub struct FlagFile {
    /// It is a regular file.
    pub is_file: bool,
    /// When it was last changed, if that is known.
    pub mtime: Option<u128>,
}

impl RedflagGate {
    /// A gate for a vault.
    pub fn new(vault_root: String) -> (g: RedflagGate)
        ensures
            g.vault_root == vault_root,
    {
        RedflagGate { vault_root }
    }

    /// Where the file would be.
    pub fn flag_path(&self) -> (r: String)
        ensures
            r@ == paths::joined(self.vault_root@, REDFLAG_FILENAME@),
    {
        paths::join(self.vault_root.as_str(), REDFLAG_FILENAME)
    }

    /// Whether sync must not start. `found` is what is at [`Self::flag_path`], and
    /// `names` are the names in the vault's folder: the disk may ignore case, so
    /// that finding a file does not mean that it has this name. Where the folder
    /// cannot be listed (`None`) the file counts.
    pub fn check(&self, found: Option<FlagFile>, names: Option<&[String]>) -> (r: RedflagStatus)
        ensures
            ({
                let tripped = found is Some && found->0.is_file && match names {
                    Some(n) => text::views(n@).contains(REDFLAG_FILENAME@),
                    None => true,
                };
                match r {
                    RedflagStatus::Clear => !tripped,
                    RedflagStatus::Tripped { path, mtime } => {
                        &&& tripped
                        &&& path@ == paths::joined(self.vault_root@, REDFLAG_FILENAME@)
                        &&& mtime == (match found->0.mtime {
                            Some(t) => t,
                            None => 0,
                        })
                    },
                }
            }),
    {
        let file = match found {
            Some(f) => f,
            None => {
                return RedflagStatus::Clear;
            },
        };
        if !file.is_file {
            return RedflagStatus::Clear;
        }
        match names {
            Some(n) => {
                if !text::list_contains(n, REDFLAG_FILENAME) {
                    return RedflagStatus::Clear;
                }
            },
            None => {},
        }
        let mtime: u128 = match file.mtime {
            Some(t) => t,
            None => 0,
        };
        RedflagStatus::Tripped { path: self.flag_path(), mtime }
    }
}

/// What a deletion leads to.
#[derive(Debug, Clone, Copy, PartialEq, Eq, Structural)]
pub enum BurstStatus {
    /// It may be propagated.
    BelowThreshold { current: usize, threshold: usize },
    /// It is one too many: ask, and propagate nothing. Says when the window's
    /// first deletion was.
    AtThreshold { window_start: u128 },
    /// Propagation is paused.
    Paused,
}

/// The state of a detector as a mathematical value.
pub struct BurstView {
    /// Times of the deletions inside the window.
    pub events: Seq<u128>,
    pub paused: bool,
}

/// One deletion: the state behind it and what it leads to.
pub open spec fn burst_step(
    s: BurstView,
    threshold: usize,
    window: u128,
    now: u128,
) -> (BurstView, BurstStatus) {
    if s.paused {
        (s, BurstStatus::Paused)
    } else if window == 0 {
        (s, BurstStatus::BelowThreshold { current: 0, threshold })
    } else {
        let events = sliding_window::fresh(s.events, now, window as int).push(now);
        if threshold == 0 {
            (BurstView { events, paused: true }, BurstStatus::AtThreshold { window_start: now })
        } else if events.len() >= threshold {
            (
                BurstView { events, paused: true },
                BurstStatus::AtThreshold { window_start: events[0] },
            )
        } else {
            (
                BurstView { events, paused: false },
                BurstStatus::BelowThreshold { current: events.len() as usize, threshold },
            )
        }
    }
}

/// Counts deletions. All times are nanoseconds of a monotonic clock.
#[derive(Debug)]
pub struct DeleteBurstDetector {
    threshold: usize,
    window: u128,
    events: Vec<u128>,
    paused: bool,
}

impl View for DeleteBurstDetector {
    type V = BurstView;

    closed spec fn view(&self) -> BurstView {
        BurstView { events: self.events@, paused: self.paused }
    }
}

impl DeleteBurstDetector {
    /// So many deletions inside the window are too many.
    pub closed spec fn limit(self) -> usize {
        self.threshold
    }

    /// The window.
    pub closed spec fn span(self) -> u128 {
        self.window
    }

    /// A detector that has seen nothing.
    pub fn new(threshold: usize, window: u128) -> (d: DeleteBurstDetector)
        ensures
            d.limit() == threshold,
            d.span() == window,
            d@ == (BurstView { events: Seq::empty(), paused: false }),
    {
        let d = DeleteBurstDetector { threshold, window, events: Vec::new(), paused: false };
        assert(d@.events =~= Seq::<u128>::empty());
        d
    }

    /// Notes a deletion; `now` is the current time.
    pub fn record_delete(&mut self, now: u128) -> (r: BurstStatus)
        ensures
            (final(self)@, r) == burst_step(old(self)@, old(self).limit(), old(self).span(), now),
            final(self).limit() == old(self).limit(),
            final(self).span() == old(self).span(),
    {
        self.record_delete_at(now)
    }

    /// Notes a deletion at the given time.
    pub fn record_delete_at(&mut self, now: u128) -> (r: BurstStatus)
        ensures
            (final(self)@, r) == burst_step(old(self)@, old(self).limit(), old(self).span(), now),
            final(self).limit() == old(self).limit(),
            final(self).span() == old(self).span(),
    {
        if self.paused {
            return BurstStatus::Paused;
        }
        if self.window == 0 {
            return BurstStatus::BelowThreshold { current: 0, threshold: self.threshold };
        }
        let mut events = sliding_window::drop_expired(&self.events, now, self.window);
        events.push(now);
        let n: usize = events.len();
        let first: u128 = events[0];
        self.events = events;
        if self.threshold == 0 {
            self.paused = true;
            return BurstStatus::AtThreshold { window_start: now };
        }
        if n >= self.threshold {
            self.paused = true;
            BurstStatus::AtThreshold { window_start: first }
        } else {
            BurstStatus::BelowThreshold { current: n, threshold: self.threshold }
        }
    }

    /// Ends the pause and forgets all deletions.
    pub fn reset(&mut self)
        ensures
            final(self)@ == (BurstView { events: Seq::empty(), paused: false }),
            final(self).limit() == old(self).limit(),
            final(self).span() == old(self).span(),
    {
        self.events = Vec::new();
        self.paused = false;
        assert(self@.events =~= Seq::<u128>::empty());
    }

    /// Whether propagation is paused.
    pub fn is_paused(&self) -> (r: bool)
        ensures
            r == self@.paused,
    {
        self.paused
    }
}

/// The state after a run of deletions.
pub open spec fn burst_run(
    s: BurstView,
    threshold: usize,
    window: u128,
    times: Seq<u128>,
) -> BurstView
    decreases times.len(),
{
    if times.len() == 0 {
        s
    } else {
        burst_step(
            burst_run(s, threshold, window, times.drop_last()),
            threshold,
            window,
            times.last(),
        ).0
    }
}

/// Once paused, always paused: no deletion is propagated, and nothing asks again,
/// until the detector is reset.
pub proof fn law_pause_lasts_until_reset(
    s: BurstView,
    threshold: usize,
    window: u128,
    times: Seq<u128>,
    now: u128,
)
    requires
        s.paused,
    ensures
        burst_run(s, threshold, window, times) == s,
        burst_step(burst_run(s, threshold, window, times), threshold, window, now) == (
            s,
            BurstStatus::Paused,
        ),
    decreases times.len(),
{
    if times.len() > 0 {
        law_pause_lasts_until_reset(s, threshold, window, times.drop_last(), now);
    }
}

/// Deletions that all fall inside one window pass until the threshold is reached,
/// and the one that reaches it pauses propagation.
pub proof fn law_burst_trips_exactly_at_threshold(
    threshold: usize,
    window: u128,
    times: Seq<u128>,
)
    requires
        threshold > 0,
        window > 0,
        forall|i: int, j: int|
            0 <= i < times.len() && 0 <= j < times.len() ==> #[trigger] times[j] < #[trigger] times[i]
                + window,
    ensures
        ({
            let end = burst_run(
                BurstView { events: Seq::empty(), paused: false },
                threshold,
                window,
                times,
            );
            &&& end.paused <==> times.len() >= threshold
            &&& end.events == (if times.len() < threshold {
                times
            } else {
                times.subrange(0, threshold as int)
            })
        }),
    decreases times.len(),
{
    let none = BurstView { events: Seq::empty(), paused: false };
    if times.len() == 0 {
        assert(times =~= none.events);
    } else {
        let t = times.drop_last();
        assert forall|i: int, j: int| 0 <= i < t.len() && 0 <= j < t.len() implies #[trigger] t[j]
            < #[trigger] t[i] + window by {
            assert(times[j] < times[i] + window);
        }
        law_burst_trips_exactly_at_threshold(threshold, window, t);
        let mid = burst_run(none, threshold, window, t);
        let now = times.last();
        if !mid.paused {
            assert(mid.events == t);
            if t.len() > 0 {
                assert(times[times.len() - 1] < times[0] + window);
                assert(t[0] == times[0]);
            }
            assert(sliding_window::fresh(mid.events, now, window as int) == t);
            assert(t.push(now) =~= times);
            if times.len() == threshold {
                assert(times.subrange(0, threshold as int) =~= times);
            }
        } else {
            assert(t.subrange(0, threshold as int) =~= times.subrange(0, threshold as int));
        }
    }
}

/// The deletion at `j` is one too many: it and the `threshold - 1` before it fall
/// inside one window.
pub open spec fn one_too_many(times: Seq<u128>, threshold: usize, window: u128, j: int) -> bool {
    &&& threshold - 1 <= j < times.len()
    &&& times[j] < times[j - (threshold - 1)] + window
}

/// Over a run of any length propagation pauses exactly at the first deletion that
/// is one too many inside some window. Until then the deletions that are kept are
/// the latest ones, and every earlier one lies a whole window back.
pub proof fn law_first_deletion_too_many_pauses(
    threshold: usize,
    window: u128,
    times: Seq<u128>,
)
    requires
        threshold > 0,
        window > 0,
        forall|i: int, j: int|
            0 <= i <= j < times.len() ==> #[trigger] times[i] <= #[trigger] times[j],
    ensures
        ({
            let end = burst_run(
                BurstView { events: Seq::empty(), paused: false },
                threshold,
                window,
                times,
            );
            let n = end.events.len() as int;
            &&& end.paused <==> exists|j: int| one_too_many(times, threshold, window, j)
            &&& !end.paused ==> {
                &&& n < threshold
                &&& n <= times.len()
                &&& end.events == times.subrange(times.len() - n, times.len() as int)
                &&& forall|i: int|
                    0 <= i < times.len() - n ==> #[trigger] times[i] + window <= times.last()
            }
        }),
    decreases times.len(),
{
    let none = BurstView { events: Seq::empty(), paused: false };
    if times.len() == 0 {
        assert(times.subrange(0, 0) =~= none.events);
    } else {
        let t = times.drop_last();
        assert forall|i: int, j: int| 0 <= i <= j < t.len() implies #[trigger] t[i]
            <= #[trigger] t[j] by {
            assert(times[i] <= times[j]);
        }
        law_first_deletion_too_many_pauses(threshold, window, t);
        let mid = burst_run(none, threshold, window, t);
        let now = times.last();
        let last = times.len() - 1;
        assert forall|j: int| one_too_many(t, threshold, window, j) == (j < last && one_too_many(
            times,
            threshold,
            window,
            j,
        )) by {}
        if mid.paused {
            let j = choose|j: int| one_too_many(t, threshold, window, j);
            assert(one_too_many(times, threshold, window, j));
        } else {
            let kept = sliding_window::fresh(mid.events, now, window as int);
            sliding_window::lemma_fresh_is_tail(mid.events, now, window as int);
            lemma_fresh_head(mid.events, now, window as int);
            let from = t.len() - kept.len();
            assert(kept =~= t.subrange(from, t.len() as int));
            assert forall|i: int| 0 <= i < from implies #[trigger] times[i] + window <= now by {
                assert(times[i] == t[i]);
                if i < t.len() - mid.events.len() {
                    assert(t[i] + window <= t.last());
                    assert(times[last - 1] <= times[last]);
                } else {
                    assert(mid.events[i - (t.len() - mid.events.len())] == t[i]);
                }
            }
            let events = kept.push(now);
            assert(events =~= times.subrange(from, times.len() as int));
            let first: int = last - (threshold - 1);
            if events.len() >= threshold {
                if kept.len() > 0 {
                    assert(kept[0] == t[from]);
                    assert(times[from] <= times[first]);
                }
                assert(one_too_many(times, threshold, window, last));
            } else {
                assert forall|j: int| !one_too_many(times, threshold, window, j) by {
                    if j == last && 0 <= first {
                        assert(times[first] + window <= now);
                    } else if one_too_many(times, threshold, window, j) {
                        assert(one_too_many(t, threshold, window, j));
                    }
                }
            }
        }
    }
}

/// The deletion that pauses propagation says when the first of the deletions that
/// were too many was.
pub proof fn law_pause_names_the_window(threshold: usize, window: u128, times: Seq<u128>)
    requires
        threshold > 0,
        window > 0,
        forall|i: int, j: int|
            0 <= i <= j < times.len() ==> #[trigger] times[i] <= #[trigger] times[j],
        times.len() > 0,
        one_too_many(times, threshold, window, times.len() - 1),
        forall|j: int| 0 <= j < times.len() - 1 ==> !one_too_many(times, threshold, window, j),
    ensures
        burst_step(
            burst_run(
                BurstView { events: Seq::empty(), paused: false },
                threshold,
                window,
                times.drop_last(),
            ),
            threshold,
            window,
            times.last(),
        ).1 == (BurstStatus::AtThreshold { window_start: times[times.len() - threshold] }),
{
    let none = BurstView { events: Seq::empty(), paused: false };
    let t = times.drop_last();
    assert forall|i: int, j: int| 0 <= i <= j < t.len() implies #[trigger] t[i] <= #[trigger] t[j] by {
        assert(times[i] <= times[j]);
    }
    law_first_deletion_too_many_pauses(threshold, window, t);
    law_first_deletion_too_many_pauses(threshold, window, times);
    assert forall|j: int| !one_too_many(t, threshold, window, j) by {
        if one_too_many(t, threshold, window, j) {
            assert(one_too_many(times, threshold, window, j));
        }
    }
    let mid = burst_run(none, threshold, window, t);
    let now = times.last();
    let kept = sliding_window::fresh(mid.events, now, window as int);
    sliding_window::lemma_fresh_is_tail(mid.events, now, window as int);
    assert(kept =~= t.subrange(t.len() - kept.len(), t.len() as int));
    assert(burst_run(none, threshold, window, times).paused);
    assert(kept.len() == threshold - 1);
    if kept.len() > 0 {
        assert(kept.push(now)[0] == times[times.len() - threshold]);
    }
}

/// Deletions further apart than the window never pause anything, unless a single
/// one is already too many.
pub proof fn law_slow_deletes_never_trip(
    s: BurstView,
    threshold: usize,
    window: u128,
    now: u128,
)
    requires
        !s.paused,
        threshold > 1,
        forall|i: int| 0 <= i < s.events.len() ==> #[trigger] s.events[i] + window <= now,
    ensures
        burst_step(s, threshold, window, now).1 == (BurstStatus::BelowThreshold {
            current: if window == 0 {
                0
            } else {
                1
            },
            threshold,
        }),
{
    sliding_window::lemma_fresh_is_tail(s.events, now, window as int);
    let f = sliding_window::fresh(s.events, now, window as int);
    if f.len() > 0 {
        lemma_fresh_head(s.events, now, window as int);
        let k = s.events.len() - f.len();
        assert(f[0] == s.events[k]);
        assert(s.events[k] + window <= now);
    }
}

proof fn lemma_fresh_head(times: Seq<u128>, now: u128, window: int)
    ensures
        ({
            let f = sliding_window::fresh(times, now, window);
            f.len() > 0 ==> now < f[0] + window
        }),
    decreases times.len(),
{
    if times.len() > 0 && times[0] + window <= now {
        lemma_fresh_head(times.drop_first(), now, window);
    }
}

/// Sync must not start exactly where there is a regular file whose name is
/// `redflag.md` letter by letter; where the names cannot be listed, the file alone
/// decides.
pub proof fn law_redflag_stops_the_start(
    gate: RedflagGate,
    found: Option<FlagFile>,
    names: Option<&[String]>,
    r: RedflagStatus,
)
    requires
        call_ensures(RedflagGate::check, (&gate, found, names), r),
    ensures
        r is Tripped ==> found is Some && found->0.is_file,
        r is Tripped && names is Some ==> exists|k: int|
            0 <= k < names->0@.len() && (#[trigger] names->0@[k])@ == "redflag.md"@,
        found is Some && found->0.is_file && (names is None || exists|k: int|
            0 <= k < names->0@.len() && (#[trigger] names->0@[k])@ == "redflag.md"@) ==> r
            is Tripped,
        r is Tripped && found->0.mtime is Some ==> r->mtime == found->0.mtime->0,
{
    if names is Some {
        let v = text::views(names->0@);
        if v.contains("redflag.md"@) {
            let k = choose|k: int| 0 <= k < v.len() && v[k] == "redflag.md"@;
            assert(names->0@[k]@ == "redflag.md"@);
        }
        assert forall|k: int|
            0 <= k < names->0@.len() && (#[trigger] names->0@[k])@ == "redflag.md"@ implies v.contains(
            "redflag.md"@,
        ) by {
            assert(v[k] == "redflag.md"@);
        }
    }
}

/// One deletion. While propagation is paused nothing passes. Otherwise it passes
/// exactly where it and the deletions within the window before it are fewer than
/// the threshold; the one that reaches it pauses propagation.
pub proof fn law_deletion_passes_below_the_threshold(
    detector: &mut DeleteBurstDetector,
    now: u128,
    r: BurstStatus,
)
    requires
        call_ensures(DeleteBurstDetector::record_delete_at, (detector, now), r),
        old(detector).span() > 0,
        forall|i: int, j: int|
            0 <= i <= j < old(detector)@.events.len() ==> #[trigger] old(detector)@.events[i]
                <= #[trigger] old(detector)@.events[j],
    ensures
        r is Paused <==> old(detector)@.paused,
        !old(detector)@.paused ==> {
            let recent = old(detector)@.events.filter(
                |t: u128| t + old(detector).span() > now,
            ).len();
            &&& r is BelowThreshold <==> recent + 1 < old(detector).limit()
            &&& final(detector)@.paused <==> recent + 1 >= old(detector).limit()
            &&& r is AtThreshold <==> final(detector)@.paused
        },
{
    lemma_fresh_is_filtered(old(detector)@.events, now, old(detector).span());
}

proof fn lemma_fresh_is_filtered(times: Seq<u128>, now: u128, window: u128)
    requires
        forall|i: int, j: int|
            0 <= i <= j < times.len() ==> #[trigger] times[i] <= #[trigger] times[j],
    ensures
        times.filter(|t: u128| t + window > now) == sliding_window::fresh(
            times,
            now,
            window as int,
        ),
    decreases times.len(),
{
    let p = |t: u128| t + window > now;
    if times.len() == 0 {
        reveal(Seq::filter);
        assert(times.filter(p) =~= times);
    } else if times[0] + window <= now {
        let rest = times.drop_first();
        assert forall|i: int, j: int| 0 <= i <= j < rest.len() implies #[trigger] rest[i]
            <= #[trigger] rest[j] by {
            assert(times[i + 1] <= times[j + 1]);
        }
        lemma_fresh_is_filtered(rest, now, window);
        let head = seq![times[0]];
        assert(times =~= head + rest);
        Seq::filter_distributes_over_add(head, rest, p);
        head.lemma_all_neg_filter_empty(p);
        assert(head.filter(p) + rest.filter(p) =~= rest.filter(p));
    } else {
        assert forall|i: int| 0 <= i < times.len() implies p(#[trigger] times[i]) by {
            assert(times[0] <= times[i]);
        }
        lemma_filter_all(times, p);
    }
}

proof fn lemma_filter_all(times: Seq<u128>, p: spec_fn(u128) -> bool)
    requires
        forall|i: int| 0 <= i < times.len() ==> p(#[trigger] times[i]),
    ensures
        times.filter(p) == times,
    decreases times.len(),
{
    reveal(Seq::filter);
    if times.len() > 0 {
        lemma_filter_all(times.drop_last(), p);
        assert(times.filter(p) =~= times);
    } else {
        assert(times.filter(p) =~= times);
    }
}

/// The flag stands directly in the vault's folder.
pub proof fn law_flag_stands_in_the_vault(root: String, g: RedflagGate, r: String)
    requires
        call_ensures(RedflagGate::new, (root,), g),
        call_ensures(RedflagGate::flag_path, (&g,), r),
        root@.len() > 0 && root@.last() != '/',
    ensures
        r@ == root@ + "/redflag.md"@,
{
    reveal_strlit("redflag.md");
    reveal_strlit("/redflag.md");
    assert(r@ =~= root@ + "/redflag.md"@);
}

} // verus!
