//! The breaker that bounds how many conflict copies one storm can mint.
//!
//! Inside a sliding window a fixed number of copies is admitted. The next one
//! latches the breaker open until it is reset by hand: a window alone would
//! admit the same number again and again for as long as the storm lasts.

use vstd::prelude::*;

verus! {

/// Nanoseconds in a second.
pub const NANOS_PER_SEC: u128 = 1_000_000_000;

/// The state of a breaker as a mathematical value.
pub struct BreakerView {
    /// Times of the copies minted inside the window, oldest first.
    pub mints: Seq<u128>,
    pub latched: bool,
}

/// The mints that are left when the leading ones older than the window go.
pub open spec fn pruned(mints: Seq<u128>, now: u128, window: int) -> Seq<u128>
    decreases mints.len(),
{
    if mints.len() > 0 && mints[0] + window < now {
        pruned(mints.drop_first(), now, window)
    } else {
        mints
    }
}

/// One request for a copy: the state behind it, whether it is refused, and
/// whether this very request latched the breaker. A threshold of zero turns the
/// breaker off.
pub open spec fn breaker_step(
    s: BreakerView,
    threshold: nat,
    window: int,
    now: u128,
) -> (BreakerView, bool, bool) {
    if threshold == 0 {
        (s, false, false)
    } else if s.latched {
        (s, true, false)
    } else {
        let kept = pruned(s.mints, now, window);
        if kept.len() >= threshold {
            (BreakerView { mints: kept, latched: true }, true, true)
        } else {
            (BreakerView { mints: kept.push(now), latched: false }, false, false)
        }
    }
}

/// A breaker with its limits.
pub struct ConflictBreaker {
    threshold: u32,
    window_secs: u64,
    mints: Vec<u128>,
    latched: bool,
}

impl View for ConflictBreaker {
    type V = BreakerView;

    closed spec fn view(&self) -> BreakerView {
        BreakerView { mints: self.mints@, latched: self.latched }
    }
}

impl ConflictBreaker {
    /// How many copies the window admits; zero turns the breaker off.
    pub closed spec fn limit(self) -> nat {
        self.threshold as nat
    }

    /// The window, in nanoseconds.
    pub closed spec fn window(self) -> int {
        self.window_secs * NANOS_PER_SEC
    }

    /// A breaker that has admitted nothing.
    pub fn new(threshold: u32, window_secs: u64) -> (b: ConflictBreaker)
        ensures
            b.limit() == threshold,
            b.window() == window_secs * NANOS_PER_SEC,
            b@ == (BreakerView { mints: Seq::empty(), latched: false }),
    {
        let b = ConflictBreaker { threshold, window_secs, mints: Vec::new(), latched: false };
        assert(b@.mints =~= Seq::<u128>::empty());
        b
    }

    /// Asks for one more copy at time `now` (nanoseconds of a monotonic clock).
    /// Returns whether it is refused, and whether this request latched the
    /// breaker.
    pub fn open(&mut self, now: u128) -> (r: (bool, bool))
        ensures
            (final(self)@, r.0, r.1) == breaker_step(
                old(self)@,
                old(self).limit(),
                old(self).window(),
                now,
            ),
            final(self).limit() == old(self).limit(),
            final(self).window() == old(self).window(),
    {
        if self.threshold == 0 {
            return (false, false);
        }
        if self.latched {
            return (true, false);
        }
        assert(self.window_secs * NANOS_PER_SEC <= u64::MAX * NANOS_PER_SEC) by (nonlinear_arith)
            requires
                self.window_secs <= u64::MAX,
        ;
        let window: u128 = self.window_secs as u128 * NANOS_PER_SEC;
        let ghost all = self.mints@;
        let mut i: usize = 0;
        assert(all.subrange(0, all.len() as int) =~= all);
        while i < self.mints.len() && now > self.mints[i] && now - self.mints[i] > window
            invariant
                i <= self.mints@.len(),
                self.mints@ == all,
                window == old(self).window(),
                pruned(all, now, window as int) == pruned(
                    all.subrange(i as int, all.len() as int),
                    now,
                    window as int,
                ),
            decreases self.mints@.len() - i,
        {
            let ghost rest = all.subrange(i as int, all.len() as int);
            assert(rest[0] == all[i as int]);
            assert(rest.drop_first() =~= all.subrange(i + 1, all.len() as int));
            i = i + 1;
        }
        let mut kept: Vec<u128> = Vec::new();
        let mut k: usize = i;
        while k < self.mints.len()
            invariant
                i <= k <= self.mints@.len(),
                self.mints@ == all,
                kept@ == all.subrange(i as int, k as int),
            decreases self.mints@.len() - k,
        {
            kept.push(self.mints[k]);
            k = k + 1;
        }
        assert(kept@ == pruned(all, now, window as int));
        if kept.len() >= self.threshold as usize {
            self.mints = kept;
            self.latched = true;
            return (true, true);
        }
        kept.push(now);
        self.mints = kept;
        (false, false)
    }

    /// Whether the breaker has latched.
    pub fn is_latched(&self) -> (r: bool)
        ensures
            r == self@.latched,
    {
        self.latched
    }

    /// Unlatches the breaker and forgets the copies it admitted.
    pub fn reset(&mut self)
        ensures
            final(self)@ == (BreakerView { mints: Seq::empty(), latched: false }),
            final(self).limit() == old(self).limit(),
            final(self).window() == old(self).window(),
    {
        self.latched = false;
        self.mints = Vec::new();
        assert(self@.mints =~= Seq::<u128>::empty());
    }
}

/// The states that a run of requests passes through, the first included.
pub open spec fn breaker_run(
    s: BreakerView,
    threshold: nat,
    window: int,
    times: Seq<u128>,
) -> BreakerView
    decreases times.len(),
{
    if times.len() == 0 {
        s
    } else {
        breaker_step(
            breaker_run(s, threshold, window, times.drop_last()),
            threshold,
            window,
            times.last(),
        ).0
    }
}

/// How many of a run of requests are admitted.
pub open spec fn admitted(s: BreakerView, threshold: nat, window: int, times: Seq<u128>) -> nat
    decreases times.len(),
{
    if times.len() == 0 {
        0
    } else {
        let before = breaker_run(s, threshold, window, times.drop_last());
        let step = breaker_step(before, threshold, window, times.last());
        admitted(s, threshold, window, times.drop_last()) + if step.1 {
            0nat
        } else {
            1nat
        }
    }
}

/// Pruning forgets nothing that lies inside the window.
proof fn lemma_pruned_len(mints: Seq<u128>, now: u128, window: int)
    ensures
        pruned(mints, now, window).len() <= mints.len(),
    decreases mints.len(),
{
    if mints.len() > 0 && mints[0] + window < now {
        lemma_pruned_len(mints.drop_first(), now, window);
    }
}

/// Nothing is pruned where everything lies inside the window.
proof fn lemma_pruned_keeps(mints: Seq<u128>, now: u128, window: int)
    requires
        mints.len() > 0 ==> now <= mints[0] + window,
    ensures
        pruned(mints, now, window) == mints,
{
}

/// A breaker never holds more mints than it may admit.
pub proof fn law_mints_stay_within_limit(s: BreakerView, threshold: nat, window: int, now: u128)
    requires
        threshold > 0,
        s.mints.len() <= threshold,
    ensures
        breaker_step(s, threshold, window, now).0.mints.len() <= threshold,
{
    lemma_pruned_len(s.mints, now, window);
}

/// Once latched, always refusing: no later request, however much later, is
/// admitted, and none latches it anew.
pub proof fn law_latch_never_rearms(
    s: BreakerView,
    threshold: nat,
    window: int,
    times: Seq<u128>,
)
    requires
        threshold > 0,
        s.latched,
    ensures
        breaker_run(s, threshold, window, times) == s,
        admitted(s, threshold, window, times) == 0,
        forall|now: u128| #[trigger]
            breaker_step(breaker_run(s, threshold, window, times), threshold, window, now) == (
                s,
                true,
                false,
            ),
    decreases times.len(),
{
    if times.len() > 0 {
        law_latch_never_rearms(s, threshold, window, times.drop_last());
    }
}

/// A storm is bounded: requests that all fall inside one window are admitted at
/// most `threshold` times in all, however many they are.
pub proof fn law_storm_is_bounded(threshold: nat, window: int, times: Seq<u128>)
    requires
        threshold > 0,
        forall|i: int, j: int|
            0 <= i < times.len() && 0 <= j < times.len() ==> #[trigger] times[j] <= #[trigger] times[i]
                + window,
    ensures
        ({
            let fresh = BreakerView { mints: Seq::empty(), latched: false };
            let end = breaker_run(fresh, threshold, window, times);
            &&& admitted(fresh, threshold, window, times) <= threshold
            &&& end.mints.len() == admitted(fresh, threshold, window, times)
            &&& end.latched <==> times.len() > threshold
            &&& end.mints == times.subrange(0, end.mints.len() as int)
        }),
    decreases times.len(),
{
    let fresh = BreakerView { mints: Seq::empty(), latched: false };
    if times.len() == 0 {
        assert(times.subrange(0, 0) =~= fresh.mints);
    } else {
        let t = times.drop_last();
        assert forall|i: int, j: int| 0 <= i < t.len() && 0 <= j < t.len() implies #[trigger] t[j]
            <= #[trigger] t[i] + window by {
            assert(times[j] <= times[i] + window);
        }
        law_storm_is_bounded(threshold, window, t);
        let mid = breaker_run(fresh, threshold, window, t);
        let now = times.last();
        lemma_admitted_at_most(fresh, threshold, window, t);
        if mid.mints.len() > 0 {
            assert(mid.mints[0] == t[0]);
            assert(times[times.len() - 1] <= times[0] + window);
        }
        lemma_pruned_keeps(mid.mints, now, window);
        let end = breaker_run(fresh, threshold, window, times);
        assert(end.mints =~= times.subrange(0, end.mints.len() as int));
    }
}

/// The request at `j` and the `threshold` before it fall inside one window.
pub open spec fn crowded(times: Seq<u128>, threshold: nat, window: int, j: int) -> bool {
    &&& threshold <= j < times.len()
    &&& times[j] <= times[j - threshold] + window
}

/// Where no request was refused yet the mints are the latest requests, and every
/// earlier one lies further back than a window.
proof fn lemma_mints_are_recent(threshold: nat, window: int, times: Seq<u128>)
    requires
        threshold > 0,
        forall|i: int, j: int|
            0 <= i <= j < times.len() ==> #[trigger] times[i] <= #[trigger] times[j],
    ensures
        ({
            let end = breaker_run(
                BreakerView { mints: Seq::empty(), latched: false },
                threshold,
                window,
                times,
            );
            let n = end.mints.len() as int;
            &&& end.latched <==> exists|j: int| crowded(times, threshold, window, j)
            &&& !end.latched ==> {
                &&& n <= times.len()
                &&& end.mints == times.subrange(times.len() - n, times.len() as int)
                &&& forall|i: int|
                    0 <= i < times.len() - n ==> #[trigger] times[i] + window < times.last()
            }
        }),
    decreases times.len(),
{
    let fresh = BreakerView { mints: Seq::empty(), latched: false };
    if times.len() == 0 {
        assert(times.subrange(0, 0) =~= fresh.mints);
    } else {
        let t = times.drop_last();
        assert forall|i: int, j: int| 0 <= i <= j < t.len() implies #[trigger] t[i]
            <= #[trigger] t[j] by {
            assert(times[i] <= times[j]);
        }
        lemma_mints_are_recent(threshold, window, t);
        let mid = breaker_run(fresh, threshold, window, t);
        let now = times.last();
        let last = times.len() - 1;
        assert forall|j: int| crowded(t, threshold, window, j) == (j < last && crowded(
            times,
            threshold,
            window,
            j,
        )) by {}
        if mid.latched {
            let j = choose|j: int| crowded(t, threshold, window, j);
            assert(crowded(times, threshold, window, j));
        } else {
            let kept = pruned(mid.mints, now, window);
            lemma_pruned_is_tail(mid.mints, now, window);
            let from = t.len() - kept.len();
            assert(kept =~= t.subrange(from, t.len() as int));
            assert forall|i: int| 0 <= i < from implies #[trigger] times[i] + window < now by {
                assert(times[i] == t[i]);
                if i < t.len() - mid.mints.len() {
                    assert(t[i] + window < t.last());
                    assert(times[last - 1] <= times[last]);
                } else {
                    assert(mid.mints[i - (t.len() - mid.mints.len())] == t[i]);
                }
            }
            if kept.len() >= threshold {
                assert(kept[0] == t[from]);
                assert(times[from] <= times[last - threshold]);
                assert(crowded(times, threshold, window, last));
            } else {
                assert forall|j: int| !crowded(times, threshold, window, j) by {
                    if j == last && threshold <= last {
                        assert(times[last - threshold] + window < now);
                    } else if crowded(times, threshold, window, j) {
                        assert(crowded(t, threshold, window, j));
                    }
                }
                assert(kept.push(now) =~= times.subrange(from, times.len() as int));
            }
        }
    }
}

/// What pruning leaves is the tail, which starts inside the window; what goes lies
/// further back.
proof fn lemma_pruned_is_tail(mints: Seq<u128>, now: u128, window: int)
    ensures
        ({
            let kept = pruned(mints, now, window);
            &&& kept.len() <= mints.len()
            &&& kept == mints.subrange(mints.len() - kept.len(), mints.len() as int)
            &&& forall|i: int|
                0 <= i < mints.len() - kept.len() ==> #[trigger] mints[i] + window < now
            &&& kept.len() > 0 ==> now <= kept[0] + window
        }),
    decreases mints.len(),
{
    if mints.len() > 0 && mints[0] + window < now {
        let rest = mints.drop_first();
        lemma_pruned_is_tail(rest, now, window);
        let kept = pruned(rest, now, window);
        let k = mints.len() - kept.len();
        assert(mints.subrange(k, mints.len() as int) =~= rest.subrange(k - 1, rest.len() as int));
        assert forall|i: int| 0 <= i < k implies #[trigger] mints[i] + window < now by {
            if i > 0 {
                assert(rest[i - 1] + window < now);
            }
        }
    } else {
        assert(mints.subrange(0, mints.len() as int) =~= mints);
    }
}

/// Over a run of any length the breaker latches exactly at the first request that
/// is one too many inside some window: everything before it is admitted, and
/// nothing from it on.
pub proof fn law_first_crowded_request_latches(threshold: nat, window: int, times: Seq<u128>)
    requires
        threshold > 0,
        forall|i: int, j: int|
            0 <= i <= j < times.len() ==> #[trigger] times[i] <= #[trigger] times[j],
    ensures
        ({
            let fresh = BreakerView { mints: Seq::empty(), latched: false };
            let end = breaker_run(fresh, threshold, window, times);
            let n = admitted(fresh, threshold, window, times);
            &&& end.latched <==> exists|j: int| crowded(times, threshold, window, j)
            &&& !end.latched ==> n == times.len()
            &&& end.latched ==> crowded(times, threshold, window, n as int)
            &&& forall|j: int| 0 <= j < n ==> !crowded(times, threshold, window, j)
        }),
    decreases times.len(),
{
    let fresh = BreakerView { mints: Seq::empty(), latched: false };
    lemma_mints_are_recent(threshold, window, times);
    lemma_admitted_at_most(fresh, threshold, window, times);
    if times.len() > 0 {
        let t = times.drop_last();
        assert forall|i: int, j: int| 0 <= i <= j < t.len() implies #[trigger] t[i]
            <= #[trigger] t[j] by {
            assert(times[i] <= times[j]);
        }
        law_first_crowded_request_latches(threshold, window, t);
        let last = times.len() - 1;
        let n = admitted(fresh, threshold, window, times);
        assert forall|j: int| crowded(t, threshold, window, j) == (j < last && crowded(
            times,
            threshold,
            window,
            j,
        )) by {}
        lemma_admitted_at_most(fresh, threshold, window, t);
        if breaker_run(fresh, threshold, window, times).latched && !breaker_run(
            fresh,
            threshold,
            window,
            t,
        ).latched {
            let j = choose|j: int| crowded(times, threshold, window, j);
            if j < last {
                assert(crowded(t, threshold, window, j));
            }
            assert(n == last);
        }
    }
}

/// Of the requests inside any one window, early or late in a run, at most
/// `threshold` are admitted.
pub proof fn law_any_window_is_bounded(
    threshold: nat,
    window: int,
    times: Seq<u128>,
    i: int,
    j: int,
)
    requires
        threshold > 0,
        forall|a: int, b: int|
            0 <= a <= b < times.len() ==> #[trigger] times[a] <= #[trigger] times[b],
        0 <= i < j <= times.len(),
        times[j - 1] <= times[i] + window,
    ensures
        ({
            let fresh = BreakerView { mints: Seq::empty(), latched: false };
            admitted(fresh, threshold, window, times.subrange(0, j)) <= admitted(
                fresh,
                threshold,
                window,
                times.subrange(0, i),
            ) + threshold
        }),
{
    let fresh = BreakerView { mints: Seq::empty(), latched: false };
    let a = times.subrange(0, i);
    let b = times.subrange(0, j);
    law_first_crowded_request_latches(threshold, window, a);
    law_first_crowded_request_latches(threshold, window, b);
    lemma_admitted_at_most(fresh, threshold, window, a);
    lemma_admitted_at_most(fresh, threshold, window, b);
    let na = admitted(fresh, threshold, window, a) as int;
    let nb = admitted(fresh, threshold, window, b) as int;
    if breaker_run(fresh, threshold, window, a).latched {
        assert(crowded(b, threshold, window, na));
    } else if nb > i + threshold {
        let k: int = i + threshold;
        assert(times[k] <= times[j - 1]);
        assert(crowded(b, threshold, window, k));
    }
}

/// Every request is admitted at most once, and as long as the breaker is not
/// latched every request was admitted.
proof fn lemma_admitted_at_most(
    s: BreakerView,
    threshold: nat,
    window: int,
    times: Seq<u128>,
)
    requires
        threshold > 0,
        !s.latched,
    ensures
        admitted(s, threshold, window, times) <= times.len(),
        !breaker_run(s, threshold, window, times).latched ==> admitted(s, threshold, window, times)
            == times.len(),
    decreases times.len(),
{
    if times.len() > 0 {
        lemma_admitted_at_most(s, threshold, window, times.drop_last());
    }
}

/// With the breaker turned off every request is admitted and nothing latches.
pub proof fn law_zero_threshold_never_latches(s: BreakerView, window: int, times: Seq<u128>)
    ensures
        breaker_run(s, 0, window, times) == s,
        admitted(s, 0, window, times) == times.len(),
    decreases times.len(),
{
    if times.len() > 0 {
        law_zero_threshold_never_latches(s, window, times.drop_last());
    }
}

/// A copy is refused exactly where the breaker has latched, or as many copies as it
/// allows were admitted within the window: that request latches it. A limit of
/// nothing turns the breaker off, and a reset lets copies through again.
pub proof fn law_storm_latches_the_breaker(
    b: &mut ConflictBreaker,
    now: u128,
    r: (bool, bool),
    again: &mut ConflictBreaker,
)
    requires
        call_ensures(ConflictBreaker::open, (b, now), r),
        call_ensures(ConflictBreaker::reset, (again,), ()),
        forall|i: int, j: int|
            0 <= i <= j < old(b)@.mints.len() ==> #[trigger] old(b)@.mints[i]
                <= #[trigger] old(b)@.mints[j],
        old(b)@.mints.len() <= old(b).limit(),
    ensures
        ({
            let s = old(b)@;
            let crowded = s.mints.len() == old(b).limit() && s.mints[0] + old(b).window() >= now;
            &&& old(b).limit() == 0 ==> !r.0 && !r.1 && final(b)@ == s
            &&& old(b).limit() > 0 ==> (r.0 <==> s.latched || crowded)
            &&& old(b).limit() > 0 ==> (r.1 <==> !s.latched && crowded)
            &&& old(b).limit() > 0 ==> (final(b)@.latched <==> s.latched || crowded)
            &&& old(b).limit() > 0 && !r.0 ==> final(b)@.mints.last() == now
        }),
        !final(again)@.latched && final(again)@.mints.len() == 0,
        final(again).limit() == old(again).limit(),
        final(again).window() == old(again).window(),
{
    let m = old(b)@.mints;
    lemma_pruned_is_tail(m, now, old(b).window());
    let kept = pruned(m, now, old(b).window());
    if kept.len() == m.len() {
        assert(kept =~= m);
    }
    if kept.len() < m.len() {
        assert(m[0] + old(b).window() < now);
    }
}

} // verus!
