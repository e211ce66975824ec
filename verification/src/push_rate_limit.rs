//! A cap on the number of pushes per second.
//!
//! All times are nanoseconds of a monotonic clock.

use vstd::prelude::*;

use crate::conflict_breaker::NANOS_PER_SEC;
use crate::numbers;
use crate::reconciliation;
use crate::reconciliation::EnvReader;
use crate::sliding_window;

verus! {

/// Pushes per second unless another cap is set.
pub const DEFAULT_MAX_PUSH_PER_SEC: usize = 20;

/// Variable that sets the cap.
pub const ENV_MAX_PER_SEC: &'static str = "VAULT_SYNC_MAX_PUSH_PER_SEC";

/// Variable that removes the cap.
pub const ENV_DISABLE: &'static str = "VAULT_SYNC_DISABLE_PUSH_RATE_CAP";

/// A positive cap, or the default where the value is missing, malformed or zero.
pub open spec fn cap_or_default(value: Option<Seq<char>>) -> usize {
    match value {
        Some(s) => match numbers::parsed(s, usize::MAX as nat) {
            Some(n) => if n > 0 {
                n as usize
            } else {
                DEFAULT_MAX_PUSH_PER_SEC
            },
            None => DEFAULT_MAX_PUSH_PER_SEC,
        },
        None => DEFAULT_MAX_PUSH_PER_SEC,
    }
}

/// The cap to use.
pub fn read_max_per_sec<E: EnvReader>(env: &E) -> (r: usize)
    ensures
        r == cap_or_default(env.lookup(ENV_MAX_PER_SEC@)),
        r > 0,
{
    match env.get(ENV_MAX_PER_SEC) {
        Some(s) => match numbers::parse_usize(s.as_str()) {
            Some(n) => {
                if n > 0 {
                    n
                } else {
                    DEFAULT_MAX_PUSH_PER_SEC
                }
            },
            None => DEFAULT_MAX_PUSH_PER_SEC,
        },
        None => DEFAULT_MAX_PUSH_PER_SEC,
    }
}

/// Whether there is no cap.
pub fn is_disabled<E: EnvReader>(env: &E) -> (r: bool)
    ensures
        r == reconciliation::switched_on(env.lookup(ENV_DISABLE@)),
{
    reconciliation::read_switch(env, ENV_DISABLE)
}

/// Whether the cap is used up.
pub fn would_exceed(window_len: usize, max_per_sec: usize) -> (r: bool)
    ensures
        r == (window_len >= max_per_sec),
{
    window_len >= max_per_sec
}

/// Nanoseconds until the push at `front` is a second ago, as far as the clock
/// goes.
pub open spec fn release_in(front: u128, now: u128) -> u128 {
    let d = front + NANOS_PER_SEC - now;
    if d <= 0 {
        0
    } else if d > u128::MAX {
        u128::MAX
    } else {
        d as u128
    }
}

/// Nanoseconds until the oldest push no longer counts.
pub fn next_release_at(window_front: u128, now: u128) -> (r: u128)
    ensures
        r == release_in(window_front, now),
{
    if now >= window_front {
        let age: u128 = now - window_front;
        if age >= NANOS_PER_SEC {
            0
        } else {
            NANOS_PER_SEC - age
        }
    } else {
        let ahead: u128 = window_front - now;
        if ahead > u128::MAX - NANOS_PER_SEC {
            u128::MAX
        } else {
            ahead + NANOS_PER_SEC
        }
    }
}

/// One request for a slot at `now`: the times behind it, and how long to wait
/// (`None` where the slot was given). A cap of zero means no cap and no
/// bookkeeping.
pub open spec fn acquire_step(times: Seq<u128>, cap: usize, now: u128) -> (Seq<u128>, Option<u128>) {
    if cap == 0 {
        (times, None)
    } else {
        let f = sliding_window::fresh(times, now, NANOS_PER_SEC as int);
        if f.len() < cap {
            (f.push(now), None)
        } else {
            (f, Some(release_in(f[0], now)))
        }
    }
}

/// Gives out slots.
#[derive(Debug)]
pub struct PushRateLimiter {
    max_per_sec: usize,
    window: Vec<u128>,
}

impl View for PushRateLimiter {
    type V = Seq<u128>;

    closed spec fn view(&self) -> Seq<u128> {
        self.window@
    }
}

impl PushRateLimiter {
    /// The cap.
    pub closed spec fn cap(self) -> usize {
        self.max_per_sec
    }

    /// A limiter that has given out nothing; zero means no cap.
    pub fn new(max_per_sec: usize) -> (l: PushRateLimiter)
        ensures
            l.cap() == max_per_sec,
            l@ == Seq::<u128>::empty(),
    {
        PushRateLimiter { max_per_sec, window: Vec::new() }
    }

    /// Asks for a slot at `now`: `None` where it is given, and otherwise the time
    /// to wait before asking again.
    pub fn acquire(&mut self, now: u128) -> (r: Option<u128>)
        ensures
            (final(self)@, r) == acquire_step(old(self)@, old(self).cap(), now),
            final(self).cap() == old(self).cap(),
    {
        if self.max_per_sec == 0 {
            return None;
        }
        let mut w = sliding_window::drop_expired(&self.window, now, NANOS_PER_SEC);
        if !would_exceed(w.len(), self.max_per_sec) {
            w.push(now);
            self.window = w;
            return None;
        }
        let wait: u128 = next_release_at(w[0], now);
        self.window = w;
        Some(wait)
    }

    /// Slots that still count.
    pub fn in_window(&self) -> (r: usize)
        ensures
            r == self@.len(),
    {
        self.window.len()
    }

    /// The cap.
    pub fn max_per_sec(&self) -> (r: usize)
        ensures
            r == self.cap(),
    {
        self.max_per_sec
    }
}

/// The times that count after a run of requests.
pub open spec fn window_after(cap: usize, asks: Seq<u128>) -> Seq<u128>
    decreases asks.len(),
{
    if asks.len() == 0 {
        Seq::empty()
    } else {
        acquire_step(window_after(cap, asks.drop_last()), cap, asks.last()).0
    }
}

/// The times at which a run of requests was given slots.
pub open spec fn granted(cap: usize, asks: Seq<u128>) -> Seq<u128>
    decreases asks.len(),
{
    if asks.len() == 0 {
        Seq::empty()
    } else {
        let before = granted(cap, asks.drop_last());
        if acquire_step(window_after(cap, asks.drop_last()), cap, asks.last()).1 is None {
            before.push(asks.last())
        } else {
            before
        }
    }
}

/// The clock does not go back.
pub open spec fn in_order(asks: Seq<u128>) -> bool {
    forall|i: int, j: int| 0 <= i <= j < asks.len() ==> #[trigger] asks[i] <= #[trigger] asks[j]
}

/// What still counts is the end of what was given, and everything before it is a
/// second ago.
proof fn lemma_window_is_recent(cap: usize, asks: Seq<u128>)
    requires
        cap > 0,
        in_order(asks),
    ensures
        ({
            let w = window_after(cap, asks);
            let g = granted(cap, asks);
            &&& w.len() <= cap
            &&& w.len() <= g.len()
            &&& w == g.subrange(g.len() - w.len(), g.len() as int)
            &&& forall|i: int|
                0 <= i < g.len() - w.len() ==> #[trigger] g[i] + NANOS_PER_SEC <= asks.last()
            &&& asks.len() == 0 ==> g.len() == 0
        }),
    decreases asks.len(),
{
    let w = window_after(cap, asks);
    let g = granted(cap, asks);
    if asks.len() == 0 {
        assert(w =~= g.subrange(0, 0));
    } else {
        let head = asks.drop_last();
        let now = asks.last();
        assert forall|i: int, j: int| 0 <= i <= j < head.len() implies #[trigger] head[i]
            <= #[trigger] head[j] by {
            assert(asks[i] <= asks[j]);
        }
        lemma_window_is_recent(cap, head);
        let w0 = window_after(cap, head);
        let g0 = granted(cap, head);
        let f = sliding_window::fresh(w0, now, NANOS_PER_SEC as int);
        sliding_window::lemma_fresh_is_tail(w0, now, NANOS_PER_SEC as int);
        let dropped0 = g0.len() - w0.len();
        let dropped = g0.len() - f.len();
        assert forall|i: int| 0 <= i < dropped implies #[trigger] g0[i] + NANOS_PER_SEC <= now by {
            if i < dropped0 {
                assert(g0[i] + NANOS_PER_SEC <= head.last());
                assert(asks[asks.len() - 2] <= asks[asks.len() - 1]);
            } else {
                assert(g0[i] == w0[i - dropped0]);
            }
        }
        assert(f =~= g0.subrange(dropped, g0.len() as int));
        if f.len() < cap {
            assert(w =~= g.subrange(dropped, g.len() as int));
        }
    }
}

/// The cap holds: of any `cap` + 1 slots given in a row, the last is at least a
/// second after the first, however many requests there are.
pub proof fn law_rate_never_exceeds_the_cap(cap: usize, asks: Seq<u128>, i: int)
    requires
        cap > 0,
        in_order(asks),
        0 <= i,
        i + cap < granted(cap, asks).len(),
    ensures
        granted(cap, asks)[i] + NANOS_PER_SEC <= granted(cap, asks)[i + cap],
        window_after(cap, asks).len() <= cap,
    decreases asks.len(),
{
    lemma_window_is_recent(cap, asks);
    if asks.len() > 0 {
        let head = asks.drop_last();
        let now = asks.last();
        assert forall|a: int, b: int| 0 <= a <= b < head.len() implies #[trigger] head[a]
            <= #[trigger] head[b] by {
            assert(asks[a] <= asks[b]);
        }
        let g0 = granted(cap, head);
        let g = granted(cap, asks);
        if i + cap < g0.len() {
            law_rate_never_exceeds_the_cap(cap, head, i);
        } else {
            let w = window_after(cap, asks);
            assert(g[i + cap] == now);
            assert(g.len() - w.len() >= i + 1);
            assert(g[i] + NANOS_PER_SEC <= now);
        }
    }
}

/// Whoever is told to wait and asks again after that wait, with no one else asking
/// in between, is given a slot.
pub proof fn law_waiting_is_enough(times: Seq<u128>, cap: usize, now: u128, later: u128)
    requires
        cap > 0,
        times.len() <= cap,
        acquire_step(times, cap, now).1 is Some,
        later >= now + acquire_step(times, cap, now).1->0,
        now + acquire_step(times, cap, now).1->0 <= u128::MAX,
        acquire_step(times, cap, now).1->0 < u128::MAX,
    ensures
        acquire_step(acquire_step(times, cap, now).0, cap, later).1 is None,
{
    let f = sliding_window::fresh(times, now, NANOS_PER_SEC as int);
    sliding_window::lemma_fresh_is_tail(times, now, NANOS_PER_SEC as int);
    assert(f[0] + NANOS_PER_SEC <= later);
    sliding_window::lemma_fresh_is_tail(f.drop_first(), later, NANOS_PER_SEC as int);
    assert(sliding_window::fresh(f, later, NANOS_PER_SEC as int).len() <= f.len() - 1);
}

/// Without a cap every request is granted at once.
pub proof fn law_zero_means_no_cap(times: Seq<u128>, now: u128)
    ensures
        acquire_step(times, 0, now) == (times, None::<u128>),
{
}

/// A slot is refused only where the cap is used up: so many of the slots given
/// were given within the last second. Who is refused is told the time until the
/// oldest of them is a second ago.
pub proof fn law_refused_only_when_used_up(limiter: &mut PushRateLimiter, now: u128, r: Option<u128>)
    requires
        call_ensures(PushRateLimiter::acquire, (limiter, now), r),
        in_order(old(limiter)@),
        old(limiter)@.len() <= old(limiter).cap(),
        old(limiter)@.len() > 0 ==> old(limiter)@.last() <= now,
    ensures
        ({
            let times = old(limiter)@;
            let cap = old(limiter).cap();
            let used_up = cap > 0 && times.len() == cap && times[0] + 1_000_000_000 > now;
            &&& r is Some <==> used_up
            &&& used_up ==> r->0 == times[0] + 1_000_000_000 - now
            &&& cap > 0 && r is None ==> final(limiter)@.last() == now
            &&& cap > 0 ==> forall|t: u128|
                t != now ==> (#[trigger] final(limiter)@.contains(t) <==> times.contains(t) && t
                    + 1_000_000_000 > now)
            &&& cap == 0 ==> final(limiter)@ == times
        }),
        final(limiter).cap() == old(limiter).cap(),
{
    let times = old(limiter)@;
    let cap = old(limiter).cap();
    let f = sliding_window::fresh(times, now, NANOS_PER_SEC as int);
    sliding_window::lemma_fresh_is_tail(times, now, NANOS_PER_SEC as int);
    lemma_fresh_head(times, now);
    let k = times.len() - f.len();
    if cap > 0 {
        assert(times.len() == cap && f.len() == cap ==> f =~= times);
        let end = final(limiter)@;
        assert(end == (if f.len() < cap {
            f.push(now)
        } else {
            f
        }));
        assert forall|t: u128| t != now implies (#[trigger] end.contains(t) <==> times.contains(t)
            && t + 1_000_000_000 > now) by {
            if end.contains(t) {
                let i = choose|i: int| 0 <= i < end.len() && end[i] == t;
                assert(f[i] == t);
                assert(times[k + i] == t);
                assert(f[0] <= f[i]) by {
                    assert(f[0] == times[k]);
                    assert(times[k] <= times[k + i]);
                }
            }
            if times.contains(t) && t + 1_000_000_000 > now {
                let j = choose|j: int| 0 <= j < times.len() && times[j] == t;
                if j < k {
                    assert(times[j] + NANOS_PER_SEC <= now);
                }
                assert(f[j - k] == t);
                assert(end[j - k] == t);
            }
        }
    }
}

proof fn lemma_fresh_head(times: Seq<u128>, now: u128)
    ensures
        ({
            let f = sliding_window::fresh(times, now, NANOS_PER_SEC as int);
            f.len() > 0 ==> f[0] + NANOS_PER_SEC > now
        }),
    decreases times.len(),
{
    if times.len() > 0 && times[0] + NANOS_PER_SEC <= now {
        lemma_fresh_head(times.drop_first(), now);
    }
}

/// The cap is the number that is set, if it is a positive one, and twenty otherwise.
pub proof fn law_cap_is_read(value: Option<Seq<char>>, n: nat)
    ensures
        value is None ==> cap_or_default(value) == 20,
        0 < n <= usize::MAX ==> cap_or_default(Some(numbers::dec_text(n))) == n,
        cap_or_default(Some(numbers::dec_text(0))) == 20,
        value is Some && value->0.len() == 0 ==> cap_or_default(value) == 20,
        cap_or_default(value) > 0,
{
    numbers::law_print_then_parse(0, usize::MAX as nat);
    if n <= usize::MAX {
        numbers::law_print_then_parse(n, usize::MAX as nat);
    }
}

/// The settings of the cap: twenty a second unless the variable sets another
/// number, and none at all where the other variable is set.
pub proof fn law_cap_settings<E: EnvReader>(env: &E, cap: usize, off: bool, n: nat)
    requires
        call_ensures(read_max_per_sec::<E>, (env,), cap),
        call_ensures(is_disabled::<E>, (env,), off),
        0 < n <= usize::MAX,
    ensures
        env.lookup("VAULT_SYNC_MAX_PUSH_PER_SEC"@) is None ==> cap == 20,
        env.lookup("VAULT_SYNC_MAX_PUSH_PER_SEC"@) == Some(numbers::dec_text(n)) ==> cap == n,
        off <==> env.lookup("VAULT_SYNC_DISABLE_PUSH_RATE_CAP"@) is Some && env.lookup(
            "VAULT_SYNC_DISABLE_PUSH_RATE_CAP"@,
        )->0.len() > 0,
{
    law_cap_is_read(None, n);
}

/// A slot is a second ago exactly when the time to wait for it is nothing.
pub proof fn law_time_to_the_next_slot(front: u128, now: u128, r: u128)
    requires
        call_ensures(next_release_at, (front, now), r),
        front + 1_000_000_000 <= u128::MAX,
    ensures
        front + 1_000_000_000 <= now ==> r == 0,
        front + 1_000_000_000 > now ==> r == front + 1_000_000_000 - now,
{
}

/// The cap is exceeded by a further push exactly where it is reached.
pub proof fn law_cap_is_reached(len: usize, cap: usize, r: bool)
    requires
        call_ensures(would_exceed, (len, cap), r),
    ensures
        r <==> len + 1 > cap,
{
}

} // verus!
