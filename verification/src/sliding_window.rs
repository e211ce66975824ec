//! Times of events inside a window that moves with the clock.

use vstd::prelude::*;

verus! {

/// The times that are left when the leading ones that lie a whole window back, or
/// more, are dropped.
pub open spec fn fresh(times: Seq<u128>, now: u128, window: int) -> Seq<u128>
    decreases times.len(),
{
    if times.len() > 0 && times[0] + window <= now {
        fresh(times.drop_first(), now, window)
    } else {
        times
    }
}

/// What is left is the tail of the times, and what is dropped lies a whole window
/// back.
pub proof fn lemma_fresh_is_tail(times: Seq<u128>, now: u128, window: int)
    ensures
        fresh(times, now, window).len() <= times.len(),
        fresh(times, now, window) == times.subrange(
            times.len() - fresh(times, now, window).len(),
            times.len() as int,
        ),
        forall|i: int|
            0 <= i < times.len() - fresh(times, now, window).len() ==> #[trigger] times[i] + window
                <= now,
    decreases times.len(),
{
    let f = fresh(times, now, window);
    if times.len() > 0 && times[0] + window <= now {
        let rest = times.drop_first();
        lemma_fresh_is_tail(rest, now, window);
        let k = times.len() - f.len();
        assert(times.subrange(k, times.len() as int) =~= rest.subrange(
            k - 1,
            rest.len() as int,
        ));
        assert forall|i: int| 0 <= i < k implies #[trigger] times[i] + window <= now by {
            if i > 0 {
                assert(rest[i - 1] + window <= now);
            }
        }
    } else {
        assert(times.subrange(0, times.len() as int) =~= times);
    }
}

/// Drops the leading times that lie a whole window back.
pub fn drop_expired(times: &Vec<u128>, now: u128, window: u128) -> (r: Vec<u128>)
    ensures
        r@ == fresh(times@, now, window as int),
{
    let ghost all = times@;
    let mut i: usize = 0;
    assert(all.subrange(0, all.len() as int) =~= all);
    while i < times.len() && now >= window && times[i] <= now - window
        invariant
            i <= times@.len(),
            all == times@,
            fresh(all, now, window as int) == fresh(
                all.subrange(i as int, all.len() as int),
                now,
                window as int,
            ),
        decreases times@.len() - i,
    {
        let ghost rest = all.subrange(i as int, all.len() as int);
        assert(rest[0] == all[i as int]);
        assert(rest.drop_first() =~= all.subrange(i + 1, all.len() as int));
        i = i + 1;
    }
    let mut out: Vec<u128> = Vec::new();
    let mut k: usize = i;
    while k < times.len()
        invariant
            i <= k <= times@.len(),
            all == times@,
            out@ == all.subrange(i as int, k as int),
        decreases times@.len() - k,
    {
        out.push(times[k]);
        k = k + 1;
    }
    proof {
        let rest = all.subrange(i as int, all.len() as int);
        if rest.len() > 0 {
            assert(rest[0] == all[i as int]);
        }
    }
    out
}

/// What is dropped lies a whole window back, and in times that are in order all of
/// that is dropped; what is left keeps its order.
pub proof fn law_expired_times_are_dropped(
    times: &Vec<u128>,
    now: u128,
    window: u128,
    r: Vec<u128>,
)
    requires
        call_ensures(drop_expired, (times, now, window), r),
        forall|i: int, j: int|
            0 <= i <= j < times@.len() ==> #[trigger] times@[i] <= #[trigger] times@[j],
    ensures
        r@.len() <= times@.len(),
        r@ == times@.subrange(times@.len() - r@.len(), times@.len() as int),
        forall|i: int|
            0 <= i < times@.len() ==> (#[trigger] times@[i] + window <= now <==> i < times@.len()
                - r@.len()),
{
    lemma_fresh_is_tail(times@, now, window as int);
    lemma_fresh_starts_inside(times@, now, window as int);
    let k = times@.len() - r@.len();
    assert forall|i: int| k <= i < times@.len() implies #[trigger] times@[i] + window > now by {
        assert(r@[0] == times@[k]);
        assert(times@[k] <= times@[i]);
    }
}

proof fn lemma_fresh_starts_inside(times: Seq<u128>, now: u128, window: int)
    ensures
        fresh(times, now, window).len() > 0 ==> fresh(times, now, window)[0] + window > now,
    decreases times.len(),
{
    if times.len() > 0 && times[0] + window <= now {
        lemma_fresh_starts_inside(times.drop_first(), now, window);
    }
}

} // verus!
