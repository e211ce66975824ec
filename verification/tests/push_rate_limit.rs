use vault_sync::push_rate_limit::{next_release_at, would_exceed, PushRateLimiter};

const MS: u128 = 1_000_000;
const SEC: u128 = 1_000_000_000;
const START: u128 = 100 * SEC;

/// Asks until a slot is given, moving the clock on by every wait.
fn acquire(l: &mut PushRateLimiter, now: &mut u128) {
    for _ in 0..1000 {
        match l.acquire(*now) {
            None => return,
            Some(wait) => *now += wait,
        }
    }
    panic!("no slot after a thousand waits");
}

#[test]
fn would_exceed_at_window_len_lt_cap_returns_false() {
    assert!(!would_exceed(0, 5));
    assert!(!would_exceed(4, 5));
}

#[test]
fn would_exceed_at_window_len_eq_cap_returns_true() {
    assert!(would_exceed(5, 5));
}

#[test]
fn would_exceed_at_window_len_gt_cap_returns_true() {
    assert!(would_exceed(6, 5));
    assert!(would_exceed(usize::MAX, 5));
}

#[test]
fn next_release_at_window_front_in_past_returns_zero() {
    assert_eq!(next_release_at(START - 2 * SEC, START), 0);
}

#[test]
fn next_release_at_window_front_at_one_second_boundary_returns_zero() {
    assert_eq!(next_release_at(START - SEC, START), 0);
}

#[test]
fn next_release_at_window_front_in_future_returns_positive() {
    let d = next_release_at(START - 750 * MS, START);
    assert!(d > 0);
    assert!(d <= 251 * MS);
    assert_eq!(d, 250 * MS);
    assert_eq!(next_release_at(START + 3, START), SEC + 3);
    assert_eq!(next_release_at(u128::MAX, 0), u128::MAX);
}

#[test]
fn regression_28k_rsync_cap_never_exceeds_5_per_sec() {
    let mut limiter = PushRateLimiter::new(5);
    let mut now = START;
    let mut observed: Vec<usize> = Vec::with_capacity(16);
    let mut given: Vec<u128> = Vec::new();
    for _ in 0..16 {
        acquire(&mut limiter, &mut now);
        given.push(now);
        observed.push(limiter.in_window());
    }
    let elapsed = now - START;
    for (i, len) in observed.iter().enumerate() {
        assert!(*len <= 5, "rate cap violated after acquire #{i}: window len = {len} > 5");
    }
    for i in 0..given.len() - 5 {
        assert!(given[i] + SEC <= given[i + 5], "six slots within a second");
    }
    assert!(elapsed >= 1500 * MS, "rate-cap appears bypassed: {elapsed}");
    assert!(elapsed < 10 * SEC, "rate-cap loop took {elapsed} (suspect deadlock)");
}

#[test]
fn acquire_is_noop_when_max_per_sec_zero() {
    let mut limiter = PushRateLimiter::new(0);
    for _ in 0..1000 {
        assert_eq!(limiter.acquire(START), None);
    }
    assert_eq!(limiter.in_window(), 0);
}

#[test]
fn acquire_admits_first_n_then_sleeps() {
    let mut limiter = PushRateLimiter::new(3);
    assert_eq!(limiter.max_per_sec(), 3);
    for _ in 0..3 {
        assert_eq!(limiter.acquire(START), None);
    }
    assert_eq!(limiter.in_window(), 3);
    let waited = limiter.acquire(START).expect("expected a wait");
    assert!(waited >= MS, "expected non-trivial wait, got {waited}");
    assert_eq!(waited, SEC);
    assert_eq!(limiter.acquire(START + waited), None);
}
