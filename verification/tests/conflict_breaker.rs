use vault_sync::conflict_breaker::{ConflictBreaker, NANOS_PER_SEC};

#[test]
fn copies_that_never_crowd_a_window_are_all_admitted() {
    let mut b = ConflictBreaker::new(2, 10);
    for k in 0..50u128 {
        assert_eq!(b.open(k * 6 * NANOS_PER_SEC), (false, false), "{k}");
    }
    assert!(!b.is_latched());
}

#[test]
fn the_first_crowded_request_latches_however_late() {
    let mut b = ConflictBreaker::new(2, 10);
    for k in 0..50u128 {
        assert_eq!(b.open(k * 6 * NANOS_PER_SEC), (false, false), "{k}");
    }
    let last = 49 * 6 * NANOS_PER_SEC;
    assert_eq!(b.open(last + 4 * NANOS_PER_SEC), (true, true), "the window's edge counts");
    assert_eq!(b.open(last + 1_000 * NANOS_PER_SEC), (true, false));
    b.reset();
    assert_eq!(b.open(last + 1_001 * NANOS_PER_SEC), (false, false));
}
