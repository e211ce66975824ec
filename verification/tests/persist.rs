use vault_sync::persist::{
    after_create_failure, after_replace_failure, PersistStep, SHARING_VIOLATION,
};

#[test]
fn held_files_are_waited_for_with_growing_pauses() {
    let held = Some(SHARING_VIOLATION);
    let mut waits = Vec::new();
    let mut attempt = 0;
    loop {
        match after_replace_failure(attempt, held) {
            PersistStep::Again { wait_ms } => waits.push(wait_ms),
            PersistStep::Rename { wait_ms } => {
                waits.push(wait_ms);
                break;
            }
            PersistStep::Fail => panic!("replacing falls back on a rename"),
        }
        attempt += 1;
    }
    assert_eq!(waits, vec![25, 50, 100, 200, 400, 800]);
    assert_eq!(waits.iter().sum::<u64>(), 1575);
}

#[test]
fn other_errors_are_not_waited_for() {
    for code in [None, Some(5), Some(0)] {
        assert_eq!(after_replace_failure(0, code), PersistStep::Rename { wait_ms: 0 });
        assert_eq!(after_create_failure(0, code), PersistStep::Fail);
    }
    let held = Some(SHARING_VIOLATION);
    assert_eq!(after_create_failure(4, held), PersistStep::Again { wait_ms: 400 });
    assert_eq!(after_create_failure(5, held), PersistStep::Fail);
    assert_eq!(after_replace_failure(u32::MAX, held), PersistStep::Rename { wait_ms: 800 });
}
