//! Moving a finished file into place while something else holds the target open.
//!
//! On Windows an editor that holds a note open makes the move fail for a moment.
//! The caller makes the system calls; this module says after each failure whether
//! to wait and try again.

use vstd::prelude::*;

verus! {

/// The system's error code for a file that another process holds open.
pub const SHARING_VIOLATION: i32 = 32;

/// How often a move is tried.
pub const MAX_PERSIST_ATTEMPTS: u32 = 6;

/// The first pause, in milliseconds; it doubles from attempt to attempt.
pub const BASE_PERSIST_BACKOFF_MS: u64 = 25;

/// What to do after a failed move.
#[derive(Debug, Clone, Copy, PartialEq, Eq, Structural)]
pub enum PersistStep {
    /// Wait so many milliseconds and try again.
    Again { wait_ms: u64 },
    /// Wait so many milliseconds and fall back on a plain rename.
    Rename { wait_ms: u64 },
    /// Report the error.
    Fail,
}

/// The file is held open: the failure may pass.
pub open spec fn passes(code: Option<i32>) -> bool {
    code == Some(SHARING_VIOLATION)
}

/// The pause after the `attempt`th failure, counted from zero.
pub open spec fn pause_after(attempt: nat) -> nat {
    let doublings: nat = if attempt < 5 {
        attempt
    } else {
        5
    };
    BASE_PERSIST_BACKOFF_MS as nat * vstd::arithmetic::power2::pow2(doublings)
}

/// What to do after the `attempt`th failure to replace an existing file: it is
/// tried again while it is held open, and then renamed over.
pub open spec fn replace_step(attempt: nat, code: Option<i32>) -> PersistStep {
    if !passes(code) {
        PersistStep::Rename { wait_ms: 0 }
    } else if attempt + 1 < MAX_PERSIST_ATTEMPTS {
        PersistStep::Again { wait_ms: pause_after(attempt) as u64 }
    } else {
        PersistStep::Rename { wait_ms: pause_after(attempt) as u64 }
    }
}

/// What to do after the `attempt`th failure to create a file.
pub open spec fn create_step(attempt: nat, code: Option<i32>) -> PersistStep {
    if passes(code) && attempt + 1 < MAX_PERSIST_ATTEMPTS {
        PersistStep::Again { wait_ms: pause_after(attempt) as u64 }
    } else {
        PersistStep::Fail
    }
}

fn pause_ms(attempt: u32) -> (ms: u64)
    ensures
        ms == pause_after(attempt as nat),
{
    proof {
        vstd::arithmetic::power2::lemma2_to64();
    }
    if attempt == 0 {
        25
    } else if attempt == 1 {
        50
    } else if attempt == 2 {
        100
    } else if attempt == 3 {
        200
    } else if attempt == 4 {
        400
    } else {
        800
    }
}

/// Decides after the `attempt`th failure (counted from zero) to replace an
/// existing file.
pub fn after_replace_failure(attempt: u32, code: Option<i32>) -> (r: PersistStep)
    ensures
        r == replace_step(attempt as nat, code),
{
    let held_open = match code {
        Some(c) => c == SHARING_VIOLATION,
        None => false,
    };
    if !held_open {
        return PersistStep::Rename { wait_ms: 0 };
    }
    let wait_ms: u64 = pause_ms(attempt);
    if attempt < MAX_PERSIST_ATTEMPTS - 1 {
        PersistStep::Again { wait_ms }
    } else {
        PersistStep::Rename { wait_ms }
    }
}

/// Decides after the `attempt`th failure (counted from zero) to create a file.
pub fn after_create_failure(attempt: u32, code: Option<i32>) -> (r: PersistStep)
    ensures
        r == create_step(attempt as nat, code),
{
    let held_open = match code {
        Some(c) => c == SHARING_VIOLATION,
        None => false,
    };
    if held_open && attempt < MAX_PERSIST_ATTEMPTS - 1 {
        let wait_ms: u64 = pause_ms(attempt);
        PersistStep::Again { wait_ms }
    } else {
        PersistStep::Fail
    }
}

/// Milliseconds spent waiting over a run of failures with these codes, the first
/// of them the `attempt`th.
pub open spec fn total_wait(attempt: nat, codes: Seq<Option<i32>>) -> nat
    decreases codes.len(),
{
    if codes.len() == 0 {
        0
    } else {
        match replace_step(attempt, codes[0]) {
            PersistStep::Again { wait_ms } => wait_ms as nat + total_wait(
                attempt + 1,
                codes.drop_first(),
            ),
            PersistStep::Rename { wait_ms } => wait_ms as nat,
            PersistStep::Fail => 0,
        }
    }
}

proof fn lemma_wait_from(attempt: nat, codes: Seq<Option<i32>>)
    requires
        attempt < MAX_PERSIST_ATTEMPTS,
    ensures
        total_wait(attempt, codes) + pause_after(attempt) <= 1600,
    decreases codes.len(),
{
    vstd::arithmetic::power2::lemma2_to64();
    if codes.len() > 0 && replace_step(attempt, codes[0]) is Again {
        lemma_wait_from(attempt + 1, codes.drop_first());
    }
}

/// The wait is bounded: however long a file is held open, it is replaced or
/// renamed over after at most 1575 milliseconds of waiting.
pub proof fn law_persist_wait_is_bounded(codes: Seq<Option<i32>>)
    ensures
        total_wait(0, codes) <= 1575,
{
    vstd::arithmetic::power2::lemma2_to64();
    lemma_wait_from(0, codes);
}

/// A move is tried no more than the set number of times, and a failure that will
/// not pass is never waited for.
pub proof fn law_persist_gives_up(attempt: nat, code: Option<i32>)
    ensures
        attempt + 1 >= MAX_PERSIST_ATTEMPTS ==> replace_step(attempt, code) is Rename
            && create_step(attempt, code) is Fail,
        !passes(code) ==> replace_step(attempt, code) == (PersistStep::Rename { wait_ms: 0 })
            && create_step(attempt, code) is Fail,
{
}

/// A file that another process holds open (the system's error 32) is waited for,
/// twenty-five milliseconds at first and twice as long each time, six times in all;
/// then an existing file is renamed over and a new one is given up. Any other
/// failure is not waited for.
pub proof fn law_held_file_is_waited_for(
    attempt: u32,
    code: Option<i32>,
    r: PersistStep,
    c: PersistStep,
)
    requires
        call_ensures(after_replace_failure, (attempt, code), r),
        call_ensures(after_create_failure, (attempt, code), c),
    ensures
        code != Some(32i32) ==> r == (PersistStep::Rename { wait_ms: 0 }) && c is Fail,
        code == Some(32i32) && attempt < 5 ==> r is Again && c == r,
        code == Some(32i32) && attempt >= 5 ==> r == (PersistStep::Rename { wait_ms: 800 }) && c
            is Fail,
        code == Some(32i32) && attempt == 0 ==> r == (PersistStep::Again { wait_ms: 25 }),
        code == Some(32i32) && attempt == 1 ==> r == (PersistStep::Again { wait_ms: 50 }),
        code == Some(32i32) && attempt == 2 ==> r == (PersistStep::Again { wait_ms: 100 }),
        code == Some(32i32) && attempt == 3 ==> r == (PersistStep::Again { wait_ms: 200 }),
        code == Some(32i32) && attempt == 4 ==> r == (PersistStep::Again { wait_ms: 400 }),
{
    vstd::arithmetic::power2::lemma2_to64();
}

} // verus!
