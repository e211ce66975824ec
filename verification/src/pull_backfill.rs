//! Pulling what the event stream never announced.
//!
//! A pass walks the server's whole list of notes, page by page, and fetches those
//! that are missing locally.

use vstd::prelude::*;

use crate::materializer::MaterializeOutcome;
use crate::rasp_fence;
use crate::rasp_fence::PathClassification;
use crate::reconciliation;
use crate::reconciliation::EnvReader;
use crate::scope;
use crate::text;

verus! {

/// Variable that switches the pass off.
pub const ENV_DISABLE_BACKFILL: &'static str = "VAULT_SYNC_DISABLE_BACKFILL";

/// Variable that sets the interval between passes.
pub const ENV_BACKFILL_INTERVAL_SECS: &'static str = "VAULT_SYNC_BACKFILL_INTERVAL_SECS";

/// Seconds between passes unless another interval is set.
pub const DEFAULT_BACKFILL_INTERVAL_SECS: u64 = 3600;

/// Rows per page.
pub const PAGE_LIMIT: u32 = 2000;

/// Notes that are fetched at the same time.
pub const FETCH_CONCURRENCY: usize = 6;

/// Whether the pass is switched off.
pub fn is_backfill_disabled<E: EnvReader>(env: &E) -> (r: bool)
    ensures
        r == reconciliation::switched_on(env.lookup(ENV_DISABLE_BACKFILL@)),
{
    reconciliation::read_switch(env, ENV_DISABLE_BACKFILL)
}

/// Seconds between passes.
pub fn read_backfill_interval<E: EnvReader>(env: &E) -> (r: u64)
    ensures
        r == reconciliation::secs_or(
            env.lookup(ENV_BACKFILL_INTERVAL_SECS@),
            DEFAULT_BACKFILL_INTERVAL_SECS,
        ),
        r > 0,
{
    reconciliation::read_secs(env, ENV_BACKFILL_INTERVAL_SECS, DEFAULT_BACKFILL_INTERVAL_SECS)
}

/// One row of the server's list.
#[derive(Debug, PartialEq, Eq)]
pub struct ChangeRow {
    pub path: String,
    pub lsn: i64,
}

/// The note is missing and its path is safe.
pub open spec fn to_backfill(path: Seq<char>, present: bool) -> bool {
    !present && scope::safe(path)
}

/// Whether to pull a note: it is missing, its path is safe and it is no
/// substrate.
pub fn should_backfill(path: &str, target_exists: bool) -> (r: bool)
    ensures
        r == to_backfill(path@, target_exists),
{
    if target_exists {
        return false;
    }
    if !scope::is_safe_path(path) {
        return false;
    }
    match rasp_fence::classify_path(path) {
        PathClassification::Substrate { rule: _ } => false,
        PathClassification::Content => true,
    }
}

/// The paths to pull of a page, in its order; `present` says of each row whether
/// the note is there.
pub open spec fn planned(changes: Seq<ChangeRow>, present: Seq<bool>) -> Seq<Seq<char>>
    decreases changes.len(),
{
    if changes.len() == 0 || present.len() != changes.len() {
        Seq::empty()
    } else {
        let head = planned(changes.drop_last(), present.drop_last());
        if to_backfill(changes.last().path@, present.last()) {
            head.push(changes.last().path@)
        } else {
            head
        }
    }
}

/// How many rows of a page are present.
pub open spec fn count_present(present: Seq<bool>) -> nat
    decreases present.len(),
{
    if present.len() == 0 {
        0
    } else {
        count_present(present.drop_last()) + if present.last() {
            1nat
        } else {
            0nat
        }
    }
}

/// The paths to pull of a page.
pub fn plan_page(changes: &[ChangeRow], present: &[bool]) -> (r: Vec<String>)
    requires
        changes@.len() == present@.len(),
    ensures
        text::views(r@) == planned(changes@, present@),
{
    let mut out: Vec<String> = Vec::new();
    let mut i: usize = 0;
    assert(text::views(out@) =~= planned(changes@.subrange(0, 0), present@.subrange(0, 0)));
    while i < changes.len()
        invariant
            i <= changes@.len(),
            changes@.len() == present@.len(),
            text::views(out@) == planned(
                changes@.subrange(0, i as int),
                present@.subrange(0, i as int),
            ),
        decreases changes@.len() - i,
    {
        let ghost c1 = changes@.subrange(0, i + 1);
        let ghost p1 = present@.subrange(0, i + 1);
        assert(c1.drop_last() =~= changes@.subrange(0, i as int));
        assert(p1.drop_last() =~= present@.subrange(0, i as int));
        let ghost before = out@;
        if should_backfill(changes[i].path.as_str(), present[i]) {
            out.push(changes[i].path.clone());
            assert(text::views(out@) =~= text::views(before).push(changes@[i as int].path@));
        }
        i = i + 1;
    }
    assert(changes@.subrange(0, changes@.len() as int) =~= changes@);
    assert(present@.subrange(0, present@.len() as int) =~= present@);
    out
}

/// Asked of a path, `f` may answer so.
pub open spec fn may_answer<F: Fn(&str) -> bool>(f: F, path: Seq<char>, answer: bool) -> bool {
    exists|s: &str| s@ == path && #[trigger] call_ensures(f, (s,), answer)
}

/// The paths to pull of a page; `target_exists` is asked once for each row, in
/// order, whether the note is there.
pub fn plan_backfill<F: Fn(&str) -> bool>(changes: &[ChangeRow], target_exists: F) -> (r: Vec<
    String,
>)
    requires
        forall|s: &str| #[trigger] call_requires(target_exists, (s,)),
    ensures
        exists|present: Seq<bool>|
            #![trigger planned(changes@, present)]
            {
                &&& present.len() == changes@.len()
                &&& forall|i: int|
                    0 <= i < changes@.len() ==> may_answer(
                        target_exists,
                        (#[trigger] changes@[i]).path@,
                        present[i],
                    )
                &&& text::views(r@) == planned(changes@, present)
            },
{
    let mut present: Vec<bool> = Vec::new();
    let mut i: usize = 0;
    while i < changes.len()
        invariant
            i <= changes@.len(),
            present@.len() == i,
            forall|s: &str| #[trigger] call_requires(target_exists, (s,)),
            forall|k: int|
                0 <= k < i ==> may_answer(
                    target_exists,
                    (#[trigger] changes@[k]).path@,
                    present@[k],
                ),
        decreases changes@.len() - i,
    {
        let path = changes[i].path.as_str();
        let there = target_exists(path);
        assert(call_ensures(target_exists, (path,), there));
        present.push(there);
        i = i + 1;
    }
    plan_page(changes, present.as_slice())
}

/// Counters of one pass.
#[derive(Debug, Clone, Copy, PartialEq, Eq, Structural)]
pub struct PullBackfillStats {
    /// Rows of the server's list.
    pub enumerated: usize,
    /// Notes that were missing and were written.
    pub created: usize,
    /// Rows whose note was there.
    pub already_present: usize,
    /// Rows with an unsafe path, and notes that were refused or turned up before
    /// they were written.
    pub refused_or_unsafe: usize,
    /// Notes that could not be fetched, written or verified.
    pub failed: usize,
}

impl Default for PullBackfillStats {
    fn default() -> (s: PullBackfillStats)
        ensures
            s == (PullBackfillStats {
                enumerated: 0,
                created: 0,
                already_present: 0,
                refused_or_unsafe: 0,
                failed: 0,
            }),
    {
        PullBackfillStats {
            enumerated: 0,
            created: 0,
            already_present: 0,
            refused_or_unsafe: 0,
            failed: 0,
        }
    }
}

/// How a pulled note counts.
#[derive(Debug, Clone, Copy, PartialEq, Eq, Structural)]
pub enum PullCount {
    Created,
    Refused,
    Failed,
}

/// How the outcome of a pull counts; `None` stands for one that could not be
/// fetched or written.
pub open spec fn pull_count(o: Option<MaterializeOutcome>) -> PullCount {
    match o {
        Some(MaterializeOutcome::Wrote { .. }) => PullCount::Created,
        Some(MaterializeOutcome::Stashed { .. }) => PullCount::Created,
        Some(MaterializeOutcome::AlignedToCanonical { .. }) => PullCount::Created,
        Some(MaterializeOutcome::Skipped(_)) => PullCount::Refused,
        Some(MaterializeOutcome::IntegrityFailed { .. }) => PullCount::Failed,
        None => PullCount::Failed,
    }
}

/// How many outcomes count so.
pub open spec fn count_of(outcomes: Seq<Option<MaterializeOutcome>>, c: PullCount) -> nat
    decreases outcomes.len(),
{
    if outcomes.len() == 0 {
        0
    } else {
        count_of(outcomes.drop_last(), c) + if pull_count(outcomes.last()) == c {
            1nat
        } else {
            0nat
        }
    }
}

fn classify_pull(o: &Option<MaterializeOutcome>) -> (r: PullCount)
    ensures
        r == pull_count(*o),
{
    match o {
        Some(m) => match m {
            MaterializeOutcome::Wrote { path: _ } => PullCount::Created,
            MaterializeOutcome::Stashed { stash_path: _ } => PullCount::Created,
            MaterializeOutcome::AlignedToCanonical { path: _ } => PullCount::Created,
            MaterializeOutcome::Skipped(_) => PullCount::Refused,
            MaterializeOutcome::IntegrityFailed { path: _, expected_sha: _, actual_sha: _ } =>
                PullCount::Failed,
        },
        None => PullCount::Failed,
    }
}

/// Every outcome counts exactly once.
proof fn lemma_counts_add_up(outcomes: Seq<Option<MaterializeOutcome>>)
    ensures
        count_of(outcomes, PullCount::Created) + count_of(outcomes, PullCount::Refused) + count_of(
            outcomes,
            PullCount::Failed,
        ) == outcomes.len(),
    decreases outcomes.len(),
{
    if outcomes.len() > 0 {
        lemma_counts_add_up(outcomes.drop_last());
    }
}

/// Every row of a page is there, to be pulled, or has an unsafe path.
proof fn lemma_page_splits(changes: Seq<ChangeRow>, present: Seq<bool>)
    requires
        changes.len() == present.len(),
    ensures
        planned(changes, present).len() + count_present(present) <= changes.len(),
        count_present(present) <= present.len(),
    decreases changes.len(),
{
    if changes.len() > 0 {
        lemma_page_splits(changes.drop_last(), present.drop_last());
    }
}

impl PullBackfillStats {
    /// Every row is counted exactly once.
    pub open spec fn balanced(self) -> bool {
        self.enumerated == self.created + self.already_present + self.refused_or_unsafe
            + self.failed
    }

    /// The counters with one more page, whose planned notes came out as
    /// `outcomes`.
    pub open spec fn with_page(
        self,
        changes: Seq<ChangeRow>,
        present: Seq<bool>,
        outcomes: Seq<Option<MaterializeOutcome>>,
    ) -> PullBackfillStats {
        let unsafe_rows = changes.len() - planned(changes, present).len() - count_present(present);
        PullBackfillStats {
            enumerated: (self.enumerated + changes.len()) as usize,
            created: (self.created + count_of(outcomes, PullCount::Created)) as usize,
            already_present: (self.already_present + count_present(present)) as usize,
            refused_or_unsafe: (self.refused_or_unsafe + unsafe_rows + count_of(
                outcomes,
                PullCount::Refused,
            )) as usize,
            failed: (self.failed + count_of(outcomes, PullCount::Failed)) as usize,
        }
    }

    /// Counts a page.
    pub fn add_page(
        &mut self,
        changes: &[ChangeRow],
        present: &[bool],
        outcomes: &[Option<MaterializeOutcome>],
    )
        requires
            old(self).balanced(),
            old(self).enumerated + changes@.len() <= usize::MAX,
            changes@.len() == present@.len(),
            outcomes@.len() == planned(changes@, present@).len(),
        ensures
            *final(self) == old(self).with_page(changes@, present@, outcomes@),
            final(self).balanced(),
    {
        proof {
            lemma_counts_add_up(outcomes@);
            lemma_page_splits(changes@, present@);
        }
        let mut here: usize = 0;
        let mut i: usize = 0;
        while i < present.len()
            invariant
                i <= present@.len(),
                here == count_present(present@.subrange(0, i as int)),
                here <= i,
            decreases present@.len() - i,
        {
            assert(present@.subrange(0, i + 1).drop_last() =~= present@.subrange(0, i as int));
            if present[i] {
                here = here + 1;
            }
            i = i + 1;
        }
        assert(present@.subrange(0, present@.len() as int) =~= present@);
        let mut created: usize = 0;
        let mut refused: usize = 0;
        let mut failed: usize = 0;
        let mut k: usize = 0;
        while k < outcomes.len()
            invariant
                k <= outcomes@.len(),
                created == count_of(outcomes@.subrange(0, k as int), PullCount::Created),
                refused == count_of(outcomes@.subrange(0, k as int), PullCount::Refused),
                failed == count_of(outcomes@.subrange(0, k as int), PullCount::Failed),
                created + refused + failed == k,
            decreases outcomes@.len() - k,
        {
            assert(outcomes@.subrange(0, k + 1).drop_last() =~= outcomes@.subrange(0, k as int));
            match classify_pull(&outcomes[k]) {
                PullCount::Created => {
                    created = created + 1;
                },
                PullCount::Refused => {
                    refused = refused + 1;
                },
                PullCount::Failed => {
                    failed = failed + 1;
                },
            }
            k = k + 1;
        }
        assert(outcomes@.subrange(0, outcomes@.len() as int) =~= outcomes@);
        let unsafe_rows: usize = changes.len() - outcomes.len() - here;
        self.enumerated = self.enumerated + changes.len();
        self.created = self.created + created;
        self.already_present = self.already_present + here;
        self.refused_or_unsafe = self.refused_or_unsafe + unsafe_rows + refused;
        self.failed = self.failed + failed;
    }
}

/// Where the next page starts: the walk ends at an empty page, and at one that
/// does not move it on.
pub fn next_since(since: i64, page_is_empty: bool, next_lsn: i64) -> (r: Option<i64>)
    ensures
        r == (if page_is_empty || next_lsn <= since {
            None
        } else {
            Some(next_lsn)
        }),
{
    if page_is_empty || next_lsn <= since {
        None
    } else {
        Some(next_lsn)
    }
}

/// A page where every note is there plans nothing, so that a second pass over an
/// unchanged list fetches nothing.
pub proof fn law_present_notes_are_not_fetched(changes: Seq<ChangeRow>, present: Seq<bool>)
    requires
        changes.len() == present.len(),
        forall|i: int| 0 <= i < present.len() ==> #[trigger] present[i],
    ensures
        planned(changes, present).len() == 0,
        count_present(present) == changes.len(),
    decreases changes.len(),
{
    if changes.len() > 0 {
        assert(present[present.len() - 1]);
        let p = present.drop_last();
        assert forall|i: int| 0 <= i < p.len() implies #[trigger] p[i] by {
            assert(present[i]);
        }
        law_present_notes_are_not_fetched(changes.drop_last(), p);
    }
}

/// Exactly the notes that are missing and safe are planned.
pub proof fn law_missing_notes_are_planned(
    changes: Seq<ChangeRow>,
    present: Seq<bool>,
    path: Seq<char>,
)
    requires
        changes.len() == present.len(),
    ensures
        planned(changes, present).contains(path) <==> exists|i: int|
            0 <= i < changes.len() && (#[trigger] changes[i]).path@ == path && to_backfill(
                path,
                present[i],
            ),
    decreases changes.len(),
{
    if changes.len() > 0 {
        let c = changes.drop_last();
        let p = present.drop_last();
        law_missing_notes_are_planned(c, p, path);
        let head = planned(c, p);
        let all = planned(changes, present);
        let n = changes.len() - 1;
        if all.contains(path) {
            let k = choose|k: int| 0 <= k < all.len() && all[k] == path;
            if k < head.len() {
                assert(head[k] == path);
                let i = choose|i: int|
                    0 <= i < c.len() && (#[trigger] c[i]).path@ == path && to_backfill(path, p[i]);
                assert(changes[i].path@ == path && to_backfill(path, present[i]));
            } else {
                assert(changes[n].path@ == path);
            }
        }
        if exists|i: int|
            0 <= i < changes.len() && (#[trigger] changes[i]).path@ == path && to_backfill(
                path,
                present[i],
            ) {
            let i = choose|i: int|
                0 <= i < changes.len() && (#[trigger] changes[i]).path@ == path && to_backfill(
                    path,
                    present[i],
                );
            if i == n {
                assert(all.last() == path);
                assert(all[all.len() - 1] == path);
            } else {
                assert(c[i].path@ == path && to_backfill(path, p[i]));
                let k = choose|k: int| 0 <= k < head.len() && head[k] == path;
                assert(all[k] == path);
            }
        }
    }
}

/// A page plans exactly the rows whose note is missing and whose path is safe, in
/// the order of the page.
pub proof fn law_page_plans_missing_notes_in_order(
    changes: &[ChangeRow],
    present: &[bool],
    r: Vec<String>,
)
    requires
        call_ensures(plan_page, (changes, present), r),
        changes@.len() == present@.len(),
    ensures
        exists|f: Seq<int>|
            {
                &&& #[trigger] f.len() == r@.len()
                &&& forall|i: int|
                    0 <= i < f.len() ==> {
                        &&& 0 <= #[trigger] f[i] < changes@.len()
                        &&& changes@[f[i]].path@ == r@[i]@
                        &&& !present@[f[i]]
                        &&& scope::safe(changes@[f[i]].path@)
                    }
                &&& forall|i: int, j: int|
                    0 <= i < j < f.len() ==> #[trigger] f[i] < #[trigger] f[j]
                &&& forall|k: int|
                    0 <= k < changes@.len() && !present@[k] && scope::safe(
                        (#[trigger] changes@[k]).path@,
                    ) ==> f.contains(k)
            },
{
    let f = lemma_planned_rows(changes@, present@);
    let v = text::views(r@);
    assert(f.len() == r@.len());
    assert forall|i: int| 0 <= i < f.len() implies {
        &&& 0 <= #[trigger] f[i] < changes@.len()
        &&& changes@[f[i]].path@ == r@[i]@
        &&& !present@[f[i]]
        &&& scope::safe(changes@[f[i]].path@)
    } by {
        assert(v[i] == r@[i]@);
    }
}

proof fn lemma_planned_rows(changes: Seq<ChangeRow>, present: Seq<bool>) -> (f: Seq<int>)
    requires
        changes.len() == present.len(),
    ensures
        f.len() == planned(changes, present).len(),
        forall|i: int|
            0 <= i < f.len() ==> {
                &&& 0 <= #[trigger] f[i] < changes.len()
                &&& changes[f[i]].path@ == planned(changes, present)[i]
                &&& !present[f[i]]
                &&& scope::safe(changes[f[i]].path@)
            },
        forall|i: int, j: int| 0 <= i < j < f.len() ==> #[trigger] f[i] < #[trigger] f[j],
        forall|k: int|
            0 <= k < changes.len() && !present[k] && scope::safe((#[trigger] changes[k]).path@)
                ==> f.contains(k),
    decreases changes.len(),
{
    if changes.len() == 0 {
        Seq::empty()
    } else {
        let c = changes.drop_last();
        let p = present.drop_last();
        let g = lemma_planned_rows(c, p);
        let n = changes.len() - 1;
        assert forall|i: int| 0 <= i < g.len() implies {
            &&& 0 <= #[trigger] g[i] < n
            &&& changes[g[i]].path@ == planned(c, p)[i]
            &&& !present[g[i]]
            &&& scope::safe(changes[g[i]].path@)
        } by {
            assert(c[g[i]] == changes[g[i]]);
        }
        let f = if to_backfill(changes.last().path@, present.last()) {
            g.push(n)
        } else {
            g
        };
        assert forall|k: int|
            0 <= k < changes.len() && !present[k] && scope::safe((#[trigger] changes[k]).path@)
                implies f.contains(k) by {
            if k < n {
                assert(c[k] == changes[k] && p[k] == present[k]);
                assert(g.contains(k));
                let i = choose|i: int| 0 <= i < g.len() && g[i] == k;
                assert(f[i] == k);
            } else {
                assert(f[f.len() - 1] == k);
            }
        }
        f
    }
}

/// A pulled note counts as created where something was written, as refused where
/// it was skipped, and as failed where it could not be fetched, written or
/// verified.
pub proof fn law_outcome_counts(o: Option<MaterializeOutcome>)
    ensures
        pull_count(o) is Failed <==> o is None || o->0 is IntegrityFailed,
        pull_count(o) is Refused <==> o is Some && o->0 is Skipped,
        pull_count(o) is Created <==> o is Some && (o->0 is Wrote || o->0 is Stashed || o->0
            is AlignedToCanonical),
{
}

/// A page moves every counter by what it holds: the rows, those that are there,
/// the notes that were created, and those that failed; what is left was refused.
pub proof fn law_page_is_counted(
    stats: &mut PullBackfillStats,
    changes: &[ChangeRow],
    present: &[bool],
    outcomes: &[Option<MaterializeOutcome>],
)
    requires
        call_ensures(PullBackfillStats::add_page, (stats, changes, present, outcomes), ()),
        changes@.len() == present@.len(),
        outcomes@.len() == planned(changes@, present@).len(),
        old(stats).enumerated + changes@.len() <= usize::MAX,
        old(stats).balanced(),
    ensures
        final(stats).enumerated == old(stats).enumerated + changes@.len(),
        final(stats).already_present == old(stats).already_present + present@.filter(
            |b: bool| b,
        ).len(),
        final(stats).created == old(stats).created + outcomes@.filter(
            |o: Option<MaterializeOutcome>|
                o is Some && (o->0 is Wrote || o->0 is Stashed || o->0 is AlignedToCanonical),
        ).len(),
        final(stats).failed == old(stats).failed + outcomes@.filter(
            |o: Option<MaterializeOutcome>| o is None || o->0 is IntegrityFailed,
        ).len(),
        final(stats).enumerated == final(stats).created + final(stats).already_present + final(stats).refused_or_unsafe + final(stats).failed,
{
    lemma_counts_add_up(outcomes@);
    lemma_page_splits(changes@, present@);
    lemma_present_filter(present@);
    lemma_outcome_filters(outcomes@);
}

proof fn lemma_present_filter(present: Seq<bool>)
    ensures
        count_present(present) == present.filter(|b: bool| b).len(),
    decreases present.len(),
{
    reveal(Seq::filter);
    if present.len() > 0 {
        lemma_present_filter(present.drop_last());
    }
}

proof fn lemma_outcome_filters(outcomes: Seq<Option<MaterializeOutcome>>)
    ensures
        count_of(outcomes, PullCount::Created) == outcomes.filter(
            |o: Option<MaterializeOutcome>|
                o is Some && (o->0 is Wrote || o->0 is Stashed || o->0 is AlignedToCanonical),
        ).len(),
        count_of(outcomes, PullCount::Failed) == outcomes.filter(
            |o: Option<MaterializeOutcome>| o is None || o->0 is IntegrityFailed,
        ).len(),
    decreases outcomes.len(),
{
    reveal(Seq::filter);
    if outcomes.len() > 0 {
        lemma_outcome_filters(outcomes.drop_last());
    }
}

/// The walk goes on from where the page ended, and always forward.
pub proof fn law_walk_goes_forward(since: i64, empty: bool, next: i64, r: Option<i64>)
    requires
        call_ensures(next_since, (since, empty, next), r),
    ensures
        r is Some ==> r->0 == next && r->0 > since && !empty,
        !empty && next > since ==> r is Some,
{
}

/// A pass is due every hour unless the variable sets another time, and is switched
/// off by any value of the other variable.
pub proof fn law_backfill_settings<E: EnvReader>(env: &E, secs: u64, off: bool, n: nat)
    requires
        call_ensures(read_backfill_interval::<E>, (env,), secs),
        call_ensures(is_backfill_disabled::<E>, (env,), off),
        0 < n <= u64::MAX,
    ensures
        env.lookup("VAULT_SYNC_BACKFILL_INTERVAL_SECS"@) is None ==> secs == 3600,
        env.lookup("VAULT_SYNC_BACKFILL_INTERVAL_SECS"@) == Some(crate::numbers::dec_text(n))
            ==> secs == n,
        off <==> env.lookup("VAULT_SYNC_DISABLE_BACKFILL"@) is Some && env.lookup(
            "VAULT_SYNC_DISABLE_BACKFILL"@,
        )->0.len() > 0,
{
    reconciliation::law_written_interval_is_read(n, 3600);
}

/// Where each path is known to be there or not, exactly the missing notes with a
/// safe path are planned.
pub proof fn law_backfill_plans_what_is_missing<F: Fn(&str) -> bool>(
    changes: &[ChangeRow],
    target_exists: F,
    there: spec_fn(Seq<char>) -> bool,
    r: Vec<String>,
    path: Seq<char>,
)
    requires
        call_ensures(plan_backfill::<F>, (changes, target_exists), r),
        forall|s: &str, b: bool| #[trigger]
            call_ensures(target_exists, (s,), b) ==> b == there(s@),
    ensures
        text::views(r@).contains(path) <==> !there(path) && scope::safe(path) && exists|i: int|
            0 <= i < changes@.len() && (#[trigger] changes@[i]).path@ == path,
{
    let present = choose|present: Seq<bool>|
        #![trigger planned(changes@, present)]
        {
            &&& present.len() == changes@.len()
            &&& forall|i: int|
                0 <= i < changes@.len() ==> may_answer(
                    target_exists,
                    (#[trigger] changes@[i]).path@,
                    present[i],
                )
            &&& text::views(r@) == planned(changes@, present)
        };
    assert forall|i: int| 0 <= i < changes@.len() implies present[i] == there(
        (#[trigger] changes@[i]).path@,
    ) by {
        assert(may_answer(target_exists, changes@[i].path@, present[i]));
    }
    law_missing_notes_are_planned(changes@, present, path);
    if exists|i: int| 0 <= i < changes@.len() && (#[trigger] changes@[i]).path@ == path {
        let i = choose|i: int| 0 <= i < changes@.len() && (#[trigger] changes@[i]).path@ == path;
        assert(present[i] == there(path));
    }
}

} // verus!
