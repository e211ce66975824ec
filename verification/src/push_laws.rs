//! What holds of pushes as a whole.

use vstd::prelude::*;

use crate::conflict_breaker::NANOS_PER_SEC;
use crate::digest;
use crate::materializer::{AlignOutcome, NotePayload, StashRequest};
use crate::note_laws;
use crate::path_map::PathMap;
use crate::push_client;
use crate::push_client::{
    AlignSource, AlignTask, ApiError, ErrorStep, EventStart, FailureReason, FileRead, Processed,
    PushClient, PushOutcome, PushRequest, PushResponse, PushStatus, ResponseStep, SkipReason,
    GATE_COOLDOWN_SECS,
};
use crate::push_journal;
use crate::push_journal::{
    EventView, JournalCursor, JournalFile, PushAction, PushEvent, PushJournal,
};
use crate::stores::SyncStores;
use crate::sync_health::SyncHealth;
use crate::sync_shadow;
use crate::text;
use crate::tray_state::TrayState;

verus! {

/// Pauses never get shorter from attempt to attempt, and never longer than the
/// largest.
pub proof fn law_backoff_grows_up_to_the_cap(a: nat, b: nat, initial: nat, max: nat)
    requires
        a <= b,
    ensures
        push_client::backoff(a, initial, max) <= push_client::backoff(b, initial, max) <= max,
        push_client::backoff(0, initial, max) == (if initial < max {
            initial
        } else {
            max
        }),
    decreases b,
{
    vstd::arithmetic::power2::lemma2_to64();
    assert(initial * 1 == initial) by (nonlinear_arith);
    if a < b {
        law_backoff_grows_up_to_the_cap(a, (b - 1) as nat, initial, max);
        vstd::arithmetic::power2::lemma_pow2_unfold(b);
        let p = vstd::arithmetic::power2::pow2((b - 1) as nat);
        assert(initial * p <= initial * (2 * p)) by (nonlinear_arith);
    }
}

/// Below the cap every pause is twice the one before.
pub proof fn law_backoff_doubles(attempt: nat, initial: nat, max: nat)
    requires
        push_client::backoff(attempt + 1, initial, max) < max,
    ensures
        push_client::backoff(attempt + 1, initial, max) == 2 * push_client::backoff(
            attempt,
            initial,
            max,
        ),
{
    vstd::arithmetic::power2::lemma_pow2_unfold(attempt + 1);
    let p = vstd::arithmetic::power2::pow2(attempt);
    assert(initial * (2 * p) == 2 * (initial * p)) by (nonlinear_arith);
}

/// An id that a batch acknowledges belongs to an event of the batch whose outcome
/// is final.
proof fn lemma_final_ids_are_final(batch: Seq<Processed>, id: Seq<char>)
    requires
        push_client::final_ids(batch).contains(id),
    ensures
        exists|i: int|
            0 <= i < batch.len() && (#[trigger] batch[i]).1.0@ == id && push_client::is_final(
                batch[i].2,
            ),
    decreases batch.len(),
{
    if batch.len() > 0 {
        let head = batch.drop_last();
        let n = batch.len() - 1;
        if push_client::is_final(batch.last().2) && batch.last().1.0@ == id {
            assert(batch[n].1.0@ == id);
        } else {
            let ids = push_client::final_ids(batch);
            let k = choose|k: int| 0 <= k < ids.len() && ids[k] == id;
            if push_client::is_final(batch.last().2) {
                assert(k < push_client::final_ids(head).len());
                assert(push_client::final_ids(head)[k] == id);
            }
            assert(push_client::final_ids(head).contains(id));
            lemma_final_ids_are_final(head, id);
            let i = choose|i: int|
                0 <= i < head.len() && (#[trigger] head[i]).1.0@ == id && push_client::is_final(
                    head[i].2,
                );
            assert(batch[i].1.0@ == id && push_client::is_final(batch[i].2));
        }
    }
}

/// A final outcome's id is acknowledged.
proof fn lemma_final_is_acked(batch: Seq<Processed>, i: int)
    requires
        0 <= i < batch.len(),
        push_client::is_final(batch[i].2),
    ensures
        push_client::final_ids(batch).contains(batch[i].1.0@),
    decreases batch.len(),
{
    let ids = push_client::final_ids(batch);
    let head = batch.drop_last();
    if i == batch.len() - 1 {
        assert(ids.last() == batch[i].1.0@);
        assert(ids[ids.len() - 1] == batch[i].1.0@);
    } else {
        lemma_final_is_acked(head, i);
        let hs = push_client::final_ids(head);
        let k = choose|k: int| 0 <= k < hs.len() && hs[k] == head[i].1.0@;
        assert(ids[k] == hs[k]);
    }
}

proof fn lemma_kept_events(events: Seq<EventView>, ids: Seq<Seq<char>>, e: EventView)
    ensures
        push_journal::without_ids(events, ids).contains(e) <==> events.contains(e) && !ids.contains(
            e.id,
        ),
    decreases events.len(),
{
    if events.len() > 0 {
        let rest = events.drop_first();
        lemma_kept_events(rest, ids, e);
        let kept = push_journal::without_ids(rest, ids);
        assert(events =~= seq![events[0]] + rest);
        assert(events.contains(e) <==> events[0] == e || rest.contains(e)) by {
            if events.contains(e) {
                let k = choose|k: int| 0 <= k < events.len() && events[k] == e;
                if k > 0 {
                    assert(rest[k - 1] == e);
                }
            }
            if rest.contains(e) {
                let k = choose|k: int| 0 <= k < rest.len() && rest[k] == e;
                assert(events[k + 1] == e);
            }
        }
        if !ids.contains(events[0].id) {
            let all = seq![events[0]] + kept;
            assert(all.contains(e) <==> events[0] == e || kept.contains(e)) by {
                if all.contains(e) {
                    let k = choose|k: int| 0 <= k < all.len() && all[k] == e;
                    if k > 0 {
                        assert(kept[k - 1] == e);
                    }
                }
                if kept.contains(e) {
                    let k = choose|k: int| 0 <= k < kept.len() && kept[k] == e;
                    assert(all[k + 1] == e);
                }
                assert(all[0] == events[0]);
            }
        }
    }
}

/// No edit is dropped: an event leaves the journal exactly where some event of the
/// batch with its id came to a final outcome. One whose push may still succeed
/// stays, as does one that was not in the batch.
pub proof fn law_only_final_events_leave(live: Seq<EventView>, batch: Seq<Processed>, e: EventView)
    requires
        live.contains(e),
    ensures
        push_journal::without_ids(live, push_client::final_ids(batch)).contains(e) <==> (forall|
            i: int,
        |
            0 <= i < batch.len() && (#[trigger] batch[i]).1.0@ == e.id ==> !push_client::is_final(
                batch[i].2,
            )),
{
    let ids = push_client::final_ids(batch);
    lemma_kept_events(live, ids, e);
    if ids.contains(e.id) {
        lemma_final_ids_are_final(batch, e.id);
    }
    assert forall|i: int|
        0 <= i < batch.len() && (#[trigger] batch[i]).1.0@ == e.id && push_client::is_final(
            batch[i].2,
        ) implies ids.contains(e.id) by {
        lemma_final_is_acked(batch, i);
    }
}

/// An accepted push is the base of the next one: its path's last-synced hash is
/// the hash that the server stored, and the version to declare is the server's.
pub proof fn law_accepted_push_is_the_next_base(
    before: SyncStores,
    after: SyncStores,
    path: Seq<char>,
    action: PushAction,
    drained: Seq<char>,
    resp: PushResponse,
)
    requires
        push_client::ack_recorded(before, after, path, action, drained, resp),
        resp.status is Accepted,
        action !is Delete,
        !push_client::must_align(action, drained, resp),
    ensures
        before.shadow is Some ==> after.synced_hash(path) == Some(
            match (resp.server_hash, resp.content_hash) {
                (Some(h), _) => drained,
                (None, Some(h)) => h@,
                (None, None) => drained,
            },
        ),
        before.base_seq is Some && resp.server_seq is Some ==> after.declared_seq(path)
            == resp.server_seq && after.adopted_seq(path) == resp.server_seq,
{
}

/// An accepted delete leaves no version behind: a new note at the path starts
/// without one.
pub proof fn law_accepted_delete_forgets_the_version(
    before: SyncStores,
    after: SyncStores,
    path: Seq<char>,
    drained: Seq<char>,
    resp: PushResponse,
)
    requires
        push_client::ack_recorded(before, after, path, PushAction::Delete, drained, resp),
        resp.status is Accepted,
    ensures
        after.declared_seq(path) is None,
{
}

/// A merged push adopts no version, since the merged bytes are not on this disk,
/// and one that ended in conflict markers or an error records nothing.
pub proof fn law_unclean_answers_adopt_nothing(
    before: SyncStores,
    after: SyncStores,
    path: Seq<char>,
    action: PushAction,
    drained: Seq<char>,
    resp: PushResponse,
)
    requires
        push_client::ack_recorded(before, after, path, action, drained, resp),
        resp.status !is Accepted,
    ensures
        after.base_seq == before.base_seq,
        resp.status !is Merged ==> after == before,
{
}

/// Once the server has asked for a newer daemon nothing is drained until the
/// cooldown is over; after that the server does not stop it any more.
pub proof fn law_gate_holds_for_the_cooldown(
    client: PushClient,
    st: SyncStores,
    now: u128,
    at: u128,
)
    requires
        client.gate_cooldown_until == Some(push_client::later(now, GATE_COOLDOWN_SECS)),
        now + GATE_COOLDOWN_SECS * NANOS_PER_SEC <= u128::MAX,
        !st.scope_suspect(),
    ensures
        client.stands_down(st, at) <==> at < now + GATE_COOLDOWN_SECS * NANOS_PER_SEC,
{
}

/// A client whose sync history cannot be read drains nothing, whatever the time.
pub proof fn law_suspect_history_parks_pushes(client: PushClient, st: SyncStores, at: u128)
    requires
        st.scope_suspect(),
    ensures
        client.stands_down(st, at),
{
}

/// Whether a path may be pushed does not depend on the case of its letters.
pub proof fn law_extension_ignores_case(a: Seq<char>, b: Seq<char>, allowed: Seq<Seq<char>>)
    requires
        text::ascii_lower_seq(a) == text::ascii_lower_seq(b),
    ensures
        push_client::extension_allowed(a, allowed) == push_client::extension_allowed(b, allowed),
        push_client::reported_extension(a) == push_client::reported_extension(b),
{
}

/// Every event of a batch has exactly one place in the chains, so that sending each
/// chain to its end gives each event exactly one outcome.
pub proof fn law_chains_place_each_event_once(
    paths: Seq<Seq<char>>,
    n: int,
    chains: Seq<Vec<usize>>,
    i: int,
)
    requires
        push_client::routes(paths, n, chains),
        0 <= i < n,
    ensures
        push_client::is_placed(chains, i),
        forall|c: int, k: int, d: int, l: int|
            #![trigger push_client::is_place(chains, c, k), push_client::is_place(chains, d, l)]
            push_client::is_place(chains, c, k) && push_client::is_place(chains, d, l)
                && push_client::at(chains, c, k) == i && push_client::at(chains, d, l) == i ==> c
                == d && k == l,
{
    assert forall|c: int, k: int, d: int, l: int|
        #![trigger push_client::is_place(chains, c, k), push_client::is_place(chains, d, l)]
        push_client::is_place(chains, c, k) && push_client::is_place(chains, d, l)
            && push_client::at(chains, c, k) == i && push_client::at(chains, d, l)
            == i implies c == d && k == l by {
        assert(paths[push_client::at(chains, c, k) as int] == paths[push_client::at(
            chains,
            d,
            l,
        ) as int]);
        if k < l {
            assert(push_client::at(chains, c, k) < push_client::at(chains, c, l));
        } else if l < k {
            assert(push_client::at(chains, c, l) < push_client::at(chains, c, k));
        }
    }
}

proof fn lemma_base64_digits(m: int, n: int)
    requires
        0 <= m < 64,
        0 <= n < 64,
    ensures
        push_client::base64_digit(m) == push_client::base64_digit(n) ==> m == n,
        push_client::base64_digit(m) != '=',
{
    let d = push_client::base64_digit(m) as int;
    let e = push_client::base64_digit(n) as int;
    assert(m < 26 ==> d == 65 + m);
    assert(26 <= m < 52 ==> d == 71 + m);
    assert(52 <= m < 62 ==> d == m - 4);
    assert(n < 26 ==> e == 65 + n);
    assert(26 <= n < 52 ==> e == 71 + n);
    assert(52 <= n < 62 ==> e == n - 4);
}

/// No two contents are sent as one text.
pub proof fn law_base64_is_injective(a: Seq<u8>, b: Seq<u8>)
    requires
        push_client::base64_text(a) == push_client::base64_text(b),
    ensures
        a == b,
    decreases a.len(),
{
    let s = push_client::base64_text(a);
    let t = push_client::base64_text(b);
    let (a0, a1, a2) = (a[0] as int, a[1] as int, a[2] as int);
    let (b0, b1, b2) = (b[0] as int, b[1] as int, b[2] as int);
    if a.len() == 0 || b.len() == 0 {
        assert(s.len() == 0 <==> a.len() == 0);
        assert(t.len() == 0 <==> b.len() == 0);
        assert(a =~= b);
    } else {
        assert(s[0] == t[0] && s[1] == t[1] && s[2] == t[2] && s[3] == t[3]);
        // The second, third and fourth digit of the first group, on either side.
        let p = |x: Seq<u8>|
            if x.len() == 1 {
                x[0] as int % 4 * 16
            } else {
                x[0] as int % 4 * 16 + x[1] as int / 16
            };
        let q = |x: Seq<u8>|
            if x.len() == 2 {
                x[1] as int % 16 * 4
            } else {
                x[1] as int % 16 * 4 + x[2] as int / 64
            };
        lemma_base64_digits(a0 / 4, b0 / 4);
        lemma_base64_digits(p(a), p(b));
        assert(s[1] == push_client::base64_digit(p(a)));
        assert(t[1] == push_client::base64_digit(p(b)));
        if a.len() > 1 {
            lemma_base64_digits(q(a), 0);
            assert(s[2] == push_client::base64_digit(q(a)));
        }
        if b.len() > 1 {
            lemma_base64_digits(q(b), 0);
            assert(t[2] == push_client::base64_digit(q(b)));
        }
        assert(a.len() == 1 <==> b.len() == 1);
        if a.len() == 1 {
            assert(a =~= b);
        } else {
            lemma_base64_digits(q(a), q(b));
            if a.len() > 2 {
                lemma_base64_digits(a2 % 64, 0);
                assert(s[3] == push_client::base64_digit(a2 % 64));
            }
            if b.len() > 2 {
                lemma_base64_digits(b2 % 64, 0);
                assert(t[3] == push_client::base64_digit(b2 % 64));
            }
            assert(a.len() == 2 <==> b.len() == 2);
            if a.len() == 2 {
                assert(a =~= b);
            } else {
                lemma_base64_digits(a2 % 64, b2 % 64);
                let ra = a.subrange(3, a.len() as int);
                let rb = b.subrange(3, b.len() as int);
                assert(push_client::base64_text(ra) =~= s.subrange(4, s.len() as int));
                assert(push_client::base64_text(rb) =~= t.subrange(4, t.len() as int));
                law_base64_is_injective(ra, rb);
                assert forall|i: int| 0 <= i < a.len() implies a[i] == b[i] by {
                    if i >= 3 {
                        assert(ra[i - 3] == a[i]);
                        assert(rb[i - 3] == b[i]);
                    }
                }
                assert(a =~= b);
            }
        }
    }
}

// ---------------------------------------------------------------------------
// What leaves the journal
// ---------------------------------------------------------------------------

/// The push may still succeed: the server could not be reached, or wants a newer
/// daemon first.
pub open spec fn may_still_succeed(o: PushOutcome) -> bool {
    ||| o matches PushOutcome::Failed(FailureReason::NetworkExhausted { last_error: _ })
    ||| o matches PushOutcome::Failed(FailureReason::UpgradeRequired { detail: _ })
}

/// A queued event stays in the journal exactly where every outcome that the batch
/// has for it leaves hope. Every event that was sent, merged, stored with conflict
/// markers, skipped, or refused for good leaves it.
pub proof fn law_settled_events_leave(
    st: &mut SyncStores,
    journal: &mut PushJournal,
    file: &JournalFile,
    batch: Vec<Processed>,
    at: i64,
    r: (Option<Vec<PushEvent>>, Vec<(PushEvent, PushOutcome)>),
    e: EventView,
)
    requires
        call_ensures(PushClient::settle, (st, journal, file, batch, at), r),
        push_journal::live(file.lines@).contains(e),
    ensures
        (match r.0 {
            Some(kept) => exists|k: int| 0 <= k < kept@.len() && (#[trigger] kept@[k])@ == e,
            None => true,
        }) <==> (forall|i: int|
            0 <= i < batch@.len() && (#[trigger] batch@[i]).1.0@ == e.id ==> may_still_succeed(
                batch@[i].2,
            )),
        r.1@.len() == batch@.len(),
        forall|i: int|
            0 <= i < batch@.len() ==> (#[trigger] r.1@[i]).0@ == batch@[i].0@ && r.1@[i].1
                == batch@[i].2,
{
    let live = push_journal::live(file.lines@);
    let ids = push_client::final_ids(batch@);
    law_only_final_events_leave(live, batch@, e);
    lemma_kept_events(live, ids, e);
    assert forall|o: PushOutcome| #[trigger] push_client::is_final(o) <==> !may_still_succeed(
        o,
    ) by {}
    match r.0 {
        Some(kept) => {
            let views = push_journal::event_views(kept@);
            if views.contains(e) {
                let k = choose|k: int| 0 <= k < views.len() && views[k] == e;
                assert(kept@[k]@ == e);
            }
            assert forall|k: int| 0 <= k < kept@.len() && (#[trigger] kept@[k])@ == e implies
                views.contains(e) by {
                assert(views[k] == e);
            }
        },
        None => {
            assert(!ids.contains(e.id)) by {
                let k = choose|k: int| 0 <= k < live.len() && live[k] == e;
                if ids.contains(e.id) {
                    assert(ids.contains(live[k].id));
                    assert(push_journal::any_listed(live, ids));
                }
            }
        },
    }
}

/// What stays in the journal was there before, and in the same order.
pub proof fn law_settling_adds_nothing(
    st: &mut SyncStores,
    journal: &mut PushJournal,
    file: &JournalFile,
    batch: Vec<Processed>,
    at: i64,
    r: (Option<Vec<PushEvent>>, Vec<(PushEvent, PushOutcome)>),
)
    requires
        call_ensures(PushClient::settle, (st, journal, file, batch, at), r),
        r.0 is Some,
    ensures
        exists|f: Seq<int>|
            {
                &&& #[trigger] f.len() == r.0->0@.len()
                &&& forall|i: int|
                    0 <= i < f.len() ==> 0 <= #[trigger] f[i] < push_journal::live(
                        file.lines@,
                    ).len() && push_journal::live(file.lines@)[f[i]] == r.0->0@[i]@
                &&& forall|i: int, j: int|
                    0 <= i < j < f.len() ==> #[trigger] f[i] < #[trigger] f[j]
            },
{
    let live = push_journal::live(file.lines@);
    let ids = push_client::final_ids(batch@);
    let f = lemma_kept_in_order(live, ids);
    let kept = push_journal::event_views(r.0->0@);
    assert(kept.len() == r.0->0@.len());
    assert forall|i: int| 0 <= i < f.len() implies 0 <= #[trigger] f[i] < live.len() && live[f[i]]
        == r.0->0@[i]@ by {
        assert(kept[i] == r.0->0@[i]@);
    }
    assert(f.len() == r.0->0@.len());
}

proof fn lemma_kept_in_order(events: Seq<EventView>, ids: Seq<Seq<char>>) -> (f: Seq<int>)
    ensures
        f.len() == push_journal::without_ids(events, ids).len(),
        forall|i: int|
            0 <= i < f.len() ==> 0 <= #[trigger] f[i] < events.len() && events[f[i]]
                == push_journal::without_ids(events, ids)[i],
        forall|i: int, j: int| 0 <= i < j < f.len() ==> #[trigger] f[i] < #[trigger] f[j],
    decreases events.len(),
{
    if events.len() == 0 {
        Seq::empty()
    } else {
        let rest = events.drop_first();
        let g = lemma_kept_in_order(rest, ids);
        let kept = push_journal::without_ids(rest, ids);
        let up = Seq::new(g.len(), |i: int| g[i] + 1);
        assert forall|i: int| 0 <= i < up.len() implies 0 < #[trigger] up[i] < events.len()
            && events[up[i]] == kept[i] by {
            assert(rest[g[i]] == kept[i]);
        }
        assert forall|i: int, j: int| 0 <= i < j < up.len() implies #[trigger] up[i]
            < #[trigger] up[j] by {
            assert(g[i] < g[j]);
        }
        if ids.contains(events[0].id) {
            up
        } else {
            let f = seq![0int] + up;
            let all = seq![events[0]] + kept;
            assert forall|i: int| 0 <= i < f.len() implies 0 <= #[trigger] f[i] < events.len()
                && events[f[i]] == all[i] by {
                if i > 0 {
                    assert(f[i] == up[i - 1]);
                }
            }
            assert forall|i: int, j: int| 0 <= i < j < f.len() implies #[trigger] f[i]
                < #[trigger] f[j] by {
                assert(f[j] == up[j - 1]);
                if i > 0 {
                    assert(f[i] == up[i - 1]);
                }
            }
            f
        }
    }
}

/// How many outcomes of a batch are of a kind.
pub open spec fn how_many(batch: Seq<Processed>, kind: spec_fn(PushOutcome) -> bool) -> nat
    decreases batch.len(),
{
    if batch.len() == 0 {
        0
    } else {
        how_many(batch.drop_last(), kind) + (if kind(batch.last().2) {
            1nat
        } else {
            0nat
        })
    }
}

/// The tray counts the accepted pushes of a batch and those that may still succeed,
/// and nothing else of it changes but the time of the last accepted one.
pub proof fn law_tray_counts_sent_and_failed(t: TrayState, batch: Seq<Processed>, at: i64)
    ensures
        ({
            let sent = how_many(batch, |o: PushOutcome| o is Sent);
            let failed = how_many(batch, |o: PushOutcome| may_still_succeed(o));
            let after = push_client::tallied(t, batch, at);
            &&& t.uploads_sent + sent <= u64::MAX ==> after.uploads_sent == t.uploads_sent + sent
            &&& t.uploads_sent + sent > u64::MAX ==> after.uploads_sent == u64::MAX
            &&& t.uploads_failed + failed <= u64::MAX ==> after.uploads_failed == t.uploads_failed
                + failed
            &&& t.uploads_failed + failed > u64::MAX ==> after.uploads_failed == u64::MAX
            &&& after.uploads_last_at == (if sent > 0 {
                Some(at)
            } else {
                t.uploads_last_at
            })
            &&& after == (TrayState {
                uploads_sent: after.uploads_sent,
                uploads_failed: after.uploads_failed,
                uploads_last_at: after.uploads_last_at,
                ..t
            })
        }),
    decreases batch.len(),
{
    if batch.len() > 0 {
        law_tray_counts_sent_and_failed(t, batch.drop_last(), at);
    }
}

// ---------------------------------------------------------------------------
// What is worth queueing
// ---------------------------------------------------------------------------

/// The characters are the same but for the case of an ASCII letter.
pub open spec fn same_letter(a: char, b: char) -> bool {
    ||| a == b
    ||| 'A' <= a <= 'Z' && b as int == a as int + 32
    ||| 'A' <= b <= 'Z' && a as int == b as int + 32
}

/// `path` ends in `ext`, whatever the case of ASCII letters.
pub open spec fn ends_in(path: Seq<char>, ext: Seq<char>) -> bool {
    &&& ext.len() <= path.len()
    &&& forall|i: int|
        0 <= i < ext.len() ==> same_letter(#[trigger] ext[i], path[path.len() - ext.len() + i])
}

proof fn lemma_same_letter(a: char, b: char)
    ensures
        same_letter(a, b) <==> text::ascii_lower(a) == text::ascii_lower(b),
{
    if 'A' <= a <= 'Z' {
        assert(text::ascii_lower(a) as int == a as int + 32);
    }
    if 'A' <= b <= 'Z' {
        assert(text::ascii_lower(b) as int == b as int + 32);
    }
}

proof fn lemma_ends_in(path: Seq<char>, ext: Seq<char>)
    ensures
        ends_in(path, ext) <==> text::is_suffix(
            text::ascii_lower_seq(ext),
            text::ascii_lower_seq(path),
        ),
{
    let p = text::ascii_lower_seq(path);
    let e = text::ascii_lower_seq(ext);
    if ext.len() <= path.len() {
        let d = path.len() - ext.len();
        let tail = p.subrange(d as int, p.len() as int);
        assert forall|i: int| 0 <= i < ext.len() implies (same_letter(
            #[trigger] ext[i],
            path[d + i],
        ) <==> tail[i] == e[i]) by {
            lemma_same_letter(ext[i], path[d + i]);
        }
        if ends_in(path, ext) {
            assert(tail =~= e);
        }
        if text::is_suffix(e, p) {
            assert forall|i: int| 0 <= i < ext.len() implies same_letter(
                #[trigger] ext[i],
                path[path.len() - ext.len() + i],
            ) by {
                assert(tail[i] == e[i]);
            }
        }
    }
}

/// A path is refused exactly where it ends in none of the listed extensions, and
/// the refusal names what follows its last dot.
pub proof fn law_extension_gate(path: &str, allowed: &[String], r: Option<SkipReason>)
    requires
        call_ensures(push_client::check_extension, (path, allowed), r),
    ensures
        r is None <==> exists|k: int|
            0 <= k < allowed@.len() && ends_in(path@, (#[trigger] allowed@[k])@),
        match r {
            None => true,
            Some(SkipReason::ExtensionFiltered { ext }) => {
                &&& !path@.contains('.') ==> ext@ == "<none>"@
                &&& forall|d: int|
                    #![trigger path@[d]]
                    0 <= d < path@.len() && path@[d] == '.' && !path@.subrange(
                        d + 1,
                        path@.len() as int,
                    ).contains('.') ==> ext@.len() == path@.len() - d && forall|i: int|
                        0 <= i < ext@.len() ==> #[trigger] ext@[i] == text::ascii_lower(
                            path@[d + i],
                        )
            },
            Some(_) => false,
        },
{
    reveal_strlit(".");
    let names = text::views(allowed@);
    assert forall|k: int| 0 <= k < allowed@.len() implies (ends_in(path@, (#[trigger] allowed@[k])@)
        <==> text::is_suffix(
        text::ascii_lower_seq(names[k]),
        text::ascii_lower_seq(path@),
    )) by {
        lemma_ends_in(path@, allowed@[k]@);
    }
    if push_client::extension_allowed(path@, names) {
        let k = choose|k: int|
            0 <= k < names.len() && text::is_suffix(
                text::ascii_lower_seq(#[trigger] names[k]),
                text::ascii_lower_seq(path@),
            );
        assert(ends_in(path@, allowed@[k]@));
    }
    assert forall|k: int| 0 <= k < allowed@.len() && ends_in(path@, (#[trigger] allowed@[k])@)
        implies push_client::extension_allowed(path@, names) by {
        assert(names[k] == allowed@[k]@);
    }
    let low = text::ascii_lower_seq(path@);
    low.index_of_last_ensures('.');
    assert forall|i: int| 0 <= i < low.len() implies (#[trigger] low[i] == '.' <==> path@[i]
        == '.') by {
        lemma_same_letter(path@[i], '.');
    }
    if !path@.contains('.') {
        if low.contains('.') {
            let i = choose|i: int| 0 <= i < low.len() && low[i] == '.';
            assert(path@.contains('.'));
        }
    }
    if let Some(SkipReason::ExtensionFiltered { ext }) = r {
        assert forall|d: int|
            #![trigger path@[d]]
            0 <= d < path@.len() && path@[d] == '.' && !path@.subrange(
                d + 1,
                path@.len() as int,
            ).contains('.') implies ext@.len() == path@.len() - d && forall|i: int|
            0 <= i < ext@.len() ==> #[trigger] ext@[i] == text::ascii_lower(path@[d + i]) by {
            assert(low[d] == '.');
            assert(low.contains('.'));
            let k = low.index_of_last('.')->0;
            assert(path@[k] == '.');
            if d < k {
                assert(path@.subrange(d + 1, path@.len() as int)[k - d - 1] == '.');
            }
            assert(d == k);
            assert(ext@ =~= "."@ + low.subrange(k + 1, low.len() as int));
            lemma_same_letter('.', '.');
        }
    }
}

/// A change is queued exactly where its path may be pushed, there is something in
/// it, and it is not what the server has: a note without listed fields is compared
/// by the hash of its own bytes.
pub proof fn law_unchanged_note_is_not_queued(
    client: PushClient,
    path: &str,
    bytes: &[u8],
    hash: Option<&str>,
    ls: Seq<Seq<char>>,
    body: Seq<char>,
    r: Option<SkipReason>,
)
    requires
        call_ensures(PushClient::pre_journal_filter, (&client, path, bytes, hash), r),
        note_laws::block_lines(ls),
        ls.len() > 0,
        forall|i: int|
            0 <= i < ls.len() && !note_laws::is_indented(#[trigger] ls[i])
                ==> !note_laws::has_listed_key(
                ls[i],
                text::views(client.config.strip_frontmatter_fields_for_diff@),
            ),
        bytes@ == vstd::utf8::encode_utf8(note_laws::note(ls, seq!['\n'], body)),
        exists|k: int|
            0 <= k < client.config.allowed_extensions@.len() && ends_in(
                path@,
                (#[trigger] client.config.allowed_extensions@[k])@,
            ),
    ensures
        match r {
            Some(SkipReason::IdenticalToServer { hash: h }) => hash is Some && hash->0@
                == digest::content_hash(bytes@) && h@ == digest::content_hash(bytes@),
            None => hash is None || hash->0@ != digest::content_hash(bytes@),
            Some(_) => false,
        },
{
    let fields = client.fields();
    let s = note_laws::note(ls, seq!['\n'], body);
    note_laws::law_outgoing_note_without_listed_fields_is_itself(ls, body, fields);
    note_laws::law_bytes_stand_for_their_text(bytes@, s, fields);
    let names = text::views(client.config.allowed_extensions@);
    let k = choose|k: int|
        0 <= k < client.config.allowed_extensions@.len() && ends_in(
            path@,
            (#[trigger] client.config.allowed_extensions@[k])@,
        );
    lemma_ends_in(path@, client.config.allowed_extensions@[k]@);
    assert(names[k] == client.config.allowed_extensions@[k]@);
    assert(client.pushable(path@));
    assert(bytes@.len() > 0) by {
        if bytes@.len() == 0 {
            vstd::utf8::encode_utf8_decode_utf8(s);
            vstd::utf8::encode_utf8_decode_utf8(Seq::empty());
            assert(vstd::utf8::encode_utf8(Seq::empty()) =~= bytes@);
            assert(s.len() > 0);
        }
    }
}

/// A listed field alone is no change: two notes with the same body and the same
/// other fields meet the same verdict.
pub proof fn law_listed_field_is_no_change(
    client: PushClient,
    path: &str,
    a: &[u8],
    b: &[u8],
    hash: Option<&str>,
    x: Seq<Seq<char>>,
    y: Seq<Seq<char>>,
    body: Seq<char>,
    r: Option<SkipReason>,
    q: Option<SkipReason>,
)
    requires
        call_ensures(PushClient::pre_journal_filter, (&client, path, a, hash), r),
        call_ensures(PushClient::pre_journal_filter, (&client, path, b, hash), q),
        note_laws::block_lines(x),
        note_laws::block_lines(y),
        note_laws::remainder(
            x,
            text::views(client.config.strip_frontmatter_fields_for_diff@),
        ) == note_laws::remainder(
            y,
            text::views(client.config.strip_frontmatter_fields_for_diff@),
        ),
        a@ == vstd::utf8::encode_utf8(note_laws::note(x, seq!['\n'], body)),
        b@ == vstd::utf8::encode_utf8(note_laws::note(y, seq!['\n'], body)),
        a@.len() > 0,
        b@.len() > 0,
    ensures
        r is None <==> q is None,
        (r matches Some(SkipReason::IdenticalToServer { hash: _ })) <==> (q matches Some(
            SkipReason::IdenticalToServer { hash: _ },
        )),
{
    let fields = client.fields();
    let s = note_laws::note(x, seq!['\n'], body);
    let t = note_laws::note(y, seq!['\n'], body);
    note_laws::law_outgoing_drops_listed_fields_only(x, body, fields);
    note_laws::law_outgoing_drops_listed_fields_only(y, body, fields);
    note_laws::law_bytes_stand_for_their_text(a@, s, fields);
    note_laws::law_bytes_stand_for_their_text(b@, t, fields);
}

/// An empty file and a path with another extension are never queued.
pub proof fn law_empty_or_foreign_file_is_not_queued(
    client: PushClient,
    path: &str,
    bytes: &[u8],
    hash: Option<&str>,
    r: Option<SkipReason>,
)
    requires
        call_ensures(PushClient::pre_journal_filter, (&client, path, bytes, hash), r),
    ensures
        bytes@.len() == 0 ==> r is Some,
        (r matches Some(SkipReason::ExtensionFiltered { ext: _ })) <==> !exists|k: int|
            0 <= k < client.config.allowed_extensions@.len() && ends_in(
                path@,
                (#[trigger] client.config.allowed_extensions@[k])@,
            ),
        r == Some(SkipReason::EmptyContent) ==> bytes@.len() == 0,
        r is None && hash is None ==> bytes@.len() > 0,
        bytes@.len() > 0 && hash is None && (exists|k: int|
            0 <= k < client.config.allowed_extensions@.len() && ends_in(
                path@,
                (#[trigger] client.config.allowed_extensions@[k])@,
            )) ==> r is None,
{
    let exts = client.config.allowed_extensions@;
    let names = text::views(exts);
    assert forall|k: int| 0 <= k < exts.len() implies (ends_in(path@, (#[trigger] exts[k])@)
        <==> text::is_suffix(
        text::ascii_lower_seq(names[k]),
        text::ascii_lower_seq(path@),
    )) by {
        lemma_ends_in(path@, exts[k]@);
    }
    if client.pushable(path@) {
        let k = choose|k: int|
            0 <= k < names.len() && text::is_suffix(
                text::ascii_lower_seq(#[trigger] names[k]),
                text::ascii_lower_seq(path@),
            );
        assert(ends_in(path@, exts[k]@));
    }
    assert forall|k: int| 0 <= k < exts.len() && ends_in(path@, (#[trigger] exts[k])@)
        implies client.pushable(path@) by {
        assert(names[k] == exts[k]@);
    }
}

/// Every pause is twice the one before, or the largest where that is less.
pub proof fn law_next_backoff(attempt: nat, initial: nat, max: nat)
    ensures
        push_client::backoff(attempt + 1, initial, max) == (if 2 * push_client::backoff(
            attempt,
            initial,
            max,
        ) < max {
            2 * push_client::backoff(attempt, initial, max)
        } else {
            max
        }),
        push_client::backoff(0, initial, max) == (if initial < max {
            initial
        } else {
            max
        }),
{
    vstd::arithmetic::power2::lemma2_to64();
    assert(initial * 1 == initial) by (nonlinear_arith);
    vstd::arithmetic::power2::lemma_pow2_unfold(attempt + 1);
    let p = vstd::arithmetic::power2::pow2(attempt);
    assert(initial * (2 * p) == 2 * (initial * p)) by (nonlinear_arith);
}

// ---------------------------------------------------------------------------
// What an answer comes to
// ---------------------------------------------------------------------------

/// The outcome says what the server said: accepted pushes are sent, merged ones
/// carry the merged text, those with conflict markers the marked text, and an
/// error may be tried again.
pub proof fn law_outcome_follows_the_status(resp: PushResponse, r: PushOutcome)
    requires
        call_ensures(push_client::map_response, (resp,), r),
    ensures
        r is Sent <==> resp.status is Accepted,
        r is Merged <==> resp.status is Merged,
        r is ConflictMarkers <==> resp.status is ConflictMarkers,
        may_still_succeed(r) <==> resp.status is Error,
        match r {
            PushOutcome::Sent { seq, content_hash } => {
                &&& resp.seq is Some ==> seq == resp.seq->0
                &&& resp.seq is None ==> seq == 0
                &&& resp.content_hash is Some ==> content_hash@ == resp.content_hash->0@
                &&& resp.content_hash is None ==> content_hash@.len() == 0
            },
            PushOutcome::Merged { merged_content } => {
                &&& resp.merged_content is Some ==> merged_content@ == resp.merged_content->0@
                &&& resp.merged_content is None ==> merged_content@.len() == 0
            },
            PushOutcome::ConflictMarkers { merged_content } => {
                &&& resp.merged_content is Some ==> merged_content@ == resp.merged_content->0@
                &&& resp.merged_content is None ==> merged_content@.len() == 0
            },
            PushOutcome::Failed(FailureReason::NetworkExhausted { last_error }) =>
                resp.message is Some ==> last_error@ == resp.message->0@,
            _ => false,
        },
{
}

/// What is recorded of an answered push is the hash that the server reports as
/// stored; where it reports none, the hash of what was sent. Nothing is recorded
/// where the server stored nothing clean.
pub proof fn law_recorded_hash_is_the_server_s(
    status: PushStatus,
    local_sha: &str,
    server_hash: &Option<String>,
    content_hash: &Option<String>,
    r: Option<String>,
)
    requires
        call_ensures(
            push_client::shadow_hash_for_ack,
            (status, local_sha, server_hash, content_hash),
            r,
        ),
    ensures
        r is None <==> status is ConflictMarkers || status is Error,
        r is Some && server_hash is Some ==> r->0@ == server_hash->0@,
        r is Some && server_hash is None && content_hash is Some ==> r->0@ == content_hash->0@,
        r is Some && server_hash is None && content_hash is None ==> r->0@ == local_sha@,
{
}

/// An answer moves the records of its own path alone. After an accepted push of the
/// bytes that the server has now, the path's hash is that of those bytes and its
/// version the server's; where the server stored other bytes, nothing is recorded
/// until the local file follows.
pub proof fn law_answer_is_recorded(
    st: &mut SyncStores,
    evt: &PushEvent,
    drained_sha: &str,
    resp: PushResponse,
    r: ResponseStep,
    other: Seq<char>,
)
    requires
        call_ensures(PushClient::on_response, (st, evt, drained_sha, resp), r),
        old(st).shadow is Some,
        old(st).base_seq is Some,
    ensures
        ({
            let differs = resp.server_hash is Some && resp.server_hash->0@ != drained_sha@;
            let follow = resp.status is Accepted && evt.action !is Delete && differs;
            let path = evt.path@;
            &&& r.align is Some <==> follow
            &&& follow ==> {
                &&& *final(st) == *old(st)
                &&& r.align->0.server_hash@ == resp.server_hash->0@
                &&& r.align->0.server_seq == resp.server_seq
            }
            &&& resp.status is Accepted && !follow ==> {
                &&& resp.server_hash is Some ==> final(st).synced_hash(path)
                    == Some(resp.server_hash->0@)
                &&& resp.server_hash is None && resp.content_hash is None ==> final(st).synced_hash(
                    path,
                ) == Some(drained_sha@)
                &&& evt.action is Delete ==> final(st).declared_seq(path) is None
                &&& evt.action !is Delete && resp.server_seq is Some ==> final(st).declared_seq(
                    path,
                ) == resp.server_seq && final(st).adopted_seq(path) == resp.server_seq
                &&& evt.action !is Delete && resp.server_seq is None ==> final(st).declared_seq(
                    path,
                ) == old(st).declared_seq(path)
            }
            &&& resp.status is Merged ==> {
                &&& resp.server_hash is Some ==> final(st).synced_hash(path)
                    == Some(resp.server_hash->0@)
                &&& final(st).declared_seq(path) == old(st).declared_seq(path)
                &&& final(st).adopted_seq(path) == old(st).adopted_seq(path)
            }
            &&& resp.status is ConflictMarkers || resp.status is Error ==> {
                &&& final(st).shadow == old(st).shadow
                &&& final(st).base_seq == old(st).base_seq
            }
            &&& sync_shadow::canon_key(old(st).shadow->0.folders(), other)
                != sync_shadow::canon_key(old(st).shadow->0.folders(), path)
                ==> final(st).synced_hash(other) == old(st).synced_hash(other)
            &&& sync_shadow::canon_key(old(st).base_seq->0.folders(), other)
                != sync_shadow::canon_key(old(st).base_seq->0.folders(), path)
                ==> final(st).declared_seq(other) == old(st).declared_seq(other)
        }),
        r.outcome is Sent <==> resp.status is Accepted,
        r.outcome is Merged <==> resp.status is Merged,
        r.outcome is ConflictMarkers <==> resp.status is ConflictMarkers,
        may_still_succeed(r.outcome) <==> resp.status is Error,
{
}

/// A refusal for good ends the event; a lost race sets the bytes aside under their
/// hash; a server that wants a newer daemon stops all draining for a quarter of an
/// hour; anything else is tried again after the pause that is due.
pub proof fn law_what_an_error_comes_to(
    client: &mut PushClient,
    evt: &PushEvent,
    content: &[u8],
    attempt: usize,
    err: ApiError,
    now: u128,
    r: ErrorStep,
)
    requires
        call_ensures(PushClient::on_error, (client, evt, content, attempt, err, now), r),
    ensures
        r == ErrorStep::Done(PushOutcome::Failed(FailureReason::Unauthorized)) <==> err
            is Unauthorized,
        r == ErrorStep::Done(PushOutcome::Failed(FailureReason::Forbidden)) <==> err is Forbidden,
        r is Conflict <==> err is Conflict,
        match r {
            ErrorStep::Conflict { stash, outcome } => {
                &&& outcome matches PushOutcome::Failed(
                    FailureReason::ConflictUnrecoverable { expected_hash },
                ) && expected_hash == err->expected_hash
                &&& stash is Some <==> content@.len() > 0
                &&& stash is Some ==> {
                    &&& stash->0.path@ == evt.path@
                    &&& stash->0.device_id@ == old(client).device_id@
                    &&& stash->0.local_sha@ == digest::content_hash(content@)
                    &&& stash->0.seq == 0
                }
            },
            ErrorStep::Retry { backoff_ms, last_error } => {
                &&& backoff_ms == push_client::backoff(
                    attempt as nat,
                    old(client).config.initial_backoff_ms as nat,
                    old(client).config.max_backoff_ms as nat,
                )
                &&& match err {
                    ApiError::Server { status, message } => status != 400 && status != 422
                        && last_error == message,
                    ApiError::Other { message } => last_error == message,
                    _ => false,
                }
            },
            ErrorStep::Done(_) => true,
        },
        (match err {
            ApiError::Server { status, message: _ } => status == 400 || status == 422,
            _ => false,
        }) <==> (r matches ErrorStep::Done(
            PushOutcome::Skipped(SkipReason::ServerRejected { status }),
        ) && status == err->Server_status),
        err is UpgradeRequired <==> (r matches ErrorStep::Done(
            PushOutcome::Failed(FailureReason::UpgradeRequired { detail }),
        ) && detail == err->detail),
        err is UpgradeRequired && now + 900 * 1_000_000_000 <= u128::MAX
            ==> final(client).gate_cooldown_until == Some((now + 900 * 1_000_000_000) as u128),
        err !is UpgradeRequired ==> *final(client) == *old(client),
        *final(client) == (PushClient {
            gate_cooldown_until: final(client).gate_cooldown_until,
            ..*old(client)
        }),
{
}

/// An event is tried so many times as the settings say, and then it has failed for
/// now.
pub proof fn law_attempts_are_bounded(
    client: PushClient,
    attempt: usize,
    last: Option<String>,
    r: Option<PushOutcome>,
)
    requires
        call_ensures(PushClient::next_attempt, (&client, attempt, last), r),
    ensures
        r is None <==> attempt < client.config.max_retry_attempts,
        r is Some ==> may_still_succeed(r->0),
        r is Some && last is Some ==> (r->0 matches PushOutcome::Failed(
            FailureReason::NetworkExhausted { last_error },
        ) && last_error@ == last->0@),
{
}

/// The request carries the event's path, action and bytes. Its base is the event's
/// own base, or else the hash last synced for the path, and its version is the one
/// that is recorded for the path.
pub proof fn law_request_carries_the_event(
    client: PushClient,
    st: &SyncStores,
    evt: &PushEvent,
    content: &[u8],
    r: PushRequest,
)
    requires
        call_ensures(PushClient::build_request, (&client, st, evt, content), r),
    ensures
        r.device_id@ == client.device_id@,
        r.path@ == evt.path@,
        r.action == evt.action,
        r.content_b64@ == push_client::base64_text(content@),
        r.base_seq == st.declared_seq(evt.path@),
        evt.base_hash is Some ==> r.base_hash@ == evt.base_hash->0@,
        evt.base_hash is None && st.synced_hash(evt.path@) is Some ==> Some(r.base_hash@)
            == st.synced_hash(evt.path@),
        evt.base_hash is None && st.synced_hash(evt.path@) is None ==> r.base_hash@.len() == 0,
{
}

/// An event goes on exactly where its path may be pushed: with the bytes that it
/// carries, without any where it is a delete, and otherwise with those of its file.
pub proof fn law_event_goes_on_with_its_bytes(client: PushClient, evt: &PushEvent, r: EventStart)
    requires
        call_ensures(PushClient::begin_event, (&client, evt), r),
    ensures
        r is Skip <==> !exists|k: int|
            0 <= k < client.config.allowed_extensions@.len() && ends_in(
                evt.path@,
                (#[trigger] client.config.allowed_extensions@[k])@,
            ),
        r !is Skip ==> (r is NeedsFile <==> evt.content_bytes is None && evt.action !is Delete),
        match r {
            EventStart::Ready { content } => {
                &&& evt.content_bytes is Some ==> content@ == evt.content_bytes->0@
                &&& evt.content_bytes is None ==> content@.len() == 0
            },
            EventStart::NeedsFile { path } => {
                evt.path@.len() > 0 && evt.path@[0] != '/' && client.vault_root@.len() > 0
                    && client.vault_root@.last() != '/' ==> path@ == client.vault_root@ + seq!['/']
                    + evt.path@
            },
            EventStart::Skip(_) => true,
        },
{
    let exts = client.config.allowed_extensions@;
    let names = text::views(exts);
    let path = evt.path@;
    assert forall|k: int| 0 <= k < exts.len() implies (ends_in(path, (#[trigger] exts[k])@)
        <==> text::is_suffix(
        text::ascii_lower_seq(names[k]),
        text::ascii_lower_seq(path),
    )) by {
        lemma_ends_in(path, exts[k]@);
    }
    if client.pushable(path) {
        let k = choose|k: int|
            0 <= k < names.len() && text::is_suffix(
                text::ascii_lower_seq(#[trigger] names[k]),
                text::ascii_lower_seq(path),
            );
        assert(ends_in(path, exts[k]@));
    }
    assert forall|k: int| 0 <= k < exts.len() && ends_in(path, (#[trigger] exts[k])@)
        implies client.pushable(path) by {
        assert(names[k] == exts[k]@);
    }
    if let EventStart::NeedsFile { path: p } = r {
        let root = client.vault_root@;
        if path.len() > 0 && path[0] != '/' && root.len() > 0 && root.last() != '/' {
            assert(p@ =~= root + seq!['/'] + path);
        }
    }
}

/// A file that is gone is nothing to push any more; one that cannot be read now may
/// be read later.
pub proof fn law_unreadable_file_is_tried_again(read: FileRead, r: Result<Vec<u8>, PushOutcome>)
    requires
        call_ensures(PushClient::after_read, (read,), r),
    ensures
        read is Bytes <==> r is Ok,
        r is Ok ==> read == FileRead::Bytes(r->Ok_0),
        read is Missing ==> !may_still_succeed(r->Err_0),
        read is Failed ==> may_still_succeed(r->Err_0),
{
}

/// A drain takes the oldest live events of the journal, as many as the settings
/// say, each with a cursor that names it, and nothing while the sync history cannot
/// be read or the server wants a newer daemon.
pub proof fn law_drain_takes_the_oldest(
    client: PushClient,
    st: &SyncStores,
    journal: &mut PushJournal,
    file: &JournalFile,
    now: u128,
    r: Option<Vec<(PushEvent, JournalCursor)>>,
)
    requires
        call_ensures(PushClient::drain_once, (&client, st, journal, file, now), r),
    ensures
        r is None <==> st.scope_suspect() || (client.gate_cooldown_until is Some && now
            < client.gate_cooldown_until->0),
        r is Some ==> {
            let live = push_journal::live(file.lines@);
            &&& r->0@.len() <= client.config.batch_size
            &&& r->0@.len() <= live.len()
            &&& r->0@.len() == live.len() || r->0@.len() == client.config.batch_size
            &&& forall|i: int|
                0 <= i < r->0@.len() ==> (#[trigger] r->0@[i]).0@ == live[i] && r->0@[i].1.0@
                    == live[i].id
        },
{
}

/// Outcomes come back in the order of the batch, each with its own event.
pub proof fn law_outcomes_meet_their_events(
    batch: Vec<(PushEvent, JournalCursor)>,
    done: Vec<(usize, PushOutcome)>,
    r: Option<Vec<Processed>>,
    i: int,
    k: int,
)
    requires
        call_ensures(push_client::in_drain_order, (batch, done), r),
        r is Some,
        0 <= i < batch@.len(),
        0 <= k < done@.len(),
        done@[k].0 == i,
    ensures
        r->0@.len() == batch@.len(),
        r->0@[i].0 == batch@[i].0,
        r->0@[i].1 == batch@[i].1,
        r->0@[i].2 == done@[k].1,
        done@.len() == batch@.len(),
{
    let n = batch@.len();
    let o = r->0@[i].2;
    assert(done@.contains((i as usize, o)));
    let l = choose|l: int| 0 <= l < done@.len() && done@[l] == (i as usize, o);
    if l != k {
        if l < k {
            assert(done@[l].0 != done@[k].0);
        } else {
            assert(done@[k].0 != done@[l].0);
        }
    }
    lemma_each_once_is_as_many(done@, n);
}

proof fn lemma_each_once_is_as_many(done: Seq<(usize, PushOutcome)>, n: nat)
    requires
        push_client::names_each_once(done, n),
    ensures
        done.len() == n,
{
    let idx = done.map_values(|d: (usize, PushOutcome)| d.0 as int);
    assert(idx.no_duplicates()) by {
        assert forall|a: int, b: int| 0 <= a < idx.len() && 0 <= b < idx.len() && a != b implies idx[a]
            != idx[b] by {
            if a < b {
                assert(done[a].0 != done[b].0);
            } else {
                assert(done[b].0 != done[a].0);
            }
        }
    }
    let all = vstd::set_lib::set_int_range(0, n as int);
    vstd::set_lib::lemma_int_range(0, n as int);
    idx.unique_seq_to_set();
    assert(idx.to_set() =~= all) by {
        assert forall|x: int| idx.to_set().contains(x) <==> all.contains(x) by {
            if idx.contains(x) {
                let a = choose|a: int| 0 <= a < idx.len() && idx[a] == x;
                assert(done[a].0 < n);
            }
            if 0 <= x < n {
                assert(push_client::has_outcome(done, x));
                let a = choose|a: int| 0 <= a < done.len() && (#[trigger] done[a]).0 == x;
                assert(idx[a] == x);
            }
        }
    }
}

/// The bytes that the local file is rewritten to always have the hash that the
/// server reports.
pub proof fn law_aligned_bytes_have_the_server_s_hash(
    client: PushClient,
    canonical: Option<Vec<u8>>,
    server_hash: &str,
    r: AlignSource,
)
    requires
        call_ensures(PushClient::align_source, (&client, canonical, server_hash), r),
    ensures
        r is NotWired <==> !client.materializer_wired,
        match r {
            AlignSource::Local { content } => canonical == Some(content) && digest::content_hash(
                content@,
            ) == server_hash@,
            _ => true,
        },
        client.materializer_wired && canonical is Some && digest::content_hash(canonical->0@)
            == server_hash@ ==> r is Local,
{
}

/// A fetched note is taken only where its bytes have the hash that it was announced
/// with.
pub proof fn law_fetched_bytes_have_their_hash(payload: &NotePayload, r: Option<Vec<u8>>)
    requires
        call_ensures(PushClient::fetched_bytes, (payload,), r),
    ensures
        r is Some ==> digest::content_hash(r->0@) == payload.sha256@,
        r is Some && payload.enriched_body is Some ==> r->0@ == vstd::utf8::encode_utf8(
            payload.enriched_body->0@,
        ),
        r is Some && payload.enriched_body is None ==> r->0@ == vstd::utf8::encode_utf8(
            payload.body@,
        ),
        payload.enriched_body is Some && digest::content_hash(
            vstd::utf8::encode_utf8(payload.enriched_body->0@),
        ) == payload.sha256@ ==> r is Some,
{
}

/// After a rewrite the server's version is adopted and the watcher knows the new
/// bytes; after an edit in between only the base of its push is recorded; and a
/// rewrite that did not happen leaves no trace.
pub proof fn law_alignment_is_recorded(
    client: &mut PushClient,
    st: &mut SyncStores,
    path: &str,
    task: &AlignTask,
    canonical_sha: String,
    outcome: Option<&AlignOutcome>,
)
    requires
        call_ensures(
            PushClient::finish_align,
            (client, st, path, task, canonical_sha, outcome),
            (),
        ),
        old(st).shadow is Some,
        old(st).base_seq is Some,
        old(client).enqueued_hashes is Some,
    ensures
        outcome is Some && outcome->0 is Rewrote ==> {
            &&& final(client).enqueued_hashes is Some
            &&& final(client).enqueued_hashes->0@.contains_key(sync_shadow::canonical_path(path@))
            &&& final(client).enqueued_hashes->0@[sync_shadow::canonical_path(path@)]
                == canonical_sha
            &&& task.server_seq is Some ==> final(st).adopted_seq(path@) == task.server_seq
            &&& task.server_seq is None ==> final(st).base_seq == old(st).base_seq
            &&& final(st).shadow == old(st).shadow
        },
        outcome is Some && outcome->0 is SkippedConcurrentEdit ==> {
            &&& final(st).synced_hash(path@) == Some(task.server_hash@)
            &&& final(st).base_seq == old(st).base_seq
            &&& *final(client) == *old(client)
        },
        outcome is None || !(outcome->0 is Rewrote || outcome->0 is SkippedConcurrentEdit) ==> {
            &&& *final(st) == *old(st)
            &&& *final(client) == *old(client)
        },
{
}

/// Once the note of a lost push is gone from the server, no version is declared for
/// its path.
pub proof fn law_gone_note_has_no_version(client: PushClient, st: &mut SyncStores, path: &str)
    requires
        call_ensures(PushClient::note_gone, (&client, st, path), ()),
    ensures
        client.materializer_wired ==> final(st).declared_seq(path@) is None,
        !client.materializer_wired ==> *final(st) == *old(st),
        final(st).shadow == old(st).shadow,
{
}

/// Progress is marked where something was processed or nothing is left, and only
/// there; the tray shows what is left.
pub proof fn law_backlog_and_progress(
    client: &mut PushClient,
    st: &mut SyncStores,
    processed: usize,
    pending: usize,
    now: u64,
)
    requires
        call_ensures(PushClient::note_backlog, (client, st, processed, pending, now), ()),
        old(client).health is Some,
        old(st).tray is Some,
    ensures
        final(client).health is Some && final(st).tray is Some,
        processed > 0 || pending == 0 ==> final(client).health->0.last_progress_secs == now,
        processed == 0 && pending > 0 ==> final(client).health == old(client).health,
        final(st).tray->0.uploads_pending == pending,
        final(st).shadow == old(st).shadow && final(st).base_seq == old(st).base_seq,
{
}

/// Standard base64: every three bytes are four characters of six bits each, from
/// the high end, and one or two bytes at the end are filled up with `=`.
pub proof fn law_base64_digits(data: Seq<u8>, i: int)
    requires
        0 <= i,
        3 * i + 2 < data.len(),
    ensures
        ({
            let t = push_client::base64_text(data);
            let bits = data[3 * i] as int * 65536 + data[3 * i + 1] as int * 256 + data[3 * i
                + 2] as int;
            let digit = |n: int|
                "ABCDEFGHIJKLMNOPQRSTUVWXYZabcdefghijklmnopqrstuvwxyz0123456789+/"@[n];
            &&& 4 * i + 3 < t.len()
            &&& t[4 * i] == digit(bits / 262144)
            &&& t[4 * i + 1] == digit(bits / 4096 % 64)
            &&& t[4 * i + 2] == digit(bits / 64 % 64)
            &&& t[4 * i + 3] == digit(bits % 64)
        }),
    decreases i,
{
    let t = push_client::base64_text(data);
    if i == 0 {
        let (a, b, c) = (data[0] as int, data[1] as int, data[2] as int);
        lemma_six_bits(a, b, c);
        lemma_base64_alphabet(a / 4);
        lemma_base64_alphabet(a % 4 * 16 + b / 16);
        lemma_base64_alphabet(b % 16 * 4 + c / 64);
        lemma_base64_alphabet(c % 64);
    } else {
        let rest = data.subrange(3, data.len() as int);
        law_base64_digits(rest, i - 1);
        let u = push_client::base64_text(rest);
        assert(rest[3 * (i - 1)] == data[3 * i]);
        assert(rest[3 * (i - 1) + 1] == data[3 * i + 1]);
        assert(rest[3 * (i - 1) + 2] == data[3 * i + 2]);
        assert(t[4 * i] == u[4 * (i - 1)]);
        assert(t[4 * i + 1] == u[4 * (i - 1) + 1]);
        assert(t[4 * i + 2] == u[4 * (i - 1) + 2]);
        assert(t[4 * i + 3] == u[4 * (i - 1) + 3]);
    }
}

proof fn lemma_six_bits(a: int, b: int, c: int)
    requires
        0 <= a < 256,
        0 <= b < 256,
        0 <= c < 256,
    ensures
        ({
            let bits = a * 65536 + b * 256 + c;
            &&& bits / 262144 == a / 4
            &&& bits / 4096 % 64 == a % 4 * 16 + b / 16
            &&& bits / 64 % 64 == b % 16 * 4 + c / 64
            &&& bits % 64 == c % 64
        }),
{
    let bits = a * 65536 + b * 256 + c;
    let (p, q) = (a / 4, a % 4);
    let (r, s) = (b / 16, b % 16);
    let (t, u) = (c / 64, c % 64);
    let low = q * 16 + r;
    let mid = s * 4 + t;
    assert(bits == p * 262144 + (low * 4096 + mid * 64 + u));
    vstd::arithmetic::div_mod::lemma_fundamental_div_mod_converse(
        bits,
        262144,
        p,
        low * 4096 + mid * 64 + u,
    );
    vstd::arithmetic::div_mod::lemma_fundamental_div_mod_converse(
        bits,
        4096,
        p * 64 + low,
        mid * 64 + u,
    );
    vstd::arithmetic::div_mod::lemma_fundamental_div_mod_converse(p * 64 + low, 64, p, low);
    vstd::arithmetic::div_mod::lemma_fundamental_div_mod_converse(
        bits,
        64,
        p * 4096 + low * 64 + mid,
        u,
    );
    vstd::arithmetic::div_mod::lemma_fundamental_div_mod_converse(
        p * 4096 + low * 64 + mid,
        64,
        p * 64 + low,
        mid,
    );
}

/// What is left of the bytes behind the last full three is filled up.
pub proof fn law_base64_padding(data: Seq<u8>)
    ensures
        push_client::base64_text(data).len() == (data.len() + 2) / 3 * 4,
        data.len() % 3 == 1 ==> {
            let t = push_client::base64_text(data);
            let a = data.last() as int;
            let digit = |n: int|
                "ABCDEFGHIJKLMNOPQRSTUVWXYZabcdefghijklmnopqrstuvwxyz0123456789+/"@[n];
            t.subrange(t.len() - 4, t.len() as int) == seq![
                digit(a / 4),
                digit(a % 4 * 16),
                '=',
                '=',
            ]
        },
        data.len() % 3 == 2 ==> {
            let t = push_client::base64_text(data);
            let a = data[data.len() - 2] as int;
            let b = data.last() as int;
            let digit = |n: int|
                "ABCDEFGHIJKLMNOPQRSTUVWXYZabcdefghijklmnopqrstuvwxyz0123456789+/"@[n];
            t.subrange(t.len() - 4, t.len() as int) == seq![
                digit(a / 4),
                digit(a % 4 * 16 + b / 16),
                digit(b % 16 * 4),
                '=',
            ]
        },
{
    let t = push_client::base64_text(data);
    let n = data.len() - data.len() % 3;
    let tail = data.subrange(n, data.len() as int);
    lemma_base64_length(data);
    if data.len() % 3 != 0 {
        lemma_base64_tail(data);
    }
    if data.len() % 3 == 1 {
        let a = data.last() as int;
        assert(tail[0] == data.last());
        lemma_base64_alphabet(a / 4);
        lemma_base64_alphabet(a % 4 * 16);
        assert(push_client::base64_text(tail) == seq![
            push_client::base64_digit(a / 4),
            push_client::base64_digit(a % 4 * 16),
            '=',
            '=',
        ]);
    } else if data.len() % 3 == 2 {
        let a = data[data.len() - 2] as int;
        let b = data.last() as int;
        assert(tail[0] == data[data.len() - 2]);
        assert(tail[1] == data.last());
        lemma_base64_alphabet(a / 4);
        lemma_base64_alphabet(a % 4 * 16 + b / 16);
        lemma_base64_alphabet(b % 16 * 4);
        assert(push_client::base64_text(tail) == seq![
            push_client::base64_digit(a / 4),
            push_client::base64_digit(a % 4 * 16 + b / 16),
            push_client::base64_digit(b % 16 * 4),
            '=',
        ]);
    }
}

proof fn lemma_base64_length(data: Seq<u8>)
    ensures
        push_client::base64_text(data).len() == (data.len() + 2) / 3 * 4,
    decreases data.len(),
{
    if data.len() >= 3 {
        lemma_base64_length(data.subrange(3, data.len() as int));
    }
}

proof fn lemma_base64_tail(data: Seq<u8>)
    requires
        data.len() % 3 != 0,
    ensures
        ({
            let t = push_client::base64_text(data);
            let n = data.len() - data.len() % 3;
            t.len() >= 4 && t.subrange(t.len() - 4, t.len() as int) == push_client::base64_text(
                data.subrange(n, data.len() as int),
            )
        }),
    decreases data.len(),
{
    let t = push_client::base64_text(data);
    let n = data.len() - data.len() % 3;
    if data.len() < 3 {
        assert(data.subrange(0, data.len() as int) =~= data);
        assert(t.subrange(0, 4) =~= t);
    } else {
        let rest = data.subrange(3, data.len() as int);
        let u = push_client::base64_text(rest);
        lemma_base64_tail(rest);
        assert(rest.subrange(n - 3, rest.len() as int) =~= data.subrange(n, data.len() as int));
        assert(t.subrange(t.len() - 4, t.len() as int) =~= u.subrange(
            u.len() - 4,
            u.len() as int,
        ));
    }
}

proof fn lemma_base64_alphabet(n: int)
    requires
        0 <= n < 64,
    ensures
        push_client::base64_digit(n)
            == "ABCDEFGHIJKLMNOPQRSTUVWXYZabcdefghijklmnopqrstuvwxyz0123456789+/"@[n],
{
    reveal_strlit("ABCDEFGHIJKLMNOPQRSTUVWXYZabcdefghijklmnopqrstuvwxyz0123456789+/");
    let d = push_client::base64_digit(n) as int;
    assert(n < 26 ==> d == 65 + n);
    assert(26 <= n < 52 ==> d == 71 + n);
    assert(52 <= n < 62 ==> d == n - 4);
}

/// The hash of a sent event is that of the bytes that go out; a delete, which sends
/// none, keeps the hash that it was queued with.
pub proof fn law_sent_hash_is_of_the_sent_bytes(evt: &PushEvent, content: &[u8], r: String)
    requires
        call_ensures(PushClient::drained_sha, (evt, content), r),
    ensures
        evt.action is Delete ==> r@ == evt.content_sha@,
        evt.action is Create || evt.action is Modify ==> r@ == digest::content_hash(content@),
{
}

/// Pushes of one path never race and never overtake each other: they are in one
/// chain, in the order of the batch. Pushes of different paths are in different
/// chains.
pub proof fn law_pushes_of_a_path_keep_their_order(
    batch: &[(PushEvent, JournalCursor)],
    r: Vec<Vec<usize>>,
    c: int,
    k: int,
    d: int,
    l: int,
)
    requires
        call_ensures(push_client::plan_chains, (batch,), r),
        0 <= c < r@.len(),
        0 <= k < r@[c]@.len(),
        0 <= d < r@.len(),
        0 <= l < r@[d]@.len(),
    ensures
        r@[c]@[k] < batch@.len(),
        batch@[r@[c]@[k] as int].0.path@ == batch@[r@[d]@[l] as int].0.path@ <==> c == d,
        c == d && k < l ==> r@[c]@[k] < r@[d]@[l],
{
    let paths = push_client::batch_paths(batch@);
    assert(push_client::is_place(r@, c, k));
    assert(push_client::is_place(r@, d, l));
    let x = push_client::at(r@, c, k);
    let y = push_client::at(r@, d, l);
    assert(paths[x as int] == batch@[x as int].0.path@);
    assert(paths[y as int] == batch@[y as int].0.path@);
    if c == d && k < l {
        assert(push_client::at(r@, c, k) < push_client::at(r@, c, l));
    }
}

/// Every event of a batch is sent.
pub proof fn law_every_event_is_sent(
    batch: &[(PushEvent, JournalCursor)],
    r: Vec<Vec<usize>>,
    i: int,
)
    requires
        call_ensures(push_client::plan_chains, (batch,), r),
        0 <= i < batch@.len(),
    ensures
        exists|c: int, k: int|
            0 <= c < r@.len() && 0 <= k < r@[c]@.len() && #[trigger] r@[c]@[k] == i,
{
    assert(push_client::is_placed(r@, i));
    let (c, k) = choose|c: int, k: int|
        #[trigger] push_client::is_place(r@, c, k) && push_client::at(r@, c, k) == i;
    assert(r@[c]@[k] == i);
}

/// A client with work to do looks again sooner than one without.
pub proof fn law_next_drain_is_due(client: PushClient, processed: usize, r: u64)
    requires
        call_ensures(PushClient::next_interval_ms, (&client, processed), r),
    ensures
        processed == 0 ==> r == client.config.loop_interval_ms,
        processed > 0 ==> r == client.config.busy_loop_interval_ms,
{
}

/// The bytes that are set aside for a lost push are named by its path, the device
/// and their hash, and there is nothing to set aside of nothing.
pub proof fn law_lost_push_is_set_aside(
    client: PushClient,
    path: &str,
    bytes: &[u8],
    r: Option<StashRequest>,
)
    requires
        call_ensures(PushClient::stash_local_on_conflict, (&client, path, bytes), r),
    ensures
        r is Some <==> bytes@.len() > 0,
        r is Some ==> r->0.path@ == path@ && r->0.device_id@ == client.device_id@
            && r->0.local_sha@ == digest::content_hash(bytes@) && r->0.seq == 0,
{
}

/// What is hashed of an outgoing note is its text without the listed fields.
pub proof fn law_normalized_note_is_what_is_hashed(
    client: PushClient,
    bytes: &[u8],
    r: Vec<u8>,
    ls: Seq<Seq<char>>,
    body: Seq<char>,
)
    requires
        call_ensures(PushClient::normalize_for_diff, (&client, bytes), r),
        note_laws::block_lines(ls),
        bytes@ == vstd::utf8::encode_utf8(note_laws::note(ls, seq!['\n'], body)),
    ensures
        r@ == vstd::utf8::encode_utf8(
            note_laws::note(
                note_laws::remainder(
                    ls,
                    text::views(client.config.strip_frontmatter_fields_for_diff@),
                ),
                seq!['\n'],
                body,
            ),
        ),
{
    let s = note_laws::note(ls, seq!['\n'], body);
    note_laws::law_outgoing_drops_listed_fields_only(ls, body, client.fields());
    note_laws::law_bytes_stand_for_their_text(bytes@, s, client.fields());
}

/// The pause before a try is twice the one before the last, or the largest where
/// that is less.
pub proof fn law_pauses_double(
    attempt: usize,
    next: usize,
    initial: u64,
    max: u64,
    p: u64,
    q: u64,
)
    requires
        next == attempt + 1,
        call_ensures(push_client::compute_backoff, (attempt, initial, max), p),
        call_ensures(push_client::compute_backoff, (next, initial, max), q),
    ensures
        attempt == 0 && initial < max ==> p == initial,
        attempt == 0 && initial >= max ==> p == max,
        2 * p < max ==> q == 2 * p,
        2 * p >= max ==> q == max,
{
    law_next_backoff(attempt as nat, initial as nat, max as nat);
}

/// A client that was told to wait waits until the named time, and nothing else of it
/// changes.
pub proof fn law_gate_is_armed(client: &mut PushClient, now: u128, secs: u64)
    requires
        call_ensures(PushClient::arm_gate_cooldown, (client, now, secs), ()),
        now + secs * 1_000_000_000 <= u128::MAX,
    ensures
        final(client).gate_cooldown_until is Some,
        final(client).gate_cooldown_until->0 == now + secs * 1_000_000_000,
        final(client).enqueued_hashes == old(client).enqueued_hashes,
        final(client).config == old(client).config,
{
}

/// What a client is given it has.
pub proof fn law_client_is_put_together(
    client: PushClient,
    health: SyncHealth,
    map: PathMap<String>,
    a: PushClient,
    b: PushClient,
    c: PushClient,
)
    requires
        call_ensures(PushClient::with_sync_health, (client, health), a),
        call_ensures(PushClient::with_materializer, (client,), b),
        call_ensures(PushClient::with_enqueued_hashes, (client, map), c),
    ensures
        a.health == Some(health) && a.materializer_wired == client.materializer_wired
            && a.enqueued_hashes == client.enqueued_hashes,
        b.materializer_wired && b.health == client.health && b.enqueued_hashes
            == client.enqueued_hashes,
        c.enqueued_hashes == Some(map) && c.health == client.health && c.materializer_wired
            == client.materializer_wired,
{
}

} // verus!
