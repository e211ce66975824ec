//! What holds of the push journal across several operations.

use vstd::prelude::*;

use crate::note_laws;
use crate::numbers;
use crate::push_journal;
use crate::push_journal::{
    EventView, JournalCursor, JournalFile, PushEvent, PushJournal, RawLine,
};
use crate::text;

verus! {

/// No line of the file ends the scan.
pub open spec fn scans_through(lines: Seq<RawLine>) -> bool {
    forall|i: int| 0 <= i < lines.len() ==> !push_journal::stops_scan(#[trigger] lines[i])
}

/// Reading past lines that do not end the scan goes on with the rest.
pub proof fn lemma_live_concat(a: Seq<RawLine>, b: Seq<RawLine>)
    requires
        scans_through(a),
    ensures
        push_journal::live(a + b) == push_journal::live(a) + push_journal::live(b),
    decreases a.len(),
{
    if a.len() == 0 {
        assert(a + b =~= b);
        assert(push_journal::live(a) + push_journal::live(b) =~= push_journal::live(b));
    } else {
        let t = a.drop_first();
        assert((a + b)[0] == a[0]);
        assert((a + b).drop_first() =~= t + b);
        assert forall|i: int| 0 <= i < t.len() implies !push_journal::stops_scan(
            #[trigger] t[i],
        ) by {
            assert(t[i] == a[i + 1]);
        }
        lemma_live_concat(t, b);
        match push_journal::line_event(a[0]) {
            Some(e) => {
                assert(seq![e] + (push_journal::live(t) + push_journal::live(b)) =~= (seq![e]
                    + push_journal::live(t)) + push_journal::live(b));
            },
            None => {},
        }
    }
}

/// A torn tail costs nothing that stands before it: what lies behind a line
/// that ends the scan does not count, and everything before it does.
pub proof fn law_torn_tail_keeps_the_head(head: Seq<RawLine>, torn: RawLine, tail: Seq<RawLine>)
    requires
        scans_through(head),
        push_journal::stops_scan(torn),
    ensures
        push_journal::live(head.push(torn) + tail) == push_journal::live(head),
{
    let rest = seq![torn] + tail;
    assert(head.push(torn) + tail =~= head + rest);
    lemma_live_concat(head, rest);
    assert(rest[0] == torn);
    assert(push_journal::live(head) + Seq::<EventView>::empty() =~= push_journal::live(head));
}

/// A line of another schema, or one that parses only in part, is passed over.
pub proof fn law_foreign_line_is_skipped(head: Seq<RawLine>, line: RawLine, tail: Seq<RawLine>)
    requires
        scans_through(head),
        !push_journal::stops_scan(line),
        push_journal::line_event(line) is None,
    ensures
        push_journal::live(head.push(line) + tail) == push_journal::live(head + tail),
{
    let rest = seq![line] + tail;
    assert(head.push(line) + tail =~= head + rest);
    lemma_live_concat(head, rest);
    lemma_live_concat(head, tail);
    assert(rest[0] == line);
    assert(rest.drop_first() =~= tail);
}

/// What was appended is read back, behind everything that was live before, where
/// the line before it has its line feed.
pub proof fn law_append_then_read(
    before: JournalFile,
    entry: (PushEvent, String),
    after: JournalFile,
)
    requires
        scans_through(before.lines@),
        before.terminated || before.lines@.len() == 0,
        push_journal::extended(before, seq![entry], after),
        !push_journal::is_blank(entry.1@),
        entry.0.schema_version == push_journal::CURRENT_SCHEMA,
    ensures
        push_journal::live(after.lines@) == push_journal::live(before.lines@).push(
            push_journal::with_id(entry.0@),
        ),
        scans_through(after.lines@),
        after.terminated,
{
    lemma_append_then_read(before.lines@, entry, after.lines@);
}

/// What is appended to a line that was cut short runs together with it. Unless that
/// line was blank neither of the two counts any more, and what stands before them
/// does.
pub proof fn law_append_to_a_cut_line(
    before: JournalFile,
    entry: (PushEvent, String),
    after: JournalFile,
)
    requires
        before.lines@.len() > 0,
        !before.terminated,
        scans_through(before.lines@.drop_last()),
        push_journal::extended(before, seq![entry], after),
        entry.0.schema_version == push_journal::CURRENT_SCHEMA,
    ensures
        ({
            let head = push_journal::live(before.lines@.drop_last());
            match before.lines@.last() {
                RawLine::Line { text, .. } if push_journal::is_json_blank(text@)
                    && !push_journal::is_blank(text@ + entry.1@) => push_journal::live(after.lines@)
                    == head.push(push_journal::with_id(entry.0@)),
                _ => push_journal::live(after.lines@) == head,
            }
        }),
        after.terminated,
{
    let head = before.lines@.drop_last();
    let seam = after.lines@[head.len() as int];
    let one = seq![seam];
    assert(seq![entry].drop_first().len() == 0);
    assert forall|i: int| 0 <= i < head.len() implies after.lines@[i] == head[i] by {
        assert(head.push(seam)[i] == head[i]);
    }
    assert(after.lines@ =~= head + one);
    lemma_live_concat(head, one);
    assert(one[0] == seam);
    assert(one.drop_first().len() == 0);
    assert(push_journal::live(one.drop_first()) =~= Seq::<EventView>::empty());
    match push_journal::line_event(seam) {
        Some(e) => {
            assert(push_journal::live(one) =~= seq![e]);
            assert(push_journal::live(head) + seq![e] =~= push_journal::live(head).push(e));
        },
        None => {
            assert(push_journal::live(one) =~= Seq::<EventView>::empty());
            assert(push_journal::live(head) + Seq::<EventView>::empty() =~= push_journal::live(
                head,
            ));
        },
    }
}

proof fn lemma_append_then_read(
    before: Seq<RawLine>,
    entry: (PushEvent, String),
    after: Seq<RawLine>,
)
    requires
        scans_through(before),
        push_journal::appended(before, seq![entry], after),
        !push_journal::is_blank(entry.1@),
        entry.0.schema_version == push_journal::CURRENT_SCHEMA,
    ensures
        push_journal::live(after) == push_journal::live(before).push(
            push_journal::with_id(entry.0@),
        ),
        scans_through(after),
{
    let last = after[before.len() as int];
    assert(push_journal::written_line(seq![entry][0], after[before.len() as int]));
    assert(after =~= before + seq![last]);
    lemma_live_concat(before, seq![last]);
    let one = seq![last];
    assert(one[0] == last);
    assert(one.drop_first().len() == 0);
    let e = push_journal::with_id(entry.0@);
    assert(push_journal::line_event(last) == Some(e));
    assert(push_journal::live(one.drop_first()) =~= Seq::<EventView>::empty());
    assert(push_journal::live(one) =~= seq![e]);
    assert(push_journal::live(before) + seq![e] =~= push_journal::live(before).push(e));
}

/// The live events of a freshly written file are the events written, each with
/// its id.
pub proof fn law_rewrite_then_read(entries: Seq<(PushEvent, String)>, after: Seq<RawLine>)
    requires
        push_journal::appended(Seq::empty(), entries, after),
        forall|i: int|
            0 <= i < entries.len() ==> !push_journal::is_blank((#[trigger] entries[i]).1@)
                && entries[i].0.schema_version == push_journal::CURRENT_SCHEMA,
    ensures
        push_journal::live(after) == entries.map_values(
            |e: (PushEvent, String)| push_journal::with_id(e.0@),
        ),
        scans_through(after),
    decreases entries.len(),
{
    let none = Seq::<RawLine>::empty();
    if entries.len() == 0 {
        assert(push_journal::live(after) =~= entries.map_values(
            |e: (PushEvent, String)| push_journal::with_id(e.0@),
        ));
    } else {
        let init = entries.drop_last();
        let front = after.drop_last();
        assert forall|i: int| 0 <= i < init.len() implies push_journal::written_line(
            #[trigger] init[i],
            front[none.len() + i],
        ) by {
            assert(init[i] == entries[i]);
            assert(push_journal::written_line(entries[i], after[none.len() + i]));
        }
        assert(push_journal::appended(none, init, front));
        assert forall|i: int| 0 <= i < init.len() implies !push_journal::is_blank(
            (#[trigger] init[i]).1@,
        ) && init[i].0.schema_version == push_journal::CURRENT_SCHEMA by {
            assert(init[i] == entries[i]);
        }
        law_rewrite_then_read(init, front);
        let l: int = entries.len() - 1;
        assert(push_journal::written_line(entries[l], after[none.len() + l]));
        assert(push_journal::written_line(seq![entries.last()][0], after[front.len() as int]));
        assert(push_journal::appended(front, seq![entries.last()], after));
        assert(!push_journal::is_blank(entries[l].1@));
        lemma_append_then_read(front, entries.last(), after);
        assert(entries.map_values(|e: (PushEvent, String)| push_journal::with_id(e.0@))
            =~= init.map_values(|e: (PushEvent, String)| push_journal::with_id(e.0@)).push(
            push_journal::with_id(entries.last().0@),
        ));
    }
}

/// Acknowledging keeps exactly the events whose id is not listed, in order.
pub proof fn law_ack_keeps_exactly_the_others(events: Seq<EventView>, ids: Seq<Seq<char>>)
    ensures
        push_journal::without_ids(events, ids) == events.filter(
            |e: EventView| !ids.contains(e.id),
        ),
        forall|e: EventView| #[trigger]
            push_journal::without_ids(events, ids).contains(e) <==> events.contains(e)
                && !ids.contains(e.id),
    decreases events.len(),
{
    let keep = |e: EventView| !ids.contains(e.id);
    if events.len() == 0 {
        assert(events.filter(keep) =~= Seq::<EventView>::empty()) by {
            reveal(Seq::filter);
        }
    } else {
        let t = events.drop_first();
        law_ack_keeps_exactly_the_others(t, ids);
        assert(events =~= seq![events[0]] + t);
        Seq::filter_distributes_over_add(seq![events[0]], t, keep);
        assert(seq![events[0]].filter(keep) =~= if keep(events[0]) {
            seq![events[0]]
        } else {
            Seq::<EventView>::empty()
        }) by {
            reveal(Seq::filter);
            assert(seq![events[0]].drop_last() =~= Seq::<EventView>::empty());
            assert(seq![events[0]].drop_last().filter(keep) =~= Seq::<EventView>::empty());
        }
        assert(push_journal::without_ids(events, ids) =~= events.filter(keep));
        assert forall|e: EventView| #[trigger]
            push_journal::without_ids(events, ids).contains(e) <==> events.contains(e)
                && !ids.contains(e.id) by {
            let w = push_journal::without_ids(events, ids);
            let wt = push_journal::without_ids(t, ids);
            if w.contains(e) {
                let i = choose|i: int| 0 <= i < w.len() && w[i] == e;
                if ids.contains(events[0].id) {
                    assert(wt.contains(e));
                } else if i == 0 {
                    assert(events[0] == e);
                } else {
                    assert(wt[i - 1] == e);
                    assert(wt.contains(e));
                }
                if t.contains(e) {
                    let j = choose|j: int| 0 <= j < t.len() && t[j] == e;
                    assert(events[j + 1] == e);
                }
            }
            if events.contains(e) && !ids.contains(e.id) {
                let j = choose|j: int| 0 <= j < events.len() && events[j] == e;
                if j == 0 {
                    assert(w[0] == e);
                } else {
                    assert(t[j - 1] == e);
                    assert(t.contains(e));
                    assert(wt.contains(e));
                    let k = choose|k: int| 0 <= k < wt.len() && wt[k] == e;
                    if ids.contains(events[0].id) {
                        assert(w[k] == e);
                    } else {
                        assert(w[k + 1] == e);
                    }
                }
            }
        }
    }
}

/// Of a list of events, taking out the same ids twice is taking them out once,
/// and taking out ids that no event has leaves the list.
pub proof fn law_ack_is_idempotent(events: Seq<EventView>, ids: Seq<Seq<char>>)
    ensures
        push_journal::without_ids(push_journal::without_ids(events, ids), ids)
            == push_journal::without_ids(events, ids),
        (forall|i: int| 0 <= i < events.len() ==> !ids.contains((#[trigger] events[i]).id))
            ==> push_journal::without_ids(events, ids) == events,
    decreases events.len(),
{
    if events.len() > 0 {
        let t = events.drop_first();
        law_ack_is_idempotent(t, ids);
        let w = push_journal::without_ids(events, ids);
        if !ids.contains(events[0].id) {
            let wt = push_journal::without_ids(t, ids);
            assert(w[0] == events[0]);
            assert(w.drop_first() =~= wt);
        }
        if forall|i: int| 0 <= i < events.len() ==> !ids.contains((#[trigger] events[i]).id) {
            assert forall|i: int| 0 <= i < t.len() implies !ids.contains((#[trigger] t[i]).id) by {
                assert(t[i] == events[i + 1]);
            }
            assert(!ids.contains(events[0].id));
            assert(seq![events[0]] + t =~= events);
        }
    }
}

/// `after` is the file behind an acknowledgement of `ids`: the file as it was
/// where no live event has one of them, and else the rewritten one, in which
/// every event that stays has a line of its own.
pub open spec fn acked(
    before: Seq<RawLine>,
    ids: Seq<Seq<char>>,
    entries: Seq<(PushEvent, String)>,
    after: Seq<RawLine>,
) -> bool {
    let live = push_journal::live(before);
    if push_journal::any_listed(live, ids) {
        &&& entries.map_values(|e: (PushEvent, String)| e.0@) == push_journal::without_ids(
            live,
            ids,
        )
        &&& forall|i: int|
            0 <= i < entries.len() ==> !push_journal::is_blank((#[trigger] entries[i]).1@)
        &&& push_journal::appended(Seq::empty(), entries, after)
    } else {
        after == before
    }
}

/// Live events are of the current schema and have their id.
proof fn lemma_live_events(lines: Seq<RawLine>)
    requires
        push_journal::lines_valid(lines),
    ensures
        forall|i: int|
            0 <= i < push_journal::live(lines).len() ==> (#[trigger] push_journal::live(
                lines,
            )[i]).schema_version == push_journal::CURRENT_SCHEMA && push_journal::with_id(
                push_journal::live(lines)[i],
            ) == push_journal::live(lines)[i],
    decreases lines.len(),
{
    if lines.len() > 0 && !push_journal::stops_scan(lines[0]) {
        let t = lines.drop_first();
        assert forall|i: int| 0 <= i < t.len() implies (#[trigger] t[i]).valid() by {
            assert(t[i] == lines[i + 1]);
        }
        lemma_live_events(t);
        assert(lines[0].valid());
        match lines[0] {
            RawLine::Line { event: Some(e), .. } => {
                law_ids_are_stable(e@);
                assert(e@.schema_version == e.schema_version);
            },
            _ => {},
        }
    }
}

/// After an acknowledgement every handle, old or new, drains exactly the events
/// with other ids, unchanged and in order: a drain depends on the file alone.
/// Acknowledging the same ids once more finds nothing and leaves the file.
pub proof fn law_ack_then_drain(
    before: Seq<RawLine>,
    ids: Seq<Seq<char>>,
    entries: Seq<(PushEvent, String)>,
    after: Seq<RawLine>,
)
    requires
        push_journal::lines_valid(before),
        acked(before, ids, entries, after),
    ensures
        push_journal::live(after) == push_journal::without_ids(push_journal::live(before), ids),
        push_journal::live(after) == push_journal::live(before).filter(
            |e: EventView| !ids.contains(e.id),
        ),
        !push_journal::any_listed(push_journal::live(after), ids),
        push_journal::lines_valid(after),
        forall|more: Seq<(PushEvent, String)>, again: Seq<RawLine>| #[trigger]
            acked(after, ids, more, again) ==> again == after,
{
    let live = push_journal::live(before);
    let kept = push_journal::without_ids(live, ids);
    law_ack_keeps_exactly_the_others(live, ids);
    if push_journal::any_listed(live, ids) {
        lemma_live_events(before);
        let views = entries.map_values(|e: (PushEvent, String)| e.0@);
        assert forall|i: int| 0 <= i < entries.len() implies (
        #[trigger] entries[i]).0.schema_version == push_journal::CURRENT_SCHEMA
            && push_journal::with_id(entries[i].0@) == entries[i].0@ by {
            assert(views[i] == entries[i].0@);
            assert(kept.contains(views[i]));
            let j = choose|j: int| 0 <= j < live.len() && live[j] == views[i];
            assert(live[j].schema_version == push_journal::CURRENT_SCHEMA);
        }
        law_rewrite_then_read(entries, after);
        assert(push_journal::live(after) =~= kept);
        let none = Seq::<RawLine>::empty();
        assert forall|i: int| 0 <= i < after.len() implies (#[trigger] after[i]).valid() by {
            assert(push_journal::written_line(entries[i], after[none.len() + i]));
            assert(after[i]->event->0@.schema_version == entries[i].0@.schema_version);
        }
    } else {
        law_ack_is_idempotent(live, ids);
    }
    assert forall|i: int| 0 <= i < kept.len() implies !ids.contains((#[trigger] kept[i]).id) by {
        assert(kept.contains(kept[i]));
    }
}

/// No two events have one id.
pub open spec fn distinct_ids(events: Seq<EventView>) -> bool {
    forall|i: int, j: int|
        0 <= i < j < events.len() ==> (#[trigger] events[i]).id != (#[trigger] events[j]).id
}

/// Ids that do not repeat never come to repeat: appending an event with an id of its
/// own keeps them apart, and so does acknowledging any.
pub proof fn law_ids_stay_distinct(
    live: Seq<EventView>,
    added: EventView,
    ids: Seq<Seq<char>>,
)
    requires
        distinct_ids(live),
    ensures
        (forall|i: int| 0 <= i < live.len() ==> (#[trigger] live[i]).id != added.id)
            ==> distinct_ids(live.push(added)),
        distinct_ids(push_journal::without_ids(live, ids)),
    decreases live.len(),
{
    if live.len() > 0 {
        let t = live.drop_first();
        assert forall|i: int, j: int| 0 <= i < j < t.len() implies (#[trigger] t[i]).id != (
        #[trigger] t[j]).id by {
            assert(live[i + 1].id != live[j + 1].id);
        }
        law_ids_stay_distinct(t, added, ids);
        law_ack_keeps_exactly_the_others(t, ids);
        let kept = push_journal::without_ids(live, ids);
        let kt = push_journal::without_ids(t, ids);
        if !ids.contains(live[0].id) {
            assert forall|i: int, j: int| 0 <= i < j < kept.len() implies (#[trigger] kept[i]).id
                != (#[trigger] kept[j]).id by {
                assert(kept[j] == kt[j - 1]);
                if i == 0 {
                    assert(kt.contains(kt[j - 1]));
                    let m = choose|m: int| 0 <= m < t.len() && t[m] == kt[j - 1];
                    assert(live[0].id != live[m + 1].id);
                } else {
                    assert(kept[i] == kt[i - 1]);
                }
            }
        }
    }
}

/// A drained batch has no id twice where the journal has none.
pub proof fn law_drained_ids_are_distinct(
    live: Seq<EventView>,
    batch: Seq<(PushEvent, JournalCursor)>,
)
    requires
        distinct_ids(live),
        batch.len() <= live.len(),
        forall|i: int|
            0 <= i < batch.len() ==> (#[trigger] batch[i]).0@ == live[i] && batch[i].1.0@
                == live[i].id,
    ensures
        forall|i: int, j: int|
            0 <= i < j < batch.len() ==> (#[trigger] batch[i]).1.0@ != (#[trigger] batch[j]).1.0@,
{
    assert forall|i: int, j: int| 0 <= i < j < batch.len() implies (#[trigger] batch[i]).1.0@ != (
    #[trigger] batch[j]).1.0@ by {
        assert(live[i].id != live[j].id);
    }
}

/// An event keeps its id: giving it one where it has one changes nothing, so
/// every reading of one line yields one id.
pub proof fn law_ids_are_stable(e: EventView)
    ensures
        push_journal::with_id(push_journal::with_id(e)) == push_journal::with_id(e),
        push_journal::with_id(e).id.len() > 0,
{
    reveal_strlit("legacy-");
}

/// Appending what fits never overfills the file, and stops only before a line
/// that would.
pub proof fn law_batch_fills_to_the_limit(
    lines: Seq<(PushEvent, String)>,
    used: u64,
    max: u64,
)
    requires
        used <= max,
    ensures
        ({
            let n = push_journal::fitting(lines, used, max) as int;
            let size = push_journal::grown(lines.subrange(0, n), used);
            &&& 0 <= n <= lines.len()
            &&& size <= max
            &&& n < lines.len() ==> push_journal::size_sum(
                size,
                push_journal::line_size(lines[n].1@),
            ) > max
        }),
    decreases lines.len(),
{
    let n = push_journal::fitting(lines, used, max) as int;
    if n == 0 {
        assert(lines.subrange(0, 0).len() == 0);
        assert(push_journal::grown(lines.subrange(0, 0), used) == used);
    } else {
        let t = lines.drop_first();
        let next = push_journal::size_sum(used, push_journal::line_size(lines[0].1@));
        law_batch_fills_to_the_limit(t, next, max);
        let p = lines.subrange(0, n);
        assert(p[0] == lines[0]);
        assert(p.drop_first() =~= t.subrange(0, n - 1));
        if n < lines.len() {
            assert(t[n - 1] == lines[n]);
        }
    }
}

proof fn lemma_signed_text(n: int)
    ensures
        numbers::i64_text_spec(n).len() > 0,
        n >= 0 ==> numbers::all_digits(numbers::i64_text_spec(n)),
        n < 0 ==> numbers::i64_text_spec(n)[0] == '-',
{
    if n < 0 {
        numbers::lemma_dec_text_digits((-n) as nat);
    } else {
        numbers::lemma_dec_text_digits(n as nat);
    }
}

/// Ids from different clock readings or different counters are different: a
/// counter that never repeats makes every id unique.
pub proof fn law_event_ids_are_unique(n1: int, c1: nat, n2: int, c2: nat)
    requires
        push_journal::event_id_text(n1, c1) == push_journal::event_id_text(n2, c2),
    ensures
        n1 == n2,
        c1 == c2,
{
    let a1 = numbers::i64_text_spec(n1);
    let a2 = numbers::i64_text_spec(n2);
    let d1 = numbers::dec_text(c1);
    let d2 = numbers::dec_text(c2);
    let s = push_journal::event_id_text(n1, c1);
    numbers::lemma_dec_text_digits(c1);
    numbers::lemma_dec_text_digits(c2);
    assert(s == a1.push('-') + d1);
    assert(s == a2.push('-') + d2);
    // The last dash of the text stands right before the counter, in both forms.
    assert(s[a1.len() as int] == '-');
    assert(s[a2.len() as int] == '-');
    if a1.len() < a2.len() {
        assert(s[a2.len() as int] == d1[a2.len() - a1.len() - 1]);
        assert(numbers::is_digit(d1[a2.len() - a1.len() - 1]));
    }
    if a2.len() < a1.len() {
        assert(s[a1.len() as int] == d2[a1.len() - a2.len() - 1]);
        assert(numbers::is_digit(d2[a1.len() - a2.len() - 1]));
    }
    assert(s.subrange(0, a1.len() as int) =~= a1);
    assert(s.subrange(0, a1.len() as int) =~= a2);
    assert(s.subrange(a1.len() as int + 1, s.len() as int) =~= d1);
    assert(s.subrange(a1.len() as int + 1, s.len() as int) =~= d2);
    numbers::law_dec_text_is_injective(c1, c2);
    lemma_signed_text(n1);
    lemma_signed_text(n2);
    if n1 >= 0 && n2 >= 0 {
        numbers::law_dec_text_is_injective(n1 as nat, n2 as nat);
    } else if n1 < 0 && n2 < 0 {
        assert(a1.drop_first() =~= numbers::dec_text((-n1) as nat));
        assert(a2.drop_first() =~= numbers::dec_text((-n2) as nat));
        numbers::law_dec_text_is_injective((-n1) as nat, (-n2) as nat);
    } else if n1 < 0 {
        assert(numbers::is_digit(a2[0]));
    } else {
        assert(numbers::is_digit(a1[0]));
    }
}

// ---------------------------------------------------------------------------
// The journal as it is read and written
// ---------------------------------------------------------------------------

/// The text has a character that is no white space.
pub open spec fn has_ink(t: Seq<char>) -> bool {
    exists|i: int| 0 <= i < t.len() && !text::is_white(#[trigger] t[i])
}

proof fn lemma_blank_has_no_ink(t: Seq<char>)
    ensures
        push_journal::is_blank(t) <==> !has_ink(t),
{
    note_laws::law_trimming(t, text::trimmed(t));
    let (a, b) = choose|a: int, b: int| #[trigger]
        note_laws::trim_cut(t, a, b) && text::trimmed(t) == t.subrange(a, b);
    assert(text::trimmed(t).len() == b - a);
    if a < b {
        assert(!text::is_white(t[a]));
    }
    if has_ink(t) {
        let i = choose|i: int| 0 <= i < t.len() && !text::is_white(#[trigger] t[i]);
        assert(a <= i < b);
    }
}

/// What a line counts for. An unreadable line, and one with something in it but
/// without a schema version, ends the reading. A line counts where it has something
/// in it, the current schema version and an event; the event is as it was written,
/// and has an id of its own where it was written without one.
pub proof fn law_what_a_line_counts_for(l: RawLine)
    ensures
        match l {
            RawLine::Unreadable => push_journal::stops_scan(l) && push_journal::line_event(
                l,
            ) is None,
            RawLine::Line { text: t, schema_version, event } => {
                &&& push_journal::stops_scan(l) <==> has_ink(t@) && schema_version is None
                &&& push_journal::line_event(l) is Some <==> has_ink(t@) && schema_version == Some(
                    1u32,
                ) && event is Some
                &&& push_journal::line_event(l) is Some ==> {
                    let e = push_journal::line_event(l)->0;
                    &&& e == (EventView { id: e.id, ..event->0@ })
                    &&& event->0@.id.len() > 0 ==> e.id == event->0@.id
                    &&& event->0@.id.len() == 0 ==> e.id.len() == 23 && e.id.subrange(0, 7)
                        == "legacy-"@
                }
            },
        },
{
    if let RawLine::Line { text: t, schema_version: _, event } = l {
        lemma_blank_has_no_ink(t@);
        if event is Some {
            let id = push_journal::legacy_id(event->0@);
            reveal_strlit("legacy-");
            lemma_hex_fixed_len(push_journal::legacy_hash(event->0@) as nat, 16);
            assert(id.subrange(0, 7) =~= "legacy-"@);
        }
    }
}

proof fn lemma_hex_fixed_len(n: nat, width: nat)
    ensures
        push_journal::hex_fixed(n, width).len() == width,
    decreases width,
{
    if width > 0 {
        lemma_hex_fixed_len(n / 16, (width - 1) as nat);
    }
}

/// The live events are those of the lines before the first that ends the reading,
/// in the order of the lines, and none of them is left out.
pub proof fn law_live_events_are_the_lines_events(lines: Seq<RawLine>) -> (r: (int, Seq<int>))
    ensures
        ({
            let (stop, f) = r;
            let live = push_journal::live(lines);
            &&& 0 <= stop <= lines.len()
            &&& stop < lines.len() ==> push_journal::stops_scan(lines[stop])
            &&& forall|i: int| 0 <= i < stop ==> !push_journal::stops_scan(#[trigger] lines[i])
            &&& f.len() == live.len()
            &&& forall|k: int|
                0 <= k < f.len() ==> 0 <= #[trigger] f[k] < stop && push_journal::line_event(
                    lines[f[k]],
                ) == Some(live[k])
            &&& forall|k: int, l: int| 0 <= k < l < f.len() ==> #[trigger] f[k] < #[trigger] f[l]
            &&& forall|i: int|
                0 <= i < stop && push_journal::line_event(#[trigger] lines[i]) is Some
                    ==> f.contains(i)
        }),
    decreases lines.len(),
{
    if lines.len() == 0 || push_journal::stops_scan(lines[0]) {
        (0, Seq::empty())
    } else {
        let rest = lines.drop_first();
        let (s, g) = law_live_events_are_the_lines_events(rest);
        let live = push_journal::live(rest);
        let up = Seq::new(g.len(), |k: int| g[k] + 1);
        assert forall|i: int| 0 <= i < s + 1 implies !push_journal::stops_scan(
            #[trigger] lines[i],
        ) by {
            if i > 0 {
                assert(rest[i - 1] == lines[i]);
            }
        }
        if s + 1 < lines.len() {
            assert(lines[s + 1] == rest[s]);
        }
        assert forall|k: int| 0 <= k < up.len() implies 0 < #[trigger] up[k] < s + 1
            && push_journal::line_event(lines[up[k]]) == Some(live[k]) by {
            assert(rest[g[k]] == lines[up[k]]);
        }
        assert forall|k: int, l: int| 0 <= k < l < up.len() implies #[trigger] up[k]
            < #[trigger] up[l] by {
            assert(g[k] < g[l]);
        }
        let counts = push_journal::line_event(lines[0]) is Some;
        let f = if counts {
            seq![0int] + up
        } else {
            up
        };
        let all = push_journal::live(lines);
        assert forall|k: int| 0 <= k < f.len() implies 0 <= #[trigger] f[k] < s + 1
            && push_journal::line_event(lines[f[k]]) == Some(all[k]) by {
            if counts && k > 0 {
                assert(f[k] == up[k - 1]);
            } else if !counts {
                assert(f[k] == up[k]);
            }
        }
        assert forall|k: int, l: int| 0 <= k < l < f.len() implies #[trigger] f[k]
            < #[trigger] f[l] by {
            if counts {
                assert(f[l] == up[l - 1]);
                if k > 0 {
                    assert(f[k] == up[k - 1]);
                }
            }
        }
        assert forall|i: int|
            0 <= i < s + 1 && push_journal::line_event(#[trigger] lines[i]) is Some
                implies f.contains(i) by {
            if i == 0 {
                assert(f[0] == 0);
            } else {
                assert(rest[i - 1] == lines[i]);
                assert(g.contains(i - 1));
                let k = choose|k: int| 0 <= k < g.len() && g[k] == i - 1;
                assert(up[k] == i);
                if counts {
                    assert(f[k + 1] == i);
                }
            }
        }
        (s + 1, f)
    }
}

/// An event that fits is appended: it is the last live one from then on, and all
/// others stay as they were. One that does not fit changes nothing, and the error
/// names the file's size and its limit.
pub proof fn law_append_keeps_what_was_queued(
    journal: &mut PushJournal,
    file: &mut JournalFile,
    evt: PushEvent,
    line: String,
    r: Result<(), push_journal::JournalError>,
)
    requires
        call_ensures(PushJournal::append, (journal, file, evt, line), r),
        scans_through(old(file).lines@),
        old(file).terminated,
        has_ink(line@),
        evt.schema_version == 1,
        evt.id@.len() > 0,
        vstd::utf8::encode_utf8(line@).len() + 1 + old(file).bytes <= usize::MAX,
    ensures
        r is Ok <==> old(file).bytes + vstd::utf8::encode_utf8(line@).len() + 1 <= old(journal).limit(),
        r is Ok ==> {
            &&& push_journal::live(final(file).lines@) == push_journal::live(
                old(file).lines@,
            ).push(evt@)
            &&& final(file).bytes == old(file).bytes + vstd::utf8::encode_utf8(line@).len() + 1
            &&& final(file).terminated
        },
        r is Err ==> {
            &&& *final(file) == *old(file)
            &&& r == Err::<(), push_journal::JournalError>(
                push_journal::JournalError::CapacityExceeded {
                    current: old(file).bytes,
                    max: old(journal).limit(),
                },
            )
        },
{
    lemma_blank_has_no_ink(line@);
    if r is Ok {
        law_append_then_read(*old(file), (evt, line), *final(file));
    }
}

/// Acknowledging takes exactly the events with the given ids off the journal, and
/// does not touch a journal that has none of them.
pub proof fn law_ack_takes_exactly_the_named(
    journal: &mut PushJournal,
    file: &JournalFile,
    cursors: Vec<JournalCursor>,
    r: Option<Vec<PushEvent>>,
)
    requires
        call_ensures(PushJournal::ack_batch, (journal, file, cursors), r),
    ensures
        ({
            let live = push_journal::live(file.lines@);
            &&& r is None <==> forall|i: int, c: int|
                0 <= i < live.len() && 0 <= c < cursors@.len() ==> (#[trigger] live[i]).id != (
                #[trigger] cursors@[c]).0@
            &&& r is Some ==> push_journal::event_views(r->0@) == live.filter(
                |e: EventView|
                    forall|c: int| 0 <= c < cursors@.len() ==> e.id != (#[trigger] cursors@[c]).0@,
            )
        }),
{
    let live = push_journal::live(file.lines@);
    let ids = push_journal::cursor_ids(cursors@);
    assert forall|id: Seq<char>| #[trigger] ids.contains(id) <==> exists|c: int|
        0 <= c < cursors@.len() && (#[trigger] cursors@[c]).0@ == id by {
        if ids.contains(id) {
            let c = choose|c: int| 0 <= c < ids.len() && ids[c] == id;
            assert(cursors@[c].0@ == id);
        }
        if exists|c: int| 0 <= c < cursors@.len() && (#[trigger] cursors@[c]).0@ == id {
            let c = choose|c: int| 0 <= c < cursors@.len() && (#[trigger] cursors@[c]).0@ == id;
            assert(ids[c] == id);
        }
    }
    if push_journal::any_listed(live, ids) {
        let i = choose|i: int| 0 <= i < live.len() && ids.contains((#[trigger] live[i]).id);
        let c = choose|c: int| 0 <= c < cursors@.len() && (#[trigger] cursors@[c]).0@ == live[i].id;
        assert(live[i].id == cursors@[c].0@);
    }
    assert forall|i: int, c: int|
        0 <= i < live.len() && 0 <= c < cursors@.len() && (#[trigger] live[i]).id == (
        #[trigger] cursors@[c]).0@ implies push_journal::any_listed(live, ids) by {
        assert(ids.contains(live[i].id));
    }
    let p = |e: EventView| !ids.contains(e.id);
    let q = |e: EventView|
        forall|c: int| 0 <= c < cursors@.len() ==> e.id != (#[trigger] cursors@[c]).0@;
    law_ack_keeps_exactly_the_others(live, ids);
    assert forall|e: EventView| #[trigger] p(e) == q(e) by {}
    assert(p =~= q);
}

/// A drain hands out the first live events, in order, and takes nothing off.
pub proof fn law_drain_is_first_in_first_out(
    journal: &mut PushJournal,
    file: &JournalFile,
    n: usize,
    r: Vec<(PushEvent, JournalCursor)>,
)
    requires
        call_ensures(PushJournal::drain, (journal, file, n), r),
    ensures
        ({
            let live = push_journal::live(file.lines@);
            &&& r@.len() <= n && r@.len() <= live.len()
            &&& r@.len() == n || r@.len() == live.len()
            &&& forall|i: int|
                0 <= i < r@.len() ==> (#[trigger] r@[i]).0@ == live[i] && r@[i].1.0@ == live[i].id
        }),
{
}

/// A rewritten journal holds exactly the events that were given, in order.
pub proof fn law_rewrite_holds_exactly_the_events(
    journal: &mut PushJournal,
    file: &mut JournalFile,
    events: Vec<(PushEvent, String)>,
)
    requires
        call_ensures(PushJournal::rewrite, (journal, file, events), ()),
        forall|i: int|
            0 <= i < events@.len() ==> has_ink((#[trigger] events@[i]).1@)
                && events@[i].0.schema_version == 1 && events@[i].0.id@.len() > 0,
    ensures
        push_journal::live(final(file).lines@).len() == events@.len(),
        forall|i: int|
            0 <= i < events@.len() ==> push_journal::live(final(file).lines@)[i] == (
            #[trigger] events@[i]).0@,
        final(file).terminated,
{
    assert forall|i: int| 0 <= i < events@.len() implies !push_journal::is_blank(
        (#[trigger] events@[i]).1@,
    ) && events@[i].0.schema_version == push_journal::CURRENT_SCHEMA by {
        lemma_blank_has_no_ink(events@[i].1@);
    }
    law_rewrite_then_read(events@, final(file).lines@);
    let m = events@.map_values(|e: (PushEvent, String)| push_journal::with_id(e.0@));
    assert forall|i: int| 0 <= i < events@.len() implies m[i] == (#[trigger] events@[i]).0@ by {}
}

/// An id is the time and the counter in decimal with a dash between them.
pub proof fn law_event_id_is_time_and_counter(nanos: i64, counter: u64, r: String)
    requires
        call_ensures(push_journal::new_event_id, (nanos, counter), r),
        nanos >= 0,
    ensures
        r@ == numbers::dec_text(nanos as nat) + seq!['-'] + numbers::dec_text(counter as nat),
{
    assert(r@ =~= numbers::dec_text(nanos as nat) + seq!['-'] + numbers::dec_text(counter as nat));
}

/// How many lines of a batch are written: those that fit, in order, and the next one
/// would not.
pub proof fn law_batch_is_written_while_it_fits(
    lines: Seq<(PushEvent, String)>,
    used: u64,
    max: u64,
)
    requires
        used <= max,
    ensures
        ({
            let n = push_journal::fitting(lines, used, max);
            &&& n <= lines.len()
            &&& push_journal::grown(lines.subrange(0, n as int), used) <= max
            &&& n < lines.len() && max < u64::MAX ==> push_journal::grown(
                lines.subrange(0, n as int + 1),
                used,
            ) > max
        }),
    decreases lines.len(),
{
    let n = push_journal::fitting(lines, used, max);
    if n > 0 {
        let next = push_journal::size_sum(used, push_journal::line_size(lines[0].1@));
        let rest = lines.drop_first();
        law_batch_is_written_while_it_fits(rest, next, max);
        assert(lines.subrange(0, n as int).drop_first() =~= rest.subrange(0, n - 1));
        assert(lines.subrange(0, n as int)[0] == lines[0]);
        if n < lines.len() {
            assert(lines.subrange(0, n as int + 1).drop_first() =~= rest.subrange(0, n as int));
            assert(lines.subrange(0, n as int + 1)[0] == lines[0]);
        }
    } else if lines.len() > 0 {
        let one = lines.subrange(0, 1);
        assert(one[0] == lines[0]);
        assert(one.drop_first().len() == 0);
        assert(push_journal::grown(one, used) == push_journal::size_sum(
            used,
            push_journal::line_size(lines[0].1@),
        )) by {
            assert(push_journal::grown(
                one.drop_first(),
                push_journal::size_sum(used, push_journal::line_size(one[0].1@)),
            ) == push_journal::size_sum(used, push_journal::line_size(one[0].1@)));
        }
    }
}

/// A line takes as many bytes as its text has in UTF-8, and one for its line feed.
pub proof fn law_line_takes_its_bytes(t: Seq<char>, used: u64)
    requires
        vstd::utf8::encode_utf8(t).len() + 1 + used <= usize::MAX,
    ensures
        push_journal::size_sum(used, push_journal::line_size(t)) == used + vstd::utf8::encode_utf8(
            t,
        ).len() + 1,
{
}

/// What a cut line may hold without harm to the event that is written behind it:
/// blanks, tabs, carriage returns and line feeds.
pub proof fn law_harmless_cut_lines(t: Seq<char>)
    ensures
        push_journal::is_json_blank(t) <==> forall|i: int|
            0 <= i < t.len() ==> ({
                let n = (#[trigger] t[i]) as int;
                n == 32 || n == 9 || n == 13 || n == 10
            }),
{
    if push_journal::is_json_blank(t) {
        assert forall|i: int| 0 <= i < t.len() implies ({
            let n = (#[trigger] t[i]) as int;
            n == 32 || n == 9 || n == 13 || n == 10
        }) by {}
    }
}

/// Acknowledging one event takes that one off the journal.
pub proof fn law_acknowledged_event_is_gone(
    journal: &mut PushJournal,
    file: &JournalFile,
    cursor: JournalCursor,
    r: Option<Vec<PushEvent>>,
)
    requires
        call_ensures(PushJournal::ack, (journal, file, cursor), r),
    ensures
        ({
            let live = push_journal::live(file.lines@);
            &&& r is None <==> forall|i: int|
                0 <= i < live.len() ==> (#[trigger] live[i]).id != cursor.0@
            &&& r is Some ==> push_journal::event_views(r->0@) == live.filter(
                |e: EventView| e.id != cursor.0@,
            )
        }),
{
    let live = push_journal::live(file.lines@);
    let ids = seq![cursor.0@];
    assert forall|id: Seq<char>| #[trigger] ids.contains(id) <==> id == cursor.0@ by {
        assert(ids[0] == cursor.0@);
    }
    let p = |e: EventView| !ids.contains(e.id);
    let q = |e: EventView| e.id != cursor.0@;
    law_ack_keeps_exactly_the_others(live, ids);
    assert(p =~= q);
}

/// A journal counts its live events, and is empty exactly where it has none.
pub proof fn law_journal_counts_live_events(
    journal: &mut PushJournal,
    other: &mut PushJournal,
    file: &JournalFile,
    n: usize,
    none: bool,
)
    requires
        call_ensures(PushJournal::len, (journal, file), n),
        call_ensures(PushJournal::is_empty, (other, file), none),
    ensures
        n == push_journal::live(file.lines@).len(),
        none <==> n == 0,
{
}

/// A batch is written while it fits: the events that were written are live from then
/// on, in order and behind those that were there, and the next one would not have
/// fitted.
pub proof fn law_batch_is_queued_in_order(
    journal: &mut PushJournal,
    file: &mut JournalFile,
    events: Vec<(PushEvent, String)>,
    n: usize,
)
    requires
        call_ensures(PushJournal::append_batch, (journal, file, events), n),
        old(file).bytes <= old(journal).limit(),
        old(journal).limit() < u64::MAX,
        scans_through(old(file).lines@),
        old(file).terminated,
        forall|i: int|
            0 <= i < events@.len() ==> has_ink((#[trigger] events@[i]).1@)
                && events@[i].0.schema_version == 1 && events@[i].0.id@.len() > 0,
    ensures
        n <= events@.len(),
        push_journal::live(final(file).lines@).len() == push_journal::live(old(file).lines@).len()
            + n,
        push_journal::live(old(file).lines@).is_prefix_of(push_journal::live(final(file).lines@)),
        forall|i: int|
            0 <= i < n ==> push_journal::live(final(file).lines@)[push_journal::live(
                old(file).lines@,
            ).len() + i] == (#[trigger] events@[i]).0@,
        final(file).bytes <= old(journal).limit(),
        final(file).bytes == push_journal::grown(
            events@.subrange(0, n as int),
            old(file).bytes,
        ),
        n < events@.len() ==> push_journal::grown(
            events@.subrange(0, n as int + 1),
            old(file).bytes,
        ) > old(journal).limit(),
{
    law_batch_is_written_while_it_fits(events@, old(file).bytes, old(journal).limit());
    let sent = events@.subrange(0, n as int);
    let before = old(file).lines@;
    let after = final(file).lines@;
    let tail = after.subrange(before.len() as int, after.len() as int);
    assert(after =~= before + tail);
    assert forall|i: int| 0 <= i < sent.len() implies push_journal::written_line(
        #[trigger] sent[i],
        tail[i],
    ) && !push_journal::is_blank(sent[i].1@) && sent[i].0.schema_version
        == push_journal::CURRENT_SCHEMA by {
        assert(sent[i] == events@[i]);
        lemma_blank_has_no_ink(sent[i].1@);
        assert(tail[i] == after[before.len() + i]);
    }
    law_rewrite_then_read(sent, tail);
    lemma_live_concat(before, tail);
    let m = sent.map_values(|e: (PushEvent, String)| push_journal::with_id(e.0@));
    assert forall|i: int| 0 <= i < n implies m[i] == (#[trigger] events@[i]).0@ by {
        assert(sent[i] == events@[i]);
    }
}

} // verus!
