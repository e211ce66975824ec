//! What holds of pulls as a whole.

use vstd::prelude::*;

use crate::conflict_breaker;
use crate::digest;
use crate::frontmatter;
use crate::materializer;
use crate::materializer::{
    AlignOutcome, Decision, Frontmatter, IntegrityVerdict, MaterializeOutcome, Materializer,
    MaterializerError, MaterializerMode, NotePayload, PlanView, SkipReason, StashRequest,
    WritePlan, WriteStart, WriteVerdict,
};
use crate::note_laws;
use crate::numbers;
use crate::paths;
use crate::paths::PathStyle;
use crate::push_journal::PushEvent;
use crate::scope;
use crate::sync_shadow;
use crate::text;

verus! {

/// An edit that was never synced is never overwritten without a copy: a pull
/// that sets nothing aside finds either the last-synced bytes or a note that
/// differs from the server's in form and volatile fields only.
pub proof fn law_unsynced_edit_is_never_lost(
    m: Materializer,
    payload: NotePayload,
    change_seq: u64,
    content: Seq<u8>,
    local: Seq<u8>,
    now: u128,
)
    ensures
        match m.plan(payload, change_seq, content, Some(local), now) {
            PlanView::Pull { stash: None, aligned } => {
                let fields = text::views(m.config.strip_frontmatter_fields_for_diff@);
                if aligned {
                    frontmatter::compare_bytes(local, fields) == frontmatter::compare_bytes(
                        content,
                        fields,
                    )
                } else {
                    m.stores.synced_hash(payload.path@) == Some(digest::content_hash(local))
                }
            },
            PlanView::Pull { stash: Some(s), aligned } => {
                &&& !aligned
                &&& s.path == payload.path@
                &&& s.local_sha == digest::content_hash(local)
                &&& s.seq == change_seq
            },
            _ => true,
        },
{
}

/// A pull never drops frontmatter without a copy: where the local note has
/// frontmatter and the server's has none, it is kept or set aside first. (Left
/// out is a server note whose leading dashes are followed by a lone carriage
/// return: it counts as having no frontmatter, and yet compares as if it had.)
pub proof fn law_frontmatter_is_never_stripped(
    m: Materializer,
    payload: NotePayload,
    change_seq: u64,
    content: Seq<u8>,
    local: Seq<u8>,
    now: u128,
)
    requires
        materializer::would_strip(local, content),
        vstd::utf8::valid_utf8(content) ==> note_laws::no_lone_cr_behind_dashes(
            vstd::utf8::decode_utf8(content),
        ),
    ensures
        match m.plan(payload, change_seq, content, Some(local), now) {
            PlanView::Pull { stash, aligned } => stash is Some,
            _ => true,
        },
{
    let fields = text::views(m.config.strip_frontmatter_fields_for_diff@);
    if frontmatter::compare_bytes(local, fields) == frontmatter::compare_bytes(content, fields) {
        broadcast use vstd::utf8::encode_utf8_valid_utf8, vstd::utf8::encode_utf8_decode_utf8;

        let a = vstd::utf8::decode_utf8(local);
        let b = vstd::utf8::decode_utf8(content);
        let ca = frontmatter::compare_text(a, fields);
        let cb = frontmatter::compare_text(b, fields);
        assert(vstd::utf8::decode_utf8(vstd::utf8::encode_utf8(ca)) == ca);
        assert(vstd::utf8::decode_utf8(vstd::utf8::encode_utf8(cb)) == cb);
        assert(note_laws::no_lone_cr_behind_dashes(a)) by {
            reveal_strlit("---\n");
            reveal_strlit("---\r\n");
            let t = frontmatter::strip_bom(a);
            if t.len() > 3 && t[3] == '\r' {
                if frontmatter::opens_lf(t) {
                    assert(t.subrange(0, 4)[3] == '\n');
                }
                if frontmatter::opens_crlf(t) {
                    assert(t.subrange(0, 5)[4] == '\n');
                }
            }
        }
        note_laws::law_equal_notes_agree_on_frontmatter(a, b, fields);
    }
}

/// Where the server's copy lost nothing but its frontmatter, the local file is
/// kept, and it is pushed up if there is a journal.
pub proof fn law_server_strip_is_pushed_up(
    m: Materializer,
    payload: NotePayload,
    change_seq: u64,
    content: Seq<u8>,
    local: Seq<u8>,
    now: u128,
)
    requires
        materializer::would_strip(local, content),
        frontmatter::body_bytes(local) == frontmatter::body_bytes(content),
        frontmatter::compare_bytes(
            local,
            text::views(m.config.strip_frontmatter_fields_for_diff@),
        ) != frontmatter::compare_bytes(
            content,
            text::views(m.config.strip_frontmatter_fields_for_diff@),
        ),
        m.stores.synced_hash(payload.path@) != Some(payload.sha256@),
    ensures
        m.plan(payload, change_seq, content, Some(local), now) == (if m.journal_wired {
            PlanView::PushUp { local_sha: digest::content_hash(local) }
        } else {
            PlanView::Skip(SkipReason::GuardPreserveLocalPushUp { enqueued_push: false })
        }),
{
}

/// Pulling a note that is already there writes nothing, whatever was recorded
/// of it.
pub proof fn law_second_pull_is_a_noop(
    m: Materializer,
    payload: NotePayload,
    change_seq: u64,
    content: Seq<u8>,
    now: u128,
)
    ensures
        m.plan(payload, change_seq, content, Some(content), now) == PlanView::Skip(
            SkipReason::IdenticalToLocal,
        ),
        !m.asks_breaker(payload, content, Some(content)),
{
}

/// A local edit made after a sync survives: once a note is recorded as synced in
/// live mode, pulling the same version over a different local note leaves the
/// local file alone. In the other modes nothing is recorded at all.
pub proof fn law_edit_after_sync_survives(
    before: Materializer,
    after: Materializer,
    payload: NotePayload,
    change_seq: u64,
    content: Seq<u8>,
    local: Seq<u8>,
    now: u128,
)
    requires
        after.synced(before, payload, payload.sha256@),
        before.stores.shadow is Some,
        frontmatter::compare_bytes(
            local,
            text::views(after.config.strip_frontmatter_fields_for_diff@),
        ) != frontmatter::compare_bytes(
            content,
            text::views(after.config.strip_frontmatter_fields_for_diff@),
        ),
    ensures
        after.mode is Live ==> after.plan(payload, change_seq, content, Some(local), now)
            == PlanView::Skip(SkipReason::LocalEditPreserved),
        after.mode !is Live ==> after.stores == before.stores,
{
    if after.mode is Live {
        crate::stores::law_recorded_hash_is_read_back(
            before.stores,
            after.stores,
            payload.path@,
            payload.sha256@,
        );
    }
}

/// After a sync in live mode, an untouched file takes the next version without a
/// conflict copy, unless that version has no frontmatter where the file has.
pub proof fn law_untouched_file_follows_the_server(
    before: Materializer,
    after: Materializer,
    payload: NotePayload,
    local: Seq<u8>,
    next: NotePayload,
    change_seq: u64,
    content: Seq<u8>,
    now: u128,
)
    requires
        after.synced(before, payload, digest::content_hash(local)),
        after.mode is Live,
        before.stores.shadow is Some,
        next.path@ == payload.path@,
        next.sha256@ != digest::content_hash(local),
        !materializer::would_strip(local, content),
    ensures
        match after.plan(next, change_seq, content, Some(local), now) {
            PlanView::Pull { stash, aligned } => stash is None,
            PlanView::Skip(reason) => reason == SkipReason::IdenticalToLocal,
            PlanView::PushUp { local_sha } => false,
        },
{
    crate::stores::law_recorded_hash_is_read_back(
        before.stores,
        after.stores,
        payload.path@,
        digest::content_hash(local),
    );
}

/// Only a version whose bytes were on this disk can make an offer stale: without
/// an adopted version a conflict is never settled in silence.
pub proof fn law_observed_versions_do_not_preserve(
    m: Materializer,
    payload: NotePayload,
    change_seq: u64,
    content: Seq<u8>,
    local: Seq<u8>,
    now: u128,
)
    requires
        m.stores.adopted_seq(payload.path@) is None,
        m.verdict_on(payload, content, local) is Conflict,
    ensures
        m.plan(payload, change_seq, content, Some(local), now) != PlanView::Skip(
            SkipReason::LocalEditPreserved,
        ),
{
}

/// A version that was already adopted never moves a diverging file back: no
/// write, no copy, and the breaker is not asked.
pub proof fn law_adopted_version_never_moves_back(
    m: Materializer,
    payload: NotePayload,
    change_seq: u64,
    content: Seq<u8>,
    local: Seq<u8>,
    now: u128,
)
    requires
        m.not_newer(payload),
        m.verdict_on(payload, content, local) is Conflict,
    ensures
        m.plan(payload, change_seq, content, Some(local), now) == PlanView::Skip(
            SkipReason::LocalEditPreserved,
        ),
        !m.asks_breaker(payload, content, Some(local)),
{
}

/// While the sync history cannot be read, a file without a record is never
/// replaced by another note and never copied aside.
pub proof fn law_suspect_history_mints_no_copies(
    m: Materializer,
    payload: NotePayload,
    change_seq: u64,
    content: Seq<u8>,
    local: Seq<u8>,
    now: u128,
)
    requires
        m.stores.scope_suspect(),
        m.stores.synced_hash(payload.path@) is None,
    ensures
        match m.plan(payload, change_seq, content, Some(local), now) {
            PlanView::Pull { stash, aligned } => stash is None && aligned,
            _ => true,
        },
        !m.asks_breaker(payload, content, Some(local)),
{
}

/// While the breaker is latched no conflict copy is minted.
pub proof fn law_latched_breaker_mints_no_copies(
    m: Materializer,
    payload: NotePayload,
    change_seq: u64,
    content: Seq<u8>,
    local: Seq<u8>,
    now: u128,
)
    requires
        m.breaker@.latched,
        m.breaker.limit() > 0,
    ensures
        match m.plan(payload, change_seq, content, Some(local), now) {
            PlanView::Pull { stash, aligned } => stash is None,
            _ => true,
        },
{
}

/// The note of a safe path goes below the root of its tree.
pub proof fn law_targets_stay_in_their_tree(style: PathStyle, m: Materializer, rel: Seq<char>)
    requires
        scope::safe(rel),
        !paths::is_bare_mark(style, m.root()),
    ensures
        paths::within(style, m.root(), m.target(rel)),
{
    paths::law_join_stays_within(style, m.root(), rel);
}

/// A note's text depends on the text of its metadata and on its body alone, and
/// has a frontmatter block exactly where the metadata is neither nothing nor an
/// empty object.
pub proof fn law_metadata_text_decides(a: NotePayload, b: NotePayload)
    requires
        a.frontmatter.wf(),
        b.frontmatter.wf(),
        a.frontmatter.json() == b.frontmatter.json(),
        a.body@ == b.body@,
    ensures
        materializer::serialized(a) == materializer::serialized(b),
        a.frontmatter.is_blank() <==> a.frontmatter.json() == "null"@ || a.frontmatter.json()
            == "{}"@,
{
}

/// The names tried for one deletion all differ.
pub proof fn law_deleted_names_differ(
    file_name: Seq<char>,
    stamp: Seq<char>,
    nanos: nat,
    n: nat,
    m: nat,
)
    requires
        1 <= n < m,
    ensures
        materializer::deleted_name_spec(file_name, stamp, nanos, n)
            != materializer::deleted_name_spec(file_name, stamp, nanos, m),
{
    let first = materializer::deleted_name_spec(file_name, stamp, nanos, 1);
    let a = materializer::deleted_name_spec(file_name, stamp, nanos, n);
    let b = materializer::deleted_name_spec(file_name, stamp, nanos, m);
    reveal_strlit("-");
    if n > 1 {
        if a == b {
            let k = first.len() + 1;
            assert(a.subrange(k as int, a.len() as int) =~= crate::numbers::dec_text(n));
            assert(b.subrange(k as int, b.len() as int) =~= crate::numbers::dec_text(m));
            crate::numbers::law_dec_text_is_injective(n, m);
        }
    } else {
        assert(b.len() > a.len());
    }
}

proof fn lemma_leading_zeros_do_not_count(zeros: nat, d: Seq<char>)
    ensures
        crate::numbers::dec_value(Seq::new(zeros, |i: int| '0') + d) == crate::numbers::dec_value(d),
    decreases d.len(), zeros,
{
    let z = Seq::new(zeros, |i: int| '0');
    if d.len() == 0 {
        assert(z + d =~= z);
        if zeros > 0 {
            let less = Seq::new((zeros - 1) as nat, |i: int| '0');
            assert(z.drop_last() =~= less);
            assert(less + d =~= less);
            lemma_leading_zeros_do_not_count((zeros - 1) as nat, d);
        }
    } else {
        assert((z + d).drop_last() =~= z + d.drop_last());
        assert((z + d).last() == d.last());
        lemma_leading_zeros_do_not_count(zeros, d.drop_last());
    }
}

/// Two deletions of one file within a second keep two copies: the names of
/// different fractions of the second differ.
pub proof fn law_deletions_within_a_second_differ(
    file_name: Seq<char>,
    stamp: Seq<char>,
    a: nat,
    b: nat,
)
    requires
        a != b,
    ensures
        materializer::deleted_name_spec(file_name, stamp, a, 1) != materializer::deleted_name_spec(
            file_name,
            stamp,
            b,
            1,
        ),
{
    let x = materializer::deleted_name_spec(file_name, stamp, a, 1);
    let y = materializer::deleted_name_spec(file_name, stamp, b, 1);
    let head = file_name + ".deleted-"@ + stamp + "-"@;
    let pa = materializer::padded(a, 9);
    let pb = materializer::padded(b, 9);
    if x == y {
        assert(x.subrange(head.len() as int, x.len() as int) =~= pa);
        assert(y.subrange(head.len() as int, y.len() as int) =~= pb);
        let da = crate::numbers::dec_text(a);
        let db = crate::numbers::dec_text(b);
        lemma_leading_zeros_do_not_count((9 - da.len()) as nat, da);
        lemma_leading_zeros_do_not_count((9 - db.len()) as nat, db);
        crate::numbers::lemma_dec_round_trip(a);
        crate::numbers::lemma_dec_round_trip(b);
    }
}

/// `body` is the body of `s`: what follows its frontmatter block, or all of it
/// where it has none that is closed.
pub open spec fn is_body_of(s: Seq<char>, body: Seq<char>) -> bool {
    &&& !s.contains('\r')
    &&& s.len() == 0 || s[0] != '\u{feff}'
    &&& {
        ||| note_laws::has_no_block(s) && body == s
        ||| exists|ls: Seq<Seq<char>>| #[trigger]
            note_laws::block_lines(ls) && !body.contains('\r') && s == note_laws::note(
                ls,
                seq!['\n'],
                body,
            )
    }
}

proof fn lemma_body_of(s: Seq<char>, body: Seq<char>)
    requires
        is_body_of(s, body),
    ensures
        frontmatter::body_bytes(vstd::utf8::encode_utf8(s)) == vstd::utf8::encode_utf8(body),
{
    note_laws::law_bytes_stand_for_their_text(vstd::utf8::encode_utf8(s), s, Seq::empty());
    if note_laws::has_no_block(s) && body == s {
        note_laws::law_text_without_a_block_is_itself(s, Seq::empty());
    } else {
        let ls = choose|ls: Seq<Seq<char>>| #[trigger]
            note_laws::block_lines(ls) && !body.contains('\r') && s == note_laws::note(
                ls,
                seq!['\n'],
                body,
            );
        note_laws::law_body_is_what_follows_the_block(ls, body);
    }
}

proof fn lemma_encoding_is_injective(a: Seq<char>, b: Seq<char>)
    ensures
        vstd::utf8::encode_utf8(a) == vstd::utf8::encode_utf8(b) <==> a == b,
{
    vstd::utf8::encode_utf8_decode_utf8(a);
    vstd::utf8::encode_utf8_decode_utf8(b);
}

/// A server copy counts as one that merely lost its frontmatter exactly where its
/// body is the local body: not a character more or less.
pub proof fn law_guard_arm_compares_whole_bodies(
    s: Seq<char>,
    x: Seq<char>,
    t: Seq<char>,
    y: Seq<char>,
)
    requires
        is_body_of(s, x),
        is_body_of(t, y),
    ensures
        materializer::guard_arm(vstd::utf8::encode_utf8(s), vstd::utf8::encode_utf8(t))
            is PreserveAndPushUp <==> x == y,
        materializer::guard_arm(vstd::utf8::encode_utf8(s), vstd::utf8::encode_utf8(t))
            is StashThenAlign <==> x != y,
{
    lemma_body_of(s, x);
    lemma_body_of(t, y);
    lemma_encoding_is_injective(x, y);
}

/// Bytes that are no text are never taken for another note's body.
pub proof fn law_guard_arm_on_other_bytes(local: Seq<u8>, server: Seq<u8>)
    requires
        !vstd::utf8::valid_utf8(local) || !vstd::utf8::valid_utf8(server),
    ensures
        materializer::guard_arm(local, server) is PreserveAndPushUp <==> local == server,
{
    if vstd::utf8::valid_utf8(local) {
        vstd::utf8::encode_utf8_valid_utf8(
            frontmatter::body_text(vstd::utf8::decode_utf8(local)),
        );
    }
    if vstd::utf8::valid_utf8(server) {
        vstd::utf8::encode_utf8_valid_utf8(
            frontmatter::body_text(vstd::utf8::decode_utf8(server)),
        );
    }
}

/// The local file is pushed up over a server copy only where no text is lost: the
/// body behind its frontmatter is the server note's body. Where the bodies differ
/// and a pull would drop frontmatter, the local bytes are a conflict.
pub proof fn law_push_up_loses_no_text(
    m: Materializer,
    payload: NotePayload,
    change_seq: u64,
    s: Seq<char>,
    x: Seq<char>,
    t: Seq<char>,
    y: Seq<char>,
    now: u128,
)
    requires
        is_body_of(s, x),
        is_body_of(t, y),
    ensures
        ({
            let local = vstd::utf8::encode_utf8(s);
            let content = vstd::utf8::encode_utf8(t);
            let plan = m.plan(payload, change_seq, content, Some(local), now);
            let fields = text::views(m.config.strip_frontmatter_fields_for_diff@);
            &&& plan is PushUp || plan == PlanView::Skip(
                SkipReason::GuardPreserveLocalPushUp { enqueued_push: false },
            ) ==> x == y
            &&& x != y && materializer::would_strip(local, content) && m.stores.synced_hash(
                payload.path@,
            ) != Some(payload.sha256@) && frontmatter::compare_bytes(local, fields)
                != frontmatter::compare_bytes(content, fields) ==> m.verdict_on(
                payload,
                content,
                local,
            ) is Conflict
        }),
{
    law_guard_arm_compares_whole_bodies(s, x, t, y);
}

/// The three-way decision. Equal bytes are the same note, and notes that differ in
/// form only are aligned. Otherwise a local edit of what the server still has is
/// kept, an untouched file takes the server's note, and everything else is a
/// conflict; where taking the server's note would drop frontmatter, an equal body
/// means that the local note goes up instead.
pub proof fn law_three_way_decision(
    fields: Seq<Seq<char>>,
    shadow: Option<Seq<char>>,
    server_sha: Seq<char>,
    content: Seq<u8>,
    local: Seq<u8>,
)
    ensures
        ({
            let v = materializer::verdict(fields, shadow, server_sha, content, local);
            let same = frontmatter::compare_bytes(local, fields) == frontmatter::compare_bytes(
                content,
                fields,
            );
            let strips = frontmatter::has_frontmatter(local) && !frontmatter::has_frontmatter(
                content,
            );
            let equal_bodies = frontmatter::body_bytes(local) == frontmatter::body_bytes(content);
            let server_moved = shadow != Some(server_sha);
            let local_moved = shadow != Some(digest::content_hash(local));
            &&& v is Identical <==> local == content
            &&& v is Align <==> same && local != content
            &&& v is KeepLocalEdit <==> !same && !server_moved
            &&& v is PushLocalUp <==> !same && server_moved && strips && equal_bodies
            &&& v is PullClean <==> !same && server_moved && !local_moved && !strips
            &&& v is Conflict <==> !same && server_moved && if strips {
                !equal_bodies
            } else {
                local_moved
            }
        }),
{
}

/// An edit survives: in a vault whose last-synced version the server still has, a
/// local note that differs from the server's in its body or in any line that
/// belongs to no listed field stays on disk.
pub proof fn law_edit_of_any_other_line_survives(
    m: Materializer,
    payload: NotePayload,
    change_seq: u64,
    a: Seq<Seq<char>>,
    x: Seq<char>,
    b: Seq<Seq<char>>,
    y: Seq<char>,
    now: u128,
)
    requires
        note_laws::block_lines(a),
        note_laws::block_lines(b),
        !x.contains('\r'),
        !y.contains('\r'),
        m.stores.synced_hash(payload.path@) == Some(payload.sha256@),
        note_laws::remainder(a, text::views(m.config.strip_frontmatter_fields_for_diff@))
            != note_laws::remainder(
            b,
            text::views(m.config.strip_frontmatter_fields_for_diff@),
        ) || x != y,
    ensures
        m.plan(
            payload,
            change_seq,
            vstd::utf8::encode_utf8(note_laws::note(b, seq!['\n'], y)),
            Some(vstd::utf8::encode_utf8(note_laws::note(a, seq!['\n'], x))),
            now,
        ) == PlanView::Skip(SkipReason::LocalEditPreserved),
{
    let fields = text::views(m.config.strip_frontmatter_fields_for_diff@);
    let s = note_laws::note(a, seq!['\n'], x);
    let t = note_laws::note(b, seq!['\n'], y);
    note_laws::law_notes_compare_equal_iff(a, x, b, y, fields);
    note_laws::law_bytes_stand_for_their_text(vstd::utf8::encode_utf8(s), s, fields);
    note_laws::law_bytes_stand_for_their_text(vstd::utf8::encode_utf8(t), t, fields);
    lemma_encoding_is_injective(
        frontmatter::compare_text(s, fields),
        frontmatter::compare_text(t, fields),
    );
}

/// The same note in another form is brought into the server's form without a copy,
/// whatever was recorded: one that differs in nothing but listed fields.
pub proof fn law_listed_fields_do_not_conflict(
    m: Materializer,
    payload: NotePayload,
    change_seq: u64,
    a: Seq<Seq<char>>,
    b: Seq<Seq<char>>,
    body: Seq<char>,
    now: u128,
)
    requires
        note_laws::block_lines(a),
        note_laws::block_lines(b),
        !body.contains('\r'),
        a != b,
        note_laws::remainder(a, text::views(m.config.strip_frontmatter_fields_for_diff@))
            == note_laws::remainder(
            b,
            text::views(m.config.strip_frontmatter_fields_for_diff@),
        ),
    ensures
        m.plan(
            payload,
            change_seq,
            vstd::utf8::encode_utf8(note_laws::note(b, seq!['\n'], body)),
            Some(vstd::utf8::encode_utf8(note_laws::note(a, seq!['\n'], body))),
            now,
        ) == (PlanView::Pull { stash: None, aligned: true }),
{
    let fields = text::views(m.config.strip_frontmatter_fields_for_diff@);
    let s = note_laws::note(a, seq!['\n'], body);
    let t = note_laws::note(b, seq!['\n'], body);
    note_laws::law_notes_compare_equal_iff(a, body, b, body, fields);
    note_laws::law_notes_differ(a, body, b, body);
    note_laws::law_bytes_stand_for_their_text(vstd::utf8::encode_utf8(s), s, fields);
    note_laws::law_bytes_stand_for_their_text(vstd::utf8::encode_utf8(t), t, fields);
    lemma_encoding_is_injective(s, t);
}

/// A note that is not there is written, and nothing is set aside.
pub proof fn law_missing_file_is_written(
    m: Materializer,
    payload: NotePayload,
    change_seq: u64,
    content: Seq<u8>,
    now: u128,
)
    ensures
        m.plan(payload, change_seq, content, None, now) == (PlanView::Pull {
            stash: None,
            aligned: false,
        }),
        !m.asks_breaker(payload, content, None),
{
}

/// Where both sides moved, the local bytes are set aside under the version on
/// offer before the server's are written, unless the version on offer is an old
/// one, the sync history cannot be read or the breaker refuses.
pub proof fn law_diverged_bytes_are_set_aside(
    m: Materializer,
    payload: NotePayload,
    change_seq: u64,
    content: Seq<u8>,
    local: Seq<u8>,
    now: u128,
)
    requires
        frontmatter::compare_bytes(
            local,
            text::views(m.config.strip_frontmatter_fields_for_diff@),
        ) != frontmatter::compare_bytes(
            content,
            text::views(m.config.strip_frontmatter_fields_for_diff@),
        ),
        m.stores.synced_hash(payload.path@) != Some(payload.sha256@),
        m.stores.synced_hash(payload.path@) != Some(digest::content_hash(local)),
        !(frontmatter::has_frontmatter(local) && !frontmatter::has_frontmatter(content)),
        m.stores.synced_hash(payload.path@) is Some || !m.stores.scope_suspect(),
        m.stores.adopted_seq(payload.path@) is None || payload.change_seq is None
            || payload.change_seq->0 > m.stores.adopted_seq(payload.path@)->0,
        !m.breaker_answer(now).1,
    ensures
        match m.plan(payload, change_seq, content, Some(local), now) {
            PlanView::Pull { stash: Some(s), aligned } => {
                &&& s.path == payload.path@
                &&& s.device_id == m.config.device_id@
                &&& s.seq == change_seq
                &&& s.local_sha == digest::content_hash(local)
                &&& !aligned
            },
            _ => false,
        },
        m.asks_breaker(payload, content, Some(local)),
{
}

// ---------------------------------------------------------------------------
// The steps of a pull
// ---------------------------------------------------------------------------

/// A pull goes on exactly where the mode is not disabled and the path is safe. It
/// writes the exact text that the server sent, or else the text put together from
/// metadata and body, below the root of the mode.
pub proof fn law_pull_begins_with_the_server_s_bytes(
    m: Materializer,
    payload: &NotePayload,
    r: Result<WriteStart, MaterializerError>,
)
    requires
        call_ensures(Materializer::begin_write, (&m, payload), r),
    ensures
        m.mode is Disabled <==> r == Ok::<WriteStart, MaterializerError>(
            WriteStart::Skip(SkipReason::DisabledMode),
        ),
        m.mode !is Disabled && !scope::safe(payload.path@) <==> r is Err,
        r is Err ==> (r->Err_0 matches MaterializerError::PathTraversal(p) && p@ == payload.path@),
        match r {
            Ok(WriteStart::Ready(w)) => {
                &&& m.mode !is Disabled && scope::safe(payload.path@)
                &&& payload.enriched_body is Some ==> w.content@ == vstd::utf8::encode_utf8(
                    payload.enriched_body->0@,
                )
                &&& payload.enriched_body is None ==> w.content@ == vstd::utf8::encode_utf8(
                    materializer::serialized(*payload),
                )
                &&& w.content_sha@ == digest::content_hash(w.content@)
                &&& w.announce == m.echo_guarded
                &&& m.mode is Live && payload.path@.len() > 0 && m.vaults_root@.len() > 0
                    && m.vaults_root@.last() != '/' ==> w.target@ == m.vaults_root@ + seq!['/']
                    + payload.path@
                &&& w.lock_key@ == sync_shadow::canonical_path(payload.path@)
            },
            _ => true,
        },
{
    if let Ok(WriteStart::Ready(w)) = r {
        let root = m.vaults_root@;
        let path = payload.path@;
        if m.mode is Live && path.len() > 0 && root.len() > 0 && root.last() != '/' {
            assert(path[0] != '/');
            assert(w.target@ =~= root + seq!['/'] + path);
        }
    }
}

/// A note without metadata is its body. Any other has its metadata as YAML between
/// two lines of dashes, an empty line and the body.
pub proof fn law_note_text_is_put_together(payload: &NotePayload, r: String)
    requires
        call_ensures(materializer::serialize_with_frontmatter, (payload,), r),
    ensures
        payload.frontmatter is Null ==> r@ == payload.body@,
        (payload.frontmatter matches Frontmatter::Object { fields, .. } && fields == 0) ==> r@
            == payload.body@,
        match payload.frontmatter {
            Frontmatter::Object { fields, json } if fields > 0
                && materializer::yaml_of_json(json@) is Some => r@ == "---\n"@
                + materializer::yaml_of_json(json@)->0 + "---\n\n"@ + payload.body@,
            Frontmatter::Other { json } if materializer::yaml_of_json(json@) is Some => r@
                == "---\n"@ + materializer::yaml_of_json(json@)->0 + "---\n\n"@ + payload.body@,
            _ => true,
        },
        r@.len() >= payload.body@.len(),
        r@.subrange(r@.len() - payload.body@.len(), r@.len() as int) == payload.body@,
{
    let b = payload.body@;
    assert(r@.subrange(r@.len() - b.len(), r@.len() as int) =~= b);
}

/// A written note is recorded under the hash that the server gave it, and under its
/// version, in live mode; one that did not verify is not recorded at all and is
/// reported as broken.
pub proof fn law_only_verified_writes_are_recorded(
    m: &mut Materializer,
    payload: &NotePayload,
    target: String,
    content_sha: String,
    stash_path: Option<String>,
    aligned: bool,
    check: IntegrityVerdict,
    r: MaterializeOutcome,
    other: Seq<char>,
)
    requires
        call_ensures(
            Materializer::finish_write,
            (m, payload, target, content_sha, stash_path, aligned, check),
            r,
        ),
        old(m).stores.shadow is Some,
        old(m).stores.base_seq is Some,
    ensures
        ({
            let broken = old(m).config.enable_integrity_check && check !is Matches;
            let path = payload.path@;
            let fs = old(m).stores.shadow->0.folders();
            &&& broken <==> r is IntegrityFailed
            &&& broken || old(m).mode !is Live ==> final(m).stores.shadow == old(m).stores.shadow
                && final(m).stores.base_seq == old(m).stores.base_seq
            &&& !broken && old(m).mode is Live ==> {
                &&& final(m).stores.synced_hash(path) == Some(payload.sha256@)
                &&& payload.change_seq is Some ==> final(m).stores.adopted_seq(path)
                    == payload.change_seq && final(m).stores.declared_seq(path)
                    == payload.change_seq
                &&& payload.change_seq is None ==> final(m).stores.base_seq == old(m).stores.base_seq
                &&& sync_shadow::canon_key(fs, other) != sync_shadow::canon_key(fs, path)
                    ==> final(m).stores.synced_hash(other) == old(m).stores.synced_hash(other)
            }
            &&& !broken && stash_path is Some <==> r is Stashed
            &&& !broken && stash_path is None && aligned <==> r is AlignedToCanonical
            &&& !broken && stash_path is None && !aligned <==> r is Wrote
        }),
        final(m).same_setup(*old(m)),
{
}

/// Planning a pull records nothing, but for a file that is the server's byte for
/// byte: that one is recorded as synced in live mode.
pub proof fn law_planning_records_only_identical_files(
    m: &mut Materializer,
    payload: &NotePayload,
    change_seq: u64,
    content: &[u8],
    local: Option<&[u8]>,
    now: u128,
    r: WritePlan,
)
    requires
        call_ensures(
            Materializer::write_with_change_seq,
            (m, payload, change_seq, content, local, now),
            r,
        ),
        old(m).stores.shadow is Some,
    ensures
        local is None || local->0@ != content@ ==> final(m).stores.shadow == old(m).stores.shadow
            && final(m).stores.base_seq == old(m).stores.base_seq,
        local is Some && local->0@ == content@ ==> {
            &&& r == WritePlan::Skip(SkipReason::IdenticalToLocal)
            &&& old(m).mode is Live ==> final(m).stores.synced_hash(payload.path@) == Some(
                digest::content_hash(content@),
            )
            &&& old(m).mode !is Live ==> final(m).stores.shadow == old(m).stores.shadow
        },
        local is None ==> r == (WritePlan::Pull { stash: None, aligned: false }),
        final(m).same_setup(*old(m)),
        r@ == old(m).plan(*payload, change_seq, content@, materializer::opt_slice(local), now),
{
    if local is Some {
        law_three_way_decision(
            text::views(old(m).config.strip_frontmatter_fields_for_diff@),
            old(m).stores.synced_hash(payload.path@),
            payload.sha256@,
            content@,
            local->0@,
        );
    }
}

/// A file is rewritten to the server's form only where it still holds what was
/// pushed, and never where that would drop its frontmatter.
pub proof fn law_rewrite_never_overwrites_an_edit(
    canonical: &[u8],
    expected: &str,
    current: Option<&[u8]>,
    r: Option<AlignOutcome>,
)
    requires
        call_ensures(Materializer::write_aligned_bytes, (canonical, expected, current), r),
    ensures
        r is None <==> current is Some && digest::content_hash(current->0@) == expected@ && !(
        frontmatter::has_frontmatter(current->0@) && !frontmatter::has_frontmatter(canonical@)),
        current is None <==> r == Some(AlignOutcome::SkippedMissing),
        current is Some && digest::content_hash(current->0@) != expected@ <==> (r matches Some(
            AlignOutcome::SkippedConcurrentEdit { current_sha },
        ) && current_sha@ == digest::content_hash(current->0@)),
{
}

/// A file that is about to be deleted is set aside exactly where it holds something
/// and that is not what was last synced.
pub proof fn law_unpushed_edit_survives_a_delete(
    m: Materializer,
    path: &str,
    local: Option<&[u8]>,
    r: Option<StashRequest>,
)
    requires
        call_ensures(Materializer::stash_local_before_delete, (&m, path, local), r),
    ensures
        r is Some <==> local is Some && local->0@.len() > 0 && m.stores.synced_hash(path@) is Some
            && m.stores.synced_hash(path@) != Some(digest::content_hash(local->0@)),
        r is Some ==> {
            &&& r->0.path@ == path@
            &&& r->0.device_id@ == m.config.device_id@
            &&& r->0.local_sha@ == digest::content_hash(local->0@)
            &&& m.stores.declared_seq(path@) is Some && m.stores.declared_seq(path@)->0 >= 0
                ==> r->0.seq == m.stores.declared_seq(path@)->0
            &&& m.stores.declared_seq(path@) is None || m.stores.declared_seq(path@)->0 < 0
                ==> r->0.seq == 0
        },
{
}

/// A delete and a rewrite touch only safe paths, and nothing in disabled mode.
pub proof fn law_deletes_and_rewrites_stay_in_the_tree(
    m: Materializer,
    path: &str,
    d: Result<Option<String>, MaterializerError>,
    a: Result<Option<String>, MaterializerError>,
)
    requires
        call_ensures(Materializer::soft_delete, (&m, path), d),
        call_ensures(Materializer::begin_aligned_write, (&m, path), a),
    ensures
        d is Err <==> !scope::safe(path@),
        a is Err <==> !scope::safe(path@) && m.mode !is Disabled,
        (d is Ok && d->Ok_0 is Some) <==> scope::safe(path@) && m.mode !is Disabled,
        (a is Ok && a->Ok_0 is Some) <==> scope::safe(path@) && m.mode !is Disabled,
        d is Ok && d->Ok_0 is Some ==> (d->Ok_0)->0@ == m.target(path@) && (a->Ok_0)->0@
            == m.target(path@),
{
}

/// The push that carries kept local bytes up is a change of the same path, based on
/// the server's note, and has the hash of those bytes.
pub proof fn law_compensating_push_is_based_on_the_server(
    m: Materializer,
    payload: &NotePayload,
    local_sha: &str,
    id: String,
    queued_at: String,
    e: PushEvent,
)
    requires
        call_ensures(Materializer::compensating_push, (&m, payload, local_sha, id, queued_at), e),
    ensures
        e.path@ == payload.path@,
        e.action is Modify,
        text::opt_text(e.base_hash) == Some(payload.sha256@),
        e.content_sha@ == local_sha@,
        text::opt_bytes(e.content_bytes) is None,
        e.id@ == id@ && e.queued_at@ == queued_at@ && e.device_id@ == m.config.device_id@,
        e.schema_version == 1,
{
    assert(e@.path == payload.path@);
    assert(e@.action is Modify);
    assert(e@.base_hash == Some(payload.sha256@));
    assert(e@.content_sha == local_sha@);
    assert(e@.content_bytes is None);
}

/// A rewrite that was done is recorded under the hash of what was written, and
/// moves no version.
pub proof fn law_rewrite_is_recorded(
    m: &mut Materializer,
    path: &str,
    sha: &str,
    target: String,
    r: AlignOutcome,
)
    requires
        call_ensures(Materializer::finish_aligned_write, (m, path, sha, target), r),
        old(m).stores.shadow is Some,
    ensures
        final(m).stores.synced_hash(path@) == Some(sha@),
        final(m).stores.base_seq == old(m).stores.base_seq,
        r == (AlignOutcome::Rewrote { path: target }),
{
}

/// A target is refused exactly where its folder is not within the root.
pub proof fn law_confined_to_the_root(
    m: Materializer,
    style: PathStyle,
    path: &str,
    root: &str,
    parent: &str,
    r: Result<(), MaterializerError>,
)
    requires
        call_ensures(Materializer::confine, (&m, style, path, root, parent), r),
    ensures
        r is Ok <==> paths::within(style, root@, parent@),
        r is Err ==> (r->Err_0 matches MaterializerError::PathTraversal(p) && p@ == path@),
{
}

/// Conflict copies are counted at most every half minute, and only for a tray.
pub proof fn law_conflict_scan_is_debounced(m: &mut Materializer, now_ms: i64, r: Option<String>)
    requires
        call_ensures(Materializer::refresh_conflict_count_into_tray, (m, now_ms), r),
        old(m).last_conflict_refresh_ms > 0,
    ensures
        r is Some <==> old(m).stores.tray is Some && now_ms - old(m).last_conflict_refresh_ms
            >= 30_000,
        r is Some ==> r->0@ == old(m).root() && final(m).last_conflict_refresh_ms == now_ms,
        r is None ==> final(m).last_conflict_refresh_ms == old(m).last_conflict_refresh_ms,
{
}

/// A deleted file is kept under its own name with the time behind it, and under a
/// name that is free.
pub proof fn law_deleted_file_keeps_its_name(
    file_name: &str,
    stamp: &str,
    nanos: u32,
    taken: &[String],
    r: String,
)
    requires
        call_ensures(materializer::deleted_name, (file_name, stamp, nanos, taken), r),
        taken@.len() < u32::MAX - 1,
    ensures
        r@.len() > file_name@.len() + 9 + stamp@.len(),
        r@.subrange(0, (file_name@.len() + 9 + stamp@.len()) as int) == file_name@ + ".deleted-"@
            + stamp@,
        !text::views(taken@).contains(r@),
{
    reveal_strlit(".deleted-");
    reveal_strlit("-");
    let at = |n: nat| materializer::deleted_name_spec(file_name@, stamp@, nanos as nat, n);
    let names = text::views(taken@);
    let head = file_name@ + ".deleted-"@ + stamp@;
    assert forall|n: nat| (#[trigger] at(n)).len() > head.len() && at(n).subrange(
        0,
        head.len() as int,
    ) == head by {
        assert(at(n).subrange(0, head.len() as int) =~= head);
    }
    if names.contains(r@) {
        assert(r@ == at(1nat));
        assert(forall|m: nat| 1 <= m < u32::MAX ==> names.contains(#[trigger] at(m)));
        assert forall|m: nat| 1 <= m <= u32::MAX - 1 implies names.contains(
            #[trigger] materializer::deleted_name_spec(file_name@, stamp@, nanos as nat, m),
        ) by {
            assert(names.contains(at(m)));
        }
        lemma_too_many_names(file_name@, stamp@, nanos as nat, names, (u32::MAX - 1) as nat);
    }
    let n = choose|n: nat| r@ == #[trigger] at(n);
    assert(r@ == at(n));
}

/// So many different names cannot all stand in a shorter list.
proof fn lemma_too_many_names(
    file_name: Seq<char>,
    stamp: Seq<char>,
    nanos: nat,
    names: Seq<Seq<char>>,
    count: nat,
)
    requires
        forall|m: nat|
            1 <= m <= count ==> names.contains(
                #[trigger] materializer::deleted_name_spec(file_name, stamp, nanos, m),
            ),
    ensures
        names.len() >= count,
{
    let all = Seq::new(
        count,
        |i: int| materializer::deleted_name_spec(file_name, stamp, nanos, (i + 1) as nat),
    );
    assert(all.no_duplicates()) by {
        assert forall|i: int, j: int| 0 <= i < all.len() && 0 <= j < all.len() && i != j implies all[i]
            != all[j] by {
            if i < j {
                law_deleted_names_differ(
                    file_name,
                    stamp,
                    nanos,
                    (i + 1) as nat,
                    (j + 1) as nat,
                );
            } else {
                law_deleted_names_differ(
                    file_name,
                    stamp,
                    nanos,
                    (j + 1) as nat,
                    (i + 1) as nat,
                );
            }
        }
    }
    all.unique_seq_to_set();
    names.lemma_cardinality_of_set();
    assert(all.to_set().subset_of(names.to_set())) by {
        assert forall|x: Seq<char>| all.to_set().contains(x) implies names.to_set().contains(x) by {
            let i = choose|i: int| 0 <= i < all.len() && all[i] == x;
            assert(names.contains(all[i]));
        }
    }
    vstd::set_lib::lemma_len_subset(all.to_set(), names.to_set());
}

/// A mode is named in full and in lower case; any other name means the tree beside
/// the vault.
pub proof fn law_unknown_mode_writes_beside_the_vault(s: &str, r: MaterializerMode)
    requires
        call_ensures(MaterializerMode::from_str, (s,), r),
    ensures
        r is Live <==> s@ == "live"@,
        r is Disabled <==> s@ == "disabled"@,
{
    reveal_strlit("live");
    reveal_strlit("disabled");
    assert("live"@.len() != "disabled"@.len());
}

/// In live mode notes go below the folder of the vaults, and otherwise below the
/// subscriber's own folder in the daemon's state.
pub proof fn law_modes_write_to_their_own_trees(m: Materializer, rel: Seq<char>)
    requires
        rel.len() > 0 && rel[0] != '/',
        m.vaults_root@.len() > 0 && m.vaults_root@.last() != '/',
        m.workspace_root@.len() > 0 && m.workspace_root@.last() != '/',
        m.subscriber_slug@.len() > 0 && m.subscriber_slug@[0] != '/' && m.subscriber_slug@.last()
            != '/',
        m.shadow_subdir@.len() > 0 && m.shadow_subdir@[0] != '/' && m.shadow_subdir@.last() != '/',
    ensures
        m.mode is Live ==> m.target(rel) == m.vaults_root@ + seq!['/'] + rel,
        m.mode !is Live ==> m.target(rel) == m.workspace_root@ + "/.lattice-runtime/"@
            + m.subscriber_slug@ + seq!['/'] + m.shadow_subdir@ + seq!['/'] + rel,
{
    reveal_strlit(".lattice-runtime");
    reveal_strlit("/.lattice-runtime/");
    if m.mode is Live {
        assert(m.target(rel) =~= m.vaults_root@ + seq!['/'] + rel);
    } else {
        let w = m.workspace_root@;
        let a = paths::joined(w, materializer::RUNTIME_DIR@);
        assert(a =~= w + seq!['/'] + ".lattice-runtime"@);
        assert(a.last() == 'e');
        let b = paths::joined(a, m.subscriber_slug@);
        assert(b.last() == m.subscriber_slug@.last());
        let c = paths::joined(b, m.shadow_subdir@);
        assert(c.last() == m.shadow_subdir@.last());
        assert(m.target(rel) =~= w + "/.lattice-runtime/"@ + m.subscriber_slug@ + seq!['/']
            + m.shadow_subdir@ + seq!['/'] + rel);
    }
}

/// A pull that would drop frontmatter leaves the local file, and nothing else is
/// changed about a decision.
pub proof fn law_guard_changes_overwrites_only(d: Decision, strips: bool, r: Decision)
    requires
        call_ensures(materializer::guard_no_frontmatter_strip, (d, strips), r),
    ensures
        !strips ==> r == d,
        d is Noop || d is PreserveLocalEdit ==> r == d,
        strips && (d is PullClean || d is Conflict) ==> r is PreserveLocalEdit,
{
}

/// Equal notes need nothing. Otherwise, without a record of a last sync everything
/// is a conflict; with one, the side that moved wins, and if both moved it is a
/// conflict.
pub proof fn law_the_side_that_moved_wins(
    same: bool,
    recorded: bool,
    server_still: bool,
    local_still: bool,
    r: Decision,
)
    requires
        call_ensures(materializer::decide, (same, recorded, server_still, local_still), r),
    ensures
        r is Noop <==> same,
        !same && !recorded ==> r is Conflict,
        !same && recorded && server_still ==> r is PreserveLocalEdit,
        !same && recorded && !server_still && local_still ==> r is PullClean,
        !same && recorded && !server_still && !local_still ==> r is Conflict,
{
}

/// Why a conflict is left alone: the version on offer is no newer than one that was
/// already on this disk; or else the sync history cannot be read; or else the
/// breaker refuses.
pub proof fn law_why_a_conflict_is_left_alone(
    m: Materializer,
    payload: NotePayload,
    change_seq: u64,
    content: Seq<u8>,
    local: Seq<u8>,
    now: u128,
)
    requires
        frontmatter::compare_bytes(
            local,
            text::views(m.config.strip_frontmatter_fields_for_diff@),
        ) != frontmatter::compare_bytes(
            content,
            text::views(m.config.strip_frontmatter_fields_for_diff@),
        ),
        m.stores.synced_hash(payload.path@) != Some(payload.sha256@),
        m.stores.synced_hash(payload.path@) != Some(digest::content_hash(local)),
        !(frontmatter::has_frontmatter(local) && !frontmatter::has_frontmatter(content)),
    ensures
        ({
            let plan = m.plan(payload, change_seq, content, Some(local), now);
            let adopted = m.stores.adopted_seq(payload.path@);
            let old_version = payload.change_seq is Some && adopted is Some && payload.change_seq->0
                <= adopted->0;
            let unreadable = m.stores.synced_hash(payload.path@) is None && m.stores.scope_suspect();
            &&& old_version <==> plan == PlanView::Skip(SkipReason::LocalEditPreserved)
            &&& !old_version && unreadable <==> plan == PlanView::Skip(
                SkipReason::ShadowScopeSuspect,
            )
            &&& !old_version && !unreadable && m.breaker_answer(now).1 <==> plan == PlanView::Skip(
                SkipReason::ConflictStormBreakerOpen,
            )
            &&& m.asks_breaker(payload, content, Some(local)) <==> !old_version && !unreadable
        }),
{
}

/// The plan says what the verdict means: an identical file and a kept edit are left,
/// a note in another form and an untouched file are written without a copy.
pub proof fn law_plan_follows_the_verdict(
    m: Materializer,
    payload: NotePayload,
    change_seq: u64,
    content: Seq<u8>,
    local: Seq<u8>,
    now: u128,
)
    ensures
        ({
            let plan = m.plan(payload, change_seq, content, Some(local), now);
            match m.verdict_on(payload, content, local) {
                WriteVerdict::Identical => plan == PlanView::Skip(SkipReason::IdenticalToLocal),
                WriteVerdict::Align => plan == (PlanView::Pull { stash: None, aligned: true }),
                WriteVerdict::KeepLocalEdit => plan == PlanView::Skip(
                    SkipReason::LocalEditPreserved,
                ),
                WriteVerdict::PullClean => plan == (PlanView::Pull {
                    stash: None,
                    aligned: false,
                }),
                WriteVerdict::PushLocalUp => if m.journal_wired {
                    plan == (PlanView::PushUp { local_sha: digest::content_hash(local) })
                } else {
                    plan == PlanView::Skip(
                        SkipReason::GuardPreserveLocalPushUp { enqueued_push: false },
                    )
                },
                WriteVerdict::Conflict => !(plan is PushUp) && (plan matches PlanView::Pull {
                    stash,
                    aligned,
                } ==> stash is Some && !aligned),
            }
        }),
        m.verdict_on(payload, content, local) == materializer::verdict(
            text::views(m.config.strip_frontmatter_fields_for_diff@),
            m.stores.synced_hash(payload.path@),
            payload.sha256@,
            content,
            local,
        ),
{
}

/// Where a conflict makes the breaker latch, the tray shows it; every conflict that
/// is put to the breaker moves it on, and nothing else does.
pub proof fn law_latching_is_shown(
    m: &mut Materializer,
    payload: &NotePayload,
    change_seq: u64,
    content: &[u8],
    local: Option<&[u8]>,
    now: u128,
    r: WritePlan,
)
    requires
        call_ensures(
            Materializer::write_with_change_seq,
            (m, payload, change_seq, content, local, now),
            r,
        ),
        old(m).stores.tray is Some,
    ensures
        ({
            let asked = old(m).asks_breaker(*payload, content@, materializer::opt_slice(local));
            let step = conflict_breaker::breaker_step(
                old(m).breaker@,
                old(m).breaker.limit(),
                old(m).breaker.window(),
                now,
            );
            &&& asked ==> final(m).breaker@ == step.0
            &&& !asked ==> final(m).breaker@ == old(m).breaker@
            &&& final(m).stores.tray is Some
            &&& final(m).stores.tray->0.conflict_storm_latched <==> old(m).stores.tray->0.conflict_storm_latched || (asked && step.2)
            &&& final(m).stores.tray->0.uploads_sent == old(m).stores.tray->0.uploads_sent
        }),
{
}

/// The first name that is tried for a deleted file: its own, the time, and the
/// fraction of the second in nine digits.
pub proof fn law_first_name_of_a_deleted_file(
    file_name: Seq<char>,
    stamp: Seq<char>,
    nanos: nat,
    n: nat,
)
    requires
        nanos < 1_000_000_000,
        n > 1,
    ensures
        ({
            let first = materializer::deleted_name_spec(file_name, stamp, nanos, 1);
            let d = numbers::dec_text(nanos);
            &&& first.len() == file_name.len() + 9 + stamp.len() + 1 + 9
            &&& first == file_name + ".deleted-"@ + stamp + "-"@ + first.subrange(
                first.len() - 9,
                first.len() as int,
            )
            &&& first.subrange(first.len() - d.len(), first.len() as int) == d
            &&& forall|i: int|
                first.len() - 9 <= i < first.len() - d.len() ==> #[trigger] first[i] == '0'
            &&& materializer::deleted_name_spec(file_name, stamp, nanos, n) == first + "-"@
                + numbers::dec_text(n)
        }),
{
    reveal_strlit(".deleted-");
    reveal_strlit("-");
    let first = materializer::deleted_name_spec(file_name, stamp, nanos, 1);
    let d = numbers::dec_text(nanos);
    assert(vstd::arithmetic::power::pow(10, 9) == 1_000_000_000) by {
        reveal_with_fuel(vstd::arithmetic::power::pow, 10);
    }
    lemma_digits_below(nanos, 9);
    let p = materializer::padded(nanos, 9);
    assert(p.len() == 9);
    assert(first.subrange(first.len() - 9, first.len() as int) =~= p);
    assert(first.subrange(first.len() - d.len(), first.len() as int) =~= d);
}

proof fn lemma_digits_below(n: nat, width: nat)
    requires
        width > 0,
        n < vstd::arithmetic::power::pow(10, width),
    ensures
        numbers::dec_text(n).len() <= width,
    decreases width,
{
    vstd::arithmetic::power::lemma_pow1(10);
    if n >= 10 {
        if width == 1 {
        } else {
            vstd::arithmetic::power::lemma_pow_adds(10, 1, (width - 1) as nat);
            let p = vstd::arithmetic::power::pow(10, (width - 1) as nat);
            assert(n / 10 < p) by (nonlinear_arith)
                requires
                    n < 10 * p,
            ;
            lemma_digits_below(n / 10, (width - 1) as nat);
        }
    }
}

/// A write goes by the plan for it, as of no change in particular.
pub proof fn law_write_goes_by_the_plan(
    m: &mut Materializer,
    payload: &NotePayload,
    content: &[u8],
    local: Option<&[u8]>,
    now: u128,
    r: WritePlan,
)
    requires
        call_ensures(Materializer::write, (m, payload, content, local, now), r),
    ensures
        r@ == old(m).plan(*payload, 0, content@, materializer::opt_slice(local), now),
        final(m).mode == old(m).mode,
        final(m).vaults_root == old(m).vaults_root,
{
}

/// Where the files of a vault stand, as paths.
pub proof fn law_files_stand_below_their_root(
    m: &Materializer,
    rel: &str,
    target: String,
    live: String,
    style: PathStyle,
    found: &str,
    back: Option<String>,
)
    requires
        call_ensures(Materializer::target_path, (m, rel), target),
        call_ensures(Materializer::live_path_for, (m, rel), live),
        call_ensures(Materializer::rel_for_stash, (m, style, found), back),
        rel@.len() > 0 && rel@[0] != '/',
        m.vaults_root@.len() > 0 && m.vaults_root@.last() != '/',
        !paths::is_bare_mark(style, m.vaults_root@),
        !paths::cuts(style, rel@[0]),
        !rel@.contains('\\'),
    ensures
        live@ == m.vaults_root@ + seq!['/'] + rel@,
        m.mode is Live ==> target@ == live@,
        m.mode !is Live ==> back is None,
        m.mode is Live && found@ == live@ && paths::tidy(style, rel@) ==> back is Some
            && back->0@ == rel@,
{
    assert(paths::joined(m.vaults_root@, rel@) =~= m.vaults_root@ + seq!['/'] + rel@);
    paths::law_join_stays_within(style, m.vaults_root@, rel@);
    assert(crate::rasp_fence::slashed(rel@) =~= rel@) by {
        assert forall|i: int| 0 <= i < rel@.len() implies rel@[i] != '\\' by {
            assert(rel@.contains(rel@[i]));
        }
    }
}

/// What is counted of conflict copies is shown in the tray, and a reset breaker is
/// as new; neither touches anything else.
pub proof fn law_conflicts_are_shown_and_reset(
    a: &mut Materializer,
    count: usize,
    b: &mut Materializer,
    after: Materializer,
    latched: bool,
    enqueued: bool,
    outcome: MaterializeOutcome,
)
    requires
        call_ensures(Materializer::publish_conflict_count, (a, count), ()),
        call_ensures(Materializer::reset_conflict_storm_breaker, (b,), ()),
        after == *final(b),
        call_ensures(Materializer::conflict_storm_latched, (&after,), latched),
        call_ensures(Materializer::finish_push_up, (enqueued,), outcome),
    ensures
        old(a).stores.tray is Some ==> final(a).stores.tray is Some && (
        final(a).stores.tray->0).conflict_unresolved == count,
        old(a).stores.tray is None ==> final(a).stores.tray is None,
        final(a).stores.shadow == old(a).stores.shadow && final(a).breaker == old(a).breaker,
        !latched,
        final(b).stores == old(b).stores && final(b).mode == old(b).mode,
        outcome is Skipped,
        outcome == MaterializeOutcome::Skipped(
            SkipReason::GuardPreserveLocalPushUp { enqueued_push: enqueued },
        ),
{
}

/// What a materializer is given it has, and nothing else of it changes.
pub proof fn law_materializer_is_put_together(
    m: Materializer,
    shadow: sync_shadow::ShadowStore,
    base: crate::base_seq_store::BaseSeqStore,
    tray: crate::tray_state::TrayState,
    a: Materializer,
    b: Materializer,
    c: Materializer,
    d: Materializer,
    e: Materializer,
)
    requires
        call_ensures(Materializer::with_shadow_store, (m, shadow), a),
        call_ensures(Materializer::with_base_seq_store, (m, base), b),
        call_ensures(Materializer::with_tray_state, (m, tray), c),
        call_ensures(Materializer::with_echo_guard, (m,), d),
        call_ensures(Materializer::with_push_journal, (m,), e),
    ensures
        a.stores.shadow == Some(shadow) && a.stores.base_seq == m.stores.base_seq && a.stores.tray
            == m.stores.tray && a.mode == m.mode,
        b.stores.base_seq == Some(base) && b.stores.shadow == m.stores.shadow && b.stores.tray
            == m.stores.tray && b.mode == m.mode,
        c.stores.tray == Some(tray) && c.stores.shadow == m.stores.shadow && c.stores.base_seq
            == m.stores.base_seq && c.mode == m.mode,
        d.echo_guarded && d.journal_wired == m.journal_wired && d.stores == m.stores,
        e.journal_wired && e.echo_guarded == m.echo_guarded && e.stores == m.stores,
{
}

} // verus!
