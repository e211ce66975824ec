//! What holds of the comparison basis of notes as a whole.

use vstd::prelude::*;

use crate::frontmatter;
use crate::text;

verus! {

/// `s` with carriage return and line feed for every line feed.
pub open spec fn to_crlf(s: Seq<char>) -> Seq<char>
    decreases s.len(),
{
    if s.len() == 0 {
        Seq::empty()
    } else if s[0] == '\n' {
        seq!['\r', '\n'] + to_crlf(s.drop_first())
    } else {
        seq![s[0]] + to_crlf(s.drop_first())
    }
}

/// `s` led by a byte order mark.
pub open spec fn with_bom(s: Seq<char>) -> Seq<char> {
    seq!['\u{feff}'] + s
}

/// Text without carriage returns is its own fold.
pub proof fn lemma_fold_lf(s: Seq<char>)
    requires
        !s.contains('\r'),
    ensures
        frontmatter::fold_eol(s) == s,
    decreases s.len(),
{
    if s.len() > 0 {
        let t = s.subrange(1, s.len() as int);
        assert(s.contains(s[0]));
        assert forall|c: char| t.contains(c) implies s.contains(c) by {
            let i = choose|i: int| 0 <= i < t.len() && t[i] == c;
            assert(s[i + 1] == c);
        }
        lemma_fold_lf(t);
        assert(seq![s[0]] + t =~= s);
    }
}

/// Folding undoes the conversion of line feeds to carriage return, line feed.
pub proof fn lemma_fold_crlf(s: Seq<char>)
    requires
        !s.contains('\r'),
    ensures
        frontmatter::fold_eol(to_crlf(s)) == s,
    decreases s.len(),
{
    if s.len() > 0 {
        let t = s.drop_first();
        assert(s.contains(s[0]));
        assert forall|c: char| t.contains(c) implies s.contains(c) by {
            let i = choose|i: int| 0 <= i < t.len() && t[i] == c;
            assert(s[i + 1] == c);
        }
        lemma_fold_crlf(t);
        let x = to_crlf(s);
        assert(seq![s[0]] + t =~= s);
        if s[0] == '\n' {
            assert(x[0] == '\r' && x[1] == '\n');
            assert(x.subrange(2, x.len() as int) =~= to_crlf(t));
        } else {
            assert(x[0] == s[0]);
            assert(x.subrange(1, x.len() as int) =~= to_crlf(t));
        }
    }
}

/// The fold holds no carriage return.
pub proof fn lemma_fold_has_no_cr(s: Seq<char>)
    ensures
        !frontmatter::fold_eol(s).contains('\r'),
    decreases s.len(),
{
    if s.len() > 0 {
        let r = frontmatter::fold_eol(s);
        if s[0] == '\r' && s.len() > 1 && s[1] == '\n' {
            lemma_fold_has_no_cr(s.subrange(2, s.len() as int));
            assert(r.subrange(1, r.len() as int) =~= frontmatter::fold_eol(
                s.subrange(2, s.len() as int),
            ));
        } else {
            lemma_fold_has_no_cr(s.subrange(1, s.len() as int));
            assert(r.subrange(1, r.len() as int) =~= frontmatter::fold_eol(
                s.subrange(1, s.len() as int),
            ));
        }
        if r.contains('\r') {
            let i = choose|i: int| 0 <= i < r.len() && r[i] == '\r';
            assert(i > 0);
            assert(r.subrange(1, r.len() as int)[i - 1] == '\r');
        }
    }
}

/// A note written with Windows line endings, a byte order mark or both is no
/// different note: it compares equal to the same note with bare line feeds.
pub proof fn law_line_endings_and_bom_do_not_count(s: Seq<char>, fields: Seq<Seq<char>>)
    requires
        !s.contains('\r'),
        s.len() == 0 || s[0] != '\u{feff}',
    ensures
        frontmatter::compare_text(to_crlf(s), fields) == frontmatter::compare_text(s, fields),
        frontmatter::compare_text(with_bom(s), fields) == frontmatter::compare_text(s, fields),
        frontmatter::compare_text(with_bom(to_crlf(s)), fields) == frontmatter::compare_text(
            s,
            fields,
        ),
{
    lemma_fold_lf(s);
    lemma_fold_crlf(s);
    let x = to_crlf(s);
    if s.len() > 0 {
        assert(x[0] == s[0] || x[0] == '\r');
    }
    assert(with_bom(s).subrange(1, with_bom(s).len() as int) =~= s);
    assert(with_bom(x).subrange(1, with_bom(x).len() as int) =~= x);
}

/// Exchanging one dropped line for another changes nothing that is kept.
pub proof fn lemma_kept_lines_swap(
    before: Seq<Seq<char>>,
    l1: Seq<char>,
    l2: Seq<char>,
    after: Seq<Seq<char>>,
    fields: Seq<Seq<char>>,
    skipping: bool,
)
    requires
        frontmatter::starts_dropped(l1, fields),
        frontmatter::starts_dropped(l2, fields),
    ensures
        frontmatter::kept_lines(before.push(l1) + after, fields, skipping)
            == frontmatter::kept_lines(before.push(l2) + after, fields, skipping),
    decreases before.len(),
{
    let x = before.push(l1) + after;
    let y = before.push(l2) + after;
    if before.len() == 0 {
        assert(x[0] == l1 && y[0] == l2);
        assert(x.drop_first() =~= after);
        assert(y.drop_first() =~= after);
    } else {
        let rest = before.drop_first();
        assert(x[0] == before[0] && y[0] == before[0]);
        assert(x.drop_first() =~= rest.push(l1) + after);
        assert(y.drop_first() =~= rest.push(l2) + after);
        lemma_kept_lines_swap(rest, l1, l2, after, fields, true);
        lemma_kept_lines_swap(rest, l1, l2, after, fields, false);
    }
}

/// Two notes that differ only in the value of a volatile field compare equal:
/// same body, and blocks that agree but for one line that starts a dropped
/// field in both.
pub proof fn law_volatile_field_does_not_count(
    s1: Seq<char>,
    s2: Seq<char>,
    fields: Seq<Seq<char>>,
    before: Seq<Seq<char>>,
    l1: Seq<char>,
    l2: Seq<char>,
    after: Seq<Seq<char>>,
    f1: (int, int),
    f2: (int, int),
)
    requires
        frontmatter::opens_lf(frontmatter::plain_text(s1)),
        frontmatter::opens_lf(frontmatter::plain_text(s2)),
        frontmatter::closing_fence(frontmatter::plain_text(s1), 4) == Some(f1),
        frontmatter::closing_fence(frontmatter::plain_text(s2), 4) == Some(f2),
        frontmatter::lines(frontmatter::plain_text(s1).subrange(4, f1.0)) == before.push(l1)
            + after,
        frontmatter::lines(frontmatter::plain_text(s2).subrange(4, f2.0)) == before.push(l2)
            + after,
        frontmatter::starts_dropped(l1, fields),
        frontmatter::starts_dropped(l2, fields),
        frontmatter::body_text(s1) == frontmatter::body_text(s2),
    ensures
        frontmatter::compare_text(s1, fields) == frontmatter::compare_text(s2, fields),
{
    assert(fields.len() > 0);
    lemma_kept_lines_swap(before, l1, l2, after, fields, false);
}

/// A block in front of a body does not change the body: stripping the
/// frontmatter off a note leaves what the note compares as.
pub proof fn law_body_ignores_frontmatter(note: Seq<char>, bare: Seq<char>, f: (int, int))
    requires
        frontmatter::opens_lf(frontmatter::plain_text(note)),
        frontmatter::closing_fence(frontmatter::plain_text(note), 4) == Some(f),
        frontmatter::plain_text(bare) == frontmatter::plain_text(note).subrange(
            f.1,
            frontmatter::plain_text(note).len() as int,
        ),
        !frontmatter::opens_lf(frontmatter::plain_text(bare)),
    ensures
        frontmatter::body_text(note) == frontmatter::body_text(bare),
{
}

/// A comparison text opens with a fence exactly when the plain text does.
pub proof fn lemma_compare_keeps_opening(s: Seq<char>, fields: Seq<Seq<char>>)
    ensures
        frontmatter::opens_lf(frontmatter::compare_text(s, fields)) == frontmatter::opens_lf(
            frontmatter::plain_text(s),
        ),
        (frontmatter::compare_text(s, fields) == frontmatter::fence()) == (
        frontmatter::plain_text(s) == frontmatter::fence()),
{
    reveal_strlit("---\n");
    let t = frontmatter::plain_text(s);
    if frontmatter::opens_lf(t) {
        if let Some(f) = frontmatter::closing_fence(t, 4) {
            let c = frontmatter::compare_text(s, fields);
            assert(c.subrange(0, 4) =~= "---\n"@);
            assert(c.len() >= 4 && t.len() >= 4);
            assert(frontmatter::fence().len() == 3);
        }
    }
}

/// A prefix without carriage returns stands unchanged in the fold.
proof fn lemma_fold_prefix(s: Seq<char>, n: int)
    requires
        0 <= n <= s.len(),
        forall|k: int| 0 <= k < n ==> #[trigger] s[k] != '\r',
    ensures
        frontmatter::fold_eol(s) == s.subrange(0, n) + frontmatter::fold_eol(
            s.subrange(n, s.len() as int),
        ),
    decreases n,
{
    if n == 0 {
        assert(s.subrange(0, s.len() as int) =~= s);
        assert(s.subrange(0, 0) + frontmatter::fold_eol(s) =~= frontmatter::fold_eol(s));
    } else {
        let t = s.subrange(1, s.len() as int);
        assert(s[0] != '\r');
        assert forall|k: int| 0 <= k < n - 1 implies #[trigger] t[k] != '\r' by {
            assert(t[k] == s[k + 1]);
        }
        lemma_fold_prefix(t, n - 1);
        assert(t.subrange(n - 1, t.len() as int) =~= s.subrange(n, s.len() as int));
        assert(seq![s[0]] + t.subrange(0, n - 1) =~= s.subrange(0, n));
        assert(seq![s[0]] + (t.subrange(0, n - 1) + frontmatter::fold_eol(
            s.subrange(n, s.len() as int),
        )) =~= s.subrange(0, n) + frontmatter::fold_eol(s.subrange(n, s.len() as int)));
    }
}

/// Where the text of a note leads with three dashes, they are not followed by a
/// carriage return that stands alone.
pub open spec fn no_lone_cr_behind_dashes(s: Seq<char>) -> bool {
    let t = frontmatter::strip_bom(s);
    !(t.len() > 3 && t.subrange(0, 3) == frontmatter::fence() && t[3] == '\r' && !(t.len() > 4
        && t[4] == '\n'))
}

proof fn lemma_fence_survives_folding(s: Seq<char>)
    requires
        no_lone_cr_behind_dashes(s),
    ensures
        frontmatter::leads_with_fence(s) == (frontmatter::opens_lf(frontmatter::plain_text(s))
            || frontmatter::plain_text(s) == frontmatter::fence()),
{
    reveal_strlit("---\n");
    reveal_strlit("---\r\n");
    let t = frontmatter::strip_bom(s);
    let p = frontmatter::plain_text(s);
    lemma_fold_has_no_cr(t);
    // The leading run of dashes is the same in both texts.
    if t.len() >= 3 && t[0] == '-' && t[1] == '-' && t[2] == '-' {
        assert(t.subrange(0, 3) =~= frontmatter::fence());
        lemma_fold_prefix(t, 3);
        let r = t.subrange(3, t.len() as int);
        assert(p =~= t.subrange(0, 3) + frontmatter::fold_eol(r));
        if t.len() == 3 {
            assert(r.len() == 0);
            assert(p =~= t);
        } else {
            assert(r[0] == t[3]);
            let g = frontmatter::fold_eol(r);
            assert(g.len() > 0 && p[3] == g[0]);
            if t[3] == '\r' {
                assert(t[4] == '\n');
                assert(g[0] == '\n');
                assert(t.subrange(0, 5) =~= "---\r\n"@);
                assert(p.subrange(0, 4) =~= "---\n"@);
            } else {
                assert(g[0] == t[3]);
                assert(p.len() > 3);
                if t[3] == '\n' {
                    assert(t.subrange(0, 4) =~= "---\n"@);
                    assert(p.subrange(0, 4) =~= "---\n"@);
                } else {
                    if frontmatter::opens_lf(p) {
                        assert(p.subrange(0, 4)[3] == '\n');
                    }
                    if frontmatter::opens_lf(t) {
                        assert(t.subrange(0, 4)[3] == '\n');
                    }
                    if frontmatter::opens_crlf(t) {
                        assert(t.subrange(0, 5)[3] == '\r');
                    }
                }
            }
        }
    } else {
        if frontmatter::opens_lf(t) {
            assert(t.subrange(0, 4)[0] == '-' && t.subrange(0, 4)[1] == '-' && t.subrange(0, 4)[2]
                == '-');
        }
        if frontmatter::opens_crlf(t) {
            assert(t.subrange(0, 5)[0] == '-' && t.subrange(0, 5)[1] == '-' && t.subrange(0, 5)[2]
                == '-');
        }
        if frontmatter::opens_lf(p) || p == frontmatter::fence() {
            if frontmatter::opens_lf(p) {
                assert(p.subrange(0, 4)[0] == '-' && p.subrange(0, 4)[1] == '-' && p.subrange(
                    0,
                    4,
                )[2] == '-');
            }
            assert(p[0] == '-' && p[1] == '-' && p[2] == '-');
            lemma_fold_unprefix(t);
            assert(false);
        }
    }
}

/// Three dashes at the front of a fold stand at the front of the text.
proof fn lemma_fold_unprefix(t: Seq<char>)
    requires
        frontmatter::fold_eol(t).len() >= 3,
        frontmatter::fold_eol(t)[0] == '-',
        frontmatter::fold_eol(t)[1] == '-',
        frontmatter::fold_eol(t)[2] == '-',
    ensures
        t.len() >= 3,
        t[0] == '-' && t[1] == '-' && t[2] == '-',
{
    let p = frontmatter::fold_eol(t);
    assert(t.len() > 0);
    assert(t[0] == '-');
    let t1 = t.subrange(1, t.len() as int);
    let p1 = frontmatter::fold_eol(t1);
    assert(p =~= seq![t[0]] + p1);
    assert(p1[0] == p[1] && p1[1] == p[2]);
    assert(t1.len() > 0);
    assert(t1[0] == '-');
    let t2 = t1.subrange(1, t1.len() as int);
    let p2 = frontmatter::fold_eol(t2);
    assert(p1 =~= seq![t1[0]] + p2);
    assert(p2[0] == p1[1]);
    assert(t2.len() > 0);
    assert(t2[0] == '-');
    assert(t[1] == t1[0] && t[2] == t2[0]);
}

/// Notes that compare equal agree on whether they have frontmatter, so that
/// rewriting one to the other strips none.
pub proof fn law_equal_notes_agree_on_frontmatter(
    a: Seq<char>,
    b: Seq<char>,
    fields: Seq<Seq<char>>,
)
    requires
        frontmatter::compare_text(a, fields) == frontmatter::compare_text(b, fields),
        no_lone_cr_behind_dashes(a),
        no_lone_cr_behind_dashes(b),
    ensures
        frontmatter::leads_with_fence(a) == frontmatter::leads_with_fence(b),
{
    lemma_compare_keeps_opening(a, fields);
    lemma_compare_keeps_opening(b, fields);
    lemma_fence_survives_folding(a);
    lemma_fence_survives_folding(b);
}

/// Containment is reflexive: a note loses none of its own lines.
pub proof fn law_lines_contain_themselves(a: Seq<Seq<char>>)
    ensures
        frontmatter::contained_in_order(a, a),
{
    let f = Seq::new(a.len(), |i: int| i);
    assert(frontmatter::embeds(a, a, f));
}

/// Containment never holds by size alone: a line that the local note lacks is
/// lost, however long the note is.
pub proof fn law_missing_line_is_not_contained(
    a: Seq<Seq<char>>,
    b: Seq<Seq<char>>,
    line: Seq<char>,
)
    requires
        a.contains(line),
        !b.contains(line),
    ensures
        !frontmatter::contained_in_order(a, b),
{
    if frontmatter::contained_in_order(a, b) {
        let f = choose|f: Seq<int>| #[trigger] frontmatter::embeds(a, b, f);
        let i = choose|i: int| 0 <= i < a.len() && a[i] == line;
        assert(b[f[i]] == line);
    }
}

/// Containment is transitive.
pub proof fn law_containment_chains(
    a: Seq<Seq<char>>,
    b: Seq<Seq<char>>,
    c: Seq<Seq<char>>,
)
    requires
        frontmatter::contained_in_order(a, b),
        frontmatter::contained_in_order(b, c),
    ensures
        frontmatter::contained_in_order(a, c),
{
    let f = choose|f: Seq<int>| #[trigger] frontmatter::embeds(a, b, f);
    let g = choose|g: Seq<int>| #[trigger] frontmatter::embeds(b, c, g);
    let h = Seq::new(f.len(), |i: int| g[f[i]]);
    assert forall|i: int| 0 <= i < h.len() implies 0 <= #[trigger] h[i] < c.len() && c[h[i]]
        == a[i] by {
        let k = f[i];
        assert(0 <= g[k] < c.len() && c[g[k]] == b[k]);
    }
    assert forall|i: int, j: int| 0 <= i < j < h.len() implies #[trigger] h[i] < #[trigger] h[j] by {
        assert(f[i] < f[j]);
        let x = f[i];
        let y = f[j];
        assert(g[x] < g[y]);
    }
    assert(frontmatter::embeds(a, c, h));
}

// ---------------------------------------------------------------------------
// Notes as they are written
// ---------------------------------------------------------------------------

/// A bare line feed, or carriage return and line feed.
pub open spec fn is_line_end(eol: Seq<char>) -> bool {
    eol == seq!['\n'] || eol == seq!['\r', '\n']
}

/// Lines as they stand in a file, each with its line end.
pub open spec fn written(ls: Seq<Seq<char>>, eol: Seq<char>) -> Seq<char>
    decreases ls.len(),
{
    if ls.len() == 0 {
        Seq::empty()
    } else {
        written(ls.drop_last(), eol) + ls.last() + eol
    }
}

/// Lines that can stand in a frontmatter block: none of them closes it.
pub open spec fn block_lines(ls: Seq<Seq<char>>) -> bool {
    forall|i: int|
        0 <= i < ls.len() ==> {
            &&& !(#[trigger] ls[i]).contains('\n')
            &&& !ls[i].contains('\r')
            &&& ls[i] != seq!['-', '-', '-']
        }
}

/// A note: a frontmatter block of these lines between two lines of dashes, and the
/// body behind it.
pub open spec fn note(ls: Seq<Seq<char>>, eol: Seq<char>, body: Seq<char>) -> Seq<char> {
    seq!['-', '-', '-'] + eol + written(ls, eol) + seq!['-', '-', '-'] + eol + body
}

/// `k` is what is left of `s` without white space at either end.
pub open spec fn trims_to(s: Seq<char>, k: Seq<char>) -> bool {
    exists|a: int, b: int| #[trigger] trim_cut(s, a, b) && k == s.subrange(a, b)
}

/// Between `a` and `b` stands all of `s` but the white space at its ends.
pub open spec fn trim_cut(s: Seq<char>, a: int, b: int) -> bool {
    &&& 0 <= a <= b <= s.len()
    &&& forall|i: int| 0 <= i < a ==> text::is_white(#[trigger] s[i])
    &&& forall|i: int| b <= i < s.len() ==> text::is_white(#[trigger] s[i])
    &&& a < b ==> !text::is_white(s[a]) && !text::is_white(s[b - 1])
}

/// The line is a `key: value` with the key `k`, or has no colon and `k` is empty.
pub open spec fn has_key(line: Seq<char>, k: Seq<char>) -> bool {
    ||| !line.contains(':') && k.len() == 0
    ||| exists|c: int|
        0 <= c < line.len() && #[trigger] line[c] == ':' && !line.subrange(0, c).contains(':')
            && trims_to(line.subrange(0, c), k)
}

/// The line has one of these keys.
pub open spec fn has_listed_key(line: Seq<char>, fields: Seq<Seq<char>>) -> bool {
    exists|f: int| 0 <= f < fields.len() && has_key(line, #[trigger] fields[f])
}

/// The line is indented: it goes on with the value of the key above it.
pub open spec fn is_indented(line: Seq<char>) -> bool {
    line.len() > 0 && (line[0] == ' ' || line[0] == '\t')
}

/// The field that starts at `j` has a listed key and goes on to `i`.
pub open spec fn is_listed_field(
    ls: Seq<Seq<char>>,
    fields: Seq<Seq<char>>,
    j: int,
    i: int,
) -> bool {
    &&& 0 <= j <= i < ls.len()
    &&& !is_indented(ls[j])
    &&& has_listed_key(ls[j], fields)
    &&& forall|k: int| j < k <= i ==> is_indented(#[trigger] ls[k])
}

/// The line at `i` belongs to a field with a listed key.
pub open spec fn belongs_to_listed(ls: Seq<Seq<char>>, fields: Seq<Seq<char>>, i: int) -> bool {
    exists|j: int| #[trigger] is_listed_field(ls, fields, j, i)
}

/// Those of the first `n` lines that belong to no field with a listed key.
pub open spec fn unlisted(ls: Seq<Seq<char>>, fields: Seq<Seq<char>>, n: int) -> Seq<Seq<char>>
    decreases n,
{
    if n <= 0 {
        Seq::empty()
    } else if belongs_to_listed(ls, fields, n - 1) {
        unlisted(ls, fields, n - 1)
    } else {
        unlisted(ls, fields, n - 1).push(ls[n - 1])
    }
}

/// What is left of a block without its listed fields; a block that loses every line
/// keeps an empty one.
pub open spec fn remainder(ls: Seq<Seq<char>>, fields: Seq<Seq<char>>) -> Seq<Seq<char>> {
    let k = unlisted(ls, fields, ls.len() as int);
    if k.len() == 0 {
        seq![Seq::empty()]
    } else {
        k
    }
}

/// `s` has no frontmatter block that is closed: it does not open with a line of
/// dashes, or no line behind that one is a line of dashes with its line feed.
pub open spec fn has_no_block(s: Seq<char>) -> bool {
    ||| s.len() < 4
    ||| s.subrange(0, 4) != seq!['-', '-', '-', '\n']
    ||| forall|i: int|
        3 <= i && i + 5 <= s.len() ==> #[trigger] s.subrange(i, i + 5) != seq![
            '\n',
            '-',
            '-',
            '-',
            '\n',
        ]
}

proof fn lemma_written_front(ls: Seq<Seq<char>>, eol: Seq<char>)
    requires
        ls.len() > 0,
    ensures
        written(ls, eol) == ls[0] + eol + written(ls.drop_first(), eol),
    decreases ls.len(),
{
    if ls.len() == 1 {
        assert(ls.drop_last() =~= Seq::empty());
        assert(ls.drop_first() =~= Seq::empty());
        assert(written(ls, eol) =~= ls[0] + eol + written(ls.drop_first(), eol));
    } else {
        let init = ls.drop_last();
        lemma_written_front(init, eol);
        assert(ls.drop_first().drop_last() =~= init.drop_first());
        assert(ls.drop_first().last() == ls.last());
        assert(written(ls, eol) =~= ls[0] + eol + written(ls.drop_first(), eol));
    }
}

/// A line that ends in the text ends there for the search as well.
proof fn lemma_line_end_found(s: Seq<char>, from: int, line: Seq<char>, eol: Seq<char>)
    requires
        is_line_end(eol),
        !line.contains('\n'),
        !line.contains('\r'),
        0 <= from,
        from + line.len() + eol.len() <= s.len(),
        s.subrange(from, from + line.len() + eol.len()) == line + eol,
    ensures
        frontmatter::next_newline(s, from) == Some(from + line.len() + eol.len() - 1),
        frontmatter::drop_cr(s.subrange(from, from + line.len() + eol.len() - 1)) == line,
{
    let t = line + eol;
    let e = from + t.len() - 1;
    assert forall|i: int| from <= i <= e implies s[i] == t[i - from] by {
        assert(s.subrange(from, from + t.len())[i - from] == s[i]);
    }
    assert(s[e] == '\n');
    assert forall|i: int| from <= i < e implies s[i] != '\n' by {
        if i - from < line.len() {
            assert(t[i - from] == line[i - from]);
            assert(line.contains(line[i - from]));
        }
    }
    frontmatter::lemma_next_newline(s, from);
    let whole = s.subrange(from, e);
    if eol == seq!['\n'] {
        assert(whole =~= line);
        if line.len() > 0 {
            assert(line.contains(line.last()));
        }
    } else {
        assert(whole =~= line.push('\r'));
        assert(whole.drop_last() =~= line);
    }
}

proof fn lemma_lines_read_back(ls: Seq<Seq<char>>, eol: Seq<char>)
    requires
        is_line_end(eol),
        forall|i: int| 0 <= i < ls.len() ==> !(#[trigger] ls[i]).contains('\n') && !ls[i].contains('\r'),
    ensures
        frontmatter::lines(written(ls, eol)) == ls,
    decreases ls.len(),
{
    let s = written(ls, eol);
    if ls.len() == 0 {
        assert(frontmatter::lines(s) =~= ls);
    } else {
        lemma_written_front(ls, eol);
        let rest = ls.drop_first();
        let n = (ls[0].len() + eol.len()) as int;
        assert(s.subrange(0, n) =~= ls[0] + eol);
        lemma_line_end_found(s, 0, ls[0], eol);
        assert(s.subrange(n, s.len() as int) =~= written(rest, eol));
        assert forall|i: int| 0 <= i < rest.len() implies !(#[trigger] rest[i]).contains('\n')
            && !rest[i].contains('\r') by {
            assert(rest[i] == ls[i + 1]);
        }
        lemma_lines_read_back(rest, eol);
        assert(frontmatter::lines(s) =~= seq![ls[0]] + rest);
        assert(seq![ls[0]] + rest =~= ls);
    }
}

proof fn lemma_unlines(ls: Seq<Seq<char>>)
    ensures
        frontmatter::unlines(ls) == written(ls, seq!['\n']),
    decreases ls.len(),
{
    if ls.len() > 0 {
        lemma_written_front(ls, seq!['\n']);
        lemma_unlines(ls.drop_first());
        assert(ls[0].push('\n') =~= ls[0] + seq!['\n']);
    }
}

/// The closing fence stands behind the lines of the block.
proof fn lemma_closing_fence(
    s: Seq<char>,
    from: int,
    ls: Seq<Seq<char>>,
    eol: Seq<char>,
    body: Seq<char>,
)
    requires
        is_line_end(eol),
        block_lines(ls),
        0 <= from <= s.len(),
        s.subrange(from, s.len() as int) == written(ls, eol) + seq!['-', '-', '-'] + eol + body,
    ensures
        frontmatter::closing_fence(s, from) == Some(
            (
                (from + written(ls, eol).len()) as int,
                (from + written(ls, eol).len() + 3 + eol.len()) as int,
            ),
        ),
    decreases ls.len(),
{
    let t = s.subrange(from, s.len() as int);
    let d = seq!['-', '-', '-'];
    if ls.len() == 0 {
        assert(t =~= d + eol + body);
        assert(s.subrange(from, from + 3 + eol.len()) =~= d + eol) by {
            assert(t.subrange(0, (3 + eol.len()) as int) =~= d + eol);
            assert(s.subrange(from, from + 3 + eol.len()) =~= t.subrange(
                0,
                (3 + eol.len()) as int,
            ));
        }
        lemma_line_end_found(s, from, d, eol);
        assert(frontmatter::fence() =~= d);
    } else {
        lemma_written_front(ls, eol);
        let rest = ls.drop_first();
        let line = ls[0];
        let n = (line.len() + eol.len()) as int;
        assert(t =~= line + eol + (written(rest, eol) + d + eol + body));
        assert(t.subrange(0, n) =~= line + eol);
        assert(s.subrange(from, from + line.len() + eol.len()) =~= t.subrange(0, n));
        lemma_line_end_found(s, from, line, eol);
        assert(frontmatter::fence() =~= d);
        assert(s.subrange(from + n, s.len() as int) =~= t.subrange(n, t.len() as int));
        assert(t.subrange(n, t.len() as int) =~= written(rest, eol) + d + eol + body);
        assert(block_lines(rest)) by {
            assert forall|i: int| 0 <= i < rest.len() implies {
                &&& !(#[trigger] rest[i]).contains('\n')
                &&& !rest[i].contains('\r')
                &&& rest[i] != seq!['-', '-', '-']
            } by {
                assert(rest[i] == ls[i + 1]);
            }
        }
        lemma_closing_fence(s, from + n, rest, eol, body);
    }
}

proof fn lemma_trim_start_at(s: Seq<char>, a: int)
    requires
        0 <= a <= s.len(),
        forall|i: int| 0 <= i < a ==> text::is_white(#[trigger] s[i]),
        a < s.len() ==> !text::is_white(s[a]),
    ensures
        text::trim_start(s) == s.subrange(a, s.len() as int),
    decreases a,
{
    if a == 0 {
        assert(s.subrange(0, s.len() as int) =~= s);
    } else {
        let t = s.drop_first();
        assert(text::is_white(s[0]));
        assert forall|i: int| 0 <= i < a - 1 implies text::is_white(#[trigger] t[i]) by {
            assert(t[i] == s[i + 1]);
        }
        lemma_trim_start_at(t, a - 1);
        assert(t.subrange(a - 1, t.len() as int) =~= s.subrange(a, s.len() as int));
    }
}

proof fn lemma_trim_end_at(s: Seq<char>, b: int)
    requires
        0 <= b <= s.len(),
        forall|i: int| b <= i < s.len() ==> text::is_white(#[trigger] s[i]),
        b > 0 ==> !text::is_white(s[b - 1]),
    ensures
        text::trim_end(s) == s.subrange(0, b),
    decreases s.len() - b,
{
    if b == s.len() {
        assert(s.subrange(0, b) =~= s);
    } else {
        let t = s.drop_last();
        assert(text::is_white(s[s.len() - 1]));
        assert forall|i: int| b <= i < t.len() implies text::is_white(#[trigger] t[i]) by {
            assert(t[i] == s[i]);
        }
        lemma_trim_end_at(t, b);
        assert(t.subrange(0, b) =~= s.subrange(0, b));
    }
}

proof fn lemma_trim_cut_is_trimmed(s: Seq<char>, a: int, b: int)
    requires
        trim_cut(s, a, b),
    ensures
        text::trimmed(s) == s.subrange(a, b),
{
    let n = s.len() as int;
    if a < b {
        lemma_trim_start_at(s, a);
        let t = s.subrange(a, n);
        assert forall|i: int| b - a <= i < t.len() implies text::is_white(#[trigger] t[i]) by {
            assert(t[i] == s[i + a]);
        }
        assert(t[b - a - 1] == s[b - 1]);
        lemma_trim_end_at(t, b - a);
        assert(t.subrange(0, b - a) =~= s.subrange(a, b));
    } else {
        assert forall|i: int| 0 <= i < n implies text::is_white(#[trigger] s[i]) by {}
        lemma_trim_start_at(s, n);
        assert(s.subrange(n, n) =~= Seq::<char>::empty());
        assert(s.subrange(a, b) =~= Seq::<char>::empty());
    }
}

/// Every text has a cut.
proof fn lemma_trim_cut_exists(s: Seq<char>) -> (r: (int, int))
    ensures
        trim_cut(s, r.0, r.1),
    decreases s.len(),
{
    if s.len() == 0 {
        (0, 0)
    } else if text::is_white(s.last()) {
        let t = s.drop_last();
        let r = lemma_trim_cut_exists(t);
        assert forall|i: int| 0 <= i < r.0 implies text::is_white(#[trigger] s[i]) by {
            assert(s[i] == t[i]);
        }
        assert forall|i: int| r.1 <= i < s.len() implies text::is_white(#[trigger] s[i]) by {
            if i < t.len() {
                assert(s[i] == t[i]);
            }
        }
        r
    } else if text::is_white(s[0]) {
        let t = s.drop_first();
        let r = lemma_trim_cut_exists(t);
        let q = (r.0 + 1, r.1 + 1);
        assert forall|i: int| 0 <= i < q.0 implies text::is_white(#[trigger] s[i]) by {
            if i > 0 {
                assert(s[i] == t[i - 1]);
            }
        }
        assert forall|i: int| q.1 <= i < s.len() implies text::is_white(#[trigger] s[i]) by {
            assert(s[i] == t[i - 1]);
        }
        q
    } else {
        (0, s.len() as int)
    }
}

/// A text has exactly one form without white space at its ends.
pub proof fn law_trimming(s: Seq<char>, k: Seq<char>)
    ensures
        trims_to(s, k) <==> text::trimmed(s) == k,
{
    let r = lemma_trim_cut_exists(s);
    lemma_trim_cut_is_trimmed(s, r.0, r.1);
    if trims_to(s, k) {
        let (a, b) = choose|a: int, b: int| #[trigger] trim_cut(s, a, b) && k == s.subrange(a, b);
        lemma_trim_cut_is_trimmed(s, a, b);
    }
}

proof fn lemma_listed_key(line: Seq<char>, fields: Seq<Seq<char>>)
    ensures
        has_listed_key(line, fields) <==> fields.contains(frontmatter::line_key(line)),
{
    line.index_of_first_ensures(':');
    let key = frontmatter::line_key(line);
    assert forall|k: Seq<char>| has_key(line, k) <==> k == key by {
        if line.contains(':') {
            let c0 = line.index_of_first(':')->0;
            let head = line.subrange(0, c0);
            assert(!head.contains(':')) by {
                if head.contains(':') {
                    let i = choose|i: int| 0 <= i < head.len() && head[i] == ':';
                    assert(line[i] == ':');
                }
            }
            law_trimming(head, k);
            if k == key {
                assert(line[c0] == ':');
            }
            if has_key(line, k) {
                let c = choose|c: int|
                    0 <= c < line.len() && #[trigger] line[c] == ':' && !line.subrange(
                        0,
                        c,
                    ).contains(':') && trims_to(line.subrange(0, c), k);
                if c0 < c {
                    assert(line.subrange(0, c)[c0] == ':');
                }
                assert(c == c0);
            }
        } else {
            assert(k.len() == 0 ==> k =~= Seq::<char>::empty());
            if has_key(line, k) && k.len() > 0 {
                let c = choose|c: int| 0 <= c < line.len() && #[trigger] line[c] == ':';
                assert(line.contains(':'));
            }
        }
    }
    if fields.contains(key) {
        let f = choose|f: int| 0 <= f < fields.len() && fields[f] == key;
        assert(has_key(line, fields[f]));
    }
}

/// Whether a line goes depends on the line and on whether the one before it went.
proof fn lemma_belongs_step(ls: Seq<Seq<char>>, fields: Seq<Seq<char>>, i: int)
    requires
        0 <= i < ls.len(),
    ensures
        belongs_to_listed(ls, fields, i) <==> if is_indented(ls[i]) {
            i > 0 && belongs_to_listed(ls, fields, i - 1)
        } else {
            has_listed_key(ls[i], fields)
        },
{
    if belongs_to_listed(ls, fields, i) {
        let j = choose|j: int| #[trigger] is_listed_field(ls, fields, j, i);
        if j < i {
            assert(is_indented(ls[i]));
            assert(is_listed_field(ls, fields, j, i - 1));
        }
    }
    if is_indented(ls[i]) {
        if i > 0 && belongs_to_listed(ls, fields, i - 1) {
            let j = choose|j: int| #[trigger] is_listed_field(ls, fields, j, i - 1);
            assert(is_listed_field(ls, fields, j, i));
        }
    } else if has_listed_key(ls[i], fields) {
        assert(is_listed_field(ls, fields, i, i));
    }
}

proof fn lemma_kept_from(ls: Seq<Seq<char>>, fields: Seq<Seq<char>>, i: int)
    requires
        0 <= i <= ls.len(),
    ensures
        unlisted(ls, fields, ls.len() as int) == unlisted(ls, fields, i) + frontmatter::kept_lines(
            ls.subrange(i, ls.len() as int),
            fields,
            i > 0 && belongs_to_listed(ls, fields, i - 1),
        ),
    decreases ls.len() - i,
{
    let n = ls.len() as int;
    let rest = ls.subrange(i, n);
    if i == n {
        assert(unlisted(ls, fields, n) + Seq::<Seq<char>>::empty() =~= unlisted(ls, fields, n));
    } else {
        lemma_belongs_step(ls, fields, i);
        lemma_listed_key(ls[i], fields);
        lemma_kept_from(ls, fields, i + 1);
        assert(rest[0] == ls[i]);
        assert(rest.drop_first() =~= ls.subrange(i + 1, n));
        let tail = frontmatter::kept_lines(
            ls.subrange(i + 1, n),
            fields,
            belongs_to_listed(ls, fields, i),
        );
        if !belongs_to_listed(ls, fields, i) {
            assert(unlisted(ls, fields, i).push(ls[i]) + tail =~= unlisted(ls, fields, i) + (
            seq![ls[i]] + tail));
        }
    }
}

proof fn lemma_kept(ls: Seq<Seq<char>>, fields: Seq<Seq<char>>)
    ensures
        frontmatter::kept_lines(ls, fields, false) == unlisted(ls, fields, ls.len() as int),
{
    lemma_kept_from(ls, fields, 0);
    assert(ls.subrange(0, ls.len() as int) =~= ls);
    assert(Seq::<Seq<char>>::empty() + frontmatter::kept_lines(ls, fields, false)
        =~= frontmatter::kept_lines(ls, fields, false));
}

proof fn lemma_nothing_listed(ls: Seq<Seq<char>>, n: int)
    requires
        0 <= n <= ls.len(),
    ensures
        unlisted(ls, Seq::empty(), n) == ls.subrange(0, n),
    decreases n,
{
    if n > 0 {
        lemma_nothing_listed(ls, n - 1);
        assert(ls.subrange(0, n) =~= ls.subrange(0, n - 1).push(ls[n - 1]));
    } else {
        assert(ls.subrange(0, 0) =~= Seq::empty());
    }
}

/// The lines that are left are lines of the block.
proof fn lemma_unlisted_block_lines(ls: Seq<Seq<char>>, fields: Seq<Seq<char>>, n: int)
    requires
        block_lines(ls),
        0 <= n <= ls.len(),
    ensures
        block_lines(unlisted(ls, fields, n)),
    decreases n,
{
    if n > 0 {
        lemma_unlisted_block_lines(ls, fields, n - 1);
    }
}

proof fn lemma_remainder_block_lines(ls: Seq<Seq<char>>, fields: Seq<Seq<char>>)
    requires
        block_lines(ls),
    ensures
        block_lines(remainder(ls, fields)),
{
    lemma_unlisted_block_lines(ls, fields, ls.len() as int);
    assert(Seq::<char>::empty().len() != seq!['-', '-', '-'].len());
}

/// A block without its listed fields, put back between two fences.
proof fn lemma_assembled(ls: Seq<Seq<char>>, fields: Seq<Seq<char>>, body: Seq<char>)
    requires
        block_lines(ls),
    ensures
        frontmatter::assemble(
            frontmatter::without_fields(written(ls, seq!['\n']), fields),
            body,
        ) == note(remainder(ls, fields), seq!['\n'], body),
{
    reveal_strlit("---\n");
    let lf = seq!['\n'];
    let k = unlisted(ls, fields, ls.len() as int);
    lemma_lines_read_back(ls, lf);
    lemma_kept(ls, fields);
    lemma_unlines(k);
    if fields.len() == 0 {
        assert(fields =~= Seq::empty());
        lemma_nothing_listed(ls, ls.len() as int);
        assert(k =~= ls);
    }
    let block = frontmatter::without_fields(written(ls, lf), fields);
    assert(block == written(k, lf));
    if k.len() == 0 {
        let one: Seq<Seq<char>> = seq![Seq::empty()];
        let none = one.drop_last();
        assert(none.len() == 0);
        assert(written(none, lf) == Seq::<char>::empty());
        assert(one.last() == Seq::<char>::empty());
        assert(written(one, lf) =~= lf);
        assert(frontmatter::terminated(block) =~= lf);
    } else {
        assert(block.last() == '\n');
    }
    assert("---\n"@ =~= seq!['-', '-', '-'] + lf);
    assert(frontmatter::assemble(block, body) =~= note(remainder(ls, fields), lf, body));
}

/// Different blocks or bodies make different notes.
proof fn lemma_note_is_injective(
    a: Seq<Seq<char>>,
    x: Seq<char>,
    b: Seq<Seq<char>>,
    y: Seq<char>,
)
    requires
        block_lines(a),
        block_lines(b),
    ensures
        note(a, seq!['\n'], x) == note(b, seq!['\n'], y) <==> a == b && x == y,
{
    let lf = seq!['\n'];
    let s = note(a, lf, x);
    let t = note(b, lf, y);
    if s == t {
        let d = seq!['-', '-', '-'];
        assert(s.subrange(4, s.len() as int) =~= written(a, lf) + d + lf + x);
        assert(t.subrange(4, t.len() as int) =~= written(b, lf) + d + lf + y);
        lemma_closing_fence(s, 4, a, lf, x);
        lemma_closing_fence(t, 4, b, lf, y);
        let n = (4 + written(a, lf).len()) as int;
        assert(s.subrange(4, n) =~= written(a, lf));
        assert(t.subrange(4, n) =~= written(b, lf));
        assert(s.subrange(n + 4, s.len() as int) =~= x);
        assert(t.subrange(n + 4, t.len() as int) =~= y);
        lemma_lines_read_back(a, lf);
        lemma_lines_read_back(b, lf);
    }
}

proof fn lemma_written_has_no_cr(ls: Seq<Seq<char>>)
    requires
        block_lines(ls),
    ensures
        !written(ls, seq!['\n']).contains('\r'),
    decreases ls.len(),
{
    if ls.len() > 0 {
        let init = ls.drop_last();
        assert(block_lines(init)) by {
            assert forall|i: int| 0 <= i < init.len() implies {
                &&& !(#[trigger] init[i]).contains('\n')
                &&& !init[i].contains('\r')
                &&& init[i] != seq!['-', '-', '-']
            } by {
                assert(init[i] == ls[i]);
            }
        }
        lemma_written_has_no_cr(init);
        let s = written(ls, seq!['\n']);
        let p = written(init, seq!['\n']);
        let l = ls.last();
        assert(!l.contains('\r')) by {
            assert(l == ls[ls.len() - 1]);
        }
        if s.contains('\r') {
            let i = choose|i: int| 0 <= i < s.len() && s[i] == '\r';
            if i < p.len() {
                assert(p[i] == '\r');
            } else if i < p.len() + l.len() {
                assert(l[i - p.len()] == '\r');
            }
        }
    }
}

proof fn lemma_note_is_plain(ls: Seq<Seq<char>>, body: Seq<char>)
    requires
        block_lines(ls),
        !body.contains('\r'),
    ensures
        frontmatter::plain_text(note(ls, seq!['\n'], body)) == note(ls, seq!['\n'], body),
{
    let lf = seq!['\n'];
    let d = seq!['-', '-', '-'];
    let s = note(ls, lf, body);
    let w = written(ls, lf);
    lemma_written_has_no_cr(ls);
    if s.contains('\r') {
        let i = choose|i: int| 0 <= i < s.len() && s[i] == '\r';
        if i < 4 {
            assert(s[i] == (d + lf)[i]);
        } else if i < 4 + w.len() {
            assert(w[i - 4] == '\r');
        } else if i < 8 + w.len() {
            assert(s[i] == (d + lf)[i - 4 - w.len()]);
        } else {
            assert(body[i - 8 - w.len()] == '\r');
        }
    }
    assert(s[0] == '-');
    lemma_fold_lf(s);
}

// ---------------------------------------------------------------------------
// What normalizing keeps
// ---------------------------------------------------------------------------

/// For a comparison a note loses its listed fields and nothing else: every other
/// line of the block and the whole body stand as they were, in their order.
pub proof fn law_compare_drops_listed_fields_only(
    ls: Seq<Seq<char>>,
    body: Seq<char>,
    fields: Seq<Seq<char>>,
)
    requires
        block_lines(ls),
        !body.contains('\r'),
    ensures
        frontmatter::compare_text(note(ls, seq!['\n'], body), fields) == note(
            remainder(ls, fields),
            seq!['\n'],
            body,
        ),
{
    reveal_strlit("---\n");
    let lf = seq!['\n'];
    let d = seq!['-', '-', '-'];
    let s = note(ls, lf, body);
    let w = written(ls, lf);
    lemma_note_is_plain(ls, body);
    assert(s.subrange(0, 4) =~= "---\n"@);
    assert(s.subrange(4, s.len() as int) =~= w + d + lf + body);
    lemma_closing_fence(s, 4, ls, lf, body);
    assert(s.subrange(4, (4 + w.len()) as int) =~= w);
    assert(s.subrange((8 + w.len()) as int, s.len() as int) =~= body);
    lemma_assembled(ls, fields, body);
}

/// Two notes compare equal exactly where their bodies are equal and their blocks
/// are equal but for the listed fields.
pub proof fn law_notes_compare_equal_iff(
    a: Seq<Seq<char>>,
    x: Seq<char>,
    b: Seq<Seq<char>>,
    y: Seq<char>,
    fields: Seq<Seq<char>>,
)
    requires
        block_lines(a),
        block_lines(b),
        !x.contains('\r'),
        !y.contains('\r'),
    ensures
        frontmatter::compare_text(note(a, seq!['\n'], x), fields) == frontmatter::compare_text(
            note(b, seq!['\n'], y),
            fields,
        ) <==> remainder(a, fields) == remainder(b, fields) && x == y,
{
    law_compare_drops_listed_fields_only(a, x, fields);
    law_compare_drops_listed_fields_only(b, y, fields);
    lemma_remainder_block_lines(a, fields);
    lemma_remainder_block_lines(b, fields);
    lemma_note_is_injective(remainder(a, fields), x, remainder(b, fields), y);
}

/// A line with an unlisted key is kept, and what follows it does not depend on its
/// value.
proof fn lemma_unlisted_line_is_kept(
    ls: Seq<Seq<char>>,
    other: Seq<Seq<char>>,
    fields: Seq<Seq<char>>,
    i: int,
    n: int,
)
    requires
        0 <= i < ls.len(),
        other.len() == ls.len(),
        forall|k: int| 0 <= k < ls.len() && k != i ==> #[trigger] ls[k] == other[k],
        !is_indented(ls[i]),
        !has_listed_key(ls[i], fields),
        !is_indented(other[i]),
        !has_listed_key(other[i], fields),
        0 <= n <= ls.len(),
    ensures
        n > 0 ==> (belongs_to_listed(ls, fields, n - 1) == belongs_to_listed(
            other,
            fields,
            n - 1,
        )),
        unlisted(ls, fields, n).len() == unlisted(other, fields, n).len(),
        n <= i ==> unlisted(ls, fields, n) == unlisted(other, fields, n),
        n > i ==> {
            let m = unlisted(ls, fields, i).len() as int;
            &&& m < unlisted(ls, fields, n).len()
            &&& unlisted(ls, fields, n)[m] == ls[i]
            &&& unlisted(other, fields, n)[m] == other[i]
        },
    decreases n,
{
    if n > 0 {
        lemma_unlisted_line_is_kept(ls, other, fields, i, n - 1);
        lemma_belongs_step(ls, fields, n - 1);
        lemma_belongs_step(other, fields, n - 1);
    }
}

/// Notes that differ in the value of an unlisted key compare different.
pub proof fn law_unlisted_value_counts(
    ls: Seq<Seq<char>>,
    i: int,
    line: Seq<char>,
    x: Seq<char>,
    y: Seq<char>,
    fields: Seq<Seq<char>>,
)
    requires
        block_lines(ls),
        block_lines(ls.update(i, line)),
        !x.contains('\r'),
        !y.contains('\r'),
        0 <= i < ls.len(),
        line != ls[i],
        !is_indented(ls[i]),
        !is_indented(line),
        !has_listed_key(ls[i], fields),
        !has_listed_key(line, fields),
    ensures
        frontmatter::compare_text(note(ls, seq!['\n'], x), fields) != frontmatter::compare_text(
            note(ls.update(i, line), seq!['\n'], y),
            fields,
        ),
{
    let other = ls.update(i, line);
    law_notes_compare_equal_iff(ls, x, other, y, fields);
    lemma_unlisted_line_is_kept(ls, other, fields, i, ls.len() as int);
    lemma_unlisted_line_is_kept(ls, other, fields, i, i);
}

/// The body of a note is all that stands behind its block.
pub proof fn law_body_is_what_follows_the_block(ls: Seq<Seq<char>>, body: Seq<char>)
    requires
        block_lines(ls),
        !body.contains('\r'),
    ensures
        frontmatter::body_text(note(ls, seq!['\n'], body)) == body,
{
    reveal_strlit("---\n");
    let lf = seq!['\n'];
    let d = seq!['-', '-', '-'];
    let s = note(ls, lf, body);
    let w = written(ls, lf);
    lemma_note_is_plain(ls, body);
    assert(s.subrange(0, 4) =~= "---\n"@);
    assert(s.subrange(4, s.len() as int) =~= w + d + lf + body);
    lemma_closing_fence(s, 4, ls, lf, body);
    assert(s.subrange((8 + w.len()) as int, s.len() as int) =~= body);
}

/// A closing fence is a line of dashes.
proof fn lemma_closing_fence_is_a_line(s: Seq<char>, from: int)
    requires
        0 <= from <= s.len(),
        !s.contains('\r'),
    ensures
        match frontmatter::closing_fence(s, from) {
            Some(f) => {
                &&& from <= f.0
                &&& f.0 + 4 <= s.len()
                &&& f.0 == from || s[f.0 - 1] == '\n'
                &&& s.subrange(f.0, f.0 + 4) == seq!['-', '-', '-', '\n']
            },
            None => true,
        },
    decreases s.len() - from,
{
    frontmatter::lemma_next_newline(s, from);
    if from < s.len() {
        if let Some(e) = frontmatter::next_newline(s, from) {
            if frontmatter::is_fence_line(s, from, e) {
                let l = s.subrange(from, e);
                if l.len() > 0 && l.last() == '\r' {
                    assert(s[e - 1] == '\r');
                    assert(s.contains('\r'));
                }
                assert(l == frontmatter::fence());
                assert(l[0] == s[from] && l[1] == s[from + 1] && l[2] == s[from + 2]);
                assert(s.subrange(from, from + 4) =~= seq!['-', '-', '-', '\n']);
            } else {
                lemma_closing_fence_is_a_line(s, e + 1);
            }
        }
    }
}

/// A text without a frontmatter block that is closed is compared, kept and hashed
/// as it is.
pub proof fn law_text_without_a_block_is_itself(s: Seq<char>, fields: Seq<Seq<char>>)
    requires
        has_no_block(s),
        !s.contains('\r'),
        s.len() == 0 || s[0] != '\u{feff}',
    ensures
        frontmatter::compare_text(s, fields) == s,
        frontmatter::body_text(s) == s,
        frontmatter::outgoing_text(s, fields) == s,
{
    reveal_strlit("---\n");
    reveal_strlit("---\r\n");
    lemma_fold_lf(s);
    if frontmatter::opens_crlf(s) {
        assert(s.subrange(0, 5)[3] == s[3]);
        assert(s.contains('\r'));
    }
    if frontmatter::opens_lf(s) {
        assert("---\n"@ =~= seq!['-', '-', '-', '\n']);
        assert(s.subrange(0, 4)[3] == s[3]);
        lemma_closing_fence_is_a_line(s, 4);
        if let Some(f) = frontmatter::closing_fence(s, 4) {
            let i = f.0 - 1;
            let l = s.subrange(f.0, f.0 + 4);
            assert(l[0] == s[f.0] && l[1] == s[f.0 + 1] && l[2] == s[f.0 + 2] && l[3] == s[f.0
                + 3]);
            assert(s.subrange(i, i + 5) =~= seq!['\n', '-', '-', '-', '\n']);
        }
    }
}

/// Normalizing an outgoing note touches its block alone: the listed fields go, and
/// the result ends in the body, whole.
pub proof fn law_outgoing_drops_listed_fields_only(
    ls: Seq<Seq<char>>,
    body: Seq<char>,
    fields: Seq<Seq<char>>,
)
    requires
        block_lines(ls),
    ensures
        frontmatter::outgoing_text(note(ls, seq!['\n'], body), fields) == note(
            remainder(ls, fields),
            seq!['\n'],
            body,
        ),
{
    reveal_strlit("---\n");
    reveal_strlit("---\r\n");
    let lf = seq!['\n'];
    let d = seq!['-', '-', '-'];
    let s = note(ls, lf, body);
    let w = written(ls, lf);
    assert(s.subrange(0, 4) =~= "---\n"@);
    if frontmatter::opens_crlf(s) {
        assert(s.subrange(0, 5)[3] == s.subrange(0, 4)[3]);
    }
    assert(s.subrange(4, s.len() as int) =~= w + d + lf + body);
    lemma_closing_fence(s, 4, ls, lf, body);
    assert(s.subrange(4, (4 + w.len()) as int) =~= w);
    assert(s.subrange((8 + w.len()) as int, s.len() as int) =~= body);
    lemma_assembled(ls, fields, body);
}

proof fn lemma_unlisted_is_all(ls: Seq<Seq<char>>, fields: Seq<Seq<char>>, n: int)
    requires
        forall|i: int| 0 <= i < ls.len() ==> !belongs_to_listed(ls, fields, i),
        0 <= n <= ls.len(),
    ensures
        unlisted(ls, fields, n) == ls.subrange(0, n),
    decreases n,
{
    if n > 0 {
        lemma_unlisted_is_all(ls, fields, n - 1);
        assert(ls.subrange(0, n) =~= ls.subrange(0, n - 1).push(ls[n - 1]));
    } else {
        assert(ls.subrange(0, 0) =~= Seq::empty());
    }
}

/// A note whose block holds no listed field is its own normal form.
pub proof fn law_outgoing_note_without_listed_fields_is_itself(
    ls: Seq<Seq<char>>,
    body: Seq<char>,
    fields: Seq<Seq<char>>,
)
    requires
        block_lines(ls),
        ls.len() > 0,
        forall|i: int|
            0 <= i < ls.len() && !is_indented(#[trigger] ls[i]) ==> !has_listed_key(ls[i], fields),
    ensures
        frontmatter::outgoing_text(note(ls, seq!['\n'], body), fields) == note(
            ls,
            seq!['\n'],
            body,
        ),
{
    law_outgoing_drops_listed_fields_only(ls, body, fields);
    assert forall|i: int| 0 <= i < ls.len() implies !belongs_to_listed(ls, fields, i) by {
        if belongs_to_listed(ls, fields, i) {
            let j = choose|j: int| #[trigger] is_listed_field(ls, fields, j, i);
            assert(!is_indented(ls[j]));
        }
    }
    lemma_unlisted_is_all(ls, fields, ls.len() as int);
    assert(ls.subrange(0, ls.len() as int) =~= ls);
}

proof fn lemma_lines_front(line: Seq<char>, rest: Seq<char>)
    requires
        !line.contains('\n'),
        !line.contains('\r'),
    ensures
        frontmatter::lines(line.push('\n') + rest) == seq![line] + frontmatter::lines(rest),
{
    let s = line.push('\n') + rest;
    let lf = seq!['\n'];
    assert(s.subrange(0, (line.len() + 1) as int) =~= line + lf);
    lemma_line_end_found(s, 0, line, lf);
    assert(s.subrange((line.len() + 1) as int, s.len() as int) =~= rest);
}

/// A note with carriage returns loses the same fields: what is left stands with
/// bare line feeds behind an empty line, and the body, whole, behind that. Where
/// no field is listed the lines keep their ends.
pub proof fn law_outgoing_crlf_note(ls: Seq<Seq<char>>, body: Seq<char>, fields: Seq<Seq<char>>)
    requires
        block_lines(ls),
    ensures
        frontmatter::outgoing_text(note(ls, seq!['\r', '\n'], body), fields) == (if fields.len()
            == 0 {
            seq!['-', '-', '-', '\n', '\n'] + written(ls, seq!['\r', '\n']) + seq![
                '-',
                '-',
                '-',
                '\n',
            ] + body
        } else {
            note(remainder(seq![Seq::<char>::empty()] + ls, fields), seq!['\n'], body)
        }),
{
    reveal_strlit("---\n");
    reveal_strlit("---\r\n");
    let crlf = seq!['\r', '\n'];
    let lf = seq!['\n'];
    let d = seq!['-', '-', '-'];
    let s = note(ls, crlf, body);
    let w = written(ls, crlf);
    assert(s.subrange(0, 5) =~= "---\r\n"@);
    assert(s.subrange(5, s.len() as int) =~= w + d + crlf + body);
    lemma_closing_fence(s, 5, ls, crlf, body);
    let block = s.subrange(4, (5 + w.len()) as int);
    assert(block =~= lf + w);
    assert(s.subrange((10 + w.len()) as int, s.len() as int) =~= body);
    assert("---\n"@ =~= d + lf);
    let one: Seq<Seq<char>> = seq![Seq::empty()];
    let all = one + ls;
    if fields.len() == 0 {
        if ls.len() > 0 {
            assert(w.last() == '\n');
        }
        assert(block.last() == '\n');
        assert(frontmatter::outgoing_text(s, fields) =~= seq!['-', '-', '-', '\n', '\n'] + w + seq![
            '-',
            '-',
            '-',
            '\n',
        ] + body);
    } else {
        lemma_lines_read_back(ls, crlf);
        lemma_lines_front(Seq::empty(), w);
        assert(Seq::<char>::empty().push('\n') + w =~= block);
        assert(frontmatter::lines(block) =~= all);
        assert(block_lines(all)) by {
            assert forall|i: int| 0 <= i < all.len() implies {
                &&& !(#[trigger] all[i]).contains('\n')
                &&& !all[i].contains('\r')
                &&& all[i] != seq!['-', '-', '-']
            } by {
                if i > 0 {
                    assert(all[i] == ls[i - 1]);
                } else {
                    assert(all[0].len() == 0);
                    assert(seq!['-', '-', '-'].len() == 3);
                }
            }
        }
        lemma_assembled(all, fields, body);
        lemma_lines_read_back(all, lf);
    }
}

/// Text that does not open with three dashes goes out as it is.
pub proof fn law_outgoing_text_without_dashes_is_itself(s: Seq<char>, fields: Seq<Seq<char>>)
    requires
        s.len() < 3 || s.subrange(0, 3) != seq!['-', '-', '-'],
    ensures
        frontmatter::outgoing_text(s, fields) == s,
{
    reveal_strlit("---\n");
    reveal_strlit("---\r\n");
    if frontmatter::opens_lf(s) {
        assert(s.subrange(0, 3) =~= s.subrange(0, 4).subrange(0, 3));
        assert("---\n"@.subrange(0, 3) =~= seq!['-', '-', '-']);
    }
    if frontmatter::opens_crlf(s) {
        assert(s.subrange(0, 3) =~= s.subrange(0, 5).subrange(0, 3));
        assert("---\r\n"@.subrange(0, 3) =~= seq!['-', '-', '-']);
    }
}

proof fn lemma_fold_concat(a: Seq<char>, c: Seq<char>)
    requires
        a.len() == 0 || a.last() != '\r' || c.len() == 0 || c[0] != '\n',
    ensures
        frontmatter::fold_eol(a + c) == frontmatter::fold_eol(a) + frontmatter::fold_eol(c),
    decreases a.len(),
{
    let s = a + c;
    if a.len() == 0 {
        assert(s =~= c);
        assert(frontmatter::fold_eol(a) + frontmatter::fold_eol(c) =~= frontmatter::fold_eol(c));
    } else {
        assert(s[0] == a[0]);
        if a.len() > 1 {
            assert(s[1] == a[1]);
        } else if c.len() > 0 {
            assert(s[1] == c[0]);
        }
        if a[0] == '\r' && a.len() > 1 && a[1] == '\n' {
            let t = a.subrange(2, a.len() as int);
            if t.len() > 0 {
                assert(t.last() == a.last());
            }
            lemma_fold_concat(t, c);
            assert(s.subrange(2, s.len() as int) =~= t + c);
            assert(frontmatter::fold_eol(s) =~= frontmatter::fold_eol(a) + frontmatter::fold_eol(c));
        } else {
            let t = a.subrange(1, a.len() as int);
            if t.len() > 0 {
                assert(t.last() == a.last());
            }
            lemma_fold_concat(t, c);
            assert(s.subrange(1, s.len() as int) =~= t + c);
            assert(frontmatter::fold_eol(s) =~= frontmatter::fold_eol(a) + frontmatter::fold_eol(c));
        }
    }
}

/// A carriage return, alone or before a line feed, counts as one line feed wherever
/// it stands, and a leading byte order mark as nothing.
pub proof fn law_every_line_end_is_a_line_feed(
    a: Seq<char>,
    b: Seq<char>,
    fields: Seq<Seq<char>>,
)
    requires
        a.len() == 0 || a[0] != '\u{feff}',
        a.len() == 0 ==> b.len() == 0 || b[0] != '\u{feff}',
        b.len() == 0 || b[0] != '\n',
        a.len() == 0 || a.last() != '\r',
    ensures
        frontmatter::compare_text(a + seq!['\r', '\n'] + b, fields) == frontmatter::compare_text(
            a + seq!['\n'] + b,
            fields,
        ),
        frontmatter::compare_text(a + seq!['\r'] + b, fields) == frontmatter::compare_text(
            a + seq!['\n'] + b,
            fields,
        ),
        frontmatter::body_text(a + seq!['\r', '\n'] + b) == frontmatter::body_text(
            a + seq!['\n'] + b,
        ),
        frontmatter::body_text(a + seq!['\r'] + b) == frontmatter::body_text(a + seq!['\n'] + b),
{
    let f = |s: Seq<char>| frontmatter::fold_eol(s);
    let x = seq!['\r', '\n'] + b;
    let y = seq!['\r'] + b;
    let z = seq!['\n'] + b;
    assert(a + seq!['\r', '\n'] + b =~= a + x);
    assert(a + seq!['\r'] + b =~= a + y);
    assert(a + seq!['\n'] + b =~= a + z);
    assert(x.subrange(2, x.len() as int) =~= b);
    assert(y.subrange(1, y.len() as int) =~= b);
    assert(z.subrange(1, z.len() as int) =~= b);
    lemma_fold_concat(a, x);
    lemma_fold_concat(a, y);
    lemma_fold_concat(a, z);
    assert((a + x)[0] != '\u{feff}');
    assert((a + y)[0] != '\u{feff}');
    assert((a + z)[0] != '\u{feff}');
}

/// A byte order mark before a note does not count.
pub proof fn law_bom_is_no_part_of_the_body(s: Seq<char>)
    requires
        s.len() == 0 || s[0] != '\u{feff}',
    ensures
        frontmatter::body_text(with_bom(s)) == frontmatter::body_text(s),
{
    assert(with_bom(s).subrange(1, with_bom(s).len() as int) =~= s);
}

/// Bytes that are text are treated as that text, and other bytes are left alone.
pub proof fn law_bytes_stand_for_their_text(bytes: Seq<u8>, s: Seq<char>, fields: Seq<Seq<char>>)
    ensures
        bytes == vstd::utf8::encode_utf8(s) ==> {
            &&& frontmatter::compare_bytes(bytes, fields) == vstd::utf8::encode_utf8(
                frontmatter::compare_text(s, fields),
            )
            &&& frontmatter::body_bytes(bytes) == vstd::utf8::encode_utf8(
                frontmatter::body_text(s),
            )
            &&& frontmatter::outgoing_bytes(bytes, fields) == vstd::utf8::encode_utf8(
                frontmatter::outgoing_text(s, fields),
            )
        },
        !vstd::utf8::valid_utf8(bytes) ==> {
            &&& frontmatter::compare_bytes(bytes, fields) == bytes
            &&& frontmatter::body_bytes(bytes) == bytes
            &&& frontmatter::outgoing_bytes(bytes, fields) == bytes
        },
{
    vstd::utf8::encode_utf8_valid_utf8(s);
    vstd::utf8::encode_utf8_decode_utf8(s);
}

/// A note has frontmatter exactly where its text, a byte order mark aside, opens
/// with a line of three dashes or is nothing but those.
pub proof fn law_frontmatter_is_a_leading_line_of_dashes(s: Seq<char>)
    requires
        s.len() == 0 || s[0] != '\u{feff}',
    ensures
        frontmatter::has_frontmatter(vstd::utf8::encode_utf8(s)) <==> s.len() >= 3 && s.subrange(
            0,
            3,
        ) == seq!['-', '-', '-'] && (s.len() == 3 || s[3] == '\n' || (s.len() >= 5 && s[3] == '\r'
            && s[4] == '\n')),
        frontmatter::has_frontmatter(vstd::utf8::encode_utf8(with_bom(s)))
            == frontmatter::has_frontmatter(vstd::utf8::encode_utf8(s)),
{
    reveal_strlit("---\n");
    reveal_strlit("---\r\n");
    vstd::utf8::encode_utf8_valid_utf8(s);
    vstd::utf8::encode_utf8_decode_utf8(s);
    vstd::utf8::encode_utf8_valid_utf8(with_bom(s));
    vstd::utf8::encode_utf8_decode_utf8(with_bom(s));
    assert(with_bom(s).subrange(1, with_bom(s).len() as int) =~= s);
    if s.len() >= 3 {
        let h = s.subrange(0, 3);
        assert(h[0] == s[0] && h[1] == s[1] && h[2] == s[2]);
        if s.len() >= 4 {
            let g = s.subrange(0, 4);
            assert(g[0] == s[0] && g[1] == s[1] && g[2] == s[2] && g[3] == s[3]);
            if h == seq!['-', '-', '-'] && s[3] == '\n' {
                assert(g =~= "---\n"@);
            }
            if frontmatter::opens_lf(s) {
                assert(h =~= seq!['-', '-', '-']);
            }
        }
        if s.len() >= 5 {
            let g = s.subrange(0, 5);
            assert(g[0] == s[0] && g[1] == s[1] && g[2] == s[2] && g[3] == s[3] && g[4] == s[4]);
            if h == seq!['-', '-', '-'] && s[3] == '\r' && s[4] == '\n' {
                assert(g =~= "---\r\n"@);
            }
            if frontmatter::opens_crlf(s) {
                assert(h =~= seq!['-', '-', '-']);
            }
        }
        if s.len() == 3 {
            assert(h =~= s);
        }
    }
    assert(frontmatter::fence() =~= seq!['-', '-', '-']);
}

/// Notes with different blocks or bodies are different texts.
pub proof fn law_notes_differ(a: Seq<Seq<char>>, x: Seq<char>, b: Seq<Seq<char>>, y: Seq<char>)
    requires
        block_lines(a),
        block_lines(b),
    ensures
        note(a, seq!['\n'], x) == note(b, seq!['\n'], y) <==> a == b && x == y,
{
    lemma_note_is_injective(a, x, b, y);
}

/// The lines of a text are what was written, in order, whichever line end is used.
/// A last line needs no line end.
pub proof fn law_lines_are_read_back(ls: Seq<Seq<char>>, eol: Seq<char>, last: Seq<char>)
    requires
        is_line_end(eol),
        forall|i: int|
            0 <= i < ls.len() ==> !(#[trigger] ls[i]).contains('\n') && !ls[i].contains('\r'),
        !last.contains('\n'),
    ensures
        frontmatter::lines(written(ls, eol)) == ls,
        last.len() > 0 ==> frontmatter::lines(written(ls, eol) + last) == ls.push(last),
    decreases ls.len(),
{
    lemma_lines_read_back(ls, eol);
    if last.len() > 0 {
        let s = written(ls, eol) + last;
        if ls.len() == 0 {
            assert(s =~= last);
            frontmatter::lemma_next_newline(s, 0);
            if let Some(e) = frontmatter::next_newline(s, 0) {
                assert(last.contains('\n'));
            }
            assert(frontmatter::lines(s) =~= ls.push(last));
        } else {
            lemma_written_front(ls, eol);
            let rest = ls.drop_first();
            let n = (ls[0].len() + eol.len()) as int;
            assert(s =~= ls[0] + eol + (written(rest, eol) + last));
            assert(s.subrange(0, n) =~= ls[0] + eol);
            lemma_line_end_found(s, 0, ls[0], eol);
            assert(s.subrange(n, s.len() as int) =~= written(rest, eol) + last);
            assert forall|i: int| 0 <= i < rest.len() implies !(#[trigger] rest[i]).contains('\n')
                && !rest[i].contains('\r') by {
                assert(rest[i] == ls[i + 1]);
            }
            law_lines_are_read_back(rest, eol, last);
            assert(frontmatter::lines(s) =~= seq![ls[0]] + rest.push(last));
            assert(seq![ls[0]] + rest.push(last) =~= ls.push(last));
        }
    }
}

/// No line of a server note is lost exactly where its lines stand in the local note
/// in order, with others between them or not.
pub proof fn law_lines_are_contained_iff_in_order(
    a: Seq<Seq<char>>,
    b: Seq<Seq<char>>,
    eol: Seq<char>,
    eol2: Seq<char>,
)
    requires
        is_line_end(eol),
        is_line_end(eol2),
        forall|i: int|
            0 <= i < a.len() ==> !(#[trigger] a[i]).contains('\n') && !a[i].contains('\r'),
        forall|i: int|
            0 <= i < b.len() ==> !(#[trigger] b[i]).contains('\n') && !b[i].contains('\r'),
    ensures
        frontmatter::lines_contained(
            vstd::utf8::encode_utf8(written(a, eol)),
            vstd::utf8::encode_utf8(written(b, eol2)),
        ) <==> exists|f: Seq<int>|
            {
                &&& #[trigger] f.len() == a.len()
                &&& forall|i: int|
                    0 <= i < a.len() ==> 0 <= #[trigger] f[i] < b.len() && b[f[i]] == a[i]
                &&& forall|i: int, j: int|
                    0 <= i < j < a.len() ==> #[trigger] f[i] < #[trigger] f[j]
            },
{
    lemma_lines_read_back(a, eol);
    lemma_lines_read_back(b, eol2);
    vstd::utf8::encode_utf8_valid_utf8(written(a, eol));
    vstd::utf8::encode_utf8_decode_utf8(written(a, eol));
    vstd::utf8::encode_utf8_valid_utf8(written(b, eol2));
    vstd::utf8::encode_utf8_decode_utf8(written(b, eol2));
    if frontmatter::contained_in_order(a, b) {
        let f = choose|f: Seq<int>| #[trigger] frontmatter::embeds(a, b, f);
        assert(f.len() == a.len());
    }
    assert forall|f: Seq<int>|
        {
            &&& #[trigger] f.len() == a.len()
            &&& forall|i: int|
                0 <= i < a.len() ==> 0 <= #[trigger] f[i] < b.len() && b[f[i]] == a[i]
            &&& forall|i: int, j: int| 0 <= i < j < a.len() ==> #[trigger] f[i] < #[trigger] f[j]
        } implies frontmatter::contained_in_order(a, b) by {
        assert(frontmatter::embeds(a, b, f));
    }
}

/// What is compared, sent and taken for the body of a note, as bytes: the block
/// without the listed fields and the whole body, and the body alone.
pub proof fn law_what_becomes_of_a_note(
    ls: Seq<Seq<char>>,
    body: Seq<char>,
    content: &[u8],
    fields: &[String],
    compared: Vec<u8>,
    bare: Vec<u8>,
    sent: Vec<u8>,
)
    requires
        block_lines(ls),
        !body.contains('\r'),
        content@ == vstd::utf8::encode_utf8(note(ls, seq!['\n'], body)),
        call_ensures(frontmatter::normalize_for_compare, (content, fields), compared),
        call_ensures(frontmatter::body_after_frontmatter_normalized, (content,), bare),
        call_ensures(frontmatter::normalize_outgoing, (content, fields), sent),
    ensures
        compared@ == vstd::utf8::encode_utf8(
            note(remainder(ls, text::views(fields@)), seq!['\n'], body),
        ),
        sent@ == compared@,
        bare@ == vstd::utf8::encode_utf8(body),
{
    let s = note(ls, seq!['\n'], body);
    let f = text::views(fields@);
    law_bytes_stand_for_their_text(content@, s, f);
    law_compare_drops_listed_fields_only(ls, body, f);
    law_outgoing_drops_listed_fields_only(ls, body, f);
    law_body_is_what_follows_the_block(ls, body);
}

/// Two notes count as the same exactly where their bodies are the same and their
/// blocks are, the listed fields aside.
pub proof fn law_same_note_or_not(
    a: Seq<Seq<char>>,
    x: Seq<char>,
    b: Seq<Seq<char>>,
    y: Seq<char>,
    left: &[u8],
    right: &[u8],
    fields: &[String],
    l: Vec<u8>,
    r: Vec<u8>,
)
    requires
        block_lines(a),
        block_lines(b),
        !x.contains('\r'),
        !y.contains('\r'),
        left@ == vstd::utf8::encode_utf8(note(a, seq!['\n'], x)),
        right@ == vstd::utf8::encode_utf8(note(b, seq!['\n'], y)),
        call_ensures(frontmatter::normalize_for_compare, (left, fields), l),
        call_ensures(frontmatter::normalize_for_compare, (right, fields), r),
    ensures
        l@ == r@ <==> x == y && remainder(a, text::views(fields@)) == remainder(
            b,
            text::views(fields@),
        ),
{
    let f = text::views(fields@);
    law_bytes_stand_for_their_text(left@, note(a, seq!['\n'], x), f);
    law_bytes_stand_for_their_text(right@, note(b, seq!['\n'], y), f);
    law_notes_compare_equal_iff(a, x, b, y, f);
    let p = frontmatter::compare_text(note(a, seq!['\n'], x), f);
    let q = frontmatter::compare_text(note(b, seq!['\n'], y), f);
    vstd::utf8::encode_utf8_decode_utf8(p);
    vstd::utf8::encode_utf8_decode_utf8(q);
    law_compare_drops_listed_fields_only(a, x, f);
    law_compare_drops_listed_fields_only(b, y, f);
}

/// A text without a block is compared, sent and taken for a body as it is, and so
/// are bytes that are no text.
pub proof fn law_other_bytes_are_left_alone(
    s: Seq<char>,
    content: &[u8],
    fields: &[String],
    compared: Vec<u8>,
    bare: Vec<u8>,
    sent: Vec<u8>,
)
    requires
        !vstd::utf8::valid_utf8(content@) || (content@ == vstd::utf8::encode_utf8(s)
            && has_no_block(s) && !s.contains('\r') && (s.len() == 0 || s[0] != '\u{feff}')),
        call_ensures(frontmatter::normalize_for_compare, (content, fields), compared),
        call_ensures(frontmatter::body_after_frontmatter_normalized, (content,), bare),
        call_ensures(frontmatter::normalize_outgoing, (content, fields), sent),
    ensures
        compared@ == content@,
        bare@ == content@,
        sent@ == content@,
{
    let f = text::views(fields@);
    law_bytes_stand_for_their_text(content@, s, f);
    if vstd::utf8::valid_utf8(content@) {
        law_text_without_a_block_is_itself(s, f);
    }
}

/// Line ends and a byte order mark make no difference to what is compared.
pub proof fn law_editors_marks_do_not_count(
    s: Seq<char>,
    plain: &[u8],
    other: &[u8],
    fields: &[String],
    l: Vec<u8>,
    r: Vec<u8>,
)
    requires
        !s.contains('\r'),
        s.len() == 0 || s[0] != '\u{feff}',
        plain@ == vstd::utf8::encode_utf8(s),
        other@ == vstd::utf8::encode_utf8(to_crlf(s)) || other@ == vstd::utf8::encode_utf8(
            with_bom(s),
        ) || other@ == vstd::utf8::encode_utf8(with_bom(to_crlf(s))),
        call_ensures(frontmatter::normalize_for_compare, (plain, fields), l),
        call_ensures(frontmatter::normalize_for_compare, (other, fields), r),
    ensures
        l@ == r@,
{
    let f = text::views(fields@);
    law_line_endings_and_bom_do_not_count(s, f);
    law_bytes_stand_for_their_text(plain@, s, f);
    law_bytes_stand_for_their_text(other@, to_crlf(s), f);
    law_bytes_stand_for_their_text(other@, with_bom(s), f);
    law_bytes_stand_for_their_text(other@, with_bom(to_crlf(s)), f);
}

/// Whether a note has frontmatter, of its bytes.
pub proof fn law_leading_dashes_are_seen(s: Seq<char>, content: &[u8], r: bool)
    requires
        s.len() == 0 || s[0] != '\u{feff}',
        content@ == vstd::utf8::encode_utf8(s) || content@ == vstd::utf8::encode_utf8(with_bom(s)),
        call_ensures(frontmatter::starts_with_frontmatter, (content,), r),
    ensures
        r <==> s.len() >= 3 && s.subrange(0, 3) == seq!['-', '-', '-'] && (s.len() == 3 || s[3]
            == '\n' || (s.len() >= 5 && s[3] == '\r' && s[4] == '\n')),
{
    law_frontmatter_is_a_leading_line_of_dashes(s);
}

/// No line of the server's note is lost exactly where its lines stand in the local
/// note in order.
pub proof fn law_lost_lines_are_seen(
    a: Seq<Seq<char>>,
    b: Seq<Seq<char>>,
    eol: Seq<char>,
    eol2: Seq<char>,
    server: &[u8],
    local: &[u8],
    r: bool,
)
    requires
        is_line_end(eol),
        is_line_end(eol2),
        forall|i: int|
            0 <= i < a.len() ==> !(#[trigger] a[i]).contains('\n') && !a[i].contains('\r'),
        forall|i: int|
            0 <= i < b.len() ==> !(#[trigger] b[i]).contains('\n') && !b[i].contains('\r'),
        server@ == vstd::utf8::encode_utf8(written(a, eol)),
        local@ == vstd::utf8::encode_utf8(written(b, eol2)),
        call_ensures(frontmatter::server_lines_contained_in_local, (server, local), r),
    ensures
        r <==> exists|f: Seq<int>|
            {
                &&& #[trigger] f.len() == a.len()
                &&& forall|i: int|
                    0 <= i < a.len() ==> 0 <= #[trigger] f[i] < b.len() && b[f[i]] == a[i]
                &&& forall|i: int, j: int|
                    0 <= i < j < a.len() ==> #[trigger] f[i] < #[trigger] f[j]
            },
{
    law_lines_are_contained_iff_in_order(a, b, eol, eol2);
}

/// Trimming takes white space off both ends, all of it, and nothing else.
pub proof fn law_trimming_takes_white_space_only(s: &str, r: String)
    requires
        call_ensures(text::trim, (s,), r),
    ensures
        r@.len() > 0 ==> !text::is_white(r@[0]) && !text::is_white(r@.last()),
        exists|a: int, b: int|
            0 <= a <= b <= s@.len() && r@ == #[trigger] s@.subrange(a, b) && (forall|i: int|
                0 <= i < a || b <= i < s@.len() ==> text::is_white(#[trigger] s@[i])),
{
    law_trimming(s@, r@);
    let (a, b) = choose|a: int, b: int| #[trigger]
        trim_cut(s@, a, b) && r@ == s@.subrange(a, b);
    assert(r@ == s@.subrange(a, b));
}

/// Where either side is no text, nothing is lost exactly where the bytes are the
/// same.
pub proof fn law_bytes_that_are_no_text_must_agree(server: &[u8], local: &[u8], r: bool)
    requires
        call_ensures(frontmatter::server_lines_contained_in_local, (server, local), r),
        !vstd::utf8::valid_utf8(server@) || !vstd::utf8::valid_utf8(local@),
    ensures
        r <==> server@ == local@,
{
}

} // verus!
