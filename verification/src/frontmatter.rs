//! Note text as the sync engine compares it.
//!
//! A note is UTF-8 text, often led by a block of YAML between two `---` lines.
//! Comparisons ignore a byte order mark, the flavour of line endings and a
//! configured set of volatile fields; what reaches the disk is never rewritten
//! here.

use vstd::prelude::*;

use crate::text;

verus! {

/// `std::str::from_utf8`: the text that the bytes encode, if they are valid
/// UTF-8.
#[verifier::external_body]
fn utf8_text(v: &[u8]) -> (r: Option<&str>)
    ensures
        match r {
            Some(s) => vstd::utf8::encode_utf8(s@) == v@,
            None => !vstd::utf8::valid_utf8(v@),
        },
{
    std::str::from_utf8(v).ok()
}

/// The characters that `v` encodes.
pub fn decode_chars(v: &[u8]) -> (r: Option<Vec<char>>)
    ensures
        r is Some <==> vstd::utf8::valid_utf8(v@),
        r is Some ==> r->0@ == vstd::utf8::decode_utf8(v@),
{
    match utf8_text(v) {
        Some(s) => {
            proof {
                vstd::utf8::encode_utf8_valid_utf8(s@);
                vstd::utf8::encode_utf8_decode_utf8(s@);
            }
            Some(text::chars_of(s))
        },
        None => None,
    }
}

/// The UTF-8 encoding of `cs`.
pub fn encode_chars(cs: &[char]) -> (r: Vec<u8>)
    ensures
        r@ == vstd::utf8::encode_utf8(cs@),
{
    let s = text::string_of(cs);
    s.as_str().as_bytes_vec()
}

// ---------------------------------------------------------------------------
// Lines
// ---------------------------------------------------------------------------

/// The first line feed at or after `from`.
pub open spec fn next_newline(s: Seq<char>, from: int) -> Option<int>
    decreases s.len() - from,
{
    if from < 0 || from >= s.len() {
        None
    } else if s[from] == '\n' {
        Some(from)
    } else {
        next_newline(s, from + 1)
    }
}

/// `s` without one trailing carriage return.
pub open spec fn drop_cr(s: Seq<char>) -> Seq<char> {
    if s.len() > 0 && s.last() == '\r' {
        s.drop_last()
    } else {
        s
    }
}

/// The lines of `s`: each ends at a line feed, which is dropped together with a
/// carriage return before it; a last line need not be terminated.
pub open spec fn lines(s: Seq<char>) -> Seq<Seq<char>>
    decreases s.len(),
{
    if s.len() == 0 {
        Seq::empty()
    } else {
        match next_newline(s, 0) {
            Some(e) => if 0 <= e < s.len() {
                seq![drop_cr(s.subrange(0, e))] + lines(s.subrange(e + 1, s.len() as int))
            } else {
                Seq::empty()
            },
            None => seq![s],
        }
    }
}

/// `s` with every carriage return, alone or before a line feed, as one line
/// feed.
pub open spec fn fold_eol(s: Seq<char>) -> Seq<char>
    decreases s.len(),
{
    if s.len() == 0 {
        Seq::empty()
    } else if s[0] == '\r' {
        if s.len() > 1 && s[1] == '\n' {
            seq!['\n'] + fold_eol(s.subrange(2, s.len() as int))
        } else {
            seq!['\n'] + fold_eol(s.subrange(1, s.len() as int))
        }
    } else {
        seq![s[0]] + fold_eol(s.subrange(1, s.len() as int))
    }
}

/// `s` without one leading byte order mark.
pub open spec fn strip_bom(s: Seq<char>) -> Seq<char> {
    if s.len() > 0 && s[0] == '\u{feff}' {
        s.subrange(1, s.len() as int)
    } else {
        s
    }
}

pub proof fn lemma_next_newline(s: Seq<char>, from: int)
    requires
        0 <= from <= s.len(),
    ensures
        match next_newline(s, from) {
            Some(e) => from <= e < s.len() && s[e] == '\n' && forall|k: int|
                from <= k < e ==> #[trigger] s[k] != '\n',
            None => forall|k: int| from <= k < s.len() ==> #[trigger] s[k] != '\n',
        },
    decreases s.len() - from,
{
    if from < s.len() && s[from] != '\n' {
        lemma_next_newline(s, from + 1);
    }
}

/// The first line feed at or after `from`.
fn find_newline(cs: &[char], from: usize) -> (r: Option<usize>)
    requires
        from <= cs@.len(),
    ensures
        match r {
            Some(e) => next_newline(cs@, from as int) == Some(e as int) && from <= e < cs@.len(),
            None => next_newline(cs@, from as int) is None,
        },
{
    let mut i: usize = from;
    while i < cs.len()
        invariant
            from <= i <= cs@.len(),
            next_newline(cs@, from as int) == next_newline(cs@, i as int),
        decreases cs@.len() - i,
    {
        if cs[i] == '\n' {
            return Some(i);
        }
        i = i + 1;
    }
    None
}

/// Copies `cs[from..to]`.
fn slice_of(cs: &[char], from: usize, to: usize) -> (r: Vec<char>)
    requires
        from <= to <= cs@.len(),
    ensures
        r@ == cs@.subrange(from as int, to as int),
{
    let mut r: Vec<char> = Vec::new();
    let mut i: usize = from;
    while i < to
        invariant
            from <= i <= to <= cs@.len(),
            r@ == cs@.subrange(from as int, i as int),
        decreases to - i,
    {
        r.push(cs[i]);
        i = i + 1;
    }
    r
}

fn append_chars(out: &mut Vec<char>, cs: &[char])
    ensures
        final(out)@ == old(out)@ + cs@,
{
    let mut i: usize = 0;
    while i < cs.len()
        invariant
            i <= cs@.len(),
            out@ == old(out)@ + cs@.subrange(0, i as int),
        decreases cs@.len() - i,
    {
        out.push(cs[i]);
        assert(cs@.subrange(0, i + 1) =~= cs@.subrange(0, i as int).push(cs@[i as int]));
        i = i + 1;
    }
    assert(cs@.subrange(0, cs@.len() as int) =~= cs@);
}

/// Folds line endings to line feeds.
fn fold_line_endings(cs: &[char], from: usize) -> (r: Vec<char>)
    requires
        from <= cs@.len(),
    ensures
        r@ == fold_eol(cs@.subrange(from as int, cs@.len() as int)),
{
    let mut r: Vec<char> = Vec::new();
    let n: usize = cs.len();
    let mut i: usize = from;
    let ghost all = fold_eol(cs@.subrange(from as int, cs@.len() as int));
    while i < n
        invariant
            from <= i <= n == cs@.len(),
            all == r@ + fold_eol(cs@.subrange(i as int, n as int)),
        decreases n - i,
    {
        let ghost rest = cs@.subrange(i as int, n as int);
        assert(rest[0] == cs@[i as int]);
        assert(rest.subrange(1, rest.len() as int) =~= cs@.subrange(i + 1, n as int));
        if cs[i] == '\r' {
            if i + 1 < n && cs[i + 1] == '\n' {
                assert(rest[1] == cs@[i + 1]);
                assert(rest.subrange(2, rest.len() as int) =~= cs@.subrange(i + 2, n as int));
                r.push('\n');
                i = i + 2;
            } else {
                if i + 1 < n {
                    assert(rest[1] == cs@[i + 1]);
                }
                r.push('\n');
                i = i + 1;
            }
        } else {
            r.push(cs[i]);
            i = i + 1;
        }
        assert(all =~= r@ + fold_eol(cs@.subrange(i as int, n as int)));
    }
    assert(cs@.subrange(n as int, n as int).len() == 0);
    assert(all =~= r@);
    r
}

/// The lines of `cs`, as `str::lines` gives them.
fn split_lines(cs: &[char]) -> (r: Vec<Vec<char>>)
    ensures
        r@.map_values(|v: Vec<char>| v@) == lines(cs@),
{
    let n: usize = cs.len();
    let mut r: Vec<Vec<char>> = Vec::new();
    let mut at: usize = 0;
    let ghost vw = |v: Vec<char>| v@;
    assert(cs@.subrange(0, n as int) =~= cs@);
    assert(r@.map_values(vw) =~= Seq::<Seq<char>>::empty());
    assert(lines(cs@) =~= r@.map_values(vw) + lines(cs@.subrange(0, n as int)));
    while at < n
        invariant
            at <= n == cs@.len(),
            lines(cs@) == r@.map_values(|v: Vec<char>| v@) + lines(cs@.subrange(at as int, n as int)),
        decreases n - at,
    {
        let ghost rest = cs@.subrange(at as int, n as int);
        let ghost before = r@;
        match find_newline(cs, at) {
            Some(e) => {
                proof {
                    lemma_newline_shift(cs@, at as int, at as int);
                    lemma_next_newline(rest, 0);
                    assert(rest.subrange(0, e - at) =~= cs@.subrange(at as int, e as int));
                    assert(rest.subrange(e - at + 1, rest.len() as int) =~= cs@.subrange(
                        e + 1,
                        n as int,
                    ));
                }
                let line = if e > at && cs[e - 1] == '\r' {
                    assert(cs@.subrange(at as int, e as int).last() == '\r');
                    assert(cs@.subrange(at as int, e as int).drop_last() =~= cs@.subrange(
                        at as int,
                        e - 1,
                    ));
                    slice_of(cs, at, e - 1)
                } else {
                    slice_of(cs, at, e)
                };
                assert(line@ == drop_cr(rest.subrange(0, e - at)));
                r.push(line);
                assert(r@.map_values(|v: Vec<char>| v@) =~= before.map_values(
                    |v: Vec<char>| v@,
                ).push(line@));
                assert(lines(cs@) =~= r@.map_values(|v: Vec<char>| v@) + lines(
                    cs@.subrange(e + 1, n as int),
                ));
                at = e + 1;
            },
            None => {
                proof {
                    lemma_newline_shift(cs@, at as int, at as int);
                }
                let line = slice_of(cs, at, n);
                r.push(line);
                assert(r@.map_values(|v: Vec<char>| v@) =~= before.map_values(
                    |v: Vec<char>| v@,
                ).push(line@));
                assert(cs@.subrange(n as int, n as int).len() == 0);
                assert(lines(cs@) =~= r@.map_values(|v: Vec<char>| v@) + lines(
                    cs@.subrange(n as int, n as int),
                ));
                at = n;
            },
        }
    }
    assert(cs@.subrange(n as int, n as int).len() == 0);
    assert(lines(cs@) =~= r@.map_values(|v: Vec<char>| v@));
    r
}

/// Looking for a line feed in a tail of `s` is looking in `s` from there on.
pub proof fn lemma_newline_shift(s: Seq<char>, base: int, from: int)
    requires
        0 <= base <= from <= s.len(),
    ensures
        match next_newline(s, from) {
            Some(e) => next_newline(s.subrange(base, s.len() as int), from - base) == Some(
                e - base,
            ) && from <= e < s.len(),
            None => next_newline(s.subrange(base, s.len() as int), from - base) is None,
        },
    decreases s.len() - from,
{
    let t = s.subrange(base, s.len() as int);
    if from < s.len() {
        assert(t[from - base] == s[from]);
        if s[from] != '\n' {
            lemma_newline_shift(s, base, from + 1);
        }
    }
}

// ---------------------------------------------------------------------------
// The frontmatter block
// ---------------------------------------------------------------------------

/// The line that opens and closes a block.
pub open spec fn fence() -> Seq<char> {
    seq!['-', '-', '-']
}

/// The line from `from` to the line feed at `e` reads `---`, with or without a
/// carriage return.
pub open spec fn is_fence_line(s: Seq<char>, from: int, e: int) -> bool {
    drop_cr(s.subrange(from, e)) == fence()
}

/// The first terminated line at or after `from` that reads `---`: where it
/// starts, and where the line behind it starts.
pub open spec fn closing_fence(s: Seq<char>, from: int) -> Option<(int, int)>
    decreases s.len() - from,
{
    if from < 0 || from >= s.len() {
        None
    } else {
        match next_newline(s, from) {
            Some(e) => if from <= e < s.len() {
                if is_fence_line(s, from, e) {
                    Some((from, e + 1))
                } else {
                    closing_fence(s, e + 1)
                }
            } else {
                None
            },
            None => None,
        }
    }
}

/// `s` opens with a fence line ended by a bare line feed.
pub open spec fn opens_lf(s: Seq<char>) -> bool {
    text::is_prefix("---\n"@, s)
}

/// `s` opens with a fence line ended by carriage return and line feed.
pub open spec fn opens_crlf(s: Seq<char>) -> bool {
    text::is_prefix("---\r\n"@, s)
}

/// The text leads with a frontmatter fence, a byte order mark aside.
pub open spec fn leads_with_fence(s: Seq<char>) -> bool {
    let t = strip_bom(s);
    opens_lf(t) || opens_crlf(t) || t == fence()
}

/// A line that does not continue the value of the key above it.
pub open spec fn is_top_level(line: Seq<char>) -> bool {
    line.len() == 0 || (line[0] != ' ' && line[0] != '\t')
}

/// The key of a top-level line: what stands before its first colon, trimmed;
/// empty where there is no colon.
pub open spec fn line_key(line: Seq<char>) -> Seq<char> {
    match text::split_once_spec(line, ':') {
        Some(p) => text::trimmed(p.0),
        None => Seq::empty(),
    }
}

/// The line starts a field that is to be dropped.
pub open spec fn starts_dropped(line: Seq<char>, fields: Seq<Seq<char>>) -> bool {
    is_top_level(line) && fields.contains(line_key(line))
}

/// The lines that remain when the listed fields go, each with the lines that
/// continue it. `skipping` says whether a dropped field is being continued.
pub open spec fn kept_lines(
    ls: Seq<Seq<char>>,
    fields: Seq<Seq<char>>,
    skipping: bool,
) -> Seq<Seq<char>>
    decreases ls.len(),
{
    if ls.len() == 0 {
        Seq::empty()
    } else if starts_dropped(ls[0], fields) {
        kept_lines(ls.drop_first(), fields, true)
    } else if !is_top_level(ls[0]) && skipping {
        kept_lines(ls.drop_first(), fields, true)
    } else {
        seq![ls[0]] + kept_lines(ls.drop_first(), fields, false)
    }
}

/// Lines as text, each ended by a line feed.
pub open spec fn unlines(ls: Seq<Seq<char>>) -> Seq<char>
    decreases ls.len(),
{
    if ls.len() == 0 {
        Seq::empty()
    } else {
        ls[0].push('\n') + unlines(ls.drop_first())
    }
}

/// A frontmatter block without the listed fields; with no field listed, the
/// block as it is.
pub open spec fn without_fields(block: Seq<char>, fields: Seq<Seq<char>>) -> Seq<char> {
    if fields.len() == 0 {
        block
    } else {
        unlines(kept_lines(lines(block), fields, false))
    }
}

/// `s` ended by a line feed.
pub open spec fn terminated(s: Seq<char>) -> Seq<char> {
    if s.len() > 0 && s.last() == '\n' {
        s
    } else {
        s.push('\n')
    }
}

/// A block and a body as a note.
pub open spec fn assemble(block: Seq<char>, body: Seq<char>) -> Seq<char> {
    "---\n"@ + terminated(block) + "---\n"@ + body
}

/// The text with a bare line feed at every line end and no byte order mark.
pub open spec fn plain_text(s: Seq<char>) -> Seq<char> {
    fold_eol(strip_bom(s))
}

/// The basis on which a local note and a server note are compared: plain text
/// without the volatile fields.
pub open spec fn compare_text(s: Seq<char>, fields: Seq<Seq<char>>) -> Seq<char> {
    let t = plain_text(s);
    if !opens_lf(t) {
        t
    } else {
        match closing_fence(t, 4) {
            Some(f) => assemble(
                without_fields(t.subrange(4, f.0), fields),
                t.subrange(f.1, t.len() as int),
            ),
            None => t,
        }
    }
}

/// The plain text behind a leading frontmatter block, if there is one.
pub open spec fn body_text(s: Seq<char>) -> Seq<char> {
    let t = plain_text(s);
    if !opens_lf(t) {
        t
    } else {
        match closing_fence(t, 4) {
            Some(f) => t.subrange(f.1, t.len() as int),
            None => t,
        }
    }
}

/// The basis on which an outgoing note is compared with the server's hash: line
/// endings as they are, a leading block without the volatile fields.
pub open spec fn outgoing_text(s: Seq<char>, fields: Seq<Seq<char>>) -> Seq<char> {
    if !opens_lf(s) && !opens_crlf(s) {
        s
    } else {
        match closing_fence(s, if opens_crlf(s) { 5 } else { 4 }) {
            Some(f) => assemble(
                without_fields(s.subrange(4, f.0), fields),
                s.subrange(f.1, s.len() as int),
            ),
            None => s,
        }
    }
}

/// [`compare_text`] on bytes; bytes that are no text are compared as they are.
pub open spec fn compare_bytes(content: Seq<u8>, fields: Seq<Seq<char>>) -> Seq<u8> {
    if vstd::utf8::valid_utf8(content) {
        vstd::utf8::encode_utf8(compare_text(vstd::utf8::decode_utf8(content), fields))
    } else {
        content
    }
}

/// [`body_text`] on bytes.
pub open spec fn body_bytes(content: Seq<u8>) -> Seq<u8> {
    if vstd::utf8::valid_utf8(content) {
        vstd::utf8::encode_utf8(body_text(vstd::utf8::decode_utf8(content)))
    } else {
        content
    }
}

/// [`outgoing_text`] on bytes.
pub open spec fn outgoing_bytes(content: Seq<u8>, fields: Seq<Seq<char>>) -> Seq<u8> {
    if vstd::utf8::valid_utf8(content) {
        vstd::utf8::encode_utf8(outgoing_text(vstd::utf8::decode_utf8(content), fields))
    } else {
        content
    }
}

/// The bytes are text that leads with a frontmatter fence.
pub open spec fn has_frontmatter(content: Seq<u8>) -> bool {
    vstd::utf8::valid_utf8(content) && leads_with_fence(vstd::utf8::decode_utf8(content))
}

fn opens_with(cs: &[char], p: &str) -> (r: bool)
    ensures
        r == text::is_prefix(p@, cs@),
{
    let ps = text::chars_of(p);
    text::occurs_here(cs, ps.as_slice(), 0)
}

fn fence_line(cs: &[char], from: usize, e: usize) -> (r: bool)
    requires
        from <= e <= cs@.len(),
    ensures
        r == is_fence_line(cs@, from as int, e as int),
{
    let ghost line = cs@.subrange(from as int, e as int);
    let end: usize = if e > from && cs[e - 1] == '\r' {
        assert(line.last() == '\r');
        assert(line.drop_last() =~= cs@.subrange(from as int, e - 1));
        e - 1
    } else {
        e
    };
    assert(drop_cr(line) == cs@.subrange(from as int, end as int));
    let ghost got = cs@.subrange(from as int, end as int);
    if end - from != 3 {
        assert(got.len() != fence().len());
        return false;
    }
    let hit = cs[from] == '-' && cs[from + 1] == '-' && cs[from + 2] == '-';
    proof {
        assert(got[0] == cs@[from as int] && got[1] == cs@[from + 1] && got[2] == cs@[from + 2]);
        if hit {
            assert(got =~= fence());
        }
    }
    hit
}

/// Locates the line that closes a block: where it starts and where the body
/// behind it starts.
fn find_frontmatter_end(cs: &[char], after_open: usize) -> (r: Option<(usize, usize)>)
    requires
        after_open <= cs@.len(),
    ensures
        match r {
            Some(f) => closing_fence(cs@, after_open as int) == Some((f.0 as int, f.1 as int))
                && after_open <= f.0 < f.1 <= cs@.len(),
            None => closing_fence(cs@, after_open as int) is None,
        },
{
    let n: usize = cs.len();
    let mut cursor: usize = after_open;
    while cursor < n
        invariant
            after_open <= cursor <= n == cs@.len(),
            closing_fence(cs@, after_open as int) == closing_fence(cs@, cursor as int),
        decreases n - cursor,
    {
        match find_newline(cs, cursor) {
            Some(e) => {
                if fence_line(cs, cursor, e) {
                    return Some((cursor, e + 1));
                }
                cursor = e + 1;
            },
            None => {
                return None;
            },
        }
    }
    None
}

/// Drops the listed top-level fields from a block, each with the lines that
/// continue it.
fn strip_yaml_fields(block: &[char], fields: &[String]) -> (r: Vec<char>)
    ensures
        r@ == without_fields(block@, text::views(fields@)),
{
    if fields.len() == 0 {
        assert(text::views(fields@).len() == 0);
        assert(block@.subrange(0, block@.len() as int) =~= block@);
        return slice_of(block, 0, block.len());
    }
    let ls = split_lines(block);
    let ghost fs = text::views(fields@);
    let ghost all = lines(block@);
    let mut out: Vec<char> = Vec::new();
    let mut skipping = false;
    let mut i: usize = 0;
    assert(all.subrange(0, all.len() as int) =~= all);
    assert(Seq::<char>::empty() + unlines(kept_lines(all, fs, false)) =~= unlines(
        kept_lines(all, fs, false),
    ));
    while i < ls.len()
        invariant
            i <= ls@.len(),
            ls@.map_values(|v: Vec<char>| v@) == all,
            fs == text::views(fields@),
            unlines(kept_lines(all, fs, false)) == out@ + unlines(
                kept_lines(all.subrange(i as int, all.len() as int), fs, skipping),
            ),
        decreases ls@.len() - i,
    {
        let line = &ls[i];
        let ghost rest = all.subrange(i as int, all.len() as int);
        let ghost before = out@;
        proof {
            assert(all[i as int] == line@);
            assert(rest[0] == line@);
            assert(rest.drop_first() =~= all.subrange(i + 1, all.len() as int));
        }
        let top = line.len() == 0 || (line[0] != ' ' && line[0] != '\t');
        let mut keep = true;
        if top {
            if key_is_listed(line.as_slice(), fields) {
                skipping = true;
                keep = false;
            } else {
                skipping = false;
            }
        } else if skipping {
            keep = false;
        }
        if keep {
            append_chars(&mut out, line.as_slice());
            out.push('\n');
            proof {
                let tail = kept_lines(rest.drop_first(), fs, false);
                let now = seq![line@] + tail;
                assert(now[0] == line@);
                assert(now.drop_first() =~= tail);
                assert(out@ =~= before + line@.push('\n'));
                assert(before + unlines(now) =~= out@ + unlines(tail));
            }
        }
        i = i + 1;
    }
    assert(all.subrange(all.len() as int, all.len() as int).len() == 0);
    assert(out@ =~= without_fields(block@, fs));
    out
}

fn key_is_listed(line: &[char], fields: &[String]) -> (r: bool)
    ensures
        r == text::views(fields@).contains(line_key(line@)),
{
    proof {
        line@.index_of_first_ensures(':');
    }
    match text::index_of_char(line, ':', 0) {
        Some(k) => {
            proof {
                let j = line@.index_of_first(':')->0;
                assert(line@[j] == ':');
                assert(j == k);
            }
            let (a, b) = text::trim_bounds(line, 0, k);
            let key = text::string_of_range(line, a, b);
            text::list_contains(fields, key.as_str())
        },
        None => {
            let key = String::new();
            text::list_contains(fields, key.as_str())
        },
    }
}

fn assemble_chars(block: &[char], body: &[char]) -> (r: Vec<char>)
    ensures
        r@ == assemble(block@, body@),
{
    let open = text::chars_of("---\n");
    let mut out: Vec<char> = Vec::new();
    append_chars(&mut out, open.as_slice());
    append_chars(&mut out, block);
    if block.len() == 0 || block[block.len() - 1] != '\n' {
        out.push('\n');
    }
    append_chars(&mut out, open.as_slice());
    append_chars(&mut out, body);
    assert(out@ =~= assemble(block@, body@));
    out
}

fn plain_chars(cs: &[char]) -> (r: Vec<char>)
    ensures
        r@ == plain_text(cs@),
{
    assert(cs@.subrange(0, cs@.len() as int) =~= cs@);
    if cs.len() > 0 && cs[0] == '\u{feff}' {
        fold_line_endings(cs, 1)
    } else {
        fold_line_endings(cs, 0)
    }
}

/// Normalizes note bytes for comparing a local note with a server note.
pub fn normalize_for_compare(content: &[u8], strip_fields: &[String]) -> (r: Vec<u8>)
    ensures
        r@ == compare_bytes(content@, text::views(strip_fields@)),
{
    match decode_chars(content) {
        Some(cs) => {
            let t = plain_chars(cs.as_slice());
            let out = compare_chars(t, strip_fields);
            encode_chars(out.as_slice())
        },
        None => copy_bytes(content),
    }
}

fn compare_chars(t: Vec<char>, strip_fields: &[String]) -> (r: Vec<char>)
    ensures
        r@ == if !opens_lf(t@) {
            t@
        } else {
            match closing_fence(t@, 4) {
                Some(f) => assemble(
                    without_fields(t@.subrange(4, f.0), text::views(strip_fields@)),
                    t@.subrange(f.1, t@.len() as int),
                ),
                None => t@,
            }
        },
{
    proof {
        reveal_strlit("---\n");
    }
    if !opens_with(t.as_slice(), "---\n") {
        return t;
    }
    match find_frontmatter_end(t.as_slice(), 4) {
        Some(f) => {
            let block = slice_of(t.as_slice(), 4, f.0);
            let body = slice_of(t.as_slice(), f.1, t.len());
            let kept = strip_yaml_fields(block.as_slice(), strip_fields);
            assemble_chars(kept.as_slice(), body.as_slice())
        },
        None => t,
    }
}

/// The plain-text body behind a leading frontmatter block, as bytes.
pub fn body_after_frontmatter_normalized(content: &[u8]) -> (r: Vec<u8>)
    ensures
        r@ == body_bytes(content@),
{
    match decode_chars(content) {
        Some(cs) => {
            let t = plain_chars(cs.as_slice());
            proof {
                reveal_strlit("---\n");
            }
            if !opens_with(t.as_slice(), "---\n") {
                return encode_chars(t.as_slice());
            }
            match find_frontmatter_end(t.as_slice(), 4) {
                Some(f) => {
                    let body = slice_of(t.as_slice(), f.1, t.len());
                    encode_chars(body.as_slice())
                },
                None => encode_chars(t.as_slice()),
            }
        },
        None => copy_bytes(content),
    }
}

/// Normalizes outgoing note bytes for comparing them with the server's hash.
pub fn normalize_outgoing(content: &[u8], strip_fields: &[String]) -> (r: Vec<u8>)
    ensures
        r@ == outgoing_bytes(content@, text::views(strip_fields@)),
{
    match decode_chars(content) {
        Some(cs) => {
            proof {
                reveal_strlit("---\n");
                reveal_strlit("---\r\n");
            }
            let crlf = opens_with(cs.as_slice(), "---\r\n");
            if !opens_with(cs.as_slice(), "---\n") && !crlf {
                return encode_chars(cs.as_slice());
            }
            let after_open: usize = if crlf {
                5
            } else {
                4
            };
            match find_frontmatter_end(cs.as_slice(), after_open) {
                Some(f) => {
                    let block = slice_of(cs.as_slice(), 4, f.0);
                    let body = slice_of(cs.as_slice(), f.1, cs.len());
                    let kept = strip_yaml_fields(block.as_slice(), strip_fields);
                    let out = assemble_chars(kept.as_slice(), body.as_slice());
                    encode_chars(out.as_slice())
                },
                None => encode_chars(cs.as_slice()),
            }
        },
        None => copy_bytes(content),
    }
}

/// Whether the note leads with a YAML frontmatter fence, a byte order mark and
/// the flavour of the line ending aside.
pub fn starts_with_frontmatter(content: &[u8]) -> (r: bool)
    ensures
        r == has_frontmatter(content@),
{
    match decode_chars(content) {
        Some(cs) => {
            let from: usize = if cs.len() > 0 && cs[0] == '\u{feff}' {
                1
            } else {
                0
            };
            let t = slice_of(cs.as_slice(), from, cs.len());
            proof {
                reveal_strlit("---");
                assert(cs@.subrange(0, cs@.len() as int) =~= cs@);
                assert("---"@ =~= fence());
                if text::is_prefix("---"@, t@) && t@.len() == 3 {
                    assert(t@ =~= t@.subrange(0, 3));
                }
                if t@ == fence() {
                    assert(t@.subrange(0, 3) =~= t@);
                }
            }
            opens_with(t.as_slice(), "---\n") || opens_with(t.as_slice(), "---\r\n") || (t.len()
                == 3 && opens_with(t.as_slice(), "---"))
        },
        None => false,
    }
}

/// Copies a byte slice.
pub fn copy_bytes(v: &[u8]) -> (r: Vec<u8>)
    ensures
        r@ == v@,
{
    let mut r: Vec<u8> = Vec::new();
    let mut i: usize = 0;
    while i < v.len()
        invariant
            i <= v@.len(),
            r@ == v@.subrange(0, i as int),
        decreases v@.len() - i,
    {
        r.push(v[i]);
        assert(v@.subrange(0, i + 1) =~= v@.subrange(0, i as int).push(v@[i as int]));
        i = i + 1;
    }
    assert(v@.subrange(0, v@.len() as int) =~= v@);
    r
}

/// Byte-wise equality.
pub fn bytes_eq(a: &[u8], b: &[u8]) -> (r: bool)
    ensures
        r == (a@ == b@),
{
    if a.len() != b.len() {
        return false;
    }
    let mut i: usize = 0;
    while i < a.len()
        invariant
            i <= a@.len() == b@.len(),
            forall|k: int| 0 <= k < i ==> #[trigger] a@[k] == b@[k],
        decreases a@.len() - i,
    {
        if a[i] != b[i] {
            return false;
        }
        i = i + 1;
    }
    assert(a@ =~= b@);
    true
}

// ---------------------------------------------------------------------------
// Line containment
// ---------------------------------------------------------------------------

/// `f` places the elements of `a` in `b`, in order.
pub open spec fn embeds(a: Seq<Seq<char>>, b: Seq<Seq<char>>, f: Seq<int>) -> bool {
    &&& f.len() == a.len()
    &&& forall|i: int| 0 <= i < f.len() ==> 0 <= #[trigger] f[i] < b.len() && b[f[i]] == a[i]
    &&& forall|i: int, j: int| 0 <= i < j < f.len() ==> #[trigger] f[i] < #[trigger] f[j]
}

/// Every element of `a` stands in `b`, in order.
pub open spec fn contained_in_order(a: Seq<Seq<char>>, b: Seq<Seq<char>>) -> bool {
    exists|f: Seq<int>| #[trigger] embeds(a, b, f)
}

/// No line of `server` is lost where `local` replaces it; bytes that are no
/// text are only contained in themselves.
pub open spec fn lines_contained(server: Seq<u8>, local: Seq<u8>) -> bool {
    if vstd::utf8::valid_utf8(server) && vstd::utf8::valid_utf8(local) {
        contained_in_order(
            lines(vstd::utf8::decode_utf8(server)),
            lines(vstd::utf8::decode_utf8(local)),
        )
    } else {
        server == local
    }
}

fn chars_eq(a: &[char], b: &[char]) -> (r: bool)
    ensures
        r == (a@ == b@),
{
    if a.len() != b.len() {
        return false;
    }
    let mut i: usize = 0;
    while i < a.len()
        invariant
            i <= a@.len() == b@.len(),
            forall|k: int| 0 <= k < i ==> #[trigger] a@[k] == b@[k],
        decreases a@.len() - i,
    {
        if a[i] != b[i] {
            return false;
        }
        i = i + 1;
    }
    assert(a@ =~= b@);
    true
}

/// Whether every line of `server` appears in `local`, in order, so that a push
/// of `local` drops none of them.
pub fn server_lines_contained_in_local(server: &[u8], local: &[u8]) -> (r: bool)
    ensures
        r == lines_contained(server@, local@),
{
    let s = decode_chars(server);
    let l = decode_chars(local);
    match (s, l) {
        (Some(sc), Some(lc)) => {
            let want = split_lines(sc.as_slice());
            let have = split_lines(lc.as_slice());
            let ghost a = lines(vstd::utf8::decode_utf8(server@));
            let ghost b = lines(vstd::utf8::decode_utf8(local@));
            let mut j: usize = 0;
            let mut i: usize = 0;
            let ghost mut f: Seq<int> = Seq::empty();
            assert forall|k: int, g: Seq<int>|
                0 <= k <= a.len() && #[trigger] embeds(a.subrange(0, k), b.subrange(0, 0), g)
                    implies k <= 0 by {
                if k > 0 {
                    assert(0 <= g[0] < b.subrange(0, 0).len());
                }
            }
            while i < have.len()
                invariant
                    i <= have@.len(),
                    j <= want@.len(),
                    want@.map_values(|v: Vec<char>| v@) == a,
                    have@.map_values(|v: Vec<char>| v@) == b,
                    embeds(a.subrange(0, j as int), b.subrange(0, i as int), f),
                    forall|k: int, g: Seq<int>|
                        0 <= k <= a.len() && #[trigger] embeds(
                            a.subrange(0, k),
                            b.subrange(0, i as int),
                            g,
                        ) ==> k <= j,
                decreases have@.len() - i,
            {
                let ghost j0 = j as int;
                let ghost f0 = f;
                assert(b[i as int] == have@[i as int]@);
                if j < want.len() && chars_eq(want[j].as_slice(), have[i].as_slice()) {
                    assert(a[j as int] == want@[j as int]@);
                    proof {
                        f = f.push(i as int);
                    }
                    j = j + 1;
                } else if j < want.len() {
                    assert(a[j as int] == want@[j as int]@);
                }
                proof {
                    let b1 = b.subrange(0, i + 1);
                    let b0 = b.subrange(0, i as int);
                    let aj = a.subrange(0, j as int);
                    assert forall|m: int| 0 <= m < f.len() implies 0 <= #[trigger] f[m] < b1.len()
                        && b1[f[m]] == aj[m] by {
                        if m < f0.len() {
                            assert(f[m] == f0[m]);
                            assert(b0[f0[m]] == a.subrange(0, j0)[m]);
                        }
                    }
                    assert forall|m: int, q: int| 0 <= m < q < f.len() implies #[trigger] f[m]
                        < #[trigger] f[q] by {
                        assert(f[m] == f0[m]);
                        assert(0 <= f0[m] < b0.len());
                        if q < f0.len() {
                            assert(f[q] == f0[q]);
                        }
                    }
                    assert(embeds(aj, b1, f));
                    assert forall|k: int, g: Seq<int>|
                        0 <= k <= a.len() && #[trigger] embeds(a.subrange(0, k), b1, g) implies k
                        <= j by {
                        if k > 0 {
                            lemma_embeds_shorter(a, b, k, i as int, g);
                            let h = g.drop_last();
                            assert(embeds(a.subrange(0, k - 1), b0, h));
                            assert(k - 1 <= j0);
                            if k == j0 + 1 {
                                assert(g[k - 1] < b1.len());
                                if g[k - 1] < i {
                                    assert(embeds(a.subrange(0, k), b0, g));
                                } else {
                                    assert(b1[g[k - 1]] == a.subrange(0, k)[k - 1]);
                                }
                            }
                        }
                    }
                }
                i = i + 1;
            }
            proof {
                assert(b.subrange(0, b.len() as int) =~= b);
                assert(a.subrange(0, a.len() as int) =~= a);
                if contained_in_order(a, b) {
                    let g = choose|g: Seq<int>| #[trigger] embeds(a, b, g);
                    assert(embeds(a.subrange(0, a.len() as int), b.subrange(0, b.len() as int), g));
                }
            }
            j == want.len()
        },
        _ => bytes_eq(server, local),
    }
}

/// An embedding into `b[..i + 1]`, cut before its last element, is one into
/// `b[..i]`; and it is one uncut where its last element does not sit at `i`.
proof fn lemma_embeds_shorter(
    a: Seq<Seq<char>>,
    b: Seq<Seq<char>>,
    k: int,
    i: int,
    g: Seq<int>,
)
    requires
        0 < k <= a.len(),
        0 <= i < b.len(),
        embeds(a.subrange(0, k), b.subrange(0, i + 1), g),
    ensures
        embeds(a.subrange(0, k - 1), b.subrange(0, i), g.drop_last()),
        g[k - 1] < i ==> embeds(a.subrange(0, k), b.subrange(0, i), g),
{
    let h = g.drop_last();
    let b1 = b.subrange(0, i + 1);
    let b0 = b.subrange(0, i);
    assert forall|m: int| 0 <= m < h.len() implies 0 <= #[trigger] h[m] < b0.len() && b0[h[m]]
        == a.subrange(0, k - 1)[m] by {
        assert(h[m] == g[m]);
        assert(g[m] < g[k - 1]);
        assert(b1[g[m]] == a.subrange(0, k)[m]);
    }
    assert forall|m: int, q: int| 0 <= m < q < h.len() implies #[trigger] h[m] < #[trigger] h[q] by {
        assert(g[m] < g[q]);
    }
    if g[k - 1] < i {
        assert forall|m: int| 0 <= m < g.len() implies 0 <= #[trigger] g[m] < b0.len() && b0[g[m]]
            == a.subrange(0, k)[m] by {
            if m < k - 1 {
                assert(g[m] < g[k - 1]);
            }
            assert(b1[g[m]] == a.subrange(0, k)[m]);
        }
    }
}

} // verus!
