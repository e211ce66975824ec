//! Character-level text operations with exact contracts.
//!
//! Strings are viewed as `Seq<char>`. Path segments are delimited by `/` and
//! `\`; a segment is described by its bounds in the text rather than by a
//! recursive splitting function.

use vstd::prelude::*;

verus! {

/// `String::push` of std: appends one character.
pub assume_specification[ String::push ](s: &mut String, c: char)
    ensures
        final(s)@ == old(s)@.push(c),
;

/// Both separators are recognised on every platform: a wire path may come from
/// any host.
pub open spec fn is_sep(c: char) -> bool {
    c == '/' || c == '\\'
}

/// The half-open range `i..j` of `s` is a maximal run free of separators.
pub open spec fn is_segment(s: Seq<char>, i: int, j: int) -> bool {
    &&& 0 <= i <= j <= s.len()
    &&& i == 0 || is_sep(s[i - 1])
    &&& j == s.len() || is_sep(s[j])
    &&& forall|k: int| i <= k < j ==> !is_sep(#[trigger] s[k])
}

/// Some segment of `s` reads `seg`.
pub open spec fn has_segment(s: Seq<char>, seg: Seq<char>) -> bool {
    exists|i: int, j: int| #[trigger] is_segment(s, i, j) && s.subrange(i, j) == seg
}

/// `p` is a prefix of `s`.
pub open spec fn is_prefix(p: Seq<char>, s: Seq<char>) -> bool {
    p.len() <= s.len() && s.subrange(0, p.len() as int) == p
}

/// `p` is a suffix of `s`.
pub open spec fn is_suffix(p: Seq<char>, s: Seq<char>) -> bool {
    p.len() <= s.len() && s.subrange(s.len() - p.len(), s.len() as int) == p
}

/// `p` occurs in `s` starting at position `i`.
pub open spec fn occurs_at(p: Seq<char>, s: Seq<char>, i: int) -> bool {
    0 <= i && i + p.len() <= s.len() && s.subrange(i, i + p.len()) == p
}

/// `p` occurs somewhere in `s`.
pub open spec fn occurs_in(p: Seq<char>, s: Seq<char>) -> bool {
    exists|i: int| #[trigger] occurs_at(p, s, i)
}

/// `s` with every `from` replaced by `to`.
pub open spec fn replace_char_spec(s: Seq<char>, from: char, to: char) -> Seq<char> {
    Seq::new(s.len(), |i: int| if s[i] == from { to } else { s[i] })
}

/// The characters of `s`, in order.
pub fn chars_of(s: &str) -> (v: Vec<char>)
    ensures
        v@ == s@,
{
    let n: usize = s.unicode_len();
    let mut v: Vec<char> = Vec::new();
    let mut it = s.chars();
    let mut i: usize = 0;
    while i < n
        invariant
            i <= n,
            n == s@.len(),
            v@ == s@.subrange(0, i as int),
            vstd::std_specs::iter::IteratorSpec::remaining(&it) == s@.subrange(i as int, n as int),
        decreases n - i,
    {
        match it.next() {
            Some(c) => {
                v.push(c);
            },
            None => {},
        }
        assert(s@.subrange(0, i + 1) == s@.subrange(0, i as int).push(s@[i as int]));
        assert(s@.subrange(i as int, n as int).drop_first() == s@.subrange(i + 1, n as int));
        i = i + 1;
    }
    assert(s@.subrange(0, n as int) == s@);
    v
}

/// The string made of the given characters.
pub fn string_of(cs: &[char]) -> (s: String)
    ensures
        s@ == cs@,
{
    string_of_range(cs, 0, cs.len())
}

/// The string made of the characters `from..to` of `cs`.
pub fn string_of_range(cs: &[char], from: usize, to: usize) -> (s: String)
    requires
        from <= to <= cs@.len(),
    ensures
        s@ == cs@.subrange(from as int, to as int),
{
    let mut s: String = String::new();
    let mut i: usize = from;
    while i < to
        invariant
            from <= i <= to <= cs@.len(),
            s@ == cs@.subrange(from as int, i as int),
        decreases to - i,
    {
        s.push(cs[i]);
        i = i + 1;
    }
    s
}

/// Equality of two string slices.
pub fn str_eq(a: &str, b: &str) -> (r: bool)
    ensures
        r == (a@ == b@),
{
    a.to_owned() == b.to_owned()
}

/// Equality of an optional string with a string slice.
pub fn opt_str_eq(a: &Option<String>, b: &str) -> (r: bool)
    ensures
        r == (a is Some && a->0@ == b@),
{
    match a {
        Some(x) => str_eq(x.as_str(), b),
        None => false,
    }
}

/// `a` followed by `b`.
pub fn concat(a: &str, b: &str) -> (s: String)
    ensures
        s@ == a@ + b@,
{
    let mut s: String = a.to_owned();
    s.append(b);
    s
}

/// Whether `p` occurs in `cs` at position `at`.
pub fn occurs_here(cs: &[char], p: &[char], at: usize) -> (r: bool)
    requires
        at <= cs@.len(),
    ensures
        r == occurs_at(p@, cs@, at as int),
{
    let n: usize = cs.len();
    if p.len() > n - at {
        return false;
    }
    let mut k: usize = 0;
    while k < p.len()
        invariant
            k <= p@.len(),
            at + p@.len() <= n == cs@.len(),
            forall|m: int| 0 <= m < k ==> cs@[at + m] == #[trigger] p@[m],
        decreases p@.len() - k,
    {
        if cs[at + k] != p[k] {
            assert(cs@.subrange(at as int, at + p@.len())[k as int] == cs@[at + k]);
            return false;
        }
        k = k + 1;
    }
    assert(cs@.subrange(at as int, at + p@.len()) =~= p@);
    true
}

/// `str::starts_with` for a string pattern.
pub fn starts_with(s: &str, p: &str) -> (r: bool)
    ensures
        r == is_prefix(p@, s@),
{
    let cs = chars_of(s);
    let ps = chars_of(p);
    occurs_here(cs.as_slice(), ps.as_slice(), 0)
}

/// `str::ends_with` for a string pattern.
pub fn ends_with(s: &str, p: &str) -> (r: bool)
    ensures
        r == is_suffix(p@, s@),
{
    let cs = chars_of(s);
    let ps = chars_of(p);
    if ps.len() > cs.len() {
        return false;
    }
    occurs_here(cs.as_slice(), ps.as_slice(), cs.len() - ps.len())
}

/// `str::contains` for a string pattern.
pub fn contains(s: &str, p: &str) -> (r: bool)
    ensures
        r == occurs_in(p@, s@),
{
    let cs = chars_of(s);
    let ps = chars_of(p);
    if ps.len() > cs.len() {
        return false;
    }
    let last: usize = cs.len() - ps.len();
    let mut at: usize = 0;
    while at <= last
        invariant
            cs@ == s@,
            ps@ == p@,
            last + p@.len() == s@.len(),
            at <= last + 1,
            forall|m: int| 0 <= m < at ==> !#[trigger] occurs_at(p@, s@, m),
        decreases last + 1 - at,
    {
        if occurs_here(cs.as_slice(), ps.as_slice(), at) {
            return true;
        }
        if at == last {
            return false;
        }
        at = at + 1;
    }
    false
}

/// Whether the character `c` occurs in `s`.
pub fn contains_char(s: &str, c: char) -> (r: bool)
    ensures
        r == s@.contains(c),
{
    let cs = chars_of(s);
    index_of_char(cs.as_slice(), c, 0).is_some()
}

/// The first position at or after `from` where `c` stands.
pub fn index_of_char(cs: &[char], c: char, from: usize) -> (r: Option<usize>)
    requires
        from <= cs@.len(),
    ensures
        match r {
            Some(k) => {
                &&& from <= k < cs@.len()
                &&& cs@[k as int] == c
                &&& forall|m: int| from <= m < k ==> #[trigger] cs@[m] != c
            },
            None => forall|m: int| from <= m < cs@.len() ==> #[trigger] cs@[m] != c,
        },
{
    let mut i: usize = from;
    while i < cs.len()
        invariant
            from <= i <= cs@.len(),
            forall|m: int| from <= m < i ==> #[trigger] cs@[m] != c,
        decreases cs@.len() - i,
    {
        if cs[i] == c {
            return Some(i);
        }
        i = i + 1;
    }
    None
}

/// `str::replace` of one character by another.
pub fn replace_char(s: &str, from: char, to: char) -> (r: String)
    ensures
        r@ == replace_char_spec(s@, from, to),
{
    let cs = chars_of(s);
    let mut r: String = String::new();
    let mut i: usize = 0;
    while i < cs.len()
        invariant
            cs@ == s@,
            i <= cs@.len(),
            r@ == replace_char_spec(s@, from, to).subrange(0, i as int),
        decreases cs@.len() - i,
    {
        let c = cs[i];
        if c == from {
            r.push(to);
        } else {
            r.push(c);
        }
        assert(replace_char_spec(s@, from, to).subrange(0, i + 1)
            == replace_char_spec(s@, from, to).subrange(0, i as int).push(
            replace_char_spec(s@, from, to)[i as int],
        ));
        i = i + 1;
    }
    assert(replace_char_spec(s@, from, to).subrange(0, s@.len() as int)
        == replace_char_spec(s@, from, to));
    r
}

/// Rewriting `\` to `/` moves no segment and changes the text of none.
pub proof fn lemma_segments_ignore_separators(path: Seq<char>)
    ensures
        forall|i: int, j: int| #[trigger]
            is_segment(path, i, j) == is_segment(replace_char_spec(path, '\\', '/'), i, j),
        forall|i: int, j: int| #[trigger]
            is_segment(path, i, j) ==> replace_char_spec(path, '\\', '/').subrange(i, j)
                == path.subrange(i, j),
{
    let s = replace_char_spec(path, '\\', '/');
    assert forall|i: int, j: int| #[trigger] is_segment(path, i, j) == is_segment(s, i, j) by {
        if 0 <= i <= j <= path.len() {
            if i > 0 {
                assert(is_sep(s[i - 1]) == is_sep(path[i - 1]));
            }
            if j < path.len() {
                assert(is_sep(s[j]) == is_sep(path[j]));
            }
            if is_segment(path, i, j) {
                assert forall|k: int| i <= k < j implies !is_sep(#[trigger] s[k]) by {
                    assert(!is_sep(path[k]));
                }
            }
            if is_segment(s, i, j) {
                assert forall|k: int| i <= k < j implies !is_sep(#[trigger] path[k]) by {
                    assert(!is_sep(s[k]));
                }
            }
        }
    }
    assert forall|i: int, j: int| #[trigger] is_segment(path, i, j) implies s.subrange(i, j)
        == path.subrange(i, j) by {
        assert forall|k: int| i <= k < j implies s[k] == path[k] by {
            assert(!is_sep(path[k]));
        }
        assert(s.subrange(i, j) =~= path.subrange(i, j));
    }
}

/// The bounds are those of consecutive segments from the start of `s`: each begins
/// behind the separator that ends the one before.
pub open spec fn consecutive(s: Seq<char>, bounds: Seq<(int, int)>) -> bool {
    &&& forall|k: int| 0 <= k < bounds.len() ==> is_segment(
        s,
        (#[trigger] bounds[k]).0,
        bounds[k].1,
    )
    &&& bounds.len() > 0 ==> bounds[0].0 == 0
    &&& forall|k: int, l: int|
        0 <= k && l == k + 1 && l < bounds.len() ==> (#[trigger] bounds[l]).0 == (
        #[trigger] bounds[k]).1 + 1
}

/// The texts between the bounds.
pub open spec fn cut_at(s: Seq<char>, bounds: Seq<(int, int)>) -> Seq<Seq<char>> {
    bounds.map_values(|b: (int, int)| s.subrange(b.0, b.1))
}

/// The segments of `s`, in order of appearance: every element is the text of a
/// segment, and the text of every segment is an element.
pub fn segments(s: &str) -> (v: Vec<String>)
    ensures
        v@.len() > 0,
        exists|bounds: Seq<(int, int)>| #[trigger]
            consecutive(s@, bounds) && bounds.len() > 0 && bounds.last().1 == s@.len() && views(v@)
                == cut_at(s@, bounds),
        forall|k: int|
            0 <= k < v@.len() ==> has_segment(s@, #[trigger] v@[k]@),
        forall|i: int, j: int| #[trigger]
            is_segment(s@, i, j) ==> exists|k: int|
                0 <= k < v@.len() && #[trigger] v@[k]@ == s@.subrange(i, j),
{
    let cs = chars_of(s);
    let mut v: Vec<String> = Vec::new();
    let ghost mut bounds: Seq<(int, int)> = Seq::empty();
    assert(views(v@) =~= cut_at(s@, bounds));
    let mut start: usize = 0;
    let mut i: usize = 0;
    while i < cs.len()
        invariant
            cs@ == s@,
            start <= i <= cs@.len(),
            start == 0 || is_sep(s@[start - 1]),
            consecutive(s@, bounds),
            views(v@) == cut_at(s@, bounds),
            start == (if bounds.len() == 0 {
                0
            } else {
                bounds.last().1 + 1
            }),
            forall|k: int| start <= k < i ==> !is_sep(#[trigger] s@[k]),
            forall|k: int| 0 <= k < v@.len() ==> has_segment(s@, #[trigger] v@[k]@),
            forall|a: int, b: int| #[trigger]
                is_segment(s@, a, b) && b < start ==> exists|k: int|
                    0 <= k < v@.len() && #[trigger] v@[k]@ == s@.subrange(a, b),
        decreases cs@.len() - i,
    {
        let c = cs[i];
        if c == '/' || c == '\\' {
            let ghost before = v@;
            v.push(string_of_range(cs.as_slice(), start, i));
            proof {
                assert(is_segment(s@, start as int, i as int));
                let piece = s@.subrange(start as int, i as int);
                assert(views(v@) =~= views(before).push(piece));
                assert(cut_at(s@, bounds.push((start as int, i as int))) =~= cut_at(
                    s@,
                    bounds,
                ).push(piece));
                bounds = bounds.push((start as int, i as int));
                assert forall|k: int| 0 <= k < v@.len() implies has_segment(s@, #[trigger] v@[k]@) by {
                    if k < before.len() {
                        assert(v@[k] == before[k]);
                    }
                }
                assert forall|a: int, b: int| #[trigger]
                    is_segment(s@, a, b) && b < i + 1 implies exists|k: int|
                    0 <= k < v@.len() && #[trigger] v@[k]@ == s@.subrange(a, b) by {
                    if b < start {
                        let k = choose|k: int|
                            0 <= k < before.len() && #[trigger] before[k]@ == s@.subrange(a, b);
                        assert(v@[k]@ == s@.subrange(a, b));
                    } else {
                        if b < i {
                            assert(!is_sep(s@[b]));
                        }
                        assert(b == i);
                        if a < start {
                            assert(is_sep(s@[start - 1]));
                        }
                        if a > start {
                            assert(is_sep(s@[a - 1]));
                        }
                        assert(v@[before.len() as int]@ == s@.subrange(a, b));
                    }
                }
            }
            start = i + 1;
        }
        i = i + 1;
    }
    let ghost before = v@;
    v.push(string_of_range(cs.as_slice(), start, i));
    proof {
        assert(is_segment(s@, start as int, i as int));
        let piece = s@.subrange(start as int, i as int);
        assert(views(v@) =~= views(before).push(piece));
        assert(cut_at(s@, bounds.push((start as int, i as int))) =~= cut_at(s@, bounds).push(piece));
        bounds = bounds.push((start as int, i as int));
        assert(consecutive(s@, bounds));
        assert forall|k: int| 0 <= k < v@.len() implies has_segment(s@, #[trigger] v@[k]@) by {
            if k < before.len() {
                assert(v@[k] == before[k]);
            }
        }
        assert forall|a: int, b: int| #[trigger] is_segment(s@, a, b) implies exists|k: int|
            0 <= k < v@.len() && #[trigger] v@[k]@ == s@.subrange(a, b) by {
            if b < start {
                let k = choose|k: int|
                    0 <= k < before.len() && #[trigger] before[k]@ == s@.subrange(a, b);
                assert(v@[k]@ == s@.subrange(a, b));
            } else {
                if b < i {
                    assert(!is_sep(s@[b]));
                }
                assert(b == i);
                if a < start {
                    assert(is_sep(s@[start - 1]));
                }
                if a > start {
                    assert(is_sep(s@[a - 1]));
                }
                assert(v@[before.len() as int]@ == s@.subrange(a, b));
            }
        }
    }
    v
}

/// The lower-case form of an ASCII letter; any other character as it is.
pub open spec fn ascii_lower(c: char) -> char {
    if 'A' <= c <= 'Z' {
        (c as u8 + 32) as char
    } else {
        c
    }
}

/// Character-wise [`ascii_lower`].
pub open spec fn ascii_lower_seq(s: Seq<char>) -> Seq<char> {
    Seq::new(s.len(), |i: int| ascii_lower(s[i]))
}

/// `char::to_ascii_lowercase`.
pub fn to_ascii_lower_char(c: char) -> (r: char)
    ensures
        r == ascii_lower(c),
{
    if 'A' <= c && c <= 'Z' {
        (c as u8 + 32) as char
    } else {
        c
    }
}

/// `str::to_ascii_lowercase`.
pub fn to_ascii_lowercase(s: &str) -> (r: String)
    ensures
        r@ == ascii_lower_seq(s@),
{
    let cs = chars_of(s);
    let mut r: String = String::new();
    let mut i: usize = 0;
    while i < cs.len()
        invariant
            cs@ == s@,
            i <= cs@.len(),
            r@ == ascii_lower_seq(s@.subrange(0, i as int)),
        decreases cs@.len() - i,
    {
        r.push(to_ascii_lower_char(cs[i]));
        assert(ascii_lower_seq(s@.subrange(0, i + 1)) == ascii_lower_seq(
            s@.subrange(0, i as int),
        ).push(ascii_lower(s@[i as int])));
        i = i + 1;
    }
    assert(s@.subrange(0, s@.len() as int) == s@);
    r
}

/// `str::eq_ignore_ascii_case`.
pub fn eq_ignore_ascii_case(a: &str, b: &str) -> (r: bool)
    ensures
        r == (ascii_lower_seq(a@) == ascii_lower_seq(b@)),
{
    let x = to_ascii_lowercase(a);
    let y = to_ascii_lowercase(b);
    x == y
}

/// `str::split_once` for a character: what stands before and behind the first
/// `c`.
pub open spec fn split_once_spec(s: Seq<char>, c: char) -> Option<(Seq<char>, Seq<char>)> {
    match s.index_of_first(c) {
        Some(k) => Some((s.subrange(0, k), s.subrange(k + 1, s.len() as int))),
        None => None,
    }
}

/// `str::split_once` for a character.
pub fn split_once(s: &str, c: char) -> (r: Option<(String, String)>)
    ensures
        match r {
            Some(p) => split_once_spec(s@, c) == Some((p.0@, p.1@)),
            None => split_once_spec(s@, c) is None,
        },
        r is Some <==> s@.contains(c),
{
    let cs = chars_of(s);
    proof {
        s@.index_of_first_ensures(c);
    }
    let n: usize = cs.len();
    match index_of_char(cs.as_slice(), c, 0) {
        Some(k) => {
            proof {
                let j = s@.index_of_first(c)->0;
                assert(s@[j] == c);
                assert(j == k);
            }
            Some(
                (
                    string_of_range(cs.as_slice(), 0, k),
                    string_of_range(cs.as_slice(), k + 1, n),
                ),
            )
        },
        None => None,
    }
}

/// `str::rsplit_once` for a character: what stands before and behind the last
/// `c`.
pub open spec fn rsplit_once_spec(s: Seq<char>, c: char) -> Option<(Seq<char>, Seq<char>)> {
    match s.index_of_last(c) {
        Some(k) => Some((s.subrange(0, k), s.subrange(k + 1, s.len() as int))),
        None => None,
    }
}

/// `str::rsplit_once` for a character.
pub fn rsplit_once(s: &str, c: char) -> (r: Option<(String, String)>)
    ensures
        match r {
            Some(p) => rsplit_once_spec(s@, c) == Some((p.0@, p.1@)),
            None => rsplit_once_spec(s@, c) is None,
        },
        r is Some <==> s@.contains(c),
{
    let cs = chars_of(s);
    proof {
        s@.index_of_last_ensures(c);
    }
    let mut i: usize = cs.len();
    while i > 0
        invariant
            cs@ == s@,
            i <= cs@.len(),
            forall|m: int| i <= m < s@.len() ==> #[trigger] s@[m] != c,
            match s@.index_of_last(c) {
                Some(k) => s@.contains(c) && 0 <= k < s@.len() && s@[k] == c && forall|m: int|
                    k < m < s@.len() ==> s@[m] != c,
                None => !s@.contains(c),
            },
        decreases i,
    {
        i = i - 1;
        if cs[i] == c {
            assert(s@[i as int] == c);
            return Some(
                (
                    string_of_range(cs.as_slice(), 0, i),
                    string_of_range(cs.as_slice(), i + 1, cs.len()),
                ),
            );
        }
    }
    None
}

/// The texts of a list of strings.
pub open spec fn views(s: Seq<String>) -> Seq<Seq<char>> {
    s.map_values(|x: String| x@)
}

/// Whether `name` is an element of `list`.
pub fn list_contains(list: &[String], name: &str) -> (r: bool)
    ensures
        r == views(list@).contains(name@),
{
    let mut i: usize = 0;
    while i < list.len()
        invariant
            i <= list@.len(),
            forall|j: int| 0 <= j < i ==> (#[trigger] list@[j])@ != name@,
        decreases list@.len() - i,
    {
        if str_eq(list[i].as_str(), name) {
            assert(views(list@)[i as int] == name@);
            return true;
        }
        i = i + 1;
    }
    assert forall|j: int| 0 <= j < views(list@).len() implies views(list@)[j] != name@ by {
        assert(views(list@)[j] == list@[j]@);
    }
    false
}

/// The characters with the Unicode property `White_Space`.
pub open spec fn is_white(c: char) -> bool {
    ||| '\u{9}' <= c <= '\u{d}'
    ||| c == ' '
    ||| c == '\u{85}'
    ||| c == '\u{a0}'
    ||| c == '\u{1680}'
    ||| '\u{2000}' <= c <= '\u{200a}'
    ||| c == '\u{2028}'
    ||| c == '\u{2029}'
    ||| c == '\u{202f}'
    ||| c == '\u{205f}'
    ||| c == '\u{3000}'
}

/// `char::is_whitespace`.
pub fn is_white_char(c: char) -> (r: bool)
    ensures
        r == is_white(c),
{
    ('\u{9}' <= c && c <= '\u{d}') || c == ' ' || c == '\u{85}' || c == '\u{a0}' || c == '\u{1680}'
        || ('\u{2000}' <= c && c <= '\u{200a}') || c == '\u{2028}' || c == '\u{2029}' || c
        == '\u{202f}' || c == '\u{205f}' || c == '\u{3000}'
}

/// `s` without leading white space.
pub open spec fn trim_start(s: Seq<char>) -> Seq<char>
    decreases s.len(),
{
    if s.len() > 0 && is_white(s[0]) {
        trim_start(s.drop_first())
    } else {
        s
    }
}

/// `s` without trailing white space.
pub open spec fn trim_end(s: Seq<char>) -> Seq<char>
    decreases s.len(),
{
    if s.len() > 0 && is_white(s.last()) {
        trim_end(s.drop_last())
    } else {
        s
    }
}

/// `s` without white space at either end.
pub open spec fn trimmed(s: Seq<char>) -> Seq<char> {
    trim_end(trim_start(s))
}

/// The bounds of `cs[from..to]` without white space at either end.
pub fn trim_bounds(cs: &[char], from: usize, to: usize) -> (r: (usize, usize))
    requires
        from <= to <= cs@.len(),
    ensures
        from <= r.0 <= r.1 <= to,
        cs@.subrange(r.0 as int, r.1 as int) == trimmed(cs@.subrange(from as int, to as int)),
{
    let mut a: usize = from;
    while a < to && is_white_char(cs[a])
        invariant
            from <= a <= to <= cs@.len(),
            trim_start(cs@.subrange(from as int, to as int)) == trim_start(
                cs@.subrange(a as int, to as int),
            ),
        decreases to - a,
    {
        assert(cs@.subrange(a as int, to as int).drop_first() =~= cs@.subrange(
            a + 1,
            to as int,
        ));
        a = a + 1;
    }
    let mut b: usize = to;
    while a < b && is_white_char(cs[b - 1])
        invariant
            from <= a <= b <= to <= cs@.len(),
            trimmed(cs@.subrange(from as int, to as int)) == trim_end(
                cs@.subrange(a as int, b as int),
            ),
        decreases b - a,
    {
        assert(cs@.subrange(a as int, b as int).drop_last() =~= cs@.subrange(a as int, b - 1));
        b = b - 1;
    }
    (a, b)
}

/// `str::trim`.
pub fn trim(s: &str) -> (r: String)
    ensures
        r@ == trimmed(s@),
{
    let cs = chars_of(s);
    assert(cs@.subrange(0, cs@.len() as int) =~= s@);
    let (a, b) = trim_bounds(cs.as_slice(), 0, cs.len());
    string_of_range(cs.as_slice(), a, b)
}

/// The text of an optional string.
pub open spec fn opt_text(s: Option<String>) -> Option<Seq<char>> {
    match s {
        Some(x) => Some(x@),
        None => None,
    }
}

/// The contents of an optional byte vector.
pub open spec fn opt_bytes(b: Option<Vec<u8>>) -> Option<Seq<u8>> {
    match b {
        Some(x) => Some(x@),
        None => None,
    }
}

/// Copies optional bytes.
pub fn clone_bytes(b: &Option<Vec<u8>>) -> (r: Option<Vec<u8>>)
    ensures
        opt_bytes(r) == opt_bytes(*b),
{
    match b {
        Some(x) => Some(crate::frontmatter::copy_bytes(x.as_slice())),
        None => None,
    }
}

/// Copies an optional string.
pub fn clone_text(s: &Option<String>) -> (r: Option<String>)
    ensures
        r == *s,
{
    match s {
        Some(x) => Some(x.clone()),
        None => None,
    }
}

/// Only the letters from `A` to `Z` have another lower-case form here, and it is 32
/// further on.
pub proof fn law_ascii_lower_case(c: char)
    ensures
        'A' <= c <= 'Z' ==> ascii_lower(c) as int == c as int + 32,
        !('A' <= c <= 'Z') ==> ascii_lower(c) == c,
        ascii_lower(ascii_lower(c)) == ascii_lower(c),
{
    if 'A' <= c <= 'Z' {
        assert(ascii_lower(c) as int == c as int + 32);
    }
}

/// The parts of a path are all of it: put together with the separators between
/// them they are as long as the path, each ends where the next separator stands,
/// and no part holds one.
pub proof fn law_segments_cover_the_path(s: &str, r: Vec<String>, k: int)
    requires
        call_ensures(segments, (s,), r),
        0 <= k < r@.len(),
    ensures
        forall|i: int| 0 <= i < r@[k]@.len() ==> r@[k]@[i] != '/' && #[trigger] r@[k]@[i] != '\\',
        exists|bounds: Seq<(int, int)>|
            {
                &&& #[trigger] bounds.len() == r@.len()
                &&& bounds[0].0 == 0
                &&& bounds.last().1 == s@.len()
                &&& forall|j: int|
                    0 <= j < bounds.len() ==> 0 <= (#[trigger] bounds[j]).0 <= bounds[j].1
                        <= s@.len() && r@[j]@ == s@.subrange(bounds[j].0, bounds[j].1)
                &&& forall|j: int, l: int|
                    0 <= j && l == j + 1 && l < bounds.len() ==> (#[trigger] bounds[l]).0 == (
                    #[trigger] bounds[j]).1 + 1
            },
{
    let v = views(r@);
    let bounds = choose|bounds: Seq<(int, int)>| #[trigger]
        consecutive(s@, bounds) && bounds.len() > 0 && bounds.last().1 == s@.len() && views(r@)
            == cut_at(s@, bounds);
    assert(v.len() == r@.len() && cut_at(s@, bounds).len() == bounds.len());
    assert(bounds.len() == r@.len());
    assert forall|j: int| 0 <= j < bounds.len() implies 0 <= (#[trigger] bounds[j]).0
        <= bounds[j].1 <= s@.len() && r@[j]@ == s@.subrange(bounds[j].0, bounds[j].1) by {
        assert(is_segment(s@, bounds[j].0, bounds[j].1));
        assert(v[j] == r@[j]@);
        assert(cut_at(s@, bounds)[j] == s@.subrange(bounds[j].0, bounds[j].1));
    }
    assert(is_segment(s@, bounds[k].0, bounds[k].1));
    assert forall|i: int| 0 <= i < r@[k]@.len() implies r@[k]@[i] != '/' && #[trigger] r@[k]@[i]
        != '\\' by {
        assert(r@[k]@[i] == s@[bounds[k].0 + i]);
        assert(!is_sep(s@[bounds[k].0 + i]));
    }
}

/// The characters that count as white space, by their numbers.
pub proof fn law_white_space(c: char)
    ensures
        ({
            let n = c as int;
            is_white(c) <==> 9 <= n <= 13 || n == 32 || n == 133 || n == 160 || n == 5760 || 8192
                <= n <= 8202 || n == 8232 || n == 8233 || n == 8239 || n == 8287 || n == 12288
        }),
{
}

/// Where one text stands in another: at its start, at its end, anywhere.
pub proof fn law_where_a_text_stands(
    s: &str,
    p: &str,
    at_start: bool,
    at_end: bool,
    anywhere: bool,
    before: Seq<char>,
    after: Seq<char>,
)
    requires
        call_ensures(starts_with, (s, p), at_start),
        call_ensures(ends_with, (s, p), at_end),
        call_ensures(contains, (s, p), anywhere),
    ensures
        s@ == p@ + after ==> at_start,
        at_start ==> s@ == p@ + s@.subrange(p@.len() as int, s@.len() as int),
        s@ == before + p@ ==> at_end,
        at_end ==> s@ == s@.subrange(0, s@.len() - p@.len()) + p@,
        s@ == before + p@ + after ==> anywhere,
        anywhere ==> exists|b: Seq<char>, a: Seq<char>| s@ == #[trigger] (b + p@ + a),
{
    let n: int = p@.len() as int;
    if s@ == p@ + after {
        assert(s@.subrange(0, n) =~= p@);
    }
    if at_start {
        assert(s@ =~= s@.subrange(0, n) + s@.subrange(n, s@.len() as int));
    }
    if s@ == before + p@ {
        assert(s@.subrange(s@.len() - n, s@.len() as int) =~= p@);
    }
    if at_end {
        assert(s@ =~= s@.subrange(0, s@.len() - n) + s@.subrange(s@.len() - n, s@.len() as int));
    }
    if s@ == before + p@ + after {
        assert(s@.subrange(before.len() as int, before.len() + n) =~= p@);
        assert(occurs_at(p@, s@, before.len() as int));
    }
    if anywhere {
        let i = choose|i: int| #[trigger] occurs_at(p@, s@, i);
        let b = s@.subrange(0, i);
        let a = s@.subrange(i + n, s@.len() as int);
        assert(s@ =~= b + p@ + a);
    }
}

/// Lower case and other separators change single characters and nothing else, and
/// texts that differ in case only are the same to the comparison that ignores it.
pub proof fn law_letter_by_letter(
    s: &str,
    t: &str,
    from: char,
    to: char,
    swapped: String,
    lower: String,
    same: bool,
)
    requires
        call_ensures(replace_char, (s, from, to), swapped),
        call_ensures(to_ascii_lowercase, (s,), lower),
        call_ensures(eq_ignore_ascii_case, (s, t), same),
    ensures
        swapped@.len() == s@.len() && lower@.len() == s@.len(),
        forall|i: int|
            0 <= i < s@.len() ==> #[trigger] swapped@[i] == (if s@[i] == from {
                to
            } else {
                s@[i]
            }),
        forall|i: int|
            0 <= i < s@.len() ==> #[trigger] lower@[i] == (if 65 <= s@[i] as int <= 90 {
                (s@[i] as int + 32) as char
            } else {
                s@[i]
            }),
        same ==> s@.len() == t@.len(),
        s@ == t@ ==> same,
        lower@ == t@ ==> same,
{
    if lower@ == t@ {
        assert(ascii_lower_seq(lower@) =~= ascii_lower_seq(s@));
    }
    if same {
        assert(ascii_lower_seq(s@).len() == ascii_lower_seq(t@).len());
    }
}

} // verus!
