//! Paths as text. Joining puts a `/` between parts, which every host reads; a path
//! that comes from the disk is cut as its host cuts it.

use vstd::prelude::*;

use crate::text;

verus! {

/// `rel` below `base`: an absolute `rel` stands for itself.
pub open spec fn joined(base: Seq<char>, rel: Seq<char>) -> Seq<char> {
    if rel.len() > 0 && rel[0] == '/' {
        rel
    } else if base.len() == 0 || base.last() == '/' {
        base + rel
    } else {
        base.push('/') + rel
    }
}

/// What cuts a path into its parts.
#[derive(Debug, Clone, Copy, PartialEq, Eq, Structural)]
pub enum PathStyle {
    /// `/` only.
    Unix,
    /// `/` and `\`.
    Windows,
}

/// The character stands between parts.
pub open spec fn cuts(style: PathStyle, c: char) -> bool {
    c == '/' || (style is Windows && c == '\\')
}

/// Where the run of other characters that starts at `i` ends.
pub open spec fn part_end(style: PathStyle, p: Seq<char>, i: int) -> int
    decreases p.len() - i,
{
    if i < 0 || i >= p.len() || cuts(style, p[i]) {
        i
    } else {
        part_end(style, p, i + 1)
    }
}

/// The run ends at the first character that cuts, or with the text.
pub proof fn lemma_part_end(style: PathStyle, p: Seq<char>, i: int)
    requires
        0 <= i <= p.len(),
    ensures
        i <= part_end(style, p, i) <= p.len(),
        forall|k: int| i <= k < part_end(style, p, i) ==> !cuts(style, #[trigger] p[k]),
        part_end(style, p, i) < p.len() ==> cuts(style, p[part_end(style, p, i)]),
    decreases p.len() - i,
{
    if i < p.len() && !cuts(style, p[i]) {
        lemma_part_end(style, p, i + 1);
    }
}

/// The run is no name: it is empty, or a dot that stands for the folder before it.
pub open spec fn is_filler(p: Seq<char>, i: int, j: int) -> bool {
    i >= j || (i > 0 && j == i + 1 && p[i] == '.')
}

/// The bounds of the names from `i` on, in order.
pub open spec fn names(style: PathStyle, p: Seq<char>, i: int) -> Seq<(int, int)>
    decreases p.len() + 1 - i,
{
    if i < 0 || i >= p.len() {
        Seq::empty()
    } else {
        proof {
            lemma_part_end(style, p, i);
        }
        let j = part_end(style, p, i);
        if is_filler(p, i, j) {
            names(style, p, j + 1)
        } else {
            seq![(i, j)] + names(style, p, j + 1)
        }
    }
}

/// How many marks of a root the path leads with: on Windows two of them lead to
/// another machine or device.
pub open spec fn root_marks(style: PathStyle, p: Seq<char>) -> int {
    if p.len() == 0 || !cuts(style, p[0]) {
        0
    } else if style is Windows && p.len() > 1 && cuts(style, p[1]) {
        2
    } else {
        1
    }
}

/// The text between the bounds.
pub open spec fn name_at(p: Seq<char>, b: (int, int)) -> Seq<char> {
    p.subrange(b.0, b.1)
}

/// A letter and a colon: on Windows, what a drive is called.
pub open spec fn is_drive(n: Seq<char>) -> bool {
    n.len() == 2 && 'a' <= text::ascii_lower(n[0]) <= 'z' && n[1] == ':'
}

/// The names mean the same. They are compared as they are written, but for the
/// letter of a drive, whose case does not count.
pub open spec fn same_name(style: PathStyle, a: Seq<char>, b: Seq<char>) -> bool {
    a == b || (style is Windows && is_drive(a) && is_drive(b) && text::ascii_lower(a[0])
        == text::ascii_lower(b[0]))
}

/// `path` is `root` or lies below it: its first names are those of `root`, behind
/// the same root. Every path lies below an empty `root`.
pub open spec fn within(style: PathStyle, root: Seq<char>, path: Seq<char>) -> bool {
    let a = names(style, root, 0);
    let b = names(style, path, 0);
    &&& root_marks(style, root) == root_marks(style, path) || root.len() == 0
    &&& a.len() <= b.len()
    &&& forall|k: int|
        0 <= k < a.len() ==> same_name(
            style,
            name_at(root, #[trigger] a[k]),
            name_at(path, b[k]),
        )
}

/// What `path` is called below `root`: its other names, as they are written.
pub open spec fn below(style: PathStyle, root: Seq<char>, path: Seq<char>) -> Option<Seq<char>> {
    let n = names(style, root, 0).len() as int;
    let b = names(style, path, 0);
    if !within(style, root, path) {
        None
    } else if root.len() == 0 {
        Some(path)
    } else if b.len() == n {
        Some(Seq::empty())
    } else {
        Some(path.subrange(b[n].0, b.last().1))
    }
}

/// Joins two paths.
pub fn join(base: &str, rel: &str) -> (r: String)
    ensures
        r@ == joined(base@, rel@),
{
    let rc = text::chars_of(rel);
    if rc.len() > 0 && rc[0] == '/' {
        return text::string_of(rc.as_slice());
    }
    let bc = text::chars_of(base);
    if bc.len() == 0 || bc[bc.len() - 1] == '/' {
        return text::concat(base, rel);
    }
    let mut s = text::string_of(bc.as_slice());
    s.push('/');
    s.append(rel);
    s
}

fn cuts_at(style: PathStyle, c: char) -> (r: bool)
    ensures
        r == cuts(style, c),
{
    c == '/' || (style == PathStyle::Windows && c == '\\')
}

/// Bounds as mathematical values.
pub open spec fn bounds_of(v: Seq<(usize, usize)>) -> Seq<(int, int)> {
    v.map_values(|b: (usize, usize)| (b.0 as int, b.1 as int))
}

fn names_of(style: PathStyle, cs: &[char]) -> (v: Vec<(usize, usize)>)
    ensures
        bounds_of(v@) == names(style, cs@, 0),
        forall|k: int| 0 <= k < v@.len() ==> (#[trigger] v@[k]).0 < v@[k].1 <= cs@.len(),
{
    let mut v: Vec<(usize, usize)> = Vec::new();
    let mut i: usize = 0;
    assert(bounds_of(v@) =~= Seq::<(int, int)>::empty());
    assert(bounds_of(v@) + names(style, cs@, 0) =~= names(style, cs@, 0));
    while i < cs.len()
        invariant
            i <= cs@.len(),
            names(style, cs@, 0) == bounds_of(v@) + names(style, cs@, i as int),
            forall|k: int| 0 <= k < v@.len() ==> (#[trigger] v@[k]).0 < v@[k].1 <= cs@.len(),
        decreases cs@.len() - i,
    {
        let start: usize = i;
        let mut j: usize = i;
        while j < cs.len() && !cuts_at(style, cs[j])
            invariant
                start <= j <= cs@.len(),
                part_end(style, cs@, start as int) == part_end(style, cs@, j as int),
            decreases cs@.len() - j,
        {
            j = j + 1;
        }
        let ghost before = v@;
        let ghost rest = names(style, cs@, j + 1);
        if !(start >= j || (start > 0 && j == start + 1 && cs[start] == '.')) {
            v.push((start, j));
            assert(bounds_of(v@) =~= bounds_of(before).push((start as int, j as int)));
            assert(bounds_of(before) + (seq![(start as int, j as int)] + rest) =~= bounds_of(v@)
                + rest);
        }
        if j == cs.len() {
            assert(rest =~= Seq::<(int, int)>::empty());
            assert(names(style, cs@, j as int) =~= Seq::<(int, int)>::empty());
            i = j;
        } else {
            i = j + 1;
        }
    }
    assert(bounds_of(v@) + names(style, cs@, i as int) =~= bounds_of(v@));
    v
}

fn marks_of(style: PathStyle, cs: &[char]) -> (n: u8)
    ensures
        n == root_marks(style, cs@),
{
    if cs.len() == 0 || !cuts_at(style, cs[0]) {
        0
    } else if style == PathStyle::Windows && cs.len() > 1 && cuts_at(style, cs[1]) {
        2
    } else {
        1
    }
}

fn drive_letter(n: &str) -> (r: Option<char>)
    ensures
        r == (if is_drive(n@) {
            Some(text::ascii_lower(n@[0]))
        } else {
            None
        }),
{
    let cs = text::chars_of(n);
    if cs.len() != 2 || cs[1] != ':' {
        return None;
    }
    let c = text::to_ascii_lower_char(cs[0]);
    if 'a' <= c && c <= 'z' {
        Some(c)
    } else {
        None
    }
}

fn names_match(style: PathStyle, a: &str, b: &str) -> (r: bool)
    ensures
        r == same_name(style, a@, b@),
{
    if text::str_eq(a, b) {
        return true;
    }
    if style != PathStyle::Windows {
        return false;
    }
    match (drive_letter(a), drive_letter(b)) {
        (Some(c), Some(d)) => c == d,
        _ => false,
    }
}

/// Whether `path` is `root` or lies below it.
pub fn is_within(style: PathStyle, root: &str, path: &str) -> (r: bool)
    ensures
        r == within(style, root@, path@),
{
    let rc = text::chars_of(root);
    let pc = text::chars_of(path);
    let a = names_of(style, rc.as_slice());
    let b = names_of(style, pc.as_slice());
    let ghost an = names(style, root@, 0);
    let ghost bn = names(style, path@, 0);
    assert(bounds_of(a@).len() == a@.len() && bounds_of(b@).len() == b@.len());
    if rc.len() > 0 && marks_of(style, rc.as_slice()) != marks_of(style, pc.as_slice()) {
        return false;
    }
    if a.len() > b.len() {
        return false;
    }
    let mut k: usize = 0;
    while k < a.len()
        invariant
            k <= a@.len() <= b@.len(),
            rc@ == root@,
            pc@ == path@,
            an == names(style, root@, 0),
            an == bounds_of(a@),
            bn == names(style, path@, 0),
            bn == bounds_of(b@),
            forall|m: int| 0 <= m < a@.len() ==> (#[trigger] a@[m]).0 < a@[m].1 <= rc@.len(),
            forall|m: int| 0 <= m < b@.len() ==> (#[trigger] b@[m]).0 < b@[m].1 <= pc@.len(),
            forall|m: int|
                0 <= m < k ==> same_name(
                    style,
                    name_at(root@, #[trigger] an[m]),
                    name_at(path@, bn[m]),
                ),
        decreases a@.len() - k,
    {
        let x = text::string_of_range(rc.as_slice(), a[k].0, a[k].1);
        let y = text::string_of_range(pc.as_slice(), b[k].0, b[k].1);
        assert(an[k as int] == (a@[k as int].0 as int, a@[k as int].1 as int));
        assert(bn[k as int] == (b@[k as int].0 as int, b@[k as int].1 as int));
        assert(x@ == name_at(root@, an[k as int]));
        assert(y@ == name_at(path@, bn[k as int]));
        if !names_match(style, x.as_str(), y.as_str()) {
            return false;
        }
        k = k + 1;
    }
    true
}

/// What `path` is called below `root`.
pub fn strip_root(style: PathStyle, root: &str, path: &str) -> (r: Option<String>)
    ensures
        text::opt_text(r) == below(style, root@, path@),
{
    if !is_within(style, root, path) {
        return None;
    }
    let rc = text::chars_of(root);
    if rc.len() == 0 {
        return Some(path.to_string());
    }
    let pc = text::chars_of(path);
    let a = names_of(style, rc.as_slice());
    let b = names_of(style, pc.as_slice());
    let n: usize = a.len();
    let ghost bn = names(style, path@, 0);
    assert(bounds_of(a@).len() == a@.len() && bounds_of(b@).len() == b@.len());
    if b.len() == n {
        return Some(String::new());
    }
    let last: usize = b.len() - 1;
    assert(bn[n as int] == (b@[n as int].0 as int, b@[n as int].1 as int));
    assert(bn.last() == (b@[last as int].0 as int, b@[last as int].1 as int));
    proof {
        lemma_names_ordered(style, path@, 0);
        assert(bn[n as int].0 < bn[last as int].1);
    }
    Some(text::string_of_range(pc.as_slice(), b[n].0, b[last].1))
}

/// Names come in order and do not overlap.
proof fn lemma_names_ordered(style: PathStyle, p: Seq<char>, i: int)
    requires
        0 <= i,
    ensures
        forall|k: int|
            0 <= k < names(style, p, i).len() ==> i <= (#[trigger] names(style, p, i)[k]).0
                && names(style, p, i)[k].0 < names(style, p, i)[k].1 <= p.len(),
        forall|k: int, l: int|
            0 <= k < l < names(style, p, i).len() ==> (#[trigger] names(style, p, i)[k]).1 < (
            #[trigger] names(style, p, i)[l]).0,
    decreases p.len() + 1 - i,
{
    if i < p.len() {
        lemma_part_end(style, p, i);
        let j = part_end(style, p, i);
        let rest = names(style, p, j + 1);
        lemma_names_ordered(style, p, j + 1);
        if !is_filler(p, i, j) {
            let all = names(style, p, i);
            assert(all =~= seq![(i, j)] + rest);
            assert forall|k: int| 0 <= k < all.len() implies i <= (#[trigger] all[k]).0 && all[k].0
                < all[k].1 <= p.len() by {
                if k > 0 {
                    assert(all[k] == rest[k - 1]);
                }
            }
            assert forall|k: int, l: int| 0 <= k < l < all.len() implies (#[trigger] all[k]).1 < (
            #[trigger] all[l]).0 by {
                assert(all[l] == rest[l - 1]);
                if k > 0 {
                    assert(all[k] == rest[k - 1]);
                }
            }
        }
    }
}

/// Within a text that goes on behind `base` with a new part, the names of `base`
/// come first and those of the rest follow.
proof fn lemma_names_split(style: PathStyle, base: Seq<char>, s: Seq<char>, i: int, k: int)
    requires
        0 <= i <= k,
        base.len() <= k <= s.len(),
        k <= base.len() + 1,
        s.subrange(0, base.len() as int) == base,
        k == base.len() ==> base.len() == 0 || cuts(style, base.last()),
        k == base.len() + 1 ==> cuts(style, s[base.len() as int]),
    ensures
        names(style, s, i) == names(style, base, i) + names(style, s, k),
    decreases s.len() - i,
{
    let n: int = base.len() as int;
    assert forall|m: int| 0 <= m < n implies s[m] == base[m] by {
        assert(base[m] == s.subrange(0, n)[m]);
    }
    if i >= n {
        assert(names(style, base, i) =~= Seq::<(int, int)>::empty());
        if i < k {
            assert(i == n && cuts(style, s[n]));
            assert(part_end(style, s, n) == n);
            assert(names(style, s, n) == names(style, s, n + 1));
        }
        assert(names(style, base, i) + names(style, s, k) =~= names(style, s, k));
    } else {
        lemma_part_end(style, base, i);
        lemma_part_end(style, s, i);
        let j = part_end(style, base, i);
        let e = part_end(style, s, i);
        if e < j {
            assert(cuts(style, base[e]));
        }
        if j < e {
            if j < n {
                assert(cuts(style, s[j]));
            } else if k == n {
                assert(!cuts(style, base[n - 1]));
            } else {
                assert(!cuts(style, s[n]));
            }
        }
        assert(j == e);
        if j + 1 <= k {
            lemma_names_split(style, base, s, j + 1, k);
        }
        assert(j < n || k == n + 1);
        let rest = names(style, base, j + 1);
        if !is_filler(s, i, j) {
            assert((seq![(i, j)] + rest) + names(style, s, k) =~= seq![(i, j)] + (rest + names(
                style,
                s,
                k,
            )));
        }
    }
}

/// A relative path that starts and ends with a name.
pub open spec fn tidy(style: PathStyle, rel: Seq<char>) -> bool {
    let n = rel.len() as int;
    &&& n > 0
    &&& !cuts(style, rel[0])
    &&& !cuts(style, rel[n - 1])
    &&& !(rel[0] == '.' && (n == 1 || cuts(style, rel[1])))
    &&& !(rel[n - 1] == '.' && cuts(style, rel[n - 2]))
}

/// Where the last part is a name, the names end with the text.
proof fn lemma_last_name(style: PathStyle, s: Seq<char>, i: int)
    requires
        0 <= i < s.len(),
        !cuts(style, s.last()),
        !(s.last() == '.' && s.len() > 1 && cuts(style, s[s.len() - 2])),
        i == s.len() - 1 && i > 0 ==> s.last() != '.',
    ensures
        names(style, s, i).len() > 0,
        names(style, s, i).last().1 == s.len(),
    decreases s.len() - i,
{
    lemma_part_end(style, s, i);
    let j = part_end(style, s, i);
    let rest = names(style, s, j + 1);
    if j == s.len() {
        assert(rest =~= Seq::<(int, int)>::empty());
        assert(!is_filler(s, i, j));
        assert(names(style, s, i) =~= seq![(i, j)]);
    } else {
        assert(j + 1 < s.len()) by {
            assert(cuts(style, s[j]));
        }
        assert(j + 1 == s.len() - 1 ==> s.last() != '.');
        lemma_last_name(style, s, j + 1);
        if !is_filler(s, i, j) {
            assert((seq![(i, j)] + rest).last() == rest.last());
        }
    }
}

/// The one root that a `/` behind it would turn into another.
pub open spec fn is_bare_mark(style: PathStyle, root: Seq<char>) -> bool {
    style is Windows && root.len() == 1 && root[0] == '\\'
}

/// A relative path joined to a root lies within the root and, where it starts and
/// ends with a name, is called there what it was called before.
pub proof fn law_join_stays_within(style: PathStyle, root: Seq<char>, rel: Seq<char>)
    requires
        rel.len() > 0 ==> !cuts(style, rel[0]),
        !is_bare_mark(style, root),
    ensures
        within(style, root, joined(root, rel)),
        tidy(style, rel) ==> below(style, root, joined(root, rel)) == Some(rel),
{
    let s = joined(root, rel);
    let n: int = root.len() as int;
    let k: int = if n == 0 || root.last() == '/' {
        n
    } else {
        n + 1
    };
    assert(s.subrange(0, n) =~= root);
    assert(s.subrange(k, s.len() as int) =~= rel);
    if n == 0 {
        assert(names(style, root, 0) =~= Seq::<(int, int)>::empty());
        assert(s =~= rel);
    } else {
        assert(s[0] == root[0]);
        if n > 1 {
            assert(s[1] == root[1]);
        } else if rel.len() > 0 && k == n {
            assert(s[1] == rel[0]);
        }
        lemma_names_split(style, root, s, 0, k);
        let a = names(style, root, 0);
        let b = names(style, s, 0);
        lemma_names_ordered(style, root, 0);
        assert forall|m: int| 0 <= m < a.len() implies name_at(root, #[trigger] a[m]) == name_at(
            s,
            b[m],
        ) by {
            assert(b[m] == a[m]);
            assert(name_at(root, a[m]) =~= name_at(s, b[m]));
        }
        assert(root_marks(style, root) == root_marks(style, s)) by {
            if n == 1 && k == 2 {
                assert(!cuts(style, root[0]));
            }
        }
        if tidy(style, rel) {
            assert(s[k] == rel[0]);
            assert(s.last() == rel.last());
            if rel.len() > 1 {
                assert(s[s.len() - 2] == rel[rel.len() - 2]);
                assert(s[k + 1] == rel[1]);
            }
            lemma_last_name(style, s, k);
            lemma_part_end(style, s, k);
            let j = part_end(style, s, k);
            assert(!is_filler(s, k, j));
            assert(names(style, s, k)[0] == (k, j));
            assert(b[a.len() as int] == (k, j));
            assert(b.last() == names(style, s, k).last());
        }
    }
}

/// Names that a path can be made of.
pub open spec fn are_names(style: PathStyle, ns: Seq<Seq<char>>) -> bool {
    forall|i: int|
        0 <= i < ns.len() ==> {
            &&& (#[trigger] ns[i]).len() > 0
            &&& ns[i] != seq!['.']
            &&& forall|k: int| 0 <= k < ns[i].len() ==> !cuts(style, #[trigger] ns[i][k])
        }
}

/// The path from the root that goes through these names.
pub open spec fn rooted(sep: char, ns: Seq<Seq<char>>) -> Seq<char>
    decreases ns.len(),
{
    if ns.len() == 0 {
        Seq::empty()
    } else {
        rooted(sep, ns.drop_last()).push(sep) + ns.last()
    }
}

proof fn lemma_rooted_names(style: PathStyle, sep: char, ns: Seq<Seq<char>>)
    requires
        cuts(style, sep),
        are_names(style, ns),
    ensures
        ({
            let s = rooted(sep, ns);
            let b = names(style, s, 0);
            &&& b.len() == ns.len()
            &&& forall|k: int| 0 <= k < ns.len() ==> name_at(s, #[trigger] b[k]) == ns[k]
            &&& ns.len() > 0 ==> s.len() > 0 && root_marks(style, s) == 1
        }),
    decreases ns.len(),
{
    let s = rooted(sep, ns);
    if ns.len() == 0 {
        assert(names(style, s, 0) =~= Seq::<(int, int)>::empty());
    } else {
        let init = ns.drop_last();
        let last = ns.last();
        let base = rooted(sep, init);
        assert forall|i: int| 0 <= i < init.len() implies {
            &&& (#[trigger] init[i]).len() > 0
            &&& init[i] != seq!['.']
            &&& forall|k: int| 0 <= k < init[i].len() ==> !cuts(style, #[trigger] init[i][k])
        } by {
            assert(init[i] == ns[i]);
        }
        lemma_rooted_names(style, sep, init);
        let n = base.len() as int;
        assert(s.subrange(0, n) =~= base);
        assert(s[n] == sep);
        lemma_names_split(style, base, s, 0, n + 1);
        let l = ns[ns.len() - 1];
        assert(l == last);
        assert forall|k: int| n + 1 <= k < s.len() implies !cuts(style, #[trigger] s[k]) by {
            assert(s[k] == l[k - n - 1]);
        }
        lemma_part_end(style, s, n + 1);
        let j = part_end(style, s, n + 1);
        assert(j == s.len());
        assert(!is_filler(s, n + 1, j)) by {
            if j == n + 2 && s[n + 1] == '.' {
                assert(l =~= seq!['.']);
            }
        }
        assert(names(style, s, j + 1) =~= Seq::<(int, int)>::empty());
        assert(names(style, s, n + 1) =~= seq![(n + 1, j)]);
        let b0 = names(style, base, 0);
        let b = names(style, s, 0);
        lemma_names_ordered(style, base, 0);
        assert(b =~= b0.push((n + 1, j)));
        assert forall|k: int| 0 <= k < ns.len() implies name_at(s, #[trigger] b[k]) == ns[k] by {
            if k < init.len() {
                assert(b[k] == b0[k]);
                assert(name_at(s, b[k]) =~= name_at(base, b0[k]));
                assert(name_at(base, b0[k]) == init[k]);
            } else {
                assert(name_at(s, b[k]) =~= l);
            }
        }
        if init.len() == 0 {
            assert(n == 0);
            assert(s[0] == sep);
            assert(s[1] == l[0]);
            assert(!cuts(style, l[0]));
        } else {
            assert(s[0] == base[0]);
            if n > 1 {
                assert(s[1] == base[1]);
            } else {
                assert(init[init.len() - 1].len() > 0);
                assert(base.len() >= 2);
            }
        }
    }
}

/// A path lies within another exactly where it goes through all its names first:
/// a name that merely begins like another is a different one.
pub proof fn law_within_is_by_whole_names(
    style: PathStyle,
    sep: char,
    sep2: char,
    a: Seq<Seq<char>>,
    b: Seq<Seq<char>>,
)
    requires
        cuts(style, sep),
        cuts(style, sep2),
        are_names(style, a),
        are_names(style, b),
        a.len() > 0,
        b.len() > 0,
    ensures
        within(style, rooted(sep, a), rooted(sep2, b)) <==> a.len() <= b.len() && forall|k: int|
            0 <= k < a.len() ==> same_name(style, #[trigger] a[k], b[k]),
{
    lemma_rooted_names(style, sep, a);
    lemma_rooted_names(style, sep2, b);
    let x = rooted(sep, a);
    let y = rooted(sep2, b);
    let p = names(style, x, 0);
    let q = names(style, y, 0);
    assert forall|k: int| 0 <= k < a.len() && a.len() <= b.len() implies name_at(x, #[trigger] p[k])
        == a[k] && name_at(y, q[k]) == b[k] by {}
    if within(style, x, y) {
        assert forall|k: int| 0 <= k < a.len() implies same_name(style, #[trigger] a[k], b[k]) by {
            assert(same_name(style, name_at(x, p[k]), name_at(y, q[k])));
        }
    }
}

/// Names are the same where they are written the same; on Windows the letter of a
/// drive may also differ in case.
pub proof fn law_same_names(style: PathStyle, a: Seq<char>, b: Seq<char>)
    ensures
        a == b ==> same_name(style, a, b),
        same_name(style, a, b) && a != b ==> {
            &&& style is Windows
            &&& a.len() == 2 && b.len() == 2
            &&& a[1] == ':' && b[1] == ':'
            &&& text::ascii_lower(a[0]) == text::ascii_lower(b[0])
        },
        cuts(PathStyle::Unix, '/'),
        cuts(PathStyle::Windows, '/') && cuts(PathStyle::Windows, '\\'),
        !cuts(PathStyle::Unix, '\\'),
{
}

/// A relative path is put behind its folder with one slash between them, and an
/// absolute one stands for itself.
pub proof fn law_join_puts_one_slash(base: &str, rel: &str, r: String)
    requires
        call_ensures(join, (base, rel), r),
    ensures
        rel@.len() > 0 && rel@[0] == '/' ==> r@ == rel@,
        (rel@.len() == 0 || rel@[0] != '/') && base@.len() > 0 && base@.last() != '/' ==> r@
            == base@ + seq!['/'] + rel@,
        (rel@.len() == 0 || rel@[0] != '/') && base@.len() > 0 && base@.last() == '/' ==> r@
            == base@ + rel@,
        base@.len() == 0 ==> r@ == rel@,
{
    assert(base@.push('/') + rel@ =~= base@ + seq!['/'] + rel@);
    if base@.len() == 0 {
        assert(base@ + rel@ =~= rel@);
    }
}

/// What lies below a folder is found there: a path that was joined to a folder is
/// within it, and what is left of it is what was joined.
pub proof fn law_joined_path_is_found_below(
    style: PathStyle,
    root: &str,
    rel: &str,
    path: &str,
    inside: bool,
    left: Option<String>,
)
    requires
        rel@.len() > 0 ==> !cuts(style, rel@[0]),
        !is_bare_mark(style, root@),
        root@.len() > 0 && root@.last() != '/',
        rel@.len() > 0,
        path@ == root@ + seq!['/'] + rel@,
        call_ensures(is_within, (style, root, path), inside),
        call_ensures(strip_root, (style, root, path), left),
    ensures
        inside,
        left is Some,
        tidy(style, rel@) ==> left->0@ == rel@,
{
    assert(rel@[0] != '/');
    assert(joined(root@, rel@) =~= path@);
    law_join_stays_within(style, root@, rel@);
}

/// A path is within a folder exactly where the folder's names lead the path's, name
/// by name: a folder whose name only begins another's does not hold it.
pub proof fn law_folder_holds_whole_names(
    style: PathStyle,
    sep: char,
    sep2: char,
    a: Seq<Seq<char>>,
    b: Seq<Seq<char>>,
    root: &str,
    path: &str,
    inside: bool,
    left: Option<String>,
)
    requires
        cuts(style, sep),
        cuts(style, sep2),
        are_names(style, a),
        are_names(style, b),
        a.len() > 0,
        b.len() > 0,
        root@ == rooted(sep, a),
        path@ == rooted(sep2, b),
        call_ensures(is_within, (style, root, path), inside),
        call_ensures(strip_root, (style, root, path), left),
    ensures
        inside <==> a.len() <= b.len() && forall|k: int|
            0 <= k < a.len() ==> same_name(style, #[trigger] a[k], b[k]),
        left is Some <==> inside,
{
    law_within_is_by_whole_names(style, sep, sep2, a, b);
}

/// The marks that a path leads with, up to two.
pub open spec fn leading_marks(style: PathStyle, p: Seq<char>) -> int {
    if p.len() > 1 && cuts(style, p[0]) && cuts(style, p[1]) {
        2
    } else if p.len() > 0 && cuts(style, p[0]) {
        1
    } else {
        0
    }
}

/// An absolute path is not within a relative folder, nor the other way round; and on
/// Windows a path that leads to another machine is not within a folder of this one.
pub proof fn law_folder_of_another_kind_holds_nothing(
    style: PathStyle,
    root: &str,
    path: &str,
    inside: bool,
    left: Option<String>,
)
    requires
        call_ensures(is_within, (style, root, path), inside),
        call_ensures(strip_root, (style, root, path), left),
        root@.len() > 0,
    ensures
        (leading_marks(style, root@) == 0) != (leading_marks(style, path@) == 0) ==> !inside
            && left is None,
        style is Windows && leading_marks(style, root@) != leading_marks(style, path@) ==> !inside
            && left is None,
{
}

} // verus!
