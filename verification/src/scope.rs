//! Which paths the daemon may touch at all.

use vstd::prelude::*;

use crate::text;

verus! {

/// `path` starts with one of `prefixes`.
pub open spec fn has_listed_prefix(path: Seq<char>, prefixes: Seq<String>) -> bool {
    exists|k: int| 0 <= k < prefixes.len() && text::is_prefix((#[trigger] prefixes[k])@, path)
}

/// The positive and negative prefix filters of a subscription: excludes
/// override roots, and an empty root list admits every path.
pub open spec fn in_scope(path: Seq<char>, roots: Seq<String>, excludes: Seq<String>) -> bool {
    &&& !has_listed_prefix(path, excludes)
    &&& roots.len() == 0 || has_listed_prefix(path, roots)
}

/// Some segment is exactly `..`: the path climbs out of a directory.
pub open spec fn climbs(path: Seq<char>) -> bool {
    text::has_segment(path, ".."@)
}

/// The path stays below the directory it is joined to: it neither climbs nor
/// starts at a root, and names no drive or URL scheme.
pub open spec fn safe(path: Seq<char>) -> bool {
    &&& !climbs(path)
    &&& path.len() == 0 || !text::is_sep(path[0])
    &&& !text::occurs_in(":\\"@, path)
    &&& !text::occurs_in(":/"@, path)
}

fn starts_with_any(path: &str, prefixes: &[String]) -> (r: bool)
    ensures
        r == has_listed_prefix(path@, prefixes@),
{
    let mut k: usize = 0;
    while k < prefixes.len()
        invariant
            k <= prefixes@.len(),
            forall|m: int| 0 <= m < k ==> !text::is_prefix((#[trigger] prefixes@[m])@, path@),
        decreases prefixes@.len() - k,
    {
        if text::starts_with(path, prefixes[k].as_str()) {
            return true;
        }
        k = k + 1;
    }
    false
}

/// Whether `path` passes the subscription's prefix filters.
pub fn path_in_scope(path: &str, scope_roots: &[String], scope_excludes: &[String]) -> (r: bool)
    ensures
        r == in_scope(path@, scope_roots@, scope_excludes@),
{
    if starts_with_any(path, scope_excludes) {
        return false;
    }
    if scope_roots.len() == 0 {
        return true;
    }
    starts_with_any(path, scope_roots)
}

/// Whether some `/`- or `\`-delimited segment of `path` is exactly `..`. A name
/// that merely contains two dots is no such segment.
pub fn has_dotdot_segment(path: &str) -> (r: bool)
    ensures
        r == climbs(path@),
{
    let segs = text::segments(path);
    let mut k: usize = 0;
    while k < segs.len()
        invariant
            k <= segs@.len(),
            forall|m: int| 0 <= m < segs@.len() ==> text::has_segment(path@, #[trigger] segs@[m]@),
            forall|m: int| 0 <= m < k ==> (#[trigger] segs@[m])@ != ".."@,
        decreases segs@.len() - k,
    {
        if text::str_eq(segs[k].as_str(), "..") {
            return true;
        }
        k = k + 1;
    }
    false
}

/// Whether `path` may be joined to a vault root.
pub fn is_safe_path(path: &str) -> (r: bool)
    ensures
        r == safe(path@),
{
    proof {
        reveal_strlit("/");
        reveal_strlit("\\");
        assert(text::is_prefix("/"@, path@) ==> path@.subrange(0, 1)[0] == '/');
        assert(text::is_prefix("\\"@, path@) ==> path@.subrange(0, 1)[0] == '\\');
        if path@.len() > 0 {
            assert(path@[0] == '/' ==> path@.subrange(0, 1) =~= "/"@);
            assert(path@[0] == '\\' ==> path@.subrange(0, 1) =~= "\\"@);
        }
    }
    !has_dotdot_segment(path) && !text::starts_with(path, "/") && !text::starts_with(path, "\\") && !text::contains(
        path,
        ":\\",
    ) && !text::contains(path, ":/")
}

/// An exclude always wins: no choice of roots admits a path that starts with
/// an excluded prefix.
pub proof fn law_excludes_override_roots(
    path: Seq<char>,
    roots: Seq<String>,
    excludes: Seq<String>,
)
    requires
        has_listed_prefix(path, excludes),
    ensures
        !in_scope(path, roots, excludes),
{
}

/// Traversal is seen through either separator: rewriting `\` to `/` changes no
/// verdict.
pub proof fn law_climbing_is_separator_blind(path: Seq<char>)
    ensures
        climbs(text::replace_char_spec(path, '\\', '/')) == climbs(path),
{
    let s = text::replace_char_spec(path, '\\', '/');
    text::lemma_segments_ignore_separators(path);
    if climbs(path) {
        let (i, j) = choose|i: int, j: int| #[trigger]
            text::is_segment(path, i, j) && path.subrange(i, j) == ".."@;
        assert(text::is_segment(s, i, j));
    }
    if climbs(s) {
        let (i, j) = choose|i: int, j: int| #[trigger]
            text::is_segment(s, i, j) && s.subrange(i, j) == ".."@;
        assert(text::is_segment(path, i, j));
    }
}

/// Dots inside a longer name never make it a traversal: a path whose segments
/// are all longer than two characters does not climb.
pub proof fn law_long_names_do_not_climb(path: Seq<char>)
    requires
        forall|i: int, j: int| #[trigger] text::is_segment(path, i, j) ==> j - i > 2,
    ensures
        !climbs(path),
{
    reveal_strlit("..");
    assert forall|i: int, j: int| #[trigger] text::is_segment(path, i, j) implies path.subrange(i, j)
        != ".."@ by {
        assert(path.subrange(i, j).len() == j - i);
    }
}

/// Joining safe paths with a separator yields a safe path, unless a drive or
/// scheme mark arises across the seam.
pub proof fn law_safe_paths_join(a: Seq<char>, b: Seq<char>)
    requires
        safe(a),
        safe(b),
        a.len() > 0,
        !text::occurs_in(":/"@, a.push('/') + b),
        !text::occurs_in(":\\"@, a.push('/') + b),
    ensures
        safe(a.push('/') + b),
{
    let s = a.push('/') + b;
    let n: int = a.len() as int;
    assert(s[0] == a[0]);
    assert forall|i: int, j: int| #[trigger] text::is_segment(s, i, j) implies s.subrange(i, j)
        != ".."@ by {
        assert(s[n] == '/');
        if j <= n {
            assert forall|k: int| i <= k < j implies !text::is_sep(#[trigger] a[k]) by {
                assert(a[k] == s[k]);
            }
            if i > 0 {
                assert(a[i - 1] == s[i - 1]);
            }
            if j < n {
                assert(a[j] == s[j]);
            }
            assert(text::is_segment(a, i, j));
            assert(a.subrange(i, j) =~= s.subrange(i, j));
        } else {
            if i <= n {
                assert(!text::is_sep(s[n]));
            }
            let i2: int = i - n - 1;
            let j2: int = j - n - 1;
            assert forall|k: int| i2 <= k < j2 implies !text::is_sep(#[trigger] b[k]) by {
                assert(b[k] == s[k + n + 1]);
            }
            if i2 > 0 {
                assert(b[i2 - 1] == s[i - 1]);
            }
            if j2 < b.len() {
                assert(b[j2] == s[j]);
            }
            assert(text::is_segment(b, i2, j2));
            assert(b.subrange(i2, j2) =~= s.subrange(i, j));
        }
    }
}

/// The text begins with the other.
pub open spec fn begins_with(path: Seq<char>, root: Seq<char>) -> bool {
    root.len() <= path.len() && forall|i: int| 0 <= i < root.len() ==> #[trigger] path[i] == root[i]
}

/// A path is in scope exactly where it begins with no exclude and, if there are
/// roots, with one of the roots: a root somewhere inside it does not count.
pub proof fn law_scope_is_by_prefix(
    path: &str,
    roots: &[String],
    excludes: &[String],
    r: bool,
)
    requires
        call_ensures(path_in_scope, (path, roots, excludes), r),
    ensures
        r && roots@.len() > 0 ==> exists|k: int|
            0 <= k < roots@.len() && begins_with(path@, (#[trigger] roots@[k])@),
        r ==> forall|k: int|
            0 <= k < excludes@.len() ==> !begins_with(path@, (#[trigger] excludes@[k])@),
        (roots@.len() == 0 || exists|k: int|
            0 <= k < roots@.len() && begins_with(path@, (#[trigger] roots@[k])@)) && (forall|
            k: int,
        |
            0 <= k < excludes@.len() ==> !begins_with(path@, (#[trigger] excludes@[k])@)) ==> r,
        r == in_scope(path@, roots@, excludes@),
{
    law_in_scope_is_by_prefix(path@, roots@, excludes@);
}

/// The same of the filter itself.
pub proof fn law_in_scope_is_by_prefix(path: Seq<char>, roots: Seq<String>, excludes: Seq<String>)
    ensures
        in_scope(path, roots, excludes) <==> {
            &&& roots.len() == 0 || exists|k: int|
                0 <= k < roots.len() && begins_with(path, (#[trigger] roots[k])@)
            &&& forall|k: int|
                0 <= k < excludes.len() ==> !begins_with(path, (#[trigger] excludes[k])@)
        },
{
    assert forall|p: Seq<char>| #[trigger] text::is_prefix(p, path) <==> begins_with(path, p) by {
        if p.len() <= path.len() {
            let h = path.subrange(0, p.len() as int);
            if h == p {
                assert forall|i: int| 0 <= i < p.len() implies #[trigger] path[i] == p[i] by {
                    assert(h[i] == path[i]);
                }
            }
            if begins_with(path, p) {
                assert(h =~= p);
            }
        }
    }
}

/// A longer path below an admitted prefix is admitted too, as long as no exclude
/// begins it.
pub proof fn law_scope_covers_what_is_below(
    path: Seq<char>,
    more: Seq<char>,
    roots: Seq<String>,
    excludes: Seq<String>,
)
    requires
        in_scope(path, roots, excludes),
        forall|k: int|
            0 <= k < excludes.len() ==> !begins_with(path + more, (#[trigger] excludes[k])@),
    ensures
        in_scope(path + more, roots, excludes),
{
    law_in_scope_is_by_prefix(path, roots, excludes);
    law_in_scope_is_by_prefix(path + more, roots, excludes);
    if roots.len() > 0 {
        let k = choose|k: int| 0 <= k < roots.len() && begins_with(path, (#[trigger] roots[k])@);
        assert(begins_with(path + more, roots[k]@));
    }
}

/// A path is refused as unsafe exactly where it starts with a separator, has a
/// drive or scheme mark, or climbs: a part between separators that is two dots.
pub proof fn law_safe_paths(path: &str, r: bool)
    requires
        call_ensures(is_safe_path, (path,), r),
    ensures
        path@.len() > 0 && (path@[0] == '/' || path@[0] == '\\') ==> !r,
        forall|i: int|
            #![trigger path@[i]]
            0 <= i && i + 1 < path@.len() && path@[i] == ':' && (path@[i + 1] == '/' || path@[i
                + 1] == '\\') ==> !r,
        forall|i: int|
            #![trigger path@[i]]
            0 <= i && i + 1 < path@.len() && path@[i] == '.' && path@[i + 1] == '.' && (i == 0
                || path@[i - 1] == '/' || path@[i - 1] == '\\') && (i + 2 == path@.len() || path@[i
                + 2] == '/' || path@[i + 2] == '\\') ==> !r,
        r || (path@.len() > 0 && (path@[0] == '/' || path@[0] == '\\')) || (exists|i: int|
            #![trigger path@[i]]
            0 <= i && i + 1 < path@.len() && path@[i] == ':' && (path@[i + 1] == '/' || path@[i
                + 1] == '\\')) || (exists|i: int|
            #![trigger path@[i]]
            0 <= i && i + 1 < path@.len() && path@[i] == '.' && path@[i + 1] == '.' && (i == 0
                || path@[i - 1] == '/' || path@[i - 1] == '\\') && (i + 2 == path@.len() || path@[i
                + 2] == '/' || path@[i + 2] == '\\')),
{
    reveal_strlit("..");
    reveal_strlit(":/");
    reveal_strlit(":\\");
    let p = path@;
    assert forall|i: int|
        #![trigger p[i]]
        0 <= i && i + 1 < p.len() && p[i] == ':' && (p[i + 1] == '/' || p[i + 1] == '\\')
            implies !safe(p) by {
        if p[i + 1] == '/' {
            assert(p.subrange(i, i + 2) =~= ":/"@);
            assert(text::occurs_at(":/"@, p, i));
        } else {
            assert(p.subrange(i, i + 2) =~= ":\\"@);
            assert(text::occurs_at(":\\"@, p, i));
        }
    }
    assert forall|i: int|
        #![trigger p[i]]
        0 <= i && i + 1 < p.len() && p[i] == '.' && p[i + 1] == '.' && (i == 0 || p[i - 1] == '/'
            || p[i - 1] == '\\') && (i + 2 == p.len() || p[i + 2] == '/' || p[i + 2] == '\\')
            implies !safe(p) by {
        assert(p.subrange(i, i + 2) =~= ".."@);
        assert(text::is_segment(p, i, i + 2));
    }
    if !safe(p) {
        if climbs(p) {
            let (i, j) = choose|i: int, j: int| #[trigger]
                text::is_segment(p, i, j) && p.subrange(i, j) == ".."@;
            assert(text::is_segment(p, i, j) && p.subrange(i, j) == ".."@);
            assert(p.subrange(i, j).len() == j - i);
            assert(j == i + 2);
            assert(p.subrange(i, j)[0] == p[i] && p.subrange(i, j)[1] == p[i + 1]);
        } else if text::occurs_in(":\\"@, p) {
            let i = choose|i: int| #[trigger] text::occurs_at(":\\"@, p, i);
            assert(p.subrange(i, i + 2)[0] == p[i] && p.subrange(i, i + 2)[1] == p[i + 1]);
        } else if text::occurs_in(":/"@, p) {
            let i = choose|i: int| #[trigger] text::occurs_at(":/"@, p, i);
            assert(p.subrange(i, i + 2)[0] == p[i] && p.subrange(i, i + 2)[1] == p[i + 1]);
        }
    }
}

/// A path climbs exactly where a part between separators is two dots.
pub proof fn law_climbing_paths(path: &str, r: bool)
    requires
        call_ensures(has_dotdot_segment, (path,), r),
    ensures
        r <==> exists|i: int|
            #![trigger path@[i]]
            0 <= i && i + 1 < path@.len() && path@[i] == '.' && path@[i + 1] == '.' && (i == 0
                || path@[i - 1] == '/' || path@[i - 1] == '\\') && (i + 2 == path@.len() || path@[i
                + 2] == '/' || path@[i + 2] == '\\'),
{
    reveal_strlit("..");
    let p = path@;
    assert forall|i: int|
        #![trigger p[i]]
        0 <= i && i + 1 < p.len() && p[i] == '.' && p[i + 1] == '.' && (i == 0 || p[i - 1] == '/'
            || p[i - 1] == '\\') && (i + 2 == p.len() || p[i + 2] == '/' || p[i + 2]
            == '\\') implies climbs(p) by {
        assert(p.subrange(i, i + 2) =~= ".."@);
        assert(text::is_segment(p, i, i + 2));
    }
    if climbs(p) {
        let (i, j) = choose|i: int, j: int| #[trigger]
            text::is_segment(p, i, j) && p.subrange(i, j) == ".."@;
        assert(p.subrange(i, j).len() == 2);
        assert(p.subrange(i, j)[0] == p[i]);
        assert(p.subrange(i, j)[1] == p[i + 1]);
    }
}

} // verus!
