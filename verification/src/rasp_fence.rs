//! The substrate fence and the junk fence.
//!
//! The substrate fence classifies a path by a list of rules. The list in force
//! is empty: substrate files travel like any note, and every path classifies as
//! content. The matcher is kept for a list that is not. The junk fence is
//! independent of it and always on.

use vstd::prelude::*;

use crate::text;

verus! {

/// One rule of the substrate fence.
#[derive(Debug, Clone, Copy)]
pub enum SubstrateRule {
    /// The last segment equals the literal, ASCII case ignored.
    ExactSuffix(&'static str),
    /// The path starts with the literal, case respected.
    PathPrefix(&'static str),
    /// The path starts with the first literal and its last segment equals the
    /// second, ASCII case ignored.
    ScopedSuffix(&'static str, &'static str),
}

impl SubstrateRule {
    /// The literal that names the rule in logs and counters.
    pub open spec fn label_spec(self) -> &'static str {
        match self {
            SubstrateRule::ExactSuffix(s) => s,
            SubstrateRule::PathPrefix(p) => p,
            SubstrateRule::ScopedSuffix(_, f) => f,
        }
    }

    /// The rule applies to a forward-slashed path.
    pub open spec fn hits(self, path: Seq<char>) -> bool {
        match self {
            SubstrateRule::ExactSuffix(s) => same_name(basename_spec(path), s@),
            SubstrateRule::PathPrefix(p) => text::is_prefix(p@, path),
            SubstrateRule::ScopedSuffix(p, f) => text::is_prefix(p@, path) && same_name(
                basename_spec(path),
                f@,
            ),
        }
    }

    /// The literal that names the rule in logs and counters.
    pub fn label(&self) -> (r: &'static str)
        ensures
            r == self.label_spec(),
    {
        match self {
            SubstrateRule::ExactSuffix(s) => s,
            SubstrateRule::PathPrefix(p) => p,
            SubstrateRule::ScopedSuffix(_, f) => f,
        }
    }

    fn matches_path(&self, path: &str) -> (r: bool)
        ensures
            r == self.hits(path@),
    {
        match self {
            SubstrateRule::ExactSuffix(s) => {
                text::eq_ignore_ascii_case(basename(path).as_str(), s)
            },
            SubstrateRule::PathPrefix(p) => text::starts_with(path, p),
            SubstrateRule::ScopedSuffix(p, f) => {
                text::starts_with(path, p) && text::eq_ignore_ascii_case(
                    basename(path).as_str(),
                    f,
                )
            },
        }
    }
}

/// Outcome of classifying a path against the substrate fence.
#[derive(Debug, Clone, Copy, PartialEq, Eq)]
pub enum PathClassification {
    /// Regular content.
    Content,
    /// Fenced; `rule` is the label of the first rule that applies.
    Substrate { rule: &'static str },
}

impl PathClassification {
    /// Whether the path is fenced.
    pub fn is_substrate(&self) -> (r: bool)
        ensures
            r == (self is Substrate),
    {
        match self {
            PathClassification::Content => false,
            PathClassification::Substrate { .. } => true,
        }
    }
}

/// Equal up to ASCII case.
pub open spec fn same_name(a: Seq<char>, b: Seq<char>) -> bool {
    text::ascii_lower_seq(a) == text::ascii_lower_seq(b)
}

/// The part of `path` behind its last `/`, or all of it.
pub open spec fn basename_spec(path: Seq<char>) -> Seq<char> {
    match text::rsplit_once_spec(path, '/') {
        Some(p) => p.1,
        None => path,
    }
}

/// The part of `path` behind its first `/`, if it has one.
pub open spec fn after_first_spec(path: Seq<char>) -> Option<Seq<char>> {
    match text::split_once_spec(path, '/') {
        Some(p) => Some(p.1),
        None => None,
    }
}

/// `path` with `/` for every separator.
pub open spec fn slashed(path: Seq<char>) -> Seq<char> {
    text::replace_char_spec(path, '\\', '/')
}

/// `rule` applies to the path as given or to what follows its first segment (a
/// path may lead with the name of its vault folder).
pub open spec fn rule_applies(rule: SubstrateRule, path: Seq<char>) -> bool {
    ||| rule.hits(slashed(path))
    ||| after_first_spec(slashed(path)) matches Some(rest) && rule.hits(rest)
}

/// What a rule list makes of a path: the first rule that applies wins.
pub open spec fn classification(rules: Seq<SubstrateRule>, path: Seq<char>) -> PathClassification
    decreases rules.len(),
{
    if rules.len() == 0 {
        PathClassification::Content
    } else if rule_applies(rules[0], path) {
        PathClassification::Substrate { rule: rules[0].label_spec() }
    } else {
        classification(rules.drop_first(), path)
    }
}

/// The rules in force: none.
pub fn substrate_path_rules() -> (r: Vec<SubstrateRule>)
    ensures
        r@.len() == 0,
{
    Vec::new()
}

/// `path` with `/` for every separator.
pub fn normalize(path: &str) -> (r: String)
    ensures
        r@ == slashed(path@),
{
    text::replace_char(path, '\\', '/')
}

/// The last segment of a forward-slashed path.
pub fn basename(path: &str) -> (r: String)
    ensures
        r@ == basename_spec(path@),
{
    match text::rsplit_once(path, '/') {
        Some(p) => p.1,
        None => path.to_owned(),
    }
}

/// What follows the first segment of a forward-slashed path.
pub fn after_first_segment(path: &str) -> (r: Option<String>)
    ensures
        match r {
            Some(x) => after_first_spec(path@) == Some(x@),
            None => after_first_spec(path@) is None,
        },
{
    match text::split_once(path, '/') {
        Some(p) => Some(p.1),
        None => None,
    }
}

/// Classifies `path` by `rules`.
pub fn classify_with_rules(rules: &[SubstrateRule], path: &str) -> (r: PathClassification)
    ensures
        r == classification(rules@, path@),
{
    let normalized = normalize(path);
    let stripped = after_first_segment(normalized.as_str());
    let mut k: usize = 0;
    assert(rules@.subrange(0, rules@.len() as int) =~= rules@);
    while k < rules.len()
        invariant
            k <= rules@.len(),
            normalized@ == slashed(path@),
            match stripped {
                Some(x) => after_first_spec(normalized@) == Some(x@),
                None => after_first_spec(normalized@) is None,
            },
            classification(rules@, path@) == classification(
                rules@.subrange(k as int, rules@.len() as int),
                path@,
            ),
        decreases rules@.len() - k,
    {
        let rule = rules[k];
        let ghost rest = rules@.subrange(k as int, rules@.len() as int);
        assert(rest[0] == rule);
        assert(rest.drop_first() =~= rules@.subrange(k + 1, rules@.len() as int));
        let hit = match &stripped {
            Some(x) => rule.matches_path(normalized.as_str()) || rule.matches_path(x.as_str()),
            None => rule.matches_path(normalized.as_str()),
        };
        if hit {
            return PathClassification::Substrate { rule: rule.label() };
        }
        k = k + 1;
    }
    PathClassification::Content
}

/// Classifies `path` by the rules in force. With none in force every path is
/// content.
pub fn classify_path(path: &str) -> (r: PathClassification)
    ensures
        r is Content,
{
    let rules = substrate_path_rules();
    classify_with_rules(rules.as_slice(), path)
}

/// Whether the substrate fence refuses `path`.
pub fn is_substrate_path(path: &str) -> (r: bool)
    ensures
        !r,
{
    classify_path(path).is_substrate()
}

/// A name that never takes part in a sync: an AppleDouble sidecar, folder
/// metadata, a tool's private directory or a transient file.
pub open spec fn is_junk_name(seg: Seq<char>) -> bool {
    ||| text::is_prefix("._"@, seg)
    ||| seg == ".DS_Store"@
    ||| seg == "Thumbs.db"@
    ||| seg == ".obsidian"@
    ||| seg == ".trash"@
    ||| seg == ".git"@
    ||| seg == "node_modules"@
    ||| seg == ".cody-tmp"@
    ||| seg == "__pycache__"@
    ||| seg == ".lattice-sync"@
    ||| seg == ".lattice-runtime"@
    ||| text::is_suffix(".pyc"@, seg)
    ||| text::is_suffix(".swp"@, seg)
    ||| text::is_suffix(".tmp"@, seg)
}

/// Some segment of the path, at any depth, is a junk name.
pub open spec fn is_junk(path: Seq<char>) -> bool {
    exists|i: int, j: int| #[trigger]
        text::is_segment(path, i, j) && is_junk_name(path.subrange(i, j))
}

fn junk_name(seg: &str) -> (r: bool)
    ensures
        r == is_junk_name(seg@),
{
    text::starts_with(seg, "._") || text::str_eq(seg, ".DS_Store") || text::str_eq(seg, "Thumbs.db")
        || text::str_eq(seg, ".obsidian") || text::str_eq(seg, ".trash") || text::str_eq(
        seg,
        ".git",
    ) || text::str_eq(seg, "node_modules") || text::str_eq(seg, ".cody-tmp") || text::str_eq(
        seg,
        "__pycache__",
    ) || text::str_eq(seg, ".lattice-sync") || text::str_eq(seg, ".lattice-runtime")
        || text::ends_with(seg, ".pyc") || text::ends_with(seg, ".swp") || text::ends_with(
        seg,
        ".tmp",
    )
}

/// Whether the path holds a junk segment.
pub fn is_junk_path(path: &str) -> (r: bool)
    ensures
        r == is_junk(path@),
{
    let segs = text::segments(path);
    let mut k: usize = 0;
    while k < segs.len()
        invariant
            k <= segs@.len(),
            forall|m: int| 0 <= m < segs@.len() ==> text::has_segment(path@, #[trigger] segs@[m]@),
            forall|m: int| 0 <= m < k ==> !is_junk_name((#[trigger] segs@[m])@),
        decreases segs@.len() - k,
    {
        if junk_name(segs[k].as_str()) {
            return true;
        }
        k = k + 1;
    }
    false
}

/// With no rule in force the fence refuses nothing.
pub proof fn law_empty_rule_list_is_content(path: Seq<char>)
    ensures
        classification(Seq::empty(), path) is Content,
{
}

/// The junk fence reads both separators alike: rewriting `\` to `/` changes no
/// verdict.
pub proof fn law_junk_is_separator_blind(path: Seq<char>)
    ensures
        is_junk(slashed(path)) == is_junk(path),
{
    let s = slashed(path);
    text::lemma_segments_ignore_separators(path);
    if is_junk(path) {
        let (i, j) = choose|i: int, j: int| #[trigger]
            text::is_segment(path, i, j) && is_junk_name(path.subrange(i, j));
        assert(text::is_segment(s, i, j));
        assert(is_junk_name(s.subrange(i, j)));
    }
    if is_junk(s) {
        let (i, j) = choose|i: int, j: int| #[trigger]
            text::is_segment(s, i, j) && is_junk_name(s.subrange(i, j));
        assert(text::is_segment(path, i, j));
        assert(is_junk_name(path.subrange(i, j)));
    }
}

/// A name never takes part in a sync exactly where it leads with a dot and an
/// underscore, ends in one of three suffixes, or is one of these.
pub proof fn law_junk_names(seg: Seq<char>)
    ensures
        is_junk_name(seg) <==> {
            ||| seg.len() >= 2 && seg[0] == '.' && seg[1] == '_'
            ||| seg == ".DS_Store"@ || seg == "Thumbs.db"@ || seg == ".obsidian"@ || seg
                == ".trash"@
            ||| seg == ".git"@ || seg == "node_modules"@ || seg == ".cody-tmp"@ || seg
                == "__pycache__"@
            ||| seg == ".lattice-sync"@ || seg == ".lattice-runtime"@
            ||| exists|stem: Seq<char>|
                seg == #[trigger] (stem + ".pyc"@) || seg == stem + ".swp"@ || seg == stem
                    + ".tmp"@
        },
{
    reveal_strlit("._");
    reveal_strlit(".pyc");
    reveal_strlit(".swp");
    reveal_strlit(".tmp");
    if seg.len() >= 2 {
        let h = seg.subrange(0, 2);
        assert(h[0] == seg[0] && h[1] == seg[1]);
        if seg[0] == '.' && seg[1] == '_' {
            assert(h =~= "._"@);
        }
    }
    if seg.len() >= 4 {
        let stem = seg.subrange(0, seg.len() - 4);
        let tail = seg.subrange(seg.len() - 4, seg.len() as int);
        assert(seg =~= stem + tail);
        let any = stem + ".pyc"@;
    }
    assert forall|stem: Seq<char>|
        seg == #[trigger] (stem + ".pyc"@) || seg == stem + ".swp"@ || seg == stem + ".tmp"@
            implies is_junk_name(seg) by {
        let tail = seg.subrange(seg.len() - 4, seg.len() as int);
        if seg == stem + ".pyc"@ {
            assert(tail =~= ".pyc"@);
        } else if seg == stem + ".swp"@ {
            assert(tail =~= ".swp"@);
        } else {
            assert(tail =~= ".tmp"@);
        }
    }
}

/// A path with a junk name anywhere between its separators is junk, and one whose
/// names are all clean is not.
pub proof fn law_junk_at_any_depth(path: &str, r: bool)
    requires
        call_ensures(is_junk_path, (path,), r),
    ensures
        forall|a: int, b: int|
            #![trigger path@.subrange(a, b)]
            0 <= a <= b <= path@.len() && (a == 0 || path@[a - 1] == '/' || path@[a - 1] == '\\')
                && (b == path@.len() || path@[b] == '/' || path@[b] == '\\') && !path@.subrange(
                a,
                b,
            ).contains('/') && !path@.subrange(a, b).contains('\\') && is_junk_name(
                path@.subrange(a, b),
            ) ==> r,
        r ==> exists|a: int, b: int|
            #![trigger path@.subrange(a, b)]
            0 <= a <= b <= path@.len() && (a == 0 || path@[a - 1] == '/' || path@[a - 1] == '\\')
                && (b == path@.len() || path@[b] == '/' || path@[b] == '\\') && !path@.subrange(
                a,
                b,
            ).contains('/') && !path@.subrange(a, b).contains('\\') && is_junk_name(
                path@.subrange(a, b),
            ),
{
    let p = path@;
    assert forall|a: int, b: int|
        #![trigger p.subrange(a, b)]
        0 <= a <= b <= p.len() && (a == 0 || p[a - 1] == '/' || p[a - 1] == '\\') && (b == p.len()
            || p[b] == '/' || p[b] == '\\') && !p.subrange(a, b).contains('/') && !p.subrange(
            a,
            b,
        ).contains('\\') implies text::is_segment(p, a, b) by {
        assert forall|k: int| a <= k < b implies !text::is_sep(#[trigger] p[k]) by {
            assert(p.subrange(a, b)[k - a] == p[k]);
        }
    }
    if is_junk(p) {
        let (a, b) = choose|a: int, b: int| #[trigger]
            text::is_segment(p, a, b) && is_junk_name(p.subrange(a, b));
        let seg = p.subrange(a, b);
        if seg.contains('/') {
            let k = choose|k: int| 0 <= k < seg.len() && seg[k] == '/';
            assert(text::is_sep(p[a + k]));
        }
        if seg.contains('\\') {
            let k = choose|k: int| 0 <= k < seg.len() && seg[k] == '\\';
            assert(text::is_sep(p[a + k]));
        }
    }
}

/// A list of rules fences a path exactly where one of them applies, and the first
/// that does gives its name.
pub proof fn law_first_rule_names_the_fence(rules: Seq<SubstrateRule>, path: Seq<char>)
    ensures
        classification(rules, path) is Content <==> forall|i: int|
            0 <= i < rules.len() ==> !rule_applies(#[trigger] rules[i], path),
        forall|i: int|
            0 <= i < rules.len() && rule_applies(#[trigger] rules[i], path) && (forall|j: int|
                0 <= j < i ==> !rule_applies(#[trigger] rules[j], path)) ==> classification(
                rules,
                path,
            ) == (PathClassification::Substrate { rule: rules[i].label_spec() }),
    decreases rules.len(),
{
    if rules.len() > 0 {
        let rest = rules.drop_first();
        law_first_rule_names_the_fence(rest, path);
        assert forall|i: int| 0 < i < rules.len() implies rules[i] == rest[i - 1] by {}
        if !rule_applies(rules[0], path) {
            assert forall|i: int|
                0 <= i < rules.len() && rule_applies(#[trigger] rules[i], path) && (forall|j: int|
                    0 <= j < i ==> !rule_applies(#[trigger] rules[j], path))
                    implies classification(rules, path) == (PathClassification::Substrate {
                rule: rules[i].label_spec(),
            }) by {
                assert(rest[i - 1] == rules[i]);
                assert forall|j: int| 0 <= j < i - 1 implies !rule_applies(
                    #[trigger] rest[j],
                    path,
                ) by {
                    assert(rest[j] == rules[j + 1]);
                }
            }
            if classification(rest, path) is Content {
                assert forall|i: int| 0 <= i < rules.len() implies !rule_applies(
                    #[trigger] rules[i],
                    path,
                ) by {
                    if i > 0 {
                        assert(rest[i - 1] == rules[i]);
                    }
                }
            } else if forall|i: int|
                0 <= i < rules.len() ==> !rule_applies(#[trigger] rules[i], path) {
                assert forall|i: int| 0 <= i < rest.len() implies !rule_applies(
                    #[trigger] rest[i],
                    path,
                ) by {
                    assert(rest[i] == rules[i + 1]);
                }
            }
        }
    }
}

/// A rule for a file name looks at what stands behind the last slash and ignores
/// the case of letters; a rule for a prefix looks at how the path begins.
pub proof fn law_what_a_rule_looks_at(
    dir: Seq<char>,
    name: Seq<char>,
    lit: &'static str,
    pre: &'static str,
)
    requires
        !name.contains('/'),
        dir.len() == 0 || dir.last() == '/',
    ensures
        SubstrateRule::ExactSuffix(lit).hits(dir + name) <==> text::ascii_lower_seq(name)
            == text::ascii_lower_seq(lit@),
        SubstrateRule::PathPrefix(pre).hits(dir + name) <==> crate::scope::begins_with(
            dir + name,
            pre@,
        ),
        SubstrateRule::ScopedSuffix(pre, lit).hits(dir + name) <==> crate::scope::begins_with(
            dir + name,
            pre@,
        ) && text::ascii_lower_seq(name) == text::ascii_lower_seq(lit@),
{
    let p = dir + name;
    p.index_of_last_ensures('/');
    if dir.len() == 0 {
        assert(p =~= name);
    } else {
        let n = dir.len() - 1;
        assert(p[n] == '/');
        assert forall|i: int| n < i < p.len() implies p[i] != '/' by {
            assert(name.contains(name[i - n - 1]));
        }
        assert(p.contains('/'));
        assert(p.index_of_last('/') == Some(n as int));
        assert(p.subrange(n + 1, p.len() as int) =~= name);
    }
    if pre@.len() <= p.len() {
        let h = p.subrange(0, pre@.len() as int);
        if h == pre@ {
            assert forall|i: int| 0 <= i < pre@.len() implies #[trigger] p[i] == pre@[i] by {
                assert(h[i] == p[i]);
            }
        }
        if crate::scope::begins_with(p, pre@) {
            assert(h =~= pre@);
        }
    }
}

/// A rule applies to a path as it is, and to the path without its first part; the
/// separators do not matter.
pub proof fn law_rule_sees_past_the_vault_folder(
    rule: SubstrateRule,
    folder: Seq<char>,
    rest: Seq<char>,
)
    requires
        !folder.contains('/'),
        !folder.contains('\\'),
        !rest.contains('\\'),
    ensures
        rule_applies(rule, folder + seq!['/'] + rest) <==> rule.hits(folder + seq!['/'] + rest)
            || rule.hits(rest),
        rule_applies(rule, folder) <==> rule.hits(folder),
{
    let s = folder + seq!['/'] + rest;
    let n: int = folder.len() as int;
    assert forall|i: int| 0 <= i < s.len() implies slashed(s)[i] == s[i] by {
        if i < n {
            assert(folder.contains(folder[i]));
        } else if i > n {
            assert(rest.contains(rest[i - n - 1]));
        }
    }
    assert(slashed(s) =~= s);
    s.index_of_first_ensures('/');
    assert(s[n] == '/');
    assert(s.contains('/'));
    assert forall|i: int| 0 <= i < n implies s[i] != '/' by {
        assert(folder.contains(folder[i]));
    }
    assert(s.index_of_first('/') == Some(n));
    assert(s.subrange(n + 1, s.len() as int) =~= rest);
    assert forall|i: int| 0 <= i < n implies slashed(folder)[i] == folder[i] by {
        assert(folder.contains(folder[i]));
    }
    assert(slashed(folder) =~= folder);
    folder.index_of_first_ensures('/');
}

/// A path is fenced off exactly where a rule applies to it, under the name of the
/// first that does.
pub proof fn law_fence_asks_every_rule(
    rules: &[SubstrateRule],
    path: &str,
    r: PathClassification,
)
    requires
        call_ensures(classify_with_rules, (rules, path), r),
    ensures
        r is Content <==> forall|i: int|
            0 <= i < rules@.len() ==> !rule_applies(#[trigger] rules@[i], path@),
        forall|i: int|
            0 <= i < rules@.len() && rule_applies(#[trigger] rules@[i], path@) && (forall|j: int|
                0 <= j < i ==> !rule_applies(#[trigger] rules@[j], path@)) ==> r == (
            PathClassification::Substrate { rule: rules@[i].label_spec() }),
{
    law_first_rule_names_the_fence(rules@, path@);
}

/// The parts of a path: what stands behind its first and behind its last slash.
pub proof fn law_parts_of_a_path(
    dir: Seq<char>,
    name: Seq<char>,
    first: Seq<char>,
    rest: Seq<char>,
    path: &str,
    base: String,
    after: Option<String>,
)
    requires
        !name.contains('/'),
        dir.len() == 0 || dir.last() == '/',
        path@ == dir + name,
        !first.contains('/'),
        path@ == first || path@ == first + seq!['/'] + rest,
        call_ensures(basename, (path,), base),
        call_ensures(after_first_segment, (path,), after),
    ensures
        base@ == name,
        path@ == first ==> after is None,
        path@ == first + seq!['/'] + rest ==> after is Some && after->0@ == rest,
{
    let p = path@;
    p.index_of_last_ensures('/');
    p.index_of_first_ensures('/');
    if dir.len() == 0 {
        assert(p =~= name);
    } else {
        assert(p[dir.len() - 1] == '/');
        assert(p.contains('/'));
        assert forall|i: int| dir.len() <= i < p.len() implies p[i] != '/' by {
            assert(name.contains(name[i - dir.len()]));
        }
        assert(p.subrange(dir.len() as int, p.len() as int) =~= name);
    }
    if p == first + seq!['/'] + rest {
        assert(p[first.len() as int] == '/');
        assert(p.contains('/'));
        assert forall|i: int| 0 <= i < first.len() implies p[i] != '/' by {
            assert(first.contains(first[i]));
        }
        assert(p.subrange(first.len() as int + 1, p.len() as int) =~= rest);
    }
}

/// Separators are written as slashes, and nothing else of a path changes.
pub proof fn law_separators_become_slashes(path: &str, r: String)
    requires
        call_ensures(normalize, (path,), r),
    ensures
        r@.len() == path@.len(),
        forall|i: int|
            0 <= i < path@.len() ==> #[trigger] r@[i] == (if path@[i] == '\\' {
                '/'
            } else {
                path@[i]
            }),
{
}

/// As long as no rule is in force, nothing is fenced off.
pub proof fn law_nothing_is_fenced_off(
    path: &str,
    c: PathClassification,
    b: bool,
    listed: Vec<SubstrateRule>,
    rules: &[SubstrateRule],
    d: PathClassification,
)
    requires
        call_ensures(classify_path, (path,), c),
        call_ensures(is_substrate_path, (path,), b),
        call_ensures(substrate_path_rules, (), listed),
        rules@ == listed@,
        call_ensures(classify_with_rules, (rules, path), d),
    ensures
        c is Content,
        !b,
        d is Content,
{
    law_first_rule_names_the_fence(rules@, path@);
}

} // verus!
