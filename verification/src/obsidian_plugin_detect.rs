//! Switching off plugins that would sync the same vault.
//!
//! The plugin stays on disk; only its id leaves the list of enabled plugins.

use vstd::prelude::*;

use crate::json;
use crate::text;

verus! {

/// The ids of plugins that must not run beside the daemon.
pub open spec fn conflicting() -> Seq<Seq<char>> {
    seq![
        "lattice-sync"@,
        "vault-sync"@,
        "obsidian-nexus-sync"@,
        "nexus-vault-sync"@,
        "obsidian-vault-sync"@,
    ]
}

/// The ids of plugins that must not run beside the daemon.
pub fn conflicting_plugin_ids() -> (r: Vec<String>)
    ensures
        text::views(r@) == conflicting(),
{
    let mut v: Vec<String> = Vec::new();
    v.push("lattice-sync".to_string());
    v.push("vault-sync".to_string());
    v.push("obsidian-nexus-sync".to_string());
    v.push("nexus-vault-sync".to_string());
    v.push("obsidian-vault-sync".to_string());
    assert(text::views(v@) =~= conflicting());
    v
}

/// What was done about a vault.
#[derive(Debug, PartialEq, Eq)]
pub struct DetectResult {
    /// Ids that were switched off.
    pub disabled: Vec<String>,
    /// Ids of plugins that are installed, but off already.
    pub already_disabled: Vec<String>,
    /// The vault has no Obsidian settings.
    pub not_found: bool,
}

impl Default for DetectResult {
    fn default() -> (r: DetectResult)
        ensures
            r.disabled@.len() == 0,
            r.already_disabled@.len() == 0,
            !r.not_found,
    {
        DetectResult { disabled: Vec::new(), already_disabled: Vec::new(), not_found: false }
    }
}

/// What is to be done about a vault.
#[derive(Debug, PartialEq, Eq)]
pub struct DetectPlan {
    /// The result if nothing is written.
    pub result: DetectResult,
    /// The ids to switch off, and the list of enabled plugins to write for that.
    pub rewrite: Option<(Vec<String>, String)>,
}

/// The plugins that a document lists as enabled; none where there is no document
/// or it is no list of texts.
pub open spec fn enabled_of(doc: Option<Seq<char>>) -> Seq<Seq<char>> {
    match doc {
        Some(d) => match json::json_string_list(d) {
            Some(l) => l,
            None => Seq::empty(),
        },
        None => Seq::empty(),
    }
}

/// The ids to switch off: the conflicting ones that are enabled.
pub open spec fn to_disable(enabled: Seq<Seq<char>>) -> Seq<Seq<char>> {
    conflicting().filter(|id: Seq<char>| enabled.contains(id))
}

/// The conflicting ids that are installed and not enabled.
pub open spec fn off_already(enabled: Seq<Seq<char>>, on_disk: Seq<Seq<char>>) -> Seq<Seq<char>> {
    conflicting().filter(|id: Seq<char>| !enabled.contains(id) && on_disk.contains(id))
}

/// The enabled plugins that stay enabled.
pub open spec fn still_enabled(enabled: Seq<Seq<char>>) -> Seq<Seq<char>> {
    enabled.filter(|id: Seq<char>| !conflicting().contains(id))
}

/// Sorts the conflicting plugins of a vault: those to switch off, those that are
/// off already, and the list of enabled plugins without the former.
pub fn plan_disable(enabled: &[String], on_disk: &[String]) -> (r: (
    Vec<String>,
    Vec<String>,
    Vec<String>,
))
    ensures
        text::views(r.0@) == to_disable(text::views(enabled@)),
        text::views(r.1@) == off_already(text::views(enabled@), text::views(on_disk@)),
        text::views(r.2@) == still_enabled(text::views(enabled@)),
{
    let ids = conflicting_plugin_ids();
    let ghost en = text::views(enabled@);
    let ghost od = text::views(on_disk@);
    let ghost off = |id: Seq<char>| en.contains(id);
    let ghost idle = |id: Seq<char>| !en.contains(id) && od.contains(id);
    let ghost stay = |id: Seq<char>| !conflicting().contains(id);
    let ghost cs = text::views(ids@);
    let mut disable: Vec<String> = Vec::new();
    let mut already: Vec<String> = Vec::new();
    let mut i: usize = 0;
    proof {
        reveal(Seq::filter);
        assert(text::views(disable@) =~= cs.subrange(0, 0).filter(off));
        assert(text::views(already@) =~= cs.subrange(0, 0).filter(idle));
    }
    while i < ids.len()
        invariant
            i <= ids@.len(),
            cs == text::views(ids@),
            en == text::views(enabled@),
            od == text::views(on_disk@),
            off == (|id: Seq<char>| en.contains(id)),
            idle == (|id: Seq<char>| !en.contains(id) && od.contains(id)),
            text::views(disable@) == cs.subrange(0, i as int).filter(off),
            text::views(already@) == cs.subrange(0, i as int).filter(idle),
        decreases ids@.len() - i,
    {
        let ghost head = cs.subrange(0, i + 1);
        let ghost d0 = disable@;
        let ghost a0 = already@;
        proof {
            reveal(Seq::filter);
            assert(head.drop_last() =~= cs.subrange(0, i as int));
            assert(head.last() == ids@[i as int]@);
        }
        if text::list_contains(enabled, ids[i].as_str()) {
            disable.push(ids[i].clone());
            assert(text::views(disable@) =~= text::views(d0).push(ids@[i as int]@));
        } else if text::list_contains(on_disk, ids[i].as_str()) {
            already.push(ids[i].clone());
            assert(text::views(already@) =~= text::views(a0).push(ids@[i as int]@));
        }
        i = i + 1;
    }
    assert(cs.subrange(0, cs.len() as int) =~= cs);
    let mut rest: Vec<String> = Vec::new();
    let mut k: usize = 0;
    proof {
        reveal(Seq::filter);
        assert(text::views(rest@) =~= en.subrange(0, 0).filter(stay));
    }
    while k < enabled.len()
        invariant
            k <= enabled@.len(),
            en == text::views(enabled@),
            cs == text::views(ids@),
            cs == conflicting(),
            stay == (|id: Seq<char>| !conflicting().contains(id)),
            text::views(rest@) == en.subrange(0, k as int).filter(stay),
        decreases enabled@.len() - k,
    {
        let ghost head = en.subrange(0, k + 1);
        let ghost r0 = rest@;
        proof {
            reveal(Seq::filter);
            assert(head.drop_last() =~= en.subrange(0, k as int));
            assert(head.last() == enabled@[k as int]@);
        }
        if !text::list_contains(ids.as_slice(), enabled[k].as_str()) {
            rest.push(enabled[k].clone());
            assert(text::views(rest@) =~= text::views(r0).push(enabled@[k as int]@));
        }
        k = k + 1;
    }
    assert(en.subrange(0, en.len() as int) =~= en);
    (disable, already, rest)
}

/// Decides about a vault. `enabled_doc` is the document that lists the enabled
/// plugins, and `on_disk` are the names of the plugin folders.
pub fn detect_and_disable(
    has_settings: bool,
    enabled_doc: Option<&str>,
    on_disk: &[String],
) -> (r: DetectPlan)
    ensures
        r.result.disabled@.len() == 0,
        r.result.not_found == !has_settings,
        !has_settings ==> r.rewrite is None && r.result.already_disabled@.len() == 0,
        has_settings ==> {
            let enabled = enabled_of(
                match enabled_doc {
                    Some(d) => Some(d@),
                    None => None,
                },
            );
            &&& text::views(r.result.already_disabled@) == off_already(
                enabled,
                text::views(on_disk@),
            )
            &&& r.rewrite is None <==> to_disable(enabled).len() == 0
            &&& match r.rewrite {
                Some((ids, doc)) => {
                    &&& text::views(ids@) == to_disable(enabled)
                    &&& json::json_string_list(doc@) == Some(still_enabled(enabled))
                },
                None => true,
            }
        },
{
    let mut result = DetectResult {
        disabled: Vec::new(),
        already_disabled: Vec::new(),
        not_found: !has_settings,
    };
    if !has_settings {
        return DetectPlan { result, rewrite: None };
    }
    let enabled = match enabled_doc {
        Some(d) => match json::parse_string_list(d) {
            Ok(l) => l,
            Err(_) => Vec::new(),
        },
        None => Vec::new(),
    };
    assert(text::views(enabled@) =~= enabled_of(
        match enabled_doc {
            Some(d) => Some(d@),
            None => None,
        },
    ));
    let (disable, already, rest) = plan_disable(enabled.as_slice(), on_disk);
    result.already_disabled = already;
    assert(text::views(disable@).len() == disable@.len());
    if disable.len() == 0 {
        return DetectPlan { result, rewrite: None };
    }
    match json::render_string_list(&rest) {
        Ok(doc) => DetectPlan { result, rewrite: Some((disable, doc)) },
        Err(_) => DetectPlan { result, rewrite: None },
    }
}

/// The result once the document was written, or could not be.
pub fn finish_disable(plan: DetectPlan, written: bool) -> (r: DetectResult)
    ensures
        r == (match plan.rewrite {
            Some((ids, doc)) if written => DetectResult { disabled: ids, ..plan.result },
            _ => plan.result,
        }),
{
    let mut result = plan.result;
    if written {
        match plan.rewrite {
            Some((ids, _)) => {
                result.disabled = ids;
            },
            None => {},
        }
    }
    result
}

/// The ids with a comma and a blank between them.
pub open spec fn listed(ids: Seq<Seq<char>>) -> Seq<char>
    decreases ids.len(),
{
    if ids.len() == 0 {
        Seq::empty()
    } else if ids.len() == 1 {
        ids[0]
    } else {
        listed(ids.drop_last()) + ", "@ + ids.last()
    }
}

/// One line about what was switched off, if anything was.
pub fn summary_line(r: &DetectResult) -> (s: Option<String>)
    ensures
        text::opt_text(s) == (if r.disabled@.len() == 0 {
            None
        } else {
            Some(
                "Disabled conflicting Obsidian plugin"@ + (if r.disabled@.len() == 1 {
                    ""@
                } else {
                    "s"@
                }) + ": "@ + listed(text::views(r.disabled@)),
            )
        }),
{
    let n: usize = r.disabled.len();
    if n == 0 {
        return None;
    }
    let ghost ids = text::views(r.disabled@);
    let plural = if n == 1 {
        ""
    } else {
        "s"
    };
    let mut names = r.disabled[0].clone();
    let mut i: usize = 1;
    assert(ids.subrange(0, 1)[0] == r.disabled@[0]@);
    while i < n
        invariant
            1 <= i <= n,
            n == r.disabled@.len(),
            ids == text::views(r.disabled@),
            names@ == listed(ids.subrange(0, i as int)),
        decreases n - i,
    {
        let ghost head = ids.subrange(0, i + 1);
        assert(head.drop_last() =~= ids.subrange(0, i as int));
        assert(head.last() == r.disabled@[i as int]@);
        names.append(", ");
        names.append(r.disabled[i].as_str());
        i = i + 1;
    }
    assert(ids.subrange(0, n as int) =~= ids);
    let mut s = text::concat("Disabled conflicting Obsidian plugin", plural);
    s.append(": ");
    s.append(names.as_str());
    Some(s)
}

/// No conflicting plugin stays enabled, every other one does, and a second look at
/// the new list finds nothing to switch off.
pub proof fn law_nothing_conflicting_stays_enabled(enabled: Seq<Seq<char>>, id: Seq<char>)
    ensures
        still_enabled(enabled).contains(id) <==> enabled.contains(id) && !conflicting().contains(
            id,
        ),
        to_disable(still_enabled(enabled)).len() == 0,
{
    let stay = |x: Seq<char>| !conflicting().contains(x);
    broadcast use vstd::seq_lib::group_filter_ensures;

    if enabled.contains(id) && !conflicting().contains(id) {
        lemma_filter_keeps(enabled, stay, id);
    }
    if still_enabled(enabled).contains(id) {
        let k = choose|k: int|
            0 <= k < still_enabled(enabled).len() && still_enabled(enabled)[k] == id;
        assert(stay(still_enabled(enabled)[k]));
        lemma_filter_is_part(enabled, stay, id);
    }
    let after = still_enabled(enabled);
    let off = |x: Seq<char>| after.contains(x);
    let d = conflicting().filter(off);
    if d.len() > 0 {
        let x = d[0];
        assert(d.contains(x));
        lemma_filter_is_part(conflicting(), off, x);
        assert(off(d[0]));
        let k = choose|k: int| 0 <= k < after.len() && after[k] == x;
        assert(stay(after[k]));
    }
}

proof fn lemma_filter_keeps(s: Seq<Seq<char>>, p: spec_fn(Seq<char>) -> bool, x: Seq<char>)
    requires
        s.contains(x),
        p(x),
    ensures
        s.filter(p).contains(x),
    decreases s.len(),
{
    reveal(Seq::filter);
    let i = choose|i: int| 0 <= i < s.len() && s[i] == x;
    if i == s.len() - 1 {
        let f = s.filter(p);
        assert(f[f.len() - 1] == x);
    } else {
        assert(s.drop_last()[i] == x);
        lemma_filter_keeps(s.drop_last(), p, x);
        let g = s.drop_last().filter(p);
        let k = choose|k: int| 0 <= k < g.len() && g[k] == x;
        assert(s.filter(p)[k] == x);
    }
}

proof fn lemma_filter_is_part(s: Seq<Seq<char>>, p: spec_fn(Seq<char>) -> bool, x: Seq<char>)
    requires
        s.filter(p).contains(x),
    ensures
        s.contains(x),
    decreases s.len(),
{
    reveal(Seq::filter);
    if s.len() > 0 {
        let f = s.filter(p);
        let g = s.drop_last().filter(p);
        let k = choose|k: int| 0 <= k < f.len() && f[k] == x;
        if k < g.len() {
            assert(g[k] == x);
            lemma_filter_is_part(s.drop_last(), p, x);
            let i = choose|i: int| 0 <= i < s.drop_last().len() && s.drop_last()[i] == x;
            assert(s[i] == x);
        } else {
            assert(s[s.len() - 1] == x);
        }
    }
}

/// The plugins that must not run beside the daemon are these five.
pub proof fn law_conflicting_plugins(id: Seq<char>)
    ensures
        conflicting().contains(id) <==> id == "lattice-sync"@ || id == "vault-sync"@ || id
            == "obsidian-nexus-sync"@ || id == "nexus-vault-sync"@ || id == "obsidian-vault-sync"@,
{
    let c = conflicting();
    assert(c[0] == "lattice-sync"@ && c[1] == "vault-sync"@ && c[2] == "obsidian-nexus-sync"@
        && c[3] == "nexus-vault-sync"@ && c[4] == "obsidian-vault-sync"@);
    if c.contains(id) {
        let i = choose|i: int| 0 <= i < c.len() && c[i] == id;
        assert(i == 0 || i == 1 || i == 2 || i == 3 || i == 4);
    }
}

/// A vault without settings is left alone. In another the enabled plugins that
/// conflict are switched off and all others stay enabled; a conflicting plugin that
/// is installed and off is reported as such; and nothing is written where nothing
/// is to be switched off.
pub proof fn law_only_conflicting_plugins_are_switched_off(
    has_settings: bool,
    doc: Option<&str>,
    on_disk: &[String],
    r: DetectPlan,
    enabled: Seq<Seq<char>>,
    id: Seq<char>,
)
    requires
        call_ensures(detect_and_disable, (has_settings, doc, on_disk), r),
        doc is Some && json::json_string_list(doc->0@) == Some(enabled),
    ensures
        r.result.not_found <==> !has_settings,
        !has_settings ==> r.rewrite is None,
        has_settings ==> {
            let bad = enabled.contains(id) && conflicting().contains(id);
            &&& bad ==> r.rewrite is Some
            &&& r.rewrite is Some ==> {
                let kept = json::json_string_list((r.rewrite->0).1@);
                &&& text::views((r.rewrite->0).0@).contains(id) <==> bad
                &&& kept is Some
                &&& kept->0.contains(id) <==> enabled.contains(id) && !conflicting().contains(id)
            }
            &&& text::views(r.result.already_disabled@).contains(id) <==> conflicting().contains(
                id,
            ) && !enabled.contains(id) && text::views(on_disk@).contains(id)
        },
{
    if has_settings {
        let od = text::views(on_disk@);
        let off = |x: Seq<char>| enabled.contains(x);
        let idle = |x: Seq<char>| !enabled.contains(x) && od.contains(x);
        law_nothing_conflicting_stays_enabled(enabled, id);
        lemma_filter_iff(conflicting(), off, id);
        lemma_filter_iff(conflicting(), idle, id);
        if enabled.contains(id) && conflicting().contains(id) {
            assert(to_disable(enabled).contains(id));
            assert(to_disable(enabled).len() > 0);
        }
    }
}

proof fn lemma_filter_iff(s: Seq<Seq<char>>, p: spec_fn(Seq<char>) -> bool, x: Seq<char>)
    ensures
        s.filter(p).contains(x) <==> s.contains(x) && p(x),
{
    broadcast use vstd::seq_lib::group_filter_ensures;

    if s.contains(x) && p(x) {
        lemma_filter_keeps(s, p, x);
    }
    if s.filter(p).contains(x) {
        lemma_filter_is_part(s, p, x);
        let k = choose|k: int| 0 <= k < s.filter(p).len() && s.filter(p)[k] == x;
        assert(p(s.filter(p)[k]));
    }
}

/// What was switched off is reported only once it was written.
pub proof fn law_only_written_changes_are_reported(
    plan: DetectPlan,
    written: bool,
    r: DetectResult,
)
    requires
        call_ensures(finish_disable, (plan, written), r),
    ensures
        written && plan.rewrite is Some ==> r.disabled@ == (plan.rewrite->0).0@,
        !written || plan.rewrite is None ==> r.disabled@ == plan.result.disabled@,
        r.already_disabled@ == plan.result.already_disabled@,
        r.not_found == plan.result.not_found,
{
}

/// There is a line for people exactly where something was switched off, and it ends
/// in the ids.
pub proof fn law_summary_names_what_was_switched_off(r: &DetectResult, s: Option<String>)
    requires
        call_ensures(summary_line, (r,), s),
    ensures
        s is Some <==> r.disabled@.len() > 0,
        r.disabled@.len() == 1 ==> s->0@ == "Disabled conflicting Obsidian plugin: "@
            + r.disabled@[0]@,
        r.disabled@.len() == 2 ==> s->0@ == "Disabled conflicting Obsidian plugins: "@
            + r.disabled@[0]@ + ", "@ + r.disabled@[1]@,
{
    reveal_strlit("");
    reveal_strlit("s");
    reveal_strlit(": ");
    reveal_strlit("Disabled conflicting Obsidian plugin");
    reveal_strlit("Disabled conflicting Obsidian plugin: ");
    reveal_strlit("Disabled conflicting Obsidian plugins: ");
    let ids = text::views(r.disabled@);
    if r.disabled@.len() == 1 {
        assert(s->0@ =~= "Disabled conflicting Obsidian plugin: "@ + r.disabled@[0]@);
    }
    if r.disabled@.len() == 2 {
        assert(ids.drop_last().len() == 1);
        assert(ids.drop_last()[0] == r.disabled@[0]@);
        assert(listed(ids.drop_last()) == r.disabled@[0]@);
        assert(ids.last() == r.disabled@[1]@);
        assert(s->0@ =~= "Disabled conflicting Obsidian plugins: "@ + r.disabled@[0]@ + ", "@
            + r.disabled@[1]@);
    }
}

} // verus!
