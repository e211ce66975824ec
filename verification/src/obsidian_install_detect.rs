//! Finding the vaults that Obsidian knows of.

use vstd::prelude::*;

use crate::paths;
use crate::reconciliation::EnvReader;
use crate::text;

verus! {

/// The system the daemon runs on.
#[derive(Debug, Clone, Copy, PartialEq, Eq, Structural)]
pub enum HostOs {
    Windows,
    Macos,
    Linux,
    Other,
}

/// `base` names a drive and nothing else.
pub open spec fn is_drive(base: Seq<char>) -> bool {
    base.len() == 2 && ('a' <= base[0] <= 'z' || 'A' <= base[0] <= 'Z') && base[1] == ':'
}

/// `rel` below `base` on Windows.
pub open spec fn joined_windows(base: Seq<char>, rel: Seq<char>) -> Seq<char> {
    if base.len() == 0 || text::is_sep(base.last()) || is_drive(base) {
        base + rel
    } else {
        base.push('\\') + rel
    }
}

fn join_windows(base: &str, rel: &str) -> (r: String)
    ensures
        r@ == joined_windows(base@, rel@),
{
    let cs = text::chars_of(base);
    let n: usize = cs.len();
    let drive = n == 2 && ('a' <= cs[0] && cs[0] <= 'z' || 'A' <= cs[0] && cs[0] <= 'Z') && cs[1]
        == ':';
    if n == 0 || cs[n - 1] == '/' || cs[n - 1] == '\\' || drive {
        text::concat(base, rel)
    } else {
        let mut s = text::string_of(cs.as_slice());
        s.push('\\');
        s.append(rel);
        s
    }
}

/// Where Obsidian keeps its list of vaults.
pub open spec fn registry_of(
    os: HostOs,
    appdata: Option<Seq<char>>,
    home: Option<Seq<char>>,
    xdg: Option<Seq<char>>,
) -> Option<Seq<char>> {
    match os {
        HostOs::Windows => match appdata {
            Some(a) => Some(joined_windows(joined_windows(a, "obsidian"@), "obsidian.json"@)),
            None => None,
        },
        HostOs::Macos => match home {
            Some(h) => Some(
                paths::joined(
                    paths::joined(h, "Library/Application Support/obsidian"@),
                    "obsidian.json"@,
                ),
            ),
            None => None,
        },
        HostOs::Linux => match (xdg, home) {
            (Some(x), _) => Some(paths::joined(paths::joined(x, "obsidian"@), "obsidian.json"@)),
            (None, Some(h)) => Some(
                paths::joined(paths::joined(h, ".config/obsidian"@), "obsidian.json"@),
            ),
            (None, None) => None,
        },
        HostOs::Other => None,
    }
}

/// Where Obsidian keeps its list of vaults on this system.
pub fn registry_path<E: EnvReader>(os: HostOs, env: &E) -> (r: Option<String>)
    ensures
        text::opt_text(r) == registry_of(
            os,
            env.lookup("APPDATA"@),
            env.lookup("HOME"@),
            env.lookup("XDG_CONFIG_HOME"@),
        ),
{
    match os {
        HostOs::Windows => match env.get("APPDATA") {
            Some(a) => {
                let dir = join_windows(a.as_str(), "obsidian");
                Some(join_windows(dir.as_str(), "obsidian.json"))
            },
            None => None,
        },
        HostOs::Macos => match env.get("HOME") {
            Some(h) => {
                let dir = paths::join(h.as_str(), "Library/Application Support/obsidian");
                Some(paths::join(dir.as_str(), "obsidian.json"))
            },
            None => None,
        },
        HostOs::Linux => match env.get("XDG_CONFIG_HOME") {
            Some(x) => {
                let dir = paths::join(x.as_str(), "obsidian");
                Some(paths::join(dir.as_str(), "obsidian.json"))
            },
            None => match env.get("HOME") {
                Some(h) => {
                    let dir = paths::join(h.as_str(), ".config/obsidian");
                    Some(paths::join(dir.as_str(), "obsidian.json"))
                },
                None => None,
            },
        },
        HostOs::Other => None,
    }
}

/// The paths that exist, in order.
pub open spec fn existing(listed: Seq<Seq<char>>, exists_on_disk: Seq<bool>) -> Seq<Seq<char>>
    decreases listed.len(),
{
    if listed.len() == 0 || exists_on_disk.len() != listed.len() {
        Seq::empty()
    } else {
        let head = existing(listed.drop_last(), exists_on_disk.drop_last());
        if exists_on_disk.last() {
            head.push(listed.last())
        } else {
            head
        }
    }
}

/// Of the vaults that Obsidian lists, those whose folder still exists, whether
/// they are open or not.
pub fn find_known_vaults(listed: &[String], exists_on_disk: &[bool]) -> (r: Vec<String>)
    requires
        listed@.len() == exists_on_disk@.len(),
    ensures
        text::views(r@) == existing(text::views(listed@), exists_on_disk@),
{
    let ghost all = text::views(listed@);
    let mut out: Vec<String> = Vec::new();
    let mut i: usize = 0;
    assert(text::views(out@) =~= existing(all.subrange(0, 0), exists_on_disk@.subrange(0, 0)));
    while i < listed.len()
        invariant
            i <= listed@.len(),
            listed@.len() == exists_on_disk@.len(),
            all == text::views(listed@),
            text::views(out@) == existing(
                all.subrange(0, i as int),
                exists_on_disk@.subrange(0, i as int),
            ),
        decreases listed@.len() - i,
    {
        let ghost l1 = all.subrange(0, i + 1);
        let ghost e1 = exists_on_disk@.subrange(0, i + 1);
        assert(l1.drop_last() =~= all.subrange(0, i as int));
        assert(e1.drop_last() =~= exists_on_disk@.subrange(0, i as int));
        let ghost before = out@;
        if exists_on_disk[i] {
            out.push(listed[i].clone());
            assert(text::views(out@) =~= text::views(before).push(listed@[i as int]@));
        }
        i = i + 1;
    }
    assert(all.subrange(0, all.len() as int) =~= all);
    assert(exists_on_disk@.subrange(0, exists_on_disk@.len() as int) =~= exists_on_disk@);
    out
}

/// Of the listed vaults exactly those that exist are known, in the order of the
/// list.
pub proof fn law_known_vaults_exist(listed: &[String], on_disk: &[bool], r: Vec<String>)
    requires
        call_ensures(find_known_vaults, (listed, on_disk), r),
        listed@.len() == on_disk@.len(),
    ensures
        exists|f: Seq<int>|
            {
                &&& #[trigger] f.len() == r@.len()
                &&& forall|i: int|
                    0 <= i < f.len() ==> 0 <= #[trigger] f[i] < listed@.len() && on_disk@[f[i]]
                        && listed@[f[i]]@ == r@[i]@
                &&& forall|i: int, j: int|
                    0 <= i < j < f.len() ==> #[trigger] f[i] < #[trigger] f[j]
                &&& forall|k: int| 0 <= k < listed@.len() && #[trigger] on_disk@[k] ==> f.contains(k)
            },
{
    let v = text::views(listed@);
    let f = lemma_existing_rows(v, on_disk@);
    let w = text::views(r@);
    assert(f.len() == r@.len());
    assert forall|i: int| 0 <= i < f.len() implies 0 <= #[trigger] f[i] < listed@.len()
        && on_disk@[f[i]] && listed@[f[i]]@ == r@[i]@ by {
        assert(w[i] == r@[i]@);
        assert(v[f[i]] == listed@[f[i]]@);
    }
}

proof fn lemma_existing_rows(listed: Seq<Seq<char>>, on_disk: Seq<bool>) -> (f: Seq<int>)
    requires
        listed.len() == on_disk.len(),
    ensures
        f.len() == existing(listed, on_disk).len(),
        forall|i: int|
            0 <= i < f.len() ==> 0 <= #[trigger] f[i] < listed.len() && on_disk[f[i]]
                && listed[f[i]] == existing(listed, on_disk)[i],
        forall|i: int, j: int| 0 <= i < j < f.len() ==> #[trigger] f[i] < #[trigger] f[j],
        forall|k: int| 0 <= k < listed.len() && #[trigger] on_disk[k] ==> f.contains(k),
    decreases listed.len(),
{
    if listed.len() == 0 {
        Seq::empty()
    } else {
        let l = listed.drop_last();
        let d = on_disk.drop_last();
        let g = lemma_existing_rows(l, d);
        let n = listed.len() - 1;
        assert forall|i: int| 0 <= i < g.len() implies 0 <= #[trigger] g[i] < n && on_disk[g[i]]
            && listed[g[i]] == existing(l, d)[i] by {
            assert(l[g[i]] == listed[g[i]] && d[g[i]] == on_disk[g[i]]);
        }
        let f = if on_disk.last() {
            g.push(n)
        } else {
            g
        };
        assert forall|k: int| 0 <= k < listed.len() && #[trigger] on_disk[k] implies f.contains(k) by {
            if k < n {
                assert(d[k]);
                let i = choose|i: int| 0 <= i < g.len() && g[i] == k;
                assert(f[i] == k);
            } else {
                assert(f[f.len() - 1] == k);
            }
        }
        f
    }
}

/// Where the list of vaults is on each system, for folders that are written without
/// a separator at the end. On Linux the configuration folder goes before the home
/// folder.
pub proof fn law_registry_is_where_obsidian_keeps_it<E: EnvReader>(
    os: HostOs,
    env: &E,
    r: Option<String>,
)
    requires
        call_ensures(registry_path::<E>, (os, env), r),
    ensures
        os is Other ==> r is None,
        os is Windows ==> (r is Some <==> env.lookup("APPDATA"@) is Some),
        os is Macos ==> (r is Some <==> env.lookup("HOME"@) is Some),
        os is Linux ==> (r is Some <==> env.lookup("XDG_CONFIG_HOME"@) is Some || env.lookup(
            "HOME"@,
        ) is Some),
        forall|d: Seq<char>|
            #![trigger d.last()]
            d.len() > 2 && !text::is_sep(d.last()) ==> {
                &&& os is Windows && env.lookup("APPDATA"@) == Some(d) ==> r->0@ == d
                    + "\\obsidian\\obsidian.json"@
                &&& os is Macos && env.lookup("HOME"@) == Some(d) ==> r->0@ == d
                    + "/Library/Application Support/obsidian/obsidian.json"@
                &&& os is Linux && env.lookup("XDG_CONFIG_HOME"@) == Some(d) ==> r->0@ == d
                    + "/obsidian/obsidian.json"@
                &&& os is Linux && env.lookup("XDG_CONFIG_HOME"@) is None && env.lookup("HOME"@)
                    == Some(d) ==> r->0@ == d + "/.config/obsidian/obsidian.json"@
            },
{
    reveal_strlit("obsidian");
    reveal_strlit("obsidian.json");
    reveal_strlit("Library/Application Support/obsidian");
    reveal_strlit(".config/obsidian");
    reveal_strlit("\\obsidian\\obsidian.json");
    reveal_strlit("/Library/Application Support/obsidian/obsidian.json");
    reveal_strlit("/obsidian/obsidian.json");
    reveal_strlit("/.config/obsidian/obsidian.json");
    assert forall|d: Seq<char>|
        #![trigger d.last()]
        d.len() > 2 && !text::is_sep(d.last()) implies {
        &&& joined_windows(joined_windows(d, "obsidian"@), "obsidian.json"@) == d
            + "\\obsidian\\obsidian.json"@
        &&& paths::joined(
            paths::joined(d, "Library/Application Support/obsidian"@),
            "obsidian.json"@,
        ) == d + "/Library/Application Support/obsidian/obsidian.json"@
        &&& paths::joined(paths::joined(d, "obsidian"@), "obsidian.json"@) == d
            + "/obsidian/obsidian.json"@
        &&& paths::joined(paths::joined(d, ".config/obsidian"@), "obsidian.json"@) == d
            + "/.config/obsidian/obsidian.json"@
    } by {
        let w = joined_windows(d, "obsidian"@);
        assert(w.last() == 'n');
        assert(joined_windows(w, "obsidian.json"@) =~= d + "\\obsidian\\obsidian.json"@);
        let m = paths::joined(d, "Library/Application Support/obsidian"@);
        assert(m.last() == 'n');
        assert(paths::joined(m, "obsidian.json"@) =~= d
            + "/Library/Application Support/obsidian/obsidian.json"@);
        let x = paths::joined(d, "obsidian"@);
        assert(x.last() == 'n');
        assert(paths::joined(x, "obsidian.json"@) =~= d + "/obsidian/obsidian.json"@);
        let c = paths::joined(d, ".config/obsidian"@);
        assert(c.last() == 'n');
        assert(paths::joined(c, "obsidian.json"@) =~= d + "/.config/obsidian/obsidian.json"@);
    }
}

/// A folder that ends in a separator, and a drive, take no further separator.
pub proof fn law_separators_are_not_doubled<E: EnvReader>(env: &E, r: Option<String>, d: Seq<char>)
    requires
        call_ensures(registry_path::<E>, (HostOs::Windows, env), r),
        env.lookup("APPDATA"@) == Some(d),
        d.len() > 0,
        d.last() == '\\' || d.last() == '/' || (d.len() == 2 && d[1] == ':' && ('a' <= d[0] <= 'z'
            || 'A' <= d[0] <= 'Z')),
    ensures
        r is Some,
        r->0@ == d + "obsidian\\obsidian.json"@,
{
    reveal_strlit("obsidian");
    reveal_strlit("obsidian.json");
    reveal_strlit("obsidian\\obsidian.json");
    let w = joined_windows(d, "obsidian"@);
    assert(w.last() == 'n');
    assert(joined_windows(w, "obsidian.json"@) =~= d + "obsidian\\obsidian.json"@);
}

} // verus!
