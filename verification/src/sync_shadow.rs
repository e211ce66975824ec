//! The last-synced server hash of every path.
//!
//! The store tells a local edit from a stale copy: where its entry equals the
//! server's current hash, the server has not moved since the last sync, so a
//! differing local file can only be an edit.

use unicode_normalization::UnicodeNormalization;
use vstd::prelude::*;

use crate::json;
use crate::path_map;
use crate::path_map::PathMap;
use crate::text;

verus! {

/// Seconds between two periodic flushes of a store.
pub const FLUSH_INTERVAL_SECS: u64 = 30;

/// Unicode normalization form C of `s`, as `unicode_normalization` computes it.
pub uninterp spec fn nfc(s: Seq<char>) -> Seq<char>;

/// Unicode normalization form D of `s`, as `unicode_normalization` computes it:
/// what its form C is composed from.
pub uninterp spec fn nfd(s: Seq<char>) -> Seq<char>;

/// `UnicodeNormalization::nfc` of the crate `unicode_normalization`, collected:
/// a function of the text alone. ASCII text is left as it is, and only the empty
/// text comes out empty. A text and its form D (`UnicodeNormalization::nfd`) have
/// one form C. A text in form C is left as it is, and so is every part of it
/// (Unicode Standard Annex #15, which the crate follows: the form is closed under
/// taking parts). Neither separator composes with anything (the crate's tables
/// have no pair that holds one), so that one may stand for the other.
#[verifier::external_body]
fn nfc_of(s: &str) -> (r: String)
    ensures
        r@ == nfc(s@),
        vstd::utf8::is_ascii_chars(s@) ==> r@ == s@,
        r@.len() == 0 ==> s@.len() == 0,
        r@ == nfc(nfd(s@)),
        nfc(r@) == r@,
        forall|i: int, j: int|
            0 <= i <= j <= r@.len() ==> nfc(
                #[trigger] text::replace_char_spec(r@, '\\', '/').subrange(i, j),
            ) == text::replace_char_spec(r@, '\\', '/').subrange(i, j),
{
    s.nfc().collect::<String>()
}

/// `UnicodeNormalization::nfd` of the crate `unicode_normalization`, collected: a
/// function of the text alone, which keeps the text's form C.
#[verifier::external_body]
fn nfd_of(s: &str) -> (r: String)
    ensures
        r@ == nfd(s@),
        nfc(r@) == nfc(s@),
{
    s.nfd().collect::<String>()
}

/// The one form in which every host writes a path as a key.
pub open spec fn canonical_path(s: Seq<char>) -> Seq<char> {
    text::replace_char_spec(nfc(s), '\\', '/')
}

/// `k` without a leading vault folder, where something follows it.
pub open spec fn strip_vault(folders: Seq<Seq<char>>, k: Seq<char>) -> Seq<char> {
    match text::split_once_spec(k, '/') {
        Some(p) => if p.1.len() > 0 && folders.contains(p.0) {
            p.1
        } else {
            k
        },
        None => k,
    }
}

/// The key under which a store with these vault folders files `path`.
pub open spec fn canon_key(folders: Seq<Seq<char>>, path: Seq<char>) -> Seq<char> {
    strip_vault(folders, canonical_path(path))
}

/// The vault folders in key form; names that come out empty are dropped.
pub open spec fn canonical_folders(folders: Seq<Seq<char>>) -> Seq<Seq<char>>
    decreases folders.len(),
{
    if folders.len() == 0 {
        Seq::empty()
    } else {
        let rest = canonical_folders(folders.drop_last());
        let name = canonical_path(folders.last());
        if name.len() == 0 {
            rest
        } else {
            rest.push(name)
        }
    }
}

/// How many keys carry a leading path segment.
pub open spec fn count_slashed(keys: Seq<Seq<char>>) -> nat
    decreases keys.len(),
{
    if keys.len() == 0 {
        0
    } else {
        count_slashed(keys.drop_last()) + if keys.last().contains('/') {
            1nat
        } else {
            0nat
        }
    }
}

/// `map` is `raw` with every key in canonical form. A value that was filed
/// under its canonical key already keeps its place; a value filed under an
/// older form only fills a gap.
pub open spec fn migrated(
    folders: Seq<Seq<char>>,
    raw: Map<Seq<char>, Seq<char>>,
    map: Map<Seq<char>, Seq<char>>,
) -> bool {
    &&& forall|k: Seq<char>| #[trigger]
        raw.contains_key(k) ==> map.contains_key(canon_key(folders, k))
    &&& forall|nk: Seq<char>| #[trigger]
        map.contains_key(nk) ==> if raw.contains_key(nk) && canon_key(folders, nk) == nk {
            map[nk] == raw[nk]
        } else {
            exists|k: Seq<char>| #[trigger]
                raw.contains_key(k) && canon_key(folders, k) == nk && map[nk] == raw[k]
        }
}

/// Some key is not in canonical form.
pub open spec fn needs_migration(
    folders: Seq<Seq<char>>,
    raw: Map<Seq<char>, Seq<char>>,
) -> bool {
    exists|k: Seq<char>| #[trigger] raw.contains_key(k) && canon_key(folders, k) != k
}

/// What a store file holds: its map, or the empty map where it is missing or
/// does not parse.
pub open spec fn file_map(contents: Option<Seq<u8>>) -> Map<Seq<char>, Seq<char>> {
    match contents {
        Some(bytes) => match json::json_string_map(bytes) {
            Some(m) => m,
            None => Map::empty(),
        },
        None => Map::empty(),
    }
}

/// Canonicalizes a sync path: normalization form C, forward slashes. Once more
/// changes nothing, and all normalization forms of a path come out alike.
pub fn canonical_sync_path(s: &str) -> (r: String)
    ensures
        r@ == canonical_path(s@),
        vstd::utf8::is_ascii_chars(s@) ==> r@ == text::replace_char_spec(s@, '\\', '/'),
        r@.len() == 0 <==> s@.len() == 0,
        !r@.contains('\\'),
        nfc(r@) == r@,
        canonical_path(r@) == r@,
        canonical_path(nfc(s@)) == r@,
        canonical_path(nfd(s@)) == r@,
        forall|i: int, j: int|
            0 <= i <= j <= r@.len() ==> canonical_path(#[trigger] r@.subrange(i, j))
                == r@.subrange(i, j),
{
    let n = nfc_of(s);
    let r = text::replace_char(n.as_str(), '\\', '/');
    proof {
        assert(r@.subrange(0, r@.len() as int) =~= r@);
        assert(s@.len() == 0 ==> vstd::utf8::is_ascii_chars(s@));
        assert forall|i: int, j: int| 0 <= i <= j <= r@.len() implies canonical_path(
            #[trigger] r@.subrange(i, j),
        ) == r@.subrange(i, j) by {
            let part = r@.subrange(i, j);
            assert(nfc(part) == part);
            assert forall|k: int| 0 <= k < part.len() implies part[k] != '\\' by {
                assert(part[k] == r@[i + k]);
            }
            assert(text::replace_char_spec(part, '\\', '/') =~= part);
        }
    }
    r
}

/// `path` as a file system that decomposes names spells it. The spelling makes no
/// difference to its canonical form.
pub fn decomposed_path(path: &str) -> (r: String)
    ensures
        r@ == nfd(path@),
        canonical_path(r@) == canonical_path(path@),
{
    nfd_of(path)
}

/// The key of `path` in a store that strips the given vault folders. It is a
/// canonical path itself, and the same for all normalization forms of `path`.
pub fn canonical_key(folders: &[String], path: &str) -> (r: String)
    ensures
        r@ == canon_key(text::views(folders@), path@),
        canonical_path(r@) == r@,
        canon_key(text::views(folders@), nfc(path@)) == r@,
        canon_key(text::views(folders@), nfd(path@)) == r@,
        vstd::utf8::is_ascii_chars(path@) ==> r@ == strip_vault(
            text::views(folders@),
            text::replace_char_spec(path@, '\\', '/'),
        ),
{
    let k = canonical_sync_path(path);
    proof {
        k@.index_of_first_ensures('/');
    }
    match text::split_once(k.as_str(), '/') {
        Some(p) => {
            if !p.1.as_str().is_empty() && text::list_contains(folders, p.0.as_str()) {
                p.1
            } else {
                k
            }
        },
        None => k,
    }
}

/// No folder is named.
pub open spec fn all_empty(folders: Seq<Seq<char>>) -> bool {
    forall|i: int| 0 <= i < folders.len() ==> (#[trigger] folders[i]).len() == 0
}

/// Vault folder names in key form, without the empty ones.
pub fn canonicalize_folders(folders: &[String]) -> (r: Vec<String>)
    ensures
        text::views(r@) == canonical_folders(text::views(folders@)),
        r@.len() == 0 <==> all_empty(text::views(folders@)),
{
    let mut r: Vec<String> = Vec::new();
    let mut i: usize = 0;
    let ghost all = text::views(folders@);
    while i < folders.len()
        invariant
            i <= folders@.len(),
            all == text::views(folders@),
            text::views(r@) == canonical_folders(all.subrange(0, i as int)),
            r@.len() == 0 ==> forall|k: int| 0 <= k < i ==> (#[trigger] all[k]).len() == 0,
            r@.len() > 0 ==> !all_empty(all),
        decreases folders@.len() - i,
    {
        let name = canonical_sync_path(folders[i].as_str());
        let ghost before = r@;
        let ghost upto = all.subrange(0, i + 1);
        assert(upto.drop_last() =~= all.subrange(0, i as int));
        assert(upto.last() == folders@[i as int]@);
        assert(all[i as int] == folders@[i as int]@);
        if !name.as_str().is_empty() {
            r.push(name);
            assert(text::views(r@) =~= text::views(before).push(name@));
        }
        i = i + 1;
    }
    assert(all.subrange(0, all.len() as int) =~= all);
    r
}

/// Detects a store that cannot be read by its own keys: no vault folder is
/// known, yet keys carry a leading segment. Returns how many do.
pub fn detect_vault_scope_suspect(vault_folders: &[String], keys: &[&str]) -> (r: Option<usize>)
    ensures
        match r {
            Some(n) => vault_folders@.len() == 0 && n > 0 && n == count_slashed(
                keys@.map_values(|k: &str| k@),
            ),
            None => vault_folders@.len() > 0 || count_slashed(keys@.map_values(|k: &str| k@)) == 0,
        },
{
    if vault_folders.len() > 0 {
        return None;
    }
    let ghost all = keys@.map_values(|k: &str| k@);
    let mut n: usize = 0;
    let mut i: usize = 0;
    while i < keys.len()
        invariant
            i <= keys@.len(),
            n <= i,
            all == keys@.map_values(|k: &str| k@),
            n == count_slashed(all.subrange(0, i as int)),
        decreases keys@.len() - i,
    {
        assert(all.subrange(0, i + 1).drop_last() =~= all.subrange(0, i as int));
        if text::contains_char(keys[i], '/') {
            n = n + 1;
        }
        i = i + 1;
    }
    assert(all.subrange(0, all.len() as int) =~= all);
    if n > 0 {
        Some(n)
    } else {
        None
    }
}

/// A count of zero means that no key carries a leading segment.
pub proof fn lemma_count_slashed(keys: Seq<Seq<char>>)
    ensures
        count_slashed(keys) == 0 <==> forall|i: int|
            0 <= i < keys.len() ==> !(#[trigger] keys[i]).contains('/'),
    decreases keys.len(),
{
    if keys.len() > 0 {
        let t = keys.drop_last();
        lemma_count_slashed(t);
        if count_slashed(keys) == 0 {
            assert forall|i: int| 0 <= i < keys.len() implies !(#[trigger] keys[i]).contains(
                '/',
            ) by {
                if i < t.len() {
                    assert(t[i] == keys[i]);
                }
            }
        } else if forall|i: int| 0 <= i < keys.len() ==> !(#[trigger] keys[i]).contains('/') {
            assert forall|i: int| 0 <= i < t.len() implies !(#[trigger] t[i]).contains('/') by {
                assert(t[i] == keys[i]);
            }
            assert(!keys[keys.len() - 1].contains('/'));
        }
    }
}

/// Some key leads with a segment once it is canonical.
pub open spec fn some_key_has_segments(raw: Map<Seq<char>, Seq<char>>) -> bool {
    exists|k: Seq<char>| #[trigger] raw.contains_key(k) && canonical_path(k).contains('/')
}

/// Without vault folders the keys of a store are the canonical keys of its file.
proof fn lemma_slashed_keys(
    folders: Seq<Seq<char>>,
    raw: Map<Seq<char>, Seq<char>>,
    map: Map<Seq<char>, Seq<char>>,
)
    requires
        folders.len() == 0,
        migrated(folders, raw, map),
    ensures
        some_key_has_segments(raw) <==> exists|k: Seq<char>| #[trigger]
            map.contains_key(k) && k.contains('/'),
{
    assert forall|k: Seq<char>| #[trigger] canon_key(folders, k) == canonical_path(k) by {}
    if some_key_has_segments(raw) {
        let k = choose|k: Seq<char>| #[trigger]
            raw.contains_key(k) && canonical_path(k).contains('/');
        assert(map.contains_key(canon_key(folders, k)));
    }
    if exists|k: Seq<char>| #[trigger] map.contains_key(k) && k.contains('/') {
        let nk = choose|k: Seq<char>| #[trigger] map.contains_key(k) && k.contains('/');
        if raw.contains_key(nk) && canon_key(folders, nk) == nk {
            assert(canonical_path(nk).contains('/'));
        } else {
            let k = choose|k: Seq<char>| #[trigger]
                raw.contains_key(k) && canon_key(folders, k) == nk && map[nk] == raw[k];
            assert(canonical_path(k).contains('/'));
        }
    }
}

/// The keys of a map, as slices.
fn key_texts<'a>(m: &'a PathMap<String>) -> (r: Vec<&'a str>)
    requires
        m.wf(),
    ensures
        forall|i: int| 0 <= i < r@.len() ==> m@.contains_key((#[trigger] r@[i])@),
        forall|k: Seq<char>| #[trigger]
            m@.contains_key(k) ==> exists|i: int| 0 <= i < r@.len() && (#[trigger] r@[i])@ == k,
{
    let pairs = m.entries();
    let mut r: Vec<&'a str> = Vec::new();
    let mut i: usize = 0;
    while i < pairs.len()
        invariant
            i <= pairs@.len(),
            r@.len() == i,
            forall|j: int| 0 <= j < i ==> (#[trigger] r@[j])@ == pairs@[j].0@,
        decreases pairs@.len() - i,
    {
        r.push(pairs[i].0.as_str());
        i = i + 1;
    }
    proof {
        assert forall|j: int| 0 <= j < r@.len() implies m@.contains_key((#[trigger] r@[j])@) by {
            path_map::lemma_pairs_at(pairs@, j);
        }
        assert forall|k: Seq<char>| #[trigger] m@.contains_key(k) implies exists|j: int|
            0 <= j < r@.len() && (#[trigger] r@[j])@ == k by {
            path_map::lemma_pairs_dom(pairs@, k);
            let j = choose|j: int| 0 <= j < pairs@.len() && (#[trigger] pairs@[j]).0@ == k;
            assert(r@[j]@ == k);
        }
    }
    r
}

/// Re-keys the pairs of a store file. Pairs that are in canonical form go in
/// first; the others fill gaps.
fn migrate(raw: Vec<(String, String)>, folders: &Vec<String>) -> (r: (PathMap<String>, bool))
    requires
        path_map::distinct_keys(raw@),
    ensures
        r.0.wf(),
        migrated(
            text::views(folders@),
            json::text_map(path_map::pairs_map(raw@)),
            json::text_map(r.0@),
        ),
        r.1 == needs_migration(
            text::views(folders@),
            json::text_map(path_map::pairs_map(raw@)),
        ),
{
    let ghost fs = text::views(folders@);
    let ghost rawmap = json::text_map(path_map::pairs_map(raw@));
    let mut map: PathMap<String> = PathMap::new();
    let mut moved = false;
    let mut i: usize = 0;
    while i < raw.len()
        invariant
            i <= raw@.len(),
            fs == text::views(folders@),
            map.wf(),
            path_map::distinct_keys(raw@),
            rawmap == json::text_map(path_map::pairs_map(raw@)),
            moved == exists|j: int|
                0 <= j < i && canon_key(fs, (#[trigger] raw@[j]).0@) != raw@[j].0@,
            forall|j: int|
                0 <= j < i && canon_key(fs, (#[trigger] raw@[j]).0@) == raw@[j].0@
                    ==> map@.contains_key(raw@[j].0@),
            forall|nk: Seq<char>| #[trigger]
                map@.contains_key(nk) ==> rawmap.contains_key(nk) && canon_key(fs, nk) == nk
                    && map@[nk]@ == rawmap[nk],
        decreases raw@.len() - i,
    {
        let nk = canonical_key(folders.as_slice(), raw[i].0.as_str());
        proof {
            path_map::lemma_pairs_at(raw@, i as int);
        }
        if text::str_eq(nk.as_str(), raw[i].0.as_str()) {
            map.insert(nk, raw[i].1.clone());
        } else {
            moved = true;
        }
        i = i + 1;
    }
    let ghost current = map@;
    let mut i: usize = 0;
    while i < raw.len()
        invariant
            i <= raw@.len(),
            fs == text::views(folders@),
            map.wf(),
            path_map::distinct_keys(raw@),
            rawmap == json::text_map(path_map::pairs_map(raw@)),
            forall|j: int|
                0 <= j < raw@.len() && canon_key(fs, (#[trigger] raw@[j]).0@) == raw@[j].0@
                    ==> current.contains_key(raw@[j].0@),
            forall|nk: Seq<char>| #[trigger]
                current.contains_key(nk) ==> rawmap.contains_key(nk) && canon_key(fs, nk) == nk
                    && map@.contains_key(nk) && map@[nk]@ == rawmap[nk],
            forall|j: int| 0 <= j < i ==> map@.contains_key(canon_key(fs, (#[trigger] raw@[j]).0@)),
            forall|nk: Seq<char>| #[trigger]
                map@.contains_key(nk) ==> current.contains_key(nk) || exists|k: Seq<char>| #[trigger]
                    rawmap.contains_key(k) && canon_key(fs, k) == nk && map@[nk]@ == rawmap[k],
        decreases raw@.len() - i,
    {
        let nk = canonical_key(folders.as_slice(), raw[i].0.as_str());
        proof {
            path_map::lemma_pairs_at(raw@, i as int);
        }
        let ghost before = map@;
        let ghost nkv = nk@;
        map.insert_if_absent(nk, raw[i].1.clone());
        proof {
            assert forall|q: Seq<char>| #[trigger] map@.contains_key(q) implies current.contains_key(
                q,
            ) || exists|k: Seq<char>| #[trigger]
                rawmap.contains_key(k) && canon_key(fs, k) == q && map@[q]@ == rawmap[k] by {
                if before.contains_key(q) {
                    assert(map@[q] == before[q]);
                } else {
                    assert(q == nkv);
                    let k = raw@[i as int].0@;
                    assert(rawmap.contains_key(k) && canon_key(fs, k) == q && map@[q]@
                        == rawmap[k]);
                }
            }
        }
        i = i + 1;
    }
    proof {
        let out = json::text_map(map@);
        assert forall|k: Seq<char>| #[trigger] rawmap.contains_key(k) implies out.contains_key(
            canon_key(fs, k),
        ) by {
            path_map::lemma_pairs_dom(raw@, k);
            let j = choose|j: int| 0 <= j < raw@.len() && (#[trigger] raw@[j]).0@ == k;
            assert(map@.contains_key(canon_key(fs, raw@[j].0@)));
        }
        assert forall|nk: Seq<char>| #[trigger] out.contains_key(nk) implies if rawmap.contains_key(
            nk,
        ) && canon_key(fs, nk) == nk {
            out[nk] == rawmap[nk]
        } else {
            exists|k: Seq<char>| #[trigger]
                rawmap.contains_key(k) && canon_key(fs, k) == nk && out[nk] == rawmap[k]
        } by {
            assert(map@.contains_key(nk));
            if rawmap.contains_key(nk) && canon_key(fs, nk) == nk {
                path_map::lemma_pairs_dom(raw@, nk);
                let j = choose|j: int| 0 <= j < raw@.len() && (#[trigger] raw@[j]).0@ == nk;
                assert(current.contains_key(raw@[j].0@));
            } else {
                assert(!current.contains_key(nk));
            }
        }
        if needs_migration(fs, rawmap) {
            let k = choose|k: Seq<char>| #[trigger]
                rawmap.contains_key(k) && canon_key(fs, k) != k;
            path_map::lemma_pairs_dom(raw@, k);
            let j = choose|j: int| 0 <= j < raw@.len() && (#[trigger] raw@[j]).0@ == k;
            assert(canon_key(fs, raw@[j].0@) != raw@[j].0@);
        }
        if moved {
            let j = choose|j: int|
                0 <= j < raw@.len() && canon_key(fs, (#[trigger] raw@[j]).0@) != raw@[j].0@;
            path_map::lemma_pairs_at(raw@, j);
            assert(rawmap.contains_key(raw@[j].0@));
        }
    }
    (map, moved)
}

/// The store: canonical path to last-synced server hash.
pub struct ShadowStore {
    entries: PathMap<String>,
    vault_folders: Vec<String>,
    dirty: bool,
    scope_suspect: bool,
}

impl View for ShadowStore {
    type V = Map<Seq<char>, Seq<char>>;

    closed spec fn view(&self) -> Map<Seq<char>, Seq<char>> {
        json::text_map(self.entries@)
    }
}

impl ShadowStore {
    /// The store is internally consistent.
    pub closed spec fn wf(self) -> bool {
        self.entries.wf()
    }

    /// The vault folders whose prefix is stripped off keys.
    pub closed spec fn folders(self) -> Seq<Seq<char>> {
        text::views(self.vault_folders@)
    }

    /// Something was recorded or re-keyed since the last flush.
    pub closed spec fn is_dirty(self) -> bool {
        self.dirty
    }

    /// The store was loaded without vault folders while its keys have some.
    pub closed spec fn suspect(self) -> bool {
        self.scope_suspect
    }

    /// The store that a file with these contents stands for, with no vault
    /// folder known.
    pub fn load(contents: Option<Vec<u8>>) -> (s: ShadowStore)
        ensures
            s.wf(),
            s@.dom().finite(),
            s.folders() == Seq::<Seq<char>>::empty(),
            migrated(s.folders(), file_map(contents_view(contents)), s@),
            s.is_dirty() == needs_migration(s.folders(), file_map(contents_view(contents))),
            s.suspect() == some_key_has_segments(file_map(contents_view(contents))),
    {
        let s = ShadowStore::load_with_vault_folders(contents, Vec::new());
        assert(s.folders() =~= Seq::<Seq<char>>::empty());
        s
    }

    /// The store that a file with these contents stands for (`None` where the
    /// file is missing or unreadable). A file that does not parse counts as
    /// empty. Keys in an older form are re-keyed; that alone makes the store
    /// dirty.
    pub fn load_with_vault_folders(
        contents: Option<Vec<u8>>,
        vault_folders: Vec<String>,
    ) -> (s: ShadowStore)
        ensures
            s.wf(),
            s@.dom().finite(),
            s.folders() == canonical_folders(text::views(vault_folders@)),
            s.folders().len() == 0 <==> all_empty(text::views(vault_folders@)),
            migrated(s.folders(), file_map(contents_view(contents)), s@),
            s.is_dirty() == needs_migration(s.folders(), file_map(contents_view(contents))),
            s.suspect() == (all_empty(text::views(vault_folders@)) && some_key_has_segments(
                file_map(contents_view(contents)),
            )),
    {
        let raw: Vec<(String, String)> = match contents {
            Some(bytes) => match json::parse_string_map(bytes.as_slice()) {
                Ok(v) => v,
                Err(_) => Vec::new(),
            },
            None => Vec::new(),
        };
        let ghost rawmap = file_map(contents_view(contents));
        assert(json::text_map(path_map::pairs_map(raw@)) =~= rawmap);
        let folders = canonicalize_folders(vault_folders.as_slice());
        let (entries, migrated_any) = migrate(raw, &folders);
        let keys = key_texts(&entries);
        let suspect = detect_vault_scope_suspect(folders.as_slice(), keys.as_slice());
        let s = ShadowStore {
            entries,
            vault_folders: folders,
            dirty: migrated_any,
            scope_suspect: suspect.is_some(),
        };
        proof {
            let all = keys@.map_values(|k: &str| k@);
            lemma_count_slashed(all);
            if exists|i: int| 0 <= i < all.len() && (#[trigger] all[i]).contains('/') {
                let i = choose|i: int| 0 <= i < all.len() && (#[trigger] all[i]).contains('/');
                assert(s@.contains_key(all[i]));
            }
            if exists|k: Seq<char>| #[trigger] s@.contains_key(k) && k.contains('/') {
                let k = choose|k: Seq<char>| #[trigger] s@.contains_key(k) && k.contains('/');
                assert(entries@.contains_key(k));
                let i = choose|i: int| 0 <= i < keys@.len() && (#[trigger] keys@[i])@ == k;
                assert(all[i] == k);
            }
            if folders@.len() == 0 {
                lemma_slashed_keys(s.folders(), rawmap, s@);
            }
            entries.lemma_finite();
            assert(s@.dom() =~= entries@.dom());
        }
        s
    }

    /// Files `server_hash` as the last-synced hash of `path`. A path that was
    /// unknown makes the store one entry larger.
    pub fn record(&mut self, path: &str, server_hash: &str)
        requires
            old(self).wf(),
        ensures
            final(self).wf(),
            final(self)@ == old(self)@.insert(
                canon_key(old(self).folders(), path@),
                server_hash@,
            ),
            final(self)@.dom().finite(),
            final(self)@.len() == old(self)@.len() + (if old(self)@.contains_key(
                canon_key(old(self).folders(), path@),
            ) {
                0int
            } else {
                1int
            }),
            canonical_path(canon_key(old(self).folders(), path@)) == canon_key(
                old(self).folders(),
                path@,
            ),
            canon_key(old(self).folders(), nfc(path@)) == canon_key(old(self).folders(), path@),
            canon_key(old(self).folders(), nfd(path@)) == canon_key(old(self).folders(), path@),
            final(self).is_dirty(),
            final(self).folders() == old(self).folders(),
            final(self).suspect() == old(self).suspect(),
    {
        proof {
            self.entries.lemma_finite();
            assert(self@.dom() =~= self.entries@.dom());
        }
        let key = canonical_key(self.vault_folders.as_slice(), path);
        let value = server_hash.to_owned();
        self.entries.insert(key, value);
        self.dirty = true;
        assert(self@ =~= old(self)@.insert(
            canon_key(old(self).folders(), path@),
            server_hash@,
        ));
    }

    /// The last-synced server hash of `path`.
    pub fn get(&self, path: &str) -> (r: Option<String>)
        requires
            self.wf(),
        ensures
            r is Some <==> self@.contains_key(canon_key(self.folders(), path@)),
            r is Some ==> r->0@ == self@[canon_key(self.folders(), path@)],
    {
        let key = canonical_key(self.vault_folders.as_slice(), path);
        match self.entries.get(key.as_str()) {
            Some(v) => Some(v.clone()),
            None => None,
        }
    }

    /// The number of entries.
    pub fn len(&self) -> (n: usize)
        requires
            self.wf(),
        ensures
            n == self@.len(),
            self@.dom().finite(),
    {
        assert(self@.dom() =~= self.entries@.dom());
        self.entries.len()
    }

    /// Whether the store has no entries.
    pub fn is_empty(&self) -> (r: bool)
        requires
            self.wf(),
        ensures
            r == (self@.len() == 0),
    {
        self.len() == 0
    }

    /// Whether the store was loaded in a state in which its lookups must miss.
    pub fn vault_scope_suspect(&self) -> (r: bool)
        ensures
            r == self.suspect(),
    {
        self.scope_suspect
    }

    /// The file contents to persist; `None` when nothing changed since the last
    /// flush.
    pub fn flush(&self) -> (r: Option<Vec<u8>>)
        requires
            self.wf(),
        ensures
            r is Some <==> self.is_dirty(),
            r is Some ==> json::json_string_map(r->0@) == Some(self@),
    {
        if !self.dirty {
            return None;
        }
        Some(json::render_string_map(self.entries.entries()).unwrap())
    }

    /// Notes that the contents given by [`flush`](Self::flush) have reached the
    /// disk.
    pub fn mark_flushed(&mut self)
        requires
            old(self).wf(),
        ensures
            final(self).wf(),
            final(self)@ == old(self)@,
            !final(self).is_dirty(),
            final(self).folders() == old(self).folders(),
            final(self).suspect() == old(self).suspect(),
    {
        self.dirty = false;
    }
}

/// Reading back what was recorded: a path with the same key sees the recorded
/// hash, and every other path sees what it saw before.
pub proof fn law_record_then_get(
    folders: Seq<Seq<char>>,
    m: Map<Seq<char>, Seq<char>>,
    recorded: Seq<char>,
    hash: Seq<char>,
    asked: Seq<char>,
)
    ensures
        ({
            let after = m.insert(canon_key(folders, recorded), hash);
            if canon_key(folders, asked) == canon_key(folders, recorded) {
                after.contains_key(canon_key(folders, asked)) && after[canon_key(folders, asked)]
                    == hash
            } else {
                &&& after.contains_key(canon_key(folders, asked)) == m.contains_key(
                    canon_key(folders, asked),
                )
                &&& m.contains_key(canon_key(folders, asked)) ==> after[canon_key(folders, asked)]
                    == m[canon_key(folders, asked)]
            }
        }),
{
}

/// Two spellings of one path with the same normal form share a key, whatever
/// their separators.
pub proof fn law_spellings_share_a_key(folders: Seq<Seq<char>>, a: Seq<char>, b: Seq<char>)
    requires
        text::replace_char_spec(nfc(a), '\\', '/') == text::replace_char_spec(nfc(b), '\\', '/'),
    ensures
        canon_key(folders, a) == canon_key(folders, b),
{
}

/// A path led by its vault folder and the same path without it share a key, as
/// long as what follows the folder does not itself start with a vault folder.
pub proof fn law_vault_prefix_is_invisible(
    folders: Seq<Seq<char>>,
    folder: Seq<char>,
    rest: Seq<char>,
)
    requires
        folders.contains(folder),
        !folder.contains('/'),
        !folder.contains('\\'),
        rest.len() > 0,
        nfc(folder.push('/') + rest) == folder.push('/') + rest,
        nfc(rest) == rest,
        strip_vault(folders, canonical_path(rest)) == canonical_path(rest),
    ensures
        canon_key(folders, folder.push('/') + rest) == canon_key(folders, rest),
{
    let s = folder.push('/') + rest;
    let k = canonical_path(s);
    let n: int = folder.len() as int;
    assert forall|i: int| 0 <= i < n implies k[i] == folder[i] && folder[i] != '/' && folder[i]
        != '\\' by {
        assert(s[i] == folder[i]);
        assert(folder.contains(folder[i]));
    }
    assert(s[n] == '/');
    assert(k[n] == '/');
    assert(k.contains('/'));
    k.index_of_first_ensures('/');
    assert(k.index_of_first('/') == Some(n));
    assert(k.subrange(0, n) =~= folder);
    assert(k.subrange(n + 1, k.len() as int) =~= canonical_path(rest));
}

/// On migration a value filed under its canonical key is never displaced by
/// one filed under an older form of it.
pub proof fn law_current_value_wins(
    folders: Seq<Seq<char>>,
    raw: Map<Seq<char>, Seq<char>>,
    map: Map<Seq<char>, Seq<char>>,
    key: Seq<char>,
)
    requires
        migrated(folders, raw, map),
        raw.contains_key(key),
        canon_key(folders, key) == key,
    ensures
        map.contains_key(key),
        map[key] == raw[key],
{
}

/// Every key is the key of itself.
pub open spec fn keys_settled<V>(folders: Seq<Seq<char>>, m: Map<Seq<char>, V>) -> bool {
    forall|k: Seq<char>| #[trigger] m.contains_key(k) ==> canon_key(folders, k) == k
}

/// Recording under a canonical key leaves all keys canonical, unless what follows
/// a stripped vault folder leads with a vault folder again.
pub proof fn law_record_keeps_keys_settled<V>(
    folders: Seq<Seq<char>>,
    m: Map<Seq<char>, V>,
    key: Seq<char>,
    value: V,
)
    requires
        keys_settled(folders, m),
        canonical_path(key) == key,
        strip_vault(folders, key) == key,
    ensures
        keys_settled(folders, m.insert(key, value)),
{
}

/// A store whose keys are all canonical comes back from its file unchanged, and
/// clean.
pub proof fn law_flush_then_load(
    folders: Seq<Seq<char>>,
    stored: Map<Seq<char>, Seq<char>>,
    loaded: Map<Seq<char>, Seq<char>>,
    bytes: Seq<u8>,
)
    requires
        json::json_string_map(bytes) == Some(stored),
        migrated(folders, file_map(Some(bytes)), loaded),
        keys_settled(folders, stored),
    ensures
        loaded == stored,
        !needs_migration(folders, file_map(Some(bytes))),
{
    assert forall|k: Seq<char>| loaded.contains_key(k) == stored.contains_key(k) by {
        if stored.contains_key(k) {
            assert(loaded.contains_key(canon_key(folders, k)));
        }
    }
    assert(loaded =~= stored);
}

/// A file that is missing or does not parse stands for the empty store.
pub proof fn law_corrupt_file_is_empty(folders: Seq<Seq<char>>, bytes: Seq<u8>)
    requires
        json::json_string_map(bytes) is None,
    ensures
        file_map(Some(bytes)) == Map::<Seq<char>, Seq<char>>::empty(),
        file_map(None) == Map::<Seq<char>, Seq<char>>::empty(),
{
}

/// The bytes of optional file contents.
pub open spec fn contents_view(contents: Option<Vec<u8>>) -> Option<Seq<u8>> {
    match contents {
        Some(b) => Some(b@),
        None => None,
    }
}

/// A key is written with forward slashes and is otherwise the path's normal form,
/// character by character.
pub proof fn law_canonical_path_changes_separators_only(s: Seq<char>, i: int)
    requires
        0 <= i < nfc(s).len(),
    ensures
        canonical_path(s).len() == nfc(s).len(),
        canonical_path(s)[i] == (if nfc(s)[i] == '\\' {
            '/'
        } else {
            nfc(s)[i]
        }),
{
}

/// The canonical form of a path in ASCII: every backslash is a slash, and nothing
/// else changes.
pub proof fn law_ascii_path_keeps_its_letters(path: &str, r: String)
    requires
        call_ensures(canonical_sync_path, (path,), r),
        vstd::utf8::is_ascii_chars(path@),
    ensures
        r@.len() == path@.len(),
        forall|i: int|
            0 <= i < path@.len() ==> #[trigger] r@[i] == (if path@[i] == '\\' {
                '/'
            } else {
                path@[i]
            }),
{
}

/// The key of a path that leads with a known vault folder is what follows the
/// folder; every other path in normal form and with forward slashes is its own key.
pub proof fn law_key_drops_a_known_vault_folder(
    folders: Seq<Seq<char>>,
    folder: Seq<char>,
    rest: Seq<char>,
)
    requires
        !folder.contains('/'),
        !folder.contains('\\'),
        !rest.contains('\\'),
        nfc(folder + seq!['/'] + rest) == folder + seq!['/'] + rest,
    ensures
        folders.contains(folder) && rest.len() > 0 ==> canon_key(
            folders,
            folder + seq!['/'] + rest,
        ) == rest,
        !folders.contains(folder) || rest.len() == 0 ==> canon_key(
            folders,
            folder + seq!['/'] + rest,
        ) == folder + seq!['/'] + rest,
{
    let s = folder + seq!['/'] + rest;
    let k = canonical_path(s);
    let n: int = folder.len() as int;
    assert forall|i: int| 0 <= i < s.len() implies k[i] == s[i] by {
        if s[i] == '\\' {
            if i < n {
                assert(folder[i] == '\\');
            } else if i > n {
                assert(rest[i - n - 1] == '\\');
            }
        }
    }
    assert(k =~= s);
    k.index_of_first_ensures('/');
    assert(s[n] == '/');
    assert(k.contains('/'));
    assert forall|i: int| 0 <= i < n implies k[i] != '/' by {
        assert(s[i] == folder[i]);
        assert(folder.contains(folder[i]));
    }
    assert(k.index_of_first('/') == Some(n));
    assert(k.subrange(0, n) =~= folder);
    assert(k.subrange(n + 1, k.len() as int) =~= rest);
}

/// A path without a separator is its own key.
pub proof fn law_bare_name_is_its_own_key(folders: Seq<Seq<char>>, name: Seq<char>)
    requires
        !name.contains('/'),
        !name.contains('\\'),
        nfc(name) == name,
    ensures
        canon_key(folders, name) == name,
{
    let k = canonical_path(name);
    assert forall|i: int| 0 <= i < name.len() implies k[i] == name[i] by {
        assert(name.contains(name[i]));
    }
    assert(k =~= name);
    k.index_of_first_ensures('/');
}

/// What is recorded for a path is what is found for it, and a path with another key
/// is not touched.
pub proof fn law_recorded_hash_is_found(
    store: &mut ShadowStore,
    after: ShadowStore,
    before: ShadowStore,
    path: &str,
    hash: &str,
    asked: &str,
    r: Option<String>,
    earlier: Option<String>,
)
    requires
        call_ensures(ShadowStore::record, (store, path, hash), ()),
        before == *old(store),
        after == *final(store),
        call_ensures(ShadowStore::get, (&after, asked), r),
        call_ensures(ShadowStore::get, (&before, asked), earlier),
    ensures
        canon_key(before.folders(), asked@) == canon_key(before.folders(), path@) ==> r is Some
            && r->0@ == hash@,
        canon_key(before.folders(), asked@) != canon_key(before.folders(), path@) ==> text::opt_text(
            r,
        ) == text::opt_text(earlier),
        after.is_dirty(),
        after.folders() == before.folders(),
        after.suspect() == before.suspect(),
{
}

/// A store that is loaded without vault folders cannot be trusted exactly where one
/// of its keys has a separator; one with a folder always can.
pub proof fn law_store_is_suspect_without_folders(
    contents: Option<Vec<u8>>,
    vault_folders: Vec<String>,
    s: ShadowStore,
    key: Seq<char>,
)
    requires
        call_ensures(ShadowStore::load_with_vault_folders, (contents, vault_folders), s),
    ensures
        contents is None ==> !s.suspect() && !s.is_dirty(),
        s.suspect() ==> forall|i: int|
            0 <= i < vault_folders@.len() ==> (#[trigger] vault_folders@[i])@.len() == 0,
        vault_folders@.len() == 0 && file_map(contents_view(contents)).contains_key(key)
            && canonical_path(key).contains('/') ==> s.suspect(),
        s.suspect() ==> exists|k: Seq<char>| #[trigger]
            file_map(contents_view(contents)).contains_key(k) && canonical_path(k).contains('/'),
{
    if s.suspect() {
        let fs = text::views(vault_folders@);
        assert forall|i: int| 0 <= i < vault_folders@.len() implies (
        #[trigger] vault_folders@[i])@.len() == 0 by {
            assert(fs[i].len() == 0);
        }
    }
}

/// A flushed store is written whole, and only where something changed.
pub proof fn law_flush_writes_the_whole_store(store: ShadowStore, r: Option<Vec<u8>>)
    requires
        call_ensures(ShadowStore::flush, (&store,), r),
    ensures
        r is Some <==> store.is_dirty(),
        r is Some ==> json::json_string_map(r->0@) == Some(store@),
{
}

/// A known vault folder is filed in canonical form, and an empty name is none.
pub proof fn law_folders_are_canonical(folders: Seq<Seq<char>>, name: Seq<char>)
    ensures
        canonical_folders(folders).contains(name) <==> name.len() > 0 && exists|i: int|
            0 <= i < folders.len() && canonical_path(#[trigger] folders[i]) == name,
    decreases folders.len(),
{
    if folders.len() > 0 {
        let init = folders.drop_last();
        law_folders_are_canonical(init, name);
        let c = canonical_folders(init);
        let all = canonical_folders(folders);
        let last = canonical_path(folders.last());
        if all.contains(name) {
            let k = choose|k: int| 0 <= k < all.len() && all[k] == name;
            if k < c.len() {
                assert(c[k] == name);
                let i = choose|i: int|
                    0 <= i < init.len() && canonical_path(#[trigger] init[i]) == name;
                assert(canonical_path(folders[i]) == name);
            } else {
                assert(canonical_path(folders[folders.len() - 1]) == name);
            }
        }
        if name.len() > 0 && exists|i: int|
            0 <= i < folders.len() && canonical_path(#[trigger] folders[i]) == name {
            let i = choose|i: int|
                0 <= i < folders.len() && canonical_path(#[trigger] folders[i]) == name;
            if i < init.len() {
                assert(canonical_path(init[i]) == name);
                let k = choose|k: int| 0 <= k < c.len() && c[k] == name;
                assert(all[k] == name);
            } else {
                assert(all[all.len() - 1] == name);
            }
        }
    }
}

/// A value that was filed under an older form of a key moves to the key, where no
/// other value claims it; and the store has no key that its file did not have in
/// some form.
pub proof fn law_older_keys_are_moved(
    folders: Seq<Seq<char>>,
    raw: Map<Seq<char>, Seq<char>>,
    map: Map<Seq<char>, Seq<char>>,
    key: Seq<char>,
    nk: Seq<char>,
)
    requires
        migrated(folders, raw, map),
    ensures
        raw.contains_key(key) && (forall|k: Seq<char>| #[trigger]
            raw.contains_key(k) && canon_key(folders, k) == canon_key(folders, key) ==> k == key)
            ==> map.contains_key(canon_key(folders, key)) && map[canon_key(folders, key)]
            == raw[key],
        map.contains_key(nk) ==> exists|k: Seq<char>| #[trigger]
            raw.contains_key(k) && canon_key(folders, k) == nk && map[nk] == raw[k],
{
    if raw.contains_key(key) {
        assert(map.contains_key(canon_key(folders, key)));
    }
    if map.contains_key(nk) && raw.contains_key(nk) && canon_key(folders, nk) == nk {
        assert(map[nk] == raw[nk]);
    }
}

/// A loaded store has to be written back exactly where a key of its file was not in
/// canonical form.
pub proof fn law_loaded_store_is_dirty_when_rekeyed(
    contents: Option<Vec<u8>>,
    vault_folders: Vec<String>,
    s: ShadowStore,
)
    requires
        call_ensures(ShadowStore::load_with_vault_folders, (contents, vault_folders), s),
    ensures
        s.is_dirty() <==> exists|k: Seq<char>| #[trigger]
            file_map(contents_view(contents)).contains_key(k) && canon_key(s.folders(), k) != k,
        s.folders() == canonical_folders(text::views(vault_folders@)),
        migrated(s.folders(), file_map(contents_view(contents)), s@),
{
}

/// A store is suspect where no vault folder is known and a key has a slash; the
/// number of such keys is reported.
pub proof fn law_suspect_keys_are_counted(
    vault_folders: &[String],
    keys: &[&str],
    r: Option<usize>,
)
    requires
        call_ensures(detect_vault_scope_suspect, (vault_folders, keys), r),
    ensures
        r is Some <==> vault_folders@.len() == 0 && exists|i: int|
            0 <= i < keys@.len() && (#[trigger] keys@[i])@.contains('/'),
        r is Some ==> r->0 == keys@.filter(|k: &str| k@.contains('/')).len(),
{
    let all = keys@.map_values(|k: &str| k@);
    lemma_count_slashed(all);
    lemma_count_is_filter(keys@);
    if exists|i: int| 0 <= i < keys@.len() && (#[trigger] keys@[i])@.contains('/') {
        let i = choose|i: int| 0 <= i < keys@.len() && (#[trigger] keys@[i])@.contains('/');
        assert(all[i].contains('/'));
    }
    if r is Some {
        let i = choose|i: int| 0 <= i < all.len() && (#[trigger] all[i]).contains('/');
        assert(keys@[i]@.contains('/'));
    }
}

proof fn lemma_count_is_filter(keys: Seq<&str>)
    ensures
        count_slashed(keys.map_values(|k: &str| k@)) == keys.filter(
            |k: &str| k@.contains('/'),
        ).len(),
    decreases keys.len(),
{
    reveal(Seq::filter);
    if keys.len() > 0 {
        let f = |k: &str| k@;
        lemma_count_is_filter(keys.drop_last());
        assert(keys.map_values(f).drop_last() =~= keys.drop_last().map_values(f));
        assert(keys.map_values(f).last() == keys.last()@);
    }
}

/// The key of a path below a known vault folder is what follows the folder, and a
/// path outside of them is its own key.
pub proof fn law_key_of_a_path(
    folders: &[String],
    folder: Seq<char>,
    rest: Seq<char>,
    path: &str,
    r: String,
)
    requires
        call_ensures(canonical_key, (folders, path), r),
        !folder.contains('/'),
        !folder.contains('\\'),
        !rest.contains('\\'),
        path@ == folder + seq!['/'] + rest,
        nfc(path@) == path@,
    ensures
        text::views(folders@).contains(folder) && rest.len() > 0 ==> r@ == rest,
        !text::views(folders@).contains(folder) || rest.len() == 0 ==> r@ == path@,
{
    law_key_drops_a_known_vault_folder(text::views(folders@), folder, rest);
}

/// A store that was written back is clean and holds what it held; an empty one has
/// nothing for any path.
pub proof fn law_flushed_store_is_clean(
    s: &mut ShadowStore,
    t: &ShadowStore,
    n: usize,
    none: bool,
    key: Seq<char>,
)
    requires
        call_ensures(ShadowStore::mark_flushed, (s,), ()),
        call_ensures(ShadowStore::len, (t,), n),
        call_ensures(ShadowStore::is_empty, (t,), none),
    ensures
        !final(s).is_dirty(),
        final(s)@ == old(s)@,
        none <==> n == 0,
        none ==> !t@.contains_key(key),
{
    if t@.contains_key(key) {
        assert(t@.dom().contains(key));
        vstd::set_lib::lemma_set_empty_equivalency_len(t@.dom());
    }
}

} // verus!
