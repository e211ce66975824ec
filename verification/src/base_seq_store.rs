//! The server version each note is known to descend from.
//!
//! An entry is *adopted* where the very bytes of that version were verified on
//! the local disk, and merely *observed* where they were only seen. Both may be
//! declared to the server; only an adopted one proves that a local file is a
//! descendant of the version.

use vstd::prelude::*;

use crate::path_map::PathMap;
use crate::sync_shadow;
use crate::text;

verus! {

/// A version token and how it was earned.
#[derive(Debug, Clone, Copy, PartialEq, Eq, Structural)]
pub struct SeqEntry {
    pub seq: i64,
    /// The version's bytes were verified on the local disk.
    pub adopted: bool,
}

/// Version tokens by canonical path.
pub struct BaseSeqStore {
    entries: PathMap<SeqEntry>,
    vault_folders: Vec<String>,
}

impl View for BaseSeqStore {
    type V = Map<Seq<char>, SeqEntry>;

    closed spec fn view(&self) -> Map<Seq<char>, SeqEntry> {
        self.entries@
    }
}

impl BaseSeqStore {
    /// The store is internally consistent.
    pub closed spec fn wf(self) -> bool {
        self.entries.wf()
    }

    /// The vault folders whose prefix is stripped off keys.
    pub closed spec fn folders(self) -> Seq<Seq<char>> {
        text::views(self.vault_folders@)
    }

    /// What is known of `path`.
    pub open spec fn entry(self, path: Seq<char>) -> Option<SeqEntry> {
        let k = sync_shadow::canon_key(self.folders(), path);
        if self@.contains_key(k) {
            Some(self@[k])
        } else {
            None
        }
    }

    /// The adopted version of `path`.
    pub open spec fn adopted_seq(self, path: Seq<char>) -> Option<i64> {
        match self.entry(path) {
            Some(e) => if e.adopted {
                Some(e.seq)
            } else {
                None
            },
            None => None,
        }
    }

    /// The store with a new entry for `path`.
    pub open spec fn updated(self, path: Seq<char>, e: SeqEntry) -> Map<Seq<char>, SeqEntry> {
        self@.insert(sync_shadow::canon_key(self.folders(), path), e)
    }

    /// An empty store: nothing was ever observed.
    pub fn new(vault_folders: Vec<String>) -> (s: BaseSeqStore)
        ensures
            s.wf(),
            s@ == Map::<Seq<char>, SeqEntry>::empty(),
            s.folders() == sync_shadow::canonical_folders(text::views(vault_folders@)),
    {
        let folders = sync_shadow::canonicalize_folders(vault_folders.as_slice());
        BaseSeqStore { entries: PathMap::new(), vault_folders: folders }
    }

    fn put(&mut self, path: &str, e: SeqEntry)
        requires
            old(self).wf(),
        ensures
            final(self).wf(),
            final(self).folders() == old(self).folders(),
            final(self)@ == old(self).updated(path@, e),
            final(self)@.dom().finite(),
    {
        proof {
            self.entries.lemma_finite();
        }
        let key = sync_shadow::canonical_key(self.vault_folders.as_slice(), path);
        self.entries.insert(key, e);
    }

    /// Notes that the bytes of version `seq` are on the local disk.
    pub fn record_adopted(&mut self, path: &str, seq: i64)
        requires
            old(self).wf(),
        ensures
            final(self).wf(),
            final(self).folders() == old(self).folders(),
            final(self)@ == old(self).updated(path@, (SeqEntry { seq, adopted: true })),
            final(self)@.dom().finite(),
    {
        self.put(path, SeqEntry { seq, adopted: true });
    }

    /// Notes that version `seq` was seen, without its bytes being on the local
    /// disk.
    pub fn record_observed(&mut self, path: &str, seq: i64)
        requires
            old(self).wf(),
        ensures
            final(self).wf(),
            final(self).folders() == old(self).folders(),
            final(self)@ == old(self).updated(path@, (SeqEntry { seq, adopted: false })),
            final(self)@.dom().finite(),
    {
        self.put(path, SeqEntry { seq, adopted: false });
    }

    /// The version to declare for `path`.
    pub fn get(&self, path: &str) -> (r: Option<i64>)
        requires
            self.wf(),
        ensures
            r == (match self.entry(path@) {
                Some(e) => Some(e.seq),
                None => None::<i64>,
            }),
    {
        let key = sync_shadow::canonical_key(self.vault_folders.as_slice(), path);
        match self.entries.get(key.as_str()) {
            Some(e) => Some(e.seq),
            None => None,
        }
    }

    /// The version whose bytes are known to have been on the local disk.
    pub fn get_adopted(&self, path: &str) -> (r: Option<i64>)
        requires
            self.wf(),
        ensures
            r == self.adopted_seq(path@),
    {
        let key = sync_shadow::canonical_key(self.vault_folders.as_slice(), path);
        match self.entries.get(key.as_str()) {
            Some(e) => if e.adopted {
                Some(e.seq)
            } else {
                None
            },
            None => None,
        }
    }

    /// Forgets `path`.
    pub fn remove(&mut self, path: &str)
        requires
            old(self).wf(),
        ensures
            final(self).wf(),
            final(self).folders() == old(self).folders(),
            final(self)@ == old(self)@.remove(sync_shadow::canon_key(old(self).folders(), path@)),
            final(self)@.dom().finite(),
    {
        proof {
            self.entries.lemma_finite();
        }
        let key = sync_shadow::canonical_key(self.vault_folders.as_slice(), path);
        let _gone = self.entries.remove(key.as_str());
    }
}

/// A version that was merely seen may be declared but proves nothing of the disk;
/// one whose bytes were on the disk does both. Neither touches another path.
pub proof fn law_seen_versions_are_not_adopted(
    store: &mut BaseSeqStore,
    before: BaseSeqStore,
    after: BaseSeqStore,
    path: &str,
    seq: i64,
    declared: Option<i64>,
    adopted: Option<i64>,
    other: Seq<char>,
)
    requires
        call_ensures(BaseSeqStore::record_observed, (store, path, seq), ()),
        before == *old(store),
        after == *final(store),
        call_ensures(BaseSeqStore::get, (&after, path), declared),
        call_ensures(BaseSeqStore::get_adopted, (&after, path), adopted),
    ensures
        declared == Some(seq),
        adopted is None,
        sync_shadow::canon_key(before.folders(), other) != sync_shadow::canon_key(
            before.folders(),
            path@,
        ) ==> after.entry(other) == before.entry(other),
{
}

/// A version whose bytes were on the disk is both declared and adopted.
pub proof fn law_adopted_versions_are_declared(
    store: &mut BaseSeqStore,
    before: BaseSeqStore,
    after: BaseSeqStore,
    path: &str,
    seq: i64,
    declared: Option<i64>,
    adopted: Option<i64>,
    other: Seq<char>,
)
    requires
        call_ensures(BaseSeqStore::record_adopted, (store, path, seq), ()),
        before == *old(store),
        after == *final(store),
        call_ensures(BaseSeqStore::get, (&after, path), declared),
        call_ensures(BaseSeqStore::get_adopted, (&after, path), adopted),
    ensures
        declared == Some(seq),
        adopted == Some(seq),
        sync_shadow::canon_key(before.folders(), other) != sync_shadow::canon_key(
            before.folders(),
            path@,
        ) ==> after.entry(other) == before.entry(other),
{
}

/// A forgotten path has no version, and only it is forgotten.
pub proof fn law_forgotten_path_has_no_version(
    store: &mut BaseSeqStore,
    before: BaseSeqStore,
    after: BaseSeqStore,
    path: &str,
    declared: Option<i64>,
    other: Seq<char>,
)
    requires
        call_ensures(BaseSeqStore::remove, (store, path), ()),
        before == *old(store),
        after == *final(store),
        call_ensures(BaseSeqStore::get, (&after, path), declared),
    ensures
        declared is None,
        sync_shadow::canon_key(before.folders(), other) != sync_shadow::canon_key(
            before.folders(),
            path@,
        ) ==> after.entry(other) == before.entry(other),
{
}

} // verus!
