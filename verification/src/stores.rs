//! The records that the pull side and the push side share.

use vstd::prelude::*;

use crate::base_seq_store::{BaseSeqStore, SeqEntry};
use crate::sync_shadow;
use crate::sync_shadow::ShadowStore;
use crate::text;
use crate::tray_state::TrayState;

verus! {

/// The stores that are wired up; a missing one is neither read nor written.
pub struct SyncStores {
    pub shadow: Option<ShadowStore>,
    pub base_seq: Option<BaseSeqStore>,
    pub tray: Option<TrayState>,
}

/// `new` is `old` with `hash` filed for `path`; a store that is not there stays
/// away.
pub open spec fn shadow_recorded(
    old: Option<ShadowStore>,
    new: Option<ShadowStore>,
    path: Seq<char>,
    hash: Seq<char>,
) -> bool {
    match (old, new) {
        (None, None) => true,
        (Some(a), Some(b)) => {
            &&& b.wf()
            &&& b@ == a@.insert(sync_shadow::canon_key(a.folders(), path), hash)
            &&& b.folders() == a.folders()
            &&& b.suspect() == a.suspect()
            &&& b.is_dirty()
        },
        _ => false,
    }
}

/// `new` is `old` with version `seq` filed for `path` as adopted.
pub open spec fn adoption_recorded(
    old: Option<BaseSeqStore>,
    new: Option<BaseSeqStore>,
    path: Seq<char>,
    seq: i64,
) -> bool {
    match (old, new) {
        (None, None) => true,
        (Some(a), Some(b)) => {
            &&& b.wf()
            &&& b.folders() == a.folders()
            &&& b@ == a.updated(path, (SeqEntry { seq, adopted: true }))
        },
        _ => false,
    }
}

/// `new` is `old` without an entry for `path`.
pub open spec fn lineage_dropped(
    old: Option<BaseSeqStore>,
    new: Option<BaseSeqStore>,
    path: Seq<char>,
) -> bool {
    match (old, new) {
        (None, None) => true,
        (Some(a), Some(b)) => {
            &&& b.wf()
            &&& b.folders() == a.folders()
            &&& b@ == a@.remove(sync_shadow::canon_key(a.folders(), path))
        },
        _ => false,
    }
}

impl SyncStores {
    /// Every store that is there is internally consistent.
    pub open spec fn wf(self) -> bool {
        &&& self.shadow is Some ==> self.shadow->0.wf()
        &&& self.base_seq is Some ==> self.base_seq->0.wf()
    }

    /// The last-synced hash of `path`, as far as it is known.
    pub open spec fn synced_hash(self, path: Seq<char>) -> Option<Seq<char>> {
        match self.shadow {
            Some(s) => {
                let k = sync_shadow::canon_key(s.folders(), path);
                if s@.contains_key(k) {
                    Some(s@[k])
                } else {
                    None
                }
            },
            None => None,
        }
    }

    /// The shadow store is there and its lookups must miss.
    pub open spec fn scope_suspect(self) -> bool {
        match self.shadow {
            Some(s) => s.suspect(),
            None => false,
        }
    }

    /// The version to declare for `path`.
    pub open spec fn declared_seq(self, path: Seq<char>) -> Option<i64> {
        match self.base_seq {
            Some(s) => match s.entry(path) {
                Some(e) => Some(e.seq),
                None => None,
            },
            None => None,
        }
    }

    /// The version whose bytes were verified on the local disk.
    pub open spec fn adopted_seq(self, path: Seq<char>) -> Option<i64> {
        match self.base_seq {
            Some(s) => s.adopted_seq(path),
            None => None,
        }
    }

    /// No store wired.
    pub fn none() -> (s: SyncStores)
        ensures
            s == (SyncStores { shadow: None, base_seq: None, tray: None }),
            s.wf(),
    {
        SyncStores { shadow: None, base_seq: None, tray: None }
    }

    /// The last-synced hash of `path`.
    pub fn shadow_get(&self, path: &str) -> (r: Option<String>)
        requires
            self.wf(),
        ensures
            text::opt_text(r) == self.synced_hash(path@),
    {
        match &self.shadow {
            Some(s) => s.get(path),
            None => None,
        }
    }

    /// Whether the shadow store's lookups must miss.
    pub fn shadow_suspect(&self) -> (r: bool)
        ensures
            r == self.scope_suspect(),
    {
        match &self.shadow {
            Some(s) => s.vault_scope_suspect(),
            None => false,
        }
    }

    /// The version to declare for `path`.
    pub fn seq_get(&self, path: &str) -> (r: Option<i64>)
        requires
            self.wf(),
        ensures
            r == self.declared_seq(path@),
    {
        match &self.base_seq {
            Some(s) => s.get(path),
            None => None,
        }
    }

    /// The adopted version of `path`.
    pub fn seq_get_adopted(&self, path: &str) -> (r: Option<i64>)
        requires
            self.wf(),
        ensures
            r == self.adopted_seq(path@),
    {
        match &self.base_seq {
            Some(s) => s.get_adopted(path),
            None => None,
        }
    }

    /// Files `hash` as the last-synced hash of `path`.
    pub fn record_shadow(&mut self, path: &str, hash: &str)
        requires
            old(self).wf(),
        ensures
            final(self).wf(),
            shadow_recorded(old(self).shadow, final(self).shadow, path@, hash@),
            final(self).base_seq == old(self).base_seq,
            final(self).tray == old(self).tray,
    {
        match &mut self.shadow {
            Some(s) => {
                s.record(path, hash);
            },
            None => {},
        }
    }

    /// Files version `seq` of `path` as adopted.
    pub fn record_adopted(&mut self, path: &str, seq: i64)
        requires
            old(self).wf(),
        ensures
            final(self).wf(),
            adoption_recorded(old(self).base_seq, final(self).base_seq, path@, seq),
            final(self).shadow == old(self).shadow,
            final(self).tray == old(self).tray,
    {
        match &mut self.base_seq {
            Some(s) => {
                s.record_adopted(path, seq);
            },
            None => {},
        }
    }

    /// Forgets the version of `path`.
    pub fn drop_lineage(&mut self, path: &str)
        requires
            old(self).wf(),
        ensures
            final(self).wf(),
            lineage_dropped(old(self).base_seq, final(self).base_seq, path@),
            final(self).shadow == old(self).shadow,
            final(self).tray == old(self).tray,
    {
        match &mut self.base_seq {
            Some(s) => {
                s.remove(path);
            },
            None => {},
        }
    }
}

/// What is filed for a path is found for it.
pub proof fn law_recorded_hash_is_read_back(
    before: SyncStores,
    after: SyncStores,
    path: Seq<char>,
    hash: Seq<char>,
)
    requires
        before.shadow is Some,
        shadow_recorded(before.shadow, after.shadow, path, hash),
    ensures
        after.synced_hash(path) == Some(hash),
{
}

/// An adopted version is both the one to declare and the one proven on disk;
/// once dropped it is neither.
pub proof fn law_adopted_version_is_read_back(
    before: SyncStores,
    after: SyncStores,
    dropped: SyncStores,
    path: Seq<char>,
    seq: i64,
)
    requires
        before.base_seq is Some,
        adoption_recorded(before.base_seq, after.base_seq, path, seq),
        lineage_dropped(after.base_seq, dropped.base_seq, path),
    ensures
        after.declared_seq(path) == Some(seq),
        after.adopted_seq(path) == Some(seq),
        dropped.declared_seq(path) is None,
        dropped.adopted_seq(path) is None,
{
}

/// A store that is not there knows nothing and raises no suspicion; one that is
/// there answers for itself.
pub proof fn law_missing_store_knows_nothing(
    st: &SyncStores,
    path: &str,
    hash: Option<String>,
    suspect: bool,
    seq: Option<i64>,
    adopted: Option<i64>,
    shadow: &ShadowStore,
    own: bool,
    own_hash: Option<String>,
)
    requires
        call_ensures(SyncStores::shadow_get, (st, path), hash),
        call_ensures(SyncStores::shadow_suspect, (st,), suspect),
        call_ensures(SyncStores::seq_get, (st, path), seq),
        call_ensures(SyncStores::seq_get_adopted, (st, path), adopted),
        call_ensures(ShadowStore::vault_scope_suspect, (shadow,), own),
        call_ensures(ShadowStore::get, (shadow, path), own_hash),
    ensures
        st.shadow is None ==> hash is None && !suspect,
        st.base_seq is None ==> seq is None && adopted is None,
        st.shadow == Some(*shadow) ==> suspect == own && text::opt_text(hash) == text::opt_text(
            own_hash,
        ),
        adopted is Some ==> adopted == seq,
{
}

/// What is recorded in the stores is what they answer, and a path whose lineage was
/// dropped has no version.
pub proof fn law_stores_answer_what_was_recorded(
    a: &mut SyncStores,
    b: &mut SyncStores,
    c: &mut SyncStores,
    path: &str,
    hash: &str,
    seq: i64,
    first: SyncStores,
    second: SyncStores,
    third: SyncStores,
    got: Option<String>,
    version: Option<i64>,
    forgotten: Option<i64>,
)
    requires
        call_ensures(SyncStores::record_shadow, (a, path, hash), ()),
        call_ensures(SyncStores::record_adopted, (b, path, seq), ()),
        call_ensures(SyncStores::drop_lineage, (c, path), ()),
        first == *final(a),
        second == *final(b),
        third == *final(c),
        call_ensures(SyncStores::shadow_get, (&first, path), got),
        call_ensures(SyncStores::seq_get_adopted, (&second, path), version),
        call_ensures(SyncStores::seq_get, (&third, path), forgotten),
    ensures
        old(a).shadow is Some ==> got is Some && got->0@ == hash@,
        old(b).base_seq is Some ==> version == Some(seq),
        forgotten is None,
        final(a).base_seq == old(a).base_seq,
        final(b).shadow == old(b).shadow,
        final(c).shadow == old(c).shadow,
{
}

} // verus!
