//! Proof that a server revision was fetched and its body checked.
//!
//! A sequence number alone authorises nothing: a baseline may be declared to
//! the server only where a receipt exists, and a receipt comes only out of
//! [`verify_receipt`].

use vstd::prelude::*;

use crate::digest;
use crate::path_map;
use crate::path_map::PathMap;
use crate::sync_shadow;
use crate::text;

verus! {

/// A verified fetch of one revision: its sequence number and the hash of the
/// body that was fetched.
#[derive(Debug, PartialEq, Eq)]
pub struct Receipt {
    /// The server's revision token.
    pub revision_seq: i64,
    /// Hash of the fetched body.
    pub body_sha: String,
}

impl Clone for Receipt {
    fn clone(&self) -> (r: Receipt)
        ensures
            r == *self,
    {
        Receipt { revision_seq: self.revision_seq, body_sha: self.body_sha.clone() }
    }
}

/// The body hashes to what the server declared for it and, where the server
/// also named the head, to that.
pub open spec fn body_verified(
    body: Seq<u8>,
    declared: Seq<char>,
    head: Option<Seq<char>>,
) -> bool {
    &&& digest::content_hash(body) == declared
    &&& head matches Some(h) ==> digest::content_hash(body) == h
}

/// The text of an optional slice.
pub open spec fn opt_str(s: Option<&str>) -> Option<Seq<char>> {
    match s {
        Some(x) => Some(x@),
        None => None,
    }
}

/// Checks a fetched revision body. A receipt comes out exactly when the server
/// gave a sequence number and the body verifies; it carries that number and the
/// hash of that body.
pub fn verify_receipt(
    body: &[u8],
    declared_sha: &str,
    expected_head_sha: Option<&str>,
    revision_seq: Option<i64>,
) -> (r: Option<Receipt>)
    ensures
        r is Some <==> revision_seq is Some && body_verified(
            body@,
            declared_sha@,
            opt_str(expected_head_sha),
        ),
        r is Some ==> r->0.revision_seq == revision_seq->0 && r->0.body_sha@
            == digest::content_hash(body@),
{
    match revision_seq {
        None => None,
        Some(seq) => {
            let actual = digest::sha256_hex(body);
            if !text::str_eq(actual.as_str(), declared_sha) {
                return None;
            }
            if let Some(head) = expected_head_sha {
                if !text::str_eq(actual.as_str(), head) {
                    return None;
                }
            }
            Some(Receipt { revision_seq: seq, body_sha: actual })
        },
    }
}

/// The pairs of a receipt file under canonical keys; of several pairs with one
/// canonical key the first counts.
pub open spec fn rekeyed(
    folders: Seq<Seq<char>>,
    pairs: Seq<(String, Receipt)>,
) -> Map<Seq<char>, Receipt>
    decreases pairs.len(),
{
    if pairs.len() == 0 {
        Map::empty()
    } else {
        let m = rekeyed(folders, pairs.drop_last());
        let k = sync_shadow::canon_key(folders, pairs.last().0@);
        if m.contains_key(k) {
            m
        } else {
            m.insert(k, pairs.last().1)
        }
    }
}

/// The pairs of optional file contents.
pub open spec fn loaded_pairs(pairs: Option<Vec<(String, Receipt)>>) -> Seq<(String, Receipt)> {
    match pairs {
        Some(v) => v@,
        None => Seq::empty(),
    }
}

/// Some key of the file is not in canonical form.
pub open spec fn any_moved(folders: Seq<Seq<char>>, pairs: Seq<(String, Receipt)>) -> bool {
    exists|i: int|
        0 <= i < pairs.len() && sync_shadow::canon_key(folders, (#[trigger] pairs[i]).0@)
            != pairs[i].0@
}

/// Verified receipts by canonical path.
pub struct ReadReceiptStore {
    entries: PathMap<Receipt>,
    vault_folders: Vec<String>,
    dirty: bool,
}

impl View for ReadReceiptStore {
    type V = Map<Seq<char>, Receipt>;

    closed spec fn view(&self) -> Map<Seq<char>, Receipt> {
        self.entries@
    }
}

impl ReadReceiptStore {
    /// The store is internally consistent.
    pub closed spec fn wf(self) -> bool {
        self.entries.wf()
    }

    /// The vault folders whose prefix is stripped off keys.
    pub closed spec fn folders(self) -> Seq<Seq<char>> {
        text::views(self.vault_folders@)
    }

    /// Something changed since the last flush.
    pub closed spec fn is_dirty(self) -> bool {
        self.dirty
    }

    /// The store that a receipt file stands for, with no vault folder known.
    pub fn load(pairs: Option<Vec<(String, Receipt)>>) -> (s: ReadReceiptStore)
        ensures
            s.wf(),
            s@.dom().finite(),
            s.folders() == Seq::<Seq<char>>::empty(),
            s@ == rekeyed(s.folders(), loaded_pairs(pairs)),
            s.is_dirty() == any_moved(s.folders(), loaded_pairs(pairs)),
    {
        let s = ReadReceiptStore::load_with_vault_folders(pairs, Vec::new());
        assert(s.folders() =~= Seq::<Seq<char>>::empty());
        s
    }

    /// The store that the pairs of a receipt file stand for; `None` where the
    /// file is missing, unreadable or corrupt. No pairs, no authorised
    /// baselines.
    pub fn load_with_vault_folders(
        pairs: Option<Vec<(String, Receipt)>>,
        vault_folders: Vec<String>,
    ) -> (s: ReadReceiptStore)
        ensures
            s.wf(),
            s@.dom().finite(),
            s.folders() == sync_shadow::canonical_folders(text::views(vault_folders@)),
            s@ == rekeyed(s.folders(), loaded_pairs(pairs)),
            s.is_dirty() == any_moved(s.folders(), loaded_pairs(pairs)),
    {
        let ghost all = loaded_pairs(pairs);
        let raw: Vec<(String, Receipt)> = match pairs {
            Some(v) => v,
            None => Vec::new(),
        };
        assert(raw@ == all);
        let folders = sync_shadow::canonicalize_folders(vault_folders.as_slice());
        let ghost fs = text::views(folders@);
        let mut entries: PathMap<Receipt> = PathMap::new();
        let mut moved = false;
        let mut i: usize = 0;
        while i < raw.len()
            invariant
                i <= raw@.len(),
                raw@ == all,
                fs == text::views(folders@),
                entries.wf(),
                entries@ == rekeyed(fs, all.subrange(0, i as int)),
                moved == any_moved(fs, all.subrange(0, i as int)),
            decreases raw@.len() - i,
        {
            let nk = sync_shadow::canonical_key(folders.as_slice(), raw[i].0.as_str());
            let same = text::str_eq(nk.as_str(), raw[i].0.as_str());
            proof {
                let upto = all.subrange(0, i + 1);
                let prev = all.subrange(0, i as int);
                assert(upto.drop_last() =~= prev);
                if any_moved(fs, prev) {
                    let j = choose|j: int|
                        0 <= j < prev.len() && sync_shadow::canon_key(fs, (#[trigger] prev[j]).0@)
                            != prev[j].0@;
                    assert(upto[j] == prev[j]);
                }
                if !same {
                    assert(sync_shadow::canon_key(fs, upto[i as int].0@) != upto[i as int].0@);
                }
                if any_moved(fs, upto) && same {
                    let j = choose|j: int|
                        0 <= j < upto.len() && sync_shadow::canon_key(fs, (#[trigger] upto[j]).0@)
                            != upto[j].0@;
                    assert(prev[j] == upto[j]);
                }
            }
            if !same {
                moved = true;
            }
            entries.insert_if_absent(nk, raw[i].1.clone());
            i = i + 1;
        }
        proof {
            assert(all.subrange(0, all.len() as int) =~= all);
            entries.lemma_finite();
        }
        ReadReceiptStore { entries, vault_folders: folders, dirty: moved }
    }

    /// Files a verified receipt for `path`. There is no way to file a bare
    /// number.
    pub fn record_verified(&mut self, path: &str, receipt: Receipt)
        requires
            old(self).wf(),
        ensures
            final(self).wf(),
            final(self)@ == old(self)@.insert(
                sync_shadow::canon_key(old(self).folders(), path@),
                receipt,
            ),
            final(self)@.dom().finite(),
            final(self)@.len() == old(self)@.len() + (if old(self)@.contains_key(
                sync_shadow::canon_key(old(self).folders(), path@),
            ) {
                0int
            } else {
                1int
            }),
            sync_shadow::canonical_path(sync_shadow::canon_key(old(self).folders(), path@))
                == sync_shadow::canon_key(old(self).folders(), path@),
            final(self).is_dirty(),
            final(self).folders() == old(self).folders(),
    {
        proof {
            self.entries.lemma_finite();
        }
        let key = sync_shadow::canonical_key(self.vault_folders.as_slice(), path);
        self.entries.insert(key, receipt);
        self.dirty = true;
    }

    /// The receipt filed for `path`; `None` means no authorised baseline.
    pub fn get(&self, path: &str) -> (r: Option<Receipt>)
        requires
            self.wf(),
        ensures
            r is Some <==> self@.contains_key(sync_shadow::canon_key(self.folders(), path@)),
            r is Some ==> r->0 == self@[sync_shadow::canon_key(self.folders(), path@)],
    {
        let key = sync_shadow::canonical_key(self.vault_folders.as_slice(), path);
        match self.entries.get(key.as_str()) {
            Some(v) => Some(v.clone()),
            None => None,
        }
    }

    /// Drops the receipt of `path`. Only a receipt that was there makes the
    /// store dirty.
    pub fn remove(&mut self, path: &str)
        requires
            old(self).wf(),
        ensures
            final(self).wf(),
            final(self)@ == old(self)@.remove(sync_shadow::canon_key(old(self).folders(), path@)),
            final(self)@.dom().finite(),
            final(self).is_dirty() == (old(self).is_dirty() || old(self)@.contains_key(
                sync_shadow::canon_key(old(self).folders(), path@),
            )),
            final(self).folders() == old(self).folders(),
    {
        let key = sync_shadow::canonical_key(self.vault_folders.as_slice(), path);
        proof {
            self.entries.lemma_finite();
        }
        let gone = self.entries.remove(key.as_str());
        if gone {
            self.dirty = true;
        }
    }

    /// The number of receipts.
    pub fn len(&self) -> (n: usize)
        requires
            self.wf(),
        ensures
            n == self@.len(),
            self@.dom().finite(),
    {
        self.entries.len()
    }

    /// Whether there is no receipt.
    pub fn is_empty(&self) -> (r: bool)
        requires
            self.wf(),
        ensures
            r == (self@.len() == 0),
    {
        self.len() == 0
    }

    /// The pairs to persist; `None` when nothing changed since the last flush.
    pub fn flush(&self) -> (r: Option<&Vec<(String, Receipt)>>)
        requires
            self.wf(),
        ensures
            r is Some <==> self.is_dirty(),
            r is Some ==> path_map::distinct_keys(r->0@) && path_map::pairs_map(r->0@)
                == self@,
    {
        if self.dirty {
            Some(self.entries.entries())
        } else {
            None
        }
    }

    /// Notes that the pairs given by [`flush`](Self::flush) have reached the
    /// disk.
    pub fn mark_flushed(&mut self)
        requires
            old(self).wf(),
        ensures
            final(self).wf(),
            final(self)@ == old(self)@,
            !final(self).is_dirty(),
            final(self).folders() == old(self).folders(),
    {
        self.dirty = false;
    }
}

/// Re-keying invents nothing: every receipt in the store stands in the file
/// under a key with that canonical form, and every key of the file is answered.
pub proof fn law_rekeyed_is_faithful(folders: Seq<Seq<char>>, pairs: Seq<(String, Receipt)>)
    ensures
        forall|k: Seq<char>| #[trigger]
            rekeyed(folders, pairs).contains_key(k) ==> exists|i: int|
                0 <= i < pairs.len() && sync_shadow::canon_key(
                    folders,
                    (#[trigger] pairs[i]).0@,
                ) == k && rekeyed(folders, pairs)[k] == pairs[i].1,
        forall|i: int|
            0 <= i < pairs.len() ==> rekeyed(folders, pairs).contains_key(
                sync_shadow::canon_key(folders, (#[trigger] pairs[i]).0@),
            ),
    decreases pairs.len(),
{
    if pairs.len() > 0 {
        let t = pairs.drop_last();
        law_rekeyed_is_faithful(folders, t);
        assert forall|k: Seq<char>| #[trigger]
            rekeyed(folders, pairs).contains_key(k) implies exists|i: int|
            0 <= i < pairs.len() && sync_shadow::canon_key(folders, (#[trigger] pairs[i]).0@) == k
                && rekeyed(folders, pairs)[k] == pairs[i].1 by {
            if rekeyed(folders, t).contains_key(k) {
                let i = choose|i: int|
                    0 <= i < t.len() && sync_shadow::canon_key(folders, (#[trigger] t[i]).0@) == k
                        && rekeyed(folders, t)[k] == t[i].1;
                assert(pairs[i] == t[i]);
            } else {
                assert(pairs[pairs.len() - 1] == pairs.last());
            }
        }
        assert forall|i: int| 0 <= i < pairs.len() implies rekeyed(folders, pairs).contains_key(
            sync_shadow::canon_key(folders, (#[trigger] pairs[i]).0@),
        ) by {
            if i < t.len() {
                assert(t[i] == pairs[i]);
            }
        }
    }
}

/// A store whose keys are all canonical comes back from the pairs it gave to be
/// persisted, in whatever order they are read: every path is answered as before,
/// and nothing is left to flush.
pub proof fn law_flush_then_load(
    folders: Seq<Seq<char>>,
    stored: Map<Seq<char>, Receipt>,
    pairs: Seq<(String, Receipt)>,
)
    requires
        path_map::distinct_keys(pairs),
        path_map::pairs_map(pairs) == stored,
        sync_shadow::keys_settled(folders, stored),
    ensures
        rekeyed(folders, pairs) == stored,
        !any_moved(folders, pairs),
{
    let loaded = rekeyed(folders, pairs);
    law_rekeyed_is_faithful(folders, pairs);
    assert forall|i: int| 0 <= i < pairs.len() implies sync_shadow::canon_key(
        folders,
        (#[trigger] pairs[i]).0@,
    ) == pairs[i].0@ by {
        path_map::lemma_pairs_at(pairs, i);
    }
    assert forall|k: Seq<char>| loaded.contains_key(k) == stored.contains_key(k) by {
        path_map::lemma_pairs_dom(pairs, k);
    }
    assert forall|k: Seq<char>| loaded.contains_key(k) implies loaded[k] == stored[k] by {
        let i = choose|i: int|
            0 <= i < pairs.len() && sync_shadow::canon_key(folders, (#[trigger] pairs[i]).0@) == k
                && loaded[k] == pairs[i].1;
        path_map::lemma_pairs_at(pairs, i);
    }
    assert(loaded =~= stored);
}

/// A receipt that was filed is found again under every spelling with the same
/// key, and a removed one is not.
pub proof fn law_record_get_remove(
    folders: Seq<Seq<char>>,
    m: Map<Seq<char>, Receipt>,
    path: Seq<char>,
    asked: Seq<char>,
    receipt: Receipt,
)
    requires
        sync_shadow::canon_key(folders, asked) == sync_shadow::canon_key(folders, path),
    ensures
        m.insert(sync_shadow::canon_key(folders, path), receipt).contains_key(
            sync_shadow::canon_key(folders, asked),
        ),
        m.insert(sync_shadow::canon_key(folders, path), receipt)[sync_shadow::canon_key(
            folders,
            asked,
        )] == receipt,
        !m.remove(sync_shadow::canon_key(folders, path)).contains_key(
            sync_shadow::canon_key(folders, asked),
        ),
{
}

/// A receipt is issued exactly for a body that has the hash the server declared,
/// and the head's hash where one is named, and only with a revision; it carries
/// that revision and the hash of that very body.
pub proof fn law_receipt_proves_the_body(
    body: &[u8],
    declared: &str,
    head: Option<&str>,
    seq: Option<i64>,
    r: Option<Receipt>,
)
    requires
        call_ensures(verify_receipt, (body, declared, head, seq), r),
    ensures
        r is Some <==> seq is Some && digest::content_hash(body@) == declared@ && (head is None
            || digest::content_hash(body@) == head->0@),
        r is Some ==> r->0.revision_seq == seq->0 && r->0.body_sha@ == digest::content_hash(body@),
{
}

/// A receipt that was filed is found for its path, one that was dropped is not, and
/// the receipts of paths with another key are left alone.
pub proof fn law_filed_receipt_is_found(
    store: &mut ReadReceiptStore,
    before: ReadReceiptStore,
    after: ReadReceiptStore,
    path: &str,
    receipt: Receipt,
    asked: &str,
    r: Option<Receipt>,
    earlier: Option<Receipt>,
)
    requires
        call_ensures(ReadReceiptStore::record_verified, (store, path, receipt), ()),
        before == *old(store),
        after == *final(store),
        call_ensures(ReadReceiptStore::get, (&after, asked), r),
        call_ensures(ReadReceiptStore::get, (&before, asked), earlier),
    ensures
        sync_shadow::canon_key(before.folders(), asked@) == sync_shadow::canon_key(
            before.folders(),
            path@,
        ) ==> r == Some(receipt),
        sync_shadow::canon_key(before.folders(), asked@) != sync_shadow::canon_key(
            before.folders(),
            path@,
        ) ==> r == earlier,
        after.is_dirty(),
{
}

/// A dropped receipt authorises nothing any more, and only it is dropped.
pub proof fn law_dropped_receipt_is_gone(
    store: &mut ReadReceiptStore,
    before: ReadReceiptStore,
    after: ReadReceiptStore,
    path: &str,
    asked: &str,
    r: Option<Receipt>,
    earlier: Option<Receipt>,
)
    requires
        call_ensures(ReadReceiptStore::remove, (store, path), ()),
        before == *old(store),
        after == *final(store),
        call_ensures(ReadReceiptStore::get, (&after, asked), r),
        call_ensures(ReadReceiptStore::get, (&before, asked), earlier),
    ensures
        sync_shadow::canon_key(before.folders(), asked@) == sync_shadow::canon_key(
            before.folders(),
            path@,
        ) ==> r is None,
        sync_shadow::canon_key(before.folders(), asked@) != sync_shadow::canon_key(
            before.folders(),
            path@,
        ) ==> r == earlier,
        !before.is_dirty() && after.is_dirty() ==> before@ != after@,
{
}

/// Of several entries of a file with one key the first counts.
pub proof fn law_first_receipt_counts(
    folders: Seq<Seq<char>>,
    pairs: Seq<(String, Receipt)>,
    i: int,
)
    requires
        0 <= i < pairs.len(),
        forall|j: int|
            0 <= j < i ==> sync_shadow::canon_key(folders, (#[trigger] pairs[j]).0@)
                != sync_shadow::canon_key(folders, pairs[i].0@),
    ensures
        rekeyed(folders, pairs).contains_key(sync_shadow::canon_key(folders, pairs[i].0@)),
        rekeyed(folders, pairs)[sync_shadow::canon_key(folders, pairs[i].0@)] == pairs[i].1,
    decreases pairs.len(),
{
    let t = pairs.drop_last();
    let k = sync_shadow::canon_key(folders, pairs[i].0@);
    if i < t.len() {
        assert(t[i] == pairs[i]);
        assert forall|j: int| 0 <= j < i implies sync_shadow::canon_key(
            folders,
            (#[trigger] t[j]).0@,
        ) != sync_shadow::canon_key(folders, t[i].0@) by {
            assert(t[j] == pairs[j]);
        }
        law_first_receipt_counts(folders, t, i);
    } else {
        law_rekeyed_is_faithful(folders, t);
        if rekeyed(folders, t).contains_key(k) {
            let j = choose|j: int|
                0 <= j < t.len() && sync_shadow::canon_key(folders, (#[trigger] t[j]).0@) == k
                    && rekeyed(folders, t)[k] == t[j].1;
            assert(t[j] == pairs[j]);
        }
    }
}

/// A receipt file that is missing or broken authorises nothing; otherwise the store
/// holds its receipts under canonical keys.
pub proof fn law_missing_receipts_authorise_nothing(
    pairs: Option<Vec<(String, Receipt)>>,
    folders: Vec<String>,
    s: ReadReceiptStore,
    path: &str,
    r: Option<Receipt>,
)
    requires
        call_ensures(ReadReceiptStore::load_with_vault_folders, (pairs, folders), s),
        call_ensures(ReadReceiptStore::get, (&s, path), r),
    ensures
        pairs is None ==> r is None && !s.is_dirty(),
        pairs is Some && r is Some ==> exists|i: int|
            0 <= i < pairs->0@.len() && sync_shadow::canon_key(
                s.folders(),
                (#[trigger] pairs->0@[i]).0@,
            ) == sync_shadow::canon_key(s.folders(), path@) && pairs->0@[i].1 == r->0,
        pairs is Some && r is None ==> forall|i: int|
            0 <= i < pairs->0@.len() ==> sync_shadow::canon_key(
                s.folders(),
                (#[trigger] pairs->0@[i]).0@,
            ) != sync_shadow::canon_key(s.folders(), path@),
{
    law_rekeyed_is_faithful(s.folders(), loaded_pairs(pairs));
}

/// Loaded receipts have to be written back exactly where a key of their file was not
/// in canonical form.
pub proof fn law_rekeyed_receipts_are_written_back(
    pairs: Option<Vec<(String, Receipt)>>,
    folders: Vec<String>,
    s: ReadReceiptStore,
)
    requires
        call_ensures(ReadReceiptStore::load_with_vault_folders, (pairs, folders), s),
    ensures
        s.is_dirty() <==> pairs is Some && exists|i: int|
            0 <= i < pairs->0@.len() && sync_shadow::canon_key(
                s.folders(),
                (#[trigger] pairs->0@[i]).0@,
            ) != pairs->0@[i].0@,
{
}

} // verus!
