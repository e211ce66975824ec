//! A map keyed by text, kept as a list of pairs with distinct keys.

use vstd::prelude::*;

use crate::text;

verus! {

/// The map that a list of pairs stands for; of two pairs with one key the later
/// counts.
pub open spec fn pairs_map<V>(s: Seq<(String, V)>) -> Map<Seq<char>, V>
    decreases s.len(),
{
    if s.len() == 0 {
        Map::empty()
    } else {
        pairs_map(s.drop_last()).insert(s.last().0@, s.last().1)
    }
}

/// No key occurs twice.
pub open spec fn distinct_keys<V>(s: Seq<(String, V)>) -> bool {
    forall|i: int, j: int|
        0 <= i < j < s.len() ==> (#[trigger] s[i]).0@ != (#[trigger] s[j]).0@
}

/// A pair with key `k` stands in the list.
pub open spec fn has_key<V>(s: Seq<(String, V)>, k: Seq<char>) -> bool {
    exists|i: int| 0 <= i < s.len() && (#[trigger] s[i]).0@ == k
}

/// The keys of the map are the keys of the list.
pub proof fn lemma_pairs_dom<V>(s: Seq<(String, V)>, k: Seq<char>)
    ensures
        pairs_map(s).contains_key(k) == has_key(s, k),
    decreases s.len(),
{
    if s.len() > 0 {
        let t = s.drop_last();
        lemma_pairs_dom(t, k);
        if has_key(t, k) {
            let i = choose|i: int| 0 <= i < t.len() && (#[trigger] t[i]).0@ == k;
            assert(s[i] == t[i]);
        }
        if s.last().0@ == k {
            assert(s[s.len() - 1].0@ == k);
        } else if has_key(s, k) {
            let i = choose|i: int| 0 <= i < s.len() && (#[trigger] s[i]).0@ == k;
            assert(t[i] == s[i]);
        }
    }
}

/// With distinct keys, every pair of the list is a pair of the map.
pub proof fn lemma_pairs_at<V>(s: Seq<(String, V)>, i: int)
    requires
        distinct_keys(s),
        0 <= i < s.len(),
    ensures
        pairs_map(s).contains_key(s[i].0@),
        pairs_map(s)[s[i].0@] == s[i].1,
    decreases s.len(),
{
    let t = s.drop_last();
    if i < t.len() {
        assert(t[i] == s[i]);
        assert forall|a: int, b: int| 0 <= a < b < t.len() implies (#[trigger] t[a]).0@ != (
        #[trigger] t[b]).0@ by {
            assert(t[a] == s[a] && t[b] == s[b]);
        }
        lemma_pairs_at(t, i);
        assert(s[i].0@ != s[s.len() - 1].0@);
    }
}

/// With distinct keys, the map has as many keys as the list has pairs.
pub proof fn lemma_pairs_len<V>(s: Seq<(String, V)>)
    requires
        distinct_keys(s),
    ensures
        pairs_map(s).dom().finite(),
        pairs_map(s).len() == s.len(),
    decreases s.len(),
{
    if s.len() > 0 {
        let t = s.drop_last();
        assert forall|a: int, b: int| 0 <= a < b < t.len() implies (#[trigger] t[a]).0@ != (
        #[trigger] t[b]).0@ by {
            assert(t[a] == s[a] && t[b] == s[b]);
        }
        lemma_pairs_len(t);
        lemma_pairs_dom(t, s.last().0@);
        if has_key(t, s.last().0@) {
            let i = choose|i: int| 0 <= i < t.len() && (#[trigger] t[i]).0@ == s.last().0@;
            assert(s[i] == t[i]);
            assert(s[i].0@ != s[s.len() - 1].0@);
        }
    }
}

/// A list with distinct keys is determined, as a map, by its pairs: two lists
/// with the same pairs stand for the same map.
pub proof fn lemma_pairs_ext<V>(s: Seq<(String, V)>, m: Map<Seq<char>, V>)
    requires
        distinct_keys(s),
        forall|k: Seq<char>| #[trigger] m.contains_key(k) <==> has_key(s, k),
        forall|i: int|
            0 <= i < s.len() ==> m[(#[trigger] s[i]).0@] == s[i].1,
    ensures
        pairs_map(s) == m,
{
    assert forall|k: Seq<char>| pairs_map(s).contains_key(k) == m.contains_key(k) by {
        lemma_pairs_dom(s, k);
    }
    assert forall|k: Seq<char>| pairs_map(s).contains_key(k) implies pairs_map(s)[k] == m[k] by {
        lemma_pairs_dom(s, k);
        let i = choose|i: int| 0 <= i < s.len() && (#[trigger] s[i]).0@ == k;
        lemma_pairs_at(s, i);
    }
    assert(pairs_map(s) =~= m);
}

/// A map from text to `V`.
pub struct PathMap<V> {
    entries: Vec<(String, V)>,
}

impl<V> View for PathMap<V> {
    type V = Map<Seq<char>, V>;

    closed spec fn view(&self) -> Map<Seq<char>, V> {
        pairs_map(self.entries@)
    }
}

impl<V> PathMap<V> {
    /// No key is stored twice.
    pub closed spec fn wf(self) -> bool {
        distinct_keys(self.entries@)
    }

    /// The stored pairs, in no promised order.
    pub closed spec fn pairs(self) -> Seq<(String, V)> {
        self.entries@
    }

    /// The map has finitely many keys.
    pub proof fn lemma_finite(&self)
        requires
            self.wf(),
        ensures
            self@.dom().finite(),
    {
        lemma_pairs_len(self.entries@);
    }

    /// The empty map.
    pub fn new() -> (m: PathMap<V>)
        ensures
            m.wf(),
            m@ == Map::<Seq<char>, V>::empty(),
    {
        PathMap { entries: Vec::new() }
    }

    /// The stored pairs: distinct keys, and as a map the map itself.
    pub fn entries(&self) -> (r: &Vec<(String, V)>)
        requires
            self.wf(),
        ensures
            r@ == self.pairs(),
            distinct_keys(r@),
            pairs_map(r@) == self@,
    {
        &self.entries
    }

    fn position(&self, key: &str) -> (r: Option<usize>)
        ensures
            match r {
                Some(i) => i < self.entries@.len() && self.entries@[i as int].0@ == key@,
                None => !has_key(self.entries@, key@),
            },
    {
        let mut i: usize = 0;
        while i < self.entries.len()
            invariant
                i <= self.entries@.len(),
                forall|j: int| 0 <= j < i ==> (#[trigger] self.entries@[j]).0@ != key@,
            decreases self.entries@.len() - i,
        {
            if text::str_eq(self.entries[i].0.as_str(), key) {
                return Some(i);
            }
            i = i + 1;
        }
        None
    }

    /// The value stored under `key`.
    pub fn get(&self, key: &str) -> (r: Option<&V>)
        requires
            self.wf(),
        ensures
            r is Some <==> self@.contains_key(key@),
            r is Some ==> *r->0 == self@[key@],
    {
        proof {
            lemma_pairs_dom(self.entries@, key@);
        }
        match self.position(key) {
            Some(i) => {
                proof {
                    lemma_pairs_at(self.entries@, i as int);
                }
                Some(&self.entries[i].1)
            },
            None => None,
        }
    }

    /// Whether something is stored under `key`.
    pub fn contains_key(&self, key: &str) -> (r: bool)
        requires
            self.wf(),
        ensures
            r == self@.contains_key(key@),
    {
        self.get(key).is_some()
    }

    /// Stores `value` under `key`, in place of what stood there.
    pub fn insert(&mut self, key: String, value: V)
        requires
            old(self).wf(),
        ensures
            final(self).wf(),
            final(self)@ == old(self)@.insert(key@, value),
    {
        let ghost before = self.entries@;
        match self.position(key.as_str()) {
            Some(i) => {
                let ghost k = key@;
                self.entries.set(i, (key, value));
                proof {
                    let after = self.entries@;
                    let m = pairs_map(before).insert(k, value);
                    assert(distinct_keys(after)) by {
                        assert forall|a: int, b: int| 0 <= a < b < after.len() implies (
                        #[trigger] after[a]).0@ != (#[trigger] after[b]).0@ by {
                            assert(before[a].0@ == after[a].0@ && before[b].0@ == after[b].0@);
                        }
                    }
                    assert forall|q: Seq<char>| #[trigger] m.contains_key(q) <==> has_key(
                        after,
                        q,
                    ) by {
                        lemma_pairs_dom(before, q);
                        if has_key(before, q) {
                            let a = choose|a: int|
                                0 <= a < before.len() && (#[trigger] before[a]).0@ == q;
                            assert(after[a].0@ == q);
                        }
                        if has_key(after, q) {
                            let a = choose|a: int|
                                0 <= a < after.len() && (#[trigger] after[a]).0@ == q;
                            assert(before[a].0@ == q);
                        }
                    }
                    assert forall|a: int| 0 <= a < after.len() implies m[(
                    #[trigger] after[a]).0@] == after[a].1 by {
                        if a != i {
                            assert(before[a] == after[a]);
                            lemma_pairs_at(before, a);
                            assert(before[a].0@ != before[i as int].0@);
                        }
                    }
                    lemma_pairs_ext(after, m);
                }
            },
            None => {
                self.entries.push((key, value));
                proof {
                    let after = self.entries@;
                    assert(after.drop_last() =~= before);
                    assert forall|a: int, b: int| 0 <= a < b < after.len() implies (
                    #[trigger] after[a]).0@ != (#[trigger] after[b]).0@ by {
                        assert(before[a] == after[a]);
                        if b < before.len() {
                            assert(before[b] == after[b]);
                        }
                    }
                }
            },
        }
    }

    /// Stores `value` under `key` unless something stands there.
    pub fn insert_if_absent(&mut self, key: String, value: V)
        requires
            old(self).wf(),
        ensures
            final(self).wf(),
            final(self)@ == if old(self)@.contains_key(key@) {
                old(self)@
            } else {
                old(self)@.insert(key@, value)
            },
    {
        if !self.contains_key(key.as_str()) {
            self.insert(key, value);
        }
    }

    /// Removes what is stored under `key`, and says whether there was anything.
    pub fn remove(&mut self, key: &str) -> (r: bool)
        requires
            old(self).wf(),
        ensures
            final(self).wf(),
            final(self)@ == old(self)@.remove(key@),
            r == old(self)@.contains_key(key@),
    {
        let ghost before = self.entries@;
        proof {
            lemma_pairs_dom(before, key@);
        }
        match self.position(key) {
            Some(i) => {
                let _gone = self.entries.remove(i);
                proof {
                    let after = self.entries@;
                    let m = pairs_map(before).remove(key@);
                    assert forall|a: int| 0 <= a < after.len() implies #[trigger] after[a] == (if a
                        < i {
                        before[a]
                    } else {
                        before[a + 1]
                    }) by {}
                    assert forall|a: int, b: int| 0 <= a < b < after.len() implies (
                    #[trigger] after[a]).0@ != (#[trigger] after[b]).0@ by {
                        let a0: int = if a < i { a } else { a + 1 };
                        let b0: int = if b < i { b } else { b + 1 };
                        assert(before[a0].0@ != before[b0].0@);
                    }
                    assert forall|q: Seq<char>| #[trigger] m.contains_key(q) <==> has_key(
                        after,
                        q,
                    ) by {
                        lemma_pairs_dom(before, q);
                        if q != key@ && has_key(before, q) {
                            let a = choose|a: int|
                                0 <= a < before.len() && (#[trigger] before[a]).0@ == q;
                            let a1: int = if a < i { a } else { a - 1 };
                            assert(after[a1].0@ == q);
                        }
                        if has_key(after, q) {
                            let a = choose|a: int|
                                0 <= a < after.len() && (#[trigger] after[a]).0@ == q;
                            let a0: int = if a < i { a } else { a + 1 };
                            assert(before[a0].0@ == q);
                            if a0 < i {
                                assert(before[a0].0@ != before[i as int].0@);
                            } else {
                                assert(before[i as int].0@ != before[a0].0@);
                            }
                        }
                    }
                    assert forall|a: int| 0 <= a < after.len() implies m[(
                    #[trigger] after[a]).0@] == after[a].1 by {
                        let a0: int = if a < i { a } else { a + 1 };
                        assert(after[a] == before[a0]);
                        lemma_pairs_at(before, a0);
                        if a0 < i {
                            assert(before[a0].0@ != before[i as int].0@);
                        } else {
                            assert(before[i as int].0@ != before[a0].0@);
                        }
                    }
                    lemma_pairs_ext(after, m);
                }
                true
            },
            None => {
                proof {
                    assert(self@.remove(key@) =~= self@);
                }
                false
            },
        }
    }

    /// The number of keys.
    pub fn len(&self) -> (n: usize)
        requires
            self.wf(),
        ensures
            n == self@.len(),
            self@.dom().finite(),
    {
        proof {
            lemma_pairs_len(self.entries@);
        }
        self.entries.len()
    }
}

/// What is stored under a key is found under it until it is removed, and another key
/// is not touched.
pub proof fn law_stored_value_is_found<V>(
    m: &mut PathMap<V>,
    key: String,
    value: V,
    after: PathMap<V>,
    asked: &str,
    r: Option<&V>,
    gone: &mut PathMap<V>,
    off: &str,
    was: bool,
)
    requires
        call_ensures(PathMap::<V>::insert, (m, key, value), ()),
        after == *final(m),
        call_ensures(PathMap::<V>::get, (&after, asked), r),
        call_ensures(PathMap::<V>::remove, (gone, off), was),
    ensures
        asked@ == key@ ==> r is Some && *r->0 == value,
        asked@ != key@ ==> (r is Some <==> old(m)@.contains_key(asked@)),
        asked@ != key@ && r is Some ==> *r->0 == old(m)@[asked@],
        !final(gone)@.contains_key(off@),
        was <==> old(gone)@.contains_key(off@),
        forall|k: Seq<char>|
            k != off@ ==> (#[trigger] final(gone)@.contains_key(k) <==> old(gone)@.contains_key(k)),
        forall|k: Seq<char>| #[trigger] final(gone)@.contains_key(k) ==> final(gone)@[k] == old(gone)@[k],
{
}

/// A value that is there already is not replaced by one that is only to fill a gap.
pub proof fn law_gaps_only_are_filled<V>(m: &mut PathMap<V>, key: String, value: V)
    requires
        call_ensures(PathMap::<V>::insert_if_absent, (m, key, value), ()),
    ensures
        old(m)@.contains_key(key@) ==> final(m)@ == old(m)@,
        !old(m)@.contains_key(key@) ==> final(m)@.contains_key(key@) && final(m)@[key@] == value,
        forall|k: Seq<char>|
            k != key@ ==> (#[trigger] final(m)@.contains_key(k) <==> old(m)@.contains_key(k)),
{
}

} // verus!
