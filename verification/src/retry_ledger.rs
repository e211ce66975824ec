//! A durable record of pulls that failed.
//!
//! A failed pull is tried again anyway; the ledger makes it visible that it is
//! stuck. Losing the ledger loses history, never data.

use vstd::prelude::*;

use crate::path_map;
use crate::path_map::PathMap;
use crate::text;

verus! {

/// What is known of a stuck note.
#[derive(Debug, PartialEq, Eq)]
pub struct RetryEntry {
    pub path: String,
    /// The last error, cut to size.
    pub last_error: String,
    /// Unix seconds of the first failure.
    pub first_failed_ts: u64,
    /// Unix seconds of the last failure.
    pub last_attempt_ts: u64,
    pub attempts: u32,
}

impl Clone for RetryEntry {
    fn clone(&self) -> (r: RetryEntry)
        ensures
            r == *self,
    {
        RetryEntry {
            path: self.path.clone(),
            last_error: self.last_error.clone(),
            first_failed_ts: self.first_failed_ts,
            last_attempt_ts: self.last_attempt_ts,
            attempts: self.attempts,
        }
    }
}

/// The longest error that is kept, in bytes of UTF-8.
pub const ERROR_CAP: usize = 512;

/// Bytes of a character in UTF-8.
pub open spec fn char_width(c: char) -> nat {
    if c as u32 <= 0x7f {
        1
    } else if c as u32 <= 0x7ff {
        2
    } else if c as u32 <= 0xffff {
        3
    } else {
        4
    }
}

/// Bytes of a text in UTF-8.
pub open spec fn text_width(s: Seq<char>) -> nat
    decreases s.len(),
{
    if s.len() == 0 {
        0
    } else {
        text_width(s.drop_last()) + char_width(s.last())
    }
}

/// The longest prefix of `s` of at most `max` bytes, where `s` has more.
pub open spec fn is_cut(s: Seq<char>, max: nat, n: int) -> bool {
    &&& 0 <= n < s.len()
    &&& text_width(s.subrange(0, n)) <= max
    &&& text_width(s.subrange(0, n + 1)) > max
}

/// `r` is `s` where it has at most `max` bytes, and otherwise what fits of it with
/// three dots behind.
pub open spec fn is_truncated(s: Seq<char>, max: nat, r: Seq<char>) -> bool {
    if text_width(s) <= max {
        r == s
    } else {
        exists|n: int| #[trigger] is_cut(s, max, n) && r == s.subrange(0, n) + "..."@
    }
}

fn width_of(c: char) -> (r: usize)
    ensures
        r == char_width(c),
{
    let n: u32 = c as u32;
    if n <= 0x7f {
        1
    } else if n <= 0x7ff {
        2
    } else if n <= 0xffff {
        3
    } else {
        4
    }
}

proof fn lemma_width_grows(s: Seq<char>, i: int)
    requires
        0 <= i <= s.len(),
    ensures
        text_width(s.subrange(0, i)) <= text_width(s),
    decreases s.len() - i,
{
    if i < s.len() {
        lemma_width_grows(s, i + 1);
        assert(s.subrange(0, i + 1).drop_last() =~= s.subrange(0, i));
    } else {
        assert(s.subrange(0, i) =~= s);
    }
}

/// Cuts a text to at most `max` bytes, at a character's boundary.
pub fn truncate(s: &str, max: usize) -> (r: String)
    ensures
        is_truncated(s@, max as nat, r@),
{
    let cs = text::chars_of(s);
    let mut n: usize = 0;
    let mut used: usize = 0;
    assert(s@.subrange(0, 0).len() == 0);
    while n < cs.len()
        invariant
            cs@ == s@,
            n <= cs@.len(),
            used == text_width(s@.subrange(0, n as int)),
            used <= max,
        decreases cs@.len() - n,
    {
        let w: usize = width_of(cs[n]);
        let ghost more = s@.subrange(0, n + 1);
        assert(more.drop_last() =~= s@.subrange(0, n as int));
        assert(text_width(more) == used + w);
        if w > max - used {
            proof {
                lemma_width_grows(s@, n + 1);
                assert(is_cut(s@, max as nat, n as int));
            }
            let mut out = text::string_of_range(cs.as_slice(), 0, n);
            out.append("...");
            return out;
        }
        used = used + w;
        n = n + 1;
    }
    assert(s@.subrange(0, n as int) =~= s@);
    s.to_string()
}

/// The ledger.
pub struct RetryLedger {
    entries: PathMap<RetryEntry>,
}

impl View for RetryLedger {
    type V = Map<Seq<char>, RetryEntry>;

    closed spec fn view(&self) -> Map<Seq<char>, RetryEntry> {
        self.entries@
    }
}

/// `e` is the entry after one more failure, given the one before.
pub open spec fn failed_again(
    before: Option<RetryEntry>,
    path: Seq<char>,
    error: Seq<char>,
    now: u64,
    e: RetryEntry,
) -> bool {
    &&& is_truncated(error, ERROR_CAP as nat, e.last_error@)
    &&& e.last_attempt_ts == now
    &&& match before {
        Some(b) => {
            &&& e.path == b.path
            &&& e.first_failed_ts == b.first_failed_ts
            &&& e.attempts == (if b.attempts == u32::MAX {
                u32::MAX
            } else {
                (b.attempts + 1) as u32
            })
        },
        None => {
            &&& e.path@ == path
            &&& e.first_failed_ts == now
            &&& e.attempts == 1
        },
    }
}

impl RetryLedger {
    /// The ledger is internally consistent.
    pub closed spec fn wf(self) -> bool {
        self.entries.wf()
    }

    /// What is known of a path.
    pub open spec fn entry(self, path: Seq<char>) -> Option<RetryEntry> {
        if self@.contains_key(path) {
            Some(self@[path])
        } else {
            None
        }
    }

    /// The ledger that a file holds; empty where there is none or it makes no
    /// sense (`None`).
    pub fn load(file: Option<Vec<(String, RetryEntry)>>) -> (l: RetryLedger)
        ensures
            l.wf(),
            l@.dom().finite(),
            l@ == (match file {
                Some(v) => path_map::pairs_map(v@),
                None => Map::empty(),
            }),
    {
        let mut entries: PathMap<RetryEntry> = PathMap::new();
        match file {
            Some(v) => {
                let mut i: usize = 0;
                assert(v@.subrange(0, 0).len() == 0);
                while i < v.len()
                    invariant
                        i <= v@.len(),
                        entries.wf(),
                        entries@ == path_map::pairs_map(v@.subrange(0, i as int)),
                    decreases v@.len() - i,
                {
                    assert(v@.subrange(0, i + 1).drop_last() =~= v@.subrange(0, i as int));
                    entries.insert(v[i].0.clone(), v[i].1.clone());
                    i = i + 1;
                }
                assert(v@.subrange(0, v@.len() as int) =~= v@);
            },
            None => {},
        }
        proof {
            entries.lemma_finite();
        }
        RetryLedger { entries }
    }

    /// Notes a failure of `path` at `now` (Unix seconds).
    pub fn record_failure(&mut self, path: &str, error: &str, now: u64)
        requires
            old(self).wf(),
        ensures
            final(self).wf(),
            final(self)@ == old(self)@.insert(path@, final(self)@[path@]),
            final(self)@.dom().finite(),
            failed_again(old(self).entry(path@), path@, error@, now, final(self)@[path@]),
    {
        let last_error = truncate(error, ERROR_CAP);
        let e = match self.entries.get(path) {
            Some(b) => RetryEntry {
                path: b.path.clone(),
                last_error,
                first_failed_ts: b.first_failed_ts,
                last_attempt_ts: now,
                attempts: b.attempts.saturating_add(1),
            },
            None => RetryEntry {
                path: path.to_string(),
                last_error,
                first_failed_ts: now,
                last_attempt_ts: now,
                attempts: 1,
            },
        };
        self.entries.insert(path.to_string(), e);
        proof {
            self.entries.lemma_finite();
        }
    }

    /// Forgets `path`. Returns whether there was anything to forget, and so
    /// something to write back.
    pub fn clear(&mut self, path: &str) -> (r: bool)
        requires
            old(self).wf(),
        ensures
            final(self).wf(),
            final(self)@ == old(self)@.remove(path@),
            final(self)@.dom().finite(),
            r == old(self)@.contains_key(path@),
    {
        proof {
            self.entries.lemma_finite();
        }
        self.entries.remove(path)
    }

    /// The number of stuck notes.
    pub fn len(&self) -> (n: usize)
        requires
            self.wf(),
        ensures
            n == self@.len(),
            self@.dom().finite(),
    {
        self.entries.len()
    }

    /// Whether no note is stuck.
    pub fn is_empty(&self) -> (r: bool)
        requires
            self.wf(),
        ensures
            r == (self@.len() == 0),
    {
        self.len() == 0
    }

    /// The pairs to write to the file.
    pub fn entries(&self) -> (r: &Vec<(String, RetryEntry)>)
        requires
            self.wf(),
        ensures
            path_map::distinct_keys(r@),
            path_map::pairs_map(r@) == self@,
    {
        self.entries.entries()
    }

    /// The entries of all stuck notes, in no promised order.
    pub fn pending(&self) -> (r: Vec<RetryEntry>)
        requires
            self.wf(),
        ensures
            r@.len() == self@.len(),
            forall|k: Seq<char>| #[trigger]
                self@.contains_key(k) ==> r@.contains(self@[k]),
            forall|i: int|
                0 <= i < r@.len() ==> exists|k: Seq<char>|
                    self@.contains_key(k) && self@[k] == #[trigger] r@[i],
    {
        let all = self.entries.entries();
        let mut out: Vec<RetryEntry> = Vec::new();
        let mut i: usize = 0;
        while i < all.len()
            invariant
                i <= all@.len(),
                out@.len() == i,
                forall|k: int| 0 <= k < i ==> out@[k] == (#[trigger] all@[k]).1,
            decreases all@.len() - i,
        {
            out.push(all[i].1.clone());
            i = i + 1;
        }
        proof {
            path_map::lemma_pairs_len(all@);
            assert forall|k: Seq<char>| #[trigger] self@.contains_key(k) implies out@.contains(
                self@[k],
            ) by {
                path_map::lemma_pairs_dom(all@, k);
                let j = choose|j: int| 0 <= j < all@.len() && (#[trigger] all@[j]).0@ == k;
                path_map::lemma_pairs_at(all@, j);
                assert(out@[j] == self@[k]);
            }
            assert forall|j: int| 0 <= j < out@.len() implies exists|k: Seq<char>|
                self@.contains_key(k) && self@[k] == #[trigger] out@[j] by {
                path_map::lemma_pairs_at(all@, j);
                assert(out@[j] == all@[j].1);
                assert(self@.contains_key(all@[j].0@));
            }
        }
        out
    }
}

/// The width of a text is the number of its bytes.
pub proof fn lemma_width_is_utf8_len(s: Seq<char>)
    ensures
        text_width(s) == vstd::utf8::encode_utf8(s).len(),
    decreases s.len(),
{
    if s.len() > 0 {
        lemma_width_is_utf8_len(s.drop_first());
        lemma_width_from_the_front(s);
        vstd::utf8::char_is_scalar(s[0]);
    }
}

proof fn lemma_width_from_the_front(s: Seq<char>)
    requires
        s.len() > 0,
    ensures
        text_width(s) == char_width(s[0]) + text_width(s.drop_first()),
    decreases s.len(),
{
    if s.len() == 1 {
        assert(text_width(s.drop_last()) == 0);
        assert(text_width(s.drop_first()) == 0);
    } else {
        lemma_width_from_the_front(s.drop_last());
        assert(s.drop_last().drop_first() =~= s.drop_first().drop_last());
        assert(s.drop_first().last() == s.last());
    }
}

/// A kept error has at most the capped number of bytes and three more.
pub proof fn law_error_is_capped(s: Seq<char>, max: nat, r: Seq<char>)
    requires
        is_truncated(s, max, r),
    ensures
        vstd::utf8::encode_utf8(r).len() <= max + 3,
{
    lemma_width_is_utf8_len(r);
    if text_width(s) > max {
        let n = choose|n: int| #[trigger] is_cut(s, max, n) && r == s.subrange(0, n) + "..."@;
        let p = s.subrange(0, n);
        reveal_strlit("...");
        let d = "..."@;
        assert(r.drop_last() =~= p + d.drop_last());
        assert(r.drop_last().drop_last() =~= p + d.drop_last().drop_last());
        assert(r.drop_last().drop_last().drop_last() =~= p);
        assert(text_width(r) == text_width(r.drop_last()) + 1);
        assert(text_width(r.drop_last()) == text_width(r.drop_last().drop_last()) + 1);
        assert(text_width(r.drop_last().drop_last()) == text_width(p) + 1);
    }
}

/// Failures of a path keep the time of the first, and clearing it forgets them.
pub proof fn law_first_failure_is_kept(
    first: RetryEntry,
    second: RetryEntry,
    path: Seq<char>,
    e1: Seq<char>,
    e2: Seq<char>,
    t1: u64,
    t2: u64,
)
    requires
        failed_again(None, path, e1, t1, first),
        failed_again(Some(first), path, e2, t2, second),
    ensures
        second.path@ == path,
        second.first_failed_ts == t1,
        second.last_attempt_ts == t2,
        second.attempts == 2,
{
}

/// What is written to the file is what is loaded from it.
pub proof fn law_written_ledger_is_loaded(
    written: RetryLedger,
    pairs: Seq<(String, RetryEntry)>,
    loaded: RetryLedger,
)
    requires
        path_map::pairs_map(pairs) == written@,
        loaded@ == path_map::pairs_map(pairs),
    ensures
        forall|k: Seq<char>| #[trigger] loaded.entry(k) == written.entry(k),
{
}

/// One more failure of a path: it is counted, its time and its error are the last
/// ones, the time of the first failure stays, and no other path is touched.
pub proof fn law_failure_is_counted(
    ledger: &mut RetryLedger,
    path: &str,
    error: &str,
    now: u64,
    other: Seq<char>,
)
    requires
        call_ensures(RetryLedger::record_failure, (ledger, path, error, now), ()),
        other != path@,
    ensures
        final(ledger).entry(other) == old(ledger).entry(other),
        final(ledger).entry(path@) is Some,
        ({
            let e = final(ledger).entry(path@)->0;
            &&& e.last_attempt_ts == now
            &&& match old(ledger).entry(path@) {
                Some(b) => {
                    &&& e.first_failed_ts == b.first_failed_ts
                    &&& e.path@ == b.path@
                    &&& b.attempts < u32::MAX ==> e.attempts == b.attempts + 1
                    &&& b.attempts == u32::MAX ==> e.attempts == u32::MAX
                },
                None => e.first_failed_ts == now && e.attempts == 1 && e.path@ == path@,
            }
            &&& vstd::utf8::encode_utf8(error@).len() <= 512 ==> e.last_error@ == error@
            &&& vstd::utf8::encode_utf8(e.last_error@).len() <= 515
        }),
{
    let e = final(ledger).entry(path@)->0;
    lemma_width_is_utf8_len(error@);
    law_error_is_capped(error@, ERROR_CAP as nat, e.last_error@);
}

/// A text is kept whole where it has at most so many bytes. Otherwise it is cut
/// behind the last character that still fits, and three dots say so.
pub proof fn law_text_is_cut_where_it_must_be(s: &str, max: usize, r: String)
    requires
        call_ensures(truncate, (s, max), r),
    ensures
        vstd::utf8::encode_utf8(s@).len() <= max ==> r@ == s@,
        vstd::utf8::encode_utf8(s@).len() > max ==> exists|n: int|
            {
                &&& 0 <= n < s@.len()
                &&& r@ == #[trigger] s@.subrange(0, n) + seq!['.', '.', '.']
                &&& vstd::utf8::encode_utf8(s@.subrange(0, n)).len() <= max
                &&& vstd::utf8::encode_utf8(s@.subrange(0, n + 1)).len() > max
            },
{
    reveal_strlit("...");
    assert("..."@ =~= seq!['.', '.', '.']);
    lemma_width_is_utf8_len(s@);
    if text_width(s@) > max {
        let n = choose|n: int| #[trigger]
            is_cut(s@, max as nat, n) && r@ == s@.subrange(0, n) + "..."@;
        lemma_width_is_utf8_len(s@.subrange(0, n));
        lemma_width_is_utf8_len(s@.subrange(0, n + 1));
    }
}

/// A path that was cleared is not stuck any more, and only it is forgotten.
pub proof fn law_cleared_path_is_forgotten(
    ledger: &mut RetryLedger,
    path: &str,
    r: bool,
    other: Seq<char>,
)
    requires
        call_ensures(RetryLedger::clear, (ledger, path), r),
        other != path@,
    ensures
        final(ledger).entry(path@) is None,
        final(ledger).entry(other) == old(ledger).entry(other),
        r <==> old(ledger).entry(path@) is Some,
{
}

/// Every stuck note is listed once, and nothing else is.
pub proof fn law_stuck_notes_are_listed(
    ledger: &RetryLedger,
    r: Vec<RetryEntry>,
    n: usize,
    none: bool,
    k: Seq<char>,
)
    requires
        call_ensures(RetryLedger::pending, (ledger,), r),
        call_ensures(RetryLedger::len, (ledger,), n),
        call_ensures(RetryLedger::is_empty, (ledger,), none),
    ensures
        r@.len() == n,
        none <==> n == 0,
        ledger@.contains_key(k) ==> r@.contains(ledger@[k]) && !none,
{
    if ledger@.contains_key(k) {
        let e = ledger@[k];
        assert(r@.contains(e));
    }
}

} // verus!
