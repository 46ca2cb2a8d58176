//! The session-scoped case-fold ledger: maps each lower-cased relative path
//! prefix to the first-seen, case-preserved rendering of that prefix, so
//! that entries differing only in letter case land in one host directory.
use vstd::prelude::*;

use crate::transcode::lower_chars;

verus! {

/// One recorded prefix: the lower-cased key and its first-seen casing.
struct CacheEntry {
    key: String,
    path: String,
}

/// The case-fold cache, owned by the path resolver for one extraction
/// session. Viewed as a map from lower-cased prefix to recorded casing.
pub struct DirCache {
    entries: Vec<CacheEntry>,
}

/// Every key of the ledger is the lower-cased form of the casing it
/// records.
pub open spec fn cache_folded(m: Map<Seq<char>, Seq<char>>) -> bool {
    forall|k: Seq<char>| #[trigger] m.contains_key(k) ==> k == lower_chars(m[k])
}

spec fn entries_map(es: Seq<CacheEntry>) -> Map<Seq<char>, Seq<char>>
    decreases es.len(),
{
    if es.len() == 0 {
        Map::empty()
    } else {
        entries_map(es.drop_last()).insert(es.last().key@, es.last().path@)
    }
}

impl View for DirCache {
    type V = Map<Seq<char>, Seq<char>>;

    closed spec fn view(&self) -> Map<Seq<char>, Seq<char>> {
        entries_map(self.entries@)
    }
}

proof fn lemma_entries_map(es: Seq<CacheEntry>)
    ensures
        forall|k: Seq<char>|
            #[trigger] entries_map(es).contains_key(k) <==> exists|i: int|
                0 <= i < es.len() && es[i].key@ == k,
    decreases es.len(),
{
    if es.len() > 0 {
        lemma_entries_map(es.drop_last());
        assert forall|k: Seq<char>| entries_map(es).contains_key(k) implies exists|i: int|
            0 <= i < es.len() && es[i].key@ == k by {
            if k == es.last().key@ {
                assert(es[es.len() - 1].key@ == k);
            } else {
                assert(entries_map(es.drop_last()).contains_key(k));
                let i = choose|i: int|
                    0 <= i < es.drop_last().len() && es.drop_last()[i].key@ == k;
                assert(es.drop_last()[i] == es[i]);
                assert(es[i].key@ == k);
            }
        }
        assert forall|k: Seq<char>|
            (exists|i: int| 0 <= i < es.len() && es[i].key@ == k) implies entries_map(
            es,
        ).contains_key(k) by {
            let i = choose|i: int| 0 <= i < es.len() && es[i].key@ == k;
            if i == es.len() - 1 {
                assert(es.last().key@ == k);
            } else {
                assert(es.drop_last()[i].key@ == k);
                assert(0 <= i < es.drop_last().len());
                assert(entries_map(es.drop_last()).contains_key(k));
            }
        }
    }
}

proof fn lemma_entries_map_at(es: Seq<CacheEntry>, i: int)
    requires
        0 <= i < es.len(),
        forall|a: int, b: int| 0 <= a < b < es.len() ==> es[a].key@ != es[b].key@,
    ensures
        entries_map(es).contains_key(es[i].key@),
        entries_map(es)[es[i].key@] == es[i].path@,
    decreases es.len(),
{
    if i == es.len() - 1 {
    } else {
        lemma_entries_map_at(es.drop_last(), i);
        assert(es.drop_last()[i] == es[i]);
        assert(es[i].key@ != es.last().key@);
    }
}

impl DirCache {
    /// The stored entries carry distinct keys, and each key is the
    /// lower-cased form of the casing it records.
    pub closed spec fn wf(&self) -> bool {
        (forall|a: int, b: int|
            0 <= a < b < self.entries@.len() ==> self.entries@[a].key@ != self.entries@[b].key@)
            && (forall|i: int|
            0 <= i < self.entries@.len() ==> (#[trigger] self.entries@[i].key)@ == lower_chars(
                self.entries@[i].path@,
            ))
    }

    /// A well-formed ledger is case-folded entry by entry.
    pub proof fn lemma_wf_folded(&self)
        requires
            self.wf(),
        ensures
            cache_folded(self@),
    {
        lemma_entries_map(self.entries@);
        assert forall|k: Seq<char>| #[trigger] self@.contains_key(k) implies k == lower_chars(
            self@[k],
        ) by {
            let i = choose|i: int| 0 <= i < self.entries@.len() && self.entries@[i].key@ == k;
            lemma_entries_map_at(self.entries@, i);
        }
    }

    /// A fresh, empty ledger.
    pub fn new() -> (r: DirCache)
        ensures
            r@ == Map::<Seq<char>, Seq<char>>::empty(),
            r.wf(),
    {
        DirCache { entries: Vec::new() }
    }

    /// Looks a lower-cased prefix up, handing back the recorded casing.
    pub fn lookup(&self, key: &String) -> (r: Option<String>)
        requires
            self.wf(),
        ensures
            match r {
                Some(p) => self@.contains_key(key@) && p@ == self@[key@],
                None => !self@.contains_key(key@),
            },
    {
        let mut i: usize = 0;
        while i < self.entries.len()
            invariant
                self.wf(),
                i <= self.entries@.len(),
                forall|j: int| 0 <= j < i ==> self.entries@[j].key@ != key@,
            decreases self.entries@.len() - i,
        {
            if self.entries[i].key.eq(key) {
                proof {
                    lemma_entries_map_at(self.entries@, i as int);
                }
                return Some(self.entries[i].path.clone());
            }
            i = i + 1;
        }
        proof {
            lemma_entries_map(self.entries@);
        }
        None
    }

    /// Records the first-seen casing of a prefix not yet in the ledger.
    pub fn insert(&mut self, key: String, path: String)
        requires
            old(self).wf(),
            !old(self)@.contains_key(key@),
            key@ == lower_chars(path@),
        ensures
            final(self).wf(),
            final(self)@ == old(self)@.insert(key@, path@),
    {
        proof {
            lemma_entries_map(self.entries@);
        }
        let ghost prev = self.entries@;
        self.entries.push(CacheEntry { key, path });
        proof {
            assert(self.entries@.drop_last() =~= prev);
            assert forall|a: int, b: int|
                0 <= a < b < self.entries@.len() implies self.entries@[a].key@
                != self.entries@[b].key@ by {
                if b == self.entries@.len() - 1 {
                    assert(prev[a].key@ == self.entries@[a].key@);
                }
            }
        }
    }
}

} // verus!
