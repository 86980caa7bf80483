//! An insertion-ordered map from string identifiers to values.
//!
//! Both the track catalog and the tracklist tree preserve the order in which
//! entries were inserted, so the map is kept as a sequence of key/value pairs
//! with pairwise-distinct keys. Lookups scan; the library's maps are small.

use vstd::prelude::*;

verus! {

/// First value bound to key `k` in the entry sequence `s`, if any.
pub open spec fn assoc_get<V>(s: Seq<(String, V)>, k: Seq<char>) -> Option<V>
    decreases s.len(),
{
    if s.len() == 0 {
        None
    } else if s[0].0@ == k {
        Some(s[0].1)
    } else {
        assoc_get(s.drop_first(), k)
    }
}

pub open spec fn entry_keys<V>(s: Seq<(String, V)>) -> Seq<Seq<char>> {
    s.map_values(|e: (String, V)| e.0@)
}

/// A lookup hits exactly when some entry carries the key.
pub proof fn lemma_assoc_get_some_iff<V>(s: Seq<(String, V)>, k: Seq<char>)
    ensures
        assoc_get(s, k) is Some <==> entry_keys(s).contains(k),
    decreases s.len(),
{
    if s.len() > 0 {
        if s[0].0@ == k {
            assert(entry_keys(s)[0] == k);
        } else {
            lemma_assoc_get_some_iff(s.drop_first(), k);
            assert(entry_keys(s.drop_first()) =~= entry_keys(s).drop_first());
            if entry_keys(s).contains(k) {
                let i = choose|i: int| 0 <= i < entry_keys(s).len() && entry_keys(s)[i] == k;
                assert(entry_keys(s).drop_first()[i - 1] == k);
            }
            if entry_keys(s).drop_first().contains(k) {
                let i = choose|i: int|
                    0 <= i < entry_keys(s).drop_first().len() && entry_keys(s).drop_first()[i]
                        == k;
                assert(entry_keys(s)[i + 1] == k);
            }
        }
    }
}

/// The value found at the first index whose key is `k` is the lookup result.
pub proof fn lemma_assoc_get_at_first_index<V>(s: Seq<(String, V)>, k: Seq<char>, i: int)
    requires
        0 <= i < s.len(),
        s[i].0@ == k,
        forall|j: int| 0 <= j < i ==> s[j].0@ != k,
    ensures
        assoc_get(s, k) == Some(s[i].1),
    decreases s.len(),
{
    if i > 0 {
        lemma_assoc_get_at_first_index(s.drop_first(), k, i - 1);
    }
}

/// If none of the keys is `k`, the lookup misses.
pub proof fn lemma_assoc_get_none<V>(s: Seq<(String, V)>, k: Seq<char>)
    requires
        forall|j: int| 0 <= j < s.len() ==> s[j].0@ != k,
    ensures
        assoc_get(s, k) is None,
    decreases s.len(),
{
    if s.len() > 0 {
        lemma_assoc_get_none(s.drop_first(), k);
    }
}

/// A successful lookup returns the value of some entry carrying the key.
pub proof fn lemma_assoc_get_index<V>(s: Seq<(String, V)>, k: Seq<char>)
    requires
        assoc_get(s, k) is Some,
    ensures
        exists|j: int|
            0 <= j < s.len() && (#[trigger] s[j]).0@ == k && Some(s[j].1) == assoc_get(s, k),
    decreases s.len(),
{
    if s.len() > 0 && s[0].0@ != k {
        lemma_assoc_get_index(s.drop_first(), k);
        let j = choose|j: int|
            0 <= j < s.drop_first().len() && (#[trigger] s.drop_first()[j]).0@ == k && Some(
                s.drop_first()[j].1,
            ) == assoc_get(s.drop_first(), k);
        assert(s[j + 1].0@ == k && Some(s[j + 1].1) == assoc_get(s, k));
    }
}

pub struct OMap<V> {
    pub entries: Vec<(String, V)>,
}

impl<V> OMap<V> {
    /// The keys, in insertion order.
    pub open spec fn keys(&self) -> Seq<Seq<char>> {
        entry_keys(self.entries@)
    }

    pub open spec fn contains_key(&self, k: Seq<char>) -> bool {
        self.keys().contains(k)
    }

    pub open spec fn spec_get(&self, k: Seq<char>) -> Option<V> {
        assoc_get(self.entries@, k)
    }

    pub open spec fn spec_len(&self) -> nat {
        self.entries@.len()
    }

    /// Keys are pairwise distinct.
    pub open spec fn wf(&self) -> bool {
        self.keys().no_duplicates()
    }

    /// The position of key `k`; meaningful when `wf()` holds and `k` is present.
    pub open spec fn key_index(&self, k: Seq<char>) -> int {
        choose|i: int| 0 <= i < self.keys().len() && self.keys()[i] == k
    }

    pub proof fn lemma_key_index(&self, k: Seq<char>)
        requires
            self.wf(),
            self.contains_key(k),
        ensures
            0 <= self.key_index(k) < self.entries@.len(),
            self.keys()[self.key_index(k)] == k,
            self.entries@[self.key_index(k)].0@ == k,
            self.spec_get(k) == Some(self.entries@[self.key_index(k)].1),
            forall|j: int| 0 <= j < self.keys().len() && self.keys()[j] == k
                ==> j == self.key_index(k),
    {
        let ki = self.key_index(k);
        assert(0 <= ki < self.keys().len() && self.keys()[ki] == k);
        assert(forall|j: int|
            0 <= j < self.keys().len() && self.keys()[j] == k ==> j == ki) by {
            assert(self.keys().no_duplicates());
        }
        assert forall|j: int| 0 <= j < ki implies self.entries@[j].0@ != k by {
            assert(self.keys()[j] == self.entries@[j].0@);
        }
        lemma_assoc_get_at_first_index(self.entries@, k, ki);
    }

    /// Under distinct keys, the entry at any position is what its key looks
    /// up to.
    pub proof fn lemma_get_by_index(&self, j: int)
        requires
            self.wf(),
            0 <= j < self.entries@.len(),
        ensures
            self.spec_get(self.entries@[j].0@) == Some(self.entries@[j].1),
            self.contains_key(self.entries@[j].0@),
            self.key_index(self.entries@[j].0@) == j,
    {
        let k = self.entries@[j].0@;
        assert(self.keys()[j] == k);
        assert forall|j2: int| 0 <= j2 < j implies self.entries@[j2].0@ != k by {
            assert(self.keys()[j2] == self.entries@[j2].0@);
            assert(self.keys().no_duplicates());
        }
        lemma_assoc_get_at_first_index(self.entries@, k, j);
        self.lemma_key_index(k);
    }

    pub fn new() -> (r: OMap<V>)
        ensures
            r.entries@ == Seq::<(String, V)>::empty(),
            r.wf(),
    {
        OMap { entries: Vec::new() }
    }

    pub fn len(&self) -> (r: usize)
        ensures
            r == self.entries@.len(),
    {
        self.entries.len()
    }

    /// Index of the first entry bound to `k`; `None` exactly when `k` is absent.
    pub fn index_of(&self, k: &String) -> (r: Option<usize>)
        ensures
            match r {
                Some(i) => {
                    &&& i < self.entries@.len()
                    &&& self.entries@[i as int].0@ == k@
                    &&& forall|j: int| 0 <= j < i ==> self.entries@[j].0@ != k@
                    &&& self.spec_get(k@) == Some(self.entries@[i as int].1)
                    &&& self.contains_key(k@)
                },
                None => {
                    &&& !self.contains_key(k@)
                    &&& self.spec_get(k@) is None
                },
            },
    {
        let n = self.entries.len();
        let mut i: usize = 0;
        while i < n
            invariant
                n == self.entries@.len(),
                i <= n,
                forall|j: int| 0 <= j < i ==> self.entries@[j].0@ != k@,
            decreases n - i,
        {
            if self.entries[i].0 == *k {
                proof {
                    lemma_assoc_get_at_first_index(self.entries@, k@, i as int);
                    assert(self.keys()[i as int] == k@);
                }
                return Some(i);
            }
            i = i + 1;
        }
        proof {
            lemma_assoc_get_none(self.entries@, k@);
            assert(forall|j: int|
                0 <= j < self.keys().len() ==> self.keys()[j] != k@);
        }
        None
    }

    pub fn contains(&self, k: &String) -> (r: bool)
        ensures
            r == self.contains_key(k@),
    {
        self.index_of(k).is_some()
    }

    pub fn get(&self, k: &String) -> (r: Option<&V>)
        ensures
            match r {
                Some(v) => self.spec_get(k@) == Some(*v) && self.contains_key(k@),
                None => self.spec_get(k@) is None && !self.contains_key(k@),
            },
    {
        match self.index_of(k) {
            Some(i) => Some(&self.entries[i].1),
            None => None,
        }
    }

    pub fn key_at(&self, i: usize) -> (r: &String)
        requires
            i < self.entries@.len(),
        ensures
            r@ == self.keys()[i as int],
            *r == self.entries@[i as int].0,
    {
        &self.entries[i].0
    }

    pub fn value_at(&self, i: usize) -> (r: &V)
        requires
            i < self.entries@.len(),
        ensures
            *r == self.entries@[i as int].1,
    {
        &self.entries[i].1
    }

    /// Mutable access to the value stored at position `i`; the key is untouched.
    pub fn value_at_mut(&mut self, i: usize) -> (r: &mut V)
        requires
            i < old(self).entries@.len(),
        ensures
            *r == old(self).entries@[i as int].1,
            final(self).entries@ == old(self).entries@.update(
                i as int,
                (old(self).entries@[i as int].0, *final(r)),
            ),
            final(self).keys() =~= old(self).keys(),
    {
        let e = &mut self.entries[i];
        &mut e.1
    }

    /// Appends an entry under a key not yet present.
    pub fn insert_new(&mut self, k: String, v: V)
        requires
            old(self).wf(),
            !old(self).contains_key(k@),
        ensures
            final(self).entries@ == old(self).entries@.push((k, v)),
            final(self).keys() =~= old(self).keys().push(k@),
            final(self).wf(),
    {
        let ghost ks = self.keys();
        self.entries.push((k, v));
        proof {
            assert(self.keys() =~= ks.push(k@));
        }
    }

    /// Removes and returns the entry at position `i`.
    pub fn take_at(&mut self, i: usize) -> (kv: (String, V))
        requires
            i < old(self).entries@.len(),
        ensures
            kv == old(self).entries@[i as int],
            final(self).entries@ == old(self).entries@.remove(i as int),
            final(self).keys() =~= old(self).keys().remove(i as int),
            old(self).wf() ==> final(self).wf(),
    {
        let ghost ks = self.keys();
        let kv = self.entries.remove(i);
        proof {
            assert(self.keys() =~= ks.remove(i as int));
            if ks.no_duplicates() {
                assert(forall|j: int|
                    0 <= j < ks.remove(i as int).len() ==> ks.remove(i as int)[j] == (if j < i {
                        ks[j]
                    } else {
                        ks[j + 1]
                    }));
                assert(ks.remove(i as int).no_duplicates());
            }
        }
        kv
    }

    /// Inserts an entry at position `i`, shifting later entries.
    pub fn put_at(&mut self, i: usize, k: String, v: V)
        requires
            i <= old(self).entries@.len(),
        ensures
            final(self).entries@ == old(self).entries@.insert(i as int, (k, v)),
            final(self).keys() =~= old(self).keys().insert(i as int, k@),
    {
        let ghost ks = self.keys();
        self.entries.insert(i, (k, v));
        proof {
            assert(self.keys() =~= ks.insert(i as int, k@));
        }
    }
}

} // verus!
