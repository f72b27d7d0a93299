//! A keyed table that remembers the order in which its keys were first stored.

use vstd::prelude::*;

verus! {

/// A value by which an entry of a [`Table`] is found.
pub trait Key: Sized {
    /// Whether two keys are the same value.
    fn same(&self, other: &Self) -> (r: bool)
        ensures
            r == (*self == *other),
    ;

    /// A copy of the key.
    fn copy(&self) -> (r: Self)
        ensures
            r == *self,
    ;
}

impl Key for u32 {
    fn same(&self, other: &Self) -> (r: bool) {
        *self == *other
    }

    fn copy(&self) -> (r: Self) {
        *self
    }
}

impl<A: Key, B: Key> Key for (A, B) {
    fn same(&self, other: &Self) -> (r: bool) {
        self.0.same(&other.0) && self.1.same(&other.1)
    }

    fn copy(&self) -> (r: Self) {
        (self.0.copy(), self.1.copy())
    }
}

/// A finite map from keys to values. Its keys are listed in the order in which they were
/// first stored; storing a new value under a known key keeps that key's place.
#[derive(Debug)]
pub struct Table<K, V> {
    entries: Vec<(K, V)>,
}

/// Whether no two entries share a key.
spec fn distinct_keys<K, V>(s: Seq<(K, V)>) -> bool {
    forall|i: int, j: int| 0 <= i < j < s.len() ==> (#[trigger] s[i]).0 != (#[trigger] s[j]).0
}

/// Whether some entry is stored under `k`.
spec fn has_key<K, V>(s: Seq<(K, V)>, k: K) -> bool {
    exists|i: int| 0 <= i < s.len() && (#[trigger] s[i]).0 == k
}

/// The place of the entry stored under `k`.
spec fn place_of<K, V>(s: Seq<(K, V)>, k: K) -> int {
    choose|i: int| 0 <= i < s.len() && (#[trigger] s[i]).0 == k
}

proof fn lemma_place<K, V>(s: Seq<(K, V)>, i: int)
    requires
        distinct_keys(s),
        0 <= i < s.len(),
    ensures
        has_key(s, s[i].0),
        place_of(s, s[i].0) == i,
{
    let k = s[i].0;
    let j = place_of(s, k);
    assert(s[i].0 == k);
    assert(s[j].0 == k);
    if i < j {
        assert(s[i].0 != s[j].0);
    } else if j < i {
        assert(s[j].0 != s[i].0);
    }
}

impl<K, V> Table<K, V> {
    #[verifier::type_invariant]
    closed spec fn well_formed(self) -> bool {
        distinct_keys(self.entries@)
    }

    /// The keys in the order in which they were first stored.
    pub closed spec fn keys(self) -> Seq<K> {
        self.entries@.map_values(|e: (K, V)| e.0)
    }
}

impl<K, V> View for Table<K, V> {
    type V = Map<K, V>;

    closed spec fn view(&self) -> Map<K, V> {
        let s = self.entries@;
        Map::new(|k: K| has_key(s, k), |k: K| s[place_of(s, k)].1)
    }
}

impl<K, V> Table<K, V> {
    /// Whether nothing is stored.
    pub open spec fn holds_nothing(self) -> bool {
        self@ == Map::<K, V>::empty() && self.keys() == Seq::<K>::empty()
    }
}

impl<K: Key, V> Table<K, V> {
    /// An empty table.
    pub fn new() -> (t: Self)
        ensures
            t@ == Map::<K, V>::empty(),
            t.keys() == Seq::<K>::empty(),
    {
        let t = Table { entries: Vec::new() };
        assert(t@ =~= Map::<K, V>::empty());
        assert(t.keys() =~= Seq::<K>::empty());
        t
    }

    /// The number of keys.
    pub fn len(&self) -> (n: usize)
        ensures
            n == self.keys().len(),
    {
        self.entries.len()
    }

    /// The listed keys are exactly the stored ones, and none is listed twice.
    pub(crate) fn know_keys(&self)
        ensures
            self.keys().no_duplicates(),
            forall|k: K| self.keys().contains(k) <==> #[trigger] self@.contains_key(k),
    {
        proof {
            use_type_invariant(self);
            let s = self.entries@;
            assert forall|k: K| self.keys().contains(k) <==> #[trigger] self@.contains_key(k) by {
                if self.keys().contains(k) {
                    let i = choose|i: int| 0 <= i < self.keys().len() && self.keys()[i] == k;
                    assert(s[i].0 == k);
                }
                if self@.contains_key(k) {
                    let i = place_of(s, k);
                    assert(self.keys()[i] == k);
                }
            }
            assert forall|i: int, j: int|
                0 <= i < self.keys().len() && 0 <= j < self.keys().len() && i != j implies self.keys()[i]
                != self.keys()[j] by {
                if i < j {
                    assert(s[i].0 != s[j].0);
                } else {
                    assert(s[j].0 != s[i].0);
                }
            }
        }
    }

    /// The key at place `i` of the list of keys.
    pub fn key_at(&self, i: usize) -> (k: K)
        requires
            i < self.keys().len(),
        ensures
            k == self.keys()[i as int],
            self@.contains_key(k),
    {
        proof {
            use_type_invariant(self);
            lemma_place(self.entries@, i as int);
        }
        self.entries[i].0.copy()
    }

    /// The place of the entry stored under `k`, if there is one.
    fn find(&self, k: &K) -> (r: Option<usize>)
        ensures
            r is Some <==> has_key(self.entries@, *k),
            r matches Some(i) ==> i < self.entries@.len() && self.entries@[i as int].0 == *k
                && place_of(self.entries@, *k) == i,
    {
        proof {
            use_type_invariant(self);
        }
        let mut i: usize = 0;
        while i < self.entries.len()
            invariant
                i <= self.entries@.len(),
                distinct_keys(self.entries@),
                forall|j: int| 0 <= j < i ==> (#[trigger] self.entries@[j]).0 != *k,
            decreases self.entries@.len() - i,
        {
            if self.entries[i].0.same(k) {
                proof {
                    lemma_place(self.entries@, i as int);
                }
                return Some(i);
            }
            i += 1;
        }
        None
    }

    /// Whether `k` is stored.
    pub fn contains_key(&self, k: &K) -> (r: bool)
        ensures
            r == self@.contains_key(*k),
    {
        self.find(k).is_some()
    }

    /// The value stored under `k`.
    pub fn get(&self, k: &K) -> (r: Option<&V>)
        ensures
            r == (if self@.contains_key(*k) {
                Some(&self@[*k])
            } else {
                None
            }),
    {
        match self.find(k) {
            Some(i) => Some(&self.entries[i].1),
            None => None,
        }
    }

    /// Stores `v` under `k`.
    pub fn insert(&mut self, k: K, v: V)
        ensures
            final(self)@ == old(self)@.insert(k, v),
            final(self).keys() == (if old(self)@.contains_key(k) {
                old(self).keys()
            } else {
                old(self).keys().push(k)
            }),
    {
        proof {
            use_type_invariant(&*self);
        }
        let place = self.find(&k);
        let mut entries: Vec<(K, V)> = Vec::new();
        std::mem::swap(&mut entries, &mut self.entries);
        let ghost before = entries@;
        match place {
            Some(i) => {
                entries.set(i, (k, v));
                proof {
                    let s = entries@;
                    assert(distinct_keys(s)) by {
                        assert forall|a: int, b: int| 0 <= a < b < s.len() implies (#[trigger] s[a]).0 != (
                        #[trigger] s[b]).0 by {
                            assert(before[a].0 != before[b].0);
                        }
                    }
                    assert forall|q: K| has_key(s, q) == has_key(before, q) by {
                        if has_key(s, q) {
                            let j = place_of(s, q);
                            assert(before[j].0 == q);
                        }
                        if has_key(before, q) {
                            let j = place_of(before, q);
                            assert(s[j].0 == q);
                        }
                    }
                    assert forall|q: K| #[trigger] has_key(s, q) implies s[place_of(s, q)].1 == (if q == k {
                        v
                    } else {
                        before[place_of(before, q)].1
                    }) by {
                        let j = place_of(s, q);
                        assert(before[j].0 == q);
                        lemma_place(before, j);
                    }
                }
            },
            None => {
                entries.push((k, v));
                proof {
                    let s = entries@;
                    assert(distinct_keys(s)) by {
                        assert forall|a: int, b: int| 0 <= a < b < s.len() implies (#[trigger] s[a]).0 != (
                        #[trigger] s[b]).0 by {
                            assert(before[a] == s[a]);
                            if b < before.len() {
                                assert(before[a].0 != before[b].0);
                            }
                        }
                    }
                    assert forall|q: K| has_key(s, q) == (has_key(before, q) || q == k) by {
                        if has_key(s, q) && q != k {
                            let j = place_of(s, q);
                            assert(before[j].0 == q);
                        }
                        if has_key(before, q) {
                            let j = place_of(before, q);
                            assert(s[j].0 == q);
                        }
                        assert(s[before.len() as int].0 == k);
                    }
                    assert forall|q: K| #[trigger] has_key(s, q) implies s[place_of(s, q)].1 == (if q == k {
                        v
                    } else {
                        before[place_of(before, q)].1
                    }) by {
                        let j = place_of(s, q);
                        if q == k {
                            if j < before.len() {
                                assert(before[j].0 == k);
                            }
                        } else {
                            assert(before[j].0 == q);
                            lemma_place(before, j);
                        }
                    }
                }
            },
        }
        self.entries = entries;
        assert(self@ =~= old(self)@.insert(k, v));
        assert(self.keys() =~= (if old(self)@.contains_key(k) {
            old(self).keys()
        } else {
            old(self).keys().push(k)
        }));
    }

    /// Stores `v` under `k`, which is known, and gives back the value before.
    pub fn exchange(&mut self, k: K, v: V) -> (r: V)
        requires
            old(self)@.contains_key(k),
        ensures
            r == old(self)@[k],
            final(self)@ == old(self)@.insert(k, v),
            final(self).keys() == old(self).keys(),
    {
        proof {
            use_type_invariant(&*self);
        }
        let place = self.find(&k);
        let mut entries: Vec<(K, V)> = Vec::new();
        std::mem::swap(&mut entries, &mut self.entries);
        let ghost before = entries@;
        let i: usize = match place {
            Some(i) => i,
            None => 0,
        };
        let (_, r) = entries.remove(i);
        entries.insert(i, (k, v));
        proof {
            let s = entries@;
            assert(s =~= before.update(i as int, (k, v)));
            assert(distinct_keys(s)) by {
                assert forall|a: int, b: int| 0 <= a < b < s.len() implies (#[trigger] s[a]).0 != (
                #[trigger] s[b]).0 by {
                    assert(before[a].0 != before[b].0);
                }
            }
            assert forall|q: K| has_key(s, q) == has_key(before, q) by {
                if has_key(s, q) {
                    let j = place_of(s, q);
                    assert(before[j].0 == q);
                }
                if has_key(before, q) {
                    let j = place_of(before, q);
                    assert(s[j].0 == q);
                }
            }
            assert forall|q: K| #[trigger] has_key(s, q) implies s[place_of(s, q)].1 == (if q == k {
                v
            } else {
                before[place_of(before, q)].1
            }) by {
                let j = place_of(s, q);
                assert(before[j].0 == q);
                lemma_place(before, j);
            }
        }
        self.entries = entries;
        assert(self@ =~= old(self)@.insert(k, v));
        assert(self.keys() =~= old(self).keys());
        r
    }

    /// Forgets `k`, and gives back the value that was stored under it.
    pub fn remove(&mut self, k: &K) -> (r: Option<V>)
        ensures
            final(self)@ == old(self)@.remove(*k),
            r == (if old(self)@.contains_key(*k) {
                Some(old(self)@[*k])
            } else {
                None
            }),
            final(self).keys() == old(self).keys().remove_value(*k),
            !old(self)@.contains_key(*k) ==> *final(self) == *old(self),
    {
        proof {
            use_type_invariant(&*self);
        }
        match self.find(k) {
            None => {
                assert(self@ =~= old(self)@.remove(*k));
                assert(!self.keys().contains(*k)) by {
                    if self.keys().contains(*k) {
                        let j = choose|j: int| 0 <= j < self.keys().len() && self.keys()[j] == *k;
                        assert(self.entries@[j].0 == *k);
                    }
                }
                proof {
                    self.keys().index_of_first_ensures(*k);
                }
                None
            },
            Some(i) => {
                let mut entries: Vec<(K, V)> = Vec::new();
                std::mem::swap(&mut entries, &mut self.entries);
                let ghost before = entries@;
                let (_, v) = entries.remove(i);
                proof {
                    let s = entries@;
                    assert(distinct_keys(s)) by {
                        assert forall|a: int, b: int| 0 <= a < b < s.len() implies (#[trigger] s[a]).0 != (
                        #[trigger] s[b]).0 by {
                            let a0 = if a < i {
                                a
                            } else {
                                a + 1
                            };
                            let b0 = if b < i {
                                b
                            } else {
                                b + 1
                            };
                            assert(before[a0].0 != before[b0].0);
                        }
                    }
                    assert forall|q: K| has_key(s, q) == (has_key(before, q) && q != *k) by {
                        if has_key(s, q) {
                            let j = place_of(s, q);
                            let j0 = if j < i {
                                j
                            } else {
                                j + 1
                            };
                            assert(before[j0].0 == q);
                            lemma_place(before, j0);
                            lemma_place(before, i as int);
                        }
                        if has_key(before, q) && q != *k {
                            let j = place_of(before, q);
                            let j1 = if j < i {
                                j
                            } else {
                                j - 1
                            };
                            assert(s[j1].0 == q);
                        }
                    }
                    assert forall|q: K| #[trigger] has_key(s, q) implies s[place_of(s, q)].1
                        == before[place_of(before, q)].1 by {
                        let j = place_of(s, q);
                        let j0 = if j < i {
                            j
                        } else {
                            j + 1
                        };
                        assert(before[j0].0 == q);
                        lemma_place(before, j0);
                    }
                }
                self.entries = entries;
                assert(self@ =~= old(self)@.remove(*k));
                assert(old(self).keys()[i as int] == *k);
                assert(old(self).keys().remove(i as int) =~= self.keys());
                proof {
                    let keys = old(self).keys();
                    keys.index_of_first_ensures(*k);
                    let j = keys.index_of_first(*k).unwrap();
                    lemma_place(before, j);
                }
                Some(v)
            },
        }
    }
}

} // verus!
