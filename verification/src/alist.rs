//! An insertion-ordered key-value store keyed by `u64`.
//!
//! The on-chain registry pattern behind the staking state is an ordered map
//! with prefix iteration; this models it as an association list with distinct
//! keys, so that traversal order (insertion order) is part of the
//! specification.

use vstd::prelude::*;

verus! {

/// An insertion-ordered map from `u64` keys to `V`, with distinct keys.
pub struct AList<V> {
    entries: Vec<(u64, V)>,
}

impl<V> AList<V> {
    /// The entries, oldest first.
    pub closed spec fn view(&self) -> Seq<(u64, V)> {
        self.entries@
    }

    /// Keys are distinct.
    pub open spec fn wf(&self) -> bool {
        forall|i: int, j: int|
            0 <= i < j < self@.len() ==> (#[trigger] self@[i]).0 != (#[trigger] self@[j]).0
    }

    /// Whether some entry carries the key `k`.
    pub open spec fn spec_contains_key(&self, k: u64) -> bool {
        exists|i: int| 0 <= i < self@.len() && (#[trigger] self@[i]).0 == k
    }

    /// The position of the entry carrying `k`; meaningful only when the key
    /// is present and the keys are distinct.
    pub open spec fn key_index(&self, k: u64) -> int {
        choose|i: int| 0 <= i < self@.len() && (#[trigger] self@[i]).0 == k
    }

    /// The value stored under `k`, if any.
    pub open spec fn spec_get(&self, k: u64) -> Option<V> {
        if self.spec_contains_key(k) {
            Some(self@[self.key_index(k)].1)
        } else {
            None
        }
    }

    /// Under distinct keys, any position holding `k` is `key_index(k)`.
    pub proof fn lemma_key_index_unique(&self, k: u64, i: int)
        requires
            self.wf(),
            0 <= i < self@.len(),
            self@[i].0 == k,
        ensures
            self.key_index(k) == i,
            self.spec_contains_key(k),
            self.spec_get(k) == Some(self@[i].1),
    {
        assert(self.spec_contains_key(k));
    }

    /// An empty store.
    pub fn new() -> (r: Self)
        ensures
            r@ =~= Seq::<(u64, V)>::empty(),
            r.wf(),
    {
        AList { entries: Vec::new() }
    }

    /// The number of entries.
    pub fn len(&self) -> (r: usize)
        ensures
            r == self@.len(),
    {
        self.entries.len()
    }

    /// The entries, oldest first, for traversal.
    pub fn entries(&self) -> (r: &Vec<(u64, V)>)
        ensures
            r@ == self@,
    {
        &self.entries
    }

    /// Whether the store holds `k`.
    pub fn contains_key(&self, k: u64) -> (r: bool)
        requires
            self.wf(),
        ensures
            r == self.spec_contains_key(k),
    {
        let n = self.entries.len();
        let mut i: usize = 0;
        while i < n
            invariant
                n == self@.len(),
                i <= n,
                forall|m: int| 0 <= m < i ==> (#[trigger] self@[m]).0 != k,
            decreases n - i,
        {
            if self.entries[i].0 == k {
                return true;
            }
            i = i + 1;
        }
        false
    }

    /// A borrow of the value under `k`, if any.
    pub fn get(&self, k: u64) -> (r: Option<&V>)
        requires
            self.wf(),
        ensures
            match r {
                Some(v) => self.spec_get(k) == Some(*v),
                None => self.spec_get(k) is None,
            },
    {
        let n = self.entries.len();
        let mut i: usize = 0;
        while i < n
            invariant
                n == self@.len(),
                i <= n,
                self.wf(),
                forall|m: int| 0 <= m < i ==> (#[trigger] self@[m]).0 != k,
            decreases n - i,
        {
            if self.entries[i].0 == k {
                proof {
                    self.lemma_key_index_unique(k, i as int);
                }
                return Some(&self.entries[i].1);
            }
            i = i + 1;
        }
        None
    }

    /// Store `v` under `k`: replaces the value in place when the key exists,
    /// appends otherwise.
    pub fn insert(&mut self, k: u64, v: V)
        requires
            old(self).wf(),
        ensures
            final(self).wf(),
            final(self)@ == if old(self).spec_contains_key(k) {
                old(self)@.update(old(self).key_index(k), (k, v))
            } else {
                old(self)@.push((k, v))
            },
            final(self).spec_contains_key(k),
            final(self).key_index(k) == if old(self).spec_contains_key(k) {
                old(self).key_index(k)
            } else {
                old(self)@.len() as int
            },
            final(self).spec_get(k) == Some(v),
            forall|k2: u64| k2 != k ==> final(self).spec_get(k2) == old(self).spec_get(k2),
            forall|k2: u64| #[trigger]
                final(self).spec_contains_key(k2) == (old(self).spec_contains_key(k2) || k2 == k),
            final(self)@.len() == if old(self).spec_contains_key(k) {
                old(self)@.len()
            } else {
                old(self)@.len() + 1
            },
    {
        let n = self.entries.len();
        let mut i: usize = 0;
        while i < n
            invariant
                n == self@.len(),
                i <= n,
                self.wf(),
                self == old(self),
                forall|m: int| 0 <= m < i ==> (#[trigger] self@[m]).0 != k,
            decreases n - i,
        {
            if self.entries[i].0 == k {
                proof {
                    self.lemma_key_index_unique(k, i as int);
                }
                self.entries[i] = (k, v);
                proof {
                    let new = self@;
                    let older = old(self)@;
                    assert forall|p: int, q: int| 0 <= p < q < new.len() implies (
                    #[trigger] new[p]).0 != (#[trigger] new[q]).0 by {
                        assert(older[p].0 == new[p].0);
                        assert(older[q].0 == new[q].0);
                    }
                    self.lemma_key_index_unique(k, i as int);
                    assert forall|k2: u64| #[trigger]
                        self.spec_contains_key(k2) == (old(self).spec_contains_key(k2) || k2 == k)
                        by {
                        if self.spec_contains_key(k2) && k2 != k {
                            let j = self.key_index(k2);
                            assert(j != i);
                            assert(old(self)@[j].0 == k2);
                        }
                        if old(self).spec_contains_key(k2) && k2 != k {
                            let j = old(self).key_index(k2);
                            assert(j != i);
                            assert(self@[j].0 == k2);
                        }
                    }
                    assert forall|k2: u64| k2 != k implies self.spec_get(k2) == old(self).spec_get(
                        k2,
                    ) by {
                        if old(self).spec_contains_key(k2) {
                            let j = old(self).key_index(k2);
                            self.lemma_key_index_unique(k2, j);
                        } else {
                            assert(!self.spec_contains_key(k2)) by {
                                if self.spec_contains_key(k2) {
                                    let j = self.key_index(k2);
                                    assert(old(self)@[j].0 == k2);
                                }
                            }
                        }
                    }
                }
                return ;
            }
            i = i + 1;
        }
        self.entries.push((k, v));
        proof {
            let new = self@;
            let older = old(self)@;
            assert(!old(self).spec_contains_key(k));
            assert forall|p: int, q: int| 0 <= p < q < new.len() implies (#[trigger] new[p]).0 != (
            #[trigger] new[q]).0 by {
                if q < older.len() {
                    assert(older[p].0 == new[p].0);
                    assert(older[q].0 == new[q].0);
                } else {
                    assert(new[q] == (k, v));
                    assert(older[p].0 == new[p].0);
                    assert(older[p].0 != k);
                }
            }
            self.lemma_key_index_unique(k, older.len() as int);
            assert forall|k2: u64| k2 != k implies self.spec_get(k2) == old(self).spec_get(k2) by {
                if old(self).spec_contains_key(k2) {
                    let j = old(self).key_index(k2);
                    self.lemma_key_index_unique(k2, j);
                } else {
                    assert(!self.spec_contains_key(k2)) by {
                        if self.spec_contains_key(k2) {
                            let j = self.key_index(k2);
                            assert(self@[j].0 == k2);
                            assert(j != older.len() as int);
                            assert(old(self)@[j].0 == k2);
                        }
                    }
                }
            }
            assert forall|k2: u64| #[trigger]
                self.spec_contains_key(k2) == (old(self).spec_contains_key(k2) || k2 == k) by {
                if self.spec_contains_key(k2) && k2 != k {
                    let j = self.key_index(k2);
                    assert(self@[j].0 == k2);
                    assert(j != older.len() as int);
                    assert(old(self)@[j].0 == k2);
                }
                if old(self).spec_contains_key(k2) {
                    let j = old(self).key_index(k2);
                    assert(self@[j].0 == k2);
                    assert(self.spec_contains_key(k2));
                }
            }
        }
    }

    /// Remove and return the value under `k`, keeping the order of the other
    /// entries.
    pub fn take(&mut self, k: u64) -> (r: Option<V>)
        requires
            old(self).wf(),
        ensures
            final(self).wf(),
            match r {
                Some(v) => {
                    &&& old(self).spec_get(k) == Some(v)
                    &&& final(self)@ == old(self)@.remove(old(self).key_index(k))
                },
                None => {
                    &&& !old(self).spec_contains_key(k)
                    &&& final(self)@ == old(self)@
                },
            },
            !final(self).spec_contains_key(k),
            forall|k2: u64| k2 != k ==> final(self).spec_get(k2) == old(self).spec_get(k2),
            forall|k2: u64| #[trigger]
                final(self).spec_contains_key(k2) == (old(self).spec_contains_key(k2) && k2 != k),
    {
        let n = self.entries.len();
        let mut i: usize = 0;
        while i < n
            invariant
                n == self@.len(),
                i <= n,
                self.wf(),
                self == old(self),
                forall|m: int| 0 <= m < i ==> (#[trigger] self@[m]).0 != k,
            decreases n - i,
        {
            if self.entries[i].0 == k {
                proof {
                    self.lemma_key_index_unique(k, i as int);
                }
                let (_, v) = self.entries.remove(i);
                proof {
                    let new = self@;
                    let older = old(self)@;
                    assert forall|p: int, q: int| 0 <= p < q < new.len() implies (
                    #[trigger] new[p]).0 != (#[trigger] new[q]).0 by {
                        let p0 = if p < i { p } else { p + 1 };
                        let q0 = if q < i { q } else { q + 1 };
                        assert(new[p] == older[p0]);
                        assert(new[q] == older[q0]);
                    }
                    assert(!self.spec_contains_key(k)) by {
                        if self.spec_contains_key(k) {
                            let j = self.key_index(k);
                            let j0 = if j < i { j } else { j + 1 };
                            assert(older[j0].0 == k);
                            old(self).lemma_key_index_unique(k, j0);
                        }
                    }
                    assert forall|k2: u64| k2 != k implies self.spec_get(k2) == old(
                        self,
                    ).spec_get(k2) by {
                        if old(self).spec_contains_key(k2) {
                            let j0 = old(self).key_index(k2);
                            let j = if j0 < i { j0 } else { j0 - 1 };
                            assert(j0 != i);
                            assert(self@[j] == old(self)@[j0]);
                            self.lemma_key_index_unique(k2, j);
                        } else {
                            assert(!self.spec_contains_key(k2)) by {
                                if self.spec_contains_key(k2) {
                                    let j = self.key_index(k2);
                                    let j0 = if j < i { j } else { j + 1 };
                                    assert(old(self)@[j0].0 == k2);
                                }
                            }
                        }
                    }
                    assert forall|k2: u64| #[trigger]
                        self.spec_contains_key(k2) == (old(self).spec_contains_key(k2) && k2 != k)
                        by {
                        if self.spec_contains_key(k2) {
                            let j = self.key_index(k2);
                            let j0 = if j < i { j } else { j + 1 };
                            assert(old(self)@[j0].0 == k2);
                        }
                        if old(self).spec_contains_key(k2) && k2 != k {
                            let j0 = old(self).key_index(k2);
                            assert(j0 != i);
                            let j = if j0 < i { j0 } else { j0 - 1 };
                            assert(self@[j] == old(self)@[j0]);
                        }
                    }
                }
                return Some(v);
            }
            i = i + 1;
        }
        None
    }

    /// Remove the entry under `k`, if any; reports whether one was removed.
    pub fn remove(&mut self, k: u64) -> (r: bool)
        requires
            old(self).wf(),
        ensures
            final(self).wf(),
            r == old(self).spec_contains_key(k),
            final(self)@ == if old(self).spec_contains_key(k) {
                old(self)@.remove(old(self).key_index(k))
            } else {
                old(self)@
            },
            !final(self).spec_contains_key(k),
            forall|k2: u64| k2 != k ==> final(self).spec_get(k2) == old(self).spec_get(k2),
            forall|k2: u64| #[trigger]
                final(self).spec_contains_key(k2) == (old(self).spec_contains_key(k2) && k2 != k),
    {
        match self.take(k) {
            Some(_) => true,
            None => false,
        }
    }
}

} // verus!
