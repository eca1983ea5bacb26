//! A component table: one typed column of an entity arena.
//!
//! Entities are opaque `u64` identifiers; a table associates at most one
//! value with each identifier. Insertion, removal and lookup are the only
//! operations, mirroring an entity-component store column.

use vstd::prelude::*;

verus! {

/// A typed per-entity component column keyed by entity identifier.
pub struct Table<T> {
    entries: Vec<(u64, T)>,
}

impl<T> View for Table<T> {
    type V = Map<u64, T>;

    closed spec fn view(&self) -> Map<u64, T> {
        Map::new(
            |k: u64| exists|i: int| 0 <= i < self.entries@.len() && (#[trigger] self.entries@[i]).0 == k,
            |k: u64| self.entries@[self.idx_of(k)].1,
        )
    }
}

impl<T> Table<T> {
    /// The entity identifiers in storage order.
    pub closed spec fn key_seq(self) -> Seq<u64> {
        self.entries@.map_values(|p: (u64, T)| p.0)
    }

    /// Well-formed: no entity identifier occurs twice.
    pub closed spec fn wf(self) -> bool {
        forall|i: int, j: int|
            0 <= i < j < self.entries@.len()
                ==> (#[trigger] self.entries@[i]).0 != (#[trigger] self.entries@[j]).0
    }

    spec fn idx_of(self, k: u64) -> int {
        choose|i: int| 0 <= i < self.entries@.len() && (#[trigger] self.entries@[i]).0 == k
    }

    proof fn lemma_entry_in_view(self, i: int)
        requires
            self.wf(),
            0 <= i < self.entries@.len(),
        ensures
            self@.contains_key(self.entries@[i].0),
            self@[self.entries@[i].0] == self.entries@[i].1,
    {
        let k = self.entries@[i].0;
        assert(exists|j: int| 0 <= j < self.entries@.len() && (#[trigger] self.entries@[j]).0 == k);
        let j = self.idx_of(k);
        assert(0 <= j < self.entries@.len() && self.entries@[j].0 == k);
        assert(j == i);
    }

    proof fn lemma_absent_from_view(self, k: u64)
        requires
            forall|i: int|
                0 <= i < self.entries@.len() ==> (#[trigger] self.entries@[i]).0 != k,
        ensures
            !self@.contains_key(k),
    {
    }

    /// An empty table.
    pub fn new() -> (t: Table<T>)
        ensures
            t.wf(),
            t@ == Map::<u64, T>::empty(),
            t.key_seq() == Seq::<u64>::empty(),
    {
        let t = Table { entries: Vec::new() };
        proof {
            assert(t@ =~= Map::<u64, T>::empty());
            assert(t.key_seq() =~= Seq::<u64>::empty());
        }
        t
    }

    /// Look the entity up; `None` exactly when it has no entry.
    pub fn get(&self, k: u64) -> (r: Option<&T>)
        requires
            self.wf(),
        ensures
            match r {
                Some(v) => self@.contains_key(k) && *v == self@[k],
                None => !self@.contains_key(k),
            },
    {
        let n = self.entries.len();
        let mut i: usize = 0;
        while i < n
            invariant
                self.wf(),
                n == self.entries@.len(),
                0 <= i <= n,
                forall|j: int| 0 <= j < i ==> (#[trigger] self.entries@[j]).0 != k,
            decreases n - i,
        {
            let p = &self.entries[i];
            if p.0 == k {
                proof {
                    self.lemma_entry_in_view(i as int);
                }
                return Some(&p.1);
            }
            i = i + 1;
        }
        proof {
            self.lemma_absent_from_view(k);
        }
        None
    }

    /// Whether the entity has an entry.
    pub fn contains(&self, k: u64) -> (r: bool)
        requires
            self.wf(),
        ensures
            r == self@.contains_key(k),
    {
        self.get(k).is_some()
    }

    /// Remove and return the entity's entry, if any.
    pub fn take(&mut self, k: u64) -> (r: Option<T>)
        requires
            old(self).wf(),
        ensures
            final(self).wf(),
            match r {
                Some(v) => old(self)@.contains_key(k) && v == old(self)@[k]
                    && final(self)@ == old(self)@.remove(k),
                None => !old(self)@.contains_key(k) && *final(self) == *old(self),
            },
    {
        let n = self.entries.len();
        let mut i: usize = 0;
        while i < n
            invariant
                *self == *old(self),
                self.wf(),
                n == self.entries@.len(),
                0 <= i <= n,
                forall|j: int| 0 <= j < i ==> (#[trigger] self.entries@[j]).0 != k,
            decreases n - i,
        {
            let p = &self.entries[i];
            if p.0 == k {
                proof {
                    self.lemma_entry_in_view(i as int);
                }
                let ghost pre = *self;
                let pair = self.entries.remove(i);
                proof {
                    self.lemma_take_view(pre, i as int, k);
                }
                return Some(pair.1);
            }
            i = i + 1;
        }
        proof {
            self.lemma_absent_from_view(k);
        }
        None
    }

    proof fn lemma_take_view(self, pre: Table<T>, i: int, k: u64)
        requires
            pre.wf(),
            0 <= i < pre.entries@.len(),
            pre.entries@[i].0 == k,
            self.entries@ == pre.entries@.remove(i),
        ensures
            self.wf(),
            self@ == pre@.remove(k),
    {
        let s = self.entries@;
        let ps = pre.entries@;
        assert forall|a: int, b: int| 0 <= a < b < s.len() implies
            (#[trigger] s[a]).0 != (#[trigger] s[b]).0 by {
            let a0 = if a < i { a } else { a + 1 };
            let b0 = if b < i { b } else { b + 1 };
            assert(s[a] == ps[a0]);
            assert(s[b] == ps[b0]);
        }
        assert forall|k2: u64| self@.contains_key(k2) == pre@.remove(k).contains_key(k2) by {
            if k2 == k {
                assert forall|a: int| 0 <= a < s.len() implies (#[trigger] s[a]).0 != k by {
                    let a0 = if a < i { a } else { a + 1 };
                    assert(s[a] == ps[a0]);
                    if a0 != i {
                        assert(ps[a0].0 != ps[i].0);
                    }
                }
                self.lemma_absent_from_view(k2);
            } else {
                if pre@.contains_key(k2) {
                    let j = choose|j: int| 0 <= j < ps.len() && (#[trigger] ps[j]).0 == k2;
                    assert(j != i);
                    let j2 = if j < i { j } else { j - 1 };
                    assert(s[j2] == ps[j]);
                    assert(0 <= j2 < s.len() && s[j2].0 == k2);
                }
                if self@.contains_key(k2) {
                    let j = choose|j: int| 0 <= j < s.len() && (#[trigger] s[j]).0 == k2;
                    let j0 = if j < i { j } else { j + 1 };
                    assert(s[j] == ps[j0]);
                    assert(0 <= j0 < ps.len() && ps[j0].0 == k2);
                }
            }
        }
        assert forall|k2: u64| self@.contains_key(k2) implies self@[k2] == pre@.remove(k)[k2] by {
            let j = self.idx_of(k2);
            assert(0 <= j < s.len() && s[j].0 == k2);
            let j0 = if j < i { j } else { j + 1 };
            assert(s[j] == ps[j0]);
            pre.lemma_entry_in_view(j0);
            self.lemma_entry_in_view(j);
        }
        assert(self@ =~= pre@.remove(k));
    }

    /// Insert the value for the entity, replacing any earlier entry.
    pub fn insert(&mut self, k: u64, v: T)
        requires
            old(self).wf(),
        ensures
            final(self).wf(),
            final(self)@ == old(self)@.insert(k, v),
    {
        let _ = self.take(k);
        let ghost mid = *self;
        self.entries.push((k, v));
        proof {
            self.lemma_push_view(mid, k, v);
            assert(old(self)@.remove(k).insert(k, v) =~= old(self)@.insert(k, v));
        }
    }

    proof fn lemma_push_view(self, mid: Table<T>, k: u64, v: T)
        requires
            mid.wf(),
            !mid@.contains_key(k),
            self.entries@ == mid.entries@.push((k, v)),
        ensures
            self.wf(),
            self@ == mid@.insert(k, v),
    {
        let s = self.entries@;
        let ms = mid.entries@;
        assert forall|a: int|
            0 <= a < ms.len() implies (#[trigger] ms[a]).0 != k by {
            if ms[a].0 == k {
                mid.lemma_entry_in_view(a);
            }
        }
        assert forall|a: int, b: int| 0 <= a < b < s.len() implies
            (#[trigger] s[a]).0 != (#[trigger] s[b]).0 by {
            if b == s.len() - 1 {
                assert(s[a] == ms[a]);
                assert(s[b] == (k, v));
            } else {
                assert(s[a] == ms[a]);
                assert(s[b] == ms[b]);
            }
        }
        assert forall|k2: u64| self@.contains_key(k2) == mid@.insert(k, v).contains_key(k2) by {
            if k2 == k {
                assert(s[s.len() - 1].0 == k);
            } else {
                if mid@.contains_key(k2) {
                    let j = choose|j: int| 0 <= j < ms.len() && (#[trigger] ms[j]).0 == k2;
                    assert(s[j] == ms[j]);
                }
                if self@.contains_key(k2) {
                    let j = choose|j: int| 0 <= j < s.len() && (#[trigger] s[j]).0 == k2;
                    assert(j != s.len() - 1);
                    assert(s[j] == ms[j]);
                }
            }
        }
        assert forall|k2: u64| self@.contains_key(k2) implies
            self@[k2] == mid@.insert(k, v)[k2] by {
            let j = self.idx_of(k2);
            assert(0 <= j < s.len() && s[j].0 == k2);
            self.lemma_entry_in_view(j);
            if k2 == k {
                assert(j == s.len() - 1);
                assert(s[j].1 == v);
            } else {
                assert(j != s.len() - 1);
                assert(s[j] == ms[j]);
                mid.lemma_entry_in_view(j);
            }
        }
        assert(self@ =~= mid@.insert(k, v));
    }

    /// Remove the entity's entry, if any.
    pub fn remove(&mut self, k: u64)
        requires
            old(self).wf(),
        ensures
            final(self).wf(),
            final(self)@ == old(self)@.remove(k),
    {
        let r = self.take(k);
        proof {
            if r is None {
                assert(final(self)@ =~= old(self)@.remove(k));
            }
        }
    }

    /// The entity identifiers currently present, in storage order.
    pub fn keys(&self) -> (ks: Vec<u64>)
        requires
            self.wf(),
        ensures
            ks@ == self.key_seq(),
    {
        let n = self.entries.len();
        let mut ks: Vec<u64> = Vec::new();
        let mut i: usize = 0;
        while i < n
            invariant
                n == self.entries@.len(),
                0 <= i <= n,
                ks@ == self.key_seq().take(i as int),
            decreases n - i,
        {
            ks.push(self.entries[i].0);
            proof {
                assert(ks@ =~= self.key_seq().take(i as int + 1));
            }
            i = i + 1;
        }
        proof {
            assert(ks@ =~= self.key_seq());
        }
        ks
    }

    /// The key sequence lists each present entity exactly once.
    pub proof fn lemma_key_seq(self)
        requires
            self.wf(),
        ensures
            self.key_seq().no_duplicates(),
            forall|k: u64| self.key_seq().contains(k) == self@.contains_key(k),
            forall|i: int|
                0 <= i < self.key_seq().len() ==> self@.contains_key(#[trigger] self.key_seq()[i]),
    {
        let s = self.entries@;
        assert forall|k: u64| self.key_seq().contains(k) == self@.contains_key(k) by {
            if self.key_seq().contains(k) {
                let i = choose|i: int| 0 <= i < self.key_seq().len()
                    && self.key_seq()[i] == k;
                self.lemma_entry_in_view(i);
            }
            if self@.contains_key(k) {
                let i = choose|i: int| 0 <= i < s.len() && (#[trigger] s[i]).0 == k;
                assert(self.key_seq()[i] == k);
            }
        }
        assert forall|i: int|
            0 <= i < self.key_seq().len() implies
            self@.contains_key(#[trigger] self.key_seq()[i]) by {
            self.lemma_entry_in_view(i);
        }
    }
}

} // verus!
