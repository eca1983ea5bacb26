//! Named registries: string keys bound to values at registration time.
//!
//! Markup refers to templates and callbacks by name; a registry is the
//! indirection layer that resolves such a name. Registration validates
//! the name and rejects duplicates; lookup is silent on a miss.

use vstd::prelude::*;

verus! {

/// Why a registration was refused.
#[derive(Clone, Copy, PartialEq, Eq, Structural, Debug)]
pub enum RegistryError {
    /// The name is already bound.
    DuplicateName,
}

/// A registry of named bindings; at most one value per name.
pub struct NamedRegistry<V> {
    entries: Vec<(String, V)>,
}

impl<V> View for NamedRegistry<V> {
    type V = Map<Seq<char>, V>;

    closed spec fn view(&self) -> Map<Seq<char>, V> {
        Map::new(
            |n: Seq<char>| exists|i: int|
                0 <= i < self.entries@.len() && (#[trigger] self.entries@[i]).0@ == n,
            |n: Seq<char>| self.entries@[self.idx_of(n)].1,
        )
    }
}

impl<V> NamedRegistry<V> {
    /// Well-formed: no name is bound twice.
    pub closed spec fn wf(self) -> bool {
        forall|i: int, j: int|
            0 <= i < j < self.entries@.len()
                ==> (#[trigger] self.entries@[i]).0@ != (#[trigger] self.entries@[j]).0@
    }

    spec fn idx_of(self, n: Seq<char>) -> int {
        choose|i: int| 0 <= i < self.entries@.len() && (#[trigger] self.entries@[i]).0@ == n
    }

    proof fn lemma_entry_in_view(self, i: int)
        requires
            self.wf(),
            0 <= i < self.entries@.len(),
        ensures
            self@.contains_key(self.entries@[i].0@),
            self@[self.entries@[i].0@] == self.entries@[i].1,
    {
        let n = self.entries@[i].0@;
        assert(exists|j: int|
            0 <= j < self.entries@.len() && (#[trigger] self.entries@[j]).0@ == n);
        let j = self.idx_of(n);
        assert(0 <= j < self.entries@.len() && self.entries@[j].0@ == n);
        assert(j == i);
    }

    proof fn lemma_absent_from_view(self, n: Seq<char>)
        requires
            forall|i: int|
                0 <= i < self.entries@.len() ==> (#[trigger] self.entries@[i]).0@ != n,
        ensures
            !self@.contains_key(n),
    {
    }

    /// An empty registry.
    pub fn new() -> (r: NamedRegistry<V>)
        ensures
            r.wf(),
            r@ == Map::<Seq<char>, V>::empty(),
    {
        let r = NamedRegistry { entries: Vec::new() };
        proof {
            assert(r@ =~= Map::<Seq<char>, V>::empty());
        }
        r
    }

    /// Resolve a name; `None` exactly when it is unbound.
    pub fn get(&self, name: &String) -> (r: Option<&V>)
        requires
            self.wf(),
        ensures
            match r {
                Some(v) => self@.contains_key(name@) && *v == self@[name@],
                None => !self@.contains_key(name@),
            },
    {
        let n = self.entries.len();
        let mut i: usize = 0;
        while i < n
            invariant
                self.wf(),
                n == self.entries@.len(),
                0 <= i <= n,
                forall|j: int| 0 <= j < i ==> (#[trigger] self.entries@[j]).0@ != name@,
            decreases n - i,
        {
            let p = &self.entries[i];
            if p.0 == *name {
                proof {
                    self.lemma_entry_in_view(i as int);
                }
                return Some(&p.1);
            }
            i = i + 1;
        }
        proof {
            self.lemma_absent_from_view(name@);
        }
        None
    }

    /// Whether the name is bound.
    pub fn contains(&self, name: &String) -> (r: bool)
        requires
            self.wf(),
        ensures
            r == self@.contains_key(name@),
    {
        self.get(name).is_some()
    }

    /// Bind the name to the value; a name already bound is refused,
    /// and the registry is then unchanged.
    pub fn register(&mut self, name: String, v: V) -> (r: Result<(), RegistryError>)
        requires
            old(self).wf(),
        ensures
            final(self).wf(),
            r is Ok <==> !old(self)@.contains_key(name@),
            r is Ok ==> final(self)@ == old(self)@.insert(name@, v),
            r is Err ==> *final(self) == *old(self) && r == Result::<(), RegistryError>::Err(
                RegistryError::DuplicateName,
            ),
    {
        if self.contains(&name) {
            return Err(RegistryError::DuplicateName);
        }
        let ghost pre = *self;
        self.entries.push((name, v));
        proof {
            self.lemma_push_view(pre, name@, v);
        }
        Ok(())
    }

    proof fn lemma_push_view(self, pre: NamedRegistry<V>, n: Seq<char>, v: V)
        requires
            pre.wf(),
            !pre@.contains_key(n),
            self.entries@.len() == pre.entries@.len() + 1,
            self.entries@ == pre.entries@.push(self.entries@.last()),
            self.entries@.last().0@ == n,
            self.entries@.last().1 == v,
        ensures
            self.wf(),
            self@ == pre@.insert(n, v),
    {
        let s = self.entries@;
        let ps = pre.entries@;
        assert forall|a: int|
            0 <= a < ps.len() implies (#[trigger] ps[a]).0@ != n by {
            if ps[a].0@ == n {
                pre.lemma_entry_in_view(a);
            }
        }
        assert forall|a: int, b: int| 0 <= a < b < s.len() implies
            (#[trigger] s[a]).0@ != (#[trigger] s[b]).0@ by {
            if b == s.len() - 1 {
                assert(s[a] == ps[a]);
            } else {
                assert(s[a] == ps[a]);
                assert(s[b] == ps[b]);
            }
        }
        assert forall|n2: Seq<char>|
            self@.contains_key(n2) == pre@.insert(n, v).contains_key(n2) by {
            if n2 == n {
                assert(s[s.len() - 1].0@ == n);
            } else {
                if pre@.contains_key(n2) {
                    let j = choose|j: int| 0 <= j < ps.len() && (#[trigger] ps[j]).0@ == n2;
                    assert(s[j] == ps[j]);
                }
                if self@.contains_key(n2) {
                    let j = choose|j: int| 0 <= j < s.len() && (#[trigger] s[j]).0@ == n2;
                    assert(j != s.len() - 1);
                    assert(s[j] == ps[j]);
                }
            }
        }
        assert forall|n2: Seq<char>| self@.contains_key(n2) implies
            self@[n2] == pre@.insert(n, v)[n2] by {
            let j = self.idx_of(n2);
            assert(0 <= j < s.len() && s[j].0@ == n2);
            self.lemma_entry_in_view(j);
            if n2 == n {
                assert(j == s.len() - 1);
            } else {
                assert(j != s.len() - 1);
                assert(s[j] == ps[j]);
                pre.lemma_entry_in_view(j);
            }
        }
        assert(self@ =~= pre@.insert(n, v));
    }
}

/// Two bindings registered under distinct names resolve independently:
/// each name returns exactly the value registered under it, with no
/// cross-contamination.
pub proof fn lemma_distinct_names_resolve<V>(
    m: Map<Seq<char>, V>,
    n1: Seq<char>,
    v1: V,
    n2: Seq<char>,
    v2: V,
)
    requires
        n1 != n2,
    ensures
        m.insert(n1, v1).insert(n2, v2).contains_key(n1),
        m.insert(n1, v1).insert(n2, v2).contains_key(n2),
        m.insert(n1, v1).insert(n2, v2)[n1] == v1,
        m.insert(n1, v1).insert(n2, v2)[n2] == v2,
{
}

} // verus!
