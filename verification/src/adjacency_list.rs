//! A dense, array-backed relation table from a typed entity identifier to
//! a value: the identifier is the index of the value in a vector, so
//! insertion order defines identifier assignment order, and there is no
//! removal.

use vstd::prelude::*;
use core::marker::PhantomData;
use vstd::pervasive::VecAdditionalExecFns;
use crate::ids::EntityKey;

verus! {

/// A mapping from identifiers of kind `K` to values of type `V`, stored
/// contiguously: the value for identifier `k` sits at index `k` of the
/// backing vector.
pub struct AdjacencyList<K, V> {
    values: Vec<V>,
    _phantom: PhantomData<K>,
}

impl<K, V> View for AdjacencyList<K, V> {
    type V = Seq<V>;

    closed spec fn view(&self) -> Seq<V> {
        self.values@
    }
}

impl<K, V> AdjacencyList<K, V> {
    /// A table with the values of `values`, each keyed by its index.
    pub fn from_vec(values: Vec<V>) -> (r: Self)
        ensures
            r@ == values@,
    {
        AdjacencyList { values, _phantom: PhantomData }
    }

    /// An empty table.
    pub fn new() -> (r: Self)
        ensures
            r@ == Seq::<V>::empty(),
    {
        let r = AdjacencyList { values: Vec::new(), _phantom: PhantomData };
        proof {
            assert(r@ =~= Seq::<V>::empty());
        }
        r
    }

    /// Number of entries (one per identifier already assigned).
    pub fn len(&self) -> (r: usize)
        ensures
            r == self@.len(),
    {
        self.values.len()
    }
}

impl<K: EntityKey, V> AdjacencyList<K, V> {
    /// Append a value and mint its identifier: the table's length at the
    /// time of insertion.  The identifier space must not be exhausted.
    pub fn push(&mut self, value: V) -> (k: K)
        requires
            old(self)@.len() < K::key_bound(),
        ensures
            final(self)@ == old(self)@.push(value),
            k.key_spec() == old(self)@.len(),
    {
        let k = K::key_from(self.values.len());
        self.values.push(value);
        k
    }

    /// The value associated with identifier `k`.
    pub fn get(&self, k: K) -> (r: &V)
        requires
            0 <= k.key_spec() < self@.len(),
        ensures
            *r == self@[k.key_spec()],
    {
        &self.values[k.key_index()]
    }

    /// Swap the value associated with identifier `k` with `*value`.
    pub fn swap_at(&mut self, k: K, value: &mut V)
        requires
            0 <= k.key_spec() < old(self)@.len(),
        ensures
            final(self)@ == old(self)@.update(k.key_spec(), *old(value)),
            *final(value) == old(self)@[k.key_spec()],
    {
        let i = k.key_index();
        self.values.set_and_swap(i, value);
    }

    /// Replace the value associated with identifier `k`.
    pub fn set(&mut self, k: K, value: V)
        requires
            0 <= k.key_spec() < old(self)@.len(),
        ensures
            final(self)@ == old(self)@.update(k.key_spec(), value),
    {
        let i = k.key_index();
        self.values.set(i, value);
    }
}

/// A cursor over a table's (identifier, value) pairs in identifier order.
pub struct Iter<'a, K, V> {
    idx: usize,
    values: &'a Vec<V>,
    _phantom: PhantomData<K>,
}

impl<K: EntityKey, V> AdjacencyList<K, V> {
    /// A cursor positioned at the table's first entry.
    pub fn iter(&self) -> (r: Iter<'_, K, V>)
        ensures
            r.spec_values() == self@,
            r.spec_idx() == 0,
    {
        Iter { idx: 0, values: &self.values, _phantom: PhantomData }
    }
}

impl<'a, K: EntityKey, V> Iter<'a, K, V> {
    /// The index of the entry the cursor stands on.
    pub closed spec fn spec_idx(&self) -> int {
        self.idx as int
    }

    /// The table contents the cursor walks.
    pub closed spec fn spec_values(&self) -> Seq<V> {
        self.values@
    }

    /// The pair under the cursor, advancing it; `None` past the end.
    pub fn next(&mut self) -> (r: Option<(K, &'a V)>)
        requires
            old(self).spec_values().len() <= K::key_bound(),
        ensures
            final(self).spec_values() == old(self).spec_values(),
            old(self).spec_idx() < old(self).spec_values().len() ==> ({
                &&& final(self).spec_idx() == old(self).spec_idx() + 1
                &&& r matches Some(p) && p.0.key_spec() == old(self).spec_idx() && *p.1 == old(
                    self,
                ).spec_values()[old(self).spec_idx()]
            }),
            old(self).spec_idx() >= old(self).spec_values().len() ==> r is None && final(self).spec_idx() == old(self).spec_idx(),
    {
        if self.idx < self.values.len() {
            let k = K::key_from(self.idx);
            let v = &self.values[self.idx];
            self.idx = self.idx + 1;
            Some((k, v))
        } else {
            None
        }
    }
}

} // verus!
