//! A growable sequence backed by a fixed-size array: vec-like pushes
//! without heap allocation, for relationship counts that are small and
//! provably capped (a settle place touches at most three roads).

use vstd::prelude::*;

verus! {

/// A sequence of at most `N` elements stored inline.
///
/// `push` beyond the capacity is a violation of the caller's obligations
/// and is therefore excluded by precondition; `try_push` reports a full
/// collection to callers that cannot rule it out, rather than silently
/// dropping the element.
#[derive(Debug)]
pub struct ArrayVec<T: Copy, const N: usize> {
    storage: [Option<T>; N],
    size: usize,
}

impl<T: Copy, const N: usize> View for ArrayVec<T, N> {
    type V = Seq<T>;

    closed spec fn view(&self) -> Seq<T> {
        Seq::new(self.size as nat, |i: int| self.storage[i]->Some_0)
    }
}

impl<T: Copy, const N: usize> ArrayVec<T, N> {
    #[verifier::type_invariant]
    spec fn wf(self) -> bool {
        &&& self.size <= N
        &&& forall|i: int| 0 <= i < self.size ==> (#[trigger] self.storage[i]) is Some
    }

    /// An empty collection.
    pub fn new() -> (r: Self)
        ensures
            r@ == Seq::<T>::empty(),
    {
        let r = ArrayVec { storage: [None; N], size: 0 };
        proof {
            assert(r@ =~= Seq::<T>::empty());
        }
        r
    }

    /// Number of elements currently held.
    pub fn len(&self) -> (r: usize)
        ensures
            r == self@.len(),
    {
        self.size
    }

    /// Append `value`.  The collection must not be full: exceeding the
    /// capacity would mean a topology invariant was violated upstream.
    pub fn push(&mut self, value: T)
        requires
            old(self)@.len() < N,
        ensures
            final(self)@ == old(self)@.push(value),
    {
        proof {
            use_type_invariant(&*self);
        }
        self.storage[self.size] = Some(value);
        self.size = self.size + 1;
        proof {
            assert(self@ =~= old(self)@.push(value));
        }
    }

    /// Append `value` if there is room, and report whether there was: a
    /// full collection is reported, never silently truncated.
    pub fn try_push(&mut self, value: T) -> (r: bool)
        ensures
            r == (old(self)@.len() < N),
            r ==> final(self)@ == old(self)@.push(value),
            !r ==> final(self)@ == old(self)@,
    {
        proof {
            use_type_invariant(&*self);
        }
        if self.size < N {
            self.push(value);
            true
        } else {
            false
        }
    }

    /// The element at position `i`.
    pub fn get(&self, i: usize) -> (r: T)
        requires
            i < self@.len(),
        ensures
            r == self@[i as int],
    {
        proof {
            use_type_invariant(self);
        }
        match self.storage[i] {
            Some(v) => v,
            None => vstd::pervasive::unreached(),
        }
    }

    /// The initialized elements, copied out in order.
    pub fn to_vec(&self) -> (r: Vec<T>)
        ensures
            r@ == self@,
    {
        proof {
            use_type_invariant(self);
        }
        let mut out: Vec<T> = Vec::new();
        let mut i: usize = 0;
        while i < self.size
            invariant
                i <= self.size,
                self.wf(),
                out@ == self@.subrange(0, i as int),
            decreases self.size - i,
        {
            out.push(self.get(i));
            i = i + 1;
            proof {
                assert(out@ =~= self@.subrange(0, i as int));
            }
        }
        proof {
            assert(out@ =~= self@);
        }
        out
    }
}

} // verus!
