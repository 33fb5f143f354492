use vstd::prelude::*;

verus! {

/// A set of codes backed by a duplicate-free vector, so that a uniformly
/// random member can be drawn by index. Used by the categorical noiser to
/// keep the codes it has observed.
pub struct VecSet {
    vec: Vec<i64>,
}

impl VecSet {
    /// The codes held, in insertion order.
    pub closed spec fn codes(&self) -> Seq<i64> {
        self.vec@
    }

    /// No code is held twice.
    pub closed spec fn wf(&self) -> bool {
        forall|i: int, j: int| 0 <= i < j < self.vec@.len() ==> self.vec@[i] != self.vec@[j]
    }

    /// an empty set
    pub fn new() -> (r: VecSet)
        ensures
            r.wf(),
            r.codes().len() == 0,
    {
        VecSet { vec: Vec::new() }
    }

    /// the number of distinct codes held
    pub fn len(&self) -> (r: usize)
        ensures
            r == self.codes().len(),
    {
        self.vec.len()
    }

    /// add a code; a code already held leaves the set unchanged
    pub fn insert(&mut self, elem: i64)
        requires
            old(self).wf(),
        ensures
            final(self).wf(),
            final(self).codes() == if old(self).codes().contains(elem) {
                old(self).codes()
            } else {
                old(self).codes().push(elem)
            },
            final(self).codes().contains(elem),
    {
        let mut i: usize = 0;
        let n = self.vec.len();
        while i < n
            invariant
                old(self).wf(),
                self == old(self),
                n == self.vec@.len(),
                0 <= i <= n,
                forall|j: int| 0 <= j < i ==> self.vec@[j] != elem,
            decreases n - i,
        {
            if self.vec[i] == elem {
                proof {
                    assert(self.codes().contains(elem)) by {
                        assert(self.codes()[i as int] == elem);
                    }
                }
                return ;
            }
            i = i + 1;
        }
        proof {
            assert(!old(self).codes().contains(elem));
        }
        self.vec.push(elem);
        proof {
            assert(self.codes().contains(elem)) by {
                assert(self.codes()[old(self).codes().len() as int] == elem);
            }
            assert forall|a: int, b: int| 0 <= a < b < self.vec@.len() implies self.vec@[a]
                != self.vec@[b] by {
                if b == self.vec@.len() - 1 {
                    assert(self.vec@[a] == old(self).vec@[a]);
                    assert(self.vec@[b] == elem);
                } else {
                    assert(self.vec@[a] == old(self).vec@[a]);
                    assert(self.vec@[b] == old(self).vec@[b]);
                }
            }
        }
    }

    /// the code at the given index, if any
    pub fn get(&self, index: usize) -> (r: Option<i64>)
        ensures
            index < self.codes().len() ==> r == Some(self.codes()[index as int]),
            index >= self.codes().len() ==> r is None,
    {
        if index < self.vec.len() {
            Some(self.vec[index])
        } else {
            None
        }
    }

    /// Distinct indices of a well-formed set hold distinct codes.
    pub proof fn lemma_distinct(&self, a: int, b: int)
        requires
            self.wf(),
            0 <= a < b < self.codes().len(),
        ensures
            self.codes()[a] != self.codes()[b],
    {
    }

    /// an owned copy of the set
    pub fn duplicate(&self) -> (r: VecSet)
        requires
            self.wf(),
        ensures
            r.wf(),
            r.codes() == self.codes(),
    {
        let mut v: Vec<i64> = Vec::new();
        let mut i: usize = 0;
        let n = self.vec.len();
        while i < n
            invariant
                n == self.vec@.len(),
                0 <= i <= n,
                v@ == self.vec@.take(i as int),
            decreases n - i,
        {
            v.push(self.vec[i]);
            proof {
                assert(v@ =~= self.vec@.take(i + 1 as int));
            }
            i = i + 1;
        }
        proof {
            assert(v@ =~= self.vec@);
        }
        VecSet { vec: v }
    }
}

impl Default for VecSet {
    fn default() -> (r: VecSet)
        ensures
            r.wf(),
            r.codes().len() == 0,
    {
        VecSet::new()
    }
}

} // verus!
