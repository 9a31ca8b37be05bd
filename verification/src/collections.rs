//! Supporting containers: party indices and hole vectors.
//!
//! A hole vector is a length-N sequence with exactly one reserved slot,
//! the owner's own index. The accumulator variant collects one payload per
//! other party, each slot written exactly once; the protocol's ordering
//! guarantees (duplicate rejection, order independence) rest on the
//! contracts here.

use vstd::prelude::*;

verus! {

/// A party's position among the N protocol participants.
#[derive(Clone, Copy, Debug, PartialEq, Eq, Structural, Hash, PartialOrd, Ord)]
pub struct PartyIdx {
    idx: usize,
}

impl PartyIdx {
    /// The position as a number.
    pub closed spec fn spec_idx(&self) -> int {
        self.idx as int
    }

    pub fn from_usize(i: usize) -> (r: PartyIdx)
        ensures
            r.spec_idx() == i,
    {
        PartyIdx { idx: i }
    }

    pub fn as_usize(&self) -> (r: usize)
        ensures
            r == self.spec_idx(),
    {
        self.idx
    }
}

/// A length-N vector with one permanently reserved index.
///
/// Its view is a sequence of N options in which exactly the hole is `None`.
pub struct HoleVec<T> {
    hole: usize,
    elems: Vec<T>,
}

impl<T> HoleVec<T> {
    /// Number of slots, the hole included.
    pub closed spec fn spec_len(&self) -> nat {
        self.elems@.len() + 1
    }

    /// The reserved index.
    pub closed spec fn hole_idx(&self) -> int {
        self.hole as int
    }

    pub closed spec fn wf(&self) -> bool {
        self.hole <= self.elems@.len() && self.elems@.len() < usize::MAX
    }

    /// The slots: `None` at the hole, the stored element elsewhere.
    pub closed spec fn view_at(&self, i: int) -> Option<T> {
        if i == self.hole {
            None
        } else if i < self.hole {
            Some(self.elems@[i])
        } else {
            Some(self.elems@[i - 1])
        }
    }

    pub fn len(&self) -> (r: usize)
        requires
            self.wf(),
        ensures
            r == self.spec_len(),
    {
        self.elems.len() + 1
    }

    pub fn hole(&self) -> (r: usize)
        ensures
            r == self.hole_idx(),
    {
        self.hole
    }

    /// The element at a non-hole index.
    pub fn get(&self, i: usize) -> (r: &T)
        requires
            self.wf(),
            i < self.spec_len(),
            i != self.hole_idx(),
        ensures
            Some(*r) == self.view_at(i as int),
    {
        if i < self.hole {
            &self.elems[i]
        } else {
            &self.elems[i - 1]
        }
    }

    /// Plugs the owner's own element into the hole, yielding a plain
    /// vector of N elements.
    pub fn into_vec(self, own: T) -> (r: Vec<T>)
        requires
            self.wf(),
        ensures
            r@.len() == self.spec_len(),
            forall|i: int|
                0 <= i < r@.len() ==> #[trigger] r@[i] == if i == self.hole_idx() {
                    own
                } else {
                    self.view_at(i).unwrap()
                },
    {
        let mut v = self.elems;
        let ghost pre = v@;
        v.insert(self.hole, own);
        proof {
            assert(forall|i: int| 0 <= i < self.hole ==> v@[i] == pre[i]);
        }
        v
    }
}

/// An accumulator for one payload from every other party: a vector of
/// option slots with the owner's slot permanently empty.
pub struct HoleVecAccum<T> {
    hole: usize,
    slots: Vec<Option<T>>,
}

impl<T> HoleVecAccum<T> {
    /// The slots as they stand.
    pub closed spec fn view(&self) -> Seq<Option<T>> {
        self.slots@
    }

    pub closed spec fn hole_idx(&self) -> int {
        self.hole as int
    }

    pub closed spec fn wf(&self) -> bool {
        self.hole < self.slots@.len() && self.slots@[self.hole as int] is None
    }

    /// All slots empty.
    pub fn new(num_slots: usize, hole: usize) -> (r: HoleVecAccum<T>)
        requires
            hole < num_slots,
        ensures
            r.wf(),
            r.hole_idx() == hole,
            r@.len() == num_slots,
            forall|i: int| 0 <= i < num_slots ==> r@[i] is None,
    {
        let mut slots: Vec<Option<T>> = Vec::new();
        let mut i: usize = 0;
        while i < num_slots
            invariant
                0 <= i <= num_slots,
                slots@.len() == i,
                forall|j: int| 0 <= j < i ==> slots@[j] is None,
            decreases num_slots - i,
        {
            slots.push(None);
            i += 1;
        }
        HoleVecAccum { hole, slots }
    }

    pub fn len(&self) -> (r: usize)
        ensures
            r == self@.len(),
    {
        self.slots.len()
    }

    pub fn hole(&self) -> (r: usize)
        ensures
            r == self.hole_idx(),
    {
        self.hole
    }

    /// Whether the slot already holds a payload; the hole never does.
    pub fn is_filled(&self, i: usize) -> (r: bool)
        requires
            i < self@.len(),
        ensures
            r == (self@[i as int] is Some),
    {
        self.slots[i].is_some()
    }

    /// Stores a payload in an empty non-hole slot; no other slot changes.
    pub fn insert(&mut self, i: usize, value: T)
        requires
            old(self).wf(),
            i < old(self)@.len(),
            i != old(self).hole_idx(),
            old(self)@[i as int] is None,
        ensures
            final (self).wf(),
            final (self)@ == old(self)@.update(i as int, Some(value)),
            final (self).hole_idx() == old(self).hole_idx(),
    {
        self.slots.set(i, Some(value));
    }

    /// Whether every non-hole slot is filled.
    pub fn can_finalize(&self) -> (r: bool)
        requires
            self.wf(),
        ensures
            r == (forall|i: int|
                0 <= i < self@.len() && i != self.hole_idx() ==> self@[i] is Some),
    {
        let n = self.slots.len();
        let mut i: usize = 0;
        while i < n
            invariant
                self.wf(),
                n == self@.len(),
                0 <= i <= n,
                forall|j: int| 0 <= j < i && j != self.hole_idx() ==> self@[j] is Some,
            decreases n - i,
        {
            if i != self.hole && !self.is_filled(i) {
                return false;
            }
            i += 1;
        }
        true
    }

    /// The indices of the empty non-hole slots: the parties still owed a
    /// message.
    pub fn missing(&self) -> (r: Vec<PartyIdx>)
        requires
            self.wf(),
        ensures
            forall|k: int|
                0 <= k < r@.len() ==> {
                    &&& 0 <= (#[trigger] r@[k]).spec_idx() < self@.len()
                    &&& self@[r@[k].spec_idx()] is None
                    &&& r@[k].spec_idx() != self.hole_idx()
                },
            forall|i: int|
                0 <= i < self@.len() && i != self.hole_idx() && self@[i] is None ==> exists|k: int|
                    0 <= k < r@.len() && (#[trigger] r@[k]).spec_idx() == i,
    {
        let n = self.slots.len();
        let mut out: Vec<PartyIdx> = Vec::new();
        let mut i: usize = 0;
        while i < n
            invariant
                self.wf(),
                n == self@.len(),
                0 <= i <= n,
                forall|k: int|
                    0 <= k < out@.len() ==> {
                        &&& 0 <= (#[trigger] out@[k]).spec_idx() < self@.len()
                        &&& self@[out@[k].spec_idx()] is None
                        &&& out@[k].spec_idx() != self.hole_idx()
                    },
                forall|j: int|
                    0 <= j < i && j != self.hole_idx() && self@[j] is None ==> exists|k: int|
                        0 <= k < out@.len() && (#[trigger] out@[k]).spec_idx() == j,
            decreases n - i,
        {
            if i != self.hole && !self.is_filled(i) {
                let ghost pre = out@;
                out.push(PartyIdx::from_usize(i));
                proof {
                    assert(out@[pre.len() as int].spec_idx() == i);
                    assert(forall|k: int| 0 <= k < pre.len() ==> out@[k] == pre[k]);
                }
            }
            i += 1;
        }
        out
    }

    /// Converts the filled accumulator into a hole vector with the same
    /// slots.
    pub fn finalize(self) -> (r: HoleVec<T>)
        requires
            self.wf(),
            forall|i: int| 0 <= i < self@.len() && i != self.hole_idx() ==> self@[i] is Some,
        ensures
            r.wf(),
            r.spec_len() == self@.len(),
            r.hole_idx() == self.hole_idx(),
            forall|i: int| 0 <= i < self@.len() ==> #[trigger] r.view_at(i) == self@[i],
    {
        let ghost orig = self@;
        let total = self.slots.len();
        let hole = self.hole;
        let mut rest = self.slots;
        rest.remove(hole);
        let ghost removed = orig.remove(hole as int);
        proof {
            orig.remove_ensures(hole as int);
            assert(total == orig.len());
            assert forall|j: int| 0 <= j < removed.len() implies removed[j] is Some by {
                if j < hole {
                    assert(orig.remove(hole as int)[j] == orig[j]);
                    assert(orig[j] is Some);
                } else {
                    assert(orig.remove(hole as int)[j] == orig[j + 1]);
                    assert(orig[j + 1] is Some);
                }
            }
            assert(removed.skip(0) =~= removed);
        }
        let mut out: Vec<T> = Vec::new();
        while rest.len() > 0
            invariant
                removed.len() == orig.len() - 1,
                out@.len() + rest@.len() == removed.len(),
                rest@ =~= removed.skip(out@.len() as int),
                forall|j: int| 0 <= j < removed.len() ==> removed[j] is Some,
                forall|j: int| 0 <= j < out@.len() ==> Some(#[trigger] out@[j]) == removed[j],
            decreases rest@.len(),
        {
            let ghost done = out@.len() as int;
            let o = rest.remove(0);
            proof {
                assert(o == removed.skip(done)[0]);
                assert(rest@ =~= removed.skip(done + 1));
            }
            match o {
                Some(t) => {
                    out.push(t);
                },
                None => {
                    proof {
                        assert(false);
                    }
                },
            }
        }
        HoleVec { hole, elems: out }
    }
}

/// Two deliveries for distinct sender slots commute: an accumulator
/// filled from the same set of payloads reaches the same state whatever
/// the arrival order within the round.
pub proof fn lemma_insert_commutes<T>(base: Seq<Option<T>>, i: int, x: T, j: int, y: T)
    requires
        0 <= i < base.len(),
        0 <= j < base.len(),
        i != j,
    ensures
        base.update(i, Some(x)).update(j, Some(y)) == base.update(j, Some(y)).update(i, Some(x)),
{
    assert(base.update(i, Some(x)).update(j, Some(y)) =~= base.update(j, Some(y)).update(
        i,
        Some(x),
    ));
}

} // verus!
