//! Sets of bits held in an integer.
use vstd::prelude::*;

verus! {

/// A fixed number of bits, each addressed by its index.
pub trait BitSet: Sized {
    /// How many bits there are.
    spec fn width() -> nat;

    /// Whether bit `index` is set.
    spec fn has(&self, index: nat) -> bool;

    fn clear(&mut self, index: usize)
        requires
            index < Self::width(),
        ensures
            !final(self).has(index as nat),
            forall|j: nat| j < Self::width() && j != index ==> #[trigger] final(self).has(j) == old(self).has(j),
    ;

    fn set(&mut self, index: usize)
        requires
            index < Self::width(),
        ensures
            final(self).has(index as nat),
            forall|j: nat| j < Self::width() && j != index ==> #[trigger] final(self).has(j) == old(self).has(j),
    ;

    fn is_set(&self, index: usize) -> (r: bool)
        requires
            index < Self::width(),
        ensures
            r == self.has(index as nat),
    ;

    /// Flips bit `index`.
    fn toogle(&mut self, index: usize)
        requires
            index < Self::width(),
        ensures
            final(self).has(index as nat) == !old(self).has(index as nat),
            forall|j: nat| j < Self::width() && j != index ==> #[trigger] final(self).has(j) == old(self).has(j),
    {
        if self.is_set(index) {
            self.clear(index);
        } else {
            self.set(index);
        }
    }
}

impl BitSet for u64 {
    open spec fn width() -> nat {
        64
    }

    open spec fn has(&self, index: nat) -> bool {
        (*self >> (index as u64)) & 1 == 1
    }

    fn clear(&mut self, index: usize) {
        let v = *self;
        let i = index as u64;
        *self = v & !(1u64 << i);
        let n = *self;
        assert((n >> i) & 1 != 1) by (bit_vector)
            requires
                n == v & !(1u64 << i),
                i < 64,
        ;
        assert forall|j: nat| j < 64 && j != index implies #[trigger] (*self).has(j) == v.has(j) by {
            let k = j as u64;
            assert((n >> k) & 1 == (v >> k) & 1) by (bit_vector)
                requires
                    n == v & !(1u64 << i),
                    i < 64,
                    k < 64,
                    k != i,
            ;
        }
    }

    fn set(&mut self, index: usize) {
        let v = *self;
        let i = index as u64;
        *self = v | (1u64 << i);
        let n = *self;
        assert((n >> i) & 1 == 1) by (bit_vector)
            requires
                n == v | (1u64 << i),
                i < 64,
        ;
        assert forall|j: nat| j < 64 && j != index implies #[trigger] (*self).has(j) == v.has(j) by {
            let k = j as u64;
            assert((n >> k) & 1 == (v >> k) & 1) by (bit_vector)
                requires
                    n == v | (1u64 << i),
                    i < 64,
                    k < 64,
                    k != i,
            ;
        }
    }

    fn is_set(&self, index: usize) -> (r: bool) {
        (*self >> index as u64) & 1 == 1
    }

    fn toogle(&mut self, index: usize) {
        let v = *self;
        let i = index as u64;
        *self = v ^ (1u64 << i);
        let n = *self;
        assert(((n >> i) & 1 == 1) == !((v >> i) & 1 == 1)) by (bit_vector)
            requires
                n == v ^ (1u64 << i),
                i < 64,
        ;
        assert forall|j: nat| j < 64 && j != index implies #[trigger] (*self).has(j) == v.has(j) by {
            let k = j as u64;
            assert((n >> k) & 1 == (v >> k) & 1) by (bit_vector)
                requires
                    n == v ^ (1u64 << i),
                    i < 64,
                    k < 64,
                    k != i,
            ;
        }
    }
}

} // verus!
