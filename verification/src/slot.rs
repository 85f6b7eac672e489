//! Slots: the position of a binding among the bindings of its scope.

use vstd::prelude::*;

verus! {

/// The occurrence index of a binding identifier inside a scope, counted from 1.
/// The value 0 stands for "no slot": such a binding keeps its authored name.
#[derive(Debug, Clone, Copy, PartialEq, Eq, PartialOrd, Ord, Structural)]
pub struct Slot(pub usize);

impl Default for Slot {
    /// The slot of a binding that has none.
    fn default() -> (slot: Slot)
        ensures
            slot.0 == 0,
    {
        Slot(0)
    }
}

impl Slot {
    /// The position of this slot in a table indexed from 0.
    pub open spec fn spec_index(self) -> int {
        self.0 - 1
    }

    /// The position of this slot in a table indexed from 0.
    #[inline]
    pub fn index(self) -> (i: usize)
        requires
            self.0 != 0,
        ensures
            i == self.spec_index(),
    {
        self.0 - 1
    }

    /// Whether a slot was assigned.
    #[inline]
    pub fn is_some(self) -> (b: bool)
        ensures
            b == (self.0 != 0),
    {
        self.0 != 0
    }

    /// Moves on to the next slot of the scope.
    #[inline]
    pub fn increment(&mut self)
        requires
            old(self).0 < usize::MAX,
        ensures
            final(self).0 == old(self).0 + 1,
    {
        self.0 += 1;
    }
}

} // verus!
