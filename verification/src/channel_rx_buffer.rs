//! Parts of a receive buffer.

use vstd::prelude::*;

verus! {

/// A part of a buffer, from `start` up to `end`.
pub struct FragmentDescriptor {
    pub start: usize,
    pub end: usize,
}

impl FragmentDescriptor {
    /// Whether there is anything in the fragment.
    pub open spec fn has_items(&self) -> bool {
        self.start < self.end
    }

    pub fn clear(&mut self)
        ensures
            !final(self).has_items(),
            *final(self) == (FragmentDescriptor { end: 0, ..*old(self) }),
    {
        self.end = 0;
    }

    pub fn is_some(&self) -> (some: bool)
        ensures
            some == self.has_items(),
    {
        self.start < self.end
    }

    pub fn is_none(&self) -> (none: bool)
        ensures
            none == !self.has_items(),
    {
        !self.is_some()
    }
}

} // verus!
