//! Integers that are never zero.

use vstd::prelude::*;

verus! {

/// A `u32` that is not zero.
#[derive(Debug, Clone, Copy, PartialEq, Eq, PartialOrd, Ord, Hash, Structural)]
pub struct NonZeroU32 {
    value: u32,
}

impl NonZeroU32 {
    #[verifier::type_invariant]
    spec fn non_zero(self) -> bool {
        self.value > 0
    }
}

impl View for NonZeroU32 {
    type V = u32;

    closed spec fn view(&self) -> u32 {
        self.value
    }
}

impl NonZeroU32 {
    /// `value`, unless it is zero.
    pub fn new(value: u32) -> (checked: Option<NonZeroU32>)
        ensures
            checked is Some <==> value > 0,
            checked is Some ==> checked->0@ == value,
    {
        if value > 0 {
            Some(NonZeroU32 { value })
        } else {
            None
        }
    }

    /// The number one.
    pub fn one() -> (one: NonZeroU32)
        ensures
            one@ == 1,
    {
        NonZeroU32 { value: 1 }
    }

    /// The integer.
    pub fn get(self) -> (value: u32)
        ensures
            value == self@,
            value > 0,
    {
        proof {
            use_type_invariant(&self);
        }
        self.value
    }

    /// The sum with `more`, at most `u32::MAX`.
    pub fn saturating_add(self, more: u32) -> (sum: NonZeroU32)
        ensures
            sum@ == if self@ + more <= u32::MAX {
                self@ + more
            } else {
                u32::MAX as int
            },
    {
        proof {
            use_type_invariant(&self);
        }
        NonZeroU32 { value: self.value.saturating_add(more) }
    }
}

/// A `usize` that is not zero.
#[derive(Debug, Clone, Copy, PartialEq, Eq, PartialOrd, Ord, Hash, Structural)]
pub struct NonZeroUsize {
    value: usize,
}

impl NonZeroUsize {
    #[verifier::type_invariant]
    spec fn non_zero(self) -> bool {
        self.value > 0
    }
}

impl View for NonZeroUsize {
    type V = usize;

    closed spec fn view(&self) -> usize {
        self.value
    }
}

impl NonZeroUsize {
    /// `value`, unless it is zero.
    pub fn new(value: usize) -> (checked: Option<NonZeroUsize>)
        ensures
            checked is Some <==> value > 0,
            checked is Some ==> checked->0@ == value,
    {
        if value > 0 {
            Some(NonZeroUsize { value })
        } else {
            None
        }
    }

    /// The number one.
    pub fn one() -> (one: NonZeroUsize)
        ensures
            one@ == 1,
    {
        NonZeroUsize { value: 1 }
    }

    /// The integer.
    pub fn get(self) -> (value: usize)
        ensures
            value == self@,
            value > 0,
    {
        proof {
            use_type_invariant(&self);
        }
        self.value
    }

    /// The sum with `more`, at most `usize::MAX`.
    pub fn saturating_add(self, more: usize) -> (sum: NonZeroUsize)
        ensures
            sum@ == if self@ + more <= usize::MAX {
                self@ + more
            } else {
                usize::MAX as int
            },
    {
        proof {
            use_type_invariant(&self);
        }
        NonZeroUsize { value: self.value.saturating_add(more) }
    }
}

} // verus!
