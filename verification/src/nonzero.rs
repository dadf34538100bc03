//! Integers that are never zero.

use vstd::prelude::*;

verus! {

/// A `u32` that is not zero; the view is the number.
#[derive(Clone, Copy, Debug, PartialEq, Eq, PartialOrd, Ord, Hash)]
pub struct NonZeroU32 {
    value: u32,
}

impl View for NonZeroU32 {
    type V = u32;

    closed spec fn view(&self) -> u32 {
        self.value
    }
}

impl NonZeroU32 {
    #[verifier::type_invariant]
    spec fn nonzero(self) -> bool {
        self.value != 0
    }

    /// The value that holds a number.
    pub closed spec fn of(value: u32) -> NonZeroU32 {
        NonZeroU32 { value }
    }

    /// The number as a nonzero value, or `None` for zero.
    pub fn new(value: u32) -> (result: Option<NonZeroU32>)
        ensures
            result == if value == 0 { None } else { Some(NonZeroU32::of(value)) },
            result matches Some(n) ==> n@ == value,
    {
        if value == 0 {
            None
        } else {
            Some(NonZeroU32 { value })
        }
    }

    /// The given number, or one for zero.
    pub fn at_least_one(value: u32) -> (result: NonZeroU32)
        ensures
            result@ == if value == 0 { 1u32 } else { value },
    {
        if value == 0 {
            NonZeroU32 { value: 1 }
        } else {
            NonZeroU32 { value }
        }
    }

    /// The number itself.
    pub fn get(self) -> (value: u32)
        ensures
            value == self@,
            value != 0,
            self == NonZeroU32::of(value),
    {
        proof {
            use_type_invariant(self);
        }
        self.value
    }

    /// The smaller of two numbers.
    pub fn min(self, other: NonZeroU32) -> (result: NonZeroU32)
        ensures
            result == if other@ < self@ { other } else { self },
    {
        if other.get() < self.get() {
            other
        } else {
            self
        }
    }
}

/// The value that holds a number has it as its view.
pub broadcast proof fn lemma_nonzero_u32_of(value: u32)
    ensures
        (#[trigger] NonZeroU32::of(value))@ == value,
{
}

/// Two nonzero numbers with one view are one value.
pub broadcast proof fn lemma_nonzero_u32_view(a: NonZeroU32, b: NonZeroU32)
    ensures
        (#[trigger] a@ == #[trigger] b@) ==> a == b,
{
}

/// A `usize` that is not zero; the view is the number.
#[derive(Clone, Copy, Debug, PartialEq, Eq, PartialOrd, Ord, Hash)]
pub struct NonZeroUsize {
    value: usize,
}

impl View for NonZeroUsize {
    type V = usize;

    closed spec fn view(&self) -> usize {
        self.value
    }
}

impl NonZeroUsize {
    #[verifier::type_invariant]
    spec fn nonzero(self) -> bool {
        self.value != 0
    }

    /// The number as a nonzero value, or `None` for zero.
    pub fn new(value: usize) -> (result: Option<NonZeroUsize>)
        ensures
            result is Some <==> value != 0,
            result matches Some(n) ==> n@ == value,
    {
        if value == 0 {
            None
        } else {
            Some(NonZeroUsize { value })
        }
    }

    /// The given number, or one for zero.
    pub fn at_least_one(value: usize) -> (result: NonZeroUsize)
        ensures
            result@ == if value == 0 { 1usize } else { value },
    {
        if value == 0 {
            NonZeroUsize { value: 1 }
        } else {
            NonZeroUsize { value }
        }
    }

    /// The number itself.
    pub fn get(self) -> (value: usize)
        ensures
            value == self@,
            value != 0,
    {
        proof {
            use_type_invariant(self);
        }
        self.value
    }
}

} // verus!
