//! Length fields: the values that a length prefix may decode to, and their
//! use as a count.
use vstd::prelude::*;

verus! {

/// A decoded length field.
pub trait LengthField {
    /// The length as a count, or `None` if the machine cannot hold it.
    spec fn spec_length(&self) -> Option<usize>;

    /// The length as a count, or `None` if the machine cannot hold it.
    fn length(&self) -> (n: Option<usize>)
        ensures
            n == self.spec_length(),
    ;
}

impl LengthField for u8 {
    open spec fn spec_length(&self) -> Option<usize> {
        Some(*self as usize)
    }

    fn length(&self) -> (n: Option<usize>) {
        Some(*self as usize)
    }
}

impl LengthField for u16 {
    open spec fn spec_length(&self) -> Option<usize> {
        Some(*self as usize)
    }

    fn length(&self) -> (n: Option<usize>) {
        Some(*self as usize)
    }
}

impl LengthField for u32 {
    open spec fn spec_length(&self) -> Option<usize> {
        Some(*self as usize)
    }

    fn length(&self) -> (n: Option<usize>) {
        Some(*self as usize)
    }
}

impl LengthField for u64 {
    open spec fn spec_length(&self) -> Option<usize> {
        if *self <= usize::MAX {
            Some(*self as usize)
        } else {
            None
        }
    }

    fn length(&self) -> (n: Option<usize>) {
        if *self <= usize::MAX as u64 {
            Some(*self as usize)
        } else {
            None
        }
    }
}

impl LengthField for usize {
    open spec fn spec_length(&self) -> Option<usize> {
        Some(*self)
    }

    fn length(&self) -> (n: Option<usize>) {
        Some(*self)
    }
}

} // verus!
