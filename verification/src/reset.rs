//! Resetting values to their defaults, one list element at a time: a [`Reset`] pairs a place with the value to
//! put back into it, and [`ResetFn`] folds over a list of them, putting each value back.
use vstd::prelude::*;

use crate::list::FolderFn;

verus! {

/// A place, and the value to put back into it.
pub struct Reset<'a, T: PartialEq> {
    /// The place.
    pub value: &'a mut T,
    /// The value to put back into it.
    pub reset: T,
}

impl<'a, T: PartialEq> Reset<'a, T> {
    /// Pairs the place `value` with the value `reset`.
    pub fn new(value: &'a mut T, reset: T) -> (r: Self)
        ensures
            r.reset == reset,
            *r.value == *old(value),
            *final(r.value) == *final(value),
    {
        Self { value, reset }
    }

    /// Puts the value back into the place.
    pub fn reset(self)
        ensures
            *final(self.value) == self.reset,
    {
        *self.value = self.reset;
    }
}

/// The fold step that puts back the value of each [`Reset`].
pub struct ResetFn;

impl<'a, T: PartialEq> FolderFn<(), Reset<'a, T>> for ResetFn {
    /// Folding returns `()` and leaves the fold step as it is.
    open spec fn folds(&self, accumulator: (), value: Reset<'a, T>, result: (), after: ResetFn) -> bool {
        after == ResetFn
    }

    fn fold(&mut self, accumulator: (), value: Reset<'a, T>)
        ensures
            *final(value.value) == value.reset,
    {
        value.reset();
    }
}

} // verus!
