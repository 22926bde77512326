//! A newtype wrapper around a sample vector. The wrapper adds no
//! behavior of its own; it hands out its length and access to the
//! underlying storage for iteration.

use vstd::prelude::*;

verus! {

/// A 1D signal: an ordered, fixed-length collection of samples.
#[derive(Default, Debug, Clone, Ord, PartialOrd, Eq, PartialEq, Hash)]
pub struct Signal<T>(Vec<T>);

impl<T> View for Signal<T> {
    type V = Seq<T>;

    closed spec fn view(&self) -> Seq<T> {
        self.0@
    }
}

impl<T> Signal<T> {
    /// Wraps a vector of samples.
    pub fn new(samples: Vec<T>) -> (s: Signal<T>)
        ensures
            s@ == samples@,
    {
        Signal(samples)
    }

    /// The number of samples.
    pub fn len(&self) -> (n: usize)
        ensures
            n == self@.len(),
    {
        self.0.len()
    }

    /// Read access to the samples, for iteration or indexing.
    pub fn iter(&self) -> (r: &Vec<T>)
        ensures
            r@ == self@,
    {
        &self.0
    }

    /// Mutable access to the samples, for iteration or indexing; the
    /// signal afterwards holds whatever the caller left there.
    pub fn iter_mut(&mut self) -> (r: &mut Vec<T>)
        ensures
            r@ == old(self)@,
            final(self)@ == final(r)@,
    {
        &mut self.0
    }
}

} // verus!
