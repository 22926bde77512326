//! Zero-padding helpers for 1D signals: extend a sequence with trailing
//! zeros to a target length, or equalize the lengths of two sequences.

use vstd::prelude::*;

verus! {

/// Types whose samples can be copied out into a zero-padded vector.
pub trait Pad {
    /// The samples this value holds, in order.
    spec fn samples(&self) -> Seq<i64>;

    /// Returns a fresh copy of the samples extended with trailing zeros to
    /// length `len`; when `len` does not exceed the current length, the
    /// copy carries the samples unchanged.
    fn pad_to(&self, len: usize) -> (r: Vec<i64>)
        ensures
            r@.len() == if len as int >= self.samples().len() {
                len as int
            } else {
                self.samples().len() as int
            },
            forall|i: int| 0 <= i < self.samples().len() ==> r@[i] == self.samples()[i],
            forall|i: int| self.samples().len() <= i < r@.len() ==> r@[i] == 0i64,
    ;
}

impl Pad for Vec<i64> {
    open spec fn samples(&self) -> Seq<i64> {
        self@
    }

    fn pad_to(&self, len: usize) -> (r: Vec<i64>) {
        let mut padded: Vec<i64> = Vec::new();
        let mut i: usize = 0;
        while i < self.len()
            invariant
                0 <= i <= self@.len(),
                padded@.len() == i,
                forall|j: int| 0 <= j < i ==> padded@[j] == self@[j],
            decreases self@.len() - i,
        {
            padded.push(self[i]);
            i += 1;
        }
        while padded.len() < len
            invariant
                self@.len() <= padded@.len(),
                padded@.len() <= len || padded@.len() == self@.len(),
                forall|j: int| 0 <= j < self@.len() ==> padded@[j] == self@[j],
                forall|j: int| self@.len() <= j < padded@.len() ==> padded@[j] == 0i64,
            decreases len - padded@.len(),
        {
            padded.push(0i64);
        }
        padded
    }
}

/// Extends the shorter of the two sequences in place with trailing zeros,
/// so that both end up with the length of the longer one; the longer one
/// and every sample already present are left unchanged.
pub fn pad_equal(a: &mut Vec<i64>, b: &mut Vec<i64>)
    ensures
        final(a)@.len() == if old(a)@.len() >= old(b)@.len() {
            old(a)@.len() as int
        } else {
            old(b)@.len() as int
        },
        final(b)@.len() == final(a)@.len(),
        forall|i: int| 0 <= i < old(a)@.len() ==> final(a)@[i] == old(a)@[i],
        forall|i: int| old(a)@.len() <= i < final(a)@.len() ==> final(a)@[i] == 0i64,
        forall|i: int| 0 <= i < old(b)@.len() ==> final(b)@[i] == old(b)@[i],
        forall|i: int| old(b)@.len() <= i < final(b)@.len() ==> final(b)@[i] == 0i64,
{
    if a.len() < b.len() {
        let target = b.len();
        while a.len() < target
            invariant
                old(a)@.len() <= a@.len() <= target,
                b@ == old(b)@,
                target == old(b)@.len(),
                forall|i: int| 0 <= i < old(a)@.len() ==> a@[i] == old(a)@[i],
                forall|i: int| old(a)@.len() <= i < a@.len() ==> a@[i] == 0i64,
            decreases target - a@.len(),
        {
            a.push(0i64);
        }
    } else if b.len() < a.len() {
        let target = a.len();
        while b.len() < target
            invariant
                old(b)@.len() <= b@.len() <= target,
                a@ == old(a)@,
                target == old(a)@.len(),
                forall|i: int| 0 <= i < old(b)@.len() ==> b@[i] == old(b)@[i],
                forall|i: int| old(b)@.len() <= i < b@.len() ==> b@[i] == 0i64,
            decreases target - b@.len(),
        {
            b.push(0i64);
        }
    }
}

} // verus!
