use crate::pack::{FixedLenPack, IntoPack};
use vstd::prelude::*;

verus! {

/// A handle for a value that is only known later in the course of writing.
///
/// It names a slot in the table of the writer that issued it and carries the
/// value that stands in until the slot is resolved. It is a plain copyable
/// index: the slot itself stays with the writer.
pub struct Deferred<T> {
    pub(crate) idx: usize,
    pub(crate) initial: T,
}

impl<T: Copy> Clone for Deferred<T> {
    fn clone(&self) -> (r: Self)
        ensures
            r == *self,
    {
        *self
    }
}

impl<T: Copy> Copy for Deferred<T> {

}

impl<T> Deferred<T> {
    /// The index of the slot that the handle names.
    pub open(crate) spec fn slot(&self) -> int {
        self.idx as int
    }

    /// The value written wherever a placeholder for the slot is asked for.
    pub open(crate) spec fn initial(&self) -> T {
        self.initial
    }

    pub(crate) fn new(idx: usize, initial: T) -> (d: Self)
        ensures
            d.slot() == idx,
            d.initial() == initial,
    {
        Self { idx: idx, initial: initial }
    }
}

impl<T> Deferred<T> where T: IntoPack, <T as IntoPack>::PackType: FixedLenPack {
    /// The number of bytes that every value of the slot is rendered in.
    pub open spec fn width() -> nat {
        <<T as IntoPack>::PackType as FixedLenPack>::PACK_LEN as nat
    }

    /// Returns the size, in bytes, that the deferred value takes up when
    /// written.
    pub fn pack_len(&mut self) -> (n: usize)
        ensures
            n == Self::width(),
            *final(self) == *old(self),
    {
        <<T as IntoPack>::PackType as FixedLenPack>::PACK_LEN
    }
}

} // verus!
