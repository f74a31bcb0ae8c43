use vstd::prelude::*;

verus! {

/// Closes [`Endian`](super::Endian) to the two byte orders defined beside it.
pub trait Sealed {

}

impl Sealed for super::BigEndian {

}

impl Sealed for super::LittleEndian {

}

} // verus!
