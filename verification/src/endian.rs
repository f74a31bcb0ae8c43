use vstd::prelude::*;

mod private;

verus! {

/// Byte `i` of `v`, counted from the least significant: bits `8i` to `8i + 7`.
pub open spec fn byte_of(v: u64, i: nat) -> u8 {
    ((v >> ((8 * i) as u64)) & 0xff) as u8
}

/// The low `len` bytes of `v`, least significant byte first.
pub open spec fn le_bytes(v: u64, len: nat) -> Seq<u8> {
    Seq::new(len, |i: int| byte_of(v, i as nat))
}

/// The low `len` bytes of `v`, most significant byte first.
pub open spec fn be_bytes(v: u64, len: nat) -> Seq<u8> {
    Seq::new(len, |i: int| byte_of(v, (len - i - 1) as nat))
}

/// The low `len` bytes of `v` in the byte order that `big` selects.
pub open spec fn int_bytes(v: u64, len: nat, big: bool) -> Seq<u8> {
    if big {
        be_bytes(v, len)
    } else {
        le_bytes(v, len)
    }
}

/// In an encoding of width `len`, little-endian byte `i` is
/// `(v >> 8i) & 0xff` and big-endian byte `i` is `(v >> 8(len - i - 1)) & 0xff`.
pub proof fn law_byte_order(v: u64, len: nat, i: nat)
    requires
        i < len <= 8,
    ensures
        int_bytes(v, len, false).len() == len,
        int_bytes(v, len, true).len() == len,
        int_bytes(v, len, false)[i as int] == ((v >> ((8 * i) as u64)) & 0xff) as u8,
        int_bytes(v, len, true)[i as int] == ((v >> ((8 * (len - i - 1)) as u64)) & 0xff) as u8,
{
}

/// A byte order. Only [`LittleEndian`] and [`BigEndian`] implement it.
pub trait Endian: private::Sealed {
    /// Whether the most significant byte comes first.
    spec fn big() -> bool;

    /// Fills `into` with the least significant `into.len()` bytes of `v`, in
    /// this byte order. Bits of `v` above that width are dropped.
    fn write_integer(v: u64, into: &mut [u8])
        requires
            old(into)@.len() <= 8,
        ensures
            final(into)@ == int_bytes(v, old(into)@.len(), Self::big()),
    ;
}

/// Selects little-endian encoding where a byte order is a type parameter.
/// Only the type is used, never a value.
pub enum LittleEndian {
    LittleEndian,
}

impl Endian for LittleEndian {
    open spec fn big() -> bool {
        false
    }

    fn write_integer(v: u64, into: &mut [u8]) {
        let l: usize = into.len();
        let mut i: usize = 0;
        while i < l
            invariant
                i <= l <= 8,
                into@.len() == l,
                forall|j: int| 0 <= j < i ==> into@[j] == byte_of(v, j as nat),
            decreases l - i,
        {
            let shift: u64 = 8 * (i as u64);
            into[i] = ((v >> shift) & 0xff) as u8;
            i = i + 1;
        }
        assert(into@ =~= le_bytes(v, l as nat));
    }
}

/// Selects big-endian encoding where a byte order is a type parameter.
/// Only the type is used, never a value.
pub enum BigEndian {
    BigEndian,
}

impl Endian for BigEndian {
    open spec fn big() -> bool {
        true
    }

    fn write_integer(v: u64, into: &mut [u8]) {
        let l: usize = into.len();
        let mut i: usize = 0;
        while i < l
            invariant
                i <= l <= 8,
                into@.len() == l,
                forall|j: int| 0 <= j < i ==> into@[j] == byte_of(v, (l - j - 1) as nat),
            decreases l - i,
        {
            let shift: u64 = 8 * ((l - i - 1) as u64);
            into[i] = ((v >> shift) & 0xff) as u8;
            i = i + 1;
        }
        assert(into@ =~= be_bytes(v, l as nat));
    }
}

} // verus!
