use crate::endian::{int_bytes, BigEndian, Endian, LittleEndian};
use vstd::prelude::*;

verus! {

/// A value that can be rendered as a run of bytes under a byte order.
pub trait Pack {
    /// The bytes this value is rendered as; `big` selects big-endian order.
    spec fn packed(&self, big: bool) -> Seq<u8>;

    /// The number of bytes this value is rendered as, in either byte order.
    spec fn spec_pack_len(&self) -> nat;

    /// The rendering has the same length in both byte orders.
    proof fn packed_len(&self, big: bool)
        ensures
            self.packed(big).len() == self.spec_pack_len(),
    ;

    /// Returns the number of bytes the value is rendered as.
    fn pack_len(&self) -> (n: usize)
        ensures
            n == self.spec_pack_len(),
    ;

    /// Renders the value into `into`, whose length must be
    /// [`pack_len`](Self::pack_len), in the byte order `E`.
    fn pack_into_slice<E: Endian>(&self, into: &mut [u8])
        requires
            old(into)@.len() == self.spec_pack_len(),
        ensures
            final(into)@ == self.packed(E::big()),
    ;
}

/// A [`Pack`] type all of whose values are rendered in the same number of
/// bytes, so that room for one can be set aside before its value is known.
pub trait FixedLenPack: Pack {
    /// The length of every rendering of this type.
    const PACK_LEN: usize;

    /// Every value of the type is rendered in `PACK_LEN` bytes.
    proof fn fixed_len(&self)
        ensures
            self.spec_pack_len() == Self::PACK_LEN,
    ;
}

/// Pins `v` to little-endian encoding, whatever byte order the writer it is
/// handed to uses. A value that is already pinned keeps the order it has.
pub fn as_little_endian<P: Pack + Sized>(v: P) -> (r: EndianOverride<P, LittleEndian>)
    ensures
        r.value() == v,
        forall|big: bool| #[trigger] r.packed(big) == v.packed(false),
        r.spec_pack_len() == v.spec_pack_len(),
{
    EndianOverride { v: v, phantom: core::marker::PhantomData }
}

/// Pins `v` to big-endian encoding, whatever byte order the writer it is
/// handed to uses. A value that is already pinned keeps the order it has.
pub fn as_big_endian<P: Pack + Sized>(v: P) -> (r: EndianOverride<P, BigEndian>)
    ensures
        r.value() == v,
        forall|big: bool| #[trigger] r.packed(big) == v.packed(true),
        r.spec_pack_len() == v.spec_pack_len(),
{
    EndianOverride { v: v, phantom: core::marker::PhantomData }
}

impl Pack for u8 {
    /// A single byte is the same in both byte orders.
    open spec fn packed(&self, big: bool) -> Seq<u8> {
        seq![*self]
    }

    open spec fn spec_pack_len(&self) -> nat {
        1
    }

    proof fn packed_len(&self, big: bool) {
    }

    fn pack_len(&self) -> (n: usize) {
        <Self as FixedLenPack>::PACK_LEN
    }

    fn pack_into_slice<E: Endian>(&self, into: &mut [u8]) {
        into[0] = *self;
        assert(into@ =~= seq![*self]);
    }
}

impl FixedLenPack for u8 {
    const PACK_LEN: usize = 1;

    proof fn fixed_len(&self) {
    }
}

impl Pack for i8 {
    /// A signed value is rendered as the unsigned value of the same bits.
    open spec fn packed(&self, big: bool) -> Seq<u8> {
        (*self as u8).packed(big)
    }

    open spec fn spec_pack_len(&self) -> nat {
        1
    }

    proof fn packed_len(&self, big: bool) {
    }

    fn pack_len(&self) -> (n: usize) {
        <Self as FixedLenPack>::PACK_LEN
    }

    fn pack_into_slice<E: Endian>(&self, into: &mut [u8]) {
        let bits: u8 = #[verifier::truncate] (*self as u8);
        bits.pack_into_slice::<E>(into)
    }
}

impl FixedLenPack for i8 {
    const PACK_LEN: usize = <u8 as FixedLenPack>::PACK_LEN;

    proof fn fixed_len(&self) {
    }
}

impl Pack for u16 {
    open spec fn packed(&self, big: bool) -> Seq<u8> {
        int_bytes(*self as u64, 2, big)
    }

    open spec fn spec_pack_len(&self) -> nat {
        2
    }

    proof fn packed_len(&self, big: bool) {
    }

    fn pack_len(&self) -> (n: usize) {
        <Self as FixedLenPack>::PACK_LEN
    }

    fn pack_into_slice<E: Endian>(&self, into: &mut [u8]) {
        E::write_integer(*self as u64, into)
    }
}

impl FixedLenPack for u16 {
    const PACK_LEN: usize = 2;

    proof fn fixed_len(&self) {
    }
}

impl Pack for i16 {
    /// A signed value is rendered as the unsigned value of the same bits.
    open spec fn packed(&self, big: bool) -> Seq<u8> {
        (*self as u16).packed(big)
    }

    open spec fn spec_pack_len(&self) -> nat {
        2
    }

    proof fn packed_len(&self, big: bool) {
    }

    fn pack_len(&self) -> (n: usize) {
        <Self as FixedLenPack>::PACK_LEN
    }

    fn pack_into_slice<E: Endian>(&self, into: &mut [u8]) {
        let bits: u16 = #[verifier::truncate] (*self as u16);
        bits.pack_into_slice::<E>(into)
    }
}

impl FixedLenPack for i16 {
    const PACK_LEN: usize = <u16 as FixedLenPack>::PACK_LEN;

    proof fn fixed_len(&self) {
    }
}

impl Pack for u32 {
    open spec fn packed(&self, big: bool) -> Seq<u8> {
        int_bytes(*self as u64, 4, big)
    }

    open spec fn spec_pack_len(&self) -> nat {
        4
    }

    proof fn packed_len(&self, big: bool) {
    }

    fn pack_len(&self) -> (n: usize) {
        <Self as FixedLenPack>::PACK_LEN
    }

    fn pack_into_slice<E: Endian>(&self, into: &mut [u8]) {
        E::write_integer(*self as u64, into)
    }
}

impl FixedLenPack for u32 {
    const PACK_LEN: usize = 4;

    proof fn fixed_len(&self) {
    }
}

impl Pack for i32 {
    /// A signed value is rendered as the unsigned value of the same bits.
    open spec fn packed(&self, big: bool) -> Seq<u8> {
        (*self as u32).packed(big)
    }

    open spec fn spec_pack_len(&self) -> nat {
        4
    }

    proof fn packed_len(&self, big: bool) {
    }

    fn pack_len(&self) -> (n: usize) {
        <Self as FixedLenPack>::PACK_LEN
    }

    fn pack_into_slice<E: Endian>(&self, into: &mut [u8]) {
        let bits: u32 = #[verifier::truncate] (*self as u32);
        bits.pack_into_slice::<E>(into)
    }
}

impl FixedLenPack for i32 {
    const PACK_LEN: usize = <u32 as FixedLenPack>::PACK_LEN;

    proof fn fixed_len(&self) {
    }
}

impl Pack for u64 {
    open spec fn packed(&self, big: bool) -> Seq<u8> {
        int_bytes(*self as u64, 8, big)
    }

    open spec fn spec_pack_len(&self) -> nat {
        8
    }

    proof fn packed_len(&self, big: bool) {
    }

    fn pack_len(&self) -> (n: usize) {
        <Self as FixedLenPack>::PACK_LEN
    }

    fn pack_into_slice<E: Endian>(&self, into: &mut [u8]) {
        E::write_integer(*self as u64, into)
    }
}

impl FixedLenPack for u64 {
    const PACK_LEN: usize = 8;

    proof fn fixed_len(&self) {
    }
}

impl Pack for i64 {
    /// A signed value is rendered as the unsigned value of the same bits.
    open spec fn packed(&self, big: bool) -> Seq<u8> {
        (*self as u64).packed(big)
    }

    open spec fn spec_pack_len(&self) -> nat {
        8
    }

    proof fn packed_len(&self, big: bool) {
    }

    fn pack_len(&self) -> (n: usize) {
        <Self as FixedLenPack>::PACK_LEN
    }

    fn pack_into_slice<E: Endian>(&self, into: &mut [u8]) {
        let bits: u64 = #[verifier::truncate] (*self as u64);
        bits.pack_into_slice::<E>(into)
    }
}

impl FixedLenPack for i64 {
    const PACK_LEN: usize = <u64 as FixedLenPack>::PACK_LEN;

    proof fn fixed_len(&self) {
    }
}

/// Whether `s` ends in a zero byte and holds no other.
pub open spec fn nul_terminated(s: Seq<u8>) -> bool {
    &&& s.len() > 0
    &&& s[s.len() - 1] == 0u8
    &&& forall|i: int| 0 <= i < s.len() - 1 ==> s[i] != 0u8
}

/// A borrowed byte string that ends in its only zero byte.
pub struct NulStr<'a> {
    bytes: &'a [u8],
}

impl<'a> NulStr<'a> {
    /// The bytes of the string, the closing zero byte included.
    pub closed spec fn view(&self) -> Seq<u8> {
        self.bytes@
    }

    #[verifier::type_invariant]
    spec fn terminated(self) -> bool {
        nul_terminated(self.bytes@)
    }

    /// Wraps `bytes` if it ends in a zero byte and holds no other.
    pub fn from_bytes_with_nul(bytes: &'a [u8]) -> (r: Option<NulStr<'a>>)
        ensures
            r is Some <==> nul_terminated(bytes@),
            r matches Some(s) ==> s@ == bytes@,
    {
        let n: usize = bytes.len();
        if n == 0 {
            return None;
        }
        let mut i: usize = 0;
        while i < n - 1
            invariant
                i <= n - 1,
                n == bytes@.len(),
                forall|j: int| 0 <= j < i ==> bytes@[j] != 0u8,
            decreases n - i,
        {
            if bytes[i] == 0 {
                return None;
            }
            i = i + 1;
        }
        if bytes[n - 1] != 0 {
            return None;
        }
        Some(NulStr { bytes })
    }

    /// The bytes of the string, the closing zero byte included.
    pub fn to_bytes_with_nul(&self) -> (bytes: &'a [u8])
        ensures
            bytes@ == self@,
            nul_terminated(bytes@),
    {
        proof {
            use_type_invariant(self);
        }
        self.bytes
    }
}

/// A zero-terminated string is copied as it is, the terminator included.
impl<'a> Pack for NulStr<'a> {
    open spec fn packed(&self, big: bool) -> Seq<u8> {
        self@
    }

    open spec fn spec_pack_len(&self) -> nat {
        self@.len()
    }

    proof fn packed_len(&self, big: bool) {
    }

    fn pack_len(&self) -> (n: usize) {
        self.bytes.len()
    }

    fn pack_into_slice<E: Endian>(&self, into: &mut [u8]) {
        self.bytes.pack_into_slice::<E>(into)
    }
}

/// Raw bytes are copied as they are.
impl Pack for [u8] {
    open spec fn packed(&self, big: bool) -> Seq<u8> {
        self@
    }

    open spec fn spec_pack_len(&self) -> nat {
        self@.len()
    }

    proof fn packed_len(&self, big: bool) {
    }

    fn pack_len(&self) -> (n: usize) {
        self.len()
    }

    fn pack_into_slice<E: Endian>(&self, into: &mut [u8]) {
        let n: usize = self.len();
        let mut i: usize = 0;
        while i < n
            invariant
                i <= n,
                n == self@.len(),
                into@.len() == n,
                forall|j: int| 0 <= j < i ==> into@[j] == self@[j],
            decreases n - i,
        {
            into[i] = self[i];
            i = i + 1;
        }
        assert(into@ =~= self@);
    }
}

/// Raw bytes are copied as they are.
impl Pack for &[u8] {
    open spec fn packed(&self, big: bool) -> Seq<u8> {
        self@
    }

    open spec fn spec_pack_len(&self) -> nat {
        self@.len()
    }

    proof fn packed_len(&self, big: bool) {
    }

    fn pack_len(&self) -> (n: usize) {
        <[u8]>::len(self)
    }

    fn pack_into_slice<E: Endian>(&self, into: &mut [u8]) {
        (**self).pack_into_slice::<E>(into)
    }
}

/// A value pinned to the byte order `E`: it is rendered in that order
/// whatever order it is asked for.
///
/// [`as_little_endian`] and [`as_big_endian`] make one.
pub struct EndianOverride<T: Pack, E: Endian> {
    v: T,
    phantom: core::marker::PhantomData<E>,
}

impl<T: Pack + Copy, E: Endian> Clone for EndianOverride<T, E> {
    fn clone(&self) -> (r: Self)
        ensures
            r == *self,
    {
        *self
    }
}

impl<T: Pack + Copy, E: Endian> Copy for EndianOverride<T, E> {

}

impl<T: Pack, E: Endian> EndianOverride<T, E> {
    /// The value that is pinned.
    pub closed spec fn value(&self) -> T {
        self.v
    }
}

impl<T: Pack, E: Endian> Pack for EndianOverride<T, E> {
    /// The rendering of the pinned value in the order `E`; `big` is ignored.
    closed spec fn packed(&self, big: bool) -> Seq<u8> {
        self.v.packed(E::big())
    }

    closed spec fn spec_pack_len(&self) -> nat {
        self.v.spec_pack_len()
    }

    proof fn packed_len(&self, big: bool) {
        self.v.packed_len(E::big());
    }

    fn pack_len(&self) -> (n: usize) {
        self.v.pack_len()
    }

    fn pack_into_slice<Ignored: Endian>(&self, into: &mut [u8]) {
        self.v.pack_into_slice::<E>(into)
    }
}

impl<T: FixedLenPack, E: Endian> FixedLenPack for EndianOverride<T, E> {
    const PACK_LEN: usize = T::PACK_LEN;

    proof fn fixed_len(&self) {
        self.v.fixed_len();
    }
}

/// A pinned value is rendered as the value it pins is in the pinned order.
pub proof fn law_override_ignores_ambient<T: Pack, E: Endian>(o: EndianOverride<T, E>, big: bool)
    ensures
        o.packed(big) == o.value().packed(E::big()),
        o.spec_pack_len() == o.value().spec_pack_len(),
{
}

/// A value that can be turned into one that implements [`Pack`].
pub trait IntoPack: Sized {
    /// The type that `into_pack` returns.
    type PackType: Pack;

    /// The value that `into_pack` returns.
    spec fn spec_into_pack(self) -> Self::PackType;

    /// Converts the value into one that can be rendered.
    fn into_pack(self) -> (r: Self::PackType)
        ensures
            r == self.spec_into_pack(),
    ;
}

/// Every [`Pack`] value converts to itself.
impl<P: Pack> IntoPack for P {
    type PackType = P;

    open spec fn spec_into_pack(self) -> P {
        self
    }

    fn into_pack(self) -> (r: P) {
        self
    }
}

} // verus!
