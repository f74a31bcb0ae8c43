use binbin::deferred::Deferred;
use binbin::endian::{BigEndian, Endian, LittleEndian};
use binbin::medium::{Cursor, CursorError, Medium, ReadBack};
use binbin::pack::{
    as_big_endian, as_little_endian, EndianOverride, FixedLenPack, IntoPack, NulStr, Pack,
};
use binbin::{write_intopack_value, write_pack_value, write_vec_be, write_vec_le};

fn little(v: u64, width: usize) -> Vec<u8> {
    let mut out = vec![0u8; width];
    LittleEndian::write_integer(v, &mut out);
    out
}

fn big(v: u64, width: usize) -> Vec<u8> {
    let mut out = vec![0u8; width];
    BigEndian::write_integer(v, &mut out);
    out
}

#[test]
fn byte_order_of_every_width() {
    let v: u64 = 0x0102030405060708;
    assert_eq!(little(v, 1), vec![0x08]);
    assert_eq!(little(v, 2), vec![0x08, 0x07]);
    assert_eq!(little(v, 4), vec![0x08, 0x07, 0x06, 0x05]);
    assert_eq!(little(v, 8), vec![0x08, 0x07, 0x06, 0x05, 0x04, 0x03, 0x02, 0x01]);
    assert_eq!(big(v, 1), vec![0x08]);
    assert_eq!(big(v, 2), vec![0x07, 0x08]);
    assert_eq!(big(v, 4), vec![0x05, 0x06, 0x07, 0x08]);
    assert_eq!(big(v, 8), vec![0x01, 0x02, 0x03, 0x04, 0x05, 0x06, 0x07, 0x08]);
    assert_eq!(little(v, 0), Vec::<u8>::new());
    assert_eq!(big(v, 3), vec![0x06, 0x07, 0x08]);
}

#[test]
fn byte_order_follows_the_shift_formula() {
    for v in [0u64, 1, 0xff, 0x1234, 0xdeadbeef, u64::MAX, 0x8000000000000001] {
        for width in [2usize, 4, 8] {
            let le = little(v, width);
            let be = big(v, width);
            for i in 0..width {
                assert_eq!(le[i], ((v >> (8 * i)) & 0xff) as u8);
                assert_eq!(be[i], ((v >> (8 * (width - i - 1))) & 0xff) as u8);
            }
        }
    }
}

#[test]
fn integers_report_their_width() {
    assert_eq!(1u8.pack_len(), 1);
    assert_eq!(1i8.pack_len(), 1);
    assert_eq!(1u16.pack_len(), 2);
    assert_eq!(1i16.pack_len(), 2);
    assert_eq!(1u32.pack_len(), 4);
    assert_eq!(1i32.pack_len(), 4);
    assert_eq!(1u64.pack_len(), 8);
    assert_eq!(1i64.pack_len(), 8);
    assert_eq!(<u8 as FixedLenPack>::PACK_LEN, 1);
    assert_eq!(<i8 as FixedLenPack>::PACK_LEN, 1);
    assert_eq!(<u16 as FixedLenPack>::PACK_LEN, 2);
    assert_eq!(<i16 as FixedLenPack>::PACK_LEN, 2);
    assert_eq!(<u32 as FixedLenPack>::PACK_LEN, 4);
    assert_eq!(<i32 as FixedLenPack>::PACK_LEN, 4);
    assert_eq!(<u64 as FixedLenPack>::PACK_LEN, 8);
    assert_eq!(<i64 as FixedLenPack>::PACK_LEN, 8);
}

#[test]
fn pack_into_slice_renders_in_the_asked_order() {
    let mut two = [0u8; 2];
    0x0102u16.pack_into_slice::<LittleEndian>(&mut two);
    assert_eq!(two, [0x02, 0x01]);
    0x0102u16.pack_into_slice::<BigEndian>(&mut two);
    assert_eq!(two, [0x01, 0x02]);
    let mut one = [0u8; 1];
    (-128i8).pack_into_slice::<BigEndian>(&mut one);
    assert_eq!(one, [0x80]);
    let mut four = [0u8; 4];
    (-2i32).pack_into_slice::<LittleEndian>(&mut four);
    assert_eq!(four, [0xfe, 0xff, 0xff, 0xff]);
}

#[test]
fn raw_bytes_are_copied_verbatim() {
    let bytes: &[u8] = &[3, 0, 1, 2];
    assert_eq!(bytes.pack_len(), 4);
    let mut out = [9u8; 4];
    bytes.pack_into_slice::<BigEndian>(&mut out);
    assert_eq!(out, [3, 0, 1, 2]);
    bytes.pack_into_slice::<LittleEndian>(&mut out);
    assert_eq!(out, [3, 0, 1, 2]);
    let empty: &[u8] = &[];
    assert_eq!(empty.pack_len(), 0);
}

#[test]
fn zero_terminated_strings_are_checked_and_copied() {
    assert!(NulStr::from_bytes_with_nul(b"").is_none());
    assert!(NulStr::from_bytes_with_nul(b"abc").is_none());
    assert!(NulStr::from_bytes_with_nul(b"a\0c\0").is_none());
    assert!(NulStr::from_bytes_with_nul(b"\0\0").is_none());
    let empty = NulStr::from_bytes_with_nul(b"\0").unwrap();
    assert_eq!(empty.pack_len(), 1);
    let s = NulStr::from_bytes_with_nul(b"abc\0").unwrap();
    assert_eq!(s.to_bytes_with_nul(), b"abc\0");
    assert_eq!(s.pack_len(), 4);
    let mut out = [9u8; 4];
    s.pack_into_slice::<LittleEndian>(&mut out);
    assert_eq!(out, [b'a', b'b', b'c', 0]);
}

#[test]
fn override_pins_the_byte_order() {
    let mut buf = Vec::<u8>::new();
    write_vec_be(&mut buf, |w| {
        w.write(0x0102u16)?;
        w.write(as_little_endian(0x0102u16))?;
        w.write(as_big_endian(0x0102u16))?;
        Ok(())
    })
    .unwrap();
    assert_eq!(buf, vec![0x01, 0x02, 0x02, 0x01, 0x01, 0x02]);

    let mut buf = Vec::<u8>::new();
    write_vec_le(&mut buf, |w| {
        w.write(as_big_endian(0x01020304u32))?;
        w.write(0x01020304u32)?;
        Ok(())
    })
    .unwrap();
    assert_eq!(buf, vec![0x01, 0x02, 0x03, 0x04, 0x04, 0x03, 0x02, 0x01]);
}

#[test]
fn override_of_an_override_keeps_the_inner_order() {
    let pinned: EndianOverride<EndianOverride<u16, BigEndian>, LittleEndian> =
        as_little_endian(as_big_endian(0x0102u16));
    assert_eq!(pinned.pack_len(), 2);
    let mut out = [0u8; 2];
    pinned.pack_into_slice::<LittleEndian>(&mut out);
    assert_eq!(out, [0x01, 0x02]);
    let other = as_big_endian(as_little_endian(0x0102u16));
    other.pack_into_slice::<BigEndian>(&mut out);
    assert_eq!(out, [0x02, 0x01]);
}

#[test]
fn override_keeps_a_fixed_length_and_can_be_deferred() {
    assert_eq!(<EndianOverride<u32, LittleEndian> as FixedLenPack>::PACK_LEN, 4);
    assert_eq!(<EndianOverride<i64, BigEndian> as FixedLenPack>::PACK_LEN, 8);
    let mut buf = Vec::<u8>::new();
    write_vec_be(&mut buf, |w| {
        let (mut slot, n) = w.write_deferred(as_little_endian(0xffffu16))?;
        assert_eq!(n, 2);
        assert_eq!(slot.pack_len(), 2);
        w.write(0x0a0bu16)?;
        w.resolve(slot, as_little_endian(0x0102u16))?;
        Ok(())
    })
    .unwrap();
    assert_eq!(buf, vec![0x02, 0x01, 0x0a, 0x0b]);
}

#[test]
fn every_pack_value_converts_to_itself() {
    assert_eq!(7u32.into_pack(), 7u32);
    assert_eq!((-7i16).into_pack(), -7i16);
    let bytes: &[u8] = &[1, 2];
    assert_eq!(bytes.into_pack(), bytes);
}

#[test]
fn handle_is_a_copy_and_reports_its_width() {
    let mut buf = Vec::<u8>::new();
    write_vec_be(&mut buf, |w| {
        let mut a: Deferred<u64> = w.deferred(1u64);
        let mut b = a;
        let mut c = a.clone();
        assert_eq!(a.pack_len(), 8);
        assert_eq!(b.pack_len(), 8);
        assert_eq!(c.pack_len(), 8);
        let mut d = w.deferred(1i8);
        assert_eq!(d.pack_len(), 1);
        w.write_placeholder(b)?;
        w.resolve(c, 0x0102030405060708)?;
        Ok(())
    })
    .unwrap();
    assert_eq!(buf, vec![1, 2, 3, 4, 5, 6, 7, 8]);
}

#[test]
fn free_functions_write_to_a_medium() {
    let mut m = Cursor::new(Vec::new());
    assert_eq!(write_pack_value::<_, _, BigEndian>(&mut m, &0x0102u16), Ok(2));
    assert_eq!(write_intopack_value::<_, _, LittleEndian>(&mut m, 0x0102u16), Ok(2));
    assert_eq!(write_pack_value::<_, _, LittleEndian>(&mut m, &as_big_endian(0x0304u16)), Ok(2));
    assert_eq!(m.into_inner(), vec![0x01, 0x02, 0x02, 0x01, 0x03, 0x04]);
}

#[test]
fn cursor_overwrites_grows_and_fills_gaps_with_zeros() {
    let mut m = Cursor::new(vec![1u8, 2, 3]);
    assert_eq!(m.position(), Ok(0));
    assert_eq!(m.write(&[9]), Ok(1));
    assert_eq!(m.position(), Ok(1));
    assert_eq!(m.seek(2), Ok(2));
    assert_eq!(m.write(&[7, 8]), Ok(2));
    assert_eq!(m.get_ref(), &vec![9, 2, 7, 8]);
    assert_eq!(m.seek(6), Ok(6));
    assert_eq!(m.write(&[]), Ok(0));
    assert_eq!(m.get_ref(), &vec![9, 2, 7, 8]);
    assert_eq!(m.write(&[5]), Ok(1));
    assert_eq!(m.flush(), Ok(()));
    assert_eq!(m.position(), Ok(7));
    assert_eq!(m.into_inner(), vec![9, 2, 7, 8, 0, 0, 5]);
}

#[test]
fn cursor_reads_what_it_holds() {
    let mut m = Cursor::new(vec![1u8, 2, 3]);
    let mut two = [0u8; 2];
    assert_eq!(m.read(&mut two), Ok(2));
    assert_eq!(two, [1, 2]);
    let mut more = [7u8; 2];
    assert_eq!(m.read(&mut more), Ok(1));
    assert_eq!(more, [3, 7]);
    assert_eq!(m.read(&mut more), Ok(0));
    assert_eq!(m.position(), Ok(3));
    m.seek(10).unwrap();
    assert_eq!(m.read(&mut more), Ok(0));
    assert_eq!(more, [3, 7]);
}

#[test]
fn cursor_refuses_a_write_past_what_memory_can_address() {
    let mut m = Cursor::new(vec![1u8]);
    m.seek(u64::MAX).unwrap();
    assert_eq!(m.write(&[1]), Err(CursorError::OutOfRange));
    assert_eq!(m.write(&[]), Ok(0));
    assert_eq!(m.position(), Ok(u64::MAX));
    assert_eq!(m.into_inner(), vec![1]);
}
