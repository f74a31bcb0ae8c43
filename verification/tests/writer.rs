use binbin::medium::{Cursor, CursorError, Error, Medium};
use binbin::pack::NulStr;
use binbin::{write_be, write_le, write_vec_be, write_vec_le, Writer};
use binbin::endian::{BigEndian, LittleEndian};

#[test]
fn immediate_only_write_little_endian() {
    let mut buf = Vec::<u8>::new();
    let got_ret = write_vec_le(&mut buf, |w| {
        let cstr = NulStr::from_bytes_with_nul(b"howdy\0").unwrap();
        w.write(0xfeedfacedeadbeef as u64)?;
        w.write(0xdeedbead as u32)?;
        w.write(0x1234 as u16)?;
        w.write(0xff as u8)?;
        w.write(&b"hello"[..])?;
        w.write(cstr)?;
        Ok(9)
    })
    .unwrap();
    assert_eq!(got_ret, 9);
    assert_eq!(
        buf,
        vec![
            0xef, 0xbe, 0xad, 0xde, 0xce, 0xfa, 0xed, 0xfe, // u64
            0xad, 0xbe, 0xed, 0xde, // u32
            0x34, 0x12, // u16
            0xff, // u8
            b'h', b'e', b'l', b'l', b'o', // raw bytes
            b'h', b'o', b'w', b'd', b'y', 0x00, // zero-terminated string
        ]
    );
}

#[test]
fn immediate_only_write_big_endian() {
    let mut buf = Vec::<u8>::new();
    write_vec_be(&mut buf, |w| {
        let cstr = NulStr::from_bytes_with_nul(b"howdy\0").unwrap();
        w.write(0xfeedfacedeadbeef as u64)?;
        w.write(0xdeedbead as u32)?;
        w.write(0x1234 as u16)?;
        w.write(0xff as u8)?;
        w.write(&b"hello"[..])?;
        w.write(cstr)?;
        Ok(())
    })
    .unwrap();
    assert_eq!(
        buf,
        vec![
            0xfe, 0xed, 0xfa, 0xce, 0xde, 0xad, 0xbe, 0xef, // u64
            0xde, 0xed, 0xbe, 0xad, // u32
            0x12, 0x34, // u16
            0xff, // u8
            b'h', b'e', b'l', b'l', b'o', // raw bytes
            b'h', b'o', b'w', b'd', b'y', 0x00, // zero-terminated string
        ]
    );
}

#[test]
fn deferred_write_big_endian() {
    let mut buf = Vec::<u8>::new();
    write_vec_be(&mut buf, |w| {
        let defer = w.deferred(0xffffffff as u32);
        w.write(0xfefefefe as u32)?;
        w.write_placeholder(defer)?;
        w.write(0xfefefefe as u32)?;
        w.write_placeholder(defer)?;
        w.write(0xfefefefe as u32)?;
        let fin = w.resolve(defer, 0x12345678)?;
        w.write(fin)?;
        Ok(())
    })
    .unwrap();
    assert_eq!(
        buf,
        vec![
            0xfe, 0xfe, 0xfe, 0xfe, // immediate
            0x12, 0x34, 0x56, 0x78, // deferred
            0xfe, 0xfe, 0xfe, 0xfe, // immediate
            0x12, 0x34, 0x56, 0x78, // deferred
            0xfe, 0xfe, 0xfe, 0xfe, // immediate
            0x12, 0x34, 0x56, 0x78, // final
        ]
    );
}

#[test]
fn align() {
    let mut buf = Vec::<u8>::new();
    write_vec_be(&mut buf, |w| {
        w.write(0x45 as u8)?;
        w.set_padding(0x3d);
        w.align(4)?;
        w.write(0xfefefefe as u32)?;
        w.align(4)?; // already aligned, so does nothing
        w.write(0x67676767 as u32)?;
        Ok(())
    })
    .unwrap();
    assert_eq!(
        buf,
        vec![
            0x45, // initial byte
            0x3d, 0x3d, 0x3d, // alignment padding
            0xfe, 0xfe, 0xfe, 0xfe, // first u32
            0x67, 0x67, 0x67, 0x67, // second u32
        ]
    );
}

#[test]
fn derive() {
    let mut buf = Vec::<u8>::new();
    let ret_sum = write_vec_be(&mut buf, |w| {
        w.write(0x01 as u8)?;
        w.write(0x02 as u8)?;
        let sum = w.derive(0..2, |r| {
            let mut buf: [u8; 2] = [0, 0];
            r.read(&mut buf)?;

            let mut buf2: [u8; 1] = [0];
            if let Ok(n) = r.read(&mut buf2) {
                if n != 0 {
                    panic!("second read should not succeed");
                }
            }

            Ok(buf[0] + buf[1])
        })?;
        w.write(sum)?;
        Ok(sum)
    })
    .unwrap();
    assert_eq!(buf, vec![0x01, 0x02, 0x03]);
    assert_eq!(ret_sum, 3);
}

#[test]
fn writes_emit_the_concatenation_of_their_renderings() {
    let mut le = Vec::<u8>::new();
    write_vec_le(&mut le, |w| {
        assert_eq!(w.write(0x0102u16)?, 2);
        assert_eq!(w.write(0x03040506u32)?, 4);
        assert_eq!(w.write(0x0708090a0b0c0d0eu64)?, 8);
        assert_eq!(w.write(0x0fu8)?, 1);
        Ok(())
    })
    .unwrap();
    assert_eq!(
        le,
        vec![
            0x02, 0x01, 0x06, 0x05, 0x04, 0x03, 0x0e, 0x0d, 0x0c, 0x0b, 0x0a, 0x09, 0x08, 0x07,
            0x0f
        ]
    );
    // The same value renders the same wherever it is written.
    let mut again = Vec::<u8>::new();
    write_vec_le(&mut again, |w| {
        w.write(0x0fu8)?;
        w.write(0x0102u16)?;
        w.write(0x0102u16)?;
        Ok(())
    })
    .unwrap();
    assert_eq!(again, vec![0x0f, 0x02, 0x01, 0x02, 0x01]);
}

#[test]
fn signed_values_write_their_bit_pattern() {
    let mut buf = Vec::<u8>::new();
    write_vec_be(&mut buf, |w| {
        w.write(-1i8)?;
        w.write(-2i16)?;
        w.write(-3i32)?;
        w.write(-4i64)?;
        w.write(i16::MIN)?;
        Ok(())
    })
    .unwrap();
    assert_eq!(
        buf,
        vec![
            0xff, 0xff, 0xfe, 0xff, 0xff, 0xff, 0xfd, 0xff, 0xff, 0xff, 0xff, 0xff, 0xff, 0xff,
            0xfc, 0x80, 0x00
        ]
    );
}

#[test]
fn resolving_patches_every_placeholder_and_again() {
    let mut buf = Vec::<u8>::new();
    write_vec_le(&mut buf, |w| {
        let slot = w.deferred(0xaaaau16);
        w.write_placeholder(slot)?;
        w.write(0x11u8)?;
        w.write_placeholder(slot)?;
        w.write_placeholder(slot)?;
        assert_eq!(w.position()?, 7);
        assert_eq!(w.resolve(slot, 0x0102)?, 0x0102);
        assert_eq!(w.position()?, 7);
        Ok(())
    })
    .unwrap();
    assert_eq!(buf, vec![0x02, 0x01, 0x11, 0x02, 0x01, 0x02, 0x01]);

    let mut twice = Vec::<u8>::new();
    write_vec_le(&mut twice, |w| {
        let slot = w.deferred(0xaaaau16);
        w.write_placeholder(slot)?;
        w.write(0x11u8)?;
        w.write_placeholder(slot)?;
        w.resolve(slot, 0x0102)?;
        w.resolve(slot, 0x0304)?;
        Ok(())
    })
    .unwrap();
    assert_eq!(twice, vec![0x04, 0x03, 0x11, 0x04, 0x03]);
}

#[test]
fn placeholder_written_after_a_resolve_shows_initial_until_resolved_again() {
    let mut buf = Vec::<u8>::new();
    write_vec_be(&mut buf, |w| {
        let slot = w.deferred(0xeeu8);
        w.write_placeholder(slot)?;
        w.resolve(slot, 0x01)?;
        w.write_placeholder(slot)?;
        Ok(())
    })
    .unwrap();
    assert_eq!(buf, vec![0x01, 0xee]);

    let mut later = Vec::<u8>::new();
    write_vec_be(&mut later, |w| {
        let slot = w.deferred(0xeeu8);
        w.write_placeholder(slot)?;
        w.resolve(slot, 0x01)?;
        w.write_placeholder(slot)?;
        w.resolve(slot, 0x02)?;
        Ok(())
    })
    .unwrap();
    assert_eq!(later, vec![0x02, 0x02]);
}

#[test]
fn unresolved_slot_keeps_its_initial_value() {
    let mut buf = Vec::<u8>::new();
    write_vec_be(&mut buf, |w| {
        let kept = w.deferred(0xcafef00du32);
        let other = w.deferred(0u16);
        w.write(0x01u8)?;
        w.write_placeholder(kept)?;
        w.write_placeholder(other)?;
        w.write(0x02u8)?;
        w.resolve(other, 0xbeef)?;
        Ok(())
    })
    .unwrap();
    assert_eq!(buf, vec![0x01, 0xca, 0xfe, 0xf0, 0x0d, 0xbe, 0xef, 0x02]);
}

#[test]
fn resolve_without_placeholders_writes_nothing() {
    let mut buf = Vec::<u8>::new();
    write_vec_be(&mut buf, |w| {
        let slot = w.deferred(7u32);
        w.write(0x01u8)?;
        assert_eq!(w.resolve(slot, 9)?, 9);
        assert_eq!(w.position()?, 1);
        Ok(())
    })
    .unwrap();
    assert_eq!(buf, vec![0x01]);
}

#[test]
fn write_deferred_opens_and_writes() {
    let mut buf = Vec::<u8>::new();
    write_vec_le(&mut buf, |w| {
        let (mut slot, n) = w.write_deferred(0xffffu16)?;
        assert_eq!(n, 2);
        assert_eq!(slot.pack_len(), 2);
        let (second, m) = w.write_deferred(0x77u8)?;
        assert_eq!(m, 1);
        w.resolve(slot, 0x0a0b)?;
        w.resolve(second, 0x0c)?;
        Ok(())
    })
    .unwrap();
    assert_eq!(buf, vec![0x0b, 0x0a, 0x0c]);
}

#[test]
fn align_pads_to_any_positive_multiple() {
    let mut buf = Vec::<u8>::new();
    write_vec_le(&mut buf, |w| {
        assert_eq!(w.align(3)?, 0);
        w.write(0x01u8)?;
        assert_eq!(w.align(3)?, 2);
        assert_eq!(w.position()?, 3);
        assert_eq!(w.align(3)?, 0);
        w.write(0x0203u16)?;
        assert_eq!(w.align(7)?, 2);
        assert_eq!(w.align(1)?, 0);
        assert_eq!(w.align(10)?, 3);
        assert_eq!(w.position()?, 10);
        Ok(())
    })
    .unwrap();
    assert_eq!(buf, vec![0x01, 0, 0, 0x03, 0x02, 0, 0, 0, 0, 0]);
}

#[test]
fn padding_byte_is_not_retroactive() {
    let mut buf = Vec::<u8>::new();
    write_vec_le(&mut buf, |w| {
        assert_eq!(w.skip(2)?, 2);
        w.set_padding(0xaa);
        assert_eq!(w.skip(3)?, 3);
        assert_eq!(w.skip(0)?, 0);
        w.set_padding(0xbb);
        assert_eq!(w.align(8)?, 3);
        Ok(())
    })
    .unwrap();
    assert_eq!(buf, vec![0, 0, 0xaa, 0xaa, 0xaa, 0xbb, 0xbb, 0xbb]);
}

#[test]
fn subregion_covers_what_its_body_wrote() {
    let mut buf = Vec::<u8>::new();
    let ranges = write_vec_le(&mut buf, |w| {
        w.write(0x01020304u32)?;
        let mut inner = 0..0;
        let mut empty = 0..0;
        let outer = w.subregion(|w| {
            w.write(0xaau8)?;
            inner = w.subregion(|w| {
                w.write(0xbbccu16)?;
                Ok(())
            })?;
            empty = w.subregion(|_| Ok(()))?;
            w.write(0xddu8)?;
            Ok(())
        })?;
        Ok((outer, inner, empty))
    })
    .unwrap();
    assert_eq!(ranges, (4..8, 5..7, 7..7));
    assert_eq!(buf.len(), 8);
}

#[test]
fn subregion_hands_on_the_failure_of_its_body() {
    let mut buf = Vec::<u8>::new();
    let r: Result<(), Error<CursorError>> = write_vec_le(&mut buf, |w| {
        w.subregion(|w| {
            w.write(1u8)?;
            Err(Error::InvalidInput)
        })?;
        Ok(())
    });
    assert_eq!(r, Err(Error::InvalidInput));
    assert_eq!(buf, Vec::<u8>::new());
}

#[test]
fn derive_reads_only_the_range_and_restores_the_position() {
    let mut buf = Vec::<u8>::new();
    write_vec_le(&mut buf, |w| {
        w.write(&[10u8, 11, 12, 13, 14, 15][..])?;
        let seen = w.derive(1..4, |r| {
            let mut first = [0u8; 2];
            assert_eq!(r.read(&mut first)?, 2);
            let mut rest = [0xffu8; 4];
            assert_eq!(r.read(&mut rest)?, 1);
            assert_eq!(r.read(&mut rest)?, 0);
            Ok((first, rest))
        })?;
        assert_eq!(seen, ([11, 12], [13, 0xff, 0xff, 0xff]));
        assert_eq!(w.position()?, 6);
        let nothing = w.derive(3..3, |r| {
            let mut one = [0u8; 1];
            r.read(&mut one)
        })?;
        assert_eq!(nothing, 0);
        assert_eq!(w.position()?, 6);
        w.write(16u8)?;
        Ok(())
    })
    .unwrap();
    assert_eq!(buf, vec![10, 11, 12, 13, 14, 15, 16]);
}

#[test]
fn derive_reads_stop_at_the_end_of_the_medium() {
    let mut buf = Vec::<u8>::new();
    write_vec_le(&mut buf, |w| {
        w.write(&[1u8, 2, 3][..])?;
        let got = w.derive(2..10, |r| {
            let mut four = [9u8; 4];
            let n = r.read(&mut four)?;
            Ok((n, four))
        })?;
        assert_eq!(got, (1, [3, 9, 9, 9]));
        let past = w.derive(7..9, |r| {
            let mut two = [9u8; 2];
            r.read(&mut two)
        })?;
        assert_eq!(past, 0);
        assert_eq!(w.position()?, 3);
        Ok(())
    })
    .unwrap();
    assert_eq!(buf, vec![1, 2, 3]);
}

#[test]
fn derive_refuses_a_range_that_ends_before_it_starts() {
    let mut buf = Vec::<u8>::new();
    write_vec_le(&mut buf, |w| {
        w.write(&[1u8, 2, 3][..])?;
        let r: Result<u8, Error<CursorError>> = w.derive(
            core::ops::Range { start: 2, end: 1 },
            |_| panic!("the callback must not run"),
        );
        assert_eq!(r, Err(Error::InvalidInput));
        assert_eq!(w.position()?, 3);
        w.write(4u8)?;
        Ok(())
    })
    .unwrap();
    assert_eq!(buf, vec![1, 2, 3, 4]);
}

#[test]
fn derive_hands_on_the_failure_of_its_callback_and_restores() {
    let mut buf = Vec::<u8>::new();
    write_vec_le(&mut buf, |w| {
        w.write(&[1u8, 2, 3][..])?;
        let r: Result<u8, Error<CursorError>> = w.derive(0..2, |r| {
            let mut one = [0u8; 1];
            r.read(&mut one)?;
            Err(Error::InvalidInput)
        });
        assert_eq!(r, Err(Error::InvalidInput));
        assert_eq!(w.position()?, 3);
        Ok(())
    })
    .unwrap();
}

#[test]
fn in_memory_writes_start_at_the_beginning_of_the_buffer() {
    let mut buf = vec![1u8, 2, 3, 4];
    write_vec_be(&mut buf, |w| {
        assert_eq!(w.position()?, 0);
        w.write(0xaabbu16)?;
        Ok(())
    })
    .unwrap();
    assert_eq!(buf, vec![0xaa, 0xbb, 3, 4]);
}

#[test]
fn failure_of_the_function_is_returned_and_empties_the_buffer() {
    let mut buf = vec![1u8, 2];
    let r: Result<u8, Error<CursorError>> = write_vec_be(&mut buf, |w| {
        w.write(0xaau8)?;
        Err(Error::InvalidInput)
    });
    assert_eq!(r, Err(Error::InvalidInput));
    assert_eq!(buf, Vec::<u8>::new());
}

#[test]
fn generic_entry_points_return_the_medium() {
    let (medium, ret) = write_le(Cursor::new(Vec::new()), |w| {
        w.write(0x0102u16)?;
        Ok("done")
    })
    .unwrap();
    assert_eq!(ret, "done");
    assert_eq!(medium.into_inner(), vec![0x02, 0x01]);

    let (medium, ret) = write_be(Cursor::new(Vec::new()), |w| {
        w.write(0x0102u16)?;
        Ok(5u8)
    })
    .unwrap();
    assert_eq!(ret, 5);
    assert_eq!(medium.get_ref(), &vec![0x01, 0x02]);
}

#[test]
fn writer_can_be_driven_without_a_closure() {
    let mut start = Cursor::new(vec![9u8, 9, 9]);
    start.seek(2).unwrap();
    let mut w: Writer<Cursor, BigEndian> = Writer::new(start);
    assert_eq!(w.position().unwrap(), 2);
    let slot = w.deferred(0u16);
    w.write_placeholder(slot).unwrap();
    w.write(0x01u8).unwrap();
    w.resolve(slot, 0x0203).unwrap();
    w.flush().unwrap();
    let medium = w.finalize().unwrap();
    assert_eq!(medium.into_inner(), vec![9, 9, 0x02, 0x03, 0x01]);

    let mut le: Writer<Cursor, LittleEndian> = Writer::new(Cursor::new(Vec::new()));
    le.write(0x0203u16).unwrap();
    assert_eq!(le.finalize().unwrap().into_inner(), vec![0x03, 0x02]);
}

#[test]
fn medium_failure_is_reported() {
    let mut far = Cursor::new(Vec::new());
    far.seek(u64::MAX).unwrap();
    let mut w: Writer<Cursor, BigEndian> = Writer::new(far);
    assert_eq!(w.write(1u8), Err(Error::Medium(CursorError::OutOfRange)));

    let mut far = Cursor::new(Vec::new());
    far.seek(u64::MAX).unwrap();
    let mut w: Writer<Cursor, BigEndian> = Writer::new(far);
    let slot = w.deferred(1u8);
    assert_eq!(
        w.write_placeholder(slot),
        Err(Error::Medium(CursorError::OutOfRange))
    );
    // Nothing was recorded for the slot, so resolving it writes nothing.
    assert_eq!(w.resolve(slot, 2), Ok(2));
    assert_eq!(w.finalize().unwrap().into_inner(), Vec::<u8>::new());
}
