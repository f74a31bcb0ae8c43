//! Writing structured binary data whose layout holds forward references.
//!
//! A [`Writer`] renders values onto a [`medium::Medium`] in a single forward
//! pass. Offsets, sizes and checksums that are only known later are written
//! as placeholders first and patched in place once their value is known.
use crate::deferred::Deferred;
use crate::derive::{Bounded, DeriveRead};
use crate::endian::{BigEndian, Endian, LittleEndian};
use crate::medium::{law_write_twice, Cursor, CursorError, Error, Medium, ReadBack, Stream};
use crate::pack::{FixedLenPack, IntoPack, Pack};
use crate::state::{
    law_mark_keeps_placeholders, law_open_keeps_placeholders,
    law_resolve_patches_every_placeholder, law_write_keeps_placeholders, padding_to, patch,
    run_of, State,
};
use vstd::prelude::*;

/// Handles for values that are determined later.
pub mod deferred;

/// The bounded reader that `Writer::derive` lends out.
pub mod derive;

/// Byte orders.
pub mod endian;

/// The storage a writer emits to, and its mathematical model.
pub mod medium;

/// Values that can be rendered as bytes.
pub mod pack;

/// The mathematical model of a writer, and the laws of patching.
pub mod state;

verus! {

/// Runs `f` once on a fresh little-endian writer over the medium `w`, then
/// flushes the medium, and returns it as the flush left it, with what `f`
/// returned.
///
/// Where `f` fails, its failure is returned unchanged and the medium is not
/// flushed. Where `f` succeeds and the flush fails, the failure of the flush
/// is returned as [`Error::Medium`]. Either way the medium is gone, and what
/// it then holds is not defined.
pub fn write_le<M, F, R>(w: M, f: F) -> (r: Result<(M, R), Error<M::Error>>) where
    M: Medium,
    F: FnOnce(&mut Writer<M, LittleEndian>) -> Result<R, Error<M::Error>>,

    requires
        forall|x: &mut Writer<M, LittleEndian>|
            x@ == State::fresh(w.stream()) && x.medium() == w ==> call_requires(f, (x,)),
    ensures
        r matches Ok((m, v)) ==> exists|
            x: &mut Writer<M, LittleEndian>,
            y: &mut M,
            done: Result<(), M::Error>,
        |
            {
                &&& x@ == State::fresh(w.stream())
                &&& x.medium() == w
                &&& #[trigger] call_ensures(f, (x,), Ok::<R, Error<M::Error>>(v))
                &&& *y == final(x).medium()
                &&& #[trigger] call_ensures(M::flush, (y,), done)
                &&& done is Ok
                &&& m == *final(y)
                &&& m.stream() == final(x)@.stream
            },
        r matches Err(e) ==> {
            ||| exists|x: &mut Writer<M, LittleEndian>|
                {
                    &&& x@ == State::fresh(w.stream())
                    &&& x.medium() == w
                    &&& #[trigger] call_ensures(f, (x,), Err::<R, Error<M::Error>>(e))
                }
            ||| exists|x: &mut Writer<M, LittleEndian>, v: R, y: &mut M, done: Result<(), M::Error>|
                {
                    &&& x@ == State::fresh(w.stream())
                    &&& x.medium() == w
                    &&& #[trigger] call_ensures(f, (x,), Ok::<R, Error<M::Error>>(v))
                    &&& *y == final(x).medium()
                    &&& #[trigger] call_ensures(M::flush, (y,), done)
                    &&& done is Err
                    &&& e == Error::Medium(done->Err_0)
                }
        },
{
    write::<M, F, LittleEndian, R>(w, f)
}

/// Runs `f` once on a fresh little-endian writer over the bytes of `into`,
/// starting at their beginning, flushes, and returns what `f` returned.
/// `into` then holds what was written. Where `f` fails, its failure is
/// returned unchanged and `into` is left empty.
pub fn write_vec_le<F, R>(into: &mut Vec<u8>, f: F) -> (r: Result<R, Error<CursorError>>) where
    F: FnOnce(&mut Writer<Cursor, LittleEndian>) -> Result<R, Error<CursorError>>,

    requires
        forall|x: &mut Writer<Cursor, LittleEndian>|
            x@ == State::fresh(Stream { bytes: old(into)@, pos: 0 }) ==> call_requires(f, (x,)),
    ensures
        r matches Ok(v) ==> exists|
            x: &mut Writer<Cursor, LittleEndian>,
            y: &mut Cursor,
            done: Result<(), CursorError>,
        |
            {
                &&& x@ == State::fresh(Stream { bytes: old(into)@, pos: 0 })
                &&& #[trigger] call_ensures(f, (x,), Ok::<R, Error<CursorError>>(v))
                &&& *y == final(x).medium()
                &&& #[trigger] call_ensures(Cursor::flush, (y,), done)
                &&& done is Ok
                &&& final(into)@ == final(y).stream().bytes
                &&& final(into)@ == final(x)@.stream.bytes
            },
        r matches Err(e) ==> final(into)@ == Seq::<u8>::empty() && exists|
            x: &mut Writer<Cursor, LittleEndian>,
        |
            x@ == State::fresh(Stream { bytes: old(into)@, pos: 0 }) && #[trigger] call_ensures(
                f,
                (x,),
                Err::<R, Error<CursorError>>(e),
            ),
{
    write_buf::<F, LittleEndian, R>(into, f)
}

/// Runs `f` once on a fresh big-endian writer over the medium `w`, then
/// flushes the medium, and returns it as the flush left it, with what `f`
/// returned.
///
/// Where `f` fails, its failure is returned unchanged and the medium is not
/// flushed. Where `f` succeeds and the flush fails, the failure of the flush
/// is returned as [`Error::Medium`]. Either way the medium is gone, and what
/// it then holds is not defined.
pub fn write_be<M, F, R>(w: M, f: F) -> (r: Result<(M, R), Error<M::Error>>) where
    M: Medium,
    F: FnOnce(&mut Writer<M, BigEndian>) -> Result<R, Error<M::Error>>,

    requires
        forall|x: &mut Writer<M, BigEndian>|
            x@ == State::fresh(w.stream()) && x.medium() == w ==> call_requires(f, (x,)),
    ensures
        r matches Ok((m, v)) ==> exists|
            x: &mut Writer<M, BigEndian>,
            y: &mut M,
            done: Result<(), M::Error>,
        |
            {
                &&& x@ == State::fresh(w.stream())
                &&& x.medium() == w
                &&& #[trigger] call_ensures(f, (x,), Ok::<R, Error<M::Error>>(v))
                &&& *y == final(x).medium()
                &&& #[trigger] call_ensures(M::flush, (y,), done)
                &&& done is Ok
                &&& m == *final(y)
                &&& m.stream() == final(x)@.stream
            },
        r matches Err(e) ==> {
            ||| exists|x: &mut Writer<M, BigEndian>|
                {
                    &&& x@ == State::fresh(w.stream())
                    &&& x.medium() == w
                    &&& #[trigger] call_ensures(f, (x,), Err::<R, Error<M::Error>>(e))
                }
            ||| exists|x: &mut Writer<M, BigEndian>, v: R, y: &mut M, done: Result<(), M::Error>|
                {
                    &&& x@ == State::fresh(w.stream())
                    &&& x.medium() == w
                    &&& #[trigger] call_ensures(f, (x,), Ok::<R, Error<M::Error>>(v))
                    &&& *y == final(x).medium()
                    &&& #[trigger] call_ensures(M::flush, (y,), done)
                    &&& done is Err
                    &&& e == Error::Medium(done->Err_0)
                }
        },
{
    write::<M, F, BigEndian, R>(w, f)
}

/// Runs `f` once on a fresh big-endian writer over the bytes of `into`,
/// starting at their beginning, flushes, and returns what `f` returned.
/// `into` then holds what was written. Where `f` fails, its failure is
/// returned unchanged and `into` is left empty.
pub fn write_vec_be<F, R>(into: &mut Vec<u8>, f: F) -> (r: Result<R, Error<CursorError>>) where
    F: FnOnce(&mut Writer<Cursor, BigEndian>) -> Result<R, Error<CursorError>>,

    requires
        forall|x: &mut Writer<Cursor, BigEndian>|
            x@ == State::fresh(Stream { bytes: old(into)@, pos: 0 }) ==> call_requires(f, (x,)),
    ensures
        r matches Ok(v) ==> exists|
            x: &mut Writer<Cursor, BigEndian>,
            y: &mut Cursor,
            done: Result<(), CursorError>,
        |
            {
                &&& x@ == State::fresh(Stream { bytes: old(into)@, pos: 0 })
                &&& #[trigger] call_ensures(f, (x,), Ok::<R, Error<CursorError>>(v))
                &&& *y == final(x).medium()
                &&& #[trigger] call_ensures(Cursor::flush, (y,), done)
                &&& done is Ok
                &&& final(into)@ == final(y).stream().bytes
                &&& final(into)@ == final(x)@.stream.bytes
            },
        r matches Err(e) ==> final(into)@ == Seq::<u8>::empty() && exists|
            x: &mut Writer<Cursor, BigEndian>,
        |
            x@ == State::fresh(Stream { bytes: old(into)@, pos: 0 }) && #[trigger] call_ensures(
                f,
                (x,),
                Err::<R, Error<CursorError>>(e),
            ),
{
    write_buf::<F, BigEndian, R>(into, f)
}

/// Runs `f` once on a fresh writer over `w` in the byte order `E`, then
/// flushes the medium and returns it with what `f` returned. A failure of
/// `f` is returned unchanged, without a flush; a failure of the flush is
/// returned as [`Error::Medium`].
pub fn write<M, F, E, R>(w: M, f: F) -> (r: Result<(M, R), Error<M::Error>>) where
    M: Medium,
    F: FnOnce(&mut Writer<M, E>) -> Result<R, Error<M::Error>>,
    E: Endian,

    requires
        forall|x: &mut Writer<M, E>|
            x@ == State::fresh(w.stream()) && x.medium() == w ==> call_requires(f, (x,)),
    ensures
        r matches Ok((m, v)) ==> exists|x: &mut Writer<M, E>, y: &mut M, done: Result<(), M::Error>|
            {
                &&& x@ == State::fresh(w.stream())
                &&& x.medium() == w
                &&& #[trigger] call_ensures(f, (x,), Ok::<R, Error<M::Error>>(v))
                &&& *y == final(x).medium()
                &&& #[trigger] call_ensures(M::flush, (y,), done)
                &&& done is Ok
                &&& m == *final(y)
                &&& m.stream() == final(x)@.stream
            },
        r matches Err(e) ==> {
            ||| exists|x: &mut Writer<M, E>|
                {
                    &&& x@ == State::fresh(w.stream())
                    &&& x.medium() == w
                    &&& #[trigger] call_ensures(f, (x,), Err::<R, Error<M::Error>>(e))
                }
            ||| exists|x: &mut Writer<M, E>, v: R, y: &mut M, done: Result<(), M::Error>|
                {
                    &&& x@ == State::fresh(w.stream())
                    &&& x.medium() == w
                    &&& #[trigger] call_ensures(f, (x,), Ok::<R, Error<M::Error>>(v))
                    &&& *y == final(x).medium()
                    &&& #[trigger] call_ensures(M::flush, (y,), done)
                    &&& done is Err
                    &&& e == Error::Medium(done->Err_0)
                }
        },
{
    let mut wr: Writer<M, E> = Writer::new(w);
    let v: R = match f(&mut wr) {
        Ok(v) => v,
        Err(e) => {
            return Err(e);
        },
    };
    match wr.finalize() {
        Ok(m) => {
            let ghost medium = m;
            let out = Ok((m, v));
            assert(out->Ok_0.0 == medium && out->Ok_0.1 == v);
            out
        },
        Err(e) => Err(e),
    }
}

/// Runs `f` once on a fresh writer over the bytes of `into` in the byte
/// order `E`, flushes, and returns what `f` returned. A failure of `f` is
/// returned unchanged and leaves `into` empty.
pub fn write_buf<F, E, R>(into: &mut Vec<u8>, f: F) -> (r: Result<R, Error<CursorError>>) where
    F: FnOnce(&mut Writer<Cursor, E>) -> Result<R, Error<CursorError>>,
    E: Endian,

    requires
        forall|x: &mut Writer<Cursor, E>|
            x@ == State::fresh(Stream { bytes: old(into)@, pos: 0 }) ==> call_requires(f, (x,)),
    ensures
        r matches Ok(v) ==> exists|
            x: &mut Writer<Cursor, E>,
            y: &mut Cursor,
            done: Result<(), CursorError>,
        |
            {
                &&& x@ == State::fresh(Stream { bytes: old(into)@, pos: 0 })
                &&& #[trigger] call_ensures(f, (x,), Ok::<R, Error<CursorError>>(v))
                &&& *y == final(x).medium()
                &&& #[trigger] call_ensures(Cursor::flush, (y,), done)
                &&& done is Ok
                &&& final(into)@ == final(y).stream().bytes
                &&& final(into)@ == final(x)@.stream.bytes
            },
        r matches Err(e) ==> final(into)@ == Seq::<u8>::empty() && exists|x: &mut Writer<Cursor, E>|
            x@ == State::fresh(Stream { bytes: old(into)@, pos: 0 }) && #[trigger] call_ensures(
                f,
                (x,),
                Err::<R, Error<CursorError>>(e),
            ),
{
    let mut data: Vec<u8> = Vec::new();
    core::mem::swap(&mut data, into);
    let cursor = Cursor::new(data);
    assert(cursor.stream() == Stream { bytes: old(into)@, pos: 0 });
    let done = write::<Cursor, F, E, R>(cursor, f);
    match done {
        Ok((cursor, v)) => {
            assert(done->Ok_0.0 == cursor && done->Ok_0.1 == v);
            *into = cursor.into_inner();
            let ghost value = v;
            let out = Ok(v);
            assert(out->Ok_0 == value);
            out
        },
        Err(e) => Err(e),
    }
}

/// Writes values to a medium in the byte order `E`, and keeps the table of
/// slots whose final values are still to come.
///
/// A value can be pinned to another byte order with
/// [`as_little_endian`](pack::as_little_endian) or
/// [`as_big_endian`](pack::as_big_endian).
///
/// While writing goes on the medium holds the placeholder of every slot
/// that has not been resolved. Once an operation has failed, nothing more is
/// known of the writer or its medium, and neither should be used further.
pub struct Writer<M: Medium, E: Endian> {
    w: DeriveRead<M>,
    map: Vec<Vec<u64>>,
    pad: u8,
    widths: Ghost<Seq<nat>>,
    _phantom: core::marker::PhantomData<E>,
}

impl<M: Medium, E: Endian> View for Writer<M, E> {
    type V = State;

    closed spec fn view(&self) -> State {
        State {
            stream: self.w.stream(),
            slots: Seq::new(
                self.map@.len(),
                |s: int| Seq::new(self.map@[s]@.len(), |k: int| self.map@[s]@[k] as nat),
            ),
            widths: self.widths@,
            padding: self.pad,
        }
    }
}

impl<M: Medium, E: Endian> Writer<M, E> {
    /// A writer over `w`, with no slots and zero as its padding byte.
    pub fn new(w: M) -> (r: Self)
        ensures
            r@ == State::fresh(w.stream()),
            r.medium() == w,
    {
        let r = Self {
            w: DeriveRead::new(w, 0),
            map: Vec::new(),
            pad: 0,
            widths: Ghost(Seq::empty()),
            _phantom: core::marker::PhantomData,
        };
        assert(r@.slots =~= Seq::<Seq<nat>>::empty());
        r
    }

    /// Writes a value at the current position, in the writer's byte order
    /// unless the value is pinned to another, and returns the number of bytes
    /// written.
    pub fn write<V: IntoPack>(&mut self, v: V) -> (r: Result<usize, Error<M::Error>>)
        ensures
            r matches Ok(n) ==> n == v.spec_into_pack().packed(E::big()).len() && final(self)@
                == old(self)@.written(v.spec_into_pack().packed(E::big())),
            r is Ok && old(self)@.wf() ==> final(self)@.wf(),
            r matches Err(e) ==> e is Medium,
            M::steady() && old(self)@.stream.pos + v.spec_into_pack().spec_pack_len()
                <= M::limit() ==> r is Ok,
    {
        proof {
            v.spec_into_pack().packed_len(E::big());
            if old(self)@.wf() {
                law_write_keeps_placeholders(old(self)@, v.spec_into_pack().packed(E::big()));
            }
        }
        match write_intopack_value::<M, V, E>(&mut self.w.r, v) {
            Ok(n) => Ok(n),
            Err(e) => Err(Error::Medium(e)),
        }
    }

    /// Returns the current write position in the medium.
    pub fn position(&mut self) -> (r: Result<u64, Error<M::Error>>)
        ensures
            r matches Ok(p) ==> p == old(self)@.stream.pos && final(self)@ == old(self)@,
            r matches Err(e) ==> e is Medium,
            M::steady() ==> r is Ok,
    {
        match self.w.r.position() {
            Ok(p) => Ok(p),
            Err(e) => Err(Error::Medium(e)),
        }
    }

    /// Changes the byte that later calls of [`skip`](Self::skip) and
    /// [`align`](Self::align) write. Padding that is already written stays.
    pub fn set_padding(&mut self, v: u8)
        ensures
            final(self)@ == old(self)@.padded_with(v),
    {
        self.pad = v;
    }

    /// Writes `count` copies of the padding byte and returns `count`. Where
    /// `count` is zero the medium is not touched, so nothing can fail.
    pub fn skip(&mut self, count: usize) -> (r: Result<usize, Error<M::Error>>)
        ensures
            r matches Ok(n) ==> n == count && final(self)@ == old(self)@.written(
                run_of(old(self)@.padding, count as nat),
            ),
            r is Ok && old(self)@.wf() ==> final(self)@.wf(),
            r matches Err(e) ==> e is Medium,
            count == 0 ==> r is Ok,
            M::steady() && old(self)@.stream.pos + count <= M::limit() ==> r is Ok,
    {
        let mut one: Vec<u8> = Vec::new();
        one.push(self.pad);
        let mut i: usize = 0;
        proof {
            assert(run_of(self.pad, 0) =~= Seq::<u8>::empty());
            assert(self@.stream.write(Seq::empty()).bytes =~= self@.stream.bytes);
        }
        while i < count
            invariant
                i <= count,
                one@ == seq![old(self)@.padding],
                self@ == old(self)@.written(run_of(old(self)@.padding, i as nat)),
            decreases count - i,
        {
            let ghost before = self@;
            match self.w.r.write(one.as_slice()) {
                Ok(_) => {},
                Err(e) => {
                    return Err(Error::Medium(e));
                },
            }
            proof {
                let pad = old(self)@.padding;
                law_write_twice(old(self)@.stream, run_of(pad, i as nat), seq![pad]);
                assert(run_of(pad, i as nat) + seq![pad] =~= run_of(pad, (i + 1) as nat));
            }
            i = i + 1;
        }
        proof {
            if old(self)@.wf() {
                law_write_keeps_placeholders(old(self)@, run_of(old(self)@.padding, count as nat));
            }
        }
        Ok(count)
    }

    /// Writes padding bytes up to the next position that is a multiple of
    /// `n`, and returns their number: none where the position is one
    /// already.
    pub fn align(&mut self, n: usize) -> (r: Result<usize, Error<M::Error>>)
        requires
            n > 0,
        ensures
            r matches Ok(k) ==> k == padding_to(old(self)@.stream.pos, n as nat) && final(self)@
                == old(self)@.written(run_of(old(self)@.padding, k as nat)),
            r is Ok && old(self)@.wf() ==> final(self)@.wf(),
            r matches Err(e) ==> e is Medium,
            M::steady() && old(self)@.stream.pos + padding_to(old(self)@.stream.pos, n as nat)
                <= M::limit() ==> r is Ok,
    {
        let pos: u64 = match self.w.r.position() {
            Ok(p) => p,
            Err(e) => {
                return Err(Error::Medium(e));
            },
        };
        let ofs: u64 = pos % (n as u64);
        if ofs == 0 {
            proof {
                vstd::arithmetic::div_mod::lemma_mod_self_0(n as int);
                assert(run_of(self.pad, 0) =~= Seq::<u8>::empty());
                assert(self@.stream.write(Seq::empty()).bytes =~= self@.stream.bytes);
            }
            return Ok(0);
        }
        let inc: usize = ((n as u64) - ofs) as usize;
        proof {
            vstd::arithmetic::div_mod::lemma_small_mod(inc as nat, n as nat);
        }
        self.skip(inc)
    }

    /// Opens a slot for a value that is only known later, and returns the
    /// handle that names it. Nothing is written.
    ///
    /// [`write_placeholder`](Self::write_placeholder) reserves room for the
    /// value, filled with `initial` for the time being, and
    /// [`resolve`](Self::resolve) puts the final value wherever room was
    /// reserved.
    pub fn deferred<T>(&mut self, initial: T) -> (d: Deferred<T>) where
        T: IntoPack + Copy,
        <T as IntoPack>::PackType: FixedLenPack,

        ensures
            d.slot() == old(self)@.slots.len(),
            d.initial() == initial,
            final(self)@ == old(self)@.opened(Deferred::<T>::width()),
            old(self)@.wf() ==> final(self)@.wf(),
    {
        let next_idx: usize = self.map.len();
        self.map.push(Vec::new());
        proof {
            self.widths = Ghost(self.widths@.push(Deferred::<T>::width()));
            assert(self@.slots =~~= old(self)@.slots.push(Seq::empty()));
            if old(self)@.wf() {
                law_open_keeps_placeholders(old(self)@, Deferred::<T>::width());
            }
        }
        Deferred::new(next_idx, initial)
    }

    /// Writes a placeholder for the slot of `deferred` at the current
    /// position: the slot's initial value, rendered like any other value. The
    /// position where it stands is recorded with the slot, so that
    /// [`resolve`](Self::resolve) finds it. Returns the number of bytes
    /// written.
    ///
    /// The handle must name a slot of this writer. Where the write fails,
    /// nothing is recorded.
    pub fn write_placeholder<T>(&mut self, deferred: Deferred<T>) -> (r: Result<
        usize,
        Error<M::Error>,
    >) where T: IntoPack, <T as IntoPack>::PackType: FixedLenPack
        requires
            0 <= deferred.slot() < old(self)@.slots.len(),
        ensures
            r matches Ok(n) ==> n == Deferred::<T>::width() && final(self)@ == old(self)@.marked(
                deferred.slot(),
                deferred.initial().spec_into_pack().packed(E::big()),
            ),
            r is Ok && old(self)@.wf() && old(self)@.widths[deferred.slot()] == Deferred::<
                T,
            >::width() ==> final(self)@.wf(),
            r matches Err(e) ==> e is Medium && final(self)@.slots == old(self)@.slots,
            M::steady() && old(self)@.stream.pos + Deferred::<T>::width() <= M::limit()
                ==> r is Ok,
    {
        let ghost data = deferred.initial().spec_into_pack().packed(E::big());
        proof {
            deferred.initial().spec_into_pack().packed_len(E::big());
            deferred.initial().spec_into_pack().fixed_len();
        }
        let pos: u64 = match self.w.r.position() {
            Ok(p) => p,
            Err(e) => {
                return Err(Error::Medium(e));
            },
        };
        let size: usize = match write_intopack_value::<M, T, E>(&mut self.w.r, deferred.initial) {
            Ok(n) => n,
            Err(e) => {
                return Err(Error::Medium(e));
            },
        };
        self.map[deferred.idx].push(pos);
        proof {
            assert(self@.slots =~~= old(self)@.marked(deferred.slot(), data).slots);
            if old(self)@.wf() && old(self)@.widths[deferred.slot()] == Deferred::<T>::width() {
                law_mark_keeps_placeholders(old(self)@, deferred.slot(), data);
            }
        }
        Ok(size)
    }

    /// Opens a slot and writes its first placeholder in one call. Returns
    /// the handle and the number of bytes written.
    pub fn write_deferred<T>(&mut self, initial: T) -> (r: Result<
        (Deferred<T>, usize),
        Error<M::Error>,
    >) where T: IntoPack + Copy, <T as IntoPack>::PackType: FixedLenPack
        ensures
            r matches Ok((d, n)) ==> {
                &&& d.slot() == old(self)@.slots.len()
                &&& d.initial() == initial
                &&& n == Deferred::<T>::width()
                &&& final(self)@ == old(self)@.opened(Deferred::<T>::width()).marked(
                    d.slot(),
                    initial.spec_into_pack().packed(E::big()),
                )
            },
            r is Ok && old(self)@.wf() ==> final(self)@.wf(),
            r matches Err(e) ==> e is Medium,
            M::steady() && old(self)@.stream.pos + Deferred::<T>::width() <= M::limit()
                ==> r is Ok,
    {
        let ret = self.deferred(initial);
        match self.write_placeholder(ret) {
            Ok(n) => Ok((ret, n)),
            Err(e) => Err(e),
        }
    }

    /// Gives the slot of `deferred` its value: every placeholder written for
    /// the slot so far is overwritten with `v`, oldest first, and the write
    /// position is put back where it was. Returns `v`.
    ///
    /// A slot can be resolved again; the last value wins at every
    /// placeholder. The handle must name a slot of this writer.
    ///
    /// The position is put back whether the patching succeeded or not: on a
    /// medium whose seeks cannot fail it is as before on every outcome. The
    /// table of slots is never touched.
    pub fn resolve<T>(&mut self, deferred: Deferred<T>, v: T) -> (r: Result<
        T,
        Error<M::Error>,
    >) where T: IntoPack + Copy, <T as IntoPack>::PackType: FixedLenPack
        requires
            0 <= deferred.slot() < old(self)@.slots.len(),
        ensures
            r matches Ok(x) ==> x == v && final(self)@ == old(self)@.resolved(
                deferred.slot(),
                v.spec_into_pack().packed(E::big()),
            ),
            r is Ok && old(self)@.wf() && old(self)@.widths[deferred.slot()] == Deferred::<
                T,
            >::width() ==> {
                &&& final(self)@.wf()
                &&& forall|k: int| #[trigger]
                    final(self)@.has(deferred.slot(), k) ==> final(self)@.shown(deferred.slot(), k)
                        == v.spec_into_pack().packed(E::big())
                &&& forall|t: int, j: int| #[trigger]
                    final(self)@.has(t, j) && t != deferred.slot() ==> final(self)@.shown(t, j)
                        == old(self)@.shown(t, j)
            },
            r matches Err(e) ==> e is Medium,
            final(self)@.slots == old(self)@.slots,
            final(self)@.widths == old(self)@.widths,
            final(self)@.padding == old(self)@.padding,
            M::steady() ==> final(self)@.stream.pos == old(self)@.stream.pos,
            M::steady() && old(self)@.within(deferred.slot(), Deferred::<T>::width(), M::limit())
                ==> r is Ok,
    {
        let reset_pos: u64 = match self.w.r.position() {
            Ok(p) => p,
            Err(e) => {
                return Err(Error::Medium(e));
            },
        };
        let result = self.write_resolved_values(deferred, v);
        match self.w.r.seek(reset_pos) {
            Ok(_) => {},
            Err(e) => {
                return Err(Error::Medium(e));
            },
        }
        proof {
            if result is Ok && old(self)@.wf() && old(self)@.widths[deferred.slot()]
                == Deferred::<T>::width() {
                v.spec_into_pack().packed_len(E::big());
                v.spec_into_pack().fixed_len();
                law_resolve_patches_every_placeholder(
                    old(self)@,
                    deferred.slot(),
                    v.spec_into_pack().packed(E::big()),
                );
                assert forall|t: int, j: int| #[trigger] self@.has(t, j) implies old(self)@.has(
                    t,
                    j,
                ) by {}
            }
        }
        result
    }

    /// Overwrites every placeholder of the slot with `v`, oldest first, and
    /// leaves the position behind the last one.
    fn write_resolved_values<T>(&mut self, deferred: Deferred<T>, v: T) -> (r: Result<
        T,
        Error<M::Error>,
    >) where T: IntoPack + Copy, <T as IntoPack>::PackType: FixedLenPack
        requires
            0 <= deferred.slot() < old(self)@.slots.len(),
        ensures
            r matches Ok(x) ==> {
                &&& x == v
                &&& final(self)@.stream.bytes == patch(
                    old(self)@.stream.bytes,
                    old(self)@.slots[deferred.slot()],
                    v.spec_into_pack().packed(E::big()),
                )
            },
            final(self)@.slots == old(self)@.slots,
            final(self)@.widths == old(self)@.widths,
            final(self)@.padding == old(self)@.padding,
            r matches Err(e) ==> e is Medium,
            M::steady() && old(self)@.within(deferred.slot(), Deferred::<T>::width(), M::limit())
                ==> r is Ok,
    {
        let pv = v.into_pack();
        let ghost data = pv.packed(E::big());
        let ghost offsets = self@.slots[deferred.slot()];
        let ghost start = self@.stream.bytes;
        proof {
            pv.packed_len(E::big());
            pv.fixed_len();
        }
        let n: usize = self.map[deferred.idx].len();
        let mut k: usize = 0;
        while k < n
            invariant
                k <= n,
                deferred.idx < self.map@.len(),
                n == self.map@[deferred.idx as int]@.len(),
                pv == v.spec_into_pack(),
                data == pv.packed(E::big()),
                pv.spec_pack_len() == Deferred::<T>::width(),
                offsets == old(self)@.slots[deferred.slot()],
                start == old(self)@.stream.bytes,
                self@.slots == old(self)@.slots,
                self@.widths == old(self)@.widths,
                self@.padding == old(self)@.padding,
                self@.stream.bytes == patch(start, offsets.take(k as int), data),
            decreases n - k,
        {
            let offset: u64 = self.map[deferred.idx][k];
            assert(offsets[k as int] == offset);
            match self.w.r.seek(offset) {
                Ok(_) => {},
                Err(e) => {
                    return Err(Error::Medium(e));
                },
            }
            match write_pack_value::<M, <T as IntoPack>::PackType, E>(&mut self.w.r, &pv) {
                Ok(_) => {},
                Err(e) => {
                    return Err(Error::Medium(e));
                },
            }
            proof {
                assert(offsets.take(k + 1).drop_last() =~= offsets.take(k as int));
                assert(offsets.take(k + 1).last() == offsets[k as int]);
            }
            k = k + 1;
        }
        assert(offsets.take(n as int) =~= offsets);
        Ok(v)
    }

    /// Runs `f` on this writer and returns the range of positions that it
    /// covered: from the position before `f` to the position after it.
    /// Subregions nest.
    pub fn subregion<F>(&mut self, f: F) -> (r: Result<
        core::ops::Range<u64>,
        Error<M::Error>,
    >) where F: FnOnce(&mut Self) -> Result<(), Error<M::Error>>

        requires
            forall|x: &mut Self| x@ == old(self)@ ==> call_requires(f, (x,)),
        ensures
            r matches Ok(rng) ==> {
                &&& rng.start == old(self)@.stream.pos
                &&& rng.end == final(self)@.stream.pos
                &&& exists|x: &mut Self, done: Result<(), Error<M::Error>>|
                    done is Ok && x@ == old(self)@ && final(x)@ == final(self)@
                        && #[trigger] call_ensures(f, (x,), done)
            },
            r matches Err(e) ==> (!M::steady() && e is Medium) || exists|x: &mut Self|
                x@ == old(self)@ && final(x)@ == final(self)@ && #[trigger] call_ensures(
                    f,
                    (x,),
                    Err::<(), Error<M::Error>>(e),
                ),
    {
        let start_pos: u64 = match self.w.r.position() {
            Ok(p) => p,
            Err(e) => {
                return Err(Error::Medium(e));
            },
        };
        assert(self@ == old(self)@);
        match f(self) {
            Ok(_) => {},
            Err(e) => {
                return Err(e);
            },
        }
        let ghost mid = self@;
        let end_pos: u64 = match self.w.r.position() {
            Ok(p) => p,
            Err(e) => {
                return Err(Error::Medium(e));
            },
        };
        assert(self@ == mid);
        Ok(start_pos..end_pos)
    }

    /// Hands everything written so far on to the medium's destination: the
    /// medium is flushed, and what its flush reports is what is returned, a
    /// failure as [`Error::Medium`]. Slots and padding byte stay as they are
    /// either way.
    pub fn flush(&mut self) -> (r: Result<(), Error<M::Error>>)
        ensures
            exists|x: &mut M, done: Result<(), M::Error>|
                {
                    &&& *x == old(self).medium()
                    &&& *final(x) == final(self).medium()
                    &&& #[trigger] call_ensures(M::flush, (x,), done)
                    &&& done is Ok <==> r is Ok
                    &&& done matches Err(e) ==> r == Err::<(), Error<M::Error>>(Error::Medium(e))
                },
            final(self)@.slots == old(self)@.slots,
            final(self)@.widths == old(self)@.widths,
            final(self)@.padding == old(self)@.padding,
            r is Ok ==> final(self)@ == old(self)@,
            r matches Err(e) ==> e is Medium,
            M::steady() ==> r is Ok,
    {
        match self.w.r.flush() {
            Ok(()) => Ok(()),
            Err(e) => Err(Error::Medium(e)),
        }
    }

    /// Ends writing: flushes the medium and gives it back as the flush left
    /// it. Where the flush fails, its failure is returned as
    /// [`Error::Medium`] and the medium is gone. Slots that were never
    /// resolved keep the placeholders that were written for them.
    pub fn finalize(self) -> (r: Result<M, Error<M::Error>>)
        ensures
            exists|x: &mut M, done: Result<(), M::Error>|
                {
                    &&& *x == self.medium()
                    &&& #[trigger] call_ensures(M::flush, (x,), done)
                    &&& done is Ok <==> r is Ok
                    &&& r matches Ok(m) ==> m == *final(x)
                    &&& done matches Err(e) ==> r == Err::<M, Error<M::Error>>(Error::Medium(e))
                },
            r matches Ok(m) ==> m.stream() == self@.stream,
            r matches Err(e) ==> e is Medium,
            M::steady() ==> r is Ok,
    {
        let mut this = self;
        match this.w.r.flush() {
            Ok(()) => Ok(this.w.r),
            Err(e) => Err(Error::Medium(e)),
        }
    }
}

impl<M: Medium, E: Endian> Writer<M, E> {
    /// The medium that the writer writes to, as it stands.
    pub closed spec fn medium(&self) -> M {
        self.w.r
    }

    /// The state of the writer's medium is the stream of its view.
    pub proof fn law_medium_is_viewed(&self)
        ensures
            self.medium().stream() == self@.stream,
    {
    }
}

impl<M: ReadBack, E: Endian> Writer<M, E> {
    /// Computes a value from bytes that are already written.
    ///
    /// `f` is handed a reader that starts at `rng.start` and yields at most
    /// `rng.end - rng.start` bytes, whatever the medium holds behind them.
    /// Afterwards the write position is put back where it was, whether `f`
    /// succeeded or not, and what `f` returned is returned. A range whose
    /// end lies before its start is refused, and nothing is done.
    pub fn derive<F, T>(&mut self, rng: core::ops::Range<u64>, f: F) -> (r: Result<
        T,
        Error<M::Error>,
    >) where F: FnOnce(&mut DeriveRead<M>) -> Result<T, Error<M::Error>>
        requires
            rng.start <= rng.end ==> forall|x: &mut DeriveRead<M>|
                x.stream() == old(self)@.stream.seek(rng.start as nat) && x.remaining() == rng.end
                    - rng.start ==> call_requires(f, (x,)),
        ensures
            rng.end < rng.start ==> final(self)@ == old(self)@ && r == Err::<T, Error<M::Error>>(
                Error::InvalidInput,
            ),
            rng.start <= rng.end ==> (!M::steady() && r is Err && r->Err_0 is Medium) || exists|
                x: &mut DeriveRead<M>,
            |
                {
                    &&& x.stream() == old(self)@.stream.seek(rng.start as nat)
                    &&& x.remaining() == rng.end - rng.start
                    &&& x.bounded() == Bounded::over(
                        old(self)@.stream.bytes,
                        rng.start as nat,
                        rng.end as nat,
                    )
                    &&& #[trigger] call_ensures(f, (x,), r)
                    &&& final(self)@ == (State {
                        stream: final(x).stream().seek(old(self)@.stream.pos),
                        ..old(self)@
                    })
                },
    {
        if rng.end < rng.start {
            return Err(Error::InvalidInput);
        }
        let len: u64 = rng.end - rng.start;
        let after_pos: u64 = match self.w.r.position() {
            Ok(p) => p,
            Err(e) => {
                return Err(Error::Medium(e));
            },
        };
        match self.w.r.seek(rng.start) {
            Ok(_) => {},
            Err(e) => {
                return Err(Error::Medium(e));
            },
        }
        self.w.limit = len;
        assert(self.w.stream() == old(self)@.stream.seek(rng.start as nat));
        assert(self.w.remaining() == rng.end - rng.start);
        let ret = f(&mut self.w);
        self.w.limit = 0;
        match self.w.r.seek(after_pos) {
            Ok(_) => {},
            Err(e) => {
                return Err(Error::Medium(e));
            },
        }
        ret
    }
}

/// Converts `v` and writes its rendering in the byte order `E` to `w`.
pub fn write_intopack_value<M: Medium, V: IntoPack, E: Endian>(w: &mut M, v: V) -> (r: Result<
    usize,
    M::Error,
>)
    ensures
        r matches Ok(n) ==> n == v.spec_into_pack().packed(E::big()).len() && final(w).stream()
            == old(w).stream().write(v.spec_into_pack().packed(E::big())),
        M::steady() && old(w).stream().pos + v.spec_into_pack().spec_pack_len() <= M::limit()
            ==> r is Ok,
{
    let v = v.into_pack();
    write_pack_value::<M, V::PackType, E>(w, &v)
}

/// Writes the rendering of `v` in the byte order `E` to `w`.
pub fn write_pack_value<M: Medium, V: Pack, E: Endian>(w: &mut M, v: &V) -> (r: Result<
    usize,
    M::Error,
>)
    ensures
        r matches Ok(n) ==> n == v.packed(E::big()).len() && final(w).stream() == old(
            w
        ).stream().write(v.packed(E::big())),
        M::steady() && old(w).stream().pos + v.spec_pack_len() <= M::limit() ==> r is Ok,
{
    let l: usize = v.pack_len();
    let mut buf: Vec<u8> = vec![0u8; l];
    v.pack_into_slice::<E>(buf.as_mut_slice());
    proof {
        v.packed_len(E::big());
    }
    w.write(buf.as_slice())
}

} // verus!
