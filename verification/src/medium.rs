use vstd::prelude::*;

verus! {

/// The bytes `base` holds after `data` has been stored at offset `at`.
///
/// Bytes under `data` are replaced, the sequence grows where `data` reaches
/// past its end, and a gap between the old end and `at` reads as zeros.
/// Storing nothing changes nothing.
pub open spec fn overwrite(base: Seq<u8>, at: nat, data: Seq<u8>) -> Seq<u8> {
    Seq::new(
        if data.len() == 0 || base.len() >= at + data.len() {
            base.len()
        } else {
            at + data.len()
        },
        |i: int|
            if at <= i < at + data.len() {
                data[i - at]
            } else if i < base.len() {
                base[i]
            } else {
                0u8
            },
    )
}

/// The `len` bytes that `bytes` shows from offset `at` on. Past the end of
/// `bytes` a window shows zeros, as a gap does once something is written
/// behind it.
pub open spec fn window(bytes: Seq<u8>, at: nat, len: nat) -> Seq<u8> {
    Seq::new(
        len,
        |i: int|
            if at + i < bytes.len() {
                bytes[at + i]
            } else {
                0u8
            },
    )
}

/// The observable state of a medium: everything it holds, and the absolute
/// offset at which the next sequential write or read takes place.
pub struct Stream {
    pub bytes: Seq<u8>,
    pub pos: nat,
}

impl Stream {
    /// The state after `data` has been written at the current position.
    pub open spec fn write(self, data: Seq<u8>) -> Stream {
        Stream { bytes: overwrite(self.bytes, self.pos, data), pos: self.pos + data.len() }
    }

    /// The state after an absolute seek to `to`.
    pub open spec fn seek(self, to: nat) -> Stream {
        Stream { bytes: self.bytes, pos: to }
    }

    /// What a sequential read of at most `max` bytes returns: the bytes from
    /// the current position on, cut off at `max` and at the end of the medium.
    pub open spec fn readable(self, max: nat) -> Seq<u8> {
        if self.pos >= self.bytes.len() {
            Seq::empty()
        } else if self.pos + max <= self.bytes.len() {
            self.bytes.subrange(self.pos as int, (self.pos + max) as int)
        } else {
            self.bytes.subrange(self.pos as int, self.bytes.len() as int)
        }
    }

    /// The state after each chunk of `chunks` has been written in turn.
    pub open spec fn write_each(self, chunks: Seq<Seq<u8>>) -> Stream
        decreases chunks.len(),
    {
        if chunks.len() == 0 {
            self
        } else {
            self.write_each(chunks.drop_last()).write(chunks.last())
        }
    }
}

/// The concatenation of `chunks`, first chunk first.
pub open spec fn concat(chunks: Seq<Seq<u8>>) -> Seq<u8>
    decreases chunks.len(),
{
    if chunks.len() == 0 {
        Seq::empty()
    } else {
        concat(chunks.drop_last()) + chunks.last()
    }
}

/// Two writes in a row store what one write of the joined data stores.
pub proof fn law_write_twice(s: Stream, a: Seq<u8>, b: Seq<u8>)
    ensures
        s.write(a).write(b) == s.write(a + b),
{
    assert(s.write(a).write(b).bytes =~= s.write(a + b).bytes);
}

/// Any run of writes emits the concatenation of what was written, in order of
/// writing, starting at the position where the first write began.
pub proof fn law_writes_concatenate(s: Stream, chunks: Seq<Seq<u8>>)
    ensures
        s.write_each(chunks) == s.write(concat(chunks)),
    decreases chunks.len(),
{
    if chunks.len() == 0 {
        assert(s.write(Seq::empty()).bytes =~= s.bytes);
    } else {
        law_writes_concatenate(s, chunks.drop_last());
        law_write_twice(s, concat(chunks.drop_last()), chunks.last());
    }
}

/// A write that starts at the end of the medium appends: the medium then
/// holds what it held, followed by the data.
pub proof fn law_write_at_end_appends(s: Stream, data: Seq<u8>)
    requires
        s.pos == s.bytes.len(),
    ensures
        s.write(data).bytes == s.bytes + data,
{
    assert(s.write(data).bytes =~= s.bytes + data);
}

/// A write stores exactly the data at the write position and leaves every
/// window that ends at or before the write position as it was.
pub proof fn law_write_is_local(s: Stream, data: Seq<u8>, at: nat, len: nat)
    requires
        at + len <= s.pos,
    ensures
        window(s.write(data).bytes, s.pos, data.len()) == data,
        window(s.write(data).bytes, at, len) == window(s.bytes, at, len),
{
    assert(window(s.write(data).bytes, s.pos, data.len()) =~= data);
    assert(window(s.write(data).bytes, at, len) =~= window(s.bytes, at, len));
}

/// Why an operation of this library failed.
#[derive(Debug, PartialEq, Eq)]
pub enum Error<E> {
    /// The arguments do not describe anything to work on.
    InvalidInput,
    /// The medium reported a failure, carried here as it came.
    Medium(E),
}

/// A place to write to: sequential writes, absolute seeks, and a query for
/// the current position.
///
/// After an operation has failed, nothing more is known of the medium.
pub trait Medium: Sized {
    /// What the medium reports when an operation fails.
    type Error;

    /// The bytes the medium holds and its current position.
    spec fn stream(&self) -> Stream;

    /// Whether media of this type are free of outside failure: if so, every
    /// operation succeeds, except a write that would end past `limit()`.
    spec fn steady() -> bool;

    /// The end offset up to which a steady medium accepts writes.
    spec fn limit() -> u64;

    /// Stores all of `buf` at the current position and moves the position
    /// past it.
    fn write(&mut self, buf: &[u8]) -> (r: Result<usize, Self::Error>)
        ensures
            r matches Ok(n) ==> n == buf@.len() && final(self).stream() == old(self).stream().write(
                buf@,
            ),
            Self::steady() && old(self).stream().pos + buf@.len() <= Self::limit() ==> r is Ok,
    ;

    /// Moves the position to the absolute offset `to`.
    fn seek(&mut self, to: u64) -> (r: Result<u64, Self::Error>)
        ensures
            r matches Ok(p) ==> p == to && final(self).stream() == old(self).stream().seek(
                to as nat,
            ),
            Self::steady() ==> r is Ok,
    ;

    /// Reports the current position.
    fn position(&mut self) -> (r: Result<u64, Self::Error>)
        ensures
            r matches Ok(p) ==> p == old(self).stream().pos && final(self).stream() == old(
                self,
            ).stream(),
            Self::steady() ==> r is Ok,
    ;

    /// Hands everything written so far on to its destination.
    fn flush(&mut self) -> (r: Result<(), Self::Error>)
        ensures
            r is Ok ==> final(self).stream() == old(self).stream(),
            Self::steady() ==> r is Ok,
    ;
}

/// A medium that can also be read back sequentially.
pub trait ReadBack: Medium {
    /// Reads from the current position into the front of `buf`, as many
    /// bytes as `buf` takes and the medium still holds, and moves the
    /// position past them. The rest of `buf` is left as it was.
    fn read(&mut self, buf: &mut [u8]) -> (r: Result<usize, Self::Error>)
        ensures
            final(buf)@.len() == old(buf)@.len(),
            r matches Ok(n) ==> {
                let got = old(self).stream().readable(old(buf)@.len());
                &&& n == got.len()
                &&& final(buf)@ == got + old(buf)@.subrange(n as int, old(buf)@.len() as int)
                &&& final(self).stream() == old(self).stream().seek(
                    old(self).stream().pos + got.len(),
                )
            },
            Self::steady() ==> r is Ok,
    ;
}

/// Why an in-memory medium refused a write.
#[derive(Debug, PartialEq, Eq)]
pub enum CursorError {
    /// The write would end past the largest offset that memory can address.
    OutOfRange,
}

/// A growable byte buffer with a position: the in-memory medium.
///
/// It never fails but for a write that would end past `usize::MAX`.
pub struct Cursor {
    data: Vec<u8>,
    pos: u64,
}

/// `base`, grown with zeros to the length `at` where it is shorter.
pub open spec fn padded(base: Seq<u8>, at: nat) -> Seq<u8> {
    Seq::new(
        if base.len() >= at {
            base.len()
        } else {
            at
        },
        |i: int|
            if i < base.len() {
                base[i]
            } else {
                0u8
            },
    )
}

impl Cursor {
    /// A cursor over `data`, positioned at its start.
    pub fn new(data: Vec<u8>) -> (c: Cursor)
        ensures
            c.stream() == (Stream { bytes: data@, pos: 0 }),
    {
        Cursor { data, pos: 0 }
    }

    /// The buffer, given back.
    pub fn into_inner(self) -> (data: Vec<u8>)
        ensures
            data@ == self.stream().bytes,
    {
        self.data
    }

    /// The buffer as it stands.
    pub fn get_ref(&self) -> (data: &Vec<u8>)
        ensures
            data@ == self.stream().bytes,
    {
        &self.data
    }
}

impl Medium for Cursor {
    type Error = CursorError;

    closed spec fn stream(&self) -> Stream {
        Stream { bytes: self.data@, pos: self.pos as nat }
    }

    open spec fn steady() -> bool {
        true
    }

    open spec fn limit() -> u64 {
        usize::MAX as u64
    }

    fn write(&mut self, buf: &[u8]) -> (r: Result<usize, CursorError>)
        ensures
            r is Ok <==> old(self).stream().pos + buf@.len() <= usize::MAX,
            r is Err ==> final(self).stream() == old(self).stream(),
    {
        let n: usize = buf.len();
        if self.pos > usize::MAX as u64 {
            return Err(CursorError::OutOfRange);
        }
        let at: usize = self.pos as usize;
        if n > usize::MAX - at {
            return Err(CursorError::OutOfRange);
        }
        if n == 0 {
            assert(overwrite(self.data@, at as nat, buf@) =~= self.data@);
            return Ok(0);
        }
        let ghost before = self.data@;
        while self.data.len() < at
            invariant
                self.pos == at,
                self.data@.len() > before.len() ==> self.data@.len() <= at,
                self.data@.len() >= before.len(),
                forall|j: int| 0 <= j < before.len() ==> self.data@[j] == before[j],
                forall|j: int| before.len() <= j < self.data@.len() ==> self.data@[j] == 0u8,
            decreases at - self.data@.len(),
        {
            self.data.push(0u8);
        }
        assert(self.data@ =~= padded(before, at as nat));
        let mut i: usize = 0;
        while i < n
            invariant
                i <= n,
                n == buf@.len(),
                at + n <= usize::MAX,
                self.pos == at,
                self.data@.len() >= at,
                self.data@ =~= overwrite(padded(before, at as nat), at as nat, buf@.take(i as int)),
            decreases n - i,
        {
            let b: u8 = buf[i];
            if at + i < self.data.len() {
                self.data[at + i] = b;
            } else {
                self.data.push(b);
            }
            i = i + 1;
        }
        assert(buf@.take(n as int) =~= buf@);
        assert(self.data@ =~= overwrite(before, at as nat, buf@));
        self.pos = (at + n) as u64;
        Ok(n)
    }

    fn seek(&mut self, to: u64) -> (r: Result<u64, CursorError>) {
        self.pos = to;
        Ok(to)
    }

    fn position(&mut self) -> (r: Result<u64, CursorError>) {
        Ok(self.pos)
    }

    fn flush(&mut self) -> (r: Result<(), CursorError>) {
        Ok(())
    }
}

impl ReadBack for Cursor {
    fn read(&mut self, buf: &mut [u8]) -> (r: Result<usize, CursorError>) {
        let len: usize = self.data.len();
        if self.pos >= len as u64 {
            assert(buf@ =~= Seq::<u8>::empty() + buf@.subrange(0, buf@.len() as int));
            return Ok(0);
        }
        let at: usize = self.pos as usize;
        let avail: usize = len - at;
        let n: usize = if buf.len() < avail {
            buf.len()
        } else {
            avail
        };
        let mut i: usize = 0;
        while i < n
            invariant
                i <= n,
                at + n <= len,
                len == self.data@.len(),
                n <= buf@.len(),
                buf@.len() == old(buf)@.len(),
                forall|j: int| 0 <= j < i ==> buf@[j] == self.data@[at + j],
                forall|j: int| i <= j < buf@.len() ==> buf@[j] == old(buf)@[j],
            decreases n - i,
        {
            buf[i] = self.data[at + i];
            i = i + 1;
        }
        assert(buf@ =~= self.stream().readable(old(buf)@.len()) + old(buf)@.subrange(
            n as int,
            old(buf)@.len() as int,
        ));
        self.pos = (at + n) as u64;
        Ok(n)
    }
}

} // verus!
