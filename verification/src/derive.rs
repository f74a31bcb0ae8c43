use crate::medium::{Error, Medium, ReadBack, Stream};
use vstd::prelude::*;

verus! {

/// The smaller of two lengths.
pub open spec fn least(a: nat, b: nat) -> nat {
    if a <= b {
        a
    } else {
        b
    }
}

/// What a bounded reader is, as far as its callers can tell: the state of
/// the medium underneath, and the number of bytes that may still be read.
pub struct Bounded {
    pub stream: Stream,
    pub remaining: nat,
}

impl Bounded {
    /// The reader that [`Writer::derive`](crate::Writer::derive) hands out
    /// for the range from `start` to `end` over a medium that holds `bytes`.
    pub open spec fn over(bytes: Seq<u8>, start: nat, end: nat) -> Bounded {
        Bounded { stream: Stream { bytes: bytes, pos: start }, remaining: (end - start) as nat }
    }

    /// The bytes that a read into a buffer of the length `want` receives.
    pub open spec fn got(self, want: nat) -> Seq<u8> {
        self.stream.readable(least(want, self.remaining))
    }

    /// The reader after a read into a buffer of the length `want`.
    pub open spec fn read(self, want: nat) -> Bounded {
        Bounded {
            stream: self.stream.seek(self.stream.pos + self.got(want).len()),
            remaining: (self.remaining - self.got(want).len()) as nat,
        }
    }

    /// The reader after one read for each buffer length of `wants`, in
    /// order.
    pub open spec fn read_each(self, wants: Seq<nat>) -> Bounded
        decreases wants.len(),
    {
        if wants.len() == 0 {
            self
        } else {
            self.read_each(wants.drop_last()).read(wants.last())
        }
    }

    /// All the bytes that those reads receive, in the order received.
    pub open spec fn got_each(self, wants: Seq<nat>) -> Seq<u8>
        decreases wants.len(),
    {
        if wants.len() == 0 {
            Seq::empty()
        } else {
            self.got_each(wants.drop_last()) + self.read_each(wants.drop_last()).got(wants.last())
        }
    }
}

/// However often a reader is read from and whatever the buffers, what it
/// hands out in all is what the medium holds from the reader's starting
/// position on, byte for byte and in order, and no more than its bound. The
/// reader has then moved on by that many bytes and its bound is lower by as
/// many.
pub proof fn law_reads_return_the_bytes_in_range(b: Bounded, wants: Seq<nat>)
    ensures
        b.got_each(wants).len() <= b.remaining,
        b.got_each(wants).len() > 0 ==> b.stream.pos + b.got_each(wants).len()
            <= b.stream.bytes.len(),
        b.got_each(wants).len() > 0 ==> b.got_each(wants) == b.stream.bytes.subrange(
            b.stream.pos as int,
            (b.stream.pos + b.got_each(wants).len()) as int,
        ),
        b.read_each(wants) == (Bounded {
            stream: b.stream.seek(b.stream.pos + b.got_each(wants).len()),
            remaining: (b.remaining - b.got_each(wants).len()) as nat,
        }),
    decreases wants.len(),
{
    if wants.len() > 0 {
        let rest = wants.drop_last();
        let before = b.got_each(rest);
        let last = b.read_each(rest).got(wants.last());
        law_reads_return_the_bytes_in_range(b, rest);
        if before.len() + last.len() > 0 {
            assert(before + last =~= b.stream.bytes.subrange(
                b.stream.pos as int,
                (b.stream.pos + before.len() + last.len()) as int,
            ));
        }
    }
}

/// Once the bound is used up every further read reports the end of input:
/// it hands out nothing and leaves the reader where it is, whatever the
/// medium holds behind the bound.
pub proof fn law_reads_end_at_the_bound(b: Bounded, wants: Seq<nat>, want: nat)
    requires
        b.got_each(wants).len() == b.remaining,
    ensures
        b.read_each(wants).remaining == 0,
        b.read_each(wants).got(want) == Seq::<u8>::empty(),
        b.read_each(wants).read(want) == b.read_each(wants),
{
    law_reads_return_the_bytes_in_range(b, wants);
    assert(b.read_each(wants).got(want) =~= Seq::<u8>::empty());
}

/// A callback of [`Writer::derive`](crate::Writer::derive) for the range
/// from `start` to `end` receives, however it reads, only bytes of that
/// range: what it receives in all is what the medium holds from `start` on,
/// and ends at or before `end`.
pub proof fn law_derive_reads_stay_in_range(
    bytes: Seq<u8>,
    start: nat,
    end: nat,
    wants: Seq<nat>,
)
    requires
        start <= end,
    ensures
        start + Bounded::over(bytes, start, end).got_each(wants).len() <= end,
        Bounded::over(bytes, start, end).got_each(wants).len() > 0 ==> {
            let got = Bounded::over(bytes, start, end).got_each(wants);
            &&& start + got.len() <= bytes.len()
            &&& got == bytes.subrange(start as int, (start + got.len()) as int)
        },
{
    law_reads_return_the_bytes_in_range(Bounded::over(bytes, start, end), wants);
}

/// A medium seen through a bound: it reads on from the medium's position,
/// but only the number of bytes that remain of its bound. Past that it
/// reports the end of input, whatever the medium still holds.
///
/// [`Writer::derive`](crate::Writer::derive) hands one to its callback.
pub struct DeriveRead<M: Medium> {
    pub(crate) r: M,
    pub(crate) limit: u64,
}

impl<M: Medium> DeriveRead<M> {
    /// The state of the medium underneath.
    pub open(crate) spec fn stream(&self) -> Stream {
        self.r.stream()
    }

    /// The number of bytes that may still be read.
    pub open(crate) spec fn remaining(&self) -> nat {
        self.limit as nat
    }

    /// The reader as its callers see it.
    pub open spec fn bounded(&self) -> Bounded {
        Bounded { stream: self.stream(), remaining: self.remaining() }
    }

    pub(crate) fn new(r: M, limit: u64) -> (d: Self)
        ensures
            d.stream() == r.stream(),
            d.remaining() == limit,
            d.r == r,
    {
        Self { r: r, limit: limit }
    }
}

impl<M: ReadBack> DeriveRead<M> {
    /// Reads into the front of `buf` as many bytes as `buf` takes, the bound
    /// still allows and the medium still holds, and returns their number.
    /// Once the bound is used up it returns 0 without touching the medium.
    pub fn read(&mut self, buf: &mut [u8]) -> (r: Result<usize, Error<M::Error>>)
        ensures
            final(buf)@.len() == old(buf)@.len(),
            r matches Ok(n) ==> {
                let got = old(self).stream().readable(
                    least(old(buf)@.len(), old(self).remaining()),
                );
                &&& n == got.len()
                &&& final(buf)@ == got + old(buf)@.subrange(n as int, old(buf)@.len() as int)
                &&& final(self).stream() == old(self).stream().seek(
                    old(self).stream().pos + got.len(),
                )
                &&& final(self).remaining() == old(self).remaining() - got.len()
            },
            r matches Ok(n) ==> {
                &&& n == old(self).bounded().got(old(buf)@.len()).len()
                &&& final(buf)@.subrange(0, n as int) == old(self).bounded().got(old(buf)@.len())
                &&& final(self).bounded() == old(self).bounded().read(old(buf)@.len())
            },
            old(self).remaining() == 0 ==> {
                &&& r == Ok::<usize, Error<M::Error>>(0)
                &&& final(self).stream() == old(self).stream()
                &&& final(self).remaining() == 0
                &&& final(buf)@ == old(buf)@
            },
            r matches Err(e) ==> e is Medium,
            M::steady() ==> r is Ok,
    {
        if self.limit == 0 {
            assert(buf@ =~= Seq::<u8>::empty() + buf@.subrange(0, buf@.len() as int));
            return Ok(0);
        }
        let max: usize = if (buf.len() as u64) < self.limit {
            buf.len()
        } else {
            self.limit as usize
        };
        let (head, tail) = buf.split_at_mut(max);
        match self.r.read(head) {
            Ok(n) => {
                self.limit = self.limit - n as u64;
                assert(final(buf)@ =~= old(self).stream().readable(max as nat) + old(
                    buf,
                )@.subrange(n as int, old(buf)@.len() as int));
                Ok(n)
            },
            Err(e) => Err(Error::Medium(e)),
        }
    }
}

} // verus!
