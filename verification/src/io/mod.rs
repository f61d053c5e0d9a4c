//! I/O abstraction used by this library. Operations are meant to be
//! all-or-nothing: a [`Reader`] delivers exactly the requested bytes or
//! fails, and a [`Writer`] accepts exactly the given bytes or fails. The
//! traits say which implementations are proved to keep to that.
pub mod array;
pub mod data;

use vstd::prelude::*;

verus! {

/// Types of errors generated by this module.
#[derive(Debug)]
pub enum ErrorKind {
    /// Unable to read data.
    UnableToReadData,
    /// Unable to write data.
    UnableToWriteData,
    /// The data is corrupted.
    CorruptedData,
    /// The source has no more data.
    EndOfData,
}

/// Result type of the functions of this module.
pub type Result<T> = core::result::Result<T, ErrorKind>;

/// A source of bytes.
///
/// The model of a reader is the sequence of bytes it will still deliver,
/// `remaining()`, and the sequence it has delivered or skipped so far,
/// `consumed()`. Every read takes a prefix of `remaining()`, moves it to the
/// end of `consumed()`, and succeeds exactly when that prefix is available.
/// A failed `read` changes nothing. The in-memory readers of this library
/// make `read_all` and `skip` all-or-nothing too, and `LimitedReader` does
/// so for `read_all`; the default bodies below, which read piece by piece,
/// may stop half way.
///
/// Only readers that say so with `obeys_model()` are held to this model;
/// the readers of this library are. Of any other reader, such as one over
/// an outside stream that cannot state what it will deliver, the contracts
/// of this trait and of the functions that take a reader promise nothing.
pub trait Reader {
    /// True for readers that keep to the model; `false` by default.
    open spec fn obeys_model() -> bool {
        false
    }

    /// The bytes that this reader can still deliver, in order.
    open spec fn remaining(&self) -> Seq<u8> {
        Seq::empty()
    }

    /// The bytes that this reader has delivered or skipped so far, in order.
    open spec fn consumed(&self) -> Seq<u8> {
        Seq::empty()
    }

    /// Reads a single byte from the source.
    fn read(&mut self) -> (r: Result<u8>)
        ensures
            Self::obeys_model() ==> (r is Ok <==> old(self).remaining().len() >= 1),
            Self::obeys_model() ==> (r matches Ok(b) ==> b == old(self).remaining()[0] && final(self).remaining()
                == old(self).remaining().drop_first() && final(self).consumed()
                == old(self).consumed().push(b)),
            Self::obeys_model() ==> (r is Err ==> final(self).remaining() == old(self).remaining() && final(self).consumed()
                == old(self).consumed()),
    ;

    /// Fills `buff` with the next bytes of the source.
    fn read_all(&mut self, buff: &mut [u8]) -> (r: Result<()>)
        ensures
            final(buff)@.len() == old(buff)@.len(),
            Self::obeys_model() ==> (r is Ok <==> old(self).remaining().len() >= old(buff)@.len()),
            Self::obeys_model() ==> (r is Ok ==> final(buff)@ == old(self).remaining().take(old(buff)@.len() as int)
                && final(self).remaining() == old(self).remaining().skip(old(buff)@.len() as int)
                && final(self).consumed() == old(self).consumed() + final(buff)@),
    {
        let n = buff.len();
        let mut i: usize = 0;
        while i < n
            invariant
                n == buff@.len(),
                n == old(buff)@.len(),
                i <= n,
                Self::obeys_model() ==> old(self).remaining().len() >= i,
                Self::obeys_model() ==> self.remaining() == old(self).remaining().skip(i as int),
                Self::obeys_model() ==> self.consumed() == old(self).consumed() + old(self).remaining().take(i as int),
                Self::obeys_model() ==> buff@.take(i as int) == old(self).remaining().take(i as int),
            decreases n - i,
        {
            let b = self.read()?;
            buff[i] = b;
            proof {
                if Self::obeys_model() {
                    assert(old(self).remaining().skip(i as int).drop_first() =~= old(self).remaining().skip(i + 1));
                    assert(buff@.take(i + 1) =~= old(self).remaining().take(i + 1));
                    assert(old(self).remaining().take(i + 1) =~= old(self).remaining().take(i as int).push(b));
                    assert(old(self).consumed() + old(self).remaining().take(i + 1) =~= (old(self).consumed()
                        + old(self).remaining().take(i as int)).push(b));
                }
            }
            i = i + 1;
        }
        proof {
            assert(buff@.take(n as int) =~= buff@);
        }
        Ok(())
    }

    /// Skips `count` bytes of the source.
    fn skip(&mut self, count: usize) -> (r: Result<()>)
        ensures
            Self::obeys_model() ==> (r is Ok <==> old(self).remaining().len() >= count),
            Self::obeys_model() ==> (r is Ok ==> final(self).remaining() == old(self).remaining().skip(count as int)
                && final(self).consumed() == old(self).consumed() + old(self).remaining().take(
                count as int,
            )),
    {
        let mut r = count;
        while r > 0
            invariant
                r <= count,
                Self::obeys_model() ==> old(self).remaining().len() >= count - r,
                Self::obeys_model() ==> self.remaining() == old(self).remaining().skip(count - r),
                Self::obeys_model() ==> self.consumed() == old(self).consumed() + old(self).remaining().take(count - r),
            decreases r,
        {
            let chunk: usize = if r < 512 { r } else { 512 };
            let mut buff: Vec<u8> = vec![0u8; chunk];
            self.read_all(buff.as_mut_slice())?;
            proof {
                if Self::obeys_model() {
                    let done = (count - r) as int;
                    assert(old(self).remaining().skip(done).skip(chunk as int) =~= old(self).remaining().skip(done + chunk));
                    assert(old(self).remaining().take(done) + old(self).remaining().skip(done).take(chunk as int)
                        =~= old(self).remaining().take(done + chunk));
                    assert(old(self).consumed() + old(self).remaining().take(done + chunk) =~= old(self).consumed()
                        + old(self).remaining().take(done) + old(self).remaining().skip(done).take(chunk as int));
                }
            }
            r = r - chunk;
        }
        proof {
            if Self::obeys_model() {
                assert(old(self).remaining().skip(count as int) == old(self).remaining().skip(count - r));
            }
        }
        Ok(())
    }

    /// Skips `count` bytes of the source, with the count given as a `u64`.
    fn skip_u64(&mut self, count: u64) -> (r: Result<()>)
        ensures
            Self::obeys_model() ==> (r is Ok <==> old(self).remaining().len() >= count),
            Self::obeys_model() ==> (r is Ok ==> final(self).remaining() == old(self).remaining().skip(count as int)
                && final(self).consumed() == old(self).consumed() + old(self).remaining().take(
                count as int,
            )),
    {
        let mut remaining = count;
        while remaining > 0
            invariant
                remaining <= count,
                Self::obeys_model() ==> old(self).remaining().len() >= count - remaining,
                Self::obeys_model() ==> self.remaining() == old(self).remaining().skip(count - remaining),
                Self::obeys_model() ==> self.consumed() == old(self).consumed() + old(self).remaining().take(count - remaining),
            decreases remaining,
        {
            let skip: u64 = if remaining < usize::MAX as u64 { remaining } else { usize::MAX as u64 };
            self.skip(skip as usize)?;
            proof {
                if Self::obeys_model() {
                    let done = (count - remaining) as int;
                    assert(old(self).remaining().skip(done).skip(skip as int) =~= old(self).remaining().skip(done + skip));
                    assert(old(self).remaining().take(done) + old(self).remaining().skip(done).take(skip as int)
                        =~= old(self).remaining().take(done + skip));
                    assert(old(self).consumed() + old(self).remaining().take(done + skip) =~= old(self).consumed()
                        + old(self).remaining().take(done) + old(self).remaining().skip(done).take(skip as int));
                }
            }
            remaining = remaining - skip;
        }
        Ok(())
    }
}

/// What is left of a writer's `room` after it took `n` more bytes.
pub open spec fn room_after(room: Option<int>, n: nat) -> Option<int> {
    match room {
        Some(k) => Some(k - n),
        None => None,
    }
}

/// What is left of a writer's `tail` after `n` more bytes were written over
/// it.
pub open spec fn tail_after(tail: Seq<u8>, n: nat) -> Seq<u8> {
    if n <= tail.len() {
        tail.skip(n as int)
    } else {
        Seq::empty()
    }
}

/// A writer with this `room` is known to take `n` more bytes.
pub open spec fn fits(room: Option<int>, n: nat) -> bool {
    room matches Some(k) && n <= k
}

/// A writer with this `room` is known to refuse `n` more bytes.
pub open spec fn falls_short(room: Option<int>, n: nat) -> bool {
    room matches Some(k) && k < n
}

/// A destination of bytes.
///
/// The model of a writer is the sequence of bytes it holds up to its current
/// position, `written()`, the bytes it holds past that position, `tail()`,
/// which later writes overwrite first, and how many more bytes it takes,
/// `room()`. A write succeeds exactly when it fits in the room; a successful
/// write appends to `written()`, overwrites the start of `tail()` and uses up
/// room, a failed `write` changes nothing.
///
/// Only writers that say so with `obeys_model()` are held to this model;
/// the writers of this library are. Of any other writer, such as one over an
/// outside stream, the contracts of this trait and of the functions that
/// take a writer promise nothing.
pub trait Writer: Sized {
    /// True for writers that keep to the model; `false` by default.
    open spec fn obeys_model() -> bool {
        false
    }

    /// The bytes held by this writer up to its current position.
    open spec fn written(&self) -> Seq<u8> {
        Seq::empty()
    }

    /// The bytes held by this writer past its current position.
    open spec fn tail(&self) -> Seq<u8> {
        Seq::empty()
    }

    /// How many more bytes this writer takes: `Some(k)` when a write of
    /// `n` bytes succeeds exactly when `n <= k` (a negative `k` refuses every
    /// write, even of no bytes), `None` when that cannot be told in advance.
    open spec fn room(&self) -> Option<int> {
        None
    }

    /// Writes a single byte.
    fn write(&mut self, value: u8) -> (r: Result<()>)
        ensures
            Self::obeys_model() && fits(old(self).room(), 1) ==> r is Ok,
            Self::obeys_model() && falls_short(old(self).room(), 1) ==> r is Err,
            Self::obeys_model() && r is Ok ==> final(self).written() == old(self).written() + seq![value]
                && final(self).tail() == tail_after(old(self).tail(), 1) && final(self).room() == room_after(
                old(self).room(),
                1,
            ),
            Self::obeys_model() && r is Err ==> final(self).written() == old(self).written()
                && final(self).tail() == old(self).tail() && final(self).room() == old(self).room(),
    ;

    /// Writes all bytes of `buff`.
    fn write_all(&mut self, buff: &[u8]) -> (r: Result<()>)
        ensures
            Self::obeys_model() && fits(old(self).room(), buff@.len()) ==> r is Ok,
            Self::obeys_model() && falls_short(old(self).room(), buff@.len()) && buff@.len() > 0 ==> r is Err,
            Self::obeys_model() && r is Ok ==> final(self).written() == old(self).written() + buff@ && final(self).tail()
                == tail_after(old(self).tail(), buff@.len()) && final(self).room() == room_after(
                old(self).room(),
                buff@.len(),
            ),
    {
        let mut i: usize = 0;
        proof {
            assert(old(self).written() + buff@.take(0) =~= old(self).written());
            assert(old(self).tail().skip(0) =~= old(self).tail());
        }
        while i < buff.len()
            invariant
                i <= buff@.len(),
                Self::obeys_model() ==> self.written() == old(self).written() + buff@.take(i as int)
                    && self.room() == room_after(old(self).room(), i as nat) && self.tail() == tail_after(
                    old(self).tail(),
                    i as nat,
                ),
                Self::obeys_model() ==> (old(self).room() matches Some(k) ==> i == 0 || i <= k),
            decreases buff@.len() - i,
        {
            self.write(buff[i])?;
            proof {
                assert(old(self).written() + buff@.take(i + 1) =~= old(self).written() + buff@.take(i as int)
                    + seq![buff@[i as int]]);
                if i + 1 <= old(self).tail().len() {
                    assert(old(self).tail().skip(i as int).skip(1) =~= old(self).tail().skip(i + 1));
                }
            }
            i = i + 1;
        }
        proof {
            assert(buff@.take(i as int) =~= buff@);
        }
        Ok(())
    }
}

/// `after` is the writer `before` once it took the bytes `b`: they follow
/// what was written, they overwrite the start of the tail and they use up
/// room.
pub open spec fn wrote<W: Writer>(before: W, after: W, b: Seq<u8>) -> bool {
    &&& after.written() == before.written() + b
    &&& after.tail() == tail_after(before.tail(), b.len())
    &&& after.room() == room_after(before.room(), b.len())
}

/// What an operation that writes exactly the bytes `b` owes, `ok` telling
/// whether it succeeded, to a writer that keeps to the model: it succeeds
/// when they fit in the room, it fails when the writer is known to refuse
/// them, and when it succeeds the writer took exactly those bytes.
pub open spec fn writes_exactly<W: Writer>(before: W, after: W, b: Seq<u8>, ok: bool) -> bool {
    W::obeys_model() ==> writes_exactly_modelled(before, after, b, ok)
}

/// `writes_exactly` for a writer that keeps to the model.
pub open spec fn writes_exactly_modelled<W: Writer>(before: W, after: W, b: Seq<u8>, ok: bool) -> bool {
    &&& fits(before.room(), b.len()) ==> ok
    &&& falls_short(before.room(), b.len()) && b.len() > 0 ==> !ok
    &&& ok ==> wrote(before, after, b)
}

/// Taking no bytes changes nothing.
pub proof fn lemma_wrote_nothing<W: Writer>(w: W)
    ensures
        wrote(w, w, Seq::empty()),
{
    assert(w.written() + Seq::<u8>::empty() =~= w.written());
    assert(w.tail().skip(0) =~= w.tail());
}

/// Taking `x` and then `y` is taking `x + y`.
pub proof fn lemma_wrote_chain<W: Writer>(a: W, b: W, c: W, x: Seq<u8>, y: Seq<u8>)
    requires
        wrote(a, b, x),
        wrote(b, c, y),
    ensures
        wrote(a, c, x + y),
{
    assert(a.written() + x + y =~= a.written() + (x + y));
    assert((x + y).len() == x.len() + y.len());
    let t = a.tail();
    if x.len() + y.len() <= t.len() {
        assert(t.skip(x.len() as int).skip(y.len() as int) =~= t.skip((x.len() + y.len()) as int));
    } else if x.len() <= t.len() {
        assert(t.skip(x.len() as int).len() < y.len());
    } else {
        assert(Seq::<u8>::empty().skip(0) =~= Seq::<u8>::empty());
    }
}

/// Decides how a seekable stream that stands at position `curr` and ends at
/// `end` skips `count` bytes. A skip is all-or-nothing, so the result gives
/// both where the stream must stand afterwards and the outcome: with
/// nothing to skip there is nothing to do (`None`); otherwise the stream,
/// which was moved to its end to measure it, goes to `curr + count` when
/// that many bytes are left, and back to `curr` when they are not, with
/// `ErrorKind::EndOfData` when nothing is left and
/// `ErrorKind::UnableToReadData` when less than `count` bytes are.
pub fn seek_skip_plan(curr: u64, end: u64, count: u64) -> (r: (Option<u64>, Result<()>))
    ensures
        count == 0 ==> r == (None::<u64>, Ok::<(), ErrorKind>(())),
        count > 0 && curr == end ==> r == (Some(curr), Err::<(), ErrorKind>(ErrorKind::EndOfData)),
        count > 0 && curr != end && curr + count <= end ==> r == (
            Some((curr + count) as u64),
            Ok::<(), ErrorKind>(()),
        ),
        count > 0 && curr != end && curr + count > end ==> r == (
            Some(curr),
            Err::<(), ErrorKind>(ErrorKind::UnableToReadData),
        ),
{
    if count == 0 {
        (None, Ok(()))
    } else if curr == end {
        (Some(curr), Err(ErrorKind::EndOfData))
    } else if curr < end && count <= end - curr {
        (Some(curr + count), Ok(()))
    } else {
        (Some(curr), Err(ErrorKind::UnableToReadData))
    }
}

/// Writing nothing owes nothing.
pub proof fn lemma_writes_nothing<W: Writer>(w: W)
    ensures
        writes_exactly(w, w, Seq::empty(), true),
{
    lemma_wrote_nothing(w);
}

/// A successful write of `x` followed by a write of `y` is a write of
/// `x + y` that succeeds when the second one does.
pub proof fn lemma_writes_chain<W: Writer>(a: W, b: W, c: W, x: Seq<u8>, y: Seq<u8>, ok: bool)
    requires
        writes_exactly(a, b, x, true),
        writes_exactly(b, c, y, ok),
    ensures
        writes_exactly(a, c, x + y, ok),
{
    assert((x + y).len() == x.len() + y.len());
    if ok && W::obeys_model() {
        lemma_wrote_chain(a, b, c, x, y);
    }
}

/// A write of `x` that failed is a failed write of anything at least as
/// long as `x`.
pub proof fn lemma_writes_failed<W: Writer>(a: W, b: W, x: Seq<u8>, y: Seq<u8>)
    requires
        writes_exactly(a, b, x, false),
        x.len() <= y.len(),
    ensures
        writes_exactly(a, b, y, false),
{
}

/// A [`Reader`] that wraps another one and limits the number of bytes that
/// can be extracted from it. Limits are checked before the inner reader is
/// touched, so a refused read consumes nothing.
pub struct LimitedReader<'a, R: Reader> {
    source: &'a mut R,
    available: usize,
}

impl<'a, R: Reader> LimitedReader<'a, R> {
    /// The wrapped reader.
    pub closed spec fn source(&self) -> &'a mut R {
        self.source
    }

    /// The number of bytes that may still be extracted.
    pub closed spec fn spec_available(&self) -> usize {
        self.available
    }

    /// Creates a new instance that allows at most `available` bytes to be
    /// read from `src`.
    pub fn new(src: &'a mut R, available: usize) -> (r: Self)
        ensures
            *r.source() == *old(src),
            *final(r.source()) == *final(src),
            r.spec_available() == available,
    {
        LimitedReader { source: src, available }
    }

    /// Verifies that `size` bytes may be read.
    pub fn can_read(&self, size: usize) -> (r: Result<()>)
        ensures
            r is Ok <==> size <= self.spec_available(),
            r matches Err(e) ==> e == ErrorKind::UnableToReadData,
    {
        if size > self.available {
            Err(ErrorKind::UnableToReadData)
        } else {
            Ok(())
        }
    }

    /// Returns the number of bytes that may still be read.
    pub fn available(&self) -> (r: usize)
        ensures
            r == self.spec_available(),
    {
        self.available
    }

    /// Skips all bytes still allowed by the limit.
    pub fn goto_end(&mut self) -> (r: Result<()>)
        ensures
            Self::obeys_model() ==> (r is Ok <==> old(self).spec_available() == 0 || old(self).source().remaining().len()
                >= old(self).spec_available()),
            Self::obeys_model() ==> (r is Ok ==> final(self).spec_available() == 0 && final(self).source().remaining()
                == old(self).source().remaining().skip(old(self).spec_available() as int)),
            Self::obeys_model() ==> (r is Ok ==> final(self).source().consumed() == old(self).source().consumed()
                + old(self).source().remaining().take(old(self).spec_available() as int)),
            r is Err ==> final(self).spec_available() == old(self).spec_available(),
            old(self).spec_available() == 0 ==> *final(self).source() == *old(self).source(),
    {
        if self.available > 0 {
            let ret = self.source.skip(self.available);
            if ret.is_ok() {
                self.available = 0;
            }
            ret
        } else {
            proof {
                assert(self.source.remaining().skip(0) =~= self.source.remaining());
                assert(self.source.consumed() + self.source.remaining().take(0) =~= self.source.consumed());
            }
            Ok(())
        }
    }

    /// Returns true when no more bytes may be read.
    pub fn empty(&self) -> (r: bool)
        ensures
            r == (self.spec_available() == 0),
    {
        self.available == 0
    }
}

impl<'a, R: Reader> Reader for LimitedReader<'a, R> {
    open spec fn obeys_model() -> bool {
        R::obeys_model()
    }
    closed spec fn remaining(&self) -> Seq<u8> {
        let s = self.source.remaining();
        if self.available as int <= s.len() {
            s.take(self.available as int)
        } else {
            s
        }
    }

    closed spec fn consumed(&self) -> Seq<u8> {
        self.source.consumed()
    }

    fn read(&mut self) -> (r: Result<u8>)
        ensures
            old(self).spec_available() == 0 ==> r == Err::<u8, ErrorKind>(ErrorKind::UnableToReadData)
                && *final(self).source() == *old(self).source(),
            Self::obeys_model() ==> (r is Ok ==> final(self).spec_available() == old(self).spec_available() - 1
                && final(self).source().remaining() == old(self).source().remaining().drop_first()),
            Self::obeys_model() ==> (r is Err ==> final(self).spec_available() == old(self).spec_available()
                && final(self).source().remaining() == old(self).source().remaining()),
    {
        self.can_read(1)?;
        let ret = self.source.read();
        if ret.is_ok() {
            self.available = self.available - 1;
        }
        proof {
            if Self::obeys_model() {
                if ret is Ok {
                    assert(final(self).remaining() =~= old(self).remaining().drop_first());
                }
            }
        }
        ret
    }

    fn read_all(&mut self, buff: &mut [u8]) -> (r: Result<()>)
        ensures
            old(buff)@.len() > old(self).spec_available() ==> r == Err::<(), ErrorKind>(
                ErrorKind::UnableToReadData,
            ) && final(buff)@ == old(buff)@ && *final(self).source() == *old(self).source(),
            R::obeys_model() && old(buff)@.len() <= old(self).spec_available() && old(self).source().remaining().len()
                >= old(buff)@.len() ==> r is Ok,
            Self::obeys_model() ==> (r is Ok ==> final(self).spec_available() == old(self).spec_available() - old(buff)@.len()
                && final(self).source().remaining() == old(self).source().remaining().skip(old(buff)@.len() as int)),
            r is Err ==> final(self).spec_available() == old(self).spec_available(),
    {
        self.can_read(buff.len())?;
        let ret = self.source.read_all(buff);
        if ret.is_ok() {
            self.available = self.available - buff.len();
        }
        proof {
            if Self::obeys_model() {
                let n = old(buff)@.len() as int;
                if ret is Ok {
                    assert(final(self).remaining() =~= old(self).remaining().skip(n));
                    assert(old(self).remaining().take(n) =~= old(self).source().remaining().take(n));
                }
            }
        }
        ret
    }
}

} // verus!
