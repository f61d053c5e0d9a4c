//! Implementations of [`Reader`] and [`Writer`] over byte slices and vectors.
use super::{ErrorKind, Reader, Result, Writer};
use vstd::prelude::*;

verus! {

/// The outcome of a request for `count` bytes from a memory source that
/// still holds `available` bytes.
pub open spec fn memory_read_result(available: int, count: int) -> Result<()> {
    if count <= available {
        Ok(())
    } else if available == 0 {
        Err(ErrorKind::EndOfData)
    } else {
        Err(ErrorKind::UnableToReadData)
    }
}

/// `s` with the bytes from position `off` on replaced by `b`, extended
/// when `b` goes past the end of `s`.
pub open spec fn overwrite(s: Seq<u8>, off: int, b: Seq<u8>) -> Seq<u8> {
    if off + b.len() < s.len() {
        s.take(off) + b + s.skip(off + b.len())
    } else {
        s.take(off) + b
    }
}

proof fn lemma_overwrite_split(s: Seq<u8>, off: int, b: Seq<u8>)
    requires
        0 <= off <= s.len(),
    ensures
        overwrite(s, off, b).take(off + b.len()) == s.take(off) + b,
        overwrite(s, off, b).skip(off + b.len()) == crate::io::tail_after(s.skip(off), b.len()),
{
    let t = overwrite(s, off, b);
    assert(t.take(off + b.len()) =~= s.take(off) + b);
    assert(t.skip(off + b.len()) =~= crate::io::tail_after(s.skip(off), b.len()));
}

proof fn lemma_overwrite_push(s: Seq<u8>, off: int, b: Seq<u8>, v: u8)
    requires
        0 <= off <= s.len(),
    ensures
        overwrite(overwrite(s, off, b), off + b.len(), seq![v]) == overwrite(s, off, b.push(v)),
{
    let t = overwrite(s, off, b);
    assert(t.take(off + b.len()) =~= s.take(off) + b);
    if off + b.len() + 1 < s.len() {
        assert(t.skip(off + b.len() + 1) =~= s.skip(off + b.len() + 1));
        assert(overwrite(t, off + b.len(), seq![v]) =~= overwrite(s, off, b.push(v)));
    } else {
        assert(overwrite(t, off + b.len(), seq![v]) =~= overwrite(s, off, b.push(v)));
    }
}

//=============================================================================
// MemoryReader
//-----------------------------------------------------------------------------
/// A [`Reader`] whose data is held in memory and that can be positioned.
/// As for `Reader`, only readers that say so with `obeys_model()` are held
/// to the contracts below.
pub trait MemoryReader: Reader {
    /// Total size of the data.
    open spec fn spec_len(&self) -> usize {
        0
    }

    /// Current reading position.
    open spec fn spec_offset(&self) -> usize {
        0
    }

    /// Returns the total size of the data.
    fn len(&self) -> (r: usize)
        ensures
            Self::obeys_model() ==> r == self.spec_len(),
    ;

    /// Returns the current reading position; it never exceeds `len()`.
    fn offset(&self) -> (r: usize)
        ensures
            Self::obeys_model() ==> r == self.spec_offset(),
            Self::obeys_model() ==> r <= self.spec_len(),
    ;

    /// Moves the reading position to `offset`, or to the end of the data
    /// when `offset` is past it.
    fn set_offset(&mut self, offset: usize)
        ensures
            Self::obeys_model() ==> final(self).spec_len() == old(self).spec_len(),
            Self::obeys_model() ==> final(self).spec_offset() == if offset < old(self).spec_len() {
                offset
            } else {
                old(self).spec_len()
            },
    ;

    /// Returns true if the data is empty.
    fn is_empty(&self) -> (r: bool)
        ensures
            Self::obeys_model() ==> r == (self.spec_len() == 0),
    {
        self.len() == 0
    }

    /// Returns the number of bytes still available for reading (none when
    /// the position is past the end).
    fn available(&self) -> (r: usize)
        ensures
            Self::obeys_model() ==> r == self.spec_len() - self.spec_offset(),
    {
        let offset = self.offset();
        let len = self.len();
        if offset <= len {
            len - offset
        } else {
            0
        }
    }

    /// Verifies that `count` bytes can be read. It fails with
    /// `ErrorKind::EndOfData` when nothing is left and with
    /// `ErrorKind::UnableToReadData` when something but not enough is left.
    fn assert_can_read(&self, count: usize) -> (r: Result<()>)
        ensures
            Self::obeys_model() ==> r == memory_read_result(self.spec_len() - self.spec_offset(), count as int),
    {
        let available = self.available();
        if count <= available {
            Ok(())
        } else if available == 0 {
            Err(ErrorKind::EndOfData)
        } else {
            Err(ErrorKind::UnableToReadData)
        }
    }
}

//=============================================================================
// ByteArrayReader
//-----------------------------------------------------------------------------
/// A [`Reader`] that extracts bytes from a borrowed slice.
pub struct ByteArrayReader<'a> {
    array: &'a [u8],
    offset: usize,
}

impl<'a> ByteArrayReader<'a> {
    #[verifier::type_invariant]
    closed spec fn inv(&self) -> bool {
        self.offset <= self.array@.len() <= usize::MAX
    }

    /// The whole data.
    pub closed spec fn data(&self) -> Seq<u8> {
        self.array@
    }

    /// The current reading position.
    pub closed spec fn pos(&self) -> usize {
        self.offset
    }

    /// Creates a reader positioned at the start of `buff`.
    pub fn new(buff: &'a [u8]) -> (r: Self)
        ensures
            r.data() == buff@,
            r.pos() == 0,
            r.remaining() == buff@,
            r.consumed() == Seq::<u8>::empty(),
    {
        let _len = buff.len();
        let r = ByteArrayReader { array: buff, offset: 0 };
        proof {
            assert(buff@.skip(0) =~= buff@);
            assert(buff@.take(0) =~= Seq::<u8>::empty());
        }
        r
    }

    /// Returns the current reading position.
    pub fn offset(&self) -> (r: usize)
        ensures
            r == self.pos(),
            r <= self.data().len(),
            self.remaining() == self.data().skip(r as int),
            r == self.consumed().len(),
            self.data() == self.consumed() + self.remaining(),
    {
        proof {
            use_type_invariant(self);
            assert(self.array@ =~= self.array@.take(self.offset as int) + self.array@.skip(self.offset as int));
        }
        self.offset
    }

    /// Moves the reading position, clamped to the end of the data.
    pub fn set_offset(&mut self, offset: usize)
        ensures
            final(self).data() == old(self).data(),
            final(self).pos() == if offset < old(self).data().len() {
                offset
            } else {
                old(self).data().len() as usize
            },
    {
        self.offset = if offset < self.array.len() {
            offset
        } else {
            self.array.len()
        };
    }

    /// Returns the whole data.
    pub fn as_slice(&self) -> (r: &[u8])
        ensures
            r@ == self.data(),
    {
        self.array
    }

    /// Returns the number of bytes still available.
    pub fn available(&self) -> (r: usize)
        ensures
            r == self.data().len() - self.pos(),
            r == self.remaining().len(),
    {
        proof {
            use_type_invariant(self);
        }
        self.array.len() - self.offset
    }

    /// Verifies that `count` bytes can be read, telling apart an exhausted
    /// source (`ErrorKind::EndOfData`) from a short one.
    pub fn assert_can_read(&self, count: usize) -> (r: Result<()>)
        ensures
            r == memory_read_result(self.data().len() - self.pos(), count as int),
    {
        let available = self.available();
        if count <= available {
            Ok(())
        } else if available == 0 {
            Err(ErrorKind::EndOfData)
        } else {
            Err(ErrorKind::UnableToReadData)
        }
    }

    /// Verifies that `count` bytes can be read.
    pub fn can_read(&self, count: usize) -> (r: Result<()>)
        ensures
            r is Ok <==> count <= self.data().len() - self.pos(),
            r matches Err(e) ==> e == ErrorKind::UnableToReadData,
    {
        if self.available() < count {
            Err(ErrorKind::UnableToReadData)
        } else {
            Ok(())
        }
    }
}

impl<'a> Reader for ByteArrayReader<'a> {
    open spec fn obeys_model() -> bool {
        true
    }

    closed spec fn remaining(&self) -> Seq<u8> {
        self.array@.skip(self.offset as int)
    }

    closed spec fn consumed(&self) -> Seq<u8> {
        self.array@.take(self.offset as int)
    }

    fn read(&mut self) -> (r: Result<u8>)
        ensures
            final(self).data() == old(self).data(),
            r is Err ==> final(self).pos() == old(self).pos(),
            r matches Err(e) ==> e == ErrorKind::UnableToReadData,
    {
        proof {
            use_type_invariant(&*self);
        }
        Self::can_read(self, 1)?;
        let r = self.array[self.offset];
        self.offset = self.offset + 1;
        proof {
            assert(final(self).remaining() =~= old(self).remaining().drop_first());
            assert(final(self).consumed() =~= old(self).consumed().push(r));
        }
        Ok(r)
    }

    fn read_all(&mut self, buff: &mut [u8]) -> (r: Result<()>)
        ensures
            final(self).data() == old(self).data(),
            r is Err ==> final(self).pos() == old(self).pos() && final(buff)@ == old(buff)@,
            r matches Err(e) ==> e == ErrorKind::UnableToReadData,
    {
        proof {
            use_type_invariant(&*self);
        }
        Self::can_read(self, buff.len())?;
        let n = buff.len();
        let mut i: usize = 0;
        while i < n
            invariant
                n == buff@.len(),
                n == old(buff)@.len(),
                i <= n,
                self.offset + n <= self.array@.len() <= usize::MAX,
                self.array@ == old(self).array@,
                self.offset == old(self).offset,
                forall|j: int| 0 <= j < i ==> buff@[j] == self.array@[self.offset + j],
            decreases n - i,
        {
            buff[i] = self.array[self.offset + i];
            i = i + 1;
        }
        self.offset = self.offset + n;
        proof {
            assert(buff@ =~= old(self).remaining().take(n as int));
            assert(final(self).remaining() =~= old(self).remaining().skip(n as int));
            assert(final(self).consumed() =~= old(self).consumed() + buff@);
        }
        Ok(())
    }

    fn skip(&mut self, count: usize) -> (r: Result<()>)
        ensures
            final(self).data() == old(self).data(),
            r is Err ==> final(self).pos() == old(self).pos(),
            r matches Err(e) ==> Err::<(), ErrorKind>(e) == memory_read_result(
                old(self).data().len() - old(self).pos(),
                count as int,
            ),
    {
        proof {
            use_type_invariant(&*self);
        }
        Self::assert_can_read(self, count)?;
        self.offset = self.offset + count;
        proof {
            assert(final(self).remaining() =~= old(self).remaining().skip(count as int));
            assert(final(self).consumed() =~= old(self).consumed() + old(self).remaining().take(count as int));
        }
        Ok(())
    }
}

impl<'a> MemoryReader for ByteArrayReader<'a> {
    closed spec fn spec_len(&self) -> usize {
        self.array@.len() as usize
    }

    closed spec fn spec_offset(&self) -> usize {
        self.offset
    }

    fn len(&self) -> (r: usize) {
        self.array.len()
    }

    fn offset(&self) -> (r: usize)
        ensures
            r == self.consumed().len(),
    {
        proof {
            use_type_invariant(self);
        }
        self.offset
    }

    fn set_offset(&mut self, offset: usize) {
        proof {
            use_type_invariant(&*self);
        }
        ByteArrayReader::set_offset(self, offset)
    }
}

//=============================================================================
// VecReader
//-----------------------------------------------------------------------------
/// A [`Reader`] that extracts bytes from a vector that it owns. The data is
/// copied on creation.
pub struct VecReader {
    vector: Vec<u8>,
    offset: usize,
}

impl VecReader {
    #[verifier::type_invariant]
    closed spec fn inv(&self) -> bool {
        self.offset <= self.vector@.len() <= usize::MAX
    }

    /// The whole data.
    pub closed spec fn data(&self) -> Seq<u8> {
        self.vector@
    }

    /// The current reading position.
    pub closed spec fn pos(&self) -> usize {
        self.offset
    }

    /// Creates a reader over a copy of `value`, positioned at its start.
    pub fn new(value: &[u8]) -> (r: Self)
        ensures
            r.data() == value@,
            r.pos() == 0,
            r.remaining() == value@,
    {
        let mut v: Vec<u8> = Vec::with_capacity(value.len());
        let mut i: usize = 0;
        while i < value.len()
            invariant
                i <= value@.len(),
                v@ == value@.take(i as int),
            decreases value@.len() - i,
        {
            v.push(value[i]);
            proof {
                assert(value@.take(i + 1) =~= value@.take(i as int).push(value@[i as int]));
            }
            i = i + 1;
        }
        proof {
            assert(value@.take(i as int) =~= value@);
            assert(v@.skip(0) =~= v@);
        }
        VecReader { vector: v, offset: 0 }
    }

    /// Returns the current reading position.
    pub fn offset(&self) -> (r: usize)
        ensures
            r == self.pos(),
            r <= self.data().len(),
            self.remaining() == self.data().skip(r as int),
            r == self.consumed().len(),
            self.data() == self.consumed() + self.remaining(),
    {
        proof {
            use_type_invariant(self);
            assert(self.vector@ =~= self.vector@.take(self.offset as int) + self.vector@.skip(self.offset as int));
        }
        self.offset
    }

    /// Moves the reading position, clamped to the end of the data.
    pub fn set_offset(&mut self, offset: usize)
        ensures
            final(self).data() == old(self).data(),
            final(self).pos() == if offset < old(self).data().len() {
                offset
            } else {
                old(self).data().len() as usize
            },
    {
        self.offset = if offset < self.vector.len() {
            offset
        } else {
            self.vector.len()
        };
    }

    /// Returns the number of bytes still available.
    pub fn available(&self) -> (r: usize)
        ensures
            r == self.data().len() - self.pos(),
    {
        proof {
            use_type_invariant(self);
        }
        self.vector.len() - self.offset
    }

    /// Verifies that `count` bytes can be read, telling apart an exhausted
    /// source (`ErrorKind::EndOfData`) from a short one.
    pub fn assert_can_read(&self, count: usize) -> (r: Result<()>)
        ensures
            r == memory_read_result(self.data().len() - self.pos(), count as int),
    {
        let available = self.available();
        if count <= available {
            Ok(())
        } else if available == 0 {
            Err(ErrorKind::EndOfData)
        } else {
            Err(ErrorKind::UnableToReadData)
        }
    }

    /// Verifies that `count` bytes can be read.
    pub fn can_read(&self, count: usize) -> (r: Result<()>)
        ensures
            r is Ok <==> count <= self.data().len() - self.pos(),
            r matches Err(e) ==> e == ErrorKind::UnableToReadData,
    {
        if self.available() < count {
            Err(ErrorKind::UnableToReadData)
        } else {
            Ok(())
        }
    }

    /// Returns the whole data.
    pub fn as_slice(&self) -> (r: &[u8])
        ensures
            r@ == self.data(),
    {
        self.vector.as_slice()
    }

    /// Returns the inner vector.
    pub fn vec(&self) -> (r: &Vec<u8>)
        ensures
            r@ == self.data(),
    {
        &self.vector
    }
}

impl Reader for VecReader {
    open spec fn obeys_model() -> bool {
        true
    }

    closed spec fn remaining(&self) -> Seq<u8> {
        self.vector@.skip(self.offset as int)
    }

    closed spec fn consumed(&self) -> Seq<u8> {
        self.vector@.take(self.offset as int)
    }

    fn read(&mut self) -> (r: Result<u8>)
        ensures
            final(self).data() == old(self).data(),
            r is Err ==> final(self).pos() == old(self).pos(),
            r matches Err(e) ==> e == ErrorKind::UnableToReadData,
    {
        proof {
            use_type_invariant(&*self);
        }
        Self::can_read(self, 1)?;
        let r = self.vector[self.offset];
        self.offset = self.offset + 1;
        proof {
            assert(final(self).remaining() =~= old(self).remaining().drop_first());
            assert(final(self).consumed() =~= old(self).consumed().push(r));
        }
        Ok(r)
    }

    fn read_all(&mut self, buff: &mut [u8]) -> (r: Result<()>)
        ensures
            final(self).data() == old(self).data(),
            r is Err ==> final(self).pos() == old(self).pos() && final(buff)@ == old(buff)@,
            r matches Err(e) ==> e == ErrorKind::UnableToReadData,
    {
        proof {
            use_type_invariant(&*self);
        }
        Self::can_read(self, buff.len())?;
        let n = buff.len();
        let mut i: usize = 0;
        while i < n
            invariant
                n == buff@.len(),
                n == old(buff)@.len(),
                i <= n,
                self.offset + n <= self.vector@.len() <= usize::MAX,
                self.vector@ == old(self).vector@,
                self.offset == old(self).offset,
                forall|j: int| 0 <= j < i ==> buff@[j] == self.vector@[self.offset + j],
            decreases n - i,
        {
            buff[i] = self.vector[self.offset + i];
            i = i + 1;
        }
        self.offset = self.offset + n;
        proof {
            assert(buff@ =~= old(self).remaining().take(n as int));
            assert(final(self).remaining() =~= old(self).remaining().skip(n as int));
            assert(final(self).consumed() =~= old(self).consumed() + buff@);
        }
        Ok(())
    }

    fn skip(&mut self, count: usize) -> (r: Result<()>)
        ensures
            final(self).data() == old(self).data(),
            r is Err ==> final(self).pos() == old(self).pos(),
            r matches Err(e) ==> Err::<(), ErrorKind>(e) == memory_read_result(
                old(self).data().len() - old(self).pos(),
                count as int,
            ),
    {
        proof {
            use_type_invariant(&*self);
        }
        Self::assert_can_read(self, count)?;
        self.offset = self.offset + count;
        proof {
            assert(final(self).remaining() =~= old(self).remaining().skip(count as int));
            assert(final(self).consumed() =~= old(self).consumed() + old(self).remaining().take(count as int));
        }
        Ok(())
    }
}

impl MemoryReader for VecReader {
    closed spec fn spec_len(&self) -> usize {
        self.vector@.len() as usize
    }

    closed spec fn spec_offset(&self) -> usize {
        self.offset
    }

    fn len(&self) -> (r: usize) {
        self.vector.len()
    }

    fn offset(&self) -> (r: usize) {
        proof {
            use_type_invariant(self);
        }
        self.offset
    }

    fn set_offset(&mut self, offset: usize) {
        proof {
            use_type_invariant(&*self);
        }
        VecReader::set_offset(self, offset)
    }
}

//=============================================================================
// VecWriter
//-----------------------------------------------------------------------------
/// A [`Writer`] that uses a vector that it owns as its backend. Writing
/// happens at the current offset, overwriting existing data and extending
/// the vector when needed.
pub struct VecWriter {
    vector: Vec<u8>,
    offset: usize,
    read_only: bool,
}

impl VecWriter {
    /// Every instance built by this module keeps its position inside the
    /// vector.
    pub closed spec fn wf(&self) -> bool {
        self.offset <= self.vector@.len()
    }

    /// The whole data.
    pub closed spec fn data(&self) -> Seq<u8> {
        self.vector@
    }

    /// The data is what was written followed by the tail.
    pub proof fn lemma_data_split(&self)
        ensures
            self.data() == self.written() + self.tail(),
    {
        if self.offset <= self.vector@.len() {
            assert(self.vector@ =~= self.vector@.take(self.offset as int) + self.vector@.skip(self.offset as int));
        } else {
            assert(self.vector@ =~= self.vector@ + Seq::<u8>::empty());
        }
    }

    /// The current writing position.
    pub closed spec fn pos(&self) -> usize {
        self.offset
    }

    /// The read-only flag.
    pub closed spec fn spec_read_only(&self) -> bool {
        self.read_only
    }

    /// The inner vector, whose view is `data()`.
    pub closed spec fn spec_vector(&self) -> Vec<u8> {
        self.vector
    }

    /// Creates a new, empty and writeable instance.
    pub fn new() -> (r: Self)
        ensures
            r.wf(),
            r.data() == Seq::<u8>::empty(),
            r.pos() == 0,
            !r.spec_read_only(),
            r.written() == Seq::<u8>::empty(),
            r.tail() == Seq::<u8>::empty(),
            r.room() == Some(usize::MAX as int),
    {
        let r = VecWriter { vector: Vec::new(), offset: 0, read_only: false };
        proof {
            assert(r.vector@.take(0) =~= Seq::<u8>::empty());
            assert(r.vector@.skip(0) =~= Seq::<u8>::empty());
        }
        r
    }

    /// Creates a new, empty and writeable instance with the given initial
    /// capacity.
    pub fn with_capacity(capacity: usize) -> (r: Self)
        ensures
            r.wf(),
            r.data() == Seq::<u8>::empty(),
            r.pos() == 0,
            !r.spec_read_only(),
            r.written() == Seq::<u8>::empty(),
            r.tail() == Seq::<u8>::empty(),
            r.room() == Some(usize::MAX as int),
    {
        let r = VecWriter { vector: Vec::with_capacity(capacity), offset: 0, read_only: false };
        proof {
            assert(r.vector@.take(0) =~= Seq::<u8>::empty());
            assert(r.vector@.skip(0) =~= Seq::<u8>::empty());
        }
        r
    }

    /// Returns the current writing position.
    pub fn get_offset(&self) -> (r: usize)
        ensures
            r == self.pos(),
            self.room() matches Some(k) && k >= 0 ==> r == self.written().len() && self.wf(),
    {
        self.offset
    }

    /// Moves the writing position, clamped to the end of the data.
    pub fn set_offset(&mut self, offset: usize)
        ensures
            final(self).wf(),
            final(self).data() == old(self).data(),
            final(self).spec_read_only() == old(self).spec_read_only(),
            final(self).pos() == if offset < old(self).data().len() {
                offset
            } else {
                old(self).data().len() as usize
            },
    {
        self.offset = if offset < self.vector.len() {
            offset
        } else {
            self.vector.len()
        };
    }

    /// Returns true if this instance refuses writes.
    pub fn is_read_only(&self) -> (r: bool)
        ensures
            r == self.spec_read_only(),
    {
        self.read_only
    }

    /// Sets the read-only flag.
    pub fn set_read_only(&mut self, read_only: bool)
        ensures
            final(self).spec_read_only() == read_only,
            final(self).data() == old(self).data(),
            final(self).pos() == old(self).pos(),
            final(self).written() == old(self).written(),
            final(self).tail() == old(self).tail(),
            read_only ==> final(self).room() == Some(-1int),
            old(self).wf() ==> final(self).wf(),
    {
        self.read_only = read_only;
    }

    /// Verifies that this instance accepts writes.
    pub fn can_write(&self) -> (r: Result<()>)
        ensures
            r is Ok <==> !self.spec_read_only(),
            r matches Err(e) ==> e == ErrorKind::UnableToWriteData,
    {
        if self.read_only {
            Err(ErrorKind::UnableToWriteData)
        } else {
            Ok(())
        }
    }

    /// Returns the whole data.
    pub fn as_slice(&self) -> (r: &[u8])
        ensures
            r@ == self.data(),
            r@ == self.written() + self.tail(),
    {
        proof {
            self.lemma_data_split();
        }
        self.vector.as_slice()
    }

    /// Returns the inner vector.
    pub fn vec(&self) -> (r: &Vec<u8>)
        ensures
            r@ == self.data(),
            r@ == self.written() + self.tail(),
    {
        proof {
            self.lemma_data_split();
        }
        &self.vector
    }

    /// Returns the bytes written so far.
    pub fn written_slice(&self) -> (r: &[u8])
        ensures
            r@ == self.written(),
    {
        let data = self.vector.as_slice();
        let end = if self.offset <= data.len() {
            self.offset
        } else {
            data.len()
        };
        proof {
            assert(data@.take(data@.len() as int) =~= data@);
        }
        vstd::slice::slice_subrange(data, 0, end)
    }

    fn put(&mut self, value: u8)
        requires
            old(self).wf(),
            old(self).pos() < usize::MAX,
        ensures
            final(self).wf(),
            final(self).data() == overwrite(old(self).data(), old(self).pos() as int, seq![value]),
            final(self).pos() == old(self).pos() + 1,
            final(self).spec_read_only() == old(self).spec_read_only(),
    {
        if self.offset == self.vector.len() {
            self.vector.push(value);
        } else {
            self.vector.set(self.offset, value);
        }
        self.offset = self.offset + 1;
        proof {
            assert(self.vector@ =~= overwrite(old(self).vector@, old(self).offset as int, seq![value]));
        }
    }
}

impl Default for VecWriter {
    fn default() -> (r: Self)
        ensures
            r.wf(),
            r.data() == Seq::<u8>::empty(),
            r.pos() == 0,
            !r.spec_read_only(),
    {
        VecWriter::new()
    }
}

impl From<VecWriter> for Vec<u8> {
    fn from(w: VecWriter) -> (r: Vec<u8>) {
        w.vector
    }
}

impl vstd::std_specs::convert::FromSpecImpl<VecWriter> for Vec<u8> {
    open spec fn obeys_from_spec() -> bool {
        true
    }

    open spec fn from_spec(w: VecWriter) -> Vec<u8> {
        w.spec_vector()
    }
}

impl Writer for VecWriter {
    open spec fn obeys_model() -> bool {
        true
    }

    closed spec fn written(&self) -> Seq<u8> {
        if self.offset <= self.vector@.len() {
            self.vector@.take(self.offset as int)
        } else {
            self.vector@
        }
    }

    closed spec fn tail(&self) -> Seq<u8> {
        if self.offset <= self.vector@.len() {
            self.vector@.skip(self.offset as int)
        } else {
            Seq::empty()
        }
    }

    closed spec fn room(&self) -> Option<int> {
        if self.read_only || self.offset > self.vector@.len() {
            Some(-1)
        } else {
            Some(usize::MAX - self.offset)
        }
    }

    fn write(&mut self, value: u8) -> (r: Result<()>)
        ensures
            old(self).wf() ==> (r is Ok <==> !old(self).spec_read_only() && old(self).pos() < usize::MAX),
            old(self).wf() ==> final(self).wf(),
            r is Ok ==> final(self).data() == overwrite(old(self).data(), old(self).pos() as int, seq![value])
                && final(self).pos() == old(self).pos() + 1,
            r is Err ==> final(self).data() == old(self).data() && final(self).pos() == old(self).pos(),
            r matches Err(e) ==> e == ErrorKind::UnableToWriteData,
            final(self).spec_read_only() == old(self).spec_read_only(),
    {
        self.can_write()?;
        if self.offset == usize::MAX || self.offset > self.vector.len() {
            return Err(ErrorKind::UnableToWriteData);
        }
        self.put(value);
        proof {
            assert(final(self).written() =~= old(self).written() + seq![value]);
            lemma_overwrite_split(old(self).data(), old(self).pos() as int, seq![value]);
        }
        Ok(())
    }

    fn write_all(&mut self, buff: &[u8]) -> (r: Result<()>)
        ensures
            old(self).wf() ==> (r is Ok <==> !old(self).spec_read_only() && old(self).pos() + buff@.len() <= usize::MAX),
            old(self).wf() ==> final(self).wf(),
            r is Ok ==> final(self).data() == overwrite(old(self).data(), old(self).pos() as int, buff@)
                && final(self).pos() == old(self).pos() + buff@.len(),
            r is Err ==> final(self).data() == old(self).data() && final(self).pos() == old(self).pos(),
            r matches Err(e) ==> e == ErrorKind::UnableToWriteData,
            final(self).spec_read_only() == old(self).spec_read_only(),
    {
        self.can_write()?;
        if self.offset > self.vector.len() || buff.len() > usize::MAX - self.offset {
            return Err(ErrorKind::UnableToWriteData);
        }
        let mut i: usize = 0;
        while i < buff.len()
            invariant
                i <= buff@.len(),
                old(self).pos() + buff@.len() <= usize::MAX,
                old(self).wf(),
                self.wf(),
                self.data() == overwrite(old(self).data(), old(self).pos() as int, buff@.take(i as int)),
                self.pos() == old(self).pos() + i,
                self.spec_read_only() == old(self).spec_read_only(),
            decreases buff@.len() - i,
        {
            proof {
                lemma_overwrite_push(old(self).data(), old(self).pos() as int, buff@.take(i as int), buff@[i as int]);
                assert(buff@.take(i as int).push(buff@[i as int]) =~= buff@.take(i + 1));
            }
            self.put(buff[i]);
            i = i + 1;
        }
        proof {
            assert(buff@.take(i as int) =~= buff@);
            assert(final(self).written() =~= old(self).written() + buff@);
            lemma_overwrite_split(old(self).data(), old(self).pos() as int, buff@);
        }
        Ok(())
    }
}

//=============================================================================
// BorrowedVecWriter
//-----------------------------------------------------------------------------
/// A [`Writer`] that uses a borrowed vector as its backend. Existing data is
/// overwritten from the initial offset on, and the vector grows when needed
/// but never shrinks.
///
/// What the vector holds once the writer is dropped is its data
/// (`lemma_released`). The methods of the writer keep that link; the
/// contracts of functions generic over [`Writer`] do not carry it.
pub struct BorrowedVecWriter<'a> {
    vector: &'a mut Vec<u8>,
    initial_offset: usize,
    offset: usize,
    read_only: bool,
}

impl<'a> BorrowedVecWriter<'a> {
    /// Every instance built by this module keeps its positions ordered and
    /// inside the vector.
    pub closed spec fn wf(&self) -> bool {
        self.initial_offset <= self.offset <= self.vector@.len()
    }

    /// The whole data.
    pub closed spec fn data(&self) -> Seq<u8> {
        self.vector@
    }

    /// The data is what was written followed by the tail.
    pub proof fn lemma_data_split(&self)
        ensures
            self.data() == self.written() + self.tail(),
    {
        if self.offset <= self.vector@.len() {
            assert(self.vector@ =~= self.vector@.take(self.offset as int) + self.vector@.skip(self.offset as int));
        } else {
            assert(self.vector@ =~= self.vector@ + Seq::<u8>::empty());
        }
    }

    /// The current writing position.
    pub closed spec fn pos(&self) -> usize {
        self.offset
    }

    /// The position where this writer started.
    pub closed spec fn start(&self) -> usize {
        self.initial_offset
    }

    /// The read-only flag.
    pub closed spec fn spec_read_only(&self) -> bool {
        self.read_only
    }

    /// The borrowed vector.
    pub closed spec fn target(&self) -> &'a mut Vec<u8> {
        self.vector
    }

    /// Once a writer is no longer used, the vector it borrowed holds its data.
    pub proof fn lemma_released(self)
        requires
            has_resolved(self),
        ensures
            final(self.target())@ == self.data(),
    {
    }

    /// Creates a new writeable instance that starts writing at the beginning
    /// of `vector`.
    pub fn new(vector: &'a mut Vec<u8>) -> (r: Self)
        ensures
            r.wf(),
            r.data() == old(vector)@,
            final(r.target())@ == final(vector)@,
            r.pos() == 0,
            r.start() == 0,
            !r.spec_read_only(),
    {
        Self::with_offset(vector, 0)
    }

    /// Creates a new writeable instance that starts writing at `offset`, or
    /// at the end of `vector` when `offset` is past it.
    pub fn with_offset(vector: &'a mut Vec<u8>, offset: usize) -> (r: Self)
        ensures
            r.wf(),
            r.data() == old(vector)@,
            final(r.target())@ == final(vector)@,
            r.pos() == if offset < old(vector)@.len() {
                offset
            } else {
                old(vector)@.len() as usize
            },
            r.start() == r.pos(),
            !r.spec_read_only(),
    {
        let curr_offs = if offset < vector.len() {
            offset
        } else {
            vector.len()
        };
        Self { vector, initial_offset: curr_offs, offset: curr_offs, read_only: false }
    }

    /// Returns the current writing position.
    pub fn get_offset(&self) -> (r: usize)
        ensures
            r == self.pos(),
    {
        self.offset
    }

    /// Moves the writing position, clamped to the end of the data. It never
    /// goes before the initial position.
    pub fn set_offset(&mut self, offset: usize)
        ensures
            old(self).wf() ==> final(self).wf(),
            final(final(self).target())@ == final(old(self).target())@,
            final(self).data() == old(self).data(),
            final(self).start() == old(self).start(),
            final(self).spec_read_only() == old(self).spec_read_only(),
            final(self).pos() == if offset < old(self).start() {
                old(self).start()
            } else if offset < old(self).data().len() {
                offset
            } else {
                old(self).data().len() as usize
            },
    {
        self.offset = if offset < self.initial_offset {
            self.initial_offset
        } else if offset < self.vector.len() {
            offset
        } else {
            self.vector.len()
        };
    }

    /// Returns true if this instance refuses writes.
    pub fn is_read_only(&self) -> (r: bool)
        ensures
            r == self.spec_read_only(),
    {
        self.read_only
    }

    /// Sets the read-only flag.
    pub fn set_read_only(&mut self, read_only: bool)
        ensures
            final(self).spec_read_only() == read_only,
            final(final(self).target())@ == final(old(self).target())@,
            final(self).data() == old(self).data(),
            final(self).pos() == old(self).pos(),
            final(self).start() == old(self).start(),
            final(self).written() == old(self).written(),
            final(self).tail() == old(self).tail(),
            read_only ==> final(self).room() == Some(-1int),
            old(self).wf() ==> final(self).wf(),
    {
        self.read_only = read_only;
    }

    /// Verifies that this instance accepts writes.
    pub fn can_write(&self) -> (r: Result<()>)
        ensures
            r is Ok <==> !self.spec_read_only(),
            r matches Err(e) ==> e == ErrorKind::UnableToWriteData,
    {
        if self.read_only {
            Err(ErrorKind::UnableToWriteData)
        } else {
            Ok(())
        }
    }

    /// Returns the whole data.
    pub fn as_slice(&self) -> (r: &[u8])
        ensures
            r@ == self.data(),
            r@ == self.written() + self.tail(),
    {
        proof {
            self.lemma_data_split();
        }
        self.vector.as_slice()
    }

    /// Returns the inner vector.
    pub fn vec(&self) -> (r: &Vec<u8>)
        ensures
            r@ == self.data(),
            r@ == self.written() + self.tail(),
    {
        proof {
            self.lemma_data_split();
        }
        &*self.vector
    }

    /// Returns the number of bytes written since the creation of this
    /// instance.
    pub fn bytes_written(&self) -> (r: usize)
        requires
            self.wf(),
        ensures
            r == self.pos() - self.start(),
    {
        self.offset - self.initial_offset
    }

    fn put(&mut self, value: u8)
        requires
            old(self).wf(),
            old(self).pos() < usize::MAX,
        ensures
            final(self).wf(),
            final(self).data() == overwrite(old(self).data(), old(self).pos() as int, seq![value]),
            final(self).pos() == old(self).pos() + 1,
            final(self).start() == old(self).start(),
            final(self).spec_read_only() == old(self).spec_read_only(),
            final(final(self).target())@ == final(old(self).target())@,
    {
        if self.offset == self.vector.len() {
            self.vector.push(value);
        } else {
            self.vector.set(self.offset, value);
        }
        self.offset = self.offset + 1;
        proof {
            assert(self.vector@ =~= overwrite(old(self).vector@, old(self).offset as int, seq![value]));
        }
    }
}

impl<'a> Writer for BorrowedVecWriter<'a> {
    open spec fn obeys_model() -> bool {
        true
    }

    closed spec fn written(&self) -> Seq<u8> {
        if self.offset <= self.vector@.len() {
            self.vector@.take(self.offset as int)
        } else {
            self.vector@
        }
    }

    closed spec fn tail(&self) -> Seq<u8> {
        if self.offset <= self.vector@.len() {
            self.vector@.skip(self.offset as int)
        } else {
            Seq::empty()
        }
    }

    closed spec fn room(&self) -> Option<int> {
        if self.read_only || self.offset < self.initial_offset || self.offset > self.vector@.len() {
            Some(-1)
        } else {
            Some(usize::MAX - self.offset)
        }
    }

    fn write(&mut self, value: u8) -> (r: Result<()>)
        ensures
            old(self).wf() ==> (r is Ok <==> !old(self).spec_read_only() && old(self).pos() < usize::MAX),
            old(self).wf() ==> final(self).wf(),
            r is Ok ==> final(self).data() == overwrite(old(self).data(), old(self).pos() as int, seq![value])
                && final(self).pos() == old(self).pos() + 1,
            r is Err ==> final(self).data() == old(self).data() && final(self).pos() == old(self).pos(),
            r matches Err(e) ==> e == ErrorKind::UnableToWriteData,
            final(self).start() == old(self).start(),
            final(self).spec_read_only() == old(self).spec_read_only(),
            final(final(self).target())@ == final(old(self).target())@,
    {
        self.can_write()?;
        if self.offset == usize::MAX || self.offset < self.initial_offset || self.offset > self.vector.len() {
            return Err(ErrorKind::UnableToWriteData);
        }
        self.put(value);
        proof {
            assert(final(self).written() =~= old(self).written() + seq![value]);
            lemma_overwrite_split(old(self).data(), old(self).pos() as int, seq![value]);
        }
        Ok(())
    }

    fn write_all(&mut self, buff: &[u8]) -> (r: Result<()>)
        ensures
            old(self).wf() ==> (r is Ok <==> !old(self).spec_read_only() && old(self).pos() + buff@.len() <= usize::MAX),
            old(self).wf() ==> final(self).wf(),
            r is Ok ==> final(self).data() == overwrite(old(self).data(), old(self).pos() as int, buff@)
                && final(self).pos() == old(self).pos() + buff@.len(),
            r is Err ==> final(self).data() == old(self).data() && final(self).pos() == old(self).pos(),
            r matches Err(e) ==> e == ErrorKind::UnableToWriteData,
            final(self).start() == old(self).start(),
            final(self).spec_read_only() == old(self).spec_read_only(),
            final(final(self).target())@ == final(old(self).target())@,
    {
        self.can_write()?;
        if self.offset < self.initial_offset || self.offset > self.vector.len() || buff.len() > usize::MAX - self.offset {
            return Err(ErrorKind::UnableToWriteData);
        }
        let mut i: usize = 0;
        while i < buff.len()
            invariant
                i <= buff@.len(),
                old(self).wf(),
                self.wf(),
                old(self).pos() + buff@.len() <= usize::MAX,
                self.data() == overwrite(old(self).data(), old(self).pos() as int, buff@.take(i as int)),
                self.pos() == old(self).pos() + i,
                self.start() == old(self).start(),
                self.spec_read_only() == old(self).spec_read_only(),
                final(self.vector)@ == final(old(self).vector)@,
            decreases buff@.len() - i,
        {
            proof {
                lemma_overwrite_push(old(self).data(), old(self).pos() as int, buff@.take(i as int), buff@[i as int]);
                assert(buff@.take(i as int).push(buff@[i as int]) =~= buff@.take(i + 1));
            }
            self.put(buff[i]);
            i = i + 1;
        }
        proof {
            assert(buff@.take(i as int) =~= buff@);
            assert(final(self).written() =~= old(self).written() + buff@);
            lemma_overwrite_split(old(self).data(), old(self).pos() as int, buff@);
        }
        Ok(())
    }
}

//=============================================================================
// ByteArrayWriter
//-----------------------------------------------------------------------------
/// A [`Writer`] that uses a borrowed byte slice as its backend. It fails
/// when the slice is full.
///
/// What the slice holds once the writer is dropped is its data
/// (`lemma_released`). The methods of the writer keep that link; the
/// contracts of functions generic over [`Writer`] do not carry it.
pub struct ByteArrayWriter<'a> {
    array: &'a mut [u8],
    offset: usize,
}

impl<'a> ByteArrayWriter<'a> {
    #[verifier::type_invariant]
    closed spec fn inv(&self) -> bool {
        self.offset <= self.array@.len() <= usize::MAX
    }

    /// The whole slice.
    pub closed spec fn data(&self) -> Seq<u8> {
        self.array@
    }

    /// The current writing position.
    pub closed spec fn pos(&self) -> usize {
        self.offset
    }

    /// The borrowed slice.
    pub closed spec fn target(&self) -> &'a mut [u8] {
        self.array
    }

    /// Once a writer is no longer used, the slice it borrowed holds its data.
    pub proof fn lemma_released(self)
        requires
            has_resolved(self),
        ensures
            final(self.target())@ == self.data(),
    {
    }

    /// Creates a new instance that writes from the start of `array`.
    pub fn new(array: &'a mut [u8]) -> (r: Self)
        ensures
            r.data() == old(array)@,
            final(r.target())@ == final(array)@,
            r.pos() == 0,
            r.written() == Seq::<u8>::empty(),
            r.tail() == old(array)@,
            r.room() == Some(old(array)@.len() as int),
    {
        let _len = array.len();
        let r = Self { array, offset: 0 };
        proof {
            assert(r.array@.take(0) =~= Seq::<u8>::empty());
            assert(r.array@.skip(0) =~= r.array@);
        }
        r
    }

    /// Returns the current writing position.
    pub fn get_offset(&self) -> (r: usize)
        ensures
            r == self.pos(),
            r <= self.data().len(),
            r == self.written().len(),
            self.data() == self.written() + self.tail(),
    {
        proof {
            use_type_invariant(self);
            assert(self.array@ =~= self.array@.take(self.offset as int) + self.array@.skip(self.offset as int));
        }
        proof {
            use_type_invariant(self);
        }
        self.offset
    }

    /// Moves the writing position, clamped to the end of the slice.
    pub fn set_offset(&mut self, offset: usize)
        ensures
            final(self).data() == old(self).data(),
            final(final(self).target())@ == final(old(self).target())@,
            final(self).pos() == if offset < old(self).data().len() {
                offset
            } else {
                old(self).data().len() as usize
            },
    {
        self.offset = if offset < self.array.len() {
            offset
        } else {
            self.array.len()
        };
    }

    /// Returns the number of bytes that still fit.
    pub fn available(&self) -> (r: usize)
        ensures
            r == self.data().len() - self.pos(),
    {
        proof {
            use_type_invariant(self);
        }
        self.array.len() - self.offset
    }

    /// Verifies that `len` more bytes fit.
    pub fn can_write(&self, len: usize) -> (r: Result<()>)
        ensures
            r is Ok <==> len <= self.data().len() - self.pos(),
            r matches Err(e) ==> e == ErrorKind::UnableToWriteData,
    {
        if self.available() >= len {
            Ok(())
        } else {
            Err(ErrorKind::UnableToWriteData)
        }
    }
}

impl<'a> Writer for ByteArrayWriter<'a> {
    open spec fn obeys_model() -> bool {
        true
    }

    closed spec fn written(&self) -> Seq<u8> {
        self.array@.take(self.offset as int)
    }

    closed spec fn tail(&self) -> Seq<u8> {
        self.array@.skip(self.offset as int)
    }

    closed spec fn room(&self) -> Option<int> {
        if self.offset <= self.array@.len() {
            Some(self.array@.len() - self.offset)
        } else {
            Some(-1)
        }
    }

    fn write(&mut self, value: u8) -> (r: Result<()>)
        ensures
            r is Ok <==> old(self).pos() < old(self).data().len(),
            r is Ok ==> final(self).data() == old(self).data().update(old(self).pos() as int, value)
                && final(self).pos() == old(self).pos() + 1,
            r is Err ==> final(self).data() == old(self).data() && final(self).pos() == old(self).pos(),
            r matches Err(e) ==> e == ErrorKind::UnableToWriteData,
            final(final(self).target())@ == final(old(self).target())@,
    {
        proof {
            use_type_invariant(&*self);
        }
        self.can_write(1)?;
        self.array[self.offset] = value;
        self.offset = self.offset + 1;
        proof {
            assert(final(self).written() =~= old(self).written() + seq![value]);
            assert(final(self).tail() =~= crate::io::tail_after(old(self).tail(), 1));
        }
        Ok(())
    }

    fn write_all(&mut self, buff: &[u8]) -> (r: Result<()>)
        ensures
            r is Ok <==> old(self).pos() + buff@.len() <= old(self).data().len(),
            r is Ok ==> final(self).data() == overwrite(old(self).data(), old(self).pos() as int, buff@)
                && final(self).pos() == old(self).pos() + buff@.len(),
            r is Err ==> final(self).data() == old(self).data() && final(self).pos() == old(self).pos(),
            r matches Err(e) ==> e == ErrorKind::UnableToWriteData,
            final(final(self).target())@ == final(old(self).target())@,
    {
        proof {
            use_type_invariant(&*self);
        }
        self.can_write(buff.len())?;
        let mut i: usize = 0;
        while i < buff.len()
            invariant
                i <= buff@.len(),
                old(self).pos() + buff@.len() <= old(self).data().len() <= usize::MAX,
                self.array@.len() == old(self).data().len(),
                self.array@ == overwrite(old(self).data(), old(self).pos() as int, buff@.take(i as int)),
                self.offset == old(self).pos(),
                final(self.array)@ == final(old(self).array)@,
            decreases buff@.len() - i,
        {
            proof {
                lemma_overwrite_push(old(self).data(), old(self).pos() as int, buff@.take(i as int), buff@[i as int]);
                assert(buff@.take(i as int).push(buff@[i as int]) =~= buff@.take(i + 1));
                assert(overwrite(self.array@, self.offset + i, seq![buff@[i as int]]) =~= self.array@.update(self.offset + i, buff@[i as int]));
            }
            self.array[self.offset + i] = buff[i];
            i = i + 1;
        }
        self.offset = self.offset + buff.len();
        proof {
            assert(buff@.take(i as int) =~= buff@);
            assert(final(self).written() =~= old(self).written() + buff@);
            lemma_overwrite_split(old(self).data(), old(self).pos() as int, buff@);
        }
        Ok(())
    }
}

} // verus!
