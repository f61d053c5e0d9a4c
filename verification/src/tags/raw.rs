//! Scanning of serialized tags without building them: the id of each tag
//! and where its header and its value lie in the data.
use crate::ilint::{spec_decode_from_bytes, spec_decoded_size, spec_encoded_size, spec_truncated};
use crate::io::Reader;
use crate::tags::serialization::ILIntDeserializer;
use crate::tags::standard::constants::{IL_ILINT_TAG_ID, IL_SIGNED_ILINT_TAG_ID};
use crate::tags::standard::implicit::{implicit_tag_size, spec_implicit_tag_size};
use crate::tags::{ErrorKind, Result, IMPLICIT_ID_MAX};
use vstd::prelude::*;

verus! {

//=============================================================================
// RawTagOffset
//-----------------------------------------------------------------------------
/// Where a tag lies in a sequence of bytes: its id, its offset, the size of
/// its header (id and size fields) and the size of its value.
#[derive(Debug, Copy, Clone, PartialEq, Eq, Structural)]
pub struct RawTagOffset {
    id: u64,
    offset: u64,
    header_size: u64,
    value_size: u64,
}

impl RawTagOffset {
    /// The id of the tag.
    pub closed spec fn spec_id(&self) -> u64 {
        self.id
    }

    /// The offset of the tag.
    pub closed spec fn spec_offset(&self) -> u64 {
        self.offset
    }

    /// The size of the header of the tag.
    pub closed spec fn spec_header_size(&self) -> u64 {
        self.header_size
    }

    /// The size of the value of the tag.
    pub closed spec fn spec_value_size(&self) -> u64 {
        self.value_size
    }

    /// True when this instance holds the given values.
    pub open spec fn is(&self, id: u64, offset: u64, header_size: u64, value_size: u64) -> bool {
        &&& self.spec_id() == id
        &&& self.spec_offset() == offset
        &&& self.spec_header_size() == header_size
        &&& self.spec_value_size() == value_size
    }

    /// Creates a new instance.
    pub fn new(id: u64, offset: u64, header_size: u64, value_size: u64) -> (r: Self)
        ensures
            r.spec_id() == id,
            r.spec_offset() == offset,
            r.spec_header_size() == header_size,
            r.spec_value_size() == value_size,
    {
        Self { id, offset, header_size, value_size }
    }

    /// Returns the id of the tag.
    pub fn id(&self) -> (r: u64)
        ensures
            r == self.spec_id(),
    {
        self.id
    }

    /// Returns the offset of the tag.
    pub fn offset(&self) -> (r: u64)
        ensures
            r == self.spec_offset(),
    {
        self.offset
    }

    /// Returns the size of the header of the tag.
    pub fn header_size(&self) -> (r: u64)
        ensures
            r == self.spec_header_size(),
    {
        self.header_size
    }

    /// Returns the total size of the tag.
    pub fn size(&self) -> (r: u64)
        requires
            self.spec_header_size() + self.spec_value_size() <= u64::MAX,
        ensures
            r == self.spec_header_size() + self.spec_value_size(),
    {
        self.header_size + self.value_size
    }

    /// Returns the offset of the value of the tag.
    pub fn value_offset(&self) -> (r: u64)
        requires
            self.spec_offset() + self.spec_header_size() <= u64::MAX,
        ensures
            r == self.spec_offset() + self.spec_header_size(),
    {
        self.offset + self.header_size
    }

    /// Returns the size of the value of the tag.
    pub fn value_size(&self) -> (r: u64)
        ensures
            r == self.spec_value_size(),
    {
        self.value_size
    }

    /// Returns the offset of the next tag.
    pub fn next_tag_offset(&self) -> (r: u64)
        requires
            self.spec_offset() + self.spec_header_size() + self.spec_value_size() <= u64::MAX,
        ensures
            r == self.spec_offset() + self.spec_header_size() + self.spec_value_size(),
    {
        self.offset + self.size()
    }

    /// Returns where the value starts, to slice the data.
    pub fn value_start(&self) -> (r: usize)
        requires
            self.spec_offset() + self.spec_header_size() <= usize::MAX,
        ensures
            r == self.spec_offset() + self.spec_header_size(),
    {
        self.value_offset() as usize
    }

    /// Returns where the value ends, to slice the data.
    pub fn value_end(&self) -> (r: usize)
        requires
            self.spec_offset() + self.spec_header_size() + self.spec_value_size() <= usize::MAX,
        ensures
            r == self.spec_offset() + self.spec_header_size() + self.spec_value_size(),
    {
        self.next_tag_offset() as usize
    }

    /// Returns where the tag starts, to slice the data.
    pub fn tag_start(&self) -> (r: usize)
        requires
            self.spec_offset() <= usize::MAX,
        ensures
            r == self.spec_offset(),
    {
        self.offset() as usize
    }

    /// Returns where the tag ends, to slice the data.
    pub fn tag_end(&self) -> (r: usize)
        requires
            self.spec_offset() + self.spec_header_size() + self.spec_value_size() <= usize::MAX,
        ensures
            r == self.spec_offset() + self.spec_header_size() + self.spec_value_size(),
    {
        self.value_end()
    }

    /// Returns the bytes of the tag within `raw`.
    pub fn tag_slice<'a>(&self, raw: &'a [u8]) -> (r: &'a [u8])
        requires
            self.spec_offset() + self.spec_header_size() + self.spec_value_size() <= raw@.len(),
        ensures
            r@ == raw@.subrange(
                self.spec_offset() as int,
                self.spec_offset() + self.spec_header_size() + self.spec_value_size(),
            ),
    {
        let _len = raw.len();
        vstd::slice::slice_subrange(raw, self.tag_start(), self.tag_end())
    }

    /// Returns the bytes of the value of the tag within `raw`.
    pub fn value_slice<'a>(&self, raw: &'a [u8]) -> (r: &'a [u8])
        requires
            self.spec_offset() + self.spec_header_size() + self.spec_value_size() <= raw@.len(),
        ensures
            r@ == raw@.subrange(
                self.spec_offset() + self.spec_header_size(),
                self.spec_offset() + self.spec_header_size() + self.spec_value_size(),
            ),
    {
        let _len = raw.len();
        vstd::slice::slice_subrange(raw, self.value_start(), self.value_end())
    }

    /// Maps this tag, found within the value of `parent`, to the offsets of
    /// the data that holds `parent`. It fails with `ErrorKind::CorruptedData`
    /// when this tag does not fit inside the value of `parent`.
    pub fn map_to_parent_space(&self, parent: &Self) -> (r: Result<Self>)
        requires
            self.spec_offset() + self.spec_header_size() + self.spec_value_size() <= u64::MAX,
            parent.spec_offset() + parent.spec_header_size() + parent.spec_value_size() <= u64::MAX,
        ensures
            self.spec_offset() + self.spec_header_size() + self.spec_value_size() > parent.spec_value_size()
                ==> r == Err::<Self, ErrorKind>(ErrorKind::CorruptedData),
            self.spec_offset() + self.spec_header_size() + self.spec_value_size() <= parent.spec_value_size()
                ==> (r matches Ok(t) && t.spec_id() == self.spec_id() && t.spec_offset() == parent.spec_offset()
                + parent.spec_header_size() + self.spec_offset() && t.spec_header_size() == self.spec_header_size()
                && t.spec_value_size() == self.spec_value_size()),
    {
        if self.next_tag_offset() > parent.value_size() {
            Err(ErrorKind::CorruptedData)
        } else {
            Ok(Self {
                id: self.id,
                offset: parent.value_offset() + self.offset,
                header_size: self.header_size,
                value_size: self.value_size,
            })
        }
    }
}

impl Default for RawTagOffset {
    fn default() -> (r: Self)
        ensures
            r.spec_id() == 0,
            r.spec_offset() == 0,
            r.spec_header_size() == 0,
            r.spec_value_size() == 0,
    {
        Self { id: 0, offset: 0, header_size: 0, value_size: 0 }
    }
}

//=============================================================================
// RawTagScanner
//-----------------------------------------------------------------------------
/// What scanning the rest of a tag whose id is `id` gives, `bytes`
/// starting right after the id: the size of its header and of its value as
/// the tag's own fields tell them, and the number of bytes after the id
/// that the tag takes; `None` when the rest is no tag.
///
/// The header size counts the shortest encodings of the id and of the value
/// size. The value of an implicit ILInt tag takes the size that its first
/// byte announces; that of another implicit tag, the size its id fixes.
pub open spec fn scan_rest(id: u64, bytes: Seq<u8>) -> Option<(u64, u64, nat)> {
    if id <= IMPLICIT_ID_MAX {
        if id == IL_ILINT_TAG_ID || id == IL_SIGNED_ILINT_TAG_ID {
            if bytes.len() > 0 {
                let size = spec_decoded_size(bytes[0]);
                Some((spec_encoded_size(id) as u64, size as u64, size))
            } else {
                None
            }
        } else if id == 15 {
            None
        } else {
            let size = spec_implicit_tag_size(id);
            Some((spec_encoded_size(id) as u64, size, size as nat))
        }
    } else {
        match spec_decode_from_bytes(bytes) {
            Ok((size, n2)) => Some(((spec_encoded_size(id) + spec_encoded_size(size)) as u64, size, (n2 + size) as nat)),
            Err(_) => None,
        }
    }
}

/// What scanning the tag at the start of `bytes` gives: its id, the size of
/// its header and of its value, and the number of bytes it takes; `None`
/// when the start of `bytes` is no tag.
pub open spec fn scan_tag(bytes: Seq<u8>) -> Option<(u64, u64, u64, nat)> {
    match spec_decode_from_bytes(bytes) {
        Ok((id, n1)) => match scan_rest(id, bytes.skip(n1 as int)) {
            Some((header, value, n)) => Some((id, header, value, n1 + n)),
            None => None,
        },
        Err(_) => None,
    }
}

/// Finds the tags in a reader, one after the other, without reading their
/// values. Only the tags at the top level are found. The offsets count
/// from where the reader stood when the scanner was created.
pub struct RawTagScanner<'a, T: Reader> {
    offset: u64,
    reader: &'a mut T,
}

impl<'a, T: Reader> RawTagScanner<'a, T> {
    /// The offset of the next tag.
    pub closed spec fn spec_offset(&self) -> u64 {
        self.offset
    }

    /// The data left to scan.
    pub closed spec fn remaining(&self) -> Seq<u8> {
        self.reader.remaining()
    }

    /// Creates a scanner over `reader`, whose current position is offset 0.
    pub fn new(reader: &'a mut T) -> (r: Self)
        ensures
            r.spec_offset() == 0,
            r.remaining() == old(reader).remaining(),
    {
        Self { offset: 0, reader }
    }

    /// Reads the rest of the header of a tag whose id was read, and skips
    /// its value.
    fn finish_tag(&mut self, id: u64) -> (r: Result<Option<RawTagOffset>>)
        ensures
            id == 15 ==> r == Err::<Option<RawTagOffset>, ErrorKind>(ErrorKind::CorruptedData),
            T::obeys_model() ==> (r is Ok ==> scan_rest(id, old(self).remaining()) is Some),
            T::obeys_model() ==> (r is Ok ==> ({
                let (header, value, n) = scan_rest(id, old(self).remaining())->Some_0;
                &&& n <= old(self).remaining().len()
                &&& r matches Ok(Some(t)) && t.is(id, old(self).spec_offset(), header, value)
                &&& final(self).spec_offset() == old(self).spec_offset() + header + value
                &&& final(self).remaining() == old(self).remaining().skip(n as int)
            })),
            T::obeys_model() ==> (scan_rest(id, old(self).remaining()) matches Some((header, value, n)) && n <= old(
                self,
            ).remaining().len() && old(self).spec_offset() + header + value <= u64::MAX ==> r is Ok),
    {
        let ghost rem1 = self.reader.remaining();
        proof {
            crate::ilint::lemma_encode_len(id);
        }
        let id_size = crate::ilint::encoded_size(id) as u64;
        let (header_size, value_size, bytes_to_skip) = if id <= IMPLICIT_ID_MAX {
            if id == IL_ILINT_TAG_ID || id == IL_SIGNED_ILINT_TAG_ID {
                let header = match self.reader.read() {
                    Ok(b) => b,
                    Err(e) => return Err(ErrorKind::IOError(e)),
                };
                let total_size = crate::ilint::decoded_size(header);
                (id_size, total_size as u64, (total_size - 1) as u64)
            } else if id == 15 {
                return Err(ErrorKind::CorruptedData);
            } else {
                let value_size = implicit_tag_size(id);
                (id_size, value_size, value_size)
            }
        } else {
            let value_size = self.reader.deserialize_ilint()?;
            proof {
                crate::ilint::lemma_encode_len(value_size);
            }
            (id_size + crate::ilint::encoded_size(value_size) as u64, value_size, value_size)
        };
        let offset = self.offset;
        let end = match offset.checked_add(header_size) {
            Some(v) => match v.checked_add(value_size) {
                Some(e) => e,
                None => return Err(ErrorKind::CorruptedData),
            },
            None => return Err(ErrorKind::CorruptedData),
        };
        self.offset = end;
        match self.reader.skip_u64(bytes_to_skip) {
            Ok(()) => (),
            Err(e) => return Err(ErrorKind::IOError(e)),
        }
        proof {
            if T::obeys_model() {
                if id > IMPLICIT_ID_MAX {
                    let n2 = spec_decode_from_bytes(rem1)->Ok_0.1;
                    assert(self.reader.remaining() =~= rem1.skip(n2 + value_size));
                } else if id == IL_ILINT_TAG_ID || id == IL_SIGNED_ILINT_TAG_ID {
                    assert(self.reader.remaining() =~= rem1.skip(value_size as int));
                } else {
                    assert(self.reader.remaining() =~= rem1.skip(value_size as int));
                }
            }
        }
        Ok(Some(RawTagOffset { id, offset, header_size, value_size }))
    }

    /// Reads the header of the next tag and skips its value. It fails when
    /// the data does not start with a tag (`ErrorKind::CorruptedData` for
    /// the id 15), when the value is truncated and when the offsets no
    /// longer fit in a `u64`.
    pub fn next_tag(&mut self) -> (r: Result<Option<RawTagOffset>>)
        ensures
            T::obeys_model() ==> (!spec_truncated(old(self).remaining()) && spec_decode_from_bytes(old(self).remaining())
                == Ok::<(u64, nat), crate::ilint::ErrorKind>((15u64, 1nat)) ==> r == Err::<
                Option<RawTagOffset>,
                ErrorKind,
            >(ErrorKind::CorruptedData)),
            T::obeys_model() ==> (r is Ok ==> scan_tag(old(self).remaining()) is Some),
            T::obeys_model() ==> (r is Ok ==> ({
                let (id, header, value, n) = scan_tag(old(self).remaining())->Some_0;
                &&& n <= old(self).remaining().len()
                &&& r matches Ok(Some(t)) && t.is(id, old(self).spec_offset(), header, value)
                &&& final(self).spec_offset() == old(self).spec_offset() + header + value
                &&& final(self).remaining() == old(self).remaining().skip(n as int)
            })),
            T::obeys_model() ==> (scan_tag(old(self).remaining()) matches Some((id, header, value, n)) && n <= old(
                self,
            ).remaining().len() && old(self).spec_offset() + header + value <= u64::MAX ==> r is Ok),
    {
        let ghost rem0 = self.reader.remaining();
        let id: u64 = self.reader.deserialize_ilint()?;
        let ghost rem1 = self.reader.remaining();
        proof {
            if T::obeys_model() {
                let n1 = rem0.len() - rem1.len();
                assert(spec_decode_from_bytes(rem0)->Ok_0.1 == n1);
            }
        }
        let r = self.finish_tag(id);
        proof {
            if T::obeys_model() {
                let n1 = rem0.len() - rem1.len();
                if r is Ok {
                    assert(self.reader.remaining() =~= rem0.skip(n1 + scan_rest(id, rem1)->Some_0.2));
                }
            }
        }
        r
    }

    /// Finds the next tag: `None` at the end of the data, otherwise what
    /// `next_tag` gives.
    pub fn find_next(&mut self) -> (r: Result<Option<RawTagOffset>>)
        ensures
            T::obeys_model() ==> (old(self).remaining().len() == 0 ==> r == Ok::<Option<RawTagOffset>, ErrorKind>(None)
                && final(self).spec_offset() == old(self).spec_offset()),
            T::obeys_model() ==> (r matches Ok(Some(t)) ==> ({
                let (id, header, value, n) = scan_tag(old(self).remaining())->Some_0;
                &&& scan_tag(old(self).remaining()) is Some
                &&& n <= old(self).remaining().len()
                &&& t.is(id, old(self).spec_offset(), header, value)
                &&& final(self).spec_offset() == old(self).spec_offset() + header + value
                &&& final(self).remaining() == old(self).remaining().skip(n as int)
            })),
            T::obeys_model() ==> (scan_tag(old(self).remaining()) matches Some((id, header, value, n)) && n <= old(
                self,
            ).remaining().len() && old(self).spec_offset() + header + value <= u64::MAX ==> r matches Ok(Some(_))),
    {
        let ghost rem0 = self.reader.remaining();
        let header = match self.reader.read() {
            Ok(b) => b,
            Err(_) => return Ok(None),
        };
        proof {
            if T::obeys_model() {
                assert(rem0 =~= seq![header] + self.reader.remaining());
            }
        }
        let id = match crate::ilint::decode_rest(header, self.reader) {
            Ok(v) => v,
            Err(crate::ilint::ErrorKind::IOError(e)) => return Err(ErrorKind::IOError(e)),
            Err(_) => return Err(ErrorKind::IOError(crate::io::ErrorKind::CorruptedData)),
        };
        let ghost rem1 = self.reader.remaining();
        let r = self.finish_tag(id);
        proof {
            if T::obeys_model() {
                let n1 = rem0.len() - rem1.len();
                assert(spec_decode_from_bytes(rem0)->Ok_0.1 == n1);
                if r is Ok {
                    assert(self.reader.remaining() =~= rem0.skip(n1 + scan_rest(id, rem1)->Some_0.2));
                }
            }
        }
        r
    }

    /// Works as `next_tag`, but fails with `ErrorKind::UnexpectedTagType`
    /// when the id of the tag is not `expected_id`.
    pub fn next_tag_if_id(&mut self, expected_id: u64) -> (r: Result<Option<RawTagOffset>>)
        ensures
            T::obeys_model() ==> (r is Ok ==> scan_tag(old(self).remaining()) is Some && scan_tag(old(self).remaining())->Some_0.0
                == expected_id),
            T::obeys_model() ==> (scan_tag(old(self).remaining()) matches Some((id, header, value, n)) && n <= old(
                self,
            ).remaining().len() && old(self).spec_offset() + header + value <= u64::MAX && id
                != expected_id ==> r == Err::<Option<RawTagOffset>, ErrorKind>(ErrorKind::UnexpectedTagType)),
            T::obeys_model() ==> (r matches Ok(Some(t)) ==> ({
                let (id, header, value, n) = scan_tag(old(self).remaining())->Some_0;
                &&& t.is(id, old(self).spec_offset(), header, value)
                &&& final(self).spec_offset() == old(self).spec_offset() + header + value
                &&& final(self).remaining() == old(self).remaining().skip(n as int)
            })),
    {
        match self.next_tag()? {
            Some(t) => {
                if t.id == expected_id {
                    Ok(Some(t))
                } else {
                    Err(ErrorKind::UnexpectedTagType)
                }
            },
            None => Ok(None),
        }
    }
}

/// Scanning a serialized ILInt tag or signed ILInt tag, whose value is the
/// ILInt encoding of some `x`, finds its id, a header of one byte and a value
/// as long as that encoding, whatever follows it: the scanner measures the
/// value by its first byte, not by the largest size an ILInt can take.
pub proof fn lemma_scan_serialized_ilint_tag(id: u64, x: u64, rest: Seq<u8>)
    requires
        id == IL_ILINT_TAG_ID || id == IL_SIGNED_ILINT_TAG_ID,
    ensures
        scan_tag(crate::tags::spec_tag_bytes(id, crate::ilint::spec_encode(x)) + rest) == Some(
            (id, 1u64, crate::ilint::spec_encoded_size(x) as u64, 1 + crate::ilint::spec_encoded_size(x)),
        ),
        crate::tags::spec_tag_bytes(id, crate::ilint::spec_encode(x)).len() == 1
            + crate::ilint::spec_encoded_size(x),
{
    let v = crate::ilint::spec_encode(x);
    let b = crate::tags::spec_tag_bytes(id, v) + rest;
    crate::ilint::lemma_encode_len(id);
    crate::ilint::lemma_encode_len(x);
    crate::ilint::lemma_encode_decode(id, v + rest);
    assert(b =~= crate::ilint::spec_encode(id) + (v + rest));
    assert(b.skip(1) =~= v + rest);
    crate::ilint::lemma_encode_decode(x, rest);
    assert((v + rest)[0] == v[0]);
}

/// Scanning a serialized tag finds its id, the sizes of its header and of
/// its value, and its whole length, whatever follows it. This holds of
/// explicit tags and of implicit tags other than the ILInt ones whose value
/// has the size their id fixes.
pub proof fn lemma_scan_serialized_tag(id: u64, value: Seq<u8>, rest: Seq<u8>)
    requires
        value.len() <= u64::MAX,
        id != 15,
        id != IL_ILINT_TAG_ID,
        id != IL_SIGNED_ILINT_TAG_ID,
        id <= IMPLICIT_ID_MAX ==> value.len() == spec_implicit_tag_size(id),
    ensures
        scan_tag(crate::tags::spec_tag_bytes(id, value) + rest) == Some(
            (
                id,
                crate::tags::spec_header_size(id, value.len()) as u64,
                value.len() as u64,
                crate::tags::spec_tag_bytes(id, value).len(),
            ),
        ),
{
    let b = crate::tags::spec_tag_bytes(id, value) + rest;
    crate::ilint::lemma_encode_len(id);
    let n1 = spec_encoded_size(id);
    if id <= IMPLICIT_ID_MAX {
        crate::ilint::lemma_encode_decode(id, value + rest);
        assert(b =~= crate::ilint::spec_encode(id) + (value + rest));
    } else {
        let tail = value + rest;
        crate::ilint::lemma_encode_decode(id, crate::ilint::spec_encode(value.len() as u64) + tail);
        assert(b =~= crate::ilint::spec_encode(id) + (crate::ilint::spec_encode(value.len() as u64) + tail));
        assert(b.skip(n1 as int) =~= crate::ilint::spec_encode(value.len() as u64) + tail);
        crate::ilint::lemma_encode_decode(value.len() as u64, tail);
        crate::ilint::lemma_encode_len(value.len() as u64);
    }
}

} // verus!
