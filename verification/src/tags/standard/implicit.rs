//! The standard implicit tags: their ids are at most `IMPLICIT_ID_MAX` and
//! their serialization carries no size field.
use super::constants::{
    IL_BDEC_TAG_ID, IL_BIN128_TAG_ID, IL_BIN32_TAG_ID, IL_BIN64_TAG_ID, IL_BINT_TAG_ID, IL_BOOL_TAG_ID, IL_BYTES_TAG_ID, IL_DICTIONARY_TAG_ID, IL_ILINTARRAY_TAG_ID, IL_ILINT_TAG_ID, IL_ILTAGARRAY_TAG_ID, IL_ILTAGSEQ_TAG_ID, IL_INT16_TAG_ID, IL_INT32_TAG_ID, IL_INT64_TAG_ID, IL_INT8_TAG_ID, IL_NULL_TAG_ID, IL_OID_TAG_ID, IL_RANGE_TAG_ID, IL_SIGNED_ILINT_TAG_ID, IL_STRING_DICTIONARY_TAG_ID, IL_STRING_TAG_ID, IL_UINT16_TAG_ID, IL_UINT32_TAG_ID, IL_UINT64_TAG_ID, IL_UINT8_TAG_ID, IL_VERSION_TAG_ID,
};
use crate::ilint::{
    be_bytes, be_value, lemma_be_bytes_of_value, spec_decode_from_bytes, spec_encode,
    spec_signed_encode, spec_truncated, spec_zigzag,
};
use crate::io::data::{
    from_twos, lemma_twos_roundtrip, pow2, read_i16, read_i32, read_i64, read_i8, read_u16,
    read_u32, read_u64, read_u8, to_twos, write_i16, write_i32, write_i64, write_i8, write_u16,
    write_u32, write_u64, write_u8,
};
use crate::io::{Reader, Writer};
use crate::tags::serialization::{SignedILIntDeserializer, SignedILIntSerializer};
use crate::tags::{
    deserialize_bytes, deserialize_ilint, serialize_ilint, DefaultWithId, ErrorKind, ILTag,
    ILTagFactory, Result,
};
use vstd::prelude::*;

verus! {

/// Returns the size of the value of the implicit tag `id`. The ILInt tags
/// have variable sizes and get their largest one, 9. Ids of no implicit tag
/// get 0.
pub fn implicit_tag_size(id: u64) -> (r: u64)
    ensures
        r == spec_implicit_tag_size(id),
{
    if id == IL_NULL_TAG_ID {
        0
    } else if id == IL_BOOL_TAG_ID || id == IL_INT8_TAG_ID || id == IL_UINT8_TAG_ID {
        1
    } else if id == IL_INT16_TAG_ID || id == IL_UINT16_TAG_ID {
        2
    } else if id == IL_INT32_TAG_ID || id == IL_UINT32_TAG_ID || id == IL_BIN32_TAG_ID {
        4
    } else if id == IL_INT64_TAG_ID || id == IL_UINT64_TAG_ID || id == IL_BIN64_TAG_ID {
        8
    } else if id == IL_ILINT_TAG_ID || id == IL_SIGNED_ILINT_TAG_ID {
        9
    } else if id == IL_BIN128_TAG_ID {
        16
    } else {
        0
    }
}

/// The size of the value of the implicit tag `id`.
pub open spec fn spec_implicit_tag_size(id: u64) -> u64 {
    if id == 0 {
        0
    } else if id == 1 || id == 2 || id == 3 {
        1
    } else if id == 4 || id == 5 {
        2
    } else if id == 6 || id == 7 || id == 11 {
        4
    } else if id == 8 || id == 9 || id == 12 {
        8
    } else if id == 10 || id == 14 {
        9
    } else if id == 13 {
        16
    } else {
        0
    }
}

proof fn lemma_be_bytes_one(x: nat)
    requires
        x < 256,
    ensures
        be_bytes(x, 1) == seq![x as u8],
{
    assert(x / 256 == 0);
    assert(be_bytes(0, 0) =~= Seq::<u8>::empty());
    assert(be_bytes(x, 1) =~= seq![x as u8]);
}

proof fn lemma_pow_facts()
    ensures
        pow2(8) == 0x100,
        pow2(16) == 0x1_0000,
        pow2(32) == 0x1_0000_0000,
        pow2(64) == 0x1_0000_0000_0000_0000,
        crate::ilint::pow256(1) == 0x100,
        crate::ilint::pow256(2) == 0x1_0000,
        crate::ilint::pow256(4) == 0x1_0000_0000,
        crate::ilint::pow256(8) == 0x1_0000_0000_0000_0000,
{
    reveal_with_fuel(pow2, 65);
    reveal_with_fuel(crate::ilint::pow256, 9);
}

//=============================================================================
// ILNullTag
//-----------------------------------------------------------------------------
/// The standard null tag. It has no value.
///
/// Its default id is `IL_NULL_TAG_ID`.
pub struct ILNullTag {
    id: u64,
}

impl ILNullTag {
    /// Creates a tag with the default id.
    pub fn new() -> (r: ILNullTag)
        ensures
            r.spec_id() == IL_NULL_TAG_ID,
    {
        ILNullTag::with_id(IL_NULL_TAG_ID)
    }

    /// Creates a tag with the given id.
    pub fn with_id(id: u64) -> (r: ILNullTag)
        ensures
            r.spec_id() == id,
    {
        ILNullTag { id }
    }
}

impl ILNullTag {
    /// True when the value bytes `value` deserialize into this tag.
    pub closed spec fn decodes(&self, value: Seq<u8>) -> bool {
        value.len() == 0
    }
}

impl ILTag for ILNullTag {
    open spec fn obeys_tag_model() -> bool {
        true
    }

    open spec fn spec_serializes(&self) -> bool {
        true
    }

    closed spec fn spec_id(&self) -> u64 {
        self.id
    }

    closed spec fn spec_value(&self) -> Seq<u8> {
        Seq::empty()
    }

    open spec fn spec_decodes(&self, value: Seq<u8>) -> bool {
        self.decodes(value)
    }

    fn id(&self) -> (r: u64) {
        self.id
    }

    fn value_size(&self) -> (r: u64) {
        0
    }

    /// Writes nothing: the value is empty.
    fn serialize_value<W: Writer>(&self, writer: &mut W) -> (r: Result<()>)
        ensures
            r is Ok,
            *final(writer) == *old(writer),
            crate::io::writes_exactly(*old(writer), *final(writer), self.spec_value(), r is Ok),
    {
        proof {
            assert(writer.written() + Seq::<u8>::empty() =~= writer.written());
            crate::io::lemma_writes_nothing(*writer);
        }
        Ok(())
    }

    fn deserialize_value<F: ILTagFactory, R: Reader>(
        &mut self,
        factory: &F,
        value_size: usize,
        reader: &mut R,
    ) -> (r: Result<()>)
        ensures
            r is Ok <==> value_size == 0,
            r matches Err(e) ==> e == ErrorKind::CorruptedData,
            R::obeys_model() ==> (final(reader).remaining() == old(reader).remaining()),
    {
        proof {
            if R::obeys_model() {
                assert(reader.remaining().skip(0) =~= reader.remaining());
            }
        }
        if value_size == 0 {
            Ok(())
        } else {
            Err(ErrorKind::CorruptedData)
        }
    }
}

impl Default for ILNullTag {
    fn default() -> (r: Self)
        ensures
            r.spec_id() == IL_NULL_TAG_ID,
    {
        Self::new()
    }
}

impl DefaultWithId for ILNullTag {
    fn default_with_id(id: u64) -> (r: Self) {
        Self::with_id(id)
    }
}

//=============================================================================
// ILBoolTag
//-----------------------------------------------------------------------------
/// The standard boolean tag. Its value is the byte 1 for true and 0 for false.
///
/// Its default id is `IL_BOOL_TAG_ID`.
pub struct ILBoolTag {
    id: u64,
    value: bool,
}

impl View for ILBoolTag {
    type V = bool;

    closed spec fn view(&self) -> bool {
        self.value
    }
}

impl ILBoolTag {
    /// Creates a tag with the default id and value.
    pub fn new() -> (r: Self)
        ensures
            r.spec_id() == IL_BOOL_TAG_ID,
            r@ == false,
    {
        Self::with_id(IL_BOOL_TAG_ID)
    }

    /// Creates a tag with the default id and the given value.
    pub fn with_value(value: bool) -> (r: Self)
        ensures
            r.spec_id() == IL_BOOL_TAG_ID,
            r@ == value,
    {
        Self::with_id_value(IL_BOOL_TAG_ID, value)
    }

    /// Creates a tag with the given id and the default value.
    pub fn with_id(id: u64) -> (r: Self)
        ensures
            r.spec_id() == id,
            r@ == false,
    {
        Self { id, value: false }
    }

    /// Creates a tag with the given id and value.
    pub fn with_id_value(id: u64, value: bool) -> (r: Self)
        ensures
            r.spec_id() == id,
            r@ == value,
    {
        Self { id, value }
    }

    /// Returns the value.
    pub fn value(&self) -> (r: bool)
        ensures
            r == self@,
    {
        self.value
    }

    /// Sets the value.
    pub fn set_value(&mut self, value: bool)
        ensures
            final(self).spec_id() == old(self).spec_id(),
            final(self)@ == value,
    {
        self.value = value
    }
}

impl ILBoolTag {
    /// True when the value bytes `value` deserialize into this tag.
    pub closed spec fn decodes(&self, value: Seq<u8>) -> bool {
        value == (seq![if self.value { 1u8 } else { 0u8 }])
    }
}

impl ILTag for ILBoolTag {
    open spec fn obeys_tag_model() -> bool {
        true
    }

    open spec fn spec_serializes(&self) -> bool {
        true
    }

    closed spec fn spec_id(&self) -> u64 {
        self.id
    }

    closed spec fn spec_value(&self) -> Seq<u8> {
        seq![if self.value { 1u8 } else { 0u8 }]
    }

    open spec fn spec_decodes(&self, value: Seq<u8>) -> bool {
        self.decodes(value)
    }

    fn id(&self) -> (r: u64) {
        self.id
    }

    fn value_size(&self) -> (r: u64) {
        1
    }

    fn serialize_value<W: Writer>(&self, writer: &mut W) -> (r: Result<()>)
        ensures
            r matches Err(e) ==> e is IOError,
            crate::io::writes_exactly(*old(writer), *final(writer), self.spec_value(), r is Ok),
    {
        let v: u8 = if self.value { 1 } else { 0 };
        match write_u8(v, writer) {
            Ok(()) => {
                proof {
                    assert(W::obeys_model() ==> writer.written() =~= old(writer).written() + self.spec_value());
                }
                Ok(())
            },
            Err(e) => Err(ErrorKind::IOError(e)),
        }
    }

    fn deserialize_value<F: ILTagFactory, R: Reader>(
        &mut self,
        factory: &F,
        value_size: usize,
        reader: &mut R,
    ) -> (r: Result<()>)
        ensures
            R::obeys_model() ==> (value_size != 1 ==> r == Err::<(), ErrorKind>(ErrorKind::CorruptedData) && final(reader).remaining() == old(reader).remaining()),
            R::obeys_model() ==> (value_size == 1 ==> (r is Ok <==> old(reader).remaining().len() >= 1 && old(reader).remaining()[0] <= 1)),
            R::obeys_model() ==> (value_size == 1 && old(reader).remaining().len() < 1 ==> r matches Err(ErrorKind::IOError(_))),
            R::obeys_model() ==> (value_size == 1 && old(reader).remaining().len() >= 1 && old(reader).remaining()[0] > 1 ==> r == Err::<(), ErrorKind>(ErrorKind::CorruptedData)),
            R::obeys_model() ==> (r is Ok ==> final(self).spec_value() == old(reader).remaining().take(1) && final(self)@ == (old(reader).remaining()[0] == 1)
                && final(reader).remaining() == old(reader).remaining().skip(1)),
            r is Err ==> *final(self) == *old(self),
    {
        proof {
            if R::obeys_model() {
                assert(reader.remaining().skip(0) =~= reader.remaining());
            }
        }
        if value_size != 1 {
            return Err(ErrorKind::CorruptedData);
        }
        let v: u8 = match read_u8(reader) {
            Ok(v) => v,
            Err(e) => return Err(ErrorKind::IOError(e)),
        };
        if v == 0 {
            self.value = false;
        } else if v == 1 {
            self.value = true;
        } else {
            return Err(ErrorKind::CorruptedData);
        }
        proof {
            if R::obeys_model() {
                assert(old(reader).remaining().take(1) =~= seq![v]);
                assert(old(reader).remaining().len() - reader.remaining().len() == 1);
            }
        }
        Ok(())
    }
}

impl Default for ILBoolTag {
    fn default() -> (r: Self)
        ensures
            r.spec_id() == IL_BOOL_TAG_ID,
    {
        Self::new()
    }
}

impl DefaultWithId for ILBoolTag {
    fn default_with_id(id: u64) -> (r: Self) {
        Self::with_id(id)
    }
}

//=============================================================================
// ILInt8Tag
//-----------------------------------------------------------------------------
/// The standard signed 8-bit integer tag. Its value is big-endian in two's complement.
///
/// Its default id is `IL_INT8_TAG_ID`.
pub struct ILInt8Tag {
    id: u64,
    value: i8,
}

impl View for ILInt8Tag {
    type V = i8;

    closed spec fn view(&self) -> i8 {
        self.value
    }
}

impl ILInt8Tag {
    /// Creates a tag with the default id and value.
    pub fn new() -> (r: Self)
        ensures
            r.spec_id() == IL_INT8_TAG_ID,
            r@ == 0,
    {
        Self::with_id(IL_INT8_TAG_ID)
    }

    /// Creates a tag with the default id and the given value.
    pub fn with_value(value: i8) -> (r: Self)
        ensures
            r.spec_id() == IL_INT8_TAG_ID,
            r@ == value,
    {
        Self::with_id_value(IL_INT8_TAG_ID, value)
    }

    /// Creates a tag with the given id and the default value.
    pub fn with_id(id: u64) -> (r: Self)
        ensures
            r.spec_id() == id,
            r@ == 0,
    {
        Self { id, value: 0 }
    }

    /// Creates a tag with the given id and value.
    pub fn with_id_value(id: u64, value: i8) -> (r: Self)
        ensures
            r.spec_id() == id,
            r@ == value,
    {
        Self { id, value }
    }

    /// Returns the value.
    pub fn value(&self) -> (r: i8)
        ensures
            r == self@,
    {
        self.value
    }

    /// Sets the value.
    pub fn set_value(&mut self, value: i8)
        ensures
            final(self).spec_id() == old(self).spec_id(),
            final(self)@ == value,
    {
        self.value = value
    }
}

impl ILInt8Tag {
    /// True when the value bytes `value` deserialize into this tag.
    pub closed spec fn decodes(&self, value: Seq<u8>) -> bool {
        value == (be_bytes(to_twos(self.value as int, 8), 1))
    }
}

impl ILTag for ILInt8Tag {
    open spec fn obeys_tag_model() -> bool {
        true
    }

    open spec fn spec_serializes(&self) -> bool {
        true
    }

    closed spec fn spec_id(&self) -> u64 {
        self.id
    }

    closed spec fn spec_value(&self) -> Seq<u8> {
        be_bytes(to_twos(self.value as int, 8), 1)
    }

    open spec fn spec_decodes(&self, value: Seq<u8>) -> bool {
        self.decodes(value)
    }

    fn id(&self) -> (r: u64) {
        self.id
    }

    fn value_size(&self) -> (r: u64) {
        proof {
            crate::ilint::lemma_be_bytes_len(to_twos(self.value as int, 8), 1);
        }
        1
    }

    fn serialize_value<W: Writer>(&self, writer: &mut W) -> (r: Result<()>)
        ensures
            r matches Err(e) ==> e is IOError,
            crate::io::writes_exactly(*old(writer), *final(writer), self.spec_value(), r is Ok),
    {
        proof {
            lemma_pow_facts();
        }
        match write_i8(self.value, writer) {
            Ok(()) => {
                proof {
                    lemma_be_bytes_one(to_twos(self.value as int, 8));
                    assert(W::obeys_model() ==> writer.written() =~= old(writer).written() + self.spec_value());
                }
                Ok(())
            },
            Err(e) => Err(ErrorKind::IOError(e)),
        }
    }

    fn deserialize_value<F: ILTagFactory, R: Reader>(
        &mut self,
        factory: &F,
        value_size: usize,
        reader: &mut R,
    ) -> (r: Result<()>)
        ensures
            R::obeys_model() ==> (value_size != 1 ==> r == Err::<(), ErrorKind>(ErrorKind::CorruptedData) && final(reader).remaining() == old(reader).remaining()),
            R::obeys_model() ==> (value_size == 1 ==> (r is Ok <==> old(reader).remaining().len() >= 1)),
            value_size == 1 && r is Err ==> r matches Err(ErrorKind::IOError(_)),
            R::obeys_model() ==> (r is Ok ==> final(self)@ == from_twos(be_value(old(reader).remaining().take(1)), 8) && final(self).spec_value() == old(reader).remaining().take(1)
                && final(reader).remaining() == old(reader).remaining().skip(1)),
    {
        proof {
            if R::obeys_model() {
                assert(reader.remaining().skip(0) =~= reader.remaining());
                lemma_pow_facts();
            }
        }
        if value_size != 1 {
            return Err(ErrorKind::CorruptedData);
        }
        let ghost rem = reader.remaining();
        self.value = match read_i8(reader) {
            Ok(v) => v,
            Err(e) => return Err(ErrorKind::IOError(e)),
        };
        proof {
            if R::obeys_model() {
                assert(rem.take(1) =~= seq![rem[0]]);
                assert(be_value(rem.take(1)) == rem[0]) by {
                    assert(rem.take(1).drop_last() =~= Seq::<u8>::empty());
                    assert(be_value(Seq::<u8>::empty()) == 0);
                }
                let s = rem.take(1);
                lemma_be_bytes_of_value(s);
                crate::ilint::lemma_be_value_bound(s);
                lemma_twos_roundtrip(0, be_value(s), 8);
                assert(rem.len() - reader.remaining().len() == 1);
            }
        }
        Ok(())
    }
}

impl Default for ILInt8Tag {
    fn default() -> (r: Self)
        ensures
            r.spec_id() == IL_INT8_TAG_ID,
    {
        Self::new()
    }
}

impl DefaultWithId for ILInt8Tag {
    fn default_with_id(id: u64) -> (r: Self) {
        Self::with_id(id)
    }
}

//=============================================================================
// ILUInt8Tag
//-----------------------------------------------------------------------------
/// The standard unsigned 8-bit integer tag. Its value is big-endian.
///
/// Its default id is `IL_UINT8_TAG_ID`.
pub struct ILUInt8Tag {
    id: u64,
    value: u8,
}

impl View for ILUInt8Tag {
    type V = u8;

    closed spec fn view(&self) -> u8 {
        self.value
    }
}

impl ILUInt8Tag {
    /// Creates a tag with the default id and value.
    pub fn new() -> (r: Self)
        ensures
            r.spec_id() == IL_UINT8_TAG_ID,
            r@ == 0,
    {
        Self::with_id(IL_UINT8_TAG_ID)
    }

    /// Creates a tag with the default id and the given value.
    pub fn with_value(value: u8) -> (r: Self)
        ensures
            r.spec_id() == IL_UINT8_TAG_ID,
            r@ == value,
    {
        Self::with_id_value(IL_UINT8_TAG_ID, value)
    }

    /// Creates a tag with the given id and the default value.
    pub fn with_id(id: u64) -> (r: Self)
        ensures
            r.spec_id() == id,
            r@ == 0,
    {
        Self { id, value: 0 }
    }

    /// Creates a tag with the given id and value.
    pub fn with_id_value(id: u64, value: u8) -> (r: Self)
        ensures
            r.spec_id() == id,
            r@ == value,
    {
        Self { id, value }
    }

    /// Returns the value.
    pub fn value(&self) -> (r: u8)
        ensures
            r == self@,
    {
        self.value
    }

    /// Sets the value.
    pub fn set_value(&mut self, value: u8)
        ensures
            final(self).spec_id() == old(self).spec_id(),
            final(self)@ == value,
    {
        self.value = value
    }
}

impl ILUInt8Tag {
    /// True when the value bytes `value` deserialize into this tag.
    pub closed spec fn decodes(&self, value: Seq<u8>) -> bool {
        value == (be_bytes(self.value as nat, 1))
    }
}

impl ILTag for ILUInt8Tag {
    open spec fn obeys_tag_model() -> bool {
        true
    }

    open spec fn spec_serializes(&self) -> bool {
        true
    }

    closed spec fn spec_id(&self) -> u64 {
        self.id
    }

    closed spec fn spec_value(&self) -> Seq<u8> {
        be_bytes(self.value as nat, 1)
    }

    open spec fn spec_decodes(&self, value: Seq<u8>) -> bool {
        self.decodes(value)
    }

    fn id(&self) -> (r: u64) {
        self.id
    }

    fn value_size(&self) -> (r: u64) {
        proof {
            crate::ilint::lemma_be_bytes_len(self.value as nat, 1);
        }
        1
    }

    fn serialize_value<W: Writer>(&self, writer: &mut W) -> (r: Result<()>)
        ensures
            r matches Err(e) ==> e is IOError,
            crate::io::writes_exactly(*old(writer), *final(writer), self.spec_value(), r is Ok),
    {
        proof {
            lemma_pow_facts();
        }
        match write_u8(self.value, writer) {
            Ok(()) => {
                proof {
                    lemma_be_bytes_one(self.value as nat);
                    assert(W::obeys_model() ==> writer.written() =~= old(writer).written() + self.spec_value());
                }
                Ok(())
            },
            Err(e) => Err(ErrorKind::IOError(e)),
        }
    }

    fn deserialize_value<F: ILTagFactory, R: Reader>(
        &mut self,
        factory: &F,
        value_size: usize,
        reader: &mut R,
    ) -> (r: Result<()>)
        ensures
            R::obeys_model() ==> (value_size != 1 ==> r == Err::<(), ErrorKind>(ErrorKind::CorruptedData) && final(reader).remaining() == old(reader).remaining()),
            R::obeys_model() ==> (value_size == 1 ==> (r is Ok <==> old(reader).remaining().len() >= 1)),
            value_size == 1 && r is Err ==> r matches Err(ErrorKind::IOError(_)),
            R::obeys_model() ==> (r is Ok ==> final(self)@ == be_value(old(reader).remaining().take(1)) && final(self).spec_value() == old(reader).remaining().take(1)
                && final(reader).remaining() == old(reader).remaining().skip(1)),
    {
        proof {
            if R::obeys_model() {
                assert(reader.remaining().skip(0) =~= reader.remaining());
                lemma_pow_facts();
            }
        }
        if value_size != 1 {
            return Err(ErrorKind::CorruptedData);
        }
        let ghost rem = reader.remaining();
        self.value = match read_u8(reader) {
            Ok(v) => v,
            Err(e) => return Err(ErrorKind::IOError(e)),
        };
        proof {
            if R::obeys_model() {
                assert(rem.take(1) =~= seq![rem[0]]);
                assert(be_value(rem.take(1)) == rem[0]) by {
                    assert(rem.take(1).drop_last() =~= Seq::<u8>::empty());
                    assert(be_value(Seq::<u8>::empty()) == 0);
                }
                let s = rem.take(1);
                lemma_be_bytes_of_value(s);
                crate::ilint::lemma_be_value_bound(s);
                assert(rem.len() - reader.remaining().len() == 1);
            }
        }
        Ok(())
    }
}

impl Default for ILUInt8Tag {
    fn default() -> (r: Self)
        ensures
            r.spec_id() == IL_UINT8_TAG_ID,
    {
        Self::new()
    }
}

impl DefaultWithId for ILUInt8Tag {
    fn default_with_id(id: u64) -> (r: Self) {
        Self::with_id(id)
    }
}

//=============================================================================
// ILInt16Tag
//-----------------------------------------------------------------------------
/// The standard signed 16-bit integer tag. Its value is big-endian in two's complement.
///
/// Its default id is `IL_INT16_TAG_ID`.
pub struct ILInt16Tag {
    id: u64,
    value: i16,
}

impl View for ILInt16Tag {
    type V = i16;

    closed spec fn view(&self) -> i16 {
        self.value
    }
}

impl ILInt16Tag {
    /// Creates a tag with the default id and value.
    pub fn new() -> (r: Self)
        ensures
            r.spec_id() == IL_INT16_TAG_ID,
            r@ == 0,
    {
        Self::with_id(IL_INT16_TAG_ID)
    }

    /// Creates a tag with the default id and the given value.
    pub fn with_value(value: i16) -> (r: Self)
        ensures
            r.spec_id() == IL_INT16_TAG_ID,
            r@ == value,
    {
        Self::with_id_value(IL_INT16_TAG_ID, value)
    }

    /// Creates a tag with the given id and the default value.
    pub fn with_id(id: u64) -> (r: Self)
        ensures
            r.spec_id() == id,
            r@ == 0,
    {
        Self { id, value: 0 }
    }

    /// Creates a tag with the given id and value.
    pub fn with_id_value(id: u64, value: i16) -> (r: Self)
        ensures
            r.spec_id() == id,
            r@ == value,
    {
        Self { id, value }
    }

    /// Returns the value.
    pub fn value(&self) -> (r: i16)
        ensures
            r == self@,
    {
        self.value
    }

    /// Sets the value.
    pub fn set_value(&mut self, value: i16)
        ensures
            final(self).spec_id() == old(self).spec_id(),
            final(self)@ == value,
    {
        self.value = value
    }
}

impl ILInt16Tag {
    /// True when the value bytes `value` deserialize into this tag.
    pub closed spec fn decodes(&self, value: Seq<u8>) -> bool {
        value == (be_bytes(to_twos(self.value as int, 16), 2))
    }
}

impl ILTag for ILInt16Tag {
    open spec fn obeys_tag_model() -> bool {
        true
    }

    open spec fn spec_serializes(&self) -> bool {
        true
    }

    closed spec fn spec_id(&self) -> u64 {
        self.id
    }

    closed spec fn spec_value(&self) -> Seq<u8> {
        be_bytes(to_twos(self.value as int, 16), 2)
    }

    open spec fn spec_decodes(&self, value: Seq<u8>) -> bool {
        self.decodes(value)
    }

    fn id(&self) -> (r: u64) {
        self.id
    }

    fn value_size(&self) -> (r: u64) {
        proof {
            crate::ilint::lemma_be_bytes_len(to_twos(self.value as int, 16), 2);
        }
        2
    }

    fn serialize_value<W: Writer>(&self, writer: &mut W) -> (r: Result<()>)
        ensures
            r matches Err(e) ==> e is IOError,
            crate::io::writes_exactly(*old(writer), *final(writer), self.spec_value(), r is Ok),
    {
        proof {
            lemma_pow_facts();
        }
        match write_i16(self.value, writer) {
            Ok(()) => {
                Ok(())
            },
            Err(e) => Err(ErrorKind::IOError(e)),
        }
    }

    fn deserialize_value<F: ILTagFactory, R: Reader>(
        &mut self,
        factory: &F,
        value_size: usize,
        reader: &mut R,
    ) -> (r: Result<()>)
        ensures
            R::obeys_model() ==> (value_size != 2 ==> r == Err::<(), ErrorKind>(ErrorKind::CorruptedData) && final(reader).remaining() == old(reader).remaining()),
            R::obeys_model() ==> (value_size == 2 ==> (r is Ok <==> old(reader).remaining().len() >= 2)),
            value_size == 2 && r is Err ==> r matches Err(ErrorKind::IOError(_)),
            R::obeys_model() ==> (r is Ok ==> final(self)@ == from_twos(be_value(old(reader).remaining().take(2)), 16) && final(self).spec_value() == old(reader).remaining().take(2)
                && final(reader).remaining() == old(reader).remaining().skip(2)),
    {
        proof {
            if R::obeys_model() {
                assert(reader.remaining().skip(0) =~= reader.remaining());
                lemma_pow_facts();
            }
        }
        if value_size != 2 {
            return Err(ErrorKind::CorruptedData);
        }
        let ghost rem = reader.remaining();
        self.value = match read_i16(reader) {
            Ok(v) => v,
            Err(e) => return Err(ErrorKind::IOError(e)),
        };
        proof {
            if R::obeys_model() {
                let s = rem.take(2);
                lemma_be_bytes_of_value(s);
                crate::ilint::lemma_be_value_bound(s);
                lemma_twos_roundtrip(0, be_value(s), 16);
                assert(rem.len() - reader.remaining().len() == 2);
            }
        }
        Ok(())
    }
}

impl Default for ILInt16Tag {
    fn default() -> (r: Self)
        ensures
            r.spec_id() == IL_INT16_TAG_ID,
    {
        Self::new()
    }
}

impl DefaultWithId for ILInt16Tag {
    fn default_with_id(id: u64) -> (r: Self) {
        Self::with_id(id)
    }
}

//=============================================================================
// ILUInt16Tag
//-----------------------------------------------------------------------------
/// The standard unsigned 16-bit integer tag. Its value is big-endian.
///
/// Its default id is `IL_UINT16_TAG_ID`.
pub struct ILUInt16Tag {
    id: u64,
    value: u16,
}

impl View for ILUInt16Tag {
    type V = u16;

    closed spec fn view(&self) -> u16 {
        self.value
    }
}

impl ILUInt16Tag {
    /// Creates a tag with the default id and value.
    pub fn new() -> (r: Self)
        ensures
            r.spec_id() == IL_UINT16_TAG_ID,
            r@ == 0,
    {
        Self::with_id(IL_UINT16_TAG_ID)
    }

    /// Creates a tag with the default id and the given value.
    pub fn with_value(value: u16) -> (r: Self)
        ensures
            r.spec_id() == IL_UINT16_TAG_ID,
            r@ == value,
    {
        Self::with_id_value(IL_UINT16_TAG_ID, value)
    }

    /// Creates a tag with the given id and the default value.
    pub fn with_id(id: u64) -> (r: Self)
        ensures
            r.spec_id() == id,
            r@ == 0,
    {
        Self { id, value: 0 }
    }

    /// Creates a tag with the given id and value.
    pub fn with_id_value(id: u64, value: u16) -> (r: Self)
        ensures
            r.spec_id() == id,
            r@ == value,
    {
        Self { id, value }
    }

    /// Returns the value.
    pub fn value(&self) -> (r: u16)
        ensures
            r == self@,
    {
        self.value
    }

    /// Sets the value.
    pub fn set_value(&mut self, value: u16)
        ensures
            final(self).spec_id() == old(self).spec_id(),
            final(self)@ == value,
    {
        self.value = value
    }
}

impl ILUInt16Tag {
    /// True when the value bytes `value` deserialize into this tag.
    pub closed spec fn decodes(&self, value: Seq<u8>) -> bool {
        value == (be_bytes(self.value as nat, 2))
    }
}

impl ILTag for ILUInt16Tag {
    open spec fn obeys_tag_model() -> bool {
        true
    }

    open spec fn spec_serializes(&self) -> bool {
        true
    }

    closed spec fn spec_id(&self) -> u64 {
        self.id
    }

    closed spec fn spec_value(&self) -> Seq<u8> {
        be_bytes(self.value as nat, 2)
    }

    open spec fn spec_decodes(&self, value: Seq<u8>) -> bool {
        self.decodes(value)
    }

    fn id(&self) -> (r: u64) {
        self.id
    }

    fn value_size(&self) -> (r: u64) {
        proof {
            crate::ilint::lemma_be_bytes_len(self.value as nat, 2);
        }
        2
    }

    fn serialize_value<W: Writer>(&self, writer: &mut W) -> (r: Result<()>)
        ensures
            r matches Err(e) ==> e is IOError,
            crate::io::writes_exactly(*old(writer), *final(writer), self.spec_value(), r is Ok),
    {
        proof {
            lemma_pow_facts();
        }
        match write_u16(self.value, writer) {
            Ok(()) => {
                Ok(())
            },
            Err(e) => Err(ErrorKind::IOError(e)),
        }
    }

    fn deserialize_value<F: ILTagFactory, R: Reader>(
        &mut self,
        factory: &F,
        value_size: usize,
        reader: &mut R,
    ) -> (r: Result<()>)
        ensures
            R::obeys_model() ==> (value_size != 2 ==> r == Err::<(), ErrorKind>(ErrorKind::CorruptedData) && final(reader).remaining() == old(reader).remaining()),
            R::obeys_model() ==> (value_size == 2 ==> (r is Ok <==> old(reader).remaining().len() >= 2)),
            value_size == 2 && r is Err ==> r matches Err(ErrorKind::IOError(_)),
            R::obeys_model() ==> (r is Ok ==> final(self)@ == be_value(old(reader).remaining().take(2)) && final(self).spec_value() == old(reader).remaining().take(2)
                && final(reader).remaining() == old(reader).remaining().skip(2)),
    {
        proof {
            if R::obeys_model() {
                assert(reader.remaining().skip(0) =~= reader.remaining());
                lemma_pow_facts();
            }
        }
        if value_size != 2 {
            return Err(ErrorKind::CorruptedData);
        }
        let ghost rem = reader.remaining();
        self.value = match read_u16(reader) {
            Ok(v) => v,
            Err(e) => return Err(ErrorKind::IOError(e)),
        };
        proof {
            if R::obeys_model() {
                let s = rem.take(2);
                lemma_be_bytes_of_value(s);
                crate::ilint::lemma_be_value_bound(s);
                assert(rem.len() - reader.remaining().len() == 2);
            }
        }
        Ok(())
    }
}

impl Default for ILUInt16Tag {
    fn default() -> (r: Self)
        ensures
            r.spec_id() == IL_UINT16_TAG_ID,
    {
        Self::new()
    }
}

impl DefaultWithId for ILUInt16Tag {
    fn default_with_id(id: u64) -> (r: Self) {
        Self::with_id(id)
    }
}

//=============================================================================
// ILInt32Tag
//-----------------------------------------------------------------------------
/// The standard signed 32-bit integer tag. Its value is big-endian in two's complement.
///
/// Its default id is `IL_INT32_TAG_ID`.
pub struct ILInt32Tag {
    id: u64,
    value: i32,
}

impl View for ILInt32Tag {
    type V = i32;

    closed spec fn view(&self) -> i32 {
        self.value
    }
}

impl ILInt32Tag {
    /// Creates a tag with the default id and value.
    pub fn new() -> (r: Self)
        ensures
            r.spec_id() == IL_INT32_TAG_ID,
            r@ == 0,
    {
        Self::with_id(IL_INT32_TAG_ID)
    }

    /// Creates a tag with the default id and the given value.
    pub fn with_value(value: i32) -> (r: Self)
        ensures
            r.spec_id() == IL_INT32_TAG_ID,
            r@ == value,
    {
        Self::with_id_value(IL_INT32_TAG_ID, value)
    }

    /// Creates a tag with the given id and the default value.
    pub fn with_id(id: u64) -> (r: Self)
        ensures
            r.spec_id() == id,
            r@ == 0,
    {
        Self { id, value: 0 }
    }

    /// Creates a tag with the given id and value.
    pub fn with_id_value(id: u64, value: i32) -> (r: Self)
        ensures
            r.spec_id() == id,
            r@ == value,
    {
        Self { id, value }
    }

    /// Returns the value.
    pub fn value(&self) -> (r: i32)
        ensures
            r == self@,
    {
        self.value
    }

    /// Sets the value.
    pub fn set_value(&mut self, value: i32)
        ensures
            final(self).spec_id() == old(self).spec_id(),
            final(self)@ == value,
    {
        self.value = value
    }
}

impl ILInt32Tag {
    /// True when the value bytes `value` deserialize into this tag.
    pub closed spec fn decodes(&self, value: Seq<u8>) -> bool {
        value == (be_bytes(to_twos(self.value as int, 32), 4))
    }
}

impl ILTag for ILInt32Tag {
    open spec fn obeys_tag_model() -> bool {
        true
    }

    open spec fn spec_serializes(&self) -> bool {
        true
    }

    closed spec fn spec_id(&self) -> u64 {
        self.id
    }

    closed spec fn spec_value(&self) -> Seq<u8> {
        be_bytes(to_twos(self.value as int, 32), 4)
    }

    open spec fn spec_decodes(&self, value: Seq<u8>) -> bool {
        self.decodes(value)
    }

    fn id(&self) -> (r: u64) {
        self.id
    }

    fn value_size(&self) -> (r: u64) {
        proof {
            crate::ilint::lemma_be_bytes_len(to_twos(self.value as int, 32), 4);
        }
        4
    }

    fn serialize_value<W: Writer>(&self, writer: &mut W) -> (r: Result<()>)
        ensures
            r matches Err(e) ==> e is IOError,
            crate::io::writes_exactly(*old(writer), *final(writer), self.spec_value(), r is Ok),
    {
        proof {
            lemma_pow_facts();
        }
        match write_i32(self.value, writer) {
            Ok(()) => {
                Ok(())
            },
            Err(e) => Err(ErrorKind::IOError(e)),
        }
    }

    fn deserialize_value<F: ILTagFactory, R: Reader>(
        &mut self,
        factory: &F,
        value_size: usize,
        reader: &mut R,
    ) -> (r: Result<()>)
        ensures
            R::obeys_model() ==> (value_size != 4 ==> r == Err::<(), ErrorKind>(ErrorKind::CorruptedData) && final(reader).remaining() == old(reader).remaining()),
            R::obeys_model() ==> (value_size == 4 ==> (r is Ok <==> old(reader).remaining().len() >= 4)),
            value_size == 4 && r is Err ==> r matches Err(ErrorKind::IOError(_)),
            R::obeys_model() ==> (r is Ok ==> final(self)@ == from_twos(be_value(old(reader).remaining().take(4)), 32) && final(self).spec_value() == old(reader).remaining().take(4)
                && final(reader).remaining() == old(reader).remaining().skip(4)),
    {
        proof {
            if R::obeys_model() {
                assert(reader.remaining().skip(0) =~= reader.remaining());
                lemma_pow_facts();
            }
        }
        if value_size != 4 {
            return Err(ErrorKind::CorruptedData);
        }
        let ghost rem = reader.remaining();
        self.value = match read_i32(reader) {
            Ok(v) => v,
            Err(e) => return Err(ErrorKind::IOError(e)),
        };
        proof {
            if R::obeys_model() {
                let s = rem.take(4);
                lemma_be_bytes_of_value(s);
                crate::ilint::lemma_be_value_bound(s);
                lemma_twos_roundtrip(0, be_value(s), 32);
                assert(rem.len() - reader.remaining().len() == 4);
            }
        }
        Ok(())
    }
}

impl Default for ILInt32Tag {
    fn default() -> (r: Self)
        ensures
            r.spec_id() == IL_INT32_TAG_ID,
    {
        Self::new()
    }
}

impl DefaultWithId for ILInt32Tag {
    fn default_with_id(id: u64) -> (r: Self) {
        Self::with_id(id)
    }
}

//=============================================================================
// ILUInt32Tag
//-----------------------------------------------------------------------------
/// The standard unsigned 32-bit integer tag. Its value is big-endian.
///
/// Its default id is `IL_UINT32_TAG_ID`.
pub struct ILUInt32Tag {
    id: u64,
    value: u32,
}

impl View for ILUInt32Tag {
    type V = u32;

    closed spec fn view(&self) -> u32 {
        self.value
    }
}

impl ILUInt32Tag {
    /// Creates a tag with the default id and value.
    pub fn new() -> (r: Self)
        ensures
            r.spec_id() == IL_UINT32_TAG_ID,
            r@ == 0,
    {
        Self::with_id(IL_UINT32_TAG_ID)
    }

    /// Creates a tag with the default id and the given value.
    pub fn with_value(value: u32) -> (r: Self)
        ensures
            r.spec_id() == IL_UINT32_TAG_ID,
            r@ == value,
    {
        Self::with_id_value(IL_UINT32_TAG_ID, value)
    }

    /// Creates a tag with the given id and the default value.
    pub fn with_id(id: u64) -> (r: Self)
        ensures
            r.spec_id() == id,
            r@ == 0,
    {
        Self { id, value: 0 }
    }

    /// Creates a tag with the given id and value.
    pub fn with_id_value(id: u64, value: u32) -> (r: Self)
        ensures
            r.spec_id() == id,
            r@ == value,
    {
        Self { id, value }
    }

    /// Returns the value.
    pub fn value(&self) -> (r: u32)
        ensures
            r == self@,
    {
        self.value
    }

    /// Sets the value.
    pub fn set_value(&mut self, value: u32)
        ensures
            final(self).spec_id() == old(self).spec_id(),
            final(self)@ == value,
    {
        self.value = value
    }
}

impl ILUInt32Tag {
    /// True when the value bytes `value` deserialize into this tag.
    pub closed spec fn decodes(&self, value: Seq<u8>) -> bool {
        value == (be_bytes(self.value as nat, 4))
    }
}

impl ILTag for ILUInt32Tag {
    open spec fn obeys_tag_model() -> bool {
        true
    }

    open spec fn spec_serializes(&self) -> bool {
        true
    }

    closed spec fn spec_id(&self) -> u64 {
        self.id
    }

    closed spec fn spec_value(&self) -> Seq<u8> {
        be_bytes(self.value as nat, 4)
    }

    open spec fn spec_decodes(&self, value: Seq<u8>) -> bool {
        self.decodes(value)
    }

    fn id(&self) -> (r: u64) {
        self.id
    }

    fn value_size(&self) -> (r: u64) {
        proof {
            crate::ilint::lemma_be_bytes_len(self.value as nat, 4);
        }
        4
    }

    fn serialize_value<W: Writer>(&self, writer: &mut W) -> (r: Result<()>)
        ensures
            r matches Err(e) ==> e is IOError,
            crate::io::writes_exactly(*old(writer), *final(writer), self.spec_value(), r is Ok),
    {
        proof {
            lemma_pow_facts();
        }
        match write_u32(self.value, writer) {
            Ok(()) => {
                Ok(())
            },
            Err(e) => Err(ErrorKind::IOError(e)),
        }
    }

    fn deserialize_value<F: ILTagFactory, R: Reader>(
        &mut self,
        factory: &F,
        value_size: usize,
        reader: &mut R,
    ) -> (r: Result<()>)
        ensures
            R::obeys_model() ==> (value_size != 4 ==> r == Err::<(), ErrorKind>(ErrorKind::CorruptedData) && final(reader).remaining() == old(reader).remaining()),
            R::obeys_model() ==> (value_size == 4 ==> (r is Ok <==> old(reader).remaining().len() >= 4)),
            value_size == 4 && r is Err ==> r matches Err(ErrorKind::IOError(_)),
            R::obeys_model() ==> (r is Ok ==> final(self)@ == be_value(old(reader).remaining().take(4)) && final(self).spec_value() == old(reader).remaining().take(4)
                && final(reader).remaining() == old(reader).remaining().skip(4)),
    {
        proof {
            if R::obeys_model() {
                assert(reader.remaining().skip(0) =~= reader.remaining());
                lemma_pow_facts();
            }
        }
        if value_size != 4 {
            return Err(ErrorKind::CorruptedData);
        }
        let ghost rem = reader.remaining();
        self.value = match read_u32(reader) {
            Ok(v) => v,
            Err(e) => return Err(ErrorKind::IOError(e)),
        };
        proof {
            if R::obeys_model() {
                let s = rem.take(4);
                lemma_be_bytes_of_value(s);
                crate::ilint::lemma_be_value_bound(s);
                assert(rem.len() - reader.remaining().len() == 4);
            }
        }
        Ok(())
    }
}

impl Default for ILUInt32Tag {
    fn default() -> (r: Self)
        ensures
            r.spec_id() == IL_UINT32_TAG_ID,
    {
        Self::new()
    }
}

impl DefaultWithId for ILUInt32Tag {
    fn default_with_id(id: u64) -> (r: Self) {
        Self::with_id(id)
    }
}

//=============================================================================
// ILInt64Tag
//-----------------------------------------------------------------------------
/// The standard signed 64-bit integer tag. Its value is big-endian in two's complement.
///
/// Its default id is `IL_INT64_TAG_ID`.
pub struct ILInt64Tag {
    id: u64,
    value: i64,
}

impl View for ILInt64Tag {
    type V = i64;

    closed spec fn view(&self) -> i64 {
        self.value
    }
}

impl ILInt64Tag {
    /// Creates a tag with the default id and value.
    pub fn new() -> (r: Self)
        ensures
            r.spec_id() == IL_INT64_TAG_ID,
            r@ == 0,
    {
        Self::with_id(IL_INT64_TAG_ID)
    }

    /// Creates a tag with the default id and the given value.
    pub fn with_value(value: i64) -> (r: Self)
        ensures
            r.spec_id() == IL_INT64_TAG_ID,
            r@ == value,
    {
        Self::with_id_value(IL_INT64_TAG_ID, value)
    }

    /// Creates a tag with the given id and the default value.
    pub fn with_id(id: u64) -> (r: Self)
        ensures
            r.spec_id() == id,
            r@ == 0,
    {
        Self { id, value: 0 }
    }

    /// Creates a tag with the given id and value.
    pub fn with_id_value(id: u64, value: i64) -> (r: Self)
        ensures
            r.spec_id() == id,
            r@ == value,
    {
        Self { id, value }
    }

    /// Returns the value.
    pub fn value(&self) -> (r: i64)
        ensures
            r == self@,
    {
        self.value
    }

    /// Sets the value.
    pub fn set_value(&mut self, value: i64)
        ensures
            final(self).spec_id() == old(self).spec_id(),
            final(self)@ == value,
    {
        self.value = value
    }
}

impl ILInt64Tag {
    /// True when the value bytes `value` deserialize into this tag.
    pub closed spec fn decodes(&self, value: Seq<u8>) -> bool {
        value == (be_bytes(to_twos(self.value as int, 64), 8))
    }
}

impl ILTag for ILInt64Tag {
    open spec fn obeys_tag_model() -> bool {
        true
    }

    open spec fn spec_serializes(&self) -> bool {
        true
    }

    closed spec fn spec_id(&self) -> u64 {
        self.id
    }

    closed spec fn spec_value(&self) -> Seq<u8> {
        be_bytes(to_twos(self.value as int, 64), 8)
    }

    open spec fn spec_decodes(&self, value: Seq<u8>) -> bool {
        self.decodes(value)
    }

    fn id(&self) -> (r: u64) {
        self.id
    }

    fn value_size(&self) -> (r: u64) {
        proof {
            crate::ilint::lemma_be_bytes_len(to_twos(self.value as int, 64), 8);
        }
        8
    }

    fn serialize_value<W: Writer>(&self, writer: &mut W) -> (r: Result<()>)
        ensures
            r matches Err(e) ==> e is IOError,
            crate::io::writes_exactly(*old(writer), *final(writer), self.spec_value(), r is Ok),
    {
        proof {
            lemma_pow_facts();
        }
        match write_i64(self.value, writer) {
            Ok(()) => {
                Ok(())
            },
            Err(e) => Err(ErrorKind::IOError(e)),
        }
    }

    fn deserialize_value<F: ILTagFactory, R: Reader>(
        &mut self,
        factory: &F,
        value_size: usize,
        reader: &mut R,
    ) -> (r: Result<()>)
        ensures
            R::obeys_model() ==> (value_size != 8 ==> r == Err::<(), ErrorKind>(ErrorKind::CorruptedData) && final(reader).remaining() == old(reader).remaining()),
            R::obeys_model() ==> (value_size == 8 ==> (r is Ok <==> old(reader).remaining().len() >= 8)),
            value_size == 8 && r is Err ==> r matches Err(ErrorKind::IOError(_)),
            R::obeys_model() ==> (r is Ok ==> final(self)@ == from_twos(be_value(old(reader).remaining().take(8)), 64) && final(self).spec_value() == old(reader).remaining().take(8)
                && final(reader).remaining() == old(reader).remaining().skip(8)),
    {
        proof {
            if R::obeys_model() {
                assert(reader.remaining().skip(0) =~= reader.remaining());
                lemma_pow_facts();
            }
        }
        if value_size != 8 {
            return Err(ErrorKind::CorruptedData);
        }
        let ghost rem = reader.remaining();
        self.value = match read_i64(reader) {
            Ok(v) => v,
            Err(e) => return Err(ErrorKind::IOError(e)),
        };
        proof {
            if R::obeys_model() {
                let s = rem.take(8);
                lemma_be_bytes_of_value(s);
                crate::ilint::lemma_be_value_bound(s);
                lemma_twos_roundtrip(0, be_value(s), 64);
                assert(rem.len() - reader.remaining().len() == 8);
            }
        }
        Ok(())
    }
}

impl Default for ILInt64Tag {
    fn default() -> (r: Self)
        ensures
            r.spec_id() == IL_INT64_TAG_ID,
    {
        Self::new()
    }
}

impl DefaultWithId for ILInt64Tag {
    fn default_with_id(id: u64) -> (r: Self) {
        Self::with_id(id)
    }
}

//=============================================================================
// ILUInt64Tag
//-----------------------------------------------------------------------------
/// The standard unsigned 64-bit integer tag. Its value is big-endian.
///
/// Its default id is `IL_UINT64_TAG_ID`.
pub struct ILUInt64Tag {
    id: u64,
    value: u64,
}

impl View for ILUInt64Tag {
    type V = u64;

    closed spec fn view(&self) -> u64 {
        self.value
    }
}

impl ILUInt64Tag {
    /// Creates a tag with the default id and value.
    pub fn new() -> (r: Self)
        ensures
            r.spec_id() == IL_UINT64_TAG_ID,
            r@ == 0,
    {
        Self::with_id(IL_UINT64_TAG_ID)
    }

    /// Creates a tag with the default id and the given value.
    pub fn with_value(value: u64) -> (r: Self)
        ensures
            r.spec_id() == IL_UINT64_TAG_ID,
            r@ == value,
    {
        Self::with_id_value(IL_UINT64_TAG_ID, value)
    }

    /// Creates a tag with the given id and the default value.
    pub fn with_id(id: u64) -> (r: Self)
        ensures
            r.spec_id() == id,
            r@ == 0,
    {
        Self { id, value: 0 }
    }

    /// Creates a tag with the given id and value.
    pub fn with_id_value(id: u64, value: u64) -> (r: Self)
        ensures
            r.spec_id() == id,
            r@ == value,
    {
        Self { id, value }
    }

    /// Returns the value.
    pub fn value(&self) -> (r: u64)
        ensures
            r == self@,
    {
        self.value
    }

    /// Sets the value.
    pub fn set_value(&mut self, value: u64)
        ensures
            final(self).spec_id() == old(self).spec_id(),
            final(self)@ == value,
    {
        self.value = value
    }
}

impl ILUInt64Tag {
    /// True when the value bytes `value` deserialize into this tag.
    pub closed spec fn decodes(&self, value: Seq<u8>) -> bool {
        value == (be_bytes(self.value as nat, 8))
    }
}

impl ILTag for ILUInt64Tag {
    open spec fn obeys_tag_model() -> bool {
        true
    }

    open spec fn spec_serializes(&self) -> bool {
        true
    }

    closed spec fn spec_id(&self) -> u64 {
        self.id
    }

    closed spec fn spec_value(&self) -> Seq<u8> {
        be_bytes(self.value as nat, 8)
    }

    open spec fn spec_decodes(&self, value: Seq<u8>) -> bool {
        self.decodes(value)
    }

    fn id(&self) -> (r: u64) {
        self.id
    }

    fn value_size(&self) -> (r: u64) {
        proof {
            crate::ilint::lemma_be_bytes_len(self.value as nat, 8);
        }
        8
    }

    fn serialize_value<W: Writer>(&self, writer: &mut W) -> (r: Result<()>)
        ensures
            r matches Err(e) ==> e is IOError,
            crate::io::writes_exactly(*old(writer), *final(writer), self.spec_value(), r is Ok),
    {
        proof {
            lemma_pow_facts();
        }
        match write_u64(self.value, writer) {
            Ok(()) => {
                Ok(())
            },
            Err(e) => Err(ErrorKind::IOError(e)),
        }
    }

    fn deserialize_value<F: ILTagFactory, R: Reader>(
        &mut self,
        factory: &F,
        value_size: usize,
        reader: &mut R,
    ) -> (r: Result<()>)
        ensures
            R::obeys_model() ==> (value_size != 8 ==> r == Err::<(), ErrorKind>(ErrorKind::CorruptedData) && final(reader).remaining() == old(reader).remaining()),
            R::obeys_model() ==> (value_size == 8 ==> (r is Ok <==> old(reader).remaining().len() >= 8)),
            value_size == 8 && r is Err ==> r matches Err(ErrorKind::IOError(_)),
            R::obeys_model() ==> (r is Ok ==> final(self)@ == be_value(old(reader).remaining().take(8)) && final(self).spec_value() == old(reader).remaining().take(8)
                && final(reader).remaining() == old(reader).remaining().skip(8)),
    {
        proof {
            if R::obeys_model() {
                assert(reader.remaining().skip(0) =~= reader.remaining());
                lemma_pow_facts();
            }
        }
        if value_size != 8 {
            return Err(ErrorKind::CorruptedData);
        }
        let ghost rem = reader.remaining();
        self.value = match read_u64(reader) {
            Ok(v) => v,
            Err(e) => return Err(ErrorKind::IOError(e)),
        };
        proof {
            if R::obeys_model() {
                let s = rem.take(8);
                lemma_be_bytes_of_value(s);
                crate::ilint::lemma_be_value_bound(s);
                assert(rem.len() - reader.remaining().len() == 8);
            }
        }
        Ok(())
    }
}

impl Default for ILUInt64Tag {
    fn default() -> (r: Self)
        ensures
            r.spec_id() == IL_UINT64_TAG_ID,
    {
        Self::new()
    }
}

impl DefaultWithId for ILUInt64Tag {
    fn default_with_id(id: u64) -> (r: Self) {
        Self::with_id(id)
    }
}

//=============================================================================
// ILBin32Tag
//-----------------------------------------------------------------------------
/// The standard binary32 (IEEE 754-2008) floating point tag. The value is held
/// as its bit pattern, serialized big-endian.
///
/// Its default id is `IL_BIN32_TAG_ID`.
pub struct ILBin32Tag {
    id: u64,
    bits: u32,
}

impl View for ILBin32Tag {
    type V = u32;

    closed spec fn view(&self) -> u32 {
        self.bits
    }
}

impl ILBin32Tag {
    /// Creates a tag with the default id and the value 0.0.
    pub fn new() -> (r: Self)
        ensures
            r.spec_id() == IL_BIN32_TAG_ID,
            r@ == 0,
    {
        Self::with_id(IL_BIN32_TAG_ID)
    }

    /// Creates a tag with the given id and the value 0.0.
    pub fn with_id(id: u64) -> (r: Self)
        ensures
            r.spec_id() == id,
            r@ == 0,
    {
        Self { id, bits: 0 }
    }

    /// Creates a tag with the default id and the value whose bit pattern is
    /// `bits`.
    pub fn with_bits(bits: u32) -> (r: Self)
        ensures
            r.spec_id() == IL_BIN32_TAG_ID,
            r@ == bits,
    {
        Self::with_id_bits(IL_BIN32_TAG_ID, bits)
    }

    /// Creates a tag with the given id and the value whose bit pattern is
    /// `bits`.
    pub fn with_id_bits(id: u64, bits: u32) -> (r: Self)
        ensures
            r.spec_id() == id,
            r@ == bits,
    {
        Self { id, bits }
    }

    /// Returns the bit pattern of the value.
    pub fn bits(&self) -> (r: u32)
        ensures
            r == self@,
    {
        self.bits
    }

    /// Sets the value from its bit pattern.
    pub fn set_bits(&mut self, bits: u32)
        ensures
            final(self).spec_id() == old(self).spec_id(),
            final(self)@ == bits,
    {
        self.bits = bits
    }
}

impl ILBin32Tag {
    /// True when the value bytes `value` deserialize into this tag.
    pub closed spec fn decodes(&self, value: Seq<u8>) -> bool {
        value == (be_bytes(self.bits as nat, 4))
    }
}

impl ILTag for ILBin32Tag {
    open spec fn obeys_tag_model() -> bool {
        true
    }

    open spec fn spec_serializes(&self) -> bool {
        true
    }

    closed spec fn spec_id(&self) -> u64 {
        self.id
    }

    closed spec fn spec_value(&self) -> Seq<u8> {
        be_bytes(self.bits as nat, 4)
    }

    open spec fn spec_decodes(&self, value: Seq<u8>) -> bool {
        self.decodes(value)
    }

    fn id(&self) -> (r: u64) {
        self.id
    }

    fn value_size(&self) -> (r: u64) {
        proof {
            crate::ilint::lemma_be_bytes_len(self.bits as nat, 4);
        }
        4
    }

    fn serialize_value<W: Writer>(&self, writer: &mut W) -> (r: Result<()>)
        ensures
            r matches Err(e) ==> e is IOError,
            crate::io::writes_exactly(*old(writer), *final(writer), self.spec_value(), r is Ok),
    {
        match write_u32(self.bits, writer) {
            Ok(()) => Ok(()),
            Err(e) => Err(ErrorKind::IOError(e)),
        }
    }

    fn deserialize_value<F: ILTagFactory, R: Reader>(
        &mut self,
        factory: &F,
        value_size: usize,
        reader: &mut R,
    ) -> (r: Result<()>)
        ensures
            R::obeys_model() ==> (value_size != 4 ==> r == Err::<(), ErrorKind>(ErrorKind::CorruptedData) && final(reader).remaining() == old(reader).remaining()),
            R::obeys_model() ==> (value_size == 4 ==> (r is Ok <==> old(reader).remaining().len() >= 4)),
            value_size == 4 && r is Err ==> r matches Err(ErrorKind::IOError(_)),
            R::obeys_model() ==> (r is Ok ==> final(self)@ == be_value(old(reader).remaining().take(4)) && final(self).spec_value() == old(reader).remaining().take(4)
                && final(reader).remaining() == old(reader).remaining().skip(4)),
    {
        proof {
            if R::obeys_model() {
                assert(reader.remaining().skip(0) =~= reader.remaining());
                lemma_pow_facts();
            }
        }
        if value_size != 4 {
            return Err(ErrorKind::CorruptedData);
        }
        let ghost rem = reader.remaining();
        self.bits = match read_u32(reader) {
            Ok(v) => v,
            Err(e) => return Err(ErrorKind::IOError(e)),
        };
        proof {
            if R::obeys_model() {
                let s = rem.take(4);
                lemma_be_bytes_of_value(s);
                assert(rem.len() - reader.remaining().len() == 4);
            }
        }
        Ok(())
    }
}

impl Default for ILBin32Tag {
    fn default() -> (r: Self)
        ensures
            r.spec_id() == IL_BIN32_TAG_ID,
    {
        Self::new()
    }
}

impl DefaultWithId for ILBin32Tag {
    fn default_with_id(id: u64) -> (r: Self) {
        Self::with_id(id)
    }
}

//=============================================================================
// ILBin64Tag
//-----------------------------------------------------------------------------
/// The standard binary64 (IEEE 754-2008) floating point tag. The value is held
/// as its bit pattern, serialized big-endian.
///
/// Its default id is `IL_BIN64_TAG_ID`.
pub struct ILBin64Tag {
    id: u64,
    bits: u64,
}

impl View for ILBin64Tag {
    type V = u64;

    closed spec fn view(&self) -> u64 {
        self.bits
    }
}

impl ILBin64Tag {
    /// Creates a tag with the default id and the value 0.0.
    pub fn new() -> (r: Self)
        ensures
            r.spec_id() == IL_BIN64_TAG_ID,
            r@ == 0,
    {
        Self::with_id(IL_BIN64_TAG_ID)
    }

    /// Creates a tag with the given id and the value 0.0.
    pub fn with_id(id: u64) -> (r: Self)
        ensures
            r.spec_id() == id,
            r@ == 0,
    {
        Self { id, bits: 0 }
    }

    /// Creates a tag with the default id and the value whose bit pattern is
    /// `bits`.
    pub fn with_bits(bits: u64) -> (r: Self)
        ensures
            r.spec_id() == IL_BIN64_TAG_ID,
            r@ == bits,
    {
        Self::with_id_bits(IL_BIN64_TAG_ID, bits)
    }

    /// Creates a tag with the given id and the value whose bit pattern is
    /// `bits`.
    pub fn with_id_bits(id: u64, bits: u64) -> (r: Self)
        ensures
            r.spec_id() == id,
            r@ == bits,
    {
        Self { id, bits }
    }

    /// Returns the bit pattern of the value.
    pub fn bits(&self) -> (r: u64)
        ensures
            r == self@,
    {
        self.bits
    }

    /// Sets the value from its bit pattern.
    pub fn set_bits(&mut self, bits: u64)
        ensures
            final(self).spec_id() == old(self).spec_id(),
            final(self)@ == bits,
    {
        self.bits = bits
    }
}

impl ILBin64Tag {
    /// True when the value bytes `value` deserialize into this tag.
    pub closed spec fn decodes(&self, value: Seq<u8>) -> bool {
        value == (be_bytes(self.bits as nat, 8))
    }
}

impl ILTag for ILBin64Tag {
    open spec fn obeys_tag_model() -> bool {
        true
    }

    open spec fn spec_serializes(&self) -> bool {
        true
    }

    closed spec fn spec_id(&self) -> u64 {
        self.id
    }

    closed spec fn spec_value(&self) -> Seq<u8> {
        be_bytes(self.bits as nat, 8)
    }

    open spec fn spec_decodes(&self, value: Seq<u8>) -> bool {
        self.decodes(value)
    }

    fn id(&self) -> (r: u64) {
        self.id
    }

    fn value_size(&self) -> (r: u64) {
        proof {
            crate::ilint::lemma_be_bytes_len(self.bits as nat, 8);
        }
        8
    }

    fn serialize_value<W: Writer>(&self, writer: &mut W) -> (r: Result<()>)
        ensures
            r matches Err(e) ==> e is IOError,
            crate::io::writes_exactly(*old(writer), *final(writer), self.spec_value(), r is Ok),
    {
        match write_u64(self.bits, writer) {
            Ok(()) => Ok(()),
            Err(e) => Err(ErrorKind::IOError(e)),
        }
    }

    fn deserialize_value<F: ILTagFactory, R: Reader>(
        &mut self,
        factory: &F,
        value_size: usize,
        reader: &mut R,
    ) -> (r: Result<()>)
        ensures
            R::obeys_model() ==> (value_size != 8 ==> r == Err::<(), ErrorKind>(ErrorKind::CorruptedData) && final(reader).remaining() == old(reader).remaining()),
            R::obeys_model() ==> (value_size == 8 ==> (r is Ok <==> old(reader).remaining().len() >= 8)),
            value_size == 8 && r is Err ==> r matches Err(ErrorKind::IOError(_)),
            R::obeys_model() ==> (r is Ok ==> final(self)@ == be_value(old(reader).remaining().take(8)) && final(self).spec_value() == old(reader).remaining().take(8)
                && final(reader).remaining() == old(reader).remaining().skip(8)),
    {
        proof {
            if R::obeys_model() {
                assert(reader.remaining().skip(0) =~= reader.remaining());
                lemma_pow_facts();
            }
        }
        if value_size != 8 {
            return Err(ErrorKind::CorruptedData);
        }
        let ghost rem = reader.remaining();
        self.bits = match read_u64(reader) {
            Ok(v) => v,
            Err(e) => return Err(ErrorKind::IOError(e)),
        };
        proof {
            if R::obeys_model() {
                let s = rem.take(8);
                lemma_be_bytes_of_value(s);
                assert(rem.len() - reader.remaining().len() == 8);
            }
        }
        Ok(())
    }
}

impl Default for ILBin64Tag {
    fn default() -> (r: Self)
        ensures
            r.spec_id() == IL_BIN64_TAG_ID,
    {
        Self::new()
    }
}

impl DefaultWithId for ILBin64Tag {
    fn default_with_id(id: u64) -> (r: Self) {
        Self::with_id(id)
    }
}

//=============================================================================
// ILBin128Tag
//-----------------------------------------------------------------------------
/// The standard binary128 floating point tag. Its 16 bytes are held as they
/// are serialized.
///
/// Its default id is `IL_BIN128_TAG_ID`.
pub struct ILBin128Tag {
    id: u64,
    value: [u8; 16],
}

impl View for ILBin128Tag {
    type V = Seq<u8>;

    closed spec fn view(&self) -> Seq<u8> {
        self.value@
    }
}

impl ILBin128Tag {
    /// Creates a tag with the default id and all bytes zero.
    pub fn new() -> (r: Self)
        ensures
            r.spec_id() == IL_BIN128_TAG_ID,
            r@ == Seq::new(16, |i: int| 0u8),
    {
        Self::with_id(IL_BIN128_TAG_ID)
    }

    /// Creates a tag with the default id and the given bytes.
    pub fn with_value(value: &[u8; 16]) -> (r: Self)
        ensures
            r.spec_id() == IL_BIN128_TAG_ID,
            r@ == value@,
    {
        Self::with_id_value(IL_BIN128_TAG_ID, value)
    }

    /// Creates a tag with the given id and all bytes zero.
    pub fn with_id(id: u64) -> (r: Self)
        ensures
            r.spec_id() == id,
            r@ == Seq::new(16, |i: int| 0u8),
    {
        let r = Self { id, value: [0u8; 16] };
        proof {
            assert(r.value@ =~= Seq::new(16, |i: int| 0u8));
        }
        r
    }

    /// Creates a tag with the given id and bytes.
    pub fn with_id_value(id: u64, value: &[u8; 16]) -> (r: Self)
        ensures
            r.spec_id() == id,
            r@ == value@,
    {
        Self { id, value: *value }
    }

    /// Returns the bytes of the value.
    pub fn value(&self) -> (r: &[u8; 16])
        ensures
            r@ == self@,
    {
        &self.value
    }

    /// Sets the bytes of the value.
    pub fn set_value(&mut self, value: &[u8; 16])
        ensures
            final(self).spec_id() == old(self).spec_id(),
            final(self)@ == value@,
    {
        self.value = *value;
    }
}

impl ILBin128Tag {
    /// True when the value bytes `value` deserialize into this tag.
    pub closed spec fn decodes(&self, value: Seq<u8>) -> bool {
        value == self.value@
    }
}

impl ILTag for ILBin128Tag {
    open spec fn obeys_tag_model() -> bool {
        true
    }

    open spec fn spec_serializes(&self) -> bool {
        true
    }

    closed spec fn spec_id(&self) -> u64 {
        self.id
    }

    closed spec fn spec_value(&self) -> Seq<u8> {
        self.value@
    }

    open spec fn spec_decodes(&self, value: Seq<u8>) -> bool {
        self.decodes(value)
    }

    fn id(&self) -> (r: u64) {
        self.id
    }

    fn value_size(&self) -> (r: u64) {
        16
    }

    fn serialize_value<W: Writer>(&self, writer: &mut W) -> (r: Result<()>)
        ensures
            r matches Err(e) ==> e is IOError,
            crate::io::writes_exactly(*old(writer), *final(writer), self.spec_value(), r is Ok),
    {
        match writer.write_all(self.value.as_slice()) {
            Ok(()) => Ok(()),
            Err(e) => Err(ErrorKind::IOError(e)),
        }
    }

    fn deserialize_value<F: ILTagFactory, R: Reader>(
        &mut self,
        factory: &F,
        value_size: usize,
        reader: &mut R,
    ) -> (r: Result<()>)
        ensures
            R::obeys_model() ==> (value_size != 16 ==> r == Err::<(), ErrorKind>(ErrorKind::CorruptedData) && final(reader).remaining() == old(reader).remaining()),
            R::obeys_model() ==> (value_size == 16 ==> (r is Ok <==> old(reader).remaining().len() >= 16)),
            value_size == 16 && r is Err ==> r matches Err(ErrorKind::IOError(_)),
            R::obeys_model() ==> (r is Ok ==> final(self)@ == old(reader).remaining().take(16)
                && final(reader).remaining() == old(reader).remaining().skip(16)),
    {
        proof {
            if R::obeys_model() {
                assert(reader.remaining().skip(0) =~= reader.remaining());
            }
        }
        if value_size != 16 {
            return Err(ErrorKind::CorruptedData);
        }
        let ghost rem = reader.remaining();
        let v = deserialize_bytes(16, reader)?;
        let mut i: usize = 0;
        while i < 16
            invariant
                i <= 16,
                v@.len() == 16,
                self.id == old(self).id,
                forall|j: int| 0 <= j < i ==> self.value@[j] == v@[j],
            decreases 16 - i,
        {
            self.value[i] = v[i];
            i = i + 1;
        }
        proof {
            if R::obeys_model() {
                assert(self.value@ =~= v@);
                assert(rem.len() - reader.remaining().len() == 16);
            }
        }
        Ok(())
    }
}

impl Default for ILBin128Tag {
    fn default() -> (r: Self)
        ensures
            r.spec_id() == IL_BIN128_TAG_ID,
    {
        Self::new()
    }
}

impl DefaultWithId for ILBin128Tag {
    fn default_with_id(id: u64) -> (r: Self) {
        Self::with_id(id)
    }
}

//=============================================================================
// ILILInt64Tag
//-----------------------------------------------------------------------------
/// The standard ILInt tag. Its value takes from 1 to 9 bytes.
///
/// Its default id is `IL_ILINT_TAG_ID`.
pub struct ILILInt64Tag {
    id: u64,
    value: u64,
}

impl View for ILILInt64Tag {
    type V = u64;

    closed spec fn view(&self) -> u64 {
        self.value
    }
}

impl ILILInt64Tag {
    /// Creates a tag with the default id and value.
    pub fn new() -> (r: Self)
        ensures
            r.spec_id() == IL_ILINT_TAG_ID,
            r@ == 0,
    {
        Self::with_id(IL_ILINT_TAG_ID)
    }

    /// Creates a tag with the default id and the given value.
    pub fn with_value(value: u64) -> (r: Self)
        ensures
            r.spec_id() == IL_ILINT_TAG_ID,
            r@ == value,
    {
        Self::with_id_value(IL_ILINT_TAG_ID, value)
    }

    /// Creates a tag with the given id and the default value.
    pub fn with_id(id: u64) -> (r: Self)
        ensures
            r.spec_id() == id,
            r@ == 0,
    {
        Self { id, value: 0 }
    }

    /// Creates a tag with the given id and value.
    pub fn with_id_value(id: u64, value: u64) -> (r: Self)
        ensures
            r.spec_id() == id,
            r@ == value,
    {
        Self { id, value }
    }

    /// Returns the value.
    pub fn value(&self) -> (r: u64)
        ensures
            r == self@,
    {
        self.value
    }

    /// Sets the value.
    pub fn set_value(&mut self, value: u64)
        ensures
            final(self).spec_id() == old(self).spec_id(),
            final(self)@ == value,
    {
        self.value = value
    }
}

impl ILILInt64Tag {
    /// True when the value bytes `value` deserialize into this tag.
    pub closed spec fn decodes(&self, value: Seq<u8>) -> bool {
        spec_decode_from_bytes(value) == Ok::<(u64, nat), crate::ilint::ErrorKind>((self.value, value.len()))
    }
}

impl ILTag for ILILInt64Tag {
    open spec fn obeys_tag_model() -> bool {
        true
    }

    open spec fn spec_serializes(&self) -> bool {
        true
    }

    closed spec fn spec_id(&self) -> u64 {
        self.id
    }

    closed spec fn spec_value(&self) -> Seq<u8> {
        spec_encode(self.value)
    }

    open spec fn spec_decodes(&self, value: Seq<u8>) -> bool {
        self.decodes(value)
    }

    fn id(&self) -> (r: u64) {
        self.id
    }

    fn value_size(&self) -> (r: u64) {
        proof {
            crate::ilint::lemma_encode_len(self.value);
        }
        crate::ilint::encoded_size(self.value) as u64
    }

    fn serialize_value<W: Writer>(&self, writer: &mut W) -> (r: Result<()>)
        ensures
            r matches Err(e) ==> e is IOError,
            crate::io::writes_exactly(*old(writer), *final(writer), self.spec_value(), r is Ok),
    {
        serialize_ilint(self.value, writer)
    }

    /// The value takes from 1 to 9 bytes depending on what it holds, so
    /// `value_size` is not checked.
    fn deserialize_value<F: ILTagFactory, R: Reader>(
        &mut self,
        factory: &F,
        value_size: usize,
        reader: &mut R,
    ) -> (r: Result<()>)
        ensures
            R::obeys_model() ==> (spec_truncated(old(reader).remaining()) ==> r matches Err(ErrorKind::IOError(_))),
            R::obeys_model() ==> (!spec_truncated(old(reader).remaining()) ==> match spec_decode_from_bytes(old(reader).remaining()) {
                Ok((v, n)) => r is Ok && final(self)@ == v && final(reader).remaining() == old(reader).remaining().skip(n as int),
                Err(_) => r == Err::<(), ErrorKind>(ErrorKind::IOError(crate::io::ErrorKind::CorruptedData)),
            }),
    {
        let ghost rem = reader.remaining();
        self.value = deserialize_ilint(reader)?;
        proof {
            if R::obeys_model() {
                if let Ok((v, n)) = spec_decode_from_bytes(rem) {
                    let t = rem.take(n as int);
                    assert(spec_decode_from_bytes(t) == spec_decode_from_bytes(rem)) by {
                        assert(t[0] == rem[0]);
                        if crate::ilint::spec_decoded_size(rem[0]) > 1 {
                            assert(t.subrange(1, n as int) =~= rem.subrange(1, n as int));
                        }
                    }
                    assert(rem.len() - reader.remaining().len() == n);
                }
            }
        }
        Ok(())
    }
}

impl Default for ILILInt64Tag {
    fn default() -> (r: Self)
        ensures
            r.spec_id() == IL_ILINT_TAG_ID,
    {
        Self::new()
    }
}

impl DefaultWithId for ILILInt64Tag {
    fn default_with_id(id: u64) -> (r: Self) {
        Self::with_id(id)
    }
}

//=============================================================================
// ILSignedILInt64Tag
//-----------------------------------------------------------------------------
/// The standard signed ILInt tag. Its value takes from 1 to 9 bytes.
///
/// Its default id is `IL_SIGNED_ILINT_TAG_ID`.
pub struct ILSignedILInt64Tag {
    id: u64,
    value: i64,
}

impl View for ILSignedILInt64Tag {
    type V = i64;

    closed spec fn view(&self) -> i64 {
        self.value
    }
}

impl ILSignedILInt64Tag {
    /// Creates a tag with the default id and value.
    pub fn new() -> (r: Self)
        ensures
            r.spec_id() == IL_SIGNED_ILINT_TAG_ID,
            r@ == 0,
    {
        Self::with_id(IL_SIGNED_ILINT_TAG_ID)
    }

    /// Creates a tag with the default id and the given value.
    pub fn with_value(value: i64) -> (r: Self)
        ensures
            r.spec_id() == IL_SIGNED_ILINT_TAG_ID,
            r@ == value,
    {
        Self::with_id_value(IL_SIGNED_ILINT_TAG_ID, value)
    }

    /// Creates a tag with the given id and the default value.
    pub fn with_id(id: u64) -> (r: Self)
        ensures
            r.spec_id() == id,
            r@ == 0,
    {
        Self { id, value: 0 }
    }

    /// Creates a tag with the given id and value.
    pub fn with_id_value(id: u64, value: i64) -> (r: Self)
        ensures
            r.spec_id() == id,
            r@ == value,
    {
        Self { id, value }
    }

    /// Returns the value.
    pub fn value(&self) -> (r: i64)
        ensures
            r == self@,
    {
        self.value
    }

    /// Sets the value.
    pub fn set_value(&mut self, value: i64)
        ensures
            final(self).spec_id() == old(self).spec_id(),
            final(self)@ == value,
    {
        self.value = value
    }
}

impl ILSignedILInt64Tag {
    /// True when the value bytes `value` deserialize into this tag.
    pub closed spec fn decodes(&self, value: Seq<u8>) -> bool {
        spec_decode_from_bytes(value) == Ok::<(u64, nat), crate::ilint::ErrorKind>((spec_zigzag(self.value), value.len()))
    }
}

impl ILTag for ILSignedILInt64Tag {
    open spec fn obeys_tag_model() -> bool {
        true
    }

    open spec fn spec_serializes(&self) -> bool {
        true
    }

    closed spec fn spec_id(&self) -> u64 {
        self.id
    }

    closed spec fn spec_value(&self) -> Seq<u8> {
        spec_signed_encode(self.value)
    }

    open spec fn spec_decodes(&self, value: Seq<u8>) -> bool {
        self.decodes(value)
    }

    fn id(&self) -> (r: u64) {
        self.id
    }

    fn value_size(&self) -> (r: u64) {
        proof {
            crate::ilint::lemma_encode_len(spec_zigzag(self.value));
        }
        crate::ilint::signed_encoded_size(self.value) as u64
    }

    fn serialize_value<W: Writer>(&self, writer: &mut W) -> (r: Result<()>)
        ensures
            r matches Err(e) ==> e is IOError,
            crate::io::writes_exactly(*old(writer), *final(writer), self.spec_value(), r is Ok),
    {
        writer.serialize_signed_ilint(self.value)
    }

    /// The value takes from 1 to 9 bytes depending on what it holds, so
    /// `value_size` is not checked.
    fn deserialize_value<F: ILTagFactory, R: Reader>(
        &mut self,
        factory: &F,
        value_size: usize,
        reader: &mut R,
    ) -> (r: Result<()>)
        ensures
            R::obeys_model() ==> (spec_truncated(old(reader).remaining()) ==> r matches Err(ErrorKind::IOError(_))),
            R::obeys_model() ==> (!spec_truncated(old(reader).remaining()) ==> match spec_decode_from_bytes(old(reader).remaining()) {
                Ok((v, n)) => r is Ok && final(self)@ == crate::ilint::spec_unzigzag(v) && final(reader).remaining() == old(reader).remaining().skip(n as int),
                Err(_) => r == Err::<(), ErrorKind>(ErrorKind::IOError(crate::io::ErrorKind::CorruptedData)),
            }),
    {
        let ghost rem = reader.remaining();
        self.value = reader.deserialize_signed_ilint()?;
        proof {
            if R::obeys_model() {
                if let Ok((v, n)) = spec_decode_from_bytes(rem) {
                    let t = rem.take(n as int);
                    assert(spec_decode_from_bytes(t) == spec_decode_from_bytes(rem)) by {
                        assert(t[0] == rem[0]);
                        if crate::ilint::spec_decoded_size(rem[0]) > 1 {
                            assert(t.subrange(1, n as int) =~= rem.subrange(1, n as int));
                        }
                    }
                    crate::ilint::lemma_zigzag_roundtrip(self.value, v);
                    assert(rem.len() - reader.remaining().len() == n);
                }
            }
        }
        Ok(())
    }
}

impl Default for ILSignedILInt64Tag {
    fn default() -> (r: Self)
        ensures
            r.spec_id() == IL_SIGNED_ILINT_TAG_ID,
    {
        Self::new()
    }
}

impl DefaultWithId for ILSignedILInt64Tag {
    fn default_with_id(id: u64) -> (r: Self) {
        Self::with_id(id)
    }
}

impl ILInt8Tag {
    /// A tag deserializes from its own serialized value, and any tag that
    /// deserializes from it holds the same value.
    pub proof fn lemma_value_roundtrip(self, other: Self)
        ensures
            self.decodes(self.spec_value()),
            other.decodes(self.spec_value()) ==> other@ == self@,
    {
        lemma_pow_facts();
        crate::io::data::lemma_signed_roundtrip(self.value as int, 1);
        crate::io::data::lemma_signed_roundtrip(other.value as int, 1);
    }
}

impl ILUInt8Tag {
    /// A tag deserializes from its own serialized value, and any tag that
    /// deserializes from it holds the same value.
    pub proof fn lemma_value_roundtrip(self, other: Self)
        ensures
            self.decodes(self.spec_value()),
            other.decodes(self.spec_value()) ==> other@ == self@,
    {
        lemma_pow_facts();
        crate::io::data::lemma_unsigned_roundtrip(self.value as nat, 1);
        crate::io::data::lemma_unsigned_roundtrip(other.value as nat, 1);
    }
}

impl ILInt16Tag {
    /// A tag deserializes from its own serialized value, and any tag that
    /// deserializes from it holds the same value.
    pub proof fn lemma_value_roundtrip(self, other: Self)
        ensures
            self.decodes(self.spec_value()),
            other.decodes(self.spec_value()) ==> other@ == self@,
    {
        lemma_pow_facts();
        crate::io::data::lemma_signed_roundtrip(self.value as int, 2);
        crate::io::data::lemma_signed_roundtrip(other.value as int, 2);
    }
}

impl ILUInt16Tag {
    /// A tag deserializes from its own serialized value, and any tag that
    /// deserializes from it holds the same value.
    pub proof fn lemma_value_roundtrip(self, other: Self)
        ensures
            self.decodes(self.spec_value()),
            other.decodes(self.spec_value()) ==> other@ == self@,
    {
        lemma_pow_facts();
        crate::io::data::lemma_unsigned_roundtrip(self.value as nat, 2);
        crate::io::data::lemma_unsigned_roundtrip(other.value as nat, 2);
    }
}

impl ILInt32Tag {
    /// A tag deserializes from its own serialized value, and any tag that
    /// deserializes from it holds the same value.
    pub proof fn lemma_value_roundtrip(self, other: Self)
        ensures
            self.decodes(self.spec_value()),
            other.decodes(self.spec_value()) ==> other@ == self@,
    {
        lemma_pow_facts();
        crate::io::data::lemma_signed_roundtrip(self.value as int, 4);
        crate::io::data::lemma_signed_roundtrip(other.value as int, 4);
    }
}

impl ILUInt32Tag {
    /// A tag deserializes from its own serialized value, and any tag that
    /// deserializes from it holds the same value.
    pub proof fn lemma_value_roundtrip(self, other: Self)
        ensures
            self.decodes(self.spec_value()),
            other.decodes(self.spec_value()) ==> other@ == self@,
    {
        lemma_pow_facts();
        crate::io::data::lemma_unsigned_roundtrip(self.value as nat, 4);
        crate::io::data::lemma_unsigned_roundtrip(other.value as nat, 4);
    }
}

impl ILInt64Tag {
    /// A tag deserializes from its own serialized value, and any tag that
    /// deserializes from it holds the same value.
    pub proof fn lemma_value_roundtrip(self, other: Self)
        ensures
            self.decodes(self.spec_value()),
            other.decodes(self.spec_value()) ==> other@ == self@,
    {
        lemma_pow_facts();
        crate::io::data::lemma_signed_roundtrip(self.value as int, 8);
        crate::io::data::lemma_signed_roundtrip(other.value as int, 8);
    }
}

impl ILUInt64Tag {
    /// A tag deserializes from its own serialized value, and any tag that
    /// deserializes from it holds the same value.
    pub proof fn lemma_value_roundtrip(self, other: Self)
        ensures
            self.decodes(self.spec_value()),
            other.decodes(self.spec_value()) ==> other@ == self@,
    {
        lemma_pow_facts();
        crate::io::data::lemma_unsigned_roundtrip(self.value as nat, 8);
        crate::io::data::lemma_unsigned_roundtrip(other.value as nat, 8);
    }
}

impl ILBin32Tag {
    /// A tag deserializes from its own serialized value, and any tag that
    /// deserializes from it holds the same bits.
    pub proof fn lemma_value_roundtrip(self, other: Self)
        ensures
            self.decodes(self.spec_value()),
            other.decodes(self.spec_value()) ==> other@ == self@,
    {
        lemma_pow_facts();
        crate::io::data::lemma_unsigned_roundtrip(self.bits as nat, 4);
        crate::io::data::lemma_unsigned_roundtrip(other.bits as nat, 4);
    }
}

impl ILBin64Tag {
    /// A tag deserializes from its own serialized value, and any tag that
    /// deserializes from it holds the same bits.
    pub proof fn lemma_value_roundtrip(self, other: Self)
        ensures
            self.decodes(self.spec_value()),
            other.decodes(self.spec_value()) ==> other@ == self@,
    {
        lemma_pow_facts();
        crate::io::data::lemma_unsigned_roundtrip(self.bits as nat, 8);
        crate::io::data::lemma_unsigned_roundtrip(other.bits as nat, 8);
    }
}

impl ILNullTag {
    /// A tag deserializes from its own serialized value.
    pub proof fn lemma_value_roundtrip(self, other: Self)
        ensures
            self.decodes(self.spec_value()),
            other.decodes(self.spec_value()),
    {
    }
}

impl ILBoolTag {
    /// A tag deserializes from its own serialized value, and any tag that
    /// deserializes from it holds the same value.
    pub proof fn lemma_value_roundtrip(self, other: Self)
        ensures
            self.decodes(self.spec_value()),
            other.decodes(self.spec_value()) ==> other@ == self@,
    {
        if other.decodes(self.spec_value()) {
            assert(self.spec_value()[0] == other.spec_value()[0]);
        }
    }
}

impl ILBin128Tag {
    /// A tag deserializes from its own serialized value, and any tag that
    /// deserializes from it holds the same bytes.
    pub proof fn lemma_value_roundtrip(self, other: Self)
        ensures
            self.decodes(self.spec_value()),
            other.decodes(self.spec_value()) ==> other@ == self@,
    {
    }
}

impl ILILInt64Tag {
    /// A tag deserializes from its own serialized value, and any tag that
    /// deserializes from it holds the same value.
    pub proof fn lemma_value_roundtrip(self, other: Self)
        ensures
            self.decodes(self.spec_value()),
            other.decodes(self.spec_value()) ==> other@ == self@,
    {
        crate::ilint::lemma_encode_decode(self.value, Seq::empty());
        crate::ilint::lemma_encode_len(self.value);
        assert(spec_encode(self.value) + Seq::<u8>::empty() =~= spec_encode(self.value));
    }
}

impl ILSignedILInt64Tag {
    /// A tag deserializes from its own serialized value, and any tag that
    /// deserializes from it holds the same value.
    pub proof fn lemma_value_roundtrip(self, other: Self)
        ensures
            self.decodes(self.spec_value()),
            other.decodes(self.spec_value()) ==> other@ == self@,
    {
        crate::ilint::lemma_signed_encode_decode(self.value, Seq::empty());
        crate::ilint::lemma_zigzag_roundtrip(other.value, 0);
        assert(spec_signed_encode(self.value) + Seq::<u8>::empty() =~= spec_signed_encode(self.value));
    }
}

} // verus!
