//! The standard explicit tags, and `ILAnyTag`, which holds any tag that the
//! standard factory can build. The tag containers hold `ILAnyTag` values.
use super::constants::{
    IL_BDEC_TAG_ID, IL_BIN128_TAG_ID, IL_BIN32_TAG_ID, IL_BIN64_TAG_ID, IL_BINT_TAG_ID, IL_BOOL_TAG_ID, IL_BYTES_TAG_ID, IL_DICTIONARY_TAG_ID, IL_ILINTARRAY_TAG_ID, IL_ILINT_TAG_ID, IL_ILTAGARRAY_TAG_ID, IL_ILTAGSEQ_TAG_ID, IL_INT16_TAG_ID, IL_INT32_TAG_ID, IL_INT64_TAG_ID, IL_INT8_TAG_ID, IL_NULL_TAG_ID, IL_OID_TAG_ID, IL_RANGE_TAG_ID, IL_SIGNED_ILINT_TAG_ID, IL_STRING_DICTIONARY_TAG_ID, IL_STRING_TAG_ID, IL_UINT16_TAG_ID, IL_UINT32_TAG_ID, IL_UINT64_TAG_ID, IL_UINT8_TAG_ID, IL_VERSION_TAG_ID,
};
use super::implicit::{ILNullTag, ILBoolTag, ILInt8Tag, ILUInt8Tag, ILInt16Tag, ILUInt16Tag, ILInt32Tag, ILUInt32Tag, ILInt64Tag, ILUInt64Tag, ILILInt64Tag, ILSignedILInt64Tag, ILBin32Tag, ILBin64Tag, ILBin128Tag};
use crate::ilint::{spec_decode_from_bytes, spec_encode, spec_truncated};
use crate::io::array::ByteArrayReader;
use crate::io::data::{from_twos, read_i32, read_u16, string_from_utf8, to_twos, write_i32, write_u16};
use crate::io::{Reader, Writer};
use vstd::utf8::{decode_utf8, encode_utf8, valid_utf8};
use super::implicit::{implicit_tag_size, spec_implicit_tag_size};
use crate::tags::{
    deserialize_bytes, deserialize_ilint, serialize_bytes, tag_size_to_usize, ILTagCreatorEngine, MAX_TAG_SIZE, serialize_ilint, spec_tag_bytes, DefaultWithId, ErrorKind,
    ILRawTag, ILTag, ILTagFactory, Result, IMPLICIT_ID_MAX, TagKind, CreatorKind,
};
use vstd::prelude::*;

verus! {

//=============================================================================
// ILAnyTag
//-----------------------------------------------------------------------------
/// A tag of any of the kinds that the standard factory builds.
pub enum ILAnyTag {
    /// A `ILNullTag`.
    Null(ILNullTag),
    /// A `ILBoolTag`.
    Bool(ILBoolTag),
    /// A `ILInt8Tag`.
    Int8(ILInt8Tag),
    /// A `ILUInt8Tag`.
    UInt8(ILUInt8Tag),
    /// A `ILInt16Tag`.
    Int16(ILInt16Tag),
    /// A `ILUInt16Tag`.
    UInt16(ILUInt16Tag),
    /// A `ILInt32Tag`.
    Int32(ILInt32Tag),
    /// A `ILUInt32Tag`.
    UInt32(ILUInt32Tag),
    /// A `ILInt64Tag`.
    Int64(ILInt64Tag),
    /// A `ILUInt64Tag`.
    UInt64(ILUInt64Tag),
    /// A `ILILInt64Tag`.
    ILInt(ILILInt64Tag),
    /// A `ILSignedILInt64Tag`.
    SignedILInt(ILSignedILInt64Tag),
    /// A `ILBin32Tag`.
    Bin32(ILBin32Tag),
    /// A `ILBin64Tag`.
    Bin64(ILBin64Tag),
    /// A `ILBin128Tag`.
    Bin128(ILBin128Tag),
    /// A `ILRawTag`.
    Raw(ILRawTag),
    /// A `ILTagSeqTag`.
    TagSeq(ILTagSeqTag),
    /// A `ILTagArrayTag`.
    TagArray(ILTagArrayTag),
    /// A `ILByteArrayTag`.
    Bytes(ILByteArrayTag),
    /// A `ILStringTag`.
    Str(ILStringTag),
    /// A `ILBigIntTag`.
    BigInt(ILBigIntTag),
    /// A `ILBigDecTag`.
    BigDec(ILBigDecTag),
    /// A `ILILIntArrayTag`.
    ILIntArray(ILILIntArrayTag),
    /// A `ILRangeTag`.
    Range(ILRangeTag),
    /// A `ILVersionTag`.
    Version(ILVersionTag),
    /// A `ILOIDTag`.
    OID(ILOIDTag),
    /// A `ILDictTag`.
    Dict(ILDictTag),
    /// A `ILStrDictTag`.
    StrDict(ILStrDictTag),
}

/// The kind of a tag.
pub open spec fn any_kind(t: ILAnyTag) -> TagKind {
    match t {
        ILAnyTag::Null(_) => TagKind::Null,
        ILAnyTag::Bool(_) => TagKind::Bool,
        ILAnyTag::Int8(_) => TagKind::Int8,
        ILAnyTag::UInt8(_) => TagKind::UInt8,
        ILAnyTag::Int16(_) => TagKind::Int16,
        ILAnyTag::UInt16(_) => TagKind::UInt16,
        ILAnyTag::Int32(_) => TagKind::Int32,
        ILAnyTag::UInt32(_) => TagKind::UInt32,
        ILAnyTag::Int64(_) => TagKind::Int64,
        ILAnyTag::UInt64(_) => TagKind::UInt64,
        ILAnyTag::ILInt(_) => TagKind::ILInt,
        ILAnyTag::SignedILInt(_) => TagKind::SignedILInt,
        ILAnyTag::Bin32(_) => TagKind::Bin32,
        ILAnyTag::Bin64(_) => TagKind::Bin64,
        ILAnyTag::Bin128(_) => TagKind::Bin128,
        ILAnyTag::Raw(_) => TagKind::Raw,
        ILAnyTag::TagSeq(_) => TagKind::TagSeq,
        ILAnyTag::TagArray(_) => TagKind::TagArray,
        ILAnyTag::Bytes(_) => TagKind::Bytes,
        ILAnyTag::Str(_) => TagKind::Str,
        ILAnyTag::BigInt(_) => TagKind::BigInt,
        ILAnyTag::BigDec(_) => TagKind::BigDec,
        ILAnyTag::ILIntArray(_) => TagKind::ILIntArray,
        ILAnyTag::Range(_) => TagKind::Range,
        ILAnyTag::Version(_) => TagKind::Version,
        ILAnyTag::OID(_) => TagKind::OID,
        ILAnyTag::Dict(_) => TagKind::Dict,
        ILAnyTag::StrDict(_) => TagKind::StrDict,
    }
}

/// The id of a tag.
pub open spec fn any_id(t: ILAnyTag) -> u64 {
    match t {
        ILAnyTag::Null(x) => x.spec_id(),
        ILAnyTag::Bool(x) => x.spec_id(),
        ILAnyTag::Int8(x) => x.spec_id(),
        ILAnyTag::UInt8(x) => x.spec_id(),
        ILAnyTag::Int16(x) => x.spec_id(),
        ILAnyTag::UInt16(x) => x.spec_id(),
        ILAnyTag::Int32(x) => x.spec_id(),
        ILAnyTag::UInt32(x) => x.spec_id(),
        ILAnyTag::Int64(x) => x.spec_id(),
        ILAnyTag::UInt64(x) => x.spec_id(),
        ILAnyTag::ILInt(x) => x.spec_id(),
        ILAnyTag::SignedILInt(x) => x.spec_id(),
        ILAnyTag::Bin32(x) => x.spec_id(),
        ILAnyTag::Bin64(x) => x.spec_id(),
        ILAnyTag::Bin128(x) => x.spec_id(),
        ILAnyTag::Raw(x) => x.spec_id(),
        ILAnyTag::TagSeq(x) => x.spec_id(),
        ILAnyTag::TagArray(x) => x.spec_id(),
        ILAnyTag::Bytes(x) => x.spec_id(),
        ILAnyTag::Str(x) => x.spec_id(),
        ILAnyTag::BigInt(x) => x.spec_id(),
        ILAnyTag::BigDec(x) => x.spec_id(),
        ILAnyTag::ILIntArray(x) => x.spec_id(),
        ILAnyTag::Range(x) => x.spec_id(),
        ILAnyTag::Version(x) => x.spec_id(),
        ILAnyTag::OID(x) => x.spec_id(),
        ILAnyTag::Dict(x) => x.spec_id(),
        ILAnyTag::StrDict(x) => x.spec_id(),
    }
}

/// The serialization of the value of a tag.
pub closed spec fn any_value(t: ILAnyTag) -> Seq<u8>
    decreases t,
{
    match t {
        ILAnyTag::Null(x) => x.spec_value(),
        ILAnyTag::Bool(x) => x.spec_value(),
        ILAnyTag::Int8(x) => x.spec_value(),
        ILAnyTag::UInt8(x) => x.spec_value(),
        ILAnyTag::Int16(x) => x.spec_value(),
        ILAnyTag::UInt16(x) => x.spec_value(),
        ILAnyTag::Int32(x) => x.spec_value(),
        ILAnyTag::UInt32(x) => x.spec_value(),
        ILAnyTag::Int64(x) => x.spec_value(),
        ILAnyTag::UInt64(x) => x.spec_value(),
        ILAnyTag::ILInt(x) => x.spec_value(),
        ILAnyTag::SignedILInt(x) => x.spec_value(),
        ILAnyTag::Bin32(x) => x.spec_value(),
        ILAnyTag::Bin64(x) => x.spec_value(),
        ILAnyTag::Bin128(x) => x.spec_value(),
        ILAnyTag::Raw(x) => x.spec_value(),
        ILAnyTag::TagSeq(x) => items_bytes(x.value@),
        ILAnyTag::TagArray(x) => spec_encode(x.inner.value@.len() as u64) + items_bytes(x.inner.value@),
        ILAnyTag::Bytes(x) => x.spec_value(),
        ILAnyTag::Str(x) => x.spec_value(),
        ILAnyTag::BigInt(x) => x.spec_value(),
        ILAnyTag::BigDec(x) => x.spec_value(),
        ILAnyTag::ILIntArray(x) => x.spec_value(),
        ILAnyTag::Range(x) => x.spec_value(),
        ILAnyTag::Version(x) => x.spec_value(),
        ILAnyTag::OID(x) => x.spec_value(),
        ILAnyTag::Dict(x) => spec_encode(x.value@.len() as u64) + dict_entries_bytes(x.value@),
        ILAnyTag::StrDict(x) => x.spec_value(),
    }
}

/// The serialization of a list of tags, one after the other.
pub closed spec fn items_bytes(items: Seq<ILAnyTag>) -> Seq<u8>
    decreases items,
{
    if items.len() == 0 {
        Seq::empty()
    } else {
        items_bytes(items.drop_last()) + spec_tag_bytes(any_id(items.last()), any_value(items.last()))
    }
}

/// True when the value bytes `value` deserialize into the tag `t`.
pub closed spec fn any_decodes(t: ILAnyTag, value: Seq<u8>) -> bool
    decreases t, 0nat, 0int,
{
    match t {
        ILAnyTag::Null(x) => x.decodes(value),
        ILAnyTag::Bool(x) => x.decodes(value),
        ILAnyTag::Int8(x) => x.decodes(value),
        ILAnyTag::UInt8(x) => x.decodes(value),
        ILAnyTag::Int16(x) => x.decodes(value),
        ILAnyTag::UInt16(x) => x.decodes(value),
        ILAnyTag::Int32(x) => x.decodes(value),
        ILAnyTag::UInt32(x) => x.decodes(value),
        ILAnyTag::Int64(x) => x.decodes(value),
        ILAnyTag::UInt64(x) => x.decodes(value),
        ILAnyTag::ILInt(x) => x.decodes(value),
        ILAnyTag::SignedILInt(x) => x.decodes(value),
        ILAnyTag::Bin32(x) => x.decodes(value),
        ILAnyTag::Bin64(x) => x.decodes(value),
        ILAnyTag::Bin128(x) => x.decodes(value),
        ILAnyTag::Raw(x) => x.decodes(value),
        ILAnyTag::TagSeq(x) => items_decode(value, x.value@),
        ILAnyTag::TagArray(x) => match spec_decode_from_bytes(value) {
            Ok((count, n)) => count == x.inner.value@.len() && items_decode(value.skip(n as int), x.inner.value@),
            Err(_) => false,
        },
        ILAnyTag::Bytes(x) => x.decodes(value),
        ILAnyTag::Str(x) => x.decodes(value),
        ILAnyTag::BigInt(x) => x.decodes(value),
        ILAnyTag::BigDec(x) => x.decodes(value),
        ILAnyTag::ILIntArray(x) => x.decodes(value),
        ILAnyTag::Range(x) => x.decodes(value),
        ILAnyTag::Version(x) => x.decodes(value),
        ILAnyTag::OID(x) => x.decodes(value),
        ILAnyTag::Dict(x) => x.decodes(value),
        ILAnyTag::StrDict(x) => x.decodes(value),
    }
}

/// True when `bytes` holds, one after the other, serialized tags that
/// deserialize into `items`.
pub closed spec fn items_decode(bytes: Seq<u8>, items: Seq<ILAnyTag>) -> bool
    decreases items, 1nat, 0int,
{
    if items.len() == 0 {
        bytes.len() == 0
    } else {
        bytes.len() > 0 && items_split(bytes, items, bytes.len() - 1)
    }
}

/// True when, for some `j <= k`, the first `j` bytes of `bytes` deserialize
/// into all of `items` but the last, and the rest into the last.
pub closed spec fn items_split(bytes: Seq<u8>, items: Seq<ILAnyTag>, k: int) -> bool
    decreases items, 0nat, k,
{
    if items.len() == 0 || k < 0 {
        false
    } else {
        let found = items_decode(bytes.take(k), items.drop_last()) && frame_decodes(bytes.skip(k), items.last());
        if k == 0 {
            found
        } else {
            found || items_split(bytes, items, k - 1)
        }
    }
}

/// True when `bytes` is a serialized tag (its id, its size when the id is
/// explicit, and its value) whose value deserializes into `t`.
pub closed spec fn frame_decodes(bytes: Seq<u8>, t: ILAnyTag) -> bool
    decreases t, 1nat, 0int,
{
    match spec_decode_from_bytes(bytes) {
        Ok((id, n1)) => if id <= IMPLICIT_ID_MAX {
            any_decodes(t, bytes.skip(n1 as int))
        } else {
            match spec_decode_from_bytes(bytes.skip(n1 as int)) {
                Ok((size, n2)) => size == bytes.len() - n1 - n2 && any_decodes(t, bytes.skip((n1 + n2) as int)),
                Err(_) => false,
            }
        },
        Err(_) => false,
    }
}

/// The id, the value size and the header length of the tag whose
/// serialization starts `s`, when its header is complete and well formed:
/// the size of an implicit tag is given by its id, that of an explicit tag
/// follows its id.
pub open spec fn frame_header(s: Seq<u8>) -> Option<(u64, u64, nat)> {
    if spec_truncated(s) {
        None
    } else {
        match spec_decode_from_bytes(s) {
            Ok((id, n1)) => if id <= IMPLICIT_ID_MAX {
                Some((id, spec_implicit_tag_size(id), n1))
            } else if spec_truncated(s.skip(n1 as int)) {
                None
            } else {
                match spec_decode_from_bytes(s.skip(n1 as int)) {
                    Ok((size, n2)) => Some((id, size, n1 + n2)),
                    Err(_) => None,
                }
            },
            Err(_) => None,
        }
    }
}

/// `r` is a raw tag with this id and value.
pub open spec fn raw_outcome(r: Result<ILAnyTag>, id: u64, value: Seq<u8>) -> bool {
    r matches Ok(ILAnyTag::Raw(t)) && t.spec_id() == id && t.spec_value() == value
}

/// What deserializing the tag at the start of `s` with `engine` gives,
/// where that is decided before the value is read: the error of a missing
/// or malformed header, of a size above `MAX_TAG_SIZE`, of an id that the
/// engine cannot create, of a value cut short; for an explicit id that a
/// non-strict engine does not know, the raw tag that holds the value; for
/// an id whose creator makes the tags of a leaf kind, the tag of that kind
/// exactly when the value is one of that kind; and for an id whose creator
/// makes containers, the container when its value is empty or holds whole
/// tags that the engine reads back in turn (after the count, for an array,
/// and each after its string key, for a dictionary), however deep they
/// nest.
pub open spec fn deserialize_outcome(engine: ILTagCreatorEngine, s: Seq<u8>, r: Result<ILAnyTag>) -> bool {
    match frame_header(s) {
        None => r matches Err(ErrorKind::IOError(_)),
        Some((id, size, h)) => {
            let known = engine.wf() && engine.ids().contains(id);
            let raw = !engine.ids().contains(id) && !engine.spec_strict() && id > IMPLICIT_ID_MAX;
            &&& size > MAX_TAG_SIZE ==> r == Err::<ILAnyTag, ErrorKind>(ErrorKind::TagTooLarge)
            &&& size <= MAX_TAG_SIZE && !engine.ids().contains(id) && (engine.spec_strict() || id
                <= IMPLICIT_ID_MAX) ==> r == Err::<ILAnyTag, ErrorKind>(ErrorKind::UnknownTag)
            &&& size <= MAX_TAG_SIZE && (known || raw) && id != IL_ILINT_TAG_ID && id
                != IL_SIGNED_ILINT_TAG_ID && s.len() < h + size ==> (r matches Err(ErrorKind::IOError(_)))
            &&& size <= MAX_TAG_SIZE && raw && s.len() >= h + size ==> raw_outcome(r, id, s.subrange(
                h as int,
                h + size,
            ))
            &&& size <= MAX_TAG_SIZE && known && engine.kinds()[id] is Some && is_leaf_kind(
                engine.kinds()[id]->Some_0.kind,
            ) && id != IL_ILINT_TAG_ID && id != IL_SIGNED_ILINT_TAG_ID && s.len() >= h + size
                ==> leaf_outcome(engine.kinds()[id]->Some_0, id, s.subrange(h as int, h + size), r)
            &&& size <= MAX_TAG_SIZE && known && engine.kinds()[id] is Some && s.len() >= h + size
                && id != IL_ILINT_TAG_ID && id != IL_SIGNED_ILINT_TAG_ID && (std_value(
                engine,
                engine.kinds()[id]->Some_0.kind,
                s.subrange(h as int, h + size),
            ) || empty_container_value(
                engine.kinds()[id]->Some_0.kind,
                s.subrange(h as int, h + size),
            )) ==> (r matches Ok(t) && any_kind(t) == engine.kinds()[id]->Some_0.kind && any_id(t) == made_id(
                engine.kinds()[id]->Some_0,
                id,
            ))
            &&& known && engine.kinds()[id] is Some && is_ilint_kind(engine.kinds()[id]->Some_0.kind) && (id
                == IL_ILINT_TAG_ID || id == IL_SIGNED_ILINT_TAG_ID) ==> ilint_outcome(
                engine.kinds()[id]->Some_0,
                id,
                s.skip(h as int),
                r,
            )
        },
    }
}

/// What deserializing an ILInt tag of id `id`, whose value starts `rest`,
/// gives when the creator of `id` makes the empty tags of the ILInt kind of
/// `k`: a tag of that kind and of the id it was made with exactly when
/// `rest` starts with a whole ILInt.
pub open spec fn ilint_outcome(k: CreatorKind, id: u64, rest: Seq<u8>, r: Result<ILAnyTag>) -> bool {
    &&& r is Ok <==> !spec_truncated(rest) && spec_decode_from_bytes(rest) is Ok
    &&& r matches Ok(t) ==> any_kind(t) == k.kind && any_id(t) == made_id(k, id)
}

/// What deserializing a tag of id `id` whose complete value is `value`
/// gives when the creator of `id` makes the empty tags of the leaf kind
/// `k`: a tag of that kind and of the id it was made with, whose value
/// decodes from `value`, exactly when `value` is a value of that kind.
pub open spec fn leaf_outcome(k: CreatorKind, id: u64, value: Seq<u8>, r: Result<ILAnyTag>) -> bool {
    &&& r is Ok <==> leaf_accepts(k.kind, value)
    &&& r matches Ok(t) ==> any_kind(t) == k.kind && any_id(t) == made_id(k, id) && any_decodes(t, value)
}

/// `spec_frame_decodes(bytes, t)` holds when `bytes` is a serialized tag
/// whose value deserializes into `t`.
pub open spec fn spec_frame_decodes(bytes: Seq<u8>, t: ILAnyTag) -> bool {
    frame_decodes(bytes, t)
}

/// Every kind of tag that `ILAnyTag` holds keeps to the model of `ILTag`.
pub proof fn lemma_any_kinds_obey()
    ensures
        <ILNullTag as ILTag>::obeys_tag_model(),
        <ILBoolTag as ILTag>::obeys_tag_model(),
        <ILInt8Tag as ILTag>::obeys_tag_model(),
        <ILUInt8Tag as ILTag>::obeys_tag_model(),
        <ILInt16Tag as ILTag>::obeys_tag_model(),
        <ILUInt16Tag as ILTag>::obeys_tag_model(),
        <ILInt32Tag as ILTag>::obeys_tag_model(),
        <ILUInt32Tag as ILTag>::obeys_tag_model(),
        <ILInt64Tag as ILTag>::obeys_tag_model(),
        <ILUInt64Tag as ILTag>::obeys_tag_model(),
        <ILILInt64Tag as ILTag>::obeys_tag_model(),
        <ILSignedILInt64Tag as ILTag>::obeys_tag_model(),
        <ILBin32Tag as ILTag>::obeys_tag_model(),
        <ILBin64Tag as ILTag>::obeys_tag_model(),
        <ILBin128Tag as ILTag>::obeys_tag_model(),
        <ILRawTag as ILTag>::obeys_tag_model(),
        <ILTagSeqTag as ILTag>::obeys_tag_model(),
        <ILTagArrayTag as ILTag>::obeys_tag_model(),
        <ILByteArrayTag as ILTag>::obeys_tag_model(),
        <ILStringTag as ILTag>::obeys_tag_model(),
        <ILBigIntTag as ILTag>::obeys_tag_model(),
        <ILBigDecTag as ILTag>::obeys_tag_model(),
        <ILILIntArrayTag as ILTag>::obeys_tag_model(),
        <ILRangeTag as ILTag>::obeys_tag_model(),
        <ILVersionTag as ILTag>::obeys_tag_model(),
        <ILOIDTag as ILTag>::obeys_tag_model(),
        <ILDictTag as ILTag>::obeys_tag_model(),
        <ILStrDictTag as ILTag>::obeys_tag_model(),
{
}

impl ILTag for ILAnyTag {
    open spec fn obeys_tag_model() -> bool {
        true
    }

    open spec fn spec_serializes(&self) -> bool {
        true
    }

    open spec fn spec_id(&self) -> u64 {
        any_id(*self)
    }

    open spec fn spec_value(&self) -> Seq<u8> {
        any_value(*self)
    }

    open spec fn spec_decodes(&self, value: Seq<u8>) -> bool {
        any_decodes(*self, value)
    }

    fn id(&self) -> (r: u64) {
        proof {
            lemma_any_kinds_obey();
        }
        match self {
            ILAnyTag::Null(x) => x.id(),
            ILAnyTag::Bool(x) => x.id(),
            ILAnyTag::Int8(x) => x.id(),
            ILAnyTag::UInt8(x) => x.id(),
            ILAnyTag::Int16(x) => x.id(),
            ILAnyTag::UInt16(x) => x.id(),
            ILAnyTag::Int32(x) => x.id(),
            ILAnyTag::UInt32(x) => x.id(),
            ILAnyTag::Int64(x) => x.id(),
            ILAnyTag::UInt64(x) => x.id(),
            ILAnyTag::ILInt(x) => x.id(),
            ILAnyTag::SignedILInt(x) => x.id(),
            ILAnyTag::Bin32(x) => x.id(),
            ILAnyTag::Bin64(x) => x.id(),
            ILAnyTag::Bin128(x) => x.id(),
            ILAnyTag::Raw(x) => x.id(),
            ILAnyTag::TagSeq(x) => x.id(),
            ILAnyTag::TagArray(x) => x.id(),
            ILAnyTag::Bytes(x) => x.id(),
            ILAnyTag::Str(x) => x.id(),
            ILAnyTag::BigInt(x) => x.id(),
            ILAnyTag::BigDec(x) => x.id(),
            ILAnyTag::ILIntArray(x) => x.id(),
            ILAnyTag::Range(x) => x.id(),
            ILAnyTag::Version(x) => x.id(),
            ILAnyTag::OID(x) => x.id(),
            ILAnyTag::Dict(x) => x.id(),
            ILAnyTag::StrDict(x) => x.id(),
        }
    }

    fn value_size(&self) -> (r: u64) {
        any_value_size(self)
    }

    fn serialize_value<W: Writer>(&self, writer: &mut W) -> (r: Result<()>)
        ensures
            r matches Err(e) ==> e is IOError,
            crate::io::writes_exactly(*old(writer), *final(writer), self.spec_value(), r is Ok),
    {
        any_serialize_value(self, writer)
    }

    fn deserialize_value<F: ILTagFactory, R: Reader>(
        &mut self,
        factory: &F,
        value_size: usize,
        reader: &mut R,
    ) -> (r: Result<()>)
        ensures
            any_kind(*final(self)) == any_kind(*old(self)),
            R::obeys_model() && is_leaf_kind(any_kind(*old(self))) && !is_ilint_kind(any_kind(*old(self)))
                && old(reader).remaining().len() >= value_size ==> (r is Ok <==> leaf_accepts(
                any_kind(*old(self)),
                old(reader).remaining().take(value_size as int),
            )),
            R::obeys_model() && is_leaf_kind(any_kind(*old(self))) && !is_ilint_kind(any_kind(*old(self)))
                && r is Ok ==> final(reader).remaining() == old(reader).remaining().skip(value_size as int),
            R::obeys_model() && is_leaf_kind(any_kind(*old(self))) && !is_ilint_kind(any_kind(*old(self)))
                && old(reader).remaining().len() < value_size ==> r is Err,
            R::obeys_model() && is_ilint_kind(any_kind(*old(self))) ==> (r is Ok <==> !spec_truncated(
                old(reader).remaining(),
            ) && spec_decode_from_bytes(old(reader).remaining()) is Ok),
            R::obeys_model() && *old(self) is TagSeq && value_size == 0 ==> r is Ok,
    {
        match self {
            ILAnyTag::Null(x) => x.deserialize_value(factory, value_size, reader),
            ILAnyTag::Bool(x) => x.deserialize_value(factory, value_size, reader),
            ILAnyTag::Int8(x) => x.deserialize_value(factory, value_size, reader),
            ILAnyTag::UInt8(x) => x.deserialize_value(factory, value_size, reader),
            ILAnyTag::Int16(x) => x.deserialize_value(factory, value_size, reader),
            ILAnyTag::UInt16(x) => x.deserialize_value(factory, value_size, reader),
            ILAnyTag::Int32(x) => x.deserialize_value(factory, value_size, reader),
            ILAnyTag::UInt32(x) => x.deserialize_value(factory, value_size, reader),
            ILAnyTag::Int64(x) => x.deserialize_value(factory, value_size, reader),
            ILAnyTag::UInt64(x) => x.deserialize_value(factory, value_size, reader),
            ILAnyTag::ILInt(x) => x.deserialize_value(factory, value_size, reader),
            ILAnyTag::SignedILInt(x) => x.deserialize_value(factory, value_size, reader),
            ILAnyTag::Bin32(x) => x.deserialize_value(factory, value_size, reader),
            ILAnyTag::Bin64(x) => x.deserialize_value(factory, value_size, reader),
            ILAnyTag::Bin128(x) => x.deserialize_value(factory, value_size, reader),
            ILAnyTag::Raw(x) => x.deserialize_value(factory, value_size, reader),
            ILAnyTag::TagSeq(x) => x.deserialize_value(factory, value_size, reader),
            ILAnyTag::TagArray(x) => x.deserialize_value(factory, value_size, reader),
            ILAnyTag::Bytes(x) => x.deserialize_value(factory, value_size, reader),
            ILAnyTag::Str(x) => x.deserialize_value(factory, value_size, reader),
            ILAnyTag::BigInt(x) => x.deserialize_value(factory, value_size, reader),
            ILAnyTag::BigDec(x) => x.deserialize_value(factory, value_size, reader),
            ILAnyTag::ILIntArray(x) => x.deserialize_value(factory, value_size, reader),
            ILAnyTag::Range(x) => x.deserialize_value(factory, value_size, reader),
            ILAnyTag::Version(x) => x.deserialize_value(factory, value_size, reader),
            ILAnyTag::OID(x) => x.deserialize_value(factory, value_size, reader),
            ILAnyTag::Dict(x) => x.deserialize_value(factory, value_size, reader),
            ILAnyTag::StrDict(x) => x.deserialize_value(factory, value_size, reader),
        }
    }
}

/// The size of the serialized value of a tag.
fn any_value_size(t: &ILAnyTag) -> (r: u64)
    requires
        any_value(*t).len() <= u64::MAX,
    ensures
        r == any_value(*t).len(),
    decreases *t, 0nat,
{
    match t {
        ILAnyTag::Null(x) => x.value_size(),
        ILAnyTag::Bool(x) => x.value_size(),
        ILAnyTag::Int8(x) => x.value_size(),
        ILAnyTag::UInt8(x) => x.value_size(),
        ILAnyTag::Int16(x) => x.value_size(),
        ILAnyTag::UInt16(x) => x.value_size(),
        ILAnyTag::Int32(x) => x.value_size(),
        ILAnyTag::UInt32(x) => x.value_size(),
        ILAnyTag::Int64(x) => x.value_size(),
        ILAnyTag::UInt64(x) => x.value_size(),
        ILAnyTag::ILInt(x) => x.value_size(),
        ILAnyTag::SignedILInt(x) => x.value_size(),
        ILAnyTag::Bin32(x) => x.value_size(),
        ILAnyTag::Bin64(x) => x.value_size(),
        ILAnyTag::Bin128(x) => x.value_size(),
        ILAnyTag::Raw(x) => x.value_size(),
        ILAnyTag::TagSeq(x) => items_size(&x.value),
        ILAnyTag::TagArray(x) => {
            proof {
                crate::ilint::lemma_encode_len(x.inner.value@.len() as u64);
            }
            let n = crate::ilint::encoded_size(x.inner.value.len() as u64) as u64;
            n + items_size(&x.inner.value)
        },
        ILAnyTag::Bytes(x) => x.value_size(),
        ILAnyTag::Str(x) => x.value_size(),
        ILAnyTag::BigInt(x) => x.value_size(),
        ILAnyTag::BigDec(x) => x.value_size(),
        ILAnyTag::ILIntArray(x) => x.value_size(),
        ILAnyTag::Range(x) => x.value_size(),
        ILAnyTag::Version(x) => x.value_size(),
        ILAnyTag::OID(x) => x.value_size(),
        ILAnyTag::Dict(x) => {
            proof {
                crate::ilint::lemma_encode_len(x.value@.len() as u64);
            }
            let n = crate::ilint::encoded_size(x.value.len() as u64) as u64;
            n + dict_entries_size(&x.value)
        },
        ILAnyTag::StrDict(x) => x.value_size(),
    }
}

/// The size of a serialized tag.
fn any_size(t: &ILAnyTag) -> (r: u64)
    requires
        spec_tag_bytes(any_id(*t), any_value(*t)).len() <= u64::MAX,
    ensures
        r == spec_tag_bytes(any_id(*t), any_value(*t)).len(),
    decreases *t, 1nat,
{
    proof {
        crate::ilint::lemma_encode_len(any_id(*t));
        crate::ilint::lemma_encode_len(any_value(*t).len() as u64);
    }
    let v = any_value_size(t);
    let id = t.id();
    if id <= IMPLICIT_ID_MAX {
        crate::ilint::encoded_size(id) as u64 + v
    } else {
        crate::ilint::encoded_size(id) as u64 + crate::ilint::encoded_size(v) as u64 + v
    }
}

/// The size of a list of serialized tags.
fn items_size(items: &Vec<ILAnyTag>) -> (r: u64)
    requires
        items_bytes(items@).len() <= u64::MAX,
    ensures
        r == items_bytes(items@).len(),
    decreases items@, 0nat,
{
    let mut size: u64 = 0;
    let mut i: usize = 0;
    while i < items.len()
        invariant
            i <= items@.len(),
            items_bytes(items@).len() <= u64::MAX,
            size == items_bytes(items@.take(i as int)).len(),
        decreases items@.len() - i,
    {
        proof {
            lemma_items_bytes_step(items@, i as int);
            lemma_items_bytes_prefix(items@, i + 1);
        }
        let s = any_size(&items[i]);
        size = size + s;
        i = i + 1;
    }
    proof {
        assert(items@.take(i as int) =~= items@);
    }
    size
}

proof fn lemma_items_bytes_step(items: Seq<ILAnyTag>, i: int)
    requires
        0 <= i < items.len(),
    ensures
        items_bytes(items.take(i + 1)) == items_bytes(items.take(i)) + spec_tag_bytes(any_id(items[i]), any_value(items[i])),
{
    assert(items.take(i + 1).drop_last() =~= items.take(i));
}

proof fn lemma_items_bytes_prefix(items: Seq<ILAnyTag>, i: int)
    requires
        0 <= i <= items.len(),
    ensures
        items_bytes(items.take(i)).len() <= items_bytes(items).len(),
    decreases items.len(),
{
    if i == items.len() {
        assert(items.take(i) =~= items);
    } else {
        lemma_items_bytes_prefix(items.drop_last(), i);
        assert(items.drop_last().take(i) =~= items.take(i));
    }
}

/// Serializes the value of a tag.
fn any_serialize_value<W: Writer>(t: &ILAnyTag, writer: &mut W) -> (r: Result<()>)
    requires
        any_value(*t).len() <= u64::MAX,
    ensures
        r matches Err(e) ==> e is IOError,
        W::obeys_model() && r is Ok ==> final(writer).written() == old(writer).written() + any_value(*t),
        crate::io::writes_exactly(*old(writer), *final(writer), any_value(*t), r is Ok),
    decreases *t, 0nat,
{
    proof {
        crate::io::lemma_writes_nothing(*writer);
    }
    match t {
        ILAnyTag::Null(x) => x.serialize_value(writer),
        ILAnyTag::Bool(x) => x.serialize_value(writer),
        ILAnyTag::Int8(x) => x.serialize_value(writer),
        ILAnyTag::UInt8(x) => x.serialize_value(writer),
        ILAnyTag::Int16(x) => x.serialize_value(writer),
        ILAnyTag::UInt16(x) => x.serialize_value(writer),
        ILAnyTag::Int32(x) => x.serialize_value(writer),
        ILAnyTag::UInt32(x) => x.serialize_value(writer),
        ILAnyTag::Int64(x) => x.serialize_value(writer),
        ILAnyTag::UInt64(x) => x.serialize_value(writer),
        ILAnyTag::ILInt(x) => x.serialize_value(writer),
        ILAnyTag::SignedILInt(x) => x.serialize_value(writer),
        ILAnyTag::Bin32(x) => x.serialize_value(writer),
        ILAnyTag::Bin64(x) => x.serialize_value(writer),
        ILAnyTag::Bin128(x) => x.serialize_value(writer),
        ILAnyTag::Raw(x) => x.serialize_value(writer),
        ILAnyTag::TagSeq(x) => items_serialize(&x.value, writer),
        ILAnyTag::TagArray(x) => {
            let ghost a = spec_encode(x.inner.value@.len() as u64);
            let ghost b = items_bytes(x.inner.value@);
            let r0 = serialize_ilint(x.inner.value.len() as u64, writer);
            if r0.is_err() {
                proof {
                    crate::io::lemma_writes_failed(*old(writer), *writer, a, a + b);
                }
                return r0;
            }
            let ghost w1 = *writer;
            let r = items_serialize(&x.inner.value, writer);
            proof {
                crate::io::lemma_writes_chain(*old(writer), w1, *writer, a, b, r is Ok);
                if r is Ok {
                    assert(W::obeys_model() ==> final(writer).written() =~= old(writer).written() + any_value(*t));
                }
            }
            r
        },
        ILAnyTag::Bytes(x) => x.serialize_value(writer),
        ILAnyTag::Str(x) => x.serialize_value(writer),
        ILAnyTag::BigInt(x) => x.serialize_value(writer),
        ILAnyTag::BigDec(x) => x.serialize_value(writer),
        ILAnyTag::ILIntArray(x) => x.serialize_value(writer),
        ILAnyTag::Range(x) => x.serialize_value(writer),
        ILAnyTag::Version(x) => x.serialize_value(writer),
        ILAnyTag::OID(x) => x.serialize_value(writer),
        ILAnyTag::Dict(x) => {
            let ghost a = spec_encode(x.value@.len() as u64);
            let ghost b = dict_entries_bytes(x.value@);
            let r0 = serialize_ilint(x.value.len() as u64, writer);
            if r0.is_err() {
                proof {
                    crate::io::lemma_writes_failed(*old(writer), *writer, a, a + b);
                }
                return r0;
            }
            let ghost w1 = *writer;
            let r = dict_entries_serialize(&x.value, writer);
            proof {
                crate::io::lemma_writes_chain(*old(writer), w1, *writer, a, b, r is Ok);
                if r is Ok {
                    assert(W::obeys_model() ==> final(writer).written() =~= old(writer).written() + any_value(*t));
                }
            }
            r
        },
        ILAnyTag::StrDict(x) => x.serialize_value(writer),
    }
}

/// Serializes a tag.
fn any_serialize<W: Writer>(t: &ILAnyTag, writer: &mut W) -> (r: Result<()>)
    requires
        any_value(*t).len() <= u64::MAX,
    ensures
        r matches Err(e) ==> e is IOError,
        W::obeys_model() && r is Ok ==> final(writer).written() == old(writer).written() + spec_tag_bytes(any_id(*t), any_value(*t)),
        crate::io::writes_exactly(*old(writer), *final(writer), spec_tag_bytes(any_id(*t), any_value(*t)), r is Ok),
    decreases *t, 1nat,
{
    let ghost all = spec_tag_bytes(any_id(*t), any_value(*t));
    let ghost v = any_value(*t);
    let id = t.id();
    let ghost a = spec_encode(id);
    let r0 = serialize_ilint(id, writer);
    if r0.is_err() {
        proof {
            crate::io::lemma_writes_failed(*old(writer), *writer, a, all);
        }
        return r0;
    }
    let ghost mut head = a;
    if id > IMPLICIT_ID_MAX {
        let size = any_value_size(t);
        let ghost w1 = *writer;
        let ghost b = spec_encode(size);
        let r1 = serialize_ilint(size, writer);
        proof {
            crate::io::lemma_writes_chain(*old(writer), w1, *writer, a, b, r1 is Ok);
        }
        if r1.is_err() {
            proof {
                crate::io::lemma_writes_failed(*old(writer), *writer, a + b, all);
            }
            return r1;
        }
        proof {
            head = a + b;
        }
    }
    proof {
        assert(all =~= head + v);
    }
    let ghost w2 = *writer;
    let r = any_serialize_value(t, writer);
    proof {
        crate::io::lemma_writes_chain(*old(writer), w2, *writer, head, v, r is Ok);
        if r is Ok {
            assert(W::obeys_model() ==> final(writer).written() =~= old(writer).written() + spec_tag_bytes(any_id(*t), any_value(*t)));
        }
    }
    r
}

/// Serializes a list of tags, one after the other.
fn items_serialize<W: Writer>(items: &Vec<ILAnyTag>, writer: &mut W) -> (r: Result<()>)
    requires
        items_bytes(items@).len() <= u64::MAX,
    ensures
        r matches Err(e) ==> e is IOError,
        W::obeys_model() && r is Ok ==> final(writer).written() == old(writer).written() + items_bytes(items@),
        crate::io::writes_exactly(*old(writer), *final(writer), items_bytes(items@), r is Ok),
    decreases items@, 0nat,
{
    let mut i: usize = 0;
    proof {
        crate::io::lemma_writes_nothing(*writer);
        assert(items@.take(0) =~= Seq::<ILAnyTag>::empty());
    }
    while i < items.len()
        invariant
            i <= items@.len(),
            items_bytes(items@).len() <= u64::MAX,
            W::obeys_model() ==> writer.written() == old(writer).written() + items_bytes(items@.take(i as int)),
            crate::io::writes_exactly(*old(writer), *writer, items_bytes(items@.take(i as int)), true),
        decreases items@.len() - i,
    {
        proof {
            lemma_items_bytes_step(items@, i as int);
            lemma_items_bytes_prefix(items@, i + 1);
        }
        let ghost w0 = *writer;
        let ghost done = items_bytes(items@.take(i as int));
        let ghost x = spec_tag_bytes(any_id(items@[i as int]), any_value(items@[i as int]));
        let r0 = any_serialize(&items[i], writer);
        proof {
            crate::io::lemma_writes_chain(*old(writer), w0, *writer, done, x, r0 is Ok);
        }
        if r0.is_err() {
            proof {
                crate::io::lemma_writes_failed(*old(writer), *writer, done + x, items_bytes(items@));
            }
            return r0;
        }
        proof {
            assert(W::obeys_model() ==> writer.written() =~= old(writer).written() + items_bytes(items@.take(i + 1)));
        }
        i = i + 1;
    }
    proof {
        assert(items@.take(i as int) =~= items@);
    }
    Ok(())
}

//=============================================================================
// ILAnyTagKind
//-----------------------------------------------------------------------------
/// The tag types that `ILAnyTag` holds: a value of such a type converts into
/// an `ILAnyTag`, and an `ILAnyTag` of that kind gives access to it.
pub trait ILAnyTagKind: ILTag + Sized {
    /// The `ILAnyTag` that holds this tag.
    spec fn spec_into_any(self) -> ILAnyTag;

    /// The tag of this kind that `tag` holds, or `None` when `tag` holds a
    /// tag of another kind.
    spec fn spec_from_any(tag: ILAnyTag) -> Option<Self>;

    /// The kind of the tags of this type.
    spec fn spec_tag_kind() -> TagKind;

    /// Returns the kind of the tags of this type.
    fn tag_kind() -> (r: TagKind)
        ensures
            r == Self::spec_tag_kind(),
            Self::obeys_tag_model(),
    ;

    /// Wraps this tag into an `ILAnyTag`.
    fn into_any(self) -> (r: ILAnyTag)
        ensures
            Self::obeys_tag_model(),
            r == self.spec_into_any(),
            any_kind(r) == Self::spec_tag_kind(),
            Self::spec_from_any(r) == Some(self),
            r.spec_id() == self.spec_id(),
            r.spec_value() == self.spec_value(),
    ;

    /// Returns the tag inside `tag` if it is of this kind.
    fn from_any_ref(tag: &ILAnyTag) -> (r: Option<&Self>)
        ensures
            r is Some <==> Self::spec_from_any(*tag) is Some,
            r matches Some(t) ==> Self::spec_from_any(*tag) == Some(*t) && t.spec_id() == tag.spec_id()
                && t.spec_value() == tag.spec_value(),
    ;

    /// Returns the tag inside `tag` for modification if it is of this kind.
    fn from_any_mut(tag: &mut ILAnyTag) -> (r: Option<&mut Self>)
        ensures
            r is Some <==> Self::spec_from_any(*old(tag)) is Some,
            r matches Some(t) ==> Self::spec_from_any(*old(tag)) == Some(*t) && t.spec_id() == old(
                tag,
            ).spec_id() && *final(tag) == (*final(t)).spec_into_any(),
            r is None ==> *final(tag) == *old(tag),
    ;
}

/// Deserializes tags out of `bytes`, with `factory`, until they are all
/// consumed: this is how a tag sequence reads its value. Nothing but the
/// bytes of the value reach the factory; an empty value gives no tags, and
/// the tags read are those the bytes hold, one after the other.
pub fn deserialize_all_tags<F: ILTagFactory>(factory: &F, bytes: &[u8]) -> (r: Result<Vec<ILAnyTag>>)
    ensures
        bytes@.len() == 0 ==> (r matches Ok(items) && items@.len() == 0),
        F::obeys_factory_model() ==> (r matches Ok(items) ==> items_decode(bytes@, items@)),
{
    let mut reader = ByteArrayReader::new(bytes);
    let mut items: Vec<ILAnyTag> = Vec::new();
    let ghost mut consumed: Seq<u8> = Seq::empty();
    proof {
        assert(bytes@.take(0) =~= consumed);
    }
    while reader.available() > 0
        invariant
            bytes@.len() == 0 ==> items@.len() == 0 && reader.remaining().len() == 0,
            F::obeys_factory_model() ==> consumed == bytes@.take(consumed.len() as int) && consumed.len()
                <= bytes@.len() && reader.remaining() == bytes@.skip(consumed.len() as int) && items_decode(
                consumed,
                items@,
            ),
        decreases reader.remaining().len(),
    {
        let ghost before = reader.remaining();
        let left = reader.available();
        let t = factory.deserialize(&mut reader)?;
        if reader.available() >= left {
            // A factory that reads nothing would never get to the end.
            return Err(ErrorKind::CorruptedData);
        }
        let ghost n = before.len() - reader.remaining().len();
        let ghost next = consumed + before.take(n);
        proof {
            if F::obeys_factory_model() {
                lemma_items_decode_push(consumed, before.take(n), items@, t);
                assert(next =~= bytes@.take(next.len() as int));
                assert(reader.remaining() =~= bytes@.skip(next.len() as int));
            }
        }
        items.push(t);
        proof {
            consumed = next;
        }
    }
    proof {
        if F::obeys_factory_model() {
            assert(consumed =~= bytes@);
        }
    }
    Ok(items)
}

/// Deserializes `count` tags out of `reader`, with `factory`: this is how a
/// tag array reads its value after the count. No tags are read for a count
/// of 0; otherwise the tags read are those the bytes consumed hold.
pub fn deserialize_tags<F: ILTagFactory>(factory: &F, count: u64, reader: &mut ByteArrayReader) -> (r: Result<Vec<ILAnyTag>>)
    ensures
        count == 0 ==> (r matches Ok(items) && items@.len() == 0 && final(reader).remaining() == old(
            reader,
        ).remaining()),
        r matches Ok(items) ==> items@.len() == count,
        F::obeys_factory_model() ==> (r matches Ok(items) ==> {
            let n = old(reader).remaining().len() - final(reader).remaining().len();
            &&& 0 <= n <= old(reader).remaining().len()
            &&& final(reader).remaining() == old(reader).remaining().skip(n)
            &&& items_decode(old(reader).remaining().take(n), items@)
        }),
{
    let mut items: Vec<ILAnyTag> = Vec::new();
    let ghost start = reader.remaining();
    let ghost mut consumed: Seq<u8> = Seq::empty();
    proof {
        assert(start.skip(0) =~= start);
        assert(start.take(0) =~= consumed);
    }
    let mut i: u64 = 0;
    while i < count
        invariant
            i <= count,
            items@.len() == i,
            start == old(reader).remaining(),
            i == 0 ==> reader.remaining() == start,
            F::obeys_factory_model() ==> consumed == start.take(consumed.len() as int) && consumed.len()
                <= start.len() && reader.remaining() == start.skip(consumed.len() as int) && items_decode(
                consumed,
                items@,
            ),
        decreases count - i,
    {
        let ghost before = reader.remaining();
        let t = factory.deserialize(reader)?;
        let ghost n = before.len() - reader.remaining().len();
        let ghost next = consumed + before.take(n);
        proof {
            if F::obeys_factory_model() {
                lemma_items_decode_push(consumed, before.take(n), items@, t);
                assert(next =~= start.take(next.len() as int));
                assert(reader.remaining() =~= start.skip(next.len() as int));
            }
        }
        items.push(t);
        proof {
            consumed = next;
        }
        i = i + 1;
    }
    Ok(items)
}

proof fn lemma_items_split(bytes: Seq<u8>, items: Seq<ILAnyTag>, j: int, k: int)
    requires
        items.len() > 0,
        0 <= j <= k,
        items_decode(bytes.take(j), items.drop_last()),
        frame_decodes(bytes.skip(j), items.last()),
    ensures
        items_split(bytes, items, k),
    decreases k - j,
{
    if k > j {
        lemma_items_split(bytes, items, j, k - 1);
    }
}

proof fn lemma_items_decode_push(consumed: Seq<u8>, frame: Seq<u8>, items: Seq<ILAnyTag>, t: ILAnyTag)
    requires
        items_decode(consumed, items),
        frame.len() > 0,
        frame_decodes(frame, t),
    ensures
        items_decode(consumed + frame, items.push(t)),
{
    let b = consumed + frame;
    let s = items.push(t);
    let k = consumed.len() as int;
    assert(b.take(k) =~= consumed);
    assert(b.skip(k) =~= frame);
    assert(s.drop_last() =~= items);
    lemma_items_split(b, s, k, b.len() - 1);
}

//=============================================================================
// ILTagSeqTag
//-----------------------------------------------------------------------------
/// The standard tag sequence tag: its value is the serialization of its tags,
/// one after the other.
///
/// Its default id is `IL_ILTAGSEQ_TAG_ID`.
pub struct ILTagSeqTag {
    id: u64,
    value: Vec<ILAnyTag>,
}

impl ILTagSeqTag {
    /// The tags in this tag.
    pub closed spec fn items(&self) -> Seq<ILAnyTag> {
        self.value@
    }

    /// Creates an empty tag with the default id.
    pub fn new() -> (r: Self)
        ensures
            r.spec_id() == IL_ILTAGSEQ_TAG_ID,
            r.items() == Seq::<ILAnyTag>::empty(),
    {
        Self::with_id(IL_ILTAGSEQ_TAG_ID)
    }

    /// Creates an empty tag with the given id.
    pub fn with_id(id: u64) -> (r: Self)
        ensures
            r.spec_id() == id,
            r.items() == Seq::<ILAnyTag>::empty(),
    {
        Self { id, value: Vec::new() }
    }

    /// Returns the tags.
    pub fn value(&self) -> (r: &Vec<ILAnyTag>)
        ensures
            r@ == self.items(),
    {
        &self.value
    }

    /// Returns the tags for modification.
    pub fn mut_value(&mut self) -> (r: &mut Vec<ILAnyTag>)
        ensures
            r@ == old(self).items(),
            final(r)@ == final(self).items(),
            final(self).spec_id() == old(self).spec_id(),
    {
        &mut self.value
    }
}

impl ILTag for ILTagSeqTag {
    open spec fn obeys_tag_model() -> bool {
        true
    }

    open spec fn spec_serializes(&self) -> bool {
        true
    }

    closed spec fn spec_id(&self) -> u64 {
        self.id
    }

    closed spec fn spec_value(&self) -> Seq<u8> {
        items_bytes(self.value@)
    }

    open spec fn spec_decodes(&self, value: Seq<u8>) -> bool {
        items_decode(value, self.items())
    }

    fn id(&self) -> (r: u64) {
        self.id
    }

    fn value_size(&self) -> (r: u64) {
        items_size(&self.value)
    }

    fn serialize_value<W: Writer>(&self, writer: &mut W) -> (r: Result<()>)
        ensures
            r matches Err(e) ==> e is IOError,
            crate::io::writes_exactly(*old(writer), *final(writer), self.spec_value(), r is Ok),
    {
        items_serialize(&self.value, writer)
    }

    /// Reads the `value_size` bytes of the value and deserializes tags out
    /// of them until they are all consumed.
    fn deserialize_value<F: ILTagFactory, R: Reader>(
        &mut self,
        factory: &F,
        value_size: usize,
        reader: &mut R,
    ) -> (r: Result<()>)
        ensures
            F::obeys_factory_model() && R::obeys_model() ==> (r is Ok ==> old(reader).remaining().len() >= value_size
                && final(reader).remaining() == old(reader).remaining().skip(value_size as int)
                && items_decode(old(reader).remaining().take(value_size as int), final(self).items())),
            R::obeys_model() ==> (old(reader).remaining().len() < value_size ==> r matches Err(ErrorKind::IOError(_))),
            R::obeys_model() && value_size == 0 ==> r is Ok && final(self).items() == Seq::<ILAnyTag>::empty(),
    {
        let bytes = deserialize_bytes(value_size, reader)?;
        let items = deserialize_all_tags(factory, bytes.as_slice())?;
        self.value = items;
        proof {
            if R::obeys_model() && F::obeys_factory_model() {
                assert(reader.remaining().len() == old(reader).remaining().len() - value_size);
                assert(bytes@ == old(reader).remaining().take(value_size as int));
                assert(items_decode(bytes@, self.items()));
                assert(self.spec_decodes(old(reader).remaining().take(value_size as int)));
            }
        }
        Ok(())
    }
}

impl Default for ILTagSeqTag {
    fn default() -> (r: Self)
        ensures
            r.spec_id() == IL_ILTAGSEQ_TAG_ID,
            r.items() == Seq::<ILAnyTag>::empty(),
    {
        Self::new()
    }
}

impl DefaultWithId for ILTagSeqTag {
    fn default_with_id(id: u64) -> (r: Self) {
        Self::with_id(id)
    }
}

//=============================================================================
// ILTagArrayTag
//-----------------------------------------------------------------------------
/// The standard tag array tag: its value is the number of its tags, as an
/// ILInt, followed by the serialization of the tags.
///
/// Its default id is `IL_ILTAGARRAY_TAG_ID`.
pub struct ILTagArrayTag {
    inner: ILTagSeqTag,
}

impl ILTagArrayTag {
    /// The tags in this tag.
    pub closed spec fn items(&self) -> Seq<ILAnyTag> {
        self.inner.value@
    }

    /// Creates an empty tag with the default id.
    pub fn new() -> (r: Self)
        ensures
            r.spec_id() == IL_ILTAGARRAY_TAG_ID,
            r.items() == Seq::<ILAnyTag>::empty(),
    {
        Self::with_id(IL_ILTAGARRAY_TAG_ID)
    }

    /// Creates an empty tag with the given id.
    pub fn with_id(id: u64) -> (r: Self)
        ensures
            r.spec_id() == id,
            r.items() == Seq::<ILAnyTag>::empty(),
    {
        Self { inner: ILTagSeqTag::with_id(id) }
    }

    /// Returns the tags.
    pub fn value(&self) -> (r: &Vec<ILAnyTag>)
        ensures
            r@ == self.items(),
    {
        &self.inner.value
    }

    /// Returns the tags for modification.
    pub fn mut_value(&mut self) -> (r: &mut Vec<ILAnyTag>)
        ensures
            r@ == old(self).items(),
            final(r)@ == final(self).items(),
            final(self).spec_id() == old(self).spec_id(),
    {
        &mut self.inner.value
    }
}

impl ILTag for ILTagArrayTag {
    open spec fn obeys_tag_model() -> bool {
        true
    }

    open spec fn spec_serializes(&self) -> bool {
        true
    }

    closed spec fn spec_id(&self) -> u64 {
        self.inner.id
    }

    closed spec fn spec_value(&self) -> Seq<u8> {
        spec_encode(self.inner.value@.len() as u64) + items_bytes(self.inner.value@)
    }

    open spec fn spec_decodes(&self, value: Seq<u8>) -> bool {
        match spec_decode_from_bytes(value) {
            Ok((count, n)) => count == self.items().len() && items_decode(value.skip(n as int), self.items()),
            Err(_) => false,
        }
    }

    fn id(&self) -> (r: u64) {
        self.inner.id
    }

    fn value_size(&self) -> (r: u64) {
        proof {
            crate::ilint::lemma_encode_len(self.inner.value@.len() as u64);
        }
        let n = crate::ilint::encoded_size(self.inner.value.len() as u64) as u64;
        n + items_size(&self.inner.value)
    }

    fn serialize_value<W: Writer>(&self, writer: &mut W) -> (r: Result<()>)
        ensures
            r matches Err(e) ==> e is IOError,
            crate::io::writes_exactly(*old(writer), *final(writer), self.spec_value(), r is Ok),
    {
        let ghost a = spec_encode(self.inner.value@.len() as u64);
        let ghost b = items_bytes(self.inner.value@);
        proof {
            assert(self.spec_value() =~= a + b);
        }
        let r0 = serialize_ilint(self.inner.value.len() as u64, writer);
        if r0.is_err() {
            proof {
                crate::io::lemma_writes_failed(*old(writer), *writer, a, a + b);
            }
            return r0;
        }
        let ghost w1 = *writer;
        let r = items_serialize(&self.inner.value, writer);
        proof {
            crate::io::lemma_writes_chain(*old(writer), w1, *writer, a, b, r is Ok);
            if r is Ok {
                assert(W::obeys_model() ==> final(writer).written() =~= old(writer).written() + self.spec_value());
            }
        }
        r
    }

    /// Reads the number of tags, which may not exceed `value_size`, then the
    /// rest of the `value_size` bytes of the value and the tags out of them;
    /// the tags must take all the bytes left.
    fn deserialize_value<F: ILTagFactory, R: Reader>(
        &mut self,
        factory: &F,
        value_size: usize,
        reader: &mut R,
    ) -> (r: Result<()>)
        ensures
            F::obeys_factory_model() && R::obeys_model() ==> (r is Ok ==> old(reader).remaining().len() >= value_size
                && final(reader).remaining() == old(reader).remaining().skip(value_size as int)
                && final(self).spec_decodes(old(reader).remaining().take(value_size as int))),
            R::obeys_model() ==> (old(reader).remaining().len() < value_size ==> r is Err),
            R::obeys_model() ==> (spec_decode_from_bytes(old(reader).remaining()) matches Ok((c, n)) ==> (n
                <= value_size && c > value_size ==> r == Err::<(), ErrorKind>(ErrorKind::CorruptedData))),
            R::obeys_model() && value_size == 1 && old(reader).remaining().len() >= 1 && old(reader).remaining()[0]
                == 0 ==> r is Ok && final(self).items().len() == 0,
    {
        let ghost rem0 = reader.remaining();
        let (count, n) = deserialize_count(reader, value_size)?;
        if count > value_size as u64 {
            return Err(ErrorKind::CorruptedData);
        }
        let bytes = deserialize_bytes(value_size - n, reader)?;
        let mut br = ByteArrayReader::new(bytes.as_slice());
        let ghost body = br.remaining();
        let items = deserialize_tags(factory, count, &mut br)?;
        if br.available() != 0 {
            return Err(ErrorKind::CorruptedData);
        }
        proof {
            if R::obeys_model() {
                let v = rem0.take(value_size as int);
                lemma_decode_prefix(rem0, value_size as int);
                assert(v.skip(n as int) =~= body);
                assert(body.take(body.len() as int) =~= body);
                assert(reader.remaining() =~= rem0.skip(value_size as int));
            }
        }
        self.inner.value = items;
        Ok(())
    }
}

/// Reads the ILInt that opens a value of `value_size` bytes, the number of
/// entries that follow, and the number of bytes it took. It fails, reading
/// at most its first byte, when the ILInt does not fit in `value_size`.
fn deserialize_count<R: Reader>(reader: &mut R, value_size: usize) -> (r: Result<(u64, usize)>)
    ensures
        r matches Ok((c, n)) ==> n <= value_size,
        R::obeys_model() ==> (r matches Ok((c, n)) ==> n <= value_size && spec_decode_from_bytes(old(reader).remaining())
            == Ok::<(u64, nat), crate::ilint::ErrorKind>((c, n as nat)) && final(reader).remaining()
            == old(reader).remaining().skip(n as int)),
        R::obeys_model() ==> (spec_decode_from_bytes(old(reader).remaining()) matches Ok((c, n)) ==> (n <= value_size
            ==> r == Ok::<(u64, usize), ErrorKind>((c, n as usize)))),
{
    if value_size == 0 {
        return Err(ErrorKind::IOError(crate::io::ErrorKind::UnableToReadData));
    }
    let header = match reader.read() {
        Ok(b) => b,
        Err(e) => return Err(ErrorKind::IOError(e)),
    };
    proof {
        if R::obeys_model() {
            assert(seq![header] + reader.remaining() =~= old(reader).remaining());
        }
    }
    let size = crate::ilint::decoded_size(header);
    if size > value_size {
        return Err(ErrorKind::IOError(crate::io::ErrorKind::UnableToReadData));
    }
    match crate::ilint::decode_rest(header, reader) {
        Ok(v) => Ok((v, size)),
        Err(crate::ilint::ErrorKind::IOError(e)) => Err(ErrorKind::IOError(e)),
        Err(_) => Err(ErrorKind::IOError(crate::io::ErrorKind::CorruptedData)),
    }
}

impl Default for ILTagArrayTag {
    fn default() -> (r: Self)
        ensures
            r.spec_id() == IL_ILTAGARRAY_TAG_ID,
            r.items() == Seq::<ILAnyTag>::empty(),
    {
        Self::new()
    }
}

impl DefaultWithId for ILTagArrayTag {
    fn default_with_id(id: u64) -> (r: Self) {
        Self::with_id(id)
    }
}

//=============================================================================
// ILByteArrayTag
//-----------------------------------------------------------------------------
/// The standard byte array tag: its value is the bytes as they are.
///
/// Its default id is `IL_BYTES_TAG_ID`.
pub struct ILByteArrayTag {
    inner: ILRawTag,
}

impl ILByteArrayTag {
    /// Creates an empty tag.
    pub fn new() -> (r: Self)
        ensures
            r.spec_id() == IL_BYTES_TAG_ID,
            r.spec_value() == Seq::<u8>::empty(),
    {
        Self { inner: ILRawTag::new(IL_BYTES_TAG_ID) }
    }

    /// Creates an empty tag with the given capacity.
    pub fn with_capacity(capacity: usize) -> (r: Self)
        ensures
            r.spec_id() == IL_BYTES_TAG_ID,
            r.spec_value() == Seq::<u8>::empty(),
    {
        Self { inner: ILRawTag::with_capacity(IL_BYTES_TAG_ID, capacity) }
    }

    /// Creates a tag with the given value.
    pub fn with_value(value: &[u8]) -> (r: Self)
        ensures
            r.spec_id() == IL_BYTES_TAG_ID,
            r.spec_value() == value@,
    {
        Self { inner: ILRawTag::with_value(IL_BYTES_TAG_ID, value) }
    }

    /// Returns the value.
    pub fn value(&self) -> (r: &Vec<u8>)
        ensures
            r@ == self.spec_value(),
    {
        self.inner.value()
    }

    /// Returns the value for modification.
    pub fn mut_value(&mut self) -> (r: &mut Vec<u8>)
        ensures
            r@ == old(self).spec_value(),
            final(self).spec_id() == old(self).spec_id(),
            final(self).spec_value() == final(r)@,
    {
        self.inner.mut_value()
    }
}

impl ILByteArrayTag {
    /// True when the value bytes `value` deserialize into this tag.
    pub closed spec fn decodes(&self, value: Seq<u8>) -> bool {
        self.inner.decodes(value)
    }
}

impl ILTag for ILByteArrayTag {
    open spec fn obeys_tag_model() -> bool {
        true
    }

    open spec fn spec_serializes(&self) -> bool {
        true
    }

    closed spec fn spec_id(&self) -> u64 {
        self.inner.spec_id()
    }

    closed spec fn spec_value(&self) -> Seq<u8> {
        self.inner.spec_value()
    }

    open spec fn spec_decodes(&self, value: Seq<u8>) -> bool {
        self.decodes(value)
    }

    fn id(&self) -> (r: u64) {
        self.inner.id()
    }

    fn value_size(&self) -> (r: u64) {
        self.inner.value_size()
    }

    fn serialize_value<W: Writer>(&self, writer: &mut W) -> (r: Result<()>)
        ensures
            r matches Err(e) ==> e is IOError,
            crate::io::writes_exactly(*old(writer), *final(writer), self.spec_value(), r is Ok),
    {
        self.inner.serialize_value(writer)
    }

    /// Reads `value_size` bytes as the value.
    fn deserialize_value<F: ILTagFactory, R: Reader>(
        &mut self,
        factory: &F,
        value_size: usize,
        reader: &mut R,
    ) -> (r: Result<()>)
        ensures
            R::obeys_model() ==> (r is Ok <==> old(reader).remaining().len() >= value_size),
            r matches Err(e) ==> e is IOError,
            R::obeys_model() ==> (r is Ok ==> final(self).spec_value() == old(reader).remaining().take(value_size as int)
                && final(reader).remaining() == old(reader).remaining().skip(value_size as int)),
    {
        self.inner.deserialize_value(factory, value_size, reader)
    }
}

impl Default for ILByteArrayTag {
    fn default() -> (r: Self)
        ensures
            r.spec_id() == IL_BYTES_TAG_ID,
            r.spec_value() == Seq::<u8>::empty(),
    {
        Self::new()
    }
}

//=============================================================================
// ILBigIntTag
//-----------------------------------------------------------------------------
/// The standard big integer tag: its value is the integer in big-endian
/// two's complement, held as bytes.
///
/// Its default id is `IL_BINT_TAG_ID`.
pub struct ILBigIntTag {
    inner: ILRawTag,
}

impl ILBigIntTag {
    /// Creates an empty tag.
    pub fn new() -> (r: Self)
        ensures
            r.spec_id() == IL_BINT_TAG_ID,
            r.spec_value() == Seq::<u8>::empty(),
    {
        Self { inner: ILRawTag::new(IL_BINT_TAG_ID) }
    }

    /// Creates a tag with the given value.
    pub fn with_value(value: &[u8]) -> (r: Self)
        ensures
            r.spec_id() == IL_BINT_TAG_ID,
            r.spec_value() == value@,
    {
        Self { inner: ILRawTag::with_value(IL_BINT_TAG_ID, value) }
    }

    /// Returns the value.
    pub fn value(&self) -> (r: &Vec<u8>)
        ensures
            r@ == self.spec_value(),
    {
        self.inner.value()
    }

    /// Returns the value for modification.
    pub fn mut_value(&mut self) -> (r: &mut Vec<u8>)
        ensures
            r@ == old(self).spec_value(),
            final(self).spec_id() == old(self).spec_id(),
            final(self).spec_value() == final(r)@,
    {
        self.inner.mut_value()
    }
}

impl ILBigIntTag {
    /// True when the value bytes `value` deserialize into this tag.
    pub closed spec fn decodes(&self, value: Seq<u8>) -> bool {
        self.inner.decodes(value)
    }
}

impl ILTag for ILBigIntTag {
    open spec fn obeys_tag_model() -> bool {
        true
    }

    open spec fn spec_serializes(&self) -> bool {
        true
    }

    closed spec fn spec_id(&self) -> u64 {
        self.inner.spec_id()
    }

    closed spec fn spec_value(&self) -> Seq<u8> {
        self.inner.spec_value()
    }

    open spec fn spec_decodes(&self, value: Seq<u8>) -> bool {
        self.decodes(value)
    }

    fn id(&self) -> (r: u64) {
        self.inner.id()
    }

    fn value_size(&self) -> (r: u64) {
        self.inner.value_size()
    }

    fn serialize_value<W: Writer>(&self, writer: &mut W) -> (r: Result<()>)
        ensures
            r matches Err(e) ==> e is IOError,
            crate::io::writes_exactly(*old(writer), *final(writer), self.spec_value(), r is Ok),
    {
        self.inner.serialize_value(writer)
    }

    /// Reads `value_size` bytes as the value.
    fn deserialize_value<F: ILTagFactory, R: Reader>(
        &mut self,
        factory: &F,
        value_size: usize,
        reader: &mut R,
    ) -> (r: Result<()>)
        ensures
            R::obeys_model() ==> (r is Ok <==> old(reader).remaining().len() >= value_size),
            r matches Err(e) ==> e is IOError,
            R::obeys_model() ==> (r is Ok ==> final(self).spec_value() == old(reader).remaining().take(value_size as int)
                && final(reader).remaining() == old(reader).remaining().skip(value_size as int)),
    {
        self.inner.deserialize_value(factory, value_size, reader)
    }
}

impl Default for ILBigIntTag {
    fn default() -> (r: Self)
        ensures
            r.spec_id() == IL_BINT_TAG_ID,
            r.spec_value() == Seq::<u8>::empty(),
    {
        Self::new()
    }
}

//=============================================================================
// ILStringTag
//-----------------------------------------------------------------------------
/// The standard string tag: its value is the UTF-8 encoding of the string.
///
/// Its default id is `IL_STRING_TAG_ID`.
pub struct ILStringTag {
    id: u64,
    value: String,
}

impl View for ILStringTag {
    type V = Seq<char>;

    closed spec fn view(&self) -> Seq<char> {
        self.value@
    }
}

impl ILDictTag {
    /// Deserializing the value of a dictionary gives back its entries: the
    /// value holds a key frame and a value frame for each entry, and putting
    /// them in order into an empty dictionary gives the entries. Keys must
    /// take at most `MAX_TAG_SIZE` bytes.
    pub proof fn lemma_entries_roundtrip(self)
        requires
            self.wf(),
            dict_entries_fit(self.entries()),
            self.entries().len() <= u64::MAX,
        ensures
            dict_value_holds(self.spec_value(), self.entries()),
    {
        let e = self.entries();
        assert forall|i: int| 0 <= i < self.value@.len() implies encode_utf8(#[trigger] self.value@[i].0@).len()
            <= MAX_TAG_SIZE && any_value(self.value@[i].1).len() <= u64::MAX by {
            assert(e[i] == (self.value@[i].0@, self.value@[i].1));
            assert(encode_utf8(e[i].0).len() <= MAX_TAG_SIZE);
        }
        lemma_dict_value_entries(self.value@, self.value@.len() as u64);
    }
}

#[verifier::spinoff_prover]
#[verifier::rlimit(60)]
proof fn lemma_dict_value_entries(pairs: Seq<(String, ILAnyTag)>, count: u64)
    requires
        count == pairs.len(),
        keys_sorted(entry_keys(pair_entries(pairs))),
        dict_pairs_fit(pairs),
    ensures
        dict_value_holds(spec_encode(count) + dict_entries_bytes(pairs), pair_entries(pairs)),
{
    let e = pair_entries(pairs);
    let body = dict_entries_bytes(pairs);
    let v = spec_encode(count) + body;
    crate::ilint::lemma_encode_decode(count, body);
    crate::ilint::lemma_encode_len(count);
    let n = spec_decode_from_bytes(v)->Ok_0.1;
    assert(n == spec_encode(count).len());
    assert(v.skip(n as int) =~= body);
    lemma_dict_frames_of(pairs);
    lemma_entries_from_sorted(e);
    assert(e.len() == count);
    assert(dict_frames(v.skip(n as int), e, dict_lens(pairs)));
    assert(e == entries_from_pairs(e));
}

impl ILStrDictTag {
    /// Deserializing the value of a string dictionary gives back its
    /// entries, when no key or value takes more than `MAX_TAG_SIZE` bytes.
    pub proof fn lemma_entries_roundtrip(self)
        requires
            self.wf(),
            str_entries_fit(self.entries()),
            self.entries().len() <= u64::MAX,
        ensures
            str_dict_entries(self.spec_value()) == self.entries(),
    {
        let e = self.entries();
        assert(e.len() == self.value@.len());
        lemma_str_dict_value_entries(e, self.value@.len() as u64);
    }
}

#[verifier::spinoff_prover]
#[verifier::rlimit(40)]
proof fn lemma_str_dict_value_entries(e: Seq<(Seq<char>, Seq<char>)>, count: u64)
    requires
        count == e.len(),
        keys_sorted(entry_keys(e)),
        str_entries_fit(e),
    ensures
        str_dict_entries(spec_encode(count) + str_entries_bytes(e)) == e,
{
    let v = spec_encode(count) + str_entries_bytes(e);
    let body = str_entries_bytes(e);
    crate::ilint::lemma_encode_decode(count, body);
    crate::ilint::lemma_encode_len(count);
    let n = spec_encode(count).len();
    assert(v.skip(n as int) =~= body + Seq::<u8>::empty());
    lemma_string_pairs_of(e, Seq::<u8>::empty());
    lemma_entries_from_sorted(e);
}

impl ILStringTag {
    /// Creates a tag with the default id and an empty string.
    pub fn new() -> (r: Self)
        ensures
            r.spec_id() == IL_STRING_TAG_ID,
            r@ == Seq::<char>::empty(),
    {
        Self::with_id(IL_STRING_TAG_ID)
    }

    /// Creates a tag with the given id and an empty string.
    pub fn with_id(id: u64) -> (r: Self)
        ensures
            r.spec_id() == id,
            r@ == Seq::<char>::empty(),
    {
        Self { id, value: String::new() }
    }

    /// Creates a tag with the default id and the given string.
    pub fn with_value(value: &str) -> (r: Self)
        ensures
            r.spec_id() == IL_STRING_TAG_ID,
            r@ == value@,
    {
        Self::with_id_value(IL_STRING_TAG_ID, value)
    }

    /// Creates a tag with the given id and string.
    pub fn with_id_value(id: u64, value: &str) -> (r: Self)
        ensures
            r.spec_id() == id,
            r@ == value@,
    {
        Self { id, value: value.to_owned() }
    }

    /// Returns the string.
    pub fn value(&self) -> (r: &String)
        ensures
            r@ == self@,
    {
        &self.value
    }

    /// Returns the string for modification.
    pub fn mut_value(&mut self) -> (r: &mut String)
        ensures
            r@ == old(self)@,
            final(self).spec_id() == old(self).spec_id(),
            final(self)@ == final(r)@,
    {
        &mut self.value
    }

    /// Replaces the string.
    pub fn set_value(&mut self, value: &str)
        ensures
            final(self).spec_id() == old(self).spec_id(),
            final(self)@ == value@,
    {
        self.value = value.to_owned();
    }

    /// True when the value bytes `value` deserialize into this tag.
    pub closed spec fn decodes(&self, value: Seq<u8>) -> bool {
        valid_utf8(value) && self.value@ == decode_utf8(value)
    }
}

impl ILTag for ILStringTag {
    open spec fn obeys_tag_model() -> bool {
        true
    }

    open spec fn spec_serializes(&self) -> bool {
        true
    }

    closed spec fn spec_id(&self) -> u64 {
        self.id
    }

    closed spec fn spec_value(&self) -> Seq<u8> {
        encode_utf8(self.value@)
    }

    open spec fn spec_decodes(&self, value: Seq<u8>) -> bool {
        self.decodes(value)
    }

    fn id(&self) -> (r: u64) {
        self.id
    }

    fn value_size(&self) -> (r: u64) {
        self.value.as_str().as_bytes().len() as u64
    }

    fn serialize_value<W: Writer>(&self, writer: &mut W) -> (r: Result<()>)
        ensures
            r matches Err(e) ==> e is IOError,
            crate::io::writes_exactly(*old(writer), *final(writer), self.spec_value(), r is Ok),
    {
        serialize_bytes(self.value.as_str().as_bytes(), writer)
    }

    /// Reads `value_size` bytes, which must be valid UTF-8.
    fn deserialize_value<F: ILTagFactory, R: Reader>(
        &mut self,
        factory: &F,
        value_size: usize,
        reader: &mut R,
    ) -> (r: Result<()>)
        ensures
            R::obeys_model() ==> (old(reader).remaining().len() < value_size ==> r matches Err(ErrorKind::IOError(_))),
            R::obeys_model() ==> (old(reader).remaining().len() >= value_size ==> (r is Ok <==> valid_utf8(
                old(reader).remaining().take(value_size as int),
            ))),
            R::obeys_model() ==> (old(reader).remaining().len() >= value_size && r is Err ==> r == Err::<(), ErrorKind>(
                ErrorKind::CorruptedData,
            )),
            R::obeys_model() ==> (r is Ok ==> final(self)@ == decode_utf8(old(reader).remaining().take(value_size as int))
                && final(reader).remaining() == old(reader).remaining().skip(value_size as int)),
    {
        let bytes = deserialize_bytes(value_size, reader)?;
        match string_from_utf8(bytes.as_slice()) {
            Some(s) => {
                self.value = s;
                proof {
                    if R::obeys_model() {
                        assert(reader.remaining().len() == old(reader).remaining().len() - value_size);
                    }
                }
                Ok(())
            },
            None => Err(ErrorKind::CorruptedData),
        }
    }
}

impl Default for ILStringTag {
    fn default() -> (r: Self)
        ensures
            r.spec_id() == IL_STRING_TAG_ID,
            r@ == Seq::<char>::empty(),
    {
        Self::new()
    }
}

impl DefaultWithId for ILStringTag {
    fn default_with_id(id: u64) -> (r: Self) {
        Self::with_id(id)
    }
}

/// The serialization of a standard string tag holding `s`.
pub open spec fn string_tag_bytes(s: Seq<char>) -> Seq<u8> {
    spec_tag_bytes(IL_STRING_TAG_ID, encode_utf8(s))
}

/// A string tag of the standard id serializes as the string tag of its
/// string: its size is `string_tag_size_from_value` of its string, and its
/// bytes are those `serialize_string_tag_from_value` writes.
pub proof fn lemma_string_tag_bytes(t: ILStringTag)
    requires
        t.spec_id() == IL_STRING_TAG_ID,
    ensures
        spec_tag_bytes(t.spec_id(), t.spec_value()) == string_tag_bytes(t@),
{
}

/// What the serialized standard string tag at the start of `bytes` holds,
/// and its size; `None` when `bytes` does not start with one.
pub open spec fn string_frame(bytes: Seq<u8>) -> Option<(Seq<char>, nat)> {
    match spec_decode_from_bytes(bytes) {
        Ok((id, n1)) => if id != IL_STRING_TAG_ID {
            None
        } else {
            match spec_decode_from_bytes(bytes.skip(n1 as int)) {
                Ok((size, n2)) => if size > MAX_TAG_SIZE || n1 + n2 + size > bytes.len()
                    || !valid_utf8(bytes.subrange((n1 + n2) as int, (n1 + n2 + size) as int)) {
                    None
                } else {
                    Some((decode_utf8(bytes.subrange((n1 + n2) as int, (n1 + n2 + size) as int)), (n1 + n2 + size) as nat))
                },
                Err(_) => None,
            }
        },
        Err(_) => None,
    }
}

/// The number of bytes that `k` string tags take at the start of `bytes`,
/// when they are all well formed.
pub open spec fn string_frames_span(bytes: Seq<u8>, k: nat) -> Option<nat>
    decreases k,
{
    if k == 0 {
        Some(0)
    } else {
        match string_frame(bytes) {
            Some((_, n)) => span_shift(string_frames_span(bytes.skip(n as int), (k - 1) as nat), n),
            None => None,
        }
    }
}

proof fn lemma_string_frames_step(b: Seq<u8>, k: nat)
    requires
        k > 0,
    ensures
        string_frame(b) is None ==> string_frames_span(b, k) is None,
        string_frame(b) matches Some((_, n)) ==> string_frames_span(b, k) == span_shift(
            string_frames_span(b.skip(n as int), (k - 1) as nat),
            n,
        ),
{
}

/// What deserializing the string dictionary value `v` gives: success when
/// it is an ILInt count followed by twice that many string tags (keys and
/// values) that take all the bytes left; `CorruptedData` when bytes are
/// left over; an error when the count or a string tag is not well formed.
pub open spec fn str_dict_outcome(v: Seq<u8>, r: Result<()>) -> bool {
    match spec_decode_from_bytes(v) {
        Ok((count, n)) => match string_frames_span(v.skip(n as int), 2 * count as nat) {
            Some(m) => if n + m == v.len() {
                r is Ok
            } else {
                r == Err::<(), ErrorKind>(ErrorKind::CorruptedData)
            },
            None => r is Err,
        },
        Err(_) => r matches Err(ErrorKind::IOError(_)),
    }
}

/// The error that reading a string tag out of `bytes` reports when
/// `string_frame` refuses them: an I/O error for a cut or malformed ILInt
/// or a value cut short, `CorruptedData` for another id or a value that is
/// not UTF-8, `TagTooLarge` for a size above `MAX_TAG_SIZE`.
pub open spec fn string_frame_failure(bytes: Seq<u8>, r: Result<()>) -> bool {
    if spec_truncated(bytes) {
        r matches Err(ErrorKind::IOError(_))
    } else {
        match spec_decode_from_bytes(bytes) {
            Err(_) => r matches Err(ErrorKind::IOError(_)),
            Ok((id, n1)) => if id != IL_STRING_TAG_ID {
                r == Err::<(), ErrorKind>(ErrorKind::CorruptedData)
            } else if spec_truncated(bytes.skip(n1 as int)) {
                r matches Err(ErrorKind::IOError(_))
            } else {
                match spec_decode_from_bytes(bytes.skip(n1 as int)) {
                    Err(_) => r matches Err(ErrorKind::IOError(_)),
                    Ok((size, n2)) => if size > MAX_TAG_SIZE {
                        r == Err::<(), ErrorKind>(ErrorKind::TagTooLarge)
                    } else if n1 + n2 + size > bytes.len() {
                        r matches Err(ErrorKind::IOError(_))
                    } else {
                        r is Ok || r == Err::<(), ErrorKind>(ErrorKind::CorruptedData)
                    },
                }
            },
        }
    }
}

/// The key-value pairs that `k` pairs of string tags at the start of
/// `bytes` hold, in order, as far as they are well formed.
pub open spec fn string_pairs(bytes: Seq<u8>, k: nat) -> Seq<(Seq<char>, Seq<char>)>
    decreases k,
{
    if k == 0 {
        Seq::empty()
    } else {
        match string_frame(bytes) {
            Some((key, n1)) => match string_frame(bytes.skip(n1 as int)) {
                Some((val, n2)) => seq![(key, val)] + string_pairs(bytes.skip((n1 + n2) as int), (k - 1) as nat),
                None => Seq::empty(),
            },
            None => Seq::empty(),
        }
    }
}

proof fn lemma_string_pairs_step(b: Seq<u8>, k: nat, n1: nat, n2: nat)
    requires
        k > 0,
        string_frame(b) matches Some((_, m)) && m == n1,
        string_frame(b.skip(n1 as int)) matches Some((_, m)) && m == n2,
    ensures
        string_pairs(b, k) == seq![(string_frame(b)->Some_0.0, string_frame(b.skip(n1 as int))->Some_0.0)]
            + string_pairs(b.skip((n1 + n2) as int), (k - 1) as nat),
{
}

/// No key or value of `e` takes more than `MAX_TAG_SIZE` bytes, so that
/// their string tags can be read back.
pub open spec fn str_entries_fit(e: Seq<(Seq<char>, Seq<char>)>) -> bool {
    forall|i: int|
        0 <= i < e.len() ==> encode_utf8(#[trigger] e[i].0).len() <= MAX_TAG_SIZE && encode_utf8(e[i].1).len()
            <= MAX_TAG_SIZE
}

/// Reading a string tag back out of what `serialize_string_tag_from_value`
/// writes for `s`, whatever follows it, gives `s` and consumes exactly the
/// tag.
#[verifier::spinoff_prover]
#[verifier::rlimit(40)]
pub proof fn lemma_string_frame_of(s: Seq<char>, rest: Seq<u8>)
    requires
        encode_utf8(s).len() <= MAX_TAG_SIZE,
    ensures
        string_frame(string_tag_bytes(s) + rest) == Some((s, string_tag_bytes(s).len())),
{
    let u = encode_utf8(s);
    let a = spec_encode(IL_STRING_TAG_ID);
    let b = spec_encode(u.len() as u64);
    let bytes = string_tag_bytes(s) + rest;
    crate::ilint::lemma_encode_len(IL_STRING_TAG_ID);
    crate::ilint::lemma_encode_len(u.len() as u64);
    assert(bytes =~= a + (b + u + rest));
    crate::ilint::lemma_encode_decode(IL_STRING_TAG_ID, b + u + rest);
    let n1 = a.len();
    assert(bytes.skip(n1 as int) =~= b + (u + rest));
    crate::ilint::lemma_encode_decode(u.len() as u64, u + rest);
    let n2 = b.len();
    assert(bytes.subrange((n1 + n2) as int, (n1 + n2 + u.len()) as int) =~= u);
    crate::io::data::lemma_string_roundtrip(s);
}

#[verifier::spinoff_prover]
#[verifier::rlimit(40)]
proof fn lemma_str_entries_bytes_front(e: Seq<(Seq<char>, Seq<char>)>)
    requires
        e.len() > 0,
    ensures
        str_entries_bytes(e) == string_tag_bytes(e[0].0) + string_tag_bytes(e[0].1) + str_entries_bytes(e.drop_first()),
    decreases e.len(),
{
    if e.len() == 1 {
        let none = Seq::<(Seq<char>, Seq<char>)>::empty();
        assert(e.drop_last() =~= none);
        assert(e.drop_first() =~= none);
        assert(str_entries_bytes(none) == Seq::<u8>::empty());
        assert(e.last() == e[0]);
        assert(str_entries_bytes(e) == str_entries_bytes(e.drop_last()) + string_tag_bytes(e.last().0)
            + string_tag_bytes(e.last().1));
        assert(str_entries_bytes(e) =~= string_tag_bytes(e[0].0) + string_tag_bytes(e[0].1) + str_entries_bytes(none));
    } else {
        lemma_str_entries_bytes_front(e.drop_last());
        assert(e.drop_last().drop_first() =~= e.drop_first().drop_last());
        assert(e.drop_first().last() == e.last());
        assert(e.drop_last()[0] == e[0]);
        let k = string_tag_bytes(e[0].0);
        let v = string_tag_bytes(e[0].1);
        let m = str_entries_bytes(e.drop_first().drop_last());
        let l = string_tag_bytes(e.last().0) + string_tag_bytes(e.last().1);
        assert(str_entries_bytes(e) =~= k + v + m + string_tag_bytes(e.last().0) + string_tag_bytes(e.last().1));
        assert(str_entries_bytes(e.drop_first()) =~= m + string_tag_bytes(e.last().0) + string_tag_bytes(e.last().1));
        assert(str_entries_bytes(e) =~= k + v + str_entries_bytes(e.drop_first()));
    }
}

#[verifier::spinoff_prover]
#[verifier::rlimit(40)]
proof fn lemma_string_pairs_of(e: Seq<(Seq<char>, Seq<char>)>, rest: Seq<u8>)
    requires
        str_entries_fit(e),
    ensures
        string_pairs(str_entries_bytes(e) + rest, e.len()) == e,
    decreases e.len(),
{
    if e.len() == 0 {
        assert(string_pairs(str_entries_bytes(e) + rest, 0) =~= e);
    } else {
        lemma_str_entries_bytes_front(e);
        let k = string_tag_bytes(e[0].0);
        let v = string_tag_bytes(e[0].1);
        let tail = str_entries_bytes(e.drop_first()) + rest;
        let bytes = str_entries_bytes(e) + rest;
        assert(encode_utf8(e[0].0).len() <= MAX_TAG_SIZE);
        assert(bytes =~= k + (v + tail));
        lemma_string_frame_of(e[0].0, v + tail);
        assert(bytes.skip(k.len() as int) =~= v + tail);
        lemma_string_frame_of(e[0].1, tail);
        assert(bytes.skip((k.len() + v.len()) as int) =~= tail);
        assert forall|i: int| 0 <= i < e.drop_first().len() implies encode_utf8(#[trigger] e.drop_first()[i].0).len()
            <= MAX_TAG_SIZE && encode_utf8(e.drop_first()[i].1).len() <= MAX_TAG_SIZE by {
            assert(e.drop_first()[i] == e[i + 1]);
        }
        lemma_string_pairs_of(e.drop_first(), rest);
        lemma_string_pairs_step(bytes, e.len(), k.len(), v.len());
        assert(e =~= seq![(e[0].0, e[0].1)] + e.drop_first());
    }
}

/// The entries of the string dictionary whose value is `v`: the pairs it
/// holds, put in order into an empty dictionary.
pub open spec fn str_dict_entries(v: Seq<u8>) -> Seq<(Seq<char>, Seq<char>)> {
    match spec_decode_from_bytes(v) {
        Ok((count, n)) => entries_from_pairs(string_pairs(v.skip(n as int), count as nat)),
        Err(_) => Seq::empty(),
    }
}

/// A string tag that starts `s` is read the same out of any prefix of `s`
/// that holds it.
proof fn lemma_string_frame_prefix(s: Seq<u8>, m: int)
    requires
        string_frame(s) matches Some((_, n)) && n <= m <= s.len(),
    ensures
        string_frame(s.take(m)) == string_frame(s),
{
    let (_, n1) = spec_decode_from_bytes(s)->Ok_0;
    lemma_decode_prefix(s, m);
    assert(s.take(m).skip(n1 as int) =~= s.skip(n1 as int).take(m - n1));
    lemma_decode_prefix(s.skip(n1 as int), m - n1);
    let (size, n2) = spec_decode_from_bytes(s.skip(n1 as int))->Ok_0;
    assert(s.take(m).subrange((n1 + n2) as int, (n1 + n2 + size) as int) =~= s.subrange(
        (n1 + n2) as int,
        (n1 + n2 + size) as int,
    ));
}

/// Computes the size of the standard string tag holding `s`.
pub fn string_tag_size_from_value(s: &str) -> (r: u64)
    requires
        string_tag_bytes(s@).len() <= u64::MAX,
    ensures
        r == string_tag_bytes(s@).len(),
{
    let len = s.as_bytes().len() as u64;
    proof {
        crate::ilint::lemma_encode_len(len);
        crate::ilint::lemma_encode_len(IL_STRING_TAG_ID);
        assert(crate::ilint::spec_encoded_size(IL_STRING_TAG_ID) == 1);
    }
    1 + crate::ilint::encoded_size(len) as u64 + len
}

/// Serializes `s` as a standard string tag.
pub fn serialize_string_tag_from_value<W: Writer>(s: &str, writer: &mut W) -> (r: Result<()>)
    ensures
        crate::io::writes_exactly(*old(writer), *final(writer), string_tag_bytes(s@), r is Ok),
        r matches Err(e) ==> e is IOError,
{
    let bytes = s.as_bytes();
    let ghost w0 = *writer;
    let ghost a = spec_encode(IL_STRING_TAG_ID);
    let ghost b = spec_encode(bytes@.len() as u64);
    proof {
        crate::ilint::lemma_encode_len(IL_STRING_TAG_ID);
        crate::ilint::lemma_encode_len(bytes@.len() as u64);
        assert(string_tag_bytes(s@) =~= a + b + bytes@);
    }
    serialize_ilint(IL_STRING_TAG_ID, writer)?;
    let ghost w1 = *writer;
    serialize_ilint(bytes.len() as u64, writer)?;
    let ghost w2 = *writer;
    proof {
        if W::obeys_model() {
            crate::io::lemma_wrote_chain(w0, w1, w2, a, b);
        }
    }
    let r = serialize_bytes(bytes, writer);
    proof {
        if r is Ok && W::obeys_model() {
            crate::io::lemma_wrote_chain(w0, w2, *writer, a + b, bytes@);
        }
    }
    r
}

/// Reads a standard string tag and puts its string into `output`. The data
/// must start with a string tag whose value is valid UTF-8.
pub fn deserialize_string_tag_from_value_into<R: Reader>(reader: &mut R, output: &mut String) -> (r: Result<()>)
    ensures
        R::obeys_model() ==> (r is Ok <==> string_frame(old(reader).remaining()) is Some),
        R::obeys_model() ==> (string_frame_failure(old(reader).remaining(), r)),
        r is Err ==> final(output)@ == old(output)@,
        R::obeys_model() ==> (r is Ok ==> {
            let (s, n) = string_frame(old(reader).remaining())->Some_0;
            &&& final(output)@ == s
            &&& final(reader).remaining() == old(reader).remaining().skip(n as int)
        }),
{
    let ghost rem0 = reader.remaining();
    let id = deserialize_ilint(reader)?;
    let ghost rem1 = reader.remaining();
    if id != IL_STRING_TAG_ID {
        return Err(ErrorKind::CorruptedData);
    }
    let len = deserialize_ilint(reader)?;
    let ghost rem2 = reader.remaining();
    let usize_len = tag_size_to_usize(len)?;
    let ghost n1 = rem0.len() - rem1.len();
    let ghost n2 = rem1.len() - rem2.len();
    proof {
        if R::obeys_model() {
            assert(spec_decode_from_bytes(rem0)->Ok_0.1 == n1);
            assert(spec_decode_from_bytes(rem1)->Ok_0.1 == n2);
            assert(rem2 =~= rem0.skip(n1 + n2));
        }
    }
    let bytes = deserialize_bytes(usize_len, reader)?;
    proof {
        if R::obeys_model() {
            assert(bytes@ =~= rem0.subrange(n1 + n2, n1 + n2 + len));
            assert(reader.remaining() =~= rem0.skip(n1 + n2 + len));
        }
    }
    match string_from_utf8(bytes.as_slice()) {
        Some(s) => {
            *output = s;
            Ok(())
        },
        None => Err(ErrorKind::CorruptedData),
    }
}

/// Reads a standard string tag and returns its string.
pub fn deserialize_string_tag_from_value<R: Reader>(reader: &mut R) -> (r: Result<String>)
    ensures
        R::obeys_model() ==> (r is Ok <==> string_frame(old(reader).remaining()) is Some),
        R::obeys_model() ==> (r matches Ok(s) ==> {
            let (v, n) = string_frame(old(reader).remaining())->Some_0;
            &&& s@ == v
            &&& final(reader).remaining() == old(reader).remaining().skip(n as int)
        }),
{
    let mut ret = String::new();
    deserialize_string_tag_from_value_into(reader, &mut ret)?;
    Ok(ret)
}

//=============================================================================
// ILBigDecTag
//-----------------------------------------------------------------------------
/// The standard big decimal tag: its value is the scale, a big-endian
/// `i32`, followed by the integral part in big-endian two's complement.
///
/// Its default id is `IL_BDEC_TAG_ID`.
pub struct ILBigDecTag {
    inner: ILRawTag,
    scale: i32,
}

impl ILBigDecTag {
    /// The scale.
    pub closed spec fn spec_scale(&self) -> i32 {
        self.scale
    }

    /// The bytes of the integral part.
    pub closed spec fn spec_integral(&self) -> Seq<u8> {
        self.inner.spec_value()
    }

    /// Creates a tag with the default id, scale 0 and no bytes.
    pub fn new() -> (r: Self)
        ensures
            r.spec_id() == IL_BDEC_TAG_ID,
            r.spec_scale() == 0,
            r.spec_integral() == Seq::<u8>::empty(),
    {
        Self { scale: 0, inner: ILRawTag::new(IL_BDEC_TAG_ID) }
    }

    /// Creates a tag with the given id, scale 0 and no bytes. The id must be
    /// explicit.
    pub fn with_id(id: u64) -> (r: Self)
        requires
            id > IMPLICIT_ID_MAX,
        ensures
            r.spec_id() == id,
            r.spec_scale() == 0,
            r.spec_integral() == Seq::<u8>::empty(),
    {
        Self { scale: 0, inner: ILRawTag::new(id) }
    }

    /// Creates a tag with the default id and the given value.
    pub fn with_value(scale: i32, value: &[u8]) -> (r: Self)
        ensures
            r.spec_id() == IL_BDEC_TAG_ID,
            r.spec_scale() == scale,
            r.spec_integral() == value@,
    {
        Self::with_id_value(IL_BDEC_TAG_ID, scale, value)
    }

    /// Creates a tag with the given id and value. The id must be explicit.
    pub fn with_id_value(id: u64, scale: i32, value: &[u8]) -> (r: Self)
        requires
            id > IMPLICIT_ID_MAX,
        ensures
            r.spec_id() == id,
            r.spec_scale() == scale,
            r.spec_integral() == value@,
    {
        Self { scale, inner: ILRawTag::with_value(id, value) }
    }

    /// Returns the scale.
    pub fn scale(&self) -> (r: i32)
        ensures
            r == self.spec_scale(),
    {
        self.scale
    }

    /// Sets the scale.
    pub fn set_scale(&mut self, scale: i32)
        ensures
            final(self).spec_id() == old(self).spec_id(),
            final(self).spec_scale() == scale,
            final(self).spec_integral() == old(self).spec_integral(),
    {
        self.scale = scale
    }

    /// Returns the bytes of the integral part.
    pub fn value(&self) -> (r: &Vec<u8>)
        ensures
            r@ == self.spec_integral(),
    {
        self.inner.value()
    }

    /// Returns the bytes of the integral part for modification.
    pub fn mut_value(&mut self) -> (r: &mut Vec<u8>)
        ensures
            r@ == old(self).spec_integral(),
            final(self).spec_id() == old(self).spec_id(),
            final(self).spec_scale() == old(self).spec_scale(),
            final(self).spec_integral() == final(r)@,
    {
        self.inner.mut_value()
    }

    /// True when the value bytes `value` deserialize into this tag.
    pub closed spec fn decodes(&self, value: Seq<u8>) -> bool {
        &&& value.len() >= 4
        &&& self.scale == from_twos(crate::ilint::be_value(value.take(4)), 32)
        &&& self.inner.decodes(value.skip(4))
    }
}

impl ILTag for ILBigDecTag {
    open spec fn obeys_tag_model() -> bool {
        true
    }

    open spec fn spec_serializes(&self) -> bool {
        true
    }

    closed spec fn spec_id(&self) -> u64 {
        self.inner.spec_id()
    }

    closed spec fn spec_value(&self) -> Seq<u8> {
        crate::ilint::be_bytes(to_twos(self.scale as int, 32), 4) + self.inner.spec_value()
    }

    open spec fn spec_decodes(&self, value: Seq<u8>) -> bool {
        self.decodes(value)
    }

    fn id(&self) -> (r: u64) {
        self.inner.id()
    }

    fn value_size(&self) -> (r: u64) {
        proof {
            crate::ilint::lemma_be_bytes_len(to_twos(self.scale as int, 32), 4);
        }
        4 + self.inner.value_size()
    }

    fn serialize_value<W: Writer>(&self, writer: &mut W) -> (r: Result<()>)
        ensures
            r matches Err(e) ==> e is IOError,
            crate::io::writes_exactly(*old(writer), *final(writer), self.spec_value(), r is Ok),
    {
        let ghost w0 = *writer;
        let ghost a = crate::ilint::be_bytes(to_twos(self.scale as int, 32), 4);
        let ghost b = self.inner.spec_value();
        match write_i32(self.scale, writer) {
            Ok(()) => (),
            Err(e) => {
                proof {
                    crate::io::lemma_writes_failed(w0, *writer, a, a + b);
                }
                return Err(ErrorKind::IOError(e));
            },
        }
        proof {
            crate::ilint::lemma_be_bytes_len(to_twos(self.scale as int, 32), 4);
        }
        let ghost w1 = *writer;
        let r = self.inner.serialize_value(writer);
        proof {
            crate::io::lemma_writes_chain(w0, w1, *writer, a, b, r is Ok);
            if r is Ok {
                assert(W::obeys_model() ==> final(writer).written() =~= old(writer).written() + self.spec_value());
            }
        }
        r
    }

    /// Reads the scale, then `value_size - 4` bytes of integral part.
    fn deserialize_value<F: ILTagFactory, R: Reader>(
        &mut self,
        factory: &F,
        value_size: usize,
        reader: &mut R,
    ) -> (r: Result<()>)
        ensures
            value_size < 4 ==> r == Err::<(), ErrorKind>(ErrorKind::CorruptedData),
            R::obeys_model() ==> (value_size >= 4 ==> (r is Ok <==> old(reader).remaining().len() >= value_size)),
            R::obeys_model() ==> (r is Ok ==> final(self).spec_scale() == from_twos(crate::ilint::be_value(old(reader).remaining().take(4)), 32)
                && final(self).spec_integral() == old(reader).remaining().subrange(4, value_size as int)
                && final(reader).remaining() == old(reader).remaining().skip(value_size as int)),
    {
        if value_size < 4 {
            return Err(ErrorKind::CorruptedData);
        }
        let ghost rem0 = reader.remaining();
        self.scale = match read_i32(reader) {
            Ok(v) => v,
            Err(e) => return Err(ErrorKind::IOError(e)),
        };
        let ghost rem1 = reader.remaining();
        self.inner.deserialize_value(factory, value_size - 4, reader)?;
        proof {
            if R::obeys_model() {
                assert(rem1 =~= rem0.skip(4));
                assert(rem0.take(value_size as int).skip(4) =~= rem1.take(value_size - 4));
                assert(rem0.take(value_size as int).take(4) =~= rem0.take(4));
                assert(rem0.subrange(4, value_size as int) =~= rem1.take(value_size - 4));
                assert(reader.remaining() =~= rem0.skip(value_size as int));
            }
        }
        Ok(())
    }
}

impl Default for ILBigDecTag {
    fn default() -> (r: Self)
        ensures
            r.spec_id() == IL_BDEC_TAG_ID,
            r.spec_scale() == 0,
            r.spec_integral() == Seq::<u8>::empty(),
    {
        Self::new()
    }
}

//=============================================================================
// ILILIntArrayTag
//-----------------------------------------------------------------------------
/// The serialization of a list of ILInts, one after the other.
pub open spec fn ilints_bytes(values: Seq<u64>) -> Seq<u8>
    decreases values.len(),
{
    if values.len() == 0 {
        Seq::empty()
    } else {
        ilints_bytes(values.drop_last()) + spec_encode(values.last())
    }
}

/// True when `bytes` holds, one after the other, ILInts (not necessarily
/// of their shortest encoding) with the given values.
pub open spec fn ilints_decode(bytes: Seq<u8>, values: Seq<u64>) -> bool
    decreases values.len(),
{
    if values.len() == 0 {
        bytes.len() == 0
    } else {
        match spec_decode_from_bytes(bytes) {
            Ok((v, n)) => v == values[0] && ilints_decode(bytes.skip(n as int), values.skip(1)),
            Err(_) => false,
        }
    }
}

/// Decoding an ILInt out of `s + t` gives what decoding it out of `s`
/// gives.
proof fn lemma_decode_extend(s: Seq<u8>, t: Seq<u8>)
    requires
        spec_decode_from_bytes(s) is Ok,
    ensures
        spec_decode_from_bytes(s + t) == spec_decode_from_bytes(s),
{
    let st = s + t;
    assert(st[0] == s[0]);
    let size = crate::ilint::spec_decoded_size(s[0]);
    if size > 1 {
        assert(st.subrange(1, size as int) =~= s.subrange(1, size as int));
    }
}

proof fn lemma_ilints_decode_push(c: Seq<u8>, d: Seq<u8>, values: Seq<u64>, x: u64)
    requires
        ilints_decode(c, values),
        spec_decode_from_bytes(d) == Ok::<(u64, nat), crate::ilint::ErrorKind>((x, d.len())),
    ensures
        ilints_decode(c + d, values.push(x)),
    decreases values.len(),
{
    let s = values.push(x);
    if values.len() == 0 {
        assert(s[0] == x);
        assert(c + d =~= d);
        assert(s.skip(1) =~= Seq::<u64>::empty());
        assert(d.skip(d.len() as int) =~= Seq::<u8>::empty());
        assert(ilints_decode(d.skip(d.len() as int), s.skip(1)));
        assert(ilints_decode(d, s));
    } else {
        let (v, n) = spec_decode_from_bytes(c)->Ok_0;
        assert(s[0] == values[0]);
        lemma_decode_extend(c, d);
        assert((c + d).skip(n as int) =~= c.skip(n as int) + d);
        assert(s.skip(1) =~= values.skip(1).push(x));
        lemma_ilints_decode_push(c.skip(n as int), d, values.skip(1), x);
        assert(ilints_decode((c + d).skip(n as int), s.skip(1)));
        assert(spec_decode_from_bytes(c + d) == Ok::<(u64, nat), crate::ilint::ErrorKind>((s[0], n)));
    }
}

proof fn lemma_ilints_bytes_step(values: Seq<u64>, i: int)
    requires
        0 <= i < values.len(),
    ensures
        ilints_bytes(values.take(i + 1)) == ilints_bytes(values.take(i)) + spec_encode(values[i]),
{
    assert(values.take(i + 1).drop_last() =~= values.take(i));
}

proof fn lemma_ilints_bytes_prefix(values: Seq<u64>, i: int)
    requires
        0 <= i <= values.len(),
    ensures
        ilints_bytes(values.take(i)).len() <= ilints_bytes(values).len(),
    decreases values.len(),
{
    if i == values.len() {
        assert(values.take(i) =~= values);
    } else {
        lemma_ilints_bytes_prefix(values.drop_last(), i);
        assert(values.drop_last().take(i) =~= values.take(i));
    }
}

/// The standard ILInt array tag: its value is the number of entries
/// followed by the entries, all as ILInts.
///
/// Its default id is `IL_ILINTARRAY_TAG_ID`.
pub struct ILILIntArrayTag {
    id: u64,
    value: Vec<u64>,
}

impl View for ILILIntArrayTag {
    type V = Seq<u64>;

    closed spec fn view(&self) -> Seq<u64> {
        self.value@
    }
}

impl ILILIntArrayTag {
    /// Creates an empty tag with the default id.
    pub fn new() -> (r: Self)
        ensures
            r.spec_id() == IL_ILINTARRAY_TAG_ID,
            r@ == Seq::<u64>::empty(),
    {
        Self::with_id(IL_ILINTARRAY_TAG_ID)
    }

    /// Creates an empty tag with the given id.
    pub fn with_id(id: u64) -> (r: Self)
        ensures
            r.spec_id() == id,
            r@ == Seq::<u64>::empty(),
    {
        Self { id, value: Vec::new() }
    }

    /// Creates a tag with the default id and the given values.
    pub fn with_value(value: &[u64]) -> (r: Self)
        ensures
            r.spec_id() == IL_ILINTARRAY_TAG_ID,
            r@ == value@,
    {
        Self::with_id_value(IL_ILINTARRAY_TAG_ID, value)
    }

    /// Creates a tag with the given id and values.
    pub fn with_id_value(id: u64, value: &[u64]) -> (r: Self)
        ensures
            r.spec_id() == id,
            r@ == value@,
    {
        Self { id, value: copy_u64s(value) }
    }

    /// Returns the values.
    pub fn value(&self) -> (r: &Vec<u64>)
        ensures
            r@ == self@,
    {
        &self.value
    }

    /// Returns the values for modification.
    pub fn mut_value(&mut self) -> (r: &mut Vec<u64>)
        ensures
            r@ == old(self)@,
            final(self).spec_id() == old(self).spec_id(),
            final(self)@ == final(r)@,
    {
        &mut self.value
    }

    /// Replaces the values.
    pub fn set_value(&mut self, value: &[u64])
        ensures
            final(self).spec_id() == old(self).spec_id(),
            final(self)@ == value@,
    {
        self.value = copy_u64s(value);
    }

    /// True when the value bytes `value` deserialize into this tag.
    pub closed spec fn decodes(&self, value: Seq<u8>) -> bool {
        match spec_decode_from_bytes(value) {
            Ok((count, n)) => count == self.value@.len() && ilints_decode(value.skip(n as int), self.value@),
            Err(_) => false,
        }
    }
}

/// Copies a slice of `u64` into a new vector.
fn copy_u64s(value: &[u64]) -> (r: Vec<u64>)
    ensures
        r@ == value@,
{
    let mut v: Vec<u64> = Vec::with_capacity(value.len());
    let mut i: usize = 0;
    while i < value.len()
        invariant
            i <= value@.len(),
            v@ == value@.take(i as int),
        decreases value@.len() - i,
    {
        v.push(value[i]);
        proof {
            assert(value@.take(i + 1) =~= value@.take(i as int).push(value@[i as int]));
        }
        i = i + 1;
    }
    proof {
        assert(value@.take(i as int) =~= value@);
    }
    v
}

/// The size of the serialization of a list of ILInts.
fn ilints_size(values: &Vec<u64>) -> (r: u64)
    requires
        ilints_bytes(values@).len() <= u64::MAX,
    ensures
        r == ilints_bytes(values@).len(),
{
    let mut size: u64 = 0;
    let mut i: usize = 0;
    while i < values.len()
        invariant
            i <= values@.len(),
            ilints_bytes(values@).len() <= u64::MAX,
            size == ilints_bytes(values@.take(i as int)).len(),
        decreases values@.len() - i,
    {
        proof {
            lemma_ilints_bytes_step(values@, i as int);
            lemma_ilints_bytes_prefix(values@, i + 1);
            crate::ilint::lemma_encode_len(values@[i as int]);
        }
        size = size + crate::ilint::encoded_size(values[i]) as u64;
        i = i + 1;
    }
    proof {
        assert(values@.take(i as int) =~= values@);
    }
    size
}

/// Serializes a list of ILInts, one after the other.
fn ilints_serialize<W: Writer>(values: &Vec<u64>, writer: &mut W) -> (r: Result<()>)
    ensures
        r matches Err(e) ==> e is IOError,
        W::obeys_model() && r is Ok ==> final(writer).written() == old(writer).written() + ilints_bytes(values@),
        crate::io::writes_exactly(*old(writer), *final(writer), ilints_bytes(values@), r is Ok),
{
    let mut i: usize = 0;
    proof {
        crate::io::lemma_writes_nothing(*writer);
        assert(values@.take(0) =~= Seq::<u64>::empty());
    }
    while i < values.len()
        invariant
            i <= values@.len(),
            W::obeys_model() ==> writer.written() == old(writer).written() + ilints_bytes(values@.take(i as int)),
            crate::io::writes_exactly(*old(writer), *writer, ilints_bytes(values@.take(i as int)), true),
        decreases values@.len() - i,
    {
        proof {
            lemma_ilints_bytes_step(values@, i as int);
            lemma_ilints_bytes_prefix_len(values@, i + 1);
        }
        let ghost w0 = *writer;
        let ghost done = ilints_bytes(values@.take(i as int));
        let ghost x = spec_encode(values@[i as int]);
        let r0 = serialize_ilint(values[i], writer);
        proof {
            crate::io::lemma_writes_chain(*old(writer), w0, *writer, done, x, r0 is Ok);
        }
        if r0.is_err() {
            proof {
                crate::io::lemma_writes_failed(*old(writer), *writer, done + x, ilints_bytes(values@));
            }
            return r0;
        }
        proof {
            assert(done + x =~= ilints_bytes(values@.take(i + 1)));
            assert(W::obeys_model() ==> writer.written() =~= old(writer).written() + ilints_bytes(values@.take(i + 1)));
        }
        i = i + 1;
    }
    proof {
        assert(values@.take(i as int) =~= values@);
    }
    Ok(())
}

proof fn lemma_ilints_bytes_prefix_len(values: Seq<u64>, i: int)
    requires
        0 <= i <= values.len(),
    ensures
        ilints_bytes(values.take(i)).len() <= ilints_bytes(values).len(),
    decreases values.len(),
{
    if i == values.len() {
        assert(values.take(i) =~= values);
    } else {
        lemma_ilints_bytes_prefix_len(values.drop_last(), i);
        assert(values.drop_last().take(i) =~= values.take(i));
    }
}

/// The number of bytes that `count` ILInts take at the start of `bytes`,
/// when they are all complete and well formed.
pub open spec fn ilints_span(bytes: Seq<u8>, count: nat) -> Option<nat>
    decreases count,
{
    if count == 0 {
        Some(0)
    } else {
        match spec_decode_from_bytes(bytes) {
            Ok((_, n)) => match ilints_span(bytes.skip(n as int), (count - 1) as nat) {
                Some(m) => Some(n + m),
                None => None,
            },
            Err(_) => None,
        }
    }
}

/// `o` with `k` added to the number it holds.
pub open spec fn span_shift(o: Option<nat>, k: nat) -> Option<nat> {
    match o {
        Some(m) => Some(k + m),
        None => None,
    }
}

proof fn lemma_ilints_span_step(b: Seq<u8>, c: nat)
    requires
        c > 0,
    ensures
        spec_decode_from_bytes(b) is Err ==> ilints_span(b, c) is None,
        spec_decode_from_bytes(b) matches Ok((_, n)) ==> ilints_span(b, c) == span_shift(
            ilints_span(b.skip(n as int), (c - 1) as nat),
            n,
        ),
{
}

/// What deserializing the ILInt array value `v` gives: success when it is
/// an ILInt count, no larger than the size of `v`, followed by exactly that
/// many ILInts that take all the bytes left; `CorruptedData` when the count
/// is larger or bytes are left over; an I/O error when an ILInt is cut
/// short or malformed.
pub open spec fn ilint_array_outcome(v: Seq<u8>, r: Result<()>) -> bool {
    match spec_decode_from_bytes(v) {
        Ok((count, n)) => if count > v.len() {
            r == Err::<(), ErrorKind>(ErrorKind::CorruptedData)
        } else {
            match ilints_span(v.skip(n as int), count as nat) {
                Some(m) => if n + m == v.len() {
                    r is Ok
                } else {
                    r == Err::<(), ErrorKind>(ErrorKind::CorruptedData)
                },
                None => r matches Err(ErrorKind::IOError(_)),
            }
        },
        Err(_) => r matches Err(ErrorKind::IOError(_)),
    }
}

/// Reads `count` ILInts out of `reader`.
#[verifier::rlimit(30)]
fn deserialize_ilints(count: u64, reader: &mut ByteArrayReader) -> (r: Result<Vec<u64>>)
    ensures
        ilints_span(old(reader).remaining(), count as nat) is None ==> r matches Err(ErrorKind::IOError(_)),
        ilints_span(old(reader).remaining(), count as nat) matches Some(m) ==> r is Ok
            && old(reader).remaining().len() - final(reader).remaining().len() == m,
        r matches Ok(values) ==> {
            let n = old(reader).remaining().len() - final(reader).remaining().len();
            &&& values@.len() == count
            &&& 0 <= n <= old(reader).remaining().len()
            &&& final(reader).remaining() == old(reader).remaining().skip(n)
            &&& ilints_decode(old(reader).remaining().take(n), values@)
        },
{
    let mut values: Vec<u64> = Vec::new();
    let ghost start = reader.remaining();
    let ghost mut consumed: Seq<u8> = Seq::empty();
    proof {
        assert(start.skip(0) =~= start);
        assert(start.take(0) =~= consumed);
    }
    let mut i: u64 = 0;
    while i < count
        invariant
            i <= count,
            values@.len() == i,
            consumed == start.take(consumed.len() as int),
            consumed.len() <= start.len(),
            reader.remaining() == start.skip(consumed.len() as int),
            ilints_decode(consumed, values@),
            start == old(reader).remaining(),
            ilints_span(start, count as nat) == span_shift(
                ilints_span(reader.remaining(), (count - i) as nat),
                consumed.len(),
            ),
        decreases count - i,
    {
        let ghost before = reader.remaining();
        proof {
            lemma_ilints_span_step(before, (count - i) as nat);
            if spec_truncated(before) {
                assert(spec_decode_from_bytes(before) is Err);
            }
        }
        let v = deserialize_ilint(reader)?;
        let ghost n = before.len() - reader.remaining().len();
        let ghost next = consumed + before.take(n);
        proof {
            lemma_decode_prefix(before, n);
            lemma_ilints_decode_push(consumed, before.take(n), values@, v);
            assert(next =~= start.take(next.len() as int));
            assert(reader.remaining() =~= start.skip(next.len() as int));
        }
        values.push(v);
        proof {
            consumed = next;
        }
        i = i + 1;
    }
    Ok(values)
}

impl ILTag for ILILIntArrayTag {
    open spec fn obeys_tag_model() -> bool {
        true
    }

    open spec fn spec_serializes(&self) -> bool {
        true
    }

    closed spec fn spec_id(&self) -> u64 {
        self.id
    }

    closed spec fn spec_value(&self) -> Seq<u8> {
        spec_encode(self.value@.len() as u64) + ilints_bytes(self.value@)
    }

    open spec fn spec_decodes(&self, value: Seq<u8>) -> bool {
        self.decodes(value)
    }

    fn id(&self) -> (r: u64) {
        self.id
    }

    fn value_size(&self) -> (r: u64) {
        proof {
            crate::ilint::lemma_encode_len(self.value@.len() as u64);
        }
        crate::ilint::encoded_size(self.value.len() as u64) as u64 + ilints_size(&self.value)
    }

    fn serialize_value<W: Writer>(&self, writer: &mut W) -> (r: Result<()>)
        ensures
            r matches Err(e) ==> e is IOError,
            crate::io::writes_exactly(*old(writer), *final(writer), self.spec_value(), r is Ok),
    {
        let ghost w0 = *writer;
        let ghost a = spec_encode(self.value@.len() as u64);
        let ghost b = ilints_bytes(self.value@);
        proof {
            assert(self.spec_value() =~= a + b);
        }
        let r0 = serialize_ilint(self.value.len() as u64, writer);
        if r0.is_err() {
            proof {
                crate::io::lemma_writes_failed(w0, *writer, a, a + b);
            }
            return r0;
        }
        let ghost w1 = *writer;
        let r = ilints_serialize(&self.value, writer);
        proof {
            crate::io::lemma_writes_chain(w0, w1, *writer, a, b, r is Ok);
        }
        proof {
            if r is Ok {
                assert(W::obeys_model() ==> final(writer).written() =~= old(writer).written() + self.spec_value());
            }
        }
        r
    }

    /// Reads the `value_size` bytes of the value, then the number of
    /// entries, which may not exceed `value_size`, and the entries, which
    /// must take all the bytes left.
    fn deserialize_value<F: ILTagFactory, R: Reader>(
        &mut self,
        factory: &F,
        value_size: usize,
        reader: &mut R,
    ) -> (r: Result<()>)
        ensures
            R::obeys_model() ==> (old(reader).remaining().len() < value_size ==> r matches Err(ErrorKind::IOError(_))),
            R::obeys_model() ==> (old(reader).remaining().len() >= value_size ==> ilint_array_outcome(
                old(reader).remaining().take(value_size as int),
                r,
            )),
            R::obeys_model() ==> (r is Ok ==> old(reader).remaining().len() >= value_size
                && final(reader).remaining() == old(reader).remaining().skip(value_size as int)
                && final(self).decodes(old(reader).remaining().take(value_size as int))),
    {
        let bytes = deserialize_bytes(value_size, reader)?;
        let mut br = ByteArrayReader::new(bytes.as_slice());
        proof {
            if spec_truncated(bytes@) {
                assert(spec_decode_from_bytes(bytes@) is Err);
            }
        }
        let count = deserialize_ilint(&mut br)?;
        if count > value_size as u64 {
            return Err(ErrorKind::CorruptedData);
        }
        let ghost after_count = br.remaining();
        let values = deserialize_ilints(count, &mut br)?;
        if br.available() != 0 {
            return Err(ErrorKind::CorruptedData);
        }
        proof {
            if R::obeys_model() {
                assert(after_count.take(after_count.len() as int) =~= after_count);
                assert(reader.remaining().len() == old(reader).remaining().len() - value_size);
            }
        }
        self.value = values;
        Ok(())
    }
}

impl Default for ILILIntArrayTag {
    fn default() -> (r: Self)
        ensures
            r.spec_id() == IL_ILINTARRAY_TAG_ID,
            r@ == Seq::<u64>::empty(),
    {
        Self::new()
    }
}

impl DefaultWithId for ILILIntArrayTag {
    fn default_with_id(id: u64) -> (r: Self) {
        Self::with_id(id)
    }
}

//=============================================================================
// ILOIDTag
//-----------------------------------------------------------------------------
/// The standard object identifier tag. It is serialized as an ILInt array.
///
/// Its default id is `IL_OID_TAG_ID`.
pub struct ILOIDTag {
    inner: ILILIntArrayTag,
}

impl View for ILOIDTag {
    type V = Seq<u64>;

    closed spec fn view(&self) -> Seq<u64> {
        self.inner@
    }
}

impl ILOIDTag {
    /// Creates an empty tag with the default id.
    pub fn new() -> (r: Self)
        ensures
            r.spec_id() == IL_OID_TAG_ID,
            r@ == Seq::<u64>::empty(),
    {
        Self::with_id(IL_OID_TAG_ID)
    }

    /// Creates an empty tag with the given id.
    pub fn with_id(id: u64) -> (r: Self)
        ensures
            r.spec_id() == id,
            r@ == Seq::<u64>::empty(),
    {
        Self { inner: ILILIntArrayTag::with_id(id) }
    }

    /// Creates a tag with the default id and the given values.
    pub fn with_value(value: &[u64]) -> (r: Self)
        ensures
            r.spec_id() == IL_OID_TAG_ID,
            r@ == value@,
    {
        Self::with_id_value(IL_OID_TAG_ID, value)
    }

    /// Creates a tag with the given id and values.
    pub fn with_id_value(id: u64, value: &[u64]) -> (r: Self)
        ensures
            r.spec_id() == id,
            r@ == value@,
    {
        Self { inner: ILILIntArrayTag::with_id_value(id, value) }
    }

    /// Returns the values.
    pub fn value(&self) -> (r: &Vec<u64>)
        ensures
            r@ == self@,
    {
        self.inner.value()
    }

    /// Returns the values for modification.
    pub fn mut_value(&mut self) -> (r: &mut Vec<u64>)
        ensures
            r@ == old(self)@,
            final(self).spec_id() == old(self).spec_id(),
            final(self)@ == final(r)@,
    {
        self.inner.mut_value()
    }

    /// Replaces the values.
    pub fn set_value(&mut self, value: &[u64])
        ensures
            final(self).spec_id() == old(self).spec_id(),
            final(self)@ == value@,
    {
        self.inner.set_value(value)
    }

    /// True when the value bytes `value` deserialize into this tag.
    pub closed spec fn decodes(&self, value: Seq<u8>) -> bool {
        self.inner.decodes(value)
    }
}

impl ILTag for ILOIDTag {
    open spec fn obeys_tag_model() -> bool {
        true
    }

    open spec fn spec_serializes(&self) -> bool {
        true
    }

    closed spec fn spec_id(&self) -> u64 {
        self.inner.spec_id()
    }

    closed spec fn spec_value(&self) -> Seq<u8> {
        self.inner.spec_value()
    }

    open spec fn spec_decodes(&self, value: Seq<u8>) -> bool {
        self.decodes(value)
    }

    fn id(&self) -> (r: u64) {
        self.inner.id()
    }

    fn value_size(&self) -> (r: u64) {
        self.inner.value_size()
    }

    fn serialize_value<W: Writer>(&self, writer: &mut W) -> (r: Result<()>)
        ensures
            r matches Err(e) ==> e is IOError,
            crate::io::writes_exactly(*old(writer), *final(writer), self.spec_value(), r is Ok),
    {
        self.inner.serialize_value(writer)
    }

    /// Reads the value as an ILInt array does.
    fn deserialize_value<F: ILTagFactory, R: Reader>(
        &mut self,
        factory: &F,
        value_size: usize,
        reader: &mut R,
    ) -> (r: Result<()>)
        ensures
            R::obeys_model() ==> (old(reader).remaining().len() < value_size ==> r matches Err(ErrorKind::IOError(_))),
            R::obeys_model() ==> (old(reader).remaining().len() >= value_size ==> ilint_array_outcome(
                old(reader).remaining().take(value_size as int),
                r,
            )),
            R::obeys_model() ==> (r is Ok ==> old(reader).remaining().len() >= value_size
                && final(reader).remaining() == old(reader).remaining().skip(value_size as int)
                && final(self).decodes(old(reader).remaining().take(value_size as int))),
    {
        self.inner.deserialize_value(factory, value_size, reader)
    }
}

impl Default for ILOIDTag {
    fn default() -> (r: Self)
        ensures
            r.spec_id() == IL_OID_TAG_ID,
            r@ == Seq::<u64>::empty(),
    {
        Self::new()
    }
}

impl DefaultWithId for ILOIDTag {
    fn default_with_id(id: u64) -> (r: Self) {
        Self::with_id(id)
    }
}

//=============================================================================
// ILRangeTag
//-----------------------------------------------------------------------------
/// The standard range tag: its value is the start, an ILInt, followed by
/// the count, a big-endian `u16`.
///
/// Its default id is `IL_RANGE_TAG_ID`.
pub struct ILRangeTag {
    id: u64,
    start: u64,
    count: u16,
}

impl ILRangeTag {
    /// The start of the range.
    pub closed spec fn spec_start(&self) -> u64 {
        self.start
    }

    /// The number of entries of the range.
    pub closed spec fn spec_count(&self) -> u16 {
        self.count
    }

    /// Creates a tag with the default id and an empty range at 0.
    pub fn new() -> (r: Self)
        ensures
            r.spec_id() == IL_RANGE_TAG_ID,
            r.spec_start() == 0,
            r.spec_count() == 0,
    {
        Self::with_id(IL_RANGE_TAG_ID)
    }

    /// Creates a tag with the given id and an empty range at 0.
    pub fn with_id(id: u64) -> (r: Self)
        ensures
            r.spec_id() == id,
            r.spec_start() == 0,
            r.spec_count() == 0,
    {
        Self { id, start: 0, count: 0 }
    }

    /// Creates a tag with the default id and the given range.
    pub fn with_value(start: u64, count: u16) -> (r: Self)
        ensures
            r.spec_id() == IL_RANGE_TAG_ID,
            r.spec_start() == start,
            r.spec_count() == count,
    {
        Self::with_id_value(IL_RANGE_TAG_ID, start, count)
    }

    /// Creates a tag with the given id and range.
    pub fn with_id_value(id: u64, start: u64, count: u16) -> (r: Self)
        ensures
            r.spec_id() == id,
            r.spec_start() == start,
            r.spec_count() == count,
    {
        Self { id, start, count }
    }

    /// Returns the start.
    pub fn start(&self) -> (r: u64)
        ensures
            r == self.spec_start(),
    {
        self.start
    }

    /// Sets the start.
    pub fn set_start(&mut self, start: u64)
        ensures
            final(self).spec_id() == old(self).spec_id(),
            final(self).spec_start() == start,
            final(self).spec_count() == old(self).spec_count(),
    {
        self.start = start;
    }

    /// Returns the count.
    pub fn count(&self) -> (r: u16)
        ensures
            r == self.spec_count(),
    {
        self.count
    }

    /// Sets the count.
    pub fn set_count(&mut self, count: u16)
        ensures
            final(self).spec_id() == old(self).spec_id(),
            final(self).spec_start() == old(self).spec_start(),
            final(self).spec_count() == count,
    {
        self.count = count;
    }

    /// Sets the start and the count.
    pub fn set_value(&mut self, start: u64, count: u16)
        ensures
            final(self).spec_id() == old(self).spec_id(),
            final(self).spec_start() == start,
            final(self).spec_count() == count,
    {
        self.start = start;
        self.count = count;
    }

    /// True when the value bytes `value` deserialize into this tag.
    pub closed spec fn decodes(&self, value: Seq<u8>) -> bool {
        match spec_decode_from_bytes(value) {
            Ok((start, n)) => start == self.start && value.len() == n + 2 && self.count == crate::ilint::be_value(value.skip(n as int)),
            Err(_) => false,
        }
    }
}

/// What deserializing the range value `v` gives: success when it is an
/// ILInt followed by exactly two bytes, `CorruptedData` when more bytes
/// follow, an I/O error when fewer do or the ILInt is malformed.
pub open spec fn range_outcome(v: Seq<u8>, r: Result<()>) -> bool {
    match spec_decode_from_bytes(v) {
        Ok((_, n)) => if v.len() == n + 2 {
            r is Ok
        } else if v.len() > n + 2 {
            r == Err::<(), ErrorKind>(ErrorKind::CorruptedData)
        } else {
            r matches Err(ErrorKind::IOError(_))
        },
        Err(_) => r matches Err(ErrorKind::IOError(_)),
    }
}

impl ILTag for ILRangeTag {
    open spec fn obeys_tag_model() -> bool {
        true
    }

    open spec fn spec_serializes(&self) -> bool {
        true
    }

    closed spec fn spec_id(&self) -> u64 {
        self.id
    }

    closed spec fn spec_value(&self) -> Seq<u8> {
        spec_encode(self.start) + crate::ilint::be_bytes(self.count as nat, 2)
    }

    open spec fn spec_decodes(&self, value: Seq<u8>) -> bool {
        self.decodes(value)
    }

    fn id(&self) -> (r: u64) {
        self.id
    }

    fn value_size(&self) -> (r: u64) {
        proof {
            crate::ilint::lemma_encode_len(self.start);
            crate::ilint::lemma_be_bytes_len(self.count as nat, 2);
        }
        (crate::ilint::encoded_size(self.start) + 2) as u64
    }

    fn serialize_value<W: Writer>(&self, writer: &mut W) -> (r: Result<()>)
        ensures
            r matches Err(e) ==> e is IOError,
            crate::io::writes_exactly(*old(writer), *final(writer), self.spec_value(), r is Ok),
    {
        let ghost w0 = *writer;
        let ghost a = spec_encode(self.start);
        let ghost b = crate::ilint::be_bytes(self.count as nat, 2);
        let r0 = serialize_ilint(self.start, writer);
        if r0.is_err() {
            proof {
                crate::io::lemma_writes_failed(w0, *writer, a, a + b);
            }
            return r0;
        }
        let ghost w1 = *writer;
        match write_u16(self.count, writer) {
            Ok(()) => {
                proof {
                    crate::io::lemma_writes_chain(w0, w1, *writer, a, b, true);
                }
                Ok(())
            },
            Err(e) => {
                proof {
                    crate::io::lemma_writes_chain(w0, w1, *writer, a, b, false);
                }
                Err(ErrorKind::IOError(e))
            },
        }
    }

    /// Reads the `value_size` bytes of the value, then the start and the
    /// count, which must take all of them.
    fn deserialize_value<F: ILTagFactory, R: Reader>(
        &mut self,
        factory: &F,
        value_size: usize,
        reader: &mut R,
    ) -> (r: Result<()>)
        ensures
            R::obeys_model() ==> (old(reader).remaining().len() < value_size ==> r matches Err(ErrorKind::IOError(_))),
            R::obeys_model() ==> (old(reader).remaining().len() >= value_size ==> range_outcome(
                old(reader).remaining().take(value_size as int),
                r,
            )),
            R::obeys_model() ==> (r is Ok ==> old(reader).remaining().len() >= value_size
                && final(reader).remaining() == old(reader).remaining().skip(value_size as int)
                && final(self).decodes(old(reader).remaining().take(value_size as int))),
    {
        let bytes = deserialize_bytes(value_size, reader)?;
        let mut br = ByteArrayReader::new(bytes.as_slice());
        let start = deserialize_ilint(&mut br)?;
        let count = match read_u16(&mut br) {
            Ok(v) => v,
            Err(e) => return Err(ErrorKind::IOError(e)),
        };
        if br.available() != 0 {
            return Err(ErrorKind::CorruptedData);
        }
        proof {
            if R::obeys_model() {
                let (s, n) = spec_decode_from_bytes(bytes@)->Ok_0;
                assert(bytes@.skip(n as int).take(2) =~= bytes@.skip(n as int));
                assert(reader.remaining().len() == old(reader).remaining().len() - value_size);
            }
        }
        self.start = start;
        self.count = count;
        Ok(())
    }
}

impl Default for ILRangeTag {
    fn default() -> (r: Self)
        ensures
            r.spec_id() == IL_RANGE_TAG_ID,
            r.spec_start() == 0,
            r.spec_count() == 0,
    {
        Self::new()
    }
}

impl DefaultWithId for ILRangeTag {
    fn default_with_id(id: u64) -> (r: Self) {
        Self::with_id(id)
    }
}

//=============================================================================
// ILVersionTag
//-----------------------------------------------------------------------------
/// The serialization of four `i32` values, big-endian, one after the
/// other.
pub open spec fn version_bytes(v: Seq<i32>) -> Seq<u8> {
    crate::ilint::be_bytes(to_twos(v[0] as int, 32), 4) + crate::ilint::be_bytes(to_twos(v[1] as int, 32), 4)
        + crate::ilint::be_bytes(to_twos(v[2] as int, 32), 4) + crate::ilint::be_bytes(to_twos(v[3] as int, 32), 4)
}

/// The standard version tag: its value is the major, minor, revision and
/// build numbers, each a big-endian `i32`.
///
/// Its default id is `IL_VERSION_TAG_ID`.
pub struct ILVersionTag {
    id: u64,
    value: [i32; 4],
}

impl View for ILVersionTag {
    type V = Seq<i32>;

    closed spec fn view(&self) -> Seq<i32> {
        self.value@
    }
}

impl ILVersionTag {
    /// Index of the major number.
    pub const MAJOR: usize = 0;
    /// Index of the minor number.
    pub const MINOR: usize = 1;
    /// Index of the revision number.
    pub const REVISION: usize = 2;
    /// Index of the build number.
    pub const BUILD: usize = 3;

    /// Creates a tag with the default id and version 0.0.0.0.
    pub fn new() -> (r: Self)
        ensures
            r.spec_id() == IL_VERSION_TAG_ID,
            r@ == seq![0i32, 0i32, 0i32, 0i32],
    {
        Self::with_id(IL_VERSION_TAG_ID)
    }

    /// Creates a tag with the given id and version 0.0.0.0.
    pub fn with_id(id: u64) -> (r: Self)
        ensures
            r.spec_id() == id,
            r@ == seq![0i32, 0i32, 0i32, 0i32],
    {
        let r = Self { id, value: [0i32; 4] };
        proof {
            assert(r.value@ =~= seq![0i32, 0i32, 0i32, 0i32]);
        }
        r
    }

    /// Creates a tag with the default id and the given version.
    pub fn with_value(major: i32, minor: i32, release: i32, build: i32) -> (r: Self)
        ensures
            r.spec_id() == IL_VERSION_TAG_ID,
            r@ == seq![major, minor, release, build],
    {
        Self::with_id_value(IL_VERSION_TAG_ID, major, minor, release, build)
    }

    /// Creates a tag with the given id and version.
    pub fn with_id_value(id: u64, major: i32, minor: i32, release: i32, build: i32) -> (r: Self)
        ensures
            r.spec_id() == id,
            r@ == seq![major, minor, release, build],
    {
        let r = Self { id, value: [major, minor, release, build] };
        proof {
            assert(r.value@ =~= seq![major, minor, release, build]);
        }
        r
    }

    /// Creates a tag with the default id and the version held in `version`.
    pub fn with_value_from_slice(version: &[i32; 4]) -> (r: Self)
        ensures
            r.spec_id() == IL_VERSION_TAG_ID,
            r@ == version@,
    {
        Self::with_id_value_from_slice(IL_VERSION_TAG_ID, version)
    }

    /// Creates a tag with the given id and the version held in `version`.
    pub fn with_id_value_from_slice(id: u64, version: &[i32; 4]) -> (r: Self)
        ensures
            r.spec_id() == id,
            r@ == version@,
    {
        Self { id, value: *version }
    }

    /// Returns the major number.
    pub fn major(&self) -> (r: i32)
        ensures
            r == self@[0],
    {
        self.value[0]
    }

    /// Sets the major number.
    pub fn set_major(&mut self, major: i32)
        ensures
            final(self).spec_id() == old(self).spec_id(),
            final(self)@ == old(self)@.update(0, major),
    {
        self.value[0] = major;
    }

    /// Returns the minor number.
    pub fn minor(&self) -> (r: i32)
        ensures
            r == self@[1],
    {
        self.value[1]
    }

    /// Sets the minor number.
    pub fn set_minor(&mut self, minor: i32)
        ensures
            final(self).spec_id() == old(self).spec_id(),
            final(self)@ == old(self)@.update(1, minor),
    {
        self.value[1] = minor;
    }

    /// Returns the revision number.
    pub fn revision(&self) -> (r: i32)
        ensures
            r == self@[2],
    {
        self.value[2]
    }

    /// Sets the revision number.
    pub fn set_revision(&mut self, release: i32)
        ensures
            final(self).spec_id() == old(self).spec_id(),
            final(self)@ == old(self)@.update(2, release),
    {
        self.value[2] = release;
    }

    /// Returns the build number.
    pub fn build(&self) -> (r: i32)
        ensures
            r == self@[3],
    {
        self.value[3]
    }

    /// Sets the build number.
    pub fn set_build(&mut self, build: i32)
        ensures
            final(self).spec_id() == old(self).spec_id(),
            final(self)@ == old(self)@.update(3, build),
    {
        self.value[3] = build;
    }

    /// Returns the four numbers.
    pub fn value(&self) -> (r: &[i32; 4])
        ensures
            r@ == self@,
    {
        &self.value
    }

    /// Sets the four numbers.
    pub fn set_value(&mut self, major: i32, minor: i32, release: i32, build: i32)
        ensures
            final(self).spec_id() == old(self).spec_id(),
            final(self)@ == seq![major, minor, release, build],
    {
        self.set_value_from_slice(&[major, minor, release, build]);
    }

    /// Sets the four numbers from `value`.
    pub fn set_value_from_slice(&mut self, value: &[i32; 4])
        ensures
            final(self).spec_id() == old(self).spec_id(),
            final(self)@ == value@,
    {
        self.value = *value;
    }

    /// True when the value bytes `value` deserialize into this tag.
    pub closed spec fn decodes(&self, value: Seq<u8>) -> bool {
        &&& value.len() == 16
        &&& forall|i: int| 0 <= i < 4 ==> #[trigger] self.value@[i] == from_twos(crate::ilint::be_value(value.subrange(4 * i, 4 * i + 4)), 32)
    }
}

impl ILTag for ILVersionTag {
    open spec fn obeys_tag_model() -> bool {
        true
    }

    open spec fn spec_serializes(&self) -> bool {
        true
    }

    closed spec fn spec_id(&self) -> u64 {
        self.id
    }

    closed spec fn spec_value(&self) -> Seq<u8> {
        version_bytes(self.value@)
    }

    open spec fn spec_decodes(&self, value: Seq<u8>) -> bool {
        self.decodes(value)
    }

    fn id(&self) -> (r: u64) {
        self.id
    }

    fn value_size(&self) -> (r: u64) {
        proof {
            crate::ilint::lemma_be_bytes_len(to_twos(self.value@[0] as int, 32), 4);
            crate::ilint::lemma_be_bytes_len(to_twos(self.value@[1] as int, 32), 4);
            crate::ilint::lemma_be_bytes_len(to_twos(self.value@[2] as int, 32), 4);
            crate::ilint::lemma_be_bytes_len(to_twos(self.value@[3] as int, 32), 4);
        }
        16
    }

    fn serialize_value<W: Writer>(&self, writer: &mut W) -> (r: Result<()>)
        ensures
            r matches Err(e) ==> e is IOError,
            crate::io::writes_exactly(*old(writer), *final(writer), self.spec_value(), r is Ok),
    {
        let ghost v = self.value@;
        let ghost all = version_bytes(v);
        let ghost p0 = crate::ilint::be_bytes(to_twos(v[0] as int, 32), 4);
        let ghost p1 = crate::ilint::be_bytes(to_twos(v[1] as int, 32), 4);
        let ghost p2 = crate::ilint::be_bytes(to_twos(v[2] as int, 32), 4);
        let ghost p3 = crate::ilint::be_bytes(to_twos(v[3] as int, 32), 4);
        proof {
            crate::ilint::lemma_be_bytes_len(to_twos(v[0] as int, 32), 4);
            crate::ilint::lemma_be_bytes_len(to_twos(v[1] as int, 32), 4);
            crate::ilint::lemma_be_bytes_len(to_twos(v[2] as int, 32), 4);
            crate::ilint::lemma_be_bytes_len(to_twos(v[3] as int, 32), 4);
            assert(all == p0 + p1 + p2 + p3);
        }
        let ghost w0 = *writer;
        if let Err(e) = write_i32(self.value[0], writer) {
            proof {
                crate::io::lemma_writes_failed(w0, *writer, p0, all);
            }
            return Err(ErrorKind::IOError(e));
        }
        let ghost w1 = *writer;
        let r1 = write_i32(self.value[1], writer);
        proof {
            crate::io::lemma_writes_chain(w0, w1, *writer, p0, p1, r1 is Ok);
        }
        if let Err(e) = r1 {
            proof {
                crate::io::lemma_writes_failed(w0, *writer, p0 + p1, all);
            }
            return Err(ErrorKind::IOError(e));
        }
        let ghost w2 = *writer;
        let r2 = write_i32(self.value[2], writer);
        proof {
            crate::io::lemma_writes_chain(w0, w2, *writer, p0 + p1, p2, r2 is Ok);
        }
        if let Err(e) = r2 {
            proof {
                crate::io::lemma_writes_failed(w0, *writer, p0 + p1 + p2, all);
            }
            return Err(ErrorKind::IOError(e));
        }
        let ghost w3 = *writer;
        let r3 = write_i32(self.value[3], writer);
        proof {
            crate::io::lemma_writes_chain(w0, w3, *writer, p0 + p1 + p2, p3, r3 is Ok);
        }
        match r3 {
            Ok(()) => Ok(()),
            Err(e) => Err(ErrorKind::IOError(e)),
        }
    }

    /// Reads the four numbers; `value_size` must be 16.
    fn deserialize_value<F: ILTagFactory, R: Reader>(
        &mut self,
        factory: &F,
        value_size: usize,
        reader: &mut R,
    ) -> (r: Result<()>)
        ensures
            value_size != 16 ==> r == Err::<(), ErrorKind>(ErrorKind::CorruptedData),
            R::obeys_model() ==> (value_size == 16 ==> (r is Ok <==> old(reader).remaining().len() >= 16)),
            R::obeys_model() ==> (value_size == 16 && old(reader).remaining().len() < 16 ==> r matches Err(ErrorKind::IOError(_))),
            R::obeys_model() ==> (r is Ok ==> final(reader).remaining() == old(reader).remaining().skip(16)
                && final(self).decodes(old(reader).remaining().take(16))),
            r is Err ==> *final(self) == *old(self),
    {
        if value_size != 16 {
            return Err(ErrorKind::CorruptedData);
        }
        let ghost rem0 = reader.remaining();
        let mut values: [i32; 4] = [0i32; 4];
        let mut i: usize = 0;
        while i < 4
            invariant
                i <= 4,
                value_size == 16,
                R::obeys_model() ==> (rem0 == old(reader).remaining()),
                R::obeys_model() ==> rem0.len() >= 4 * i,
                R::obeys_model() ==> (reader.remaining() == rem0.skip(4 * i)),
                R::obeys_model() ==> forall|j: int| 0 <= j < i ==> #[trigger] values@[j] == from_twos(crate::ilint::be_value(rem0.subrange(4 * j, 4 * j + 4)), 32),
            decreases 4 - i,
        {
            let ghost before = reader.remaining();
            let v = match read_i32(reader) {
                Ok(v) => v,
                Err(e) => return Err(ErrorKind::IOError(e)),
            };
            proof {
                if R::obeys_model() {
                    assert(before.take(4) =~= rem0.subrange(4 * i, 4 * i + 4));
                    assert(reader.remaining() =~= rem0.skip(4 * i + 4));
                }
            }
            values[i] = v;
            i = i + 1;
        }
        self.value = values;
        proof {
            if R::obeys_model() {
                assert forall|j: int| 0 <= j < 4 implies #[trigger] self.value@[j] == from_twos(crate::ilint::be_value(rem0.take(16).subrange(4 * j, 4 * j + 4)), 32) by {
                    assert(rem0.take(16).subrange(4 * j, 4 * j + 4) =~= rem0.subrange(4 * j, 4 * j + 4));
                }
            }
        }
        Ok(())
    }
}

impl Default for ILVersionTag {
    fn default() -> (r: Self)
        ensures
            r.spec_id() == IL_VERSION_TAG_ID,
            r@ == seq![0i32, 0i32, 0i32, 0i32],
    {
        Self::new()
    }
}

impl DefaultWithId for ILVersionTag {
    fn default_with_id(id: u64) -> (r: Self) {
        Self::with_id(id)
    }
}

//=============================================================================
// Keys
//-----------------------------------------------------------------------------
/// Lexicographic order of byte strings.
pub open spec fn seq_lt(a: Seq<u8>, b: Seq<u8>) -> bool
    decreases a.len(),
{
    if a.len() == 0 {
        b.len() > 0
    } else if b.len() == 0 {
        false
    } else if a[0] != b[0] {
        a[0] < b[0]
    } else {
        seq_lt(a.skip(1), b.skip(1))
    }
}

proof fn lemma_seq_lt_skip(a: Seq<u8>, b: Seq<u8>, i: int)
    requires
        0 <= i <= a.len(),
        i <= b.len(),
        a.take(i) == b.take(i),
    ensures
        seq_lt(a, b) == seq_lt(a.skip(i), b.skip(i)),
    decreases i,
{
    if i > 0 {
        assert(a[0] == a.take(i)[0]);
        assert(b[0] == b.take(i)[0]);
        assert(a.skip(1).take(i - 1) =~= a.take(i).skip(1));
        assert(b.skip(1).take(i - 1) =~= b.take(i).skip(1));
        lemma_seq_lt_skip(a.skip(1), b.skip(1), i - 1);
        assert(a.skip(1).skip(i - 1) =~= a.skip(i));
        assert(b.skip(1).skip(i - 1) =~= b.skip(i));
    } else {
        assert(a.skip(0) =~= a);
        assert(b.skip(0) =~= b);
    }
}

/// No byte string is smaller than itself.
proof fn lemma_seq_lt_irreflexive(a: Seq<u8>)
    ensures
        !seq_lt(a, a),
    decreases a.len(),
{
    if a.len() > 0 {
        lemma_seq_lt_irreflexive(a.skip(1));
    }
}

/// The order of byte strings is transitive.
proof fn lemma_seq_lt_transitive(a: Seq<u8>, b: Seq<u8>, c: Seq<u8>)
    requires
        seq_lt(a, b),
        seq_lt(b, c),
    ensures
        seq_lt(a, c),
    decreases a.len(),
{
    if a.len() > 0 && b.len() > 0 && c.len() > 0 && a[0] == b[0] && b[0] == c[0] {
        lemma_seq_lt_transitive(a.skip(1), b.skip(1), c.skip(1));
    }
}

/// Two distinct byte strings are ordered one way or the other, and not
/// both ways.
proof fn lemma_seq_lt_total(a: Seq<u8>, b: Seq<u8>)
    ensures
        a != b ==> seq_lt(a, b) || seq_lt(b, a),
        !(seq_lt(a, b) && seq_lt(b, a)),
    decreases a.len(),
{
    if a.len() > 0 && b.len() > 0 && a[0] == b[0] {
        lemma_seq_lt_total(a.skip(1), b.skip(1));
        if a != b {
            assert(a =~= seq![a[0]] + a.skip(1));
            assert(b =~= seq![b[0]] + b.skip(1));
        }
    } else if a.len() == 0 && b.len() == 0 {
        assert(a =~= b);
    }
}

/// Compares two byte strings: `-1`, `0` or `1` when `a` is smaller than,
/// equal to or greater than `b`.
pub fn compare_bytes(a: &[u8], b: &[u8]) -> (r: i8)
    ensures
        r == 0 <==> a@ == b@,
        r == -1 <==> seq_lt(a@, b@),
        r == 1 <==> seq_lt(b@, a@),
{
    let mut i: usize = 0;
    while i < a.len() && i < b.len() && a[i] == b[i]
        invariant
            i <= a@.len(),
            i <= b@.len(),
            a@.take(i as int) == b@.take(i as int),
        decreases a@.len() - i,
    {
        proof {
            assert(a@.take(i + 1) =~= a@.take(i as int).push(a@[i as int]));
            assert(b@.take(i + 1) =~= b@.take(i as int).push(b@[i as int]));
        }
        i = i + 1;
    }
    proof {
        lemma_seq_lt_skip(a@, b@, i as int);
        lemma_seq_lt_skip(b@, a@, i as int);
    }
    if i == a.len() && i == b.len() {
        proof {
            assert(a@ =~= a@.take(i as int));
            assert(b@ =~= b@.take(i as int));
        }
        0
    } else if i == a.len() {
        -1
    } else if i == b.len() {
        1
    } else if a[i] < b[i] {
        proof {
            assert(a@ != b@ ==> true);
            assert(a@[i as int] != b@[i as int]);
        }
        -1
    } else {
        proof {
            assert(a@[i as int] != b@[i as int]);
        }
        1
    }
}

/// Two strings with the same UTF-8 bytes are the same string.
proof fn lemma_same_bytes_same_chars(a: Seq<char>, b: Seq<char>)
    requires
        encode_utf8(a) == encode_utf8(b),
    ensures
        a == b,
{
    vstd::utf8::encode_utf8_decode_utf8(a);
    vstd::utf8::encode_utf8_decode_utf8(b);
}

/// Compares the UTF-8 bytes of two strings.
fn compare_keys(a: &str, b: &str) -> (r: i8)
    ensures
        r == 0 <==> a@ == b@,
        r == -1 <==> seq_lt(encode_utf8(a@), encode_utf8(b@)),
        r == 1 <==> seq_lt(encode_utf8(b@), encode_utf8(a@)),
{
    let r = compare_bytes(a.as_bytes(), b.as_bytes());
    proof {
        if r == 0 {
            lemma_same_bytes_same_chars(a@, b@);
        }
    }
    r
}

/// The first position of the key `k` among the keys `keys`, or -1.
pub open spec fn key_index(keys: Seq<Seq<char>>, k: Seq<char>) -> int
    decreases keys.len(),
{
    if keys.len() == 0 {
        -1
    } else {
        let j = key_index(keys.drop_last(), k);
        if j >= 0 {
            j
        } else if keys.last() == k {
            keys.len() - 1
        } else {
            -1
        }
    }
}

/// The first position whose key is greater than `k` in byte order, or the
/// number of keys.
pub open spec fn insert_position(keys: Seq<Seq<char>>, k: Seq<char>) -> int
    decreases keys.len(),
{
    if keys.len() == 0 {
        0
    } else {
        let j = insert_position(keys.drop_last(), k);
        if j < keys.len() - 1 {
            j
        } else if seq_lt(encode_utf8(k), encode_utf8(keys.last())) {
            keys.len() - 1
        } else {
            keys.len() as int
        }
    }
}

proof fn lemma_key_index_range(keys: Seq<Seq<char>>, k: Seq<char>)
    ensures
        -1 <= key_index(keys, k) < keys.len(),
        key_index(keys, k) >= 0 ==> keys[key_index(keys, k)] == k,
    decreases keys.len(),
{
    if keys.len() > 0 {
        lemma_key_index_range(keys.drop_last(), k);
    }
}

proof fn lemma_key_index(keys: Seq<Seq<char>>, k: Seq<char>, i: int)
    requires
        0 <= i <= keys.len(),
        forall|j: int| 0 <= j < i ==> keys[j] != k,
    ensures
        i < keys.len() && keys[i] == k ==> key_index(keys, k) == i,
        i == keys.len() ==> key_index(keys, k) == -1,
    decreases keys.len(),
{
    if keys.len() > 0 {
        if i < keys.len() && keys[i] == k {
            if i < keys.len() - 1 {
                lemma_key_index(keys.drop_last(), k, i);
            } else {
                lemma_key_index(keys.drop_last(), k, i);
            }
        } else if i == keys.len() {
            lemma_key_index(keys.drop_last(), k, i - 1);
        }
    }
}

proof fn lemma_insert_position_range(keys: Seq<Seq<char>>, k: Seq<char>)
    ensures
        0 <= insert_position(keys, k) <= keys.len(),
    decreases keys.len(),
{
    if keys.len() > 0 {
        lemma_insert_position_range(keys.drop_last(), k);
    }
}

proof fn lemma_insert_position(keys: Seq<Seq<char>>, k: Seq<char>, i: int)
    requires
        0 <= i <= keys.len(),
        forall|j: int| 0 <= j < i ==> !seq_lt(encode_utf8(k), #[trigger] encode_utf8(keys[j])),
        i < keys.len() ==> seq_lt(encode_utf8(k), encode_utf8(keys[i])),
    ensures
        insert_position(keys, k) == i,
    decreases keys.len(),
{
    if keys.len() > 0 {
        if i < keys.len() {
            if i < keys.len() - 1 {
                lemma_insert_position(keys.drop_last(), k, i);
            } else {
                lemma_insert_position(keys.drop_last(), k, i);
            }
        } else {
            lemma_insert_position(keys.drop_last(), k, i - 1);
        }
    }
}

/// Finds the position of the key `k`.
fn find_key<V>(pairs: &Vec<(String, V)>, k: &str) -> (r: Option<usize>)
    ensures
        r matches Some(i) ==> i == key_index(pairs@.map_values(|p: (String, V)| p.0@), k@) && i < pairs@.len(),
        r is None ==> key_index(pairs@.map_values(|p: (String, V)| p.0@), k@) == -1,
{
    let ghost keys = pairs@.map_values(|p: (String, V)| p.0@);
    let mut i: usize = 0;
    while i < pairs.len()
        invariant
            i <= pairs@.len(),
            keys == pairs@.map_values(|p: (String, V)| p.0@),
            forall|j: int| 0 <= j < i ==> keys[j] != k@,
        decreases pairs@.len() - i,
    {
        if compare_keys(pairs[i].0.as_str(), k) == 0 {
            proof {
                lemma_key_index(keys, k@, i as int);
            }
            return Some(i);
        }
        i = i + 1;
    }
    proof {
        lemma_key_index(keys, k@, i as int);
    }
    None
}

/// Finds where the key `k` goes to keep the keys in byte order.
fn find_insert_position<V>(pairs: &Vec<(String, V)>, k: &str) -> (r: usize)
    ensures
        r == insert_position(pairs@.map_values(|p: (String, V)| p.0@), k@),
        r <= pairs@.len(),
{
    let ghost keys = pairs@.map_values(|p: (String, V)| p.0@);
    let mut i: usize = 0;
    while i < pairs.len()
        invariant
            i <= pairs@.len(),
            keys == pairs@.map_values(|p: (String, V)| p.0@),
            forall|j: int| 0 <= j < i ==> !seq_lt(encode_utf8(k@), #[trigger] encode_utf8(keys[j])),
        decreases pairs@.len() - i,
    {
        if compare_keys(k, pairs[i].0.as_str()) == -1 {
            proof {
                lemma_insert_position(keys, k@, i as int);
            }
            return i;
        }
        i = i + 1;
    }
    proof {
        lemma_insert_position(keys, k@, i as int);
    }
    i
}

/// The entries after putting `v` under the key `k`: the entry of `k` gets
/// `v` if `k` is there, otherwise a new entry goes where it keeps the keys
/// in byte order.
pub open spec fn entries_insert<V>(entries: Seq<(Seq<char>, V)>, k: Seq<char>, v: V) -> Seq<(Seq<char>, V)> {
    let keys = entries.map_values(|e: (Seq<char>, V)| e.0);
    let i = key_index(keys, k);
    if i >= 0 {
        entries.update(i, (k, v))
    } else {
        entries.insert(insert_position(keys, k), (k, v))
    }
}

/// Getting a key right after putting a value under it gives that value,
/// and the number of entries grows by one exactly when the key was not
/// there.
pub proof fn lemma_get_after_insert<V>(entries: Seq<(Seq<char>, V)>, k: Seq<char>, v: V)
    ensures
        ({
            let after = entries_insert(entries, k, v);
            let keys = entries.map_values(|e: (Seq<char>, V)| e.0);
            let i = key_index(after.map_values(|e: (Seq<char>, V)| e.0), k);
            &&& 0 <= i < after.len()
            &&& after[i] == (k, v)
            &&& after.len() == if key_index(keys, k) >= 0 {
                entries.len()
            } else {
                entries.len() + 1
            }
        }),
{
    let keys = entries.map_values(|e: (Seq<char>, V)| e.0);
    let after = entries_insert(entries, k, v);
    let keys2 = after.map_values(|e: (Seq<char>, V)| e.0);
    lemma_key_index_range(keys, k);
    let i = key_index(keys, k);
    if i >= 0 {
        assert(keys2 =~= keys);
    } else {
        let p = insert_position(keys, k);
        lemma_insert_position_range(keys, k);
        entries.insert_ensures(p, (k, v));
        lemma_key_index_absent(keys, k);
        assert forall|j: int| 0 <= j < p implies keys2[j] != k by {
            assert(keys2[j] == keys[j]);
        }
        lemma_key_index(keys2, k, p);
    }
}

proof fn lemma_key_index_absent(keys: Seq<Seq<char>>, k: Seq<char>)
    requires
        key_index(keys, k) < 0,
    ensures
        forall|j: int| 0 <= j < keys.len() ==> keys[j] != k,
    decreases keys.len(),
{
    if keys.len() > 0 {
        lemma_key_index_absent(keys.drop_last(), k);
        assert forall|j: int| 0 <= j < keys.len() implies keys[j] != k by {
            if j < keys.len() - 1 {
                assert(keys.drop_last()[j] == keys[j]);
            }
        }
    }
}

/// The entries of a list of pairs, with the keys as text.
pub open spec fn pair_entries<V>(pairs: Seq<(String, V)>) -> Seq<(Seq<char>, V)> {
    pairs.map_values(|p: (String, V)| (p.0@, p.1))
}

proof fn lemma_entry_keys<V>(pairs: Seq<(String, V)>)
    ensures
        pair_entries(pairs).map_values(|e: (Seq<char>, V)| e.0) == pairs.map_values(|p: (String, V)| p.0@),
{
    assert(pair_entries(pairs).map_values(|e: (Seq<char>, V)| e.0) =~= pairs.map_values(|p: (String, V)| p.0@));
}

/// True when the keys are in strictly increasing byte order of their UTF-8
/// encodings, so that no key occurs twice.
pub open spec fn keys_sorted(keys: Seq<Seq<char>>) -> bool {
    forall|i: int, j: int|
        0 <= i < j < keys.len() ==> seq_lt(#[trigger] encode_utf8(keys[i]), #[trigger] encode_utf8(keys[j]))
}

/// The keys of some entries.
pub open spec fn entry_keys<V>(entries: Seq<(Seq<char>, V)>) -> Seq<Seq<char>> {
    entries.map_values(|e: (Seq<char>, V)| e.0)
}

/// In sorted keys, every key before the place where `k` goes is smaller
/// than `k`, and every key from it on is greater.
proof fn lemma_insert_position_sorted(keys: Seq<Seq<char>>, k: Seq<char>)
    requires
        keys_sorted(keys),
        key_index(keys, k) < 0,
    ensures
        ({
            let p = insert_position(keys, k);
            &&& 0 <= p <= keys.len()
            &&& forall|j: int| 0 <= j < p ==> seq_lt(encode_utf8(#[trigger] keys[j]), encode_utf8(k))
            &&& forall|j: int| p <= j < keys.len() ==> seq_lt(encode_utf8(k), encode_utf8(#[trigger] keys[j]))
        }),
    decreases keys.len(),
{
    lemma_insert_position_range(keys, k);
    lemma_key_index_absent(keys, k);
    if keys.len() > 0 {
        let prev = keys.drop_last();
        assert forall|i: int, j: int| 0 <= i < j < prev.len() implies seq_lt(
            #[trigger] encode_utf8(prev[i]),
            #[trigger] encode_utf8(prev[j]),
        ) by {
            assert(prev[i] == keys[i] && prev[j] == keys[j]);
        }
        lemma_key_index_absent(prev, k);
        assert forall|j: int| 0 <= j < prev.len() implies prev[j] != k by {
            assert(prev[j] == keys[j]);
        }
        lemma_key_index(prev, k, prev.len() as int);
        lemma_insert_position_sorted(prev, k);
        let q = insert_position(prev, k);
        let p = insert_position(keys, k);
        let last = keys.len() - 1;
        lemma_seq_lt_total(encode_utf8(k), encode_utf8(keys[last]));
        vstd::utf8::encode_utf8_decode_utf8(k);
        vstd::utf8::encode_utf8_decode_utf8(keys[last]);
        assert forall|j: int| 0 <= j < p implies seq_lt(encode_utf8(#[trigger] keys[j]), encode_utf8(k)) by {
            if j < prev.len() {
                assert(prev[j] == keys[j]);
                if j >= q {
                    assert(seq_lt(encode_utf8(k), encode_utf8(prev[j])));
                    if q < prev.len() {
                        assert(false);
                    }
                }
            }
        }
        assert forall|j: int| p <= j < keys.len() implies seq_lt(encode_utf8(k), encode_utf8(#[trigger] keys[j])) by {
            if j < prev.len() {
                assert(prev[j] == keys[j]);
                if j < q {
                    assert(seq_lt(encode_utf8(prev[j]), encode_utf8(k)));
                    assert(false);
                }
            } else {
                if q < prev.len() {
                    assert(seq_lt(encode_utf8(k), encode_utf8(prev[q])));
                    assert(seq_lt(encode_utf8(prev[q]), encode_utf8(keys[last])));
                    lemma_seq_lt_transitive(encode_utf8(k), encode_utf8(prev[q]), encode_utf8(keys[last]));
                }
            }
        }
    }
}

/// Putting a value into entries whose keys are sorted keeps them sorted.
pub proof fn lemma_entries_insert_sorted<V>(entries: Seq<(Seq<char>, V)>, k: Seq<char>, v: V)
    requires
        keys_sorted(entry_keys(entries)),
    ensures
        keys_sorted(entry_keys(entries_insert(entries, k, v))),
{
    let keys = entry_keys(entries);
    let after = entries_insert(entries, k, v);
    let keys2 = entry_keys(after);
    lemma_key_index_range(keys, k);
    let i = key_index(keys, k);
    if i >= 0 {
        assert(keys2 =~= keys);
    } else {
        lemma_insert_position_sorted(keys, k);
        let p = insert_position(keys, k);
        entries.insert_ensures(p, (k, v));
        assert forall|a: int, b: int| 0 <= a < b < keys2.len() implies seq_lt(
            #[trigger] encode_utf8(keys2[a]),
            #[trigger] encode_utf8(keys2[b]),
        ) by {
            if b < p {
                assert(keys2[a] == keys[a] && keys2[b] == keys[b]);
            } else if b == p {
                assert(keys2[a] == keys[a]);
            } else if a < p {
                assert(keys2[a] == keys[a] && keys2[b] == keys[b - 1]);
                if b - 1 >= p {
                    lemma_seq_lt_transitive(encode_utf8(keys[a]), encode_utf8(k), encode_utf8(keys[b - 1]));
                }
            } else if a == p {
                assert(keys2[b] == keys[b - 1]);
            } else {
                assert(keys2[a] == keys[a - 1] && keys2[b] == keys[b - 1]);
            }
        }
    }
}

/// The entries made from any pairs have sorted keys.
pub proof fn lemma_entries_from_pairs_sorted<V>(pairs: Seq<(Seq<char>, V)>)
    ensures
        keys_sorted(entry_keys(entries_from_pairs(pairs))),
    decreases pairs.len(),
{
    if pairs.len() > 0 {
        lemma_entries_from_pairs_sorted(pairs.drop_last());
        lemma_entries_insert_sorted(entries_from_pairs(pairs.drop_last()), pairs.last().0, pairs.last().1);
    } else {
        assert(entry_keys(entries_from_pairs(pairs)) =~= Seq::<Seq<char>>::empty());
    }
}

/// Putting sorted entries, one after the other, into an empty dictionary
/// gives the same entries.
pub proof fn lemma_entries_from_sorted<V>(entries: Seq<(Seq<char>, V)>)
    requires
        keys_sorted(entry_keys(entries)),
    ensures
        entries_from_pairs(entries) == entries,
    decreases entries.len(),
{
    if entries.len() > 0 {
        let prev = entries.drop_last();
        let keys = entry_keys(entries);
        let pkeys = entry_keys(prev);
        assert forall|i: int, j: int| 0 <= i < j < pkeys.len() implies seq_lt(
            #[trigger] encode_utf8(pkeys[i]),
            #[trigger] encode_utf8(pkeys[j]),
        ) by {
            assert(pkeys[i] == keys[i] && pkeys[j] == keys[j]);
        }
        lemma_entries_from_sorted(prev);
        let (k, v) = entries.last();
        let last = entries.len() - 1;
        assert forall|j: int| 0 <= j < pkeys.len() implies pkeys[j] != k by {
            assert(pkeys[j] == keys[j]);
            assert(seq_lt(encode_utf8(keys[j]), encode_utf8(keys[last])));
            lemma_seq_lt_irreflexive(encode_utf8(k));
        }
        lemma_key_index(pkeys, k, pkeys.len() as int);
        assert forall|j: int| 0 <= j < pkeys.len() implies !seq_lt(encode_utf8(k), #[trigger] encode_utf8(pkeys[j])) by {
            assert(pkeys[j] == keys[j]);
            assert(seq_lt(encode_utf8(keys[j]), encode_utf8(keys[last])));
            lemma_seq_lt_total(encode_utf8(keys[j]), encode_utf8(k));
        }
        lemma_insert_position(pkeys, k, pkeys.len() as int);
        assert(prev.insert(prev.len() as int, (k, v)) =~= entries);
    } else {
        assert(entries =~= Seq::<(Seq<char>, V)>::empty());
    }
}

/// The entries that putting each pair of `pairs`, in order, into an empty
/// dictionary gives.
pub open spec fn entries_from_pairs<V>(pairs: Seq<(Seq<char>, V)>) -> Seq<(Seq<char>, V)>
    decreases pairs.len(),
{
    if pairs.len() == 0 {
        Seq::empty()
    } else {
        entries_insert(entries_from_pairs(pairs.drop_last()), pairs.last().0, pairs.last().1)
    }
}

/// Puts `v` under the key `k` in `pairs`, as `entries_insert` says,
/// returning the value that was there.
fn pairs_insert<V>(pairs: &mut Vec<(String, V)>, k: &str, v: V) -> (r: Option<V>)
    ensures
        pair_entries(final(pairs)@) == entries_insert(pair_entries(old(pairs)@), k@, v),
        final(pairs)@.len() <= old(pairs)@.len() + 1,
        ({
            let i = key_index(old(pairs)@.map_values(|p: (String, V)| p.0@), k@);
            &&& i >= 0 ==> r == Some(old(pairs)@[i].1)
            &&& i < 0 ==> r is None
        }),
{
    proof {
        lemma_entry_keys(old(pairs)@);
        lemma_key_index_range(old(pairs)@.map_values(|p: (String, V)| p.0@), k@);
    }
    match find_key(pairs, k) {
        Some(i) => {
            let (key, old_v) = pairs.remove(i);
            pairs.insert(i, (key, v));
            proof {
                let e = pair_entries(old(pairs)@);
                assert(pair_entries(pairs@) =~= e.update(i as int, (k@, v))) by {
                    old(pairs)@.remove_ensures(i as int);
                    old(pairs)@.remove(i as int).insert_ensures(i as int, (key, v));
                }
            }
            Some(old_v)
        },
        None => {
            let p = find_insert_position(pairs, k);
            pairs.insert(p, (k.to_owned(), v));
            proof {
                let e = pair_entries(old(pairs)@);
                old(pairs)@.insert_ensures(p as int, pairs@[p as int]);
                e.insert_ensures(p as int, (k@, v));
                assert(pair_entries(pairs@) =~= e.insert(p as int, (k@, v)));
            }
            None
        },
    }
}

/// Gets the value under the key `k`.
fn pairs_get<'a, V>(pairs: &'a Vec<(String, V)>, k: &str) -> (r: Option<&'a V>)
    ensures
        ({
            let i = key_index(pairs@.map_values(|p: (String, V)| p.0@), k@);
            &&& i >= 0 ==> r == Some(&pairs@[i].1)
            &&& i < 0 ==> r is None
        }),
{
    proof {
        lemma_key_index_range(pairs@.map_values(|p: (String, V)| p.0@), k@);
    }
    match find_key(pairs, k) {
        Some(i) => Some(&pairs[i].1),
        None => None,
    }
}

//=============================================================================
// ILDictTag
//-----------------------------------------------------------------------------
/// The serialization of the entries of a dictionary: for each entry, a
/// standard string tag with the key followed by the value tag.
pub closed spec fn dict_entries_bytes(entries: Seq<(String, ILAnyTag)>) -> Seq<u8>
    decreases entries,
{
    if entries.len() == 0 {
        Seq::empty()
    } else {
        dict_entries_bytes(entries.drop_last()) + string_tag_bytes(entries.last().0@) + spec_tag_bytes(
            any_id(entries.last().1),
            any_value(entries.last().1),
        )
    }
}

/// The standard dictionary tag: it maps strings to tags. Its value is the
/// number of entries, an ILInt, followed by the entries in byte order of
/// their keys, each a standard string tag with the key and the value tag.
///
/// Its default id is `IL_DICTIONARY_TAG_ID`.
pub struct ILDictTag {
    id: u64,
    value: Vec<(String, ILAnyTag)>,
}

impl ILDictTag {
    /// The entries, in the order they are serialized.
    pub closed spec fn entries(&self) -> Seq<(Seq<char>, ILAnyTag)> {
        pair_entries(self.value@)
    }

    /// True when the keys are in byte order, each once, as a map holds
    /// them. All operations but `mut_value` keep it.
    pub open spec fn wf(&self) -> bool {
        keys_sorted(entry_keys(self.entries()))
    }

    /// Creates an empty tag with the default id.
    pub fn new() -> (r: Self)
        ensures
            r.spec_id() == IL_DICTIONARY_TAG_ID,
            r.entries() == Seq::<(Seq<char>, ILAnyTag)>::empty(),
            r.wf(),
    {
        Self::with_id(IL_DICTIONARY_TAG_ID)
    }

    /// Creates an empty tag with the given id.
    pub fn with_id(id: u64) -> (r: Self)
        ensures
            r.spec_id() == id,
            r.entries() == Seq::<(Seq<char>, ILAnyTag)>::empty(),
            r.wf(),
    {
        let r = Self { id, value: Vec::new() };
        proof {
            assert(r.entries() =~= Seq::<(Seq<char>, ILAnyTag)>::empty());
            assert(entry_keys(r.entries()) =~= Seq::<Seq<char>>::empty());
        }
        r
    }

    /// Returns the entries.
    pub fn value(&self) -> (r: &Vec<(String, ILAnyTag)>)
        ensures
            pair_entries(r@) == self.entries(),
    {
        &self.value
    }

    /// Returns the entries for modification.
    pub fn mut_value(&mut self) -> (r: &mut Vec<(String, ILAnyTag)>)
        ensures
            pair_entries(r@) == old(self).entries(),
            pair_entries(final(r)@) == final(self).entries(),
            final(self).spec_id() == old(self).spec_id(),
    {
        &mut self.value
    }

    /// Returns the number of entries.
    pub fn len(&self) -> (r: usize)
        ensures
            r == self.entries().len(),
    {
        self.value.len()
    }

    /// Returns true if there is no entry.
    pub fn is_empty(&self) -> (r: bool)
        ensures
            r == (self.entries().len() == 0),
    {
        self.value.len() == 0
    }

    /// Puts `v` under the key `k`, returning the tag that was there.
    pub fn insert(&mut self, k: &str, v: ILAnyTag) -> (r: Option<ILAnyTag>)
        ensures
            final(self).spec_id() == old(self).spec_id(),
            final(self).entries() == entries_insert(old(self).entries(), k@, v),
            old(self).wf() ==> final(self).wf(),
            ({
                let i = key_index(old(self).entries().map_values(|e: (Seq<char>, ILAnyTag)| e.0), k@);
                &&& i >= 0 ==> r == Some(old(self).entries()[i].1)
                &&& i < 0 ==> r is None
            }),
    {
        proof {
            lemma_entry_keys(self.value@);
            lemma_key_index_range(self.value@.map_values(|p: (String, ILAnyTag)| p.0@), k@);
            if self.wf() {
                lemma_entries_insert_sorted(self.entries(), k@, v);
            }
        }
        pairs_insert(&mut self.value, k, v)
    }

    /// Returns the tag under the key `k`.
    pub fn get(&self, k: &str) -> (r: Option<&ILAnyTag>)
        ensures
            ({
                let i = key_index(self.entries().map_values(|e: (Seq<char>, ILAnyTag)| e.0), k@);
                &&& i >= 0 ==> r == Some(&self.entries()[i].1)
                &&& i < 0 ==> r is None
            }),
    {
        proof {
            lemma_entry_keys(self.value@);
            lemma_key_index_range(self.value@.map_values(|p: (String, ILAnyTag)| p.0@), k@);
        }
        pairs_get(&self.value, k)
    }

    /// True when the value bytes `value` may be deserialized into this tag:
    /// they start with the number of entries, an ILInt, which is at least
    /// the number of entries of this tag (keys may repeat).
    pub closed spec fn decodes(&self, value: Seq<u8>) -> bool {
        match spec_decode_from_bytes(value) {
            Ok((count, n)) => self.value@.len() <= count,
            Err(_) => false,
        }
    }
}

/// Size of the serialization of dictionary entries.
fn dict_entries_size(entries: &Vec<(String, ILAnyTag)>) -> (r: u64)
    requires
        dict_entries_bytes(entries@).len() <= u64::MAX,
    ensures
        r == dict_entries_bytes(entries@).len(),
    decreases entries@, 0nat,
{
    let mut size: u64 = 0;
    let mut i: usize = 0;
    while i < entries.len()
        invariant
            i <= entries@.len(),
            dict_entries_bytes(entries@).len() <= u64::MAX,
            size == dict_entries_bytes(entries@.take(i as int)).len(),
        decreases entries@.len() - i,
    {
        proof {
            lemma_dict_entries_bytes_step(entries@, i as int);
            lemma_dict_entries_bytes_prefix(entries@, i + 1);
        }
        let k = string_tag_size_from_value(entries[i].0.as_str());
        let s = any_size(&entries[i].1);
        size = size + k + s;
        i = i + 1;
    }
    proof {
        assert(entries@.take(i as int) =~= entries@);
    }
    size
}

proof fn lemma_dict_entries_bytes_step(entries: Seq<(String, ILAnyTag)>, i: int)
    requires
        0 <= i < entries.len(),
    ensures
        dict_entries_bytes(entries.take(i + 1)) == dict_entries_bytes(entries.take(i)) + string_tag_bytes(entries[i].0@)
            + spec_tag_bytes(any_id(entries[i].1), any_value(entries[i].1)),
{
    assert(entries.take(i + 1).drop_last() =~= entries.take(i));
}

proof fn lemma_dict_entries_bytes_prefix(entries: Seq<(String, ILAnyTag)>, i: int)
    requires
        0 <= i <= entries.len(),
    ensures
        dict_entries_bytes(entries.take(i)).len() <= dict_entries_bytes(entries).len(),
    decreases entries.len(),
{
    if i == entries.len() {
        assert(entries.take(i) =~= entries);
    } else {
        lemma_dict_entries_bytes_prefix(entries.drop_last(), i);
        assert(entries.drop_last().take(i) =~= entries.take(i));
    }
}

/// Serializes dictionary entries.
fn dict_entries_serialize<W: Writer>(entries: &Vec<(String, ILAnyTag)>, writer: &mut W) -> (r: Result<()>)
    requires
        dict_entries_bytes(entries@).len() <= u64::MAX,
    ensures
        r matches Err(e) ==> e is IOError,
        W::obeys_model() && r is Ok ==> final(writer).written() == old(writer).written() + dict_entries_bytes(entries@),
        crate::io::writes_exactly(*old(writer), *final(writer), dict_entries_bytes(entries@), r is Ok),
    decreases entries@, 0nat,
{
    let mut i: usize = 0;
    proof {
        crate::io::lemma_writes_nothing(*writer);
        assert(entries@.take(0) =~= Seq::<(String, ILAnyTag)>::empty());
    }
    while i < entries.len()
        invariant
            i <= entries@.len(),
            dict_entries_bytes(entries@).len() <= u64::MAX,
            W::obeys_model() ==> writer.written() == old(writer).written() + dict_entries_bytes(entries@.take(i as int)),
            crate::io::writes_exactly(*old(writer), *writer, dict_entries_bytes(entries@.take(i as int)), true),
        decreases entries@.len() - i,
    {
        proof {
            lemma_dict_entries_bytes_step(entries@, i as int);
            lemma_dict_entries_bytes_prefix(entries@, i + 1);
        }
        let ghost w0 = *writer;
        let ghost done = dict_entries_bytes(entries@.take(i as int));
        let ghost k = string_tag_bytes(entries@[i as int].0@);
        let ghost x = spec_tag_bytes(any_id(entries@[i as int].1), any_value(entries@[i as int].1));
        let r0 = serialize_string_tag_from_value(entries[i].0.as_str(), writer);
        proof {
            crate::io::lemma_writes_chain(*old(writer), w0, *writer, done, k, r0 is Ok);
        }
        if r0.is_err() {
            proof {
                crate::io::lemma_writes_failed(*old(writer), *writer, done + k, dict_entries_bytes(entries@));
            }
            return r0;
        }
        let ghost w1 = *writer;
        let r1 = any_serialize(&entries[i].1, writer);
        proof {
            crate::io::lemma_writes_chain(*old(writer), w1, *writer, done + k, x, r1 is Ok);
        }
        if r1.is_err() {
            proof {
                crate::io::lemma_writes_failed(*old(writer), *writer, done + k + x, dict_entries_bytes(entries@));
            }
            return r1;
        }
        proof {
            assert(done + k + x =~= dict_entries_bytes(entries@.take(i + 1)));
            assert(W::obeys_model() ==> writer.written() =~= old(writer).written() + dict_entries_bytes(entries@.take(i + 1)));
        }
        i = i + 1;
    }
    proof {
        assert(entries@.take(i as int) =~= entries@);
    }
    Ok(())
}

/// `bytes` are, one after the other, the string tag of the key and the
/// serialized tag of the value of each pair of `ps`, the two taking the
/// numbers of bytes given by the matching item of `lens`.
pub open spec fn dict_frames(bytes: Seq<u8>, ps: Seq<(Seq<char>, ILAnyTag)>, lens: Seq<(nat, nat)>) -> bool
    decreases ps.len(),
{
    if ps.len() == 0 {
        bytes.len() == 0 && lens.len() == 0
    } else if lens.len() != ps.len() || bytes.len() < lens.last().0 + lens.last().1 {
        false
    } else {
        let (n1, n2) = lens.last();
        let m = bytes.len() - n1 - n2;
        &&& dict_frames(bytes.take(m), ps.drop_last(), lens.drop_last())
        &&& string_frame(bytes.subrange(m, m + n1)) == Some((ps.last().0, n1))
        &&& spec_frame_decodes(bytes.subrange(m + n1, bytes.len() as int), ps.last().1)
    }
}

/// The entries `e` are what the dictionary value `v` holds: the pairs of
/// its key and value frames, put in order into an empty dictionary.
pub open spec fn dict_value_holds(v: Seq<u8>, e: Seq<(Seq<char>, ILAnyTag)>) -> bool {
    match spec_decode_from_bytes(v) {
        Ok((count, n)) => exists|ps: Seq<(Seq<char>, ILAnyTag)>, lens: Seq<(nat, nat)>|
            ps.len() == count && #[trigger] dict_frames(v.skip(n as int), ps, lens) && e == entries_from_pairs(ps),
        Err(_) => false,
    }
}

/// No key of `pairs` takes more than `MAX_TAG_SIZE` bytes and every value
/// has a size that fits in a `u64`.
pub open spec fn dict_pairs_fit(pairs: Seq<(String, ILAnyTag)>) -> bool {
    forall|i: int|
        0 <= i < pairs.len() ==> encode_utf8(#[trigger] pairs[i].0@).len() <= MAX_TAG_SIZE && any_value(
            pairs[i].1,
        ).len() <= u64::MAX
}

/// No key of the entries `e` takes more than `MAX_TAG_SIZE` bytes and every
/// value has a size that fits in a `u64`.
pub open spec fn dict_entries_fit(e: Seq<(Seq<char>, ILAnyTag)>) -> bool {
    forall|i: int|
        0 <= i < e.len() ==> encode_utf8(#[trigger] e[i].0).len() <= MAX_TAG_SIZE && any_value(e[i].1).len()
            <= u64::MAX
}

/// The numbers of bytes of the key and value frames of `pairs`.
pub open spec fn dict_lens(pairs: Seq<(String, ILAnyTag)>) -> Seq<(nat, nat)> {
    pairs.map_values(
        |p: (String, ILAnyTag)| (string_tag_bytes(p.0@).len(), spec_tag_bytes(any_id(p.1), any_value(p.1)).len()),
    )
}

#[verifier::spinoff_prover]
#[verifier::rlimit(40)]
proof fn lemma_dict_frames_of(pairs: Seq<(String, ILAnyTag)>)
    requires
        dict_pairs_fit(pairs),
    ensures
        dict_frames(dict_entries_bytes(pairs), pair_entries(pairs), dict_lens(pairs)),
    decreases pairs.len(),
{
    if pairs.len() == 0 {
        assert(pair_entries(pairs) =~= Seq::<(Seq<char>, ILAnyTag)>::empty());
        assert(dict_lens(pairs) =~= Seq::<(nat, nat)>::empty());
    } else {
        let prev = pairs.drop_last();
        let last = pairs.last();
        assert forall|i: int| 0 <= i < prev.len() implies encode_utf8(#[trigger] prev[i].0@).len() <= MAX_TAG_SIZE
            && any_value(prev[i].1).len() <= u64::MAX by {
            assert(prev[i] == pairs[i]);
        }
        lemma_dict_frames_of(prev);
        assert(pair_entries(pairs).drop_last() =~= pair_entries(prev));
        assert(dict_lens(pairs).drop_last() =~= dict_lens(prev));
        assert(encode_utf8(pairs[pairs.len() - 1].0@).len() <= MAX_TAG_SIZE);
        let b = dict_entries_bytes(pairs);
        let k = string_tag_bytes(last.0@);
        let x = spec_tag_bytes(any_id(last.1), any_value(last.1));
        let m = b.len() - k.len() - x.len();
        assert(b == dict_entries_bytes(prev) + k + x);
        assert(b.take(m) =~= dict_entries_bytes(prev));
        assert(b.subrange(m, m + k.len()) =~= k + Seq::<u8>::empty());
        lemma_string_frame_of(last.0@, Seq::<u8>::empty());
        assert(b.subrange(m + k.len(), b.len() as int) =~= x);
        lemma_tag_decodes_own_bytes(last.1);
    }
}

impl ILTag for ILDictTag {
    open spec fn obeys_tag_model() -> bool {
        true
    }

    open spec fn spec_serializes(&self) -> bool {
        true
    }

    closed spec fn spec_id(&self) -> u64 {
        self.id
    }

    closed spec fn spec_value(&self) -> Seq<u8> {
        spec_encode(self.value@.len() as u64) + dict_entries_bytes(self.value@)
    }

    open spec fn spec_decodes(&self, value: Seq<u8>) -> bool {
        self.decodes(value)
    }

    fn id(&self) -> (r: u64) {
        self.id
    }

    fn value_size(&self) -> (r: u64) {
        proof {
            crate::ilint::lemma_encode_len(self.value@.len() as u64);
        }
        crate::ilint::encoded_size(self.value.len() as u64) as u64 + dict_entries_size(&self.value)
    }

    fn serialize_value<W: Writer>(&self, writer: &mut W) -> (r: Result<()>)
        ensures
            r matches Err(e) ==> e is IOError,
            crate::io::writes_exactly(*old(writer), *final(writer), self.spec_value(), r is Ok),
    {
        let ghost a = spec_encode(self.value@.len() as u64);
        let ghost b = dict_entries_bytes(self.value@);
        proof {
            assert(self.spec_value() =~= a + b);
        }
        let r0 = serialize_ilint(self.value.len() as u64, writer);
        if r0.is_err() {
            proof {
                crate::io::lemma_writes_failed(*old(writer), *writer, a, a + b);
            }
            return r0;
        }
        let ghost w1 = *writer;
        let r = dict_entries_serialize(&self.value, writer);
        proof {
            crate::io::lemma_writes_chain(*old(writer), w1, *writer, a, b, r is Ok);
            if r is Ok {
                assert(W::obeys_model() ==> final(writer).written() =~= old(writer).written() + self.spec_value());
            }
        }
        r
    }

    /// Reads the `value_size` bytes of the value, then the number of
    /// entries and the entries, which must take all the bytes left. Each
    /// entry is put into the tag as `insert` does.
    #[verifier::spinoff_prover]
    #[verifier::rlimit(80)]
    fn deserialize_value<F: ILTagFactory, R: Reader>(
        &mut self,
        factory: &F,
        value_size: usize,
        reader: &mut R,
    ) -> (r: Result<()>)
        ensures
            R::obeys_model() ==> (old(reader).remaining().len() < value_size ==> r matches Err(ErrorKind::IOError(_))),
            R::obeys_model() ==> (r is Ok ==> old(reader).remaining().len() >= value_size
                && final(reader).remaining() == old(reader).remaining().skip(value_size as int)
                && final(self).decodes(old(reader).remaining().take(value_size as int)) && final(self).wf()),
            F::obeys_factory_model() && R::obeys_model() ==> (r is Ok ==> dict_value_holds(
                old(reader).remaining().take(value_size as int),
                final(self).entries(),
            )),
    {
        let bytes = deserialize_bytes(value_size, reader)?;
        let mut br = ByteArrayReader::new(bytes.as_slice());
        let count = deserialize_ilint(&mut br)?;
        let ghost start = br.remaining();
        let ghost mut taken: nat = 0;
        let ghost mut parsed: Seq<(Seq<char>, ILAnyTag)> = Seq::empty();
        let ghost mut lens: Seq<(nat, nat)> = Seq::empty();
        let mut pairs: Vec<(String, ILAnyTag)> = Vec::new();
        let mut i: u64 = 0;
        proof {
            assert(entry_keys(pair_entries(pairs@)) =~= Seq::<Seq<char>>::empty());
            assert(pair_entries(pairs@) =~= Seq::<(Seq<char>, ILAnyTag)>::empty());
            assert(start.skip(0) =~= start);
            assert(start.take(0) =~= Seq::<u8>::empty());
        }
        while i < count
            invariant
                i <= count,
                pairs@.len() <= i,
                R::obeys_model() ==> (old(reader).remaining().len() >= value_size),
                R::obeys_model() ==> (bytes@ == old(reader).remaining().take(value_size as int)),
                R::obeys_model() ==> (reader.remaining() == old(reader).remaining().skip(value_size as int)),
                spec_decode_from_bytes(bytes@) is Ok,
                spec_decode_from_bytes(bytes@)->Ok_0.0 == count,
                keys_sorted(entry_keys(pair_entries(pairs@))),
                start == bytes@.skip(spec_decode_from_bytes(bytes@)->Ok_0.1 as int),
                F::obeys_factory_model() ==> taken <= start.len(),
                F::obeys_factory_model() ==> br.remaining() == start.skip(taken as int),
                parsed.len() == i,
                F::obeys_factory_model() ==> dict_frames(start.take(taken as int), parsed, lens),
                pair_entries(pairs@) == entries_from_pairs(parsed),
            decreases count - i,
        {
            let ghost cur = br.remaining();
            let key = deserialize_string_tag_from_value(&mut br)?;
            let ghost mid = br.remaining();
            let ghost n1: nat = (cur.len() - mid.len()) as nat;
            let t = factory.deserialize(&mut br)?;
            let ghost n2: nat = (mid.len() - br.remaining().len()) as nat;
            let ghost tt = t;
            proof {
                lemma_entries_insert_sorted(pair_entries(pairs@), key@, t);
            }
            let ghost kk = key@;
            pairs_insert(&mut pairs, key.as_str(), t);
            proof {
                let next = (taken + n1 + n2) as nat;
                let np = parsed.push((kk, tt));
                let nl = lens.push((n1, n2));
                assert(np.drop_last() =~= parsed);
                assert(nl.drop_last() =~= lens);
                if F::obeys_factory_model() {
                    let b = start.take(next as int);
                    assert(mid =~= cur.skip(n1 as int));
                    assert(br.remaining() =~= start.skip(next as int));
                    assert(b.take(taken as int) =~= start.take(taken as int));
                    assert(b.subrange(taken as int, (taken + n1) as int) =~= cur.take(n1 as int));
                    lemma_string_frame_prefix(cur, n1 as int);
                    assert(b.subrange((taken + n1) as int, b.len() as int) =~= mid.take(n2 as int));
                    assert(dict_frames(b, np, nl));
                    taken = next;
                }
                parsed = np;
                lens = nl;
            }
            i = i + 1;
        }
        if br.available() != 0 {
            return Err(ErrorKind::CorruptedData);
        }
        proof {
            if F::obeys_factory_model() {
                assert(start.take(taken as int) =~= start);
            }
        }
        proof {
            if R::obeys_model() {
                assert(reader.remaining().len() == old(reader).remaining().len() - value_size);
            }
        }
        self.value = pairs;
        proof {
            if R::obeys_model() {
                assert(self.decodes(bytes@));
                assert(self.spec_decodes(old(reader).remaining().take(value_size as int)));
            }
        }
        Ok(())
    }
}

impl Default for ILDictTag {
    fn default() -> (r: Self)
        ensures
            r.spec_id() == IL_DICTIONARY_TAG_ID,
            r.entries() == Seq::<(Seq<char>, ILAnyTag)>::empty(),
    {
        Self::new()
    }
}

impl DefaultWithId for ILDictTag {
    fn default_with_id(id: u64) -> (r: Self) {
        Self::with_id(id)
    }
}

//=============================================================================
// ILStrDictTag
//-----------------------------------------------------------------------------
/// The serialization of the entries of a string dictionary: for each entry,
/// a standard string tag with the key followed by one with the value.
pub open spec fn str_entries_bytes(entries: Seq<(Seq<char>, Seq<char>)>) -> Seq<u8>
    decreases entries.len(),
{
    if entries.len() == 0 {
        Seq::empty()
    } else {
        str_entries_bytes(entries.drop_last()) + string_tag_bytes(entries.last().0) + string_tag_bytes(entries.last().1)
    }
}

/// The entries of a list of string pairs, as text.
pub open spec fn str_pair_entries(pairs: Seq<(String, String)>) -> Seq<(Seq<char>, Seq<char>)> {
    pairs.map_values(|p: (String, String)| (p.0@, p.1@))
}

proof fn lemma_str_entries_bytes_step(entries: Seq<(Seq<char>, Seq<char>)>, i: int)
    requires
        0 <= i < entries.len(),
    ensures
        str_entries_bytes(entries.take(i + 1)) == str_entries_bytes(entries.take(i)) + string_tag_bytes(entries[i].0)
            + string_tag_bytes(entries[i].1),
{
    assert(entries.take(i + 1).drop_last() =~= entries.take(i));
}

proof fn lemma_str_entries_bytes_prefix(entries: Seq<(Seq<char>, Seq<char>)>, i: int)
    requires
        0 <= i <= entries.len(),
    ensures
        str_entries_bytes(entries.take(i)).len() <= str_entries_bytes(entries).len(),
    decreases entries.len(),
{
    if i == entries.len() {
        assert(entries.take(i) =~= entries);
    } else {
        lemma_str_entries_bytes_prefix(entries.drop_last(), i);
        assert(entries.drop_last().take(i) =~= entries.take(i));
    }
}

/// The standard string dictionary tag: it maps strings to strings. It is
/// serialized as a dictionary tag whose values are string tags.
///
/// Its default id is `IL_STRING_DICTIONARY_TAG_ID`.
pub struct ILStrDictTag {
    id: u64,
    value: Vec<(String, String)>,
}

impl ILStrDictTag {
    /// The entries, in the order they are serialized.
    pub closed spec fn entries(&self) -> Seq<(Seq<char>, Seq<char>)> {
        str_pair_entries(self.value@)
    }

    /// True when the keys are in byte order, each once, as a map holds
    /// them. All operations but `mut_value` keep it.
    pub open spec fn wf(&self) -> bool {
        keys_sorted(entry_keys(self.entries()))
    }

    /// Creates an empty tag with the default id.
    pub fn new() -> (r: Self)
        ensures
            r.spec_id() == IL_STRING_DICTIONARY_TAG_ID,
            r.entries() == Seq::<(Seq<char>, Seq<char>)>::empty(),
            r.wf(),
    {
        Self::with_id(IL_STRING_DICTIONARY_TAG_ID)
    }

    /// Creates an empty tag with the given id.
    pub fn with_id(id: u64) -> (r: Self)
        ensures
            r.spec_id() == id,
            r.entries() == Seq::<(Seq<char>, Seq<char>)>::empty(),
            r.wf(),
    {
        let r = Self { id, value: Vec::new() };
        proof {
            assert(r.entries() =~= Seq::<(Seq<char>, Seq<char>)>::empty());
            assert(entry_keys(r.entries()) =~= Seq::<Seq<char>>::empty());
        }
        r
    }

    /// Returns the entries.
    pub fn value(&self) -> (r: &Vec<(String, String)>)
        ensures
            str_pair_entries(r@) == self.entries(),
    {
        &self.value
    }

    /// Returns the entries for modification.
    pub fn mut_value(&mut self) -> (r: &mut Vec<(String, String)>)
        ensures
            str_pair_entries(r@) == old(self).entries(),
            str_pair_entries(final(r)@) == final(self).entries(),
            final(self).spec_id() == old(self).spec_id(),
    {
        &mut self.value
    }

    /// Returns the number of entries.
    pub fn len(&self) -> (r: usize)
        ensures
            r == self.entries().len(),
    {
        self.value.len()
    }

    /// Returns true if there is no entry.
    pub fn is_empty(&self) -> (r: bool)
        ensures
            r == (self.entries().len() == 0),
    {
        self.value.len() == 0
    }

    /// Puts `v` under the key `k`, returning the string that was there.
    pub fn insert(&mut self, k: &str, v: &str) -> (r: Option<String>)
        ensures
            final(self).spec_id() == old(self).spec_id(),
            final(self).entries() == entries_insert(old(self).entries(), k@, v@),
            old(self).wf() ==> final(self).wf(),
            ({
                let i = key_index(old(self).entries().map_values(|e: (Seq<char>, Seq<char>)| e.0), k@);
                &&& i >= 0 ==> (r matches Some(s) && s@ == old(self).entries()[i].1)
                &&& i < 0 ==> r is None
            }),
    {
        proof {
            lemma_str_keys(self.value@);
            lemma_key_index_range(self.value@.map_values(|p: (String, String)| p.0@), k@);
        }
        let vs = v.to_owned();
        let ghost old_pairs = self.value@;
        let r = pairs_insert(&mut self.value, k, vs);
        proof {
            lemma_str_entries_insert(old_pairs, self.value@, k@, vs);
            if old(self).wf() {
                lemma_entries_insert_sorted(old(self).entries(), k@, v@);
            }
        }
        r
    }

    /// Returns the string under the key `k`.
    pub fn get(&self, k: &str) -> (r: Option<&str>)
        ensures
            ({
                let i = key_index(self.entries().map_values(|e: (Seq<char>, Seq<char>)| e.0), k@);
                &&& i >= 0 ==> (r matches Some(s) && s@ == self.entries()[i].1)
                &&& i < 0 ==> r is None
            }),
    {
        proof {
            lemma_str_keys(self.value@);
            lemma_key_index_range(self.value@.map_values(|p: (String, String)| p.0@), k@);
        }
        match pairs_get(&self.value, k) {
            Some(s) => Some(s.as_str()),
            None => None,
        }
    }

    /// True when the value bytes `value` may be deserialized into this tag:
    /// they start with the number of entries, an ILInt, which is at least
    /// the number of entries of this tag (keys may repeat).
    pub closed spec fn decodes(&self, value: Seq<u8>) -> bool {
        match spec_decode_from_bytes(value) {
            Ok((count, n)) => self.value@.len() <= count,
            Err(_) => false,
        }
    }
}

/// The text of the values of entries.
pub open spec fn text_values(e: Seq<(Seq<char>, String)>) -> Seq<(Seq<char>, Seq<char>)> {
    e.map_values(|x: (Seq<char>, String)| (x.0, x.1@))
}

proof fn lemma_str_entries_insert(before: Seq<(String, String)>, after: Seq<(String, String)>, k: Seq<char>, v: String)
    requires
        pair_entries(after) == entries_insert(pair_entries(before), k, v),
    ensures
        str_pair_entries(after) == entries_insert(str_pair_entries(before), k, v@),
{
    let e = pair_entries(before);
    let t = str_pair_entries(before);
    assert(t =~= text_values(e));
    assert(str_pair_entries(after) =~= text_values(pair_entries(after)));
    let keys_e = e.map_values(|x: (Seq<char>, String)| x.0);
    let keys_t = t.map_values(|x: (Seq<char>, Seq<char>)| x.0);
    assert(keys_e =~= keys_t);
    let i = key_index(keys_e, k);
    lemma_key_index_range(keys_e, k);
    if i >= 0 {
        assert(text_values(e.update(i, (k, v))) =~= t.update(i, (k, v@)));
    } else {
        let p = insert_position(keys_e, k);
        lemma_insert_position_range(keys_e, k);
        e.insert_ensures(p, (k, v));
        t.insert_ensures(p, (k, v@));
        assert(text_values(e.insert(p, (k, v))) =~= t.insert(p, (k, v@)));
    }
}

proof fn lemma_str_keys(pairs: Seq<(String, String)>)
    ensures
        str_pair_entries(pairs).map_values(|e: (Seq<char>, Seq<char>)| e.0) == pairs.map_values(|p: (String, String)| p.0@),
{
    assert(str_pair_entries(pairs).map_values(|e: (Seq<char>, Seq<char>)| e.0) =~= pairs.map_values(|p: (String, String)| p.0@));
}

/// Size of the serialization of string dictionary entries.
fn str_entries_size(entries: &Vec<(String, String)>) -> (r: u64)
    requires
        str_entries_bytes(str_pair_entries(entries@)).len() <= u64::MAX,
    ensures
        r == str_entries_bytes(str_pair_entries(entries@)).len(),
{
    let ghost e = str_pair_entries(entries@);
    let mut size: u64 = 0;
    let mut i: usize = 0;
    while i < entries.len()
        invariant
            i <= entries@.len(),
            e == str_pair_entries(entries@),
            str_entries_bytes(e).len() <= u64::MAX,
            size == str_entries_bytes(e.take(i as int)).len(),
        decreases entries@.len() - i,
    {
        proof {
            lemma_str_entries_bytes_step(e, i as int);
            lemma_str_entries_bytes_prefix(e, i + 1);
        }
        let k = string_tag_size_from_value(entries[i].0.as_str());
        let v = string_tag_size_from_value(entries[i].1.as_str());
        size = size + k + v;
        i = i + 1;
    }
    proof {
        assert(e.take(i as int) =~= e);
    }
    size
}

/// Serializes string dictionary entries.
fn str_entries_serialize<W: Writer>(entries: &Vec<(String, String)>, writer: &mut W) -> (r: Result<()>)
    ensures
        r matches Err(e) ==> e is IOError,
        W::obeys_model() && r is Ok ==> final(writer).written() == old(writer).written() + str_entries_bytes(str_pair_entries(entries@)),
        crate::io::writes_exactly(*old(writer), *final(writer), str_entries_bytes(str_pair_entries(entries@)), r is Ok),
{
    let ghost e = str_pair_entries(entries@);
    let mut i: usize = 0;
    proof {
        crate::io::lemma_writes_nothing(*writer);
        assert(str_entries_bytes(e.take(0)) =~= Seq::<u8>::empty()) by {
            assert(e.take(0) =~= Seq::<(Seq<char>, Seq<char>)>::empty());
        }
    }
    while i < entries.len()
        invariant
            i <= entries@.len(),
            e == str_pair_entries(entries@),
            W::obeys_model() ==> writer.written() == old(writer).written() + str_entries_bytes(e.take(i as int)),
            crate::io::writes_exactly(*old(writer), *writer, str_entries_bytes(e.take(i as int)), true),
        decreases entries@.len() - i,
    {
        proof {
            lemma_str_entries_bytes_step(e, i as int);
            lemma_str_entries_bytes_prefix(e, i + 1);
        }
        let ghost w0 = *writer;
        let ghost done = str_entries_bytes(e.take(i as int));
        let ghost k = string_tag_bytes(e[i as int].0);
        let ghost v = string_tag_bytes(e[i as int].1);
        let r0 = serialize_string_tag_from_value(entries[i].0.as_str(), writer);
        if r0.is_err() {
            proof {
                crate::io::lemma_writes_chain(*old(writer), w0, *writer, done, k, false);
                crate::io::lemma_writes_failed(*old(writer), *writer, done + k, str_entries_bytes(e));
            }
            return r0;
        }
        let ghost w1 = *writer;
        proof {
            crate::io::lemma_writes_chain(*old(writer), w0, w1, done, k, true);
        }
        let r1 = serialize_string_tag_from_value(entries[i].1.as_str(), writer);
        if r1.is_err() {
            proof {
                crate::io::lemma_writes_chain(*old(writer), w1, *writer, done + k, v, false);
                crate::io::lemma_writes_failed(*old(writer), *writer, done + k + v, str_entries_bytes(e));
            }
            return r1;
        }
        proof {
            crate::io::lemma_writes_chain(*old(writer), w1, *writer, done + k, v, true);
            assert(done + k + v =~= str_entries_bytes(e.take(i + 1)));
            assert(W::obeys_model() ==> writer.written() =~= old(writer).written() + str_entries_bytes(e.take(i + 1)));
        }
        i = i + 1;
    }
    proof {
        assert(e.take(i as int) =~= e);
    }
    Ok(())
}

impl ILTag for ILStrDictTag {
    open spec fn obeys_tag_model() -> bool {
        true
    }

    open spec fn spec_serializes(&self) -> bool {
        true
    }

    closed spec fn spec_id(&self) -> u64 {
        self.id
    }

    closed spec fn spec_value(&self) -> Seq<u8> {
        spec_encode(self.value@.len() as u64) + str_entries_bytes(str_pair_entries(self.value@))
    }

    open spec fn spec_decodes(&self, value: Seq<u8>) -> bool {
        self.decodes(value)
    }

    fn id(&self) -> (r: u64) {
        self.id
    }

    fn value_size(&self) -> (r: u64) {
        proof {
            crate::ilint::lemma_encode_len(self.value@.len() as u64);
        }
        crate::ilint::encoded_size(self.value.len() as u64) as u64 + str_entries_size(&self.value)
    }

    fn serialize_value<W: Writer>(&self, writer: &mut W) -> (r: Result<()>)
        ensures
            r matches Err(e) ==> e is IOError,
            crate::io::writes_exactly(*old(writer), *final(writer), self.spec_value(), r is Ok),
    {
        let ghost w0 = *writer;
        let ghost a = spec_encode(self.value@.len() as u64);
        let ghost b = str_entries_bytes(str_pair_entries(self.value@));
        proof {
            assert(self.spec_value() =~= a + b);
        }
        let r0 = serialize_ilint(self.value.len() as u64, writer);
        if r0.is_err() {
            proof {
                crate::io::lemma_writes_failed(w0, *writer, a, a + b);
            }
            return r0;
        }
        let ghost w1 = *writer;
        let r = str_entries_serialize(&self.value, writer);
        proof {
            crate::io::lemma_writes_chain(w0, w1, *writer, a, b, r is Ok);
            if r is Ok {
                assert(W::obeys_model() ==> final(writer).written() =~= old(writer).written() + self.spec_value());
            }
        }
        r
    }

    /// Reads the `value_size` bytes of the value, then the number of
    /// entries and the entries, which must take all the bytes left. Each
    /// entry is put into the tag as `insert` does.
    #[verifier::rlimit(80)]
    #[verifier::spinoff_prover]
    fn deserialize_value<F: ILTagFactory, R: Reader>(
        &mut self,
        factory: &F,
        value_size: usize,
        reader: &mut R,
    ) -> (r: Result<()>)
        ensures
            R::obeys_model() ==> (old(reader).remaining().len() < value_size ==> r matches Err(ErrorKind::IOError(_))),
            R::obeys_model() ==> (old(reader).remaining().len() >= value_size ==> str_dict_outcome(
                old(reader).remaining().take(value_size as int),
                r,
            )),
            R::obeys_model() ==> (r is Ok ==> old(reader).remaining().len() >= value_size
                && final(reader).remaining() == old(reader).remaining().skip(value_size as int)
                && final(self).decodes(old(reader).remaining().take(value_size as int)) && final(self).wf()),
            R::obeys_model() ==> (r is Ok ==> final(self).entries() == str_dict_entries(old(reader).remaining().take(value_size as int))),
    {
        let bytes = deserialize_bytes(value_size, reader)?;
        let mut br = ByteArrayReader::new(bytes.as_slice());
        proof {
            if spec_truncated(bytes@) {
                assert(spec_decode_from_bytes(bytes@) is Err);
            }
        }
        let count = deserialize_ilint(&mut br)?;
        let ghost start = br.remaining();
        let ghost mut taken: nat = 0;
        let ghost mut parsed: Seq<(Seq<char>, Seq<char>)> = Seq::empty();
        let mut pairs: Vec<(String, String)> = Vec::new();
        let mut i: u64 = 0;
        proof {
            assert(entry_keys(str_pair_entries(pairs@)) =~= Seq::<Seq<char>>::empty());
            assert(start.skip(0) =~= start);
            assert(str_pair_entries(pairs@) =~= Seq::<(Seq<char>, Seq<char>)>::empty());
            assert(parsed + string_pairs(start, count as nat) =~= string_pairs(start, count as nat));
        }
        while i < count
            invariant
                i <= count,
                pairs@.len() <= i,
                R::obeys_model() ==> (old(reader).remaining().len() >= value_size),
                R::obeys_model() ==> (bytes@ == old(reader).remaining().take(value_size as int)),
                R::obeys_model() ==> (reader.remaining() == old(reader).remaining().skip(value_size as int)),
                spec_decode_from_bytes(bytes@) is Ok,
                spec_decode_from_bytes(bytes@)->Ok_0.0 == count,
                keys_sorted(entry_keys(str_pair_entries(pairs@))),
                start == bytes@.skip(spec_decode_from_bytes(bytes@)->Ok_0.1 as int),
                taken <= start.len(),
                br.remaining() == start.skip(taken as int),
                string_frames_span(start, 2 * count as nat) == span_shift(
                    string_frames_span(br.remaining(), (2 * (count - i)) as nat),
                    taken,
                ),
                string_pairs(start, count as nat) == parsed + string_pairs(br.remaining(), (count - i) as nat),
                str_pair_entries(pairs@) == entries_from_pairs(parsed),
            decreases count - i,
        {
            let ghost cur = br.remaining();
            proof {
                lemma_string_frames_step(cur, (2 * (count - i)) as nat);
            }
            let key = deserialize_string_tag_from_value(&mut br)?;
            let ghost mid = br.remaining();
            let ghost n1: nat = (cur.len() - mid.len()) as nat;
            proof {
                lemma_string_frames_step(mid, (2 * (count - i) - 1) as nat);
            }
            let v = deserialize_string_tag_from_value(&mut br)?;
            let ghost n2: nat = (mid.len() - br.remaining().len()) as nat;
            proof {
                assert(mid == cur.skip(n1 as int));
                assert(br.remaining() =~= start.skip((taken + n1 + n2) as int));
                taken = taken + n1 + n2;
            }
            let ghost before = pairs@;
            let ghost vv = v@;
            let ghost kk = key@;
            pairs_insert(&mut pairs, key.as_str(), v);
            proof {
                lemma_str_entries_insert(before, pairs@, key@, v);
                lemma_entries_insert_sorted(str_pair_entries(before), key@, vv);
                assert(br.remaining() =~= cur.skip((n1 + n2) as int));
                lemma_string_pairs_step(cur, (count - i) as nat, n1, n2);
                let rest = string_pairs(br.remaining(), (count - i - 1) as nat);
                assert(string_pairs(cur, (count - i) as nat) == seq![(kk, vv)] + rest);
                assert(parsed + (seq![(kk, vv)] + rest) =~= parsed.push((kk, vv)) + rest);
                assert(parsed.push((kk, vv)).drop_last() =~= parsed);
                parsed = parsed.push((kk, vv));
            }
            i = i + 1;
        }
        proof {
            assert(string_frames_span(br.remaining(), 0) == Some(0nat));
            assert(parsed + string_pairs(br.remaining(), 0) =~= parsed);
        }
        if br.available() != 0 {
            return Err(ErrorKind::CorruptedData);
        }
        proof {
            if R::obeys_model() {
                assert(reader.remaining().len() == old(reader).remaining().len() - value_size);
            }
        }
        self.value = pairs;
        proof {
            assert(self.decodes(bytes@));
        }
        Ok(())
    }
}

impl Default for ILStrDictTag {
    fn default() -> (r: Self)
        ensures
            r.spec_id() == IL_STRING_DICTIONARY_TAG_ID,
            r.entries() == Seq::<(Seq<char>, Seq<char>)>::empty(),
    {
        Self::new()
    }
}

impl DefaultWithId for ILStrDictTag {
    fn default_with_id(id: u64) -> (r: Self) {
        Self::with_id(id)
    }
}

//=============================================================================
// Laws
//-----------------------------------------------------------------------------
impl ILByteArrayTag {
    /// A tag deserializes from its own serialized value, and any tag that
    /// deserializes from it holds the same bytes.
    pub proof fn lemma_value_roundtrip(self, other: Self)
        ensures
            self.decodes(self.spec_value()),
            other.decodes(self.spec_value()) ==> other.spec_value() == self.spec_value(),
    {
    }
}

impl ILBigIntTag {
    /// A tag deserializes from its own serialized value, and any tag that
    /// deserializes from it holds the same bytes.
    pub proof fn lemma_value_roundtrip(self, other: Self)
        ensures
            self.decodes(self.spec_value()),
            other.decodes(self.spec_value()) ==> other.spec_value() == self.spec_value(),
    {
    }
}

impl ILStringTag {
    /// A tag deserializes from its own serialized value, and any tag that
    /// deserializes from it holds the same string.
    pub proof fn lemma_value_roundtrip(self, other: Self)
        ensures
            self.decodes(self.spec_value()),
            other.decodes(self.spec_value()) ==> other@ == self@,
    {
        crate::io::data::lemma_string_roundtrip(self.value@);
    }
}

impl ILRangeTag {
    /// A tag deserializes from its own serialized value, and any tag that
    /// deserializes from it holds the same range.
    pub proof fn lemma_value_roundtrip(self, other: Self)
        ensures
            self.decodes(self.spec_value()),
            other.decodes(self.spec_value()) ==> other.spec_start() == self.spec_start()
                && other.spec_count() == self.spec_count(),
    {
        let tail = crate::ilint::be_bytes(self.count as nat, 2);
        crate::ilint::lemma_encode_decode(self.start, tail);
        crate::ilint::lemma_encode_len(self.start);
        crate::io::data::lemma_pow_values();
        crate::io::data::lemma_unsigned_roundtrip(self.count as nat, 2);
        let n = crate::ilint::spec_encoded_size(self.start);
        assert(self.spec_value().skip(n as int) =~= tail);
    }
}

impl ILBigDecTag {
    /// A tag deserializes from its own serialized value, and any tag that
    /// deserializes from it holds the same scale and integral part.
    pub proof fn lemma_value_roundtrip(self, other: Self)
        ensures
            self.decodes(self.spec_value()),
            other.decodes(self.spec_value()) ==> other.spec_scale() == self.spec_scale()
                && other.spec_integral() == self.spec_integral(),
    {
        let head = crate::ilint::be_bytes(to_twos(self.scale as int, 32), 4);
        crate::io::data::lemma_pow_values();
        crate::io::data::lemma_signed_roundtrip(self.scale as int, 4);
        assert(self.spec_value().take(4) =~= head);
        assert(self.spec_value().skip(4) =~= self.inner.spec_value());
    }
}

proof fn lemma_ilints_bytes_len(values: Seq<u64>)
    ensures
        ilints_bytes(values).len() >= values.len(),
    decreases values.len(),
{
    if values.len() > 0 {
        lemma_ilints_bytes_len(values.drop_last());
        crate::ilint::lemma_encode_len(values.last());
    }
}

proof fn lemma_items_bytes_len(items: Seq<ILAnyTag>)
    ensures
        items_bytes(items).len() >= items.len(),
    decreases items.len(),
{
    if items.len() > 0 {
        lemma_items_bytes_len(items.drop_last());
        crate::ilint::lemma_encode_len(any_id(items.last()));
    }
}

proof fn lemma_dict_entries_bytes_len(entries: Seq<(String, ILAnyTag)>)
    ensures
        dict_entries_bytes(entries).len() >= entries.len(),
    decreases entries.len(),
{
    if entries.len() > 0 {
        lemma_dict_entries_bytes_len(entries.drop_last());
        crate::ilint::lemma_encode_len(any_id(entries.last().1));
    }
}

proof fn lemma_str_entries_bytes_len(entries: Seq<(Seq<char>, Seq<char>)>)
    ensures
        str_entries_bytes(entries).len() >= entries.len(),
    decreases entries.len(),
{
    if entries.len() > 0 {
        lemma_str_entries_bytes_len(entries.drop_last());
        crate::ilint::lemma_encode_len(IL_STRING_TAG_ID);
    }
}

/// ILInts out of the same bytes are the same values.
proof fn lemma_ilints_decode_unique(bytes: Seq<u8>, a: Seq<u64>, b: Seq<u64>)
    requires
        ilints_decode(bytes, a),
        ilints_decode(bytes, b),
        a.len() == b.len(),
    ensures
        a == b,
    decreases a.len(),
{
    if a.len() > 0 {
        let n = spec_decode_from_bytes(bytes)->Ok_0.1;
        lemma_ilints_decode_unique(bytes.skip(n as int), a.skip(1), b.skip(1));
        assert(a =~= seq![a[0]] + a.skip(1));
        assert(b =~= seq![b[0]] + b.skip(1));
    } else {
        assert(a =~= b);
    }
}

impl ILILIntArrayTag {
    /// A tag deserializes from its own serialized value, and any tag that
    /// deserializes from it holds the same values.
    pub proof fn lemma_value_roundtrip(self, other: Self)
        requires
            self.spec_value().len() <= u64::MAX,
        ensures
            self.decodes(self.spec_value()),
            other.decodes(self.spec_value()) ==> other@ == self@,
    {
        let vals = self.value@;
        lemma_ilints_bytes_len(vals);
        lemma_ilints_decode_bytes(vals);
        crate::ilint::lemma_encode_decode(vals.len() as u64, ilints_bytes(vals));
        crate::ilint::lemma_encode_len(vals.len() as u64);
        assert(self.spec_value().skip(crate::ilint::spec_encoded_size(vals.len() as u64) as int) =~= ilints_bytes(vals));
        if other.decodes(self.spec_value()) {
            lemma_ilints_decode_unique(ilints_bytes(vals), vals, other.value@);
        }
    }
}

impl ILOIDTag {
    /// A tag deserializes from its own serialized value, and any tag that
    /// deserializes from it holds the same values.
    pub proof fn lemma_value_roundtrip(self, other: Self)
        requires
            self.spec_value().len() <= u64::MAX,
        ensures
            self.decodes(self.spec_value()),
            other.decodes(self.spec_value()) ==> other@ == self@,
    {
        self.inner.lemma_value_roundtrip(other.inner);
    }
}

impl ILVersionTag {
    /// A tag deserializes from its own serialized value, and any tag that
    /// deserializes from it holds the same version.
    pub proof fn lemma_value_roundtrip(self, other: Self)
        ensures
            self.decodes(self.spec_value()),
            other.decodes(self.spec_value()) ==> other@ == self@,
    {
        let v = self.value@;
        let b = self.spec_value();
        crate::io::data::lemma_pow_values();
        crate::ilint::lemma_be_bytes_len(to_twos(v[0] as int, 32), 4);
        crate::ilint::lemma_be_bytes_len(to_twos(v[1] as int, 32), 4);
        crate::ilint::lemma_be_bytes_len(to_twos(v[2] as int, 32), 4);
        crate::ilint::lemma_be_bytes_len(to_twos(v[3] as int, 32), 4);
        assert(b.len() == 16);
        assert forall|i: int| 0 <= i < 4 implies #[trigger] v[i] == from_twos(crate::ilint::be_value(b.subrange(4 * i, 4 * i + 4)), 32) by {
            crate::io::data::lemma_pow_values();
            crate::io::data::lemma_signed_roundtrip(v[0] as int, 4);
            crate::io::data::lemma_signed_roundtrip(v[1] as int, 4);
            crate::io::data::lemma_signed_roundtrip(v[2] as int, 4);
            crate::io::data::lemma_signed_roundtrip(v[3] as int, 4);
            if i == 0 {
                assert(b.subrange(0, 4) =~= crate::ilint::be_bytes(to_twos(v[0] as int, 32), 4));
            } else if i == 1 {
                assert(b.subrange(4, 8) =~= crate::ilint::be_bytes(to_twos(v[1] as int, 32), 4));
            } else if i == 2 {
                assert(b.subrange(8, 12) =~= crate::ilint::be_bytes(to_twos(v[2] as int, 32), 4));
            } else {
                assert(b.subrange(12, 16) =~= crate::ilint::be_bytes(to_twos(v[3] as int, 32), 4));
            }
        }
        if other.decodes(b) {
            assert forall|i: int| 0 <= i < 4 implies other.value@[i] == v[i] by {
                assert(other.value@[i] == from_twos(crate::ilint::be_value(b.subrange(4 * i, 4 * i + 4)), 32));
            }
            assert(other.value@ =~= v);
        }
    }
}

proof fn lemma_ilints_decode_bytes(values: Seq<u64>)
    ensures
        ilints_decode(ilints_bytes(values), values),
    decreases values.len(),
{
    if values.len() == 0 {
    } else {
        let d = spec_encode(values.last());
        lemma_ilints_decode_bytes(values.drop_last());
        crate::ilint::lemma_encode_decode(values.last(), Seq::empty());
        crate::ilint::lemma_encode_len(values.last());
        assert(d + Seq::<u8>::empty() =~= d);
        lemma_ilints_decode_push(ilints_bytes(values.drop_last()), d, values.drop_last(), values.last());
        assert(values.drop_last().push(values.last()) =~= values);
    }
}

/// Every tag deserializes from its own serialized value.
pub proof fn lemma_tag_decodes_own_value(t: ILAnyTag)
    requires
        any_value(t).len() <= u64::MAX,
    ensures
        any_decodes(t, any_value(t)),
    decreases t, 0nat,
{
    match t {
        ILAnyTag::Null(x) => {
            x.lemma_value_roundtrip(x);
            assert(any_value(t) == x.spec_value());
            assert(any_decodes(t, any_value(t)) == x.decodes(x.spec_value()));
        },
        ILAnyTag::Bool(x) => x.lemma_value_roundtrip(x),
        ILAnyTag::Int8(x) => x.lemma_value_roundtrip(x),
        ILAnyTag::UInt8(x) => x.lemma_value_roundtrip(x),
        ILAnyTag::Int16(x) => x.lemma_value_roundtrip(x),
        ILAnyTag::UInt16(x) => x.lemma_value_roundtrip(x),
        ILAnyTag::Int32(x) => x.lemma_value_roundtrip(x),
        ILAnyTag::UInt32(x) => x.lemma_value_roundtrip(x),
        ILAnyTag::Int64(x) => x.lemma_value_roundtrip(x),
        ILAnyTag::UInt64(x) => x.lemma_value_roundtrip(x),
        ILAnyTag::ILInt(x) => x.lemma_value_roundtrip(x),
        ILAnyTag::SignedILInt(x) => x.lemma_value_roundtrip(x),
        ILAnyTag::Bin32(x) => x.lemma_value_roundtrip(x),
        ILAnyTag::Bin64(x) => x.lemma_value_roundtrip(x),
        ILAnyTag::Bin128(x) => x.lemma_value_roundtrip(x),
        ILAnyTag::Raw(x) => {},
        ILAnyTag::TagSeq(x) => {
            lemma_items_decode_bytes(x.value@);
        },
        ILAnyTag::TagArray(x) => {
            let items = x.inner.value@;
            lemma_items_bytes_len(items);
            lemma_items_decode_bytes(items);
            crate::ilint::lemma_encode_decode(items.len() as u64, items_bytes(items));
            crate::ilint::lemma_encode_len(items.len() as u64);
            assert(any_value(t).skip(crate::ilint::spec_encoded_size(items.len() as u64) as int) =~= items_bytes(items));
        },
        ILAnyTag::Bytes(x) => x.lemma_value_roundtrip(x),
        ILAnyTag::Str(x) => x.lemma_value_roundtrip(x),
        ILAnyTag::BigInt(x) => x.lemma_value_roundtrip(x),
        ILAnyTag::BigDec(x) => x.lemma_value_roundtrip(x),
        ILAnyTag::ILIntArray(x) => x.lemma_value_roundtrip(x),
        ILAnyTag::Range(x) => x.lemma_value_roundtrip(x),
        ILAnyTag::Version(x) => x.lemma_value_roundtrip(x),
        ILAnyTag::OID(x) => x.lemma_value_roundtrip(x),
        ILAnyTag::Dict(x) => {
            lemma_dict_entries_bytes_len(x.value@);
            crate::ilint::lemma_encode_decode(x.value@.len() as u64, dict_entries_bytes(x.value@));
        },
        ILAnyTag::StrDict(x) => {
            lemma_str_entries_bytes_len(str_pair_entries(x.value@));
            crate::ilint::lemma_encode_decode(x.value@.len() as u64, str_entries_bytes(str_pair_entries(x.value@)));
        },
    }
}

/// Every tag deserializes from its own serialization: its id, its size when
/// the id is explicit, and its value.
#[verifier::spinoff_prover]
#[verifier::rlimit(40)]
pub proof fn lemma_tag_decodes_own_bytes(t: ILAnyTag)
    requires
        any_value(t).len() <= u64::MAX,
    ensures
        frame_decodes(spec_tag_bytes(any_id(t), any_value(t)), t),
    decreases t, 1nat,
{
    let id = any_id(t);
    let v = any_value(t);
    let b = spec_tag_bytes(id, v);
    lemma_tag_decodes_own_value(t);
    crate::ilint::lemma_encode_len(id);
    let n1 = crate::ilint::spec_encoded_size(id);
    if id <= IMPLICIT_ID_MAX {
        crate::ilint::lemma_encode_decode(id, v);
        assert(b.skip(n1 as int) =~= v);
    } else {
        let rest = spec_encode(v.len() as u64) + v;
        crate::ilint::lemma_encode_decode(id, rest);
        assert(b =~= spec_encode(id) + rest);
        assert(b.skip(n1 as int) =~= rest);
        crate::ilint::lemma_encode_decode(v.len() as u64, v);
        crate::ilint::lemma_encode_len(v.len() as u64);
        let n2 = crate::ilint::spec_encoded_size(v.len() as u64);
        assert(b.skip((n1 + n2) as int) =~= v);
    }
}

/// A list of tags deserializes from the serializations of its tags, one
/// after the other.
pub proof fn lemma_items_decode_bytes(items: Seq<ILAnyTag>)
    requires
        items_bytes(items).len() <= u64::MAX,
    ensures
        items_decode(items_bytes(items), items),
    decreases items, 2nat,
{
    if items.len() > 0 {
        let last = items.last();
        let prev = items.drop_last();
        let frame = spec_tag_bytes(any_id(last), any_value(last));
        assert(items_bytes(items) == items_bytes(prev) + frame);
        lemma_items_decode_bytes(prev);
        lemma_tag_decodes_own_bytes(last);
        crate::ilint::lemma_encode_len(any_id(last));
        lemma_items_decode_push(items_bytes(prev), frame, prev, last);
        assert(prev.push(last) =~= items);
    }
}

//=============================================================================
// Kinds of tags
//-----------------------------------------------------------------------------
/// True for the kinds of the ILInt tags, which read their value whatever
/// size they are given.
pub open spec fn is_ilint_kind(k: TagKind) -> bool {
    k == TagKind::ILInt || k == TagKind::SignedILInt
}

/// The length of the tag that `bytes` starts with.
pub open spec fn frame_len(bytes: Seq<u8>) -> nat {
    match frame_header(bytes) {
        Some((_, size, h)) => (h + size) as nat,
        None => 0,
    }
}

/// True when `bytes` starts with a whole serialized tag that `engine`
/// reads back: its id is known, with a creator of a known kind (and is not
/// the id of an ILInt tag), and its value is one of that kind.
pub open spec fn std_frame_first(engine: ILTagCreatorEngine, bytes: Seq<u8>) -> bool
    decreases bytes.len(), 1nat, 0nat,
{
    match frame_header(bytes) {
        Some((id, size, h)) => h > 0 && h + size <= bytes.len() && size <= MAX_TAG_SIZE && engine.wf()
            && engine.ids().contains(id) && engine.kinds()[id] is Some && id != IL_ILINT_TAG_ID && id
            != IL_SIGNED_ILINT_TAG_ID && std_value(
            engine,
            engine.kinds()[id]->Some_0.kind,
            bytes.subrange(h as int, h + size),
        ),
        None => false,
    }
}

/// True when `v` is a value of kind `k` that `engine` reads back: a leaf
/// value of that kind, or a container whose tags are all read back.
pub open spec fn std_value(engine: ILTagCreatorEngine, k: TagKind, v: Seq<u8>) -> bool
    decreases v.len(), 3nat, 0nat,
{
    if is_leaf_kind(k) {
        leaf_accepts(k, v)
    } else if k == TagKind::TagSeq {
        std_frames(engine, v)
    } else if k == TagKind::TagArray {
        !spec_truncated(v) && (spec_decode_from_bytes(v) matches Ok((count, n)) && n <= v.len() && count
            <= v.len() && std_frames(engine, v.skip(n as int)) && frame_count(v.skip(n as int)) == count)
    } else {
        !spec_truncated(v) && (spec_decode_from_bytes(v) matches Ok((count, n)) && n <= v.len()
            && std_dict_entries(engine, v.skip(n as int), count as nat))
    }
}

/// True when `bytes` holds, one after the other, whole serialized tags that
/// `engine` reads back.
pub open spec fn std_frames(engine: ILTagCreatorEngine, bytes: Seq<u8>) -> bool
    decreases bytes.len(), 2nat, 0nat,
{
    if bytes.len() == 0 {
        true
    } else {
        std_frame_first(engine, bytes) && 0 < frame_len(bytes) <= bytes.len() && std_frames(
            engine,
            bytes.skip(frame_len(bytes) as int),
        )
    }
}

/// True when `bytes` holds `count` dictionary entries, each a string tag
/// and a whole serialized tag that `engine` reads back, and nothing more.
pub open spec fn std_dict_entries(engine: ILTagCreatorEngine, bytes: Seq<u8>, count: nat) -> bool
    decreases bytes.len(), 2nat, count,
{
    if count == 0 {
        bytes.len() == 0
    } else {
        match string_frame(bytes) {
            Some((_, n1)) => n1 <= bytes.len() && std_frame_first(engine, bytes.skip(n1 as int)) && frame_len(
                bytes.skip(n1 as int),
            ) <= bytes.len() - n1 && std_dict_entries(
                engine,
                bytes.skip(n1 as int).skip(frame_len(bytes.skip(n1 as int)) as int),
                (count - 1) as nat,
            ),
            None => false,
        }
    }
}

/// The number of tags, one after the other, that `bytes` starts with.
pub open spec fn frame_count(bytes: Seq<u8>) -> nat
    decreases bytes.len(),
{
    if bytes.len() == 0 {
        0
    } else if 0 < frame_len(bytes) <= bytes.len() {
        1 + frame_count(bytes.skip(frame_len(bytes) as int))
    } else {
        0
    }
}

/// True when `v` is the value of an empty container of kind `k`: nothing
/// for a tag sequence, a count of 0 for a tag array or a dictionary.
pub open spec fn empty_container_value(k: TagKind, v: Seq<u8>) -> bool {
    ||| k == TagKind::TagSeq && v.len() == 0
    ||| (k == TagKind::TagArray || k == TagKind::Dict) && v == seq![0u8]
}

/// True for the kinds of tags whose value holds no other tag.
pub open spec fn is_leaf_kind(k: TagKind) -> bool {
    !(k == TagKind::TagSeq || k == TagKind::TagArray || k == TagKind::Dict)
}

/// True when the bytes `v`, taken as the whole value of a tag of the leaf
/// kind `k`, deserialize into such a tag.
pub open spec fn leaf_accepts(k: TagKind, v: Seq<u8>) -> bool {
    match k {
        TagKind::Null => v.len() == 0,
        TagKind::Bool => v.len() == 1 && v[0] <= 1,
        TagKind::Int8 | TagKind::UInt8 => v.len() == 1,
        TagKind::Int16 | TagKind::UInt16 => v.len() == 2,
        TagKind::Int32 | TagKind::UInt32 | TagKind::Bin32 => v.len() == 4,
        TagKind::Int64 | TagKind::UInt64 | TagKind::Bin64 => v.len() == 8,
        TagKind::Bin128 | TagKind::Version => v.len() == 16,
        TagKind::ILInt | TagKind::SignedILInt => !spec_truncated(v) && (spec_decode_from_bytes(v) matches Ok((
            _,
            n,
        )) && n == v.len()),
        TagKind::Raw | TagKind::Bytes | TagKind::BigInt => true,
        TagKind::Str => valid_utf8(v),
        TagKind::BigDec => v.len() >= 4,
        TagKind::ILIntArray | TagKind::OID => ilint_array_outcome(v, Ok(())),
        TagKind::Range => range_outcome(v, Ok(())),
        TagKind::StrDict => str_dict_outcome(v, Ok(())),
        TagKind::TagSeq | TagKind::TagArray | TagKind::Dict => false,
    }
}

/// The id that the tags of kind `k` get by default. Raw tags have none:
/// they always take the id they are made for.
pub open spec fn std_kind_id(k: TagKind) -> u64 {
    match k {
        TagKind::Null => IL_NULL_TAG_ID,
        TagKind::Bool => IL_BOOL_TAG_ID,
        TagKind::Int8 => IL_INT8_TAG_ID,
        TagKind::UInt8 => IL_UINT8_TAG_ID,
        TagKind::Int16 => IL_INT16_TAG_ID,
        TagKind::UInt16 => IL_UINT16_TAG_ID,
        TagKind::Int32 => IL_INT32_TAG_ID,
        TagKind::UInt32 => IL_UINT32_TAG_ID,
        TagKind::Int64 => IL_INT64_TAG_ID,
        TagKind::UInt64 => IL_UINT64_TAG_ID,
        TagKind::ILInt => IL_ILINT_TAG_ID,
        TagKind::SignedILInt => IL_SIGNED_ILINT_TAG_ID,
        TagKind::Bin32 => IL_BIN32_TAG_ID,
        TagKind::Bin64 => IL_BIN64_TAG_ID,
        TagKind::Bin128 => IL_BIN128_TAG_ID,
        TagKind::TagSeq => IL_ILTAGSEQ_TAG_ID,
        TagKind::TagArray => IL_ILTAGARRAY_TAG_ID,
        TagKind::Bytes => IL_BYTES_TAG_ID,
        TagKind::Str => IL_STRING_TAG_ID,
        TagKind::BigInt => IL_BINT_TAG_ID,
        TagKind::BigDec => IL_BDEC_TAG_ID,
        TagKind::ILIntArray => IL_ILINTARRAY_TAG_ID,
        TagKind::Range => IL_RANGE_TAG_ID,
        TagKind::Version => IL_VERSION_TAG_ID,
        TagKind::OID => IL_OID_TAG_ID,
        TagKind::Dict => IL_DICTIONARY_TAG_ID,
        TagKind::StrDict => IL_STRING_DICTIONARY_TAG_ID,
        TagKind::Raw => 0,
    }
}

/// True when the tags of kind `k` can be made with any id.
pub open spec fn kind_takes_id(k: TagKind) -> bool {
    !(k == TagKind::Bytes || k == TagKind::BigInt || k == TagKind::BigDec)
}

/// The id of the empty tag that a creator of kind `k` makes for `id`: `id`
/// itself for raw tags and for creators that take the id, the kind's own id
/// otherwise.
pub open spec fn made_id(k: CreatorKind, id: u64) -> u64 {
    if k.kind == TagKind::Raw || (k.with_id && kind_takes_id(k.kind)) {
        id
    } else {
        std_kind_id(k.kind)
    }
}

/// Makes the empty tag that a creator of kind `k` makes for `id`: the
/// default tag of the kind, or, when the creator takes the id, the default
/// tag with that id.
pub fn make_std_tag(k: CreatorKind, id: u64) -> (r: ILAnyTag)
    ensures
        any_kind(r) == k.kind,
        r.spec_id() == made_id(k, id),
{
    match k.kind {
        TagKind::Null => if k.with_id {
            ILAnyTag::Null(ILNullTag::default_with_id(id))
        } else {
            ILAnyTag::Null(ILNullTag::default())
        },
        TagKind::Bool => if k.with_id {
            ILAnyTag::Bool(ILBoolTag::default_with_id(id))
        } else {
            ILAnyTag::Bool(ILBoolTag::default())
        },
        TagKind::Int8 => if k.with_id {
            ILAnyTag::Int8(ILInt8Tag::default_with_id(id))
        } else {
            ILAnyTag::Int8(ILInt8Tag::default())
        },
        TagKind::UInt8 => if k.with_id {
            ILAnyTag::UInt8(ILUInt8Tag::default_with_id(id))
        } else {
            ILAnyTag::UInt8(ILUInt8Tag::default())
        },
        TagKind::Int16 => if k.with_id {
            ILAnyTag::Int16(ILInt16Tag::default_with_id(id))
        } else {
            ILAnyTag::Int16(ILInt16Tag::default())
        },
        TagKind::UInt16 => if k.with_id {
            ILAnyTag::UInt16(ILUInt16Tag::default_with_id(id))
        } else {
            ILAnyTag::UInt16(ILUInt16Tag::default())
        },
        TagKind::Int32 => if k.with_id {
            ILAnyTag::Int32(ILInt32Tag::default_with_id(id))
        } else {
            ILAnyTag::Int32(ILInt32Tag::default())
        },
        TagKind::UInt32 => if k.with_id {
            ILAnyTag::UInt32(ILUInt32Tag::default_with_id(id))
        } else {
            ILAnyTag::UInt32(ILUInt32Tag::default())
        },
        TagKind::Int64 => if k.with_id {
            ILAnyTag::Int64(ILInt64Tag::default_with_id(id))
        } else {
            ILAnyTag::Int64(ILInt64Tag::default())
        },
        TagKind::UInt64 => if k.with_id {
            ILAnyTag::UInt64(ILUInt64Tag::default_with_id(id))
        } else {
            ILAnyTag::UInt64(ILUInt64Tag::default())
        },
        TagKind::ILInt => if k.with_id {
            ILAnyTag::ILInt(ILILInt64Tag::default_with_id(id))
        } else {
            ILAnyTag::ILInt(ILILInt64Tag::default())
        },
        TagKind::SignedILInt => if k.with_id {
            ILAnyTag::SignedILInt(ILSignedILInt64Tag::default_with_id(id))
        } else {
            ILAnyTag::SignedILInt(ILSignedILInt64Tag::default())
        },
        TagKind::Bin32 => if k.with_id {
            ILAnyTag::Bin32(ILBin32Tag::default_with_id(id))
        } else {
            ILAnyTag::Bin32(ILBin32Tag::default())
        },
        TagKind::Bin64 => if k.with_id {
            ILAnyTag::Bin64(ILBin64Tag::default_with_id(id))
        } else {
            ILAnyTag::Bin64(ILBin64Tag::default())
        },
        TagKind::Bin128 => if k.with_id {
            ILAnyTag::Bin128(ILBin128Tag::default_with_id(id))
        } else {
            ILAnyTag::Bin128(ILBin128Tag::default())
        },
        TagKind::Raw => ILAnyTag::Raw(ILRawTag::default_with_id(id)),
        TagKind::TagSeq => if k.with_id {
            ILAnyTag::TagSeq(ILTagSeqTag::default_with_id(id))
        } else {
            ILAnyTag::TagSeq(ILTagSeqTag::default())
        },
        TagKind::TagArray => if k.with_id {
            ILAnyTag::TagArray(ILTagArrayTag::default_with_id(id))
        } else {
            ILAnyTag::TagArray(ILTagArrayTag::default())
        },
        TagKind::Bytes => ILAnyTag::Bytes(ILByteArrayTag::default()),
        TagKind::Str => if k.with_id {
            ILAnyTag::Str(ILStringTag::default_with_id(id))
        } else {
            ILAnyTag::Str(ILStringTag::default())
        },
        TagKind::BigInt => ILAnyTag::BigInt(ILBigIntTag::default()),
        TagKind::BigDec => ILAnyTag::BigDec(ILBigDecTag::default()),
        TagKind::ILIntArray => if k.with_id {
            ILAnyTag::ILIntArray(ILILIntArrayTag::default_with_id(id))
        } else {
            ILAnyTag::ILIntArray(ILILIntArrayTag::default())
        },
        TagKind::Range => if k.with_id {
            ILAnyTag::Range(ILRangeTag::default_with_id(id))
        } else {
            ILAnyTag::Range(ILRangeTag::default())
        },
        TagKind::Version => if k.with_id {
            ILAnyTag::Version(ILVersionTag::default_with_id(id))
        } else {
            ILAnyTag::Version(ILVersionTag::default())
        },
        TagKind::OID => if k.with_id {
            ILAnyTag::OID(ILOIDTag::default_with_id(id))
        } else {
            ILAnyTag::OID(ILOIDTag::default())
        },
        TagKind::Dict => if k.with_id {
            ILAnyTag::Dict(ILDictTag::default_with_id(id))
        } else {
            ILAnyTag::Dict(ILDictTag::default())
        },
        TagKind::StrDict => if k.with_id {
            ILAnyTag::StrDict(ILStrDictTag::default_with_id(id))
        } else {
            ILAnyTag::StrDict(ILStrDictTag::default())
        },
    }
}

//=============================================================================
// Deserialization with an engine
//-----------------------------------------------------------------------------
/// The factory handed to tags whose value holds no tags: it builds nothing.
pub(crate) struct LeafFactory;

impl ILTagFactory for LeafFactory {
    open spec fn obeys_factory_model() -> bool {
        true
    }

    fn create_tag(&self, tag_id: u64) -> (r: Option<ILAnyTag>) {
        None
    }

    fn deserialize<R: Reader>(&self, reader: &mut R) -> (r: Result<ILAnyTag>) {
        Err(ErrorKind::UnsupportedTag)
    }
}

/// Decoding a prefix of `s` that holds the first ILInt of `s` gives the
/// same ILInt.
pub proof fn lemma_decode_prefix(s: Seq<u8>, m: int)
    requires
        spec_decode_from_bytes(s) is Ok,
        spec_decode_from_bytes(s)->Ok_0.1 <= m <= s.len(),
    ensures
        spec_decode_from_bytes(s.take(m)) == spec_decode_from_bytes(s),
{
    let t = s.take(m);
    assert(t[0] == s[0]);
    let size = crate::ilint::spec_decoded_size(s[0]);
    if size > 1 {
        assert(t.subrange(1, size as int) =~= s.subrange(1, size as int));
    }
}

/// Deserializes a tag, creating it and the tags it holds with `engine`.
/// It reads the id and, for explicit tags, the size; all tags but ILInt and
/// signed ILInt ones (whose size is given by their first byte) must consume
/// exactly their size.
#[verifier::rlimit(100)]
pub fn deserialize_with_engine<R: Reader>(engine: &ILTagCreatorEngine, reader: &mut R) -> (r: Result<ILAnyTag>)
    ensures
        R::obeys_model() ==> (deserialize_outcome(*engine, old(reader).remaining(), r)),
        R::obeys_model() ==> (r matches Ok(t) ==> {
            let n = old(reader).remaining().len() - final(reader).remaining().len();
            &&& 0 < n <= old(reader).remaining().len()
            &&& final(reader).remaining() == old(reader).remaining().skip(n)
            &&& frame_decodes(old(reader).remaining().take(n), t)
        }),
{
    let ghost rem0 = reader.remaining();
    let tag_id = deserialize_ilint(reader)?;
    let ghost rem1 = reader.remaining();
    let tag_size = if tag_id <= IMPLICIT_ID_MAX {
        implicit_tag_size(tag_id)
    } else {
        deserialize_ilint(reader)?
    };
    let ghost rem2 = reader.remaining();
    let utag_size = tag_size_to_usize(tag_size)?;
    let mut tag = match engine.create_tag(tag_id) {
        Some(t) => t,
        None => return Err(ErrorKind::UnknownTag),
    };
    let ghost n1 = rem0.len() - rem1.len();
    let ghost n2 = rem1.len() - rem2.len();
    proof {
        if R::obeys_model() {
            assert(spec_decode_from_bytes(rem0)->Ok_0.1 == n1);
            if tag_id > IMPLICIT_ID_MAX {
                assert(spec_decode_from_bytes(rem1)->Ok_0.1 == n2);
            } else {
                assert(rem2 == rem1);
            }
        }
    }
    if tag_id == IL_ILINT_TAG_ID || tag_id == IL_SIGNED_ILINT_TAG_ID {
        tag.deserialize_value(&LeafFactory, utag_size, reader)?;
        proof {
            if R::obeys_model() {
                let k = rem1.len() - reader.remaining().len();
                let frame = rem0.take(n1 + k);
                lemma_decode_prefix(rem0, n1 + k);
                assert(frame.skip(n1) =~= rem1.take(k));
                assert(reader.remaining() =~= rem0.skip(n1 + k));
            }
        }
    } else {
        let bytes = deserialize_bytes(utag_size, reader)?;
        proof {
            if R::obeys_model() {
                let size = utag_size as int;
                assert(bytes@ =~= rem0.subrange(n1 + n2, n1 + n2 + size));
            }
        }
        fill_tag(engine, &mut tag, bytes.as_slice())?;
        proof {
            if R::obeys_model() {
                let size = utag_size as int;
                let frame = rem0.take(n1 + n2 + size);
                lemma_decode_prefix(rem0, n1 + n2 + size);
                assert(frame.skip(n1) =~= rem1.take(n2 + size));
                assert(frame.skip(n1 + n2) =~= bytes@);
                if tag_id > IMPLICIT_ID_MAX {
                    lemma_decode_prefix(rem1, n2 + size);
                }
                assert(reader.remaining() =~= rem0.skip(n1 + n2 + size));
            }
        }
    }
    Ok(tag)
}

/// Deserializes a tag held in memory, as `deserialize_with_engine` does.
#[verifier::rlimit(100)]
fn deserialize_frame(engine: &ILTagCreatorEngine, reader: &mut ByteArrayReader) -> (r: Result<ILAnyTag>)
    ensures
        std_frame_first(*engine, old(reader).remaining()) ==> r is Ok && final(reader).remaining() == old(
            reader,
        ).remaining().skip(frame_len(old(reader).remaining()) as int),
        r matches Ok(t) ==> {
            let n = old(reader).remaining().len() - final(reader).remaining().len();
            &&& 0 < n <= old(reader).remaining().len()
            &&& final(reader).remaining() == old(reader).remaining().skip(n)
            &&& frame_decodes(old(reader).remaining().take(n), t)
        },
    decreases old(reader).remaining().len(), 0nat,
{
    let ghost rem0 = reader.remaining();
    let tag_id = deserialize_ilint(reader)?;
    let ghost rem1 = reader.remaining();
    let tag_size = if tag_id <= IMPLICIT_ID_MAX {
        implicit_tag_size(tag_id)
    } else {
        deserialize_ilint(reader)?
    };
    let ghost rem2 = reader.remaining();
    let utag_size = tag_size_to_usize(tag_size)?;
    let mut tag = match engine.create_tag(tag_id) {
        Some(t) => t,
        None => return Err(ErrorKind::UnknownTag),
    };
    let ghost n1 = rem0.len() - rem1.len();
    let ghost n2 = rem1.len() - rem2.len();
    proof {
        assert(spec_decode_from_bytes(rem0)->Ok_0.1 == n1);
        if tag_id > IMPLICIT_ID_MAX {
            assert(spec_decode_from_bytes(rem1)->Ok_0.1 == n2);
        } else {
            assert(rem2 == rem1);
        }
    }
    if tag_id == IL_ILINT_TAG_ID || tag_id == IL_SIGNED_ILINT_TAG_ID {
        tag.deserialize_value(&LeafFactory, utag_size, reader)?;
        proof {
            let k = rem1.len() - reader.remaining().len();
            let frame = rem0.take(n1 + k);
            lemma_decode_prefix(rem0, n1 + k);
            assert(frame.skip(n1) =~= rem1.take(k));
            assert(reader.remaining() =~= rem0.skip(n1 + k));
        }
    } else {
        let bytes = deserialize_bytes(utag_size, reader)?;
        proof {
            assert(bytes@ =~= rem0.subrange(n1 + n2, n1 + n2 + utag_size as int));
        }
        fill_tag(engine, &mut tag, bytes.as_slice())?;
        proof {
            let size = utag_size as int;
            let frame = rem0.take(n1 + n2 + size);
            lemma_decode_prefix(rem0, n1 + n2 + size);
            assert(frame.skip(n1) =~= rem1.take(n2 + size));
            assert(frame.skip(n1 + n2) =~= bytes@);
            if tag_id > IMPLICIT_ID_MAX {
                lemma_decode_prefix(rem1, n2 + size);
            }
            assert(reader.remaining() =~= rem0.skip(n1 + n2 + size));
        }
    }
    Ok(tag)
}

/// Deserializes the value `bytes` into `tag`, creating the tags it holds
/// with `engine`. All the bytes must be consumed.
#[verifier::rlimit(80)]
fn fill_tag(engine: &ILTagCreatorEngine, tag: &mut ILAnyTag, bytes: &[u8]) -> (r: Result<()>)
    ensures
        r is Ok ==> any_decodes(*final(tag), bytes@),
        *old(tag) matches ILAnyTag::Raw(x) ==> r is Ok && raw_outcome(Ok(*final(tag)), x.spec_id(), bytes@),
        any_kind(*final(tag)) == any_kind(*old(tag)),
        any_id(*final(tag)) == any_id(*old(tag)),
        is_leaf_kind(any_kind(*old(tag))) ==> (r is Ok <==> leaf_accepts(any_kind(*old(tag)), bytes@)),
        empty_container_value(any_kind(*old(tag)), bytes@) ==> r is Ok,
        std_value(*engine, any_kind(*old(tag)), bytes@) ==> r is Ok,
    decreases bytes@.len(), 2nat,
{
    proof {
        assert(bytes@.take(bytes@.len() as int) =~= bytes@);
    }
    match tag {
        ILAnyTag::Null(x) => {
            let mut br = ByteArrayReader::new(bytes);
            x.deserialize_value(&LeafFactory, bytes.len(), &mut br)?;
            if br.available() != 0 {
                return Err(ErrorKind::CorruptedData);
            }
            proof {
                assert(bytes@.take(bytes@.len() as int) =~= bytes@);
            }
            Ok(())
        },
        ILAnyTag::Bool(x) => {
            let mut br = ByteArrayReader::new(bytes);
            x.deserialize_value(&LeafFactory, bytes.len(), &mut br)?;
            if br.available() != 0 {
                return Err(ErrorKind::CorruptedData);
            }
            proof {
                assert(bytes@.take(bytes@.len() as int) =~= bytes@);
            }
            Ok(())
        },
        ILAnyTag::Int8(x) => {
            let mut br = ByteArrayReader::new(bytes);
            x.deserialize_value(&LeafFactory, bytes.len(), &mut br)?;
            if br.available() != 0 {
                return Err(ErrorKind::CorruptedData);
            }
            proof {
                assert(bytes@.take(bytes@.len() as int) =~= bytes@);
            }
            Ok(())
        },
        ILAnyTag::UInt8(x) => {
            let mut br = ByteArrayReader::new(bytes);
            x.deserialize_value(&LeafFactory, bytes.len(), &mut br)?;
            if br.available() != 0 {
                return Err(ErrorKind::CorruptedData);
            }
            proof {
                assert(bytes@.take(bytes@.len() as int) =~= bytes@);
            }
            Ok(())
        },
        ILAnyTag::Int16(x) => {
            let mut br = ByteArrayReader::new(bytes);
            x.deserialize_value(&LeafFactory, bytes.len(), &mut br)?;
            if br.available() != 0 {
                return Err(ErrorKind::CorruptedData);
            }
            proof {
                assert(bytes@.take(bytes@.len() as int) =~= bytes@);
            }
            Ok(())
        },
        ILAnyTag::UInt16(x) => {
            let mut br = ByteArrayReader::new(bytes);
            x.deserialize_value(&LeafFactory, bytes.len(), &mut br)?;
            if br.available() != 0 {
                return Err(ErrorKind::CorruptedData);
            }
            proof {
                assert(bytes@.take(bytes@.len() as int) =~= bytes@);
            }
            Ok(())
        },
        ILAnyTag::Int32(x) => {
            let mut br = ByteArrayReader::new(bytes);
            x.deserialize_value(&LeafFactory, bytes.len(), &mut br)?;
            if br.available() != 0 {
                return Err(ErrorKind::CorruptedData);
            }
            proof {
                assert(bytes@.take(bytes@.len() as int) =~= bytes@);
            }
            Ok(())
        },
        ILAnyTag::UInt32(x) => {
            let mut br = ByteArrayReader::new(bytes);
            x.deserialize_value(&LeafFactory, bytes.len(), &mut br)?;
            if br.available() != 0 {
                return Err(ErrorKind::CorruptedData);
            }
            proof {
                assert(bytes@.take(bytes@.len() as int) =~= bytes@);
            }
            Ok(())
        },
        ILAnyTag::Int64(x) => {
            let mut br = ByteArrayReader::new(bytes);
            x.deserialize_value(&LeafFactory, bytes.len(), &mut br)?;
            if br.available() != 0 {
                return Err(ErrorKind::CorruptedData);
            }
            proof {
                assert(bytes@.take(bytes@.len() as int) =~= bytes@);
            }
            Ok(())
        },
        ILAnyTag::UInt64(x) => {
            let mut br = ByteArrayReader::new(bytes);
            x.deserialize_value(&LeafFactory, bytes.len(), &mut br)?;
            if br.available() != 0 {
                return Err(ErrorKind::CorruptedData);
            }
            proof {
                assert(bytes@.take(bytes@.len() as int) =~= bytes@);
            }
            Ok(())
        },
        ILAnyTag::ILInt(x) => {
            let mut br = ByteArrayReader::new(bytes);
            x.deserialize_value(&LeafFactory, bytes.len(), &mut br)?;
            if br.available() != 0 {
                return Err(ErrorKind::CorruptedData);
            }
            proof {
                assert(bytes@.take(bytes@.len() as int) =~= bytes@);
            }
            Ok(())
        },
        ILAnyTag::SignedILInt(x) => {
            let mut br = ByteArrayReader::new(bytes);
            x.deserialize_value(&LeafFactory, bytes.len(), &mut br)?;
            if br.available() != 0 {
                return Err(ErrorKind::CorruptedData);
            }
            proof {
                assert(bytes@.take(bytes@.len() as int) =~= bytes@);
            }
            Ok(())
        },
        ILAnyTag::Bin32(x) => {
            let mut br = ByteArrayReader::new(bytes);
            x.deserialize_value(&LeafFactory, bytes.len(), &mut br)?;
            if br.available() != 0 {
                return Err(ErrorKind::CorruptedData);
            }
            proof {
                assert(bytes@.take(bytes@.len() as int) =~= bytes@);
            }
            Ok(())
        },
        ILAnyTag::Bin64(x) => {
            let mut br = ByteArrayReader::new(bytes);
            x.deserialize_value(&LeafFactory, bytes.len(), &mut br)?;
            if br.available() != 0 {
                return Err(ErrorKind::CorruptedData);
            }
            proof {
                assert(bytes@.take(bytes@.len() as int) =~= bytes@);
            }
            Ok(())
        },
        ILAnyTag::Bin128(x) => {
            let mut br = ByteArrayReader::new(bytes);
            x.deserialize_value(&LeafFactory, bytes.len(), &mut br)?;
            if br.available() != 0 {
                return Err(ErrorKind::CorruptedData);
            }
            proof {
                assert(bytes@.take(bytes@.len() as int) =~= bytes@);
            }
            Ok(())
        },
        ILAnyTag::Raw(x) => {
            let mut br = ByteArrayReader::new(bytes);
            x.deserialize_value(&LeafFactory, bytes.len(), &mut br)?;
            if br.available() != 0 {
                return Err(ErrorKind::CorruptedData);
            }
            proof {
                assert(bytes@.take(bytes@.len() as int) =~= bytes@);
            }
            Ok(())
        },
        ILAnyTag::TagSeq(x) => {
            let items = engine_deserialize_all(engine, bytes)?;
            x.value = items;
            Ok(())
        },
        ILAnyTag::TagArray(x) => {
            let mut br = ByteArrayReader::new(bytes);
            let count = deserialize_ilint(&mut br)?;
            if count > bytes.len() as u64 {
                return Err(ErrorKind::CorruptedData);
            }
            let ghost after_count = br.remaining();
            let items = engine_deserialize_count(engine, count, &mut br)?;
            if br.available() != 0 {
                return Err(ErrorKind::CorruptedData);
            }
            proof {
                assert(after_count.take(after_count.len() as int) =~= after_count);
            }
            x.inner.value = items;
            Ok(())
        },
        ILAnyTag::Bytes(x) => {
            let mut br = ByteArrayReader::new(bytes);
            x.deserialize_value(&LeafFactory, bytes.len(), &mut br)?;
            if br.available() != 0 {
                return Err(ErrorKind::CorruptedData);
            }
            proof {
                assert(bytes@.take(bytes@.len() as int) =~= bytes@);
            }
            Ok(())
        },
        ILAnyTag::Str(x) => {
            let mut br = ByteArrayReader::new(bytes);
            x.deserialize_value(&LeafFactory, bytes.len(), &mut br)?;
            if br.available() != 0 {
                return Err(ErrorKind::CorruptedData);
            }
            proof {
                assert(bytes@.take(bytes@.len() as int) =~= bytes@);
            }
            Ok(())
        },
        ILAnyTag::BigInt(x) => {
            let mut br = ByteArrayReader::new(bytes);
            x.deserialize_value(&LeafFactory, bytes.len(), &mut br)?;
            if br.available() != 0 {
                return Err(ErrorKind::CorruptedData);
            }
            proof {
                assert(bytes@.take(bytes@.len() as int) =~= bytes@);
            }
            Ok(())
        },
        ILAnyTag::BigDec(x) => {
            let mut br = ByteArrayReader::new(bytes);
            x.deserialize_value(&LeafFactory, bytes.len(), &mut br)?;
            if br.available() != 0 {
                return Err(ErrorKind::CorruptedData);
            }
            proof {
                assert(bytes@.take(bytes@.len() as int) =~= bytes@);
            }
            Ok(())
        },
        ILAnyTag::ILIntArray(x) => {
            let mut br = ByteArrayReader::new(bytes);
            x.deserialize_value(&LeafFactory, bytes.len(), &mut br)?;
            if br.available() != 0 {
                return Err(ErrorKind::CorruptedData);
            }
            proof {
                assert(bytes@.take(bytes@.len() as int) =~= bytes@);
            }
            Ok(())
        },
        ILAnyTag::Range(x) => {
            let mut br = ByteArrayReader::new(bytes);
            x.deserialize_value(&LeafFactory, bytes.len(), &mut br)?;
            if br.available() != 0 {
                return Err(ErrorKind::CorruptedData);
            }
            proof {
                assert(bytes@.take(bytes@.len() as int) =~= bytes@);
            }
            Ok(())
        },
        ILAnyTag::Version(x) => {
            let mut br = ByteArrayReader::new(bytes);
            x.deserialize_value(&LeafFactory, bytes.len(), &mut br)?;
            if br.available() != 0 {
                return Err(ErrorKind::CorruptedData);
            }
            proof {
                assert(bytes@.take(bytes@.len() as int) =~= bytes@);
            }
            Ok(())
        },
        ILAnyTag::OID(x) => {
            let mut br = ByteArrayReader::new(bytes);
            x.deserialize_value(&LeafFactory, bytes.len(), &mut br)?;
            if br.available() != 0 {
                return Err(ErrorKind::CorruptedData);
            }
            proof {
                assert(bytes@.take(bytes@.len() as int) =~= bytes@);
            }
            Ok(())
        },
        ILAnyTag::Dict(x) => {
            let pairs = engine_dict_pairs(engine, bytes)?;
            x.value = pairs;
            Ok(())
        },
        ILAnyTag::StrDict(x) => {
            let mut br = ByteArrayReader::new(bytes);
            x.deserialize_value(&LeafFactory, bytes.len(), &mut br)?;
            if br.available() != 0 {
                return Err(ErrorKind::CorruptedData);
            }
            proof {
                assert(bytes@.take(bytes@.len() as int) =~= bytes@);
            }
            Ok(())
        },
    }
}

/// Deserializes the entries of a dictionary out of its value `bytes`,
/// creating their tags with `engine`. All the bytes must be consumed.
fn engine_dict_pairs(engine: &ILTagCreatorEngine, bytes: &[u8]) -> (r: Result<Vec<(String, ILAnyTag)>>)
    ensures
        r matches Ok(pairs) ==> (spec_decode_from_bytes(bytes@) matches Ok((count, _)) && pairs@.len() <= count),
        bytes@ == seq![0u8] ==> r is Ok,
        !spec_truncated(bytes@) && (spec_decode_from_bytes(bytes@) matches Ok((count, n)) && n <= bytes@.len()
            && std_dict_entries(*engine, bytes@.skip(n as int), count as nat)) ==> r is Ok,
    decreases bytes@.len(), 1nat,
{
    let mut br = ByteArrayReader::new(bytes);
    proof {
        if bytes@ == seq![0u8] {
            crate::ilint::lemma_encode_decode(0, Seq::empty());
            assert(crate::ilint::spec_encode(0) + Seq::<u8>::empty() =~= bytes@);
        }
    }
    let count = deserialize_ilint(&mut br)?;
    let mut pairs: Vec<(String, ILAnyTag)> = Vec::new();
    let mut i: u64 = 0;
    while i < count
        invariant
            i <= count,
            pairs@.len() <= i,
            br.remaining().len() <= bytes@.len(),
            bytes@ == seq![0u8] ==> count == 0 && br.remaining().len() == 0,
            !spec_truncated(bytes@) && (spec_decode_from_bytes(bytes@) matches Ok((c, n)) && n <= bytes@.len()
                && std_dict_entries(*engine, bytes@.skip(n as int), c as nat)) ==> std_dict_entries(
                *engine,
                br.remaining(),
                (count - i) as nat,
            ),
        decreases count - i,
    {
        let key = deserialize_string_tag_from_value(&mut br)?;
        let t = deserialize_frame(engine, &mut br)?;
        pairs_insert(&mut pairs, key.as_str(), t);
        i = i + 1;
    }
    if br.available() != 0 {
        return Err(ErrorKind::CorruptedData);
    }
    Ok(pairs)
}

/// Deserializes tags out of `bytes` with `engine` until they are all
/// consumed.
fn engine_deserialize_all(engine: &ILTagCreatorEngine, bytes: &[u8]) -> (r: Result<Vec<ILAnyTag>>)
    ensures
        bytes@.len() == 0 ==> r is Ok,
        std_frames(*engine, bytes@) ==> r is Ok,
        r matches Ok(items) ==> items_decode(bytes@, items@),
    decreases bytes@.len(), 1nat,
{
    let mut reader = ByteArrayReader::new(bytes);
    let mut items: Vec<ILAnyTag> = Vec::new();
    let ghost mut consumed: Seq<u8> = Seq::empty();
    proof {
        assert(bytes@.take(0) =~= consumed);
    }
    while reader.available() > 0
        invariant
            consumed == bytes@.take(consumed.len() as int),
            consumed.len() <= bytes@.len(),
            reader.remaining() == bytes@.skip(consumed.len() as int),
            items_decode(consumed, items@),
            std_frames(*engine, bytes@) ==> std_frames(*engine, reader.remaining()),
        decreases reader.remaining().len(),
    {
        let ghost before = reader.remaining();
        let t = deserialize_frame(engine, &mut reader)?;
        let ghost n = before.len() - reader.remaining().len();
        let ghost next = consumed + before.take(n);
        proof {
            lemma_items_decode_push(consumed, before.take(n), items@, t);
            assert(next =~= bytes@.take(next.len() as int));
            assert(reader.remaining() =~= bytes@.skip(next.len() as int));
        }
        items.push(t);
        proof {
            consumed = next;
        }
    }
    proof {
        assert(consumed =~= bytes@);
    }
    Ok(items)
}

/// Deserializes `count` tags out of `reader` with `engine`.
fn engine_deserialize_count(engine: &ILTagCreatorEngine, count: u64, reader: &mut ByteArrayReader) -> (r: Result<Vec<ILAnyTag>>)
    ensures
        std_frames(*engine, old(reader).remaining()) && frame_count(old(reader).remaining()) == count
            ==> r is Ok && final(reader).remaining().len() == 0,
        count == 0 ==> (r is Ok && final(reader).remaining() == old(reader).remaining()),
        r matches Ok(items) ==> {
            let n = old(reader).remaining().len() - final(reader).remaining().len();
            &&& items@.len() == count
            &&& 0 <= n <= old(reader).remaining().len()
            &&& final(reader).remaining() == old(reader).remaining().skip(n)
            &&& items_decode(old(reader).remaining().take(n), items@)
        },
    decreases old(reader).remaining().len(), 1nat,
{
    let mut items: Vec<ILAnyTag> = Vec::new();
    let ghost start = reader.remaining();
    let ghost mut consumed: Seq<u8> = Seq::empty();
    proof {
        assert(start.skip(0) =~= start);
        assert(start.take(0) =~= consumed);
    }
    let mut i: u64 = 0;
    while i < count
        invariant
            i <= count,
            items@.len() == i,
            start == old(reader).remaining(),
            consumed == start.take(consumed.len() as int),
            consumed.len() <= start.len(),
            reader.remaining() == start.skip(consumed.len() as int),
            items_decode(consumed, items@),
            std_frames(*engine, start) && frame_count(start) == count ==> std_frames(*engine, reader.remaining())
                && frame_count(reader.remaining()) == count - i,
        decreases count - i,
    {
        let ghost before = reader.remaining();
        let t = deserialize_frame(engine, reader)?;
        let ghost n = before.len() - reader.remaining().len();
        let ghost next = consumed + before.take(n);
        proof {
            lemma_items_decode_push(consumed, before.take(n), items@, t);
            assert(next =~= start.take(next.len() as int));
            assert(reader.remaining() =~= start.skip(next.len() as int));
        }
        items.push(t);
        proof {
            consumed = next;
        }
        i = i + 1;
    }
    Ok(items)
}

impl ILAnyTagKind for ILNullTag {
    open spec fn spec_into_any(self) -> ILAnyTag {
        ILAnyTag::Null(self)
    }

    open spec fn spec_tag_kind() -> TagKind {
        TagKind::Null
    }

    fn tag_kind() -> (r: TagKind) {
        TagKind::Null
    }

    open spec fn spec_from_any(tag: ILAnyTag) -> Option<Self> {
        match tag {
            ILAnyTag::Null(t) => Some(t),
            _ => None,
        }
    }

    fn into_any(self) -> (r: ILAnyTag) {
        ILAnyTag::Null(self)
    }

    fn from_any_ref(tag: &ILAnyTag) -> (r: Option<&Self>) {
        match tag {
            ILAnyTag::Null(t) => Some(t),
            _ => None,
        }
    }

    fn from_any_mut(tag: &mut ILAnyTag) -> (r: Option<&mut Self>) {
        match tag {
            ILAnyTag::Null(t) => Some(t),
            _ => None,
        }
    }
}

impl ILAnyTagKind for ILBoolTag {
    open spec fn spec_into_any(self) -> ILAnyTag {
        ILAnyTag::Bool(self)
    }

    open spec fn spec_tag_kind() -> TagKind {
        TagKind::Bool
    }

    fn tag_kind() -> (r: TagKind) {
        TagKind::Bool
    }

    open spec fn spec_from_any(tag: ILAnyTag) -> Option<Self> {
        match tag {
            ILAnyTag::Bool(t) => Some(t),
            _ => None,
        }
    }

    fn into_any(self) -> (r: ILAnyTag) {
        ILAnyTag::Bool(self)
    }

    fn from_any_ref(tag: &ILAnyTag) -> (r: Option<&Self>) {
        match tag {
            ILAnyTag::Bool(t) => Some(t),
            _ => None,
        }
    }

    fn from_any_mut(tag: &mut ILAnyTag) -> (r: Option<&mut Self>) {
        match tag {
            ILAnyTag::Bool(t) => Some(t),
            _ => None,
        }
    }
}

impl ILAnyTagKind for ILInt8Tag {
    open spec fn spec_into_any(self) -> ILAnyTag {
        ILAnyTag::Int8(self)
    }

    open spec fn spec_tag_kind() -> TagKind {
        TagKind::Int8
    }

    fn tag_kind() -> (r: TagKind) {
        TagKind::Int8
    }

    open spec fn spec_from_any(tag: ILAnyTag) -> Option<Self> {
        match tag {
            ILAnyTag::Int8(t) => Some(t),
            _ => None,
        }
    }

    fn into_any(self) -> (r: ILAnyTag) {
        ILAnyTag::Int8(self)
    }

    fn from_any_ref(tag: &ILAnyTag) -> (r: Option<&Self>) {
        match tag {
            ILAnyTag::Int8(t) => Some(t),
            _ => None,
        }
    }

    fn from_any_mut(tag: &mut ILAnyTag) -> (r: Option<&mut Self>) {
        match tag {
            ILAnyTag::Int8(t) => Some(t),
            _ => None,
        }
    }
}

impl ILAnyTagKind for ILUInt8Tag {
    open spec fn spec_into_any(self) -> ILAnyTag {
        ILAnyTag::UInt8(self)
    }

    open spec fn spec_tag_kind() -> TagKind {
        TagKind::UInt8
    }

    fn tag_kind() -> (r: TagKind) {
        TagKind::UInt8
    }

    open spec fn spec_from_any(tag: ILAnyTag) -> Option<Self> {
        match tag {
            ILAnyTag::UInt8(t) => Some(t),
            _ => None,
        }
    }

    fn into_any(self) -> (r: ILAnyTag) {
        ILAnyTag::UInt8(self)
    }

    fn from_any_ref(tag: &ILAnyTag) -> (r: Option<&Self>) {
        match tag {
            ILAnyTag::UInt8(t) => Some(t),
            _ => None,
        }
    }

    fn from_any_mut(tag: &mut ILAnyTag) -> (r: Option<&mut Self>) {
        match tag {
            ILAnyTag::UInt8(t) => Some(t),
            _ => None,
        }
    }
}

impl ILAnyTagKind for ILInt16Tag {
    open spec fn spec_into_any(self) -> ILAnyTag {
        ILAnyTag::Int16(self)
    }

    open spec fn spec_tag_kind() -> TagKind {
        TagKind::Int16
    }

    fn tag_kind() -> (r: TagKind) {
        TagKind::Int16
    }

    open spec fn spec_from_any(tag: ILAnyTag) -> Option<Self> {
        match tag {
            ILAnyTag::Int16(t) => Some(t),
            _ => None,
        }
    }

    fn into_any(self) -> (r: ILAnyTag) {
        ILAnyTag::Int16(self)
    }

    fn from_any_ref(tag: &ILAnyTag) -> (r: Option<&Self>) {
        match tag {
            ILAnyTag::Int16(t) => Some(t),
            _ => None,
        }
    }

    fn from_any_mut(tag: &mut ILAnyTag) -> (r: Option<&mut Self>) {
        match tag {
            ILAnyTag::Int16(t) => Some(t),
            _ => None,
        }
    }
}

impl ILAnyTagKind for ILUInt16Tag {
    open spec fn spec_into_any(self) -> ILAnyTag {
        ILAnyTag::UInt16(self)
    }

    open spec fn spec_tag_kind() -> TagKind {
        TagKind::UInt16
    }

    fn tag_kind() -> (r: TagKind) {
        TagKind::UInt16
    }

    open spec fn spec_from_any(tag: ILAnyTag) -> Option<Self> {
        match tag {
            ILAnyTag::UInt16(t) => Some(t),
            _ => None,
        }
    }

    fn into_any(self) -> (r: ILAnyTag) {
        ILAnyTag::UInt16(self)
    }

    fn from_any_ref(tag: &ILAnyTag) -> (r: Option<&Self>) {
        match tag {
            ILAnyTag::UInt16(t) => Some(t),
            _ => None,
        }
    }

    fn from_any_mut(tag: &mut ILAnyTag) -> (r: Option<&mut Self>) {
        match tag {
            ILAnyTag::UInt16(t) => Some(t),
            _ => None,
        }
    }
}

impl ILAnyTagKind for ILInt32Tag {
    open spec fn spec_into_any(self) -> ILAnyTag {
        ILAnyTag::Int32(self)
    }

    open spec fn spec_tag_kind() -> TagKind {
        TagKind::Int32
    }

    fn tag_kind() -> (r: TagKind) {
        TagKind::Int32
    }

    open spec fn spec_from_any(tag: ILAnyTag) -> Option<Self> {
        match tag {
            ILAnyTag::Int32(t) => Some(t),
            _ => None,
        }
    }

    fn into_any(self) -> (r: ILAnyTag) {
        ILAnyTag::Int32(self)
    }

    fn from_any_ref(tag: &ILAnyTag) -> (r: Option<&Self>) {
        match tag {
            ILAnyTag::Int32(t) => Some(t),
            _ => None,
        }
    }

    fn from_any_mut(tag: &mut ILAnyTag) -> (r: Option<&mut Self>) {
        match tag {
            ILAnyTag::Int32(t) => Some(t),
            _ => None,
        }
    }
}

impl ILAnyTagKind for ILUInt32Tag {
    open spec fn spec_into_any(self) -> ILAnyTag {
        ILAnyTag::UInt32(self)
    }

    open spec fn spec_tag_kind() -> TagKind {
        TagKind::UInt32
    }

    fn tag_kind() -> (r: TagKind) {
        TagKind::UInt32
    }

    open spec fn spec_from_any(tag: ILAnyTag) -> Option<Self> {
        match tag {
            ILAnyTag::UInt32(t) => Some(t),
            _ => None,
        }
    }

    fn into_any(self) -> (r: ILAnyTag) {
        ILAnyTag::UInt32(self)
    }

    fn from_any_ref(tag: &ILAnyTag) -> (r: Option<&Self>) {
        match tag {
            ILAnyTag::UInt32(t) => Some(t),
            _ => None,
        }
    }

    fn from_any_mut(tag: &mut ILAnyTag) -> (r: Option<&mut Self>) {
        match tag {
            ILAnyTag::UInt32(t) => Some(t),
            _ => None,
        }
    }
}

impl ILAnyTagKind for ILInt64Tag {
    open spec fn spec_into_any(self) -> ILAnyTag {
        ILAnyTag::Int64(self)
    }

    open spec fn spec_tag_kind() -> TagKind {
        TagKind::Int64
    }

    fn tag_kind() -> (r: TagKind) {
        TagKind::Int64
    }

    open spec fn spec_from_any(tag: ILAnyTag) -> Option<Self> {
        match tag {
            ILAnyTag::Int64(t) => Some(t),
            _ => None,
        }
    }

    fn into_any(self) -> (r: ILAnyTag) {
        ILAnyTag::Int64(self)
    }

    fn from_any_ref(tag: &ILAnyTag) -> (r: Option<&Self>) {
        match tag {
            ILAnyTag::Int64(t) => Some(t),
            _ => None,
        }
    }

    fn from_any_mut(tag: &mut ILAnyTag) -> (r: Option<&mut Self>) {
        match tag {
            ILAnyTag::Int64(t) => Some(t),
            _ => None,
        }
    }
}

impl ILAnyTagKind for ILUInt64Tag {
    open spec fn spec_into_any(self) -> ILAnyTag {
        ILAnyTag::UInt64(self)
    }

    open spec fn spec_tag_kind() -> TagKind {
        TagKind::UInt64
    }

    fn tag_kind() -> (r: TagKind) {
        TagKind::UInt64
    }

    open spec fn spec_from_any(tag: ILAnyTag) -> Option<Self> {
        match tag {
            ILAnyTag::UInt64(t) => Some(t),
            _ => None,
        }
    }

    fn into_any(self) -> (r: ILAnyTag) {
        ILAnyTag::UInt64(self)
    }

    fn from_any_ref(tag: &ILAnyTag) -> (r: Option<&Self>) {
        match tag {
            ILAnyTag::UInt64(t) => Some(t),
            _ => None,
        }
    }

    fn from_any_mut(tag: &mut ILAnyTag) -> (r: Option<&mut Self>) {
        match tag {
            ILAnyTag::UInt64(t) => Some(t),
            _ => None,
        }
    }
}

impl ILAnyTagKind for ILILInt64Tag {
    open spec fn spec_into_any(self) -> ILAnyTag {
        ILAnyTag::ILInt(self)
    }

    open spec fn spec_tag_kind() -> TagKind {
        TagKind::ILInt
    }

    fn tag_kind() -> (r: TagKind) {
        TagKind::ILInt
    }

    open spec fn spec_from_any(tag: ILAnyTag) -> Option<Self> {
        match tag {
            ILAnyTag::ILInt(t) => Some(t),
            _ => None,
        }
    }

    fn into_any(self) -> (r: ILAnyTag) {
        ILAnyTag::ILInt(self)
    }

    fn from_any_ref(tag: &ILAnyTag) -> (r: Option<&Self>) {
        match tag {
            ILAnyTag::ILInt(t) => Some(t),
            _ => None,
        }
    }

    fn from_any_mut(tag: &mut ILAnyTag) -> (r: Option<&mut Self>) {
        match tag {
            ILAnyTag::ILInt(t) => Some(t),
            _ => None,
        }
    }
}

impl ILAnyTagKind for ILSignedILInt64Tag {
    open spec fn spec_into_any(self) -> ILAnyTag {
        ILAnyTag::SignedILInt(self)
    }

    open spec fn spec_tag_kind() -> TagKind {
        TagKind::SignedILInt
    }

    fn tag_kind() -> (r: TagKind) {
        TagKind::SignedILInt
    }

    open spec fn spec_from_any(tag: ILAnyTag) -> Option<Self> {
        match tag {
            ILAnyTag::SignedILInt(t) => Some(t),
            _ => None,
        }
    }

    fn into_any(self) -> (r: ILAnyTag) {
        ILAnyTag::SignedILInt(self)
    }

    fn from_any_ref(tag: &ILAnyTag) -> (r: Option<&Self>) {
        match tag {
            ILAnyTag::SignedILInt(t) => Some(t),
            _ => None,
        }
    }

    fn from_any_mut(tag: &mut ILAnyTag) -> (r: Option<&mut Self>) {
        match tag {
            ILAnyTag::SignedILInt(t) => Some(t),
            _ => None,
        }
    }
}

impl ILAnyTagKind for ILBin32Tag {
    open spec fn spec_into_any(self) -> ILAnyTag {
        ILAnyTag::Bin32(self)
    }

    open spec fn spec_tag_kind() -> TagKind {
        TagKind::Bin32
    }

    fn tag_kind() -> (r: TagKind) {
        TagKind::Bin32
    }

    open spec fn spec_from_any(tag: ILAnyTag) -> Option<Self> {
        match tag {
            ILAnyTag::Bin32(t) => Some(t),
            _ => None,
        }
    }

    fn into_any(self) -> (r: ILAnyTag) {
        ILAnyTag::Bin32(self)
    }

    fn from_any_ref(tag: &ILAnyTag) -> (r: Option<&Self>) {
        match tag {
            ILAnyTag::Bin32(t) => Some(t),
            _ => None,
        }
    }

    fn from_any_mut(tag: &mut ILAnyTag) -> (r: Option<&mut Self>) {
        match tag {
            ILAnyTag::Bin32(t) => Some(t),
            _ => None,
        }
    }
}

impl ILAnyTagKind for ILBin64Tag {
    open spec fn spec_into_any(self) -> ILAnyTag {
        ILAnyTag::Bin64(self)
    }

    open spec fn spec_tag_kind() -> TagKind {
        TagKind::Bin64
    }

    fn tag_kind() -> (r: TagKind) {
        TagKind::Bin64
    }

    open spec fn spec_from_any(tag: ILAnyTag) -> Option<Self> {
        match tag {
            ILAnyTag::Bin64(t) => Some(t),
            _ => None,
        }
    }

    fn into_any(self) -> (r: ILAnyTag) {
        ILAnyTag::Bin64(self)
    }

    fn from_any_ref(tag: &ILAnyTag) -> (r: Option<&Self>) {
        match tag {
            ILAnyTag::Bin64(t) => Some(t),
            _ => None,
        }
    }

    fn from_any_mut(tag: &mut ILAnyTag) -> (r: Option<&mut Self>) {
        match tag {
            ILAnyTag::Bin64(t) => Some(t),
            _ => None,
        }
    }
}

impl ILAnyTagKind for ILBin128Tag {
    open spec fn spec_into_any(self) -> ILAnyTag {
        ILAnyTag::Bin128(self)
    }

    open spec fn spec_tag_kind() -> TagKind {
        TagKind::Bin128
    }

    fn tag_kind() -> (r: TagKind) {
        TagKind::Bin128
    }

    open spec fn spec_from_any(tag: ILAnyTag) -> Option<Self> {
        match tag {
            ILAnyTag::Bin128(t) => Some(t),
            _ => None,
        }
    }

    fn into_any(self) -> (r: ILAnyTag) {
        ILAnyTag::Bin128(self)
    }

    fn from_any_ref(tag: &ILAnyTag) -> (r: Option<&Self>) {
        match tag {
            ILAnyTag::Bin128(t) => Some(t),
            _ => None,
        }
    }

    fn from_any_mut(tag: &mut ILAnyTag) -> (r: Option<&mut Self>) {
        match tag {
            ILAnyTag::Bin128(t) => Some(t),
            _ => None,
        }
    }
}

impl ILAnyTagKind for ILRawTag {
    open spec fn spec_into_any(self) -> ILAnyTag {
        ILAnyTag::Raw(self)
    }

    open spec fn spec_tag_kind() -> TagKind {
        TagKind::Raw
    }

    fn tag_kind() -> (r: TagKind) {
        TagKind::Raw
    }

    open spec fn spec_from_any(tag: ILAnyTag) -> Option<Self> {
        match tag {
            ILAnyTag::Raw(t) => Some(t),
            _ => None,
        }
    }

    fn into_any(self) -> (r: ILAnyTag) {
        ILAnyTag::Raw(self)
    }

    fn from_any_ref(tag: &ILAnyTag) -> (r: Option<&Self>) {
        match tag {
            ILAnyTag::Raw(t) => Some(t),
            _ => None,
        }
    }

    fn from_any_mut(tag: &mut ILAnyTag) -> (r: Option<&mut Self>) {
        match tag {
            ILAnyTag::Raw(t) => Some(t),
            _ => None,
        }
    }
}

impl ILAnyTagKind for ILTagSeqTag {
    open spec fn spec_into_any(self) -> ILAnyTag {
        ILAnyTag::TagSeq(self)
    }

    open spec fn spec_tag_kind() -> TagKind {
        TagKind::TagSeq
    }

    fn tag_kind() -> (r: TagKind) {
        TagKind::TagSeq
    }

    open spec fn spec_from_any(tag: ILAnyTag) -> Option<Self> {
        match tag {
            ILAnyTag::TagSeq(t) => Some(t),
            _ => None,
        }
    }

    fn into_any(self) -> (r: ILAnyTag) {
        ILAnyTag::TagSeq(self)
    }

    fn from_any_ref(tag: &ILAnyTag) -> (r: Option<&Self>) {
        match tag {
            ILAnyTag::TagSeq(t) => Some(t),
            _ => None,
        }
    }

    fn from_any_mut(tag: &mut ILAnyTag) -> (r: Option<&mut Self>) {
        match tag {
            ILAnyTag::TagSeq(t) => Some(t),
            _ => None,
        }
    }
}

impl ILAnyTagKind for ILTagArrayTag {
    open spec fn spec_into_any(self) -> ILAnyTag {
        ILAnyTag::TagArray(self)
    }

    open spec fn spec_tag_kind() -> TagKind {
        TagKind::TagArray
    }

    fn tag_kind() -> (r: TagKind) {
        TagKind::TagArray
    }

    open spec fn spec_from_any(tag: ILAnyTag) -> Option<Self> {
        match tag {
            ILAnyTag::TagArray(t) => Some(t),
            _ => None,
        }
    }

    fn into_any(self) -> (r: ILAnyTag) {
        ILAnyTag::TagArray(self)
    }

    fn from_any_ref(tag: &ILAnyTag) -> (r: Option<&Self>) {
        match tag {
            ILAnyTag::TagArray(t) => Some(t),
            _ => None,
        }
    }

    fn from_any_mut(tag: &mut ILAnyTag) -> (r: Option<&mut Self>) {
        match tag {
            ILAnyTag::TagArray(t) => Some(t),
            _ => None,
        }
    }
}

impl ILAnyTagKind for ILByteArrayTag {
    open spec fn spec_into_any(self) -> ILAnyTag {
        ILAnyTag::Bytes(self)
    }

    open spec fn spec_tag_kind() -> TagKind {
        TagKind::Bytes
    }

    fn tag_kind() -> (r: TagKind) {
        TagKind::Bytes
    }

    open spec fn spec_from_any(tag: ILAnyTag) -> Option<Self> {
        match tag {
            ILAnyTag::Bytes(t) => Some(t),
            _ => None,
        }
    }

    fn into_any(self) -> (r: ILAnyTag) {
        ILAnyTag::Bytes(self)
    }

    fn from_any_ref(tag: &ILAnyTag) -> (r: Option<&Self>) {
        match tag {
            ILAnyTag::Bytes(t) => Some(t),
            _ => None,
        }
    }

    fn from_any_mut(tag: &mut ILAnyTag) -> (r: Option<&mut Self>) {
        match tag {
            ILAnyTag::Bytes(t) => Some(t),
            _ => None,
        }
    }
}

impl ILAnyTagKind for ILStringTag {
    open spec fn spec_into_any(self) -> ILAnyTag {
        ILAnyTag::Str(self)
    }

    open spec fn spec_tag_kind() -> TagKind {
        TagKind::Str
    }

    fn tag_kind() -> (r: TagKind) {
        TagKind::Str
    }

    open spec fn spec_from_any(tag: ILAnyTag) -> Option<Self> {
        match tag {
            ILAnyTag::Str(t) => Some(t),
            _ => None,
        }
    }

    fn into_any(self) -> (r: ILAnyTag) {
        ILAnyTag::Str(self)
    }

    fn from_any_ref(tag: &ILAnyTag) -> (r: Option<&Self>) {
        match tag {
            ILAnyTag::Str(t) => Some(t),
            _ => None,
        }
    }

    fn from_any_mut(tag: &mut ILAnyTag) -> (r: Option<&mut Self>) {
        match tag {
            ILAnyTag::Str(t) => Some(t),
            _ => None,
        }
    }
}

impl ILAnyTagKind for ILBigIntTag {
    open spec fn spec_into_any(self) -> ILAnyTag {
        ILAnyTag::BigInt(self)
    }

    open spec fn spec_tag_kind() -> TagKind {
        TagKind::BigInt
    }

    fn tag_kind() -> (r: TagKind) {
        TagKind::BigInt
    }

    open spec fn spec_from_any(tag: ILAnyTag) -> Option<Self> {
        match tag {
            ILAnyTag::BigInt(t) => Some(t),
            _ => None,
        }
    }

    fn into_any(self) -> (r: ILAnyTag) {
        ILAnyTag::BigInt(self)
    }

    fn from_any_ref(tag: &ILAnyTag) -> (r: Option<&Self>) {
        match tag {
            ILAnyTag::BigInt(t) => Some(t),
            _ => None,
        }
    }

    fn from_any_mut(tag: &mut ILAnyTag) -> (r: Option<&mut Self>) {
        match tag {
            ILAnyTag::BigInt(t) => Some(t),
            _ => None,
        }
    }
}

impl ILAnyTagKind for ILBigDecTag {
    open spec fn spec_into_any(self) -> ILAnyTag {
        ILAnyTag::BigDec(self)
    }

    open spec fn spec_tag_kind() -> TagKind {
        TagKind::BigDec
    }

    fn tag_kind() -> (r: TagKind) {
        TagKind::BigDec
    }

    open spec fn spec_from_any(tag: ILAnyTag) -> Option<Self> {
        match tag {
            ILAnyTag::BigDec(t) => Some(t),
            _ => None,
        }
    }

    fn into_any(self) -> (r: ILAnyTag) {
        ILAnyTag::BigDec(self)
    }

    fn from_any_ref(tag: &ILAnyTag) -> (r: Option<&Self>) {
        match tag {
            ILAnyTag::BigDec(t) => Some(t),
            _ => None,
        }
    }

    fn from_any_mut(tag: &mut ILAnyTag) -> (r: Option<&mut Self>) {
        match tag {
            ILAnyTag::BigDec(t) => Some(t),
            _ => None,
        }
    }
}

impl ILAnyTagKind for ILILIntArrayTag {
    open spec fn spec_into_any(self) -> ILAnyTag {
        ILAnyTag::ILIntArray(self)
    }

    open spec fn spec_tag_kind() -> TagKind {
        TagKind::ILIntArray
    }

    fn tag_kind() -> (r: TagKind) {
        TagKind::ILIntArray
    }

    open spec fn spec_from_any(tag: ILAnyTag) -> Option<Self> {
        match tag {
            ILAnyTag::ILIntArray(t) => Some(t),
            _ => None,
        }
    }

    fn into_any(self) -> (r: ILAnyTag) {
        ILAnyTag::ILIntArray(self)
    }

    fn from_any_ref(tag: &ILAnyTag) -> (r: Option<&Self>) {
        match tag {
            ILAnyTag::ILIntArray(t) => Some(t),
            _ => None,
        }
    }

    fn from_any_mut(tag: &mut ILAnyTag) -> (r: Option<&mut Self>) {
        match tag {
            ILAnyTag::ILIntArray(t) => Some(t),
            _ => None,
        }
    }
}

impl ILAnyTagKind for ILRangeTag {
    open spec fn spec_into_any(self) -> ILAnyTag {
        ILAnyTag::Range(self)
    }

    open spec fn spec_tag_kind() -> TagKind {
        TagKind::Range
    }

    fn tag_kind() -> (r: TagKind) {
        TagKind::Range
    }

    open spec fn spec_from_any(tag: ILAnyTag) -> Option<Self> {
        match tag {
            ILAnyTag::Range(t) => Some(t),
            _ => None,
        }
    }

    fn into_any(self) -> (r: ILAnyTag) {
        ILAnyTag::Range(self)
    }

    fn from_any_ref(tag: &ILAnyTag) -> (r: Option<&Self>) {
        match tag {
            ILAnyTag::Range(t) => Some(t),
            _ => None,
        }
    }

    fn from_any_mut(tag: &mut ILAnyTag) -> (r: Option<&mut Self>) {
        match tag {
            ILAnyTag::Range(t) => Some(t),
            _ => None,
        }
    }
}

impl ILAnyTagKind for ILVersionTag {
    open spec fn spec_into_any(self) -> ILAnyTag {
        ILAnyTag::Version(self)
    }

    open spec fn spec_tag_kind() -> TagKind {
        TagKind::Version
    }

    fn tag_kind() -> (r: TagKind) {
        TagKind::Version
    }

    open spec fn spec_from_any(tag: ILAnyTag) -> Option<Self> {
        match tag {
            ILAnyTag::Version(t) => Some(t),
            _ => None,
        }
    }

    fn into_any(self) -> (r: ILAnyTag) {
        ILAnyTag::Version(self)
    }

    fn from_any_ref(tag: &ILAnyTag) -> (r: Option<&Self>) {
        match tag {
            ILAnyTag::Version(t) => Some(t),
            _ => None,
        }
    }

    fn from_any_mut(tag: &mut ILAnyTag) -> (r: Option<&mut Self>) {
        match tag {
            ILAnyTag::Version(t) => Some(t),
            _ => None,
        }
    }
}

impl ILAnyTagKind for ILOIDTag {
    open spec fn spec_into_any(self) -> ILAnyTag {
        ILAnyTag::OID(self)
    }

    open spec fn spec_tag_kind() -> TagKind {
        TagKind::OID
    }

    fn tag_kind() -> (r: TagKind) {
        TagKind::OID
    }

    open spec fn spec_from_any(tag: ILAnyTag) -> Option<Self> {
        match tag {
            ILAnyTag::OID(t) => Some(t),
            _ => None,
        }
    }

    fn into_any(self) -> (r: ILAnyTag) {
        ILAnyTag::OID(self)
    }

    fn from_any_ref(tag: &ILAnyTag) -> (r: Option<&Self>) {
        match tag {
            ILAnyTag::OID(t) => Some(t),
            _ => None,
        }
    }

    fn from_any_mut(tag: &mut ILAnyTag) -> (r: Option<&mut Self>) {
        match tag {
            ILAnyTag::OID(t) => Some(t),
            _ => None,
        }
    }
}

impl ILAnyTagKind for ILDictTag {
    open spec fn spec_into_any(self) -> ILAnyTag {
        ILAnyTag::Dict(self)
    }

    open spec fn spec_tag_kind() -> TagKind {
        TagKind::Dict
    }

    fn tag_kind() -> (r: TagKind) {
        TagKind::Dict
    }

    open spec fn spec_from_any(tag: ILAnyTag) -> Option<Self> {
        match tag {
            ILAnyTag::Dict(t) => Some(t),
            _ => None,
        }
    }

    fn into_any(self) -> (r: ILAnyTag) {
        ILAnyTag::Dict(self)
    }

    fn from_any_ref(tag: &ILAnyTag) -> (r: Option<&Self>) {
        match tag {
            ILAnyTag::Dict(t) => Some(t),
            _ => None,
        }
    }

    fn from_any_mut(tag: &mut ILAnyTag) -> (r: Option<&mut Self>) {
        match tag {
            ILAnyTag::Dict(t) => Some(t),
            _ => None,
        }
    }
}

impl ILAnyTagKind for ILStrDictTag {
    open spec fn spec_into_any(self) -> ILAnyTag {
        ILAnyTag::StrDict(self)
    }

    open spec fn spec_tag_kind() -> TagKind {
        TagKind::StrDict
    }

    fn tag_kind() -> (r: TagKind) {
        TagKind::StrDict
    }

    open spec fn spec_from_any(tag: ILAnyTag) -> Option<Self> {
        match tag {
            ILAnyTag::StrDict(t) => Some(t),
            _ => None,
        }
    }

    fn into_any(self) -> (r: ILAnyTag) {
        ILAnyTag::StrDict(self)
    }

    fn from_any_ref(tag: &ILAnyTag) -> (r: Option<&Self>) {
        match tag {
            ILAnyTag::StrDict(t) => Some(t),
            _ => None,
        }
    }

    fn from_any_mut(tag: &mut ILAnyTag) -> (r: Option<&mut Self>) {
        match tag {
            ILAnyTag::StrDict(t) => Some(t),
            _ => None,
        }
    }
}

} // verus!
