//! The standard tag factory.
use super::constants::{
    IL_BDEC_TAG_ID, IL_BIN128_TAG_ID, IL_BIN32_TAG_ID, IL_BIN64_TAG_ID, IL_BINT_TAG_ID, IL_BOOL_TAG_ID, IL_BYTES_TAG_ID, IL_DICTIONARY_TAG_ID, IL_ILINTARRAY_TAG_ID, IL_ILINT_TAG_ID, IL_ILTAGARRAY_TAG_ID, IL_ILTAGSEQ_TAG_ID, IL_INT16_TAG_ID, IL_INT32_TAG_ID, IL_INT64_TAG_ID, IL_INT8_TAG_ID, IL_NULL_TAG_ID, IL_OID_TAG_ID, IL_RANGE_TAG_ID, IL_SIGNED_ILINT_TAG_ID, IL_STRING_DICTIONARY_TAG_ID, IL_STRING_TAG_ID, IL_UINT16_TAG_ID, IL_UINT32_TAG_ID, IL_UINT64_TAG_ID, IL_UINT8_TAG_ID, IL_VERSION_TAG_ID,
};
use super::explicit::{any_kind, made_id, deserialize_outcome, deserialize_with_engine, spec_frame_decodes, ILAnyTag};
use super::explicit::{ILBigDecTag, ILBigIntTag, ILByteArrayTag, ILDictTag, ILILIntArrayTag, ILOIDTag, ILRangeTag, ILStrDictTag, ILStringTag, ILTagArrayTag, ILTagSeqTag, ILVersionTag};
use super::implicit::{implicit_tag_size, spec_implicit_tag_size, ILBin128Tag, ILBin32Tag, ILBin64Tag, ILBoolTag, ILILInt64Tag, ILInt16Tag, ILInt32Tag, ILInt64Tag, ILInt8Tag, ILNullTag, ILSignedILInt64Tag, ILUInt16Tag, ILUInt32Tag, ILUInt64Tag, ILUInt8Tag};
use crate::ilint::spec_decode_from_bytes;
use crate::io::array::ByteArrayReader;
use crate::io::Reader;
use crate::tags::{
    deserialize_bytes, deserialize_ilint, tag_size_to_usize, CreatorKind, ErrorKind, ILDefaultTagCreator, ILTag, ILTagCreator, TagKind,
    ILTagCreatorEngine, ILTagFactory, Result, IMPLICIT_ID_MAX, MAX_TAG_SIZE,
};
use vstd::prelude::*;

verus! {

/// The ids of the standard tags that the standard engine knows.
pub open spec fn std_tag_ids() -> Set<u64> {
    set![0u64, 1u64, 2u64, 3u64, 4u64, 5u64, 6u64, 7u64, 8u64, 9u64, 10u64, 11u64, 12u64, 13u64, 14u64, 16u64, 17u64, 18u64, 19u64, 20u64, 21u64, 22u64, 23u64, 24u64, 25u64, 30u64, 31u64]
}

/// Creates an engine with all standard tags registered.
pub fn create_std_engine(strict: bool) -> (r: ILTagCreatorEngine)
    ensures
        r.wf(),
        r.spec_strict() == strict,
        r.ids().to_set() == std_tag_ids(),
        forall|id: u64| #[trigger] std_tag_ids().contains(id) ==> r.kinds().contains_key(id) && r.kinds()[id]
            == Some(CreatorKind { kind: std_kind_of(id), with_id: false }),
{
    let mut engine = ILTagCreatorEngine::new(strict);
    let c = ILDefaultTagCreator::<ILNullTag>::new();
    let k = c.kind();
    engine.register_kind(IL_NULL_TAG_ID, Box::new(c), k);
    let c = ILDefaultTagCreator::<ILBoolTag>::new();
    let k = c.kind();
    engine.register_kind(IL_BOOL_TAG_ID, Box::new(c), k);
    let c = ILDefaultTagCreator::<ILInt8Tag>::new();
    let k = c.kind();
    engine.register_kind(IL_INT8_TAG_ID, Box::new(c), k);
    let c = ILDefaultTagCreator::<ILUInt8Tag>::new();
    let k = c.kind();
    engine.register_kind(IL_UINT8_TAG_ID, Box::new(c), k);
    let c = ILDefaultTagCreator::<ILInt16Tag>::new();
    let k = c.kind();
    engine.register_kind(IL_INT16_TAG_ID, Box::new(c), k);
    let c = ILDefaultTagCreator::<ILUInt16Tag>::new();
    let k = c.kind();
    engine.register_kind(IL_UINT16_TAG_ID, Box::new(c), k);
    let c = ILDefaultTagCreator::<ILInt32Tag>::new();
    let k = c.kind();
    engine.register_kind(IL_INT32_TAG_ID, Box::new(c), k);
    let c = ILDefaultTagCreator::<ILUInt32Tag>::new();
    let k = c.kind();
    engine.register_kind(IL_UINT32_TAG_ID, Box::new(c), k);
    let c = ILDefaultTagCreator::<ILInt64Tag>::new();
    let k = c.kind();
    engine.register_kind(IL_INT64_TAG_ID, Box::new(c), k);
    let c = ILDefaultTagCreator::<ILUInt64Tag>::new();
    let k = c.kind();
    engine.register_kind(IL_UINT64_TAG_ID, Box::new(c), k);
    let c = ILDefaultTagCreator::<ILILInt64Tag>::new();
    let k = c.kind();
    engine.register_kind(IL_ILINT_TAG_ID, Box::new(c), k);
    let c = ILDefaultTagCreator::<ILBin32Tag>::new();
    let k = c.kind();
    engine.register_kind(IL_BIN32_TAG_ID, Box::new(c), k);
    let c = ILDefaultTagCreator::<ILBin64Tag>::new();
    let k = c.kind();
    engine.register_kind(IL_BIN64_TAG_ID, Box::new(c), k);
    let c = ILDefaultTagCreator::<ILBin128Tag>::new();
    let k = c.kind();
    engine.register_kind(IL_BIN128_TAG_ID, Box::new(c), k);
    let c = ILDefaultTagCreator::<ILSignedILInt64Tag>::new();
    let k = c.kind();
    engine.register_kind(IL_SIGNED_ILINT_TAG_ID, Box::new(c), k);
    let c = ILDefaultTagCreator::<ILByteArrayTag>::new();
    let k = c.kind();
    engine.register_kind(IL_BYTES_TAG_ID, Box::new(c), k);
    let c = ILDefaultTagCreator::<ILStringTag>::new();
    let k = c.kind();
    engine.register_kind(IL_STRING_TAG_ID, Box::new(c), k);
    let c = ILDefaultTagCreator::<ILBigIntTag>::new();
    let k = c.kind();
    engine.register_kind(IL_BINT_TAG_ID, Box::new(c), k);
    let c = ILDefaultTagCreator::<ILBigDecTag>::new();
    let k = c.kind();
    engine.register_kind(IL_BDEC_TAG_ID, Box::new(c), k);
    let c = ILDefaultTagCreator::<ILILIntArrayTag>::new();
    let k = c.kind();
    engine.register_kind(IL_ILINTARRAY_TAG_ID, Box::new(c), k);
    let c = ILDefaultTagCreator::<ILTagArrayTag>::new();
    let k = c.kind();
    engine.register_kind(IL_ILTAGARRAY_TAG_ID, Box::new(c), k);
    let c = ILDefaultTagCreator::<ILTagSeqTag>::new();
    let k = c.kind();
    engine.register_kind(IL_ILTAGSEQ_TAG_ID, Box::new(c), k);
    let c = ILDefaultTagCreator::<ILRangeTag>::new();
    let k = c.kind();
    engine.register_kind(IL_RANGE_TAG_ID, Box::new(c), k);
    let c = ILDefaultTagCreator::<ILVersionTag>::new();
    let k = c.kind();
    engine.register_kind(IL_VERSION_TAG_ID, Box::new(c), k);
    let c = ILDefaultTagCreator::<ILOIDTag>::new();
    let k = c.kind();
    engine.register_kind(IL_OID_TAG_ID, Box::new(c), k);
    let c = ILDefaultTagCreator::<ILDictTag>::new();
    let k = c.kind();
    engine.register_kind(IL_DICTIONARY_TAG_ID, Box::new(c), k);
    let c = ILDefaultTagCreator::<ILStrDictTag>::new();
    let k = c.kind();
    engine.register_kind(IL_STRING_DICTIONARY_TAG_ID, Box::new(c), k);
    proof {
        assert(engine.ids().to_set() =~= std_tag_ids());
    }
    engine
}

/// The kind of the standard tag whose id is `id`.
pub open spec fn std_kind_of(id: u64) -> TagKind {
    if id == IL_NULL_TAG_ID { TagKind::Null }
    else if id == IL_BOOL_TAG_ID { TagKind::Bool }
    else if id == IL_INT8_TAG_ID { TagKind::Int8 }
    else if id == IL_UINT8_TAG_ID { TagKind::UInt8 }
    else if id == IL_INT16_TAG_ID { TagKind::Int16 }
    else if id == IL_UINT16_TAG_ID { TagKind::UInt16 }
    else if id == IL_INT32_TAG_ID { TagKind::Int32 }
    else if id == IL_UINT32_TAG_ID { TagKind::UInt32 }
    else if id == IL_INT64_TAG_ID { TagKind::Int64 }
    else if id == IL_UINT64_TAG_ID { TagKind::UInt64 }
    else if id == IL_ILINT_TAG_ID { TagKind::ILInt }
    else if id == IL_BIN32_TAG_ID { TagKind::Bin32 }
    else if id == IL_BIN64_TAG_ID { TagKind::Bin64 }
    else if id == IL_BIN128_TAG_ID { TagKind::Bin128 }
    else if id == IL_SIGNED_ILINT_TAG_ID { TagKind::SignedILInt }
    else if id == IL_BYTES_TAG_ID { TagKind::Bytes }
    else if id == IL_STRING_TAG_ID { TagKind::Str }
    else if id == IL_BINT_TAG_ID { TagKind::BigInt }
    else if id == IL_BDEC_TAG_ID { TagKind::BigDec }
    else if id == IL_ILINTARRAY_TAG_ID { TagKind::ILIntArray }
    else if id == IL_ILTAGARRAY_TAG_ID { TagKind::TagArray }
    else if id == IL_ILTAGSEQ_TAG_ID { TagKind::TagSeq }
    else if id == IL_RANGE_TAG_ID { TagKind::Range }
    else if id == IL_VERSION_TAG_ID { TagKind::Version }
    else if id == IL_OID_TAG_ID { TagKind::OID }
    else if id == IL_DICTIONARY_TAG_ID { TagKind::Dict }
    else { TagKind::StrDict }
}

//=============================================================================
// ILStandardTagFactory
//-----------------------------------------------------------------------------
/// The standard tag factory. Its engine can be extended with more tags.
pub struct ILStandardTagFactory {
    engine: ILTagCreatorEngine,
}

impl ILStandardTagFactory {
    /// The engine of this factory.
    pub closed spec fn spec_engine(&self) -> ILTagCreatorEngine {
        self.engine
    }

    /// Creates a factory whose engine knows all standard tags. In strict
    /// mode, unknown tags are refused; otherwise unknown explicit tags are
    /// read as `ILRawTag` values.
    pub fn new(strict: bool) -> (r: Self)
        ensures
            r.spec_engine().wf(),
            r.spec_engine().spec_strict() == strict,
            r.spec_engine().ids().to_set() == std_tag_ids(),
            forall|id: u64| #[trigger] std_tag_ids().contains(id) ==> r.spec_engine().kinds().contains_key(id)
                && r.spec_engine().kinds()[id] == Some(CreatorKind { kind: std_kind_of(id), with_id: false }),
    {
        Self { engine: create_std_engine(strict) }
    }

    /// Reads the size of the value of a tag whose id, `tag_id`, was read:
    /// implicit tags have the size their id fixes (9 for ILInt tags, their
    /// largest) and read nothing; explicit tags read it, and a size above
    /// `MAX_TAG_SIZE` fails with `ErrorKind::TagTooLarge`.
    pub fn deserialize_tag_size<R: Reader>(tag_id: u64, reader: &mut R) -> (r: Result<usize>)
        ensures
            R::obeys_model() ==> (tag_id <= IMPLICIT_ID_MAX ==> r == Ok::<usize, ErrorKind>(spec_implicit_tag_size(tag_id) as usize)
                && final(reader).remaining() == old(reader).remaining()),
            R::obeys_model() ==> (tag_id > IMPLICIT_ID_MAX ==> match spec_decode_from_bytes(old(reader).remaining()) {
                Ok((size, n)) => if size > MAX_TAG_SIZE {
                    r == Err::<usize, ErrorKind>(ErrorKind::TagTooLarge)
                } else {
                    r == Ok::<usize, ErrorKind>(size as usize) && final(reader).remaining() == old(
                        reader,
                    ).remaining().skip(n as int)
                },
                Err(_) => r is Err,
            }),
    {
        if tag_id <= IMPLICIT_ID_MAX {
            Ok(implicit_tag_size(tag_id) as usize)
        } else {
            let size = deserialize_ilint(reader)?;
            tag_size_to_usize(size)
        }
    }

    /// Reads the value of `tag`, which takes `value_size` bytes. ILInt tags
    /// (whose size is given by their first byte) read their value whatever
    /// `value_size` says; other tags must consume exactly `value_size` bytes.
    pub fn deserialize_tag_value_into<T: ILTag, R: Reader>(
        &self,
        value_size: usize,
        reader: &mut R,
        tag: &mut T,
    ) -> (r: Result<()>)
        ensures
            T::obeys_tag_model() ==> final(tag).spec_id() == old(tag).spec_id(),
            T::obeys_tag_model() && R::obeys_model() ==> (r is Ok ==> {
                let n = old(reader).remaining().len() - final(reader).remaining().len();
                &&& 0 <= n <= old(reader).remaining().len()
                &&& final(reader).remaining() == old(reader).remaining().skip(n)
                &&& final(tag).spec_decodes(old(reader).remaining().take(n))
                &&& old(tag).spec_id() != IL_ILINT_TAG_ID && old(tag).spec_id() != IL_SIGNED_ILINT_TAG_ID
                    ==> n == value_size
            }),
    {
        let id = tag.id();
        if id == IL_ILINT_TAG_ID || id == IL_SIGNED_ILINT_TAG_ID {
            tag.deserialize_value(self, value_size, reader)
        } else {
            let bytes = deserialize_bytes(value_size, reader)?;
            let mut br = ByteArrayReader::new(bytes.as_slice());
            tag.deserialize_value(self, value_size, &mut br)?;
            if br.available() != 0 {
                return Err(ErrorKind::CorruptedData);
            }
            proof {
                if R::obeys_model() {
                    assert(bytes@.take(bytes@.len() as int) =~= bytes@);
                    if R::obeys_model() {
                        assert(reader.remaining().len() == old(reader).remaining().len() - value_size);
                    }
                }
            }
            Ok(())
        }
    }

    /// Reads a tag into `tag`: the id read must be the id of `tag`,
    /// otherwise it fails with `ErrorKind::UnexpectedTagType`.
    pub fn deserialize_into<T: ILTag, R: Reader>(&self, reader: &mut R, tag: &mut T) -> (r: Result<()>)
        ensures
            T::obeys_tag_model() ==> final(tag).spec_id() == old(tag).spec_id(),
            T::obeys_tag_model() && R::obeys_model() ==> (r is Ok ==> {
                let n = old(reader).remaining().len() - final(reader).remaining().len();
                &&& 0 < n <= old(reader).remaining().len()
                &&& final(reader).remaining() == old(reader).remaining().skip(n)
                &&& spec_decode_from_bytes(old(reader).remaining()) is Ok
                &&& spec_decode_from_bytes(old(reader).remaining())->Ok_0.0 == old(tag).spec_id()
            }),
            T::obeys_tag_model() && R::obeys_model() ==> (spec_decode_from_bytes(old(reader).remaining()) matches Ok((id, _)) && id != old(tag).spec_id()
                ==> r == Err::<(), ErrorKind>(ErrorKind::UnexpectedTagType)),
    {
        let ghost rem0 = reader.remaining();
        let tag_id = deserialize_ilint(reader)?;
        if tag_id != tag.id() {
            return Err(ErrorKind::UnexpectedTagType);
        }
        let size = Self::deserialize_tag_size(tag_id, reader)?;
        self.deserialize_tag_value_into(size, reader, tag)?;
        proof {
            if R::obeys_model() {
                let n1 = spec_decode_from_bytes(rem0)->Ok_0.1;
                assert(n1 >= 1);
            }
        }
        Ok(())
    }

    /// Deserializes the tag held in `bytes`.
    pub fn from_bytes(&self, bytes: &[u8]) -> (r: Result<ILAnyTag>)
        ensures
            r matches Ok(t) ==> exists|n: int| 0 < n <= bytes@.len() && spec_frame_decodes(#[trigger] bytes@.take(n), t),
    {
        let mut reader = ByteArrayReader::new(bytes);
        let t = self.deserialize(&mut reader)?;
        proof {
            let n = bytes@.len() - reader.remaining().len();
            assert(spec_frame_decodes(bytes@.take(n), t));
        }
        Ok(t)
    }

    /// Gives access to the engine, to register more tags.
    pub fn engine(&mut self) -> (r: &mut ILTagCreatorEngine)
        ensures
            *r == old(self).spec_engine(),
            *final(r) == final(self).spec_engine(),
    {
        &mut self.engine
    }
}

impl ILTagFactory for ILStandardTagFactory {
    open spec fn obeys_factory_model() -> bool {
        true
    }

    fn create_tag(&self, tag_id: u64) -> (r: Option<ILAnyTag>)
        ensures
            !self.spec_engine().ids().contains(tag_id) && !self.spec_engine().spec_strict()
                && tag_id > IMPLICIT_ID_MAX ==> (r matches Some(ILAnyTag::Raw(t))
                && t.spec_id() == tag_id && t.spec_value().len() == 0),
            !self.spec_engine().ids().contains(tag_id) && (self.spec_engine().spec_strict()
                || tag_id <= IMPLICIT_ID_MAX) ==> r is None,
            self.spec_engine().wf() && self.spec_engine().ids().contains(tag_id) ==> r is Some,
            self.spec_engine().wf() && self.spec_engine().kinds().contains_key(tag_id) && self.spec_engine().kinds()[tag_id] is Some
                ==> (r matches Some(t) && any_kind(t) == self.spec_engine().kinds()[tag_id]->Some_0.kind
                && t.spec_id() == made_id(self.spec_engine().kinds()[tag_id]->Some_0, tag_id)),
    {
        self.engine.create_tag(tag_id)
    }

    /// Reads the id and, for explicit tags, the size; creates the tag with
    /// the engine and reads its value. All tags but ILInt ones (whose size
    /// is given by their first byte) must consume exactly their size.
    fn deserialize<R: Reader>(&self, reader: &mut R) -> (r: Result<ILAnyTag>)
        ensures
            R::obeys_model() ==> (deserialize_outcome(self.spec_engine(), old(reader).remaining(), r)),
    {
        deserialize_with_engine(&self.engine, reader)
    }
}

} // verus!
