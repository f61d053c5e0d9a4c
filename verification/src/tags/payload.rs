//! Tags whose value is a payload that users define.
use crate::io::{Reader, Writer};
use crate::tags::{DefaultWithId, ILTag, ILTagFactory, Result};
use vstd::prelude::*;

verus! {

//=============================================================================
// ILTagPayload
//-----------------------------------------------------------------------------
/// The interface of the payloads of `ILGenericPayloadTag`. Users implement
/// it for their payloads: a payload is modelled by its serialization. Only
/// payloads that say so with `obeys_payload_model()` are held to this
/// model; of any other payload, such as one written outside verified code,
/// the contracts of this trait promise nothing.
pub trait ILTagPayload {
    /// True for payloads that keep to the model; `false` by default.
    open spec fn obeys_payload_model() -> bool {
        false
    }

    /// The serialization of the payload.
    open spec fn spec_payload(&self) -> Seq<u8> {
        Seq::empty()
    }

    /// True when deserializing `value` may give this payload.
    open spec fn spec_payload_decodes(&self, value: Seq<u8>) -> bool {
        value == self.spec_payload()
    }

    /// Returns the size of the serialization of the payload.
    fn serialized_size(&self) -> (r: usize)
        ensures
            Self::obeys_payload_model() ==> r == self.spec_payload().len(),
    ;

    /// Serializes the payload.
    fn serialize<W: Writer>(&self, writer: &mut W) -> (r: Result<()>)
        ensures
            Self::obeys_payload_model() && W::obeys_model() && r is Ok ==> final(writer).written() == old(
                writer,
            ).written() + self.spec_payload(),
    ;

    /// Deserializes the payload, which takes `value_size` bytes.
    fn deserialize<F: ILTagFactory, R: Reader>(
        &mut self,
        factory: &F,
        value_size: usize,
        reader: &mut R,
    ) -> (r: Result<()>)
        ensures
            Self::obeys_payload_model() && R::obeys_model() ==> (r is Ok ==> {
                let n = old(reader).remaining().len() - final(reader).remaining().len();
                &&& 0 <= n
                &&& final(reader).remaining() == old(reader).remaining().skip(n)
                &&& final(self).spec_payload_decodes(old(reader).remaining().take(n))
            }),
    ;
}

//=============================================================================
// ILGenericPayloadTag
//-----------------------------------------------------------------------------
/// A tag whose value is a payload: the payload handles its serialization
/// and this struct the rest of the tag.
pub struct ILGenericPayloadTag<T: ILTagPayload + Default> {
    id: u64,
    payload: T,
}

/// The payload of a tag can be reached through the tag itself.
impl<T: ILTagPayload + Default> core::ops::Deref for ILGenericPayloadTag<T> {
    type Target = T;

    fn deref(&self) -> (r: &T)
        ensures
            *r == self.spec_payload(),
    {
        &self.payload
    }
}

impl<T: ILTagPayload + Default> ILGenericPayloadTag<T> {
    /// The payload.
    pub closed spec fn spec_payload(&self) -> T {
        self.payload
    }

    /// Creates a tag with the given id and a default payload.
    pub fn new(id: u64) -> (r: Self)
        ensures
            r.spec_id() == id,
    {
        Self { id, payload: T::default() }
    }

    /// Returns the payload.
    pub fn payload(&self) -> (r: &T)
        ensures
            *r == self.spec_payload(),
    {
        &self.payload
    }

    /// Returns the payload for modification.
    pub fn mut_payload(&mut self) -> (r: &mut T)
        ensures
            *r == old(self).spec_payload(),
            *final(r) == final(self).spec_payload(),
            final(self).spec_id() == old(self).spec_id(),
    {
        &mut self.payload
    }
}

impl<T: ILTagPayload + Default> ILTag for ILGenericPayloadTag<T> {
    open spec fn obeys_tag_model() -> bool {
        T::obeys_payload_model()
    }

    closed spec fn spec_id(&self) -> u64 {
        self.id
    }

    closed spec fn spec_value(&self) -> Seq<u8> {
        self.payload.spec_payload()
    }

    closed spec fn spec_decodes(&self, value: Seq<u8>) -> bool {
        self.payload.spec_payload_decodes(value)
    }

    fn id(&self) -> (r: u64) {
        self.id
    }

    fn value_size(&self) -> (r: u64) {
        self.payload.serialized_size() as u64
    }

    fn serialize_value<W: Writer>(&self, writer: &mut W) -> (r: Result<()>) {
        self.payload.serialize(writer)
    }

    fn deserialize_value<F: ILTagFactory, R: Reader>(
        &mut self,
        factory: &F,
        value_size: usize,
        reader: &mut R,
    ) -> (r: Result<()>) {
        self.payload.deserialize(factory, value_size, reader)
    }
}

impl<T: ILTagPayload + Default> DefaultWithId for ILGenericPayloadTag<T> {
    fn default_with_id(id: u64) -> (r: Self) {
        Self::new(id)
    }
}

} // verus!
