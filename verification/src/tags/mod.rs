//! The **ILTags** standard: a tag is an id (an ILInt) followed, for explicit
//! tags, by the size of its value (an ILInt) and then by the value itself.
//! Implicit tags (ids up to `IMPLICIT_ID_MAX`) carry no size field.
pub mod payload;
pub mod raw;
pub mod serialization;
pub mod standard;
pub mod util;

use crate::ilint::{spec_encode, spec_encoded_size};
use crate::io::{Reader, Writer};
pub use serialization::{
    deserialize_bytes, deserialize_bytes_into_vec, deserialize_ilint, serialize_bytes,
    serialize_ilint,
};
use standard::explicit::{any_kind, made_id, make_std_tag, ILAnyTag, ILAnyTagKind};
use vstd::prelude::*;

verus! {

/// Maximum tag size that can be handled by this library.
pub const MAX_TAG_SIZE: u64 = 536870912;

/// Maximum tag id value for implicit tags.
pub const IMPLICIT_ID_MAX: u64 = 0x0F;

/// Maximum tag id value for reserved tags.
pub const RESERVED_ID_MAX: u64 = 0x1F;

/// Errors of this module.
#[derive(Debug)]
pub enum ErrorKind {
    /// The tag id is not known to the factory.
    UnknownTag,
    /// The tag is not supported.
    UnsupportedTag,
    /// The data is corrupted.
    CorruptedData,
    /// The tag is larger than `MAX_TAG_SIZE`.
    TagTooLarge,
    /// The tag found is not of the expected type.
    UnexpectedTagType,
    /// The tag could not be serialized.
    UnableToSerialize,
    /// I/O error.
    IOError(crate::io::ErrorKind),
}

impl From<crate::io::ErrorKind> for ErrorKind {
    fn from(e: crate::io::ErrorKind) -> (r: ErrorKind) {
        ErrorKind::IOError(e)
    }
}

impl vstd::std_specs::convert::FromSpecImpl<crate::io::ErrorKind> for ErrorKind {
    open spec fn obeys_from_spec() -> bool {
        true
    }

    open spec fn from_spec(e: crate::io::ErrorKind) -> ErrorKind {
        ErrorKind::IOError(e)
    }
}

/// Result type of this module.
pub type Result<T> = core::result::Result<T, ErrorKind>;

/// The serialization of a tag with the given id and value.
pub open spec fn spec_tag_bytes(id: u64, value: Seq<u8>) -> Seq<u8> {
    if id <= IMPLICIT_ID_MAX {
        spec_encode(id) + value
    } else {
        spec_encode(id) + spec_encode(value.len() as u64) + value
    }
}

/// The size of the header (id and size fields) of a tag.
pub open spec fn spec_header_size(id: u64, value_size: nat) -> nat {
    if id <= IMPLICIT_ID_MAX {
        spec_encoded_size(id)
    } else {
        spec_encoded_size(id) + spec_encoded_size(value_size as u64)
    }
}

/// Verifies if `id` is the id of an implicit tag.
pub fn is_implicit_tag(id: u64) -> (r: bool)
    ensures
        r == (id <= IMPLICIT_ID_MAX),
{
    id <= IMPLICIT_ID_MAX
}

/// Verifies if `id` is the id of a reserved tag.
pub fn is_reserved_tag(id: u64) -> (r: bool)
    ensures
        r == (id <= RESERVED_ID_MAX),
{
    id <= RESERVED_ID_MAX
}

/// Converts a tag size read from the data into a `usize`, refusing sizes
/// above `MAX_TAG_SIZE` as a sign of corruption.
pub fn tag_size_to_usize(size: u64) -> (r: Result<usize>)
    ensures
        size > MAX_TAG_SIZE ==> r == Err::<usize, ErrorKind>(ErrorKind::TagTooLarge),
        size <= MAX_TAG_SIZE ==> r == Ok::<usize, ErrorKind>(size as usize),
{
    if size > MAX_TAG_SIZE {
        Err(ErrorKind::TagTooLarge)
    } else {
        Ok(size as usize)
    }
}

//=============================================================================
// ILTag
//-----------------------------------------------------------------------------
/// The interface of all tags.
///
/// A tag is modelled by its id and by the bytes of its serialized value.
/// Only tags that say so with `obeys_tag_model()` are held to this model;
/// the tags of this library are. Of any other tag, such as one written
/// outside verified code, the contracts of this trait promise nothing.
pub trait ILTag {
    /// True for tags that keep to the model; `false` by default.
    open spec fn obeys_tag_model() -> bool {
        false
    }

    /// The id of the tag.
    open spec fn spec_id(&self) -> u64 {
        0
    }

    /// The serialization of the value of the tag.
    open spec fn spec_value(&self) -> Seq<u8> {
        Seq::empty()
    }

    /// True when deserializing the value bytes `value` may give this tag.
    /// For most tags this means that `value` is exactly `spec_value()`;
    /// tags that hold ILInts also accept non-minimal encodings.
    open spec fn spec_decodes(&self, value: Seq<u8>) -> bool {
        value == self.spec_value()
    }

    /// True when `serialize_value` is known to succeed whenever the value
    /// fits in the writer's room, and to write exactly the value. The tags
    /// of this library say so; implementations written elsewhere may keep
    /// the default, which promises nothing.
    open spec fn spec_serializes(&self) -> bool {
        false
    }

    /// Returns the id of the tag.
    fn id(&self) -> (r: u64)
        ensures
            Self::obeys_tag_model() ==> r == self.spec_id(),
    ;

    /// Verifies if this tag is implicit.
    fn is_implicity(&self) -> (r: bool)
        ensures
            Self::obeys_tag_model() ==> r == (self.spec_id() <= IMPLICIT_ID_MAX),
    {
        is_implicit_tag(self.id())
    }

    /// Verifies if this tag is reserved.
    fn is_reserved(&self) -> (r: bool)
        ensures
            Self::obeys_tag_model() ==> r == (self.spec_id() <= RESERVED_ID_MAX),
    {
        is_reserved_tag(self.id())
    }

    /// Returns the size of the serialized value in bytes.
    fn value_size(&self) -> (r: u64)
        requires
            self.spec_value().len() <= u64::MAX,
        ensures
            Self::obeys_tag_model() ==> r == self.spec_value().len(),
    ;

    /// Returns the total size of the serialized tag in bytes.
    fn size(&self) -> (r: u64)
        requires
            self.spec_value().len() + 18 <= u64::MAX,
        ensures
            Self::obeys_tag_model() ==> r == spec_tag_bytes(self.spec_id(), self.spec_value()).len(),
    {
        proof {
            crate::ilint::lemma_encode_len(self.spec_id());
            crate::ilint::lemma_encode_len(self.spec_value().len() as u64);
        }
        let mut size: u64 = crate::ilint::encoded_size(self.id()) as u64;
        if !self.is_implicity() {
            size = size + crate::ilint::encoded_size(self.value_size()) as u64;
        }
        size.wrapping_add(self.value_size())
    }

    /// Serializes the value of this tag.
    fn serialize_value<W: Writer>(&self, writer: &mut W) -> (r: Result<()>)
        requires
            self.spec_value().len() <= u64::MAX,
        ensures
            Self::obeys_tag_model() && W::obeys_model() && r is Ok ==> final(writer).written() == old(
                writer,
            ).written() + self.spec_value(),
            Self::obeys_tag_model() && self.spec_serializes() ==> crate::io::writes_exactly(
                *old(writer),
                *final(writer),
                self.spec_value(),
                r is Ok,
            ),
    ;

    /// Serializes this tag.
    fn serialize<W: Writer>(&self, writer: &mut W) -> (r: Result<()>)
        requires
            self.spec_value().len() <= u64::MAX,
        ensures
            Self::obeys_tag_model() && W::obeys_model() && r is Ok ==> final(writer).written() == old(
                writer,
            ).written() + spec_tag_bytes(self.spec_id(), self.spec_value()),
            Self::obeys_tag_model() && self.spec_serializes() ==> crate::io::writes_exactly(
                *old(writer),
                *final(writer),
                spec_tag_bytes(self.spec_id(), self.spec_value()),
                r is Ok,
            ),
    {
        let ghost all = spec_tag_bytes(self.spec_id(), self.spec_value());
        let ghost a = spec_encode(self.spec_id());
        let ghost v = self.spec_value();
        let r0 = serialize_ilint(self.id(), writer);
        if r0.is_err() {
            proof {
                if Self::obeys_tag_model() {
                    crate::io::lemma_writes_failed(*old(writer), *writer, a, all);
                }
            }
            return r0;
        }
        let ghost mut head = a;
        if !self.is_implicity() {
            let ghost w1 = *writer;
            let ghost b = spec_encode(v.len() as u64);
            let r1 = serialize_ilint(self.value_size(), writer);
            proof {
                if Self::obeys_tag_model() {
                    crate::io::lemma_writes_chain(*old(writer), w1, *writer, a, b, r1 is Ok);
                }
            }
            if r1.is_err() {
                proof {
                    if Self::obeys_tag_model() {
                        crate::io::lemma_writes_failed(*old(writer), *writer, a + b, all);
                    }
                }
                return r1;
            }
            proof {
                if Self::obeys_tag_model() {
                    head = a + b;
                }
            }
        }
        proof {
            if Self::obeys_tag_model() {
                assert(all =~= head + v);
            }
        }
        let ghost w2 = *writer;
        let r = self.serialize_value(writer);
        proof {
            if Self::obeys_tag_model() {
                if self.spec_serializes() {
                    crate::io::lemma_writes_chain(*old(writer), w2, *writer, head, v, r is Ok);
                }
                if r is Ok {
                    assert(W::obeys_model() ==> final(writer).written() =~= old(writer).written() + all);
                }
            }
        }
        r
    }

    /// Deserializes the value of this tag from `reader`, where it takes
    /// `value_size` bytes. The id of the tag does not change. On success
    /// the bytes consumed are a value that decodes to the new state.
    fn deserialize_value<F: ILTagFactory, R: Reader>(
        &mut self,
        factory: &F,
        value_size: usize,
        reader: &mut R,
    ) -> (r: Result<()>)
        ensures
            Self::obeys_tag_model() ==> final(self).spec_id() == old(self).spec_id(),
            Self::obeys_tag_model() && F::obeys_factory_model() && R::obeys_model() ==> (r is Ok ==> {
                let n = old(reader).remaining().len() - final(reader).remaining().len();
                &&& 0 <= n
                &&& final(reader).remaining() == old(reader).remaining().skip(n)
                &&& final(self).spec_decodes(old(reader).remaining().take(n))
            }),
    ;
}

/// Returns the tag of kind `T` held in `tag`, if `tag` is of that kind.
pub fn tag_downcast_ref<T: ILAnyTagKind>(tag: &ILAnyTag) -> (r: Option<&T>)
    ensures
        r is Some <==> T::spec_from_any(*tag) is Some,
        r matches Some(t) ==> T::spec_from_any(*tag) == Some(*t),
        r matches Some(t) ==> t.spec_id() == tag.spec_id() && t.spec_value() == tag.spec_value(),
{
    T::from_any_ref(tag)
}

/// Returns the tag of kind `T` held in `tag` for modification, if `tag` is
/// of that kind.
pub fn tag_downcast_mut<T: ILAnyTagKind>(tag: &mut ILAnyTag) -> (r: Option<&mut T>)
    ensures
        r is Some <==> T::spec_from_any(*old(tag)) is Some,
        r matches Some(t) ==> T::spec_from_any(*old(tag)) == Some(*t) && *final(tag)
            == (*final(t)).spec_into_any(),
        r is None ==> *final(tag) == *old(tag),
        r matches Some(t) ==> t.spec_id() == old(tag).spec_id(),
{
    T::from_any_mut(tag)
}

//=============================================================================
// DefaultWithId
//-----------------------------------------------------------------------------
/// A variant of `Default` that takes the id of the tag.
pub trait DefaultWithId: ILTag + Sized {
    /// Creates a default tag with the given id.
    fn default_with_id(id: u64) -> (r: Self)
        ensures
            Self::obeys_tag_model() ==> r.spec_id() == id,
    ;
}

//=============================================================================
// ILTagFactory
//-----------------------------------------------------------------------------
/// The interface of tag factories. Only factories that say so with
/// `obeys_factory_model()` are held to the contract of `deserialize`; the
/// factories of this library are.
pub trait ILTagFactory {
    /// True for factories that keep to the contract of `deserialize`;
    /// `false` by default.
    open spec fn obeys_factory_model() -> bool {
        false
    }

    /// Creates an empty tag for the given id, if the id is known.
    fn create_tag(&self, tag_id: u64) -> (r: Option<ILAnyTag>);

    /// Deserializes a tag. On success the tag consumed a nonempty prefix of
    /// the data: a serialized tag whose value deserializes into it.
    fn deserialize<R: Reader>(&self, reader: &mut R) -> (r: Result<ILAnyTag>)
        ensures
            Self::obeys_factory_model() && R::obeys_model() ==> (r matches Ok(t) ==> {
                let n = old(reader).remaining().len() - final(reader).remaining().len();
                &&& 0 < n <= old(reader).remaining().len()
                &&& final(reader).remaining() == old(reader).remaining().skip(n)
                &&& standard::explicit::spec_frame_decodes(old(reader).remaining().take(n), t)
            }),
    ;
}

//=============================================================================
// ILTagCreator
//-----------------------------------------------------------------------------
/// The kinds of the tags of this library, one for each variant of
/// `ILAnyTag`.
#[derive(Debug, Copy, Clone, PartialEq, Eq, Structural)]
pub enum TagKind {
    Null,
    Bool,
    Int8,
    UInt8,
    Int16,
    UInt16,
    Int32,
    UInt32,
    Int64,
    UInt64,
    ILInt,
    SignedILInt,
    Bin32,
    Bin64,
    Bin128,
    Raw,
    TagSeq,
    TagArray,
    Bytes,
    Str,
    BigInt,
    BigDec,
    ILIntArray,
    Range,
    Version,
    OID,
    Dict,
    StrDict,
}

/// What a creator of this library makes: the empty tags of one kind, with
/// the kind's own id (`with_id` false) or with the id asked for.
#[derive(Debug, Copy, Clone, PartialEq, Eq, Structural)]
pub struct CreatorKind {
    pub kind: TagKind,
    pub with_id: bool,
}

/// The interface of tag creators, which create empty tags.
pub trait ILTagCreator {
    /// The kind of the tags this creator makes, when it makes the empty
    /// tags of one kind of this library; `None` for any other creator. The
    /// engine makes the empty tags of a creator that reports a kind itself:
    /// the default tag of the kind, with the id asked for when `with_id`
    /// is set and the kind takes one.
    open spec fn spec_kind(&self) -> Option<CreatorKind> {
        None
    }

    /// Returns the kind of the tags this creator makes, if it is known.
    /// The default knows none.
    fn kind(&self) -> (r: Option<CreatorKind>)
        ensures
            r is Some ==> r == self.spec_kind(),
    {
        None
    }

    /// Creates a new empty tag for `tag_id`.
    fn create_empty_tag(&self, tag_id: u64) -> (r: ILAnyTag);
}

//=============================================================================
// ILDefaultTagCreator
//-----------------------------------------------------------------------------
/// Creates tags through `Default`.
pub struct ILDefaultTagCreator<T: ILAnyTagKind + Default> {
    phantom: core::marker::PhantomData<T>,
}

impl<T: ILAnyTagKind + Default> ILDefaultTagCreator<T> {
    /// Creates a new instance of this struct.
    pub fn new() -> Self {
        Self { phantom: core::marker::PhantomData }
    }
}

impl<T: ILAnyTagKind + Default> ILTagCreator for ILDefaultTagCreator<T> {
    open spec fn spec_kind(&self) -> Option<CreatorKind> {
        Some(CreatorKind { kind: T::spec_tag_kind(), with_id: false })
    }

    fn kind(&self) -> (r: Option<CreatorKind>)
        ensures
            r == self.spec_kind(),
    {
        Some(CreatorKind { kind: T::tag_kind(), with_id: false })
    }

    /// Wraps what `T::default()` gives; `tag_id` is not used.
    fn create_empty_tag(&self, tag_id: u64) -> (r: ILAnyTag)
        ensures
            exists|t: T| call_ensures(T::default, (), t) && r == t.spec_into_any(),
    {
        T::default().into_any()
    }
}

//=============================================================================
// ILDefaultWithIdTagCreator
//-----------------------------------------------------------------------------
/// Creates tags through `DefaultWithId`, with the requested id.
pub struct ILDefaultWithIdTagCreator<T: ILAnyTagKind + DefaultWithId> {
    phantom: core::marker::PhantomData<T>,
}

impl<T: ILAnyTagKind + DefaultWithId> ILDefaultWithIdTagCreator<T> {
    /// Creates a new instance of this struct.
    pub fn new() -> Self {
        Self { phantom: core::marker::PhantomData }
    }
}

impl<T: ILAnyTagKind + DefaultWithId> ILTagCreator for ILDefaultWithIdTagCreator<T> {
    open spec fn spec_kind(&self) -> Option<CreatorKind> {
        Some(CreatorKind { kind: T::spec_tag_kind(), with_id: true })
    }

    fn kind(&self) -> (r: Option<CreatorKind>)
        ensures
            r == self.spec_kind(),
    {
        Some(CreatorKind { kind: T::tag_kind(), with_id: true })
    }

    fn create_empty_tag(&self, tag_id: u64) -> (r: ILAnyTag)
        ensures
            r.spec_id() == tag_id,
            exists|t: T| call_ensures(T::default_with_id, (tag_id,), t) && r == t.spec_into_any(),
    {
        T::default_with_id(tag_id).into_any()
    }
}

//=============================================================================
// ILTagCreatorEngine
//-----------------------------------------------------------------------------
/// Maps tag ids to the creators of their tags.
///
/// The ids are kept in a list of their own, beside the list of creators
/// and the list of their kinds, at the same positions. The kind of each
/// creator is asked when it is registered; for a creator of a known kind the
/// engine makes that kind's empty tag itself, as the creator would.
pub struct ILTagCreatorEngine {
    ids: Vec<u64>,
    kinds: Vec<Option<CreatorKind>>,
    creators: Vec<Box<dyn ILTagCreator>>,
    strict: bool,
}

impl ILTagCreatorEngine {
    /// The ids with a registered creator.
    pub closed spec fn ids(&self) -> Seq<u64> {
        self.ids@
    }

    /// The kind of the creator registered for each id: `Some` for the
    /// creators of this library, which make the empty tags of one kind,
    /// `None` for other creators.
    pub closed spec fn kinds(&self) -> Map<u64, Option<CreatorKind>> {
        Map::new(
            |id: u64| self.ids@.contains(id),
            |id: u64| self.kinds@[choose|i: int| 0 <= i < self.ids@.len() && self.ids@[i] == id],
        )
    }

    /// The strict flag.
    pub closed spec fn spec_strict(&self) -> bool {
        self.strict
    }

    /// No id is registered twice.
    pub closed spec fn wf(&self) -> bool {
        &&& self.ids@.no_duplicates()
        &&& self.ids@.len() == self.creators@.len()
        &&& self.ids@.len() == self.kinds@.len()
    }

    /// The kind registered at position `i` is the kind of its id.
    proof fn lemma_kind_at(&self, i: int)
        requires
            self.wf(),
            0 <= i < self.ids@.len(),
        ensures
            self.kinds().contains_key(self.ids@[i]),
            self.kinds()[self.ids@[i]] == self.kinds@[i],
    {
        let id = self.ids@[i];
        assert(self.ids@.contains(id));
        let j = choose|j: int| 0 <= j < self.ids@.len() && self.ids@[j] == id;
        assert(j == i);
    }

    /// Creates a new engine with no registered creator. In non-strict mode,
    /// unknown explicit ids are mapped to `ILRawTag` instances.
    pub fn new(strict: bool) -> (r: ILTagCreatorEngine)
        ensures
            r.wf(),
            r.ids() == Seq::<u64>::empty(),
            r.kinds() == Map::<u64, Option<CreatorKind>>::empty(),
            r.spec_strict() == strict,
    {
        let r = ILTagCreatorEngine { ids: Vec::new(), kinds: Vec::new(), creators: Vec::new(), strict };
        proof {
            assert(r.kinds() =~= Map::<u64, Option<CreatorKind>>::empty());
        }
        r
    }

    /// Returns the strict flag.
    pub fn strict(&self) -> (r: bool)
        ensures
            r == self.spec_strict(),
    {
        self.strict
    }

    fn find(&self, tag_id: u64) -> (r: Option<usize>)
        ensures
            r matches Some(i) ==> i < self.ids().len() && self.ids()[i as int] == tag_id,
            r is None ==> !self.ids().contains(tag_id),
    {
        let mut i: usize = 0;
        while i < self.ids.len()
            invariant
                i <= self.ids@.len(),
                forall|j: int| 0 <= j < i ==> self.ids@[j] != tag_id,
            decreases self.ids@.len() - i,
        {
            if self.ids[i] == tag_id {
                return Some(i);
            }
            i = i + 1;
        }
        None
    }

    /// Registers `creator` for `tag_id`, returning the creator previously
    /// registered for it, if any. The kind that `creator` reports becomes
    /// the kind of `tag_id` (none when it reports none); every other id
    /// keeps its creator and kind.
    pub fn register(&mut self, tag_id: u64, creator: Box<dyn ILTagCreator>) -> (r: Option<
        Box<dyn ILTagCreator>,
    >)
        requires
            old(self).wf(),
        ensures
            final(self).wf(),
            final(self).spec_strict() == old(self).spec_strict(),
            final(self).ids().to_set() == old(self).ids().to_set().insert(tag_id),
            final(self).kinds().contains_key(tag_id),
            final(self).kinds().remove(tag_id) == old(self).kinds().remove(tag_id),
            final(self).kinds()[tag_id] is Some ==> final(self).kinds()[tag_id] == creator.spec_kind(),
            r is Some <==> old(self).ids().contains(tag_id),
    {
        let kind = creator.kind();
        proof {
            assert(old(self).kinds().insert(tag_id, kind).remove(tag_id) =~= old(self).kinds().remove(tag_id));
        }
        self.register_kind(tag_id, creator, kind)
    }

    /// Registers `creator` for `tag_id` with the kind it reported, `kind`.
    pub(crate) fn register_kind(&mut self, tag_id: u64, creator: Box<dyn ILTagCreator>, kind: Option<CreatorKind>) -> (r:
        Option<Box<dyn ILTagCreator>>)
        requires
            old(self).wf(),
        ensures
            final(self).wf(),
            final(self).spec_strict() == old(self).spec_strict(),
            final(self).ids().to_set() == old(self).ids().to_set().insert(tag_id),
            final(self).kinds() == old(self).kinds().insert(tag_id, kind),
            r is Some <==> old(self).ids().contains(tag_id),
    {
        match self.find(tag_id) {
            Some(i) => {
                let ghost c0 = self.creators@;
                let old_creator = self.creators.remove(i);
                let ghost c1 = self.creators@;
                let ghost cr = creator;
                self.creators.insert(i, creator);
                self.kinds.set(i, kind);
                proof {
                    c0.remove_ensures(i as int);
                    c1.insert_ensures(i as int, cr);
                    assert(old(self).ids().to_set().insert(tag_id) =~= old(self).ids().to_set());
                    assert forall|id: u64| #[trigger] self.kinds().contains_key(id) implies self.kinds()[id]
                        == old(self).kinds().insert(tag_id, kind)[id] by {
                        let k = choose|k: int| 0 <= k < self.ids@.len() && self.ids@[k] == id;
                        self.lemma_kind_at(k);
                        old(self).lemma_kind_at(k);
                    }
                    assert(self.kinds() =~= old(self).kinds().insert(tag_id, kind));
                }
                Some(old_creator)
            },
            None => {
                self.ids.push(tag_id);
                self.kinds.push(kind);
                let ghost c0 = self.creators@;
                let ghost cr = creator;
                self.creators.push(creator);
                proof {
                    lemma_push_len(c0, cr);
                    assert(self.ids@.no_duplicates()) by {
                        assert forall|a: int, b: int| 0 <= a < b < self.ids@.len() implies self.ids@[a] != self.ids@[b] by {
                            if b == self.ids@.len() - 1 {
                                assert(old(self).ids@[a] == self.ids@[a]);
                            }
                        }
                    }
                    assert(self.ids().to_set() =~= old(self).ids().to_set().insert(tag_id)) by {
                        assert forall|x: u64| self.ids().to_set().contains(x) <==> old(self).ids().to_set().insert(tag_id).contains(x) by {
                            if x == tag_id {
                                assert(self.ids@[self.ids@.len() - 1] == x);
                            }
                            if old(self).ids@.contains(x) {
                                let k = choose|k: int| 0 <= k < old(self).ids@.len() && old(self).ids@[k] == x;
                                assert(self.ids@[k] == x);
                            }
                            if self.ids@.contains(x) && x != tag_id {
                                let k = choose|k: int| 0 <= k < self.ids@.len() && self.ids@[k] == x;
                                assert(old(self).ids@[k] == x);
                            }
                        }
                    }
                    assert forall|id: u64| #[trigger] self.kinds().contains_key(id) implies self.kinds()[id]
                        == old(self).kinds().insert(tag_id, kind)[id] by {
                        let k = choose|k: int| 0 <= k < self.ids@.len() && self.ids@[k] == id;
                        self.lemma_kind_at(k);
                        if id != tag_id {
                            old(self).lemma_kind_at(k);
                        }
                    }
                    assert(self.kinds().dom() =~= old(self).kinds().insert(tag_id, kind).dom()) by {
                        assert(self.kinds().dom() =~= self.ids().to_set());
                        assert(old(self).kinds().dom() =~= old(self).ids().to_set());
                    }
                    assert(self.kinds() =~= old(self).kinds().insert(tag_id, kind));
                }
                None
            },
        }
    }

    /// Removes the creator registered for `tag_id`, returning it. Every
    /// other id keeps its creator.
    pub fn deregister(&mut self, tag_id: u64) -> (r: Option<Box<dyn ILTagCreator>>)
        requires
            old(self).wf(),
        ensures
            final(self).wf(),
            final(self).spec_strict() == old(self).spec_strict(),
            final(self).ids().to_set() == old(self).ids().to_set().remove(tag_id),
            final(self).kinds() == old(self).kinds().remove(tag_id),
            r is Some <==> old(self).ids().contains(tag_id),
    {
        match self.find(tag_id) {
            Some(i) => {
                let ghost before = self.ids@;
                let ghost kbefore = self.kinds@;
                self.ids.remove(i);
                self.kinds.remove(i);
                let c = self.creators.remove(i);
                proof {
                    before.remove_ensures(i as int);
                    kbefore.remove_ensures(i as int);
                    assert(self.ids@.no_duplicates()) by {
                        assert forall|a: int, b: int| 0 <= a < b < self.ids@.len() implies self.ids@[a] != self.ids@[b] by {
                            let a0 = if a < i { a } else { a + 1 };
                            let b0 = if b < i { b } else { b + 1 };
                            assert(self.ids@[a] == before[a0]);
                            assert(self.ids@[b] == before[b0]);
                        }
                    }
                    assert(self.ids().to_set() =~= old(self).ids().to_set().remove(tag_id)) by {
                        assert forall|x: u64| self.ids().to_set().contains(x) <==> old(self).ids().to_set().remove(tag_id).contains(x) by {
                            if self.ids().contains(x) {
                                let k = choose|k: int| 0 <= k < self.ids().len() && self.ids()[k] == x;
                                if k < i {
                                    assert(before[k] == x);
                                } else {
                                    assert(before[k + 1] == x);
                                }
                            }
                            if before.contains(x) && x != tag_id {
                                let k = choose|k: int| 0 <= k < before.len() && before[k] == x;
                                if k < i {
                                    assert(self.ids@[k] == x);
                                } else {
                                    assert(k != i);
                                    assert(self.ids@[k - 1] == x);
                                }
                            }
                        }
                    }
                    assert forall|id: u64| #[trigger] self.kinds().contains_key(id) implies self.kinds()[id]
                        == old(self).kinds().remove(tag_id)[id] by {
                        let k = choose|k: int| 0 <= k < self.ids@.len() && self.ids@[k] == id;
                        self.lemma_kind_at(k);
                        if k < i {
                            old(self).lemma_kind_at(k);
                        } else {
                            old(self).lemma_kind_at(k + 1);
                        }
                    }
                    assert(self.kinds().dom() =~= old(self).kinds().remove(tag_id).dom()) by {
                        assert(self.kinds().dom() =~= self.ids().to_set());
                        assert(old(self).kinds().dom() =~= old(self).ids().to_set());
                    }
                    assert(self.kinds() =~= old(self).kinds().remove(tag_id));
                }
                Some(c)
            },
            None => {
                proof {
                    assert(old(self).ids().to_set().remove(tag_id) =~= old(self).ids().to_set());
                    assert(old(self).kinds().remove(tag_id) =~= old(self).kinds());
                }
                None
            },
        }
    }

    /// Creates an empty tag for `tag_id` with the registered creator: the
    /// empty tag of its kind when its kind is known, whatever the creator
    /// gives otherwise. An unknown id gives an `ILRawTag` when the engine is
    /// not strict and the id is explicit, and `None` otherwise.
    pub fn create_tag(&self, tag_id: u64) -> (r: Option<ILAnyTag>)
        ensures
            !self.ids().contains(tag_id) && !self.spec_strict() && tag_id > IMPLICIT_ID_MAX ==> (r
                matches Some(ILAnyTag::Raw(t)) && t.spec_id() == tag_id && t.spec_value().len() == 0),
            !self.ids().contains(tag_id) && (self.spec_strict() || tag_id <= IMPLICIT_ID_MAX)
                ==> r is None,
            self.wf() && self.ids().contains(tag_id) ==> r is Some,
            self.wf() && self.kinds().contains_key(tag_id) && self.kinds()[tag_id] is Some ==> (r
                matches Some(t) && any_kind(t) == self.kinds()[tag_id]->Some_0.kind && t.spec_id()
                == made_id(self.kinds()[tag_id]->Some_0, tag_id)),
    {
        match self.find(tag_id) {
            Some(i) => {
                if i < self.kinds.len() && i < self.creators.len() {
                    proof {
                        if self.wf() {
                            self.lemma_kind_at(i as int);
                        }
                    }
                    match self.kinds[i] {
                        Some(k) => Some(make_std_tag(k, tag_id)),
                        None => Some(self.creators[i].create_empty_tag(tag_id)),
                    }
                } else {
                    None
                }
            },
            None => {
                if !self.strict && !is_implicit_tag(tag_id) {
                    Some(ILAnyTag::Raw(ILRawTag::new(tag_id)))
                } else {
                    None
                }
            },
        }
    }
}

/// Pushing onto a sequence makes it one longer.
proof fn lemma_push_len<T>(s: Seq<T>, x: T)
    ensures
        s.push(x).len() == s.len() + 1,
{
}

//=============================================================================
// ILRawTag
//-----------------------------------------------------------------------------
/// A tag that keeps its value as raw bytes. It can hold any explicit tag.
pub struct ILRawTag {
    id: u64,
    value: Vec<u8>,
}

impl ILRawTag {
    /// Creates a new empty raw tag. The id must be explicit.
    pub fn new(id: u64) -> (r: ILRawTag)
        requires
            id > IMPLICIT_ID_MAX,
        ensures
            r.spec_id() == id,
            r.spec_value() == Seq::<u8>::empty(),
    {
        ILRawTag { id, value: Vec::new() }
    }

    /// Creates a new empty raw tag with the given capacity. The id must be
    /// explicit.
    pub fn with_capacity(id: u64, capacity: usize) -> (r: ILRawTag)
        requires
            id > IMPLICIT_ID_MAX,
        ensures
            r.spec_id() == id,
            r.spec_value() == Seq::<u8>::empty(),
    {
        ILRawTag { id, value: Vec::with_capacity(capacity) }
    }

    /// Creates a new raw tag with the given value. The id must be explicit.
    pub fn with_value(id: u64, value: &[u8]) -> (r: ILRawTag)
        requires
            id > IMPLICIT_ID_MAX,
        ensures
            r.spec_id() == id,
            r.spec_value() == value@,
    {
        ILRawTag { id, value: copy_bytes(value) }
    }

    /// Returns the value.
    pub fn value(&self) -> (r: &Vec<u8>)
        ensures
            r@ == self.spec_value(),
    {
        &self.value
    }

    /// Returns the value for modification.
    pub fn mut_value(&mut self) -> (r: &mut Vec<u8>)
        ensures
            r@ == old(self).spec_value(),
            final(self).spec_id() == old(self).spec_id(),
            final(self).spec_value() == final(r)@,
    {
        &mut self.value
    }

    /// Replaces the value.
    pub fn set_value(&mut self, value: &[u8])
        ensures
            final(self).spec_id() == old(self).spec_id(),
            final(self).spec_value() == value@,
    {
        self.value = copy_bytes(value);
    }
}

/// Copies a slice into a new vector.
pub fn copy_bytes(value: &[u8]) -> (r: Vec<u8>)
    ensures
        r@ == value@,
{
    let mut v: Vec<u8> = Vec::with_capacity(value.len());
    let mut i: usize = 0;
    while i < value.len()
        invariant
            i <= value@.len(),
            v@ == value@.take(i as int),
        decreases value@.len() - i,
    {
        v.push(value[i]);
        proof {
            assert(value@.take(i + 1) =~= value@.take(i as int).push(value@[i as int]));
        }
        i = i + 1;
    }
    proof {
        assert(value@.take(i as int) =~= value@);
    }
    v
}

impl ILRawTag {
    /// True when the value bytes `value` deserialize into this tag.
    pub closed spec fn decodes(&self, value: Seq<u8>) -> bool {
        value == self.value@
    }
}

impl ILTag for ILRawTag {
    open spec fn obeys_tag_model() -> bool {
        true
    }

    open spec fn spec_serializes(&self) -> bool {
        true
    }

    closed spec fn spec_id(&self) -> u64 {
        self.id
    }

    closed spec fn spec_value(&self) -> Seq<u8> {
        self.value@
    }

    open spec fn spec_decodes(&self, value: Seq<u8>) -> bool {
        self.decodes(value)
    }

    fn id(&self) -> (r: u64) {
        self.id
    }

    fn value_size(&self) -> (r: u64) {
        self.value.len() as u64
    }

    fn serialize_value<W: Writer>(&self, writer: &mut W) -> (r: Result<()>)
        ensures
            r matches Err(e) ==> e is IOError,
            crate::io::writes_exactly(*old(writer), *final(writer), self.spec_value(), r is Ok),
    {
        match writer.write_all(self.value.as_slice()) {
            Ok(()) => Ok(()),
            Err(e) => Err(ErrorKind::IOError(e)),
        }
    }

    fn deserialize_value<F: ILTagFactory, R: Reader>(
        &mut self,
        factory: &F,
        value_size: usize,
        reader: &mut R,
    ) -> (r: Result<()>)
        ensures
            R::obeys_model() ==> (r is Ok <==> old(reader).remaining().len() >= value_size),
            r matches Err(e) ==> e is IOError,
            R::obeys_model() ==> (r is Ok ==> final(self).spec_value() == old(reader).remaining().take(value_size as int)
                && final(reader).remaining() == old(reader).remaining().skip(value_size as int)),
    {
        let v = deserialize_bytes(value_size, reader)?;
        self.value = v;
        Ok(())
    }
}

impl DefaultWithId for ILRawTag {
    fn default_with_id(id: u64) -> (r: Self) {
        ILRawTag { id, value: Vec::new() }
    }
}

} // verus!
