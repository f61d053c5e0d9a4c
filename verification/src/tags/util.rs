//! Helpers for the users of tags: comparison and cloning of tags through
//! their serialization.
use super::standard::explicit::{
    frame_header, is_leaf_kind, leaf_outcome, raw_outcome, spec_frame_decodes, std_kind_id, ILAnyTag,
};
use super::standard::factory::{std_kind_of, std_tag_ids, ILStandardTagFactory};
use super::standard::constants::{IL_ILINT_TAG_ID, IL_SIGNED_ILINT_TAG_ID};
use super::standard::implicit::spec_implicit_tag_size;
use super::{spec_tag_bytes, CreatorKind, ErrorKind, ILTag, ILTagFactory, Result, IMPLICIT_ID_MAX, MAX_TAG_SIZE};
use crate::ilint::spec_encode;
use crate::io::array::{ByteArrayReader, VecWriter};
use crate::io::{LimitedReader, Reader};
use vstd::prelude::*;

verus! {

/// Compares two tags by their serializations. It returns false when a
/// serialization fails, which the tags of this library never do in memory.
pub fn iltag_are_equal<A: ILTag, B: ILTag>(a: &A, b: &B) -> (r: bool)
    requires
        a.spec_value().len() <= u64::MAX,
        b.spec_value().len() <= u64::MAX,
    ensures
        A::obeys_tag_model() && B::obeys_tag_model() ==> (r ==> spec_tag_bytes(a.spec_id(), a.spec_value())
            == spec_tag_bytes(b.spec_id(), b.spec_value())),
        A::obeys_tag_model() && B::obeys_tag_model() && a.spec_serializes() && b.spec_serializes() && spec_tag_bytes(a.spec_id(), a.spec_value()).len()
            <= usize::MAX && spec_tag_bytes(b.spec_id(), b.spec_value()).len() <= usize::MAX ==> (r
            <==> spec_tag_bytes(a.spec_id(), a.spec_value()) == spec_tag_bytes(b.spec_id(), b.spec_value())),
{
    let mut writer_a = VecWriter::new();
    match a.serialize(&mut writer_a) {
        Ok(()) => (),
        _ => return false,
    }
    let mut writer_b = VecWriter::new();
    match b.serialize(&mut writer_b) {
        Ok(()) => (),
        _ => return false,
    }
    crate::tags::standard::explicit::compare_bytes(writer_a.written_slice(), writer_b.written_slice()) == 0
}

/// Clones a tag by serializing it and deserializing the result with
/// `factory`. The clone is of the kind that `factory` builds for the id.
pub fn iltag_clone_with_factory<F: ILTagFactory, T: ILTag>(factory: &F, tag: &T) -> (r: Result<ILAnyTag>)
    requires
        tag.spec_value().len() <= u64::MAX,
    ensures
        T::obeys_tag_model() && F::obeys_factory_model() ==> (r matches Ok(t) ==> exists|n: int|
            0 < n <= spec_tag_bytes(tag.spec_id(), tag.spec_value()).len() && spec_frame_decodes(
                #[trigger] spec_tag_bytes(tag.spec_id(), tag.spec_value()).take(n),
                t,
            )),
{
    let mut writer = VecWriter::new();
    tag.serialize(&mut writer)?;
    let bytes = writer.written_slice();
    let mut reader = ByteArrayReader::new(bytes);
    let ghost rem = reader.remaining();
    let t = factory.deserialize(&mut reader)?;
    proof {
        if T::obeys_tag_model() && F::obeys_factory_model() {
            let n = rem.len() - reader.remaining().len();
            assert(spec_frame_decodes(spec_tag_bytes(tag.spec_id(), tag.spec_value()).take(n), t));
        }
    }
    Ok(t)
}

/// Clones a tag as `iltag_clone_with_factory` does, with a standard factory
/// in non-strict mode: a tag of an explicit id that the standard factory
/// does not know comes back as a raw tag.
pub fn iltag_clone<T: ILTag>(tag: &T) -> (r: Result<ILAnyTag>)
    requires
        tag.spec_value().len() <= u64::MAX,
    ensures
        T::obeys_tag_model() ==> (r matches Ok(t) ==> exists|n: int|
            0 < n <= spec_tag_bytes(tag.spec_id(), tag.spec_value()).len() && spec_frame_decodes(
                #[trigger] spec_tag_bytes(tag.spec_id(), tag.spec_value()).take(n),
                t,
            )),
        T::obeys_tag_model() && tag.spec_serializes() && spec_tag_bytes(tag.spec_id(), tag.spec_value()).len() <= usize::MAX
            && tag.spec_id() > IMPLICIT_ID_MAX && !std_tag_ids().contains(tag.spec_id())
            && tag.spec_value().len() <= MAX_TAG_SIZE ==> raw_outcome(r, tag.spec_id(), tag.spec_value()),
        T::obeys_tag_model() && tag.spec_serializes() && spec_tag_bytes(tag.spec_id(), tag.spec_value()).len() <= usize::MAX
            && tag.spec_id() > IMPLICIT_ID_MAX && std_tag_ids().contains(tag.spec_id()) && is_leaf_kind(
            std_kind_of(tag.spec_id()),
        ) && tag.spec_value().len() <= MAX_TAG_SIZE ==> leaf_outcome(
            CreatorKind { kind: std_kind_of(tag.spec_id()), with_id: false },
            tag.spec_id(),
            tag.spec_value(),
            r,
        ) && (r matches Ok(t) ==> t.spec_id() == tag.spec_id()),
        T::obeys_tag_model() && tag.spec_serializes() && tag.spec_id() <= IMPLICIT_ID_MAX && std_tag_ids().contains(
            tag.spec_id(),
        ) && tag.spec_id() != IL_ILINT_TAG_ID && tag.spec_id() != IL_SIGNED_ILINT_TAG_ID
            && tag.spec_value().len() == spec_implicit_tag_size(tag.spec_id()) ==> leaf_outcome(
            CreatorKind { kind: std_kind_of(tag.spec_id()), with_id: false },
            tag.spec_id(),
            tag.spec_value(),
            r,
        ) && (r matches Ok(t) ==> t.spec_id() == tag.spec_id()),
{
    let factory = ILStandardTagFactory::new(false);
    let mut writer = VecWriter::new();
    tag.serialize(&mut writer)?;
    let bytes = writer.written_slice();
    let mut reader = ByteArrayReader::new(bytes);
    let ghost rem = reader.remaining();
    let r = factory.deserialize(&mut reader);
    proof {
        let id = tag.spec_id();
        let v = tag.spec_value();
        if r is Ok && T::obeys_tag_model() {
            let n = rem.len() - reader.remaining().len();
            assert(spec_frame_decodes(spec_tag_bytes(id, v).take(n), r->Ok_0));
        }
        if id > IMPLICIT_ID_MAX && v.len() <= MAX_TAG_SIZE && T::obeys_tag_model() {
            lemma_explicit_frame_header(id, v);
            if !std_tag_ids().contains(id) {
                assert(!factory.spec_engine().ids().contains(id)) by {
                    if factory.spec_engine().ids().contains(id) {
                        assert(factory.spec_engine().ids().to_set().contains(id));
                    }
                }
            } else {
                assert(factory.spec_engine().ids().to_set().contains(id));
                assert(factory.spec_engine().ids().contains(id));
                assert(std_kind_id(std_kind_of(id)) == id);
            }
        }
        if id <= IMPLICIT_ID_MAX && std_tag_ids().contains(id) && id != IL_ILINT_TAG_ID && id
            != IL_SIGNED_ILINT_TAG_ID && v.len() == spec_implicit_tag_size(id) && T::obeys_tag_model() {
            lemma_implicit_frame_header(id, v);
            assert(factory.spec_engine().ids().to_set().contains(id));
            assert(factory.spec_engine().ids().contains(id));
            assert(std_kind_id(std_kind_of(id)) == id);
        }
    }
    r
}

/// The header of the serialization of an implicit tag is its id, and the
/// size of its value is the one its id fixes.
proof fn lemma_implicit_frame_header(id: u64, v: Seq<u8>)
    requires
        id <= IMPLICIT_ID_MAX,
        v.len() == spec_implicit_tag_size(id),
    ensures
        frame_header(spec_tag_bytes(id, v)) == Some((id, spec_implicit_tag_size(id), spec_encode(id).len())),
        spec_tag_bytes(id, v).len() == spec_encode(id).len() + v.len(),
        spec_tag_bytes(id, v).len() <= usize::MAX,
        spec_tag_bytes(id, v).subrange(spec_encode(id).len() as int, spec_tag_bytes(id, v).len() as int) == v,
{
    let a = spec_encode(id);
    let s = spec_tag_bytes(id, v);
    crate::ilint::lemma_encode_len(id);
    crate::ilint::lemma_encode_decode(id, v);
    assert(s.subrange(a.len() as int, s.len() as int) =~= v);
}

/// The header of the serialization of an explicit tag is its id and the
/// size of its value.
proof fn lemma_explicit_frame_header(id: u64, v: Seq<u8>)
    requires
        id > IMPLICIT_ID_MAX,
        v.len() <= MAX_TAG_SIZE,
    ensures
        frame_header(spec_tag_bytes(id, v)) == Some(
            (id, v.len() as u64, spec_encode(id).len() + spec_encode(v.len() as u64).len()),
        ),
        spec_tag_bytes(id, v).subrange(
            (spec_encode(id).len() + spec_encode(v.len() as u64).len()) as int,
            spec_tag_bytes(id, v).len() as int,
        ) == v,
{
    let a = spec_encode(id);
    let b = spec_encode(v.len() as u64);
    let s = spec_tag_bytes(id, v);
    crate::ilint::lemma_encode_len(id);
    crate::ilint::lemma_encode_len(v.len() as u64);
    assert(s =~= a + (b + v));
    crate::ilint::lemma_encode_decode(id, b + v);
    assert(s.skip(a.len() as int) =~= b + v);
    crate::ilint::lemma_encode_decode(v.len() as u64, v);
    assert(s.subrange((a.len() + b.len()) as int, s.len() as int) =~= v);
}

/// Returns `Ok(())` when `reader` has nothing left to give, and
/// `Err(on_error_kind)` otherwise.
pub fn limited_reader_ensure_empty<R: Reader>(reader: &LimitedReader<R>, on_error_kind: ErrorKind) -> (r: Result<()>)
    ensures
        reader.spec_available() == 0 ==> r is Ok,
        reader.spec_available() != 0 ==> r == Err::<(), ErrorKind>(on_error_kind),
{
    if reader.empty() {
        Ok(())
    } else {
        Err(on_error_kind)
    }
}

} // verus!
