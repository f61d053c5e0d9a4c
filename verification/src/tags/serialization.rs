//! Serialization helpers that report errors as tag errors
//! ([`crate::tags::ErrorKind`]) instead of I/O errors.
use super::{ErrorKind, Result};
use crate::ilint::{spec_decode_from_bytes, spec_encode, spec_signed_encode, spec_truncated, spec_unzigzag};
use crate::io::data::{
    ILIntReader, ILIntWriter, SignedILIntReader, SignedILIntWriter, StringValueReader,
    ValueReader, ValueWriter,
};
use crate::io::{writes_exactly, Reader, Writer};
use vstd::prelude::*;
use vstd::utf8::{decode_utf8, valid_utf8};

verus! {

/// Turns an I/O result into a tag result.
fn io_result<T>(r: crate::io::Result<T>) -> (t: Result<T>)
    ensures
        match r {
            Ok(v) => t == Ok::<T, ErrorKind>(v),
            Err(e) => t == Err::<T, ErrorKind>(ErrorKind::IOError(e)),
        },
{
    match r {
        Ok(v) => Ok(v),
        Err(e) => Err(ErrorKind::IOError(e)),
    }
}

//=============================================================================
// ValueDeserializer
//-----------------------------------------------------------------------------
/// The ability to deserialize fixed size values, as `ValueReader` reads them.
pub trait ValueDeserializer<T: Sized + Copy>: ValueReader<T> {
    /// Deserializes the value.
    fn deserialize_value(&mut self) -> (r: Result<T>)
        ensures
            Self::obeys_model() ==> (r is Ok <==> old(self).remaining().len() >= <Self as ValueReader<T>>::value_size()),
            r matches Err(e) ==> e is IOError,
            Self::obeys_model() ==> (r matches Ok(v) ==> v == <Self as ValueReader<T>>::value_from(
                old(self).remaining().take(<Self as ValueReader<T>>::value_size() as int),
            ) && final(self).remaining() == old(self).remaining().skip(
                <Self as ValueReader<T>>::value_size() as int,
            )),
    ;
}

impl<T: Sized + Copy, R: ValueReader<T>> ValueDeserializer<T> for R {
    fn deserialize_value(&mut self) -> (r: Result<T>) {
        io_result(self.read_value())
    }
}

//=============================================================================
// ILIntDeserializer
//-----------------------------------------------------------------------------
/// The ability to deserialize ILInt values.
pub trait ILIntDeserializer: Reader {
    /// Deserializes an ILInt. A truncated value fails with
    /// `ErrorKind::IOError`.
    fn deserialize_ilint(&mut self) -> (r: Result<u64>)
        ensures
            Self::obeys_model() ==> (spec_truncated(old(self).remaining()) ==> r matches Err(ErrorKind::IOError(_))),
            Self::obeys_model() ==> (!spec_truncated(old(self).remaining()) ==> match spec_decode_from_bytes(
                old(self).remaining(),
            ) {
                Ok((v, n)) => r == Ok::<u64, ErrorKind>(v) && final(self).remaining() == old(self).remaining().skip(n as int),
                Err(_) => r == Err::<u64, ErrorKind>(
                    ErrorKind::IOError(crate::io::ErrorKind::CorruptedData),
                ),
            }),
    ;
}

impl<R: ILIntReader> ILIntDeserializer for R {
    fn deserialize_ilint(&mut self) -> (r: Result<u64>) {
        io_result(crate::io::data::read_ilint(self))
    }
}

//=============================================================================
// StringDeserializer
//-----------------------------------------------------------------------------
/// The ability to deserialize UTF-8 strings.
pub trait StringDeserializer: Reader {
    /// Deserializes a UTF-8 string of `size` bytes.
    fn deserialize_string(&mut self, size: usize) -> (r: Result<String>)
        ensures
            Self::obeys_model() ==> (old(self).remaining().len() < size ==> r matches Err(ErrorKind::IOError(_))),
            Self::obeys_model() ==> (old(self).remaining().len() >= size ==> final(self).remaining() == old(self).remaining().skip(size as int) && if valid_utf8(
                old(self).remaining().take(size as int),
            ) {
                r matches Ok(s) && s@ == decode_utf8(old(self).remaining().take(size as int))
            } else {
                r == Err::<String, ErrorKind>(
                    ErrorKind::IOError(crate::io::ErrorKind::CorruptedData),
                )
            }),
    ;
}

impl<R: StringValueReader> StringDeserializer for R {
    fn deserialize_string(&mut self, size: usize) -> (r: Result<String>) {
        io_result(crate::io::data::read_string(self, size))
    }
}

//=============================================================================
// ByteArrayDeserializer
//-----------------------------------------------------------------------------
/// The ability to deserialize raw bytes.
pub trait ByteArrayDeserializer: Reader {
    /// Deserializes `size` bytes into a new vector.
    fn deserialize_bytes(&mut self, size: usize) -> (r: Result<Vec<u8>>)
        ensures
            r matches Ok(v) ==> v@.len() == size,
            Self::obeys_model() ==> (r is Ok <==> old(self).remaining().len() >= size),
            r matches Err(e) ==> e is IOError,
            Self::obeys_model() ==> (r matches Ok(v) ==> v@ == old(self).remaining().take(size as int) && final(self).remaining() == old(self).remaining().skip(size as int)),
    ;

    /// Deserializes `size` bytes into `vec`, which is resized to `size`.
    fn deserialize_bytes_into_vec(&mut self, size: usize, vec: &mut Vec<u8>) -> (r: Result<()>)
        ensures
            r is Ok ==> final(vec)@.len() == size,
            Self::obeys_model() ==> (r is Ok <==> old(self).remaining().len() >= size),
            r matches Err(e) ==> e is IOError,
            Self::obeys_model() ==> (r is Ok ==> final(vec)@ == old(self).remaining().take(size as int) && final(self).remaining() == old(self).remaining().skip(size as int)),
    ;

    /// Deserializes as many bytes as `buff` holds into it.
    fn deserialize_bytes_into_slice(&mut self, buff: &mut [u8]) -> (r: Result<()>)
        ensures
            final(buff)@.len() == old(buff)@.len(),
            Self::obeys_model() ==> (r is Ok <==> old(self).remaining().len() >= old(buff)@.len()),
            r matches Err(e) ==> e is IOError,
            Self::obeys_model() ==> (r is Ok ==> final(buff)@ == old(self).remaining().take(old(buff)@.len() as int)
                && final(self).remaining() == old(self).remaining().skip(old(buff)@.len() as int)),
    ;
}

impl<R: Reader> ByteArrayDeserializer for R {
    fn deserialize_bytes(&mut self, size: usize) -> (r: Result<Vec<u8>>) {
        let mut ret: Vec<u8> = vec![0u8; size];
        io_result(self.read_all(ret.as_mut_slice()))?;
        Ok(ret)
    }

    fn deserialize_bytes_into_vec(&mut self, size: usize, vec: &mut Vec<u8>) -> (r: Result<()>) {
        let mut tmp: Vec<u8> = vec![0u8; size];
        io_result(self.read_all(tmp.as_mut_slice()))?;
        *vec = tmp;
        Ok(())
    }

    fn deserialize_bytes_into_slice(&mut self, buff: &mut [u8]) -> (r: Result<()>) {
        io_result(self.read_all(buff))
    }
}

//=============================================================================
// ValueSerializer
//-----------------------------------------------------------------------------
/// The ability to serialize values, as `ValueWriter` writes them.
pub trait ValueSerializer<T>: ValueWriter<T> {
    /// Serializes the value.
    fn serialize_value(&mut self, value: T) -> (r: Result<()>)
        ensures
            writes_exactly(*old(self), *final(self), <Self as ValueWriter<T>>::value_bytes(value), r is Ok),
            r matches Err(e) ==> e is IOError,
    ;
}

impl<T, W: ValueWriter<T>> ValueSerializer<T> for W {
    fn serialize_value(&mut self, value: T) -> (r: Result<()>) {
        io_result(self.write_value(value))
    }
}

//=============================================================================
// ILIntSerializer
//-----------------------------------------------------------------------------
/// The ability to serialize ILInt values.
pub trait ILIntSerializer: Writer {
    /// Serializes an ILInt.
    fn serialize_ilint(&mut self, value: u64) -> (r: Result<()>)
        ensures
            writes_exactly(*old(self), *final(self), spec_encode(value), r is Ok),
            r matches Err(e) ==> e is IOError,
    ;
}

impl<W: ILIntWriter> ILIntSerializer for W {
    fn serialize_ilint(&mut self, value: u64) -> (r: Result<()>) {
        io_result(self.write_ilint(value))
    }
}

//=============================================================================
// ByteArraySerializer
//-----------------------------------------------------------------------------
/// The ability to serialize raw bytes.
pub trait ByteArraySerializer: Writer {
    /// Serializes the bytes as they are.
    fn serialize_bytes(&mut self, bytes: &[u8]) -> (r: Result<()>)
        ensures
            writes_exactly(*old(self), *final(self), bytes@, r is Ok),
            r matches Err(e) ==> e is IOError,
    ;
}

impl<W: Writer> ByteArraySerializer for W {
    fn serialize_bytes(&mut self, bytes: &[u8]) -> (r: Result<()>) {
        io_result(self.write_all(bytes))
    }
}

//=============================================================================
// SignedILIntDeserializer
//-----------------------------------------------------------------------------
/// The ability to deserialize signed ILInt values.
pub trait SignedILIntDeserializer: Reader {
    /// Deserializes a signed ILInt. A truncated value fails with
    /// `ErrorKind::IOError`.
    fn deserialize_signed_ilint(&mut self) -> (r: Result<i64>)
        ensures
            Self::obeys_model() ==> (spec_truncated(old(self).remaining()) ==> r matches Err(ErrorKind::IOError(_))),
            Self::obeys_model() ==> (!spec_truncated(old(self).remaining()) ==> match spec_decode_from_bytes(
                old(self).remaining(),
            ) {
                Ok((v, n)) => r == Ok::<i64, ErrorKind>(spec_unzigzag(v)) && final(self).remaining()
                    == old(self).remaining().skip(n as int),
                Err(_) => r == Err::<i64, ErrorKind>(
                    ErrorKind::IOError(crate::io::ErrorKind::CorruptedData),
                ),
            }),
    ;
}

impl<R: SignedILIntReader> SignedILIntDeserializer for R {
    fn deserialize_signed_ilint(&mut self) -> (r: Result<i64>) {
        io_result(crate::io::data::read_signed_ilint(self))
    }
}

//=============================================================================
// SignedILIntSerializer
//-----------------------------------------------------------------------------
/// The ability to serialize signed ILInt values.
pub trait SignedILIntSerializer: Writer {
    /// Serializes a signed ILInt.
    fn serialize_signed_ilint(&mut self, value: i64) -> (r: Result<()>)
        ensures
            writes_exactly(*old(self), *final(self), spec_signed_encode(value), r is Ok),
            r matches Err(e) ==> e is IOError,
    ;
}

impl<W: SignedILIntWriter> SignedILIntSerializer for W {
    fn serialize_signed_ilint(&mut self, value: i64) -> (r: Result<()>) {
        io_result(self.write_signed_ilint(value))
    }
}

//=============================================================================
// Free functions
//-----------------------------------------------------------------------------
/// Serializes `value` as an ILInt.
pub fn serialize_ilint<W: Writer>(value: u64, writer: &mut W) -> (r: Result<()>)
    ensures
        writes_exactly(*old(writer), *final(writer), spec_encode(value), r is Ok),
        r matches Err(e) ==> e is IOError,
{
    io_result(crate::io::data::write_ilint(value, writer))
}

/// Deserializes an ILInt. A truncated value fails with `ErrorKind::IOError`.
pub fn deserialize_ilint<R: Reader>(reader: &mut R) -> (r: Result<u64>)
    ensures
        R::obeys_model() ==> (spec_truncated(old(reader).remaining()) ==> r matches Err(ErrorKind::IOError(_))),
        R::obeys_model() ==> (!spec_truncated(old(reader).remaining()) ==> match spec_decode_from_bytes(
            old(reader).remaining(),
        ) {
            Ok((v, n)) => r == Ok::<u64, ErrorKind>(v) && final(reader).remaining() == old(reader).remaining().skip(n as int),
            Err(_) => r == Err::<u64, ErrorKind>(
                ErrorKind::IOError(crate::io::ErrorKind::CorruptedData),
            ),
        }),
{
    io_result(crate::io::data::read_ilint(reader))
}

/// Serializes the bytes as they are.
pub fn serialize_bytes<W: Writer>(bytes: &[u8], writer: &mut W) -> (r: Result<()>)
    ensures
        writes_exactly(*old(writer), *final(writer), bytes@, r is Ok),
        r matches Err(e) ==> e is IOError,
{
    io_result(writer.write_all(bytes))
}

/// Deserializes `size` bytes into a new vector.
pub fn deserialize_bytes<R: Reader>(size: usize, reader: &mut R) -> (r: Result<Vec<u8>>)
    ensures
        r matches Ok(v) ==> v@.len() == size,
        R::obeys_model() ==> (r is Ok <==> old(reader).remaining().len() >= size),
        r matches Err(e) ==> e is IOError,
        R::obeys_model() ==> (r matches Ok(v) ==> v@ == old(reader).remaining().take(size as int) && final(reader).remaining() == old(reader).remaining().skip(size as int)),
{
    let mut ret: Vec<u8> = vec![0u8; size];
    io_result(reader.read_all(ret.as_mut_slice()))?;
    Ok(ret)
}

/// Deserializes `size` bytes into `vec`, which is resized to `size`.
pub fn deserialize_bytes_into_vec<R: Reader>(size: usize, reader: &mut R, vec: &mut Vec<u8>) -> (r: Result<()>)
    ensures
        R::obeys_model() ==> (r is Ok <==> old(reader).remaining().len() >= size),
        r matches Err(e) ==> e is IOError,
        R::obeys_model() ==> (r is Ok ==> final(vec)@ == old(reader).remaining().take(size as int) && final(reader).remaining() == old(reader).remaining().skip(size as int)),
{
    let mut tmp: Vec<u8> = vec![0u8; size];
    io_result(reader.read_all(tmp.as_mut_slice()))?;
    *vec = tmp;
    Ok(())
}

} // verus!
