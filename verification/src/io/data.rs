//! Functions and traits that read and write the basic data types of the
//! **ILTags** standard through a [`Reader`] or a [`Writer`]. All integers are
//! big-endian.
use super::{writes_exactly, ErrorKind, Reader, Result, Writer};
use crate::ilint::{
    be_bytes, be_value, lemma_be_bytes_index, lemma_be_bytes_len, pow256, spec_decode_from_bytes,
    spec_encode, spec_signed_encode, spec_truncated, spec_unzigzag,
};
use vstd::prelude::*;
use vstd::string::StringSliceAdditionalSpecFns;
use vstd::utf8::{decode_utf8, encode_utf8, valid_utf8};

verus! {

/// The signed number of `bits` bits whose two's complement is `u`.
pub open spec fn from_twos(u: nat, bits: nat) -> int {
    if u < pow2(bits) / 2 {
        u as int
    } else {
        u - pow2(bits)
    }
}

/// The two's complement, on `bits` bits, of `v`.
pub open spec fn to_twos(v: int, bits: nat) -> nat {
    if v >= 0 {
        v as nat
    } else {
        (v + pow2(bits)) as nat
    }
}

/// 2 raised to `n`.
pub open spec fn pow2(n: nat) -> nat
    decreases n,
{
    if n == 0 {
        1
    } else {
        2 * pow2((n - 1) as nat)
    }
}

/// The powers of two and of 256 that the fixed-size integers use.
pub proof fn lemma_pow_values()
    ensures
        pow2(8) == 0x100,
        pow2(16) == 0x1_0000,
        pow2(32) == 0x1_0000_0000,
        pow2(64) == 0x1_0000_0000_0000_0000,
        pow256(1) == 0x100,
        pow256(2) == 0x1_0000,
        pow256(4) == 0x1_0000_0000,
        pow256(8) == 0x1_0000_0000_0000_0000,
{
    reveal_with_fuel(pow2, 65);
    reveal_with_fuel(pow256, 9);
}

/// Two's complement on `bits` bits is a bijection between the signed and
/// the unsigned numbers of that width.
pub proof fn lemma_twos_roundtrip(v: int, u: nat, bits: nat)
    requires
        bits > 0,
    ensures
        -(pow2(bits) / 2) <= v < pow2(bits) / 2 ==> from_twos(to_twos(v, bits), bits) == v,
        u < pow2(bits) ==> to_twos(from_twos(u, bits), bits) == u,
{
    assert(pow2(bits) == 2 * pow2((bits - 1) as nat));
    assert(pow2(bits) / 2 == pow2((bits - 1) as nat));
}

/// Reading back what `write_u8`, `write_u16`, `write_u32` or `write_u64`
/// wrote gives the value: the big-endian bytes of a value that fits in `n`
/// bytes decode to it.
pub proof fn lemma_unsigned_roundtrip(v: nat, n: nat)
    requires
        n == 1 || n == 2 || n == 4 || n == 8,
        v < pow2(8 * n),
    ensures
        be_value(be_bytes(v, n)) == v,
        be_bytes(v, n).len() == n,
{
    lemma_pow_values();
    crate::ilint::lemma_be_roundtrip(v, n);
    crate::ilint::lemma_be_bytes_len(v, n);
}

/// Reading back what `write_i8`, `write_i16`, `write_i32` or `write_i64`
/// wrote gives the value: the big-endian two's complement bytes of a value
/// that fits in `n` bytes decode to it.
pub proof fn lemma_signed_roundtrip(v: int, n: nat)
    requires
        n == 1 || n == 2 || n == 4 || n == 8,
        -(pow2(8 * n) / 2) <= v < pow2(8 * n) / 2,
    ensures
        from_twos(be_value(be_bytes(to_twos(v, 8 * n), n)), 8 * n) == v,
        be_bytes(to_twos(v, 8 * n), n).len() == n,
{
    lemma_pow_values();
    lemma_twos_roundtrip(v, 0, 8 * n);
    lemma_unsigned_roundtrip(to_twos(v, 8 * n), n);
}

/// Reading back what `write_string` wrote gives the string: the UTF-8
/// bytes of a string are valid UTF-8 and decode to it.
pub proof fn lemma_string_roundtrip(s: Seq<char>)
    ensures
        valid_utf8(encode_utf8(s)),
        decode_utf8(encode_utf8(s)) == s,
{
    vstd::utf8::encode_utf8_valid_utf8(s);
    vstd::utf8::encode_utf8_decode_utf8(s);
}

/// Reads `n` bytes and returns their big-endian value.
fn read_be<R: Reader>(reader: &mut R, n: usize) -> (r: Result<u64>)
    requires
        1 <= n <= 8,
    ensures
        r matches Ok(v) ==> v < pow256(n as nat),
        R::obeys_model() ==> (r is Ok <==> old(reader).remaining().len() >= n),
        R::obeys_model() ==> (r matches Ok(v) ==> v == be_value(old(reader).remaining().take(n as int)) && final(reader).remaining() == old(reader).remaining().skip(n as int)),
{
    let mut tmp: Vec<u8> = vec![0u8; n];
    reader.read_all(tmp.as_mut_slice())?;
    let mut v: u64 = 0;
    let mut i: usize = 0;
    while i < n
        invariant
            n == tmp@.len(),
            1 <= n <= 8,
            i <= n,
            v == be_value(tmp@.take(i as int)),
            v < pow256(i as nat),
        decreases n - i,
    {
        proof {
            crate::ilint::lemma_pow256_pos(i as nat);
            reveal_with_fuel(pow256, 9);
            let t = tmp@.take(i + 1);
            assert(t.drop_last() =~= tmp@.take(i as int));
            let x = tmp@[i as int];
            let pi = pow256(i as nat);
            assert(pow256((i + 1) as nat) == 256 * pi);
            assert(pi <= pow256(7)) by {
                if i < 7 { }
            }
            assert(v * 256 + x < 256 * pi) by (nonlinear_arith)
                requires
                    v < pi,
                    x < 256,
            ;
        }
        v = v * 256 + (tmp[i] as u64);
        i = i + 1;
    }
    proof {
        assert(tmp@.take(i as int) =~= tmp@);
    }
    Ok(v)
}

/// Writes the `n` least significant bytes of `v`, most significant first,
/// with a single call to `write_all`.
fn write_be<W: Writer>(v: u64, n: usize, writer: &mut W) -> (r: Result<()>)
    requires
        1 <= n <= 8,
        v < pow256(n as nat),
    ensures
        writes_exactly(*old(writer), *final(writer), be_bytes(v as nat, n as nat), r is Ok),
{
    let mut tmp: Vec<u8> = vec![0u8; n];
    let mut x: u64 = v;
    let mut i: usize = n;
    let ghost body = be_bytes(v as nat, n as nat);
    proof {
        lemma_be_bytes_len(v as nat, n as nat);
        reveal_with_fuel(pow256, 1);
        assert(pow256(0) == 1);
        assert((n - i) as nat == 0);
        assert((v as nat) / 1 == v as nat);
    }
    while i > 0
        invariant
            n == tmp@.len(),
            body.len() == n,
            body == be_bytes(v as nat, n as nat),
            i <= n,
            x as nat == (v as nat) / pow256((n - i) as nat),
            forall|j: int| i <= j < n ==> tmp@[j] == body[j],
        decreases i,
    {
        proof {
            lemma_be_bytes_index(v as nat, n as nat, (i - 1) as nat);
            crate::ilint::lemma_pow256_pos((n - i) as nat);
            vstd::arithmetic::div_mod::lemma_div_denominator(v as int, pow256((n - i) as nat) as int, 256);
            assert(pow256((n - i + 1) as nat) == pow256((n - i) as nat) * 256);
        }
        tmp.set(i - 1, (x % 256) as u8);
        x = x / 256;
        i = i - 1;
    }
    proof {
        assert(tmp@ =~= body);
    }
    writer.write_all(tmp.as_slice())
}

/// Reads a `u8`.
pub fn read_u8<R: Reader>(reader: &mut R) -> (r: Result<u8>)
    ensures
        R::obeys_model() ==> (r is Ok <==> old(reader).remaining().len() >= 1),
        R::obeys_model() ==> (r matches Ok(v) ==> v == old(reader).remaining()[0] && final(reader).remaining() == old(reader).remaining().skip(1)),
{
    let ghost rem = reader.remaining();
    let r = reader.read();
    proof {
        assert(rem.skip(1) =~= rem.drop_first());
    }
    r
}

/// Reads an `i8`.
pub fn read_i8<R: Reader>(reader: &mut R) -> (r: Result<i8>)
    ensures
        R::obeys_model() ==> (r is Ok <==> old(reader).remaining().len() >= 1),
        R::obeys_model() ==> (r matches Ok(v) ==> v == from_twos(old(reader).remaining()[0] as nat, 8) && final(reader).remaining() == old(reader).remaining().skip(1)),
{
    proof {
        lemma_pow_values();
    }
    match read_u8(reader) {
        Ok(v) => Ok(
            if v < 0x80 {
                v as i8
            } else {
                ((v as i16) - 0x100) as i8
            },
        ),
        Err(e) => Err(e),
    }
}

/// Reads a big-endian `u16`.
pub fn read_u16<R: Reader>(reader: &mut R) -> (r: Result<u16>)
    ensures
        R::obeys_model() ==> (r is Ok <==> old(reader).remaining().len() >= 2),
        R::obeys_model() ==> (r matches Ok(v) ==> v == be_value(old(reader).remaining().take(2)) && final(reader).remaining() == old(reader).remaining().skip(2)),
{
    proof {
        lemma_pow_values();
        if R::obeys_model() {
            crate::ilint::lemma_be_value_bound(reader.remaining().take(2));
        }
    }
    let v = read_be(reader, 2)?;
    Ok(v as u16)
}

/// Reads a big-endian `i16`.
pub fn read_i16<R: Reader>(reader: &mut R) -> (r: Result<i16>)
    ensures
        R::obeys_model() ==> (r is Ok <==> old(reader).remaining().len() >= 2),
        R::obeys_model() ==> (r matches Ok(v) ==> v == from_twos(be_value(old(reader).remaining().take(2)), 16) && final(reader).remaining() == old(reader).remaining().skip(2)),
{
    proof {
        lemma_pow_values();
        if R::obeys_model() {
            crate::ilint::lemma_be_value_bound(reader.remaining().take(2));
        }
    }
    let v = read_be(reader, 2)?;
    Ok(
        if v < 0x8000 {
            v as i16
        } else {
            ((v as i32) - 0x1_0000) as i16
        },
    )
}

/// Reads a big-endian `u32`.
pub fn read_u32<R: Reader>(reader: &mut R) -> (r: Result<u32>)
    ensures
        R::obeys_model() ==> (r is Ok <==> old(reader).remaining().len() >= 4),
        R::obeys_model() ==> (r matches Ok(v) ==> v == be_value(old(reader).remaining().take(4)) && final(reader).remaining() == old(reader).remaining().skip(4)),
{
    proof {
        lemma_pow_values();
        if R::obeys_model() {
            crate::ilint::lemma_be_value_bound(reader.remaining().take(4));
        }
    }
    let v = read_be(reader, 4)?;
    Ok(v as u32)
}

/// Reads a big-endian `i32`.
pub fn read_i32<R: Reader>(reader: &mut R) -> (r: Result<i32>)
    ensures
        R::obeys_model() ==> (r is Ok <==> old(reader).remaining().len() >= 4),
        R::obeys_model() ==> (r matches Ok(v) ==> v == from_twos(be_value(old(reader).remaining().take(4)), 32) && final(reader).remaining() == old(reader).remaining().skip(4)),
{
    proof {
        lemma_pow_values();
        if R::obeys_model() {
            crate::ilint::lemma_be_value_bound(reader.remaining().take(4));
        }
    }
    let v = read_be(reader, 4)?;
    Ok(
        if v < 0x8000_0000 {
            v as i32
        } else {
            ((v as i64) - 0x1_0000_0000) as i32
        },
    )
}

/// Reads a big-endian `u64`.
pub fn read_u64<R: Reader>(reader: &mut R) -> (r: Result<u64>)
    ensures
        R::obeys_model() ==> (r is Ok <==> old(reader).remaining().len() >= 8),
        R::obeys_model() ==> (r matches Ok(v) ==> v == be_value(old(reader).remaining().take(8)) && final(reader).remaining() == old(reader).remaining().skip(8)),
{
    read_be(reader, 8)
}

/// Reads a big-endian `i64`.
pub fn read_i64<R: Reader>(reader: &mut R) -> (r: Result<i64>)
    ensures
        R::obeys_model() ==> (r is Ok <==> old(reader).remaining().len() >= 8),
        R::obeys_model() ==> (r matches Ok(v) ==> v == from_twos(be_value(old(reader).remaining().take(8)), 64) && final(reader).remaining() == old(reader).remaining().skip(8)),
{
    proof {
        lemma_pow_values();
        if R::obeys_model() {
            crate::ilint::lemma_be_value_bound(reader.remaining().take(8));
        }
    }
    let v = read_be(reader, 8)?;
    Ok(
        if v < 0x8000_0000_0000_0000 {
            v as i64
        } else {
            ((v as i128) - 0x1_0000_0000_0000_0000) as i64
        },
    )
}

/// Reads an ILInt. A truncated value fails with the reader's error and a
/// malformed one with `ErrorKind::CorruptedData`.
pub fn read_ilint<R: Reader>(reader: &mut R) -> (r: Result<u64>)
    ensures
        R::obeys_model() ==> (spec_truncated(old(reader).remaining()) ==> r is Err),
        R::obeys_model() ==> (!spec_truncated(old(reader).remaining()) ==> match spec_decode_from_bytes(
            old(reader).remaining(),
        ) {
            Ok((v, n)) => r == Ok::<u64, ErrorKind>(v) && final(reader).remaining() == old(reader).remaining().skip(n as int),
            Err(_) => r == Err::<u64, ErrorKind>(ErrorKind::CorruptedData),
        }),
{
    match crate::ilint::decode(reader) {
        Ok(value) => Ok(value),
        Err(crate::ilint::ErrorKind::IOError(e)) => Err(e),
        _ => Err(ErrorKind::CorruptedData),
    }
}

/// Reads a signed ILInt, with the same failure cases as `read_ilint`.
pub fn read_signed_ilint<R: Reader>(reader: &mut R) -> (r: Result<i64>)
    ensures
        R::obeys_model() ==> (spec_truncated(old(reader).remaining()) ==> r is Err),
        R::obeys_model() ==> (!spec_truncated(old(reader).remaining()) ==> match spec_decode_from_bytes(
            old(reader).remaining(),
        ) {
            Ok((v, n)) => r == Ok::<i64, ErrorKind>(spec_unzigzag(v)) && final(reader).remaining()
                == old(reader).remaining().skip(n as int),
            Err(_) => r == Err::<i64, ErrorKind>(ErrorKind::CorruptedData),
        }),
{
    match crate::ilint::signed_decode(reader) {
        Ok(value) => Ok(value),
        Err(crate::ilint::ErrorKind::IOError(e)) => Err(e),
        _ => Err(ErrorKind::CorruptedData),
    }
}

/// Checks that `bytes` is valid UTF-8 and gives the text it encodes.
/// It calls `std::str::from_utf8`, whose documentation states that it
/// succeeds exactly on valid UTF-8 and then views the same bytes as text.
#[verifier::external_body]
fn utf8_to_str(bytes: &[u8]) -> (r: Option<&str>)
    ensures
        r is Some <==> valid_utf8(bytes@),
        r matches Some(s) ==> s@ == decode_utf8(bytes@),
{
    match std::str::from_utf8(bytes) {
        Ok(s) => Some(s),
        Err(_) => None,
    }
}

/// Decodes the UTF-8 text in `bytes`, or `None` if `bytes` is not valid
/// UTF-8.
pub fn string_from_utf8(bytes: &[u8]) -> (r: Option<String>)
    ensures
        r is Some <==> valid_utf8(bytes@),
        r matches Some(s) ==> s@ == decode_utf8(bytes@) && encode_utf8(s@) == bytes@,
{
    match utf8_to_str(bytes) {
        Some(s) => {
            proof {
                vstd::utf8::decode_utf8_encode_utf8(bytes@);
            }
            Some(s.to_owned())
        },
        None => None,
    }
}

/// Reads a UTF-8 string of `size` bytes. Invalid UTF-8 fails with
/// `ErrorKind::CorruptedData`.
pub fn read_string<R: Reader>(reader: &mut R, size: usize) -> (r: Result<String>)
    ensures
        R::obeys_model() ==> (old(reader).remaining().len() < size ==> r is Err),
        R::obeys_model() ==> (old(reader).remaining().len() >= size ==> final(reader).remaining() == old(reader).remaining().skip(size as int) && if valid_utf8(old(reader).remaining().take(size as int)) {
            r matches Ok(s) && s@ == decode_utf8(old(reader).remaining().take(size as int))
        } else {
            r == Err::<String, ErrorKind>(ErrorKind::CorruptedData)
        }),
{
    let mut tmp: Vec<u8> = vec![0u8; size];
    reader.read_all(tmp.as_mut_slice())?;
    match string_from_utf8(tmp.as_slice()) {
        Some(s) => Ok(s),
        _ => Err(ErrorKind::CorruptedData),
    }
}

/// Writes a `u8`.
pub fn write_u8<W: Writer>(v: u8, writer: &mut W) -> (r: Result<()>)
    ensures
        writes_exactly(*old(writer), *final(writer), seq![v], r is Ok),
{
    writer.write(v)
}

/// Writes an `i8` in two's complement.
pub fn write_i8<W: Writer>(v: i8, writer: &mut W) -> (r: Result<()>)
    ensures
        writes_exactly(*old(writer), *final(writer), seq![to_twos(v as int, 8) as u8], r is Ok),
{
    proof {
        lemma_pow_values();
    }
    let u: u8 = if v >= 0 {
        v as u8
    } else {
        ((v as i16) + 0x100) as u8
    };
    writer.write(u)
}

/// Writes a big-endian `u16`.
pub fn write_u16<W: Writer>(v: u16, writer: &mut W) -> (r: Result<()>)
    ensures
        writes_exactly(*old(writer), *final(writer), be_bytes(v as nat, 2), r is Ok),
{
    proof {
        lemma_pow_values();
    }
    write_be(v as u64, 2, writer)
}

/// Writes a big-endian `i16` in two's complement.
pub fn write_i16<W: Writer>(v: i16, writer: &mut W) -> (r: Result<()>)
    ensures
        writes_exactly(*old(writer), *final(writer), be_bytes(to_twos(v as int, 16), 2), r is Ok),
{
    proof {
        lemma_pow_values();
    }
    let u: u64 = if v >= 0 {
        v as u64
    } else {
        ((v as i32) + 0x1_0000) as u64
    };
    write_be(u, 2, writer)
}

/// Writes a big-endian `u32`.
pub fn write_u32<W: Writer>(v: u32, writer: &mut W) -> (r: Result<()>)
    ensures
        writes_exactly(*old(writer), *final(writer), be_bytes(v as nat, 4), r is Ok),
{
    proof {
        lemma_pow_values();
    }
    write_be(v as u64, 4, writer)
}

/// Writes a big-endian `i32` in two's complement.
pub fn write_i32<W: Writer>(v: i32, writer: &mut W) -> (r: Result<()>)
    ensures
        writes_exactly(*old(writer), *final(writer), be_bytes(to_twos(v as int, 32), 4), r is Ok),
{
    proof {
        lemma_pow_values();
    }
    let u: u64 = if v >= 0 {
        v as u64
    } else {
        ((v as i64) + 0x1_0000_0000) as u64
    };
    write_be(u, 4, writer)
}

/// Writes a big-endian `u64`.
pub fn write_u64<W: Writer>(v: u64, writer: &mut W) -> (r: Result<()>)
    ensures
        writes_exactly(*old(writer), *final(writer), be_bytes(v as nat, 8), r is Ok),
{
    proof {
        lemma_pow_values();
    }
    write_be(v, 8, writer)
}

/// Writes a big-endian `i64` in two's complement.
pub fn write_i64<W: Writer>(v: i64, writer: &mut W) -> (r: Result<()>)
    ensures
        writes_exactly(*old(writer), *final(writer), be_bytes(to_twos(v as int, 64), 8), r is Ok),
{
    proof {
        lemma_pow_values();
    }
    let u: u64 = if v >= 0 {
        v as u64
    } else {
        ((v as i128) + 0x1_0000_0000_0000_0000) as u64
    };
    write_be(u, 8, writer)
}

/// Writes an ILInt.
pub fn write_ilint<W: Writer>(v: u64, writer: &mut W) -> (r: Result<()>)
    ensures
        writes_exactly(*old(writer), *final(writer), spec_encode(v), r is Ok),
{
    match crate::ilint::encode(v, writer) {
        Ok(()) => Ok(()),
        Err(crate::ilint::ErrorKind::IOError(e)) => Err(e),
        _ => Err(ErrorKind::UnableToWriteData),
    }
}

/// Writes a signed ILInt.
pub fn write_signed_ilint<W: Writer>(v: i64, writer: &mut W) -> (r: Result<()>)
    ensures
        writes_exactly(*old(writer), *final(writer), spec_signed_encode(v), r is Ok),
{
    match crate::ilint::signed_encode(v, writer) {
        Ok(()) => Ok(()),
        Err(crate::ilint::ErrorKind::IOError(e)) => Err(e),
        _ => Err(ErrorKind::UnableToWriteData),
    }
}

/// Writes the UTF-8 bytes of a string.
pub fn write_string<W: Writer>(v: &str, writer: &mut W) -> (r: Result<()>)
    ensures
        writes_exactly(*old(writer), *final(writer), v.spec_bytes(), r is Ok),
{
    writer.write_all(v.as_bytes())
}

//=============================================================================
// ValueReader
//-----------------------------------------------------------------------------
/// The ability to read fixed size values. A value takes `value_size()`
/// bytes and is what `value_from` makes of them.
pub trait ValueReader<T: Sized + Copy>: Reader {
    /// The number of bytes a value takes.
    spec fn value_size() -> nat;

    /// The value that `bytes`, of `value_size()` bytes, encode.
    spec fn value_from(bytes: Seq<u8>) -> T;

    /// Reads the value.
    fn read_value(&mut self) -> (r: Result<T>)
        ensures
            Self::obeys_model() ==> (r is Ok <==> old(self).remaining().len() >= Self::value_size()),
            Self::obeys_model() ==> (r matches Ok(v) ==> v == Self::value_from(old(self).remaining().take(Self::value_size() as int))
                && final(self).remaining() == old(self).remaining().skip(Self::value_size() as int)),
    ;
}

impl<R: Reader> ValueReader<u8> for R {
    open spec fn value_size() -> nat {
        1
    }

    open spec fn value_from(bytes: Seq<u8>) -> u8 {
        bytes[0]
    }

    fn read_value(&mut self) -> (r: Result<u8>) {
        read_u8(self)
    }
}

impl<R: Reader> ValueReader<i8> for R {
    open spec fn value_size() -> nat {
        1
    }

    open spec fn value_from(bytes: Seq<u8>) -> i8 {
        from_twos(bytes[0] as nat, 8) as i8
    }

    fn read_value(&mut self) -> (r: Result<i8>) {
        read_i8(self)
    }
}

impl<R: Reader> ValueReader<u16> for R {
    open spec fn value_size() -> nat {
        2
    }

    open spec fn value_from(bytes: Seq<u8>) -> u16 {
        be_value(bytes) as u16
    }

    fn read_value(&mut self) -> (r: Result<u16>) {
        read_u16(self)
    }
}

impl<R: Reader> ValueReader<i16> for R {
    open spec fn value_size() -> nat {
        2
    }

    open spec fn value_from(bytes: Seq<u8>) -> i16 {
        from_twos(be_value(bytes), 16) as i16
    }

    fn read_value(&mut self) -> (r: Result<i16>) {
        read_i16(self)
    }
}

impl<R: Reader> ValueReader<u32> for R {
    open spec fn value_size() -> nat {
        4
    }

    open spec fn value_from(bytes: Seq<u8>) -> u32 {
        be_value(bytes) as u32
    }

    fn read_value(&mut self) -> (r: Result<u32>) {
        read_u32(self)
    }
}

impl<R: Reader> ValueReader<i32> for R {
    open spec fn value_size() -> nat {
        4
    }

    open spec fn value_from(bytes: Seq<u8>) -> i32 {
        from_twos(be_value(bytes), 32) as i32
    }

    fn read_value(&mut self) -> (r: Result<i32>) {
        read_i32(self)
    }
}

impl<R: Reader> ValueReader<u64> for R {
    open spec fn value_size() -> nat {
        8
    }

    open spec fn value_from(bytes: Seq<u8>) -> u64 {
        be_value(bytes) as u64
    }

    fn read_value(&mut self) -> (r: Result<u64>) {
        read_u64(self)
    }
}

impl<R: Reader> ValueReader<i64> for R {
    open spec fn value_size() -> nat {
        8
    }

    open spec fn value_from(bytes: Seq<u8>) -> i64 {
        from_twos(be_value(bytes), 64) as i64
    }

    fn read_value(&mut self) -> (r: Result<i64>) {
        read_i64(self)
    }
}

//=============================================================================
// ILIntReader
//-----------------------------------------------------------------------------
/// The ability to read ILInt values.
pub trait ILIntReader: Reader {
    /// Reads an ILInt.
    fn read_ilint(&mut self) -> (r: Result<u64>)
        ensures
            Self::obeys_model() ==> (spec_truncated(old(self).remaining()) ==> r is Err),
            Self::obeys_model() ==> (!spec_truncated(old(self).remaining()) ==> match spec_decode_from_bytes(
                old(self).remaining(),
            ) {
                Ok((v, n)) => r == Ok::<u64, ErrorKind>(v) && final(self).remaining() == old(
                    self,
                ).remaining().skip(n as int),
                Err(_) => r == Err::<u64, ErrorKind>(ErrorKind::CorruptedData),
            }),
    ;
}

impl<R: Reader> ILIntReader for R {
    fn read_ilint(&mut self) -> (r: Result<u64>) {
        read_ilint(self)
    }
}

//=============================================================================
// SignedILIntReader
//-----------------------------------------------------------------------------
/// The ability to read signed ILInt values.
pub trait SignedILIntReader: Reader {
    /// Reads a signed ILInt.
    fn read_signed_ilint(&mut self) -> (r: Result<i64>)
        ensures
            Self::obeys_model() ==> (spec_truncated(old(self).remaining()) ==> r is Err),
            Self::obeys_model() ==> (!spec_truncated(old(self).remaining()) ==> match spec_decode_from_bytes(
                old(self).remaining(),
            ) {
                Ok((v, n)) => r == Ok::<i64, ErrorKind>(spec_unzigzag(v)) && final(self).remaining()
                    == old(self).remaining().skip(n as int),
                Err(_) => r == Err::<i64, ErrorKind>(ErrorKind::CorruptedData),
            }),
    ;
}

impl<R: Reader> SignedILIntReader for R {
    fn read_signed_ilint(&mut self) -> (r: Result<i64>) {
        read_signed_ilint(self)
    }
}

//=============================================================================
// StringValueReader
//-----------------------------------------------------------------------------
/// The ability to read UTF-8 strings.
pub trait StringValueReader: Reader {
    /// Reads a UTF-8 string of `size` bytes.
    fn read_string(&mut self, size: usize) -> (r: Result<String>)
        ensures
            Self::obeys_model() ==> (old(self).remaining().len() < size ==> r is Err),
            Self::obeys_model() ==> (old(self).remaining().len() >= size ==> final(self).remaining() == old(
                self,
            ).remaining().skip(size as int) && if valid_utf8(old(self).remaining().take(size as int)) {
                r matches Ok(s) && s@ == decode_utf8(old(self).remaining().take(size as int))
            } else {
                r == Err::<String, ErrorKind>(ErrorKind::CorruptedData)
            }),
    ;
}

impl<R: Reader> StringValueReader for R {
    fn read_string(&mut self, size: usize) -> (r: Result<String>) {
        read_string(self, size)
    }
}

//=============================================================================
// ValueWriter
//-----------------------------------------------------------------------------
/// The ability to write values. A value is written as `value_bytes` says.
pub trait ValueWriter<T>: Writer {
    /// The bytes that encode `value`.
    spec fn value_bytes(value: T) -> Seq<u8>;

    /// Writes the value.
    fn write_value(&mut self, value: T) -> (r: Result<()>)
        ensures
            writes_exactly(*old(self), *final(self), Self::value_bytes(value), r is Ok),
    ;
}

impl<W: Writer> ValueWriter<u8> for W {
    open spec fn value_bytes(value: u8) -> Seq<u8> {
        seq![value]
    }

    fn write_value(&mut self, value: u8) -> (r: Result<()>) {
        write_u8(value, self)
    }
}

impl<W: Writer> ValueWriter<i8> for W {
    open spec fn value_bytes(value: i8) -> Seq<u8> {
        seq![to_twos(value as int, 8) as u8]
    }

    fn write_value(&mut self, value: i8) -> (r: Result<()>) {
        write_i8(value, self)
    }
}

impl<W: Writer> ValueWriter<u16> for W {
    open spec fn value_bytes(value: u16) -> Seq<u8> {
        be_bytes(value as nat, 2)
    }

    fn write_value(&mut self, value: u16) -> (r: Result<()>) {
        write_u16(value, self)
    }
}

impl<W: Writer> ValueWriter<i16> for W {
    open spec fn value_bytes(value: i16) -> Seq<u8> {
        be_bytes(to_twos(value as int, 16), 2)
    }

    fn write_value(&mut self, value: i16) -> (r: Result<()>) {
        write_i16(value, self)
    }
}

impl<W: Writer> ValueWriter<u32> for W {
    open spec fn value_bytes(value: u32) -> Seq<u8> {
        be_bytes(value as nat, 4)
    }

    fn write_value(&mut self, value: u32) -> (r: Result<()>) {
        write_u32(value, self)
    }
}

impl<W: Writer> ValueWriter<i32> for W {
    open spec fn value_bytes(value: i32) -> Seq<u8> {
        be_bytes(to_twos(value as int, 32), 4)
    }

    fn write_value(&mut self, value: i32) -> (r: Result<()>) {
        write_i32(value, self)
    }
}

impl<W: Writer> ValueWriter<u64> for W {
    open spec fn value_bytes(value: u64) -> Seq<u8> {
        be_bytes(value as nat, 8)
    }

    fn write_value(&mut self, value: u64) -> (r: Result<()>) {
        write_u64(value, self)
    }
}

impl<W: Writer> ValueWriter<i64> for W {
    open spec fn value_bytes(value: i64) -> Seq<u8> {
        be_bytes(to_twos(value as int, 64), 8)
    }

    fn write_value(&mut self, value: i64) -> (r: Result<()>) {
        write_i64(value, self)
    }
}

impl<W: Writer> ValueWriter<&str> for W {
    open spec fn value_bytes(value: &str) -> Seq<u8> {
        value.spec_bytes()
    }

    fn write_value(&mut self, value: &str) -> (r: Result<()>) {
        write_string(value, self)
    }
}

//=============================================================================
// ILIntWriter
//-----------------------------------------------------------------------------
/// The ability to write ILInt values.
pub trait ILIntWriter: Writer {
    /// Writes an ILInt.
    fn write_ilint(&mut self, value: u64) -> (r: Result<()>)
        ensures
            writes_exactly(*old(self), *final(self), spec_encode(value), r is Ok),
    ;
}

impl<W: Writer> ILIntWriter for W {
    fn write_ilint(&mut self, value: u64) -> (r: Result<()>) {
        write_ilint(value, self)
    }
}

//=============================================================================
// SignedILIntWriter
//-----------------------------------------------------------------------------
/// The ability to write signed ILInt values.
pub trait SignedILIntWriter: Writer {
    /// Writes a signed ILInt.
    fn write_signed_ilint(&mut self, value: i64) -> (r: Result<()>)
        ensures
            writes_exactly(*old(self), *final(self), spec_signed_encode(value), r is Ok),
    ;
}

impl<W: Writer> SignedILIntWriter for W {
    fn write_signed_ilint(&mut self, value: i64) -> (r: Result<()>) {
        write_signed_ilint(value, self)
    }
}

} // verus!
