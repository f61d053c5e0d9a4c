//! The **ILInt** variable length encoding of unsigned 64-bit integers, and
//! its signed variant.
//!
//! Values below `ILINT_BASE` are encoded as a single byte. Larger values are
//! encoded as a header byte `ILINT_BASE + n - 1` followed by the `n`
//! big-endian bytes of `value - ILINT_BASE`, with `n` as small as possible.
use crate::io::{lemma_wrote_chain, lemma_wrote_nothing, wrote, writes_exactly, Reader, Writer};
use vstd::arithmetic::div_mod::*;
use vstd::arithmetic::mul::*;
use vstd::prelude::*;

verus! {

/// Error codes generated by this module.
#[derive(Debug)]
pub enum ErrorKind {
    /// The encoded value is larger than 2^64 - 1.
    ValueOverflow,
    /// The encoded value is malformed.
    InvalidFormat,
    /// I/O error.
    IOError(crate::io::ErrorKind),
}

/// Result type of the functions of this module.
pub type Result<T> = core::result::Result<T, ErrorKind>;

/// ILInt base value. All values smaller than this value are encoded as a
/// single byte.
pub const ILINT_BASE: u8 = 0xF8;

/// Value of `ILINT_BASE` as a `u64`.
pub const ILINT_BASE_U64: u64 = 0xF8;

/// 256 raised to `n`.
pub open spec fn pow256(n: nat) -> nat
    decreases n,
{
    if n == 0 {
        1
    } else {
        256 * pow256((n - 1) as nat)
    }
}

/// The `n` least significant bytes of `x`, most significant first.
pub open spec fn be_bytes(x: nat, n: nat) -> Seq<u8>
    decreases n,
{
    if n == 0 {
        Seq::empty()
    } else {
        be_bytes(x / 256, (n - 1) as nat).push((x % 256) as u8)
    }
}

/// The number whose big-endian representation is `s`.
pub open spec fn be_value(s: Seq<u8>) -> nat
    decreases s.len(),
{
    if s.len() == 0 {
        0
    } else {
        be_value(s.drop_last()) * 256 + s.last() as nat
    }
}

/// The size of the ILInt encoding of `value`.
pub open spec fn spec_encoded_size(value: u64) -> nat {
    if value < 0xF8 {
        1
    } else if value <= 0xFF + 0xF8 {
        2
    } else if value <= 0xFFFF + 0xF8 {
        3
    } else if value <= 0x00FF_FFFF + 0xF8 {
        4
    } else if value <= 0xFFFF_FFFF + 0xF8 {
        5
    } else if value <= 0x00FF_FFFF_FFFF + 0xF8 {
        6
    } else if value <= 0xFFFF_FFFF_FFFF + 0xF8 {
        7
    } else if value <= 0x00FF_FFFF_FFFF_FFFF + 0xF8 {
        8
    } else {
        9
    }
}

/// The ILInt encoding of `value`.
pub open spec fn spec_encode(value: u64) -> Seq<u8> {
    let size = spec_encoded_size(value);
    if size == 1 {
        seq![value as u8]
    } else {
        seq![(0xF8 + size - 2) as u8] + be_bytes((value - 0xF8) as nat, (size - 1) as nat)
    }
}

/// The size of an ILInt whose first byte is `header`.
pub open spec fn spec_decoded_size(header: u8) -> nat {
    if header < 0xF8 {
        1
    } else {
        (header - 0xF8 + 2) as nat
    }
}

/// What decoding the body (the bytes after the header) of a multi-byte
/// ILInt gives.
pub open spec fn spec_decode_body(body: Seq<u8>) -> Result<u64> {
    if body.len() == 0 || body.len() > 8 {
        Err(ErrorKind::InvalidFormat)
    } else if be_value(body) > 0xFFFF_FFFF_FFFF_FF07 {
        Err(ErrorKind::ValueOverflow)
    } else {
        Ok((be_value(body) + 0xF8) as u64)
    }
}

/// What decoding the ILInt at the start of `s` gives: the value and the
/// number of bytes it takes.
pub open spec fn spec_decode_from_bytes(s: Seq<u8>) -> Result<(u64, nat)> {
    if s.len() == 0 {
        Err(ErrorKind::InvalidFormat)
    } else {
        let size = spec_decoded_size(s[0]);
        if size == 1 {
            Ok((s[0] as u64, 1))
        } else if s.len() < size {
            Err(ErrorKind::InvalidFormat)
        } else {
            match spec_decode_body(s.subrange(1, size as int)) {
                Ok(v) => Ok((v, size)),
                Err(e) => Err(e),
            }
        }
    }
}

/// True when `s` is too short to hold the ILInt that starts it.
pub open spec fn spec_truncated(s: Seq<u8>) -> bool {
    s.len() == 0 || s.len() < spec_decoded_size(s[0])
}

/// `pow256` of the first few sizes.
proof fn lemma_pow256_values()
    ensures
        pow256(0) == 1,
        pow256(1) == 0x100,
        pow256(2) == 0x1_0000,
        pow256(3) == 0x100_0000,
        pow256(4) == 0x1_0000_0000,
        pow256(5) == 0x100_0000_0000,
        pow256(6) == 0x1_0000_0000_0000,
        pow256(7) == 0x100_0000_0000_0000,
        pow256(8) == 0x1_0000_0000_0000_0000,
{
    reveal_with_fuel(pow256, 9);
}

/// Powers of 256 are positive.
pub proof fn lemma_pow256_pos(n: nat)
    ensures
        pow256(n) >= 1,
    decreases n,
{
    if n > 0 {
        lemma_pow256_pos((n - 1) as nat);
    }
}

/// The value of a big-endian sequence is below 256 to its length.
pub proof fn lemma_be_value_bound(s: Seq<u8>)
    ensures
        be_value(s) < pow256(s.len()),
    decreases s.len(),
{
    if s.len() > 0 {
        lemma_be_value_bound(s.drop_last());
        let a = be_value(s.drop_last());
        let p = pow256((s.len() - 1) as nat);
        assert(a * 256 + s.last() < p * 256) by (nonlinear_arith)
            requires
                a < p,
                s.last() < 256,
        ;
    }
}

/// The length of `be_bytes`.
pub proof fn lemma_be_bytes_len(x: nat, n: nat)
    ensures
        be_bytes(x, n).len() == n,
    decreases n,
{
    if n > 0 {
        lemma_be_bytes_len(x / 256, (n - 1) as nat);
    }
}

/// Decoding a big-endian representation gives the value back.
pub proof fn lemma_be_roundtrip(x: nat, n: nat)
    requires
        x < pow256(n),
    ensures
        be_value(be_bytes(x, n)) == x,
    decreases n,
{
    if n > 0 {
        let p = pow256((n - 1) as nat);
        assert(x / 256 < p) by {
            lemma_div_is_ordered(x as int, (256 * p - 1) as int, 256);
            lemma_fundamental_div_mod(x as int, 256);
            assert((256 * p - 1) / 256 == p - 1) by (nonlinear_arith)
                requires
                    p >= 1,
            ;
        }
        lemma_be_roundtrip(x / 256, (n - 1) as nat);
        lemma_be_bytes_len(x / 256, (n - 1) as nat);
        let s = be_bytes(x, n);
        assert(s.drop_last() =~= be_bytes(x / 256, (n - 1) as nat));
        lemma_fundamental_div_mod(x as int, 256);
    }
    assert(pow256(0) == 1) by {
        reveal_with_fuel(pow256, 1);
    }
}

/// Encoding the value of a big-endian sequence on as many bytes gives the
/// sequence back.
pub proof fn lemma_be_bytes_of_value(s: Seq<u8>)
    ensures
        be_bytes(be_value(s), s.len()) == s,
    decreases s.len(),
{
    if s.len() > 0 {
        let x = be_value(s);
        let a = be_value(s.drop_last());
        lemma_be_bytes_of_value(s.drop_last());
        assert(x / 256 == a && x % 256 == s.last()) by {
            lemma_fundamental_div_mod_converse(x as int, 256, a as int, s.last() as int);
        }
        assert(be_bytes(x, s.len()) =~= s);
    } else {
        assert(be_bytes(be_value(s), 0) =~= s);
    }
}

/// The `i`-th byte of a big-endian representation.
pub proof fn lemma_be_bytes_index(x: nat, n: nat, i: nat)
    requires
        i < n,
    ensures
        be_bytes(x, n).len() == n,
        be_bytes(x, n)[i as int] == ((x / pow256((n - 1 - i) as nat)) % 256) as u8,
    decreases n,
{
    lemma_be_bytes_len(x, n);
    lemma_be_bytes_len(x / 256, (n - 1) as nat);
    if i == n - 1 {
        assert(pow256(0) == 1);
        assert(x / 1 == x);
    } else {
        lemma_be_bytes_index(x / 256, (n - 1) as nat, i);
        let k = (n - 2 - i) as nat;
        assert(pow256((n - 1 - i) as nat) == 256 * pow256(k));
        lemma_pow256_pos(k);
        lemma_div_denominator(x as int, 256, pow256(k) as int);
    }
}

/// The encoded size of an ILInt, in agreement with its encoding.
pub proof fn lemma_encode_len(value: u64)
    ensures
        spec_encode(value).len() == spec_encoded_size(value),
        1 <= spec_encoded_size(value) <= 9,
{
    let size = spec_encoded_size(value);
    if size > 1 {
        lemma_be_bytes_len((value - 0xF8) as nat, (size - 1) as nat);
    }
}

/// Decoding the encoding of a value gives the value back and consumes the
/// whole encoding, whatever follows it.
pub proof fn lemma_encode_decode(value: u64, rest: Seq<u8>)
    ensures
        spec_decode_from_bytes(spec_encode(value) + rest) == Ok::<(u64, nat), ErrorKind>(
            (value, spec_encoded_size(value)),
        ),
        !spec_truncated(spec_encode(value) + rest),
{
    lemma_encode_len(value);
    lemma_pow256_values();
    let size = spec_encoded_size(value);
    let s = spec_encode(value) + rest;
    if size > 1 {
        let w = (value - 0xF8) as nat;
        let n = (size - 1) as nat;
        assert(w < pow256(n));
        lemma_be_roundtrip(w, n);
        lemma_be_bytes_len(w, n);
        assert(s.subrange(1, size as int) =~= be_bytes(w, n));
        assert(s[0] == (0xF8 + size - 2) as u8);
    }
}

/// Returns the size of the ILInt encoding of `value`.
pub fn encoded_size(value: u64) -> (r: usize)
    ensures
        r == spec_encoded_size(value),
{
    if value < ILINT_BASE_U64 {
        1
    } else if value <= 0xFF + ILINT_BASE_U64 {
        2
    } else if value <= 0xFFFF + ILINT_BASE_U64 {
        3
    } else if value <= 0x00FF_FFFF + ILINT_BASE_U64 {
        4
    } else if value <= 0xFFFF_FFFF + ILINT_BASE_U64 {
        5
    } else if value <= 0x00FF_FFFF_FFFF + ILINT_BASE_U64 {
        6
    } else if value <= 0xFFFF_FFFF_FFFF + ILINT_BASE_U64 {
        7
    } else if value <= 0x00FF_FFFF_FFFF_FFFF + ILINT_BASE_U64 {
        8
    } else {
        9
    }
}

/// Encodes `value` as an ILInt into `writer`. The bytes are written one by
/// one, so a failure may leave part of the encoding in the writer.
pub fn encode<W: Writer>(value: u64, writer: &mut W) -> (r: Result<()>)
    ensures
        writes_exactly(*old(writer), *final(writer), spec_encode(value), r is Ok),
        r is Err ==> r matches Err(ErrorKind::IOError(_)),
{
    let size = encoded_size(value);
    proof {
        lemma_encode_len(value);
        lemma_pow256_values();
    }
    if size == 1 {
        match writer.write(value as u8) {
            Ok(()) => (),
            Err(e) => return Err(ErrorKind::IOError(e)),
        }
    } else {
        let header: u8 = ILINT_BASE + ((size - 2) as u8);
        match writer.write(header) {
            Ok(()) => (),
            Err(e) => return Err(ErrorKind::IOError(e)),
        }
        let v: u64 = value - ILINT_BASE_U64;
        let n: usize = size - 1;
        let ghost body = be_bytes(v as nat, n as nat);
        proof {
            lemma_be_bytes_len(v as nat, n as nat);
            assert(seq![header] + body == spec_encode(value));
            assert(seq![header] + body.take(0) =~= seq![header]);
        }
        let mut p: u64 = 1;
        let mut k: usize = 1;
        while k < n
            invariant
                1 <= k <= n <= 8,
                p == pow256((k - 1) as nat),
                p >= 1,
            decreases n - k,
        {
            proof {
                lemma_pow256_values();
                lemma_pow256_pos((k - 1) as nat);
                assert(pow256(k as nat) == 256 * pow256((k - 1) as nat));
                assert(pow256(k as nat) <= pow256(7)) by {
                    assert(k <= 7);
                    if k < 7 { }
                }
            }
            p = p * 256;
            k = k + 1;
        }
        let mut i: usize = 0;
        while i < n
            invariant
                n == size - 1,
                2 <= size <= 9,
                size == spec_encode(value).len(),
                i <= n,
                body.len() == n,
                body == be_bytes(v as nat, n as nat),
                i < n ==> p == pow256((n - 1 - i) as nat),
                p >= 1,
                W::obeys_model() ==> wrote(*old(writer), *writer, seq![header] + body.take(i as int)),
                W::obeys_model() ==> (old(writer).room() matches Some(kk) ==> kk >= 1 + i),
            decreases n - i,
        {
            proof {
                lemma_be_bytes_index(v as nat, n as nat, i as nat);
            }
            let b: u8 = ((v / p) % 256) as u8;
            let ghost before = *writer;
            match writer.write(b) {
                Ok(()) => (),
                Err(e) => return Err(ErrorKind::IOError(e)),
            }
            proof {
                if W::obeys_model() {
                    lemma_wrote_chain(*old(writer), before, *writer, seq![header] + body.take(i as int), seq![b]);
                }
                assert(body.take(i + 1) =~= body.take(i as int).push(b));
                assert(seq![header] + body.take(i as int) + seq![b] =~= seq![header] + body.take(i + 1));
            }
            if i + 1 < n {
                proof {
                    assert(pow256((n - 1 - i) as nat) == 256 * pow256((n - 2 - i) as nat));
                }
                p = p / 256;
            }
            i = i + 1;
        }
        proof {
            assert(body.take(n as int) =~= body);
        }
    }
    Ok(())
}

/// Returns the size of the ILInt whose first byte is `header`.
pub fn decoded_size(header: u8) -> (r: usize)
    ensures
        r == spec_decoded_size(header),
        1 <= r <= 9,
{
    if header < ILINT_BASE {
        1
    } else {
        (header - ILINT_BASE + 2) as usize
    }
}

/// Decodes the body (the bytes that follow the header) of a multi-byte
/// ILInt.
pub fn decode_body(body: &[u8]) -> (r: Result<u64>)
    ensures
        r == spec_decode_body(body@),
{
    let mut v: u64 = 0;
    if body.len() == 0 || body.len() > 8 {
        Err(ErrorKind::InvalidFormat)
    } else {
        let mut i: usize = 0;
        while i < body.len()
            invariant
                1 <= body@.len() <= 8,
                i <= body@.len(),
                v == be_value(body@.take(i as int)),
                v < pow256(i as nat),
            decreases body@.len() - i,
        {
            proof {
                lemma_pow256_values();
                let t = body@.take(i + 1);
                assert(t.drop_last() =~= body@.take(i as int));
                let x = body@[i as int];
                let pi = pow256(i as nat);
                assert(pow256((i + 1) as nat) == 256 * pi);
                assert(pi <= pow256(7)) by {
                    assert(i <= 7);
                    if i < 7 { }
                }
                assert(v * 256 + x < 256 * pi) by (nonlinear_arith)
                    requires
                        v < pi,
                        x < 256,
                ;
            }
            v = v * 256 + (body[i] as u64);
            i = i + 1;
        }
        proof {
            assert(body@.take(i as int) =~= body@);
        }
        if v > 0xFFFF_FFFF_FFFF_FF07 {
            Err(ErrorKind::ValueOverflow)
        } else {
            Ok(v + ILINT_BASE_U64)
        }
    }
}

/// Decodes the ILInt at the start of `value`, returning the value and the
/// number of bytes it takes.
pub fn decode_from_bytes(value: &[u8]) -> (r: Result<(u64, usize)>)
    ensures
        match spec_decode_from_bytes(value@) {
            Ok((v, n)) => r == Ok::<(u64, usize), ErrorKind>((v, n as usize)),
            Err(e) => r == Err::<(u64, usize), ErrorKind>(e),
        },
{
    if value.len() == 0 {
        Err(ErrorKind::InvalidFormat)
    } else {
        let size = decoded_size(value[0]);
        if size == 1 {
            Ok((value[0] as u64, size))
        } else if value.len() < size {
            Err(ErrorKind::InvalidFormat)
        } else {
            let body = vstd::slice::slice_subrange(value, 1, size);
            match decode_body(body) {
                Ok(v) => Ok((v, size)),
                Err(x) => Err(x),
            }
        }
    }
}

/// Decodes an ILInt from `reader`.
///
/// It fails with `ErrorKind::IOError` exactly when the reader holds less
/// than the whole ILInt; otherwise it gives what `decode_from_bytes` gives
/// on the remaining data and consumes the ILInt.
pub fn decode<R: Reader>(reader: &mut R) -> (r: Result<u64>)
    ensures
        R::obeys_model() ==> (spec_truncated(old(reader).remaining()) <==> r matches Err(ErrorKind::IOError(_))),
        R::obeys_model() ==> (!spec_truncated(old(reader).remaining()) ==> match spec_decode_from_bytes(
            old(reader).remaining(),
        ) {
            Ok((v, n)) => r == Ok::<u64, ErrorKind>(v) && final(reader).remaining() == old(reader).remaining().skip(n as int)
                && final(reader).consumed() == old(reader).consumed() + old(reader).remaining().take(n as int),
            Err(e) => r == Err::<u64, ErrorKind>(e),
        }),
{
    let ghost rem = reader.remaining();
    let header = match reader.read() {
        Ok(v) => v,
        Err(e) => return Err(ErrorKind::IOError(e)),
    };
    proof {
        if R::obeys_model() {
            assert(rem =~= seq![header] + reader.remaining());
        }
    }
    let ghost mid = *reader;
    let r = decode_rest(header, reader);
    proof {
        if R::obeys_model() && r is Ok {
            let n = spec_decode_from_bytes(rem)->Ok_0.1;
            assert(old(reader).consumed() + rem.take(n as int) =~= old(reader).consumed().push(header)
                + mid.remaining().take(n - 1));
        }
    }
    r
}

/// Decodes an ILInt whose first byte, `header`, was already read: the rest
/// of it comes from `reader`.
pub(crate) fn decode_rest<R: Reader>(header: u8, reader: &mut R) -> (r: Result<u64>)
    ensures
        R::obeys_model() ==> (spec_truncated(seq![header] + old(reader).remaining()) <==> r matches Err(ErrorKind::IOError(_))),
        R::obeys_model() ==> (!spec_truncated(seq![header] + old(reader).remaining()) ==> match spec_decode_from_bytes(
            seq![header] + old(reader).remaining(),
        ) {
            Ok((v, n)) => r == Ok::<u64, ErrorKind>(v) && final(reader).remaining() == (seq![header] + old(
                reader,
            ).remaining()).skip(n as int) && final(reader).consumed() == old(reader).consumed() + old(
                reader,
            ).remaining().take(n - 1),
            Err(e) => r == Err::<u64, ErrorKind>(e),
        }),
{
    let ghost rem = seq![header] + reader.remaining();
    let size = decoded_size(header);
    if size == 1 {
        proof {
            if R::obeys_model() {
                assert(rem.skip(1) =~= old(reader).remaining());
                assert(old(reader).consumed() + old(reader).remaining().take(0) =~= old(reader).consumed());
            }
        }
        Ok(header as u64)
    } else {
        let mut tmp: Vec<u8> = vec![0u8; size - 1];
        match reader.read_all(tmp.as_mut_slice()) {
            Ok(()) => (),
            Err(e) => return Err(ErrorKind::IOError(e)),
        }
        proof {
            if R::obeys_model() {
                assert(tmp@ =~= rem.subrange(1, size as int));
                assert(old(reader).remaining().skip(size - 1) =~= rem.skip(size as int));
            }
        }
        decode_body(tmp.as_slice())
    }
}

//=============================================================================
// Signed ILInt
//-----------------------------------------------------------------------------
/// The unsigned value that represents `v` in the signed ILInt encoding:
/// non-negative values map to even numbers and negative values to odd ones.
pub open spec fn spec_zigzag(v: i64) -> u64 {
    if v >= 0 {
        (2 * v) as u64
    } else {
        (-2 * v - 1) as u64
    }
}

/// The signed value represented by `u` in the signed ILInt encoding.
pub open spec fn spec_unzigzag(u: u64) -> i64 {
    if u % 2 == 0 {
        (u / 2) as i64
    } else {
        (-(u / 2) - 1) as i64
    }
}

/// The signed ILInt encoding of `v`.
pub open spec fn spec_signed_encode(v: i64) -> Seq<u8> {
    spec_encode(spec_zigzag(v))
}

/// The two mappings of the signed encoding undo each other.
pub proof fn lemma_zigzag_roundtrip(v: i64, u: u64)
    ensures
        spec_unzigzag(spec_zigzag(v)) == v,
        spec_zigzag(spec_unzigzag(u)) == u,
{
}

/// The signed encoding folds the integers onto the natural numbers by
/// magnitude, alternating signs: a non-negative `v` is represented by the
/// even number `2 * v`, a negative `v` by the odd number `-2 * v - 1`. So the
/// parity of the representation tells the sign, half of it the magnitude,
/// and the values from -124 to 123 are exactly those whose signed encoding
/// takes one byte.
pub proof fn lemma_zigzag_values(v: i64)
    ensures
        v >= 0 ==> spec_zigzag(v) == 2 * v,
        v < 0 ==> spec_zigzag(v) == -2 * v - 1,
        (spec_zigzag(v) % 2 == 1) == (v < 0),
        spec_zigzag(v) / 2 == (if v < 0 { -(v + 1) } else { v as int }),
        spec_signed_encode(v).len() == 1 <==> -124 <= v < 124,
        -124 <= v < 124 ==> spec_signed_encode(v) == seq![spec_zigzag(v) as u8],
{
    lemma_encode_len(spec_zigzag(v));
}

/// Reading a representation back: an even `u` stands for `u / 2`, an odd
/// one for `-(u + 1) / 2`, so that the signed value maps back to `u`.
pub proof fn lemma_unzigzag_values(u: u64)
    ensures
        u % 2 == 0 ==> 2 * spec_unzigzag(u) == u,
        u % 2 == 1 ==> -2 * spec_unzigzag(u) - 1 == u,
        (spec_unzigzag(u) < 0) == (u % 2 == 1),
{
}

/// Decoding the signed encoding of a value gives the value back and consumes
/// the whole encoding, whatever follows it.
pub proof fn lemma_signed_encode_decode(v: i64, rest: Seq<u8>)
    ensures
        spec_decode_from_bytes(spec_signed_encode(v) + rest) == Ok::<(u64, nat), ErrorKind>(
            (spec_zigzag(v), spec_encoded_size(spec_zigzag(v))),
        ),
        spec_unzigzag(spec_zigzag(v)) == v,
        spec_signed_encode(v).len() == spec_encoded_size(spec_zigzag(v)),
{
    lemma_encode_decode(spec_zigzag(v), rest);
    lemma_encode_len(spec_zigzag(v));
}

/// Maps a signed value to its unsigned representation.
pub fn signed_to_unsigned(v: i64) -> (r: u64)
    ensures
        r == spec_zigzag(v),
{
    if v >= 0 {
        (v as u64) * 2
    } else {
        ((-(v + 1)) as u64) * 2 + 1
    }
}

/// Maps an unsigned representation back to its signed value.
pub fn unsigned_to_signed(u: u64) -> (r: i64)
    ensures
        r == spec_unzigzag(u),
{
    if u % 2 == 0 {
        (u / 2) as i64
    } else {
        -((u / 2) as i64) - 1
    }
}

/// Returns the size of the signed ILInt encoding of `value`.
pub fn signed_encoded_size(value: i64) -> (r: usize)
    ensures
        r == spec_encoded_size(spec_zigzag(value)),
{
    encoded_size(signed_to_unsigned(value))
}

/// Encodes `value` as a signed ILInt into `writer`.
pub fn signed_encode<W: Writer>(value: i64, writer: &mut W) -> (r: Result<()>)
    ensures
        writes_exactly(*old(writer), *final(writer), spec_signed_encode(value), r is Ok),
        r is Err ==> r matches Err(ErrorKind::IOError(_)),
{
    encode(signed_to_unsigned(value), writer)
}

/// Decodes a signed ILInt from `reader`, with the same failure cases as
/// `decode`.
pub fn signed_decode<R: Reader>(reader: &mut R) -> (r: Result<i64>)
    ensures
        R::obeys_model() ==> (spec_truncated(old(reader).remaining()) <==> r matches Err(ErrorKind::IOError(_))),
        R::obeys_model() ==> (!spec_truncated(old(reader).remaining()) ==> match spec_decode_from_bytes(
            old(reader).remaining(),
        ) {
            Ok((v, n)) => r == Ok::<i64, ErrorKind>(spec_unzigzag(v)) && final(reader).remaining()
                == old(reader).remaining().skip(n as int),
            Err(e) => r == Err::<i64, ErrorKind>(e),
        }),
{
    match decode(reader) {
        Ok(v) => Ok(unsigned_to_signed(v)),
        Err(e) => Err(e),
    }
}

} // verus!
