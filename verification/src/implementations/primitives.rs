use vstd::prelude::*;
use crate::implementations::le::{
    lemma_auto_spec_u128_to_from_le_bytes, lemma_auto_spec_u16_to_from_le_bytes, lemma_auto_spec_u32_to_from_le_bytes, lemma_auto_spec_u64_to_from_le_bytes, spec_u128_from_le_bytes, spec_u128_to_le_bytes, spec_u16_from_le_bytes, spec_u16_to_le_bytes, spec_u32_from_le_bytes, spec_u32_to_le_bytes, spec_u64_from_le_bytes, spec_u64_to_le_bytes, u128_from_le_bytes, u128_to_le_bytes, u16_from_le_bytes, u16_to_le_bytes, u32_from_le_bytes, u32_to_le_bytes, u64_from_le_bytes, u64_to_le_bytes,
};
use vstd::slice::slice_to_vec;

use crate::error::unexpected_eof;
use crate::implementations::specialised::{
    decode_bool_vec, deserialize_bool_vec, encode_bool_vec, lemma_decode_encode_bool_vec,
    serialize_bool_vec, decode_fixed_vec, deserialize_fixed_vec, encode_fixed_vec, lemma_decode_encode_fixed_vec,
    serialize_fixed_vec,
};
use crate::implementations::vecs::{
    decode_len, encode_len, lemma_decode_encode_len, serialize_bytes, spec_decode_len,
    spec_encode_len, decode_vec_generic, deserialize_vec_generic, encode_vec_generic,
    lemma_decode_encode_vec_generic, serialize_vec_generic,
};
use crate::{
    DeserializeRevisioned, DeserializeRevisionedVec, Error, ErrorKind, Revisioned,
    RevisionedRoundTrip, RevisionedRoundTripVec, SerializeRevisioned, SerializeRevisionedVec,
    models,
};

verus! {

/// Reads exactly `count` bytes from the front of `reader`.
///
/// When fewer bytes are left, the reader is emptied and an I/O error
/// (unexpected end of file) is returned, as `std::io::Read::read_exact` does on a slice.
pub fn read_buffer<'a>(reader: &mut &'a [u8], count: usize) -> (res: Result<&'a [u8], Error>)
    ensures
        match res {
            Ok(b) => old(reader)@.len() >= count && b@ == old(reader)@.take(count as int)
                && final(reader)@ == old(reader)@.skip(count as int),
            Err(e) => old(reader)@.len() < count && final(reader)@.len() == 0 && e.kind()
                == ErrorKind::Io,
        },
{
    let s: &'a [u8] = *reader;
    if s.len() < count {
        *reader = &s[s.len()..s.len()];
        return Err(Error::Io(unexpected_eof()));
    }
    let head = &s[0..count];
    *reader = &s[count..s.len()];
    Ok(head)
}

/// Appends all of `bytes` to `writer`.
pub fn write_all(writer: &mut Vec<u8>, bytes: &[u8])
    ensures
        final(writer)@ == old(writer)@ + bytes@,
{
    let mut i: usize = 0;
    while i < bytes.len()
        invariant
            0 <= i <= bytes@.len(),
            writer@ == old(writer)@ + bytes@.take(i as int),
        decreases bytes@.len() - i,
    {
        writer.push(bytes[i]);
        i += 1;
        assert(bytes@.take(i as int) == bytes@.take(i - 1).push(bytes@[i - 1]));
    }
    assert(bytes@.take(bytes@.len() as int) == bytes@);
}

// ---------------------------------------------------------------------------
// Zigzag encoding of signed integers
// ---------------------------------------------------------------------------

/// Zigzag: non-negative `v` maps to `2v`, negative `v` to `-2v - 1`.
pub open spec fn spec_zigzag_64(v: i64) -> u64 {
    if v >= 0 {
        (2 * v) as u64
    } else {
        (-2 * v - 1) as u64
    }
}

/// The inverse of [`spec_zigzag_64`].
pub open spec fn spec_gazgiz_64(u: u64) -> i64 {
    if u % 2 == 0 {
        (u / 2) as i64
    } else {
        (-((u / 2) as int) - 1) as i64
    }
}

pub open spec fn spec_zigzag_128(v: i128) -> u128 {
    if v >= 0 {
        (2 * v) as u128
    } else {
        (-2 * v - 1) as u128
    }
}

pub open spec fn spec_gazgiz_128(u: u128) -> i128 {
    if u % 2 == 0 {
        (u / 2) as i128
    } else {
        (-((u / 2) as int) - 1) as i128
    }
}

/// zigzag encode a 64bit integer
pub fn zigzag_64(v: i64) -> (r: u64)
    ensures
        r == spec_zigzag_64(v),
{
    assert(((v >> 63i64) as u64 ^ ((v as u64) << 1u64)) == spec_zigzag_64(v)) by (bit_vector);
    (v >> 63i64) as u64 ^ ((v as u64) << 1u64)
}

/// undo zigzag encoding
pub fn gazgiz_64(u: u64) -> (r: i64)
    ensures
        r == spec_gazgiz_64(u),
{
    let low = u & 1u64;
    assert(low == 0 || low == 1) by (bit_vector)
        requires
            low == u & 1u64,
    ;
    let a = (u >> 1u64) as i64;
    let b: i64 = -(low as i64);
    let r = a ^ b;
    assert(r == spec_gazgiz_64(u)) by (bit_vector)
        requires
            low == u & 1u64,
            a == (u >> 1u64) as i64,
            b == (if low == 0 {
                0i64
            } else {
                -1i64
            }),
            r == a ^ b,
    ;
    r
}

/// zigzag encode a 128bit integer
pub fn zigzag_128(v: i128) -> (r: u128)
    ensures
        r == spec_zigzag_128(v),
{
    assert(((v >> 127i128) as u128 ^ ((v as u128) << 1u128)) == spec_zigzag_128(v))
        by (bit_vector);
    (v >> 127i128) as u128 ^ ((v as u128) << 1u128)
}

/// undo zigzag encoding
pub fn gazgiz_128(u: u128) -> (r: i128)
    ensures
        r == spec_gazgiz_128(u),
{
    let low = u & 1u128;
    assert(low == 0 || low == 1) by (bit_vector)
        requires
            low == u & 1u128,
    ;
    let a = (u >> 1u128) as i128;
    let b: i128 = -(low as i128);
    let r = a ^ b;
    assert(r == spec_gazgiz_128(u)) by (bit_vector)
        requires
            low == u & 1u128,
            a == (u >> 1u128) as i128,
            b == (if low == 0 {
                0i128
            } else {
                -1i128
            }),
            r == a ^ b,
    ;
    r
}

/// Zigzag decoding undoes zigzag encoding.
pub proof fn lemma_gazgiz_zigzag_64(v: i64)
    ensures
        spec_gazgiz_64(spec_zigzag_64(v)) == v,
{
}

/// Zigzag encoding undoes zigzag decoding.
pub proof fn lemma_zigzag_gazgiz_64(u: u64)
    ensures
        spec_zigzag_64(spec_gazgiz_64(u)) == u,
{
}

/// Zigzag decoding undoes zigzag encoding (128 bits).
pub proof fn lemma_gazgiz_zigzag_128(v: i128)
    ensures
        spec_gazgiz_128(spec_zigzag_128(v)) == v,
{
}

/// Zigzag encoding undoes zigzag decoding (128 bits).
pub proof fn lemma_zigzag_gazgiz_128(u: u128)
    ensures
        spec_zigzag_128(spec_gazgiz_128(u)) == u,
{
}

// ---------------------------------------------------------------------------
// Variable-length integer encoding
// ---------------------------------------------------------------------------

/// The variable-length encoding of a 64-bit integer: values below 251 take one byte;
/// larger ones a marker byte (251, 252 or 253) followed by the value in 2, 4 or 8
/// little-endian bytes, the smallest width that holds it.
pub open spec fn spec_encode_u64(i: u64) -> Seq<u8> {
    if i < 251 {
        seq![i as u8]
    } else if i < 0x1_0000 {
        seq![251u8] + spec_u16_to_le_bytes(i as u16)
    } else if i < 0x1_0000_0000 {
        seq![252u8] + spec_u32_to_le_bytes(i as u32)
    } else {
        seq![253u8] + spec_u64_to_le_bytes(i)
    }
}

/// The variable-length encoding of a 128-bit integer: as for 64 bits, with the
/// marker 254 followed by 16 little-endian bytes for values that need more than 64 bits.
pub open spec fn spec_encode_u128(i: u128) -> Seq<u8> {
    if i < 251 {
        seq![i as u8]
    } else if i < 0x1_0000 {
        seq![251u8] + spec_u16_to_le_bytes(i as u16)
    } else if i < 0x1_0000_0000 {
        seq![252u8] + spec_u32_to_le_bytes(i as u32)
    } else if i < 0x1_0000_0000_0000_0000 {
        seq![253u8] + spec_u64_to_le_bytes(i as u64)
    } else {
        seq![254u8] + spec_u128_to_le_bytes(i)
    }
}

/// Decoding a variable-length 64-bit integer from the front of `input`: the value and
/// the number of bytes it takes. A marker byte of 254 announces a value too wide for
/// 64 bits; 255 is no marker at all. Running out of bytes is an I/O error.
pub open spec fn spec_decode_u64(input: Seq<u8>) -> Result<(u64, nat), ErrorKind> {
    if input.len() < 1 {
        Err(ErrorKind::Io)
    } else if input[0] == 251 {
        if input.len() < 3 {
            Err(ErrorKind::Io)
        } else {
            Ok((spec_u16_from_le_bytes(input.subrange(1, 3)) as u64, 3))
        }
    } else if input[0] == 252 {
        if input.len() < 5 {
            Err(ErrorKind::Io)
        } else {
            Ok((spec_u32_from_le_bytes(input.subrange(1, 5)) as u64, 5))
        }
    } else if input[0] == 253 {
        if input.len() < 9 {
            Err(ErrorKind::Io)
        } else {
            Ok((spec_u64_from_le_bytes(input.subrange(1, 9)), 9))
        }
    } else if input[0] == 254 {
        Err(ErrorKind::IntegerOverflow)
    } else if input[0] == 255 {
        Err(ErrorKind::InvalidIntegerEncoding)
    } else {
        Ok((input[0] as u64, 1))
    }
}

/// Decoding a variable-length 128-bit integer from the front of `input`.
pub open spec fn spec_decode_u128(input: Seq<u8>) -> Result<(u128, nat), ErrorKind> {
    if input.len() < 1 {
        Err(ErrorKind::Io)
    } else if input[0] == 251 {
        if input.len() < 3 {
            Err(ErrorKind::Io)
        } else {
            Ok((spec_u16_from_le_bytes(input.subrange(1, 3)) as u128, 3))
        }
    } else if input[0] == 252 {
        if input.len() < 5 {
            Err(ErrorKind::Io)
        } else {
            Ok((spec_u32_from_le_bytes(input.subrange(1, 5)) as u128, 5))
        }
    } else if input[0] == 253 {
        if input.len() < 9 {
            Err(ErrorKind::Io)
        } else {
            Ok((spec_u64_from_le_bytes(input.subrange(1, 9)) as u128, 9))
        }
    } else if input[0] == 254 {
        if input.len() < 17 {
            Err(ErrorKind::Io)
        } else {
            Ok((spec_u128_from_le_bytes(input.subrange(1, 17)), 17))
        }
    } else if input[0] == 255 {
        Err(ErrorKind::InvalidIntegerEncoding)
    } else {
        Ok((input[0] as u128, 1))
    }
}

/// The result of a decoder of plain values agrees with its specification.
pub open spec fn decodes_value<V>(
    spec: Result<(V, nat), ErrorKind>,
    res: Result<V, Error>,
    before: Seq<u8>,
    after: Seq<u8>,
) -> bool {
    match res {
        Ok(v) => spec matches Ok((x, n)) && x == v && n <= before.len() && after == before.skip(
            n as int,
        ),
        Err(e) => spec == Err::<(V, nat), ErrorKind>(e.kind()),
    }
}

/// Writes `i` in the variable-length encoding.
pub fn encode_u64(writer: &mut Vec<u8>, i: u64) -> (r: Result<(), Error>)
    ensures
        r is Ok,
        final(writer)@ == old(writer)@ + spec_encode_u64(i),
{
    if i < 251 {
        writer.push(i as u8);
    } else if i < 0x1_0000 {
        writer.push(251u8);
        let bytes = u16_to_le_bytes(i as u16);
        write_all(writer, bytes.as_slice());
    } else if i < 0x1_0000_0000 {
        writer.push(252u8);
        let bytes = u32_to_le_bytes(i as u32);
        write_all(writer, bytes.as_slice());
    } else {
        writer.push(253u8);
        let bytes = u64_to_le_bytes(i);
        write_all(writer, bytes.as_slice());
    }
    Ok(())
}

/// Writes `i` in the variable-length encoding.
pub fn encode_u128(writer: &mut Vec<u8>, i: u128) -> (r: Result<(), Error>)
    ensures
        r is Ok,
        final(writer)@ == old(writer)@ + spec_encode_u128(i),
{
    if i < 251 {
        writer.push(i as u8);
    } else if i < 0x1_0000 {
        writer.push(251u8);
        let bytes = u16_to_le_bytes(i as u16);
        write_all(writer, bytes.as_slice());
    } else if i < 0x1_0000_0000 {
        writer.push(252u8);
        let bytes = u32_to_le_bytes(i as u32);
        write_all(writer, bytes.as_slice());
    } else if i < 0x1_0000_0000_0000_0000 {
        writer.push(253u8);
        let bytes = u64_to_le_bytes(i as u64);
        write_all(writer, bytes.as_slice());
    } else {
        writer.push(254u8);
        let bytes = u128_to_le_bytes(i);
        write_all(writer, bytes.as_slice());
    }
    Ok(())
}

/// Reads a variable-length 64-bit integer.
pub fn decode_u64(reader: &mut &[u8]) -> (res: Result<u64, Error>)
    ensures
        decodes_value(spec_decode_u64(old(reader)@), res, old(reader)@, final(reader)@),
{
    let ghost input = reader@;
    let b = match read_buffer(reader, 1) {
        Ok(b) => b,
        Err(e) => return Err(e),
    };
    let tag = b[0];
    let ghost after_tag = reader@;
    if tag == 251 {
        let b = match read_buffer(reader, 2) {
            Ok(b) => b,
            Err(e) => return Err(e),
        };
        assert(b@ == input.subrange(1, 3));
        assert(reader@ == input.skip(3));
        Ok(u16_from_le_bytes(b) as u64)
    } else if tag == 252 {
        let b = match read_buffer(reader, 4) {
            Ok(b) => b,
            Err(e) => return Err(e),
        };
        assert(b@ == input.subrange(1, 5));
        assert(reader@ == input.skip(5));
        Ok(u32_from_le_bytes(b) as u64)
    } else if tag == 253 {
        let b = match read_buffer(reader, 8) {
            Ok(b) => b,
            Err(e) => return Err(e),
        };
        assert(b@ == input.subrange(1, 9));
        assert(reader@ == input.skip(9));
        Ok(u64_from_le_bytes(b))
    } else if tag == 254 {
        Err(Error::IntegerOverflow)
    } else if tag == 255 {
        Err(Error::InvalidIntegerEncoding)
    } else {
        Ok(tag as u64)
    }
}

/// Reads a variable-length 128-bit integer.
pub fn decode_u128(reader: &mut &[u8]) -> (res: Result<u128, Error>)
    ensures
        decodes_value(spec_decode_u128(old(reader)@), res, old(reader)@, final(reader)@),
{
    let ghost input = reader@;
    let b = match read_buffer(reader, 1) {
        Ok(b) => b,
        Err(e) => return Err(e),
    };
    let tag = b[0];
    if tag == 251 {
        let b = match read_buffer(reader, 2) {
            Ok(b) => b,
            Err(e) => return Err(e),
        };
        assert(b@ == input.subrange(1, 3));
        assert(reader@ == input.skip(3));
        Ok(u16_from_le_bytes(b) as u128)
    } else if tag == 252 {
        let b = match read_buffer(reader, 4) {
            Ok(b) => b,
            Err(e) => return Err(e),
        };
        assert(b@ == input.subrange(1, 5));
        assert(reader@ == input.skip(5));
        Ok(u32_from_le_bytes(b) as u128)
    } else if tag == 253 {
        let b = match read_buffer(reader, 8) {
            Ok(b) => b,
            Err(e) => return Err(e),
        };
        assert(b@ == input.subrange(1, 9));
        assert(reader@ == input.skip(9));
        Ok(u64_from_le_bytes(b) as u128)
    } else if tag == 254 {
        let b = match read_buffer(reader, 16) {
            Ok(b) => b,
            Err(e) => return Err(e),
        };
        assert(b@ == input.subrange(1, 17));
        assert(reader@ == input.skip(17));
        Ok(u128_from_le_bytes(b))
    } else if tag == 255 {
        Err(Error::InvalidIntegerEncoding)
    } else {
        Ok(tag as u128)
    }
}

/// The variable-length encoding takes one byte for the values 0 to 250, three up to
/// `u16::MAX`, five up to `u32::MAX`, and nine above.
pub proof fn lemma_encoded_u64_size(i: u64)
    ensures
        i <= 250 ==> spec_encode_u64(i) == seq![i as u8],
        spec_encode_u64(i).len() == if i <= 250 {
            1nat
        } else if i <= 0xffff {
            3nat
        } else if i <= 0xffff_ffff {
            5nat
        } else {
            9nat
        },
{
    if 250 < i <= 0xffff {
        assert(spec_u16_to_le_bytes(i as u16).len() == 2) by {
            lemma_auto_spec_u16_to_from_le_bytes();
        }
    } else if 0xffff < i <= 0xffff_ffff {
        assert(spec_u32_to_le_bytes(i as u32).len() == 4) by {
            lemma_auto_spec_u32_to_from_le_bytes();
        }
    } else if 0xffff_ffff < i {
        assert(spec_u64_to_le_bytes(i).len() == 8) by {
            lemma_auto_spec_u64_to_from_le_bytes();
        }
    }
}

/// Decoding what [`spec_encode_u64`] wrote gives back the value and takes exactly the
/// bytes written, whatever follows them.
pub proof fn lemma_decode_encode_u64(i: u64, rest: Seq<u8>)
    ensures
        spec_decode_u64(spec_encode_u64(i) + rest) == Ok::<(u64, nat), ErrorKind>(
            (i, spec_encode_u64(i).len()),
        ),
{
    lemma_auto_spec_u16_to_from_le_bytes();
    lemma_auto_spec_u32_to_from_le_bytes();
    lemma_auto_spec_u64_to_from_le_bytes();
    let e = spec_encode_u64(i);
    let input = e + rest;
    if i < 251 {
    } else if i < 0x1_0000 {
        assert(input.subrange(1, 3) == spec_u16_to_le_bytes(i as u16));
    } else if i < 0x1_0000_0000 {
        assert(input.subrange(1, 5) == spec_u32_to_le_bytes(i as u32));
    } else {
        assert(input.subrange(1, 9) == spec_u64_to_le_bytes(i));
    }
}

/// Decoding what [`spec_encode_u128`] wrote gives back the value and takes exactly the
/// bytes written, whatever follows them.
pub proof fn lemma_decode_encode_u128(i: u128, rest: Seq<u8>)
    ensures
        spec_decode_u128(spec_encode_u128(i) + rest) == Ok::<(u128, nat), ErrorKind>(
            (i, spec_encode_u128(i).len()),
        ),
{
    lemma_auto_spec_u16_to_from_le_bytes();
    lemma_auto_spec_u32_to_from_le_bytes();
    lemma_auto_spec_u64_to_from_le_bytes();
    lemma_auto_spec_u128_to_from_le_bytes();
    let e = spec_encode_u128(i);
    let input = e + rest;
    if i < 251 {
    } else if i < 0x1_0000 {
        assert(input.subrange(1, 3) == spec_u16_to_le_bytes(i as u16));
    } else if i < 0x1_0000_0000 {
        assert(input.subrange(1, 5) == spec_u32_to_le_bytes(i as u32));
    } else if i < 0x1_0000_0000_0000_0000 {
        assert(input.subrange(1, 9) == spec_u64_to_le_bytes(i as u64));
    } else {
        assert(input.subrange(1, 17) == spec_u128_to_le_bytes(i));
    }
}

// ---------------------------------------------------------------------------
// Integers
// ---------------------------------------------------------------------------

impl Revisioned for u16 {
    type Model = u16;

    open spec fn model(&self) -> u16 {
        *self
    }

    open spec fn spec_revision() -> u16 {
        1
    }

    fn revision() -> (r: u16) {
        1
    }
}

impl SerializeRevisioned for u16 {
    open spec fn spec_encode(m: u16) -> Seq<u8> {
        spec_encode_u64(m as u64)
    }

    fn serialize_revisioned(&self, writer: &mut Vec<u8>) -> (r: Result<(), Error>) {
        encode_u64(writer, *self as u64)
    }
}

impl DeserializeRevisioned for u16 {
    /// A variable-length 64-bit integer that must fit the type.
    open spec fn spec_decode(input: Seq<u8>) -> Result<(u16, nat), ErrorKind> {
        match spec_decode_u64(input) {
            Ok((x, n)) => if x <= u16::MAX {
                Ok((x as u16, n))
            } else {
                Err(ErrorKind::IntegerOverflow)
            },
            Err(e) => Err(e),
        }
    }

    fn deserialize_revisioned(reader: &mut &[u8]) -> (res: Result<u16, Error>) {
        match decode_u64(reader) {
            Ok(x) => if x <= u16::MAX as u64 {
                Ok(x as u16)
            } else {
                Err(Error::IntegerOverflow)
            },
            Err(e) => Err(e),
        }
    }
}

impl RevisionedRoundTrip for u16 {
    proof fn lemma_decode_encode(v: u16, rest: Seq<u8>) {
        lemma_decode_encode_u64(v as u64, rest);
    }
}

impl SerializeRevisionedVec for u16 {
    /// The specialised layout: the length, then each value's little-endian bytes.
    open spec fn spec_encode_vec(ms: Seq<u16>) -> Seq<u8> {
        encode_fixed_vec(ms)
    }

    fn serialize_revisioned_vec(v: &Vec<u16>, writer: &mut Vec<u8>) -> (r: Result<(), Error>) {
        assert(models(v@) == v@);
        serialize_fixed_vec(v, writer);
        Ok(())
    }
}

impl DeserializeRevisionedVec for u16 {
    open spec fn spec_decode_vec(input: Seq<u8>) -> Result<(Seq<u16>, nat), ErrorKind> {
        decode_fixed_vec::<u16>(input)
    }

    fn deserialize_revisioned_vec(reader: &mut &[u8]) -> (res: Result<Vec<u16>, Error>) {
        let res = deserialize_fixed_vec(reader);
        if let Ok(v) = &res {
            assert(models(v@) == v@);
        }
        res
    }
}

impl RevisionedRoundTripVec for u16 {
    proof fn lemma_decode_encode_vec(vs: Seq<u16>, rest: Seq<u8>) {
        assert(models(vs) == vs);
        lemma_decode_encode_fixed_vec(vs, rest);
    }
}

impl Revisioned for u32 {
    type Model = u32;

    open spec fn model(&self) -> u32 {
        *self
    }

    open spec fn spec_revision() -> u16 {
        1
    }

    fn revision() -> (r: u16) {
        1
    }
}

impl SerializeRevisioned for u32 {
    open spec fn spec_encode(m: u32) -> Seq<u8> {
        spec_encode_u64(m as u64)
    }

    fn serialize_revisioned(&self, writer: &mut Vec<u8>) -> (r: Result<(), Error>) {
        encode_u64(writer, *self as u64)
    }
}

impl DeserializeRevisioned for u32 {
    /// A variable-length 64-bit integer that must fit the type.
    open spec fn spec_decode(input: Seq<u8>) -> Result<(u32, nat), ErrorKind> {
        match spec_decode_u64(input) {
            Ok((x, n)) => if x <= u32::MAX {
                Ok((x as u32, n))
            } else {
                Err(ErrorKind::IntegerOverflow)
            },
            Err(e) => Err(e),
        }
    }

    fn deserialize_revisioned(reader: &mut &[u8]) -> (res: Result<u32, Error>) {
        match decode_u64(reader) {
            Ok(x) => if x <= u32::MAX as u64 {
                Ok(x as u32)
            } else {
                Err(Error::IntegerOverflow)
            },
            Err(e) => Err(e),
        }
    }
}

impl RevisionedRoundTrip for u32 {
    proof fn lemma_decode_encode(v: u32, rest: Seq<u8>) {
        lemma_decode_encode_u64(v as u64, rest);
    }
}

impl SerializeRevisionedVec for u32 {
    /// The specialised layout: the length, then each value's little-endian bytes.
    open spec fn spec_encode_vec(ms: Seq<u32>) -> Seq<u8> {
        encode_fixed_vec(ms)
    }

    fn serialize_revisioned_vec(v: &Vec<u32>, writer: &mut Vec<u8>) -> (r: Result<(), Error>) {
        assert(models(v@) == v@);
        serialize_fixed_vec(v, writer);
        Ok(())
    }
}

impl DeserializeRevisionedVec for u32 {
    open spec fn spec_decode_vec(input: Seq<u8>) -> Result<(Seq<u32>, nat), ErrorKind> {
        decode_fixed_vec::<u32>(input)
    }

    fn deserialize_revisioned_vec(reader: &mut &[u8]) -> (res: Result<Vec<u32>, Error>) {
        let res = deserialize_fixed_vec(reader);
        if let Ok(v) = &res {
            assert(models(v@) == v@);
        }
        res
    }
}

impl RevisionedRoundTripVec for u32 {
    proof fn lemma_decode_encode_vec(vs: Seq<u32>, rest: Seq<u8>) {
        assert(models(vs) == vs);
        lemma_decode_encode_fixed_vec(vs, rest);
    }
}

impl Revisioned for i16 {
    type Model = i16;

    open spec fn model(&self) -> i16 {
        *self
    }

    open spec fn spec_revision() -> u16 {
        1
    }

    fn revision() -> (r: u16) {
        1
    }
}

impl SerializeRevisioned for i16 {
    open spec fn spec_encode(m: i16) -> Seq<u8> {
        spec_encode_u64(spec_zigzag_64(m as i64))
    }

    fn serialize_revisioned(&self, writer: &mut Vec<u8>) -> (r: Result<(), Error>) {
        encode_u64(writer, zigzag_64(*self as i64))
    }
}

impl DeserializeRevisioned for i16 {
    /// A zigzag-encoded variable-length 64-bit integer that must fit the type.
    open spec fn spec_decode(input: Seq<u8>) -> Result<(i16, nat), ErrorKind> {
        match spec_decode_u64(input) {
            Ok((x, n)) => if i16::MIN <= spec_gazgiz_64(x) <= i16::MAX {
                Ok((spec_gazgiz_64(x) as i16, n))
            } else {
                Err(ErrorKind::IntegerOverflow)
            },
            Err(e) => Err(e),
        }
    }

    fn deserialize_revisioned(reader: &mut &[u8]) -> (res: Result<i16, Error>) {
        match decode_u64(reader) {
            Ok(x) => {
                let v = gazgiz_64(x);
                if i16::MIN as i64 <= v && v <= i16::MAX as i64 {
                    Ok(v as i16)
                } else {
                    Err(Error::IntegerOverflow)
                }
            },
            Err(e) => Err(e),
        }
    }
}

impl RevisionedRoundTrip for i16 {
    proof fn lemma_decode_encode(v: i16, rest: Seq<u8>) {
        lemma_decode_encode_u64(spec_zigzag_64(v as i64), rest);
        lemma_gazgiz_zigzag_64(v as i64);
    }
}

impl SerializeRevisionedVec for i16 {
    /// The specialised layout: the length, then each value's little-endian bytes.
    open spec fn spec_encode_vec(ms: Seq<i16>) -> Seq<u8> {
        encode_fixed_vec(ms)
    }

    fn serialize_revisioned_vec(v: &Vec<i16>, writer: &mut Vec<u8>) -> (r: Result<(), Error>) {
        assert(models(v@) == v@);
        serialize_fixed_vec(v, writer);
        Ok(())
    }
}

impl DeserializeRevisionedVec for i16 {
    open spec fn spec_decode_vec(input: Seq<u8>) -> Result<(Seq<i16>, nat), ErrorKind> {
        decode_fixed_vec::<i16>(input)
    }

    fn deserialize_revisioned_vec(reader: &mut &[u8]) -> (res: Result<Vec<i16>, Error>) {
        let res = deserialize_fixed_vec(reader);
        if let Ok(v) = &res {
            assert(models(v@) == v@);
        }
        res
    }
}

impl RevisionedRoundTripVec for i16 {
    proof fn lemma_decode_encode_vec(vs: Seq<i16>, rest: Seq<u8>) {
        assert(models(vs) == vs);
        lemma_decode_encode_fixed_vec(vs, rest);
    }
}

impl Revisioned for i32 {
    type Model = i32;

    open spec fn model(&self) -> i32 {
        *self
    }

    open spec fn spec_revision() -> u16 {
        1
    }

    fn revision() -> (r: u16) {
        1
    }
}

impl SerializeRevisioned for i32 {
    open spec fn spec_encode(m: i32) -> Seq<u8> {
        spec_encode_u64(spec_zigzag_64(m as i64))
    }

    fn serialize_revisioned(&self, writer: &mut Vec<u8>) -> (r: Result<(), Error>) {
        encode_u64(writer, zigzag_64(*self as i64))
    }
}

impl DeserializeRevisioned for i32 {
    /// A zigzag-encoded variable-length 64-bit integer that must fit the type.
    open spec fn spec_decode(input: Seq<u8>) -> Result<(i32, nat), ErrorKind> {
        match spec_decode_u64(input) {
            Ok((x, n)) => if i32::MIN <= spec_gazgiz_64(x) <= i32::MAX {
                Ok((spec_gazgiz_64(x) as i32, n))
            } else {
                Err(ErrorKind::IntegerOverflow)
            },
            Err(e) => Err(e),
        }
    }

    fn deserialize_revisioned(reader: &mut &[u8]) -> (res: Result<i32, Error>) {
        match decode_u64(reader) {
            Ok(x) => {
                let v = gazgiz_64(x);
                if i32::MIN as i64 <= v && v <= i32::MAX as i64 {
                    Ok(v as i32)
                } else {
                    Err(Error::IntegerOverflow)
                }
            },
            Err(e) => Err(e),
        }
    }
}

impl RevisionedRoundTrip for i32 {
    proof fn lemma_decode_encode(v: i32, rest: Seq<u8>) {
        lemma_decode_encode_u64(spec_zigzag_64(v as i64), rest);
        lemma_gazgiz_zigzag_64(v as i64);
    }
}

impl SerializeRevisionedVec for i32 {
    /// The specialised layout: the length, then each value's little-endian bytes.
    open spec fn spec_encode_vec(ms: Seq<i32>) -> Seq<u8> {
        encode_fixed_vec(ms)
    }

    fn serialize_revisioned_vec(v: &Vec<i32>, writer: &mut Vec<u8>) -> (r: Result<(), Error>) {
        assert(models(v@) == v@);
        serialize_fixed_vec(v, writer);
        Ok(())
    }
}

impl DeserializeRevisionedVec for i32 {
    open spec fn spec_decode_vec(input: Seq<u8>) -> Result<(Seq<i32>, nat), ErrorKind> {
        decode_fixed_vec::<i32>(input)
    }

    fn deserialize_revisioned_vec(reader: &mut &[u8]) -> (res: Result<Vec<i32>, Error>) {
        let res = deserialize_fixed_vec(reader);
        if let Ok(v) = &res {
            assert(models(v@) == v@);
        }
        res
    }
}

impl RevisionedRoundTripVec for i32 {
    proof fn lemma_decode_encode_vec(vs: Seq<i32>, rest: Seq<u8>) {
        assert(models(vs) == vs);
        lemma_decode_encode_fixed_vec(vs, rest);
    }
}

impl Revisioned for u64 {
    type Model = u64;

    open spec fn model(&self) -> u64 {
        *self
    }

    open spec fn spec_revision() -> u16 {
        1
    }

    fn revision() -> (r: u16) {
        1
    }
}

impl SerializeRevisioned for u64 {
    open spec fn spec_encode(m: u64) -> Seq<u8> {
        spec_encode_u64(m)
    }

    fn serialize_revisioned(&self, writer: &mut Vec<u8>) -> (r: Result<(), Error>) {
        encode_u64(writer, *self)
    }
}

impl DeserializeRevisioned for u64 {
    open spec fn spec_decode(input: Seq<u8>) -> Result<(u64, nat), ErrorKind> {
        spec_decode_u64(input)
    }

    fn deserialize_revisioned(reader: &mut &[u8]) -> (res: Result<u64, Error>) {
        decode_u64(reader)
    }
}

impl RevisionedRoundTrip for u64 {
    proof fn lemma_decode_encode(v: u64, rest: Seq<u8>) {
        lemma_decode_encode_u64(v, rest);
    }
}

impl SerializeRevisionedVec for u64 {
    /// The specialised layout: the length, then each value's little-endian bytes.
    open spec fn spec_encode_vec(ms: Seq<u64>) -> Seq<u8> {
        encode_fixed_vec(ms)
    }

    fn serialize_revisioned_vec(v: &Vec<u64>, writer: &mut Vec<u8>) -> (r: Result<(), Error>) {
        assert(models(v@) == v@);
        serialize_fixed_vec(v, writer);
        Ok(())
    }
}

impl DeserializeRevisionedVec for u64 {
    open spec fn spec_decode_vec(input: Seq<u8>) -> Result<(Seq<u64>, nat), ErrorKind> {
        decode_fixed_vec::<u64>(input)
    }

    fn deserialize_revisioned_vec(reader: &mut &[u8]) -> (res: Result<Vec<u64>, Error>) {
        let res = deserialize_fixed_vec(reader);
        if let Ok(v) = &res {
            assert(models(v@) == v@);
        }
        res
    }
}

impl RevisionedRoundTripVec for u64 {
    proof fn lemma_decode_encode_vec(vs: Seq<u64>, rest: Seq<u8>) {
        assert(models(vs) == vs);
        lemma_decode_encode_fixed_vec(vs, rest);
    }
}

impl Revisioned for i64 {
    type Model = i64;

    open spec fn model(&self) -> i64 {
        *self
    }

    open spec fn spec_revision() -> u16 {
        1
    }

    fn revision() -> (r: u16) {
        1
    }
}

impl SerializeRevisioned for i64 {
    open spec fn spec_encode(m: i64) -> Seq<u8> {
        spec_encode_u64(spec_zigzag_64(m))
    }

    fn serialize_revisioned(&self, writer: &mut Vec<u8>) -> (r: Result<(), Error>) {
        encode_u64(writer, zigzag_64(*self))
    }
}

impl DeserializeRevisioned for i64 {
    /// A zigzag-encoded variable-length 64-bit integer.
    open spec fn spec_decode(input: Seq<u8>) -> Result<(i64, nat), ErrorKind> {
        match spec_decode_u64(input) {
            Ok((x, n)) => Ok((spec_gazgiz_64(x), n)),
            Err(e) => Err(e),
        }
    }

    fn deserialize_revisioned(reader: &mut &[u8]) -> (res: Result<i64, Error>) {
        match decode_u64(reader) {
            Ok(x) => Ok(gazgiz_64(x)),
            Err(e) => Err(e),
        }
    }
}

impl RevisionedRoundTrip for i64 {
    proof fn lemma_decode_encode(v: i64, rest: Seq<u8>) {
        lemma_decode_encode_u64(spec_zigzag_64(v), rest);
        lemma_gazgiz_zigzag_64(v);
    }
}

impl SerializeRevisionedVec for i64 {
    /// The specialised layout: the length, then each value's little-endian bytes.
    open spec fn spec_encode_vec(ms: Seq<i64>) -> Seq<u8> {
        encode_fixed_vec(ms)
    }

    fn serialize_revisioned_vec(v: &Vec<i64>, writer: &mut Vec<u8>) -> (r: Result<(), Error>) {
        assert(models(v@) == v@);
        serialize_fixed_vec(v, writer);
        Ok(())
    }
}

impl DeserializeRevisionedVec for i64 {
    open spec fn spec_decode_vec(input: Seq<u8>) -> Result<(Seq<i64>, nat), ErrorKind> {
        decode_fixed_vec::<i64>(input)
    }

    fn deserialize_revisioned_vec(reader: &mut &[u8]) -> (res: Result<Vec<i64>, Error>) {
        let res = deserialize_fixed_vec(reader);
        if let Ok(v) = &res {
            assert(models(v@) == v@);
        }
        res
    }
}

impl RevisionedRoundTripVec for i64 {
    proof fn lemma_decode_encode_vec(vs: Seq<i64>, rest: Seq<u8>) {
        assert(models(vs) == vs);
        lemma_decode_encode_fixed_vec(vs, rest);
    }
}

impl Revisioned for u128 {
    type Model = u128;

    open spec fn model(&self) -> u128 {
        *self
    }

    open spec fn spec_revision() -> u16 {
        1
    }

    fn revision() -> (r: u16) {
        1
    }
}

impl SerializeRevisioned for u128 {
    open spec fn spec_encode(m: u128) -> Seq<u8> {
        spec_encode_u128(m)
    }

    fn serialize_revisioned(&self, writer: &mut Vec<u8>) -> (r: Result<(), Error>) {
        encode_u128(writer, *self)
    }
}

impl DeserializeRevisioned for u128 {
    open spec fn spec_decode(input: Seq<u8>) -> Result<(u128, nat), ErrorKind> {
        spec_decode_u128(input)
    }

    fn deserialize_revisioned(reader: &mut &[u8]) -> (res: Result<u128, Error>) {
        decode_u128(reader)
    }
}

impl RevisionedRoundTrip for u128 {
    proof fn lemma_decode_encode(v: u128, rest: Seq<u8>) {
        lemma_decode_encode_u128(v, rest);
    }
}

impl SerializeRevisionedVec for u128 {
    /// The specialised layout: the length, then each value's little-endian bytes.
    open spec fn spec_encode_vec(ms: Seq<u128>) -> Seq<u8> {
        encode_fixed_vec(ms)
    }

    fn serialize_revisioned_vec(v: &Vec<u128>, writer: &mut Vec<u8>) -> (r: Result<(), Error>) {
        assert(models(v@) == v@);
        serialize_fixed_vec(v, writer);
        Ok(())
    }
}

impl DeserializeRevisionedVec for u128 {
    open spec fn spec_decode_vec(input: Seq<u8>) -> Result<(Seq<u128>, nat), ErrorKind> {
        decode_fixed_vec::<u128>(input)
    }

    fn deserialize_revisioned_vec(reader: &mut &[u8]) -> (res: Result<Vec<u128>, Error>) {
        let res = deserialize_fixed_vec(reader);
        if let Ok(v) = &res {
            assert(models(v@) == v@);
        }
        res
    }
}

impl RevisionedRoundTripVec for u128 {
    proof fn lemma_decode_encode_vec(vs: Seq<u128>, rest: Seq<u8>) {
        assert(models(vs) == vs);
        lemma_decode_encode_fixed_vec(vs, rest);
    }
}

impl Revisioned for i128 {
    type Model = i128;

    open spec fn model(&self) -> i128 {
        *self
    }

    open spec fn spec_revision() -> u16 {
        1
    }

    fn revision() -> (r: u16) {
        1
    }
}

impl SerializeRevisioned for i128 {
    open spec fn spec_encode(m: i128) -> Seq<u8> {
        spec_encode_u128(spec_zigzag_128(m))
    }

    fn serialize_revisioned(&self, writer: &mut Vec<u8>) -> (r: Result<(), Error>) {
        encode_u128(writer, zigzag_128(*self))
    }
}

impl DeserializeRevisioned for i128 {
    /// A zigzag-encoded variable-length 128-bit integer.
    open spec fn spec_decode(input: Seq<u8>) -> Result<(i128, nat), ErrorKind> {
        match spec_decode_u128(input) {
            Ok((x, n)) => Ok((spec_gazgiz_128(x), n)),
            Err(e) => Err(e),
        }
    }

    fn deserialize_revisioned(reader: &mut &[u8]) -> (res: Result<i128, Error>) {
        match decode_u128(reader) {
            Ok(x) => Ok(gazgiz_128(x)),
            Err(e) => Err(e),
        }
    }
}

impl RevisionedRoundTrip for i128 {
    proof fn lemma_decode_encode(v: i128, rest: Seq<u8>) {
        lemma_decode_encode_u128(spec_zigzag_128(v), rest);
        lemma_gazgiz_zigzag_128(v);
    }
}

impl SerializeRevisionedVec for i128 {
    /// The specialised layout: the length, then each value's little-endian bytes.
    open spec fn spec_encode_vec(ms: Seq<i128>) -> Seq<u8> {
        encode_fixed_vec(ms)
    }

    fn serialize_revisioned_vec(v: &Vec<i128>, writer: &mut Vec<u8>) -> (r: Result<(), Error>) {
        assert(models(v@) == v@);
        serialize_fixed_vec(v, writer);
        Ok(())
    }
}

impl DeserializeRevisionedVec for i128 {
    open spec fn spec_decode_vec(input: Seq<u8>) -> Result<(Seq<i128>, nat), ErrorKind> {
        decode_fixed_vec::<i128>(input)
    }

    fn deserialize_revisioned_vec(reader: &mut &[u8]) -> (res: Result<Vec<i128>, Error>) {
        let res = deserialize_fixed_vec(reader);
        if let Ok(v) = &res {
            assert(models(v@) == v@);
        }
        res
    }
}

impl RevisionedRoundTripVec for i128 {
    proof fn lemma_decode_encode_vec(vs: Seq<i128>, rest: Seq<u8>) {
        assert(models(vs) == vs);
        lemma_decode_encode_fixed_vec(vs, rest);
    }
}

impl Revisioned for usize {
    type Model = usize;

    open spec fn model(&self) -> usize {
        *self
    }

    open spec fn spec_revision() -> u16 {
        1
    }

    fn revision() -> (r: u16) {
        1
    }
}

impl SerializeRevisioned for usize {
    /// A `usize` is written as a variable-length 64-bit integer.
    open spec fn spec_encode(m: usize) -> Seq<u8> {
        spec_encode_u64(m as u64)
    }

    fn serialize_revisioned(&self, writer: &mut Vec<u8>) -> (r: Result<(), Error>) {
        encode_u64(writer, *self as u64)
    }
}

impl DeserializeRevisioned for usize {
    /// A variable-length 64-bit integer, taken as a `usize` (truncated where `usize` is
    /// narrower than 64 bits).
    open spec fn spec_decode(input: Seq<u8>) -> Result<(usize, nat), ErrorKind> {
        match spec_decode_u64(input) {
            Ok((x, n)) => Ok((x as usize, n)),
            Err(e) => Err(e),
        }
    }

    fn deserialize_revisioned(reader: &mut &[u8]) -> (res: Result<usize, Error>) {
        match decode_u64(reader) {
            Ok(x) => Ok(x as usize),
            Err(e) => Err(e),
        }
    }
}

impl RevisionedRoundTrip for usize {
    proof fn lemma_decode_encode(v: usize, rest: Seq<u8>) {
        lemma_decode_encode_u64(v as u64, rest);
    }
}

impl SerializeRevisionedVec for usize {
    open spec fn spec_encode_vec(ms: Seq<usize>) -> Seq<u8> {
        encode_vec_generic::<usize>(ms)
    }

    fn serialize_revisioned_vec(v: &Vec<usize>, writer: &mut Vec<u8>) -> (r: Result<(), Error>) {
        serialize_vec_generic(v, writer)
    }
}

impl DeserializeRevisionedVec for usize {
    open spec fn spec_decode_vec(input: Seq<u8>) -> Result<(Seq<usize>, nat), ErrorKind> {
        decode_vec_generic::<usize>(input)
    }

    fn deserialize_revisioned_vec(reader: &mut &[u8]) -> (res: Result<Vec<usize>, Error>) {
        deserialize_vec_generic(reader)
    }
}

impl RevisionedRoundTripVec for usize {
    proof fn lemma_decode_encode_vec(vs: Seq<usize>, rest: Seq<u8>) {
        lemma_decode_encode_vec_generic::<usize>(vs, rest);
    }
}

impl Revisioned for isize {
    type Model = isize;

    open spec fn model(&self) -> isize {
        *self
    }

    open spec fn spec_revision() -> u16 {
        1
    }

    fn revision() -> (r: u16) {
        1
    }
}

impl SerializeRevisioned for isize {
    /// An `isize` is written as a zigzag-encoded variable-length 64-bit integer.
    open spec fn spec_encode(m: isize) -> Seq<u8> {
        spec_encode_u64(spec_zigzag_64(m as i64))
    }

    fn serialize_revisioned(&self, writer: &mut Vec<u8>) -> (r: Result<(), Error>) {
        encode_u64(writer, zigzag_64(*self as i64))
    }
}

impl DeserializeRevisioned for isize {
    /// A zigzag-encoded variable-length 64-bit integer, taken as an `isize` (truncated
    /// where `isize` is narrower than 64 bits).
    open spec fn spec_decode(input: Seq<u8>) -> Result<(isize, nat), ErrorKind> {
        match spec_decode_u64(input) {
            Ok((x, n)) => Ok((spec_gazgiz_64(x) as isize, n)),
            Err(e) => Err(e),
        }
    }

    fn deserialize_revisioned(reader: &mut &[u8]) -> (res: Result<isize, Error>) {
        match decode_u64(reader) {
            Ok(x) => Ok(gazgiz_64(x) as isize),
            Err(e) => Err(e),
        }
    }
}

impl RevisionedRoundTrip for isize {
    proof fn lemma_decode_encode(v: isize, rest: Seq<u8>) {
        lemma_decode_encode_u64(spec_zigzag_64(v as i64), rest);
        lemma_gazgiz_zigzag_64(v as i64);
    }
}

impl SerializeRevisionedVec for isize {
    open spec fn spec_encode_vec(ms: Seq<isize>) -> Seq<u8> {
        encode_vec_generic::<isize>(ms)
    }

    fn serialize_revisioned_vec(v: &Vec<isize>, writer: &mut Vec<u8>) -> (r: Result<(), Error>) {
        serialize_vec_generic(v, writer)
    }
}

impl DeserializeRevisionedVec for isize {
    open spec fn spec_decode_vec(input: Seq<u8>) -> Result<(Seq<isize>, nat), ErrorKind> {
        decode_vec_generic::<isize>(input)
    }

    fn deserialize_revisioned_vec(reader: &mut &[u8]) -> (res: Result<Vec<isize>, Error>) {
        deserialize_vec_generic(reader)
    }
}

impl RevisionedRoundTripVec for isize {
    proof fn lemma_decode_encode_vec(vs: Seq<isize>, rest: Seq<u8>) {
        lemma_decode_encode_vec_generic::<isize>(vs, rest);
    }
}

impl Revisioned for u8 {
    type Model = u8;

    open spec fn model(&self) -> u8 {
        *self
    }

    open spec fn spec_revision() -> u16 {
        1
    }

    fn revision() -> (r: u16) {
        1
    }
}

impl SerializeRevisioned for u8 {
    open spec fn spec_encode(m: u8) -> Seq<u8> {
        seq![m]
    }

    fn serialize_revisioned(&self, writer: &mut Vec<u8>) -> (r: Result<(), Error>) {
        writer.push(*self);
        Ok(())
    }
}

impl DeserializeRevisioned for u8 {
    /// One byte.
    open spec fn spec_decode(input: Seq<u8>) -> Result<(u8, nat), ErrorKind> {
        if input.len() < 1 {
            Err(ErrorKind::Io)
        } else {
            Ok((input[0], 1))
        }
    }

    fn deserialize_revisioned(reader: &mut &[u8]) -> (res: Result<u8, Error>) {
        match read_buffer(reader, 1) {
            Ok(b) => {
                let v = b[0];
                assert(v == old(reader)@[0]);
                assert(<u8 as DeserializeRevisioned>::spec_decode(old(reader)@) == Ok::<
                    (u8, nat),
                    ErrorKind,
                >((v, 1)));
                assert(reader@ == old(reader)@.skip(1));
                Ok(v)
            },
            Err(e) => Err(e),
        }
    }
}

impl RevisionedRoundTrip for u8 {
    proof fn lemma_decode_encode(v: u8, rest: Seq<u8>) {
    }
}

/// A vector of bytes in bulk: its length, then the bytes.
pub open spec fn encode_byte_vec(bytes: Seq<u8>) -> Seq<u8> {
    spec_encode_len(bytes.len()) + bytes
}

/// Decoding a vector of bytes in bulk: the length, then as many bytes.
pub open spec fn decode_byte_vec(input: Seq<u8>) -> Result<(Seq<u8>, nat), ErrorKind> {
    match spec_decode_len(input) {
        Err(e) => Err(e),
        Ok((len, k)) => if input.len() - k < len {
            Err(ErrorKind::Io)
        } else {
            Ok((input.subrange(k as int, (k + len) as int), k + len))
        },
    }
}

/// Reads a vector of bytes in bulk.
pub fn deserialize_byte_vec(reader: &mut &[u8]) -> (res: Result<Vec<u8>, Error>)
    ensures
        match res {
            Ok(v) => decode_byte_vec(old(reader)@) matches Ok((b, n)) && b == v@ && n <= old(
                reader,
            )@.len() && final(reader)@ == old(reader)@.skip(n as int),
            Err(e) => decode_byte_vec(old(reader)@) == Err::<(Seq<u8>, nat), ErrorKind>(e.kind()),
        },
{
    let ghost input = reader@;
    let len = match decode_len(reader) {
        Ok(len) => len,
        Err(e) => return Err(e),
    };
    let ghost k: nat = (input.len() - reader@.len()) as nat;
    match read_buffer(reader, len) {
        Ok(b) => {
            assert(b@ == input.subrange(k as int, (k + len) as int));
            assert(reader@ == input.skip((k + len) as int));
            Ok(slice_to_vec(b))
        },
        Err(e) => Err(e),
    }
}

impl SerializeRevisionedVec for u8 {
    open spec fn spec_encode_vec(ms: Seq<u8>) -> Seq<u8> {
        encode_byte_vec(ms)
    }

    fn serialize_revisioned_vec(v: &Vec<u8>, writer: &mut Vec<u8>) -> (r: Result<(), Error>) {
        assert(models(v@) == v@);
        serialize_bytes(v.as_slice(), writer)
    }
}

impl DeserializeRevisionedVec for u8 {
    open spec fn spec_decode_vec(input: Seq<u8>) -> Result<(Seq<u8>, nat), ErrorKind> {
        decode_byte_vec(input)
    }

    fn deserialize_revisioned_vec(reader: &mut &[u8]) -> (res: Result<Vec<u8>, Error>) {
        let res = deserialize_byte_vec(reader);
        if let Ok(v) = &res {
            assert(models(v@) == v@);
        }
        res
    }
}

impl RevisionedRoundTripVec for u8 {
    proof fn lemma_decode_encode_vec(vs: Seq<u8>, rest: Seq<u8>) {
        assert(models(vs) == vs);
        let l = spec_encode_len(vs.len());
        assert(l + vs + rest == l + (vs + rest));
        lemma_decode_encode_len(vs.len(), vs + rest);
        assert((l + (vs + rest)).subrange(l.len() as int, (l.len() + vs.len()) as int) == vs);
    }
}

impl Revisioned for i8 {
    type Model = i8;

    open spec fn model(&self) -> i8 {
        *self
    }

    open spec fn spec_revision() -> u16 {
        1
    }

    fn revision() -> (r: u16) {
        1
    }
}

impl SerializeRevisioned for i8 {
    /// The byte of the two's complement.
    open spec fn spec_encode(m: i8) -> Seq<u8> {
        seq![m as u8]
    }

    fn serialize_revisioned(&self, writer: &mut Vec<u8>) -> (r: Result<(), Error>) {
        writer.push(*self as u8);
        Ok(())
    }
}

impl DeserializeRevisioned for i8 {
    open spec fn spec_decode(input: Seq<u8>) -> Result<(i8, nat), ErrorKind> {
        if input.len() < 1 {
            Err(ErrorKind::Io)
        } else {
            Ok((input[0] as i8, 1))
        }
    }

    fn deserialize_revisioned(reader: &mut &[u8]) -> (res: Result<i8, Error>) {
        match read_buffer(reader, 1) {
            Ok(b) => Ok(b[0] as i8),
            Err(e) => Err(e),
        }
    }
}

impl RevisionedRoundTrip for i8 {
    proof fn lemma_decode_encode(v: i8, rest: Seq<u8>) {
        assert((v as u8) as i8 == v) by (bit_vector);
    }
}

/// The bytes of the two's complements of `xs`.
pub open spec fn i8_bytes(xs: Seq<i8>) -> Seq<u8> {
    xs.map_values(|x: i8| x as u8)
}

/// The numbers whose two's complements are the bytes `bytes`.
pub open spec fn bytes_i8(bytes: Seq<u8>) -> Seq<i8> {
    bytes.map_values(|b: u8| b as i8)
}

impl SerializeRevisionedVec for i8 {
    /// The same bulk layout as bytes: the length, then each number's byte.
    open spec fn spec_encode_vec(ms: Seq<i8>) -> Seq<u8> {
        encode_byte_vec(i8_bytes(ms))
    }

    fn serialize_revisioned_vec(v: &Vec<i8>, writer: &mut Vec<u8>) -> (r: Result<(), Error>) {
        assert(models(v@) == v@);
        let len = v.len();
        encode_len(writer, len);
        let ghost start = writer@;
        let mut i: usize = 0;
        while i < len
            invariant
                0 <= i <= len,
                len == v@.len(),
                start == old(writer)@ + spec_encode_len(len as nat),
                writer@ == start + i8_bytes(v@.take(i as int)),
            decreases len - i,
        {
            writer.push(v[i] as u8);
            i += 1;
            assert(i8_bytes(v@.take(i as int)) == i8_bytes(v@.take(i - 1)).push(v@[i - 1] as u8));
        }
        assert(v@.take(len as int) == v@);
        Ok(())
    }
}

impl DeserializeRevisionedVec for i8 {
    open spec fn spec_decode_vec(input: Seq<u8>) -> Result<(Seq<i8>, nat), ErrorKind> {
        match decode_byte_vec(input) {
            Ok((bytes, n)) => Ok((bytes_i8(bytes), n)),
            Err(e) => Err(e),
        }
    }

    fn deserialize_revisioned_vec(reader: &mut &[u8]) -> (res: Result<Vec<i8>, Error>) {
        let bytes = match deserialize_byte_vec(reader) {
            Ok(b) => b,
            Err(e) => return Err(e),
        };
        let mut out: Vec<i8> = Vec::new();
        let mut i: usize = 0;
        while i < bytes.len()
            invariant
                0 <= i <= bytes@.len(),
                out@ == bytes_i8(bytes@.take(i as int)),
            decreases bytes@.len() - i,
        {
            out.push(bytes[i] as i8);
            i += 1;
            assert(bytes_i8(bytes@.take(i as int)) == bytes_i8(bytes@.take(i - 1)).push(bytes@[i - 1] as i8));
        }
        assert(bytes@.take(bytes@.len() as int) == bytes@);
        assert(models(out@) == out@);
        Ok(out)
    }
}

impl RevisionedRoundTripVec for i8 {
    proof fn lemma_decode_encode_vec(vs: Seq<i8>, rest: Seq<u8>) {
        assert(models(vs) == vs);
        let bs = i8_bytes(vs);
        let l = spec_encode_len(vs.len());
        assert(l + bs + rest == l + (bs + rest));
        lemma_decode_encode_len(vs.len(), bs + rest);
        assert((l + (bs + rest)).subrange(l.len() as int, (l.len() + bs.len()) as int) == bs);
        assert forall|i: int| 0 <= i < vs.len() implies #[trigger] bytes_i8(bs)[i] == vs[i] by {
            let x = vs[i];
            assert((x as u8) as i8 == x) by (bit_vector);
        }
        assert(bytes_i8(bs) == vs);
    }
}

impl Revisioned for bool {
    type Model = bool;

    open spec fn model(&self) -> bool {
        *self
    }

    open spec fn spec_revision() -> u16 {
        1
    }

    fn revision() -> (r: u16) {
        1
    }
}

impl SerializeRevisioned for bool {
    /// One byte: 1 for `true`, 0 for `false`.
    open spec fn spec_encode(m: bool) -> Seq<u8> {
        seq![if m { 1u8 } else { 0u8 }]
    }

    fn serialize_revisioned(&self, writer: &mut Vec<u8>) -> (r: Result<(), Error>) {
        let v: u8 = if *self { 1 } else { 0 };
        writer.push(v);
        Ok(())
    }
}

impl DeserializeRevisioned for bool {
    /// One byte, which must be 0 or 1.
    open spec fn spec_decode(input: Seq<u8>) -> Result<(bool, nat), ErrorKind> {
        if input.len() < 1 {
            Err(ErrorKind::Io)
        } else if input[0] == 0 {
            Ok((false, 1))
        } else if input[0] == 1 {
            Ok((true, 1))
        } else {
            Err(ErrorKind::InvalidBoolValue(input[0]))
        }
    }

    fn deserialize_revisioned(reader: &mut &[u8]) -> (res: Result<bool, Error>) {
        let buffer = match read_buffer(reader, 1) {
            Ok(b) => b,
            Err(e) => return Err(e),
        };
        match buffer[0] {
            0 => Ok(false),
            1 => Ok(true),
            x => Err(Error::InvalidBoolValue(x)),
        }
    }
}

impl RevisionedRoundTrip for bool {
    proof fn lemma_decode_encode(v: bool, rest: Seq<u8>) {
    }
}

impl SerializeRevisionedVec for bool {
    /// Bit-packed: the length, then eight booleans to a byte.
    open spec fn spec_encode_vec(ms: Seq<bool>) -> Seq<u8> {
        encode_bool_vec(ms)
    }

    fn serialize_revisioned_vec(v: &Vec<bool>, writer: &mut Vec<u8>) -> (r: Result<(), Error>) {
        assert(models(v@) == v@);
        serialize_bool_vec(v, writer);
        Ok(())
    }
}

impl DeserializeRevisionedVec for bool {
    open spec fn spec_decode_vec(input: Seq<u8>) -> Result<(Seq<bool>, nat), ErrorKind> {
        decode_bool_vec(input)
    }

    fn deserialize_revisioned_vec(reader: &mut &[u8]) -> (res: Result<Vec<bool>, Error>) {
        let res = deserialize_bool_vec(reader);
        if let Ok(v) = &res {
            assert(models(v@) == v@);
        }
        res
    }
}

impl RevisionedRoundTripVec for bool {
    proof fn lemma_decode_encode_vec(vs: Seq<bool>, rest: Seq<u8>) {
        assert(models(vs) == vs);
        lemma_decode_encode_bool_vec(vs, rest);
    }
}

/// Decoding a strict prefix of the encoding of a 64-bit integer fails: the marker byte
/// announces more bytes than are there.
pub proof fn lemma_u64_prefixes_fail(v: u64)
    ensures
        crate::strict_prefixes_fail::<u64>(v),
{
    let e = spec_encode_u64(v);
    lemma_encoded_u64_size(v);
    assert forall|k: int| 0 <= k < e.len() implies (#[trigger] spec_decode_u64(e.take(k))) is Err by {
        if k > 0 {
            assert(e.take(k)[0] == e[0]);
        }
    }
}

} // verus!
