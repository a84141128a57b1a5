use vstd::prelude::*;

use crate::implementations::le::{
    le_u128, le_u16, le_u32, le_u64, lemma_u128_le_digits, lemma_u128_le_value,
    lemma_u16_le_digits, lemma_u16_le_value, lemma_u32_le_digits, lemma_u32_le_value,
    lemma_u64_le_digits, lemma_u64_le_value,
};
use crate::implementations::primitives::{lemma_decode_encode_u128, lemma_decode_encode_u64};
use crate::implementations::specialised::{lemma_concat_le, FixedLe};
use crate::implementations::vecs::spec_encode_len;
use crate::{DeserializeRevisioned, ErrorKind, SerializeRevisioned, SerializeRevisionedVec};

verus! {

/// The zigzag image of an integer: a non-negative `v` maps to `2v`, a negative one to
/// `-2v - 1`, so that numbers near zero get small images whatever their sign.
pub open spec fn zigzag(v: int) -> int {
    if v >= 0 {
        2 * v
    } else {
        -2 * v - 1
    }
}

/// The integer whose zigzag image is `z`: even images are non-negative numbers, odd ones
/// negative.
pub open spec fn unzigzag(z: int) -> int {
    if z % 2 == 0 {
        z / 2
    } else {
        -((z + 1) / 2)
    }
}

/// A specialised vector stores a `u16` as its 2 bytes, least significant first, and
/// reads 2 bytes back as the number they are the base-256 digits of.
pub proof fn lemma_u16_fixed_bytes(x: u16, b: Seq<u8>)
    ensures
        <u16 as FixedLe>::spec_to_le(x) == le_u16(x),
        b.len() == 2 ==> <u16 as FixedLe>::spec_from_le(b) == b[0] + b[1] * 0x100,
{
    lemma_u16_le_digits(x);
    if b.len() == 2 {
        lemma_u16_le_value(b);
    }
}

/// A specialised vector of `u16` is its length, then each number's 2 little-endian
/// bytes in turn.
pub proof fn lemma_u16_vec_bytes(ms: Seq<u16>)
    ensures
        ({
            let e = <u16 as SerializeRevisionedVec>::spec_encode_vec(ms);
            let l = spec_encode_len(ms.len());
            &&& e.len() == l.len() + 2 * ms.len()
            &&& e.take(l.len() as int) == l
            &&& forall|i: int|
                0 <= i < ms.len() ==> #[trigger] e.subrange(l.len() + 2 * i, l.len() + 2 * i + 2)
                    == le_u16(ms[i])
        }),
{
    let e = <u16 as SerializeRevisionedVec>::spec_encode_vec(ms);
    let l = spec_encode_len(ms.len());
    let c = crate::implementations::specialised::concat_le(ms);
    assert(e == l + c);
    lemma_concat_le(ms);
    assert(<u16 as FixedLe>::spec_width() == 2);
    assert forall|i: int| 0 <= i < ms.len() implies #[trigger] e.subrange(l.len() + 2 * i, l.len() + 2 * i + 2)
        == le_u16(ms[i]) by {
        assert(2 * i + 2 <= 2 * ms.len()) by (nonlinear_arith)
            requires 0 <= i < ms.len();
        assert(e.subrange(l.len() + 2 * i, l.len() + 2 * i + 2) == c.subrange(2 * i, 2 * i + 2));
        lemma_u16_fixed_bytes(ms[i], Seq::empty());
    }
    assert(e.take(l.len() as int) == l);
}

/// A specialised vector stores a `u32` as its 4 bytes, least significant first, and
/// reads 4 bytes back as the number they are the base-256 digits of.
pub proof fn lemma_u32_fixed_bytes(x: u32, b: Seq<u8>)
    ensures
        <u32 as FixedLe>::spec_to_le(x) == le_u32(x),
        b.len() == 4 ==> <u32 as FixedLe>::spec_from_le(b) == b[0] + b[1] * 0x100 + b[2] * 0x10000 + b[3] * 0x1000000,
{
    lemma_u32_le_digits(x);
    if b.len() == 4 {
        lemma_u32_le_value(b);
    }
}

/// A specialised vector of `u32` is its length, then each number's 4 little-endian
/// bytes in turn.
pub proof fn lemma_u32_vec_bytes(ms: Seq<u32>)
    ensures
        ({
            let e = <u32 as SerializeRevisionedVec>::spec_encode_vec(ms);
            let l = spec_encode_len(ms.len());
            &&& e.len() == l.len() + 4 * ms.len()
            &&& e.take(l.len() as int) == l
            &&& forall|i: int|
                0 <= i < ms.len() ==> #[trigger] e.subrange(l.len() + 4 * i, l.len() + 4 * i + 4)
                    == le_u32(ms[i])
        }),
{
    let e = <u32 as SerializeRevisionedVec>::spec_encode_vec(ms);
    let l = spec_encode_len(ms.len());
    let c = crate::implementations::specialised::concat_le(ms);
    assert(e == l + c);
    lemma_concat_le(ms);
    assert(<u32 as FixedLe>::spec_width() == 4);
    assert forall|i: int| 0 <= i < ms.len() implies #[trigger] e.subrange(l.len() + 4 * i, l.len() + 4 * i + 4)
        == le_u32(ms[i]) by {
        assert(4 * i + 4 <= 4 * ms.len()) by (nonlinear_arith)
            requires 0 <= i < ms.len();
        assert(e.subrange(l.len() + 4 * i, l.len() + 4 * i + 4) == c.subrange(4 * i, 4 * i + 4));
        lemma_u32_fixed_bytes(ms[i], Seq::empty());
    }
    assert(e.take(l.len() as int) == l);
}

/// A specialised vector stores a `u64` as its 8 bytes, least significant first, and
/// reads 8 bytes back as the number they are the base-256 digits of.
pub proof fn lemma_u64_fixed_bytes(x: u64, b: Seq<u8>)
    ensures
        <u64 as FixedLe>::spec_to_le(x) == le_u64(x),
        b.len() == 8 ==> <u64 as FixedLe>::spec_from_le(b) == b[0] + b[1] * 0x100 + b[2] * 0x10000 + b[3] * 0x1000000 + b[4] * 0x100000000 + b[5] * 0x10000000000 + b[6] * 0x1000000000000 + b[7] * 0x100000000000000,
{
    lemma_u64_le_digits(x);
    if b.len() == 8 {
        lemma_u64_le_value(b);
    }
}

/// A specialised vector of `u64` is its length, then each number's 8 little-endian
/// bytes in turn.
pub proof fn lemma_u64_vec_bytes(ms: Seq<u64>)
    ensures
        ({
            let e = <u64 as SerializeRevisionedVec>::spec_encode_vec(ms);
            let l = spec_encode_len(ms.len());
            &&& e.len() == l.len() + 8 * ms.len()
            &&& e.take(l.len() as int) == l
            &&& forall|i: int|
                0 <= i < ms.len() ==> #[trigger] e.subrange(l.len() + 8 * i, l.len() + 8 * i + 8)
                    == le_u64(ms[i])
        }),
{
    let e = <u64 as SerializeRevisionedVec>::spec_encode_vec(ms);
    let l = spec_encode_len(ms.len());
    let c = crate::implementations::specialised::concat_le(ms);
    assert(e == l + c);
    lemma_concat_le(ms);
    assert(<u64 as FixedLe>::spec_width() == 8);
    assert forall|i: int| 0 <= i < ms.len() implies #[trigger] e.subrange(l.len() + 8 * i, l.len() + 8 * i + 8)
        == le_u64(ms[i]) by {
        assert(8 * i + 8 <= 8 * ms.len()) by (nonlinear_arith)
            requires 0 <= i < ms.len();
        assert(e.subrange(l.len() + 8 * i, l.len() + 8 * i + 8) == c.subrange(8 * i, 8 * i + 8));
        lemma_u64_fixed_bytes(ms[i], Seq::empty());
    }
    assert(e.take(l.len() as int) == l);
}

/// A specialised vector stores a `u128` as its 16 bytes, least significant first, and
/// reads 16 bytes back as the number they are the base-256 digits of.
pub proof fn lemma_u128_fixed_bytes(x: u128, b: Seq<u8>)
    ensures
        <u128 as FixedLe>::spec_to_le(x) == le_u128(x),
        b.len() == 16 ==> <u128 as FixedLe>::spec_from_le(b) == b[0] + b[1] * 0x100 + b[2] * 0x10000 + b[3] * 0x1000000 + b[4] * 0x100000000 + b[5] * 0x10000000000 + b[6] * 0x1000000000000 + b[7] * 0x100000000000000 + b[8] * 0x10000000000000000 + b[9] * 0x1000000000000000000 + b[10] * 0x100000000000000000000 + b[11] * 0x10000000000000000000000 + b[12] * 0x1000000000000000000000000 + b[13] * 0x100000000000000000000000000 + b[14] * 0x10000000000000000000000000000 + b[15] * 0x1000000000000000000000000000000,
{
    lemma_u128_le_digits(x);
    if b.len() == 16 {
        lemma_u128_le_value(b);
    }
}

/// A specialised vector of `u128` is its length, then each number's 16 little-endian
/// bytes in turn.
pub proof fn lemma_u128_vec_bytes(ms: Seq<u128>)
    ensures
        ({
            let e = <u128 as SerializeRevisionedVec>::spec_encode_vec(ms);
            let l = spec_encode_len(ms.len());
            &&& e.len() == l.len() + 16 * ms.len()
            &&& e.take(l.len() as int) == l
            &&& forall|i: int|
                0 <= i < ms.len() ==> #[trigger] e.subrange(l.len() + 16 * i, l.len() + 16 * i + 16)
                    == le_u128(ms[i])
        }),
{
    let e = <u128 as SerializeRevisionedVec>::spec_encode_vec(ms);
    let l = spec_encode_len(ms.len());
    let c = crate::implementations::specialised::concat_le(ms);
    assert(e == l + c);
    lemma_concat_le(ms);
    assert(<u128 as FixedLe>::spec_width() == 16);
    assert forall|i: int| 0 <= i < ms.len() implies #[trigger] e.subrange(l.len() + 16 * i, l.len() + 16 * i + 16)
        == le_u128(ms[i]) by {
        assert(16 * i + 16 <= 16 * ms.len()) by (nonlinear_arith)
            requires 0 <= i < ms.len();
        assert(e.subrange(l.len() + 16 * i, l.len() + 16 * i + 16) == c.subrange(16 * i, 16 * i + 16));
        lemma_u128_fixed_bytes(ms[i], Seq::empty());
    }
    assert(e.take(l.len() as int) == l);
}

/// A specialised vector stores a `i16` as its two's-complement bit pattern's 2 bytes, least significant first, and
/// reads 2 bytes back as the number they are the base-256 digits of.
pub proof fn lemma_i16_fixed_bytes(x: i16, b: Seq<u8>)
    ensures
        <i16 as FixedLe>::spec_to_le(x) == le_u16(x as u16),
        b.len() == 2 ==> <i16 as FixedLe>::spec_from_le(b) as u16 == b[0] + b[1] * 0x100,
{
    lemma_u16_le_digits(x as u16);
    if b.len() == 2 {
        lemma_u16_le_value(b);
        let y = crate::implementations::le::spec_u16_from_le_bytes(b);
        assert((y as i16) as u16 == y) by (bit_vector);
    }
}

/// A specialised vector of `i16` is its length, then each number's 2 little-endian
/// bytes in turn.
pub proof fn lemma_i16_vec_bytes(ms: Seq<i16>)
    ensures
        ({
            let e = <i16 as SerializeRevisionedVec>::spec_encode_vec(ms);
            let l = spec_encode_len(ms.len());
            &&& e.len() == l.len() + 2 * ms.len()
            &&& e.take(l.len() as int) == l
            &&& forall|i: int|
                0 <= i < ms.len() ==> #[trigger] e.subrange(l.len() + 2 * i, l.len() + 2 * i + 2)
                    == le_u16(ms[i] as u16)
        }),
{
    let e = <i16 as SerializeRevisionedVec>::spec_encode_vec(ms);
    let l = spec_encode_len(ms.len());
    let c = crate::implementations::specialised::concat_le(ms);
    assert(e == l + c);
    lemma_concat_le(ms);
    assert(<i16 as FixedLe>::spec_width() == 2);
    assert forall|i: int| 0 <= i < ms.len() implies #[trigger] e.subrange(l.len() + 2 * i, l.len() + 2 * i + 2)
        == le_u16(ms[i] as u16) by {
        assert(2 * i + 2 <= 2 * ms.len()) by (nonlinear_arith)
            requires 0 <= i < ms.len();
        assert(e.subrange(l.len() + 2 * i, l.len() + 2 * i + 2) == c.subrange(2 * i, 2 * i + 2));
        lemma_i16_fixed_bytes(ms[i], Seq::empty());
    }
    assert(e.take(l.len() as int) == l);
}

/// A specialised vector stores a `i32` as its two's-complement bit pattern's 4 bytes, least significant first, and
/// reads 4 bytes back as the number they are the base-256 digits of.
pub proof fn lemma_i32_fixed_bytes(x: i32, b: Seq<u8>)
    ensures
        <i32 as FixedLe>::spec_to_le(x) == le_u32(x as u32),
        b.len() == 4 ==> <i32 as FixedLe>::spec_from_le(b) as u32 == b[0] + b[1] * 0x100 + b[2] * 0x10000 + b[3] * 0x1000000,
{
    lemma_u32_le_digits(x as u32);
    if b.len() == 4 {
        lemma_u32_le_value(b);
        let y = crate::implementations::le::spec_u32_from_le_bytes(b);
        assert((y as i32) as u32 == y) by (bit_vector);
    }
}

/// A specialised vector of `i32` is its length, then each number's 4 little-endian
/// bytes in turn.
pub proof fn lemma_i32_vec_bytes(ms: Seq<i32>)
    ensures
        ({
            let e = <i32 as SerializeRevisionedVec>::spec_encode_vec(ms);
            let l = spec_encode_len(ms.len());
            &&& e.len() == l.len() + 4 * ms.len()
            &&& e.take(l.len() as int) == l
            &&& forall|i: int|
                0 <= i < ms.len() ==> #[trigger] e.subrange(l.len() + 4 * i, l.len() + 4 * i + 4)
                    == le_u32(ms[i] as u32)
        }),
{
    let e = <i32 as SerializeRevisionedVec>::spec_encode_vec(ms);
    let l = spec_encode_len(ms.len());
    let c = crate::implementations::specialised::concat_le(ms);
    assert(e == l + c);
    lemma_concat_le(ms);
    assert(<i32 as FixedLe>::spec_width() == 4);
    assert forall|i: int| 0 <= i < ms.len() implies #[trigger] e.subrange(l.len() + 4 * i, l.len() + 4 * i + 4)
        == le_u32(ms[i] as u32) by {
        assert(4 * i + 4 <= 4 * ms.len()) by (nonlinear_arith)
            requires 0 <= i < ms.len();
        assert(e.subrange(l.len() + 4 * i, l.len() + 4 * i + 4) == c.subrange(4 * i, 4 * i + 4));
        lemma_i32_fixed_bytes(ms[i], Seq::empty());
    }
    assert(e.take(l.len() as int) == l);
}

/// A specialised vector stores a `i64` as its two's-complement bit pattern's 8 bytes, least significant first, and
/// reads 8 bytes back as the number they are the base-256 digits of.
pub proof fn lemma_i64_fixed_bytes(x: i64, b: Seq<u8>)
    ensures
        <i64 as FixedLe>::spec_to_le(x) == le_u64(x as u64),
        b.len() == 8 ==> <i64 as FixedLe>::spec_from_le(b) as u64 == b[0] + b[1] * 0x100 + b[2] * 0x10000 + b[3] * 0x1000000 + b[4] * 0x100000000 + b[5] * 0x10000000000 + b[6] * 0x1000000000000 + b[7] * 0x100000000000000,
{
    lemma_u64_le_digits(x as u64);
    if b.len() == 8 {
        lemma_u64_le_value(b);
        let y = crate::implementations::le::spec_u64_from_le_bytes(b);
        assert((y as i64) as u64 == y) by (bit_vector);
    }
}

/// A specialised vector of `i64` is its length, then each number's 8 little-endian
/// bytes in turn.
pub proof fn lemma_i64_vec_bytes(ms: Seq<i64>)
    ensures
        ({
            let e = <i64 as SerializeRevisionedVec>::spec_encode_vec(ms);
            let l = spec_encode_len(ms.len());
            &&& e.len() == l.len() + 8 * ms.len()
            &&& e.take(l.len() as int) == l
            &&& forall|i: int|
                0 <= i < ms.len() ==> #[trigger] e.subrange(l.len() + 8 * i, l.len() + 8 * i + 8)
                    == le_u64(ms[i] as u64)
        }),
{
    let e = <i64 as SerializeRevisionedVec>::spec_encode_vec(ms);
    let l = spec_encode_len(ms.len());
    let c = crate::implementations::specialised::concat_le(ms);
    assert(e == l + c);
    lemma_concat_le(ms);
    assert(<i64 as FixedLe>::spec_width() == 8);
    assert forall|i: int| 0 <= i < ms.len() implies #[trigger] e.subrange(l.len() + 8 * i, l.len() + 8 * i + 8)
        == le_u64(ms[i] as u64) by {
        assert(8 * i + 8 <= 8 * ms.len()) by (nonlinear_arith)
            requires 0 <= i < ms.len();
        assert(e.subrange(l.len() + 8 * i, l.len() + 8 * i + 8) == c.subrange(8 * i, 8 * i + 8));
        lemma_i64_fixed_bytes(ms[i], Seq::empty());
    }
    assert(e.take(l.len() as int) == l);
}

/// A specialised vector stores a `i128` as its two's-complement bit pattern's 16 bytes, least significant first, and
/// reads 16 bytes back as the number they are the base-256 digits of.
pub proof fn lemma_i128_fixed_bytes(x: i128, b: Seq<u8>)
    ensures
        <i128 as FixedLe>::spec_to_le(x) == le_u128(x as u128),
        b.len() == 16 ==> <i128 as FixedLe>::spec_from_le(b) as u128 == b[0] + b[1] * 0x100 + b[2] * 0x10000 + b[3] * 0x1000000 + b[4] * 0x100000000 + b[5] * 0x10000000000 + b[6] * 0x1000000000000 + b[7] * 0x100000000000000 + b[8] * 0x10000000000000000 + b[9] * 0x1000000000000000000 + b[10] * 0x100000000000000000000 + b[11] * 0x10000000000000000000000 + b[12] * 0x1000000000000000000000000 + b[13] * 0x100000000000000000000000000 + b[14] * 0x10000000000000000000000000000 + b[15] * 0x1000000000000000000000000000000,
{
    lemma_u128_le_digits(x as u128);
    if b.len() == 16 {
        lemma_u128_le_value(b);
        let y = crate::implementations::le::spec_u128_from_le_bytes(b);
        assert((y as i128) as u128 == y) by (bit_vector);
    }
}

/// A specialised vector of `i128` is its length, then each number's 16 little-endian
/// bytes in turn.
pub proof fn lemma_i128_vec_bytes(ms: Seq<i128>)
    ensures
        ({
            let e = <i128 as SerializeRevisionedVec>::spec_encode_vec(ms);
            let l = spec_encode_len(ms.len());
            &&& e.len() == l.len() + 16 * ms.len()
            &&& e.take(l.len() as int) == l
            &&& forall|i: int|
                0 <= i < ms.len() ==> #[trigger] e.subrange(l.len() + 16 * i, l.len() + 16 * i + 16)
                    == le_u128(ms[i] as u128)
        }),
{
    let e = <i128 as SerializeRevisionedVec>::spec_encode_vec(ms);
    let l = spec_encode_len(ms.len());
    let c = crate::implementations::specialised::concat_le(ms);
    assert(e == l + c);
    lemma_concat_le(ms);
    assert(<i128 as FixedLe>::spec_width() == 16);
    assert forall|i: int| 0 <= i < ms.len() implies #[trigger] e.subrange(l.len() + 16 * i, l.len() + 16 * i + 16)
        == le_u128(ms[i] as u128) by {
        assert(16 * i + 16 <= 16 * ms.len()) by (nonlinear_arith)
            requires 0 <= i < ms.len();
        assert(e.subrange(l.len() + 16 * i, l.len() + 16 * i + 16) == c.subrange(16 * i, 16 * i + 16));
        lemma_i128_fixed_bytes(ms[i], Seq::empty());
    }
    assert(e.take(l.len() as int) == l);
}

/// The variable-length encoding of a 64-bit integer: a value below 251 is the one byte
/// itself; a larger one is the marker 251, 252 or 253 followed by the value's 2, 4 or 8
/// base-256 digits, least significant first, the fewest that hold it.
pub proof fn lemma_u64_varint_bytes(x: u64)
    ensures
        <u64 as SerializeRevisioned>::spec_encode(x) == if x < 251 {
            seq![x as u8]
        } else if x <= 0xffff {
            seq![251u8] + le_u16(x as u16)
        } else if x <= 0xffff_ffff {
            seq![252u8] + le_u32(x as u32)
        } else {
            seq![253u8] + le_u64(x)
        },
{
    lemma_u16_le_digits(x as u16);
    lemma_u32_le_digits(x as u32);
    lemma_u64_le_digits(x);
}

/// The variable-length encoding of a 128-bit integer: as for 64 bits, with the marker 254
/// followed by the value's 16 base-256 digits for values that need more than 64 bits.
pub proof fn lemma_u128_varint_bytes(x: u128)
    ensures
        <u128 as SerializeRevisioned>::spec_encode(x) == if x < 251 {
            seq![x as u8]
        } else if x <= 0xffff {
            seq![251u8] + le_u16(x as u16)
        } else if x <= 0xffff_ffff {
            seq![252u8] + le_u32(x as u32)
        } else if x <= 0xffff_ffff_ffff_ffff {
            seq![253u8] + le_u64(x as u64)
        } else {
            seq![254u8] + le_u128(x)
        },
{
    lemma_u16_le_digits(x as u16);
    lemma_u32_le_digits(x as u32);
    lemma_u64_le_digits(x as u64);
    lemma_u128_le_digits(x);
}

/// A `u16` is written as the 64-bit integer of the same value, and what is read where a
/// 64-bit integer `z` was written is `z` when it fits, an integer overflow otherwise.
pub proof fn lemma_u16_as_u64(v: u16, z: u64, rest: Seq<u8>)
    ensures
        <u16 as SerializeRevisioned>::spec_encode(v) == <u64 as SerializeRevisioned>::spec_encode(
            v as u64,
        ),
        <u16 as DeserializeRevisioned>::spec_decode(
            <u64 as SerializeRevisioned>::spec_encode(z) + rest,
        ) == if z <= u16::MAX {
            Ok::<(u16, nat), ErrorKind>(
                (z as u16, <u64 as SerializeRevisioned>::spec_encode(z).len()),
            )
        } else {
            Err(ErrorKind::IntegerOverflow)
        },
{
    lemma_decode_encode_u64(z, rest);
}

/// A `u32` is written as the 64-bit integer of the same value, and what is read where a
/// 64-bit integer `z` was written is `z` when it fits, an integer overflow otherwise.
pub proof fn lemma_u32_as_u64(v: u32, z: u64, rest: Seq<u8>)
    ensures
        <u32 as SerializeRevisioned>::spec_encode(v) == <u64 as SerializeRevisioned>::spec_encode(
            v as u64,
        ),
        <u32 as DeserializeRevisioned>::spec_decode(
            <u64 as SerializeRevisioned>::spec_encode(z) + rest,
        ) == if z <= u32::MAX {
            Ok::<(u32, nat), ErrorKind>(
                (z as u32, <u64 as SerializeRevisioned>::spec_encode(z).len()),
            )
        } else {
            Err(ErrorKind::IntegerOverflow)
        },
{
    lemma_decode_encode_u64(z, rest);
}

/// A `usize` is written as the 64-bit integer of the same value, and what is read where a
/// 64-bit integer `z` was written is `z` taken as a `usize`.
pub proof fn lemma_usize_as_u64(v: usize, z: u64, rest: Seq<u8>)
    ensures
        <usize as SerializeRevisioned>::spec_encode(v) == <u64 as SerializeRevisioned>::spec_encode(
            v as u64,
        ),
        <usize as DeserializeRevisioned>::spec_decode(
            <u64 as SerializeRevisioned>::spec_encode(z) + rest,
        ) == Ok::<(usize, nat), ErrorKind>(
            (z as usize, <u64 as SerializeRevisioned>::spec_encode(z).len()),
        ),
{
    lemma_decode_encode_u64(z, rest);
}

/// A `i16` is written as the 64-bit integer that is its zigzag image, and what is read
/// where a 64-bit integer `z` was written is the number whose zigzag image `z` is, when it
/// fits, an integer overflow otherwise.
pub proof fn lemma_i16_zigzag(v: i16, z: u64, rest: Seq<u8>)
    ensures
        <i16 as SerializeRevisioned>::spec_encode(v) == <u64 as SerializeRevisioned>::spec_encode(
            zigzag(v as int) as u64,
        ),
        <i16 as DeserializeRevisioned>::spec_decode(
            <u64 as SerializeRevisioned>::spec_encode(z) + rest,
        ) == if i16::MIN <= unzigzag(z as int) <= i16::MAX {
            Ok::<(i16, nat), ErrorKind>(
                (unzigzag(z as int) as i16, <u64 as SerializeRevisioned>::spec_encode(z).len()),
            )
        } else {
            Err(ErrorKind::IntegerOverflow)
        },
{
    lemma_decode_encode_u64(z, rest);
}

/// A `i32` is written as the 64-bit integer that is its zigzag image, and what is read
/// where a 64-bit integer `z` was written is the number whose zigzag image `z` is, when it
/// fits, an integer overflow otherwise.
pub proof fn lemma_i32_zigzag(v: i32, z: u64, rest: Seq<u8>)
    ensures
        <i32 as SerializeRevisioned>::spec_encode(v) == <u64 as SerializeRevisioned>::spec_encode(
            zigzag(v as int) as u64,
        ),
        <i32 as DeserializeRevisioned>::spec_decode(
            <u64 as SerializeRevisioned>::spec_encode(z) + rest,
        ) == if i32::MIN <= unzigzag(z as int) <= i32::MAX {
            Ok::<(i32, nat), ErrorKind>(
                (unzigzag(z as int) as i32, <u64 as SerializeRevisioned>::spec_encode(z).len()),
            )
        } else {
            Err(ErrorKind::IntegerOverflow)
        },
{
    lemma_decode_encode_u64(z, rest);
}

/// A `i64` is written as the 64-bit integer that is its zigzag image, and what is read
/// where a 64-bit integer `z` was written is the number whose zigzag image `z` is.
pub proof fn lemma_i64_zigzag(v: i64, z: u64, rest: Seq<u8>)
    ensures
        <i64 as SerializeRevisioned>::spec_encode(v) == <u64 as SerializeRevisioned>::spec_encode(
            zigzag(v as int) as u64,
        ),
        <i64 as DeserializeRevisioned>::spec_decode(
            <u64 as SerializeRevisioned>::spec_encode(z) + rest,
        ) == Ok::<(i64, nat), ErrorKind>(
            (unzigzag(z as int) as i64, <u64 as SerializeRevisioned>::spec_encode(z).len()),
        ),
{
    lemma_decode_encode_u64(z, rest);
}

/// A `isize` is written as the 64-bit integer that is its zigzag image, and what is read
/// where a 64-bit integer `z` was written is the number whose zigzag image `z` is.
pub proof fn lemma_isize_zigzag(v: isize, z: u64, rest: Seq<u8>)
    ensures
        <isize as SerializeRevisioned>::spec_encode(v) == <u64 as SerializeRevisioned>::spec_encode(
            zigzag(v as int) as u64,
        ),
        <isize as DeserializeRevisioned>::spec_decode(
            <u64 as SerializeRevisioned>::spec_encode(z) + rest,
        ) == Ok::<(isize, nat), ErrorKind>(
            (unzigzag(z as int) as isize, <u64 as SerializeRevisioned>::spec_encode(z).len()),
        ),
{
    lemma_decode_encode_u64(z, rest);
}

/// An `i128` is written as the 128-bit integer that is its zigzag image, and what is read
/// where a 128-bit integer `z` was written is the number whose zigzag image `z` is.
pub proof fn lemma_i128_zigzag(v: i128, z: u128, rest: Seq<u8>)
    ensures
        <i128 as SerializeRevisioned>::spec_encode(v) == <u128 as SerializeRevisioned>::spec_encode(
            zigzag(v as int) as u128,
        ),
        <i128 as DeserializeRevisioned>::spec_decode(
            <u128 as SerializeRevisioned>::spec_encode(z) + rest,
        ) == Ok::<(i128, nat), ErrorKind>(
            (unzigzag(z as int) as i128, <u128 as SerializeRevisioned>::spec_encode(z).len()),
        ),
{
    lemma_decode_encode_u128(z, rest);
}

/// A byte is written as itself, an `i8` as its two's-complement byte, and a boolean as 1
/// or 0; reading one byte gives it back, the `i8` whose two's-complement byte it is, or
/// the boolean it stands for (any other byte is no boolean).
pub proof fn lemma_byte_values(a: u8, v: i8, t: bool, b: u8, rest: Seq<u8>)
    ensures
        <u8 as SerializeRevisioned>::spec_encode(a) == seq![a],
        <i8 as SerializeRevisioned>::spec_encode(v) == seq![
            (if v >= 0 {
                v as int
            } else {
                v + 256
            }) as u8,
        ],
        <bool as SerializeRevisioned>::spec_encode(t) == seq![if t { 1u8 } else { 0u8 }],
        <u8 as DeserializeRevisioned>::spec_decode(seq![b] + rest) == Ok::<(u8, nat), ErrorKind>(
            (b, 1),
        ),
        <i8 as DeserializeRevisioned>::spec_decode(seq![b] + rest) == Ok::<(i8, nat), ErrorKind>(
            (
                (if b < 128 {
                    b as int
                } else {
                    b - 256
                }) as i8,
                1,
            ),
        ),
        <bool as DeserializeRevisioned>::spec_decode(seq![b] + rest) == if b == 0 {
            Ok::<(bool, nat), ErrorKind>((false, 1))
        } else if b == 1 {
            Ok::<(bool, nat), ErrorKind>((true, 1))
        } else {
            Err(ErrorKind::InvalidBoolValue(b))
        },
{
    assert((seq![b] + rest)[0] == b);
    assert((if v >= 0 { v as int } else { v + 256 }) as u8 == v as u8) by (bit_vector);
    assert((if b < 128 { b as int } else { b - 256 }) as i8 == b as i8) by (bit_vector);
}

/// Reading a variable-length 64-bit integer: a first byte below 251 is the value; 251, 252
/// and 253 announce 2, 4 and 8 base-256 digits, least significant first; 254 announces a
/// value too wide for 64 bits and 255 is no marker; running out of bytes is an I/O error.
pub proof fn lemma_u64_varint_decode(input: Seq<u8>)
    ensures
        <u64 as DeserializeRevisioned>::spec_decode(input) == if input.len() < 1 {
            Err(ErrorKind::Io)
        } else if input[0] < 251 {
            Ok::<(u64, nat), ErrorKind>((input[0] as u64, 1))
        } else if input[0] == 251 {
            if input.len() < 3 {
                Err(ErrorKind::Io)
            } else {
                Ok((((input[1] + input[2] * 0x100) as u64), 3))
            }
        } else if input[0] == 252 {
            if input.len() < 5 {
                Err(ErrorKind::Io)
            } else {
                Ok((((input[1] + input[2] * 0x100 + input[3] * 0x10000 + input[4] * 0x1000000) as u64), 5))
            }
        } else if input[0] == 253 {
            if input.len() < 9 {
                Err(ErrorKind::Io)
            } else {
                Ok((((input[1] + input[2] * 0x100 + input[3] * 0x10000 + input[4] * 0x1000000 + input[5] * 0x100000000 + input[6] * 0x10000000000 + input[7] * 0x1000000000000 + input[8] * 0x100000000000000) as u64), 9))
            }
        } else if input[0] == 254 {
            Err(ErrorKind::IntegerOverflow)
        } else {
            Err(ErrorKind::InvalidIntegerEncoding)
        },
{
    if input.len() >= 3 {
        lemma_u16_le_value(input.subrange(1, 3));
    }
    if input.len() >= 5 {
        lemma_u32_le_value(input.subrange(1, 5));
    }
    if input.len() >= 9 {
        lemma_u64_le_value(input.subrange(1, 9));
    }
}

/// Reading a variable-length 128-bit integer: as for 64 bits, with 254 announcing 16
/// base-256 digits.
pub proof fn lemma_u128_varint_decode(input: Seq<u8>)
    ensures
        <u128 as DeserializeRevisioned>::spec_decode(input) == if input.len() < 1 {
            Err(ErrorKind::Io)
        } else if input[0] < 251 {
            Ok::<(u128, nat), ErrorKind>((input[0] as u128, 1))
        } else if input[0] == 251 {
            if input.len() < 3 {
                Err(ErrorKind::Io)
            } else {
                Ok((((input[1] + input[2] * 0x100) as u128), 3))
            }
        } else if input[0] == 252 {
            if input.len() < 5 {
                Err(ErrorKind::Io)
            } else {
                Ok((((input[1] + input[2] * 0x100 + input[3] * 0x10000 + input[4] * 0x1000000) as u128), 5))
            }
        } else if input[0] == 253 {
            if input.len() < 9 {
                Err(ErrorKind::Io)
            } else {
                Ok((((input[1] + input[2] * 0x100 + input[3] * 0x10000 + input[4] * 0x1000000 + input[5] * 0x100000000 + input[6] * 0x10000000000 + input[7] * 0x1000000000000 + input[8] * 0x100000000000000) as u128), 9))
            }
        } else if input[0] == 254 {
            if input.len() < 17 {
                Err(ErrorKind::Io)
            } else {
                Ok((((input[1] + input[2] * 0x100 + input[3] * 0x10000 + input[4] * 0x1000000 + input[5] * 0x100000000 + input[6] * 0x10000000000 + input[7] * 0x1000000000000 + input[8] * 0x100000000000000 + input[9] * 0x10000000000000000 + input[10] * 0x1000000000000000000 + input[11] * 0x100000000000000000000 + input[12] * 0x10000000000000000000000 + input[13] * 0x1000000000000000000000000 + input[14] * 0x100000000000000000000000000 + input[15] * 0x10000000000000000000000000000 + input[16] * 0x1000000000000000000000000000000) as u128), 17))
            }
        } else {
            Err(ErrorKind::InvalidIntegerEncoding)
        },
{
    if input.len() >= 3 {
        lemma_u16_le_value(input.subrange(1, 3));
    }
    if input.len() >= 5 {
        lemma_u32_le_value(input.subrange(1, 5));
    }
    if input.len() >= 9 {
        lemma_u64_le_value(input.subrange(1, 9));
    }
    if input.len() >= 17 {
        lemma_u128_le_value(input.subrange(1, 17));
    }
}

} // verus!
