use vstd::prelude::*;
use crate::implementations::le::{
    lemma_auto_spec_u128_to_from_le_bytes, lemma_auto_spec_u16_to_from_le_bytes, lemma_auto_spec_u32_to_from_le_bytes, lemma_auto_spec_u64_to_from_le_bytes, spec_u128_from_le_bytes, spec_u128_to_le_bytes, spec_u16_from_le_bytes, spec_u16_to_le_bytes, spec_u32_from_le_bytes, spec_u32_to_le_bytes, spec_u64_from_le_bytes, spec_u64_to_le_bytes, u128_from_le_bytes, u128_to_le_bytes, u16_from_le_bytes, u16_to_le_bytes, u32_from_le_bytes, u32_to_le_bytes, u64_from_le_bytes, u64_to_le_bytes,
};

use crate::implementations::primitives::{deserialize_byte_vec, read_buffer, write_all};
use crate::implementations::vecs::{
    decode_len, encode_len, lemma_decode_encode_len, serialize_bytes, spec_decode_len,
    spec_encode_len,
};
use crate::{
    DeserializeRevisioned, DeserializeRevisionedVec, Error, ErrorKind, Revisioned,
    SerializeRevisioned, SerializeRevisionedVec, decodes_as, models,
};

verus! {

pub trait SerializeRevisionedSpecialised: SerializeRevisioned {
    /// Serializes the value using specialised serialization: it writes the same bytes
    /// as [`SerializeRevisioned::serialize_revisioned`].
    fn serialize_revisioned_specialised(&self, writer: &mut Vec<u8>) -> (r: Result<(), Error>)
        ensures
            r is Ok,
            final(writer)@ == old(writer)@ + Self::spec_encode(self.model()),
    ;
}

pub trait DeserializeRevisionedSpecialised: DeserializeRevisioned {
    /// Deserializes a value using specialised deserialization: it reads as
    /// [`DeserializeRevisioned::deserialize_revisioned`] does.
    fn deserialize_revisioned_specialised(reader: &mut &[u8]) -> (res: Result<Self, Error>)
        ensures
            decodes_as::<Self>(Self::spec_decode(old(reader)@), res, old(reader)@, final(reader)@),
    ;
}

// ---------------------------------------------------------------------------
// Numbers with a fixed little-endian layout
// ---------------------------------------------------------------------------

/// Numbers that a specialised vector stores in their fixed-width little-endian layout.
pub trait FixedLe: Sized + Copy {
    spec fn spec_width() -> nat;

    spec fn spec_to_le(x: Self) -> Seq<u8>;

    spec fn spec_from_le(b: Seq<u8>) -> Self;

    /// The number of bytes of the layout.
    fn width() -> (w: usize)
        ensures
            w == Self::spec_width(),
            1 <= w <= 16,
    ;

    /// Appends the little-endian bytes of `x`.
    fn write_le(x: Self, writer: &mut Vec<u8>)
        ensures
            final(writer)@ == old(writer)@ + Self::spec_to_le(x),
    ;

    /// The number whose little-endian bytes are `b`.
    fn read_le(b: &[u8]) -> (x: Self)
        requires
            b@.len() == Self::spec_width(),
        ensures
            x == Self::spec_from_le(b@),
    ;

    /// The layout has the width, and reading it back gives the number.
    proof fn lemma_le(x: Self)
        ensures
            Self::spec_to_le(x).len() == Self::spec_width(),
            Self::spec_from_le(Self::spec_to_le(x)) == x,
    ;
}

/// The little-endian layouts of `xs`, one after the other.
pub open spec fn concat_le<T: FixedLe>(xs: Seq<T>) -> Seq<u8>
    decreases xs.len(),
{
    if xs.len() == 0 {
        Seq::empty()
    } else {
        concat_le(xs.drop_last()) + T::spec_to_le(xs.last())
    }
}

/// A specialised vector of fixed-width numbers: its length, then each number's
/// little-endian layout.
pub open spec fn encode_fixed_vec<T: FixedLe>(xs: Seq<T>) -> Seq<u8> {
    spec_encode_len(xs.len()) + concat_le(xs)
}

/// The numbers laid out one after the other in `bytes`.
pub open spec fn split_le<T: FixedLe>(bytes: Seq<u8>, len: nat) -> Seq<T> {
    Seq::new(
        len,
        |i: int|
            T::spec_from_le(
                bytes.subrange(i * T::spec_width(), i * T::spec_width() + T::spec_width()),
            ),
    )
}

/// Decoding a specialised vector of fixed-width numbers: the length, then as many
/// layouts. A byte count beyond `usize` is an integer overflow; too few bytes an I/O error.
pub open spec fn decode_fixed_vec<T: FixedLe>(input: Seq<u8>) -> Result<(Seq<T>, nat), ErrorKind> {
    match spec_decode_len(input) {
        Err(e) => Err(e),
        Ok((len, k)) => {
            let byte_len = len * T::spec_width();
            if byte_len > usize::MAX {
                Err(ErrorKind::IntegerOverflow)
            } else if input.len() - k < byte_len {
                Err(ErrorKind::Io)
            } else {
                Ok((split_le::<T>(input.subrange(k as int, (k + byte_len) as int), len), k + byte_len))
            }
        },
    }
}

/// Serializes a vector of fixed-width numbers in the specialised layout.
pub fn serialize_fixed_vec<T: FixedLe>(v: &Vec<T>, writer: &mut Vec<u8>)
    ensures
        final(writer)@ == old(writer)@ + encode_fixed_vec(v@),
{
    let len = v.len();
    encode_len(writer, len);
    let ghost start = writer@;
    let mut i: usize = 0;
    while i < len
        invariant
            0 <= i <= len,
            len == v@.len(),
            start == old(writer)@ + spec_encode_len(len as nat),
            writer@ == start + concat_le(v@.take(i as int)),
        decreases len - i,
    {
        T::write_le(v[i], writer);
        proof {
            assert(v@.take(i + 1).drop_last() == v@.take(i as int));
        }
        i += 1;
    }
    assert(v@.take(len as int) == v@);
}

/// Deserializes a vector of fixed-width numbers in the specialised layout.
pub fn deserialize_fixed_vec<T: FixedLe>(reader: &mut &[u8]) -> (res: Result<Vec<T>, Error>)
    ensures
        match res {
            Ok(v) => decode_fixed_vec::<T>(old(reader)@) matches Ok((xs, n)) && xs == v@ && n
                <= old(reader)@.len() && final(reader)@ == old(reader)@.skip(n as int),
            Err(e) => decode_fixed_vec::<T>(old(reader)@) == Err::<(Seq<T>, nat), ErrorKind>(
                e.kind(),
            ),
        },
{
    let ghost input = reader@;
    let len = match decode_len(reader) {
        Ok(len) => len,
        Err(e) => return Err(e),
    };
    let ghost k: nat = (input.len() - reader@.len()) as nat;
    let w = T::width();
    let byte_len = match len.checked_mul(w) {
        Some(b) => b,
        None => return Err(Error::IntegerOverflow),
    };
    let bytes = match read_buffer(reader, byte_len) {
        Ok(b) => b,
        Err(e) => return Err(e),
    };
    assert(bytes@ == input.subrange(k as int, (k + byte_len) as int));
    assert(reader@ == input.skip((k + byte_len) as int));
    let mut vec: Vec<T> = Vec::new();
    let mut i: usize = 0;
    let mut off: usize = 0;
    while i < len
        invariant
            0 <= i <= len,
            byte_len == len * w,
            w == T::spec_width(),
            1 <= w <= 16,
            off == i * w,
            bytes@.len() == byte_len,
            vec@ == split_le::<T>(bytes@, i as nat),
        decreases len - i,
    {
        assert(off + w <= byte_len) by (nonlinear_arith)
            requires
                off == i * w,
                i < len,
                byte_len == len * w,
        ;
        let x = T::read_le(&bytes[off..off + w]);
        vec.push(x);
        proof {
            assert(vec@ == split_le::<T>(bytes@, (i + 1) as nat));
        }
        i += 1;
        off += w;
        assert(off == i * w) by (nonlinear_arith)
            requires
                off == (i - 1) * w + w,
        ;
    }
    Ok(vec)
}

/// The layouts of `xs` take `w` bytes each, and the `i`-th takes bytes `i * w` to
/// `i * w + w`.
pub proof fn lemma_concat_le<T: FixedLe>(xs: Seq<T>)
    ensures
        concat_le(xs).len() == xs.len() * T::spec_width(),
        forall|i: int|
            0 <= i < xs.len() ==> concat_le(xs).subrange(
                i * T::spec_width(),
                i * T::spec_width() + T::spec_width(),
            ) == T::spec_to_le(#[trigger] xs[i]),
    decreases xs.len(),
{
    let w = T::spec_width();
    if xs.len() > 0 {
        let init = xs.drop_last();
        lemma_concat_le(init);
        T::lemma_le(xs.last());
        let ci = concat_le(init);
        let c = concat_le(xs);
        assert(c == ci + T::spec_to_le(xs.last()));
        assert(c.len() == xs.len() * w) by (nonlinear_arith)
            requires
                c.len() == ci.len() + w,
                ci.len() == init.len() * w,
                xs.len() == init.len() + 1,
        ;
        assert forall|i: int| 0 <= i < xs.len() implies c.subrange(i * w, i * w + w)
            == T::spec_to_le(#[trigger] xs[i]) by {
            if i < init.len() {
                assert(i * w + w <= init.len() * w) by (nonlinear_arith)
                    requires
                        i < init.len(),
                        0 <= i,
                ;
                assert(0 <= i * w) by (nonlinear_arith)
                    requires
                        0 <= i,
                        0 <= w,
                ;
                assert(c.subrange(i * w, i * w + w) == ci.subrange(i * w, i * w + w));
                assert(init[i] == xs[i]);
            } else {
                assert(i * w == init.len() * w);
                assert(c.subrange(i * w, i * w + w) == T::spec_to_le(xs.last()));
            }
        }
    }
}

/// Decoding the specialised layout of a vector of fixed-width numbers gives them back.
pub proof fn lemma_decode_encode_fixed_vec<T: FixedLe>(xs: Seq<T>, rest: Seq<u8>)
    requires
        xs.len() <= usize::MAX,
        encode_fixed_vec(xs).len() <= usize::MAX,
    ensures
        decode_fixed_vec::<T>(encode_fixed_vec(xs) + rest) == Ok::<(Seq<T>, nat), ErrorKind>(
            (xs, encode_fixed_vec(xs).len()),
        ),
{
    let len_bytes = spec_encode_len(xs.len());
    let body = concat_le(xs);
    let input = encode_fixed_vec(xs) + rest;
    assert(input == len_bytes + (body + rest));
    lemma_decode_encode_len(xs.len(), body + rest);
    lemma_concat_le(xs);
    let k = len_bytes.len();
    assert(input.subrange(k as int, (k + body.len()) as int) == body);
    let ys = split_le::<T>(body, xs.len());
    assert forall|i: int| 0 <= i < xs.len() implies ys[i] == xs[i] by {
        T::lemma_le(xs[i]);
    }
    assert(ys == xs);
}

// ---------------------------------------------------------------------------
// Fixed-width layouts of the integer types
// ---------------------------------------------------------------------------

impl FixedLe for u16 {
    open spec fn spec_width() -> nat {
        2
    }

    open spec fn spec_to_le(x: u16) -> Seq<u8> {
        spec_u16_to_le_bytes(x)
    }

    open spec fn spec_from_le(b: Seq<u8>) -> u16 {
        spec_u16_from_le_bytes(b)
    }

    fn width() -> (w: usize) {
        2
    }

    fn write_le(x: u16, writer: &mut Vec<u8>) {
        let b = u16_to_le_bytes(x);
        write_all(writer, b.as_slice());
    }

    fn read_le(b: &[u8]) -> (x: u16) {
        u16_from_le_bytes(b)
    }

    proof fn lemma_le(x: u16) {
        lemma_auto_spec_u16_to_from_le_bytes();
        assert(spec_u16_to_le_bytes(x).len() == 2);
    }
}

impl FixedLe for u32 {
    open spec fn spec_width() -> nat {
        4
    }

    open spec fn spec_to_le(x: u32) -> Seq<u8> {
        spec_u32_to_le_bytes(x)
    }

    open spec fn spec_from_le(b: Seq<u8>) -> u32 {
        spec_u32_from_le_bytes(b)
    }

    fn width() -> (w: usize) {
        4
    }

    fn write_le(x: u32, writer: &mut Vec<u8>) {
        let b = u32_to_le_bytes(x);
        write_all(writer, b.as_slice());
    }

    fn read_le(b: &[u8]) -> (x: u32) {
        u32_from_le_bytes(b)
    }

    proof fn lemma_le(x: u32) {
        lemma_auto_spec_u32_to_from_le_bytes();
        assert(spec_u32_to_le_bytes(x).len() == 4);
    }
}

impl FixedLe for u64 {
    open spec fn spec_width() -> nat {
        8
    }

    open spec fn spec_to_le(x: u64) -> Seq<u8> {
        spec_u64_to_le_bytes(x)
    }

    open spec fn spec_from_le(b: Seq<u8>) -> u64 {
        spec_u64_from_le_bytes(b)
    }

    fn width() -> (w: usize) {
        8
    }

    fn write_le(x: u64, writer: &mut Vec<u8>) {
        let b = u64_to_le_bytes(x);
        write_all(writer, b.as_slice());
    }

    fn read_le(b: &[u8]) -> (x: u64) {
        u64_from_le_bytes(b)
    }

    proof fn lemma_le(x: u64) {
        lemma_auto_spec_u64_to_from_le_bytes();
        assert(spec_u64_to_le_bytes(x).len() == 8);
    }
}

impl FixedLe for u128 {
    open spec fn spec_width() -> nat {
        16
    }

    open spec fn spec_to_le(x: u128) -> Seq<u8> {
        spec_u128_to_le_bytes(x)
    }

    open spec fn spec_from_le(b: Seq<u8>) -> u128 {
        spec_u128_from_le_bytes(b)
    }

    fn width() -> (w: usize) {
        16
    }

    fn write_le(x: u128, writer: &mut Vec<u8>) {
        let b = u128_to_le_bytes(x);
        write_all(writer, b.as_slice());
    }

    fn read_le(b: &[u8]) -> (x: u128) {
        u128_from_le_bytes(b)
    }

    proof fn lemma_le(x: u128) {
        lemma_auto_spec_u128_to_from_le_bytes();
        assert(spec_u128_to_le_bytes(x).len() == 16);
    }
}

impl FixedLe for i16 {
    open spec fn spec_width() -> nat {
        2
    }

    open spec fn spec_to_le(x: i16) -> Seq<u8> {
        spec_u16_to_le_bytes(x as u16)
    }

    open spec fn spec_from_le(b: Seq<u8>) -> i16 {
        spec_u16_from_le_bytes(b) as i16
    }

    fn width() -> (w: usize) {
        2
    }

    fn write_le(x: i16, writer: &mut Vec<u8>) {
        let b = u16_to_le_bytes(x as u16);
        write_all(writer, b.as_slice());
    }

    fn read_le(b: &[u8]) -> (x: i16) {
        u16_from_le_bytes(b) as i16
    }

    proof fn lemma_le(x: i16) {
        lemma_auto_spec_u16_to_from_le_bytes();
        assert(spec_u16_to_le_bytes(x as u16).len() == 2);
        assert((x as u16) as i16 == x) by (bit_vector);
    }
}

impl FixedLe for i32 {
    open spec fn spec_width() -> nat {
        4
    }

    open spec fn spec_to_le(x: i32) -> Seq<u8> {
        spec_u32_to_le_bytes(x as u32)
    }

    open spec fn spec_from_le(b: Seq<u8>) -> i32 {
        spec_u32_from_le_bytes(b) as i32
    }

    fn width() -> (w: usize) {
        4
    }

    fn write_le(x: i32, writer: &mut Vec<u8>) {
        let b = u32_to_le_bytes(x as u32);
        write_all(writer, b.as_slice());
    }

    fn read_le(b: &[u8]) -> (x: i32) {
        u32_from_le_bytes(b) as i32
    }

    proof fn lemma_le(x: i32) {
        lemma_auto_spec_u32_to_from_le_bytes();
        assert(spec_u32_to_le_bytes(x as u32).len() == 4);
        assert((x as u32) as i32 == x) by (bit_vector);
    }
}

impl FixedLe for i64 {
    open spec fn spec_width() -> nat {
        8
    }

    open spec fn spec_to_le(x: i64) -> Seq<u8> {
        spec_u64_to_le_bytes(x as u64)
    }

    open spec fn spec_from_le(b: Seq<u8>) -> i64 {
        spec_u64_from_le_bytes(b) as i64
    }

    fn width() -> (w: usize) {
        8
    }

    fn write_le(x: i64, writer: &mut Vec<u8>) {
        let b = u64_to_le_bytes(x as u64);
        write_all(writer, b.as_slice());
    }

    fn read_le(b: &[u8]) -> (x: i64) {
        u64_from_le_bytes(b) as i64
    }

    proof fn lemma_le(x: i64) {
        lemma_auto_spec_u64_to_from_le_bytes();
        assert(spec_u64_to_le_bytes(x as u64).len() == 8);
        assert((x as u64) as i64 == x) by (bit_vector);
    }
}

impl FixedLe for i128 {
    open spec fn spec_width() -> nat {
        16
    }

    open spec fn spec_to_le(x: i128) -> Seq<u8> {
        spec_u128_to_le_bytes(x as u128)
    }

    open spec fn spec_from_le(b: Seq<u8>) -> i128 {
        spec_u128_from_le_bytes(b) as i128
    }

    fn width() -> (w: usize) {
        16
    }

    fn write_le(x: i128, writer: &mut Vec<u8>) {
        let b = u128_to_le_bytes(x as u128);
        write_all(writer, b.as_slice());
    }

    fn read_le(b: &[u8]) -> (x: i128) {
        u128_from_le_bytes(b) as i128
    }

    proof fn lemma_le(x: i128) {
        lemma_auto_spec_u128_to_from_le_bytes();
        assert(spec_u128_to_le_bytes(x as u128).len() == 16);
        assert((x as u128) as i128 == x) by (bit_vector);
    }
}

// ---------------------------------------------------------------------------
// Bit-packed vectors of booleans
// ---------------------------------------------------------------------------

/// The byte whose bit `i` is set exactly when `bits[i]` holds (for at most 8 bits).
pub open spec fn pack_bits(bits: Seq<bool>) -> u8
    decreases bits.len(),
{
    if bits.len() == 0 {
        0
    } else {
        pack_bits(bits.drop_last()) | (if bits.last() {
            1u8 << ((bits.len() - 1) as u8)
        } else {
            0u8
        })
    }
}

/// The number of bytes that `n` packed booleans take: `n / 8` rounded up.
pub open spec fn packed_len(n: nat) -> nat {
    ((n + 7) / 8) as nat
}

/// The `j`-th group of eight booleans of `bs` (the last group may be shorter).
pub open spec fn bool_chunk(bs: Seq<bool>, j: int) -> Seq<bool> {
    bs.subrange(
        8 * j,
        if 8 * j + 8 <= bs.len() {
            8 * j + 8
        } else {
            bs.len() as int
        },
    )
}

/// The booleans packed eight to a byte, the first of each group in the lowest bit.
pub open spec fn pack_bools(bs: Seq<bool>) -> Seq<u8> {
    Seq::new(packed_len(bs.len()), |j: int| pack_bits(bool_chunk(bs, j)))
}

/// The first `len` booleans packed in `bytes`.
pub open spec fn unpack_bools(bytes: Seq<u8>, len: nat) -> Seq<bool> {
    Seq::new(len, |k: int| (bytes[k / 8] >> ((k % 8) as u8)) & 1 == 1)
}

/// A bit-packed vector of booleans: its length, then the packed bytes.
pub open spec fn encode_bool_vec(bs: Seq<bool>) -> Seq<u8> {
    spec_encode_len(bs.len()) + pack_bools(bs)
}

/// Decoding a bit-packed vector of booleans; bits beyond the length are ignored.
pub open spec fn decode_bool_vec(input: Seq<u8>) -> Result<(Seq<bool>, nat), ErrorKind> {
    match spec_decode_len(input) {
        Err(e) => Err(e),
        Ok((len, k)) => {
            let nb = packed_len(len);
            if input.len() - k < nb {
                Err(ErrorKind::Io)
            } else {
                Ok((unpack_bools(input.subrange(k as int, (k + nb) as int), len), k + nb))
            }
        },
    }
}

proof fn lemma_bit_or(p: u8, m: u8, i: u8)
    by (bit_vector)
    requires
        m < 8,
        i < 8,
        (p as u16) < (1u16 << (m as u16)),
    ensures
        ((p | (1u8 << m)) as u16) < (1u16 << ((m + 1) as u16)),
        (p as u16) < (1u16 << ((m + 1) as u16)),
        i != m ==> ((p | (1u8 << m)) >> i) & 1 == (p >> i) & 1,
        ((p | (1u8 << m)) >> m) & 1 == 1,
        i >= m ==> (p >> i) & 1 == 0,
        (p | 0u8) == p,
{
}

/// Bit `i` of the packed byte is set exactly when `bits[i]` holds.
pub proof fn lemma_pack_bits(bits: Seq<bool>)
    requires
        bits.len() <= 8,
    ensures
        (pack_bits(bits) as u16) < (1u16 << (bits.len() as u16)),
        forall|i: u8| i < bits.len() ==> ((#[trigger] (pack_bits(bits) >> i) & 1) == 1) == bits[i as int],
        forall|i: u8| bits.len() <= i < 8 ==> (#[trigger] (pack_bits(bits) >> i) & 1) == 0,
    decreases bits.len(),
{
    if bits.len() == 0 {
        assert((0u8 as u16) < (1u16 << 0u16)) by (bit_vector);
        assert forall|i: u8| i < 8 implies (#[trigger] (0u8 >> i) & 1) == 0 by {
            assert((0u8 >> i) & 1 == 0) by (bit_vector);
        }
    } else {
        let init = bits.drop_last();
        lemma_pack_bits(init);
        let p = pack_bits(init);
        let m = (bits.len() - 1) as u8;
        assert forall|i: u8| i < 8 implies #[trigger] ((pack_bits(bits) >> i) & 1) == (if i == m {
            if bits.last() { 1u8 } else { 0u8 }
        } else {
            (p >> i) & 1
        }) by {
            lemma_bit_or(p, m, i);
        }
        lemma_bit_or(p, m, 0);
        assert forall|i: u8| i < bits.len() implies ((#[trigger] (pack_bits(bits) >> i) & 1) == 1) == bits[i as int] by {
            if i < m {
                assert(init[i as int] == bits[i as int]);
            }
        }
    }
}

/// Serializes a vector of booleans packed eight to a byte.
pub fn serialize_bool_vec(v: &Vec<bool>, writer: &mut Vec<u8>)
    ensures
        final(writer)@ == old(writer)@ + encode_bool_vec(v@),
{
    let len = v.len();
    encode_len(writer, len);
    let ghost start = writer@;
    let num_bytes = len / 8 + if len % 8 == 0 { 0 } else { 1 };
    assert(num_bytes == packed_len(len as nat));
    let mut j: usize = 0;
    while j < num_bytes
        invariant
            0 <= j <= num_bytes,
            num_bytes == packed_len(len as nat),
            len == v@.len(),
            start == old(writer)@ + spec_encode_len(len as nat),
            writer@ == start + pack_bools(v@).take(j as int),
        decreases num_bytes - j,
    {
        let first = j * 8;
        let end = if len - first >= 8 { first + 8 } else { len };
        let mut byte: u8 = 0;
        let mut i: usize = 0;
        while first + i < end
            invariant
                first == j * 8,
                first < len,
                end == (if 8 * j + 8 <= len { 8 * j + 8 } else { len as int }),
                first + i <= end,
                len == v@.len(),
                byte == pack_bits(v@.subrange(first as int, first + i)),
            decreases end - first - i,
        {
            let ghost chunk = v@.subrange(first as int, first + i + 1);
            assert(chunk.drop_last() == v@.subrange(first as int, first + i));
            if v[first + i] {
                byte = byte | (1u8 << (i as u8));
            } else {
                assert(byte | 0u8 == byte) by (bit_vector);
            }
            i += 1;
        }
        writer.push(byte);
        proof {
            assert(pack_bools(v@).take(j + 1) == pack_bools(v@).take(j as int).push(byte));
        }
        j += 1;
    }
    assert(pack_bools(v@).take(num_bytes as int) == pack_bools(v@));
}

/// Deserializes a vector of booleans packed eight to a byte.
pub fn deserialize_bool_vec(reader: &mut &[u8]) -> (res: Result<Vec<bool>, Error>)
    ensures
        match res {
            Ok(v) => decode_bool_vec(old(reader)@) matches Ok((bs, n)) && bs == v@ && n
                <= old(reader)@.len() && final(reader)@ == old(reader)@.skip(n as int),
            Err(e) => decode_bool_vec(old(reader)@) == Err::<(Seq<bool>, nat), ErrorKind>(
                e.kind(),
            ),
        },
{
    let ghost input = reader@;
    let len = match decode_len(reader) {
        Ok(len) => len,
        Err(e) => return Err(e),
    };
    let ghost k: nat = (input.len() - reader@.len()) as nat;
    let num_bytes = len / 8 + if len % 8 == 0 { 0 } else { 1 };
    assert(num_bytes == packed_len(len as nat));
    let bytes = match read_buffer(reader, num_bytes) {
        Ok(b) => b,
        Err(e) => return Err(e),
    };
    assert(bytes@ == input.subrange(k as int, (k + num_bytes) as int));
    assert(reader@ == input.skip((k + num_bytes) as int));
    let mut vec: Vec<bool> = Vec::new();
    let mut i: usize = 0;
    while i < len
        invariant
            0 <= i <= len,
            bytes@.len() == num_bytes,
            num_bytes == packed_len(len as nat),
            vec@ == unpack_bools(bytes@, i as nat),
        decreases len - i,
    {
        let byte = bytes[i / 8];
        vec.push((byte >> ((i % 8) as u8)) & 1 == 1);
        i += 1;
        assert(vec@ == unpack_bools(bytes@, i as nat));
    }
    Ok(vec)
}

/// Unpacking the packed booleans gives them back.
pub proof fn lemma_unpack_pack_bools(bs: Seq<bool>)
    ensures
        pack_bools(bs).len() == packed_len(bs.len()),
        unpack_bools(pack_bools(bs), bs.len()) == bs,
{
    let packed = pack_bools(bs);
    assert forall|k: int| 0 <= k < bs.len() implies #[trigger] unpack_bools(packed, bs.len())[k]
        == bs[k] by {
        let j = k / 8;
        let i = k % 8;
        let chunk = bool_chunk(bs, j);
        lemma_pack_bits(chunk);
        assert(chunk[i] == bs[k]);
        assert(packed[j] == pack_bits(chunk));
        assert(((pack_bits(chunk) >> (i as u8)) & 1 == 1) == chunk[(i as u8) as int]);
    }
    assert(unpack_bools(packed, bs.len()) == bs);
}

/// A bit-packed vector of booleans takes its length and then one byte for every eight
/// booleans, the last byte possibly partly used.
pub proof fn lemma_bool_vec_size(bs: Seq<bool>)
    ensures
        encode_bool_vec(bs).len() == spec_encode_len(bs.len()).len() + (bs.len() + 7) / 8,
{
}

/// Decoding a bit-packed vector of booleans gives them back.
pub proof fn lemma_decode_encode_bool_vec(bs: Seq<bool>, rest: Seq<u8>)
    requires
        bs.len() <= usize::MAX,
    ensures
        decode_bool_vec(encode_bool_vec(bs) + rest) == Ok::<(Seq<bool>, nat), ErrorKind>(
            (bs, encode_bool_vec(bs).len()),
        ),
{
    let l = spec_encode_len(bs.len());
    let packed = pack_bools(bs);
    assert(l + packed + rest == l + (packed + rest));
    lemma_decode_encode_len(bs.len(), packed + rest);
    lemma_unpack_pack_bools(bs);
    assert((l + (packed + rest)).subrange(l.len() as int, (l.len() + packed.len()) as int)
        == packed);
}

// ---------------------------------------------------------------------------
// The specialised vectors
// ---------------------------------------------------------------------------

impl SerializeRevisionedSpecialised for Vec<u8> {
    fn serialize_revisioned_specialised(&self, writer: &mut Vec<u8>) -> (r: Result<(), Error>) {
        assert(models(self@) == self@);
        serialize_bytes(self.as_slice(), writer)
    }
}

impl DeserializeRevisionedSpecialised for Vec<u8> {
    fn deserialize_revisioned_specialised(reader: &mut &[u8]) -> (res: Result<Vec<u8>, Error>) {
        let res = deserialize_byte_vec(reader);
        if let Ok(v) = &res {
            assert(models(v@) == v@);
        }
        res
    }
}

impl SerializeRevisionedSpecialised for Vec<i8> {
    fn serialize_revisioned_specialised(&self, writer: &mut Vec<u8>) -> (r: Result<(), Error>) {
        i8::serialize_revisioned_vec(self, writer)
    }
}

impl DeserializeRevisionedSpecialised for Vec<i8> {
    fn deserialize_revisioned_specialised(reader: &mut &[u8]) -> (res: Result<Vec<i8>, Error>) {
        i8::deserialize_revisioned_vec(reader)
    }
}

impl SerializeRevisionedSpecialised for Vec<bool> {
    fn serialize_revisioned_specialised(&self, writer: &mut Vec<u8>) -> (r: Result<(), Error>) {
        assert(models(self@) == self@);
        serialize_bool_vec(self, writer);
        Ok(())
    }
}

impl DeserializeRevisionedSpecialised for Vec<bool> {
    fn deserialize_revisioned_specialised(reader: &mut &[u8]) -> (res: Result<Vec<bool>, Error>) {
        let res = deserialize_bool_vec(reader);
        if let Ok(v) = &res {
            assert(models(v@) == v@);
        }
        res
    }
}

impl SerializeRevisionedSpecialised for Vec<u16> {
    fn serialize_revisioned_specialised(&self, writer: &mut Vec<u8>) -> (r: Result<(), Error>) {
        assert(models(self@) == self@);
        serialize_fixed_vec(self, writer);
        Ok(())
    }
}

impl DeserializeRevisionedSpecialised for Vec<u16> {
    fn deserialize_revisioned_specialised(reader: &mut &[u8]) -> (res: Result<Vec<u16>, Error>) {
        let res = deserialize_fixed_vec(reader);
        if let Ok(v) = &res {
            assert(models(v@) == v@);
        }
        res
    }
}

impl SerializeRevisionedSpecialised for Vec<u32> {
    fn serialize_revisioned_specialised(&self, writer: &mut Vec<u8>) -> (r: Result<(), Error>) {
        assert(models(self@) == self@);
        serialize_fixed_vec(self, writer);
        Ok(())
    }
}

impl DeserializeRevisionedSpecialised for Vec<u32> {
    fn deserialize_revisioned_specialised(reader: &mut &[u8]) -> (res: Result<Vec<u32>, Error>) {
        let res = deserialize_fixed_vec(reader);
        if let Ok(v) = &res {
            assert(models(v@) == v@);
        }
        res
    }
}

impl SerializeRevisionedSpecialised for Vec<u64> {
    fn serialize_revisioned_specialised(&self, writer: &mut Vec<u8>) -> (r: Result<(), Error>) {
        assert(models(self@) == self@);
        serialize_fixed_vec(self, writer);
        Ok(())
    }
}

impl DeserializeRevisionedSpecialised for Vec<u64> {
    fn deserialize_revisioned_specialised(reader: &mut &[u8]) -> (res: Result<Vec<u64>, Error>) {
        let res = deserialize_fixed_vec(reader);
        if let Ok(v) = &res {
            assert(models(v@) == v@);
        }
        res
    }
}

impl SerializeRevisionedSpecialised for Vec<u128> {
    fn serialize_revisioned_specialised(&self, writer: &mut Vec<u8>) -> (r: Result<(), Error>) {
        assert(models(self@) == self@);
        serialize_fixed_vec(self, writer);
        Ok(())
    }
}

impl DeserializeRevisionedSpecialised for Vec<u128> {
    fn deserialize_revisioned_specialised(reader: &mut &[u8]) -> (res: Result<Vec<u128>, Error>) {
        let res = deserialize_fixed_vec(reader);
        if let Ok(v) = &res {
            assert(models(v@) == v@);
        }
        res
    }
}

impl SerializeRevisionedSpecialised for Vec<i16> {
    fn serialize_revisioned_specialised(&self, writer: &mut Vec<u8>) -> (r: Result<(), Error>) {
        assert(models(self@) == self@);
        serialize_fixed_vec(self, writer);
        Ok(())
    }
}

impl DeserializeRevisionedSpecialised for Vec<i16> {
    fn deserialize_revisioned_specialised(reader: &mut &[u8]) -> (res: Result<Vec<i16>, Error>) {
        let res = deserialize_fixed_vec(reader);
        if let Ok(v) = &res {
            assert(models(v@) == v@);
        }
        res
    }
}

impl SerializeRevisionedSpecialised for Vec<i32> {
    fn serialize_revisioned_specialised(&self, writer: &mut Vec<u8>) -> (r: Result<(), Error>) {
        assert(models(self@) == self@);
        serialize_fixed_vec(self, writer);
        Ok(())
    }
}

impl DeserializeRevisionedSpecialised for Vec<i32> {
    fn deserialize_revisioned_specialised(reader: &mut &[u8]) -> (res: Result<Vec<i32>, Error>) {
        let res = deserialize_fixed_vec(reader);
        if let Ok(v) = &res {
            assert(models(v@) == v@);
        }
        res
    }
}

impl SerializeRevisionedSpecialised for Vec<i64> {
    fn serialize_revisioned_specialised(&self, writer: &mut Vec<u8>) -> (r: Result<(), Error>) {
        assert(models(self@) == self@);
        serialize_fixed_vec(self, writer);
        Ok(())
    }
}

impl DeserializeRevisionedSpecialised for Vec<i64> {
    fn deserialize_revisioned_specialised(reader: &mut &[u8]) -> (res: Result<Vec<i64>, Error>) {
        let res = deserialize_fixed_vec(reader);
        if let Ok(v) = &res {
            assert(models(v@) == v@);
        }
        res
    }
}

impl SerializeRevisionedSpecialised for Vec<i128> {
    fn serialize_revisioned_specialised(&self, writer: &mut Vec<u8>) -> (r: Result<(), Error>) {
        assert(models(self@) == self@);
        serialize_fixed_vec(self, writer);
        Ok(())
    }
}

impl DeserializeRevisionedSpecialised for Vec<i128> {
    fn deserialize_revisioned_specialised(reader: &mut &[u8]) -> (res: Result<Vec<i128>, Error>) {
        let res = deserialize_fixed_vec(reader);
        if let Ok(v) = &res {
            assert(models(v@) == v@);
        }
        res
    }
}

} // verus!
