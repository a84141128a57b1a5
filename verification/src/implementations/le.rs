use vstd::prelude::*;

verus! {

/// The 2 bytes of `x`, least significant first.
pub closed spec fn spec_u16_to_le_bytes(x: u16) -> Seq<u8> {
    seq![
        (x & 0xff) as u8,
        ((x >> 8) & 0xff) as u8
    ]
}

/// The number whose bytes, least significant first, are the first 2 of `s`.
pub closed spec fn spec_u16_from_le_bytes(s: Seq<u8>) -> u16
    recommends
        s.len() == 2,
{
    (s[0] as u16) | (s[1] as u16) << 8
}

/// Reading back the bytes of a number gives the number, and the bytes of what 2
/// bytes read as are those bytes.
pub proof fn lemma_auto_spec_u16_to_from_le_bytes()
    ensures
        forall|x: u16|
            #![trigger spec_u16_to_le_bytes(x)]
            {
                &&& spec_u16_to_le_bytes(x).len() == 2
                &&& spec_u16_from_le_bytes(spec_u16_to_le_bytes(x)) == x
            },
        forall|s: Seq<u8>|
            #![trigger spec_u16_to_le_bytes(spec_u16_from_le_bytes(s))]
            s.len() == 2 ==> spec_u16_to_le_bytes(spec_u16_from_le_bytes(s)) == s,
{
    assert forall|x: u16| #[trigger] spec_u16_from_le_bytes(spec_u16_to_le_bytes(x)) == x by {
        assert(((((x & 0xff) as u8) as u16) | ((((x >> 8) & 0xff) as u8) as u16) << 8) == x) by (bit_vector);
    }
    assert forall|s: Seq<u8>| s.len() == 2 implies #[trigger] spec_u16_to_le_bytes(
        spec_u16_from_le_bytes(s),
    ) == s by {
        let x = spec_u16_from_le_bytes(s);
        let s0 = s[0] as u16;
        let s1 = s[1] as u16;
        assert(((x == s0 | s1 << 8) &&
                s0 < 256 &&
                s1 < 256) ==>
                s0 == (x & 0xff) &&
                s1 == ((x >> 8) & 0xff)) by (bit_vector);
        assert(spec_u16_to_le_bytes(x) =~= s);
    }
}

/// The bytes of `x`, least significant first.
pub fn u16_to_le_bytes(x: u16) -> (s: Vec<u8>)
    ensures
        s@ == spec_u16_to_le_bytes(x),
        s@.len() == 2,
{
    let mut v: Vec<u8> = Vec::new();
    v.push((x & 0xff) as u8);
    v.push(((x >> 8) & 0xff) as u8);
    assert(v@ =~= spec_u16_to_le_bytes(x));
    v
}

/// The number whose bytes, least significant first, are `s`.
pub fn u16_from_le_bytes(s: &[u8]) -> (x: u16)
    requires
        s@.len() == 2,
    ensures
        x == spec_u16_from_le_bytes(s@),
{
    (s[0] as u16) | (s[1] as u16) << 8
}

/// The 4 bytes of `x`, least significant first.
pub closed spec fn spec_u32_to_le_bytes(x: u32) -> Seq<u8> {
    seq![
        (x & 0xff) as u8,
        ((x >> 8) & 0xff) as u8,
        ((x >> 16) & 0xff) as u8,
        ((x >> 24) & 0xff) as u8
    ]
}

/// The number whose bytes, least significant first, are the first 4 of `s`.
pub closed spec fn spec_u32_from_le_bytes(s: Seq<u8>) -> u32
    recommends
        s.len() == 4,
{
    (s[0] as u32) | (s[1] as u32) << 8 | (s[2] as u32) << 16 | (s[3] as u32) << 24
}

/// Reading back the bytes of a number gives the number, and the bytes of what 4
/// bytes read as are those bytes.
pub proof fn lemma_auto_spec_u32_to_from_le_bytes()
    ensures
        forall|x: u32|
            #![trigger spec_u32_to_le_bytes(x)]
            {
                &&& spec_u32_to_le_bytes(x).len() == 4
                &&& spec_u32_from_le_bytes(spec_u32_to_le_bytes(x)) == x
            },
        forall|s: Seq<u8>|
            #![trigger spec_u32_to_le_bytes(spec_u32_from_le_bytes(s))]
            s.len() == 4 ==> spec_u32_to_le_bytes(spec_u32_from_le_bytes(s)) == s,
{
    assert forall|x: u32| #[trigger] spec_u32_from_le_bytes(spec_u32_to_le_bytes(x)) == x by {
        assert(((((x & 0xff) as u8) as u32) | ((((x >> 8) & 0xff) as u8) as u32) << 8 | ((((x >> 16) & 0xff) as u8) as u32) << 16 | ((((x >> 24) & 0xff) as u8) as u32) << 24) == x) by (bit_vector);
    }
    assert forall|s: Seq<u8>| s.len() == 4 implies #[trigger] spec_u32_to_le_bytes(
        spec_u32_from_le_bytes(s),
    ) == s by {
        let x = spec_u32_from_le_bytes(s);
        let s0 = s[0] as u32;
        let s1 = s[1] as u32;
        let s2 = s[2] as u32;
        let s3 = s[3] as u32;
        assert(((x == s0 | s1 << 8 | s2 << 16 | s3 << 24) &&
                s0 < 256 &&
                s1 < 256 &&
                s2 < 256 &&
                s3 < 256) ==>
                s0 == (x & 0xff) &&
                s1 == ((x >> 8) & 0xff) &&
                s2 == ((x >> 16) & 0xff) &&
                s3 == ((x >> 24) & 0xff)) by (bit_vector);
        assert(spec_u32_to_le_bytes(x) =~= s);
    }
}

/// The bytes of `x`, least significant first.
pub fn u32_to_le_bytes(x: u32) -> (s: Vec<u8>)
    ensures
        s@ == spec_u32_to_le_bytes(x),
        s@.len() == 4,
{
    let mut v: Vec<u8> = Vec::new();
    v.push((x & 0xff) as u8);
    v.push(((x >> 8) & 0xff) as u8);
    v.push(((x >> 16) & 0xff) as u8);
    v.push(((x >> 24) & 0xff) as u8);
    assert(v@ =~= spec_u32_to_le_bytes(x));
    v
}

/// The number whose bytes, least significant first, are `s`.
pub fn u32_from_le_bytes(s: &[u8]) -> (x: u32)
    requires
        s@.len() == 4,
    ensures
        x == spec_u32_from_le_bytes(s@),
{
    (s[0] as u32) | (s[1] as u32) << 8 | (s[2] as u32) << 16 | (s[3] as u32) << 24
}

/// The 8 bytes of `x`, least significant first.
pub closed spec fn spec_u64_to_le_bytes(x: u64) -> Seq<u8> {
    seq![
        (x & 0xff) as u8,
        ((x >> 8) & 0xff) as u8,
        ((x >> 16) & 0xff) as u8,
        ((x >> 24) & 0xff) as u8,
        ((x >> 32) & 0xff) as u8,
        ((x >> 40) & 0xff) as u8,
        ((x >> 48) & 0xff) as u8,
        ((x >> 56) & 0xff) as u8
    ]
}

/// The number whose bytes, least significant first, are the first 8 of `s`.
pub closed spec fn spec_u64_from_le_bytes(s: Seq<u8>) -> u64
    recommends
        s.len() == 8,
{
    (s[0] as u64) | (s[1] as u64) << 8 | (s[2] as u64) << 16 | (s[3] as u64) << 24 | (s[4] as u64) << 32 | (s[5] as u64) << 40 | (s[6] as u64) << 48 | (s[7] as u64) << 56
}

/// Reading back the bytes of a number gives the number, and the bytes of what 8
/// bytes read as are those bytes.
pub proof fn lemma_auto_spec_u64_to_from_le_bytes()
    ensures
        forall|x: u64|
            #![trigger spec_u64_to_le_bytes(x)]
            {
                &&& spec_u64_to_le_bytes(x).len() == 8
                &&& spec_u64_from_le_bytes(spec_u64_to_le_bytes(x)) == x
            },
        forall|s: Seq<u8>|
            #![trigger spec_u64_to_le_bytes(spec_u64_from_le_bytes(s))]
            s.len() == 8 ==> spec_u64_to_le_bytes(spec_u64_from_le_bytes(s)) == s,
{
    assert forall|x: u64| #[trigger] spec_u64_from_le_bytes(spec_u64_to_le_bytes(x)) == x by {
        assert(((((x & 0xff) as u8) as u64) | ((((x >> 8) & 0xff) as u8) as u64) << 8 | ((((x >> 16) & 0xff) as u8) as u64) << 16 | ((((x >> 24) & 0xff) as u8) as u64) << 24 | ((((x >> 32) & 0xff) as u8) as u64) << 32 | ((((x >> 40) & 0xff) as u8) as u64) << 40 | ((((x >> 48) & 0xff) as u8) as u64) << 48 | ((((x >> 56) & 0xff) as u8) as u64) << 56) == x) by (bit_vector);
    }
    assert forall|s: Seq<u8>| s.len() == 8 implies #[trigger] spec_u64_to_le_bytes(
        spec_u64_from_le_bytes(s),
    ) == s by {
        let x = spec_u64_from_le_bytes(s);
        let s0 = s[0] as u64;
        let s1 = s[1] as u64;
        let s2 = s[2] as u64;
        let s3 = s[3] as u64;
        let s4 = s[4] as u64;
        let s5 = s[5] as u64;
        let s6 = s[6] as u64;
        let s7 = s[7] as u64;
        assert(((x == s0 | s1 << 8 | s2 << 16 | s3 << 24 | s4 << 32 | s5 << 40 | s6 << 48 | s7 << 56) &&
                s0 < 256 &&
                s1 < 256 &&
                s2 < 256 &&
                s3 < 256 &&
                s4 < 256 &&
                s5 < 256 &&
                s6 < 256 &&
                s7 < 256) ==>
                s0 == (x & 0xff) &&
                s1 == ((x >> 8) & 0xff) &&
                s2 == ((x >> 16) & 0xff) &&
                s3 == ((x >> 24) & 0xff) &&
                s4 == ((x >> 32) & 0xff) &&
                s5 == ((x >> 40) & 0xff) &&
                s6 == ((x >> 48) & 0xff) &&
                s7 == ((x >> 56) & 0xff)) by (bit_vector);
        assert(spec_u64_to_le_bytes(x) =~= s);
    }
}

/// The bytes of `x`, least significant first.
pub fn u64_to_le_bytes(x: u64) -> (s: Vec<u8>)
    ensures
        s@ == spec_u64_to_le_bytes(x),
        s@.len() == 8,
{
    let mut v: Vec<u8> = Vec::new();
    v.push((x & 0xff) as u8);
    v.push(((x >> 8) & 0xff) as u8);
    v.push(((x >> 16) & 0xff) as u8);
    v.push(((x >> 24) & 0xff) as u8);
    v.push(((x >> 32) & 0xff) as u8);
    v.push(((x >> 40) & 0xff) as u8);
    v.push(((x >> 48) & 0xff) as u8);
    v.push(((x >> 56) & 0xff) as u8);
    assert(v@ =~= spec_u64_to_le_bytes(x));
    v
}

/// The number whose bytes, least significant first, are `s`.
pub fn u64_from_le_bytes(s: &[u8]) -> (x: u64)
    requires
        s@.len() == 8,
    ensures
        x == spec_u64_from_le_bytes(s@),
{
    (s[0] as u64) | (s[1] as u64) << 8 | (s[2] as u64) << 16 | (s[3] as u64) << 24 | (s[4] as u64) << 32 | (s[5] as u64) << 40 | (s[6] as u64) << 48 | (s[7] as u64) << 56
}

/// The 16 bytes of `x`, least significant first.
pub closed spec fn spec_u128_to_le_bytes(x: u128) -> Seq<u8> {
    seq![
        (x & 0xff) as u8,
        ((x >> 8) & 0xff) as u8,
        ((x >> 16) & 0xff) as u8,
        ((x >> 24) & 0xff) as u8,
        ((x >> 32) & 0xff) as u8,
        ((x >> 40) & 0xff) as u8,
        ((x >> 48) & 0xff) as u8,
        ((x >> 56) & 0xff) as u8,
        ((x >> 64) & 0xff) as u8,
        ((x >> 72) & 0xff) as u8,
        ((x >> 80) & 0xff) as u8,
        ((x >> 88) & 0xff) as u8,
        ((x >> 96) & 0xff) as u8,
        ((x >> 104) & 0xff) as u8,
        ((x >> 112) & 0xff) as u8,
        ((x >> 120) & 0xff) as u8
    ]
}

/// The number whose bytes, least significant first, are the first 16 of `s`.
pub closed spec fn spec_u128_from_le_bytes(s: Seq<u8>) -> u128
    recommends
        s.len() == 16,
{
    (s[0] as u128) | (s[1] as u128) << 8 | (s[2] as u128) << 16 | (s[3] as u128) << 24 | (s[4] as u128) << 32 | (s[5] as u128) << 40 | (s[6] as u128) << 48 | (s[7] as u128) << 56 | (s[8] as u128) << 64 | (s[9] as u128) << 72 | (s[10] as u128) << 80 | (s[11] as u128) << 88 | (s[12] as u128) << 96 | (s[13] as u128) << 104 | (s[14] as u128) << 112 | (s[15] as u128) << 120
}

/// Reading back the bytes of a number gives the number, and the bytes of what 16
/// bytes read as are those bytes.
pub proof fn lemma_auto_spec_u128_to_from_le_bytes()
    ensures
        forall|x: u128|
            #![trigger spec_u128_to_le_bytes(x)]
            {
                &&& spec_u128_to_le_bytes(x).len() == 16
                &&& spec_u128_from_le_bytes(spec_u128_to_le_bytes(x)) == x
            },
        forall|s: Seq<u8>|
            #![trigger spec_u128_to_le_bytes(spec_u128_from_le_bytes(s))]
            s.len() == 16 ==> spec_u128_to_le_bytes(spec_u128_from_le_bytes(s)) == s,
{
    assert forall|x: u128| #[trigger] spec_u128_from_le_bytes(spec_u128_to_le_bytes(x)) == x by {
        assert(((((x & 0xff) as u8) as u128) | ((((x >> 8) & 0xff) as u8) as u128) << 8 | ((((x >> 16) & 0xff) as u8) as u128) << 16 | ((((x >> 24) & 0xff) as u8) as u128) << 24 | ((((x >> 32) & 0xff) as u8) as u128) << 32 | ((((x >> 40) & 0xff) as u8) as u128) << 40 | ((((x >> 48) & 0xff) as u8) as u128) << 48 | ((((x >> 56) & 0xff) as u8) as u128) << 56 | ((((x >> 64) & 0xff) as u8) as u128) << 64 | ((((x >> 72) & 0xff) as u8) as u128) << 72 | ((((x >> 80) & 0xff) as u8) as u128) << 80 | ((((x >> 88) & 0xff) as u8) as u128) << 88 | ((((x >> 96) & 0xff) as u8) as u128) << 96 | ((((x >> 104) & 0xff) as u8) as u128) << 104 | ((((x >> 112) & 0xff) as u8) as u128) << 112 | ((((x >> 120) & 0xff) as u8) as u128) << 120) == x) by (bit_vector);
    }
    assert forall|s: Seq<u8>| s.len() == 16 implies #[trigger] spec_u128_to_le_bytes(
        spec_u128_from_le_bytes(s),
    ) == s by {
        let x = spec_u128_from_le_bytes(s);
        let s0 = s[0] as u128;
        let s1 = s[1] as u128;
        let s2 = s[2] as u128;
        let s3 = s[3] as u128;
        let s4 = s[4] as u128;
        let s5 = s[5] as u128;
        let s6 = s[6] as u128;
        let s7 = s[7] as u128;
        let s8 = s[8] as u128;
        let s9 = s[9] as u128;
        let s10 = s[10] as u128;
        let s11 = s[11] as u128;
        let s12 = s[12] as u128;
        let s13 = s[13] as u128;
        let s14 = s[14] as u128;
        let s15 = s[15] as u128;
        assert(((x == s0 | s1 << 8 | s2 << 16 | s3 << 24 | s4 << 32 | s5 << 40 | s6 << 48 | s7 << 56 | s8 << 64 | s9 << 72 | s10 << 80 | s11 << 88 | s12 << 96 | s13 << 104 | s14 << 112 | s15 << 120) &&
                s0 < 256 &&
                s1 < 256 &&
                s2 < 256 &&
                s3 < 256 &&
                s4 < 256 &&
                s5 < 256 &&
                s6 < 256 &&
                s7 < 256 &&
                s8 < 256 &&
                s9 < 256 &&
                s10 < 256 &&
                s11 < 256 &&
                s12 < 256 &&
                s13 < 256 &&
                s14 < 256 &&
                s15 < 256) ==>
                s0 == (x & 0xff) &&
                s1 == ((x >> 8) & 0xff) &&
                s2 == ((x >> 16) & 0xff) &&
                s3 == ((x >> 24) & 0xff) &&
                s4 == ((x >> 32) & 0xff) &&
                s5 == ((x >> 40) & 0xff) &&
                s6 == ((x >> 48) & 0xff) &&
                s7 == ((x >> 56) & 0xff) &&
                s8 == ((x >> 64) & 0xff) &&
                s9 == ((x >> 72) & 0xff) &&
                s10 == ((x >> 80) & 0xff) &&
                s11 == ((x >> 88) & 0xff) &&
                s12 == ((x >> 96) & 0xff) &&
                s13 == ((x >> 104) & 0xff) &&
                s14 == ((x >> 112) & 0xff) &&
                s15 == ((x >> 120) & 0xff)) by (bit_vector);
        assert(spec_u128_to_le_bytes(x) =~= s);
    }
}

/// The bytes of `x`, least significant first.
pub fn u128_to_le_bytes(x: u128) -> (s: Vec<u8>)
    ensures
        s@ == spec_u128_to_le_bytes(x),
        s@.len() == 16,
{
    let mut v: Vec<u8> = Vec::new();
    v.push((x & 0xff) as u8);
    v.push(((x >> 8) & 0xff) as u8);
    v.push(((x >> 16) & 0xff) as u8);
    v.push(((x >> 24) & 0xff) as u8);
    v.push(((x >> 32) & 0xff) as u8);
    v.push(((x >> 40) & 0xff) as u8);
    v.push(((x >> 48) & 0xff) as u8);
    v.push(((x >> 56) & 0xff) as u8);
    v.push(((x >> 64) & 0xff) as u8);
    v.push(((x >> 72) & 0xff) as u8);
    v.push(((x >> 80) & 0xff) as u8);
    v.push(((x >> 88) & 0xff) as u8);
    v.push(((x >> 96) & 0xff) as u8);
    v.push(((x >> 104) & 0xff) as u8);
    v.push(((x >> 112) & 0xff) as u8);
    v.push(((x >> 120) & 0xff) as u8);
    assert(v@ =~= spec_u128_to_le_bytes(x));
    v
}

/// The number whose bytes, least significant first, are `s`.
pub fn u128_from_le_bytes(s: &[u8]) -> (x: u128)
    requires
        s@.len() == 16,
    ensures
        x == spec_u128_from_le_bytes(s@),
{
    (s[0] as u128) | (s[1] as u128) << 8 | (s[2] as u128) << 16 | (s[3] as u128) << 24 | (s[4] as u128) << 32 | (s[5] as u128) << 40 | (s[6] as u128) << 48 | (s[7] as u128) << 56 | (s[8] as u128) << 64 | (s[9] as u128) << 72 | (s[10] as u128) << 80 | (s[11] as u128) << 88 | (s[12] as u128) << 96 | (s[13] as u128) << 104 | (s[14] as u128) << 112 | (s[15] as u128) << 120
}

/// The 2 bytes of `x`, least significant first, in plain arithmetic.
pub open spec fn le_u16(x: u16) -> Seq<u8> {
    seq![(x % 256) as u8, (x / 0x100) as u8]
}

/// The little-endian bytes of `x` are its base-256 digits, least significant first.
pub proof fn lemma_u16_le_digits(x: u16)
    ensures
        spec_u16_to_le_bytes(x) == le_u16(x),
{
    assert((x & 0xff) == x % 256 &&
        ((x >> 8) & 0xff) == x / 0x100) by (bit_vector);
    assert(spec_u16_to_le_bytes(x) =~= le_u16(x));
}

/// Reading 2 bytes, least significant first, gives the number they are the base-256
/// digits of.
pub proof fn lemma_u16_le_value(b: Seq<u8>)
    requires
        b.len() == 2,
    ensures
        spec_u16_from_le_bytes(b) == b[0] + b[1] * 0x100,
{
    let b0 = b[0] as u16;
    let b1 = b[1] as u16;
    assert(b0 < 256 && b1 < 256 ==> (b0 | b1 << 8) == b0 + b1 * 0x100) by (bit_vector);
}

/// The 4 bytes of `x`, least significant first, in plain arithmetic.
pub open spec fn le_u32(x: u32) -> Seq<u8> {
    seq![(x % 256) as u8, ((x / 0x100) % 256) as u8, ((x / 0x10000) % 256) as u8, (x / 0x1000000) as u8]
}

/// The little-endian bytes of `x` are its base-256 digits, least significant first.
pub proof fn lemma_u32_le_digits(x: u32)
    ensures
        spec_u32_to_le_bytes(x) == le_u32(x),
{
    assert((x & 0xff) == x % 256 &&
        ((x >> 8) & 0xff) == (x / 0x100) % 256 &&
        ((x >> 16) & 0xff) == (x / 0x10000) % 256 &&
        ((x >> 24) & 0xff) == x / 0x1000000) by (bit_vector);
    assert(spec_u32_to_le_bytes(x) =~= le_u32(x));
}

/// Reading 4 bytes, least significant first, gives the number they are the base-256
/// digits of.
pub proof fn lemma_u32_le_value(b: Seq<u8>)
    requires
        b.len() == 4,
    ensures
        spec_u32_from_le_bytes(b) == b[0] + b[1] * 0x100 + b[2] * 0x10000 + b[3] * 0x1000000,
{
    let b0 = b[0] as u32;
    let b1 = b[1] as u32;
    let b2 = b[2] as u32;
    let b3 = b[3] as u32;
    assert(b0 < 256 && b1 < 256 && b2 < 256 && b3 < 256 ==> (b0 | b1 << 8 | b2 << 16 | b3 << 24) == b0 + b1 * 0x100 + b2 * 0x10000 + b3 * 0x1000000) by (bit_vector);
}

/// The 8 bytes of `x`, least significant first, in plain arithmetic.
pub open spec fn le_u64(x: u64) -> Seq<u8> {
    seq![(x % 256) as u8, ((x / 0x100) % 256) as u8, ((x / 0x10000) % 256) as u8, ((x / 0x1000000) % 256) as u8, ((x / 0x100000000) % 256) as u8, ((x / 0x10000000000) % 256) as u8, ((x / 0x1000000000000) % 256) as u8, (x / 0x100000000000000) as u8]
}

/// The little-endian bytes of `x` are its base-256 digits, least significant first.
pub proof fn lemma_u64_le_digits(x: u64)
    ensures
        spec_u64_to_le_bytes(x) == le_u64(x),
{
    assert((x & 0xff) == x % 256 &&
        ((x >> 8) & 0xff) == (x / 0x100) % 256 &&
        ((x >> 16) & 0xff) == (x / 0x10000) % 256 &&
        ((x >> 24) & 0xff) == (x / 0x1000000) % 256 &&
        ((x >> 32) & 0xff) == (x / 0x100000000) % 256 &&
        ((x >> 40) & 0xff) == (x / 0x10000000000) % 256 &&
        ((x >> 48) & 0xff) == (x / 0x1000000000000) % 256 &&
        ((x >> 56) & 0xff) == x / 0x100000000000000) by (bit_vector);
    assert(spec_u64_to_le_bytes(x) =~= le_u64(x));
}

/// Reading 8 bytes, least significant first, gives the number they are the base-256
/// digits of.
pub proof fn lemma_u64_le_value(b: Seq<u8>)
    requires
        b.len() == 8,
    ensures
        spec_u64_from_le_bytes(b) == b[0] + b[1] * 0x100 + b[2] * 0x10000 + b[3] * 0x1000000 + b[4] * 0x100000000 + b[5] * 0x10000000000 + b[6] * 0x1000000000000 + b[7] * 0x100000000000000,
{
    let b0 = b[0] as u64;
    let b1 = b[1] as u64;
    let b2 = b[2] as u64;
    let b3 = b[3] as u64;
    let b4 = b[4] as u64;
    let b5 = b[5] as u64;
    let b6 = b[6] as u64;
    let b7 = b[7] as u64;
    assert(b0 < 256 && b1 < 256 && b2 < 256 && b3 < 256 && b4 < 256 && b5 < 256 && b6 < 256 && b7 < 256 ==> (b0 | b1 << 8 | b2 << 16 | b3 << 24 | b4 << 32 | b5 << 40 | b6 << 48 | b7 << 56) == b0 + b1 * 0x100 + b2 * 0x10000 + b3 * 0x1000000 + b4 * 0x100000000 + b5 * 0x10000000000 + b6 * 0x1000000000000 + b7 * 0x100000000000000) by (bit_vector);
}

/// The 16 bytes of `x`, least significant first, in plain arithmetic.
pub open spec fn le_u128(x: u128) -> Seq<u8> {
    seq![(x % 256) as u8, ((x / 0x100) % 256) as u8, ((x / 0x10000) % 256) as u8, ((x / 0x1000000) % 256) as u8, ((x / 0x100000000) % 256) as u8, ((x / 0x10000000000) % 256) as u8, ((x / 0x1000000000000) % 256) as u8, ((x / 0x100000000000000) % 256) as u8, ((x / 0x10000000000000000) % 256) as u8, ((x / 0x1000000000000000000) % 256) as u8, ((x / 0x100000000000000000000) % 256) as u8, ((x / 0x10000000000000000000000) % 256) as u8, ((x / 0x1000000000000000000000000) % 256) as u8, ((x / 0x100000000000000000000000000) % 256) as u8, ((x / 0x10000000000000000000000000000) % 256) as u8, (x / 0x1000000000000000000000000000000) as u8]
}

/// The little-endian bytes of `x` are its base-256 digits, least significant first.
pub proof fn lemma_u128_le_digits(x: u128)
    ensures
        spec_u128_to_le_bytes(x) == le_u128(x),
{
    assert((x & 0xff) == x % 256 &&
        ((x >> 8) & 0xff) == (x / 0x100) % 256 &&
        ((x >> 16) & 0xff) == (x / 0x10000) % 256 &&
        ((x >> 24) & 0xff) == (x / 0x1000000) % 256 &&
        ((x >> 32) & 0xff) == (x / 0x100000000) % 256 &&
        ((x >> 40) & 0xff) == (x / 0x10000000000) % 256 &&
        ((x >> 48) & 0xff) == (x / 0x1000000000000) % 256 &&
        ((x >> 56) & 0xff) == (x / 0x100000000000000) % 256 &&
        ((x >> 64) & 0xff) == (x / 0x10000000000000000) % 256 &&
        ((x >> 72) & 0xff) == (x / 0x1000000000000000000) % 256 &&
        ((x >> 80) & 0xff) == (x / 0x100000000000000000000) % 256 &&
        ((x >> 88) & 0xff) == (x / 0x10000000000000000000000) % 256 &&
        ((x >> 96) & 0xff) == (x / 0x1000000000000000000000000) % 256 &&
        ((x >> 104) & 0xff) == (x / 0x100000000000000000000000000) % 256 &&
        ((x >> 112) & 0xff) == (x / 0x10000000000000000000000000000) % 256 &&
        ((x >> 120) & 0xff) == x / 0x1000000000000000000000000000000) by (bit_vector);
    assert(spec_u128_to_le_bytes(x) =~= le_u128(x));
}

/// Reading 16 bytes, least significant first, gives the number they are the base-256
/// digits of.
pub proof fn lemma_u128_le_value(b: Seq<u8>)
    requires
        b.len() == 16,
    ensures
        spec_u128_from_le_bytes(b) == b[0] + b[1] * 0x100 + b[2] * 0x10000 + b[3] * 0x1000000 + b[4] * 0x100000000 + b[5] * 0x10000000000 + b[6] * 0x1000000000000 + b[7] * 0x100000000000000 + b[8] * 0x10000000000000000 + b[9] * 0x1000000000000000000 + b[10] * 0x100000000000000000000 + b[11] * 0x10000000000000000000000 + b[12] * 0x1000000000000000000000000 + b[13] * 0x100000000000000000000000000 + b[14] * 0x10000000000000000000000000000 + b[15] * 0x1000000000000000000000000000000,
{
    let b0 = b[0] as u128;
    let b1 = b[1] as u128;
    let b2 = b[2] as u128;
    let b3 = b[3] as u128;
    let b4 = b[4] as u128;
    let b5 = b[5] as u128;
    let b6 = b[6] as u128;
    let b7 = b[7] as u128;
    let b8 = b[8] as u128;
    let b9 = b[9] as u128;
    let b10 = b[10] as u128;
    let b11 = b[11] as u128;
    let b12 = b[12] as u128;
    let b13 = b[13] as u128;
    let b14 = b[14] as u128;
    let b15 = b[15] as u128;
    assert(b0 < 256 && b1 < 256 && b2 < 256 && b3 < 256 && b4 < 256 && b5 < 256 && b6 < 256 && b7 < 256 && b8 < 256 && b9 < 256 && b10 < 256 && b11 < 256 && b12 < 256 && b13 < 256 && b14 < 256 && b15 < 256 ==> (b0 | b1 << 8 | b2 << 16 | b3 << 24 | b4 << 32 | b5 << 40 | b6 << 48 | b7 << 56 | b8 << 64 | b9 << 72 | b10 << 80 | b11 << 88 | b12 << 96 | b13 << 104 | b14 << 112 | b15 << 120) == b0 + b1 * 0x100 + b2 * 0x10000 + b3 * 0x1000000 + b4 * 0x100000000 + b5 * 0x10000000000 + b6 * 0x1000000000000 + b7 * 0x100000000000000 + b8 * 0x10000000000000000 + b9 * 0x1000000000000000000 + b10 * 0x100000000000000000000 + b11 * 0x10000000000000000000000 + b12 * 0x1000000000000000000000000 + b13 * 0x100000000000000000000000000 + b14 * 0x10000000000000000000000000000 + b15 * 0x1000000000000000000000000000000) by (bit_vector);
}

} // verus!
