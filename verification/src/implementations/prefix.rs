use vstd::prelude::*;
use std::collections::{BTreeMap, BTreeSet};
use std::ops::Range;

use crate::implementations::ordered::OrderedKey;
use crate::implementations::primitives::{lemma_u64_prefixes_fail, spec_decode_u64, spec_encode_u64};
use crate::implementations::range::lemma_range_prefixes_fail;
use crate::implementations::vecs::{
    decode_each, encode_each, encode_vec_generic, lemma_decode_encode_len,
    lemma_vec_generic_prefixes_fail, spec_encode_len,
};
use crate::{
    models, strict_prefixes_fail, DeserializeRevisioned, Revisioned, RevisionedRoundTrip,
    RevisionedRoundTripVec, SerializeRevisioned,
};

verus! {

/// Cutting an encoding short never gives a value: no encoding is a strict prefix of
/// another that decodes.
pub trait RevisionedPrefixFree: RevisionedRoundTrip {
    /// Decoding any strict prefix of the bytes that serializing `v` writes fails.
    proof fn lemma_prefixes_fail(v: Self)
        requires
            Self::spec_encode(v.model()).len() <= usize::MAX,
        ensures
            strict_prefixes_fail::<Self>(v.model()),
    ;
}

/// Decoding a strict prefix of the encoding of a variable-length 64-bit integer fails.
proof fn lemma_varint_prefix(x: u64, k: int)
    requires
        0 <= k < spec_encode_u64(x).len(),
    ensures
        spec_decode_u64(spec_encode_u64(x).take(k)) is Err,
{
    lemma_u64_prefixes_fail(x);
    assert(<u64 as DeserializeRevisioned>::spec_decode(
        <u64 as SerializeRevisioned>::spec_encode(x).take(k),
    ) is Err);
}

impl RevisionedPrefixFree for u8 {
    /// The encoding is one byte, and decoding nothing fails.
    proof fn lemma_prefixes_fail(v: u8) {
    }
}

impl RevisionedPrefixFree for i8 {
    /// The encoding is one byte, and decoding nothing fails.
    proof fn lemma_prefixes_fail(v: i8) {
    }
}

impl RevisionedPrefixFree for bool {
    /// The encoding is one byte, and decoding nothing fails.
    proof fn lemma_prefixes_fail(v: bool) {
    }
}

impl RevisionedPrefixFree for u16 {
    /// The encoding is a variable-length 64-bit integer, whose marker byte announces more
    /// bytes than a strict prefix holds.
    proof fn lemma_prefixes_fail(v: u16) {
        let e = spec_encode_u64(v as u64);
        assert forall|k: int| 0 <= k < e.len() implies (#[trigger] <u16 as DeserializeRevisioned>::spec_decode(
            e.take(k),
        )) is Err by {
            lemma_varint_prefix(v as u64, k);
        }
    }
}

impl RevisionedPrefixFree for u32 {
    /// The encoding is a variable-length 64-bit integer, whose marker byte announces more
    /// bytes than a strict prefix holds.
    proof fn lemma_prefixes_fail(v: u32) {
        let e = spec_encode_u64(v as u64);
        assert forall|k: int| 0 <= k < e.len() implies (#[trigger] <u32 as DeserializeRevisioned>::spec_decode(
            e.take(k),
        )) is Err by {
            lemma_varint_prefix(v as u64, k);
        }
    }
}

impl RevisionedPrefixFree for u64 {
    /// The encoding is a variable-length 64-bit integer, whose marker byte announces more
    /// bytes than a strict prefix holds.
    proof fn lemma_prefixes_fail(v: u64) {
        let e = spec_encode_u64(v);
        assert forall|k: int| 0 <= k < e.len() implies (#[trigger] <u64 as DeserializeRevisioned>::spec_decode(
            e.take(k),
        )) is Err by {
            lemma_varint_prefix(v, k);
        }
    }
}

impl RevisionedPrefixFree for usize {
    /// The encoding is a variable-length 64-bit integer, whose marker byte announces more
    /// bytes than a strict prefix holds.
    proof fn lemma_prefixes_fail(v: usize) {
        let e = spec_encode_u64(v as u64);
        assert forall|k: int| 0 <= k < e.len() implies (#[trigger] <usize as DeserializeRevisioned>::spec_decode(
            e.take(k),
        )) is Err by {
            lemma_varint_prefix(v as u64, k);
        }
    }
}

impl RevisionedPrefixFree for i16 {
    /// The encoding is a variable-length 64-bit integer, whose marker byte announces more
    /// bytes than a strict prefix holds.
    proof fn lemma_prefixes_fail(v: i16) {
        let e = spec_encode_u64(crate::implementations::primitives::spec_zigzag_64(v as i64));
        assert forall|k: int| 0 <= k < e.len() implies (#[trigger] <i16 as DeserializeRevisioned>::spec_decode(
            e.take(k),
        )) is Err by {
            lemma_varint_prefix(crate::implementations::primitives::spec_zigzag_64(v as i64), k);
        }
    }
}

impl RevisionedPrefixFree for i32 {
    /// The encoding is a variable-length 64-bit integer, whose marker byte announces more
    /// bytes than a strict prefix holds.
    proof fn lemma_prefixes_fail(v: i32) {
        let e = spec_encode_u64(crate::implementations::primitives::spec_zigzag_64(v as i64));
        assert forall|k: int| 0 <= k < e.len() implies (#[trigger] <i32 as DeserializeRevisioned>::spec_decode(
            e.take(k),
        )) is Err by {
            lemma_varint_prefix(crate::implementations::primitives::spec_zigzag_64(v as i64), k);
        }
    }
}

impl RevisionedPrefixFree for i64 {
    /// The encoding is a variable-length 64-bit integer, whose marker byte announces more
    /// bytes than a strict prefix holds.
    proof fn lemma_prefixes_fail(v: i64) {
        let e = spec_encode_u64(crate::implementations::primitives::spec_zigzag_64(v));
        assert forall|k: int| 0 <= k < e.len() implies (#[trigger] <i64 as DeserializeRevisioned>::spec_decode(
            e.take(k),
        )) is Err by {
            lemma_varint_prefix(crate::implementations::primitives::spec_zigzag_64(v), k);
        }
    }
}

impl RevisionedPrefixFree for isize {
    /// The encoding is a variable-length 64-bit integer, whose marker byte announces more
    /// bytes than a strict prefix holds.
    proof fn lemma_prefixes_fail(v: isize) {
        let e = spec_encode_u64(crate::implementations::primitives::spec_zigzag_64(v as i64));
        assert forall|k: int| 0 <= k < e.len() implies (#[trigger] <isize as DeserializeRevisioned>::spec_decode(
            e.take(k),
        )) is Err by {
            lemma_varint_prefix(crate::implementations::primitives::spec_zigzag_64(v as i64), k);
        }
    }
}

impl RevisionedPrefixFree for String {
    /// Either the length is cut off, or fewer bytes follow it than it announces.
    proof fn lemma_prefixes_fail(v: String) {
        let m = v.model();
        let e = <String as SerializeRevisioned>::spec_encode(m);
        let bytes = vstd::utf8::encode_utf8(m);
        let l = spec_encode_len(bytes.len());
        assert(e == l + bytes);
        assert(bytes.len() <= u64::MAX);
        assert forall|k: int| 0 <= k < e.len() implies (#[trigger] <String as DeserializeRevisioned>::spec_decode(
            e.take(k),
        )) is Err by {
            if k < l.len() {
                assert(e.take(k) == l.take(k));
                lemma_varint_prefix(bytes.len() as u64, k);
            } else {
                let tail = bytes.take(k - l.len());
                assert(e.take(k) == l + tail);
                lemma_decode_encode_len(bytes.len(), tail);
            }
        }
    }
}

impl<T: RevisionedPrefixFree> RevisionedPrefixFree for Option<T> {
    /// Either only the tag is left, or the value after it is cut off.
    proof fn lemma_prefixes_fail(v: Option<T>) {
        let e = <Option<T> as SerializeRevisioned>::spec_encode(v.model());
        if let Some(x) = v {
            let ex = T::spec_encode(x.model());
            assert(e == seq![1u8] + ex);
            T::lemma_prefixes_fail(x);
            assert forall|k: int| 0 <= k < e.len() implies (#[trigger] <Option<T> as DeserializeRevisioned>::spec_decode(
                e.take(k),
            )) is Err by {
                if k > 0 {
                    assert(e.take(k)[0] == 1u8);
                    assert(e.take(k).skip(1) == ex.take(k - 1));
                }
            }
        }
    }
}

impl<T: RevisionedPrefixFree> RevisionedPrefixFree for Box<T> {
    /// The encoding of the value inside.
    proof fn lemma_prefixes_fail(v: Box<T>) {
        T::lemma_prefixes_fail(*v);
    }
}

impl<T: RevisionedPrefixFree> RevisionedPrefixFree for Range<T> {
    /// Either the start is cut off, or it is read whole and the end is cut off.
    proof fn lemma_prefixes_fail(v: Range<T>) {
        let a = T::spec_encode(v.start.model());
        let b = T::spec_encode(v.end.model());
        assert(<Range<T> as SerializeRevisioned>::spec_encode(v.model()) == a + b);
        T::lemma_prefixes_fail(v.start);
        T::lemma_prefixes_fail(v.end);
        lemma_range_prefixes_fail(v);
    }
}

impl<A: RevisionedPrefixFree, B: RevisionedPrefixFree> RevisionedPrefixFree for (A, B) {
    /// Either the first element is cut off, or it is read whole and the second is cut off.
    proof fn lemma_prefixes_fail(v: (A, B)) {
        let a = A::spec_encode(v.0.model());
        let b = B::spec_encode(v.1.model());
        let e = <(A, B) as SerializeRevisioned>::spec_encode(v.model());
        assert(e == a + b);
        A::lemma_prefixes_fail(v.0);
        B::lemma_prefixes_fail(v.1);
        assert forall|k: int| 0 <= k < e.len() implies (#[trigger] <(A, B) as DeserializeRevisioned>::spec_decode(
            e.take(k),
        )) is Err by {
            if k < a.len() {
                assert(e.take(k) == a.take(k));
            } else {
                let tail = b.take(k - a.len());
                assert(e.take(k) == a + tail);
                A::lemma_decode_encode(v.0, tail);
                assert((a + tail).skip(a.len() as int) == tail);
            }
        }
    }
}

/// Cutting the encoding of a vector short never gives a vector.
pub trait RevisionedPrefixFreeVec: RevisionedRoundTripVec {
    /// Decoding a strict prefix of the bytes that serializing a vector of `vs` writes fails.
    proof fn lemma_vec_prefixes_fail(vs: Seq<Self>, k: int)
        requires
            vs.len() <= usize::MAX,
            Self::spec_encode_vec(models(vs)).len() <= usize::MAX,
            0 <= k < Self::spec_encode_vec(models(vs)).len(),
        ensures
            Self::spec_decode_vec(Self::spec_encode_vec(models(vs)).take(k)) is Err,
    ;
}

impl<T: RevisionedPrefixFreeVec> RevisionedPrefixFree for Vec<T> {
    /// The layout that the element type gives vectors.
    proof fn lemma_prefixes_fail(v: Vec<T>) {
        let e = <Vec<T> as SerializeRevisioned>::spec_encode(v.model());
        assert(v.len() == v@.len());
        assert forall|k: int| 0 <= k < e.len() implies (#[trigger] <Vec<T> as DeserializeRevisioned>::spec_decode(
            e.take(k),
        )) is Err by {
            T::lemma_vec_prefixes_fail(v@, k);
        }
    }
}

/// Each value's encoding is part of the encodings of all of them one after the other.
proof fn lemma_encode_each_part<T: SerializeRevisioned>(vs: Seq<T>, i: int)
    requires
        0 <= i < vs.len(),
    ensures
        T::spec_encode(vs[i].model()).len() <= encode_each::<T>(models(vs)).len(),
    decreases vs.len(),
{
    let init = vs.drop_last();
    assert(models(vs).drop_last() == models(init));
    if i < vs.len() - 1 {
        assert(init[i] == vs[i]);
        lemma_encode_each_part(init, i);
    }
}

/// Decoding a strict prefix of a vector laid out element by element fails, when the
/// element type is prefix-free.
pub proof fn lemma_generic_vec_prefixes<T: RevisionedPrefixFree>(vs: Seq<T>, k: int)
    requires
        vs.len() <= usize::MAX,
        encode_vec_generic::<T>(models(vs)).len() <= usize::MAX,
        0 <= k < encode_vec_generic::<T>(models(vs)).len(),
    ensures
        crate::implementations::vecs::decode_vec_generic::<T>(
            encode_vec_generic::<T>(models(vs)).take(k),
        ) is Err,
{
    assert forall|i: int| 0 <= i < vs.len() implies strict_prefixes_fail::<T>(#[trigger] vs[i].model()) by {
        lemma_encode_each_part(vs, i);
        T::lemma_prefixes_fail(vs[i]);
    }
    lemma_vec_generic_prefixes_fail(vs, k);
}

/// Decoding a strict prefix of a length-prefixed body fails, where the decoder reads the
/// length and then needs `need` more bytes, `need` being the whole body: either the
/// length is cut off, or fewer bytes than needed follow it.
proof fn lemma_length_prefixed_prefix(len: nat, body: Seq<u8>, k: int)
    requires
        len <= usize::MAX,
        0 <= k < spec_encode_len(len).len() + body.len(),
    ensures
        k < spec_encode_len(len).len() ==> crate::implementations::vecs::spec_decode_len(
            (spec_encode_len(len) + body).take(k),
        ) is Err,
        k >= spec_encode_len(len).len() ==> crate::implementations::vecs::spec_decode_len(
            (spec_encode_len(len) + body).take(k),
        ) == Ok::<(nat, nat), crate::ErrorKind>((len, spec_encode_len(len).len()))
            && (spec_encode_len(len) + body).take(k).len() - spec_encode_len(len).len() < body.len(),
{
    let l = spec_encode_len(len);
    let e = l + body;
    if k < l.len() {
        assert(e.take(k) == l.take(k));
        lemma_varint_prefix(len as u64, k);
    } else {
        let tail = body.take(k - l.len());
        assert(e.take(k) == l + tail);
        lemma_decode_encode_len(len, tail);
    }
}

impl RevisionedPrefixFreeVec for usize {
    /// Element by element.
    proof fn lemma_vec_prefixes_fail(vs: Seq<usize>, k: int) {
        lemma_generic_vec_prefixes(vs, k);
    }
}

impl RevisionedPrefixFreeVec for isize {
    /// Element by element.
    proof fn lemma_vec_prefixes_fail(vs: Seq<isize>, k: int) {
        lemma_generic_vec_prefixes(vs, k);
    }
}

impl RevisionedPrefixFreeVec for String {
    /// Element by element.
    proof fn lemma_vec_prefixes_fail(vs: Seq<String>, k: int) {
        lemma_generic_vec_prefixes(vs, k);
    }
}

impl<T: RevisionedPrefixFree> RevisionedPrefixFreeVec for Option<T> {
    /// Element by element.
    proof fn lemma_vec_prefixes_fail(vs: Seq<Option<T>>, k: int) {
        lemma_generic_vec_prefixes(vs, k);
    }
}

impl<T: RevisionedPrefixFree> RevisionedPrefixFreeVec for Box<T> {
    /// Element by element.
    proof fn lemma_vec_prefixes_fail(vs: Seq<Box<T>>, k: int) {
        lemma_generic_vec_prefixes(vs, k);
    }
}

impl<T: RevisionedPrefixFree> RevisionedPrefixFreeVec for Range<T> {
    /// Element by element.
    proof fn lemma_vec_prefixes_fail(vs: Seq<Range<T>>, k: int) {
        lemma_generic_vec_prefixes(vs, k);
    }
}

impl<A: RevisionedPrefixFree, B: RevisionedPrefixFree> RevisionedPrefixFreeVec for (A, B) {
    /// Element by element.
    proof fn lemma_vec_prefixes_fail(vs: Seq<(A, B)>, k: int) {
        lemma_generic_vec_prefixes(vs, k);
    }
}

impl<T: RevisionedPrefixFreeVec> RevisionedPrefixFreeVec for Vec<T> {
    /// Element by element.
    proof fn lemma_vec_prefixes_fail(vs: Seq<Vec<T>>, k: int) {
        lemma_generic_vec_prefixes(vs, k);
    }
}

impl RevisionedPrefixFreeVec for u8 {
    /// The length, then the bytes.
    proof fn lemma_vec_prefixes_fail(vs: Seq<u8>, k: int) {
        assert(models(vs) == vs);
        lemma_length_prefixed_prefix(vs.len(), vs, k);
    }
}

impl RevisionedPrefixFreeVec for i8 {
    /// The length, then the bytes.
    proof fn lemma_vec_prefixes_fail(vs: Seq<i8>, k: int) {
        assert(models(vs) == vs);
        let bytes = crate::implementations::primitives::i8_bytes(vs);
        lemma_length_prefixed_prefix(bytes.len(), bytes, k);
    }
}

impl RevisionedPrefixFreeVec for bool {
    /// The length, then the packed bytes.
    proof fn lemma_vec_prefixes_fail(vs: Seq<bool>, k: int) {
        assert(models(vs) == vs);
        crate::implementations::specialised::lemma_bool_vec_size(vs);
        lemma_length_prefixed_prefix(vs.len(), crate::implementations::specialised::pack_bools(vs), k);
    }
}

impl RevisionedPrefixFreeVec for u16 {
    /// The length, then each number's fixed-width bytes.
    proof fn lemma_vec_prefixes_fail(vs: Seq<u16>, k: int) {
        assert(models(vs) == vs);
        crate::implementations::specialised::lemma_concat_le(vs);
        lemma_length_prefixed_prefix(vs.len(), crate::implementations::specialised::concat_le(vs), k);
    }
}

impl RevisionedPrefixFreeVec for u32 {
    /// The length, then each number's fixed-width bytes.
    proof fn lemma_vec_prefixes_fail(vs: Seq<u32>, k: int) {
        assert(models(vs) == vs);
        crate::implementations::specialised::lemma_concat_le(vs);
        lemma_length_prefixed_prefix(vs.len(), crate::implementations::specialised::concat_le(vs), k);
    }
}

impl RevisionedPrefixFreeVec for u64 {
    /// The length, then each number's fixed-width bytes.
    proof fn lemma_vec_prefixes_fail(vs: Seq<u64>, k: int) {
        assert(models(vs) == vs);
        crate::implementations::specialised::lemma_concat_le(vs);
        lemma_length_prefixed_prefix(vs.len(), crate::implementations::specialised::concat_le(vs), k);
    }
}

impl RevisionedPrefixFreeVec for i16 {
    /// The length, then each number's fixed-width bytes.
    proof fn lemma_vec_prefixes_fail(vs: Seq<i16>, k: int) {
        assert(models(vs) == vs);
        crate::implementations::specialised::lemma_concat_le(vs);
        lemma_length_prefixed_prefix(vs.len(), crate::implementations::specialised::concat_le(vs), k);
    }
}

impl RevisionedPrefixFreeVec for i32 {
    /// The length, then each number's fixed-width bytes.
    proof fn lemma_vec_prefixes_fail(vs: Seq<i32>, k: int) {
        assert(models(vs) == vs);
        crate::implementations::specialised::lemma_concat_le(vs);
        lemma_length_prefixed_prefix(vs.len(), crate::implementations::specialised::concat_le(vs), k);
    }
}

impl RevisionedPrefixFreeVec for i64 {
    /// The length, then each number's fixed-width bytes.
    proof fn lemma_vec_prefixes_fail(vs: Seq<i64>, k: int) {
        assert(models(vs) == vs);
        crate::implementations::specialised::lemma_concat_le(vs);
        lemma_length_prefixed_prefix(vs.len(), crate::implementations::specialised::concat_le(vs), k);
    }
}

impl<K: OrderedKey + RevisionedPrefixFree, V: RevisionedPrefixFree> RevisionedPrefixFree for BTreeMap<
    K,
    V,
> {
    /// The entries in key order, laid out as a vector of pairs.
    proof fn lemma_prefixes_fail(v: BTreeMap<K, V>) {
        broadcast use vstd::std_specs::btree::group_btree_axioms;
        K::lemma_ordered();
        let mm = v.model();
        assert(mm.dom() == v@.dom());
        crate::implementations::ordered::lemma_sorted_keys(v@.dom());
        let ks = crate::implementations::ordered::sorted_keys(v@.dom());
        let vs = ks.map_values(|k: K| (k, v@[k]));
        assert(models(vs) == crate::implementations::collections::map_entries(mm));
        assert(vs.len() <= usize::MAX) by {
            assert(vstd::std_specs::btree::spec_btree_map_len(&v) == v@.len());
        }
        let e = <BTreeMap<K, V> as SerializeRevisioned>::spec_encode(mm);
        assert forall|k: int| 0 <= k < e.len() implies (#[trigger] <BTreeMap<K, V> as DeserializeRevisioned>::spec_decode(
            e.take(k),
        )) is Err by {
            lemma_generic_vec_prefixes(vs, k);
        }
    }
}

impl<T: OrderedKey + RevisionedPrefixFree> RevisionedPrefixFree for BTreeSet<T> {
    /// The items in increasing order, laid out as a vector.
    proof fn lemma_prefixes_fail(v: BTreeSet<T>) {
        broadcast use vstd::std_specs::btree::group_btree_axioms;
        T::lemma_ordered();
        crate::implementations::collections::lemma_btree_set_finite(&v);
        let ks = crate::implementations::ordered::sorted_keys(v@);
        assert(models(ks) == ks);
        assert(ks.len() <= usize::MAX) by {
            crate::implementations::ordered::lemma_sorted_keys(v@);
            assert(vstd::std_specs::btree::spec_btree_set_len(&v) == v@.len());
        }
        let e = <BTreeSet<T> as SerializeRevisioned>::spec_encode(v@);
        assert forall|k: int| 0 <= k < e.len() implies (#[trigger] <BTreeSet<T> as DeserializeRevisioned>::spec_decode(
            e.take(k),
        )) is Err by {
            lemma_generic_vec_prefixes(ks, k);
        }
    }
}

/// Decoding a strict prefix of the encoding of a variable-length 128-bit integer fails:
/// the marker byte announces more bytes than are there.
proof fn lemma_varint128_prefix(x: u128, k: int)
    requires
        0 <= k < crate::implementations::primitives::spec_encode_u128(x).len(),
    ensures
        crate::implementations::primitives::spec_decode_u128(
            crate::implementations::primitives::spec_encode_u128(x).take(k),
        ) is Err,
{
    crate::implementations::le::lemma_auto_spec_u16_to_from_le_bytes();
    crate::implementations::le::lemma_auto_spec_u32_to_from_le_bytes();
    crate::implementations::le::lemma_auto_spec_u64_to_from_le_bytes();
    crate::implementations::le::lemma_auto_spec_u128_to_from_le_bytes();
    let e = crate::implementations::primitives::spec_encode_u128(x);
    if k > 0 {
        assert(e.take(k)[0] == e[0]);
    }
}

impl RevisionedPrefixFree for u128 {
    /// The encoding is a variable-length 128-bit integer, whose marker byte announces more
    /// bytes than a strict prefix holds.
    proof fn lemma_prefixes_fail(v: u128) {
        let e = crate::implementations::primitives::spec_encode_u128(v);
        assert forall|k: int| 0 <= k < e.len() implies (#[trigger] <u128 as DeserializeRevisioned>::spec_decode(
            e.take(k),
        )) is Err by {
            lemma_varint128_prefix(v, k);
        }
    }
}

impl RevisionedPrefixFreeVec for u128 {
    /// The length, then each number's fixed-width bytes.
    proof fn lemma_vec_prefixes_fail(vs: Seq<u128>, k: int) {
        assert(models(vs) == vs);
        crate::implementations::specialised::lemma_concat_le(vs);
        lemma_length_prefixed_prefix(vs.len(), crate::implementations::specialised::concat_le(vs), k);
    }
}

impl RevisionedPrefixFree for i128 {
    /// The encoding is a variable-length 128-bit integer, whose marker byte announces more
    /// bytes than a strict prefix holds.
    proof fn lemma_prefixes_fail(v: i128) {
        let e = crate::implementations::primitives::spec_encode_u128(crate::implementations::primitives::spec_zigzag_128(v));
        assert forall|k: int| 0 <= k < e.len() implies (#[trigger] <i128 as DeserializeRevisioned>::spec_decode(
            e.take(k),
        )) is Err by {
            lemma_varint128_prefix(crate::implementations::primitives::spec_zigzag_128(v), k);
        }
    }
}

impl RevisionedPrefixFreeVec for i128 {
    /// The length, then each number's fixed-width bytes.
    proof fn lemma_vec_prefixes_fail(vs: Seq<i128>, k: int) {
        assert(models(vs) == vs);
        crate::implementations::specialised::lemma_concat_le(vs);
        lemma_length_prefixed_prefix(vs.len(), crate::implementations::specialised::concat_le(vs), k);
    }
}

/// Decoding `vs.len()` values one after the other from a strict prefix of their
/// encodings fails, when the type is prefix-free.
pub proof fn lemma_each_prefix<T: RevisionedPrefixFree>(vs: Seq<T>, k: int)
    requires
        encode_each::<T>(models(vs)).len() <= usize::MAX,
        0 <= k < encode_each::<T>(models(vs)).len(),
    ensures
        decode_each::<T>(encode_each::<T>(models(vs)).take(k), vs.len()) is Err,
{
    assert forall|i: int| 0 <= i < vs.len() implies strict_prefixes_fail::<T>(#[trigger] vs[i].model()) by {
        lemma_encode_each_part(vs, i);
        T::lemma_prefixes_fail(vs[i]);
    }
    crate::implementations::vecs::lemma_each_prefixes_fail(vs, k);
}

impl<T: RevisionedPrefixFree> RevisionedPrefixFree for std::sync::Arc<T> {
    /// The encoding of the value inside.
    proof fn lemma_prefixes_fail(v: std::sync::Arc<T>) {
        T::lemma_prefixes_fail(crate::implementations::arc::arc_inner(v));
    }
}

impl<'a, T: Clone + RevisionedPrefixFree> RevisionedPrefixFree for std::borrow::Cow<'a, T> {
    /// The encoding of the value inside.
    proof fn lemma_prefixes_fail(v: std::borrow::Cow<'a, T>) {
        match v {
            std::borrow::Cow::Borrowed(b) => T::lemma_prefixes_fail(*b),
            std::borrow::Cow::Owned(o) => T::lemma_prefixes_fail(o),
        }
    }
}

impl<A: RevisionedPrefixFree> RevisionedPrefixFree for (A,) {
    /// The encoding of the one element.
    proof fn lemma_prefixes_fail(v: (A,)) {
        A::lemma_prefixes_fail(v.0);
        let a = A::spec_encode(v.0.model());
        assert forall|k: int| 0 <= k < a.len() implies (#[trigger] <(A,) as DeserializeRevisioned>::spec_decode(
            a.take(k),
        )) is Err by {
            assert(a.take(k).skip(0) == a.take(k));
        }
    }
}

impl<T: RevisionedPrefixFree, E: RevisionedPrefixFree> RevisionedPrefixFree for Result<T, E> {
    /// Either the variant index is cut off, or the value after it is.
    proof fn lemma_prefixes_fail(v: Result<T, E>) {
        let e = <Result<T, E> as SerializeRevisioned>::spec_encode(v.model());
        crate::implementations::primitives::lemma_encoded_u64_size(0);
        crate::implementations::primitives::lemma_encoded_u64_size(1);
        match v {
            Ok(x) => {
                let ex = T::spec_encode(x.model());
                T::lemma_prefixes_fail(x);
                assert(e == seq![0u8] + ex);
                assert forall|k: int| 0 <= k < e.len() implies (#[trigger] <Result<T, E> as DeserializeRevisioned>::spec_decode(
                    e.take(k),
                )) is Err by {
                    if k > 0 {
                        assert(e.take(k)[0] == 0u8);
                        assert(e.take(k).skip(1) == ex.take(k - 1));
                    }
                }
            },
            Err(y) => {
                let ey = E::spec_encode(y.model());
                E::lemma_prefixes_fail(y);
                assert(e == seq![1u8] + ey);
                assert forall|k: int| 0 <= k < e.len() implies (#[trigger] <Result<T, E> as DeserializeRevisioned>::spec_decode(
                    e.take(k),
                )) is Err by {
                    if k > 0 {
                        assert(e.take(k)[0] == 1u8);
                        assert(e.take(k).skip(1) == ey.take(k - 1));
                    }
                }
            },
        }
    }
}

impl<T: Copy + Default + RevisionedPrefixFree> RevisionedPrefixFree for [T; 1] {
    /// The elements one after the other.
    proof fn lemma_prefixes_fail(v: [T; 1]) {
        let e = <[T; 1] as SerializeRevisioned>::spec_encode(v.model());
        assert forall|k: int| 0 <= k < e.len() implies (#[trigger] <[T; 1] as DeserializeRevisioned>::spec_decode(
            e.take(k),
        )) is Err by {
            lemma_each_prefix(v@, k);
        }
    }
}

impl<T: Copy + Default + RevisionedPrefixFree> RevisionedPrefixFree for [T; 2] {
    /// The elements one after the other.
    proof fn lemma_prefixes_fail(v: [T; 2]) {
        let e = <[T; 2] as SerializeRevisioned>::spec_encode(v.model());
        assert forall|k: int| 0 <= k < e.len() implies (#[trigger] <[T; 2] as DeserializeRevisioned>::spec_decode(
            e.take(k),
        )) is Err by {
            lemma_each_prefix(v@, k);
        }
    }
}

impl<T: Copy + Default + RevisionedPrefixFree> RevisionedPrefixFree for [T; 3] {
    /// The elements one after the other.
    proof fn lemma_prefixes_fail(v: [T; 3]) {
        let e = <[T; 3] as SerializeRevisioned>::spec_encode(v.model());
        assert forall|k: int| 0 <= k < e.len() implies (#[trigger] <[T; 3] as DeserializeRevisioned>::spec_decode(
            e.take(k),
        )) is Err by {
            lemma_each_prefix(v@, k);
        }
    }
}

impl<T: Copy + Default + RevisionedPrefixFree> RevisionedPrefixFree for [T; 4] {
    /// The elements one after the other.
    proof fn lemma_prefixes_fail(v: [T; 4]) {
        let e = <[T; 4] as SerializeRevisioned>::spec_encode(v.model());
        assert forall|k: int| 0 <= k < e.len() implies (#[trigger] <[T; 4] as DeserializeRevisioned>::spec_decode(
            e.take(k),
        )) is Err by {
            lemma_each_prefix(v@, k);
        }
    }
}

impl<T: Copy + Default + RevisionedPrefixFree> RevisionedPrefixFree for [T; 5] {
    /// The elements one after the other.
    proof fn lemma_prefixes_fail(v: [T; 5]) {
        let e = <[T; 5] as SerializeRevisioned>::spec_encode(v.model());
        assert forall|k: int| 0 <= k < e.len() implies (#[trigger] <[T; 5] as DeserializeRevisioned>::spec_decode(
            e.take(k),
        )) is Err by {
            lemma_each_prefix(v@, k);
        }
    }
}

impl<T: Copy + Default + RevisionedPrefixFree> RevisionedPrefixFree for [T; 6] {
    /// The elements one after the other.
    proof fn lemma_prefixes_fail(v: [T; 6]) {
        let e = <[T; 6] as SerializeRevisioned>::spec_encode(v.model());
        assert forall|k: int| 0 <= k < e.len() implies (#[trigger] <[T; 6] as DeserializeRevisioned>::spec_decode(
            e.take(k),
        )) is Err by {
            lemma_each_prefix(v@, k);
        }
    }
}

impl<T: Copy + Default + RevisionedPrefixFree> RevisionedPrefixFree for [T; 7] {
    /// The elements one after the other.
    proof fn lemma_prefixes_fail(v: [T; 7]) {
        let e = <[T; 7] as SerializeRevisioned>::spec_encode(v.model());
        assert forall|k: int| 0 <= k < e.len() implies (#[trigger] <[T; 7] as DeserializeRevisioned>::spec_decode(
            e.take(k),
        )) is Err by {
            lemma_each_prefix(v@, k);
        }
    }
}

impl<T: Copy + Default + RevisionedPrefixFree> RevisionedPrefixFree for [T; 8] {
    /// The elements one after the other.
    proof fn lemma_prefixes_fail(v: [T; 8]) {
        let e = <[T; 8] as SerializeRevisioned>::spec_encode(v.model());
        assert forall|k: int| 0 <= k < e.len() implies (#[trigger] <[T; 8] as DeserializeRevisioned>::spec_decode(
            e.take(k),
        )) is Err by {
            lemma_each_prefix(v@, k);
        }
    }
}

impl<T: Copy + Default + RevisionedPrefixFree> RevisionedPrefixFree for [T; 9] {
    /// The elements one after the other.
    proof fn lemma_prefixes_fail(v: [T; 9]) {
        let e = <[T; 9] as SerializeRevisioned>::spec_encode(v.model());
        assert forall|k: int| 0 <= k < e.len() implies (#[trigger] <[T; 9] as DeserializeRevisioned>::spec_decode(
            e.take(k),
        )) is Err by {
            lemma_each_prefix(v@, k);
        }
    }
}

impl<T: Copy + Default + RevisionedPrefixFree> RevisionedPrefixFree for [T; 10] {
    /// The elements one after the other.
    proof fn lemma_prefixes_fail(v: [T; 10]) {
        let e = <[T; 10] as SerializeRevisioned>::spec_encode(v.model());
        assert forall|k: int| 0 <= k < e.len() implies (#[trigger] <[T; 10] as DeserializeRevisioned>::spec_decode(
            e.take(k),
        )) is Err by {
            lemma_each_prefix(v@, k);
        }
    }
}

impl<T: Copy + Default + RevisionedPrefixFree> RevisionedPrefixFree for [T; 11] {
    /// The elements one after the other.
    proof fn lemma_prefixes_fail(v: [T; 11]) {
        let e = <[T; 11] as SerializeRevisioned>::spec_encode(v.model());
        assert forall|k: int| 0 <= k < e.len() implies (#[trigger] <[T; 11] as DeserializeRevisioned>::spec_decode(
            e.take(k),
        )) is Err by {
            lemma_each_prefix(v@, k);
        }
    }
}

impl<T: Copy + Default + RevisionedPrefixFree> RevisionedPrefixFree for [T; 12] {
    /// The elements one after the other.
    proof fn lemma_prefixes_fail(v: [T; 12]) {
        let e = <[T; 12] as SerializeRevisioned>::spec_encode(v.model());
        assert forall|k: int| 0 <= k < e.len() implies (#[trigger] <[T; 12] as DeserializeRevisioned>::spec_decode(
            e.take(k),
        )) is Err by {
            lemma_each_prefix(v@, k);
        }
    }
}

impl<T: Copy + Default + RevisionedPrefixFree> RevisionedPrefixFree for [T; 13] {
    /// The elements one after the other.
    proof fn lemma_prefixes_fail(v: [T; 13]) {
        let e = <[T; 13] as SerializeRevisioned>::spec_encode(v.model());
        assert forall|k: int| 0 <= k < e.len() implies (#[trigger] <[T; 13] as DeserializeRevisioned>::spec_decode(
            e.take(k),
        )) is Err by {
            lemma_each_prefix(v@, k);
        }
    }
}

impl<T: Copy + Default + RevisionedPrefixFree> RevisionedPrefixFree for [T; 14] {
    /// The elements one after the other.
    proof fn lemma_prefixes_fail(v: [T; 14]) {
        let e = <[T; 14] as SerializeRevisioned>::spec_encode(v.model());
        assert forall|k: int| 0 <= k < e.len() implies (#[trigger] <[T; 14] as DeserializeRevisioned>::spec_decode(
            e.take(k),
        )) is Err by {
            lemma_each_prefix(v@, k);
        }
    }
}

impl<T: Copy + Default + RevisionedPrefixFree> RevisionedPrefixFree for [T; 15] {
    /// The elements one after the other.
    proof fn lemma_prefixes_fail(v: [T; 15]) {
        let e = <[T; 15] as SerializeRevisioned>::spec_encode(v.model());
        assert forall|k: int| 0 <= k < e.len() implies (#[trigger] <[T; 15] as DeserializeRevisioned>::spec_decode(
            e.take(k),
        )) is Err by {
            lemma_each_prefix(v@, k);
        }
    }
}

impl<T: Copy + Default + RevisionedPrefixFree> RevisionedPrefixFree for [T; 16] {
    /// The elements one after the other.
    proof fn lemma_prefixes_fail(v: [T; 16]) {
        let e = <[T; 16] as SerializeRevisioned>::spec_encode(v.model());
        assert forall|k: int| 0 <= k < e.len() implies (#[trigger] <[T; 16] as DeserializeRevisioned>::spec_decode(
            e.take(k),
        )) is Err by {
            lemma_each_prefix(v@, k);
        }
    }
}

impl<T: Copy + Default + RevisionedPrefixFree> RevisionedPrefixFree for [T; 17] {
    /// The elements one after the other.
    proof fn lemma_prefixes_fail(v: [T; 17]) {
        let e = <[T; 17] as SerializeRevisioned>::spec_encode(v.model());
        assert forall|k: int| 0 <= k < e.len() implies (#[trigger] <[T; 17] as DeserializeRevisioned>::spec_decode(
            e.take(k),
        )) is Err by {
            lemma_each_prefix(v@, k);
        }
    }
}

impl<T: Copy + Default + RevisionedPrefixFree> RevisionedPrefixFree for [T; 18] {
    /// The elements one after the other.
    proof fn lemma_prefixes_fail(v: [T; 18]) {
        let e = <[T; 18] as SerializeRevisioned>::spec_encode(v.model());
        assert forall|k: int| 0 <= k < e.len() implies (#[trigger] <[T; 18] as DeserializeRevisioned>::spec_decode(
            e.take(k),
        )) is Err by {
            lemma_each_prefix(v@, k);
        }
    }
}

impl<T: Copy + Default + RevisionedPrefixFree> RevisionedPrefixFree for [T; 19] {
    /// The elements one after the other.
    proof fn lemma_prefixes_fail(v: [T; 19]) {
        let e = <[T; 19] as SerializeRevisioned>::spec_encode(v.model());
        assert forall|k: int| 0 <= k < e.len() implies (#[trigger] <[T; 19] as DeserializeRevisioned>::spec_decode(
            e.take(k),
        )) is Err by {
            lemma_each_prefix(v@, k);
        }
    }
}

impl<T: Copy + Default + RevisionedPrefixFree> RevisionedPrefixFree for [T; 20] {
    /// The elements one after the other.
    proof fn lemma_prefixes_fail(v: [T; 20]) {
        let e = <[T; 20] as SerializeRevisioned>::spec_encode(v.model());
        assert forall|k: int| 0 <= k < e.len() implies (#[trigger] <[T; 20] as DeserializeRevisioned>::spec_decode(
            e.take(k),
        )) is Err by {
            lemma_each_prefix(v@, k);
        }
    }
}

impl<T: Copy + Default + RevisionedPrefixFree> RevisionedPrefixFree for [T; 21] {
    /// The elements one after the other.
    proof fn lemma_prefixes_fail(v: [T; 21]) {
        let e = <[T; 21] as SerializeRevisioned>::spec_encode(v.model());
        assert forall|k: int| 0 <= k < e.len() implies (#[trigger] <[T; 21] as DeserializeRevisioned>::spec_decode(
            e.take(k),
        )) is Err by {
            lemma_each_prefix(v@, k);
        }
    }
}

impl<T: Copy + Default + RevisionedPrefixFree> RevisionedPrefixFree for [T; 22] {
    /// The elements one after the other.
    proof fn lemma_prefixes_fail(v: [T; 22]) {
        let e = <[T; 22] as SerializeRevisioned>::spec_encode(v.model());
        assert forall|k: int| 0 <= k < e.len() implies (#[trigger] <[T; 22] as DeserializeRevisioned>::spec_decode(
            e.take(k),
        )) is Err by {
            lemma_each_prefix(v@, k);
        }
    }
}

impl<T: Copy + Default + RevisionedPrefixFree> RevisionedPrefixFree for [T; 23] {
    /// The elements one after the other.
    proof fn lemma_prefixes_fail(v: [T; 23]) {
        let e = <[T; 23] as SerializeRevisioned>::spec_encode(v.model());
        assert forall|k: int| 0 <= k < e.len() implies (#[trigger] <[T; 23] as DeserializeRevisioned>::spec_decode(
            e.take(k),
        )) is Err by {
            lemma_each_prefix(v@, k);
        }
    }
}

impl<T: Copy + Default + RevisionedPrefixFree> RevisionedPrefixFree for [T; 24] {
    /// The elements one after the other.
    proof fn lemma_prefixes_fail(v: [T; 24]) {
        let e = <[T; 24] as SerializeRevisioned>::spec_encode(v.model());
        assert forall|k: int| 0 <= k < e.len() implies (#[trigger] <[T; 24] as DeserializeRevisioned>::spec_decode(
            e.take(k),
        )) is Err by {
            lemma_each_prefix(v@, k);
        }
    }
}

impl<T: Copy + Default + RevisionedPrefixFree> RevisionedPrefixFree for [T; 25] {
    /// The elements one after the other.
    proof fn lemma_prefixes_fail(v: [T; 25]) {
        let e = <[T; 25] as SerializeRevisioned>::spec_encode(v.model());
        assert forall|k: int| 0 <= k < e.len() implies (#[trigger] <[T; 25] as DeserializeRevisioned>::spec_decode(
            e.take(k),
        )) is Err by {
            lemma_each_prefix(v@, k);
        }
    }
}

impl<T: Copy + Default + RevisionedPrefixFree> RevisionedPrefixFree for [T; 26] {
    /// The elements one after the other.
    proof fn lemma_prefixes_fail(v: [T; 26]) {
        let e = <[T; 26] as SerializeRevisioned>::spec_encode(v.model());
        assert forall|k: int| 0 <= k < e.len() implies (#[trigger] <[T; 26] as DeserializeRevisioned>::spec_decode(
            e.take(k),
        )) is Err by {
            lemma_each_prefix(v@, k);
        }
    }
}

impl<T: Copy + Default + RevisionedPrefixFree> RevisionedPrefixFree for [T; 27] {
    /// The elements one after the other.
    proof fn lemma_prefixes_fail(v: [T; 27]) {
        let e = <[T; 27] as SerializeRevisioned>::spec_encode(v.model());
        assert forall|k: int| 0 <= k < e.len() implies (#[trigger] <[T; 27] as DeserializeRevisioned>::spec_decode(
            e.take(k),
        )) is Err by {
            lemma_each_prefix(v@, k);
        }
    }
}

impl<T: Copy + Default + RevisionedPrefixFree> RevisionedPrefixFree for [T; 28] {
    /// The elements one after the other.
    proof fn lemma_prefixes_fail(v: [T; 28]) {
        let e = <[T; 28] as SerializeRevisioned>::spec_encode(v.model());
        assert forall|k: int| 0 <= k < e.len() implies (#[trigger] <[T; 28] as DeserializeRevisioned>::spec_decode(
            e.take(k),
        )) is Err by {
            lemma_each_prefix(v@, k);
        }
    }
}

impl<T: Copy + Default + RevisionedPrefixFree> RevisionedPrefixFree for [T; 29] {
    /// The elements one after the other.
    proof fn lemma_prefixes_fail(v: [T; 29]) {
        let e = <[T; 29] as SerializeRevisioned>::spec_encode(v.model());
        assert forall|k: int| 0 <= k < e.len() implies (#[trigger] <[T; 29] as DeserializeRevisioned>::spec_decode(
            e.take(k),
        )) is Err by {
            lemma_each_prefix(v@, k);
        }
    }
}

impl<T: Copy + Default + RevisionedPrefixFree> RevisionedPrefixFree for [T; 30] {
    /// The elements one after the other.
    proof fn lemma_prefixes_fail(v: [T; 30]) {
        let e = <[T; 30] as SerializeRevisioned>::spec_encode(v.model());
        assert forall|k: int| 0 <= k < e.len() implies (#[trigger] <[T; 30] as DeserializeRevisioned>::spec_decode(
            e.take(k),
        )) is Err by {
            lemma_each_prefix(v@, k);
        }
    }
}

impl<T: Copy + Default + RevisionedPrefixFree> RevisionedPrefixFree for [T; 31] {
    /// The elements one after the other.
    proof fn lemma_prefixes_fail(v: [T; 31]) {
        let e = <[T; 31] as SerializeRevisioned>::spec_encode(v.model());
        assert forall|k: int| 0 <= k < e.len() implies (#[trigger] <[T; 31] as DeserializeRevisioned>::spec_decode(
            e.take(k),
        )) is Err by {
            lemma_each_prefix(v@, k);
        }
    }
}

impl<T: Copy + Default + RevisionedPrefixFree> RevisionedPrefixFree for [T; 32] {
    /// The elements one after the other.
    proof fn lemma_prefixes_fail(v: [T; 32]) {
        let e = <[T; 32] as SerializeRevisioned>::spec_encode(v.model());
        assert forall|k: int| 0 <= k < e.len() implies (#[trigger] <[T; 32] as DeserializeRevisioned>::spec_decode(
            e.take(k),
        )) is Err by {
            lemma_each_prefix(v@, k);
        }
    }
}

impl RevisionedPrefixFree for std::sync::Arc<str> {
    /// Either the length is cut off, or fewer bytes follow it than it announces.
    proof fn lemma_prefixes_fail(v: std::sync::Arc<str>) {
        let m = v.model();
        let e = <std::sync::Arc<str> as SerializeRevisioned>::spec_encode(m);
        let bytes = vstd::utf8::encode_utf8(m);
        let l = spec_encode_len(bytes.len());
        assert(e == l + bytes);
        assert(bytes.len() <= u64::MAX);
        assert forall|k: int| 0 <= k < e.len() implies (#[trigger] <std::sync::Arc<str> as DeserializeRevisioned>::spec_decode(
            e.take(k),
        )) is Err by {
            if k < l.len() {
                assert(e.take(k) == l.take(k));
                lemma_varint_prefix(bytes.len() as u64, k);
            } else {
                let tail = bytes.take(k - l.len());
                assert(e.take(k) == l + tail);
                lemma_decode_encode_len(bytes.len(), tail);
            }
        }
    }
}


impl<T: RevisionedPrefixFree> RevisionedPrefixFreeVec for std::sync::Arc<T> {
    /// Element by element.
    proof fn lemma_vec_prefixes_fail(vs: Seq<std::sync::Arc<T>>, k: int) {
        lemma_generic_vec_prefixes(vs, k);
    }
}

impl<'a, T: Clone + RevisionedPrefixFree> RevisionedPrefixFreeVec for std::borrow::Cow<'a, T> {
    /// Element by element.
    proof fn lemma_vec_prefixes_fail(vs: Seq<std::borrow::Cow<'a, T>>, k: int) {
        lemma_generic_vec_prefixes(vs, k);
    }
}

impl<T: RevisionedPrefixFree, E: RevisionedPrefixFree> RevisionedPrefixFreeVec for Result<T, E> {
    /// Element by element.
    proof fn lemma_vec_prefixes_fail(vs: Seq<Result<T, E>>, k: int) {
        lemma_generic_vec_prefixes(vs, k);
    }
}

impl<A: RevisionedPrefixFree> RevisionedPrefixFreeVec for (A,) {
    /// Element by element.
    proof fn lemma_vec_prefixes_fail(vs: Seq<(A,)>, k: int) {
        lemma_generic_vec_prefixes(vs, k);
    }
}

impl<T: Copy + Default + RevisionedPrefixFree> RevisionedPrefixFreeVec for [T; 1] {
    /// Element by element.
    proof fn lemma_vec_prefixes_fail(vs: Seq<[T; 1]>, k: int) {
        lemma_generic_vec_prefixes(vs, k);
    }
}

impl<T: Copy + Default + RevisionedPrefixFree> RevisionedPrefixFreeVec for [T; 2] {
    /// Element by element.
    proof fn lemma_vec_prefixes_fail(vs: Seq<[T; 2]>, k: int) {
        lemma_generic_vec_prefixes(vs, k);
    }
}

impl<T: Copy + Default + RevisionedPrefixFree> RevisionedPrefixFreeVec for [T; 3] {
    /// Element by element.
    proof fn lemma_vec_prefixes_fail(vs: Seq<[T; 3]>, k: int) {
        lemma_generic_vec_prefixes(vs, k);
    }
}

impl<T: Copy + Default + RevisionedPrefixFree> RevisionedPrefixFreeVec for [T; 4] {
    /// Element by element.
    proof fn lemma_vec_prefixes_fail(vs: Seq<[T; 4]>, k: int) {
        lemma_generic_vec_prefixes(vs, k);
    }
}

impl<T: Copy + Default + RevisionedPrefixFree> RevisionedPrefixFreeVec for [T; 5] {
    /// Element by element.
    proof fn lemma_vec_prefixes_fail(vs: Seq<[T; 5]>, k: int) {
        lemma_generic_vec_prefixes(vs, k);
    }
}

impl<T: Copy + Default + RevisionedPrefixFree> RevisionedPrefixFreeVec for [T; 6] {
    /// Element by element.
    proof fn lemma_vec_prefixes_fail(vs: Seq<[T; 6]>, k: int) {
        lemma_generic_vec_prefixes(vs, k);
    }
}

impl<T: Copy + Default + RevisionedPrefixFree> RevisionedPrefixFreeVec for [T; 7] {
    /// Element by element.
    proof fn lemma_vec_prefixes_fail(vs: Seq<[T; 7]>, k: int) {
        lemma_generic_vec_prefixes(vs, k);
    }
}

impl<T: Copy + Default + RevisionedPrefixFree> RevisionedPrefixFreeVec for [T; 8] {
    /// Element by element.
    proof fn lemma_vec_prefixes_fail(vs: Seq<[T; 8]>, k: int) {
        lemma_generic_vec_prefixes(vs, k);
    }
}

impl<T: Copy + Default + RevisionedPrefixFree> RevisionedPrefixFreeVec for [T; 9] {
    /// Element by element.
    proof fn lemma_vec_prefixes_fail(vs: Seq<[T; 9]>, k: int) {
        lemma_generic_vec_prefixes(vs, k);
    }
}

impl<T: Copy + Default + RevisionedPrefixFree> RevisionedPrefixFreeVec for [T; 10] {
    /// Element by element.
    proof fn lemma_vec_prefixes_fail(vs: Seq<[T; 10]>, k: int) {
        lemma_generic_vec_prefixes(vs, k);
    }
}

impl<T: Copy + Default + RevisionedPrefixFree> RevisionedPrefixFreeVec for [T; 11] {
    /// Element by element.
    proof fn lemma_vec_prefixes_fail(vs: Seq<[T; 11]>, k: int) {
        lemma_generic_vec_prefixes(vs, k);
    }
}

impl<T: Copy + Default + RevisionedPrefixFree> RevisionedPrefixFreeVec for [T; 12] {
    /// Element by element.
    proof fn lemma_vec_prefixes_fail(vs: Seq<[T; 12]>, k: int) {
        lemma_generic_vec_prefixes(vs, k);
    }
}

impl<T: Copy + Default + RevisionedPrefixFree> RevisionedPrefixFreeVec for [T; 13] {
    /// Element by element.
    proof fn lemma_vec_prefixes_fail(vs: Seq<[T; 13]>, k: int) {
        lemma_generic_vec_prefixes(vs, k);
    }
}

impl<T: Copy + Default + RevisionedPrefixFree> RevisionedPrefixFreeVec for [T; 14] {
    /// Element by element.
    proof fn lemma_vec_prefixes_fail(vs: Seq<[T; 14]>, k: int) {
        lemma_generic_vec_prefixes(vs, k);
    }
}

impl<T: Copy + Default + RevisionedPrefixFree> RevisionedPrefixFreeVec for [T; 15] {
    /// Element by element.
    proof fn lemma_vec_prefixes_fail(vs: Seq<[T; 15]>, k: int) {
        lemma_generic_vec_prefixes(vs, k);
    }
}

impl<T: Copy + Default + RevisionedPrefixFree> RevisionedPrefixFreeVec for [T; 16] {
    /// Element by element.
    proof fn lemma_vec_prefixes_fail(vs: Seq<[T; 16]>, k: int) {
        lemma_generic_vec_prefixes(vs, k);
    }
}

impl<T: Copy + Default + RevisionedPrefixFree> RevisionedPrefixFreeVec for [T; 17] {
    /// Element by element.
    proof fn lemma_vec_prefixes_fail(vs: Seq<[T; 17]>, k: int) {
        lemma_generic_vec_prefixes(vs, k);
    }
}

impl<T: Copy + Default + RevisionedPrefixFree> RevisionedPrefixFreeVec for [T; 18] {
    /// Element by element.
    proof fn lemma_vec_prefixes_fail(vs: Seq<[T; 18]>, k: int) {
        lemma_generic_vec_prefixes(vs, k);
    }
}

impl<T: Copy + Default + RevisionedPrefixFree> RevisionedPrefixFreeVec for [T; 19] {
    /// Element by element.
    proof fn lemma_vec_prefixes_fail(vs: Seq<[T; 19]>, k: int) {
        lemma_generic_vec_prefixes(vs, k);
    }
}

impl<T: Copy + Default + RevisionedPrefixFree> RevisionedPrefixFreeVec for [T; 20] {
    /// Element by element.
    proof fn lemma_vec_prefixes_fail(vs: Seq<[T; 20]>, k: int) {
        lemma_generic_vec_prefixes(vs, k);
    }
}

impl<T: Copy + Default + RevisionedPrefixFree> RevisionedPrefixFreeVec for [T; 21] {
    /// Element by element.
    proof fn lemma_vec_prefixes_fail(vs: Seq<[T; 21]>, k: int) {
        lemma_generic_vec_prefixes(vs, k);
    }
}

impl<T: Copy + Default + RevisionedPrefixFree> RevisionedPrefixFreeVec for [T; 22] {
    /// Element by element.
    proof fn lemma_vec_prefixes_fail(vs: Seq<[T; 22]>, k: int) {
        lemma_generic_vec_prefixes(vs, k);
    }
}

impl<T: Copy + Default + RevisionedPrefixFree> RevisionedPrefixFreeVec for [T; 23] {
    /// Element by element.
    proof fn lemma_vec_prefixes_fail(vs: Seq<[T; 23]>, k: int) {
        lemma_generic_vec_prefixes(vs, k);
    }
}

impl<T: Copy + Default + RevisionedPrefixFree> RevisionedPrefixFreeVec for [T; 24] {
    /// Element by element.
    proof fn lemma_vec_prefixes_fail(vs: Seq<[T; 24]>, k: int) {
        lemma_generic_vec_prefixes(vs, k);
    }
}

impl<T: Copy + Default + RevisionedPrefixFree> RevisionedPrefixFreeVec for [T; 25] {
    /// Element by element.
    proof fn lemma_vec_prefixes_fail(vs: Seq<[T; 25]>, k: int) {
        lemma_generic_vec_prefixes(vs, k);
    }
}

impl<T: Copy + Default + RevisionedPrefixFree> RevisionedPrefixFreeVec for [T; 26] {
    /// Element by element.
    proof fn lemma_vec_prefixes_fail(vs: Seq<[T; 26]>, k: int) {
        lemma_generic_vec_prefixes(vs, k);
    }
}

impl<T: Copy + Default + RevisionedPrefixFree> RevisionedPrefixFreeVec for [T; 27] {
    /// Element by element.
    proof fn lemma_vec_prefixes_fail(vs: Seq<[T; 27]>, k: int) {
        lemma_generic_vec_prefixes(vs, k);
    }
}

impl<T: Copy + Default + RevisionedPrefixFree> RevisionedPrefixFreeVec for [T; 28] {
    /// Element by element.
    proof fn lemma_vec_prefixes_fail(vs: Seq<[T; 28]>, k: int) {
        lemma_generic_vec_prefixes(vs, k);
    }
}

impl<T: Copy + Default + RevisionedPrefixFree> RevisionedPrefixFreeVec for [T; 29] {
    /// Element by element.
    proof fn lemma_vec_prefixes_fail(vs: Seq<[T; 29]>, k: int) {
        lemma_generic_vec_prefixes(vs, k);
    }
}

impl<T: Copy + Default + RevisionedPrefixFree> RevisionedPrefixFreeVec for [T; 30] {
    /// Element by element.
    proof fn lemma_vec_prefixes_fail(vs: Seq<[T; 30]>, k: int) {
        lemma_generic_vec_prefixes(vs, k);
    }
}

impl<T: Copy + Default + RevisionedPrefixFree> RevisionedPrefixFreeVec for [T; 31] {
    /// Element by element.
    proof fn lemma_vec_prefixes_fail(vs: Seq<[T; 31]>, k: int) {
        lemma_generic_vec_prefixes(vs, k);
    }
}

impl<T: Copy + Default + RevisionedPrefixFree> RevisionedPrefixFreeVec for [T; 32] {
    /// Element by element.
    proof fn lemma_vec_prefixes_fail(vs: Seq<[T; 32]>, k: int) {
        lemma_generic_vec_prefixes(vs, k);
    }
}

impl<K: OrderedKey + Copy + std::hash::Hash + RevisionedPrefixFree, V: RevisionedPrefixFree> RevisionedPrefixFree for std::collections::HashMap<
    K,
    V,
> {
    /// The entries in key order, laid out as a vector of pairs.
    proof fn lemma_prefixes_fail(v: std::collections::HashMap<K, V>) {
        broadcast use vstd::std_specs::hash::group_hash_axioms;
        K::lemma_ordered();
        let mm = v.model();
        assert(mm.dom() == v@.dom());
        crate::implementations::ordered::lemma_sorted_keys(v@.dom());
        let ks = crate::implementations::ordered::sorted_keys(v@.dom());
        let vs = ks.map_values(|k: K| (k, v@[k]));
        assert(models(vs) == crate::implementations::collections::map_entries(mm));
        assert(vs.len() <= usize::MAX) by {
            assert(vstd::std_specs::hash::spec_hash_map_len(&v) == v@.len());
        }
        let e = <std::collections::HashMap<K, V> as SerializeRevisioned>::spec_encode(mm);
        assert forall|k: int| 0 <= k < e.len() implies (#[trigger] <std::collections::HashMap<K, V> as DeserializeRevisioned>::spec_decode(
            e.take(k),
        )) is Err by {
            lemma_generic_vec_prefixes(vs, k);
        }
    }
}

impl<T: OrderedKey + Copy + std::hash::Hash + RevisionedPrefixFree> RevisionedPrefixFree for std::collections::HashSet<T> {
    /// The items in increasing order, laid out as a vector.
    proof fn lemma_prefixes_fail(v: std::collections::HashSet<T>) {
        broadcast use vstd::std_specs::hash::group_hash_axioms;
        T::lemma_ordered();
        crate::implementations::hashed::lemma_hash_set_finite(&v);
        let ks = crate::implementations::ordered::sorted_keys(v@);
        assert(models(ks) == ks);
        assert(ks.len() <= usize::MAX) by {
            crate::implementations::ordered::lemma_sorted_keys(v@);
            assert(vstd::std_specs::hash::spec_hash_set_len(&v) == v@.len());
        }
        let e = <std::collections::HashSet<T> as SerializeRevisioned>::spec_encode(v@);
        assert forall|k: int| 0 <= k < e.len() implies (#[trigger] <std::collections::HashSet<T> as DeserializeRevisioned>::spec_decode(
            e.take(k),
        )) is Err by {
            lemma_generic_vec_prefixes(ks, k);
        }
    }
}

impl RevisionedPrefixFree for char {
    /// The first byte announces how many bytes the character takes: all of them.
    proof fn lemma_prefixes_fail(v: char) {
        let e = <char as SerializeRevisioned>::spec_encode(v.model());
        <char as RevisionedRoundTrip>::lemma_decode_encode(v, Seq::empty());
        assert(e + Seq::<u8>::empty() == e);
        assert forall|k: int| 0 <= k < e.len() implies (#[trigger] <char as DeserializeRevisioned>::spec_decode(
            e.take(k),
        )) is Err by {
            if k > 0 {
                assert(e.take(k)[0] == e[0]);
            }
        }
    }
}

impl RevisionedPrefixFree for () {
    /// The encoding is empty, so it has no strict prefix.
    proof fn lemma_prefixes_fail(v: ()) {
    }
}

impl<A: RevisionedPrefixFree, B: RevisionedPrefixFree, C: RevisionedPrefixFree> RevisionedPrefixFree for (A, B, C) {
    /// The first element that the prefix cuts off fails to decode; those before it decode
    /// whole.
    #[verifier::rlimit(40)]
    proof fn lemma_prefixes_fail(v: (A, B, C)) {
        let e = <(A, B, C) as SerializeRevisioned>::spec_encode(v.model());
        let e0 = A::spec_encode(v.0.model());
        A::lemma_prefixes_fail(v.0);
        let e1 = B::spec_encode(v.1.model());
        B::lemma_prefixes_fail(v.1);
        let e2 = C::spec_encode(v.2.model());
        C::lemma_prefixes_fail(v.2);
        assert(e == e0 + e1 + e2);
        assert forall|k: int| 0 <= k < e.len() implies (#[trigger] <(A, B, C) as DeserializeRevisioned>::spec_decode(
            e.take(k),
        )) is Err by {
            let p = e.take(k);
            let o0: int = 0;
            let o1: int = (e0.len()) as int;
            let o2: int = (e0.len() + e1.len()) as int;
            let o3: int = e.len() as int;
            if k < o1 {
                assert(p == e0.take(k));
                assert(A::spec_decode(e0.take(k)) is Err);
            } else if k < o2 {
                let r0 = (e1 + e2).take(k - o1);
                assert(p == e0 + r0);
                A::lemma_decode_encode(v.0, r0);
                assert(p.skip(o1) == e1.take(k - o1));
                assert(B::spec_decode(e1.take(k - o1)) is Err);
            } else {
                let r0 = (e1 + e2).take(k - o1);
                assert(p == e0 + r0);
                A::lemma_decode_encode(v.0, r0);
                let r1 = (e2).take(k - o2);
                assert(p.skip(o1) == e1 + r1);
                B::lemma_decode_encode(v.1, r1);
                assert(p.skip(o2) == e2.take(k - o2));
                assert(C::spec_decode(e2.take(k - o2)) is Err);
            }
        }
    }
}

impl<A: RevisionedPrefixFree, B: RevisionedPrefixFree, C: RevisionedPrefixFree, D: RevisionedPrefixFree> RevisionedPrefixFree for (A, B, C, D) {
    /// The first element that the prefix cuts off fails to decode; those before it decode
    /// whole.
    #[verifier::rlimit(40)]
    proof fn lemma_prefixes_fail(v: (A, B, C, D)) {
        let e = <(A, B, C, D) as SerializeRevisioned>::spec_encode(v.model());
        let e0 = A::spec_encode(v.0.model());
        A::lemma_prefixes_fail(v.0);
        let e1 = B::spec_encode(v.1.model());
        B::lemma_prefixes_fail(v.1);
        let e2 = C::spec_encode(v.2.model());
        C::lemma_prefixes_fail(v.2);
        let e3 = D::spec_encode(v.3.model());
        D::lemma_prefixes_fail(v.3);
        assert(e == e0 + e1 + e2 + e3);
        assert forall|k: int| 0 <= k < e.len() implies (#[trigger] <(A, B, C, D) as DeserializeRevisioned>::spec_decode(
            e.take(k),
        )) is Err by {
            let p = e.take(k);
            let o0: int = 0;
            let o1: int = (e0.len()) as int;
            let o2: int = (e0.len() + e1.len()) as int;
            let o3: int = (e0.len() + e1.len() + e2.len()) as int;
            let o4: int = e.len() as int;
            if k < o1 {
                assert(p == e0.take(k));
                assert(A::spec_decode(e0.take(k)) is Err);
            } else if k < o2 {
                let r0 = (e1 + e2 + e3).take(k - o1);
                assert(p == e0 + r0);
                A::lemma_decode_encode(v.0, r0);
                assert(p.skip(o1) == e1.take(k - o1));
                assert(B::spec_decode(e1.take(k - o1)) is Err);
            } else if k < o3 {
                let r0 = (e1 + e2 + e3).take(k - o1);
                assert(p == e0 + r0);
                A::lemma_decode_encode(v.0, r0);
                let r1 = (e2 + e3).take(k - o2);
                assert(p.skip(o1) == e1 + r1);
                B::lemma_decode_encode(v.1, r1);
                assert(p.skip(o2) == e2.take(k - o2));
                assert(C::spec_decode(e2.take(k - o2)) is Err);
            } else {
                let r0 = (e1 + e2 + e3).take(k - o1);
                assert(p == e0 + r0);
                A::lemma_decode_encode(v.0, r0);
                let r1 = (e2 + e3).take(k - o2);
                assert(p.skip(o1) == e1 + r1);
                B::lemma_decode_encode(v.1, r1);
                let r2 = (e3).take(k - o3);
                assert(p.skip(o2) == e2 + r2);
                C::lemma_decode_encode(v.2, r2);
                assert(p.skip(o3) == e3.take(k - o3));
                assert(D::spec_decode(e3.take(k - o3)) is Err);
            }
        }
    }
}

impl<A: RevisionedPrefixFree, B: RevisionedPrefixFree, C: RevisionedPrefixFree, D: RevisionedPrefixFree, E: RevisionedPrefixFree> RevisionedPrefixFree for (A, B, C, D, E) {
    /// The first element that the prefix cuts off fails to decode; those before it decode
    /// whole.
    #[verifier::rlimit(40)]
    proof fn lemma_prefixes_fail(v: (A, B, C, D, E)) {
        let e = <(A, B, C, D, E) as SerializeRevisioned>::spec_encode(v.model());
        let e0 = A::spec_encode(v.0.model());
        A::lemma_prefixes_fail(v.0);
        let e1 = B::spec_encode(v.1.model());
        B::lemma_prefixes_fail(v.1);
        let e2 = C::spec_encode(v.2.model());
        C::lemma_prefixes_fail(v.2);
        let e3 = D::spec_encode(v.3.model());
        D::lemma_prefixes_fail(v.3);
        let e4 = E::spec_encode(v.4.model());
        E::lemma_prefixes_fail(v.4);
        assert(e == e0 + e1 + e2 + e3 + e4);
        assert forall|k: int| 0 <= k < e.len() implies (#[trigger] <(A, B, C, D, E) as DeserializeRevisioned>::spec_decode(
            e.take(k),
        )) is Err by {
            let p = e.take(k);
            let o0: int = 0;
            let o1: int = (e0.len()) as int;
            let o2: int = (e0.len() + e1.len()) as int;
            let o3: int = (e0.len() + e1.len() + e2.len()) as int;
            let o4: int = (e0.len() + e1.len() + e2.len() + e3.len()) as int;
            let o5: int = e.len() as int;
            if k < o1 {
                assert(p == e0.take(k));
                assert(A::spec_decode(e0.take(k)) is Err);
            } else if k < o2 {
                let r0 = (e1 + e2 + e3 + e4).take(k - o1);
                assert(p == e0 + r0);
                A::lemma_decode_encode(v.0, r0);
                assert(p.skip(o1) == e1.take(k - o1));
                assert(B::spec_decode(e1.take(k - o1)) is Err);
            } else if k < o3 {
                let r0 = (e1 + e2 + e3 + e4).take(k - o1);
                assert(p == e0 + r0);
                A::lemma_decode_encode(v.0, r0);
                let r1 = (e2 + e3 + e4).take(k - o2);
                assert(p.skip(o1) == e1 + r1);
                B::lemma_decode_encode(v.1, r1);
                assert(p.skip(o2) == e2.take(k - o2));
                assert(C::spec_decode(e2.take(k - o2)) is Err);
            } else if k < o4 {
                let r0 = (e1 + e2 + e3 + e4).take(k - o1);
                assert(p == e0 + r0);
                A::lemma_decode_encode(v.0, r0);
                let r1 = (e2 + e3 + e4).take(k - o2);
                assert(p.skip(o1) == e1 + r1);
                B::lemma_decode_encode(v.1, r1);
                let r2 = (e3 + e4).take(k - o3);
                assert(p.skip(o2) == e2 + r2);
                C::lemma_decode_encode(v.2, r2);
                assert(p.skip(o3) == e3.take(k - o3));
                assert(D::spec_decode(e3.take(k - o3)) is Err);
            } else {
                let r0 = (e1 + e2 + e3 + e4).take(k - o1);
                assert(p == e0 + r0);
                A::lemma_decode_encode(v.0, r0);
                let r1 = (e2 + e3 + e4).take(k - o2);
                assert(p.skip(o1) == e1 + r1);
                B::lemma_decode_encode(v.1, r1);
                let r2 = (e3 + e4).take(k - o3);
                assert(p.skip(o2) == e2 + r2);
                C::lemma_decode_encode(v.2, r2);
                let r3 = (e4).take(k - o4);
                assert(p.skip(o3) == e3 + r3);
                D::lemma_decode_encode(v.3, r3);
                assert(p.skip(o4) == e4.take(k - o4));
                assert(E::spec_decode(e4.take(k - o4)) is Err);
            }
        }
    }
}

impl<A: RevisionedPrefixFree, B: RevisionedPrefixFree, C: RevisionedPrefixFree, D: RevisionedPrefixFree, E: RevisionedPrefixFree, F: RevisionedPrefixFree> RevisionedPrefixFree for (A, B, C, D, E, F) {
    /// The first element that the prefix cuts off fails to decode; those before it decode
    /// whole.
    #[verifier::rlimit(40)]
    proof fn lemma_prefixes_fail(v: (A, B, C, D, E, F)) {
        let e = <(A, B, C, D, E, F) as SerializeRevisioned>::spec_encode(v.model());
        let e0 = A::spec_encode(v.0.model());
        A::lemma_prefixes_fail(v.0);
        let e1 = B::spec_encode(v.1.model());
        B::lemma_prefixes_fail(v.1);
        let e2 = C::spec_encode(v.2.model());
        C::lemma_prefixes_fail(v.2);
        let e3 = D::spec_encode(v.3.model());
        D::lemma_prefixes_fail(v.3);
        let e4 = E::spec_encode(v.4.model());
        E::lemma_prefixes_fail(v.4);
        let e5 = F::spec_encode(v.5.model());
        F::lemma_prefixes_fail(v.5);
        assert(e == e0 + e1 + e2 + e3 + e4 + e5);
        assert forall|k: int| 0 <= k < e.len() implies (#[trigger] <(A, B, C, D, E, F) as DeserializeRevisioned>::spec_decode(
            e.take(k),
        )) is Err by {
            let p = e.take(k);
            let o0: int = 0;
            let o1: int = (e0.len()) as int;
            let o2: int = (e0.len() + e1.len()) as int;
            let o3: int = (e0.len() + e1.len() + e2.len()) as int;
            let o4: int = (e0.len() + e1.len() + e2.len() + e3.len()) as int;
            let o5: int = (e0.len() + e1.len() + e2.len() + e3.len() + e4.len()) as int;
            let o6: int = e.len() as int;
            if k < o1 {
                assert(p == e0.take(k));
                assert(A::spec_decode(e0.take(k)) is Err);
            } else if k < o2 {
                let r0 = (e1 + e2 + e3 + e4 + e5).take(k - o1);
                assert(p == e0 + r0);
                A::lemma_decode_encode(v.0, r0);
                assert(p.skip(o1) == e1.take(k - o1));
                assert(B::spec_decode(e1.take(k - o1)) is Err);
            } else if k < o3 {
                let r0 = (e1 + e2 + e3 + e4 + e5).take(k - o1);
                assert(p == e0 + r0);
                A::lemma_decode_encode(v.0, r0);
                let r1 = (e2 + e3 + e4 + e5).take(k - o2);
                assert(p.skip(o1) == e1 + r1);
                B::lemma_decode_encode(v.1, r1);
                assert(p.skip(o2) == e2.take(k - o2));
                assert(C::spec_decode(e2.take(k - o2)) is Err);
            } else if k < o4 {
                let r0 = (e1 + e2 + e3 + e4 + e5).take(k - o1);
                assert(p == e0 + r0);
                A::lemma_decode_encode(v.0, r0);
                let r1 = (e2 + e3 + e4 + e5).take(k - o2);
                assert(p.skip(o1) == e1 + r1);
                B::lemma_decode_encode(v.1, r1);
                let r2 = (e3 + e4 + e5).take(k - o3);
                assert(p.skip(o2) == e2 + r2);
                C::lemma_decode_encode(v.2, r2);
                assert(p.skip(o3) == e3.take(k - o3));
                assert(D::spec_decode(e3.take(k - o3)) is Err);
            } else if k < o5 {
                let r0 = (e1 + e2 + e3 + e4 + e5).take(k - o1);
                assert(p == e0 + r0);
                A::lemma_decode_encode(v.0, r0);
                let r1 = (e2 + e3 + e4 + e5).take(k - o2);
                assert(p.skip(o1) == e1 + r1);
                B::lemma_decode_encode(v.1, r1);
                let r2 = (e3 + e4 + e5).take(k - o3);
                assert(p.skip(o2) == e2 + r2);
                C::lemma_decode_encode(v.2, r2);
                let r3 = (e4 + e5).take(k - o4);
                assert(p.skip(o3) == e3 + r3);
                D::lemma_decode_encode(v.3, r3);
                assert(p.skip(o4) == e4.take(k - o4));
                assert(E::spec_decode(e4.take(k - o4)) is Err);
            } else {
                let r0 = (e1 + e2 + e3 + e4 + e5).take(k - o1);
                assert(p == e0 + r0);
                A::lemma_decode_encode(v.0, r0);
                let r1 = (e2 + e3 + e4 + e5).take(k - o2);
                assert(p.skip(o1) == e1 + r1);
                B::lemma_decode_encode(v.1, r1);
                let r2 = (e3 + e4 + e5).take(k - o3);
                assert(p.skip(o2) == e2 + r2);
                C::lemma_decode_encode(v.2, r2);
                let r3 = (e4 + e5).take(k - o4);
                assert(p.skip(o3) == e3 + r3);
                D::lemma_decode_encode(v.3, r3);
                let r4 = (e5).take(k - o5);
                assert(p.skip(o4) == e4 + r4);
                E::lemma_decode_encode(v.4, r4);
                assert(p.skip(o5) == e5.take(k - o5));
                assert(F::spec_decode(e5.take(k - o5)) is Err);
            }
        }
    }
}

impl RevisionedPrefixFreeVec for char {
    /// Element by element.
    proof fn lemma_vec_prefixes_fail(vs: Seq<char>, k: int) {
        lemma_generic_vec_prefixes(vs, k);
    }
}

impl<A: RevisionedPrefixFree, B: RevisionedPrefixFree, C: RevisionedPrefixFree> RevisionedPrefixFreeVec for (A, B, C) {
    /// Element by element.
    proof fn lemma_vec_prefixes_fail(vs: Seq<(A, B, C)>, k: int) {
        lemma_generic_vec_prefixes(vs, k);
    }
}

impl<A: RevisionedPrefixFree, B: RevisionedPrefixFree, C: RevisionedPrefixFree, D: RevisionedPrefixFree> RevisionedPrefixFreeVec for (A, B, C, D) {
    /// Element by element.
    proof fn lemma_vec_prefixes_fail(vs: Seq<(A, B, C, D)>, k: int) {
        lemma_generic_vec_prefixes(vs, k);
    }
}

impl<A: RevisionedPrefixFree, B: RevisionedPrefixFree, C: RevisionedPrefixFree, D: RevisionedPrefixFree, E: RevisionedPrefixFree> RevisionedPrefixFreeVec for (A, B, C, D, E) {
    /// Element by element.
    proof fn lemma_vec_prefixes_fail(vs: Seq<(A, B, C, D, E)>, k: int) {
        lemma_generic_vec_prefixes(vs, k);
    }
}

impl<A: RevisionedPrefixFree, B: RevisionedPrefixFree, C: RevisionedPrefixFree, D: RevisionedPrefixFree, E: RevisionedPrefixFree, F: RevisionedPrefixFree> RevisionedPrefixFreeVec for (A, B, C, D, E, F) {
    /// Element by element.
    proof fn lemma_vec_prefixes_fail(vs: Seq<(A, B, C, D, E, F)>, k: int) {
        lemma_generic_vec_prefixes(vs, k);
    }
}

impl<K: OrderedKey + RevisionedPrefixFree, V: RevisionedPrefixFree> RevisionedPrefixFreeVec for BTreeMap<
    K,
    V,
> {
    /// Element by element.
    proof fn lemma_vec_prefixes_fail(vs: Seq<BTreeMap<K, V>>, k: int) {
        lemma_generic_vec_prefixes(vs, k);
    }
}

impl<T: OrderedKey + RevisionedPrefixFree> RevisionedPrefixFreeVec for BTreeSet<T> {
    /// Element by element.
    proof fn lemma_vec_prefixes_fail(vs: Seq<BTreeSet<T>>, k: int) {
        lemma_generic_vec_prefixes(vs, k);
    }
}

impl<K: OrderedKey + Copy + std::hash::Hash + RevisionedPrefixFree, V: RevisionedPrefixFree> RevisionedPrefixFreeVec for std::collections::HashMap<
    K,
    V,
> {
    /// Element by element.
    proof fn lemma_vec_prefixes_fail(vs: Seq<std::collections::HashMap<K, V>>, k: int) {
        lemma_generic_vec_prefixes(vs, k);
    }
}

impl<T: OrderedKey + Copy + std::hash::Hash + RevisionedPrefixFree> RevisionedPrefixFreeVec for std::collections::HashSet<T> {
    /// Element by element.
    proof fn lemma_vec_prefixes_fail(vs: Seq<std::collections::HashSet<T>>, k: int) {
        lemma_generic_vec_prefixes(vs, k);
    }
}

} // verus!
