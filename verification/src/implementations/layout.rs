use vstd::prelude::*;
use std::borrow::Cow;
use std::collections::{BTreeMap, BTreeSet, HashMap, HashSet};
use std::hash::Hash;
use std::ops::Range;
use std::sync::Arc;
use std::time::Duration;

use crate::implementations::collections::map_entries;
use crate::implementations::ordered::{lemma_sorted_keys, rank_increasing, sorted_keys, OrderedKey};
use crate::implementations::vecs::{encode_each, spec_encode_len};
use crate::implementations::walk::VecLayout;
use crate::{SerializeRevisioned, SerializeRevisionedVec};

verus! {

/// Encoding values one after the other is concatenation: the encodings of two runs of
/// values, joined, are the encoding of the joined run, and one value's run is its own
/// encoding.
pub proof fn lemma_encode_each_concat<T: SerializeRevisioned>(a: Seq<T::Model>, b: Seq<T::Model>, m: T::Model)
    ensures
        encode_each::<T>(a + b) == encode_each::<T>(a) + encode_each::<T>(b),
        encode_each::<T>(seq![m]) == T::spec_encode(m),
    decreases b.len(),
{
    assert(seq![m].drop_last() == Seq::<T::Model>::empty());
    assert(Seq::<u8>::empty() + T::spec_encode(m) == T::spec_encode(m));
    assert(seq![m].last() == m);
    assert(encode_each::<T>(Seq::<T::Model>::empty()) == Seq::<u8>::empty());
    assert(encode_each::<T>(seq![m]) == encode_each::<T>(seq![m].drop_last()) + T::spec_encode(seq![m].last()));
    if b.len() == 0 {
        assert(a + b == a);
    } else {
        lemma_encode_each_concat::<T>(a, b.drop_last(), m);
        assert((a + b).drop_last() == a + b.drop_last());
        assert((a + b).last() == b.last());
    }
}

/// A vector whose element type has no bulk layout is its length, then each element's
/// encoding in order.
pub proof fn lemma_vec_layout<T: VecLayout>(ms: Seq<T::Model>)
    ensures
        !T::spec_bulk() ==> <Vec<T> as SerializeRevisioned>::spec_encode(ms) == spec_encode_len(
            ms.len(),
        ) + encode_each::<T>(ms),
{
    T::lemma_element_layout(ms, Seq::empty());
}

/// A vector of bytes is its length, then the bytes; a vector of `i8` is its length, then
/// each number's two's-complement byte.
pub proof fn lemma_byte_vec_layout(bs: Seq<u8>, is: Seq<i8>)
    ensures
        <Vec<u8> as SerializeRevisioned>::spec_encode(bs) == spec_encode_len(bs.len()) + bs,
        <Vec<i8> as SerializeRevisioned>::spec_encode(is) == spec_encode_len(is.len()) + is.map_values(
            |v: i8| (if v >= 0 { v as int } else { v + 256 }) as u8,
        ),
{
    let t = is.map_values(|v: i8| (if v >= 0 { v as int } else { v + 256 }) as u8);
    assert forall|i: int| 0 <= i < is.len() implies #[trigger] t[i] == (is[i] as u8) by {
        let v = is[i];
        assert((if v >= 0 { v as int } else { v + 256 }) as u8 == v as u8) by (bit_vector);
    }
    assert(crate::implementations::primitives::i8_bytes(is) == t);
}

/// A vector of booleans is its length, then the booleans packed eight to a byte: boolean
/// `k` is bit `k % 8` (counting from the lowest) of byte `k / 8`, and the bits past the
/// last boolean are clear.
pub proof fn lemma_bool_vec_layout(bs: Seq<bool>)
    ensures
        ({
            let e = <Vec<bool> as SerializeRevisioned>::spec_encode(bs);
            let l = spec_encode_len(bs.len());
            let p = e.skip(l.len() as int);
            &&& e.take(l.len() as int) == l
            &&& p.len() == (bs.len() + 7) / 8
            &&& forall|k: int|
                0 <= k < bs.len() ==> ((#[trigger] p[k / 8] >> ((k % 8) as u8)) & 1 == 1) == bs[k]
            &&& forall|k: int|
                bs.len() <= k < 8 * p.len() ==> (#[trigger] p[k / 8] >> ((k % 8) as u8)) & 1 == 0
        }),
{
    let e = <Vec<bool> as SerializeRevisioned>::spec_encode(bs);
    let l = spec_encode_len(bs.len());
    let p = crate::implementations::specialised::pack_bools(bs);
    assert(e == l + p);
    assert(e.skip(l.len() as int) == p);
    assert(e.take(l.len() as int) == l);
    crate::implementations::specialised::lemma_unpack_pack_bools(bs);
    assert forall|k: int| 0 <= k < bs.len() implies ((#[trigger] p[k / 8] >> ((k % 8) as u8)) & 1 == 1)
        == bs[k] by {
        assert(crate::implementations::specialised::unpack_bools(p, bs.len())[k] == bs[k]);
    }
    assert forall|k: int| bs.len() <= k < 8 * p.len() implies (#[trigger] p[k / 8] >> ((k % 8) as u8)) & 1
        == 0 by {
        let j = k / 8;
        let chunk = crate::implementations::specialised::bool_chunk(bs, j);
        assert(p[j] == crate::implementations::specialised::pack_bits(chunk));
        assert(chunk.len() <= 8);
        crate::implementations::specialised::lemma_pack_bits(chunk);
        assert(chunk.len() <= k % 8);
        let i = (k % 8) as u8;
        assert(chunk.len() <= i < 8);
        assert((crate::implementations::specialised::pack_bits(chunk) >> i) & 1 == 0);
    }
}

/// An option is the tag 0 for nothing, or the tag 1 followed by the value.
pub proof fn lemma_option_layout<T: SerializeRevisioned>(x: T::Model)
    ensures
        <Option<T> as SerializeRevisioned>::spec_encode(None) == seq![0u8],
        <Option<T> as SerializeRevisioned>::spec_encode(Some(x)) == seq![1u8] + T::spec_encode(x),
{
}

/// A result is the variant index 0 followed by the value, or 1 followed by the error.
pub proof fn lemma_result_layout<T: SerializeRevisioned, E: SerializeRevisioned>(
    x: T::Model,
    y: E::Model,
)
    ensures
        <Result<T, E> as SerializeRevisioned>::spec_encode(Ok(x)) == seq![0u8] + T::spec_encode(x),
        <Result<T, E> as SerializeRevisioned>::spec_encode(Err(y)) == seq![1u8] + E::spec_encode(y),
{
    crate::implementations::primitives::lemma_encoded_u64_size(0);
    crate::implementations::primitives::lemma_encoded_u64_size(1);
}

/// A box, a shared pointer and a copy-on-write value are written as the value they hold.
pub proof fn lemma_pointer_layout<T: Clone + SerializeRevisioned>(m: T::Model)
    ensures
        <Box<T> as SerializeRevisioned>::spec_encode(m) == T::spec_encode(m),
        <Arc<T> as SerializeRevisioned>::spec_encode(m) == T::spec_encode(m),
        <Cow<'static, T> as SerializeRevisioned>::spec_encode(m) == T::spec_encode(m),
{
}

/// A pair is its first element, then its second; a range is its start, then its end.
pub proof fn lemma_pair_layout<A: SerializeRevisioned, B: SerializeRevisioned>(a: A::Model, b: B::Model, s: A::Model, t: A::Model)
    ensures
        <(A, B) as SerializeRevisioned>::spec_encode((a, b)) == A::spec_encode(a) + B::spec_encode(b),
        <Range<A> as SerializeRevisioned>::spec_encode((s, t)) == A::spec_encode(s) + A::spec_encode(t),
{
}

/// An array is its elements one after the other, with no length.
pub proof fn lemma_array_layout<T: Copy + Default + SerializeRevisioned>(m: Seq<T::Model>)
    ensures
        <[T; 1] as SerializeRevisioned>::spec_encode(m) == encode_each::<T>(m),
        <[T; 2] as SerializeRevisioned>::spec_encode(m) == encode_each::<T>(m),
        <[T; 3] as SerializeRevisioned>::spec_encode(m) == encode_each::<T>(m),
        <[T; 4] as SerializeRevisioned>::spec_encode(m) == encode_each::<T>(m),
        <[T; 5] as SerializeRevisioned>::spec_encode(m) == encode_each::<T>(m),
        <[T; 6] as SerializeRevisioned>::spec_encode(m) == encode_each::<T>(m),
        <[T; 7] as SerializeRevisioned>::spec_encode(m) == encode_each::<T>(m),
        <[T; 8] as SerializeRevisioned>::spec_encode(m) == encode_each::<T>(m),
        <[T; 9] as SerializeRevisioned>::spec_encode(m) == encode_each::<T>(m),
        <[T; 10] as SerializeRevisioned>::spec_encode(m) == encode_each::<T>(m),
        <[T; 11] as SerializeRevisioned>::spec_encode(m) == encode_each::<T>(m),
        <[T; 12] as SerializeRevisioned>::spec_encode(m) == encode_each::<T>(m),
        <[T; 13] as SerializeRevisioned>::spec_encode(m) == encode_each::<T>(m),
        <[T; 14] as SerializeRevisioned>::spec_encode(m) == encode_each::<T>(m),
        <[T; 15] as SerializeRevisioned>::spec_encode(m) == encode_each::<T>(m),
        <[T; 16] as SerializeRevisioned>::spec_encode(m) == encode_each::<T>(m),
        <[T; 17] as SerializeRevisioned>::spec_encode(m) == encode_each::<T>(m),
        <[T; 18] as SerializeRevisioned>::spec_encode(m) == encode_each::<T>(m),
        <[T; 19] as SerializeRevisioned>::spec_encode(m) == encode_each::<T>(m),
        <[T; 20] as SerializeRevisioned>::spec_encode(m) == encode_each::<T>(m),
        <[T; 21] as SerializeRevisioned>::spec_encode(m) == encode_each::<T>(m),
        <[T; 22] as SerializeRevisioned>::spec_encode(m) == encode_each::<T>(m),
        <[T; 23] as SerializeRevisioned>::spec_encode(m) == encode_each::<T>(m),
        <[T; 24] as SerializeRevisioned>::spec_encode(m) == encode_each::<T>(m),
        <[T; 25] as SerializeRevisioned>::spec_encode(m) == encode_each::<T>(m),
        <[T; 26] as SerializeRevisioned>::spec_encode(m) == encode_each::<T>(m),
        <[T; 27] as SerializeRevisioned>::spec_encode(m) == encode_each::<T>(m),
        <[T; 28] as SerializeRevisioned>::spec_encode(m) == encode_each::<T>(m),
        <[T; 29] as SerializeRevisioned>::spec_encode(m) == encode_each::<T>(m),
        <[T; 30] as SerializeRevisioned>::spec_encode(m) == encode_each::<T>(m),
        <[T; 31] as SerializeRevisioned>::spec_encode(m) == encode_each::<T>(m),
        <[T; 32] as SerializeRevisioned>::spec_encode(m) == encode_each::<T>(m),
{
}

/// A string is the number of its UTF-8 bytes, then those bytes; a shared string is
/// written as a string; a character is its UTF-8 bytes.
pub proof fn lemma_text_layout(s: Seq<char>, c: char)
    ensures
        <String as SerializeRevisioned>::spec_encode(s) == spec_encode_len(
            vstd::utf8::encode_utf8(s).len(),
        ) + vstd::utf8::encode_utf8(s),
        <Arc<str> as SerializeRevisioned>::spec_encode(s) == <String as SerializeRevisioned>::spec_encode(s),
        <char as SerializeRevisioned>::spec_encode(c) == vstd::utf8::encode_utf8(seq![c]),
{
}

/// A duration is its whole seconds as a 64-bit integer, then its nanoseconds as a 32-bit
/// one.
pub proof fn lemma_duration_layout(m: (u64, u32))
    ensures
        <Duration as SerializeRevisioned>::spec_encode(m) == <u64 as SerializeRevisioned>::spec_encode(
            m.0,
        ) + <u32 as SerializeRevisioned>::spec_encode(m.1),
{
}

/// A map, ordered or hashed, is its number of entries, then each key followed by its
/// value, the keys in strictly increasing order, every key of the map once.
pub proof fn lemma_map_layout<K: OrderedKey + Hash + SerializeRevisioned, V: SerializeRevisioned>(
    m: Map<K, V::Model>,
)
    requires
        m.dom().finite(),
    ensures
        <BTreeMap<K, V> as SerializeRevisioned>::spec_encode(m) == spec_encode_len(m.dom().len())
            + encode_each::<(K, V)>(map_entries(m)),
        <HashMap<K, V> as SerializeRevisioned>::spec_encode(m) == <BTreeMap<
            K,
            V,
        > as SerializeRevisioned>::spec_encode(m),
        rank_increasing(map_entries(m).map_values(|e: (K, V::Model)| e.0)),
        map_entries(m).len() == m.dom().len(),
        forall|i: int|
            0 <= i < map_entries(m).len() ==> m.dom().contains(#[trigger] map_entries(m)[i].0)
                && m[map_entries(m)[i].0] == map_entries(m)[i].1,
{
    lemma_sorted_keys(m.dom());
    let ks = sorted_keys(m.dom());
    assert(map_entries(m).map_values(|e: (K, V::Model)| e.0) == ks);
    assert forall|i: int| 0 <= i < map_entries(m).len() implies m.dom().contains(
        #[trigger] map_entries(m)[i].0,
    ) by {
        assert(ks.contains(ks[i]));
    }
}

/// A set, ordered or hashed, is its number of items, then each item, in strictly
/// increasing order, every item once.
pub proof fn lemma_set_layout<T: OrderedKey + Hash + SerializeRevisioned>(s: Set<T>)
    requires
        s.finite(),
    ensures
        <BTreeSet<T> as SerializeRevisioned>::spec_encode(s) == spec_encode_len(s.len())
            + encode_each::<T>(sorted_keys(s)),
        <HashSet<T> as SerializeRevisioned>::spec_encode(s) == <BTreeSet<
            T,
        > as SerializeRevisioned>::spec_encode(s),
        rank_increasing(sorted_keys(s)),
        sorted_keys(s).len() == s.len(),
        forall|x: T| sorted_keys(s).contains(x) <==> s.contains(x),
{
    lemma_sorted_keys(s);
}

/// Reading an option: nothing is an I/O error; the tag 0 is nothing; the tag 1 is
/// followed by the value; any other tag is refused.
pub proof fn lemma_option_decode<T: crate::DeserializeRevisioned>(input: Seq<u8>)
    ensures
        <Option<T> as crate::DeserializeRevisioned>::spec_decode(input) == if input.len() < 1 {
            Err(crate::ErrorKind::Io)
        } else if input[0] == 0 {
            Ok::<(Option<T::Model>, nat), crate::ErrorKind>((None, 1))
        } else if input[0] == 1 {
            match T::spec_decode(input.skip(1)) {
                Ok((m, n)) => Ok((Some(m), n + 1)),
                Err(e) => Err(e),
            }
        } else {
            Err(crate::ErrorKind::Deserialize)
        },
{
}

} // verus!
