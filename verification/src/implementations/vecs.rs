use vstd::prelude::*;

use crate::implementations::primitives::{
    decode_u64, encode_u64, lemma_decode_encode_u64, lemma_u64_prefixes_fail, spec_decode_u64, spec_encode_u64, write_all,
};
use crate::{
    DeserializeRevisioned, DeserializeRevisionedVec, Error, ErrorKind, Revisioned,
    RevisionedRoundTrip, RevisionedRoundTripVec, SerializeRevisioned, SerializeRevisionedVec,
    decodes_as, models, strict_prefixes_fail,
};

verus! {

/// The encoding of a length: a `usize` written as a variable-length 64-bit integer.
pub open spec fn spec_encode_len(len: nat) -> Seq<u8> {
    spec_encode_u64(len as u64)
}

/// Decoding a length: a variable-length 64-bit integer taken as a `usize`.
pub open spec fn spec_decode_len(input: Seq<u8>) -> Result<(nat, nat), ErrorKind> {
    match spec_decode_u64(input) {
        Ok((x, n)) => Ok(((x as usize) as nat, n)),
        Err(e) => Err(e),
    }
}

/// The encodings of the values with models `ms`, one after the other.
pub open spec fn encode_each<T: SerializeRevisioned>(ms: Seq<T::Model>) -> Seq<u8>
    decreases ms.len(),
{
    if ms.len() == 0 {
        Seq::empty()
    } else {
        encode_each::<T>(ms.drop_last()) + T::spec_encode(ms.last())
    }
}

/// Decoding `n` values one after the other from the front of `input`.
pub open spec fn decode_each<T: DeserializeRevisioned>(input: Seq<u8>, n: nat) -> Result<
    (Seq<T::Model>, nat),
    ErrorKind,
>
    decreases n,
{
    if n == 0 {
        Ok((Seq::empty(), 0))
    } else {
        match decode_each::<T>(input, (n - 1) as nat) {
            Err(e) => Err(e),
            Ok((ms, k)) => match T::spec_decode(input.skip(k as int)) {
                Err(e) => Err(e),
                Ok((m, j)) => Ok((ms.push(m), k + j)),
            },
        }
    }
}

/// The element-by-element encoding of a vector: its length, then each element.
pub open spec fn encode_vec_generic<T: SerializeRevisioned>(ms: Seq<T::Model>) -> Seq<u8> {
    spec_encode_len(ms.len()) + encode_each::<T>(ms)
}

/// Decoding a vector encoded element by element.
pub open spec fn decode_vec_generic<T: DeserializeRevisioned>(input: Seq<u8>) -> Result<
    (Seq<T::Model>, nat),
    ErrorKind,
> {
    match spec_decode_len(input) {
        Err(e) => Err(e),
        Ok((len, k)) => match decode_each::<T>(input.skip(k as int), len) {
            Err(e) => Err(e),
            Ok((ms, j)) => Ok((ms, k + j)),
        },
    }
}

/// Decoding the encoding of a length gives it back.
pub proof fn lemma_decode_encode_len(len: nat, rest: Seq<u8>)
    requires
        len <= usize::MAX,
    ensures
        spec_decode_len(spec_encode_len(len) + rest) == Ok::<(nat, nat), ErrorKind>(
            (len, spec_encode_len(len).len()),
        ),
{
    lemma_decode_encode_u64(len as u64, rest);
}

/// Writes a length.
pub fn encode_len(writer: &mut Vec<u8>, len: usize)
    ensures
        final(writer)@ == old(writer)@ + spec_encode_len(len as nat),
{
    let _ = encode_u64(writer, len as u64);
}

/// Reads a length.
pub fn decode_len(reader: &mut &[u8]) -> (res: Result<usize, Error>)
    ensures
        match res {
            Ok(len) => spec_decode_len(old(reader)@) matches Ok((l, n)) && l == len && n
                <= old(reader)@.len() && final(reader)@ == old(reader)@.skip(n as int),
            Err(e) => spec_decode_len(old(reader)@) == Err::<(nat, nat), ErrorKind>(e.kind()),
        },
{
    match decode_u64(reader) {
        Ok(x) => Ok(x as usize),
        Err(e) => Err(e),
    }
}

/// Writes `v` as a length followed by the bytes.
pub fn serialize_bytes(v: &[u8], writer: &mut Vec<u8>) -> (r: Result<(), Error>)
    ensures
        r is Ok,
        final(writer)@ == old(writer)@ + spec_encode_len(v@.len()) + v@,
{
    encode_len(writer, v.len());
    write_all(writer, v);
    Ok(())
}

/// Serializes a vector element by element: its length, then each element.
pub fn serialize_vec_generic<T: SerializeRevisioned>(v: &Vec<T>, writer: &mut Vec<u8>) -> (r:
    Result<(), Error>)
    ensures
        r is Ok,
        final(writer)@ == old(writer)@ + encode_vec_generic::<T>(models(v@)),
{
    let len = v.len();
    encode_len(writer, len);
    let ghost start = writer@;
    let mut i: usize = 0;
    while i < len
        invariant
            0 <= i <= len,
            len == v@.len(),
            start == old(writer)@ + spec_encode_len(len as nat),
            writer@ == start + encode_each::<T>(models(v@.take(i as int))),
        decreases len - i,
    {
        let ghost before = writer@;
        let _ = v[i].serialize_revisioned(writer);
        proof {
            assert(models(v@.take(i + 1)).drop_last() == models(v@.take(i as int)));
            assert(models(v@.take(i + 1)).last() == v@[i as int].model());
        }
        i += 1;
    }
    assert(v@.take(len as int) == v@);
    Ok(())
}

/// Deserializes a vector encoded element by element.
pub fn deserialize_vec_generic<T: DeserializeRevisioned>(reader: &mut &[u8]) -> (res: Result<
    Vec<T>,
    Error,
>)
    ensures
        decodes_as::<Vec<T>>(decode_vec_generic::<T>(old(reader)@), res, old(reader)@, final(reader)@),
{
    let ghost input = reader@;
    let len = match decode_len(reader) {
        Ok(len) => len,
        Err(e) => return Err(e),
    };
    let ghost k: nat = (input.len() - reader@.len()) as nat;
    let ghost body = reader@;
    assert(body == input.skip(k as int));
    let mut vec: Vec<T> = Vec::new();
    let mut i: usize = 0;
    let ghost mut consumed: nat = 0;
    assert(models(vec@) == Seq::<T::Model>::empty());
    while i < len
        invariant
            0 <= i <= len,
            input == old(reader)@,
            body == input.skip(k as int),
            k <= input.len(),
            spec_decode_len(input) == Ok::<(nat, nat), ErrorKind>((len as nat, k)),
            decode_each::<T>(body, i as nat) == Ok::<(Seq<T::Model>, nat), ErrorKind>(
                (models(vec@), consumed),
            ),
            consumed <= body.len(),
            reader@ == body.skip(consumed as int),
        decreases len - i,
    {
        let ghost before = reader@;
        let v = match T::deserialize_revisioned(reader) {
            Ok(v) => v,
            Err(e) => {
                proof {
                    assert(decode_each::<T>(body, (i + 1) as nat) == Err::<(Seq<T::Model>, nat), ErrorKind>(e.kind()));
                    lemma_decode_each_err::<T>(body, (i + 1) as nat, len as nat);
                    assert(decode_each::<T>(body, len as nat) == Err::<(Seq<T::Model>, nat), ErrorKind>(e.kind()));
                }
                return Err(e);
            },
        };
        proof {
            let n = (before.len() - reader@.len()) as nat;
            assert(body.skip(consumed as int).skip(n as int) == body.skip((consumed + n) as int));
            assert(models(vec@.push(v)) == models(vec@).push(v.model()));
            consumed = consumed + n;
        }
        vec.push(v);
        i += 1;
    }
    proof {
        assert(input.skip(k as int).skip(consumed as int) == input.skip((k + consumed) as int));
    }
    Ok(vec)
}

/// Once decoding the first `a` values fails, decoding more fails the same way.
pub proof fn lemma_decode_each_err<T: DeserializeRevisioned>(input: Seq<u8>, a: nat, b: nat)
    requires
        a <= b,
        decode_each::<T>(input, a) is Err,
    ensures
        decode_each::<T>(input, b) == decode_each::<T>(input, a),
    decreases b - a,
{
    if a < b {
        lemma_decode_each_err::<T>(input, a, (b - 1) as nat);
    }
}

/// Decoding the element-by-element encoding of values gives back their models.
pub proof fn lemma_decode_encode_each<T: RevisionedRoundTrip>(vs: Seq<T>, rest: Seq<u8>)
    requires
        encode_each::<T>(models(vs)).len() <= usize::MAX,
    ensures
        decode_each::<T>(encode_each::<T>(models(vs)) + rest, vs.len()) == Ok::<
            (Seq<T::Model>, nat),
            ErrorKind,
        >((models(vs), encode_each::<T>(models(vs)).len())),
    decreases vs.len(),
{
    if vs.len() == 0 {
        assert(models(vs) == Seq::<T::Model>::empty());
    } else {
        let init = vs.drop_last();
        let last = vs.last();
        assert(models(vs).drop_last() == models(init));
        let e_init = encode_each::<T>(models(init));
        let e_last = T::spec_encode(last.model());
        assert(encode_each::<T>(models(vs)) == e_init + e_last);
        assert(e_init + e_last + rest == e_init + (e_last + rest));
        lemma_decode_encode_each::<T>(init, e_last + rest);
        assert((e_init + (e_last + rest)).skip(e_init.len() as int) == e_last + rest);
        T::lemma_decode_encode(last, rest);
        assert(models(init).push(last.model()) == models(vs));
    }
}

/// Decoding the element-by-element encoding of a vector gives back its elements' models.
pub proof fn lemma_decode_encode_vec_generic<T: RevisionedRoundTrip>(vs: Seq<T>, rest: Seq<u8>)
    requires
        vs.len() <= usize::MAX,
        encode_vec_generic::<T>(models(vs)).len() <= usize::MAX,
    ensures
        decode_vec_generic::<T>(encode_vec_generic::<T>(models(vs)) + rest) == Ok::<
            (Seq<T::Model>, nat),
            ErrorKind,
        >((models(vs), encode_vec_generic::<T>(models(vs)).len())),
{
    let len_bytes = spec_encode_len(vs.len());
    let body = encode_each::<T>(models(vs));
    assert(len_bytes + body + rest == len_bytes + (body + rest));
    lemma_decode_encode_u64(vs.len() as u64, body + rest);
    assert((len_bytes + (body + rest)).skip(len_bytes.len() as int) == body + rest);
    lemma_decode_encode_each::<T>(vs, rest);
}

impl<T: Revisioned> Revisioned for Vec<T> {
    type Model = Seq<T::Model>;

    open spec fn model(&self) -> Seq<T::Model> {
        models(self@)
    }

    open spec fn spec_revision() -> u16 {
        1
    }

    fn revision() -> (r: u16) {
        1
    }
}

impl<T: SerializeRevisionedVec> SerializeRevisioned for Vec<T> {
    open spec fn spec_encode(m: Seq<T::Model>) -> Seq<u8> {
        T::spec_encode_vec(m)
    }

    fn serialize_revisioned(&self, writer: &mut Vec<u8>) -> (r: Result<(), Error>) {
        T::serialize_revisioned_vec(self, writer)
    }
}

impl<T: DeserializeRevisionedVec> DeserializeRevisioned for Vec<T> {
    open spec fn spec_decode(input: Seq<u8>) -> Result<(Seq<T::Model>, nat), ErrorKind> {
        T::spec_decode_vec(input)
    }

    fn deserialize_revisioned(reader: &mut &[u8]) -> (res: Result<Vec<T>, Error>) {
        T::deserialize_revisioned_vec(reader)
    }
}

impl<T: SerializeRevisionedVec> SerializeRevisionedVec for Vec<T> {
    open spec fn spec_encode_vec(ms: Seq<Seq<T::Model>>) -> Seq<u8> {
        encode_vec_generic::<Vec<T>>(ms)
    }

    fn serialize_revisioned_vec(v: &Vec<Vec<T>>, writer: &mut Vec<u8>) -> (r: Result<(), Error>) {
        serialize_vec_generic(v, writer)
    }
}

impl<T: DeserializeRevisionedVec> DeserializeRevisionedVec for Vec<T> {
    open spec fn spec_decode_vec(input: Seq<u8>) -> Result<(Seq<Seq<T::Model>>, nat), ErrorKind> {
        decode_vec_generic::<Vec<T>>(input)
    }

    fn deserialize_revisioned_vec(reader: &mut &[u8]) -> (res: Result<Vec<Vec<T>>, Error>) {
        deserialize_vec_generic(reader)
    }
}

impl<T: RevisionedRoundTripVec> RevisionedRoundTrip for Vec<T> {
    proof fn lemma_decode_encode(v: Vec<T>, rest: Seq<u8>) {
        assert(v.len() == v@.len());
        T::lemma_decode_encode_vec(v@, rest);
    }
}

impl<T: RevisionedRoundTripVec> RevisionedRoundTripVec for Vec<T> {
    proof fn lemma_decode_encode_vec(vs: Seq<Vec<T>>, rest: Seq<u8>) {
        lemma_decode_encode_vec_generic::<Vec<T>>(vs, rest);
    }
}

/// Decoding `vs.len()` values from a strict prefix of their encodings one after the other
/// fails, when it does for each value: the first value cut off fails to decode.
pub proof fn lemma_each_prefixes_fail<T: RevisionedRoundTrip>(vs: Seq<T>, k: int)
    requires
        forall|i: int| 0 <= i < vs.len() ==> strict_prefixes_fail::<T>(#[trigger] vs[i].model()),
        encode_each::<T>(models(vs)).len() <= usize::MAX,
        0 <= k < encode_each::<T>(models(vs)).len(),
    ensures
        decode_each::<T>(encode_each::<T>(models(vs)).take(k), vs.len()) is Err,
    decreases vs.len(),
{
    let init = vs.drop_last();
    let last = vs.last();
    assert(models(vs).drop_last() == models(init));
    let e_init = encode_each::<T>(models(init));
    let e_last = T::spec_encode(last.model());
    let e = encode_each::<T>(models(vs));
    assert(e == e_init + e_last);
    assert(forall|i: int| 0 <= i < init.len() ==> init[i] == vs[i]);
    if k < e_init.len() {
        assert(e.take(k) == e_init.take(k));
        lemma_each_prefixes_fail::<T>(init, k);
    } else {
        let tail = e_last.take(k - e_init.len());
        assert(e.take(k) == e_init + tail);
        lemma_decode_encode_each::<T>(init, tail);
        assert((e_init + tail).skip(e_init.len() as int) == tail);
        assert(strict_prefixes_fail::<T>(vs[vs.len() - 1].model()));
    }
}

/// Decoding a strict prefix of the element-by-element encoding of a vector fails, when it
/// does for each element: either the length is cut off, or an element is.
pub proof fn lemma_vec_generic_prefixes_fail<T: RevisionedRoundTrip>(vs: Seq<T>, k: int)
    requires
        forall|i: int| 0 <= i < vs.len() ==> strict_prefixes_fail::<T>(#[trigger] vs[i].model()),
        vs.len() <= usize::MAX,
        encode_each::<T>(models(vs)).len() <= usize::MAX,
        0 <= k < encode_vec_generic::<T>(models(vs)).len(),
    ensures
        decode_vec_generic::<T>(encode_vec_generic::<T>(models(vs)).take(k)) is Err,
{
    let ms = models(vs);
    let l = spec_encode_len(ms.len());
    let body = encode_each::<T>(ms);
    let e = encode_vec_generic::<T>(ms);
    assert(e == l + body);
    lemma_u64_prefixes_fail(ms.len() as u64);
    if k < l.len() {
        assert(e.take(k) == l.take(k));
        assert(<u64 as DeserializeRevisioned>::spec_decode(
            <u64 as SerializeRevisioned>::spec_encode(ms.len() as u64).take(k),
        ) is Err);
        assert(spec_decode_u64(l.take(k)) is Err);
    } else {
        let tail = body.take(k - l.len());
        assert(e.take(k) == l + tail);
        lemma_decode_encode_len(ms.len(), tail);
        assert((l + tail).skip(l.len() as int) == tail);
        lemma_each_prefixes_fail::<T>(vs, k - l.len());
    }
}

} // verus!
