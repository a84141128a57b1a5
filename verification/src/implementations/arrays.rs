//! Arrays of up to 32 elements: the elements one after the other, without a length.
use vstd::prelude::*;

use crate::implementations::skip::{
    lemma_skip_each_decode, lemma_skip_each_err, lemma_skip_vec_generic, skip_each,
    skip_vec_generic, skip_vec_generic_exec,
};
use crate::implementations::vecs::{
    decode_each, decode_vec_generic, deserialize_vec_generic, encode_each, encode_vec_generic,
    lemma_decode_each_err, lemma_decode_encode_each, lemma_decode_encode_vec_generic,
    serialize_vec_generic,
};
use crate::{
    decode_extent, decodes_as, models, skips_as, DeserializeRevisioned, DeserializeRevisionedVec,
    Error, ErrorKind, Revisioned, RevisionedRoundTrip, RevisionedRoundTripVec, SerializeRevisioned,
    SerializeRevisionedVec, SkipRevisioned, SkipRevisionedVec,
};

verus! {

/// `[T; N]`'s `TryFrom<Vec<T>>`: the array of the vector's elements when the vector has
/// exactly `N` of them, the vector itself otherwise.
#[verifier::external_body]
fn vec_into_array<T, const N: usize>(v: Vec<T>) -> (r: Result<[T; N], Vec<T>>)
    ensures
        r is Ok <==> v@.len() == N,
        r matches Ok(a) ==> a@ == v@,
{
    v.try_into()
}

/// Writes the elements of `a` one after the other.
pub fn serialize_array<T: SerializeRevisioned, const N: usize>(a: &[T; N], writer: &mut Vec<u8>)
    ensures
        final(writer)@ == old(writer)@ + encode_each::<T>(models(a@)),
{
    let s = a.as_slice();
    let mut i: usize = 0;
    while i < s.len()
        invariant
            i <= s@.len(),
            s@ == a@,
            writer@ == old(writer)@ + encode_each::<T>(models(s@.take(i as int))),
        decreases s@.len() - i,
    {
        let ghost before = writer@;
        let _ = s[i].serialize_revisioned(writer);
        proof {
            assert(models(s@.take(i + 1)).drop_last() == models(s@.take(i as int)));
            assert(models(s@.take(i + 1)).last() == s@[i as int].model());
        }
        i = i + 1;
    }
    assert(s@.take(s@.len() as int) == s@);
}

/// Reads `N` elements one after the other.
pub fn deserialize_array<T: DeserializeRevisioned, const N: usize>(reader: &mut &[u8]) -> (res:
    Result<[T; N], Error>)
    ensures
        match res {
            Ok(a) => decode_each::<T>(old(reader)@, N as nat) matches Ok((ms, n)) && ms == models(
                a@,
            ) && n <= old(reader)@.len() && final(reader)@ == old(reader)@.skip(n as int),
            Err(e) => decode_each::<T>(old(reader)@, N as nat) == Err::<(Seq<T::Model>, nat), ErrorKind>(
                e.kind(),
            ),
        },
{
    let ghost input = reader@;
    let mut vec: Vec<T> = Vec::new();
    let mut i: usize = 0;
    let ghost mut consumed: nat = 0;
    assert(models(vec@) == Seq::<T::Model>::empty());
    assert(input.skip(0) == input);
    while i < N
        invariant
            0 <= i <= N,
            input == old(reader)@,
            vec@.len() == i,
            decode_each::<T>(input, i as nat) == Ok::<(Seq<T::Model>, nat), ErrorKind>(
                (models(vec@), consumed),
            ),
            consumed <= input.len(),
            reader@ == input.skip(consumed as int),
        decreases N - i,
    {
        let ghost before = reader@;
        let v = match T::deserialize_revisioned(reader) {
            Ok(v) => v,
            Err(e) => {
                proof {
                    lemma_decode_each_err::<T>(input, (i + 1) as nat, N as nat);
                }
                return Err(e);
            },
        };
        proof {
            let n = (before.len() - reader@.len()) as nat;
            assert(input.skip(consumed as int).skip(n as int) == input.skip((consumed + n) as int));
            assert(models(vec@.push(v)) == models(vec@).push(v.model()));
            consumed = consumed + n;
        }
        vec.push(v);
        i += 1;
    }
    match vec_into_array::<T, N>(vec) {
        Ok(a) => Ok(a),
        Err(_) => Err(Error::IntegerOverflow),
    }
}

/// Skips `N` elements one after the other.
pub fn skip_array<T: SkipRevisioned, const N: usize>(reader: &mut &[u8]) -> (r: Result<(), Error>)
    ensures
        skips_as(skip_each::<T>(old(reader)@, N as nat), r, old(reader)@, final(reader)@),
{
    let ghost input = reader@;
    let mut i: usize = 0;
    let ghost mut consumed: nat = 0;
    assert(input.skip(0) == input);
    while i < N
        invariant
            0 <= i <= N,
            input == old(reader)@,
            skip_each::<T>(input, i as nat) == Ok::<nat, ErrorKind>(consumed),
            consumed <= input.len(),
            reader@ == input.skip(consumed as int),
        decreases N - i,
    {
        let ghost before = reader@;
        match T::skip_revisioned(reader) {
            Ok(()) => {},
            Err(e) => {
                proof {
                    lemma_skip_each_err::<T>(input, (i + 1) as nat, N as nat);
                }
                return Err(e);
            },
        }
        proof {
            let n = (before.len() - reader@.len()) as nat;
            assert(input.skip(consumed as int).skip(n as int) == input.skip((consumed + n) as int));
            consumed = consumed + n;
        }
        i += 1;
    }
    Ok(())
}

impl<T: Copy + Default + Revisioned> Revisioned for [T; 1] {
    type Model = Seq<T::Model>;

    open spec fn model(&self) -> Seq<T::Model> {
        models(self@)
    }

    open spec fn spec_revision() -> u16 {
        1
    }

    fn revision() -> (r: u16) {
        1
    }
}

impl<T: Copy + Default + SerializeRevisioned> SerializeRevisioned for [T; 1] {
    open spec fn spec_encode(m: Seq<T::Model>) -> Seq<u8> {
        encode_each::<T>(m)
    }

    fn serialize_revisioned(&self, writer: &mut Vec<u8>) -> (r: Result<(), Error>) {
        serialize_array(self, writer);
        Ok(())
    }
}

impl<T: Copy + Default + DeserializeRevisioned> DeserializeRevisioned for [T; 1] {
    open spec fn spec_decode(input: Seq<u8>) -> Result<(Seq<T::Model>, nat), ErrorKind> {
        decode_each::<T>(input, 1)
    }

    fn deserialize_revisioned(reader: &mut &[u8]) -> (res: Result<[T; 1], Error>) {
        deserialize_array::<T, 1>(reader)
    }
}

impl<T: Copy + Default + RevisionedRoundTrip> RevisionedRoundTrip for [T; 1] {
    proof fn lemma_decode_encode(v: [T; 1], rest: Seq<u8>) {
        lemma_decode_encode_each::<T>(v@, rest);
    }
}

impl<T: Copy + Default + SkipRevisioned> SkipRevisioned for [T; 1] {
    open spec fn spec_skip(input: Seq<u8>) -> Result<nat, ErrorKind> {
        skip_each::<T>(input, 1)
    }

    fn skip_revisioned(reader: &mut &[u8]) -> (r: Result<(), Error>) {
        skip_array::<T, 1>(reader)
    }

    proof fn lemma_skip_decode(input: Seq<u8>) {
        lemma_skip_each_decode::<T>(input, 1);
    }
}

impl<T: Copy + Default + SerializeRevisioned> SerializeRevisionedVec for [T; 1] {
    open spec fn spec_encode_vec(ms: Seq<Seq<T::Model>>) -> Seq<u8> {
        encode_vec_generic::<[T; 1]>(ms)
    }

    fn serialize_revisioned_vec(v: &Vec<[T; 1]>, writer: &mut Vec<u8>) -> (r: Result<(), Error>) {
        serialize_vec_generic(v, writer)
    }
}

impl<T: Copy + Default + DeserializeRevisioned> DeserializeRevisionedVec for [T; 1] {
    open spec fn spec_decode_vec(input: Seq<u8>) -> Result<(Seq<Seq<T::Model>>, nat), ErrorKind> {
        decode_vec_generic::<[T; 1]>(input)
    }

    fn deserialize_revisioned_vec(reader: &mut &[u8]) -> (res: Result<Vec<[T; 1]>, Error>) {
        deserialize_vec_generic(reader)
    }
}

impl<T: Copy + Default + RevisionedRoundTrip> RevisionedRoundTripVec for [T; 1] {
    proof fn lemma_decode_encode_vec(vs: Seq<[T; 1]>, rest: Seq<u8>) {
        lemma_decode_encode_vec_generic::<[T; 1]>(vs, rest);
    }
}

impl<T: Copy + Default + SkipRevisioned> SkipRevisionedVec for [T; 1] {
    open spec fn spec_skip_vec(input: Seq<u8>) -> Result<nat, ErrorKind> {
        skip_vec_generic::<[T; 1]>(input)
    }

    fn skip_revisioned_vec(reader: &mut &[u8]) -> (r: Result<(), Error>) {
        skip_vec_generic_exec::<[T; 1]>(reader)
    }

    proof fn lemma_skip_decode_vec(input: Seq<u8>) {
        lemma_skip_vec_generic::<[T; 1]>(input);
    }
}

impl<T: Copy + Default + Revisioned> Revisioned for [T; 2] {
    type Model = Seq<T::Model>;

    open spec fn model(&self) -> Seq<T::Model> {
        models(self@)
    }

    open spec fn spec_revision() -> u16 {
        1
    }

    fn revision() -> (r: u16) {
        1
    }
}

impl<T: Copy + Default + SerializeRevisioned> SerializeRevisioned for [T; 2] {
    open spec fn spec_encode(m: Seq<T::Model>) -> Seq<u8> {
        encode_each::<T>(m)
    }

    fn serialize_revisioned(&self, writer: &mut Vec<u8>) -> (r: Result<(), Error>) {
        serialize_array(self, writer);
        Ok(())
    }
}

impl<T: Copy + Default + DeserializeRevisioned> DeserializeRevisioned for [T; 2] {
    open spec fn spec_decode(input: Seq<u8>) -> Result<(Seq<T::Model>, nat), ErrorKind> {
        decode_each::<T>(input, 2)
    }

    fn deserialize_revisioned(reader: &mut &[u8]) -> (res: Result<[T; 2], Error>) {
        deserialize_array::<T, 2>(reader)
    }
}

impl<T: Copy + Default + RevisionedRoundTrip> RevisionedRoundTrip for [T; 2] {
    proof fn lemma_decode_encode(v: [T; 2], rest: Seq<u8>) {
        lemma_decode_encode_each::<T>(v@, rest);
    }
}

impl<T: Copy + Default + SkipRevisioned> SkipRevisioned for [T; 2] {
    open spec fn spec_skip(input: Seq<u8>) -> Result<nat, ErrorKind> {
        skip_each::<T>(input, 2)
    }

    fn skip_revisioned(reader: &mut &[u8]) -> (r: Result<(), Error>) {
        skip_array::<T, 2>(reader)
    }

    proof fn lemma_skip_decode(input: Seq<u8>) {
        lemma_skip_each_decode::<T>(input, 2);
    }
}

impl<T: Copy + Default + SerializeRevisioned> SerializeRevisionedVec for [T; 2] {
    open spec fn spec_encode_vec(ms: Seq<Seq<T::Model>>) -> Seq<u8> {
        encode_vec_generic::<[T; 2]>(ms)
    }

    fn serialize_revisioned_vec(v: &Vec<[T; 2]>, writer: &mut Vec<u8>) -> (r: Result<(), Error>) {
        serialize_vec_generic(v, writer)
    }
}

impl<T: Copy + Default + DeserializeRevisioned> DeserializeRevisionedVec for [T; 2] {
    open spec fn spec_decode_vec(input: Seq<u8>) -> Result<(Seq<Seq<T::Model>>, nat), ErrorKind> {
        decode_vec_generic::<[T; 2]>(input)
    }

    fn deserialize_revisioned_vec(reader: &mut &[u8]) -> (res: Result<Vec<[T; 2]>, Error>) {
        deserialize_vec_generic(reader)
    }
}

impl<T: Copy + Default + RevisionedRoundTrip> RevisionedRoundTripVec for [T; 2] {
    proof fn lemma_decode_encode_vec(vs: Seq<[T; 2]>, rest: Seq<u8>) {
        lemma_decode_encode_vec_generic::<[T; 2]>(vs, rest);
    }
}

impl<T: Copy + Default + SkipRevisioned> SkipRevisionedVec for [T; 2] {
    open spec fn spec_skip_vec(input: Seq<u8>) -> Result<nat, ErrorKind> {
        skip_vec_generic::<[T; 2]>(input)
    }

    fn skip_revisioned_vec(reader: &mut &[u8]) -> (r: Result<(), Error>) {
        skip_vec_generic_exec::<[T; 2]>(reader)
    }

    proof fn lemma_skip_decode_vec(input: Seq<u8>) {
        lemma_skip_vec_generic::<[T; 2]>(input);
    }
}

impl<T: Copy + Default + Revisioned> Revisioned for [T; 3] {
    type Model = Seq<T::Model>;

    open spec fn model(&self) -> Seq<T::Model> {
        models(self@)
    }

    open spec fn spec_revision() -> u16 {
        1
    }

    fn revision() -> (r: u16) {
        1
    }
}

impl<T: Copy + Default + SerializeRevisioned> SerializeRevisioned for [T; 3] {
    open spec fn spec_encode(m: Seq<T::Model>) -> Seq<u8> {
        encode_each::<T>(m)
    }

    fn serialize_revisioned(&self, writer: &mut Vec<u8>) -> (r: Result<(), Error>) {
        serialize_array(self, writer);
        Ok(())
    }
}

impl<T: Copy + Default + DeserializeRevisioned> DeserializeRevisioned for [T; 3] {
    open spec fn spec_decode(input: Seq<u8>) -> Result<(Seq<T::Model>, nat), ErrorKind> {
        decode_each::<T>(input, 3)
    }

    fn deserialize_revisioned(reader: &mut &[u8]) -> (res: Result<[T; 3], Error>) {
        deserialize_array::<T, 3>(reader)
    }
}

impl<T: Copy + Default + RevisionedRoundTrip> RevisionedRoundTrip for [T; 3] {
    proof fn lemma_decode_encode(v: [T; 3], rest: Seq<u8>) {
        lemma_decode_encode_each::<T>(v@, rest);
    }
}

impl<T: Copy + Default + SkipRevisioned> SkipRevisioned for [T; 3] {
    open spec fn spec_skip(input: Seq<u8>) -> Result<nat, ErrorKind> {
        skip_each::<T>(input, 3)
    }

    fn skip_revisioned(reader: &mut &[u8]) -> (r: Result<(), Error>) {
        skip_array::<T, 3>(reader)
    }

    proof fn lemma_skip_decode(input: Seq<u8>) {
        lemma_skip_each_decode::<T>(input, 3);
    }
}

impl<T: Copy + Default + SerializeRevisioned> SerializeRevisionedVec for [T; 3] {
    open spec fn spec_encode_vec(ms: Seq<Seq<T::Model>>) -> Seq<u8> {
        encode_vec_generic::<[T; 3]>(ms)
    }

    fn serialize_revisioned_vec(v: &Vec<[T; 3]>, writer: &mut Vec<u8>) -> (r: Result<(), Error>) {
        serialize_vec_generic(v, writer)
    }
}

impl<T: Copy + Default + DeserializeRevisioned> DeserializeRevisionedVec for [T; 3] {
    open spec fn spec_decode_vec(input: Seq<u8>) -> Result<(Seq<Seq<T::Model>>, nat), ErrorKind> {
        decode_vec_generic::<[T; 3]>(input)
    }

    fn deserialize_revisioned_vec(reader: &mut &[u8]) -> (res: Result<Vec<[T; 3]>, Error>) {
        deserialize_vec_generic(reader)
    }
}

impl<T: Copy + Default + RevisionedRoundTrip> RevisionedRoundTripVec for [T; 3] {
    proof fn lemma_decode_encode_vec(vs: Seq<[T; 3]>, rest: Seq<u8>) {
        lemma_decode_encode_vec_generic::<[T; 3]>(vs, rest);
    }
}

impl<T: Copy + Default + SkipRevisioned> SkipRevisionedVec for [T; 3] {
    open spec fn spec_skip_vec(input: Seq<u8>) -> Result<nat, ErrorKind> {
        skip_vec_generic::<[T; 3]>(input)
    }

    fn skip_revisioned_vec(reader: &mut &[u8]) -> (r: Result<(), Error>) {
        skip_vec_generic_exec::<[T; 3]>(reader)
    }

    proof fn lemma_skip_decode_vec(input: Seq<u8>) {
        lemma_skip_vec_generic::<[T; 3]>(input);
    }
}

impl<T: Copy + Default + Revisioned> Revisioned for [T; 4] {
    type Model = Seq<T::Model>;

    open spec fn model(&self) -> Seq<T::Model> {
        models(self@)
    }

    open spec fn spec_revision() -> u16 {
        1
    }

    fn revision() -> (r: u16) {
        1
    }
}

impl<T: Copy + Default + SerializeRevisioned> SerializeRevisioned for [T; 4] {
    open spec fn spec_encode(m: Seq<T::Model>) -> Seq<u8> {
        encode_each::<T>(m)
    }

    fn serialize_revisioned(&self, writer: &mut Vec<u8>) -> (r: Result<(), Error>) {
        serialize_array(self, writer);
        Ok(())
    }
}

impl<T: Copy + Default + DeserializeRevisioned> DeserializeRevisioned for [T; 4] {
    open spec fn spec_decode(input: Seq<u8>) -> Result<(Seq<T::Model>, nat), ErrorKind> {
        decode_each::<T>(input, 4)
    }

    fn deserialize_revisioned(reader: &mut &[u8]) -> (res: Result<[T; 4], Error>) {
        deserialize_array::<T, 4>(reader)
    }
}

impl<T: Copy + Default + RevisionedRoundTrip> RevisionedRoundTrip for [T; 4] {
    proof fn lemma_decode_encode(v: [T; 4], rest: Seq<u8>) {
        lemma_decode_encode_each::<T>(v@, rest);
    }
}

impl<T: Copy + Default + SkipRevisioned> SkipRevisioned for [T; 4] {
    open spec fn spec_skip(input: Seq<u8>) -> Result<nat, ErrorKind> {
        skip_each::<T>(input, 4)
    }

    fn skip_revisioned(reader: &mut &[u8]) -> (r: Result<(), Error>) {
        skip_array::<T, 4>(reader)
    }

    proof fn lemma_skip_decode(input: Seq<u8>) {
        lemma_skip_each_decode::<T>(input, 4);
    }
}

impl<T: Copy + Default + SerializeRevisioned> SerializeRevisionedVec for [T; 4] {
    open spec fn spec_encode_vec(ms: Seq<Seq<T::Model>>) -> Seq<u8> {
        encode_vec_generic::<[T; 4]>(ms)
    }

    fn serialize_revisioned_vec(v: &Vec<[T; 4]>, writer: &mut Vec<u8>) -> (r: Result<(), Error>) {
        serialize_vec_generic(v, writer)
    }
}

impl<T: Copy + Default + DeserializeRevisioned> DeserializeRevisionedVec for [T; 4] {
    open spec fn spec_decode_vec(input: Seq<u8>) -> Result<(Seq<Seq<T::Model>>, nat), ErrorKind> {
        decode_vec_generic::<[T; 4]>(input)
    }

    fn deserialize_revisioned_vec(reader: &mut &[u8]) -> (res: Result<Vec<[T; 4]>, Error>) {
        deserialize_vec_generic(reader)
    }
}

impl<T: Copy + Default + RevisionedRoundTrip> RevisionedRoundTripVec for [T; 4] {
    proof fn lemma_decode_encode_vec(vs: Seq<[T; 4]>, rest: Seq<u8>) {
        lemma_decode_encode_vec_generic::<[T; 4]>(vs, rest);
    }
}

impl<T: Copy + Default + SkipRevisioned> SkipRevisionedVec for [T; 4] {
    open spec fn spec_skip_vec(input: Seq<u8>) -> Result<nat, ErrorKind> {
        skip_vec_generic::<[T; 4]>(input)
    }

    fn skip_revisioned_vec(reader: &mut &[u8]) -> (r: Result<(), Error>) {
        skip_vec_generic_exec::<[T; 4]>(reader)
    }

    proof fn lemma_skip_decode_vec(input: Seq<u8>) {
        lemma_skip_vec_generic::<[T; 4]>(input);
    }
}

impl<T: Copy + Default + Revisioned> Revisioned for [T; 5] {
    type Model = Seq<T::Model>;

    open spec fn model(&self) -> Seq<T::Model> {
        models(self@)
    }

    open spec fn spec_revision() -> u16 {
        1
    }

    fn revision() -> (r: u16) {
        1
    }
}

impl<T: Copy + Default + SerializeRevisioned> SerializeRevisioned for [T; 5] {
    open spec fn spec_encode(m: Seq<T::Model>) -> Seq<u8> {
        encode_each::<T>(m)
    }

    fn serialize_revisioned(&self, writer: &mut Vec<u8>) -> (r: Result<(), Error>) {
        serialize_array(self, writer);
        Ok(())
    }
}

impl<T: Copy + Default + DeserializeRevisioned> DeserializeRevisioned for [T; 5] {
    open spec fn spec_decode(input: Seq<u8>) -> Result<(Seq<T::Model>, nat), ErrorKind> {
        decode_each::<T>(input, 5)
    }

    fn deserialize_revisioned(reader: &mut &[u8]) -> (res: Result<[T; 5], Error>) {
        deserialize_array::<T, 5>(reader)
    }
}

impl<T: Copy + Default + RevisionedRoundTrip> RevisionedRoundTrip for [T; 5] {
    proof fn lemma_decode_encode(v: [T; 5], rest: Seq<u8>) {
        lemma_decode_encode_each::<T>(v@, rest);
    }
}

impl<T: Copy + Default + SkipRevisioned> SkipRevisioned for [T; 5] {
    open spec fn spec_skip(input: Seq<u8>) -> Result<nat, ErrorKind> {
        skip_each::<T>(input, 5)
    }

    fn skip_revisioned(reader: &mut &[u8]) -> (r: Result<(), Error>) {
        skip_array::<T, 5>(reader)
    }

    proof fn lemma_skip_decode(input: Seq<u8>) {
        lemma_skip_each_decode::<T>(input, 5);
    }
}

impl<T: Copy + Default + SerializeRevisioned> SerializeRevisionedVec for [T; 5] {
    open spec fn spec_encode_vec(ms: Seq<Seq<T::Model>>) -> Seq<u8> {
        encode_vec_generic::<[T; 5]>(ms)
    }

    fn serialize_revisioned_vec(v: &Vec<[T; 5]>, writer: &mut Vec<u8>) -> (r: Result<(), Error>) {
        serialize_vec_generic(v, writer)
    }
}

impl<T: Copy + Default + DeserializeRevisioned> DeserializeRevisionedVec for [T; 5] {
    open spec fn spec_decode_vec(input: Seq<u8>) -> Result<(Seq<Seq<T::Model>>, nat), ErrorKind> {
        decode_vec_generic::<[T; 5]>(input)
    }

    fn deserialize_revisioned_vec(reader: &mut &[u8]) -> (res: Result<Vec<[T; 5]>, Error>) {
        deserialize_vec_generic(reader)
    }
}

impl<T: Copy + Default + RevisionedRoundTrip> RevisionedRoundTripVec for [T; 5] {
    proof fn lemma_decode_encode_vec(vs: Seq<[T; 5]>, rest: Seq<u8>) {
        lemma_decode_encode_vec_generic::<[T; 5]>(vs, rest);
    }
}

impl<T: Copy + Default + SkipRevisioned> SkipRevisionedVec for [T; 5] {
    open spec fn spec_skip_vec(input: Seq<u8>) -> Result<nat, ErrorKind> {
        skip_vec_generic::<[T; 5]>(input)
    }

    fn skip_revisioned_vec(reader: &mut &[u8]) -> (r: Result<(), Error>) {
        skip_vec_generic_exec::<[T; 5]>(reader)
    }

    proof fn lemma_skip_decode_vec(input: Seq<u8>) {
        lemma_skip_vec_generic::<[T; 5]>(input);
    }
}

impl<T: Copy + Default + Revisioned> Revisioned for [T; 6] {
    type Model = Seq<T::Model>;

    open spec fn model(&self) -> Seq<T::Model> {
        models(self@)
    }

    open spec fn spec_revision() -> u16 {
        1
    }

    fn revision() -> (r: u16) {
        1
    }
}

impl<T: Copy + Default + SerializeRevisioned> SerializeRevisioned for [T; 6] {
    open spec fn spec_encode(m: Seq<T::Model>) -> Seq<u8> {
        encode_each::<T>(m)
    }

    fn serialize_revisioned(&self, writer: &mut Vec<u8>) -> (r: Result<(), Error>) {
        serialize_array(self, writer);
        Ok(())
    }
}

impl<T: Copy + Default + DeserializeRevisioned> DeserializeRevisioned for [T; 6] {
    open spec fn spec_decode(input: Seq<u8>) -> Result<(Seq<T::Model>, nat), ErrorKind> {
        decode_each::<T>(input, 6)
    }

    fn deserialize_revisioned(reader: &mut &[u8]) -> (res: Result<[T; 6], Error>) {
        deserialize_array::<T, 6>(reader)
    }
}

impl<T: Copy + Default + RevisionedRoundTrip> RevisionedRoundTrip for [T; 6] {
    proof fn lemma_decode_encode(v: [T; 6], rest: Seq<u8>) {
        lemma_decode_encode_each::<T>(v@, rest);
    }
}

impl<T: Copy + Default + SkipRevisioned> SkipRevisioned for [T; 6] {
    open spec fn spec_skip(input: Seq<u8>) -> Result<nat, ErrorKind> {
        skip_each::<T>(input, 6)
    }

    fn skip_revisioned(reader: &mut &[u8]) -> (r: Result<(), Error>) {
        skip_array::<T, 6>(reader)
    }

    proof fn lemma_skip_decode(input: Seq<u8>) {
        lemma_skip_each_decode::<T>(input, 6);
    }
}

impl<T: Copy + Default + SerializeRevisioned> SerializeRevisionedVec for [T; 6] {
    open spec fn spec_encode_vec(ms: Seq<Seq<T::Model>>) -> Seq<u8> {
        encode_vec_generic::<[T; 6]>(ms)
    }

    fn serialize_revisioned_vec(v: &Vec<[T; 6]>, writer: &mut Vec<u8>) -> (r: Result<(), Error>) {
        serialize_vec_generic(v, writer)
    }
}

impl<T: Copy + Default + DeserializeRevisioned> DeserializeRevisionedVec for [T; 6] {
    open spec fn spec_decode_vec(input: Seq<u8>) -> Result<(Seq<Seq<T::Model>>, nat), ErrorKind> {
        decode_vec_generic::<[T; 6]>(input)
    }

    fn deserialize_revisioned_vec(reader: &mut &[u8]) -> (res: Result<Vec<[T; 6]>, Error>) {
        deserialize_vec_generic(reader)
    }
}

impl<T: Copy + Default + RevisionedRoundTrip> RevisionedRoundTripVec for [T; 6] {
    proof fn lemma_decode_encode_vec(vs: Seq<[T; 6]>, rest: Seq<u8>) {
        lemma_decode_encode_vec_generic::<[T; 6]>(vs, rest);
    }
}

impl<T: Copy + Default + SkipRevisioned> SkipRevisionedVec for [T; 6] {
    open spec fn spec_skip_vec(input: Seq<u8>) -> Result<nat, ErrorKind> {
        skip_vec_generic::<[T; 6]>(input)
    }

    fn skip_revisioned_vec(reader: &mut &[u8]) -> (r: Result<(), Error>) {
        skip_vec_generic_exec::<[T; 6]>(reader)
    }

    proof fn lemma_skip_decode_vec(input: Seq<u8>) {
        lemma_skip_vec_generic::<[T; 6]>(input);
    }
}

impl<T: Copy + Default + Revisioned> Revisioned for [T; 7] {
    type Model = Seq<T::Model>;

    open spec fn model(&self) -> Seq<T::Model> {
        models(self@)
    }

    open spec fn spec_revision() -> u16 {
        1
    }

    fn revision() -> (r: u16) {
        1
    }
}

impl<T: Copy + Default + SerializeRevisioned> SerializeRevisioned for [T; 7] {
    open spec fn spec_encode(m: Seq<T::Model>) -> Seq<u8> {
        encode_each::<T>(m)
    }

    fn serialize_revisioned(&self, writer: &mut Vec<u8>) -> (r: Result<(), Error>) {
        serialize_array(self, writer);
        Ok(())
    }
}

impl<T: Copy + Default + DeserializeRevisioned> DeserializeRevisioned for [T; 7] {
    open spec fn spec_decode(input: Seq<u8>) -> Result<(Seq<T::Model>, nat), ErrorKind> {
        decode_each::<T>(input, 7)
    }

    fn deserialize_revisioned(reader: &mut &[u8]) -> (res: Result<[T; 7], Error>) {
        deserialize_array::<T, 7>(reader)
    }
}

impl<T: Copy + Default + RevisionedRoundTrip> RevisionedRoundTrip for [T; 7] {
    proof fn lemma_decode_encode(v: [T; 7], rest: Seq<u8>) {
        lemma_decode_encode_each::<T>(v@, rest);
    }
}

impl<T: Copy + Default + SkipRevisioned> SkipRevisioned for [T; 7] {
    open spec fn spec_skip(input: Seq<u8>) -> Result<nat, ErrorKind> {
        skip_each::<T>(input, 7)
    }

    fn skip_revisioned(reader: &mut &[u8]) -> (r: Result<(), Error>) {
        skip_array::<T, 7>(reader)
    }

    proof fn lemma_skip_decode(input: Seq<u8>) {
        lemma_skip_each_decode::<T>(input, 7);
    }
}

impl<T: Copy + Default + SerializeRevisioned> SerializeRevisionedVec for [T; 7] {
    open spec fn spec_encode_vec(ms: Seq<Seq<T::Model>>) -> Seq<u8> {
        encode_vec_generic::<[T; 7]>(ms)
    }

    fn serialize_revisioned_vec(v: &Vec<[T; 7]>, writer: &mut Vec<u8>) -> (r: Result<(), Error>) {
        serialize_vec_generic(v, writer)
    }
}

impl<T: Copy + Default + DeserializeRevisioned> DeserializeRevisionedVec for [T; 7] {
    open spec fn spec_decode_vec(input: Seq<u8>) -> Result<(Seq<Seq<T::Model>>, nat), ErrorKind> {
        decode_vec_generic::<[T; 7]>(input)
    }

    fn deserialize_revisioned_vec(reader: &mut &[u8]) -> (res: Result<Vec<[T; 7]>, Error>) {
        deserialize_vec_generic(reader)
    }
}

impl<T: Copy + Default + RevisionedRoundTrip> RevisionedRoundTripVec for [T; 7] {
    proof fn lemma_decode_encode_vec(vs: Seq<[T; 7]>, rest: Seq<u8>) {
        lemma_decode_encode_vec_generic::<[T; 7]>(vs, rest);
    }
}

impl<T: Copy + Default + SkipRevisioned> SkipRevisionedVec for [T; 7] {
    open spec fn spec_skip_vec(input: Seq<u8>) -> Result<nat, ErrorKind> {
        skip_vec_generic::<[T; 7]>(input)
    }

    fn skip_revisioned_vec(reader: &mut &[u8]) -> (r: Result<(), Error>) {
        skip_vec_generic_exec::<[T; 7]>(reader)
    }

    proof fn lemma_skip_decode_vec(input: Seq<u8>) {
        lemma_skip_vec_generic::<[T; 7]>(input);
    }
}

impl<T: Copy + Default + Revisioned> Revisioned for [T; 8] {
    type Model = Seq<T::Model>;

    open spec fn model(&self) -> Seq<T::Model> {
        models(self@)
    }

    open spec fn spec_revision() -> u16 {
        1
    }

    fn revision() -> (r: u16) {
        1
    }
}

impl<T: Copy + Default + SerializeRevisioned> SerializeRevisioned for [T; 8] {
    open spec fn spec_encode(m: Seq<T::Model>) -> Seq<u8> {
        encode_each::<T>(m)
    }

    fn serialize_revisioned(&self, writer: &mut Vec<u8>) -> (r: Result<(), Error>) {
        serialize_array(self, writer);
        Ok(())
    }
}

impl<T: Copy + Default + DeserializeRevisioned> DeserializeRevisioned for [T; 8] {
    open spec fn spec_decode(input: Seq<u8>) -> Result<(Seq<T::Model>, nat), ErrorKind> {
        decode_each::<T>(input, 8)
    }

    fn deserialize_revisioned(reader: &mut &[u8]) -> (res: Result<[T; 8], Error>) {
        deserialize_array::<T, 8>(reader)
    }
}

impl<T: Copy + Default + RevisionedRoundTrip> RevisionedRoundTrip for [T; 8] {
    proof fn lemma_decode_encode(v: [T; 8], rest: Seq<u8>) {
        lemma_decode_encode_each::<T>(v@, rest);
    }
}

impl<T: Copy + Default + SkipRevisioned> SkipRevisioned for [T; 8] {
    open spec fn spec_skip(input: Seq<u8>) -> Result<nat, ErrorKind> {
        skip_each::<T>(input, 8)
    }

    fn skip_revisioned(reader: &mut &[u8]) -> (r: Result<(), Error>) {
        skip_array::<T, 8>(reader)
    }

    proof fn lemma_skip_decode(input: Seq<u8>) {
        lemma_skip_each_decode::<T>(input, 8);
    }
}

impl<T: Copy + Default + SerializeRevisioned> SerializeRevisionedVec for [T; 8] {
    open spec fn spec_encode_vec(ms: Seq<Seq<T::Model>>) -> Seq<u8> {
        encode_vec_generic::<[T; 8]>(ms)
    }

    fn serialize_revisioned_vec(v: &Vec<[T; 8]>, writer: &mut Vec<u8>) -> (r: Result<(), Error>) {
        serialize_vec_generic(v, writer)
    }
}

impl<T: Copy + Default + DeserializeRevisioned> DeserializeRevisionedVec for [T; 8] {
    open spec fn spec_decode_vec(input: Seq<u8>) -> Result<(Seq<Seq<T::Model>>, nat), ErrorKind> {
        decode_vec_generic::<[T; 8]>(input)
    }

    fn deserialize_revisioned_vec(reader: &mut &[u8]) -> (res: Result<Vec<[T; 8]>, Error>) {
        deserialize_vec_generic(reader)
    }
}

impl<T: Copy + Default + RevisionedRoundTrip> RevisionedRoundTripVec for [T; 8] {
    proof fn lemma_decode_encode_vec(vs: Seq<[T; 8]>, rest: Seq<u8>) {
        lemma_decode_encode_vec_generic::<[T; 8]>(vs, rest);
    }
}

impl<T: Copy + Default + SkipRevisioned> SkipRevisionedVec for [T; 8] {
    open spec fn spec_skip_vec(input: Seq<u8>) -> Result<nat, ErrorKind> {
        skip_vec_generic::<[T; 8]>(input)
    }

    fn skip_revisioned_vec(reader: &mut &[u8]) -> (r: Result<(), Error>) {
        skip_vec_generic_exec::<[T; 8]>(reader)
    }

    proof fn lemma_skip_decode_vec(input: Seq<u8>) {
        lemma_skip_vec_generic::<[T; 8]>(input);
    }
}

impl<T: Copy + Default + Revisioned> Revisioned for [T; 9] {
    type Model = Seq<T::Model>;

    open spec fn model(&self) -> Seq<T::Model> {
        models(self@)
    }

    open spec fn spec_revision() -> u16 {
        1
    }

    fn revision() -> (r: u16) {
        1
    }
}

impl<T: Copy + Default + SerializeRevisioned> SerializeRevisioned for [T; 9] {
    open spec fn spec_encode(m: Seq<T::Model>) -> Seq<u8> {
        encode_each::<T>(m)
    }

    fn serialize_revisioned(&self, writer: &mut Vec<u8>) -> (r: Result<(), Error>) {
        serialize_array(self, writer);
        Ok(())
    }
}

impl<T: Copy + Default + DeserializeRevisioned> DeserializeRevisioned for [T; 9] {
    open spec fn spec_decode(input: Seq<u8>) -> Result<(Seq<T::Model>, nat), ErrorKind> {
        decode_each::<T>(input, 9)
    }

    fn deserialize_revisioned(reader: &mut &[u8]) -> (res: Result<[T; 9], Error>) {
        deserialize_array::<T, 9>(reader)
    }
}

impl<T: Copy + Default + RevisionedRoundTrip> RevisionedRoundTrip for [T; 9] {
    proof fn lemma_decode_encode(v: [T; 9], rest: Seq<u8>) {
        lemma_decode_encode_each::<T>(v@, rest);
    }
}

impl<T: Copy + Default + SkipRevisioned> SkipRevisioned for [T; 9] {
    open spec fn spec_skip(input: Seq<u8>) -> Result<nat, ErrorKind> {
        skip_each::<T>(input, 9)
    }

    fn skip_revisioned(reader: &mut &[u8]) -> (r: Result<(), Error>) {
        skip_array::<T, 9>(reader)
    }

    proof fn lemma_skip_decode(input: Seq<u8>) {
        lemma_skip_each_decode::<T>(input, 9);
    }
}

impl<T: Copy + Default + SerializeRevisioned> SerializeRevisionedVec for [T; 9] {
    open spec fn spec_encode_vec(ms: Seq<Seq<T::Model>>) -> Seq<u8> {
        encode_vec_generic::<[T; 9]>(ms)
    }

    fn serialize_revisioned_vec(v: &Vec<[T; 9]>, writer: &mut Vec<u8>) -> (r: Result<(), Error>) {
        serialize_vec_generic(v, writer)
    }
}

impl<T: Copy + Default + DeserializeRevisioned> DeserializeRevisionedVec for [T; 9] {
    open spec fn spec_decode_vec(input: Seq<u8>) -> Result<(Seq<Seq<T::Model>>, nat), ErrorKind> {
        decode_vec_generic::<[T; 9]>(input)
    }

    fn deserialize_revisioned_vec(reader: &mut &[u8]) -> (res: Result<Vec<[T; 9]>, Error>) {
        deserialize_vec_generic(reader)
    }
}

impl<T: Copy + Default + RevisionedRoundTrip> RevisionedRoundTripVec for [T; 9] {
    proof fn lemma_decode_encode_vec(vs: Seq<[T; 9]>, rest: Seq<u8>) {
        lemma_decode_encode_vec_generic::<[T; 9]>(vs, rest);
    }
}

impl<T: Copy + Default + SkipRevisioned> SkipRevisionedVec for [T; 9] {
    open spec fn spec_skip_vec(input: Seq<u8>) -> Result<nat, ErrorKind> {
        skip_vec_generic::<[T; 9]>(input)
    }

    fn skip_revisioned_vec(reader: &mut &[u8]) -> (r: Result<(), Error>) {
        skip_vec_generic_exec::<[T; 9]>(reader)
    }

    proof fn lemma_skip_decode_vec(input: Seq<u8>) {
        lemma_skip_vec_generic::<[T; 9]>(input);
    }
}

impl<T: Copy + Default + Revisioned> Revisioned for [T; 10] {
    type Model = Seq<T::Model>;

    open spec fn model(&self) -> Seq<T::Model> {
        models(self@)
    }

    open spec fn spec_revision() -> u16 {
        1
    }

    fn revision() -> (r: u16) {
        1
    }
}

impl<T: Copy + Default + SerializeRevisioned> SerializeRevisioned for [T; 10] {
    open spec fn spec_encode(m: Seq<T::Model>) -> Seq<u8> {
        encode_each::<T>(m)
    }

    fn serialize_revisioned(&self, writer: &mut Vec<u8>) -> (r: Result<(), Error>) {
        serialize_array(self, writer);
        Ok(())
    }
}

impl<T: Copy + Default + DeserializeRevisioned> DeserializeRevisioned for [T; 10] {
    open spec fn spec_decode(input: Seq<u8>) -> Result<(Seq<T::Model>, nat), ErrorKind> {
        decode_each::<T>(input, 10)
    }

    fn deserialize_revisioned(reader: &mut &[u8]) -> (res: Result<[T; 10], Error>) {
        deserialize_array::<T, 10>(reader)
    }
}

impl<T: Copy + Default + RevisionedRoundTrip> RevisionedRoundTrip for [T; 10] {
    proof fn lemma_decode_encode(v: [T; 10], rest: Seq<u8>) {
        lemma_decode_encode_each::<T>(v@, rest);
    }
}

impl<T: Copy + Default + SkipRevisioned> SkipRevisioned for [T; 10] {
    open spec fn spec_skip(input: Seq<u8>) -> Result<nat, ErrorKind> {
        skip_each::<T>(input, 10)
    }

    fn skip_revisioned(reader: &mut &[u8]) -> (r: Result<(), Error>) {
        skip_array::<T, 10>(reader)
    }

    proof fn lemma_skip_decode(input: Seq<u8>) {
        lemma_skip_each_decode::<T>(input, 10);
    }
}

impl<T: Copy + Default + SerializeRevisioned> SerializeRevisionedVec for [T; 10] {
    open spec fn spec_encode_vec(ms: Seq<Seq<T::Model>>) -> Seq<u8> {
        encode_vec_generic::<[T; 10]>(ms)
    }

    fn serialize_revisioned_vec(v: &Vec<[T; 10]>, writer: &mut Vec<u8>) -> (r: Result<(), Error>) {
        serialize_vec_generic(v, writer)
    }
}

impl<T: Copy + Default + DeserializeRevisioned> DeserializeRevisionedVec for [T; 10] {
    open spec fn spec_decode_vec(input: Seq<u8>) -> Result<(Seq<Seq<T::Model>>, nat), ErrorKind> {
        decode_vec_generic::<[T; 10]>(input)
    }

    fn deserialize_revisioned_vec(reader: &mut &[u8]) -> (res: Result<Vec<[T; 10]>, Error>) {
        deserialize_vec_generic(reader)
    }
}

impl<T: Copy + Default + RevisionedRoundTrip> RevisionedRoundTripVec for [T; 10] {
    proof fn lemma_decode_encode_vec(vs: Seq<[T; 10]>, rest: Seq<u8>) {
        lemma_decode_encode_vec_generic::<[T; 10]>(vs, rest);
    }
}

impl<T: Copy + Default + SkipRevisioned> SkipRevisionedVec for [T; 10] {
    open spec fn spec_skip_vec(input: Seq<u8>) -> Result<nat, ErrorKind> {
        skip_vec_generic::<[T; 10]>(input)
    }

    fn skip_revisioned_vec(reader: &mut &[u8]) -> (r: Result<(), Error>) {
        skip_vec_generic_exec::<[T; 10]>(reader)
    }

    proof fn lemma_skip_decode_vec(input: Seq<u8>) {
        lemma_skip_vec_generic::<[T; 10]>(input);
    }
}

impl<T: Copy + Default + Revisioned> Revisioned for [T; 11] {
    type Model = Seq<T::Model>;

    open spec fn model(&self) -> Seq<T::Model> {
        models(self@)
    }

    open spec fn spec_revision() -> u16 {
        1
    }

    fn revision() -> (r: u16) {
        1
    }
}

impl<T: Copy + Default + SerializeRevisioned> SerializeRevisioned for [T; 11] {
    open spec fn spec_encode(m: Seq<T::Model>) -> Seq<u8> {
        encode_each::<T>(m)
    }

    fn serialize_revisioned(&self, writer: &mut Vec<u8>) -> (r: Result<(), Error>) {
        serialize_array(self, writer);
        Ok(())
    }
}

impl<T: Copy + Default + DeserializeRevisioned> DeserializeRevisioned for [T; 11] {
    open spec fn spec_decode(input: Seq<u8>) -> Result<(Seq<T::Model>, nat), ErrorKind> {
        decode_each::<T>(input, 11)
    }

    fn deserialize_revisioned(reader: &mut &[u8]) -> (res: Result<[T; 11], Error>) {
        deserialize_array::<T, 11>(reader)
    }
}

impl<T: Copy + Default + RevisionedRoundTrip> RevisionedRoundTrip for [T; 11] {
    proof fn lemma_decode_encode(v: [T; 11], rest: Seq<u8>) {
        lemma_decode_encode_each::<T>(v@, rest);
    }
}

impl<T: Copy + Default + SkipRevisioned> SkipRevisioned for [T; 11] {
    open spec fn spec_skip(input: Seq<u8>) -> Result<nat, ErrorKind> {
        skip_each::<T>(input, 11)
    }

    fn skip_revisioned(reader: &mut &[u8]) -> (r: Result<(), Error>) {
        skip_array::<T, 11>(reader)
    }

    proof fn lemma_skip_decode(input: Seq<u8>) {
        lemma_skip_each_decode::<T>(input, 11);
    }
}

impl<T: Copy + Default + SerializeRevisioned> SerializeRevisionedVec for [T; 11] {
    open spec fn spec_encode_vec(ms: Seq<Seq<T::Model>>) -> Seq<u8> {
        encode_vec_generic::<[T; 11]>(ms)
    }

    fn serialize_revisioned_vec(v: &Vec<[T; 11]>, writer: &mut Vec<u8>) -> (r: Result<(), Error>) {
        serialize_vec_generic(v, writer)
    }
}

impl<T: Copy + Default + DeserializeRevisioned> DeserializeRevisionedVec for [T; 11] {
    open spec fn spec_decode_vec(input: Seq<u8>) -> Result<(Seq<Seq<T::Model>>, nat), ErrorKind> {
        decode_vec_generic::<[T; 11]>(input)
    }

    fn deserialize_revisioned_vec(reader: &mut &[u8]) -> (res: Result<Vec<[T; 11]>, Error>) {
        deserialize_vec_generic(reader)
    }
}

impl<T: Copy + Default + RevisionedRoundTrip> RevisionedRoundTripVec for [T; 11] {
    proof fn lemma_decode_encode_vec(vs: Seq<[T; 11]>, rest: Seq<u8>) {
        lemma_decode_encode_vec_generic::<[T; 11]>(vs, rest);
    }
}

impl<T: Copy + Default + SkipRevisioned> SkipRevisionedVec for [T; 11] {
    open spec fn spec_skip_vec(input: Seq<u8>) -> Result<nat, ErrorKind> {
        skip_vec_generic::<[T; 11]>(input)
    }

    fn skip_revisioned_vec(reader: &mut &[u8]) -> (r: Result<(), Error>) {
        skip_vec_generic_exec::<[T; 11]>(reader)
    }

    proof fn lemma_skip_decode_vec(input: Seq<u8>) {
        lemma_skip_vec_generic::<[T; 11]>(input);
    }
}

impl<T: Copy + Default + Revisioned> Revisioned for [T; 12] {
    type Model = Seq<T::Model>;

    open spec fn model(&self) -> Seq<T::Model> {
        models(self@)
    }

    open spec fn spec_revision() -> u16 {
        1
    }

    fn revision() -> (r: u16) {
        1
    }
}

impl<T: Copy + Default + SerializeRevisioned> SerializeRevisioned for [T; 12] {
    open spec fn spec_encode(m: Seq<T::Model>) -> Seq<u8> {
        encode_each::<T>(m)
    }

    fn serialize_revisioned(&self, writer: &mut Vec<u8>) -> (r: Result<(), Error>) {
        serialize_array(self, writer);
        Ok(())
    }
}

impl<T: Copy + Default + DeserializeRevisioned> DeserializeRevisioned for [T; 12] {
    open spec fn spec_decode(input: Seq<u8>) -> Result<(Seq<T::Model>, nat), ErrorKind> {
        decode_each::<T>(input, 12)
    }

    fn deserialize_revisioned(reader: &mut &[u8]) -> (res: Result<[T; 12], Error>) {
        deserialize_array::<T, 12>(reader)
    }
}

impl<T: Copy + Default + RevisionedRoundTrip> RevisionedRoundTrip for [T; 12] {
    proof fn lemma_decode_encode(v: [T; 12], rest: Seq<u8>) {
        lemma_decode_encode_each::<T>(v@, rest);
    }
}

impl<T: Copy + Default + SkipRevisioned> SkipRevisioned for [T; 12] {
    open spec fn spec_skip(input: Seq<u8>) -> Result<nat, ErrorKind> {
        skip_each::<T>(input, 12)
    }

    fn skip_revisioned(reader: &mut &[u8]) -> (r: Result<(), Error>) {
        skip_array::<T, 12>(reader)
    }

    proof fn lemma_skip_decode(input: Seq<u8>) {
        lemma_skip_each_decode::<T>(input, 12);
    }
}

impl<T: Copy + Default + SerializeRevisioned> SerializeRevisionedVec for [T; 12] {
    open spec fn spec_encode_vec(ms: Seq<Seq<T::Model>>) -> Seq<u8> {
        encode_vec_generic::<[T; 12]>(ms)
    }

    fn serialize_revisioned_vec(v: &Vec<[T; 12]>, writer: &mut Vec<u8>) -> (r: Result<(), Error>) {
        serialize_vec_generic(v, writer)
    }
}

impl<T: Copy + Default + DeserializeRevisioned> DeserializeRevisionedVec for [T; 12] {
    open spec fn spec_decode_vec(input: Seq<u8>) -> Result<(Seq<Seq<T::Model>>, nat), ErrorKind> {
        decode_vec_generic::<[T; 12]>(input)
    }

    fn deserialize_revisioned_vec(reader: &mut &[u8]) -> (res: Result<Vec<[T; 12]>, Error>) {
        deserialize_vec_generic(reader)
    }
}

impl<T: Copy + Default + RevisionedRoundTrip> RevisionedRoundTripVec for [T; 12] {
    proof fn lemma_decode_encode_vec(vs: Seq<[T; 12]>, rest: Seq<u8>) {
        lemma_decode_encode_vec_generic::<[T; 12]>(vs, rest);
    }
}

impl<T: Copy + Default + SkipRevisioned> SkipRevisionedVec for [T; 12] {
    open spec fn spec_skip_vec(input: Seq<u8>) -> Result<nat, ErrorKind> {
        skip_vec_generic::<[T; 12]>(input)
    }

    fn skip_revisioned_vec(reader: &mut &[u8]) -> (r: Result<(), Error>) {
        skip_vec_generic_exec::<[T; 12]>(reader)
    }

    proof fn lemma_skip_decode_vec(input: Seq<u8>) {
        lemma_skip_vec_generic::<[T; 12]>(input);
    }
}

impl<T: Copy + Default + Revisioned> Revisioned for [T; 13] {
    type Model = Seq<T::Model>;

    open spec fn model(&self) -> Seq<T::Model> {
        models(self@)
    }

    open spec fn spec_revision() -> u16 {
        1
    }

    fn revision() -> (r: u16) {
        1
    }
}

impl<T: Copy + Default + SerializeRevisioned> SerializeRevisioned for [T; 13] {
    open spec fn spec_encode(m: Seq<T::Model>) -> Seq<u8> {
        encode_each::<T>(m)
    }

    fn serialize_revisioned(&self, writer: &mut Vec<u8>) -> (r: Result<(), Error>) {
        serialize_array(self, writer);
        Ok(())
    }
}

impl<T: Copy + Default + DeserializeRevisioned> DeserializeRevisioned for [T; 13] {
    open spec fn spec_decode(input: Seq<u8>) -> Result<(Seq<T::Model>, nat), ErrorKind> {
        decode_each::<T>(input, 13)
    }

    fn deserialize_revisioned(reader: &mut &[u8]) -> (res: Result<[T; 13], Error>) {
        deserialize_array::<T, 13>(reader)
    }
}

impl<T: Copy + Default + RevisionedRoundTrip> RevisionedRoundTrip for [T; 13] {
    proof fn lemma_decode_encode(v: [T; 13], rest: Seq<u8>) {
        lemma_decode_encode_each::<T>(v@, rest);
    }
}

impl<T: Copy + Default + SkipRevisioned> SkipRevisioned for [T; 13] {
    open spec fn spec_skip(input: Seq<u8>) -> Result<nat, ErrorKind> {
        skip_each::<T>(input, 13)
    }

    fn skip_revisioned(reader: &mut &[u8]) -> (r: Result<(), Error>) {
        skip_array::<T, 13>(reader)
    }

    proof fn lemma_skip_decode(input: Seq<u8>) {
        lemma_skip_each_decode::<T>(input, 13);
    }
}

impl<T: Copy + Default + SerializeRevisioned> SerializeRevisionedVec for [T; 13] {
    open spec fn spec_encode_vec(ms: Seq<Seq<T::Model>>) -> Seq<u8> {
        encode_vec_generic::<[T; 13]>(ms)
    }

    fn serialize_revisioned_vec(v: &Vec<[T; 13]>, writer: &mut Vec<u8>) -> (r: Result<(), Error>) {
        serialize_vec_generic(v, writer)
    }
}

impl<T: Copy + Default + DeserializeRevisioned> DeserializeRevisionedVec for [T; 13] {
    open spec fn spec_decode_vec(input: Seq<u8>) -> Result<(Seq<Seq<T::Model>>, nat), ErrorKind> {
        decode_vec_generic::<[T; 13]>(input)
    }

    fn deserialize_revisioned_vec(reader: &mut &[u8]) -> (res: Result<Vec<[T; 13]>, Error>) {
        deserialize_vec_generic(reader)
    }
}

impl<T: Copy + Default + RevisionedRoundTrip> RevisionedRoundTripVec for [T; 13] {
    proof fn lemma_decode_encode_vec(vs: Seq<[T; 13]>, rest: Seq<u8>) {
        lemma_decode_encode_vec_generic::<[T; 13]>(vs, rest);
    }
}

impl<T: Copy + Default + SkipRevisioned> SkipRevisionedVec for [T; 13] {
    open spec fn spec_skip_vec(input: Seq<u8>) -> Result<nat, ErrorKind> {
        skip_vec_generic::<[T; 13]>(input)
    }

    fn skip_revisioned_vec(reader: &mut &[u8]) -> (r: Result<(), Error>) {
        skip_vec_generic_exec::<[T; 13]>(reader)
    }

    proof fn lemma_skip_decode_vec(input: Seq<u8>) {
        lemma_skip_vec_generic::<[T; 13]>(input);
    }
}

impl<T: Copy + Default + Revisioned> Revisioned for [T; 14] {
    type Model = Seq<T::Model>;

    open spec fn model(&self) -> Seq<T::Model> {
        models(self@)
    }

    open spec fn spec_revision() -> u16 {
        1
    }

    fn revision() -> (r: u16) {
        1
    }
}

impl<T: Copy + Default + SerializeRevisioned> SerializeRevisioned for [T; 14] {
    open spec fn spec_encode(m: Seq<T::Model>) -> Seq<u8> {
        encode_each::<T>(m)
    }

    fn serialize_revisioned(&self, writer: &mut Vec<u8>) -> (r: Result<(), Error>) {
        serialize_array(self, writer);
        Ok(())
    }
}

impl<T: Copy + Default + DeserializeRevisioned> DeserializeRevisioned for [T; 14] {
    open spec fn spec_decode(input: Seq<u8>) -> Result<(Seq<T::Model>, nat), ErrorKind> {
        decode_each::<T>(input, 14)
    }

    fn deserialize_revisioned(reader: &mut &[u8]) -> (res: Result<[T; 14], Error>) {
        deserialize_array::<T, 14>(reader)
    }
}

impl<T: Copy + Default + RevisionedRoundTrip> RevisionedRoundTrip for [T; 14] {
    proof fn lemma_decode_encode(v: [T; 14], rest: Seq<u8>) {
        lemma_decode_encode_each::<T>(v@, rest);
    }
}

impl<T: Copy + Default + SkipRevisioned> SkipRevisioned for [T; 14] {
    open spec fn spec_skip(input: Seq<u8>) -> Result<nat, ErrorKind> {
        skip_each::<T>(input, 14)
    }

    fn skip_revisioned(reader: &mut &[u8]) -> (r: Result<(), Error>) {
        skip_array::<T, 14>(reader)
    }

    proof fn lemma_skip_decode(input: Seq<u8>) {
        lemma_skip_each_decode::<T>(input, 14);
    }
}

impl<T: Copy + Default + SerializeRevisioned> SerializeRevisionedVec for [T; 14] {
    open spec fn spec_encode_vec(ms: Seq<Seq<T::Model>>) -> Seq<u8> {
        encode_vec_generic::<[T; 14]>(ms)
    }

    fn serialize_revisioned_vec(v: &Vec<[T; 14]>, writer: &mut Vec<u8>) -> (r: Result<(), Error>) {
        serialize_vec_generic(v, writer)
    }
}

impl<T: Copy + Default + DeserializeRevisioned> DeserializeRevisionedVec for [T; 14] {
    open spec fn spec_decode_vec(input: Seq<u8>) -> Result<(Seq<Seq<T::Model>>, nat), ErrorKind> {
        decode_vec_generic::<[T; 14]>(input)
    }

    fn deserialize_revisioned_vec(reader: &mut &[u8]) -> (res: Result<Vec<[T; 14]>, Error>) {
        deserialize_vec_generic(reader)
    }
}

impl<T: Copy + Default + RevisionedRoundTrip> RevisionedRoundTripVec for [T; 14] {
    proof fn lemma_decode_encode_vec(vs: Seq<[T; 14]>, rest: Seq<u8>) {
        lemma_decode_encode_vec_generic::<[T; 14]>(vs, rest);
    }
}

impl<T: Copy + Default + SkipRevisioned> SkipRevisionedVec for [T; 14] {
    open spec fn spec_skip_vec(input: Seq<u8>) -> Result<nat, ErrorKind> {
        skip_vec_generic::<[T; 14]>(input)
    }

    fn skip_revisioned_vec(reader: &mut &[u8]) -> (r: Result<(), Error>) {
        skip_vec_generic_exec::<[T; 14]>(reader)
    }

    proof fn lemma_skip_decode_vec(input: Seq<u8>) {
        lemma_skip_vec_generic::<[T; 14]>(input);
    }
}

impl<T: Copy + Default + Revisioned> Revisioned for [T; 15] {
    type Model = Seq<T::Model>;

    open spec fn model(&self) -> Seq<T::Model> {
        models(self@)
    }

    open spec fn spec_revision() -> u16 {
        1
    }

    fn revision() -> (r: u16) {
        1
    }
}

impl<T: Copy + Default + SerializeRevisioned> SerializeRevisioned for [T; 15] {
    open spec fn spec_encode(m: Seq<T::Model>) -> Seq<u8> {
        encode_each::<T>(m)
    }

    fn serialize_revisioned(&self, writer: &mut Vec<u8>) -> (r: Result<(), Error>) {
        serialize_array(self, writer);
        Ok(())
    }
}

impl<T: Copy + Default + DeserializeRevisioned> DeserializeRevisioned for [T; 15] {
    open spec fn spec_decode(input: Seq<u8>) -> Result<(Seq<T::Model>, nat), ErrorKind> {
        decode_each::<T>(input, 15)
    }

    fn deserialize_revisioned(reader: &mut &[u8]) -> (res: Result<[T; 15], Error>) {
        deserialize_array::<T, 15>(reader)
    }
}

impl<T: Copy + Default + RevisionedRoundTrip> RevisionedRoundTrip for [T; 15] {
    proof fn lemma_decode_encode(v: [T; 15], rest: Seq<u8>) {
        lemma_decode_encode_each::<T>(v@, rest);
    }
}

impl<T: Copy + Default + SkipRevisioned> SkipRevisioned for [T; 15] {
    open spec fn spec_skip(input: Seq<u8>) -> Result<nat, ErrorKind> {
        skip_each::<T>(input, 15)
    }

    fn skip_revisioned(reader: &mut &[u8]) -> (r: Result<(), Error>) {
        skip_array::<T, 15>(reader)
    }

    proof fn lemma_skip_decode(input: Seq<u8>) {
        lemma_skip_each_decode::<T>(input, 15);
    }
}

impl<T: Copy + Default + SerializeRevisioned> SerializeRevisionedVec for [T; 15] {
    open spec fn spec_encode_vec(ms: Seq<Seq<T::Model>>) -> Seq<u8> {
        encode_vec_generic::<[T; 15]>(ms)
    }

    fn serialize_revisioned_vec(v: &Vec<[T; 15]>, writer: &mut Vec<u8>) -> (r: Result<(), Error>) {
        serialize_vec_generic(v, writer)
    }
}

impl<T: Copy + Default + DeserializeRevisioned> DeserializeRevisionedVec for [T; 15] {
    open spec fn spec_decode_vec(input: Seq<u8>) -> Result<(Seq<Seq<T::Model>>, nat), ErrorKind> {
        decode_vec_generic::<[T; 15]>(input)
    }

    fn deserialize_revisioned_vec(reader: &mut &[u8]) -> (res: Result<Vec<[T; 15]>, Error>) {
        deserialize_vec_generic(reader)
    }
}

impl<T: Copy + Default + RevisionedRoundTrip> RevisionedRoundTripVec for [T; 15] {
    proof fn lemma_decode_encode_vec(vs: Seq<[T; 15]>, rest: Seq<u8>) {
        lemma_decode_encode_vec_generic::<[T; 15]>(vs, rest);
    }
}

impl<T: Copy + Default + SkipRevisioned> SkipRevisionedVec for [T; 15] {
    open spec fn spec_skip_vec(input: Seq<u8>) -> Result<nat, ErrorKind> {
        skip_vec_generic::<[T; 15]>(input)
    }

    fn skip_revisioned_vec(reader: &mut &[u8]) -> (r: Result<(), Error>) {
        skip_vec_generic_exec::<[T; 15]>(reader)
    }

    proof fn lemma_skip_decode_vec(input: Seq<u8>) {
        lemma_skip_vec_generic::<[T; 15]>(input);
    }
}

impl<T: Copy + Default + Revisioned> Revisioned for [T; 16] {
    type Model = Seq<T::Model>;

    open spec fn model(&self) -> Seq<T::Model> {
        models(self@)
    }

    open spec fn spec_revision() -> u16 {
        1
    }

    fn revision() -> (r: u16) {
        1
    }
}

impl<T: Copy + Default + SerializeRevisioned> SerializeRevisioned for [T; 16] {
    open spec fn spec_encode(m: Seq<T::Model>) -> Seq<u8> {
        encode_each::<T>(m)
    }

    fn serialize_revisioned(&self, writer: &mut Vec<u8>) -> (r: Result<(), Error>) {
        serialize_array(self, writer);
        Ok(())
    }
}

impl<T: Copy + Default + DeserializeRevisioned> DeserializeRevisioned for [T; 16] {
    open spec fn spec_decode(input: Seq<u8>) -> Result<(Seq<T::Model>, nat), ErrorKind> {
        decode_each::<T>(input, 16)
    }

    fn deserialize_revisioned(reader: &mut &[u8]) -> (res: Result<[T; 16], Error>) {
        deserialize_array::<T, 16>(reader)
    }
}

impl<T: Copy + Default + RevisionedRoundTrip> RevisionedRoundTrip for [T; 16] {
    proof fn lemma_decode_encode(v: [T; 16], rest: Seq<u8>) {
        lemma_decode_encode_each::<T>(v@, rest);
    }
}

impl<T: Copy + Default + SkipRevisioned> SkipRevisioned for [T; 16] {
    open spec fn spec_skip(input: Seq<u8>) -> Result<nat, ErrorKind> {
        skip_each::<T>(input, 16)
    }

    fn skip_revisioned(reader: &mut &[u8]) -> (r: Result<(), Error>) {
        skip_array::<T, 16>(reader)
    }

    proof fn lemma_skip_decode(input: Seq<u8>) {
        lemma_skip_each_decode::<T>(input, 16);
    }
}

impl<T: Copy + Default + SerializeRevisioned> SerializeRevisionedVec for [T; 16] {
    open spec fn spec_encode_vec(ms: Seq<Seq<T::Model>>) -> Seq<u8> {
        encode_vec_generic::<[T; 16]>(ms)
    }

    fn serialize_revisioned_vec(v: &Vec<[T; 16]>, writer: &mut Vec<u8>) -> (r: Result<(), Error>) {
        serialize_vec_generic(v, writer)
    }
}

impl<T: Copy + Default + DeserializeRevisioned> DeserializeRevisionedVec for [T; 16] {
    open spec fn spec_decode_vec(input: Seq<u8>) -> Result<(Seq<Seq<T::Model>>, nat), ErrorKind> {
        decode_vec_generic::<[T; 16]>(input)
    }

    fn deserialize_revisioned_vec(reader: &mut &[u8]) -> (res: Result<Vec<[T; 16]>, Error>) {
        deserialize_vec_generic(reader)
    }
}

impl<T: Copy + Default + RevisionedRoundTrip> RevisionedRoundTripVec for [T; 16] {
    proof fn lemma_decode_encode_vec(vs: Seq<[T; 16]>, rest: Seq<u8>) {
        lemma_decode_encode_vec_generic::<[T; 16]>(vs, rest);
    }
}

impl<T: Copy + Default + SkipRevisioned> SkipRevisionedVec for [T; 16] {
    open spec fn spec_skip_vec(input: Seq<u8>) -> Result<nat, ErrorKind> {
        skip_vec_generic::<[T; 16]>(input)
    }

    fn skip_revisioned_vec(reader: &mut &[u8]) -> (r: Result<(), Error>) {
        skip_vec_generic_exec::<[T; 16]>(reader)
    }

    proof fn lemma_skip_decode_vec(input: Seq<u8>) {
        lemma_skip_vec_generic::<[T; 16]>(input);
    }
}

impl<T: Copy + Default + Revisioned> Revisioned for [T; 17] {
    type Model = Seq<T::Model>;

    open spec fn model(&self) -> Seq<T::Model> {
        models(self@)
    }

    open spec fn spec_revision() -> u16 {
        1
    }

    fn revision() -> (r: u16) {
        1
    }
}

impl<T: Copy + Default + SerializeRevisioned> SerializeRevisioned for [T; 17] {
    open spec fn spec_encode(m: Seq<T::Model>) -> Seq<u8> {
        encode_each::<T>(m)
    }

    fn serialize_revisioned(&self, writer: &mut Vec<u8>) -> (r: Result<(), Error>) {
        serialize_array(self, writer);
        Ok(())
    }
}

impl<T: Copy + Default + DeserializeRevisioned> DeserializeRevisioned for [T; 17] {
    open spec fn spec_decode(input: Seq<u8>) -> Result<(Seq<T::Model>, nat), ErrorKind> {
        decode_each::<T>(input, 17)
    }

    fn deserialize_revisioned(reader: &mut &[u8]) -> (res: Result<[T; 17], Error>) {
        deserialize_array::<T, 17>(reader)
    }
}

impl<T: Copy + Default + RevisionedRoundTrip> RevisionedRoundTrip for [T; 17] {
    proof fn lemma_decode_encode(v: [T; 17], rest: Seq<u8>) {
        lemma_decode_encode_each::<T>(v@, rest);
    }
}

impl<T: Copy + Default + SkipRevisioned> SkipRevisioned for [T; 17] {
    open spec fn spec_skip(input: Seq<u8>) -> Result<nat, ErrorKind> {
        skip_each::<T>(input, 17)
    }

    fn skip_revisioned(reader: &mut &[u8]) -> (r: Result<(), Error>) {
        skip_array::<T, 17>(reader)
    }

    proof fn lemma_skip_decode(input: Seq<u8>) {
        lemma_skip_each_decode::<T>(input, 17);
    }
}

impl<T: Copy + Default + SerializeRevisioned> SerializeRevisionedVec for [T; 17] {
    open spec fn spec_encode_vec(ms: Seq<Seq<T::Model>>) -> Seq<u8> {
        encode_vec_generic::<[T; 17]>(ms)
    }

    fn serialize_revisioned_vec(v: &Vec<[T; 17]>, writer: &mut Vec<u8>) -> (r: Result<(), Error>) {
        serialize_vec_generic(v, writer)
    }
}

impl<T: Copy + Default + DeserializeRevisioned> DeserializeRevisionedVec for [T; 17] {
    open spec fn spec_decode_vec(input: Seq<u8>) -> Result<(Seq<Seq<T::Model>>, nat), ErrorKind> {
        decode_vec_generic::<[T; 17]>(input)
    }

    fn deserialize_revisioned_vec(reader: &mut &[u8]) -> (res: Result<Vec<[T; 17]>, Error>) {
        deserialize_vec_generic(reader)
    }
}

impl<T: Copy + Default + RevisionedRoundTrip> RevisionedRoundTripVec for [T; 17] {
    proof fn lemma_decode_encode_vec(vs: Seq<[T; 17]>, rest: Seq<u8>) {
        lemma_decode_encode_vec_generic::<[T; 17]>(vs, rest);
    }
}

impl<T: Copy + Default + SkipRevisioned> SkipRevisionedVec for [T; 17] {
    open spec fn spec_skip_vec(input: Seq<u8>) -> Result<nat, ErrorKind> {
        skip_vec_generic::<[T; 17]>(input)
    }

    fn skip_revisioned_vec(reader: &mut &[u8]) -> (r: Result<(), Error>) {
        skip_vec_generic_exec::<[T; 17]>(reader)
    }

    proof fn lemma_skip_decode_vec(input: Seq<u8>) {
        lemma_skip_vec_generic::<[T; 17]>(input);
    }
}

impl<T: Copy + Default + Revisioned> Revisioned for [T; 18] {
    type Model = Seq<T::Model>;

    open spec fn model(&self) -> Seq<T::Model> {
        models(self@)
    }

    open spec fn spec_revision() -> u16 {
        1
    }

    fn revision() -> (r: u16) {
        1
    }
}

impl<T: Copy + Default + SerializeRevisioned> SerializeRevisioned for [T; 18] {
    open spec fn spec_encode(m: Seq<T::Model>) -> Seq<u8> {
        encode_each::<T>(m)
    }

    fn serialize_revisioned(&self, writer: &mut Vec<u8>) -> (r: Result<(), Error>) {
        serialize_array(self, writer);
        Ok(())
    }
}

impl<T: Copy + Default + DeserializeRevisioned> DeserializeRevisioned for [T; 18] {
    open spec fn spec_decode(input: Seq<u8>) -> Result<(Seq<T::Model>, nat), ErrorKind> {
        decode_each::<T>(input, 18)
    }

    fn deserialize_revisioned(reader: &mut &[u8]) -> (res: Result<[T; 18], Error>) {
        deserialize_array::<T, 18>(reader)
    }
}

impl<T: Copy + Default + RevisionedRoundTrip> RevisionedRoundTrip for [T; 18] {
    proof fn lemma_decode_encode(v: [T; 18], rest: Seq<u8>) {
        lemma_decode_encode_each::<T>(v@, rest);
    }
}

impl<T: Copy + Default + SkipRevisioned> SkipRevisioned for [T; 18] {
    open spec fn spec_skip(input: Seq<u8>) -> Result<nat, ErrorKind> {
        skip_each::<T>(input, 18)
    }

    fn skip_revisioned(reader: &mut &[u8]) -> (r: Result<(), Error>) {
        skip_array::<T, 18>(reader)
    }

    proof fn lemma_skip_decode(input: Seq<u8>) {
        lemma_skip_each_decode::<T>(input, 18);
    }
}

impl<T: Copy + Default + SerializeRevisioned> SerializeRevisionedVec for [T; 18] {
    open spec fn spec_encode_vec(ms: Seq<Seq<T::Model>>) -> Seq<u8> {
        encode_vec_generic::<[T; 18]>(ms)
    }

    fn serialize_revisioned_vec(v: &Vec<[T; 18]>, writer: &mut Vec<u8>) -> (r: Result<(), Error>) {
        serialize_vec_generic(v, writer)
    }
}

impl<T: Copy + Default + DeserializeRevisioned> DeserializeRevisionedVec for [T; 18] {
    open spec fn spec_decode_vec(input: Seq<u8>) -> Result<(Seq<Seq<T::Model>>, nat), ErrorKind> {
        decode_vec_generic::<[T; 18]>(input)
    }

    fn deserialize_revisioned_vec(reader: &mut &[u8]) -> (res: Result<Vec<[T; 18]>, Error>) {
        deserialize_vec_generic(reader)
    }
}

impl<T: Copy + Default + RevisionedRoundTrip> RevisionedRoundTripVec for [T; 18] {
    proof fn lemma_decode_encode_vec(vs: Seq<[T; 18]>, rest: Seq<u8>) {
        lemma_decode_encode_vec_generic::<[T; 18]>(vs, rest);
    }
}

impl<T: Copy + Default + SkipRevisioned> SkipRevisionedVec for [T; 18] {
    open spec fn spec_skip_vec(input: Seq<u8>) -> Result<nat, ErrorKind> {
        skip_vec_generic::<[T; 18]>(input)
    }

    fn skip_revisioned_vec(reader: &mut &[u8]) -> (r: Result<(), Error>) {
        skip_vec_generic_exec::<[T; 18]>(reader)
    }

    proof fn lemma_skip_decode_vec(input: Seq<u8>) {
        lemma_skip_vec_generic::<[T; 18]>(input);
    }
}

impl<T: Copy + Default + Revisioned> Revisioned for [T; 19] {
    type Model = Seq<T::Model>;

    open spec fn model(&self) -> Seq<T::Model> {
        models(self@)
    }

    open spec fn spec_revision() -> u16 {
        1
    }

    fn revision() -> (r: u16) {
        1
    }
}

impl<T: Copy + Default + SerializeRevisioned> SerializeRevisioned for [T; 19] {
    open spec fn spec_encode(m: Seq<T::Model>) -> Seq<u8> {
        encode_each::<T>(m)
    }

    fn serialize_revisioned(&self, writer: &mut Vec<u8>) -> (r: Result<(), Error>) {
        serialize_array(self, writer);
        Ok(())
    }
}

impl<T: Copy + Default + DeserializeRevisioned> DeserializeRevisioned for [T; 19] {
    open spec fn spec_decode(input: Seq<u8>) -> Result<(Seq<T::Model>, nat), ErrorKind> {
        decode_each::<T>(input, 19)
    }

    fn deserialize_revisioned(reader: &mut &[u8]) -> (res: Result<[T; 19], Error>) {
        deserialize_array::<T, 19>(reader)
    }
}

impl<T: Copy + Default + RevisionedRoundTrip> RevisionedRoundTrip for [T; 19] {
    proof fn lemma_decode_encode(v: [T; 19], rest: Seq<u8>) {
        lemma_decode_encode_each::<T>(v@, rest);
    }
}

impl<T: Copy + Default + SkipRevisioned> SkipRevisioned for [T; 19] {
    open spec fn spec_skip(input: Seq<u8>) -> Result<nat, ErrorKind> {
        skip_each::<T>(input, 19)
    }

    fn skip_revisioned(reader: &mut &[u8]) -> (r: Result<(), Error>) {
        skip_array::<T, 19>(reader)
    }

    proof fn lemma_skip_decode(input: Seq<u8>) {
        lemma_skip_each_decode::<T>(input, 19);
    }
}

impl<T: Copy + Default + SerializeRevisioned> SerializeRevisionedVec for [T; 19] {
    open spec fn spec_encode_vec(ms: Seq<Seq<T::Model>>) -> Seq<u8> {
        encode_vec_generic::<[T; 19]>(ms)
    }

    fn serialize_revisioned_vec(v: &Vec<[T; 19]>, writer: &mut Vec<u8>) -> (r: Result<(), Error>) {
        serialize_vec_generic(v, writer)
    }
}

impl<T: Copy + Default + DeserializeRevisioned> DeserializeRevisionedVec for [T; 19] {
    open spec fn spec_decode_vec(input: Seq<u8>) -> Result<(Seq<Seq<T::Model>>, nat), ErrorKind> {
        decode_vec_generic::<[T; 19]>(input)
    }

    fn deserialize_revisioned_vec(reader: &mut &[u8]) -> (res: Result<Vec<[T; 19]>, Error>) {
        deserialize_vec_generic(reader)
    }
}

impl<T: Copy + Default + RevisionedRoundTrip> RevisionedRoundTripVec for [T; 19] {
    proof fn lemma_decode_encode_vec(vs: Seq<[T; 19]>, rest: Seq<u8>) {
        lemma_decode_encode_vec_generic::<[T; 19]>(vs, rest);
    }
}

impl<T: Copy + Default + SkipRevisioned> SkipRevisionedVec for [T; 19] {
    open spec fn spec_skip_vec(input: Seq<u8>) -> Result<nat, ErrorKind> {
        skip_vec_generic::<[T; 19]>(input)
    }

    fn skip_revisioned_vec(reader: &mut &[u8]) -> (r: Result<(), Error>) {
        skip_vec_generic_exec::<[T; 19]>(reader)
    }

    proof fn lemma_skip_decode_vec(input: Seq<u8>) {
        lemma_skip_vec_generic::<[T; 19]>(input);
    }
}

impl<T: Copy + Default + Revisioned> Revisioned for [T; 20] {
    type Model = Seq<T::Model>;

    open spec fn model(&self) -> Seq<T::Model> {
        models(self@)
    }

    open spec fn spec_revision() -> u16 {
        1
    }

    fn revision() -> (r: u16) {
        1
    }
}

impl<T: Copy + Default + SerializeRevisioned> SerializeRevisioned for [T; 20] {
    open spec fn spec_encode(m: Seq<T::Model>) -> Seq<u8> {
        encode_each::<T>(m)
    }

    fn serialize_revisioned(&self, writer: &mut Vec<u8>) -> (r: Result<(), Error>) {
        serialize_array(self, writer);
        Ok(())
    }
}

impl<T: Copy + Default + DeserializeRevisioned> DeserializeRevisioned for [T; 20] {
    open spec fn spec_decode(input: Seq<u8>) -> Result<(Seq<T::Model>, nat), ErrorKind> {
        decode_each::<T>(input, 20)
    }

    fn deserialize_revisioned(reader: &mut &[u8]) -> (res: Result<[T; 20], Error>) {
        deserialize_array::<T, 20>(reader)
    }
}

impl<T: Copy + Default + RevisionedRoundTrip> RevisionedRoundTrip for [T; 20] {
    proof fn lemma_decode_encode(v: [T; 20], rest: Seq<u8>) {
        lemma_decode_encode_each::<T>(v@, rest);
    }
}

impl<T: Copy + Default + SkipRevisioned> SkipRevisioned for [T; 20] {
    open spec fn spec_skip(input: Seq<u8>) -> Result<nat, ErrorKind> {
        skip_each::<T>(input, 20)
    }

    fn skip_revisioned(reader: &mut &[u8]) -> (r: Result<(), Error>) {
        skip_array::<T, 20>(reader)
    }

    proof fn lemma_skip_decode(input: Seq<u8>) {
        lemma_skip_each_decode::<T>(input, 20);
    }
}

impl<T: Copy + Default + SerializeRevisioned> SerializeRevisionedVec for [T; 20] {
    open spec fn spec_encode_vec(ms: Seq<Seq<T::Model>>) -> Seq<u8> {
        encode_vec_generic::<[T; 20]>(ms)
    }

    fn serialize_revisioned_vec(v: &Vec<[T; 20]>, writer: &mut Vec<u8>) -> (r: Result<(), Error>) {
        serialize_vec_generic(v, writer)
    }
}

impl<T: Copy + Default + DeserializeRevisioned> DeserializeRevisionedVec for [T; 20] {
    open spec fn spec_decode_vec(input: Seq<u8>) -> Result<(Seq<Seq<T::Model>>, nat), ErrorKind> {
        decode_vec_generic::<[T; 20]>(input)
    }

    fn deserialize_revisioned_vec(reader: &mut &[u8]) -> (res: Result<Vec<[T; 20]>, Error>) {
        deserialize_vec_generic(reader)
    }
}

impl<T: Copy + Default + RevisionedRoundTrip> RevisionedRoundTripVec for [T; 20] {
    proof fn lemma_decode_encode_vec(vs: Seq<[T; 20]>, rest: Seq<u8>) {
        lemma_decode_encode_vec_generic::<[T; 20]>(vs, rest);
    }
}

impl<T: Copy + Default + SkipRevisioned> SkipRevisionedVec for [T; 20] {
    open spec fn spec_skip_vec(input: Seq<u8>) -> Result<nat, ErrorKind> {
        skip_vec_generic::<[T; 20]>(input)
    }

    fn skip_revisioned_vec(reader: &mut &[u8]) -> (r: Result<(), Error>) {
        skip_vec_generic_exec::<[T; 20]>(reader)
    }

    proof fn lemma_skip_decode_vec(input: Seq<u8>) {
        lemma_skip_vec_generic::<[T; 20]>(input);
    }
}

impl<T: Copy + Default + Revisioned> Revisioned for [T; 21] {
    type Model = Seq<T::Model>;

    open spec fn model(&self) -> Seq<T::Model> {
        models(self@)
    }

    open spec fn spec_revision() -> u16 {
        1
    }

    fn revision() -> (r: u16) {
        1
    }
}

impl<T: Copy + Default + SerializeRevisioned> SerializeRevisioned for [T; 21] {
    open spec fn spec_encode(m: Seq<T::Model>) -> Seq<u8> {
        encode_each::<T>(m)
    }

    fn serialize_revisioned(&self, writer: &mut Vec<u8>) -> (r: Result<(), Error>) {
        serialize_array(self, writer);
        Ok(())
    }
}

impl<T: Copy + Default + DeserializeRevisioned> DeserializeRevisioned for [T; 21] {
    open spec fn spec_decode(input: Seq<u8>) -> Result<(Seq<T::Model>, nat), ErrorKind> {
        decode_each::<T>(input, 21)
    }

    fn deserialize_revisioned(reader: &mut &[u8]) -> (res: Result<[T; 21], Error>) {
        deserialize_array::<T, 21>(reader)
    }
}

impl<T: Copy + Default + RevisionedRoundTrip> RevisionedRoundTrip for [T; 21] {
    proof fn lemma_decode_encode(v: [T; 21], rest: Seq<u8>) {
        lemma_decode_encode_each::<T>(v@, rest);
    }
}

impl<T: Copy + Default + SkipRevisioned> SkipRevisioned for [T; 21] {
    open spec fn spec_skip(input: Seq<u8>) -> Result<nat, ErrorKind> {
        skip_each::<T>(input, 21)
    }

    fn skip_revisioned(reader: &mut &[u8]) -> (r: Result<(), Error>) {
        skip_array::<T, 21>(reader)
    }

    proof fn lemma_skip_decode(input: Seq<u8>) {
        lemma_skip_each_decode::<T>(input, 21);
    }
}

impl<T: Copy + Default + SerializeRevisioned> SerializeRevisionedVec for [T; 21] {
    open spec fn spec_encode_vec(ms: Seq<Seq<T::Model>>) -> Seq<u8> {
        encode_vec_generic::<[T; 21]>(ms)
    }

    fn serialize_revisioned_vec(v: &Vec<[T; 21]>, writer: &mut Vec<u8>) -> (r: Result<(), Error>) {
        serialize_vec_generic(v, writer)
    }
}

impl<T: Copy + Default + DeserializeRevisioned> DeserializeRevisionedVec for [T; 21] {
    open spec fn spec_decode_vec(input: Seq<u8>) -> Result<(Seq<Seq<T::Model>>, nat), ErrorKind> {
        decode_vec_generic::<[T; 21]>(input)
    }

    fn deserialize_revisioned_vec(reader: &mut &[u8]) -> (res: Result<Vec<[T; 21]>, Error>) {
        deserialize_vec_generic(reader)
    }
}

impl<T: Copy + Default + RevisionedRoundTrip> RevisionedRoundTripVec for [T; 21] {
    proof fn lemma_decode_encode_vec(vs: Seq<[T; 21]>, rest: Seq<u8>) {
        lemma_decode_encode_vec_generic::<[T; 21]>(vs, rest);
    }
}

impl<T: Copy + Default + SkipRevisioned> SkipRevisionedVec for [T; 21] {
    open spec fn spec_skip_vec(input: Seq<u8>) -> Result<nat, ErrorKind> {
        skip_vec_generic::<[T; 21]>(input)
    }

    fn skip_revisioned_vec(reader: &mut &[u8]) -> (r: Result<(), Error>) {
        skip_vec_generic_exec::<[T; 21]>(reader)
    }

    proof fn lemma_skip_decode_vec(input: Seq<u8>) {
        lemma_skip_vec_generic::<[T; 21]>(input);
    }
}

impl<T: Copy + Default + Revisioned> Revisioned for [T; 22] {
    type Model = Seq<T::Model>;

    open spec fn model(&self) -> Seq<T::Model> {
        models(self@)
    }

    open spec fn spec_revision() -> u16 {
        1
    }

    fn revision() -> (r: u16) {
        1
    }
}

impl<T: Copy + Default + SerializeRevisioned> SerializeRevisioned for [T; 22] {
    open spec fn spec_encode(m: Seq<T::Model>) -> Seq<u8> {
        encode_each::<T>(m)
    }

    fn serialize_revisioned(&self, writer: &mut Vec<u8>) -> (r: Result<(), Error>) {
        serialize_array(self, writer);
        Ok(())
    }
}

impl<T: Copy + Default + DeserializeRevisioned> DeserializeRevisioned for [T; 22] {
    open spec fn spec_decode(input: Seq<u8>) -> Result<(Seq<T::Model>, nat), ErrorKind> {
        decode_each::<T>(input, 22)
    }

    fn deserialize_revisioned(reader: &mut &[u8]) -> (res: Result<[T; 22], Error>) {
        deserialize_array::<T, 22>(reader)
    }
}

impl<T: Copy + Default + RevisionedRoundTrip> RevisionedRoundTrip for [T; 22] {
    proof fn lemma_decode_encode(v: [T; 22], rest: Seq<u8>) {
        lemma_decode_encode_each::<T>(v@, rest);
    }
}

impl<T: Copy + Default + SkipRevisioned> SkipRevisioned for [T; 22] {
    open spec fn spec_skip(input: Seq<u8>) -> Result<nat, ErrorKind> {
        skip_each::<T>(input, 22)
    }

    fn skip_revisioned(reader: &mut &[u8]) -> (r: Result<(), Error>) {
        skip_array::<T, 22>(reader)
    }

    proof fn lemma_skip_decode(input: Seq<u8>) {
        lemma_skip_each_decode::<T>(input, 22);
    }
}

impl<T: Copy + Default + SerializeRevisioned> SerializeRevisionedVec for [T; 22] {
    open spec fn spec_encode_vec(ms: Seq<Seq<T::Model>>) -> Seq<u8> {
        encode_vec_generic::<[T; 22]>(ms)
    }

    fn serialize_revisioned_vec(v: &Vec<[T; 22]>, writer: &mut Vec<u8>) -> (r: Result<(), Error>) {
        serialize_vec_generic(v, writer)
    }
}

impl<T: Copy + Default + DeserializeRevisioned> DeserializeRevisionedVec for [T; 22] {
    open spec fn spec_decode_vec(input: Seq<u8>) -> Result<(Seq<Seq<T::Model>>, nat), ErrorKind> {
        decode_vec_generic::<[T; 22]>(input)
    }

    fn deserialize_revisioned_vec(reader: &mut &[u8]) -> (res: Result<Vec<[T; 22]>, Error>) {
        deserialize_vec_generic(reader)
    }
}

impl<T: Copy + Default + RevisionedRoundTrip> RevisionedRoundTripVec for [T; 22] {
    proof fn lemma_decode_encode_vec(vs: Seq<[T; 22]>, rest: Seq<u8>) {
        lemma_decode_encode_vec_generic::<[T; 22]>(vs, rest);
    }
}

impl<T: Copy + Default + SkipRevisioned> SkipRevisionedVec for [T; 22] {
    open spec fn spec_skip_vec(input: Seq<u8>) -> Result<nat, ErrorKind> {
        skip_vec_generic::<[T; 22]>(input)
    }

    fn skip_revisioned_vec(reader: &mut &[u8]) -> (r: Result<(), Error>) {
        skip_vec_generic_exec::<[T; 22]>(reader)
    }

    proof fn lemma_skip_decode_vec(input: Seq<u8>) {
        lemma_skip_vec_generic::<[T; 22]>(input);
    }
}

impl<T: Copy + Default + Revisioned> Revisioned for [T; 23] {
    type Model = Seq<T::Model>;

    open spec fn model(&self) -> Seq<T::Model> {
        models(self@)
    }

    open spec fn spec_revision() -> u16 {
        1
    }

    fn revision() -> (r: u16) {
        1
    }
}

impl<T: Copy + Default + SerializeRevisioned> SerializeRevisioned for [T; 23] {
    open spec fn spec_encode(m: Seq<T::Model>) -> Seq<u8> {
        encode_each::<T>(m)
    }

    fn serialize_revisioned(&self, writer: &mut Vec<u8>) -> (r: Result<(), Error>) {
        serialize_array(self, writer);
        Ok(())
    }
}

impl<T: Copy + Default + DeserializeRevisioned> DeserializeRevisioned for [T; 23] {
    open spec fn spec_decode(input: Seq<u8>) -> Result<(Seq<T::Model>, nat), ErrorKind> {
        decode_each::<T>(input, 23)
    }

    fn deserialize_revisioned(reader: &mut &[u8]) -> (res: Result<[T; 23], Error>) {
        deserialize_array::<T, 23>(reader)
    }
}

impl<T: Copy + Default + RevisionedRoundTrip> RevisionedRoundTrip for [T; 23] {
    proof fn lemma_decode_encode(v: [T; 23], rest: Seq<u8>) {
        lemma_decode_encode_each::<T>(v@, rest);
    }
}

impl<T: Copy + Default + SkipRevisioned> SkipRevisioned for [T; 23] {
    open spec fn spec_skip(input: Seq<u8>) -> Result<nat, ErrorKind> {
        skip_each::<T>(input, 23)
    }

    fn skip_revisioned(reader: &mut &[u8]) -> (r: Result<(), Error>) {
        skip_array::<T, 23>(reader)
    }

    proof fn lemma_skip_decode(input: Seq<u8>) {
        lemma_skip_each_decode::<T>(input, 23);
    }
}

impl<T: Copy + Default + SerializeRevisioned> SerializeRevisionedVec for [T; 23] {
    open spec fn spec_encode_vec(ms: Seq<Seq<T::Model>>) -> Seq<u8> {
        encode_vec_generic::<[T; 23]>(ms)
    }

    fn serialize_revisioned_vec(v: &Vec<[T; 23]>, writer: &mut Vec<u8>) -> (r: Result<(), Error>) {
        serialize_vec_generic(v, writer)
    }
}

impl<T: Copy + Default + DeserializeRevisioned> DeserializeRevisionedVec for [T; 23] {
    open spec fn spec_decode_vec(input: Seq<u8>) -> Result<(Seq<Seq<T::Model>>, nat), ErrorKind> {
        decode_vec_generic::<[T; 23]>(input)
    }

    fn deserialize_revisioned_vec(reader: &mut &[u8]) -> (res: Result<Vec<[T; 23]>, Error>) {
        deserialize_vec_generic(reader)
    }
}

impl<T: Copy + Default + RevisionedRoundTrip> RevisionedRoundTripVec for [T; 23] {
    proof fn lemma_decode_encode_vec(vs: Seq<[T; 23]>, rest: Seq<u8>) {
        lemma_decode_encode_vec_generic::<[T; 23]>(vs, rest);
    }
}

impl<T: Copy + Default + SkipRevisioned> SkipRevisionedVec for [T; 23] {
    open spec fn spec_skip_vec(input: Seq<u8>) -> Result<nat, ErrorKind> {
        skip_vec_generic::<[T; 23]>(input)
    }

    fn skip_revisioned_vec(reader: &mut &[u8]) -> (r: Result<(), Error>) {
        skip_vec_generic_exec::<[T; 23]>(reader)
    }

    proof fn lemma_skip_decode_vec(input: Seq<u8>) {
        lemma_skip_vec_generic::<[T; 23]>(input);
    }
}

impl<T: Copy + Default + Revisioned> Revisioned for [T; 24] {
    type Model = Seq<T::Model>;

    open spec fn model(&self) -> Seq<T::Model> {
        models(self@)
    }

    open spec fn spec_revision() -> u16 {
        1
    }

    fn revision() -> (r: u16) {
        1
    }
}

impl<T: Copy + Default + SerializeRevisioned> SerializeRevisioned for [T; 24] {
    open spec fn spec_encode(m: Seq<T::Model>) -> Seq<u8> {
        encode_each::<T>(m)
    }

    fn serialize_revisioned(&self, writer: &mut Vec<u8>) -> (r: Result<(), Error>) {
        serialize_array(self, writer);
        Ok(())
    }
}

impl<T: Copy + Default + DeserializeRevisioned> DeserializeRevisioned for [T; 24] {
    open spec fn spec_decode(input: Seq<u8>) -> Result<(Seq<T::Model>, nat), ErrorKind> {
        decode_each::<T>(input, 24)
    }

    fn deserialize_revisioned(reader: &mut &[u8]) -> (res: Result<[T; 24], Error>) {
        deserialize_array::<T, 24>(reader)
    }
}

impl<T: Copy + Default + RevisionedRoundTrip> RevisionedRoundTrip for [T; 24] {
    proof fn lemma_decode_encode(v: [T; 24], rest: Seq<u8>) {
        lemma_decode_encode_each::<T>(v@, rest);
    }
}

impl<T: Copy + Default + SkipRevisioned> SkipRevisioned for [T; 24] {
    open spec fn spec_skip(input: Seq<u8>) -> Result<nat, ErrorKind> {
        skip_each::<T>(input, 24)
    }

    fn skip_revisioned(reader: &mut &[u8]) -> (r: Result<(), Error>) {
        skip_array::<T, 24>(reader)
    }

    proof fn lemma_skip_decode(input: Seq<u8>) {
        lemma_skip_each_decode::<T>(input, 24);
    }
}

impl<T: Copy + Default + SerializeRevisioned> SerializeRevisionedVec for [T; 24] {
    open spec fn spec_encode_vec(ms: Seq<Seq<T::Model>>) -> Seq<u8> {
        encode_vec_generic::<[T; 24]>(ms)
    }

    fn serialize_revisioned_vec(v: &Vec<[T; 24]>, writer: &mut Vec<u8>) -> (r: Result<(), Error>) {
        serialize_vec_generic(v, writer)
    }
}

impl<T: Copy + Default + DeserializeRevisioned> DeserializeRevisionedVec for [T; 24] {
    open spec fn spec_decode_vec(input: Seq<u8>) -> Result<(Seq<Seq<T::Model>>, nat), ErrorKind> {
        decode_vec_generic::<[T; 24]>(input)
    }

    fn deserialize_revisioned_vec(reader: &mut &[u8]) -> (res: Result<Vec<[T; 24]>, Error>) {
        deserialize_vec_generic(reader)
    }
}

impl<T: Copy + Default + RevisionedRoundTrip> RevisionedRoundTripVec for [T; 24] {
    proof fn lemma_decode_encode_vec(vs: Seq<[T; 24]>, rest: Seq<u8>) {
        lemma_decode_encode_vec_generic::<[T; 24]>(vs, rest);
    }
}

impl<T: Copy + Default + SkipRevisioned> SkipRevisionedVec for [T; 24] {
    open spec fn spec_skip_vec(input: Seq<u8>) -> Result<nat, ErrorKind> {
        skip_vec_generic::<[T; 24]>(input)
    }

    fn skip_revisioned_vec(reader: &mut &[u8]) -> (r: Result<(), Error>) {
        skip_vec_generic_exec::<[T; 24]>(reader)
    }

    proof fn lemma_skip_decode_vec(input: Seq<u8>) {
        lemma_skip_vec_generic::<[T; 24]>(input);
    }
}

impl<T: Copy + Default + Revisioned> Revisioned for [T; 25] {
    type Model = Seq<T::Model>;

    open spec fn model(&self) -> Seq<T::Model> {
        models(self@)
    }

    open spec fn spec_revision() -> u16 {
        1
    }

    fn revision() -> (r: u16) {
        1
    }
}

impl<T: Copy + Default + SerializeRevisioned> SerializeRevisioned for [T; 25] {
    open spec fn spec_encode(m: Seq<T::Model>) -> Seq<u8> {
        encode_each::<T>(m)
    }

    fn serialize_revisioned(&self, writer: &mut Vec<u8>) -> (r: Result<(), Error>) {
        serialize_array(self, writer);
        Ok(())
    }
}

impl<T: Copy + Default + DeserializeRevisioned> DeserializeRevisioned for [T; 25] {
    open spec fn spec_decode(input: Seq<u8>) -> Result<(Seq<T::Model>, nat), ErrorKind> {
        decode_each::<T>(input, 25)
    }

    fn deserialize_revisioned(reader: &mut &[u8]) -> (res: Result<[T; 25], Error>) {
        deserialize_array::<T, 25>(reader)
    }
}

impl<T: Copy + Default + RevisionedRoundTrip> RevisionedRoundTrip for [T; 25] {
    proof fn lemma_decode_encode(v: [T; 25], rest: Seq<u8>) {
        lemma_decode_encode_each::<T>(v@, rest);
    }
}

impl<T: Copy + Default + SkipRevisioned> SkipRevisioned for [T; 25] {
    open spec fn spec_skip(input: Seq<u8>) -> Result<nat, ErrorKind> {
        skip_each::<T>(input, 25)
    }

    fn skip_revisioned(reader: &mut &[u8]) -> (r: Result<(), Error>) {
        skip_array::<T, 25>(reader)
    }

    proof fn lemma_skip_decode(input: Seq<u8>) {
        lemma_skip_each_decode::<T>(input, 25);
    }
}

impl<T: Copy + Default + SerializeRevisioned> SerializeRevisionedVec for [T; 25] {
    open spec fn spec_encode_vec(ms: Seq<Seq<T::Model>>) -> Seq<u8> {
        encode_vec_generic::<[T; 25]>(ms)
    }

    fn serialize_revisioned_vec(v: &Vec<[T; 25]>, writer: &mut Vec<u8>) -> (r: Result<(), Error>) {
        serialize_vec_generic(v, writer)
    }
}

impl<T: Copy + Default + DeserializeRevisioned> DeserializeRevisionedVec for [T; 25] {
    open spec fn spec_decode_vec(input: Seq<u8>) -> Result<(Seq<Seq<T::Model>>, nat), ErrorKind> {
        decode_vec_generic::<[T; 25]>(input)
    }

    fn deserialize_revisioned_vec(reader: &mut &[u8]) -> (res: Result<Vec<[T; 25]>, Error>) {
        deserialize_vec_generic(reader)
    }
}

impl<T: Copy + Default + RevisionedRoundTrip> RevisionedRoundTripVec for [T; 25] {
    proof fn lemma_decode_encode_vec(vs: Seq<[T; 25]>, rest: Seq<u8>) {
        lemma_decode_encode_vec_generic::<[T; 25]>(vs, rest);
    }
}

impl<T: Copy + Default + SkipRevisioned> SkipRevisionedVec for [T; 25] {
    open spec fn spec_skip_vec(input: Seq<u8>) -> Result<nat, ErrorKind> {
        skip_vec_generic::<[T; 25]>(input)
    }

    fn skip_revisioned_vec(reader: &mut &[u8]) -> (r: Result<(), Error>) {
        skip_vec_generic_exec::<[T; 25]>(reader)
    }

    proof fn lemma_skip_decode_vec(input: Seq<u8>) {
        lemma_skip_vec_generic::<[T; 25]>(input);
    }
}

impl<T: Copy + Default + Revisioned> Revisioned for [T; 26] {
    type Model = Seq<T::Model>;

    open spec fn model(&self) -> Seq<T::Model> {
        models(self@)
    }

    open spec fn spec_revision() -> u16 {
        1
    }

    fn revision() -> (r: u16) {
        1
    }
}

impl<T: Copy + Default + SerializeRevisioned> SerializeRevisioned for [T; 26] {
    open spec fn spec_encode(m: Seq<T::Model>) -> Seq<u8> {
        encode_each::<T>(m)
    }

    fn serialize_revisioned(&self, writer: &mut Vec<u8>) -> (r: Result<(), Error>) {
        serialize_array(self, writer);
        Ok(())
    }
}

impl<T: Copy + Default + DeserializeRevisioned> DeserializeRevisioned for [T; 26] {
    open spec fn spec_decode(input: Seq<u8>) -> Result<(Seq<T::Model>, nat), ErrorKind> {
        decode_each::<T>(input, 26)
    }

    fn deserialize_revisioned(reader: &mut &[u8]) -> (res: Result<[T; 26], Error>) {
        deserialize_array::<T, 26>(reader)
    }
}

impl<T: Copy + Default + RevisionedRoundTrip> RevisionedRoundTrip for [T; 26] {
    proof fn lemma_decode_encode(v: [T; 26], rest: Seq<u8>) {
        lemma_decode_encode_each::<T>(v@, rest);
    }
}

impl<T: Copy + Default + SkipRevisioned> SkipRevisioned for [T; 26] {
    open spec fn spec_skip(input: Seq<u8>) -> Result<nat, ErrorKind> {
        skip_each::<T>(input, 26)
    }

    fn skip_revisioned(reader: &mut &[u8]) -> (r: Result<(), Error>) {
        skip_array::<T, 26>(reader)
    }

    proof fn lemma_skip_decode(input: Seq<u8>) {
        lemma_skip_each_decode::<T>(input, 26);
    }
}

impl<T: Copy + Default + SerializeRevisioned> SerializeRevisionedVec for [T; 26] {
    open spec fn spec_encode_vec(ms: Seq<Seq<T::Model>>) -> Seq<u8> {
        encode_vec_generic::<[T; 26]>(ms)
    }

    fn serialize_revisioned_vec(v: &Vec<[T; 26]>, writer: &mut Vec<u8>) -> (r: Result<(), Error>) {
        serialize_vec_generic(v, writer)
    }
}

impl<T: Copy + Default + DeserializeRevisioned> DeserializeRevisionedVec for [T; 26] {
    open spec fn spec_decode_vec(input: Seq<u8>) -> Result<(Seq<Seq<T::Model>>, nat), ErrorKind> {
        decode_vec_generic::<[T; 26]>(input)
    }

    fn deserialize_revisioned_vec(reader: &mut &[u8]) -> (res: Result<Vec<[T; 26]>, Error>) {
        deserialize_vec_generic(reader)
    }
}

impl<T: Copy + Default + RevisionedRoundTrip> RevisionedRoundTripVec for [T; 26] {
    proof fn lemma_decode_encode_vec(vs: Seq<[T; 26]>, rest: Seq<u8>) {
        lemma_decode_encode_vec_generic::<[T; 26]>(vs, rest);
    }
}

impl<T: Copy + Default + SkipRevisioned> SkipRevisionedVec for [T; 26] {
    open spec fn spec_skip_vec(input: Seq<u8>) -> Result<nat, ErrorKind> {
        skip_vec_generic::<[T; 26]>(input)
    }

    fn skip_revisioned_vec(reader: &mut &[u8]) -> (r: Result<(), Error>) {
        skip_vec_generic_exec::<[T; 26]>(reader)
    }

    proof fn lemma_skip_decode_vec(input: Seq<u8>) {
        lemma_skip_vec_generic::<[T; 26]>(input);
    }
}

impl<T: Copy + Default + Revisioned> Revisioned for [T; 27] {
    type Model = Seq<T::Model>;

    open spec fn model(&self) -> Seq<T::Model> {
        models(self@)
    }

    open spec fn spec_revision() -> u16 {
        1
    }

    fn revision() -> (r: u16) {
        1
    }
}

impl<T: Copy + Default + SerializeRevisioned> SerializeRevisioned for [T; 27] {
    open spec fn spec_encode(m: Seq<T::Model>) -> Seq<u8> {
        encode_each::<T>(m)
    }

    fn serialize_revisioned(&self, writer: &mut Vec<u8>) -> (r: Result<(), Error>) {
        serialize_array(self, writer);
        Ok(())
    }
}

impl<T: Copy + Default + DeserializeRevisioned> DeserializeRevisioned for [T; 27] {
    open spec fn spec_decode(input: Seq<u8>) -> Result<(Seq<T::Model>, nat), ErrorKind> {
        decode_each::<T>(input, 27)
    }

    fn deserialize_revisioned(reader: &mut &[u8]) -> (res: Result<[T; 27], Error>) {
        deserialize_array::<T, 27>(reader)
    }
}

impl<T: Copy + Default + RevisionedRoundTrip> RevisionedRoundTrip for [T; 27] {
    proof fn lemma_decode_encode(v: [T; 27], rest: Seq<u8>) {
        lemma_decode_encode_each::<T>(v@, rest);
    }
}

impl<T: Copy + Default + SkipRevisioned> SkipRevisioned for [T; 27] {
    open spec fn spec_skip(input: Seq<u8>) -> Result<nat, ErrorKind> {
        skip_each::<T>(input, 27)
    }

    fn skip_revisioned(reader: &mut &[u8]) -> (r: Result<(), Error>) {
        skip_array::<T, 27>(reader)
    }

    proof fn lemma_skip_decode(input: Seq<u8>) {
        lemma_skip_each_decode::<T>(input, 27);
    }
}

impl<T: Copy + Default + SerializeRevisioned> SerializeRevisionedVec for [T; 27] {
    open spec fn spec_encode_vec(ms: Seq<Seq<T::Model>>) -> Seq<u8> {
        encode_vec_generic::<[T; 27]>(ms)
    }

    fn serialize_revisioned_vec(v: &Vec<[T; 27]>, writer: &mut Vec<u8>) -> (r: Result<(), Error>) {
        serialize_vec_generic(v, writer)
    }
}

impl<T: Copy + Default + DeserializeRevisioned> DeserializeRevisionedVec for [T; 27] {
    open spec fn spec_decode_vec(input: Seq<u8>) -> Result<(Seq<Seq<T::Model>>, nat), ErrorKind> {
        decode_vec_generic::<[T; 27]>(input)
    }

    fn deserialize_revisioned_vec(reader: &mut &[u8]) -> (res: Result<Vec<[T; 27]>, Error>) {
        deserialize_vec_generic(reader)
    }
}

impl<T: Copy + Default + RevisionedRoundTrip> RevisionedRoundTripVec for [T; 27] {
    proof fn lemma_decode_encode_vec(vs: Seq<[T; 27]>, rest: Seq<u8>) {
        lemma_decode_encode_vec_generic::<[T; 27]>(vs, rest);
    }
}

impl<T: Copy + Default + SkipRevisioned> SkipRevisionedVec for [T; 27] {
    open spec fn spec_skip_vec(input: Seq<u8>) -> Result<nat, ErrorKind> {
        skip_vec_generic::<[T; 27]>(input)
    }

    fn skip_revisioned_vec(reader: &mut &[u8]) -> (r: Result<(), Error>) {
        skip_vec_generic_exec::<[T; 27]>(reader)
    }

    proof fn lemma_skip_decode_vec(input: Seq<u8>) {
        lemma_skip_vec_generic::<[T; 27]>(input);
    }
}

impl<T: Copy + Default + Revisioned> Revisioned for [T; 28] {
    type Model = Seq<T::Model>;

    open spec fn model(&self) -> Seq<T::Model> {
        models(self@)
    }

    open spec fn spec_revision() -> u16 {
        1
    }

    fn revision() -> (r: u16) {
        1
    }
}

impl<T: Copy + Default + SerializeRevisioned> SerializeRevisioned for [T; 28] {
    open spec fn spec_encode(m: Seq<T::Model>) -> Seq<u8> {
        encode_each::<T>(m)
    }

    fn serialize_revisioned(&self, writer: &mut Vec<u8>) -> (r: Result<(), Error>) {
        serialize_array(self, writer);
        Ok(())
    }
}

impl<T: Copy + Default + DeserializeRevisioned> DeserializeRevisioned for [T; 28] {
    open spec fn spec_decode(input: Seq<u8>) -> Result<(Seq<T::Model>, nat), ErrorKind> {
        decode_each::<T>(input, 28)
    }

    fn deserialize_revisioned(reader: &mut &[u8]) -> (res: Result<[T; 28], Error>) {
        deserialize_array::<T, 28>(reader)
    }
}

impl<T: Copy + Default + RevisionedRoundTrip> RevisionedRoundTrip for [T; 28] {
    proof fn lemma_decode_encode(v: [T; 28], rest: Seq<u8>) {
        lemma_decode_encode_each::<T>(v@, rest);
    }
}

impl<T: Copy + Default + SkipRevisioned> SkipRevisioned for [T; 28] {
    open spec fn spec_skip(input: Seq<u8>) -> Result<nat, ErrorKind> {
        skip_each::<T>(input, 28)
    }

    fn skip_revisioned(reader: &mut &[u8]) -> (r: Result<(), Error>) {
        skip_array::<T, 28>(reader)
    }

    proof fn lemma_skip_decode(input: Seq<u8>) {
        lemma_skip_each_decode::<T>(input, 28);
    }
}

impl<T: Copy + Default + SerializeRevisioned> SerializeRevisionedVec for [T; 28] {
    open spec fn spec_encode_vec(ms: Seq<Seq<T::Model>>) -> Seq<u8> {
        encode_vec_generic::<[T; 28]>(ms)
    }

    fn serialize_revisioned_vec(v: &Vec<[T; 28]>, writer: &mut Vec<u8>) -> (r: Result<(), Error>) {
        serialize_vec_generic(v, writer)
    }
}

impl<T: Copy + Default + DeserializeRevisioned> DeserializeRevisionedVec for [T; 28] {
    open spec fn spec_decode_vec(input: Seq<u8>) -> Result<(Seq<Seq<T::Model>>, nat), ErrorKind> {
        decode_vec_generic::<[T; 28]>(input)
    }

    fn deserialize_revisioned_vec(reader: &mut &[u8]) -> (res: Result<Vec<[T; 28]>, Error>) {
        deserialize_vec_generic(reader)
    }
}

impl<T: Copy + Default + RevisionedRoundTrip> RevisionedRoundTripVec for [T; 28] {
    proof fn lemma_decode_encode_vec(vs: Seq<[T; 28]>, rest: Seq<u8>) {
        lemma_decode_encode_vec_generic::<[T; 28]>(vs, rest);
    }
}

impl<T: Copy + Default + SkipRevisioned> SkipRevisionedVec for [T; 28] {
    open spec fn spec_skip_vec(input: Seq<u8>) -> Result<nat, ErrorKind> {
        skip_vec_generic::<[T; 28]>(input)
    }

    fn skip_revisioned_vec(reader: &mut &[u8]) -> (r: Result<(), Error>) {
        skip_vec_generic_exec::<[T; 28]>(reader)
    }

    proof fn lemma_skip_decode_vec(input: Seq<u8>) {
        lemma_skip_vec_generic::<[T; 28]>(input);
    }
}

impl<T: Copy + Default + Revisioned> Revisioned for [T; 29] {
    type Model = Seq<T::Model>;

    open spec fn model(&self) -> Seq<T::Model> {
        models(self@)
    }

    open spec fn spec_revision() -> u16 {
        1
    }

    fn revision() -> (r: u16) {
        1
    }
}

impl<T: Copy + Default + SerializeRevisioned> SerializeRevisioned for [T; 29] {
    open spec fn spec_encode(m: Seq<T::Model>) -> Seq<u8> {
        encode_each::<T>(m)
    }

    fn serialize_revisioned(&self, writer: &mut Vec<u8>) -> (r: Result<(), Error>) {
        serialize_array(self, writer);
        Ok(())
    }
}

impl<T: Copy + Default + DeserializeRevisioned> DeserializeRevisioned for [T; 29] {
    open spec fn spec_decode(input: Seq<u8>) -> Result<(Seq<T::Model>, nat), ErrorKind> {
        decode_each::<T>(input, 29)
    }

    fn deserialize_revisioned(reader: &mut &[u8]) -> (res: Result<[T; 29], Error>) {
        deserialize_array::<T, 29>(reader)
    }
}

impl<T: Copy + Default + RevisionedRoundTrip> RevisionedRoundTrip for [T; 29] {
    proof fn lemma_decode_encode(v: [T; 29], rest: Seq<u8>) {
        lemma_decode_encode_each::<T>(v@, rest);
    }
}

impl<T: Copy + Default + SkipRevisioned> SkipRevisioned for [T; 29] {
    open spec fn spec_skip(input: Seq<u8>) -> Result<nat, ErrorKind> {
        skip_each::<T>(input, 29)
    }

    fn skip_revisioned(reader: &mut &[u8]) -> (r: Result<(), Error>) {
        skip_array::<T, 29>(reader)
    }

    proof fn lemma_skip_decode(input: Seq<u8>) {
        lemma_skip_each_decode::<T>(input, 29);
    }
}

impl<T: Copy + Default + SerializeRevisioned> SerializeRevisionedVec for [T; 29] {
    open spec fn spec_encode_vec(ms: Seq<Seq<T::Model>>) -> Seq<u8> {
        encode_vec_generic::<[T; 29]>(ms)
    }

    fn serialize_revisioned_vec(v: &Vec<[T; 29]>, writer: &mut Vec<u8>) -> (r: Result<(), Error>) {
        serialize_vec_generic(v, writer)
    }
}

impl<T: Copy + Default + DeserializeRevisioned> DeserializeRevisionedVec for [T; 29] {
    open spec fn spec_decode_vec(input: Seq<u8>) -> Result<(Seq<Seq<T::Model>>, nat), ErrorKind> {
        decode_vec_generic::<[T; 29]>(input)
    }

    fn deserialize_revisioned_vec(reader: &mut &[u8]) -> (res: Result<Vec<[T; 29]>, Error>) {
        deserialize_vec_generic(reader)
    }
}

impl<T: Copy + Default + RevisionedRoundTrip> RevisionedRoundTripVec for [T; 29] {
    proof fn lemma_decode_encode_vec(vs: Seq<[T; 29]>, rest: Seq<u8>) {
        lemma_decode_encode_vec_generic::<[T; 29]>(vs, rest);
    }
}

impl<T: Copy + Default + SkipRevisioned> SkipRevisionedVec for [T; 29] {
    open spec fn spec_skip_vec(input: Seq<u8>) -> Result<nat, ErrorKind> {
        skip_vec_generic::<[T; 29]>(input)
    }

    fn skip_revisioned_vec(reader: &mut &[u8]) -> (r: Result<(), Error>) {
        skip_vec_generic_exec::<[T; 29]>(reader)
    }

    proof fn lemma_skip_decode_vec(input: Seq<u8>) {
        lemma_skip_vec_generic::<[T; 29]>(input);
    }
}

impl<T: Copy + Default + Revisioned> Revisioned for [T; 30] {
    type Model = Seq<T::Model>;

    open spec fn model(&self) -> Seq<T::Model> {
        models(self@)
    }

    open spec fn spec_revision() -> u16 {
        1
    }

    fn revision() -> (r: u16) {
        1
    }
}

impl<T: Copy + Default + SerializeRevisioned> SerializeRevisioned for [T; 30] {
    open spec fn spec_encode(m: Seq<T::Model>) -> Seq<u8> {
        encode_each::<T>(m)
    }

    fn serialize_revisioned(&self, writer: &mut Vec<u8>) -> (r: Result<(), Error>) {
        serialize_array(self, writer);
        Ok(())
    }
}

impl<T: Copy + Default + DeserializeRevisioned> DeserializeRevisioned for [T; 30] {
    open spec fn spec_decode(input: Seq<u8>) -> Result<(Seq<T::Model>, nat), ErrorKind> {
        decode_each::<T>(input, 30)
    }

    fn deserialize_revisioned(reader: &mut &[u8]) -> (res: Result<[T; 30], Error>) {
        deserialize_array::<T, 30>(reader)
    }
}

impl<T: Copy + Default + RevisionedRoundTrip> RevisionedRoundTrip for [T; 30] {
    proof fn lemma_decode_encode(v: [T; 30], rest: Seq<u8>) {
        lemma_decode_encode_each::<T>(v@, rest);
    }
}

impl<T: Copy + Default + SkipRevisioned> SkipRevisioned for [T; 30] {
    open spec fn spec_skip(input: Seq<u8>) -> Result<nat, ErrorKind> {
        skip_each::<T>(input, 30)
    }

    fn skip_revisioned(reader: &mut &[u8]) -> (r: Result<(), Error>) {
        skip_array::<T, 30>(reader)
    }

    proof fn lemma_skip_decode(input: Seq<u8>) {
        lemma_skip_each_decode::<T>(input, 30);
    }
}

impl<T: Copy + Default + SerializeRevisioned> SerializeRevisionedVec for [T; 30] {
    open spec fn spec_encode_vec(ms: Seq<Seq<T::Model>>) -> Seq<u8> {
        encode_vec_generic::<[T; 30]>(ms)
    }

    fn serialize_revisioned_vec(v: &Vec<[T; 30]>, writer: &mut Vec<u8>) -> (r: Result<(), Error>) {
        serialize_vec_generic(v, writer)
    }
}

impl<T: Copy + Default + DeserializeRevisioned> DeserializeRevisionedVec for [T; 30] {
    open spec fn spec_decode_vec(input: Seq<u8>) -> Result<(Seq<Seq<T::Model>>, nat), ErrorKind> {
        decode_vec_generic::<[T; 30]>(input)
    }

    fn deserialize_revisioned_vec(reader: &mut &[u8]) -> (res: Result<Vec<[T; 30]>, Error>) {
        deserialize_vec_generic(reader)
    }
}

impl<T: Copy + Default + RevisionedRoundTrip> RevisionedRoundTripVec for [T; 30] {
    proof fn lemma_decode_encode_vec(vs: Seq<[T; 30]>, rest: Seq<u8>) {
        lemma_decode_encode_vec_generic::<[T; 30]>(vs, rest);
    }
}

impl<T: Copy + Default + SkipRevisioned> SkipRevisionedVec for [T; 30] {
    open spec fn spec_skip_vec(input: Seq<u8>) -> Result<nat, ErrorKind> {
        skip_vec_generic::<[T; 30]>(input)
    }

    fn skip_revisioned_vec(reader: &mut &[u8]) -> (r: Result<(), Error>) {
        skip_vec_generic_exec::<[T; 30]>(reader)
    }

    proof fn lemma_skip_decode_vec(input: Seq<u8>) {
        lemma_skip_vec_generic::<[T; 30]>(input);
    }
}

impl<T: Copy + Default + Revisioned> Revisioned for [T; 31] {
    type Model = Seq<T::Model>;

    open spec fn model(&self) -> Seq<T::Model> {
        models(self@)
    }

    open spec fn spec_revision() -> u16 {
        1
    }

    fn revision() -> (r: u16) {
        1
    }
}

impl<T: Copy + Default + SerializeRevisioned> SerializeRevisioned for [T; 31] {
    open spec fn spec_encode(m: Seq<T::Model>) -> Seq<u8> {
        encode_each::<T>(m)
    }

    fn serialize_revisioned(&self, writer: &mut Vec<u8>) -> (r: Result<(), Error>) {
        serialize_array(self, writer);
        Ok(())
    }
}

impl<T: Copy + Default + DeserializeRevisioned> DeserializeRevisioned for [T; 31] {
    open spec fn spec_decode(input: Seq<u8>) -> Result<(Seq<T::Model>, nat), ErrorKind> {
        decode_each::<T>(input, 31)
    }

    fn deserialize_revisioned(reader: &mut &[u8]) -> (res: Result<[T; 31], Error>) {
        deserialize_array::<T, 31>(reader)
    }
}

impl<T: Copy + Default + RevisionedRoundTrip> RevisionedRoundTrip for [T; 31] {
    proof fn lemma_decode_encode(v: [T; 31], rest: Seq<u8>) {
        lemma_decode_encode_each::<T>(v@, rest);
    }
}

impl<T: Copy + Default + SkipRevisioned> SkipRevisioned for [T; 31] {
    open spec fn spec_skip(input: Seq<u8>) -> Result<nat, ErrorKind> {
        skip_each::<T>(input, 31)
    }

    fn skip_revisioned(reader: &mut &[u8]) -> (r: Result<(), Error>) {
        skip_array::<T, 31>(reader)
    }

    proof fn lemma_skip_decode(input: Seq<u8>) {
        lemma_skip_each_decode::<T>(input, 31);
    }
}

impl<T: Copy + Default + SerializeRevisioned> SerializeRevisionedVec for [T; 31] {
    open spec fn spec_encode_vec(ms: Seq<Seq<T::Model>>) -> Seq<u8> {
        encode_vec_generic::<[T; 31]>(ms)
    }

    fn serialize_revisioned_vec(v: &Vec<[T; 31]>, writer: &mut Vec<u8>) -> (r: Result<(), Error>) {
        serialize_vec_generic(v, writer)
    }
}

impl<T: Copy + Default + DeserializeRevisioned> DeserializeRevisionedVec for [T; 31] {
    open spec fn spec_decode_vec(input: Seq<u8>) -> Result<(Seq<Seq<T::Model>>, nat), ErrorKind> {
        decode_vec_generic::<[T; 31]>(input)
    }

    fn deserialize_revisioned_vec(reader: &mut &[u8]) -> (res: Result<Vec<[T; 31]>, Error>) {
        deserialize_vec_generic(reader)
    }
}

impl<T: Copy + Default + RevisionedRoundTrip> RevisionedRoundTripVec for [T; 31] {
    proof fn lemma_decode_encode_vec(vs: Seq<[T; 31]>, rest: Seq<u8>) {
        lemma_decode_encode_vec_generic::<[T; 31]>(vs, rest);
    }
}

impl<T: Copy + Default + SkipRevisioned> SkipRevisionedVec for [T; 31] {
    open spec fn spec_skip_vec(input: Seq<u8>) -> Result<nat, ErrorKind> {
        skip_vec_generic::<[T; 31]>(input)
    }

    fn skip_revisioned_vec(reader: &mut &[u8]) -> (r: Result<(), Error>) {
        skip_vec_generic_exec::<[T; 31]>(reader)
    }

    proof fn lemma_skip_decode_vec(input: Seq<u8>) {
        lemma_skip_vec_generic::<[T; 31]>(input);
    }
}

impl<T: Copy + Default + Revisioned> Revisioned for [T; 32] {
    type Model = Seq<T::Model>;

    open spec fn model(&self) -> Seq<T::Model> {
        models(self@)
    }

    open spec fn spec_revision() -> u16 {
        1
    }

    fn revision() -> (r: u16) {
        1
    }
}

impl<T: Copy + Default + SerializeRevisioned> SerializeRevisioned for [T; 32] {
    open spec fn spec_encode(m: Seq<T::Model>) -> Seq<u8> {
        encode_each::<T>(m)
    }

    fn serialize_revisioned(&self, writer: &mut Vec<u8>) -> (r: Result<(), Error>) {
        serialize_array(self, writer);
        Ok(())
    }
}

impl<T: Copy + Default + DeserializeRevisioned> DeserializeRevisioned for [T; 32] {
    open spec fn spec_decode(input: Seq<u8>) -> Result<(Seq<T::Model>, nat), ErrorKind> {
        decode_each::<T>(input, 32)
    }

    fn deserialize_revisioned(reader: &mut &[u8]) -> (res: Result<[T; 32], Error>) {
        deserialize_array::<T, 32>(reader)
    }
}

impl<T: Copy + Default + RevisionedRoundTrip> RevisionedRoundTrip for [T; 32] {
    proof fn lemma_decode_encode(v: [T; 32], rest: Seq<u8>) {
        lemma_decode_encode_each::<T>(v@, rest);
    }
}

impl<T: Copy + Default + SkipRevisioned> SkipRevisioned for [T; 32] {
    open spec fn spec_skip(input: Seq<u8>) -> Result<nat, ErrorKind> {
        skip_each::<T>(input, 32)
    }

    fn skip_revisioned(reader: &mut &[u8]) -> (r: Result<(), Error>) {
        skip_array::<T, 32>(reader)
    }

    proof fn lemma_skip_decode(input: Seq<u8>) {
        lemma_skip_each_decode::<T>(input, 32);
    }
}

impl<T: Copy + Default + SerializeRevisioned> SerializeRevisionedVec for [T; 32] {
    open spec fn spec_encode_vec(ms: Seq<Seq<T::Model>>) -> Seq<u8> {
        encode_vec_generic::<[T; 32]>(ms)
    }

    fn serialize_revisioned_vec(v: &Vec<[T; 32]>, writer: &mut Vec<u8>) -> (r: Result<(), Error>) {
        serialize_vec_generic(v, writer)
    }
}

impl<T: Copy + Default + DeserializeRevisioned> DeserializeRevisionedVec for [T; 32] {
    open spec fn spec_decode_vec(input: Seq<u8>) -> Result<(Seq<Seq<T::Model>>, nat), ErrorKind> {
        decode_vec_generic::<[T; 32]>(input)
    }

    fn deserialize_revisioned_vec(reader: &mut &[u8]) -> (res: Result<Vec<[T; 32]>, Error>) {
        deserialize_vec_generic(reader)
    }
}

impl<T: Copy + Default + RevisionedRoundTrip> RevisionedRoundTripVec for [T; 32] {
    proof fn lemma_decode_encode_vec(vs: Seq<[T; 32]>, rest: Seq<u8>) {
        lemma_decode_encode_vec_generic::<[T; 32]>(vs, rest);
    }
}

impl<T: Copy + Default + SkipRevisioned> SkipRevisionedVec for [T; 32] {
    open spec fn spec_skip_vec(input: Seq<u8>) -> Result<nat, ErrorKind> {
        skip_vec_generic::<[T; 32]>(input)
    }

    fn skip_revisioned_vec(reader: &mut &[u8]) -> (r: Result<(), Error>) {
        skip_vec_generic_exec::<[T; 32]>(reader)
    }

    proof fn lemma_skip_decode_vec(input: Seq<u8>) {
        lemma_skip_vec_generic::<[T; 32]>(input);
    }
}

} // verus!
