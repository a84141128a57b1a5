use vstd::prelude::*;

use crate::implementations::vecs::{
    decode_vec_generic, deserialize_vec_generic, encode_vec_generic,
    lemma_decode_encode_vec_generic, serialize_vec_generic,
};
use crate::{
    DeserializeRevisioned, DeserializeRevisionedVec, Error, ErrorKind, Revisioned,
    RevisionedRoundTrip, RevisionedRoundTripVec, SerializeRevisioned, SerializeRevisionedVec,
};

verus! {

impl<T: Revisioned> Revisioned for Box<T> {
    type Model = T::Model;

    open spec fn model(&self) -> T::Model {
        (**self).model()
    }

    open spec fn spec_revision() -> u16 {
        1
    }

    fn revision() -> (r: u16) {
        1
    }
}

impl<T: SerializeRevisioned> SerializeRevisioned for Box<T> {
    /// The encoding of the value held.
    open spec fn spec_encode(m: T::Model) -> Seq<u8> {
        T::spec_encode(m)
    }

    fn serialize_revisioned(&self, writer: &mut Vec<u8>) -> (r: Result<(), Error>) {
        let inner: &T = &**self;
        inner.serialize_revisioned(writer)
    }
}

impl<T: DeserializeRevisioned> DeserializeRevisioned for Box<T> {
    /// The value held, decoded as itself.
    open spec fn spec_decode(input: Seq<u8>) -> Result<(T::Model, nat), ErrorKind> {
        T::spec_decode(input)
    }

    fn deserialize_revisioned(reader: &mut &[u8]) -> (res: Result<Box<T>, Error>) {
        match T::deserialize_revisioned(reader) {
            Ok(v) => Ok(Box::new(v)),
            Err(e) => Err(e),
        }
    }
}

impl<T: RevisionedRoundTrip> RevisionedRoundTrip for Box<T> {
    proof fn lemma_decode_encode(v: Box<T>, rest: Seq<u8>) {
        T::lemma_decode_encode(*v, rest);
    }
}

impl<T: SerializeRevisioned> SerializeRevisionedVec for Box<T> {
    open spec fn spec_encode_vec(ms: Seq<T::Model>) -> Seq<u8> {
        encode_vec_generic::<Box<T>>(ms)
    }

    fn serialize_revisioned_vec(v: &Vec<Box<T>>, writer: &mut Vec<u8>) -> (r: Result<(), Error>) {
        serialize_vec_generic(v, writer)
    }
}

impl<T: DeserializeRevisioned> DeserializeRevisionedVec for Box<T> {
    open spec fn spec_decode_vec(input: Seq<u8>) -> Result<(Seq<T::Model>, nat), ErrorKind> {
        decode_vec_generic::<Box<T>>(input)
    }

    fn deserialize_revisioned_vec(reader: &mut &[u8]) -> (res: Result<Vec<Box<T>>, Error>) {
        deserialize_vec_generic(reader)
    }
}

impl<T: RevisionedRoundTrip> RevisionedRoundTripVec for Box<T> {
    proof fn lemma_decode_encode_vec(vs: Seq<Box<T>>, rest: Seq<u8>) {
        lemma_decode_encode_vec_generic::<Box<T>>(vs, rest);
    }
}

} // verus!
