//! `Cow<'_, T>` of a cloneable `T`: written as the value it holds, borrowed or owned;
//! always read back owned.
use vstd::prelude::*;

use std::borrow::Cow;

use crate::implementations::skip::{lemma_skip_vec_generic, skip_vec_generic, skip_vec_generic_exec};
use crate::implementations::vecs::{
    decode_vec_generic, deserialize_vec_generic, encode_vec_generic,
    lemma_decode_encode_vec_generic, serialize_vec_generic,
};
use crate::{
    DeserializeRevisioned, DeserializeRevisionedVec, Error, ErrorKind, Revisioned,
    RevisionedRoundTrip, RevisionedRoundTripVec, SerializeRevisioned, SerializeRevisionedVec,
    SkipRevisioned, SkipRevisionedVec,
};

verus! {

impl<'a, T: Clone + Revisioned> Revisioned for Cow<'a, T> {
    type Model = T::Model;

    /// The model of the value held, borrowed or owned.
    open spec fn model(&self) -> T::Model {
        match self {
            Cow::Borrowed(b) => b.model(),
            Cow::Owned(o) => o.model(),
        }
    }

    open spec fn spec_revision() -> u16 {
        T::spec_revision()
    }

    fn revision() -> (r: u16) {
        T::revision()
    }
}

impl<'a, T: Clone + SerializeRevisioned> SerializeRevisioned for Cow<'a, T> {
    /// The encoding of the value held.
    open spec fn spec_encode(m: T::Model) -> Seq<u8> {
        T::spec_encode(m)
    }

    fn serialize_revisioned(&self, writer: &mut Vec<u8>) -> (r: Result<(), Error>) {
        match self {
            Cow::Borrowed(b) => b.serialize_revisioned(writer),
            Cow::Owned(o) => o.serialize_revisioned(writer),
        }
    }
}

impl<'a, T: Clone + DeserializeRevisioned> DeserializeRevisioned for Cow<'a, T> {
    /// The value, decoded as itself and held owned.
    open spec fn spec_decode(input: Seq<u8>) -> Result<(T::Model, nat), ErrorKind> {
        T::spec_decode(input)
    }

    fn deserialize_revisioned(reader: &mut &[u8]) -> (res: Result<Cow<'a, T>, Error>) {
        match T::deserialize_revisioned(reader) {
            Ok(v) => Ok(Cow::Owned(v)),
            Err(e) => Err(e),
        }
    }
}

impl<'a, T: Clone + RevisionedRoundTrip> RevisionedRoundTrip for Cow<'a, T> {
    proof fn lemma_decode_encode(v: Cow<'a, T>, rest: Seq<u8>) {
        match v {
            Cow::Borrowed(b) => T::lemma_decode_encode(*b, rest),
            Cow::Owned(o) => T::lemma_decode_encode(o, rest),
        }
    }
}

impl<'a, T: Clone + SkipRevisioned> SkipRevisioned for Cow<'a, T> {
    /// As the value held.
    open spec fn spec_skip(input: Seq<u8>) -> Result<nat, ErrorKind> {
        T::spec_skip(input)
    }

    fn skip_revisioned(reader: &mut &[u8]) -> (r: Result<(), Error>) {
        T::skip_revisioned(reader)
    }

    proof fn lemma_skip_decode(input: Seq<u8>) {
        T::lemma_skip_decode(input);
    }
}

impl<'a, T: Clone + SerializeRevisioned> SerializeRevisionedVec for Cow<'a, T> {
    open spec fn spec_encode_vec(ms: Seq<T::Model>) -> Seq<u8> {
        encode_vec_generic::<Cow<'a, T>>(ms)
    }

    fn serialize_revisioned_vec(v: &Vec<Cow<'a, T>>, writer: &mut Vec<u8>) -> (r: Result<
        (),
        Error,
    >) {
        serialize_vec_generic(v, writer)
    }
}

impl<'a, T: Clone + DeserializeRevisioned> DeserializeRevisionedVec for Cow<'a, T> {
    open spec fn spec_decode_vec(input: Seq<u8>) -> Result<(Seq<T::Model>, nat), ErrorKind> {
        decode_vec_generic::<Cow<'a, T>>(input)
    }

    fn deserialize_revisioned_vec(reader: &mut &[u8]) -> (res: Result<Vec<Cow<'a, T>>, Error>) {
        deserialize_vec_generic(reader)
    }
}

impl<'a, T: Clone + RevisionedRoundTrip> RevisionedRoundTripVec for Cow<'a, T> {
    proof fn lemma_decode_encode_vec(vs: Seq<Cow<'a, T>>, rest: Seq<u8>) {
        lemma_decode_encode_vec_generic::<Cow<'a, T>>(vs, rest);
    }
}

impl<'a, T: Clone + SkipRevisioned> SkipRevisionedVec for Cow<'a, T> {
    open spec fn spec_skip_vec(input: Seq<u8>) -> Result<nat, ErrorKind> {
        skip_vec_generic::<Cow<'a, T>>(input)
    }

    fn skip_revisioned_vec(reader: &mut &[u8]) -> (r: Result<(), Error>) {
        skip_vec_generic_exec::<Cow<'a, T>>(reader)
    }

    proof fn lemma_skip_decode_vec(input: Seq<u8>) {
        lemma_skip_vec_generic::<Cow<'a, T>>(input);
    }
}

} // verus!
