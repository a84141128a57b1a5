use vstd::prelude::*;
use std::sync::Arc;
use vstd::string::*;

use crate::implementations::string::{decode_string, encode_string, lemma_decode_encode_string};
use crate::implementations::vecs::serialize_bytes;

use crate::implementations::vecs::{
    decode_vec_generic, deserialize_vec_generic, encode_vec_generic,
    lemma_decode_encode_vec_generic, serialize_vec_generic,
};
use crate::{
    DeserializeRevisioned, DeserializeRevisionedVec, Error, ErrorKind, Revisioned,
    RevisionedRoundTrip, RevisionedRoundTripVec, SerializeRevisioned, SerializeRevisionedVec,
};

verus! {

impl<T: Revisioned> Revisioned for Arc<T> {
    type Model = T::Model;

    open spec fn model(&self) -> T::Model {
        (**self).model()
    }

    open spec fn spec_revision() -> u16 {
        1
    }

    fn revision() -> (r: u16) {
        1
    }
}

impl<T: SerializeRevisioned> SerializeRevisioned for Arc<T> {
    /// The encoding of the value held.
    open spec fn spec_encode(m: T::Model) -> Seq<u8> {
        T::spec_encode(m)
    }

    fn serialize_revisioned(&self, writer: &mut Vec<u8>) -> (r: Result<(), Error>) {
        let inner: &T = &**self;
        inner.serialize_revisioned(writer)
    }
}

impl<T: DeserializeRevisioned> DeserializeRevisioned for Arc<T> {
    /// The value held, decoded as itself.
    open spec fn spec_decode(input: Seq<u8>) -> Result<(T::Model, nat), ErrorKind> {
        T::spec_decode(input)
    }

    fn deserialize_revisioned(reader: &mut &[u8]) -> (res: Result<Arc<T>, Error>) {
        match T::deserialize_revisioned(reader) {
            Ok(v) => Ok(Arc::new(v)),
            Err(e) => Err(e),
        }
    }
}

/// The value an `Arc` points to.
pub open spec fn arc_inner<T>(a: Arc<T>) -> T {
    *a
}

impl<T: RevisionedRoundTrip> RevisionedRoundTrip for Arc<T> {
    proof fn lemma_decode_encode(v: Arc<T>, rest: Seq<u8>) {
        T::lemma_decode_encode(arc_inner(v), rest);
    }
}

impl<T: SerializeRevisioned> SerializeRevisionedVec for Arc<T> {
    open spec fn spec_encode_vec(ms: Seq<T::Model>) -> Seq<u8> {
        encode_vec_generic::<Arc<T>>(ms)
    }

    fn serialize_revisioned_vec(v: &Vec<Arc<T>>, writer: &mut Vec<u8>) -> (r: Result<(), Error>) {
        serialize_vec_generic(v, writer)
    }
}

impl<T: DeserializeRevisioned> DeserializeRevisionedVec for Arc<T> {
    open spec fn spec_decode_vec(input: Seq<u8>) -> Result<(Seq<T::Model>, nat), ErrorKind> {
        decode_vec_generic::<Arc<T>>(input)
    }

    fn deserialize_revisioned_vec(reader: &mut &[u8]) -> (res: Result<Vec<Arc<T>>, Error>) {
        deserialize_vec_generic(reader)
    }
}

impl<T: RevisionedRoundTrip> RevisionedRoundTripVec for Arc<T> {
    proof fn lemma_decode_encode_vec(vs: Seq<Arc<T>>, rest: Seq<u8>) {
        lemma_decode_encode_vec_generic::<Arc<T>>(vs, rest);
    }
}


/// `Arc<str>`'s `From<String>`: a shared string holding the characters of `s`.
#[verifier::external_body]
fn arc_str_from(s: String) -> (r: Arc<str>)
    ensures
        (*r)@ == s@,
{
    Arc::from(s)
}

impl Revisioned for Arc<str> {
    type Model = Seq<char>;

    open spec fn model(&self) -> Seq<char> {
        (**self)@
    }

    open spec fn spec_revision() -> u16 {
        1
    }

    fn revision() -> (r: u16) {
        1
    }
}

impl SerializeRevisioned for Arc<str> {
    /// As a `String`: the length of the UTF-8 bytes, then the bytes.
    open spec fn spec_encode(m: Seq<char>) -> Seq<u8> {
        encode_string(m)
    }

    fn serialize_revisioned(&self, writer: &mut Vec<u8>) -> (r: Result<(), Error>) {
        let s: &str = &**self;
        serialize_bytes(s.as_bytes(), writer)
    }
}

impl DeserializeRevisioned for Arc<str> {
    /// As a `String`.
    open spec fn spec_decode(input: Seq<u8>) -> Result<(Seq<char>, nat), ErrorKind> {
        decode_string(input)
    }

    fn deserialize_revisioned(reader: &mut &[u8]) -> (res: Result<Arc<str>, Error>) {
        match String::deserialize_revisioned(reader) {
            Ok(s) => Ok(arc_str_from(s)),
            Err(e) => Err(e),
        }
    }
}

impl RevisionedRoundTrip for Arc<str> {
    proof fn lemma_decode_encode(v: Arc<str>, rest: Seq<u8>) {
        lemma_decode_encode_string((*v)@, rest);
    }
}

} // verus!
