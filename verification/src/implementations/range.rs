use vstd::prelude::*;
use std::ops::Range;

use crate::implementations::vecs::{
    decode_vec_generic, deserialize_vec_generic, encode_vec_generic,
    lemma_decode_encode_vec_generic, serialize_vec_generic,
};
use crate::{
    strict_prefixes_fail,
    DeserializeRevisioned, DeserializeRevisionedVec, Error, ErrorKind, Revisioned,
    RevisionedRoundTrip, RevisionedRoundTripVec, SerializeRevisioned, SerializeRevisionedVec,
};

verus! {

impl<T: Revisioned> Revisioned for Range<T> {
    /// The models of the start and the end.
    type Model = (T::Model, T::Model);

    open spec fn model(&self) -> (T::Model, T::Model) {
        (self.start.model(), self.end.model())
    }

    open spec fn spec_revision() -> u16 {
        1
    }

    fn revision() -> (r: u16) {
        1
    }
}

impl<T: SerializeRevisioned> SerializeRevisioned for Range<T> {
    /// The start, then the end.
    open spec fn spec_encode(m: (T::Model, T::Model)) -> Seq<u8> {
        T::spec_encode(m.0) + T::spec_encode(m.1)
    }

    fn serialize_revisioned(&self, writer: &mut Vec<u8>) -> (r: Result<(), Error>) {
        match self.start.serialize_revisioned(writer) {
            Ok(()) => {},
            Err(e) => return Err(e),
        }
        let r = self.end.serialize_revisioned(writer);
        assert(writer@ == old(writer)@ + (T::spec_encode(self.start.model()) + T::spec_encode(
            self.end.model(),
        )));
        r
    }
}

impl<T: DeserializeRevisioned> DeserializeRevisioned for Range<T> {
    /// The start, then the end.
    open spec fn spec_decode(input: Seq<u8>) -> Result<((T::Model, T::Model), nat), ErrorKind> {
        match T::spec_decode(input) {
            Err(e) => Err(e),
            Ok((s, n)) => match T::spec_decode(input.skip(n as int)) {
                Err(e) => Err(e),
                Ok((e, k)) => Ok(((s, e), n + k)),
            },
        }
    }

    fn deserialize_revisioned(reader: &mut &[u8]) -> (res: Result<Range<T>, Error>) {
        let ghost input = reader@;
        let start = match T::deserialize_revisioned(reader) {
            Ok(v) => v,
            Err(e) => return Err(e),
        };
        let ghost n = T::spec_decode(input)->Ok_0.1;
        let end = match T::deserialize_revisioned(reader) {
            Ok(v) => v,
            Err(e) => return Err(e),
        };
        let ghost k = T::spec_decode(input.skip(n as int))->Ok_0.1;
        assert(input.skip(n as int).skip(k as int) == input.skip((n + k) as int));
        Ok(Range { start, end })
    }
}

impl<T: RevisionedRoundTrip> RevisionedRoundTrip for Range<T> {
    proof fn lemma_decode_encode(v: Range<T>, rest: Seq<u8>) {
        let a = T::spec_encode(v.start.model());
        let b = T::spec_encode(v.end.model());
        assert(a + b + rest == a + (b + rest));
        T::lemma_decode_encode(v.start, b + rest);
        assert((a + (b + rest)).skip(a.len() as int) == b + rest);
        T::lemma_decode_encode(v.end, rest);
    }
}

impl<T: SerializeRevisioned> SerializeRevisionedVec for Range<T> {
    open spec fn spec_encode_vec(ms: Seq<(T::Model, T::Model)>) -> Seq<u8> {
        encode_vec_generic::<Range<T>>(ms)
    }

    fn serialize_revisioned_vec(v: &Vec<Range<T>>, writer: &mut Vec<u8>) -> (r: Result<(), Error>) {
        serialize_vec_generic(v, writer)
    }
}

impl<T: DeserializeRevisioned> DeserializeRevisionedVec for Range<T> {
    open spec fn spec_decode_vec(input: Seq<u8>) -> Result<(Seq<(T::Model, T::Model)>, nat), ErrorKind> {
        decode_vec_generic::<Range<T>>(input)
    }

    fn deserialize_revisioned_vec(reader: &mut &[u8]) -> (res: Result<Vec<Range<T>>, Error>) {
        deserialize_vec_generic(reader)
    }
}

impl<T: RevisionedRoundTrip> RevisionedRoundTripVec for Range<T> {
    proof fn lemma_decode_encode_vec(vs: Seq<Range<T>>, rest: Seq<u8>) {
        lemma_decode_encode_vec_generic::<Range<T>>(vs, rest);
    }
}

/// Decoding a strict prefix of the encoding of a range fails when it does for its
/// start and its end: either the start is cut off, or it is read whole and the end is
/// cut off.
pub proof fn lemma_range_prefixes_fail<T: RevisionedRoundTrip>(v: Range<T>)
    requires
        strict_prefixes_fail::<T>(v.start.model()),
        strict_prefixes_fail::<T>(v.end.model()),
        T::spec_encode(v.start.model()).len() <= usize::MAX,
    ensures
        strict_prefixes_fail::<Range<T>>(v.model()),
{
    let a = T::spec_encode(v.start.model());
    let b = T::spec_encode(v.end.model());
    let e = <Range<T> as SerializeRevisioned>::spec_encode(v.model());
    assert(e == a + b);
    assert forall|k: int| 0 <= k < e.len() implies (#[trigger] <Range<T> as DeserializeRevisioned>::spec_decode(
        e.take(k),
    )) is Err by {
        if k < a.len() {
            assert(e.take(k) == a.take(k));
        } else {
            let tail = b.take(k - a.len());
            assert(e.take(k) == a + tail);
            T::lemma_decode_encode(v.start, tail);
            assert((a + tail).skip(a.len() as int) == tail);
        }
    }
}

} // verus!
