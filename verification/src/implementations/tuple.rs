use vstd::prelude::*;

use crate::implementations::vecs::{
    decode_vec_generic, deserialize_vec_generic, encode_vec_generic,
    lemma_decode_encode_vec_generic, serialize_vec_generic,
};
use crate::{
    DeserializeRevisioned, DeserializeRevisionedVec, Error, ErrorKind, Revisioned,
    RevisionedRoundTrip, RevisionedRoundTripVec, SerializeRevisioned, SerializeRevisionedVec,
};

verus! {

impl Revisioned for () {
    type Model = ();

    open spec fn model(&self) -> () {
        ()
    }

    open spec fn spec_revision() -> u16 {
        1
    }

    fn revision() -> (r: u16) {
        1
    }
}

impl SerializeRevisioned for () {
    /// Nothing is written.
    open spec fn spec_encode(m: ()) -> Seq<u8> {
        Seq::empty()
    }

    fn serialize_revisioned(&self, writer: &mut Vec<u8>) -> (r: Result<(), Error>) {
        assert(writer@ == old(writer)@ + Seq::<u8>::empty());
        Ok(())
    }
}

impl DeserializeRevisioned for () {
    /// Nothing is read.
    open spec fn spec_decode(input: Seq<u8>) -> Result<((), nat), ErrorKind> {
        Ok(((), 0))
    }

    fn deserialize_revisioned(reader: &mut &[u8]) -> (res: Result<(), Error>) {
        assert(reader@ == reader@.skip(0));
        Ok(())
    }
}

impl RevisionedRoundTrip for () {
    proof fn lemma_decode_encode(v: (), rest: Seq<u8>) {
    }
}

impl<A: Revisioned> Revisioned for (A,) {
    type Model = (A::Model,);

    open spec fn model(&self) -> (A::Model,) {
        (self.0.model(),)
    }

    open spec fn spec_revision() -> u16 {
        1
    }

    fn revision() -> (r: u16) {
        1
    }
}

impl<A: SerializeRevisioned> SerializeRevisioned for (A,) {
    /// The elements one after the other.
    open spec fn spec_encode(m: (A::Model,)) -> Seq<u8> {
        A::spec_encode(m.0)
    }

    fn serialize_revisioned(&self, writer: &mut Vec<u8>) -> (r: Result<(), Error>) {
        let r = self.0.serialize_revisioned(writer);
        assert(writer@ == old(writer)@ + Self::spec_encode((self.0.model(),)));
        r
    }
}

impl<A: DeserializeRevisioned> DeserializeRevisioned for (A,) {
    /// The elements one after the other.
    open spec fn spec_decode(input: Seq<u8>) -> Result<((A::Model,), nat), ErrorKind> {
        match A::spec_decode(input) {
            Err(e) => Err(e),
            Ok((m0, n0)) => Ok(((m0,), n0)),
        }
    }

    fn deserialize_revisioned(reader: &mut &[u8]) -> (res: Result<(A,), Error>) {
        let ghost input = reader@;
        let ghost off0: nat = 0;
        assert(reader@ == input.skip(0));
        let v0 = match A::deserialize_revisioned(reader) {
            Ok(v) => v,
            Err(e) => return Err(e),
        };
        let ghost off1: nat = off0 + A::spec_decode(input.skip(off0 as int))->Ok_0.1;
        assert(input.skip(off0 as int).skip((off1 - off0) as int) == input.skip(off1 as int));
        Ok((v0,))
    }
}

impl<A: RevisionedRoundTrip> RevisionedRoundTrip for (A,) {
    proof fn lemma_decode_encode(v: (A,), rest: Seq<u8>) {
        let e0 = A::spec_encode(v.0.model());
        let whole = e0 + rest;
        let t0 = rest;
        assert(whole =~= e0 + t0);
        assert(whole.skip((0) as int) =~= e0 + t0);
        A::lemma_decode_encode(v.0, t0);
    }
}

impl<A: SerializeRevisioned> SerializeRevisionedVec for (A,) {
    open spec fn spec_encode_vec(ms: Seq<(A::Model,)>) -> Seq<u8> {
        encode_vec_generic::<(A,)>(ms)
    }

    fn serialize_revisioned_vec(v: &Vec<(A,)>, writer: &mut Vec<u8>) -> (r: Result<(), Error>) {
        serialize_vec_generic(v, writer)
    }
}

impl<A: DeserializeRevisioned> DeserializeRevisionedVec for (A,) {
    open spec fn spec_decode_vec(input: Seq<u8>) -> Result<(Seq<(A::Model,)>, nat), ErrorKind> {
        decode_vec_generic::<(A,)>(input)
    }

    fn deserialize_revisioned_vec(reader: &mut &[u8]) -> (res: Result<Vec<(A,)>, Error>) {
        deserialize_vec_generic(reader)
    }
}

impl<A: RevisionedRoundTrip> RevisionedRoundTripVec for (A,) {
    proof fn lemma_decode_encode_vec(vs: Seq<(A,)>, rest: Seq<u8>) {
        lemma_decode_encode_vec_generic::<(A,)>(vs, rest);
    }
}

impl<A: Revisioned, B: Revisioned> Revisioned for (A, B) {
    type Model = (A::Model, B::Model);

    open spec fn model(&self) -> (A::Model, B::Model) {
        (self.0.model(), self.1.model())
    }

    open spec fn spec_revision() -> u16 {
        1
    }

    fn revision() -> (r: u16) {
        1
    }
}

impl<A: SerializeRevisioned, B: SerializeRevisioned> SerializeRevisioned for (A, B) {
    /// The elements one after the other.
    open spec fn spec_encode(m: (A::Model, B::Model)) -> Seq<u8> {
        A::spec_encode(m.0) + B::spec_encode(m.1)
    }

    fn serialize_revisioned(&self, writer: &mut Vec<u8>) -> (r: Result<(), Error>) {
        match self.0.serialize_revisioned(writer) {
            Ok(()) => {},
            Err(e) => return Err(e),
        }
        let r = self.1.serialize_revisioned(writer);
        assert(writer@ == old(writer)@ + Self::spec_encode((self.0.model(), self.1.model())));
        r
    }
}

impl<A: DeserializeRevisioned, B: DeserializeRevisioned> DeserializeRevisioned for (A, B) {
    /// The elements one after the other.
    open spec fn spec_decode(input: Seq<u8>) -> Result<((A::Model, B::Model), nat), ErrorKind> {
        match A::spec_decode(input) {
            Err(e) => Err(e),
            Ok((m0, n0)) => match B::spec_decode(input.skip((n0) as int)) {
            Err(e) => Err(e),
            Ok((m1, n1)) => Ok(((m0, m1), n0 + n1)),
        },
        }
    }

    fn deserialize_revisioned(reader: &mut &[u8]) -> (res: Result<(A, B), Error>) {
        let ghost input = reader@;
        let ghost off0: nat = 0;
        assert(reader@ == input.skip(0));
        let v0 = match A::deserialize_revisioned(reader) {
            Ok(v) => v,
            Err(e) => return Err(e),
        };
        let ghost off1: nat = off0 + A::spec_decode(input.skip(off0 as int))->Ok_0.1;
        assert(input.skip(off0 as int).skip((off1 - off0) as int) == input.skip(off1 as int));
        let v1 = match B::deserialize_revisioned(reader) {
            Ok(v) => v,
            Err(e) => return Err(e),
        };
        let ghost off2: nat = off1 + B::spec_decode(input.skip(off1 as int))->Ok_0.1;
        assert(input.skip(off1 as int).skip((off2 - off1) as int) == input.skip(off2 as int));
        Ok((v0, v1))
    }
}

impl<A: RevisionedRoundTrip, B: RevisionedRoundTrip> RevisionedRoundTrip for (A, B) {
    proof fn lemma_decode_encode(v: (A, B), rest: Seq<u8>) {
        let e0 = A::spec_encode(v.0.model());
        let e1 = B::spec_encode(v.1.model());
        let whole = e0 + e1 + rest;
        let t1 = rest;
        let t0 = e1 + t1;
        assert(whole =~= e0 + t0);
        assert(whole.skip((0) as int) =~= e0 + t0);
        A::lemma_decode_encode(v.0, t0);
        assert(whole.skip((e0.len()) as int) =~= e1 + t1);
        B::lemma_decode_encode(v.1, t1);
    }
}

impl<A: SerializeRevisioned, B: SerializeRevisioned> SerializeRevisionedVec for (A, B) {
    open spec fn spec_encode_vec(ms: Seq<(A::Model, B::Model)>) -> Seq<u8> {
        encode_vec_generic::<(A, B)>(ms)
    }

    fn serialize_revisioned_vec(v: &Vec<(A, B)>, writer: &mut Vec<u8>) -> (r: Result<(), Error>) {
        serialize_vec_generic(v, writer)
    }
}

impl<A: DeserializeRevisioned, B: DeserializeRevisioned> DeserializeRevisionedVec for (A, B) {
    open spec fn spec_decode_vec(input: Seq<u8>) -> Result<(Seq<(A::Model, B::Model)>, nat), ErrorKind> {
        decode_vec_generic::<(A, B)>(input)
    }

    fn deserialize_revisioned_vec(reader: &mut &[u8]) -> (res: Result<Vec<(A, B)>, Error>) {
        deserialize_vec_generic(reader)
    }
}

impl<A: RevisionedRoundTrip, B: RevisionedRoundTrip> RevisionedRoundTripVec for (A, B) {
    proof fn lemma_decode_encode_vec(vs: Seq<(A, B)>, rest: Seq<u8>) {
        lemma_decode_encode_vec_generic::<(A, B)>(vs, rest);
    }
}

impl<A: Revisioned, B: Revisioned, C: Revisioned> Revisioned for (A, B, C) {
    type Model = (A::Model, B::Model, C::Model);

    open spec fn model(&self) -> (A::Model, B::Model, C::Model) {
        (self.0.model(), self.1.model(), self.2.model())
    }

    open spec fn spec_revision() -> u16 {
        1
    }

    fn revision() -> (r: u16) {
        1
    }
}

impl<A: SerializeRevisioned, B: SerializeRevisioned, C: SerializeRevisioned> SerializeRevisioned for (A, B, C) {
    /// The elements one after the other.
    open spec fn spec_encode(m: (A::Model, B::Model, C::Model)) -> Seq<u8> {
        A::spec_encode(m.0) + B::spec_encode(m.1) + C::spec_encode(m.2)
    }

    fn serialize_revisioned(&self, writer: &mut Vec<u8>) -> (r: Result<(), Error>) {
        match self.0.serialize_revisioned(writer) {
            Ok(()) => {},
            Err(e) => return Err(e),
        }
        match self.1.serialize_revisioned(writer) {
            Ok(()) => {},
            Err(e) => return Err(e),
        }
        let r = self.2.serialize_revisioned(writer);
        assert(writer@ == old(writer)@ + Self::spec_encode((self.0.model(), self.1.model(), self.2.model())));
        r
    }
}

impl<A: DeserializeRevisioned, B: DeserializeRevisioned, C: DeserializeRevisioned> DeserializeRevisioned for (A, B, C) {
    /// The elements one after the other.
    open spec fn spec_decode(input: Seq<u8>) -> Result<((A::Model, B::Model, C::Model), nat), ErrorKind> {
        match A::spec_decode(input) {
            Err(e) => Err(e),
            Ok((m0, n0)) => match B::spec_decode(input.skip((n0) as int)) {
            Err(e) => Err(e),
            Ok((m1, n1)) => match C::spec_decode(input.skip((n0 + n1) as int)) {
            Err(e) => Err(e),
            Ok((m2, n2)) => Ok(((m0, m1, m2), n0 + n1 + n2)),
        },
        },
        }
    }

    fn deserialize_revisioned(reader: &mut &[u8]) -> (res: Result<(A, B, C), Error>) {
        let ghost input = reader@;
        let ghost off0: nat = 0;
        assert(reader@ == input.skip(0));
        let v0 = match A::deserialize_revisioned(reader) {
            Ok(v) => v,
            Err(e) => return Err(e),
        };
        let ghost off1: nat = off0 + A::spec_decode(input.skip(off0 as int))->Ok_0.1;
        assert(input.skip(off0 as int).skip((off1 - off0) as int) == input.skip(off1 as int));
        let v1 = match B::deserialize_revisioned(reader) {
            Ok(v) => v,
            Err(e) => return Err(e),
        };
        let ghost off2: nat = off1 + B::spec_decode(input.skip(off1 as int))->Ok_0.1;
        assert(input.skip(off1 as int).skip((off2 - off1) as int) == input.skip(off2 as int));
        let v2 = match C::deserialize_revisioned(reader) {
            Ok(v) => v,
            Err(e) => return Err(e),
        };
        let ghost off3: nat = off2 + C::spec_decode(input.skip(off2 as int))->Ok_0.1;
        assert(input.skip(off2 as int).skip((off3 - off2) as int) == input.skip(off3 as int));
        Ok((v0, v1, v2))
    }
}

impl<A: RevisionedRoundTrip, B: RevisionedRoundTrip, C: RevisionedRoundTrip> RevisionedRoundTrip for (A, B, C) {
    proof fn lemma_decode_encode(v: (A, B, C), rest: Seq<u8>) {
        let e0 = A::spec_encode(v.0.model());
        let e1 = B::spec_encode(v.1.model());
        let e2 = C::spec_encode(v.2.model());
        let whole = e0 + e1 + e2 + rest;
        let t2 = rest;
        let t1 = e2 + t2;
        let t0 = e1 + t1;
        assert(whole =~= e0 + t0);
        assert(whole.skip((0) as int) =~= e0 + t0);
        A::lemma_decode_encode(v.0, t0);
        assert(whole.skip((e0.len()) as int) =~= e1 + t1);
        B::lemma_decode_encode(v.1, t1);
        assert(whole.skip((e0.len() + e1.len()) as int) =~= e2 + t2);
        C::lemma_decode_encode(v.2, t2);
    }
}

impl<A: SerializeRevisioned, B: SerializeRevisioned, C: SerializeRevisioned> SerializeRevisionedVec for (A, B, C) {
    open spec fn spec_encode_vec(ms: Seq<(A::Model, B::Model, C::Model)>) -> Seq<u8> {
        encode_vec_generic::<(A, B, C)>(ms)
    }

    fn serialize_revisioned_vec(v: &Vec<(A, B, C)>, writer: &mut Vec<u8>) -> (r: Result<(), Error>) {
        serialize_vec_generic(v, writer)
    }
}

impl<A: DeserializeRevisioned, B: DeserializeRevisioned, C: DeserializeRevisioned> DeserializeRevisionedVec for (A, B, C) {
    open spec fn spec_decode_vec(input: Seq<u8>) -> Result<(Seq<(A::Model, B::Model, C::Model)>, nat), ErrorKind> {
        decode_vec_generic::<(A, B, C)>(input)
    }

    fn deserialize_revisioned_vec(reader: &mut &[u8]) -> (res: Result<Vec<(A, B, C)>, Error>) {
        deserialize_vec_generic(reader)
    }
}

impl<A: RevisionedRoundTrip, B: RevisionedRoundTrip, C: RevisionedRoundTrip> RevisionedRoundTripVec for (A, B, C) {
    proof fn lemma_decode_encode_vec(vs: Seq<(A, B, C)>, rest: Seq<u8>) {
        lemma_decode_encode_vec_generic::<(A, B, C)>(vs, rest);
    }
}

impl<A: Revisioned, B: Revisioned, C: Revisioned, D: Revisioned> Revisioned for (A, B, C, D) {
    type Model = (A::Model, B::Model, C::Model, D::Model);

    open spec fn model(&self) -> (A::Model, B::Model, C::Model, D::Model) {
        (self.0.model(), self.1.model(), self.2.model(), self.3.model())
    }

    open spec fn spec_revision() -> u16 {
        1
    }

    fn revision() -> (r: u16) {
        1
    }
}

impl<A: SerializeRevisioned, B: SerializeRevisioned, C: SerializeRevisioned, D: SerializeRevisioned> SerializeRevisioned for (A, B, C, D) {
    /// The elements one after the other.
    open spec fn spec_encode(m: (A::Model, B::Model, C::Model, D::Model)) -> Seq<u8> {
        A::spec_encode(m.0) + B::spec_encode(m.1) + C::spec_encode(m.2) + D::spec_encode(m.3)
    }

    fn serialize_revisioned(&self, writer: &mut Vec<u8>) -> (r: Result<(), Error>) {
        match self.0.serialize_revisioned(writer) {
            Ok(()) => {},
            Err(e) => return Err(e),
        }
        match self.1.serialize_revisioned(writer) {
            Ok(()) => {},
            Err(e) => return Err(e),
        }
        match self.2.serialize_revisioned(writer) {
            Ok(()) => {},
            Err(e) => return Err(e),
        }
        let r = self.3.serialize_revisioned(writer);
        assert(writer@ == old(writer)@ + Self::spec_encode((self.0.model(), self.1.model(), self.2.model(), self.3.model())));
        r
    }
}

impl<A: DeserializeRevisioned, B: DeserializeRevisioned, C: DeserializeRevisioned, D: DeserializeRevisioned> DeserializeRevisioned for (A, B, C, D) {
    /// The elements one after the other.
    open spec fn spec_decode(input: Seq<u8>) -> Result<((A::Model, B::Model, C::Model, D::Model), nat), ErrorKind> {
        match A::spec_decode(input) {
            Err(e) => Err(e),
            Ok((m0, n0)) => match B::spec_decode(input.skip((n0) as int)) {
            Err(e) => Err(e),
            Ok((m1, n1)) => match C::spec_decode(input.skip((n0 + n1) as int)) {
            Err(e) => Err(e),
            Ok((m2, n2)) => match D::spec_decode(input.skip((n0 + n1 + n2) as int)) {
            Err(e) => Err(e),
            Ok((m3, n3)) => Ok(((m0, m1, m2, m3), n0 + n1 + n2 + n3)),
        },
        },
        },
        }
    }

    fn deserialize_revisioned(reader: &mut &[u8]) -> (res: Result<(A, B, C, D), Error>) {
        let ghost input = reader@;
        let ghost off0: nat = 0;
        assert(reader@ == input.skip(0));
        let v0 = match A::deserialize_revisioned(reader) {
            Ok(v) => v,
            Err(e) => return Err(e),
        };
        let ghost off1: nat = off0 + A::spec_decode(input.skip(off0 as int))->Ok_0.1;
        assert(input.skip(off0 as int).skip((off1 - off0) as int) == input.skip(off1 as int));
        let v1 = match B::deserialize_revisioned(reader) {
            Ok(v) => v,
            Err(e) => return Err(e),
        };
        let ghost off2: nat = off1 + B::spec_decode(input.skip(off1 as int))->Ok_0.1;
        assert(input.skip(off1 as int).skip((off2 - off1) as int) == input.skip(off2 as int));
        let v2 = match C::deserialize_revisioned(reader) {
            Ok(v) => v,
            Err(e) => return Err(e),
        };
        let ghost off3: nat = off2 + C::spec_decode(input.skip(off2 as int))->Ok_0.1;
        assert(input.skip(off2 as int).skip((off3 - off2) as int) == input.skip(off3 as int));
        let v3 = match D::deserialize_revisioned(reader) {
            Ok(v) => v,
            Err(e) => return Err(e),
        };
        let ghost off4: nat = off3 + D::spec_decode(input.skip(off3 as int))->Ok_0.1;
        assert(input.skip(off3 as int).skip((off4 - off3) as int) == input.skip(off4 as int));
        Ok((v0, v1, v2, v3))
    }
}

impl<A: RevisionedRoundTrip, B: RevisionedRoundTrip, C: RevisionedRoundTrip, D: RevisionedRoundTrip> RevisionedRoundTrip for (A, B, C, D) {
    proof fn lemma_decode_encode(v: (A, B, C, D), rest: Seq<u8>) {
        let e0 = A::spec_encode(v.0.model());
        let e1 = B::spec_encode(v.1.model());
        let e2 = C::spec_encode(v.2.model());
        let e3 = D::spec_encode(v.3.model());
        let whole = e0 + e1 + e2 + e3 + rest;
        let t3 = rest;
        let t2 = e3 + t3;
        let t1 = e2 + t2;
        let t0 = e1 + t1;
        assert(whole =~= e0 + t0);
        assert(whole.skip((0) as int) =~= e0 + t0);
        A::lemma_decode_encode(v.0, t0);
        assert(whole.skip((e0.len()) as int) =~= e1 + t1);
        B::lemma_decode_encode(v.1, t1);
        assert(whole.skip((e0.len() + e1.len()) as int) =~= e2 + t2);
        C::lemma_decode_encode(v.2, t2);
        assert(whole.skip((e0.len() + e1.len() + e2.len()) as int) =~= e3 + t3);
        D::lemma_decode_encode(v.3, t3);
    }
}

impl<A: SerializeRevisioned, B: SerializeRevisioned, C: SerializeRevisioned, D: SerializeRevisioned> SerializeRevisionedVec for (A, B, C, D) {
    open spec fn spec_encode_vec(ms: Seq<(A::Model, B::Model, C::Model, D::Model)>) -> Seq<u8> {
        encode_vec_generic::<(A, B, C, D)>(ms)
    }

    fn serialize_revisioned_vec(v: &Vec<(A, B, C, D)>, writer: &mut Vec<u8>) -> (r: Result<(), Error>) {
        serialize_vec_generic(v, writer)
    }
}

impl<A: DeserializeRevisioned, B: DeserializeRevisioned, C: DeserializeRevisioned, D: DeserializeRevisioned> DeserializeRevisionedVec for (A, B, C, D) {
    open spec fn spec_decode_vec(input: Seq<u8>) -> Result<(Seq<(A::Model, B::Model, C::Model, D::Model)>, nat), ErrorKind> {
        decode_vec_generic::<(A, B, C, D)>(input)
    }

    fn deserialize_revisioned_vec(reader: &mut &[u8]) -> (res: Result<Vec<(A, B, C, D)>, Error>) {
        deserialize_vec_generic(reader)
    }
}

impl<A: RevisionedRoundTrip, B: RevisionedRoundTrip, C: RevisionedRoundTrip, D: RevisionedRoundTrip> RevisionedRoundTripVec for (A, B, C, D) {
    proof fn lemma_decode_encode_vec(vs: Seq<(A, B, C, D)>, rest: Seq<u8>) {
        lemma_decode_encode_vec_generic::<(A, B, C, D)>(vs, rest);
    }
}

impl<A: Revisioned, B: Revisioned, C: Revisioned, D: Revisioned, E: Revisioned> Revisioned for (A, B, C, D, E) {
    type Model = (A::Model, B::Model, C::Model, D::Model, E::Model);

    open spec fn model(&self) -> (A::Model, B::Model, C::Model, D::Model, E::Model) {
        (self.0.model(), self.1.model(), self.2.model(), self.3.model(), self.4.model())
    }

    open spec fn spec_revision() -> u16 {
        1
    }

    fn revision() -> (r: u16) {
        1
    }
}

impl<A: SerializeRevisioned, B: SerializeRevisioned, C: SerializeRevisioned, D: SerializeRevisioned, E: SerializeRevisioned> SerializeRevisioned for (A, B, C, D, E) {
    /// The elements one after the other.
    open spec fn spec_encode(m: (A::Model, B::Model, C::Model, D::Model, E::Model)) -> Seq<u8> {
        A::spec_encode(m.0) + B::spec_encode(m.1) + C::spec_encode(m.2) + D::spec_encode(m.3) + E::spec_encode(m.4)
    }

    fn serialize_revisioned(&self, writer: &mut Vec<u8>) -> (r: Result<(), Error>) {
        match self.0.serialize_revisioned(writer) {
            Ok(()) => {},
            Err(e) => return Err(e),
        }
        match self.1.serialize_revisioned(writer) {
            Ok(()) => {},
            Err(e) => return Err(e),
        }
        match self.2.serialize_revisioned(writer) {
            Ok(()) => {},
            Err(e) => return Err(e),
        }
        match self.3.serialize_revisioned(writer) {
            Ok(()) => {},
            Err(e) => return Err(e),
        }
        let r = self.4.serialize_revisioned(writer);
        assert(writer@ == old(writer)@ + Self::spec_encode((self.0.model(), self.1.model(), self.2.model(), self.3.model(), self.4.model())));
        r
    }
}

impl<A: DeserializeRevisioned, B: DeserializeRevisioned, C: DeserializeRevisioned, D: DeserializeRevisioned, E: DeserializeRevisioned> DeserializeRevisioned for (A, B, C, D, E) {
    /// The elements one after the other.
    open spec fn spec_decode(input: Seq<u8>) -> Result<((A::Model, B::Model, C::Model, D::Model, E::Model), nat), ErrorKind> {
        match A::spec_decode(input) {
            Err(e) => Err(e),
            Ok((m0, n0)) => match B::spec_decode(input.skip((n0) as int)) {
            Err(e) => Err(e),
            Ok((m1, n1)) => match C::spec_decode(input.skip((n0 + n1) as int)) {
            Err(e) => Err(e),
            Ok((m2, n2)) => match D::spec_decode(input.skip((n0 + n1 + n2) as int)) {
            Err(e) => Err(e),
            Ok((m3, n3)) => match E::spec_decode(input.skip((n0 + n1 + n2 + n3) as int)) {
            Err(e) => Err(e),
            Ok((m4, n4)) => Ok(((m0, m1, m2, m3, m4), n0 + n1 + n2 + n3 + n4)),
        },
        },
        },
        },
        }
    }

    fn deserialize_revisioned(reader: &mut &[u8]) -> (res: Result<(A, B, C, D, E), Error>) {
        let ghost input = reader@;
        let ghost off0: nat = 0;
        assert(reader@ == input.skip(0));
        let v0 = match A::deserialize_revisioned(reader) {
            Ok(v) => v,
            Err(e) => return Err(e),
        };
        let ghost off1: nat = off0 + A::spec_decode(input.skip(off0 as int))->Ok_0.1;
        assert(input.skip(off0 as int).skip((off1 - off0) as int) == input.skip(off1 as int));
        let v1 = match B::deserialize_revisioned(reader) {
            Ok(v) => v,
            Err(e) => return Err(e),
        };
        let ghost off2: nat = off1 + B::spec_decode(input.skip(off1 as int))->Ok_0.1;
        assert(input.skip(off1 as int).skip((off2 - off1) as int) == input.skip(off2 as int));
        let v2 = match C::deserialize_revisioned(reader) {
            Ok(v) => v,
            Err(e) => return Err(e),
        };
        let ghost off3: nat = off2 + C::spec_decode(input.skip(off2 as int))->Ok_0.1;
        assert(input.skip(off2 as int).skip((off3 - off2) as int) == input.skip(off3 as int));
        let v3 = match D::deserialize_revisioned(reader) {
            Ok(v) => v,
            Err(e) => return Err(e),
        };
        let ghost off4: nat = off3 + D::spec_decode(input.skip(off3 as int))->Ok_0.1;
        assert(input.skip(off3 as int).skip((off4 - off3) as int) == input.skip(off4 as int));
        let v4 = match E::deserialize_revisioned(reader) {
            Ok(v) => v,
            Err(e) => return Err(e),
        };
        let ghost off5: nat = off4 + E::spec_decode(input.skip(off4 as int))->Ok_0.1;
        assert(input.skip(off4 as int).skip((off5 - off4) as int) == input.skip(off5 as int));
        Ok((v0, v1, v2, v3, v4))
    }
}

impl<A: RevisionedRoundTrip, B: RevisionedRoundTrip, C: RevisionedRoundTrip, D: RevisionedRoundTrip, E: RevisionedRoundTrip> RevisionedRoundTrip for (A, B, C, D, E) {
    proof fn lemma_decode_encode(v: (A, B, C, D, E), rest: Seq<u8>) {
        let e0 = A::spec_encode(v.0.model());
        let e1 = B::spec_encode(v.1.model());
        let e2 = C::spec_encode(v.2.model());
        let e3 = D::spec_encode(v.3.model());
        let e4 = E::spec_encode(v.4.model());
        let whole = e0 + e1 + e2 + e3 + e4 + rest;
        let t4 = rest;
        let t3 = e4 + t4;
        let t2 = e3 + t3;
        let t1 = e2 + t2;
        let t0 = e1 + t1;
        assert(whole =~= e0 + t0);
        assert(whole.skip((0) as int) =~= e0 + t0);
        A::lemma_decode_encode(v.0, t0);
        assert(whole.skip((e0.len()) as int) =~= e1 + t1);
        B::lemma_decode_encode(v.1, t1);
        assert(whole.skip((e0.len() + e1.len()) as int) =~= e2 + t2);
        C::lemma_decode_encode(v.2, t2);
        assert(whole.skip((e0.len() + e1.len() + e2.len()) as int) =~= e3 + t3);
        D::lemma_decode_encode(v.3, t3);
        assert(whole.skip((e0.len() + e1.len() + e2.len() + e3.len()) as int) =~= e4 + t4);
        E::lemma_decode_encode(v.4, t4);
    }
}

impl<A: SerializeRevisioned, B: SerializeRevisioned, C: SerializeRevisioned, D: SerializeRevisioned, E: SerializeRevisioned> SerializeRevisionedVec for (A, B, C, D, E) {
    open spec fn spec_encode_vec(ms: Seq<(A::Model, B::Model, C::Model, D::Model, E::Model)>) -> Seq<u8> {
        encode_vec_generic::<(A, B, C, D, E)>(ms)
    }

    fn serialize_revisioned_vec(v: &Vec<(A, B, C, D, E)>, writer: &mut Vec<u8>) -> (r: Result<(), Error>) {
        serialize_vec_generic(v, writer)
    }
}

impl<A: DeserializeRevisioned, B: DeserializeRevisioned, C: DeserializeRevisioned, D: DeserializeRevisioned, E: DeserializeRevisioned> DeserializeRevisionedVec for (A, B, C, D, E) {
    open spec fn spec_decode_vec(input: Seq<u8>) -> Result<(Seq<(A::Model, B::Model, C::Model, D::Model, E::Model)>, nat), ErrorKind> {
        decode_vec_generic::<(A, B, C, D, E)>(input)
    }

    fn deserialize_revisioned_vec(reader: &mut &[u8]) -> (res: Result<Vec<(A, B, C, D, E)>, Error>) {
        deserialize_vec_generic(reader)
    }
}

impl<A: RevisionedRoundTrip, B: RevisionedRoundTrip, C: RevisionedRoundTrip, D: RevisionedRoundTrip, E: RevisionedRoundTrip> RevisionedRoundTripVec for (A, B, C, D, E) {
    proof fn lemma_decode_encode_vec(vs: Seq<(A, B, C, D, E)>, rest: Seq<u8>) {
        lemma_decode_encode_vec_generic::<(A, B, C, D, E)>(vs, rest);
    }
}

impl<A: Revisioned, B: Revisioned, C: Revisioned, D: Revisioned, E: Revisioned, F: Revisioned> Revisioned for (A, B, C, D, E, F) {
    type Model = (A::Model, B::Model, C::Model, D::Model, E::Model, F::Model);

    open spec fn model(&self) -> (A::Model, B::Model, C::Model, D::Model, E::Model, F::Model) {
        (self.0.model(), self.1.model(), self.2.model(), self.3.model(), self.4.model(), self.5.model())
    }

    open spec fn spec_revision() -> u16 {
        1
    }

    fn revision() -> (r: u16) {
        1
    }
}

impl<A: SerializeRevisioned, B: SerializeRevisioned, C: SerializeRevisioned, D: SerializeRevisioned, E: SerializeRevisioned, F: SerializeRevisioned> SerializeRevisioned for (A, B, C, D, E, F) {
    /// The elements one after the other.
    open spec fn spec_encode(m: (A::Model, B::Model, C::Model, D::Model, E::Model, F::Model)) -> Seq<u8> {
        A::spec_encode(m.0) + B::spec_encode(m.1) + C::spec_encode(m.2) + D::spec_encode(m.3) + E::spec_encode(m.4) + F::spec_encode(m.5)
    }

    fn serialize_revisioned(&self, writer: &mut Vec<u8>) -> (r: Result<(), Error>) {
        match self.0.serialize_revisioned(writer) {
            Ok(()) => {},
            Err(e) => return Err(e),
        }
        match self.1.serialize_revisioned(writer) {
            Ok(()) => {},
            Err(e) => return Err(e),
        }
        match self.2.serialize_revisioned(writer) {
            Ok(()) => {},
            Err(e) => return Err(e),
        }
        match self.3.serialize_revisioned(writer) {
            Ok(()) => {},
            Err(e) => return Err(e),
        }
        match self.4.serialize_revisioned(writer) {
            Ok(()) => {},
            Err(e) => return Err(e),
        }
        let r = self.5.serialize_revisioned(writer);
        assert(writer@ == old(writer)@ + Self::spec_encode((self.0.model(), self.1.model(), self.2.model(), self.3.model(), self.4.model(), self.5.model())));
        r
    }
}

impl<A: DeserializeRevisioned, B: DeserializeRevisioned, C: DeserializeRevisioned, D: DeserializeRevisioned, E: DeserializeRevisioned, F: DeserializeRevisioned> DeserializeRevisioned for (A, B, C, D, E, F) {
    /// The elements one after the other.
    open spec fn spec_decode(input: Seq<u8>) -> Result<((A::Model, B::Model, C::Model, D::Model, E::Model, F::Model), nat), ErrorKind> {
        match A::spec_decode(input) {
            Err(e) => Err(e),
            Ok((m0, n0)) => match B::spec_decode(input.skip((n0) as int)) {
            Err(e) => Err(e),
            Ok((m1, n1)) => match C::spec_decode(input.skip((n0 + n1) as int)) {
            Err(e) => Err(e),
            Ok((m2, n2)) => match D::spec_decode(input.skip((n0 + n1 + n2) as int)) {
            Err(e) => Err(e),
            Ok((m3, n3)) => match E::spec_decode(input.skip((n0 + n1 + n2 + n3) as int)) {
            Err(e) => Err(e),
            Ok((m4, n4)) => match F::spec_decode(input.skip((n0 + n1 + n2 + n3 + n4) as int)) {
            Err(e) => Err(e),
            Ok((m5, n5)) => Ok(((m0, m1, m2, m3, m4, m5), n0 + n1 + n2 + n3 + n4 + n5)),
        },
        },
        },
        },
        },
        }
    }

    fn deserialize_revisioned(reader: &mut &[u8]) -> (res: Result<(A, B, C, D, E, F), Error>) {
        let ghost input = reader@;
        let ghost off0: nat = 0;
        assert(reader@ == input.skip(0));
        let v0 = match A::deserialize_revisioned(reader) {
            Ok(v) => v,
            Err(e) => return Err(e),
        };
        let ghost off1: nat = off0 + A::spec_decode(input.skip(off0 as int))->Ok_0.1;
        assert(input.skip(off0 as int).skip((off1 - off0) as int) == input.skip(off1 as int));
        let v1 = match B::deserialize_revisioned(reader) {
            Ok(v) => v,
            Err(e) => return Err(e),
        };
        let ghost off2: nat = off1 + B::spec_decode(input.skip(off1 as int))->Ok_0.1;
        assert(input.skip(off1 as int).skip((off2 - off1) as int) == input.skip(off2 as int));
        let v2 = match C::deserialize_revisioned(reader) {
            Ok(v) => v,
            Err(e) => return Err(e),
        };
        let ghost off3: nat = off2 + C::spec_decode(input.skip(off2 as int))->Ok_0.1;
        assert(input.skip(off2 as int).skip((off3 - off2) as int) == input.skip(off3 as int));
        let v3 = match D::deserialize_revisioned(reader) {
            Ok(v) => v,
            Err(e) => return Err(e),
        };
        let ghost off4: nat = off3 + D::spec_decode(input.skip(off3 as int))->Ok_0.1;
        assert(input.skip(off3 as int).skip((off4 - off3) as int) == input.skip(off4 as int));
        let v4 = match E::deserialize_revisioned(reader) {
            Ok(v) => v,
            Err(e) => return Err(e),
        };
        let ghost off5: nat = off4 + E::spec_decode(input.skip(off4 as int))->Ok_0.1;
        assert(input.skip(off4 as int).skip((off5 - off4) as int) == input.skip(off5 as int));
        let v5 = match F::deserialize_revisioned(reader) {
            Ok(v) => v,
            Err(e) => return Err(e),
        };
        let ghost off6: nat = off5 + F::spec_decode(input.skip(off5 as int))->Ok_0.1;
        assert(input.skip(off5 as int).skip((off6 - off5) as int) == input.skip(off6 as int));
        Ok((v0, v1, v2, v3, v4, v5))
    }
}

impl<A: RevisionedRoundTrip, B: RevisionedRoundTrip, C: RevisionedRoundTrip, D: RevisionedRoundTrip, E: RevisionedRoundTrip, F: RevisionedRoundTrip> RevisionedRoundTrip for (A, B, C, D, E, F) {
    proof fn lemma_decode_encode(v: (A, B, C, D, E, F), rest: Seq<u8>) {
        let e0 = A::spec_encode(v.0.model());
        let e1 = B::spec_encode(v.1.model());
        let e2 = C::spec_encode(v.2.model());
        let e3 = D::spec_encode(v.3.model());
        let e4 = E::spec_encode(v.4.model());
        let e5 = F::spec_encode(v.5.model());
        let whole = e0 + e1 + e2 + e3 + e4 + e5 + rest;
        let t5 = rest;
        let t4 = e5 + t5;
        let t3 = e4 + t4;
        let t2 = e3 + t3;
        let t1 = e2 + t2;
        let t0 = e1 + t1;
        assert(whole =~= e0 + t0);
        assert(whole.skip((0) as int) =~= e0 + t0);
        A::lemma_decode_encode(v.0, t0);
        assert(whole.skip((e0.len()) as int) =~= e1 + t1);
        B::lemma_decode_encode(v.1, t1);
        assert(whole.skip((e0.len() + e1.len()) as int) =~= e2 + t2);
        C::lemma_decode_encode(v.2, t2);
        assert(whole.skip((e0.len() + e1.len() + e2.len()) as int) =~= e3 + t3);
        D::lemma_decode_encode(v.3, t3);
        assert(whole.skip((e0.len() + e1.len() + e2.len() + e3.len()) as int) =~= e4 + t4);
        E::lemma_decode_encode(v.4, t4);
        assert(whole.skip((e0.len() + e1.len() + e2.len() + e3.len() + e4.len()) as int) =~= e5 + t5);
        F::lemma_decode_encode(v.5, t5);
    }
}

impl<A: SerializeRevisioned, B: SerializeRevisioned, C: SerializeRevisioned, D: SerializeRevisioned, E: SerializeRevisioned, F: SerializeRevisioned> SerializeRevisionedVec for (A, B, C, D, E, F) {
    open spec fn spec_encode_vec(ms: Seq<(A::Model, B::Model, C::Model, D::Model, E::Model, F::Model)>) -> Seq<u8> {
        encode_vec_generic::<(A, B, C, D, E, F)>(ms)
    }

    fn serialize_revisioned_vec(v: &Vec<(A, B, C, D, E, F)>, writer: &mut Vec<u8>) -> (r: Result<(), Error>) {
        serialize_vec_generic(v, writer)
    }
}

impl<A: DeserializeRevisioned, B: DeserializeRevisioned, C: DeserializeRevisioned, D: DeserializeRevisioned, E: DeserializeRevisioned, F: DeserializeRevisioned> DeserializeRevisionedVec for (A, B, C, D, E, F) {
    open spec fn spec_decode_vec(input: Seq<u8>) -> Result<(Seq<(A::Model, B::Model, C::Model, D::Model, E::Model, F::Model)>, nat), ErrorKind> {
        decode_vec_generic::<(A, B, C, D, E, F)>(input)
    }

    fn deserialize_revisioned_vec(reader: &mut &[u8]) -> (res: Result<Vec<(A, B, C, D, E, F)>, Error>) {
        deserialize_vec_generic(reader)
    }
}

impl<A: RevisionedRoundTrip, B: RevisionedRoundTrip, C: RevisionedRoundTrip, D: RevisionedRoundTrip, E: RevisionedRoundTrip, F: RevisionedRoundTrip> RevisionedRoundTripVec for (A, B, C, D, E, F) {
    proof fn lemma_decode_encode_vec(vs: Seq<(A, B, C, D, E, F)>, rest: Seq<u8>) {
        lemma_decode_encode_vec_generic::<(A, B, C, D, E, F)>(vs, rest);
    }
}

} // verus!
