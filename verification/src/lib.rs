use vstd::prelude::*;

pub mod ast;
pub mod error;
pub mod expand;
pub mod implementations;
pub mod prelude;

pub use crate::error::Error;
pub use crate::error::ErrorKind;
pub use crate::implementations::ordered::OrderedKey;
pub use crate::implementations::walk::{
    vec_uses_bulk_encoding, LeafWalker, LengthPrefixedBytes, MapEntry, MapWalker, SeqWalker,
    VecLayout, WalkRevisioned,
};

verus! {

/// The models of a sequence of values.
pub open spec fn models<T: Revisioned>(vs: Seq<T>) -> Seq<T::Model> {
    vs.map_values(|v: T| v.model())
}

/// Whether a decoder's result and the reader it left behind agree with the
/// specification `spec` of the decoder on the input `before`.
pub open spec fn decodes_as<T: Revisioned>(
    spec: Result<(T::Model, nat), ErrorKind>,
    res: Result<T, Error>,
    before: Seq<u8>,
    after: Seq<u8>,
) -> bool {
    match res {
        Ok(v) => spec matches Ok((m, n)) && m == v.model() && n <= before.len() && after
            == before.skip(n as int),
        Err(e) => spec == Err::<(T::Model, nat), ErrorKind>(e.kind()),
    }
}

/// Trait that provides an interface for version aware serialization and deserialization.
pub trait Revisioned: Sized {
    /// The mathematical value that the byte format records of `Self`.
    type Model;

    spec fn model(&self) -> Self::Model;

    spec fn spec_revision() -> u16;

    /// Returns the current revision of this type.
    fn revision() -> (r: u16)
        ensures
            r == Self::spec_revision(),
    ;
}

pub trait SerializeRevisioned: Revisioned {
    /// The bytes that serializing a value with model `m` appends.
    spec fn spec_encode(m: Self::Model) -> Seq<u8>;

    /// Serializes the value into the `writer`.
    fn serialize_revisioned(&self, writer: &mut Vec<u8>) -> (r: Result<(), Error>)
        ensures
            r is Ok,
            final(writer)@ == old(writer)@ + Self::spec_encode(self.model()),
    ;
}

pub trait DeserializeRevisioned: Revisioned {
    /// The value that deserializing from `input` gives, and how many bytes it takes.
    spec fn spec_decode(input: Seq<u8>) -> Result<(Self::Model, nat), ErrorKind>;

    /// Deserializes a new instance of the value from the `reader`.
    fn deserialize_revisioned(reader: &mut &[u8]) -> (res: Result<Self, Error>)
        ensures
            decodes_as::<Self>(Self::spec_decode(old(reader)@), res, old(reader)@, final(reader)@),
    ;
}

/// How a `Vec` of values of this type is serialized: element by element, or in a
/// packed form of its own.
pub trait SerializeRevisionedVec: SerializeRevisioned {
    /// The bytes that serializing a `Vec` of values with models `ms` appends.
    spec fn spec_encode_vec(ms: Seq<Self::Model>) -> Seq<u8>;

    /// Serializes a vector of values of this type into the `writer`.
    fn serialize_revisioned_vec(v: &Vec<Self>, writer: &mut Vec<u8>) -> (r: Result<(), Error>)
        ensures
            r is Ok,
            final(writer)@ == old(writer)@ + Self::spec_encode_vec(models(v@)),
    ;
}

/// How a `Vec` of values of this type is deserialized.
pub trait DeserializeRevisionedVec: DeserializeRevisioned {
    /// The values that deserializing a `Vec` from `input` gives, and how many bytes it takes.
    spec fn spec_decode_vec(input: Seq<u8>) -> Result<(Seq<Self::Model>, nat), ErrorKind>;

    /// Deserializes a vector of values of this type from the `reader`.
    fn deserialize_revisioned_vec(reader: &mut &[u8]) -> (res: Result<Vec<Self>, Error>)
        ensures
            decodes_as::<Vec<Self>>(
                Self::spec_decode_vec(old(reader)@),
                res,
                old(reader)@,
                final(reader)@,
            ),
    ;
}

/// Whether decoding any strict prefix of the encoding of a value with model `m` fails:
/// a cut-off encoding is never read as some other value.
pub open spec fn strict_prefixes_fail<T: SerializeRevisioned + DeserializeRevisioned>(
    m: T::Model,
) -> bool {
    forall|k: int|
        0 <= k < T::spec_encode(m).len() ==> (#[trigger] T::spec_decode(
            T::spec_encode(m).take(k),
        )) is Err
}

/// Serializing and then deserializing gives back what was serialized.
pub trait RevisionedRoundTrip: SerializeRevisioned + DeserializeRevisioned {
    /// Deserializing the bytes that serializing `v` writes gives back a value with the
    /// model of `v`, and takes exactly those bytes, whatever follows them.
    proof fn lemma_decode_encode(v: Self, rest: Seq<u8>)
        requires
            Self::spec_encode(v.model()).len() <= usize::MAX,
        ensures
            Self::spec_decode(Self::spec_encode(v.model()) + rest) == Ok::<
                (Self::Model, nat),
                ErrorKind,
            >((v.model(), Self::spec_encode(v.model()).len())),
    ;
}

/// Serializing a vector and then deserializing gives back what was serialized.
pub trait RevisionedRoundTripVec: SerializeRevisionedVec + DeserializeRevisionedVec {
    /// Deserializing the bytes that serializing a vector of `vs` writes gives back the
    /// models of `vs`, and takes exactly those bytes, whatever follows them.
    proof fn lemma_decode_encode_vec(vs: Seq<Self>, rest: Seq<u8>)
        requires
            vs.len() <= usize::MAX,
            Self::spec_encode_vec(models(vs)).len() <= usize::MAX,
        ensures
            Self::spec_decode_vec(Self::spec_encode_vec(models(vs)) + rest) == Ok::<
                (Seq<Self::Model>, nat),
                ErrorKind,
            >((models(vs), Self::spec_encode_vec(models(vs)).len())),
    ;
}

/// Whether a skip's result and the reader it left behind agree with the specification
/// `spec` of the skip (the number of bytes passed over, or the error) on `before`.
pub open spec fn skips_as(
    spec: Result<nat, ErrorKind>,
    r: Result<(), Error>,
    before: Seq<u8>,
    after: Seq<u8>,
) -> bool {
    match r {
        Ok(_) => spec matches Ok(n) && n <= before.len() && after == before.skip(n as int),
        Err(e) => spec == Err::<nat, ErrorKind>(e.kind()),
    }
}

/// What decoding `input` passes over, or the error it meets.
pub open spec fn decode_extent<M>(spec: Result<(M, nat), ErrorKind>) -> Result<nat, ErrorKind> {
    match spec {
        Ok((_, n)) => Ok(n),
        Err(e) => Err(e),
    }
}

/// Passing over an encoded value without building it.
pub trait SkipRevisioned: DeserializeRevisioned {
    /// How many bytes skipping a value at the front of `input` passes over, or the error
    /// it meets.
    spec fn spec_skip(input: Seq<u8>) -> Result<nat, ErrorKind>;

    /// Skips the encoding of one value at the front of `reader`.
    fn skip_revisioned(reader: &mut &[u8]) -> (r: Result<(), Error>)
        ensures
            skips_as(Self::spec_skip(old(reader)@), r, old(reader)@, final(reader)@),
    ;

    /// Where deserializing succeeds, skipping succeeds too and passes over exactly the
    /// bytes that deserializing takes.
    proof fn lemma_skip_decode(input: Seq<u8>)
        ensures
            Self::spec_decode(input) is Ok ==> Self::spec_skip(input) == decode_extent(
                Self::spec_decode(input),
            ),
    ;
}

/// How a `Vec` of values of this type is skipped.
pub trait SkipRevisionedVec: DeserializeRevisionedVec {
    /// How many bytes skipping a `Vec` at the front of `input` passes over.
    spec fn spec_skip_vec(input: Seq<u8>) -> Result<nat, ErrorKind>;

    /// Skips the encoding of a vector of values of this type.
    fn skip_revisioned_vec(reader: &mut &[u8]) -> (r: Result<(), Error>)
        ensures
            skips_as(Self::spec_skip_vec(old(reader)@), r, old(reader)@, final(reader)@),
    ;

    /// Where deserializing a vector succeeds, skipping it passes over the same bytes.
    proof fn lemma_skip_decode_vec(input: Seq<u8>)
        ensures
            Self::spec_decode_vec(input) is Ok ==> Self::spec_skip_vec(input) == decode_extent(
                Self::spec_decode_vec(input),
            ),
    ;
}

/// Passing over an encoded value with every check that deserializing makes.
pub trait SkipCheckRevisioned: DeserializeRevisioned {
    /// Skips one value at the front of `reader`, failing exactly where deserializing it
    /// fails.
    fn skip_check_revisioned(reader: &mut &[u8]) -> (r: Result<(), Error>)
        ensures
            skips_as(decode_extent(Self::spec_decode(old(reader)@)), r, old(reader)@, final(reader)@),
    ;
}

impl<T: DeserializeRevisioned> SkipCheckRevisioned for T {
    fn skip_check_revisioned(reader: &mut &[u8]) -> (r: Result<(), Error>) {
        match T::deserialize_revisioned(reader) {
            Ok(_) => Ok(()),
            Err(e) => Err(e),
        }
    }
}

/// Deserialize a revisioned type from a reader
pub fn from_reader<T: DeserializeRevisioned>(rdr: &mut &[u8]) -> (res: Result<T, Error>)
    ensures
        decodes_as::<T>(T::spec_decode(old(rdr)@), res, old(rdr)@, final(rdr)@),
{
    T::deserialize_revisioned(rdr)
}

/// Deserialize a revisioned type from a slice of bytes
///
/// The value is read from the front of `bytes`; bytes after it are left unread.
pub fn from_slice<T: DeserializeRevisioned>(bytes: &[u8]) -> (res: Result<T, Error>)
    ensures
        match res {
            Ok(v) => T::spec_decode(bytes@) matches Ok((m, n)) && m == v.model() && n
                <= bytes@.len(),
            Err(e) => T::spec_decode(bytes@) == Err::<(T::Model, nat), ErrorKind>(e.kind()),
        },
{
    let mut reader = bytes;
    T::deserialize_revisioned(&mut reader)
}

/// Serialize a revisioned type into a writer
pub fn to_writer<T: SerializeRevisioned>(writer: &mut Vec<u8>, t: &T) -> (r: Result<(), Error>)
    ensures
        r is Ok,
        final(writer)@ == old(writer)@ + T::spec_encode(t.model()),
{
    t.serialize_revisioned(writer)
}

/// Serialize a revisioned type into a vec of bytes
pub fn to_vec<T: SerializeRevisioned>(t: &T) -> (res: Result<Vec<u8>, Error>)
    ensures
        res matches Ok(v) && v@ == T::spec_encode(t.model()),
{
    let mut res = Vec::new();
    match t.serialize_revisioned(&mut res) {
        Ok(()) => {},
        Err(e) => return Err(e),
    }
    assert(res@ == Seq::<u8>::empty() + T::spec_encode(t.model()));
    Ok(res)
}

/// What `to_vec` writes of a value, `from_slice` reads back: a value with the same
/// model, taking every byte written.
pub proof fn lemma_from_slice_to_vec<T: RevisionedRoundTrip>(v: T)
    requires
        T::spec_encode(v.model()).len() <= usize::MAX,
    ensures
        T::spec_decode(T::spec_encode(v.model())) == Ok::<(T::Model, nat), ErrorKind>(
            (v.model(), T::spec_encode(v.model()).len()),
        ),
{
    T::lemma_decode_encode(v, Seq::empty());
    assert(T::spec_encode(v.model()) + Seq::<u8>::empty() == T::spec_encode(v.model()));
}

/// Skipping the bytes that serializing `v` writes passes over exactly those bytes,
/// whatever follows them.
pub proof fn lemma_skip_encoded<T: RevisionedRoundTrip + SkipRevisioned>(v: T, rest: Seq<u8>)
    requires
        T::spec_encode(v.model()).len() <= usize::MAX,
    ensures
        T::spec_skip(T::spec_encode(v.model()) + rest) == Ok::<nat, ErrorKind>(
            T::spec_encode(v.model()).len(),
        ),
{
    T::lemma_decode_encode(v, rest);
    T::lemma_skip_decode(T::spec_encode(v.model()) + rest);
}

} // verus!
