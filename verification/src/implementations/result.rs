use vstd::prelude::*;

use bincode::Options;

use crate::implementations::primitives::{spec_decode_u64, spec_encode_u64};
use crate::implementations::vecs::{
    decode_vec_generic, deserialize_vec_generic, encode_vec_generic,
    lemma_decode_encode_vec_generic, serialize_vec_generic,
};
use crate::{
    DeserializeRevisioned, DeserializeRevisionedVec, Error, ErrorKind, Revisioned,
    RevisionedRoundTrip, RevisionedRoundTripVec, SerializeRevisioned, SerializeRevisionedVec,
};

verus! {

/// What bincode's variable-length decoding of a `u32` reads from the front of `input`:
/// the value and the number of bytes, or `None` when bincode refuses the input (too
/// short, an unknown marker byte, or a 64-bit value that does not fit in 32 bits).
pub open spec fn bincode_decode_u32(input: Seq<u8>) -> Option<(u32, nat)> {
    match spec_decode_u64(input) {
        Ok((v, n)) => if v <= u32::MAX {
            Some((v as u32, n))
        } else {
            None
        },
        Err(_) => None,
    }
}

/// `bincode::Options::serialize_into` of a `u32`, with the options no limit, little
/// endian, varint encoding, reject trailing bytes, into a vector.
///
/// The claim: the value is appended in bincode's varint encoding (one byte up to 250,
/// else a marker 251, 252 or 253 and 2, 4 or 8 little-endian bytes), which is the
/// encoding of the same value as a `u64`; writing into a `Vec` under no limit does not fail.
/// A failure would be returned as the `Debug` text of bincode's error.
#[verifier::external_body]
fn bincode_serialize_u32(writer: &mut Vec<u8>, v: u32) -> (r: Result<(), String>)
    ensures
        r is Ok,
        final(writer)@ == old(writer)@ + spec_encode_u64(v as u64),
{
    let opts = bincode::options().with_no_limit().with_little_endian().with_varint_encoding()
        .reject_trailing_bytes();
    match opts.serialize_into(&mut *writer, &v) {
        Ok(()) => Ok(()),
        Err(e) => Err(format!("{:?}", e)),
    }
}

/// `bincode::Options::deserialize_from` of a `u32`, with the same options, from a slice.
///
/// The claim: on success the value and the bytes taken are those of
/// [`bincode_decode_u32`], and exactly those bytes are consumed; it fails exactly when
/// [`bincode_decode_u32`] refuses the input, with the `Debug` text of bincode's error.
/// Nothing is stated of the reader after a failure, nor of the text.
#[verifier::external_body]
fn bincode_deserialize_u32(reader: &mut &[u8]) -> (r: Result<u32, String>)
    ensures
        match r {
            Ok(v) => bincode_decode_u32(old(reader)@) matches Some((x, n)) && x == v
                && final(reader)@ == old(reader)@.skip(n as int),
            Err(_) => bincode_decode_u32(old(reader)@) is None,
        },
{
    let opts = bincode::options().with_no_limit().with_little_endian().with_varint_encoding()
        .reject_trailing_bytes();
    match opts.deserialize_from(&mut *reader) {
        Ok(v) => Ok(v),
        Err(e) => Err(format!("{:?}", e)),
    }
}

/// The `Debug` text of an error of this library.
#[verifier::external_body]
fn error_text(e: &Error) -> String {
    format!("{:?}", e)
}

impl<T: Revisioned, E: Revisioned> Revisioned for Result<T, E> {
    type Model = Result<T::Model, E::Model>;

    open spec fn model(&self) -> Result<T::Model, E::Model> {
        match self {
            Ok(v) => Ok(v.model()),
            Err(e) => Err(e.model()),
        }
    }

    open spec fn spec_revision() -> u16 {
        1
    }

    fn revision() -> (r: u16) {
        1
    }
}

impl<T: SerializeRevisioned, E: SerializeRevisioned> SerializeRevisioned for Result<T, E> {
    /// The variant index as a varint `u32`, 0 for `Ok` and 1 for `Err`, then the value.
    open spec fn spec_encode(m: Result<T::Model, E::Model>) -> Seq<u8> {
        match m {
            Ok(v) => spec_encode_u64(0) + T::spec_encode(v),
            Err(e) => spec_encode_u64(1) + E::spec_encode(e),
        }
    }

    fn serialize_revisioned(&self, writer: &mut Vec<u8>) -> (r: Result<(), Error>) {
        match self {
            Ok(v) => {
                match bincode_serialize_u32(writer, 0) {
                    Ok(()) => {},
                    Err(text) => return Err(Error::Serialize(text)),
                }
                let r = v.serialize_revisioned(writer);
                assert(writer@ == old(writer)@ + (spec_encode_u64(0) + T::spec_encode(v.model())));
                r
            },
            Err(e) => {
                match bincode_serialize_u32(writer, 1) {
                    Ok(()) => {},
                    Err(text) => return Err(Error::Serialize(text)),
                }
                let r = e.serialize_revisioned(writer);
                assert(writer@ == old(writer)@ + (spec_encode_u64(1) + E::spec_encode(e.model())));
                r
            },
        }
    }
}

impl<T: DeserializeRevisioned, E: DeserializeRevisioned> DeserializeRevisioned for Result<T, E> {
    /// The variant index, then the value of that variant. Every refusal, of the index or
    /// of the value, is reported as a deserialization error.
    open spec fn spec_decode(input: Seq<u8>) -> Result<(Result<T::Model, E::Model>, nat), ErrorKind> {
        match bincode_decode_u32(input) {
            None => Err(ErrorKind::Deserialize),
            Some((variant, k)) => if variant == 0 {
                match T::spec_decode(input.skip(k as int)) {
                    Ok((m, n)) => Ok((Ok(m), k + n)),
                    Err(_) => Err(ErrorKind::Deserialize),
                }
            } else if variant == 1 {
                match E::spec_decode(input.skip(k as int)) {
                    Ok((m, n)) => Ok((Err(m), k + n)),
                    Err(_) => Err(ErrorKind::Deserialize),
                }
            } else {
                Err(ErrorKind::Deserialize)
            },
        }
    }

    fn deserialize_revisioned(reader: &mut &[u8]) -> (res: Result<Result<T, E>, Error>)
        ensures
            (bincode_decode_u32(old(reader)@) matches Some((v, _)) && v > 1) ==> (res matches Err(
                Error::Deserialize(m),
            ) && m@ == "Unknown variant index"@),
    {
        let ghost input = reader@;
        let variant = match bincode_deserialize_u32(reader) {
            Ok(v) => v,
            Err(text) => return Err(Error::Deserialize(text)),
        };
        let ghost k = bincode_decode_u32(input)->Some_0.1;
        let ghost after = reader@;
        if variant == 0 {
            match T::deserialize_revisioned(reader) {
                Ok(v) => {
                    assert(after.skip(T::spec_decode(after)->Ok_0.1 as int) == input.skip(
                        (k + T::spec_decode(after)->Ok_0.1) as int,
                    ));
                    Ok(Ok(v))
                },
                Err(err) => Err(Error::Deserialize(error_text(&err))),
            }
        } else if variant == 1 {
            match E::deserialize_revisioned(reader) {
                Ok(v) => {
                    assert(after.skip(E::spec_decode(after)->Ok_0.1 as int) == input.skip(
                        (k + E::spec_decode(after)->Ok_0.1) as int,
                    ));
                    Ok(Err(v))
                },
                Err(err) => Err(Error::Deserialize(error_text(&err))),
            }
        } else {
            Err(Error::Deserialize("Unknown variant index".to_owned()))
        }
    }
}

impl<T: RevisionedRoundTrip, E: RevisionedRoundTrip> RevisionedRoundTrip for Result<T, E> {
    proof fn lemma_decode_encode(v: Result<T, E>, rest: Seq<u8>) {
        match v {
            Ok(x) => {
                let e = T::spec_encode(x.model());
                assert(spec_encode_u64(0) == seq![0u8]);
                T::lemma_decode_encode(x, rest);
                assert((seq![0u8] + e + rest).skip(1) == e + rest);
            },
            Err(x) => {
                let e = E::spec_encode(x.model());
                assert(spec_encode_u64(1) == seq![1u8]);
                E::lemma_decode_encode(x, rest);
                assert((seq![1u8] + e + rest).skip(1) == e + rest);
            },
        }
    }
}

impl<T: SerializeRevisioned, E: SerializeRevisioned> SerializeRevisionedVec for Result<T, E> {
    open spec fn spec_encode_vec(ms: Seq<Result<T::Model, E::Model>>) -> Seq<u8> {
        encode_vec_generic::<Result<T, E>>(ms)
    }

    fn serialize_revisioned_vec(v: &Vec<Result<T, E>>, writer: &mut Vec<u8>) -> (r: Result<
        (),
        Error,
    >) {
        serialize_vec_generic(v, writer)
    }
}

impl<T: DeserializeRevisioned, E: DeserializeRevisioned> DeserializeRevisionedVec for Result<T, E> {
    open spec fn spec_decode_vec(input: Seq<u8>) -> Result<
        (Seq<Result<T::Model, E::Model>>, nat),
        ErrorKind,
    > {
        decode_vec_generic::<Result<T, E>>(input)
    }

    fn deserialize_revisioned_vec(reader: &mut &[u8]) -> (res: Result<Vec<Result<T, E>>, Error>) {
        deserialize_vec_generic(reader)
    }
}

impl<T: RevisionedRoundTrip, E: RevisionedRoundTrip> RevisionedRoundTripVec for Result<T, E> {
    proof fn lemma_decode_encode_vec(vs: Seq<Result<T, E>>, rest: Seq<u8>) {
        lemma_decode_encode_vec_generic::<Result<T, E>>(vs, rest);
    }
}

} // verus!
