use vstd::prelude::*;

use crate::ast::text::{chars_of, decimal_digits, push_decimal, string_from_chars};
use crate::implementations::vecs::{
    decode_vec_generic, deserialize_vec_generic, encode_vec_generic,
    lemma_decode_encode_vec_generic, serialize_vec_generic,
};
use crate::{
    DeserializeRevisioned, DeserializeRevisionedVec, Error, ErrorKind, Revisioned,
    RevisionedRoundTrip, RevisionedRoundTripVec, SerializeRevisioned, SerializeRevisionedVec,
};

verus! {

/// The message of the error for an option tag that is neither 0 nor 1.
pub fn invalid_option_message(value: u8) -> (r: String)
    ensures
        r@ == "Invalid option value "@ + decimal_digits(value as nat),
{
    let mut text = chars_of("Invalid option value ");
    push_decimal(&mut text, value as usize);
    string_from_chars(&text)
}

impl<T: Revisioned> Revisioned for Option<T> {
    type Model = Option<T::Model>;

    open spec fn model(&self) -> Option<T::Model> {
        match self {
            Some(v) => Some(v.model()),
            None => None,
        }
    }

    open spec fn spec_revision() -> u16 {
        1
    }

    fn revision() -> (r: u16) {
        1
    }
}

impl<T: SerializeRevisioned> SerializeRevisioned for Option<T> {
    /// A tag byte, 0 for `None` and 1 for `Some`, then the value if there is one.
    open spec fn spec_encode(m: Option<T::Model>) -> Seq<u8> {
        match m {
            Some(x) => seq![1u8] + T::spec_encode(x),
            None => seq![0u8],
        }
    }

    fn serialize_revisioned(&self, writer: &mut Vec<u8>) -> (r: Result<(), Error>) {
        match self {
            Some(value) => {
                writer.push(1u8);
                let r = value.serialize_revisioned(writer);
                assert(writer@ == old(writer)@ + (seq![1u8] + T::spec_encode(value.model())));
                r
            },
            None => {
                writer.push(0u8);
                Ok(())
            },
        }
    }
}

impl<T: DeserializeRevisioned> DeserializeRevisioned for Option<T> {
    /// The tag byte: 0 gives `None`, 1 the value that follows, anything else is refused.
    open spec fn spec_decode(input: Seq<u8>) -> Result<(Option<T::Model>, nat), ErrorKind> {
        if input.len() < 1 {
            Err(ErrorKind::Io)
        } else if input[0] == 0 {
            Ok((None, 1))
        } else if input[0] == 1 {
            match T::spec_decode(input.skip(1)) {
                Ok((m, n)) => Ok((Some(m), n + 1)),
                Err(e) => Err(e),
            }
        } else {
            Err(ErrorKind::Deserialize)
        }
    }

    fn deserialize_revisioned(reader: &mut &[u8]) -> (res: Result<Option<T>, Error>)
        ensures
            old(reader)@.len() >= 1 && old(reader)@[0] > 1 ==> (res matches Err(
                Error::Deserialize(m),
            ) && m@ == "Invalid option value "@ + decimal_digits(old(reader)@[0] as nat)),
    {
        let ghost input = reader@;
        let option = match u8::deserialize_revisioned(reader) {
            Ok(b) => b,
            Err(e) => return Err(e),
        };
        assert(reader@ == input.skip(1));
        match option {
            0u8 => Ok(None),
            1u8 => match T::deserialize_revisioned(reader) {
                Ok(v) => {
                    assert(input.skip(1).skip(T::spec_decode(input.skip(1))->Ok_0.1 as int)
                        == input.skip(T::spec_decode(input.skip(1))->Ok_0.1 + 1int));
                    Ok(Some(v))
                },
                Err(e) => Err(e),
            },
            value => Err(Error::Deserialize(invalid_option_message(value))),
        }
    }
}

impl<T: RevisionedRoundTrip> RevisionedRoundTrip for Option<T> {
    proof fn lemma_decode_encode(v: Option<T>, rest: Seq<u8>) {
        match v {
            Some(x) => {
                let e = T::spec_encode(x.model());
                T::lemma_decode_encode(x, rest);
                assert((seq![1u8] + e + rest).skip(1) == e + rest);
            },
            None => {},
        }
    }
}

impl<T: SerializeRevisioned> SerializeRevisionedVec for Option<T> {
    open spec fn spec_encode_vec(ms: Seq<Option<T::Model>>) -> Seq<u8> {
        encode_vec_generic::<Option<T>>(ms)
    }

    fn serialize_revisioned_vec(v: &Vec<Option<T>>, writer: &mut Vec<u8>) -> (r: Result<(), Error>) {
        serialize_vec_generic(v, writer)
    }
}

impl<T: DeserializeRevisioned> DeserializeRevisionedVec for Option<T> {
    open spec fn spec_decode_vec(input: Seq<u8>) -> Result<(Seq<Option<T::Model>>, nat), ErrorKind> {
        decode_vec_generic::<Option<T>>(input)
    }

    fn deserialize_revisioned_vec(reader: &mut &[u8]) -> (res: Result<Vec<Option<T>>, Error>) {
        deserialize_vec_generic(reader)
    }
}

impl<T: RevisionedRoundTrip> RevisionedRoundTripVec for Option<T> {
    proof fn lemma_decode_encode_vec(vs: Seq<Option<T>>, rest: Seq<u8>) {
        lemma_decode_encode_vec_generic::<Option<T>>(vs, rest);
    }
}

} // verus!
