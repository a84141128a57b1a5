use vstd::prelude::*;
use vstd::string::*;
use vstd::utf8::*;

use crate::implementations::primitives::{read_buffer, write_all};
use crate::implementations::vecs::{
    decode_len, decode_vec_generic, deserialize_vec_generic, encode_vec_generic,
    lemma_decode_encode_len, lemma_decode_encode_vec_generic, serialize_bytes,
    serialize_vec_generic, spec_decode_len, spec_encode_len,
};
use crate::{
    DeserializeRevisioned, DeserializeRevisionedVec, Error, ErrorKind, Revisioned,
    RevisionedRoundTrip, RevisionedRoundTripVec, SerializeRevisioned, SerializeRevisionedVec,
};

verus! {

broadcast use group_utf8_lib;

/// `std::str::from_utf8`: the bytes as a string slice, when they are UTF-8.
///
/// The contract states what std documents: the result is `Ok` exactly when the bytes are
/// well-formed UTF-8 (vstd's `valid_utf8`), and then holds the characters they encode.
/// Nothing is stated of the error value.
#[verifier::external_body]
fn str_from_utf8(bytes: &[u8]) -> (r: Result<&str, std::str::Utf8Error>)
    ensures
        r is Ok <==> valid_utf8(bytes@),
        r matches Ok(s) ==> s@ == decode_utf8(bytes@),
{
    std::str::from_utf8(bytes)
}

/// A string: the length of its UTF-8 bytes, then the bytes.
pub open spec fn encode_string(chars: Seq<char>) -> Seq<u8> {
    spec_encode_len(encode_utf8(chars).len()) + encode_utf8(chars)
}

/// Decoding a string: the length, then as many bytes, which must be UTF-8.
pub open spec fn decode_string(input: Seq<u8>) -> Result<(Seq<char>, nat), ErrorKind> {
    match spec_decode_len(input) {
        Err(e) => Err(e),
        Ok((len, k)) => if input.len() - k < len {
            Err(ErrorKind::Io)
        } else {
            let bytes = input.subrange(k as int, (k + len) as int);
            if valid_utf8(bytes) {
                Ok((decode_utf8(bytes), k + len))
            } else {
                Err(ErrorKind::Utf8Error)
            }
        },
    }
}

impl Revisioned for String {
    type Model = Seq<char>;

    open spec fn model(&self) -> Seq<char> {
        self@
    }

    open spec fn spec_revision() -> u16 {
        1
    }

    fn revision() -> (r: u16) {
        1
    }
}

impl SerializeRevisioned for String {
    open spec fn spec_encode(m: Seq<char>) -> Seq<u8> {
        encode_string(m)
    }

    fn serialize_revisioned(&self, writer: &mut Vec<u8>) -> (r: Result<(), Error>) {
        serialize_bytes(self.as_str().as_bytes(), writer)
    }
}

impl DeserializeRevisioned for String {
    open spec fn spec_decode(input: Seq<u8>) -> Result<(Seq<char>, nat), ErrorKind> {
        decode_string(input)
    }

    fn deserialize_revisioned(reader: &mut &[u8]) -> (res: Result<String, Error>) {
        let ghost input = reader@;
        let len = match decode_len(reader) {
            Ok(len) => len,
            Err(e) => return Err(e),
        };
        let ghost k: nat = (input.len() - reader@.len()) as nat;
        if len == 0 {
            assert(input.subrange(k as int, k as int) == Seq::<u8>::empty());
            assert(reader@ == input.skip(k as int));
            return Ok(String::new());
        }
        let bytes = match read_buffer(reader, len) {
            Ok(b) => b,
            Err(e) => return Err(e),
        };
        assert(bytes@ == input.subrange(k as int, (k + len) as int));
        assert(reader@ == input.skip((k + len) as int));
        match str_from_utf8(bytes) {
            Ok(s) => Ok(s.to_owned()),
            Err(x) => Err(Error::Utf8Error(x)),
        }
    }
}

/// Decoding the encoding of the characters `chars` gives them back, and takes exactly
/// the bytes written.
pub proof fn lemma_decode_encode_string(chars: Seq<char>, rest: Seq<u8>)
    requires
        encode_string(chars).len() <= usize::MAX,
    ensures
        decode_string(encode_string(chars) + rest) == Ok::<(Seq<char>, nat), ErrorKind>(
            (chars, encode_string(chars).len()),
        ),
{
    let bytes = encode_utf8(chars);
    let l = spec_encode_len(bytes.len());
    assert(l + bytes + rest == l + (bytes + rest));
    lemma_decode_encode_len(bytes.len(), bytes + rest);
    assert((l + (bytes + rest)).subrange(l.len() as int, (l.len() + bytes.len()) as int)
        == bytes);
}

impl RevisionedRoundTrip for String {
    proof fn lemma_decode_encode(v: String, rest: Seq<u8>) {
        lemma_decode_encode_string(v@, rest);
    }
}

impl SerializeRevisionedVec for String {
    open spec fn spec_encode_vec(ms: Seq<Seq<char>>) -> Seq<u8> {
        encode_vec_generic::<String>(ms)
    }

    fn serialize_revisioned_vec(v: &Vec<String>, writer: &mut Vec<u8>) -> (r: Result<(), Error>) {
        serialize_vec_generic(v, writer)
    }
}

impl DeserializeRevisionedVec for String {
    open spec fn spec_decode_vec(input: Seq<u8>) -> Result<(Seq<Seq<char>>, nat), ErrorKind> {
        decode_vec_generic::<String>(input)
    }

    fn deserialize_revisioned_vec(reader: &mut &[u8]) -> (res: Result<Vec<String>, Error>) {
        deserialize_vec_generic(reader)
    }
}

impl RevisionedRoundTripVec for String {
    proof fn lemma_decode_encode_vec(vs: Seq<String>, rest: Seq<u8>) {
        lemma_decode_encode_vec_generic::<String>(vs, rest);
    }
}

// ---------------------------------------------------------------------------
// Characters
// ---------------------------------------------------------------------------

/// The number of bytes of a UTF-8 sequence that starts with `b`, read from the bit
/// pattern of the leading byte; 0 when `b` cannot start one.
pub open spec fn spec_char_length(b: u8) -> nat {
    if b & 0x80 == 0 {
        1
    } else if b & 0xE0 == 0xC0 {
        2
    } else if b & 0xF0 == 0xE0 {
        3
    } else if b & 0xF8 == 0xF0 {
        4
    } else {
        0
    }
}

/// The number of bytes of a UTF-8 sequence that starts with `b`; 0 when `b` cannot start one.
pub fn char_length(b: u8) -> (r: u8)
    ensures
        r == spec_char_length(b),
{
    if b & 0x80 == 0 {
        1
    } else if b & 0xE0 == 0xC0 {
        2
    } else if b & 0xF0 == 0xE0 {
        3
    } else if b & 0xF8 == 0xF0 {
        4
    } else {
        0
    }
}

/// Decoding a character: its UTF-8 bytes, as many as the leading byte announces,
/// which must form one well-formed character.
pub open spec fn decode_char(input: Seq<u8>) -> Result<(char, nat), ErrorKind> {
    if input.len() < 1 {
        Err(ErrorKind::Io)
    } else if spec_char_length(input[0]) == 0 {
        Err(ErrorKind::InvalidCharEncoding)
    } else if input.len() < spec_char_length(input[0]) {
        Err(ErrorKind::Io)
    } else {
        let bytes = input.take(spec_char_length(input[0]) as int);
        if valid_utf8(bytes) {
            Ok((decode_utf8(bytes)[0], spec_char_length(input[0])))
        } else {
            Err(ErrorKind::InvalidCharEncoding)
        }
    }
}

/// Appends the UTF-8 encoding of `c`.
pub fn encode_char_utf8(c: char, writer: &mut Vec<u8>)
    ensures
        final(writer)@ == old(writer)@ + encode_utf8(seq![c]),
{
    let v = c as u32;
    proof {
        char_is_scalar(c);
        assert(encode_utf8(seq![c]) == encode_scalar(v) + encode_utf8(seq![c].drop_first()));
        assert(seq![c].drop_first() == Seq::<char>::empty());
        assert(encode_utf8(seq![c]) == encode_scalar(v));
    }
    if v <= 0x7F {
        writer.push((v & 0x7F) as u8);
    } else if v <= 0x7FF {
        writer.push(0xC0 | ((v >> 6) & 0x1F) as u8);
        writer.push(0x80 | (v & 0x3F) as u8);
    } else if v <= 0xFFFF {
        writer.push(0xE0 | ((v >> 12) & 0x0F) as u8);
        writer.push(0x80 | ((v >> 6) & 0x3F) as u8);
        writer.push(0x80 | (v & 0x3F) as u8);
    } else {
        writer.push(0xF0 | ((v >> 18) & 0x7) as u8);
        writer.push(0x80 | ((v >> 12) & 0x3F) as u8);
        writer.push(0x80 | ((v >> 6) & 0x3F) as u8);
        writer.push(0x80 | (v & 0x3F) as u8);
    }
}

impl Revisioned for char {
    type Model = char;

    open spec fn model(&self) -> char {
        *self
    }

    open spec fn spec_revision() -> u16 {
        1
    }

    fn revision() -> (r: u16) {
        1
    }
}

impl SerializeRevisioned for char {
    /// The UTF-8 bytes of the character.
    open spec fn spec_encode(m: char) -> Seq<u8> {
        encode_utf8(seq![m])
    }

    fn serialize_revisioned(&self, writer: &mut Vec<u8>) -> (r: Result<(), Error>) {
        encode_char_utf8(*self, writer);
        Ok(())
    }
}

impl DeserializeRevisioned for char {
    open spec fn spec_decode(input: Seq<u8>) -> Result<(char, nat), ErrorKind> {
        decode_char(input)
    }

    fn deserialize_revisioned(reader: &mut &[u8]) -> (res: Result<char, Error>) {
        let ghost input = reader@;
        let first = match read_buffer(reader, 1) {
            Ok(b) => b[0],
            Err(e) => return Err(e),
        };
        let len = char_length(first);
        if len == 0 {
            return Err(Error::InvalidCharEncoding);
        }
        let rest = match read_buffer(reader, (len - 1) as usize) {
            Ok(b) => b,
            Err(e) => return Err(e),
        };
        let mut buffer: Vec<u8> = Vec::new();
        buffer.push(first);
        write_all(&mut buffer, rest);
        let ghost bytes = input.take(len as int);
        assert(buffer@ == bytes);
        assert(reader@ == input.skip(len as int));
        match str_from_utf8(buffer.as_slice()) {
            Ok(s) => {
                proof {
                    assert(bytes.len() > 0);
                    assert(decode_utf8(bytes).len() > 0);
                }
                Ok(s.get_char(0))
            },
            Err(_) => Err(Error::InvalidCharEncoding),
        }
    }
}

/// The leading byte of a character's UTF-8 encoding announces the encoding's length.
pub proof fn lemma_char_length_of_encoding(c: char)
    ensures
        encode_utf8(seq![c]).len() > 0,
        spec_char_length(encode_utf8(seq![c])[0]) == encode_utf8(seq![c]).len(),
{
    let v = c as u32;
    char_is_scalar(c);
    assert(encode_utf8(seq![c]) == encode_scalar(v) + encode_utf8(seq![c].drop_first()));
    assert(seq![c].drop_first() == Seq::<char>::empty());
    assert(encode_utf8(seq![c]) == encode_scalar(v));
    if has_width_1_encoding(v) {
        let b = (v & 0x7F) as u8;
        assert(b & 0x80 == 0) by (bit_vector)
            requires
                b == (v & 0x7F) as u8,
                v <= 0x7F,
        ;
    } else if has_width_2_encoding(v) {
        let b = 0xC0 | ((v >> 6) & 0x1F) as u8;
        assert(b & 0x80 != 0 && b & 0xE0 == 0xC0) by (bit_vector)
            requires
                b == 0xC0 | ((v >> 6) & 0x1F) as u8,
        ;
    } else if has_width_3_encoding(v) {
        let b = 0xE0 | ((v >> 12) & 0x0F) as u8;
        assert(b & 0x80 != 0 && b & 0xE0 != 0xC0 && b & 0xF0 == 0xE0) by (bit_vector)
            requires
                b == 0xE0 | ((v >> 12) & 0x0F) as u8,
        ;
    } else {
        let b = 0xF0 | ((v >> 18) & 0x7) as u8;
        assert(b & 0x80 != 0 && b & 0xE0 != 0xC0 && b & 0xF0 != 0xE0 && b & 0xF8 == 0xF0)
            by (bit_vector)
            requires
                b == 0xF0 | ((v >> 18) & 0x7) as u8,
        ;
    }
}

impl RevisionedRoundTrip for char {
    proof fn lemma_decode_encode(v: char, rest: Seq<u8>) {
        let e = encode_utf8(seq![v]);
        lemma_char_length_of_encoding(v);
        assert((e + rest).take(e.len() as int) == e);
        assert((e + rest)[0] == e[0]);
        assert(decode_utf8(e) == seq![v]);
    }
}

impl SerializeRevisionedVec for char {
    open spec fn spec_encode_vec(ms: Seq<char>) -> Seq<u8> {
        encode_vec_generic::<char>(ms)
    }

    fn serialize_revisioned_vec(v: &Vec<char>, writer: &mut Vec<u8>) -> (r: Result<(), Error>) {
        serialize_vec_generic(v, writer)
    }
}

impl DeserializeRevisionedVec for char {
    open spec fn spec_decode_vec(input: Seq<u8>) -> Result<(Seq<char>, nat), ErrorKind> {
        decode_vec_generic::<char>(input)
    }

    fn deserialize_revisioned_vec(reader: &mut &[u8]) -> (res: Result<Vec<char>, Error>) {
        deserialize_vec_generic(reader)
    }
}

impl RevisionedRoundTripVec for char {
    proof fn lemma_decode_encode_vec(vs: Seq<char>, rest: Seq<u8>) {
        lemma_decode_encode_vec_generic::<char>(vs, rest);
    }
}

} // verus!
