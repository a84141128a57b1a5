//! Passing over encoded values without building them.
use vstd::prelude::*;

use std::ops::Range;
use std::sync::Arc;

use crate::implementations::option::invalid_option_message;
use crate::implementations::primitives::{decode_byte_vec, read_buffer};
use crate::implementations::result::bincode_decode_u32;
use crate::implementations::specialised::{packed_len, FixedLe};
use crate::implementations::string::decode_string;
use crate::implementations::vecs::{decode_each, decode_len, decode_vec_generic, spec_decode_len};
use crate::{
    decode_extent, skips_as, DeserializeRevisioned, Error, ErrorKind,
    SkipRevisioned, SkipRevisionedVec,
};

verus! {

/// Passes over `count` bytes; fails with an I/O error, having emptied the reader, when
/// fewer are left.
pub fn advance_read(reader: &mut &[u8], count: usize) -> (r: Result<(), Error>)
    ensures
        skips_as(
            if old(reader)@.len() < count {
                Err(ErrorKind::Io)
            } else {
                Ok(count as nat)
            },
            r,
            old(reader)@,
            final(reader)@,
        ),
{
    match read_buffer(reader, count) {
        Ok(_) => Ok(()),
        Err(e) => Err(e),
    }
}

/// Skipping `n` values one after the other from the front of `input`.
pub open spec fn skip_each<T: SkipRevisioned>(input: Seq<u8>, n: nat) -> Result<nat, ErrorKind>
    decreases n,
{
    if n == 0 {
        Ok(0)
    } else {
        match skip_each::<T>(input, (n - 1) as nat) {
            Err(e) => Err(e),
            Ok(k) => match T::spec_skip(input.skip(k as int)) {
                Err(e) => Err(e),
                Ok(j) => Ok(k + j),
            },
        }
    }
}

/// Skipping a vector encoded element by element: the length, then each element.
pub open spec fn skip_vec_generic<T: SkipRevisioned>(input: Seq<u8>) -> Result<nat, ErrorKind> {
    match spec_decode_len(input) {
        Err(e) => Err(e),
        Ok((len, k)) => match skip_each::<T>(input.skip(k as int), len) {
            Err(e) => Err(e),
            Ok(j) => Ok(k + j),
        },
    }
}

/// Once skipping the first `a` values fails, skipping more fails the same way.
pub proof fn lemma_skip_each_err<T: SkipRevisioned>(input: Seq<u8>, a: nat, b: nat)
    requires
        a <= b,
        skip_each::<T>(input, a) is Err,
    ensures
        skip_each::<T>(input, b) == skip_each::<T>(input, a),
    decreases b - a,
{
    if a < b {
        lemma_skip_each_err::<T>(input, a, (b - 1) as nat);
    }
}

/// Where decoding `n` values succeeds, skipping them passes over the same bytes.
pub proof fn lemma_skip_each_decode<T: SkipRevisioned>(input: Seq<u8>, n: nat)
    ensures
        decode_each::<T>(input, n) matches Ok((ms, k)) ==> skip_each::<T>(input, n) == Ok::<
            nat,
            ErrorKind,
        >(k),
    decreases n,
{
    if n > 0 {
        lemma_skip_each_decode::<T>(input, (n - 1) as nat);
        if let Ok((ms, k)) = decode_each::<T>(input, (n - 1) as nat) {
            T::lemma_skip_decode(input.skip(k as int));
        }
    }
}

/// Where decoding a vector element by element succeeds, skipping it passes over the
/// same bytes.
pub proof fn lemma_skip_vec_generic<T: SkipRevisioned>(input: Seq<u8>)
    ensures
        decode_vec_generic::<T>(input) is Ok ==> skip_vec_generic::<T>(input) == decode_extent(
            decode_vec_generic::<T>(input),
        ),
{
    if let Ok((len, k)) = spec_decode_len(input) {
        lemma_skip_each_decode::<T>(input.skip(k as int), len);
    }
}

/// Skips a vector encoded element by element.
pub fn skip_vec_generic_exec<T: SkipRevisioned>(reader: &mut &[u8]) -> (r: Result<(), Error>)
    ensures
        skips_as(skip_vec_generic::<T>(old(reader)@), r, old(reader)@, final(reader)@),
{
    let ghost input = reader@;
    let len = match decode_len(reader) {
        Ok(len) => len,
        Err(e) => return Err(e),
    };
    let ghost k: nat = (input.len() - reader@.len()) as nat;
    let ghost body = reader@;
    assert(body == input.skip(k as int));
    let mut i: usize = 0;
    let ghost mut consumed: nat = 0;
    while i < len
        invariant
            0 <= i <= len,
            input == old(reader)@,
            body == input.skip(k as int),
            k <= input.len(),
            spec_decode_len(input) == Ok::<(nat, nat), ErrorKind>((len as nat, k)),
            skip_each::<T>(body, i as nat) == Ok::<nat, ErrorKind>(consumed),
            consumed <= body.len(),
            reader@ == body.skip(consumed as int),
        decreases len - i,
    {
        let ghost before = reader@;
        match T::skip_revisioned(reader) {
            Ok(()) => {},
            Err(e) => {
                proof {
                    lemma_skip_each_err::<T>(body, (i + 1) as nat, len as nat);
                }
                return Err(e);
            },
        }
        proof {
            let n = (before.len() - reader@.len()) as nat;
            assert(body.skip(consumed as int).skip(n as int) == body.skip((consumed + n) as int));
            consumed = consumed + n;
        }
        i += 1;
    }
    proof {
        assert(input.skip(k as int).skip(consumed as int) == input.skip((k + consumed) as int));
    }
    Ok(())
}

/// Skipping a length-prefixed run of bytes (a vector of bytes in bulk, a string): the
/// length, then as many bytes.
pub open spec fn skip_length_prefixed(input: Seq<u8>) -> Result<nat, ErrorKind> {
    match spec_decode_len(input) {
        Err(e) => Err(e),
        Ok((len, k)) => if input.len() - k < len {
            Err(ErrorKind::Io)
        } else {
            Ok(k + len)
        },
    }
}

/// Skips a length-prefixed run of bytes.
pub fn skip_length_prefixed_exec(reader: &mut &[u8]) -> (r: Result<(), Error>)
    ensures
        skips_as(skip_length_prefixed(old(reader)@), r, old(reader)@, final(reader)@),
{
    let ghost input = reader@;
    let len = match decode_len(reader) {
        Ok(len) => len,
        Err(e) => return Err(e),
    };
    let ghost k: nat = (input.len() - reader@.len()) as nat;
    let r = advance_read(reader, len);
    proof {
        if input.len() - k >= len {
            assert(input.skip(k as int).skip(len as int) == input.skip((k + len) as int));
        }
    }
    r
}

/// Skipping a bit-packed vector of booleans: the length, then one byte per eight.
pub open spec fn skip_bool_vec(input: Seq<u8>) -> Result<nat, ErrorKind> {
    match spec_decode_len(input) {
        Err(e) => Err(e),
        Ok((len, k)) => if input.len() - k < packed_len(len) {
            Err(ErrorKind::Io)
        } else {
            Ok(k + packed_len(len))
        },
    }
}

/// Skips a bit-packed vector of booleans.
pub fn skip_bool_vec_exec(reader: &mut &[u8]) -> (r: Result<(), Error>)
    ensures
        skips_as(skip_bool_vec(old(reader)@), r, old(reader)@, final(reader)@),
{
    let ghost input = reader@;
    let len = match decode_len(reader) {
        Ok(len) => len,
        Err(e) => return Err(e),
    };
    let ghost k: nat = (input.len() - reader@.len()) as nat;
    let packed = len / 8 + if len % 8 == 0 {
        0
    } else {
        1
    };
    assert(packed == packed_len(len as nat));
    let r = advance_read(reader, packed);
    proof {
        if input.len() - k >= packed {
            assert(input.skip(k as int).skip(packed as int) == input.skip((k + packed) as int));
        }
    }
    r
}

/// Skipping a specialised vector of fixed-width numbers: the length, then as many
/// layouts; a byte count beyond `usize` is an integer overflow.
pub open spec fn skip_fixed_vec<T: FixedLe>(input: Seq<u8>) -> Result<nat, ErrorKind> {
    match spec_decode_len(input) {
        Err(e) => Err(e),
        Ok((len, k)) => {
            let byte_len = len * T::spec_width();
            if byte_len > usize::MAX {
                Err(ErrorKind::IntegerOverflow)
            } else if input.len() - k < byte_len {
                Err(ErrorKind::Io)
            } else {
                Ok(k + byte_len)
            }
        },
    }
}

/// Skips a specialised vector of fixed-width numbers.
pub fn skip_fixed_vec_exec<T: FixedLe>(reader: &mut &[u8]) -> (r: Result<(), Error>)
    ensures
        skips_as(skip_fixed_vec::<T>(old(reader)@), r, old(reader)@, final(reader)@),
{
    let ghost input = reader@;
    let len = match decode_len(reader) {
        Ok(len) => len,
        Err(e) => return Err(e),
    };
    let ghost k: nat = (input.len() - reader@.len()) as nat;
    let w = T::width();
    let byte_len = match len.checked_mul(w) {
        Some(b) => b,
        None => return Err(Error::IntegerOverflow),
    };
    let r = advance_read(reader, byte_len);
    proof {
        if input.len() - k >= byte_len {
            assert(input.skip(k as int).skip(byte_len as int) == input.skip((k + byte_len) as int));
        }
    }
    r
}

impl SkipRevisioned for bool {
    /// As far as deserializing goes.
    open spec fn spec_skip(input: Seq<u8>) -> Result<nat, ErrorKind> {
        decode_extent(<bool as DeserializeRevisioned>::spec_decode(input))
    }

    fn skip_revisioned(reader: &mut &[u8]) -> (r: Result<(), Error>) {
        match <bool as DeserializeRevisioned>::deserialize_revisioned(reader) {
            Ok(_) => Ok(()),
            Err(e) => Err(e),
        }
    }

    proof fn lemma_skip_decode(input: Seq<u8>) {
    }
}

impl SkipRevisionedVec for bool {
    open spec fn spec_skip_vec(input: Seq<u8>) -> Result<nat, ErrorKind> {
        skip_bool_vec(input)
    }

    fn skip_revisioned_vec(reader: &mut &[u8]) -> (r: Result<(), Error>) {
        skip_bool_vec_exec(reader)
    }

    proof fn lemma_skip_decode_vec(input: Seq<u8>) {
        
    }
}

impl SkipRevisioned for usize {
    /// As far as deserializing goes.
    open spec fn spec_skip(input: Seq<u8>) -> Result<nat, ErrorKind> {
        decode_extent(<usize as DeserializeRevisioned>::spec_decode(input))
    }

    fn skip_revisioned(reader: &mut &[u8]) -> (r: Result<(), Error>) {
        match <usize as DeserializeRevisioned>::deserialize_revisioned(reader) {
            Ok(_) => Ok(()),
            Err(e) => Err(e),
        }
    }

    proof fn lemma_skip_decode(input: Seq<u8>) {
    }
}

impl SkipRevisionedVec for usize {
    open spec fn spec_skip_vec(input: Seq<u8>) -> Result<nat, ErrorKind> {
        skip_vec_generic::<usize>(input)
    }

    fn skip_revisioned_vec(reader: &mut &[u8]) -> (r: Result<(), Error>) {
        skip_vec_generic_exec::<usize>(reader)
    }

    proof fn lemma_skip_decode_vec(input: Seq<u8>) {
        lemma_skip_vec_generic::<usize>(input);
    }
}

impl SkipRevisioned for isize {
    /// As far as deserializing goes.
    open spec fn spec_skip(input: Seq<u8>) -> Result<nat, ErrorKind> {
        decode_extent(<isize as DeserializeRevisioned>::spec_decode(input))
    }

    fn skip_revisioned(reader: &mut &[u8]) -> (r: Result<(), Error>) {
        match <isize as DeserializeRevisioned>::deserialize_revisioned(reader) {
            Ok(_) => Ok(()),
            Err(e) => Err(e),
        }
    }

    proof fn lemma_skip_decode(input: Seq<u8>) {
    }
}

impl SkipRevisionedVec for isize {
    open spec fn spec_skip_vec(input: Seq<u8>) -> Result<nat, ErrorKind> {
        skip_vec_generic::<isize>(input)
    }

    fn skip_revisioned_vec(reader: &mut &[u8]) -> (r: Result<(), Error>) {
        skip_vec_generic_exec::<isize>(reader)
    }

    proof fn lemma_skip_decode_vec(input: Seq<u8>) {
        lemma_skip_vec_generic::<isize>(input);
    }
}

impl SkipRevisioned for u8 {
    /// As far as deserializing goes.
    open spec fn spec_skip(input: Seq<u8>) -> Result<nat, ErrorKind> {
        decode_extent(<u8 as DeserializeRevisioned>::spec_decode(input))
    }

    fn skip_revisioned(reader: &mut &[u8]) -> (r: Result<(), Error>) {
        match <u8 as DeserializeRevisioned>::deserialize_revisioned(reader) {
            Ok(_) => Ok(()),
            Err(e) => Err(e),
        }
    }

    proof fn lemma_skip_decode(input: Seq<u8>) {
    }
}

impl SkipRevisionedVec for u8 {
    open spec fn spec_skip_vec(input: Seq<u8>) -> Result<nat, ErrorKind> {
        skip_length_prefixed(input)
    }

    fn skip_revisioned_vec(reader: &mut &[u8]) -> (r: Result<(), Error>) {
        skip_length_prefixed_exec(reader)
    }

    proof fn lemma_skip_decode_vec(input: Seq<u8>) {
        assert(decode_byte_vec(input) is Ok ==> skip_length_prefixed(input) == decode_extent(decode_byte_vec(input)));
    }
}

impl SkipRevisioned for i8 {
    /// As far as deserializing goes.
    open spec fn spec_skip(input: Seq<u8>) -> Result<nat, ErrorKind> {
        decode_extent(<i8 as DeserializeRevisioned>::spec_decode(input))
    }

    fn skip_revisioned(reader: &mut &[u8]) -> (r: Result<(), Error>) {
        match <i8 as DeserializeRevisioned>::deserialize_revisioned(reader) {
            Ok(_) => Ok(()),
            Err(e) => Err(e),
        }
    }

    proof fn lemma_skip_decode(input: Seq<u8>) {
    }
}

impl SkipRevisionedVec for i8 {
    open spec fn spec_skip_vec(input: Seq<u8>) -> Result<nat, ErrorKind> {
        skip_length_prefixed(input)
    }

    fn skip_revisioned_vec(reader: &mut &[u8]) -> (r: Result<(), Error>) {
        skip_length_prefixed_exec(reader)
    }

    proof fn lemma_skip_decode_vec(input: Seq<u8>) {
        assert(decode_byte_vec(input) is Ok ==> skip_length_prefixed(input) == decode_extent(decode_byte_vec(input)));
    }
}

impl SkipRevisioned for u16 {
    /// As far as deserializing goes.
    open spec fn spec_skip(input: Seq<u8>) -> Result<nat, ErrorKind> {
        decode_extent(<u16 as DeserializeRevisioned>::spec_decode(input))
    }

    fn skip_revisioned(reader: &mut &[u8]) -> (r: Result<(), Error>) {
        match <u16 as DeserializeRevisioned>::deserialize_revisioned(reader) {
            Ok(_) => Ok(()),
            Err(e) => Err(e),
        }
    }

    proof fn lemma_skip_decode(input: Seq<u8>) {
    }
}

impl SkipRevisionedVec for u16 {
    open spec fn spec_skip_vec(input: Seq<u8>) -> Result<nat, ErrorKind> {
        skip_fixed_vec::<u16>(input)
    }

    fn skip_revisioned_vec(reader: &mut &[u8]) -> (r: Result<(), Error>) {
        skip_fixed_vec_exec::<u16>(reader)
    }

    proof fn lemma_skip_decode_vec(input: Seq<u8>) {
        
    }
}

impl SkipRevisioned for i16 {
    /// As far as deserializing goes.
    open spec fn spec_skip(input: Seq<u8>) -> Result<nat, ErrorKind> {
        decode_extent(<i16 as DeserializeRevisioned>::spec_decode(input))
    }

    fn skip_revisioned(reader: &mut &[u8]) -> (r: Result<(), Error>) {
        match <i16 as DeserializeRevisioned>::deserialize_revisioned(reader) {
            Ok(_) => Ok(()),
            Err(e) => Err(e),
        }
    }

    proof fn lemma_skip_decode(input: Seq<u8>) {
    }
}

impl SkipRevisionedVec for i16 {
    open spec fn spec_skip_vec(input: Seq<u8>) -> Result<nat, ErrorKind> {
        skip_fixed_vec::<i16>(input)
    }

    fn skip_revisioned_vec(reader: &mut &[u8]) -> (r: Result<(), Error>) {
        skip_fixed_vec_exec::<i16>(reader)
    }

    proof fn lemma_skip_decode_vec(input: Seq<u8>) {
        
    }
}

impl SkipRevisioned for u32 {
    /// As far as deserializing goes.
    open spec fn spec_skip(input: Seq<u8>) -> Result<nat, ErrorKind> {
        decode_extent(<u32 as DeserializeRevisioned>::spec_decode(input))
    }

    fn skip_revisioned(reader: &mut &[u8]) -> (r: Result<(), Error>) {
        match <u32 as DeserializeRevisioned>::deserialize_revisioned(reader) {
            Ok(_) => Ok(()),
            Err(e) => Err(e),
        }
    }

    proof fn lemma_skip_decode(input: Seq<u8>) {
    }
}

impl SkipRevisionedVec for u32 {
    open spec fn spec_skip_vec(input: Seq<u8>) -> Result<nat, ErrorKind> {
        skip_fixed_vec::<u32>(input)
    }

    fn skip_revisioned_vec(reader: &mut &[u8]) -> (r: Result<(), Error>) {
        skip_fixed_vec_exec::<u32>(reader)
    }

    proof fn lemma_skip_decode_vec(input: Seq<u8>) {
        
    }
}

impl SkipRevisioned for i32 {
    /// As far as deserializing goes.
    open spec fn spec_skip(input: Seq<u8>) -> Result<nat, ErrorKind> {
        decode_extent(<i32 as DeserializeRevisioned>::spec_decode(input))
    }

    fn skip_revisioned(reader: &mut &[u8]) -> (r: Result<(), Error>) {
        match <i32 as DeserializeRevisioned>::deserialize_revisioned(reader) {
            Ok(_) => Ok(()),
            Err(e) => Err(e),
        }
    }

    proof fn lemma_skip_decode(input: Seq<u8>) {
    }
}

impl SkipRevisionedVec for i32 {
    open spec fn spec_skip_vec(input: Seq<u8>) -> Result<nat, ErrorKind> {
        skip_fixed_vec::<i32>(input)
    }

    fn skip_revisioned_vec(reader: &mut &[u8]) -> (r: Result<(), Error>) {
        skip_fixed_vec_exec::<i32>(reader)
    }

    proof fn lemma_skip_decode_vec(input: Seq<u8>) {
        
    }
}

impl SkipRevisioned for u64 {
    /// As far as deserializing goes.
    open spec fn spec_skip(input: Seq<u8>) -> Result<nat, ErrorKind> {
        decode_extent(<u64 as DeserializeRevisioned>::spec_decode(input))
    }

    fn skip_revisioned(reader: &mut &[u8]) -> (r: Result<(), Error>) {
        match <u64 as DeserializeRevisioned>::deserialize_revisioned(reader) {
            Ok(_) => Ok(()),
            Err(e) => Err(e),
        }
    }

    proof fn lemma_skip_decode(input: Seq<u8>) {
    }
}

impl SkipRevisionedVec for u64 {
    open spec fn spec_skip_vec(input: Seq<u8>) -> Result<nat, ErrorKind> {
        skip_fixed_vec::<u64>(input)
    }

    fn skip_revisioned_vec(reader: &mut &[u8]) -> (r: Result<(), Error>) {
        skip_fixed_vec_exec::<u64>(reader)
    }

    proof fn lemma_skip_decode_vec(input: Seq<u8>) {
        
    }
}

impl SkipRevisioned for i64 {
    /// As far as deserializing goes.
    open spec fn spec_skip(input: Seq<u8>) -> Result<nat, ErrorKind> {
        decode_extent(<i64 as DeserializeRevisioned>::spec_decode(input))
    }

    fn skip_revisioned(reader: &mut &[u8]) -> (r: Result<(), Error>) {
        match <i64 as DeserializeRevisioned>::deserialize_revisioned(reader) {
            Ok(_) => Ok(()),
            Err(e) => Err(e),
        }
    }

    proof fn lemma_skip_decode(input: Seq<u8>) {
    }
}

impl SkipRevisionedVec for i64 {
    open spec fn spec_skip_vec(input: Seq<u8>) -> Result<nat, ErrorKind> {
        skip_fixed_vec::<i64>(input)
    }

    fn skip_revisioned_vec(reader: &mut &[u8]) -> (r: Result<(), Error>) {
        skip_fixed_vec_exec::<i64>(reader)
    }

    proof fn lemma_skip_decode_vec(input: Seq<u8>) {
        
    }
}

impl SkipRevisioned for u128 {
    /// As far as deserializing goes.
    open spec fn spec_skip(input: Seq<u8>) -> Result<nat, ErrorKind> {
        decode_extent(<u128 as DeserializeRevisioned>::spec_decode(input))
    }

    fn skip_revisioned(reader: &mut &[u8]) -> (r: Result<(), Error>) {
        match <u128 as DeserializeRevisioned>::deserialize_revisioned(reader) {
            Ok(_) => Ok(()),
            Err(e) => Err(e),
        }
    }

    proof fn lemma_skip_decode(input: Seq<u8>) {
    }
}

impl SkipRevisionedVec for u128 {
    open spec fn spec_skip_vec(input: Seq<u8>) -> Result<nat, ErrorKind> {
        skip_fixed_vec::<u128>(input)
    }

    fn skip_revisioned_vec(reader: &mut &[u8]) -> (r: Result<(), Error>) {
        skip_fixed_vec_exec::<u128>(reader)
    }

    proof fn lemma_skip_decode_vec(input: Seq<u8>) {
        
    }
}

impl SkipRevisioned for i128 {
    /// As far as deserializing goes.
    open spec fn spec_skip(input: Seq<u8>) -> Result<nat, ErrorKind> {
        decode_extent(<i128 as DeserializeRevisioned>::spec_decode(input))
    }

    fn skip_revisioned(reader: &mut &[u8]) -> (r: Result<(), Error>) {
        match <i128 as DeserializeRevisioned>::deserialize_revisioned(reader) {
            Ok(_) => Ok(()),
            Err(e) => Err(e),
        }
    }

    proof fn lemma_skip_decode(input: Seq<u8>) {
    }
}

impl SkipRevisionedVec for i128 {
    open spec fn spec_skip_vec(input: Seq<u8>) -> Result<nat, ErrorKind> {
        skip_fixed_vec::<i128>(input)
    }

    fn skip_revisioned_vec(reader: &mut &[u8]) -> (r: Result<(), Error>) {
        skip_fixed_vec_exec::<i128>(reader)
    }

    proof fn lemma_skip_decode_vec(input: Seq<u8>) {
        
    }
}

impl SkipRevisioned for char {
    /// As far as deserializing goes.
    open spec fn spec_skip(input: Seq<u8>) -> Result<nat, ErrorKind> {
        decode_extent(<char as DeserializeRevisioned>::spec_decode(input))
    }

    fn skip_revisioned(reader: &mut &[u8]) -> (r: Result<(), Error>) {
        match <char as DeserializeRevisioned>::deserialize_revisioned(reader) {
            Ok(_) => Ok(()),
            Err(e) => Err(e),
        }
    }

    proof fn lemma_skip_decode(input: Seq<u8>) {
    }
}

impl SkipRevisionedVec for char {
    open spec fn spec_skip_vec(input: Seq<u8>) -> Result<nat, ErrorKind> {
        skip_vec_generic::<char>(input)
    }

    fn skip_revisioned_vec(reader: &mut &[u8]) -> (r: Result<(), Error>) {
        skip_vec_generic_exec::<char>(reader)
    }

    proof fn lemma_skip_decode_vec(input: Seq<u8>) {
        lemma_skip_vec_generic::<char>(input);
    }
}

impl SkipRevisioned for String {
    /// The length, then as many bytes, which are not checked to be UTF-8.
    open spec fn spec_skip(input: Seq<u8>) -> Result<nat, ErrorKind> {
        skip_length_prefixed(input)
    }

    fn skip_revisioned(reader: &mut &[u8]) -> (r: Result<(), Error>) {
        skip_length_prefixed_exec(reader)
    }

    proof fn lemma_skip_decode(input: Seq<u8>) {
        assert(decode_string(input) is Ok ==> skip_length_prefixed(input) == decode_extent(
            decode_string(input),
        ));
    }
}

impl<> SkipRevisionedVec for String {
    open spec fn spec_skip_vec(input: Seq<u8>) -> Result<nat, ErrorKind> {
        skip_vec_generic::<String>(input)
    }

    fn skip_revisioned_vec(reader: &mut &[u8]) -> (r: Result<(), Error>) {
        skip_vec_generic_exec::<String>(reader)
    }

    proof fn lemma_skip_decode_vec(input: Seq<u8>) {
        lemma_skip_vec_generic::<String>(input);
    }
}

impl SkipRevisioned for Arc<str> {
    /// As a `String`.
    open spec fn spec_skip(input: Seq<u8>) -> Result<nat, ErrorKind> {
        skip_length_prefixed(input)
    }

    fn skip_revisioned(reader: &mut &[u8]) -> (r: Result<(), Error>) {
        skip_length_prefixed_exec(reader)
    }

    proof fn lemma_skip_decode(input: Seq<u8>) {
        assert(decode_string(input) is Ok ==> skip_length_prefixed(input) == decode_extent(
            decode_string(input),
        ));
    }
}

impl<T: SkipRevisioned> SkipRevisioned for Option<T> {
    /// The tag byte: 0 is all, 1 is followed by the value, anything else is refused.
    open spec fn spec_skip(input: Seq<u8>) -> Result<nat, ErrorKind> {
        if input.len() < 1 {
            Err(ErrorKind::Io)
        } else if input[0] == 0 {
            Ok(1)
        } else if input[0] == 1 {
            match T::spec_skip(input.skip(1)) {
                Ok(n) => Ok(n + 1),
                Err(e) => Err(e),
            }
        } else {
            Err(ErrorKind::Deserialize)
        }
    }

    fn skip_revisioned(reader: &mut &[u8]) -> (r: Result<(), Error>) {
        let ghost input = reader@;
        let tag = match u8::deserialize_revisioned(reader) {
            Ok(b) => b,
            Err(e) => return Err(e),
        };
        match tag {
            0u8 => Ok(()),
            1u8 => {
                let r = T::skip_revisioned(reader);
                proof {
                    if let Ok(n) = T::spec_skip(input.skip(1)) {
                        assert(input.skip(1).skip(n as int) == input.skip(n + 1int));
                    }
                }
                r
            },
            v => Err(Error::Deserialize(invalid_option_message(v))),
        }
    }

    proof fn lemma_skip_decode(input: Seq<u8>) {
        if input.len() >= 1 && input[0] == 1 {
            T::lemma_skip_decode(input.skip(1));
        }
    }
}

impl<T: SkipRevisioned> SkipRevisionedVec for Option<T> {
    open spec fn spec_skip_vec(input: Seq<u8>) -> Result<nat, ErrorKind> {
        skip_vec_generic::<Option<T>>(input)
    }

    fn skip_revisioned_vec(reader: &mut &[u8]) -> (r: Result<(), Error>) {
        skip_vec_generic_exec::<Option<T>>(reader)
    }

    proof fn lemma_skip_decode_vec(input: Seq<u8>) {
        lemma_skip_vec_generic::<Option<T>>(input);
    }
}

impl<T: SkipRevisioned, E: SkipRevisioned> SkipRevisioned for Result<T, E> {
    /// The variant index, read as this crate's `u32`, then the value of that variant.
    open spec fn spec_skip(input: Seq<u8>) -> Result<nat, ErrorKind> {
        match <u32 as DeserializeRevisioned>::spec_decode(input) {
            Err(e) => Err(e),
            Ok((v, k)) => if v == 0 {
                match T::spec_skip(input.skip(k as int)) {
                    Ok(n) => Ok(k + n),
                    Err(e) => Err(e),
                }
            } else if v == 1 {
                match E::spec_skip(input.skip(k as int)) {
                    Ok(n) => Ok(k + n),
                    Err(e) => Err(e),
                }
            } else {
                Err(ErrorKind::Deserialize)
            },
        }
    }

    fn skip_revisioned(reader: &mut &[u8]) -> (r: Result<(), Error>) {
        let ghost input = reader@;
        let v = match u32::deserialize_revisioned(reader) {
            Ok(v) => v,
            Err(e) => return Err(e),
        };
        let ghost k = <u32 as DeserializeRevisioned>::spec_decode(input)->Ok_0.1;
        let ghost after = reader@;
        if v == 0 {
            let r = T::skip_revisioned(reader);
            proof {
                if let Ok(n) = T::spec_skip(after) {
                    assert(after.skip(n as int) == input.skip((k + n) as int));
                }
            }
            r
        } else if v == 1 {
            let r = E::skip_revisioned(reader);
            proof {
                if let Ok(n) = E::spec_skip(after) {
                    assert(after.skip(n as int) == input.skip((k + n) as int));
                }
            }
            r
        } else {
            Err(Error::Deserialize("Unknown variant index".to_owned()))
        }
    }

    proof fn lemma_skip_decode(input: Seq<u8>) {
        if let Some((v, k)) = bincode_decode_u32(input) {
            T::lemma_skip_decode(input.skip(k as int));
            E::lemma_skip_decode(input.skip(k as int));
        }
    }
}

impl<T: SkipRevisioned, E: SkipRevisioned> SkipRevisionedVec for Result<T, E> {
    open spec fn spec_skip_vec(input: Seq<u8>) -> Result<nat, ErrorKind> {
        skip_vec_generic::<Result<T, E>>(input)
    }

    fn skip_revisioned_vec(reader: &mut &[u8]) -> (r: Result<(), Error>) {
        skip_vec_generic_exec::<Result<T, E>>(reader)
    }

    proof fn lemma_skip_decode_vec(input: Seq<u8>) {
        lemma_skip_vec_generic::<Result<T, E>>(input);
    }
}

impl<T: SkipRevisioned> SkipRevisioned for Box<T> {
    /// As the value held.
    open spec fn spec_skip(input: Seq<u8>) -> Result<nat, ErrorKind> {
        T::spec_skip(input)
    }

    fn skip_revisioned(reader: &mut &[u8]) -> (r: Result<(), Error>) {
        T::skip_revisioned(reader)
    }

    proof fn lemma_skip_decode(input: Seq<u8>) {
        T::lemma_skip_decode(input);
    }
}

impl<T: SkipRevisioned> SkipRevisionedVec for Box<T> {
    open spec fn spec_skip_vec(input: Seq<u8>) -> Result<nat, ErrorKind> {
        skip_vec_generic::<Box<T>>(input)
    }

    fn skip_revisioned_vec(reader: &mut &[u8]) -> (r: Result<(), Error>) {
        skip_vec_generic_exec::<Box<T>>(reader)
    }

    proof fn lemma_skip_decode_vec(input: Seq<u8>) {
        lemma_skip_vec_generic::<Box<T>>(input);
    }
}

impl<T: SkipRevisioned> SkipRevisioned for Arc<T> {
    /// As the value held.
    open spec fn spec_skip(input: Seq<u8>) -> Result<nat, ErrorKind> {
        T::spec_skip(input)
    }

    fn skip_revisioned(reader: &mut &[u8]) -> (r: Result<(), Error>) {
        T::skip_revisioned(reader)
    }

    proof fn lemma_skip_decode(input: Seq<u8>) {
        T::lemma_skip_decode(input);
    }
}

impl<T: SkipRevisioned> SkipRevisionedVec for Arc<T> {
    open spec fn spec_skip_vec(input: Seq<u8>) -> Result<nat, ErrorKind> {
        skip_vec_generic::<Arc<T>>(input)
    }

    fn skip_revisioned_vec(reader: &mut &[u8]) -> (r: Result<(), Error>) {
        skip_vec_generic_exec::<Arc<T>>(reader)
    }

    proof fn lemma_skip_decode_vec(input: Seq<u8>) {
        lemma_skip_vec_generic::<Arc<T>>(input);
    }
}

impl<T: SkipRevisioned> SkipRevisioned for Range<T> {
    /// The start, then the end.
    open spec fn spec_skip(input: Seq<u8>) -> Result<nat, ErrorKind> {
        match T::spec_skip(input) {
            Err(e) => Err(e),
            Ok(n) => match T::spec_skip(input.skip(n as int)) {
                Err(e) => Err(e),
                Ok(k) => Ok(n + k),
            },
        }
    }

    fn skip_revisioned(reader: &mut &[u8]) -> (r: Result<(), Error>) {
        let ghost input = reader@;
        match T::skip_revisioned(reader) {
            Ok(()) => {},
            Err(e) => return Err(e),
        }
        let ghost n = T::spec_skip(input)->Ok_0;
        let r = T::skip_revisioned(reader);
        proof {
            if let Ok(k) = T::spec_skip(input.skip(n as int)) {
                assert(input.skip(n as int).skip(k as int) == input.skip((n + k) as int));
            }
        }
        r
    }

    proof fn lemma_skip_decode(input: Seq<u8>) {
        T::lemma_skip_decode(input);
        if let Ok((m, n)) = T::spec_decode(input) {
            T::lemma_skip_decode(input.skip(n as int));
        }
    }
}

impl<T: SkipRevisioned> SkipRevisionedVec for Range<T> {
    open spec fn spec_skip_vec(input: Seq<u8>) -> Result<nat, ErrorKind> {
        skip_vec_generic::<Range<T>>(input)
    }

    fn skip_revisioned_vec(reader: &mut &[u8]) -> (r: Result<(), Error>) {
        skip_vec_generic_exec::<Range<T>>(reader)
    }

    proof fn lemma_skip_decode_vec(input: Seq<u8>) {
        lemma_skip_vec_generic::<Range<T>>(input);
    }
}

impl<T: SkipRevisionedVec> SkipRevisioned for Vec<T> {
    /// As the element type skips vectors.
    open spec fn spec_skip(input: Seq<u8>) -> Result<nat, ErrorKind> {
        T::spec_skip_vec(input)
    }

    fn skip_revisioned(reader: &mut &[u8]) -> (r: Result<(), Error>) {
        T::skip_revisioned_vec(reader)
    }

    proof fn lemma_skip_decode(input: Seq<u8>) {
        T::lemma_skip_decode_vec(input);
    }
}

impl<T: SkipRevisionedVec> SkipRevisionedVec for Vec<T> {
    open spec fn spec_skip_vec(input: Seq<u8>) -> Result<nat, ErrorKind> {
        skip_vec_generic::<Vec<T>>(input)
    }

    fn skip_revisioned_vec(reader: &mut &[u8]) -> (r: Result<(), Error>) {
        skip_vec_generic_exec::<Vec<T>>(reader)
    }

    proof fn lemma_skip_decode_vec(input: Seq<u8>) {
        lemma_skip_vec_generic::<Vec<T>>(input);
    }
}

impl SkipRevisioned for () {
    /// Nothing.
    open spec fn spec_skip(input: Seq<u8>) -> Result<nat, ErrorKind> {
        Ok(0)
    }

    fn skip_revisioned(reader: &mut &[u8]) -> (r: Result<(), Error>) {
        assert(reader@ == reader@.skip(0));
        Ok(())
    }

    proof fn lemma_skip_decode(input: Seq<u8>) {
    }
}

impl<A: SkipRevisioned> SkipRevisioned for (A,) {
    /// The elements one after the other.
    open spec fn spec_skip(input: Seq<u8>) -> Result<nat, ErrorKind> {
        match A::spec_skip(input) {
            Err(e) => Err(e),
            Ok(n0) => Ok(n0),
        }
    }

    fn skip_revisioned(reader: &mut &[u8]) -> (r: Result<(), Error>) {
        let ghost input = reader@;
        let ghost off0: nat = 0;
        assert(reader@ == input.skip(0));
        match A::skip_revisioned(reader) {
            Ok(()) => {},
            Err(e) => return Err(e),
        }
        let ghost off1: nat = off0 + A::spec_skip(input.skip(off0 as int))->Ok_0;
        assert(input.skip(off0 as int).skip((off1 - off0) as int) == input.skip(off1 as int));
        Ok(())
    }

    proof fn lemma_skip_decode(input: Seq<u8>) {
        A::lemma_skip_decode(input);
        if let Ok((m0, n0)) = A::spec_decode(input) {
            
        }
    }
}

impl<A: SkipRevisioned> SkipRevisionedVec for (A,) {
    open spec fn spec_skip_vec(input: Seq<u8>) -> Result<nat, ErrorKind> {
        skip_vec_generic::<(A,)>(input)
    }

    fn skip_revisioned_vec(reader: &mut &[u8]) -> (r: Result<(), Error>) {
        skip_vec_generic_exec::<(A,)>(reader)
    }

    proof fn lemma_skip_decode_vec(input: Seq<u8>) {
        lemma_skip_vec_generic::<(A,)>(input);
    }
}

impl<A: SkipRevisioned, B: SkipRevisioned> SkipRevisioned for (A, B) {
    /// The elements one after the other.
    open spec fn spec_skip(input: Seq<u8>) -> Result<nat, ErrorKind> {
        match A::spec_skip(input) {
            Err(e) => Err(e),
            Ok(n0) => match B::spec_skip(input.skip((n0) as int)) {
            Err(e) => Err(e),
            Ok(n1) => Ok(n0 + n1),
        },
        }
    }

    fn skip_revisioned(reader: &mut &[u8]) -> (r: Result<(), Error>) {
        let ghost input = reader@;
        let ghost off0: nat = 0;
        assert(reader@ == input.skip(0));
        match A::skip_revisioned(reader) {
            Ok(()) => {},
            Err(e) => return Err(e),
        }
        let ghost off1: nat = off0 + A::spec_skip(input.skip(off0 as int))->Ok_0;
        assert(input.skip(off0 as int).skip((off1 - off0) as int) == input.skip(off1 as int));
        match B::skip_revisioned(reader) {
            Ok(()) => {},
            Err(e) => return Err(e),
        }
        let ghost off2: nat = off1 + B::spec_skip(input.skip(off1 as int))->Ok_0;
        assert(input.skip(off1 as int).skip((off2 - off1) as int) == input.skip(off2 as int));
        Ok(())
    }

    proof fn lemma_skip_decode(input: Seq<u8>) {
        A::lemma_skip_decode(input);
        if let Ok((m0, n0)) = A::spec_decode(input) {
            B::lemma_skip_decode(input.skip((n0) as int));
        if let Ok((m1, n1)) = B::spec_decode(input.skip((n0) as int)) {
            
        }
        }
    }
}

impl<A: SkipRevisioned, B: SkipRevisioned> SkipRevisionedVec for (A, B) {
    open spec fn spec_skip_vec(input: Seq<u8>) -> Result<nat, ErrorKind> {
        skip_vec_generic::<(A, B)>(input)
    }

    fn skip_revisioned_vec(reader: &mut &[u8]) -> (r: Result<(), Error>) {
        skip_vec_generic_exec::<(A, B)>(reader)
    }

    proof fn lemma_skip_decode_vec(input: Seq<u8>) {
        lemma_skip_vec_generic::<(A, B)>(input);
    }
}

impl<A: SkipRevisioned, B: SkipRevisioned, C: SkipRevisioned> SkipRevisioned for (A, B, C) {
    /// The elements one after the other.
    open spec fn spec_skip(input: Seq<u8>) -> Result<nat, ErrorKind> {
        match A::spec_skip(input) {
            Err(e) => Err(e),
            Ok(n0) => match B::spec_skip(input.skip((n0) as int)) {
            Err(e) => Err(e),
            Ok(n1) => match C::spec_skip(input.skip((n0 + n1) as int)) {
            Err(e) => Err(e),
            Ok(n2) => Ok(n0 + n1 + n2),
        },
        },
        }
    }

    fn skip_revisioned(reader: &mut &[u8]) -> (r: Result<(), Error>) {
        let ghost input = reader@;
        let ghost off0: nat = 0;
        assert(reader@ == input.skip(0));
        match A::skip_revisioned(reader) {
            Ok(()) => {},
            Err(e) => return Err(e),
        }
        let ghost off1: nat = off0 + A::spec_skip(input.skip(off0 as int))->Ok_0;
        assert(input.skip(off0 as int).skip((off1 - off0) as int) == input.skip(off1 as int));
        match B::skip_revisioned(reader) {
            Ok(()) => {},
            Err(e) => return Err(e),
        }
        let ghost off2: nat = off1 + B::spec_skip(input.skip(off1 as int))->Ok_0;
        assert(input.skip(off1 as int).skip((off2 - off1) as int) == input.skip(off2 as int));
        match C::skip_revisioned(reader) {
            Ok(()) => {},
            Err(e) => return Err(e),
        }
        let ghost off3: nat = off2 + C::spec_skip(input.skip(off2 as int))->Ok_0;
        assert(input.skip(off2 as int).skip((off3 - off2) as int) == input.skip(off3 as int));
        Ok(())
    }

    proof fn lemma_skip_decode(input: Seq<u8>) {
        A::lemma_skip_decode(input);
        if let Ok((m0, n0)) = A::spec_decode(input) {
            B::lemma_skip_decode(input.skip((n0) as int));
        if let Ok((m1, n1)) = B::spec_decode(input.skip((n0) as int)) {
            C::lemma_skip_decode(input.skip((n0 + n1) as int));
        if let Ok((m2, n2)) = C::spec_decode(input.skip((n0 + n1) as int)) {
            
        }
        }
        }
    }
}

impl<A: SkipRevisioned, B: SkipRevisioned, C: SkipRevisioned> SkipRevisionedVec for (A, B, C) {
    open spec fn spec_skip_vec(input: Seq<u8>) -> Result<nat, ErrorKind> {
        skip_vec_generic::<(A, B, C)>(input)
    }

    fn skip_revisioned_vec(reader: &mut &[u8]) -> (r: Result<(), Error>) {
        skip_vec_generic_exec::<(A, B, C)>(reader)
    }

    proof fn lemma_skip_decode_vec(input: Seq<u8>) {
        lemma_skip_vec_generic::<(A, B, C)>(input);
    }
}

impl<A: SkipRevisioned, B: SkipRevisioned, C: SkipRevisioned, D: SkipRevisioned> SkipRevisioned for (A, B, C, D) {
    /// The elements one after the other.
    open spec fn spec_skip(input: Seq<u8>) -> Result<nat, ErrorKind> {
        match A::spec_skip(input) {
            Err(e) => Err(e),
            Ok(n0) => match B::spec_skip(input.skip((n0) as int)) {
            Err(e) => Err(e),
            Ok(n1) => match C::spec_skip(input.skip((n0 + n1) as int)) {
            Err(e) => Err(e),
            Ok(n2) => match D::spec_skip(input.skip((n0 + n1 + n2) as int)) {
            Err(e) => Err(e),
            Ok(n3) => Ok(n0 + n1 + n2 + n3),
        },
        },
        },
        }
    }

    fn skip_revisioned(reader: &mut &[u8]) -> (r: Result<(), Error>) {
        let ghost input = reader@;
        let ghost off0: nat = 0;
        assert(reader@ == input.skip(0));
        match A::skip_revisioned(reader) {
            Ok(()) => {},
            Err(e) => return Err(e),
        }
        let ghost off1: nat = off0 + A::spec_skip(input.skip(off0 as int))->Ok_0;
        assert(input.skip(off0 as int).skip((off1 - off0) as int) == input.skip(off1 as int));
        match B::skip_revisioned(reader) {
            Ok(()) => {},
            Err(e) => return Err(e),
        }
        let ghost off2: nat = off1 + B::spec_skip(input.skip(off1 as int))->Ok_0;
        assert(input.skip(off1 as int).skip((off2 - off1) as int) == input.skip(off2 as int));
        match C::skip_revisioned(reader) {
            Ok(()) => {},
            Err(e) => return Err(e),
        }
        let ghost off3: nat = off2 + C::spec_skip(input.skip(off2 as int))->Ok_0;
        assert(input.skip(off2 as int).skip((off3 - off2) as int) == input.skip(off3 as int));
        match D::skip_revisioned(reader) {
            Ok(()) => {},
            Err(e) => return Err(e),
        }
        let ghost off4: nat = off3 + D::spec_skip(input.skip(off3 as int))->Ok_0;
        assert(input.skip(off3 as int).skip((off4 - off3) as int) == input.skip(off4 as int));
        Ok(())
    }

    proof fn lemma_skip_decode(input: Seq<u8>) {
        A::lemma_skip_decode(input);
        if let Ok((m0, n0)) = A::spec_decode(input) {
            B::lemma_skip_decode(input.skip((n0) as int));
        if let Ok((m1, n1)) = B::spec_decode(input.skip((n0) as int)) {
            C::lemma_skip_decode(input.skip((n0 + n1) as int));
        if let Ok((m2, n2)) = C::spec_decode(input.skip((n0 + n1) as int)) {
            D::lemma_skip_decode(input.skip((n0 + n1 + n2) as int));
        if let Ok((m3, n3)) = D::spec_decode(input.skip((n0 + n1 + n2) as int)) {
            
        }
        }
        }
        }
    }
}

impl<A: SkipRevisioned, B: SkipRevisioned, C: SkipRevisioned, D: SkipRevisioned> SkipRevisionedVec for (A, B, C, D) {
    open spec fn spec_skip_vec(input: Seq<u8>) -> Result<nat, ErrorKind> {
        skip_vec_generic::<(A, B, C, D)>(input)
    }

    fn skip_revisioned_vec(reader: &mut &[u8]) -> (r: Result<(), Error>) {
        skip_vec_generic_exec::<(A, B, C, D)>(reader)
    }

    proof fn lemma_skip_decode_vec(input: Seq<u8>) {
        lemma_skip_vec_generic::<(A, B, C, D)>(input);
    }
}

impl<A: SkipRevisioned, B: SkipRevisioned, C: SkipRevisioned, D: SkipRevisioned, E: SkipRevisioned> SkipRevisioned for (A, B, C, D, E) {
    /// The elements one after the other.
    open spec fn spec_skip(input: Seq<u8>) -> Result<nat, ErrorKind> {
        match A::spec_skip(input) {
            Err(e) => Err(e),
            Ok(n0) => match B::spec_skip(input.skip((n0) as int)) {
            Err(e) => Err(e),
            Ok(n1) => match C::spec_skip(input.skip((n0 + n1) as int)) {
            Err(e) => Err(e),
            Ok(n2) => match D::spec_skip(input.skip((n0 + n1 + n2) as int)) {
            Err(e) => Err(e),
            Ok(n3) => match E::spec_skip(input.skip((n0 + n1 + n2 + n3) as int)) {
            Err(e) => Err(e),
            Ok(n4) => Ok(n0 + n1 + n2 + n3 + n4),
        },
        },
        },
        },
        }
    }

    fn skip_revisioned(reader: &mut &[u8]) -> (r: Result<(), Error>) {
        let ghost input = reader@;
        let ghost off0: nat = 0;
        assert(reader@ == input.skip(0));
        match A::skip_revisioned(reader) {
            Ok(()) => {},
            Err(e) => return Err(e),
        }
        let ghost off1: nat = off0 + A::spec_skip(input.skip(off0 as int))->Ok_0;
        assert(input.skip(off0 as int).skip((off1 - off0) as int) == input.skip(off1 as int));
        match B::skip_revisioned(reader) {
            Ok(()) => {},
            Err(e) => return Err(e),
        }
        let ghost off2: nat = off1 + B::spec_skip(input.skip(off1 as int))->Ok_0;
        assert(input.skip(off1 as int).skip((off2 - off1) as int) == input.skip(off2 as int));
        match C::skip_revisioned(reader) {
            Ok(()) => {},
            Err(e) => return Err(e),
        }
        let ghost off3: nat = off2 + C::spec_skip(input.skip(off2 as int))->Ok_0;
        assert(input.skip(off2 as int).skip((off3 - off2) as int) == input.skip(off3 as int));
        match D::skip_revisioned(reader) {
            Ok(()) => {},
            Err(e) => return Err(e),
        }
        let ghost off4: nat = off3 + D::spec_skip(input.skip(off3 as int))->Ok_0;
        assert(input.skip(off3 as int).skip((off4 - off3) as int) == input.skip(off4 as int));
        match E::skip_revisioned(reader) {
            Ok(()) => {},
            Err(e) => return Err(e),
        }
        let ghost off5: nat = off4 + E::spec_skip(input.skip(off4 as int))->Ok_0;
        assert(input.skip(off4 as int).skip((off5 - off4) as int) == input.skip(off5 as int));
        Ok(())
    }

    proof fn lemma_skip_decode(input: Seq<u8>) {
        A::lemma_skip_decode(input);
        if let Ok((m0, n0)) = A::spec_decode(input) {
            B::lemma_skip_decode(input.skip((n0) as int));
        if let Ok((m1, n1)) = B::spec_decode(input.skip((n0) as int)) {
            C::lemma_skip_decode(input.skip((n0 + n1) as int));
        if let Ok((m2, n2)) = C::spec_decode(input.skip((n0 + n1) as int)) {
            D::lemma_skip_decode(input.skip((n0 + n1 + n2) as int));
        if let Ok((m3, n3)) = D::spec_decode(input.skip((n0 + n1 + n2) as int)) {
            E::lemma_skip_decode(input.skip((n0 + n1 + n2 + n3) as int));
        if let Ok((m4, n4)) = E::spec_decode(input.skip((n0 + n1 + n2 + n3) as int)) {
            
        }
        }
        }
        }
        }
    }
}

impl<A: SkipRevisioned, B: SkipRevisioned, C: SkipRevisioned, D: SkipRevisioned, E: SkipRevisioned> SkipRevisionedVec for (A, B, C, D, E) {
    open spec fn spec_skip_vec(input: Seq<u8>) -> Result<nat, ErrorKind> {
        skip_vec_generic::<(A, B, C, D, E)>(input)
    }

    fn skip_revisioned_vec(reader: &mut &[u8]) -> (r: Result<(), Error>) {
        skip_vec_generic_exec::<(A, B, C, D, E)>(reader)
    }

    proof fn lemma_skip_decode_vec(input: Seq<u8>) {
        lemma_skip_vec_generic::<(A, B, C, D, E)>(input);
    }
}

impl<A: SkipRevisioned, B: SkipRevisioned, C: SkipRevisioned, D: SkipRevisioned, E: SkipRevisioned, F: SkipRevisioned> SkipRevisioned for (A, B, C, D, E, F) {
    /// The elements one after the other.
    open spec fn spec_skip(input: Seq<u8>) -> Result<nat, ErrorKind> {
        match A::spec_skip(input) {
            Err(e) => Err(e),
            Ok(n0) => match B::spec_skip(input.skip((n0) as int)) {
            Err(e) => Err(e),
            Ok(n1) => match C::spec_skip(input.skip((n0 + n1) as int)) {
            Err(e) => Err(e),
            Ok(n2) => match D::spec_skip(input.skip((n0 + n1 + n2) as int)) {
            Err(e) => Err(e),
            Ok(n3) => match E::spec_skip(input.skip((n0 + n1 + n2 + n3) as int)) {
            Err(e) => Err(e),
            Ok(n4) => match F::spec_skip(input.skip((n0 + n1 + n2 + n3 + n4) as int)) {
            Err(e) => Err(e),
            Ok(n5) => Ok(n0 + n1 + n2 + n3 + n4 + n5),
        },
        },
        },
        },
        },
        }
    }

    fn skip_revisioned(reader: &mut &[u8]) -> (r: Result<(), Error>) {
        let ghost input = reader@;
        let ghost off0: nat = 0;
        assert(reader@ == input.skip(0));
        match A::skip_revisioned(reader) {
            Ok(()) => {},
            Err(e) => return Err(e),
        }
        let ghost off1: nat = off0 + A::spec_skip(input.skip(off0 as int))->Ok_0;
        assert(input.skip(off0 as int).skip((off1 - off0) as int) == input.skip(off1 as int));
        match B::skip_revisioned(reader) {
            Ok(()) => {},
            Err(e) => return Err(e),
        }
        let ghost off2: nat = off1 + B::spec_skip(input.skip(off1 as int))->Ok_0;
        assert(input.skip(off1 as int).skip((off2 - off1) as int) == input.skip(off2 as int));
        match C::skip_revisioned(reader) {
            Ok(()) => {},
            Err(e) => return Err(e),
        }
        let ghost off3: nat = off2 + C::spec_skip(input.skip(off2 as int))->Ok_0;
        assert(input.skip(off2 as int).skip((off3 - off2) as int) == input.skip(off3 as int));
        match D::skip_revisioned(reader) {
            Ok(()) => {},
            Err(e) => return Err(e),
        }
        let ghost off4: nat = off3 + D::spec_skip(input.skip(off3 as int))->Ok_0;
        assert(input.skip(off3 as int).skip((off4 - off3) as int) == input.skip(off4 as int));
        match E::skip_revisioned(reader) {
            Ok(()) => {},
            Err(e) => return Err(e),
        }
        let ghost off5: nat = off4 + E::spec_skip(input.skip(off4 as int))->Ok_0;
        assert(input.skip(off4 as int).skip((off5 - off4) as int) == input.skip(off5 as int));
        match F::skip_revisioned(reader) {
            Ok(()) => {},
            Err(e) => return Err(e),
        }
        let ghost off6: nat = off5 + F::spec_skip(input.skip(off5 as int))->Ok_0;
        assert(input.skip(off5 as int).skip((off6 - off5) as int) == input.skip(off6 as int));
        Ok(())
    }

    proof fn lemma_skip_decode(input: Seq<u8>) {
        A::lemma_skip_decode(input);
        if let Ok((m0, n0)) = A::spec_decode(input) {
            B::lemma_skip_decode(input.skip((n0) as int));
        if let Ok((m1, n1)) = B::spec_decode(input.skip((n0) as int)) {
            C::lemma_skip_decode(input.skip((n0 + n1) as int));
        if let Ok((m2, n2)) = C::spec_decode(input.skip((n0 + n1) as int)) {
            D::lemma_skip_decode(input.skip((n0 + n1 + n2) as int));
        if let Ok((m3, n3)) = D::spec_decode(input.skip((n0 + n1 + n2) as int)) {
            E::lemma_skip_decode(input.skip((n0 + n1 + n2 + n3) as int));
        if let Ok((m4, n4)) = E::spec_decode(input.skip((n0 + n1 + n2 + n3) as int)) {
            F::lemma_skip_decode(input.skip((n0 + n1 + n2 + n3 + n4) as int));
        if let Ok((m5, n5)) = F::spec_decode(input.skip((n0 + n1 + n2 + n3 + n4) as int)) {
            
        }
        }
        }
        }
        }
        }
    }
}

impl<A: SkipRevisioned, B: SkipRevisioned, C: SkipRevisioned, D: SkipRevisioned, E: SkipRevisioned, F: SkipRevisioned> SkipRevisionedVec for (A, B, C, D, E, F) {
    open spec fn spec_skip_vec(input: Seq<u8>) -> Result<nat, ErrorKind> {
        skip_vec_generic::<(A, B, C, D, E, F)>(input)
    }

    fn skip_revisioned_vec(reader: &mut &[u8]) -> (r: Result<(), Error>) {
        skip_vec_generic_exec::<(A, B, C, D, E, F)>(reader)
    }

    proof fn lemma_skip_decode_vec(input: Seq<u8>) {
        lemma_skip_vec_generic::<(A, B, C, D, E, F)>(input);
    }
}

} // verus!
