use vstd::prelude::*;
use std::time::Duration;

use crate::implementations::primitives::lemma_encoded_u64_size;
use crate::implementations::vecs::{
    decode_vec_generic, deserialize_vec_generic, encode_vec_generic, serialize_vec_generic,
};
use crate::{
    decode_extent, DeserializeRevisioned, DeserializeRevisionedVec, Error, ErrorKind, Revisioned,
    SerializeRevisioned, SerializeRevisionedVec, SkipRevisioned,
};

verus! {

/// The number of nanoseconds in a second.
pub const NANOS_PER_SEC: u32 = 1_000_000_000u32;

/// The whole seconds of a duration, as `Duration::as_secs` gives them.
pub uninterp spec fn duration_secs(d: Duration) -> u64;

/// The nanoseconds of a duration past its whole seconds, as `Duration::subsec_nanos`
/// gives them.
pub uninterp spec fn duration_subsec_nanos(d: Duration) -> u32;

/// Calls `Duration::as_secs`: the whole seconds of the duration.
#[verifier::external_body]
fn duration_as_secs(d: &Duration) -> (r: u64)
    ensures
        r == duration_secs(*d),
{
    d.as_secs()
}

/// Calls `Duration::subsec_nanos`: the nanoseconds past the whole seconds, which std
/// documents to be less than one second.
#[verifier::external_body]
fn duration_subsec(d: &Duration) -> (r: u32)
    ensures
        r == duration_subsec_nanos(*d),
        r < NANOS_PER_SEC,
{
    d.subsec_nanos()
}

/// Calls `Duration::new`: std documents that nanoseconds beyond a second carry over into
/// the seconds, and that it panics where that carry overflows the seconds, which the
/// `requires` leaves out.
#[verifier::external_body]
fn duration_new(secs: u64, nanos: u32) -> (r: Duration)
    requires
        secs + nanos / NANOS_PER_SEC <= u64::MAX,
    ensures
        duration_secs(r) == secs + nanos / NANOS_PER_SEC,
        duration_subsec_nanos(r) == nanos % NANOS_PER_SEC,
{
    Duration::new(secs, nanos)
}

/// Decoding a duration: its seconds, then its nanoseconds, where nanoseconds beyond a
/// second carry over into the seconds; a carry past the largest `u64` is an overflow.
pub open spec fn decode_duration(input: Seq<u8>) -> Result<((u64, u32), nat), ErrorKind> {
    match <u64 as DeserializeRevisioned>::spec_decode(input) {
        Err(e) => Err(e),
        Ok((secs, n)) => match <u32 as DeserializeRevisioned>::spec_decode(input.skip(n as int)) {
            Err(e) => Err(e),
            Ok((nanos, k)) => if secs + nanos / NANOS_PER_SEC <= u64::MAX {
                Ok(
                    (
                        (
                            (secs + nanos / NANOS_PER_SEC) as u64,
                            (nanos % NANOS_PER_SEC) as u32,
                        ),
                        n + k,
                    ),
                )
            } else {
                Err(ErrorKind::IntegerOverflow)
            },
        },
    }
}

impl Revisioned for Duration {
    /// The whole seconds and the nanoseconds past them.
    type Model = (u64, u32);

    open spec fn model(&self) -> (u64, u32) {
        (duration_secs(*self), duration_subsec_nanos(*self))
    }

    open spec fn spec_revision() -> u16 {
        1
    }

    fn revision() -> (r: u16) {
        1
    }
}

impl SerializeRevisioned for Duration {
    /// The seconds, then the nanoseconds.
    open spec fn spec_encode(m: (u64, u32)) -> Seq<u8> {
        <u64 as SerializeRevisioned>::spec_encode(m.0) + <u32 as SerializeRevisioned>::spec_encode(
            m.1,
        )
    }

    fn serialize_revisioned(&self, writer: &mut Vec<u8>) -> (r: Result<(), Error>) {
        let secs = duration_as_secs(self);
        let nanos = duration_subsec(self);
        let _ = secs.serialize_revisioned(writer);
        let _ = nanos.serialize_revisioned(writer);
        assert(writer@ == old(writer)@ + Self::spec_encode(self.model()));
        Ok(())
    }
}

impl DeserializeRevisioned for Duration {
    /// The seconds, then the nanoseconds, carried as `Duration::new` carries them.
    open spec fn spec_decode(input: Seq<u8>) -> Result<((u64, u32), nat), ErrorKind> {
        decode_duration(input)
    }

    fn deserialize_revisioned(reader: &mut &[u8]) -> (res: Result<Duration, Error>) {
        let ghost input = reader@;
        let secs = match u64::deserialize_revisioned(reader) {
            Ok(s) => s,
            Err(e) => return Err(e),
        };
        let ghost n: nat = (input.len() - reader@.len()) as nat;
        let nanos = match u32::deserialize_revisioned(reader) {
            Ok(x) => x,
            Err(e) => return Err(e),
        };
        let ghost k: nat = (input.len() - n - reader@.len()) as nat;
        assert(input.skip(n as int).skip(k as int) == input.skip((n + k) as int));
        let carry: u64 = (nanos / NANOS_PER_SEC) as u64;
        if secs > u64::MAX - carry {
            return Err(Error::IntegerOverflow);
        }
        Ok(duration_new(secs, nanos))
    }
}

impl SkipRevisioned for Duration {
    /// As far as deserializing goes.
    open spec fn spec_skip(input: Seq<u8>) -> Result<nat, ErrorKind> {
        decode_extent(decode_duration(input))
    }

    fn skip_revisioned(reader: &mut &[u8]) -> (r: Result<(), Error>) {
        match Duration::deserialize_revisioned(reader) {
            Ok(_) => Ok(()),
            Err(e) => Err(e),
        }
    }

    proof fn lemma_skip_decode(input: Seq<u8>) {
    }
}

impl SerializeRevisionedVec for Duration {
    open spec fn spec_encode_vec(ms: Seq<(u64, u32)>) -> Seq<u8> {
        encode_vec_generic::<Duration>(ms)
    }

    fn serialize_revisioned_vec(v: &Vec<Duration>, writer: &mut Vec<u8>) -> (r: Result<(), Error>) {
        serialize_vec_generic(v, writer)
    }
}

impl DeserializeRevisionedVec for Duration {
    open spec fn spec_decode_vec(input: Seq<u8>) -> Result<(Seq<(u64, u32)>, nat), ErrorKind> {
        decode_vec_generic::<Duration>(input)
    }

    fn deserialize_revisioned_vec(reader: &mut &[u8]) -> (res: Result<Vec<Duration>, Error>) {
        deserialize_vec_generic(reader)
    }
}

/// Deserializing the bytes that serializing a duration writes gives back the same whole
/// seconds and nanoseconds, and takes exactly those bytes, whatever follows them.
pub proof fn lemma_duration_round_trip(d: Duration, rest: Seq<u8>)
    requires
        duration_subsec_nanos(d) < NANOS_PER_SEC,
    ensures
        decode_duration(Duration::spec_encode(d.model()) + rest) == Ok::<((u64, u32), nat), ErrorKind>(
            (d.model(), Duration::spec_encode(d.model()).len()),
        ),
{
    let e0 = <u64 as SerializeRevisioned>::spec_encode(duration_secs(d));
    let e1 = <u32 as SerializeRevisioned>::spec_encode(duration_subsec_nanos(d));
    assert(e0 + e1 + rest == e0 + (e1 + rest));
    lemma_encoded_u64_size(duration_secs(d));
    lemma_encoded_u64_size(duration_subsec_nanos(d) as u64);
    <u64 as crate::RevisionedRoundTrip>::lemma_decode_encode(duration_secs(d), e1 + rest);
    assert((e0 + (e1 + rest)).skip(e0.len() as int) == e1 + rest);
    <u32 as crate::RevisionedRoundTrip>::lemma_decode_encode(duration_subsec_nanos(d), rest);
}

/// Decoding any strict prefix of the bytes that serializing a duration writes fails:
/// either the seconds are cut off, or they are read whole and the nanoseconds are cut off.
pub proof fn lemma_duration_prefixes_fail(d: Duration)
    ensures
        crate::strict_prefixes_fail::<Duration>(d.model()),
{
    let secs = duration_secs(d);
    let nanos = duration_subsec_nanos(d);
    let e0 = <u64 as SerializeRevisioned>::spec_encode(secs);
    let e1 = <u32 as SerializeRevisioned>::spec_encode(nanos);
    let e = Duration::spec_encode(d.model());
    assert(e == e0 + e1);
    crate::implementations::primitives::lemma_u64_prefixes_fail(secs);
    crate::implementations::primitives::lemma_u64_prefixes_fail(nanos as u64);
    assert forall|k: int| 0 <= k < e.len() implies (#[trigger] Duration::spec_decode(e.take(k))) is Err by {
        if k < e0.len() {
            assert(e.take(k) == e0.take(k));
            assert(<u64 as DeserializeRevisioned>::spec_decode(e0.take(k)) is Err);
        } else {
            let tail = e1.take(k - e0.len());
            assert(e.take(k) == e0 + tail);
            crate::implementations::primitives::lemma_decode_encode_u64(secs, tail);
            assert((e0 + tail).skip(e0.len() as int) == tail);
            assert(<u64 as DeserializeRevisioned>::spec_decode(
                <u64 as SerializeRevisioned>::spec_encode(nanos as u64).take(k - e0.len()),
            ) is Err);
        }
    }
}

} // verus!
