use revision::{DeserializeRevisioned, Revisioned, SerializeRevisioned};
use std::time::Duration;

#[test]
fn duration_test_string() {
	let val = Duration::from_secs(604800);
	let mut mem: Vec<u8> = vec![];
	val.serialize_revisioned(&mut mem).unwrap();
	assert_eq!(mem.len(), 6);
	let out = <Duration as DeserializeRevisioned>::deserialize_revisioned(&mut mem.as_slice())
		.unwrap();
	assert_eq!(val, out);
}

#[test]
fn duration_bytes_are_seconds_then_nanos() {
	let val = Duration::new(3, 999_999_999);
	let mut mem: Vec<u8> = vec![];
	val.serialize_revisioned(&mut mem).unwrap();
	assert_eq!(mem, vec![3, 252, 0xff, 0xc9, 0x9a, 0x3b]);
	let out = <Duration as DeserializeRevisioned>::deserialize_revisioned(&mut mem.as_slice())
		.unwrap();
	assert_eq!(val, out);
	assert_eq!(<Duration as Revisioned>::revision(), 1);
}

#[test]
fn duration_extremes_round_trip() {
	for val in [Duration::ZERO, Duration::MAX, Duration::new(u64::MAX, 0), Duration::new(0, 999_999_999)] {
		let mut mem: Vec<u8> = vec![];
		val.serialize_revisioned(&mut mem).unwrap();
		let out = <Duration as DeserializeRevisioned>::deserialize_revisioned(&mut mem.as_slice())
			.unwrap();
		assert_eq!(val, out);
	}
}

#[test]
fn duration_nanos_carry_into_seconds() {
	// 1 second and 2_500_000_000 nanoseconds: the excess carries over.
	let mut mem: Vec<u8> = vec![1];
	u32::serialize_revisioned(&2_500_000_000u32, &mut mem).unwrap();
	let out = <Duration as DeserializeRevisioned>::deserialize_revisioned(&mut mem.as_slice())
		.unwrap();
	assert_eq!(out, Duration::new(3, 500_000_000));
}

#[test]
fn duration_carry_overflow_is_an_error() {
	let mut mem: Vec<u8> = vec![];
	u64::MAX.serialize_revisioned(&mut mem).unwrap();
	u32::serialize_revisioned(&1_000_000_000u32, &mut mem).unwrap();
	let res = <Duration as DeserializeRevisioned>::deserialize_revisioned(&mut mem.as_slice());
	assert!(matches!(res, Err(revision::Error::IntegerOverflow)));
}
