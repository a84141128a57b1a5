use revision::{
	to_vec, DeserializeRevisioned, SerializeRevisioned, SkipCheckRevisioned, SkipRevisioned,
};
use std::ops::Range;

#[test]
fn skip_extracts_one_field() {
	// A struct at revision 1 with a large field before the one wanted.
	let mut bytes = Vec::new();
	1u16.serialize_revisioned(&mut bytes).unwrap();
	vec![1u8, 2, 3].serialize_revisioned(&mut bytes).unwrap();
	42u64.serialize_revisioned(&mut bytes).unwrap();
	let mut reader = bytes.as_slice();
	let _revision = u16::deserialize_revisioned(&mut reader).unwrap();
	<Vec<u8> as SkipRevisioned>::skip_revisioned(&mut reader).unwrap();
	assert_eq!(u64::deserialize_revisioned(&mut reader).unwrap(), 42);
	assert!(reader.is_empty());
}

#[test]
fn skip_passes_over_what_deserialize_reads() {
	let value: (Option<String>, Vec<bool>, Range<i64>, Result<u32, String>) =
		(Some(String::from("hello")), vec![true; 17], -5..300, Err(String::from("e")));
	let mut bytes = to_vec(&value).unwrap();
	bytes.push(0xAA);
	let mut skipped = bytes.as_slice();
	<(Option<String>, Vec<bool>, Range<i64>, Result<u32, String>) as SkipRevisioned>::skip_revisioned(
		&mut skipped,
	)
	.unwrap();
	assert_eq!(skipped, &[0xAA]);
	let mut checked = bytes.as_slice();
	<(Option<String>, Vec<bool>, Range<i64>, Result<u32, String>) as SkipCheckRevisioned>::skip_check_revisioned(&mut checked)
	.unwrap();
	assert_eq!(checked, &[0xAA]);
}

#[test]
fn skip_does_not_check_utf8_but_skip_check_does() {
	let bytes = vec![2u8, 0xFF, 0xFE, 7];
	let mut reader = bytes.as_slice();
	<String as SkipRevisioned>::skip_revisioned(&mut reader).unwrap();
	assert_eq!(reader, &[7]);
	let mut reader = bytes.as_slice();
	assert!(<String as SkipCheckRevisioned>::skip_check_revisioned(&mut reader).is_err());
}

#[test]
fn skip_errors() {
	let mut reader: &[u8] = &[2];
	assert!(matches!(
		<Option<u8> as SkipRevisioned>::skip_revisioned(&mut reader),
		Err(revision::Error::Deserialize(_))
	));
	let mut reader: &[u8] = &[5, 1, 2];
	assert!(matches!(
		<Vec<u8> as SkipRevisioned>::skip_revisioned(&mut reader),
		Err(revision::Error::Io(_))
	));
	// A length whose byte count overflows `usize`.
	let mut huge = vec![253u8];
	huge.extend_from_slice(&u64::MAX.to_le_bytes());
	let mut reader = huge.as_slice();
	assert!(matches!(
		<Vec<u32> as SkipRevisioned>::skip_revisioned(&mut reader),
		Err(revision::Error::IntegerOverflow)
	));
	let mut reader: &[u8] = &[2, 0];
	assert!(matches!(
		<Result<u8, u8> as SkipRevisioned>::skip_revisioned(&mut reader),
		Err(revision::Error::Deserialize(_))
	));
}
