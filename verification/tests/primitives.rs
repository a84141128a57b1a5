use revision::implementations::primitives::{gazgiz_64, zigzag_64};
use revision::{DeserializeRevisioned, SerializeRevisioned};

#[test]
fn test_zigzag() {
	assert_eq!(zigzag_64(0), 0);
	assert_eq!(zigzag_64(1), 2);
	assert_eq!(zigzag_64(-1), 1);

	assert_eq!(zigzag_64(i64::MIN), u64::MAX);
	assert_eq!(zigzag_64(i64::MAX), u64::MAX - 1);
}

#[test]
fn test_gazgiz() {
	assert_eq!(gazgiz_64(0), 0);
	assert_eq!(gazgiz_64(1), -1);
	assert_eq!(gazgiz_64(2), 1);

	assert_eq!(gazgiz_64(u64::MAX), i64::MIN);
	assert_eq!(gazgiz_64(u64::MAX - 1), i64::MAX);
}

#[test]
fn test_bool() {
	let val = true;
	let mut mem: Vec<u8> = vec![];
	val.serialize_revisioned(&mut mem).unwrap();
	assert_eq!(mem.len(), 1);
	let out = <bool as DeserializeRevisioned>::deserialize_revisioned(&mut mem.as_slice()).unwrap();
	assert_eq!(val, out);
}

#[test]
fn test_isize() {
	let val = isize::MIN;
	let mut mem: Vec<u8> = vec![];
	val.serialize_revisioned(&mut mem).unwrap();
	assert_eq!(mem.len(), 9);
	let out =
		<isize as DeserializeRevisioned>::deserialize_revisioned(&mut mem.as_slice()).unwrap();
	assert_eq!(val, out);
}

#[test]
fn test_i8() {
	let val = i8::MIN;
	let mut mem: Vec<u8> = vec![];
	val.serialize_revisioned(&mut mem).unwrap();
	assert_eq!(mem.len(), 1);
	let out = <i8 as DeserializeRevisioned>::deserialize_revisioned(&mut mem.as_slice()).unwrap();
	assert_eq!(val, out);
}

#[test]
fn test_i16() {
	let val = i16::MIN;
	let mut mem: Vec<u8> = vec![];
	val.serialize_revisioned(&mut mem).unwrap();
	assert_eq!(mem.len(), 3);
	let out = <i16 as DeserializeRevisioned>::deserialize_revisioned(&mut mem.as_slice()).unwrap();
	assert_eq!(val, out);
}

#[test]
fn test_i32() {
	let val = i32::MIN;
	let mut mem: Vec<u8> = vec![];
	val.serialize_revisioned(&mut mem).unwrap();
	assert_eq!(mem.len(), 5);
	let out = <i32 as DeserializeRevisioned>::deserialize_revisioned(&mut mem.as_slice()).unwrap();
	assert_eq!(val, out);
}

#[test]
fn test_i64() {
	let val = i64::MIN;
	let mut mem: Vec<u8> = vec![];
	val.serialize_revisioned(&mut mem).unwrap();
	assert_eq!(mem.len(), 9);
	let out = <i64 as DeserializeRevisioned>::deserialize_revisioned(&mut mem.as_slice()).unwrap();
	assert_eq!(val, out);
}

#[test]
fn test_i128() {
	let val = i128::MIN;
	let mut mem: Vec<u8> = vec![];
	val.serialize_revisioned(&mut mem).unwrap();
	assert_eq!(mem.len(), 17);
	let out =
		<i128 as DeserializeRevisioned>::deserialize_revisioned(&mut mem.as_slice()).unwrap();
	assert_eq!(val, out);
}

#[test]
fn test_usize() {
	let val = usize::MAX;
	let mut mem: Vec<u8> = vec![];
	val.serialize_revisioned(&mut mem).unwrap();
	assert_eq!(mem.len(), 9);
	let out =
		<usize as DeserializeRevisioned>::deserialize_revisioned(&mut mem.as_slice()).unwrap();
	assert_eq!(val, out);
}

#[test]
fn test_u8() {
	let val = u8::MAX;
	let mut mem: Vec<u8> = vec![];
	val.serialize_revisioned(&mut mem).unwrap();
	assert_eq!(mem.len(), 1);
	let out = <u8 as DeserializeRevisioned>::deserialize_revisioned(&mut mem.as_slice()).unwrap();
	assert_eq!(val, out);
}

#[test]
fn test_u16() {
	let val = u16::MAX;
	let mut mem: Vec<u8> = vec![];
	val.serialize_revisioned(&mut mem).unwrap();
	assert_eq!(mem.len(), 3);
	let out = <u16 as DeserializeRevisioned>::deserialize_revisioned(&mut mem.as_slice()).unwrap();
	assert_eq!(val, out);
}

#[test]
fn test_u32() {
	let val = u32::MAX;
	let mut mem: Vec<u8> = vec![];
	val.serialize_revisioned(&mut mem).unwrap();
	assert_eq!(mem.len(), 5);
	let out = <u32 as DeserializeRevisioned>::deserialize_revisioned(&mut mem.as_slice()).unwrap();
	assert_eq!(val, out);
}

#[test]
fn test_u64() {
	let val = u64::MAX;
	let mut mem: Vec<u8> = vec![];
	val.serialize_revisioned(&mut mem).unwrap();
	assert_eq!(mem.len(), 9);
	let out = <u64 as DeserializeRevisioned>::deserialize_revisioned(&mut mem.as_slice()).unwrap();
	assert_eq!(val, out);
}

#[test]
fn test_u128() {
	let val = u128::MAX;
	let mut mem: Vec<u8> = vec![];
	val.serialize_revisioned(&mut mem).unwrap();
	assert_eq!(mem.len(), 17);
	let out =
		<u128 as DeserializeRevisioned>::deserialize_revisioned(&mut mem.as_slice()).unwrap();
	assert_eq!(val, out);
}

#[test]
fn primitives_test_char() {
	let val = char::MAX;
	let mut mem: Vec<u8> = vec![];
	val.serialize_revisioned(&mut mem).unwrap();
	assert_eq!(mem.len(), 4);
	let out = <char as DeserializeRevisioned>::deserialize_revisioned(&mut mem.as_slice()).unwrap();
	assert_eq!(val, out);
}
