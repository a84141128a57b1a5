use bincode::Options;
use revision::{from_slice, to_vec, DeserializeRevisioned, SerializeRevisioned};

fn opts() -> impl Options {
	bincode::options()
		.with_no_limit()
		.with_little_endian()
		.with_varint_encoding()
		.reject_trailing_bytes()
}

#[test]
fn bincode_compat_integers() {
	for v in [0u64, 1, 250, 251, 65535, 65536, u32::MAX as u64, u32::MAX as u64 + 1, u64::MAX] {
		assert_eq!(to_vec(&v).unwrap(), opts().serialize(&v).unwrap());
	}
	for v in [0i64, -1, 1, -126, 125, i64::MIN, i64::MAX] {
		assert_eq!(to_vec(&v).unwrap(), opts().serialize(&v).unwrap());
	}
	for v in [0u32, 250, 251, u32::MAX] {
		assert_eq!(to_vec(&v).unwrap(), opts().serialize(&v).unwrap());
	}
	for v in [i128::MIN, -1, 0, i128::MAX] {
		assert_eq!(to_vec(&v).unwrap(), opts().serialize(&v).unwrap());
	}
}

#[test]
fn bincode_compat_char() {
	for c in [char::MAX, '\0', 'z', '0', 'ʘ', 'ꚸ', '𐃌'] {
		assert_eq!(to_vec(&c).unwrap(), opts().serialize(&c).unwrap());
	}
}

#[test]
fn bincode_compat_string() {
	for c in [char::MAX, '\0', 'z', '0', 'ʘ', 'ꚸ', '𐃌'] {
		let s = c.to_string();
		assert_eq!(to_vec(&s).unwrap(), opts().serialize(&s).unwrap());
	}
}

#[test]
fn bincode_compat_compound() {
	let v: (Option<String>, Result<bool, String>, bool) =
		(Some(String::from("x")), Err(String::from("e")), true);
	assert_eq!(to_vec(&v).unwrap(), opts().serialize(&v).unwrap());
	let n: Option<u64> = None;
	assert_eq!(to_vec(&n).unwrap(), opts().serialize(&n).unwrap());
	let strings = vec![String::from("a"), String::from("bc")];
	assert_eq!(to_vec(&strings).unwrap(), opts().serialize(&strings).unwrap());
}

#[test]
fn result_variant_index_errors() {
	// Variant index 2 is refused.
	let r: Result<Result<u8, u8>, revision::Error> = from_slice(&[2, 0]);
	match r {
		Err(revision::Error::Deserialize(m)) => assert_eq!(m, "Unknown variant index"),
		other => panic!("unexpected {:?}", other),
	}
	// A failing value is reported as a deserialization error too.
	let r: Result<Result<bool, u8>, revision::Error> = from_slice(&[0, 9]);
	assert!(matches!(r, Err(revision::Error::Deserialize(_))));
	// Option tags other than 0 and 1 are refused with their value in the message.
	let r: Result<Option<u8>, revision::Error> = from_slice(&[7]);
	match r {
		Err(revision::Error::Deserialize(m)) => assert_eq!(m, "Invalid option value 7"),
		other => panic!("unexpected {:?}", other),
	}
}

#[test]
fn tuples_round_trip() {
	let v = (1u8, -2i16, String::from("three"), vec![4u32], Some('5'), (6u64,));
	let bytes = to_vec(&v).unwrap();
	let out: (u8, i16, String, Vec<u32>, Option<char>, (u64,)) = from_slice(&bytes).unwrap();
	assert_eq!(v, out);
	let unit_bytes = to_vec(&()).unwrap();
	assert!(unit_bytes.is_empty());
}

#[test]
fn test_tuple_2() {
	let val = (String::from("test"), true);
	assert_eq!(to_vec(&val).unwrap(), opts().serialize(&val).unwrap());
	let mut mem: Vec<u8> = vec![];
	val.serialize_revisioned(&mut mem).unwrap();
	assert_eq!(mem.len(), 6);
	let out =
		<(String, bool) as DeserializeRevisioned>::deserialize_revisioned(&mut mem.as_slice()).unwrap();
	assert_eq!(val, out);
}

#[test]
fn string_test_char() {
	let char = '𐃌';
	let mut mem = Vec::new();
	char.serialize_revisioned(&mut mem).unwrap();
	let out: char = DeserializeRevisioned::deserialize_revisioned(&mut mem.as_slice()).unwrap();
	assert_eq!(char, out);
}

#[test]
fn strict_prefixes_fail_to_decode() {
	let range = 7u64..70000u64;
	let bytes = to_vec(&range).unwrap();
	for k in 0..bytes.len() {
		assert!(from_slice::<std::ops::Range<u64>>(&bytes[..k]).is_err());
	}
	let v = vec![String::from("a"), String::from("bc")];
	let bytes = to_vec(&v).unwrap();
	for k in 0..bytes.len() {
		assert!(from_slice::<Vec<String>>(&bytes[..k]).is_err());
	}
}

#[test]
fn strict_prefixes_of_nested_values_fail() {
	let val: Vec<Option<(u16, String)>> = vec![Some((700, "xy".into())), None, Some((1, String::new()))];
	let mem = to_vec(&val).unwrap();
	for k in 0..mem.len() {
		let res = <Vec<Option<(u16, String)>> as DeserializeRevisioned>::deserialize_revisioned(&mut &mem[..k]);
		assert!(res.is_err());
	}
	let arr: [i32; 3] = [-1, 100000, 0];
	let mem = to_vec(&arr).unwrap();
	for k in 0..mem.len() {
		assert!(<[i32; 3] as DeserializeRevisioned>::deserialize_revisioned(&mut &mem[..k]).is_err());
	}
	let words: Vec<u64> = vec![1, 2, 3];
	let mem = to_vec(&words).unwrap();
	for k in 0..mem.len() {
		assert!(<Vec<u64> as DeserializeRevisioned>::deserialize_revisioned(&mut &mem[..k]).is_err());
	}
}
