use revision::{DeserializeRevisioned, SerializeRevisioned};

#[test]
fn test_vec() {
	let val: Vec<String> =
		vec![String::from("this"), String::from("is"), String::from("a"), String::from("test")];
	let mut mem: Vec<u8> = vec![];
	val.serialize_revisioned(&mut mem).unwrap();
	assert_eq!(mem.len(), 16);
	let out =
		<Vec<String> as DeserializeRevisioned>::deserialize_revisioned(&mut mem.as_slice())
			.unwrap();
	assert_eq!(val, out);
}

#[test]
fn test_vec_bool() {
	let val = vec![true, false, true, true, false];
	let mut mem: Vec<u8> = vec![];
	val.serialize_revisioned(&mut mem).unwrap();
	let out = <Vec<bool> as DeserializeRevisioned>::deserialize_revisioned(&mut mem.as_slice())
		.unwrap();
	assert_eq!(val, out);
}

#[test]
fn test_vec_string() {
	let val = vec![
		String::from("hello"),
		String::from("world"),
		String::from(""),
		String::from("longer string with spaces and symbols!@#$%"),
		String::from("unicode: 🚀🔥✨"),
	];
	let mut mem: Vec<u8> = vec![];
	val.serialize_revisioned(&mut mem).unwrap();
	let out =
		<Vec<String> as DeserializeRevisioned>::deserialize_revisioned(&mut mem.as_slice())
			.unwrap();
	assert_eq!(val, out);
}

#[test]
fn vecs_test_vec_empty() {
	// Test empty vectors for generic types
	let empty_bool: Vec<bool> = vec![];
	let empty_string: Vec<String> = vec![];

	// Test bool
	let mut mem: Vec<u8> = vec![];
	empty_bool.serialize_revisioned(&mut mem).unwrap();
	let out_bool =
		<Vec<bool> as DeserializeRevisioned>::deserialize_revisioned(&mut mem.as_slice())
			.unwrap();
	assert_eq!(empty_bool, out_bool);

	// Test String
	mem.clear();
	empty_string.serialize_revisioned(&mut mem).unwrap();
	let out_string =
		<Vec<String> as DeserializeRevisioned>::deserialize_revisioned(&mut mem.as_slice())
			.unwrap();
	assert_eq!(empty_string, out_string);
}

#[test]
fn vecs_test_vec_large() {
	// Test large bool vector
	let large_bool: Vec<bool> = (0..100).map(|i| i % 2 == 0).collect();
	let mut mem: Vec<u8> = vec![];
	large_bool.serialize_revisioned(&mut mem).unwrap();
	let out_bool =
		<Vec<bool> as DeserializeRevisioned>::deserialize_revisioned(&mut mem.as_slice())
			.unwrap();
	assert_eq!(large_bool, out_bool);
}

#[test]
fn vecs_test_vec_edge_cases() {
	// Test bool edge cases (all true, all false)
	let all_true = vec![true; 50];
	let mut mem: Vec<u8> = vec![];
	all_true.serialize_revisioned(&mut mem).unwrap();
	let out_true =
		<Vec<bool> as DeserializeRevisioned>::deserialize_revisioned(&mut mem.as_slice())
			.unwrap();
	assert_eq!(all_true, out_true);

	let all_false = vec![false; 50];
	mem.clear();
	all_false.serialize_revisioned(&mut mem).unwrap();
	let out_false =
		<Vec<bool> as DeserializeRevisioned>::deserialize_revisioned(&mut mem.as_slice())
			.unwrap();
	assert_eq!(all_false, out_false);
}
