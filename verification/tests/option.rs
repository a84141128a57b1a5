use revision::{DeserializeRevisioned, SerializeRevisioned};

#[test]
fn test_option_none() {
	let val: Option<String> = None;
	let mut mem: Vec<u8> = vec![];
	val.serialize_revisioned(&mut mem).unwrap();
	assert_eq!(mem.len(), 1);
	let out =
		<Option<String> as DeserializeRevisioned>::deserialize_revisioned(&mut mem.as_slice()).unwrap();
	assert_eq!(val, out);
}

#[test]
fn test_option_some() {
	let val: Option<String> = Some(String::from("this is a test"));
	let mut mem: Vec<u8> = vec![];
	val.serialize_revisioned(&mut mem).unwrap();
	assert_eq!(mem.len(), 16);
	let out =
		<Option<String> as DeserializeRevisioned>::deserialize_revisioned(&mut mem.as_slice()).unwrap();
	assert_eq!(val, out);
}
