use revision::{DeserializeRevisioned, SerializeRevisioned};

#[test]
fn test_box() {
	let val: Box<String> = Box::new(String::from("this is a test"));
	let mut mem: Vec<u8> = vec![];
	val.serialize_revisioned(&mut mem).unwrap();
	assert_eq!(mem.len(), 15);
	let out =
		<Box<String> as DeserializeRevisioned>::deserialize_revisioned(&mut mem.as_slice())
			.unwrap();
	assert_eq!(val, out);
}
