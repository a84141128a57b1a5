use revision::{DeserializeRevisioned, SerializeRevisioned};

#[test]
fn test_result_ok() {
	let val: Result<bool, String> = Ok(true);
	let mut mem: Vec<u8> = vec![];
	val.serialize_revisioned(&mut mem).unwrap();
	assert_eq!(mem.len(), 2);
	let out = <Result<bool, String> as DeserializeRevisioned>::deserialize_revisioned(&mut mem.as_slice())
		.unwrap();
	assert_eq!(val, out);
}

#[test]
fn test_result_err() {
	let val: Result<bool, String> = Err("some error".into());
	let mut mem: Vec<u8> = vec![];
	val.serialize_revisioned(&mut mem).unwrap();
	assert_eq!(mem.len(), 12);
	let out = <Result<bool, String> as DeserializeRevisioned>::deserialize_revisioned(&mut mem.as_slice())
		.unwrap();
	assert_eq!(val, out);
}
