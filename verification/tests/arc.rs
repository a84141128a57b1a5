use revision::{DeserializeRevisioned, SerializeRevisioned};
use std::sync::Arc;

#[test]
fn test_arc() {
	let val = Arc::new(u32::MAX);
	let mut mem: Vec<u8> = vec![];
	val.serialize_revisioned(&mut mem).unwrap();
	assert_eq!(mem.len(), 5);
	let out = DeserializeRevisioned::deserialize_revisioned(&mut mem.as_slice()).unwrap();
	assert_eq!(val, out);
}

#[test]
fn test_arc_str() {
	let val: Arc<str> = Arc::from("hello world");
	let mut mem: Vec<u8> = vec![];
	val.serialize_revisioned(&mut mem).unwrap();
	assert_eq!(mem.len(), 12); // 11 chars + 1 byte for length encoding
	let out: Arc<str> =
		<Arc<str> as DeserializeRevisioned>::deserialize_revisioned(&mut mem.as_slice())
			.unwrap();
	assert_eq!(val, out);
}
