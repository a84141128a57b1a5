use revision::{to_vec, DeserializeRevisioned, SerializeRevisioned, SkipRevisioned};
use std::borrow::Cow;

#[test]
fn cow_borrow() {
	let number = 20u8;

	let cow = Cow::Borrowed(&number);
	let mut mem = Vec::new();
	cow.serialize_revisioned(&mut mem).unwrap();
	assert_eq!(mem.len(), 1);
	let out = Cow::<u8>::deserialize_revisioned(&mut mem.as_slice()).unwrap();
	assert!(matches!(out, Cow::Owned(_)));
	assert_eq!(*out, number)
}

#[test]
fn cow_owned() {
	let number = 20u8;

	let cow: Cow<u8> = Cow::Owned(number);
	let mut mem = Vec::new();
	cow.serialize_revisioned(&mut mem).unwrap();
	assert_eq!(mem.len(), 1);
	let out = Cow::<u8>::deserialize_revisioned(&mut mem.as_slice()).unwrap();
	assert!(matches!(out, Cow::Owned(_)));
	assert_eq!(*out, number)
}

#[test]
fn cow_writes_what_it_holds() {
	let text = String::from("held");
	let borrowed: Cow<String> = Cow::Borrowed(&text);
	assert_eq!(to_vec(&borrowed).unwrap(), to_vec(&text).unwrap());
	let mut mem = to_vec(&borrowed).unwrap();
	mem.push(7);
	let mut reader: &[u8] = mem.as_slice();
	<Cow<String> as SkipRevisioned>::skip_revisioned(&mut reader).unwrap();
	assert_eq!(reader, &[7u8][..]);
}
