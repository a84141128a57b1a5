use revision::{from_slice, to_vec, DeserializeRevisioned, Error, SerializeRevisioned, SkipRevisioned};

#[test]
fn array_of_integers_round_trips() {
	let val: [u32; 4] = [0, 1, 250, 70000];
	let mem = to_vec(&val).unwrap();
	// Elements one after the other, no length prefix.
	assert_eq!(mem, vec![0, 1, 250, 252, 0x70, 0x11, 0x01, 0x00]);
	let out: [u32; 4] = from_slice(&mem).unwrap();
	assert_eq!(val, out);
}

#[test]
fn array_of_booleans_round_trips() {
	let val: [bool; 3] = [true, false, true];
	let mut mem: Vec<u8> = vec![];
	val.serialize_revisioned(&mut mem).unwrap();
	assert_eq!(mem, vec![1, 0, 1]);
	let out = <[bool; 3] as DeserializeRevisioned>::deserialize_revisioned(&mut mem.as_slice())
		.unwrap();
	assert_eq!(val, out);
}

#[test]
fn largest_array_round_trips() {
	let mut val: [u8; 32] = [0; 32];
	for (i, b) in val.iter_mut().enumerate() {
		*b = i as u8;
	}
	let mem = to_vec(&val).unwrap();
	assert_eq!(mem.len(), 32);
	let out: [u8; 32] = from_slice(&mem).unwrap();
	assert_eq!(val, out);
}

#[test]
fn short_array_input_fails() {
	let mem: Vec<u8> = vec![1, 2];
	let out = from_slice::<[u8; 3]>(&mem);
	assert!(matches!(out, Err(Error::Io(_))));
}

#[test]
fn array_skip_consumes_its_encoding() {
	let val: [u64; 2] = [5, 300];
	let mut mem = to_vec(&val).unwrap();
	mem.push(9);
	let mut reader: &[u8] = mem.as_slice();
	<[u64; 2] as SkipRevisioned>::skip_revisioned(&mut reader).unwrap();
	assert_eq!(reader, &[9u8][..]);
}

#[test]
fn vec_of_arrays_round_trips() {
	let val: Vec<[i16; 2]> = vec![[1, -1], [300, -300]];
	let mem = to_vec(&val).unwrap();
	let out: Vec<[i16; 2]> = from_slice(&mem).unwrap();
	assert_eq!(val, out);
}
