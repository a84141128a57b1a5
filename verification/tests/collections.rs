use revision::{DeserializeRevisioned, Revisioned, SerializeRevisioned, SkipRevisioned};
use std::collections::{BTreeMap, BTreeSet};

#[test]
fn btreemap_u32_keys_round_trip() {
	let mut val: BTreeMap<u32, Vec<u64>> = BTreeMap::new();
	val.insert(300, vec![1, 2, 3]);
	val.insert(7, vec![]);
	val.insert(42, vec![1000]);
	let mut mem: Vec<u8> = vec![];
	val.serialize_revisioned(&mut mem).unwrap();
	let out =
		<BTreeMap<u32, Vec<u64>> as DeserializeRevisioned>::deserialize_revisioned(&mut mem.as_slice())
			.unwrap();
	assert_eq!(val, out);
}

#[test]
fn btreemap_bytes_are_in_key_order() {
	let mut val: BTreeMap<u8, bool> = BTreeMap::new();
	val.insert(9, true);
	val.insert(2, false);
	val.insert(5, true);
	let mut mem: Vec<u8> = vec![];
	val.serialize_revisioned(&mut mem).unwrap();
	assert_eq!(mem, vec![3, 2, 0, 5, 1, 9, 1]);
}

#[test]
fn btreemap_empty() {
	let val: BTreeMap<u64, String> = BTreeMap::new();
	let mut mem: Vec<u8> = vec![];
	val.serialize_revisioned(&mut mem).unwrap();
	assert_eq!(mem, vec![0]);
	let out =
		<BTreeMap<u64, String> as DeserializeRevisioned>::deserialize_revisioned(&mut mem.as_slice())
			.unwrap();
	assert!(out.is_empty());
}

#[test]
fn btreemap_later_value_wins() {
	// Two entries with the key 1: the second one is kept.
	let mem: Vec<u8> = vec![2, 1, 10, 1, 20];
	let out =
		<BTreeMap<u8, u8> as DeserializeRevisioned>::deserialize_revisioned(&mut mem.as_slice())
			.unwrap();
	assert_eq!(out.len(), 1);
	assert_eq!(out.get(&1), Some(&20));
}

#[test]
fn btreemap_truncated_fails() {
	let mut val: BTreeMap<u16, u16> = BTreeMap::new();
	val.insert(1, 1000);
	val.insert(2, 2000);
	let mut mem: Vec<u8> = vec![];
	val.serialize_revisioned(&mut mem).unwrap();
	for k in 0..mem.len() {
		let res = <BTreeMap<u16, u16> as DeserializeRevisioned>::deserialize_revisioned(
			&mut &mem[..k],
		);
		assert!(res.is_err());
	}
}

#[test]
fn btreemap_skip_passes_over_entries() {
	let mut val: BTreeMap<i64, String> = BTreeMap::new();
	val.insert(-5, "five".into());
	val.insert(12, "twelve".into());
	let mut mem: Vec<u8> = vec![];
	val.serialize_revisioned(&mut mem).unwrap();
	mem.push(77);
	let mut reader = mem.as_slice();
	<BTreeMap<i64, String> as SkipRevisioned>::skip_revisioned(&mut reader).unwrap();
	assert_eq!(reader, &[77]);
	assert_eq!(<BTreeMap<i64, String> as Revisioned>::revision(), 1);
}

#[test]
fn btreeset_round_trip_in_order() {
	let mut val: BTreeSet<u16> = BTreeSet::new();
	val.insert(1000);
	val.insert(3);
	val.insert(250);
	let mut mem: Vec<u8> = vec![];
	val.serialize_revisioned(&mut mem).unwrap();
	assert_eq!(mem, vec![3, 3, 250, 251, 0xe8, 0x03]);
	let out =
		<BTreeSet<u16> as DeserializeRevisioned>::deserialize_revisioned(&mut mem.as_slice()).unwrap();
	assert_eq!(val, out);
}

#[test]
fn btreeset_duplicates_collapse() {
	let mem: Vec<u8> = vec![3, 4, 4, 1];
	let out =
		<BTreeSet<u8> as DeserializeRevisioned>::deserialize_revisioned(&mut mem.as_slice()).unwrap();
	assert_eq!(out.len(), 2);
	assert!(out.contains(&4) && out.contains(&1));
}

#[test]
fn btreeset_skip_and_errors() {
	let mut val: BTreeSet<i32> = BTreeSet::new();
	val.insert(-1);
	val.insert(1);
	let mut mem: Vec<u8> = vec![];
	val.serialize_revisioned(&mut mem).unwrap();
	let mut reader = mem.as_slice();
	<BTreeSet<i32> as SkipRevisioned>::skip_revisioned(&mut reader).unwrap();
	assert!(reader.is_empty());
	let res = <BTreeSet<i32> as DeserializeRevisioned>::deserialize_revisioned(&mut &mem[..2]);
	assert!(res.is_err());
}
