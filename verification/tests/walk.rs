use revision::{
	to_vec, vec_uses_bulk_encoding, DeserializeRevisioned, Error, LeafWalker, MapWalker, SeqWalker,
	WalkRevisioned,
};
use std::collections::{BTreeMap, BTreeSet};

#[test]
fn bulk_element_types_are_reported() {
	assert!(vec_uses_bulk_encoding::<u32>());
	assert!(vec_uses_bulk_encoding::<bool>());
	assert!(vec_uses_bulk_encoding::<i128>());
	assert!(!vec_uses_bulk_encoding::<String>());
	assert!(!vec_uses_bulk_encoding::<usize>());
	assert!(!vec_uses_bulk_encoding::<Vec<u8>>());
}

#[test]
fn walking_a_bulk_vec_is_refused_without_reading() {
	let bytes = to_vec(&vec![1u32, 2, 3]).unwrap();
	let mut reader = bytes.as_slice();
	let res = <Vec<u32> as WalkRevisioned>::walk_revisioned(&mut reader);
	assert!(matches!(res, Err(Error::Deserialize(_))));
	assert_eq!(reader.len(), bytes.len());
}

#[test]
fn walking_a_vec_of_strings() {
	let val = vec![String::from("a"), String::from("bc"), String::from("def")];
	let bytes = to_vec(&val).unwrap();
	let mut reader = bytes.as_slice();
	let mut walker: SeqWalker<String> =
		<Vec<String> as WalkRevisioned>::walk_revisioned(&mut reader).unwrap();
	assert_eq!(walker.remaining(), 3);
	assert_eq!(walker.decode_next(&mut reader).unwrap().unwrap(), "a");
	walker.skip_next(&mut reader).unwrap().unwrap();
	assert_eq!(walker.decode_next(&mut reader).unwrap().unwrap(), "def");
	assert!(walker.decode_next(&mut reader).is_none());
	assert!(reader.is_empty());
}

#[test]
fn walking_a_map_entry_by_entry() {
	let mut map: BTreeMap<u64, u64> = BTreeMap::new();
	map.insert(5, 0);
	map.insert(9, 99);
	let bytes = to_vec(&map).unwrap();
	let mut reader = bytes.as_slice();
	let mut walker: MapWalker<u64, u64> =
		<BTreeMap<u64, u64> as WalkRevisioned>::walk_revisioned(&mut reader).unwrap();
	let mut found = None;
	while let Some(mut entry) = walker.next_entry() {
		let k = entry.decode_key(&mut reader).unwrap();
		if k == 9 {
			found = Some(entry.decode_value(&mut reader).unwrap());
		} else {
			entry.skip_value(&mut reader).unwrap();
		}
	}
	assert_eq!(found, Some(99));
	assert!(reader.is_empty());
}

#[test]
fn finding_a_key_in_a_map() {
	let mut table: BTreeMap<u32, String> = BTreeMap::new();
	table.insert(1, "alpha".into());
	table.insert(4, "delta".into());
	table.insert(26, "zeta".into());
	let bytes = to_vec(&table).unwrap();

	let mut r = bytes.as_slice();
	let walker: MapWalker<u32, String> =
		<BTreeMap<u32, String> as WalkRevisioned>::walk_revisioned(&mut r).unwrap();
	let leaf: LeafWalker<String> = walker.find(&mut r, &4).unwrap().unwrap();
	assert_eq!(leaf.decode(&mut r).unwrap(), "delta");

	let mut r = bytes.as_slice();
	let walker: MapWalker<u32, String> =
		<BTreeMap<u32, String> as WalkRevisioned>::walk_revisioned(&mut r).unwrap();
	assert!(walker.find(&mut r, &3).unwrap().is_none());

	let mut r = bytes.as_slice();
	let walker: MapWalker<u32, String> =
		<BTreeMap<u32, String> as WalkRevisioned>::walk_revisioned(&mut r).unwrap();
	assert!(walker.find(&mut r, &100).unwrap().is_none());
	assert!(r.is_empty());
}

#[test]
fn peeking_string_bytes_without_decoding() {
	let mut table: BTreeMap<u8, String> = BTreeMap::new();
	table.insert(2, "hello".into());
	let bytes = to_vec(&table).unwrap();
	let mut r = bytes.as_slice();
	let walker: MapWalker<u8, String> =
		<BTreeMap<u8, String> as WalkRevisioned>::walk_revisioned(&mut r).unwrap();
	let leaf = walker.find(&mut r, &2).unwrap().unwrap();
	assert_eq!(leaf.with_bytes(&mut r).unwrap(), b"hello");
	assert!(r.is_empty());
}

#[test]
fn walking_a_set() {
	let mut set: BTreeSet<i16> = BTreeSet::new();
	set.insert(-3);
	set.insert(7);
	let bytes = to_vec(&set).unwrap();
	let mut r = bytes.as_slice();
	let mut walker = <BTreeSet<i16> as WalkRevisioned>::walk_revisioned(&mut r).unwrap();
	assert_eq!(walker.decode_next(&mut r).unwrap().unwrap(), -3);
	assert_eq!(walker.decode_next(&mut r).unwrap().unwrap(), 7);
	assert!(walker.decode_next(&mut r).is_none());
	let again = <BTreeSet<i16> as DeserializeRevisioned>::deserialize_revisioned(&mut bytes.as_slice()).unwrap();
	assert_eq!(again, set);
}

#[test]
fn finding_a_key_by_its_bytes() {
	// A map with string keys in increasing order, its entries written by hand.
	let mut mem: Vec<u8> = vec![3];
	for (k, v) in [("alpha", 1u32), ("delta", 2), ("zeta", 3)] {
		mem.extend(to_vec(&String::from(k)).unwrap());
		mem.extend(to_vec(&v).unwrap());
	}
	let mut r = mem.as_slice();
	let walker: MapWalker<String, u32> = MapWalker::start(&mut r).unwrap();
	let leaf = walker.find_bytes(&mut r, b"delta").unwrap().unwrap();
	assert_eq!(leaf.decode(&mut r).unwrap(), 2);

	let mut r = mem.as_slice();
	let walker: MapWalker<String, u32> = MapWalker::start(&mut r).unwrap();
	assert!(walker.find_bytes(&mut r, b"beta").unwrap().is_none());

	let mut r = mem.as_slice();
	let walker: MapWalker<String, u32> = MapWalker::start(&mut r).unwrap();
	assert!(walker.find_bytes(&mut r, b"zz").unwrap().is_none());
	assert!(r.is_empty());
}
