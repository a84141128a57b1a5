use revision::{to_vec, DeserializeRevisioned, Revisioned, SerializeRevisioned, SkipRevisioned};
use std::collections::{BTreeMap, BTreeSet, HashMap, HashSet};

#[test]
fn hashmap_round_trip() {
	let mut val: HashMap<u32, String> = HashMap::new();
	val.insert(10, "ten".into());
	val.insert(3, "three".into());
	val.insert(70000, "big".into());
	let mut mem: Vec<u8> = vec![];
	val.serialize_revisioned(&mut mem).unwrap();
	let out =
		<HashMap<u32, String> as DeserializeRevisioned>::deserialize_revisioned(&mut mem.as_slice())
			.unwrap();
	assert_eq!(val, out);
	assert_eq!(<HashMap<u32, String> as Revisioned>::revision(), 1);
}

#[test]
fn hashmap_entries_written_in_key_order() {
	let mut val: HashMap<u8, u8> = HashMap::new();
	for k in [9u8, 1, 5, 200, 42] {
		val.insert(k, k / 2);
	}
	let mem = to_vec(&val).unwrap();
	assert_eq!(mem, vec![5, 1, 0, 5, 2, 9, 4, 42, 21, 200, 100]);
}

#[test]
fn hashmap_decodes_any_order_and_later_value_wins() {
	let mem: Vec<u8> = vec![3, 7, 1, 2, 2, 7, 3];
	let out =
		<HashMap<u8, u8> as DeserializeRevisioned>::deserialize_revisioned(&mut mem.as_slice()).unwrap();
	assert_eq!(out.len(), 2);
	assert_eq!(out[&7], 3);
	assert_eq!(out[&2], 2);
}

#[test]
fn hashmap_skip_and_truncation() {
	let mut val: HashMap<i64, bool> = HashMap::new();
	val.insert(-1, true);
	val.insert(1, false);
	let mem = to_vec(&val).unwrap();
	let mut reader = mem.as_slice();
	<HashMap<i64, bool> as SkipRevisioned>::skip_revisioned(&mut reader).unwrap();
	assert!(reader.is_empty());
	for k in 0..mem.len() {
		assert!(<HashMap<i64, bool> as DeserializeRevisioned>::deserialize_revisioned(&mut &mem[..k]).is_err());
	}
}

#[test]
fn hashset_round_trip_sorted_bytes() {
	let mut val: HashSet<u16> = HashSet::new();
	val.insert(300);
	val.insert(4);
	val.insert(17);
	let mem = to_vec(&val).unwrap();
	assert_eq!(mem, vec![3, 4, 17, 251, 0x2c, 0x01]);
	let out = <HashSet<u16> as DeserializeRevisioned>::deserialize_revisioned(&mut mem.as_slice()).unwrap();
	assert_eq!(val, out);
}

#[test]
fn hashset_empty_and_duplicates() {
	let val: HashSet<u64> = HashSet::new();
	assert_eq!(to_vec(&val).unwrap(), vec![0]);
	let mem: Vec<u8> = vec![3, 8, 8, 8];
	let out = <HashSet<u64> as DeserializeRevisioned>::deserialize_revisioned(&mut mem.as_slice()).unwrap();
	assert_eq!(out.len(), 1);
	assert!(out.contains(&8));
}

#[test]
fn hash_and_ordered_collections_share_bytes() {
	let mut h: HashMap<i32, String> = HashMap::new();
	let mut b: BTreeMap<i32, String> = BTreeMap::new();
	for (k, v) in [(5, "e"), (-2, "b"), (40, "x")] {
		h.insert(k, v.into());
		b.insert(k, v.into());
	}
	let hb = to_vec(&h).unwrap();
	assert_eq!(hb, to_vec(&b).unwrap());
	let back = <BTreeMap<i32, String> as DeserializeRevisioned>::deserialize_revisioned(&mut hb.as_slice()).unwrap();
	assert_eq!(back, b);
	let hs: HashSet<u8> = [3u8, 1, 2].into_iter().collect();
	let bs: BTreeSet<u8> = [3u8, 1, 2].into_iter().collect();
	assert_eq!(to_vec(&hs).unwrap(), to_vec(&bs).unwrap());
}
