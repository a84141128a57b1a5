use revision::implementations::heap::BinaryHeap;
use revision::{to_vec, DeserializeRevisioned, Revisioned, SkipRevisioned};

#[test]
fn heap_pushes_keep_the_largest_at_the_root() {
	let mut h: BinaryHeap<u32> = BinaryHeap::new();
	for x in [1u32, 5, 3, 9, 2, 9] {
		h.push(x);
	}
	assert_eq!(h.len(), 6);
	assert_eq!(h.as_slice()[0], 9);
	let mut std_heap = std::collections::BinaryHeap::new();
	for x in [1u32, 5, 3, 9, 2, 9] {
		std_heap.push(x);
	}
	assert_eq!(h.as_slice(), std_heap.into_vec().as_slice());
}

#[test]
fn heap_bytes_follow_the_held_order() {
	let mut h: BinaryHeap<u8> = BinaryHeap::new();
	for x in [1u8, 5, 3] {
		h.push(x);
	}
	let mem = to_vec(&h).unwrap();
	assert_eq!(mem, vec![3, 5, 1, 3]);
	let out = <BinaryHeap<u8> as DeserializeRevisioned>::deserialize_revisioned(&mut mem.as_slice()).unwrap();
	assert_eq!(out.as_slice(), h.as_slice());
	assert_eq!(<BinaryHeap<u8> as Revisioned>::revision(), 1);
}

#[test]
fn heap_decoding_rebuilds_from_any_order() {
	let mem: Vec<u8> = vec![4, 1, 2, 3, 4];
	let out = <BinaryHeap<u8> as DeserializeRevisioned>::deserialize_revisioned(&mut mem.as_slice()).unwrap();
	assert_eq!(out.as_slice(), &[4, 3, 2, 1]);
	let mut reader = mem.as_slice();
	<BinaryHeap<u8> as SkipRevisioned>::skip_revisioned(&mut reader).unwrap();
	assert!(reader.is_empty());
	assert!(<BinaryHeap<u8> as DeserializeRevisioned>::deserialize_revisioned(&mut &mem[..3]).is_err());
}
