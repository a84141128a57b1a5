use revision::{DeserializeRevisioned, SerializeRevisioned};

#[test]
fn test_vec_i8() {
	let val = vec![i8::MIN, -1, 0, 1, i8::MAX];
	let mut mem: Vec<u8> = vec![];
	val.serialize_revisioned(&mut mem).unwrap();
	let out = <Vec<i8> as DeserializeRevisioned>::deserialize_revisioned(&mut mem.as_slice())
		.unwrap();
	assert_eq!(val, out);
}

#[test]
fn test_vec_u8() {
	let val = vec![0, 1, 127, 255];
	let mut mem: Vec<u8> = vec![];
	val.serialize_revisioned(&mut mem).unwrap();
	let out = <Vec<u8> as DeserializeRevisioned>::deserialize_revisioned(&mut mem.as_slice())
		.unwrap();
	assert_eq!(val, out);
}

#[test]
fn test_vec_i16() {
	let val = vec![i16::MIN, -1000, 0, 1000, i16::MAX];
	let mut mem: Vec<u8> = vec![];
	val.serialize_revisioned(&mut mem).unwrap();
	let out = <Vec<i16> as DeserializeRevisioned>::deserialize_revisioned(&mut mem.as_slice())
		.unwrap();
	assert_eq!(val, out);
}

#[test]
fn test_vec_u16() {
	let val = vec![0, 1000, 32767, 65535];
	let mut mem: Vec<u8> = vec![];
	val.serialize_revisioned(&mut mem).unwrap();
	let out = <Vec<u16> as DeserializeRevisioned>::deserialize_revisioned(&mut mem.as_slice())
		.unwrap();
	assert_eq!(val, out);
}

#[test]
fn test_vec_i32() {
	let val = vec![i32::MIN, -100000, 0, 100000, i32::MAX];
	let mut mem: Vec<u8> = vec![];
	val.serialize_revisioned(&mut mem).unwrap();
	let out = <Vec<i32> as DeserializeRevisioned>::deserialize_revisioned(&mut mem.as_slice())
		.unwrap();
	assert_eq!(val, out);
}

#[test]
fn test_vec_u32() {
	let val = vec![0, 100000, 2147483647, 4294967295];
	let mut mem: Vec<u8> = vec![];
	val.serialize_revisioned(&mut mem).unwrap();
	let out = <Vec<u32> as DeserializeRevisioned>::deserialize_revisioned(&mut mem.as_slice())
		.unwrap();
	assert_eq!(val, out);
}

#[test]
fn test_vec_i64() {
	let val = vec![i64::MIN, -1000000000, 0, 1000000000, i64::MAX];
	let mut mem: Vec<u8> = vec![];
	val.serialize_revisioned(&mut mem).unwrap();
	let out = <Vec<i64> as DeserializeRevisioned>::deserialize_revisioned(&mut mem.as_slice())
		.unwrap();
	assert_eq!(val, out);
}

#[test]
fn test_vec_u64() {
	let val = vec![0, 1000000000, 9223372036854775807, 18446744073709551615];
	let mut mem: Vec<u8> = vec![];
	val.serialize_revisioned(&mut mem).unwrap();
	let out = <Vec<u64> as DeserializeRevisioned>::deserialize_revisioned(&mut mem.as_slice())
		.unwrap();
	assert_eq!(val, out);
}

#[test]
fn test_vec_i128() {
	let val = vec![i128::MIN, -1000000000000000000, 0, 1000000000000000000, i128::MAX];
	let mut mem: Vec<u8> = vec![];
	val.serialize_revisioned(&mut mem).unwrap();
	let out = <Vec<i128> as DeserializeRevisioned>::deserialize_revisioned(&mut mem.as_slice())
		.unwrap();
	assert_eq!(val, out);
}

#[test]
fn test_vec_u128() {
	let val = vec![0, 1000000000000000000, u128::MAX / 2, u128::MAX];
	let mut mem: Vec<u8> = vec![];
	val.serialize_revisioned(&mut mem).unwrap();
	let out = <Vec<u128> as DeserializeRevisioned>::deserialize_revisioned(&mut mem.as_slice())
		.unwrap();
	assert_eq!(val, out);
}

#[test]
fn specialised_test_vec_large() {
	// Test larger vectors to ensure bulk operations work correctly
	let large_u8: Vec<u8> = (0..=255).collect();
	let mut mem: Vec<u8> = vec![];
	large_u8.serialize_revisioned(&mut mem).unwrap();
	let out = <Vec<u8> as DeserializeRevisioned>::deserialize_revisioned(&mut mem.as_slice())
		.unwrap();
	assert_eq!(large_u8, out);

	// Test large i32 vector
	let large_i32: Vec<i32> = (0..1000).map(|i| i * 2 - 500).collect();
	mem.clear();
	large_i32.serialize_revisioned(&mut mem).unwrap();
	let out_i32 =
		<Vec<i32> as DeserializeRevisioned>::deserialize_revisioned(&mut mem.as_slice())
			.unwrap();
	assert_eq!(large_i32, out_i32);
}

#[test]
fn test_vec_i8_bulk() {
	// Test i8 bulk operations
	let val: Vec<i8> = (-128..=127).collect();
	let mut mem: Vec<u8> = vec![];
	val.serialize_revisioned(&mut mem).unwrap();
	// Length encoding (3 bytes for 256) + 256 bytes of data
	assert_eq!(mem.len(), 3 + 256);
	let out = <Vec<i8> as DeserializeRevisioned>::deserialize_revisioned(&mut mem.as_slice())
		.unwrap();
	assert_eq!(val, out);
}

#[test]
fn test_vec_bool_bitpacked() {
	// Test basic bit-packing
	let val = vec![true, false, true, true, false, false, true, false];
	let mut mem: Vec<u8> = vec![];
	val.serialize_revisioned(&mut mem).unwrap();

	// Length (1 byte for len=8) + 1 byte of packed data = 2 bytes total
	// Without bit-packing would be 1 + 8 = 9 bytes
	assert_eq!(mem.len(), 2, "Bit-packing should use 2 bytes for 8 bools");

	let out = <Vec<bool> as DeserializeRevisioned>::deserialize_revisioned(&mut mem.as_slice())
		.unwrap();
	assert_eq!(val, out);
}

#[test]
fn test_vec_bool_bitpacked_patterns() {
	// Test all false
	let all_false = vec![false; 100];
	let mut mem: Vec<u8> = vec![];
	all_false.serialize_revisioned(&mut mem).unwrap();
	let out = <Vec<bool> as DeserializeRevisioned>::deserialize_revisioned(&mut mem.as_slice())
		.unwrap();
	assert_eq!(all_false, out);

	// Test all true
	let all_true = vec![true; 100];
	mem.clear();
	all_true.serialize_revisioned(&mut mem).unwrap();
	let out = <Vec<bool> as DeserializeRevisioned>::deserialize_revisioned(&mut mem.as_slice())
		.unwrap();
	assert_eq!(all_true, out);

	// Test alternating pattern
	let alternating: Vec<bool> = (0..100).map(|i| i % 2 == 0).collect();
	mem.clear();
	alternating.serialize_revisioned(&mut mem).unwrap();
	let out = <Vec<bool> as DeserializeRevisioned>::deserialize_revisioned(&mut mem.as_slice())
		.unwrap();
	assert_eq!(alternating, out);
}

#[test]
fn test_vec_bool_bitpacked_sizes() {
	// Test various sizes to ensure partial byte handling works
	for size in [0, 1, 7, 8, 9, 15, 16, 17, 63, 64, 65, 100, 255, 256, 1000] {
		let val: Vec<bool> = (0..size).map(|i| (i * 7) % 3 == 0).collect();
		let mut mem: Vec<u8> = vec![];
		val.serialize_revisioned(&mut mem).unwrap();

		// Verify space savings
		if size > 0 {
			let expected_data_bytes = (size + 7) / 8;
			let len_bytes = if size < 251 {
				1
			} else if size < 65536 {
				3
			} else {
				5
			};
			assert_eq!(
				mem.len(),
				len_bytes + expected_data_bytes,
				"Size mismatch for {} bools",
				size
			);
		}

		let out =
			<Vec<bool> as DeserializeRevisioned>::deserialize_revisioned(&mut mem.as_slice())
				.unwrap();
		assert_eq!(val, out, "Mismatch for size {}", size);
	}
}

#[test]
fn test_vec_bool_bitpacked_empty() {
	let empty: Vec<bool> = vec![];
	let mut mem: Vec<u8> = vec![];
	empty.serialize_revisioned(&mut mem).unwrap();
	assert_eq!(mem.len(), 1, "Empty vec should only have length byte");
	let out = <Vec<bool> as DeserializeRevisioned>::deserialize_revisioned(&mut mem.as_slice())
		.unwrap();
	assert_eq!(empty, out);
}

#[test]
fn test_vec_bool_bitpacked_space_efficiency() {
	// Demonstrate space savings
	let large_bool_vec = vec![true; 10000];
	let mut mem: Vec<u8> = vec![];
	large_bool_vec.serialize_revisioned(&mut mem).unwrap();

	// With bit-packing: ~1250 bytes (10000/8)
	// Without: 10000 bytes
	// Savings: ~87.5%
	assert!(
		mem.len() < 1300,
		"Bit-packed 10000 bools should be under 1300 bytes, got {}",
		mem.len()
	);

	let out = <Vec<bool> as DeserializeRevisioned>::deserialize_revisioned(&mut mem.as_slice())
		.unwrap();
	assert_eq!(large_bool_vec, out);
}

#[test]
fn specialised_test_vec_empty() {
	// Empty vectors of the specialised integer types (the floating-point case is not
	// part of this library).
	let empty_i8: Vec<i8> = vec![];
	let empty_u8: Vec<u8> = vec![];
	let empty_i32: Vec<i32> = vec![];

	let mut mem: Vec<u8> = vec![];
	empty_i8.serialize_revisioned(&mut mem).unwrap();
	let out_i8 =
		<Vec<i8> as DeserializeRevisioned>::deserialize_revisioned(&mut mem.as_slice()).unwrap();
	assert_eq!(empty_i8, out_i8);

	mem.clear();
	empty_u8.serialize_revisioned(&mut mem).unwrap();
	let out_u8 =
		<Vec<u8> as DeserializeRevisioned>::deserialize_revisioned(&mut mem.as_slice()).unwrap();
	assert_eq!(empty_u8, out_u8);

	mem.clear();
	empty_i32.serialize_revisioned(&mut mem).unwrap();
	let out_i32 =
		<Vec<i32> as DeserializeRevisioned>::deserialize_revisioned(&mut mem.as_slice()).unwrap();
	assert_eq!(empty_i32, out_i32);
}

#[test]
fn specialised_test_vec_edge_cases() {
	// A single-element vector (the floating-point special values are not part of this
	// library).
	let single_u8 = vec![42u8];
	let mut mem: Vec<u8> = vec![];
	single_u8.serialize_revisioned(&mut mem).unwrap();
	let out =
		<Vec<u8> as DeserializeRevisioned>::deserialize_revisioned(&mut mem.as_slice()).unwrap();
	assert_eq!(single_u8, out);
}
