use revision::expand::context::EncodingContext;
use revision::expand::optimised::enum_codegen::emit_enum_deserialize;
use revision::expand::optimised::struct_codegen::FieldStep;
use revision::ast::attributes::{FieldOption, FieldOptions, AttributeOptions, VariantOption, VariantOptions, VariantSize};
use revision::ast::history::{Encoding, HistoryEntry};
use revision::ast::item::{Enum, Field, FieldName, Fields, Item, ItemKind, Struct, Variant};
use revision::expand::optimised::enum_codegen::EnumArm;
use revision::expand::optimised::wire::{
	check_offsets, indexed_field, read_struct_payload, read_variant, write_struct, write_variant,
};
use revision::expand::walk::{
	emit_enum_methods, emit_struct_methods, emit_walk_impl, FieldRead, IntoVariant, WalkStart,
};
use revision::{to_vec, Error};

fn arm(id: u8, size: VariantSize) -> EnumArm {
	EnumArm {
		variant: id as usize,
		id,
		size,
		fields: vec![],
	}
}

#[test]
fn optimised_enum_bytes() {
	let mut w = Vec::new();
	write_variant(&arm(0, VariantSize::Inline), &[], &mut w).unwrap();
	assert_eq!(w, vec![0x00]);
	let mut w = Vec::new();
	write_variant(&arm(1, VariantSize::Fixed(16)), &[0u8; 16], &mut w).unwrap();
	let mut expected = vec![0x21];
	expected.extend_from_slice(&[0u8; 16]);
	assert_eq!(w, expected);
	let payload = to_vec(&String::from("hi")).unwrap();
	let mut w = Vec::new();
	write_variant(&arm(2, VariantSize::Varlen), &payload, &mut w).unwrap();
	assert_eq!(w, vec![0x42, 3, 0, 0, 0, 2, b'h', b'i']);
}

#[test]
fn optimised_enum_read_back_and_refusals() {
	let sizes = vec![(0u8, VariantSize::Inline), (1, VariantSize::Fixed(2)), (2, VariantSize::Varlen)];
	let bytes = vec![0x42, 3, 0, 0, 0, 2, b'h', b'i', 9];
	let mut reader: &[u8] = &bytes;
	let (k, p) = read_variant(&sizes, &mut reader).unwrap();
	assert_eq!((k, p), (2, &[2, b'h', b'i'][..]));
	assert_eq!(reader, &[9u8][..]);
	let bytes = vec![0x21, 7, 8];
	let mut reader: &[u8] = &bytes;
	assert_eq!(read_variant(&sizes, &mut reader).unwrap(), (1, &[7u8, 8][..]));
	// Size class 3 names none.
	let mut reader: &[u8] = &[0x60];
	assert!(matches!(read_variant(&sizes, &mut reader), Err(Error::InvalidOptimisedTag)));
	// Variant 1 is not inline.
	let mut reader: &[u8] = &[0x01];
	assert!(matches!(read_variant(&sizes, &mut reader), Err(Error::Deserialize(_))));
	// A fixed payload cut short.
	let mut reader: &[u8] = &[0x21, 7];
	assert!(matches!(read_variant(&sizes, &mut reader), Err(Error::Io(_))));
}

#[test]
fn optimised_struct_bytes() {
	let fields = vec![vec![1u8], vec![2, 3]];
	let mut w = Vec::new();
	write_struct(true, &fields, &mut w).unwrap();
	assert_eq!(w, vec![11, 0, 0, 0, 8, 0, 0, 0, 9, 0, 0, 0, 1, 2, 3]);
	let mut w = Vec::new();
	write_struct(false, &fields, &mut w).unwrap();
	assert_eq!(w, vec![3, 0, 0, 0, 1, 2, 3]);
	let mut reader: &[u8] = &[11, 0, 0, 0, 8, 0, 0, 0, 9, 0, 0, 0, 1, 2, 3, 4];
	assert_eq!(read_struct_payload(8, &mut reader).unwrap(), &[1u8, 2, 3][..]);
	assert_eq!(reader, &[4u8][..]);
	// A payload shorter than its offset table.
	let mut reader: &[u8] = &[4, 0, 0, 0, 8, 0, 0, 0];
	assert!(matches!(read_struct_payload(8, &mut reader), Err(Error::OptimisedSubReaderOverrun)));
	let mut reader: &[u8] = &[9, 0, 0, 0, 1];
	assert!(matches!(read_struct_payload(0, &mut reader), Err(Error::Io(_))));
}

#[test]
fn indexed_offset_table() {
	let payload = [8u8, 0, 0, 0, 9, 0, 0, 0, 1, 2, 3];
	check_offsets(&payload, 2).unwrap();
	assert_eq!(indexed_field(&payload, 2, 0), &[1u8][..]);
	assert_eq!(indexed_field(&payload, 2, 1), &[2u8, 3][..]);
	assert!(matches!(check_offsets(&payload[..6], 2), Err(Error::OptimisedSubReaderOverrun)));
	let bad = [9u8, 0, 0, 0, 8, 0, 0, 0, 1, 2, 3];
	assert!(matches!(check_offsets(&bad, 2), Err(Error::OptimisedOffsetsNonMonotonic)));
	let far = [8u8, 0, 0, 0, 40, 0, 0, 0, 1, 2, 3];
	assert!(matches!(
		check_offsets(&far, 2),
		Err(Error::OptimisedOffsetOutOfRange {
			offset: 40,
			payload_len: 11
		})
	));
}

fn field(name: &str, options: Vec<FieldOption>) -> Field {
	Field {
		name: FieldName::Ident(String::from(name)),
		attrs: FieldOptions::finish(options).unwrap(),
	}
}

#[test]
fn struct_walker_field_methods() {
	let s = Struct {
		name: String::from("Shape"),
		fields: Fields::Named(vec![
			field("kind", vec![]),
			field("flags", vec![FieldOption::Start(2)]),
			field("label", vec![FieldOption::Start(2), FieldOption::Default(String::from("default_label"))]),
		]),
	};
	let m = emit_struct_methods(2, &s);
	// At wire revision 2 every field is read.
	assert!(m.iter().all(|f| f.decode_on_wire(2) == FieldRead::Read));
	// At wire revision 1 the later fields are built without reading.
	assert_eq!(m[0].decode_on_wire(1), FieldRead::Read);
	assert_eq!(m[1].decode_on_wire(1), FieldRead::DefaultValue);
	assert_eq!(m[2].decode_on_wire(1), FieldRead::DefaultFn);
	assert!(m[0].skip_on_wire(1));
	assert!(!m[1].skip_on_wire(1));
	assert!(m[1].walk_refused(false, 1));
	assert!(!m[1].walk_refused(false, 2));
	assert!(m[0].walk_refused(true, 2));
}

fn unit_or(name: &str, fields: Fields) -> Variant {
	Variant {
		ident: String::from(name),
		attrs: VariantOptions::finish(Vec::<VariantOption>::new()).unwrap(),
		fields,
	}
}

#[test]
fn enum_walker_accessors() {
	let e = Enum {
		name: String::from("Shape"),
		variants: vec![
			unit_or("Square", Fields::Unnamed(vec![Field { name: FieldName::Index(0), attrs: FieldOptions::finish(vec![]).unwrap() }])),
			unit_or("Rectangle", Fields::Named(vec![field("w", vec![]), field("h", vec![])])),
			unit_or("Circle", Fields::Unnamed(vec![Field { name: FieldName::Index(0), attrs: FieldOptions::finish(vec![]).unwrap() }])),
		],
	};
	let m = emit_enum_methods(1, &e).unwrap();
	// A walker over the bytes of `Shape::Circle(7)` holds discriminant 2 at revision 1.
	assert!(m[2].is_variant(false, 1, 2));
	assert!(!m[0].is_variant(false, 1, 2));
	assert!(!m[1].is_variant(false, 1, 2));
	assert_eq!(m[2].into_variant(false, 1, 2), IntoVariant::Walk);
	assert_eq!(m[0].into_variant(false, 1, 2), IntoVariant::Mismatch);
	assert_eq!(m[1].into_variant(false, 1, 1), IntoVariant::Absent);
	assert_eq!(m[2].into_variant(true, 1, 2), IntoVariant::Conversion);
	assert!(!m[2].is_variant(false, 2, 2));
}

#[test]
fn walker_start() {
	let item = Item {
		kind: ItemKind::Struct(Struct {
			name: String::from("S"),
			fields: Fields::Named(vec![field("a", vec![])]),
		}),
	};
	let opt = HistoryEntry {
		encoding: Encoding::Optimised,
		..HistoryEntry::legacy(3, false)
	};
	let history = vec![HistoryEntry::legacy(1, false), HistoryEntry::legacy(2, false), opt];
	let plan = emit_walk_impl(3, &item, &history, false, true, true).unwrap();
	assert_eq!(plan.start(0), WalkStart::InvalidRevision);
	assert_eq!(plan.start(4), WalkStart::InvalidRevision);
	assert_eq!(plan.start(1), WalkStart::Wire);
	assert_eq!(plan.start(3), WalkStart::Optimised(0));
	let converting = emit_walk_impl(3, &item, &history, true, true, true).unwrap();
	assert_eq!(converting.start(1), WalkStart::Materialise);
	assert_eq!(converting.start(3), WalkStart::Optimised(0));
}

#[test]
fn enum_decode_arm_builds_later_fields() {
	let e = Enum {
		name: String::from("E"),
		variants: vec![Variant {
			ident: String::from("Point"),
			attrs: VariantOptions::finish(vec![VariantOption::Size(String::from("varlen"))]).unwrap(),
			fields: Fields::Named(vec![
				field("x", vec![]),
				field("y", vec![FieldOption::Start(2)]),
				field("z", vec![FieldOption::Start(2), FieldOption::Default(String::from("zero"))]),
			]),
		}],
	};
	let mut ctx = EncodingContext::legacy(1);
	ctx.encoding = Encoding::Optimised;
	let arms = emit_enum_deserialize(&e, ctx, 2).unwrap();
	assert_eq!(arms[0].fields, vec![0]);
	assert_eq!(arms[0].steps, vec![FieldStep::Decode, FieldStep::DefaultValue, FieldStep::DefaultFn]);
}
