use revision::ast::attributes::{
	AttributeOptions, FieldOption, FieldOptions, VariantOption, VariantOptions, VariantOverride,
	VariantSize,
};
use revision::ast::history::{Encoding, HistoryEntry, StructEncoding};
use revision::ast::item::{Enum, Field, FieldName, Fields, Item, ItemKind, Struct, Variant};
use revision::expand::common::{
	emit_deserialize_fixed_le, emit_serialize_fixed_le, emit_skip_fixed_le,
};
use revision::expand::context::EncodingContext;
use revision::expand::optimised::enum_codegen::{
	emit_enum_deserialize, emit_enum_serialize, emit_enum_skip,
};
use revision::expand::optimised::struct_codegen::{
	emit_struct_deserialize, emit_struct_serialize, FieldStep,
};
use revision::expand::reexport::{Reexport, ReexportShape};
use revision::expand::skip::{SkipFields, SkipVariant, SkipVisitor};
use revision::expand::validate_version::ValidationError;
use revision::expand::walk::{
	emit_enum_methods, emit_field_tables, emit_optimised_enum_walker_arm, emit_struct_methods,
	emit_variant_tables, emit_walk_impl, FieldCodec, OptimisedWalkArm, VariantShape, WalkMethods,
	WalkTables,
};

fn field(name: &str, options: Vec<FieldOption>) -> Field {
	Field {
		name: FieldName::Ident(String::from(name)),
		attrs: FieldOptions::finish(options).unwrap(),
	}
}

fn tuple_field(index: usize, options: Vec<FieldOption>) -> Field {
	Field {
		name: FieldName::Index(index),
		attrs: FieldOptions::finish(options).unwrap(),
	}
}

fn variant(name: &str, options: Vec<VariantOption>, fields: Fields) -> Variant {
	Variant {
		ident: String::from(name),
		attrs: VariantOptions::finish(options).unwrap(),
		fields,
	}
}

fn size(s: &str) -> VariantOption {
	VariantOption::Size(String::from(s))
}

fn optimised(revision: u16) -> EncodingContext {
	let mut ctx = EncodingContext::legacy(revision);
	ctx.encoding = Encoding::Optimised;
	ctx
}

fn shapes() -> Enum {
	Enum {
		name: String::from("Shape"),
		variants: vec![
			variant("Empty", vec![size("inline")], Fields::Unit),
			variant(
				"Point",
				vec![size("fixed(8)")],
				Fields::Unnamed(vec![tuple_field(0, vec![]), tuple_field(1, vec![])]),
			),
			variant(
				"Label",
				vec![size("varlen")],
				Fields::Named(vec![
					field("text", vec![]),
					field("colour", vec![FieldOption::Start(2)]),
				]),
			),
		],
	}
}

#[test]
fn enum_serialize_arms_follow_the_variants() {
	let arms = emit_enum_serialize(&shapes(), optimised(1)).unwrap();
	assert_eq!(arms.len(), 3);
	assert_eq!((arms[0].variant, arms[0].id, arms[0].size), (0, 0, VariantSize::Inline));
	assert!(arms[0].fields.is_empty());
	assert_eq!((arms[1].variant, arms[1].id, arms[1].size), (1, 1, VariantSize::Fixed(8)));
	assert_eq!(arms[1].fields, vec![0, 1]);
	assert_eq!((arms[2].variant, arms[2].id, arms[2].size), (2, 2, VariantSize::Varlen));
	// The colour field only exists from revision 2.
	assert_eq!(arms[2].fields, vec![0]);
	let later = emit_enum_serialize(&shapes(), optimised(2)).unwrap();
	assert_eq!(later[2].fields, vec![0, 1]);
}

#[test]
fn enum_serialize_refusals() {
	let inline_with_field = Enum {
		name: String::from("E"),
		variants: vec![variant(
			"A",
			vec![size("inline")],
			Fields::Unnamed(vec![tuple_field(0, vec![])]),
		)],
	};
	assert_eq!(
		emit_enum_serialize(&inline_with_field, optimised(1)).unwrap_err(),
		ValidationError::InlineWithFields(0)
	);
	let unsized_variant = Enum {
		name: String::from("E"),
		variants: vec![
			variant("A", vec![size("inline")], Fields::Unit),
			variant("B", vec![], Fields::Unit),
		],
	};
	assert_eq!(
		emit_enum_serialize(&unsized_variant, optimised(1)).unwrap_err(),
		ValidationError::MissingSize(1)
	);
	let many = Enum {
		name: String::from("E"),
		variants: (0..33).map(|i| variant(&format!("V{i}"), vec![size("inline")], Fields::Unit)).collect(),
	};
	// Variant 32 gets discriminant 32, which is refused before the count.
	assert_eq!(
		emit_enum_serialize(&many, optimised(1)).unwrap_err(),
		ValidationError::DiscriminantTooLarge {
			variant: 32,
			discriminant: 32
		}
	);
	let repeated = Enum {
		name: String::from("E"),
		variants: vec![
			variant(
				"A",
				vec![
					size("inline"),
					VariantOption::Override(vec![
						VariantOverride::Revision(1),
						VariantOverride::Discriminant(3),
					]),
				],
				Fields::Unit,
			),
			variant(
				"B",
				vec![
					size("inline"),
					VariantOption::Override(vec![
						VariantOverride::Revision(1),
						VariantOverride::Discriminant(3),
					]),
				],
				Fields::Unit,
			),
		],
	};
	assert_eq!(
		emit_enum_serialize(&repeated, optimised(1)).unwrap_err(),
		ValidationError::DiscriminantUsedTwice
	);
}

#[test]
fn enum_deserialize_converts_removed_variants() {
	let e = Enum {
		name: String::from("E"),
		variants: vec![
			variant(
				"Old",
				vec![size("fixed(4)"), VariantOption::End(2), VariantOption::Convert(String::from("up"))],
				Fields::Unnamed(vec![tuple_field(0, vec![])]),
			),
			variant("New", vec![size("inline"), VariantOption::Start(2)], Fields::Unit),
		],
	};
	let arms = emit_enum_deserialize(&e, optimised(1), 2).unwrap();
	assert_eq!(arms.len(), 1);
	assert_eq!((arms[0].variant, arms[0].id, arms[0].size), (0, 0, VariantSize::Fixed(4)));
	assert_eq!(arms[0].fields, vec![0]);
	assert!(arms[0].converts);
	let current = emit_enum_deserialize(&e, optimised(2), 2).unwrap();
	assert_eq!(current.len(), 1);
	assert_eq!((current[0].variant, current[0].id), (1, 0));
	assert!(!current[0].converts);
}

#[test]
fn enum_deserialize_needs_convert_fn() {
	let e = Enum {
		name: String::from("E"),
		variants: vec![variant("Later", vec![size("inline"), VariantOption::Start(2)], Fields::Unit)],
	};
	// Read from revision 2 into a type at revision 1, where the variant does not exist.
	assert_eq!(
		emit_enum_deserialize(&e, optimised(2), 1).unwrap_err(),
		ValidationError::RemovedWithoutConvert(0)
	);
	assert_eq!(
		emit_enum_deserialize(&shapes(), optimised(1), 1).map(|a| a.len()),
		Ok(3)
	);
}

#[test]
fn enum_skip_size_table() {
	let table = emit_enum_skip(&shapes(), optimised(1)).unwrap();
	let mut expected = vec![0u8; 32];
	expected[1] = 8;
	assert_eq!(table, expected);
	let unsized_variant = Enum {
		name: String::from("E"),
		variants: vec![variant("A", vec![], Fields::Unit)],
	};
	assert_eq!(
		emit_enum_skip(&unsized_variant, optimised(1)).unwrap_err(),
		ValidationError::MissingSize(0)
	);
}

fn sample_struct() -> Struct {
	Struct {
		name: String::from("S"),
		fields: Fields::Named(vec![
			field("a", vec![]),
			field(
				"b",
				vec![FieldOption::Start(2), FieldOption::End(3), FieldOption::Convert(String::from("conv_b"))],
			),
			field("c", vec![FieldOption::Start(3)]),
			field("d", vec![FieldOption::Start(3), FieldOption::Default(String::from("default_d"))]),
		]),
	}
}

#[test]
fn struct_serialize_plan() {
	let mut ctx = optimised(2);
	let plan = emit_struct_serialize(&sample_struct(), ctx);
	assert_eq!(plan.fields, vec![0, 1]);
	assert!(plan.by_name);
	assert!(!plan.indexed);
	assert_eq!(plan.prologue_bytes, 0);
	ctx.struct_kind = StructEncoding::Indexed;
	ctx.revision = 3;
	let indexed = emit_struct_serialize(&sample_struct(), ctx);
	assert_eq!(indexed.fields, vec![0, 2, 3]);
	assert!(indexed.indexed);
	assert_eq!(indexed.prologue_bytes, 12);
	let tuple = Struct {
		name: String::from("T"),
		fields: Fields::Unnamed(vec![tuple_field(0, vec![])]),
	};
	assert!(!emit_struct_serialize(&tuple, optimised(1)).by_name);
}

#[test]
fn struct_deserialize_plan() {
	let plan = emit_struct_deserialize(&sample_struct(), optimised(2), 3);
	assert_eq!(
		plan.steps,
		vec![
			FieldStep::Decode,
			FieldStep::DecodeThenConvert,
			FieldStep::DefaultValue,
			FieldStep::DefaultFn
		]
	);
	assert!(!plan.indexed);
	let mut ctx = optimised(1);
	ctx.struct_kind = StructEncoding::Indexed;
	let old = emit_struct_deserialize(&sample_struct(), ctx, 3);
	assert_eq!(
		old.steps,
		vec![FieldStep::Decode, FieldStep::Absent, FieldStep::DefaultValue, FieldStep::DefaultFn]
	);
	assert_eq!(old.prologue_bytes, 4);
}

#[test]
fn fixed_helper_names() {
	assert_eq!(emit_serialize_fixed_le("u32").unwrap(), "encode_u32_fixed_le");
	assert_eq!(emit_deserialize_fixed_le(" i128 ").unwrap(), "decode_i128_fixed_le");
	assert_eq!(emit_skip_fixed_le("u64").unwrap(), "skip_u64_fixed_le");
	assert_eq!(
		emit_serialize_fixed_le("::std::primitive::u32"),
		Err(ValidationError::FixedNeedsBareInteger)
	);
	assert_eq!(emit_skip_fixed_le("u8"), Err(ValidationError::FixedNeedsBareInteger));
}

#[test]
fn optimised_enum_walker_arm_sizes() {
	let entry = HistoryEntry {
		encoding: Encoding::Optimised,
		..HistoryEntry::legacy(1, false)
	};
	let sizes = emit_optimised_enum_walker_arm(&shapes(), &entry).unwrap();
	assert_eq!(sizes, vec![(0, VariantSize::Inline), (1, VariantSize::Fixed(8)), (2, VariantSize::Varlen)]);
	let unsized_variant = Enum {
		name: String::from("E"),
		variants: vec![variant("A", vec![size("inline")], Fields::Unit), variant("B", vec![], Fields::Unit)],
	};
	assert_eq!(
		emit_optimised_enum_walker_arm(&unsized_variant, &entry),
		Err(ValidationError::MissingSize(1))
	);
}

#[test]
fn struct_walker_methods() {
	let s = Struct {
		name: String::from("S"),
		fields: Fields::Named(vec![
			field("id", vec![]),
			field("gone", vec![FieldOption::End(2), FieldOption::Convert(String::from("c"))]),
			field("tags", vec![FieldOption::Start(2), FieldOption::IndexedSeq]),
		]),
	};
	let methods = emit_struct_methods(2, &s);
	assert_eq!(methods.len(), 2);
	assert_eq!((methods[0].field, methods[0].base.as_str(), methods[0].start), (0, "id", 0));
	assert_eq!(methods[0].codec, FieldCodec::Plain);
	assert_eq!((methods[1].field, methods[1].base.as_str(), methods[1].start), (2, "tags", 2));
	assert_eq!(methods[1].codec, FieldCodec::IndexedSeq);
	let tuple = Struct {
		name: String::from("T"),
		fields: Fields::Unnamed(vec![tuple_field(0, vec![FieldOption::End(2), FieldOption::Convert(String::from("c"))]), tuple_field(1, vec![])]),
	};
	let methods = emit_struct_methods(2, &tuple);
	assert_eq!(methods.len(), 1);
	assert_eq!((methods[0].field, methods[0].base.as_str()), (1, "field_0"));
}

#[test]
fn enum_walker_methods() {
	let e = Enum {
		name: String::from("E"),
		variants: vec![
			variant("Removed", vec![VariantOption::End(2), VariantOption::Convert(String::from("up"))], Fields::Unit),
			variant("KeepMe", vec![], Fields::Unnamed(vec![tuple_field(0, vec![])])),
			variant("Added", vec![VariantOption::Start(2)], Fields::Named(vec![field("x", vec![])])),
		],
	};
	let methods = emit_enum_methods(2, &e).unwrap();
	assert_eq!(methods.len(), 2);
	assert_eq!((methods[0].variant, methods[0].snake.as_str(), methods[0].current), (1, "keep_me", 0));
	assert_eq!(methods[0].per_revision, vec![Some(1), Some(0)]);
	assert_eq!(methods[0].shape, VariantShape::Single(0));
	assert_eq!((methods[1].variant, methods[1].snake.as_str(), methods[1].current), (2, "added", 1));
	assert_eq!(methods[1].per_revision, vec![None, Some(1)]);
	assert_eq!(methods[1].shape, VariantShape::Other);
	let tables = emit_variant_tables(2, &e).unwrap();
	assert_eq!(tables, vec![vec![(0, 0), (1, 1)], vec![(1, 0), (2, 1)]]);
}

#[test]
fn struct_field_tables() {
	let tables = emit_field_tables(3, &sample_struct());
	assert_eq!(
		tables,
		vec![
			vec![String::from("a")],
			vec![String::from("a"), String::from("b")],
			vec![String::from("a"), String::from("c"), String::from("d")],
		]
	);
	let tuple = Struct {
		name: String::from("T"),
		fields: Fields::Unnamed(vec![tuple_field(0, vec![]), tuple_field(1, vec![FieldOption::Start(2)])]),
	};
	assert_eq!(emit_field_tables(2, &tuple), vec![vec![String::from("0")], vec![String::from("0"), String::from("1")]]);
}

#[test]
fn walker_plan() {
	let item = Item {
		kind: ItemKind::Struct(sample_struct()),
	};
	let indexed = HistoryEntry {
		encoding: Encoding::Optimised,
		struct_kind: StructEncoding::Indexed,
		..HistoryEntry::legacy(3, false)
	};
	let history = vec![HistoryEntry::legacy(1, false), HistoryEntry::legacy(2, false), indexed];
	assert_eq!(
		emit_walk_impl(3, &item, &history, true, true, false).unwrap_err(),
		ValidationError::WalkNeedsRoundTrip
	);
	let plan = emit_walk_impl(3, &item, &history, true, true, true).unwrap();
	assert!(plan.materialise);
	assert_eq!(plan.optimised.len(), 1);
	assert!(matches!(
		plan.optimised[0],
		OptimisedWalkArm::IndexedStruct {
			revision: 3,
			field_count: 3
		}
	));
	assert!(matches!(&plan.methods, WalkMethods::Struct(m) if m.len() == 3));
	assert!(matches!(&plan.tables, WalkTables::Fields(t) if t.len() == 3));
	let plain = emit_walk_impl(3, &item, &history, false, false, true).unwrap();
	assert!(!plain.materialise);
	let e = Item {
		kind: ItemKind::Enum(Enum {
			name: String::from("E"),
			variants: vec![variant("A", vec![], Fields::Unit)],
		}),
	};
	let opt = HistoryEntry {
		encoding: Encoding::Optimised,
		..HistoryEntry::legacy(1, false)
	};
	assert_eq!(
		emit_walk_impl(1, &e, &[opt], false, true, true).unwrap_err(),
		ValidationError::MissingSize(0)
	);
	let ok = emit_walk_impl(1, &e, &[HistoryEntry::legacy(1, false)], false, true, true).unwrap();
	assert!(ok.optimised.is_empty());
	assert!(matches!(&ok.tables, WalkTables::Variants(t) if t == &vec![vec![(0, 0)]]));
}

#[test]
fn legacy_skip_plan() {
	let visitor = SkipVisitor {
		target: 3,
		current: 2,
	};
	// Every field on the wire at revision 2 is skipped, whether or not it survives.
	assert_eq!(visitor.visit_struct(&sample_struct()), vec![0, 1]);
	let e = Enum {
		name: String::from("E"),
		variants: vec![
			variant("Gone", vec![VariantOption::End(2), VariantOption::Convert(String::from("up"))], Fields::Unit),
			variant("Pair", vec![], Fields::Unnamed(vec![tuple_field(0, vec![]), tuple_field(1, vec![FieldOption::Start(3)])])),
			variant("Late", vec![VariantOption::Start(2)], Fields::Unit),
		],
	};
	let arms = visitor.visit_enum(&e).unwrap();
	assert_eq!(arms.len(), 2);
	assert_eq!((arms[0].discriminant, arms[0].fields.clone()), (0, vec![0]));
	assert_eq!((arms[1].discriminant, arms[1].fields.clone()), (1, vec![]));
	let fields = SkipFields {
		target: 3,
		current: 3,
	};
	assert_eq!(fields.visit_fields(&e.variants[1].fields), vec![0, 1]);
	let one = SkipVariant {
		target: 2,
		current: 1,
		discriminants: vec![Some(0), Some(1), None],
	};
	assert!(one.visit_variant(2, &e.variants[2]).is_none());
	assert_eq!(one.visit_variant(1, &e.variants[1]).map(|a| (a.discriminant, a.fields)), Some((1, vec![0])));
}

#[test]
fn reexport_keeps_present_items() {
	let s = Item {
		kind: ItemKind::Struct(sample_struct()),
	};
	assert!(matches!(Reexport { revision: 2 }.visit_item(&s), ReexportShape::Struct(f) if f == vec![0, 1]));
	let e = Item {
		kind: ItemKind::Enum(Enum {
			name: String::from("E"),
			variants: vec![
				variant("Gone", vec![VariantOption::End(2), VariantOption::Convert(String::from("up"))], Fields::Unit),
				variant("Kept", vec![], Fields::Named(vec![field("a", vec![]), field("b", vec![FieldOption::Start(3)])])),
			],
		}),
	};
	assert!(matches!(Reexport { revision: 2 }.visit_item(&e), ReexportShape::Enum(v) if v == vec![(1, vec![0])]));
	assert!(matches!(Reexport { revision: 1 }.visit_item(&e), ReexportShape::Enum(v) if v == vec![(0, vec![]), (1, vec![0])]));
}

#[test]
fn codegen_round_trip_at_one_revision() {
	for revision in 1..=2u16 {
		let arms = emit_enum_serialize(&shapes(), optimised(revision)).unwrap();
		let decode = emit_enum_deserialize(&shapes(), optimised(revision), revision as usize).unwrap();
		assert_eq!(arms.len(), decode.len());
		for (a, d) in arms.iter().zip(decode.iter()) {
			assert_eq!((a.variant, a.id, a.size, &a.fields), (d.variant, d.id, d.size, &d.fields));
			assert!(!d.converts);
		}
		let entry = HistoryEntry {
			encoding: Encoding::Optimised,
			..HistoryEntry::legacy(revision as usize, false)
		};
		let sizes = emit_optimised_enum_walker_arm(&shapes(), &entry).unwrap();
		assert_eq!(sizes, arms.iter().map(|a| (a.id, a.size)).collect::<Vec<_>>());
		let table = emit_enum_skip(&shapes(), optimised(revision)).unwrap();
		for a in &arms {
			if let VariantSize::Fixed(n) = a.size {
				assert_eq!(table[a.id as usize], n);
			}
		}
	}
	for revision in 1..=3u16 {
		let written = emit_struct_serialize(&sample_struct(), optimised(revision));
		let read = emit_struct_deserialize(&sample_struct(), optimised(revision), revision as usize);
		let decoded: Vec<usize> =
			(0..read.steps.len()).filter(|i| read.steps[*i] == FieldStep::Decode).collect();
		assert_eq!(written.fields, decoded);
		assert!(read.steps.iter().all(|s| *s == FieldStep::Decode || *s == FieldStep::Absent));
	}
}
