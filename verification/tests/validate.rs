use revision::ast::attributes::{
	AttributeOptions, FieldOption, FieldOptions, VariantOption, VariantOptions, VariantOverride,
};
use revision::ast::history::{Encoding, HistoryEntry};
use revision::ast::item::{Enum, Field, FieldName, Fields, Item, ItemKind, Struct, Variant};
use revision::expand::common::{CalcDiscriminant, HasConvertFn};
use revision::expand::validate_version::{ValidateOptimised, ValidateRevision, ValidationError};
use revision::expand::walk::variant_table;

fn field(name: &str, options: Vec<FieldOption>) -> Field {
	Field {
		name: FieldName::Ident(String::from(name)),
		attrs: FieldOptions::finish(options).unwrap(),
	}
}

fn variant(name: &str, options: Vec<VariantOption>) -> Variant {
	Variant {
		ident: String::from(name),
		attrs: VariantOptions::finish(options).unwrap(),
		fields: Fields::Unit,
	}
}

fn enum_item(variants: Vec<Variant>) -> Item {
	Item {
		kind: ItemKind::Enum(Enum {
			name: String::from("E"),
			variants,
		}),
	}
}

#[test]
fn has_convert_fn() {
	let plain = Item {
		kind: ItemKind::Struct(Struct {
			name: String::from("S"),
			fields: Fields::Named(vec![field("a", vec![]), field("b", vec![FieldOption::Start(2)])]),
		}),
	};
	assert!(!HasConvertFn::check(&plain));
	let converted = Item {
		kind: ItemKind::Struct(Struct {
			name: String::from("S"),
			fields: Fields::Unnamed(vec![
				field("0", vec![]),
				field("1", vec![FieldOption::End(2), FieldOption::Convert(String::from("c"))]),
			]),
		}),
	};
	assert!(HasConvertFn::check(&converted));
	let e = enum_item(vec![
		variant("A", vec![]),
		variant("B", vec![VariantOption::End(2), VariantOption::Convert(String::from("up"))]),
	]);
	assert!(HasConvertFn::check(&e));
	assert!(!HasConvertFn::check(&enum_item(vec![variant("A", vec![])])));
}

#[test]
fn validate_revision() {
	let s = Item {
		kind: ItemKind::Struct(Struct {
			name: String::from("S"),
			fields: Fields::Named(vec![field("a", vec![FieldOption::Start(3)])]),
		}),
	};
	assert!(ValidateRevision(3).visit_item(&s).is_ok());
	assert_eq!(ValidateRevision(2).visit_item(&s), Err(ValidationError::RevisionExceedsCurrent));
	let e = enum_item(vec![variant("A", vec![VariantOption::Start(2)])]);
	assert!(ValidateRevision(2).visit_item(&e).is_ok());
	assert_eq!(ValidateRevision(1).visit_item(&e), Err(ValidationError::RevisionExceedsCurrent));
}

#[test]
fn discriminants_fill_gaps_around_overrides() {
	let ItemKind::Enum(e) = enum_item(vec![
		variant("A", vec![]),
		variant("B", vec![VariantOption::Override(vec![
			VariantOverride::Revision(1),
			VariantOverride::Discriminant(1),
		])]),
		variant("C", vec![VariantOption::Start(2)]),
		variant("D", vec![]),
		variant("E", vec![]),
	])
	.kind
	else {
		unreachable!()
	};
	assert_eq!(CalcDiscriminant::new(1).visit_enum(&e).unwrap(), vec![Some(0), Some(1), None, Some(2), Some(3)]);
	// At revision 2 the override does not apply.
	assert_eq!(
		CalcDiscriminant::new(2).visit_enum(&e).unwrap(),
		vec![Some(0), Some(1), Some(2), Some(3), Some(4)]
	);
}

#[test]
fn discriminants_used_twice() {
	let over = |d| {
		VariantOption::Override(vec![VariantOverride::Revision(1), VariantOverride::Discriminant(d)])
	};
	let ItemKind::Enum(e) =
		enum_item(vec![variant("A", vec![over(5)]), variant("B", vec![over(5)])]).kind
	else {
		unreachable!()
	};
	assert_eq!(CalcDiscriminant::new(1).visit_enum(&e), Err(ValidationError::DiscriminantUsedTwice));
}

#[test]
fn validate_optimised() {
	let mut optimised = HistoryEntry::legacy(1, false);
	optimised.encoding = Encoding::Optimised;
	let history = vec![optimised];
	let sized = |n: &str| variant(n, vec![VariantOption::Size(String::from("inline"))]);
	let ok = enum_item(vec![sized("A"), sized("B")]);
	assert!(ValidateOptimised(&history).check(&ok).is_ok());
	let missing = enum_item(vec![sized("A"), variant("B", vec![])]);
	assert_eq!(ValidateOptimised(&history).check(&missing), Err(ValidationError::MissingSize(1)));
	let many = enum_item((0..33).map(|i| sized(&format!("V{i}"))).collect());
	assert_eq!(
		ValidateOptimised(&history).check(&many),
		Err(ValidationError::TooManyVariants {
			count: 33,
			revision: 1
		})
	);
	let big = enum_item(vec![variant(
		"A",
		vec![
			VariantOption::Size(String::from("inline")),
			VariantOption::Override(vec![VariantOverride::Revision(1), VariantOverride::Discriminant(40)]),
		],
	)]);
	assert_eq!(
		ValidateOptimised(&history).check(&big),
		Err(ValidationError::DiscriminantTooLarge {
			variant: 0,
			discriminant: 40
		})
	);
	// Legacy entries are not checked.
	let legacy = vec![HistoryEntry::legacy(1, false)];
	assert!(ValidateOptimised(&legacy).check(&missing).is_ok());
}

#[test]
fn variant_tables_per_revision() {
	let ItemKind::Enum(e) = enum_item(vec![
		variant("Zero", vec![VariantOption::End(2), VariantOption::Convert(String::from("up"))]),
		variant("One", vec![]),
		variant("Two", vec![VariantOption::Start(2)]),
	])
	.kind
	else {
		unreachable!()
	};
	assert_eq!(variant_table(&e, 1).unwrap(), vec![(0, 0), (1, 1)]);
	assert_eq!(variant_table(&e, 2).unwrap(), vec![(1, 0), (2, 1)]);
}
