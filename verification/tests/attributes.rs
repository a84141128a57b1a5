use revision::ast::attributes::{
	parse_variant_size, AttributeError, AttributeOptions, Direct, FieldOption, FieldOptions,
	VariantOption, VariantOptions, VariantOverride, VariantSize,
};

#[test]
fn field_options_accept_each_option_once() {
	let opts = FieldOptions::finish(vec![
		FieldOption::Start(2),
		FieldOption::End(4),
		FieldOption::Convert(String::from("convert_b")),
		FieldOption::IndexedSeq,
	])
	.unwrap();
	assert_eq!(opts.start, Some(2));
	assert_eq!(opts.end, Some(4));
	assert_eq!(opts.convert.as_deref(), Some("convert_b"));
	assert_eq!(opts.default, None);
	assert!(opts.indexed_seq);
	assert!(!opts.indexed_map);
	assert!(!opts.indexed_set);
}

#[test]
fn field_options_refuse_an_option_set_twice() {
	let r = FieldOptions::finish(vec![FieldOption::Start(1), FieldOption::Start(2)]);
	assert!(matches!(r, Err(AttributeError::OptionSetTwice)));
	let r = FieldOptions::finish(vec![FieldOption::IndexedMap, FieldOption::IndexedMap]);
	assert!(matches!(r, Err(AttributeError::OptionSetTwice)));
}

#[test]
fn field_options_refuse_two_indexed_kinds() {
	let r = FieldOptions::finish(vec![FieldOption::IndexedMap, FieldOption::IndexedSet]);
	assert!(matches!(r, Err(AttributeError::ConflictingIndexedOptions)));
}

#[test]
fn field_options_end_needs_convert() {
	let r = FieldOptions::finish(vec![FieldOption::End(3)]);
	assert!(matches!(r, Err(AttributeError::FieldEndWithoutConvert)));
	// The first refusal in order wins over the end check.
	let r = FieldOptions::finish(vec![FieldOption::End(3), FieldOption::End(4)]);
	assert!(matches!(r, Err(AttributeError::OptionSetTwice)));
}

#[test]
fn field_options_presence_range() {
	let opts = FieldOptions::finish(vec![
		FieldOption::Start(2),
		FieldOption::End(4),
		FieldOption::Convert(String::from("c")),
	])
	.unwrap();
	assert!(!opts.exists_at(1));
	assert!(opts.exists_at(2));
	assert!(opts.exists_at(3));
	assert!(!opts.exists_at(4));
	let open = FieldOptions::finish(vec![]).unwrap();
	assert!(open.exists_at(0));
	assert!(open.exists_at(usize::MAX - 1));
	assert!(!open.exists_at(usize::MAX));
}

#[test]
fn direct_parses_options() {
	let d = Direct::<FieldOptions>::parse(vec![FieldOption::Default(String::from("d"))]).unwrap();
	assert_eq!(d.0.default.as_deref(), Some("d"));
}

#[test]
fn variant_size_classes() {
	assert_eq!(parse_variant_size("inline").unwrap(), VariantSize::Inline);
	assert_eq!(parse_variant_size("  varlen ").unwrap(), VariantSize::Varlen);
	assert_eq!(parse_variant_size("fixed(4)").unwrap(), VariantSize::Fixed(4));
	assert_eq!(parse_variant_size("fixed( +255 )").unwrap(), VariantSize::Fixed(255));
	match parse_variant_size("fixed(256)") {
		Err(AttributeError::InvalidFixedSize(s)) => assert_eq!(s, "256"),
		other => panic!("unexpected {:?}", other),
	}
	match parse_variant_size("fixed()") {
		Err(AttributeError::InvalidFixedSize(s)) => assert_eq!(s, ""),
		other => panic!("unexpected {:?}", other),
	}
	match parse_variant_size(" huge ") {
		Err(AttributeError::UnknownSizeClass(s)) => assert_eq!(s, "huge"),
		other => panic!("unexpected {:?}", other),
	}
}

#[test]
fn variant_options_overrides() {
	let opts = VariantOptions::finish(vec![
		VariantOption::Size(String::from("fixed(8)")),
		VariantOption::Override(vec![VariantOverride::Revision(2), VariantOverride::Discriminant(7)]),
	])
	.unwrap();
	assert_eq!(opts.size, Some(VariantSize::Fixed(8)));
	assert_eq!(opts.overrides.get(&2).unwrap().discriminant, Some(7));
	let r = VariantOptions::finish(vec![VariantOption::Override(vec![VariantOverride::Discriminant(1)])]);
	assert!(matches!(r, Err(AttributeError::MissingOverrideRevision)));
	let r = VariantOptions::finish(vec![VariantOption::Override(vec![
		VariantOverride::Revision(1),
		VariantOverride::Revision(2),
	])]);
	assert!(matches!(r, Err(AttributeError::OverrideSetTwice)));
	let r = VariantOptions::finish(vec![VariantOption::End(2)]);
	assert!(matches!(r, Err(AttributeError::VariantEndWithoutConvert)));
	let r = VariantOptions::finish(vec![VariantOption::Size(String::from("wide"))]);
	assert!(matches!(r, Err(AttributeError::UnknownSizeClass(_))));
}
