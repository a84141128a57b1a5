use revision::ast::attributes::{AttributeOptions, FieldOption, FieldOptions};
use revision::ast::item::{Field, FieldName, Fields, Struct};
use revision::expand::common::fixed_int_name;
use revision::expand::walk::{alive_field_count, alive_fields, collect_fields, field_method_base, snake_case};

fn matches(input: &str) -> Option<&'static str> {
	fixed_int_name(input)
}

#[test]
fn bare_primitives_match() {
	assert_eq!(matches("u32"), Some("u32"));
	assert_eq!(matches("i32"), Some("i32"));
	assert_eq!(matches("u64"), Some("u64"));
	assert_eq!(matches("i64"), Some("i64"));
	assert_eq!(matches("u128"), Some("u128"));
	assert_eq!(matches("i128"), Some("i128"));
}

#[test]
fn qualified_paths_are_rejected() {
	assert_eq!(matches(":: std :: primitive :: u32"), None);
	assert_eq!(matches("std :: primitive :: u32"), None);
	assert_eq!(matches("core :: primitive :: u32"), None);
	assert_eq!(matches(":: core :: primitive :: i64"), None);
}

#[test]
fn aliases_and_unsupported_types_are_rejected() {
	assert_eq!(matches("MyId"), None);
	assert_eq!(matches("Self :: Id"), None);
	assert_eq!(matches("u8"), None);
	assert_eq!(matches("u16"), None);
	assert_eq!(matches("usize"), None);
	assert_eq!(matches("isize"), None);
	assert_eq!(matches("f32"), None);
	assert_eq!(matches("f64"), None);
	assert_eq!(matches("String"), None);
	assert_eq!(matches("Vec < u32 >"), None);
	assert_eq!(matches("& u32"), None);
	assert_eq!(matches("(u32)"), None);
	assert_eq!(matches("Wrapping < u32 >"), None);
}

#[test]
fn snake_case_names() {
	assert_eq!(snake_case("FooBar"), "foo_bar");
	assert_eq!(snake_case("Circle"), "circle");
	assert_eq!(snake_case("HTTPCode"), "h_t_t_p_code");
	assert_eq!(snake_case(""), "");
}

#[test]
fn field_method_bases() {
	assert_eq!(field_method_base(&FieldName::Ident(String::from("blob")), 0), "blob");
	assert_eq!(field_method_base(&FieldName::Index(3), 3), "field_3");
	assert_eq!(field_method_base(&FieldName::Index(0), 120), "field_120");
}

#[test]
fn alive_field_lists() {
	let f = |n: &str, o: Vec<FieldOption>| Field {
		name: FieldName::Ident(String::from(n)),
		attrs: FieldOptions::finish(o).unwrap(),
	};
	let s = Struct {
		name: String::from("S"),
		fields: Fields::Named(vec![
			f("a", vec![]),
			f("b", vec![FieldOption::Start(2)]),
			f("c", vec![FieldOption::End(2), FieldOption::Convert(String::from("conv"))]),
		]),
	};
	assert_eq!(collect_fields(&s).len(), 3);
	let at1: Vec<String> = alive_fields(&s, 1)
		.iter()
		.map(|f| match &f.name {
			FieldName::Ident(n) => n.clone(),
			FieldName::Index(i) => i.to_string(),
		})
		.collect();
	assert_eq!(at1, vec!["a", "c"]);
	assert_eq!(alive_field_count(&s, 2), 2);
	let unit = Struct {
		name: String::from("U"),
		fields: Fields::Unit,
	};
	assert_eq!(alive_field_count(&unit, 1), 0);
}
