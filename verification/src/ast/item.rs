//! The shape of a `#[revisioned]` item as the derive logic reads it: its fields and
//! variants with their parsed options.
use vstd::prelude::*;

use crate::ast::attributes::{FieldOptions, VariantOptions};

verus! {

/// The name of a field: an identifier, or a position in a tuple struct.
#[derive(Debug)]
pub enum FieldName {
    Ident(String),
    Index(usize),
}

/// A field with its options.
#[derive(Debug)]
pub struct Field {
    pub name: FieldName,
    pub attrs: FieldOptions,
}

/// The fields of a struct or a variant.
#[derive(Debug)]
pub enum Fields {
    Named(Vec<Field>),
    Unnamed(Vec<Field>),
    Unit,
}

impl Fields {
    /// The fields in declaration order.
    pub open spec fn list(&self) -> Seq<Field> {
        match self {
            Fields::Named(v) => v@,
            Fields::Unnamed(v) => v@,
            Fields::Unit => Seq::empty(),
        }
    }
}

/// An enum variant with its options.
#[derive(Debug)]
pub struct Variant {
    pub ident: String,
    pub attrs: VariantOptions,
    pub fields: Fields,
}

/// An enum and its variants.
#[derive(Debug)]
pub struct Enum {
    pub name: String,
    pub variants: Vec<Variant>,
}

/// A struct and its fields.
#[derive(Debug)]
pub struct Struct {
    pub name: String,
    pub fields: Fields,
}

/// What a `#[revisioned]` item is.
#[derive(Debug)]
pub enum ItemKind {
    Enum(Enum),
    Struct(Struct),
}

/// A `#[revisioned]` item.
#[derive(Debug)]
pub struct Item {
    pub kind: ItemKind,
}

/// The fields of `fields`, in declaration order.
pub fn fields_of(fields: &Fields) -> (r: &[Field])
    ensures
        r@ == fields.list(),
{
    match fields {
        Fields::Named(v) => v.as_slice(),
        Fields::Unnamed(v) => v.as_slice(),
        Fields::Unit => &[],
    }
}

} // verus!
