//! Optimised code generation for revisioned structs.
//!
//! Wire layout under `encoding = "optimised"`: the `u16` revision (written by the outer
//! impl), a `u32_le` payload length, then the payload: for `struct = "indexed"` first a
//! table of `u32_le` offsets, one per field, each from the start of the payload, then
//! the fields one after the other.
use vstd::prelude::*;

use crate::ast::history::StructEncoding;
use crate::ast::item::{fields_of, Field, Fields, Struct};
use crate::expand::common::{
    alive_field_positions, alive_positions, lemma_alive_positions_bound,
    lemma_alive_positions_contains,
};
use crate::expand::context::EncodingContext;

verus! {

/// What the generated optimised serialize body of a struct writes.
#[derive(Debug)]
pub struct StructSerializePlan {
    /// The positions of the fields present at the revision, written in order.
    pub fields: Vec<usize>,
    /// Whether the fields are read from `self` by name; in a tuple struct the field
    /// written `k`-th is read as `self.k`.
    pub by_name: bool,
    /// Whether the payload starts with the offset table.
    pub indexed: bool,
    /// The bytes reserved for the offset table: four per field written, when indexed.
    pub prologue_bytes: usize,
}

/// Decides the optimised serialize body of a struct at the context's revision: the
/// fields present there, in order, buffered behind their `u32_le` length, with the
/// offset table first when the entry asks for an indexed struct.
pub fn emit_struct_serialize(s: &Struct, ctx: EncodingContext) -> (r: StructSerializePlan)
    requires
        s.fields.list().len() <= usize::MAX / 4,
    ensures
        r.fields@ == alive_positions(s.fields.list(), ctx.revision as usize),
        r.by_name == s.fields is Named,
        r.indexed == (ctx.struct_kind == StructEncoding::Indexed),
        r.prologue_bytes == if r.indexed {
            4 * r.fields@.len()
        } else {
            0
        },
{
    let revision = ctx.revision as usize;
    let fields = alive_field_positions(fields_of(&s.fields), revision);
    proof {
        lemma_alive_positions_bound(s.fields.list(), revision);
    }
    let indexed = ctx.struct_is_indexed();
    let prologue_bytes = if indexed {
        fields.len() * 4
    } else {
        0
    };
    let by_name = match s.fields {
        Fields::Named(_) => true,
        _ => false,
    };
    StructSerializePlan { fields, by_name, indexed, prologue_bytes }
}

/// What the generated optimised deserialize body does with one field.
#[derive(Debug, Clone, Copy, PartialEq, Eq, Structural)]
pub enum FieldStep {
    /// On the wire and in the type: read from the payload.
    Decode,
    /// Added after the wire revision: built by its `default_fn`, given the wire revision.
    DefaultFn,
    /// Added after the wire revision, without a `default_fn`: `Default::default()`.
    DefaultValue,
    /// On the wire but gone from the type: read, then handed, with the value built from
    /// the other fields, to its `convert_fn`.
    DecodeThenConvert,
    /// Neither on the wire nor in the type.
    Absent,
}

/// What the deserialize body does with the field `f`, written at `current` and read
/// into the type at `target`.
pub open spec fn field_step(f: Field, current: usize, target: usize) -> FieldStep {
    let on_wire = f.attrs.spec_exists_at(current);
    let in_type = f.attrs.spec_exists_at(target);
    if on_wire && in_type {
        FieldStep::Decode
    } else if in_type {
        if f.attrs.default is Some {
            FieldStep::DefaultFn
        } else {
            FieldStep::DefaultValue
        }
    } else if on_wire {
        FieldStep::DecodeThenConvert
    } else {
        FieldStep::Absent
    }
}

/// What the deserialize body does with each of `fields`, written at `current` and read
/// into the type at `target`, in declaration order.
pub fn field_steps(fields: &[Field], current: usize, target: usize) -> (r: Vec<FieldStep>)
    ensures
        r@ == fields@.map_values(|f: Field| field_step(f, current, target)),
{
    let mut steps: Vec<FieldStep> = Vec::new();
    let mut k: usize = 0;
    while k < fields.len()
        invariant
            k <= fields@.len(),
            steps@ == fields@.take(k as int).map_values(
                |f: Field| field_step(f, current, target),
            ),
        decreases fields@.len() - k,
    {
        let f = &fields[k];
        let exists_current = f.attrs.exists_at(current);
        let exists_target = f.attrs.exists_at(target);
        let step = if exists_current && exists_target {
            FieldStep::Decode
        } else if exists_target {
            if f.attrs.default.is_some() {
                FieldStep::DefaultFn
            } else {
                FieldStep::DefaultValue
            }
        } else if exists_current {
            FieldStep::DecodeThenConvert
        } else {
            FieldStep::Absent
        };
        steps.push(step);
        assert(fields@.take(k + 1).map_values(|f: Field| field_step(f, current, target))
            == fields@.take(k as int).map_values(|f: Field| field_step(f, current, target)).push(
            field_step(fields@[k as int], current, target),
        ));
        k = k + 1;
    }
    assert(fields@.take(fields@.len() as int) == fields@);
    steps
}

/// What the generated optimised deserialize body of a struct reads and builds.
#[derive(Debug)]
pub struct StructDeserializePlan {
    /// Whether the payload starts with the offset table, which the body steps over.
    pub indexed: bool,
    /// The size of that table: four bytes per field on the wire, when indexed.
    pub prologue_bytes: usize,
    /// One step per field, in declaration order. The fields read are read in that
    /// order; the value is built from the fields of the type; the conversions run last,
    /// in that order.
    pub steps: Vec<FieldStep>,
}

/// Decides the optimised deserialize body of a struct written at the context's revision
/// and read into the type at `target`.
pub fn emit_struct_deserialize(s: &Struct, ctx: EncodingContext, target: usize) -> (r:
    StructDeserializePlan)
    requires
        s.fields.list().len() <= usize::MAX / 4,
        forall|i: int|
            0 <= i < s.fields.list().len() && (#[trigger] s.fields.list()[i]).attrs.spec_exists_at(
                ctx.revision as usize,
            ) && !s.fields.list()[i].attrs.spec_exists_at(target)
                ==> s.fields.list()[i].attrs.convert is Some,
    ensures
        r.indexed == (ctx.struct_kind == StructEncoding::Indexed),
        r.prologue_bytes == if r.indexed {
            4 * alive_positions(s.fields.list(), ctx.revision as usize).len()
        } else {
            0
        },
        r.steps@ == s.fields.list().map_values(
            |f: Field| field_step(f, ctx.revision as usize, target),
        ),
{
    let current = ctx.revision as usize;
    let indexed = ctx.struct_is_indexed();
    let fields = fields_of(&s.fields);
    let on_wire = alive_field_positions(fields, current);
    proof {
        lemma_alive_positions_bound(s.fields.list(), current);
    }
    let prologue_bytes = if indexed {
        on_wire.len() * 4
    } else {
        0
    };
    let steps = field_steps(fields, current, target);
    StructDeserializePlan { indexed, prologue_bytes, steps }
}

/// At one revision, the generated deserialize body reads exactly the fields that the
/// generated serialize body writes, in the same order, and builds no field otherwise:
/// each field is read when it is present and left alone when it is not.
pub proof fn lemma_struct_codegen_round_trip(fields: Seq<Field>, revision: usize)
    requires
        fields.len() <= usize::MAX,
    ensures
        forall|i: int|
            0 <= i < fields.len() ==> (#[trigger] field_step(fields[i], revision, revision)
                == FieldStep::Decode <==> alive_positions(fields, revision).contains(i as usize)),
        forall|i: int|
            0 <= i < fields.len() ==> #[trigger] field_step(fields[i], revision, revision)
                == FieldStep::Decode || field_step(fields[i], revision, revision)
                == FieldStep::Absent,
{
    assert forall|i: int| 0 <= i < fields.len() implies (#[trigger] field_step(
        fields[i],
        revision,
        revision,
    ) == FieldStep::Decode <==> alive_positions(fields, revision).contains(i as usize)) by {
        lemma_alive_positions_contains(fields, revision, i);
    }
}

} // verus!
