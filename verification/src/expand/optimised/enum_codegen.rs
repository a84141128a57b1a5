//! Optimised code generation for revisioned enums.
//!
//! Wire layout under `encoding = "optimised"`: the `u16` revision (written by the outer
//! impl), a `u8` tag (variant id in bits 0..=4, size class in bits 5..=6), then the
//! payload per size class: nothing for `inline`, exactly `N` bytes for `fixed(N)`, a
//! `u32_le` length and that many bytes for `varlen`.
//!
//! Each variant present at the revision gets one arm, keyed by its (variant id, size
//! class) pair; a variant must declare its size class, and its id must fit in 5 bits.
use vstd::prelude::*;

use crate::ast::attributes::VariantSize;
use crate::ast::item::{fields_of, Enum, Field};
use crate::expand::optimised::struct_codegen::{field_step, field_steps, FieldStep};
use crate::expand::common::{
    alive_field_positions, alive_positions, assigned_discriminants, CalcDiscriminant,
    discriminants_assigned, lemma_assigned_discriminants, lemma_discriminants_unique,
    overrides_repeat,
};
use crate::expand::context::EncodingContext;
use crate::expand::validate_version::{
    alive_variant_count, lacks_size, validate_discriminants, ValidationError,
};
use crate::expand::walk::variant_entries;

verus! {

/// Whether the discriminants of the variants present at `revision` all fit in the five
/// bits of the tag.
pub open spec fn small_discriminants(e: Enum, revision: usize) -> bool {
    exists|d: Seq<Option<u32>>|
        #[trigger] discriminants_assigned(e, revision, d) && forall|j: int|
            0 <= j < d.len() && d[j] is Some ==> d[j]->Some_0 < 32
}

/// Whether `err` names a variant whose discriminant at `revision` is too large for the
/// tag.
pub open spec fn names_large_discriminant(e: Enum, revision: usize, err: ValidationError) -> bool {
    err matches ValidationError::DiscriminantTooLarge { variant, discriminant } && discriminant
        >= 32 && exists|d: Seq<Option<u32>>|
        #[trigger] discriminants_assigned(e, revision, d) && variant < d.len() && d[variant as int]
            == Some(discriminant)
}

/// For discriminants `d` assigned at `revision`, whether they fit is what
/// [`small_discriminants`] says.
pub proof fn lemma_small_discriminants(e: Enum, revision: usize, d: Seq<Option<u32>>)
    requires
        discriminants_assigned(e, revision, d),
    ensures
        small_discriminants(e, revision) <==> forall|j: int|
            0 <= j < d.len() && d[j] is Some ==> d[j]->Some_0 < 32,
{
    if small_discriminants(e, revision) {
        let r = choose|r: Seq<Option<u32>>|
            #[trigger] discriminants_assigned(e, revision, r) && forall|j: int|
                0 <= j < r.len() && r[j] is Some ==> r[j]->Some_0 < 32;
        lemma_discriminants_unique(e, revision, r, d);
    }
}

/// A variant present at `revision` has a discriminant in `d`.
proof fn lemma_alive_assigned(e: Enum, revision: usize, d: Seq<Option<u32>>, j: int)
    requires
        discriminants_assigned(e, revision, d),
        0 <= j < d.len(),
        e.variants@[j].attrs.spec_exists_at(revision),
    ensures
        d[j] is Some,
{
    if crate::expand::common::override_discriminant(e, revision, j) is None {
        assert(crate::expand::common::is_plain(e, revision, j));
    }
}

// -----------------------------------------------------------------------------
// Serialize
// -----------------------------------------------------------------------------

/// Whether the variant at `j`, present at `revision`, cannot be written: it declares no
/// size class, or it is declared inline but has fields present.
pub open spec fn unwritable(e: Enum, revision: usize, j: int) -> bool {
    let v = e.variants@[j];
    &&& v.attrs.spec_exists_at(revision)
    &&& (v.attrs.size is None || (v.attrs.size == Some(VariantSize::Inline) && alive_positions(
        v.fields.list(),
        revision,
    ).len() > 0))
}

/// The error that refuses the unwritable variant at `j`.
pub open spec fn unwritable_error(e: Enum, j: int) -> ValidationError {
    if e.variants@[j].attrs.size is None {
        ValidationError::MissingSize(j as usize)
    } else {
        ValidationError::InlineWithFields(j as usize)
    }
}

/// Whether the enum `e` can be written at the optimised revision `revision`.
pub open spec fn enum_writable(e: Enum, revision: usize) -> bool {
    &&& !overrides_repeat(e, revision)
    &&& small_discriminants(e, revision)
    &&& alive_variant_count(e.variants@, revision) <= 32
    &&& forall|j: int| 0 <= j < e.variants@.len() ==> !#[trigger] unwritable(e, revision, j)
}

/// Whether `err` is how the serialize generator refuses `e` at `revision`: repeated
/// overrides, then a discriminant too large, then too many variants, then the first
/// variant that cannot be written.
pub open spec fn enum_serialize_refusal(e: Enum, revision: usize, err: ValidationError) -> bool {
    let count = alive_variant_count(e.variants@, revision);
    if overrides_repeat(e, revision) {
        err == ValidationError::DiscriminantUsedTwice
    } else if !small_discriminants(e, revision) {
        names_large_discriminant(e, revision, err)
    } else if count > 32 {
        err == ValidationError::TooManyVariants { count: count as usize, revision }
    } else {
        exists|j: int|
            0 <= j < e.variants@.len() && #[trigger] unwritable(e, revision, j) && (forall|i: int|
                0 <= i < j ==> !#[trigger] unwritable(e, revision, i)) && err == unwritable_error(
                e,
                j,
            )
    }
}

/// One arm of the generated optimised serialize body: the variant it matches, the tag it
/// writes, and the fields it writes after the tag.
#[derive(Debug)]
pub struct EnumArm {
    /// The variant's position.
    pub variant: usize,
    /// The variant id written in the tag.
    pub id: u8,
    /// The size class written in the tag, which frames the payload.
    pub size: VariantSize,
    /// The positions of the variant's fields present at the revision, written in order.
    pub fields: Vec<usize>,
}

/// Whether `arms` are, in order, the arms of the variants in `entries` (position and
/// discriminant of each variant present at `revision`).
pub open spec fn arms_follow(
    e: Enum,
    revision: usize,
    arms: Seq<EnumArm>,
    entries: Seq<(usize, u32)>,
) -> bool {
    &&& arms.len() == entries.len()
    &&& forall|k: int|
        0 <= k < arms.len() ==> {
            let j = entries[k].0 as int;
            &&& (#[trigger] arms[k]).variant == entries[k].0
            &&& arms[k].id as u32 == entries[k].1
            &&& e.variants@[j].attrs.size == Some(arms[k].size)
            &&& arms[k].fields@ == alive_positions(e.variants@[j].fields.list(), revision)
        }
}

/// Counts the variants present at `revision`.
fn count_alive(e: &Enum, revision: usize) -> (r: usize)
    ensures
        r == alive_variant_count(e.variants@, revision),
{
    let n = e.variants.len();
    let mut count: usize = 0;
    let mut j: usize = 0;
    while j < n
        invariant
            n == e.variants@.len(),
            j <= n,
            count == alive_variant_count(e.variants@.take(j as int), revision),
            count <= j,
        decreases n - j,
    {
        assert(e.variants@.take(j + 1).drop_last() == e.variants@.take(j as int));
        if e.variants[j].attrs.exists_at(revision) {
            count = count + 1;
        }
        j = j + 1;
    }
    assert(e.variants@.take(n as int) == e.variants@);
    count
}

/// Decides the optimised serialize body of an enum at the context's revision: one arm
/// per variant present, in order, writing the tag and then the present fields.
pub fn emit_enum_serialize(e: &Enum, ctx: EncodingContext) -> (r: Result<
    Vec<EnumArm>,
    ValidationError,
>)
    requires
        e.variants.len() < u32::MAX,
    ensures
        r is Ok <==> enum_writable(*e, ctx.revision as usize),
        r matches Err(err) ==> enum_serialize_refusal(*e, ctx.revision as usize, err),
        r matches Ok(arms) ==> arms_follow(
            *e,
            ctx.revision as usize,
            arms@,
            variant_entries(assigned_discriminants(*e, ctx.revision as usize)),
        ),
{
    let rev = ctx.revision as usize;
    let discs = match CalcDiscriminant::new(rev).visit_enum(e) {
        Ok(d) => d,
        Err(err) => return Err(err),
    };
    proof {
        lemma_small_discriminants(*e, rev, discs@);
        lemma_assigned_discriminants(*e, rev, discs@);
    }
    match validate_discriminants(&discs) {
        Ok(()) => {},
        Err(err) => return Err(err),
    }
    let count = count_alive(e, rev);
    if count > 32 {
        return Err(ValidationError::TooManyVariants { count, revision: rev });
    }
    let n = e.variants.len();
    let mut arms: Vec<EnumArm> = Vec::new();
    let mut j: usize = 0;
    while j < n
        invariant
            n == e.variants@.len(),
            rev == ctx.revision as usize,
            discs@.len() == n,
            discriminants_assigned(*e, rev, discs@),
            forall|i: int| 0 <= i < n && discs@[i] is Some ==> discs@[i]->Some_0 < 32,
            !overrides_repeat(*e, rev),
            small_discriminants(*e, rev),
            alive_variant_count(e.variants@, rev) <= 32,
            j <= n,
            forall|i: int| 0 <= i < j ==> !#[trigger] unwritable(*e, rev, i),
            arms_follow(*e, rev, arms@, variant_entries(discs@.take(j as int))),
        decreases n - j,
    {
        assert(discs@.take(j + 1).drop_last() == discs@.take(j as int));
        let v = &e.variants[j];
        if v.attrs.exists_at(rev) {
            let size = match v.attrs.size {
                Some(s) => s,
                None => {
                    assert(unwritable(*e, rev, j as int));
                    return Err(ValidationError::MissingSize(j));
                },
            };
            let fields = alive_field_positions(fields_of(&v.fields), rev);
            let inline_with_fields = match size {
                VariantSize::Inline => fields.len() > 0,
                _ => false,
            };
            if inline_with_fields {
                assert(unwritable(*e, rev, j as int));
                return Err(ValidationError::InlineWithFields(j));
            }
            proof {
                lemma_alive_assigned(*e, rev, discs@, j as int);
            }
            let d = discs[j].unwrap();
            let ghost before = arms@;
            arms.push(EnumArm { variant: j, id: d as u8, size, fields });
            proof {
                let entries = variant_entries(discs@.take(j + 1));
                assert(entries == variant_entries(discs@.take(j as int)).push((j, d)));
                assert forall|k: int| 0 <= k < arms@.len() implies {
                    let jj = entries[k].0 as int;
                    &&& (#[trigger] arms@[k]).variant == entries[k].0
                    &&& arms@[k].id as u32 == entries[k].1
                    &&& e.variants@[jj].attrs.size == Some(arms@[k].size)
                    &&& arms@[k].fields@ == alive_positions(e.variants@[jj].fields.list(), rev)
                } by {
                    if k < before.len() {
                        assert(arms@[k] == before[k]);
                    }
                }
            }
        } else {
            assert(!unwritable(*e, rev, j as int));
            assert(discs@[j as int] is None);
        }
        j = j + 1;
    }
    assert(discs@.take(n as int) == discs@);
    Ok(arms)
}

// -----------------------------------------------------------------------------
// Deserialize
// -----------------------------------------------------------------------------

/// Whether the variant at `j`, present on the wire at `current`, cannot be read: it
/// declares no size class, or it is gone at `target` and has no `convert_fn`.
pub open spec fn undecodable(e: Enum, current: usize, target: usize, j: int) -> bool {
    let v = e.variants@[j];
    &&& v.attrs.spec_exists_at(current)
    &&& (v.attrs.size is None || (!v.attrs.spec_exists_at(target) && v.attrs.convert is None))
}

/// The error that refuses the undecodable variant at `j`.
pub open spec fn undecodable_error(e: Enum, j: int) -> ValidationError {
    if e.variants@[j].attrs.size is None {
        ValidationError::MissingSize(j as usize)
    } else {
        ValidationError::RemovedWithoutConvert(j as usize)
    }
}

/// Whether the enum `e`, written at the optimised revision `current`, can be read into
/// the type at `target`.
pub open spec fn enum_decodable(e: Enum, current: usize, target: usize) -> bool {
    &&& !overrides_repeat(e, current)
    &&& small_discriminants(e, current)
    &&& forall|j: int|
        0 <= j < e.variants@.len() ==> !#[trigger] undecodable(e, current, target, j)
}

/// Whether `err` is how the deserialize generator refuses `e`: repeated overrides, then
/// a discriminant too large, then the first variant that cannot be read.
pub open spec fn enum_deserialize_refusal(
    e: Enum,
    current: usize,
    target: usize,
    err: ValidationError,
) -> bool {
    if overrides_repeat(e, current) {
        err == ValidationError::DiscriminantUsedTwice
    } else if !small_discriminants(e, current) {
        names_large_discriminant(e, current, err)
    } else {
        exists|j: int|
            0 <= j < e.variants@.len() && #[trigger] undecodable(e, current, target, j) && (forall|
                i: int,
            |
                0 <= i < j ==> !#[trigger] undecodable(e, current, target, i)) && err
                == undecodable_error(e, j)
    }
}

/// One arm of the generated optimised deserialize body: the tag it matches and how it
/// builds the value.
#[derive(Debug)]
pub struct DecodeArm {
    /// The variant's position.
    pub variant: usize,
    /// The variant id the arm matches in the tag.
    pub id: u8,
    /// The size class the arm matches in the tag, which frames the payload it reads.
    pub size: VariantSize,
    /// The positions of the variant's fields present on the wire, read in order from the
    /// payload.
    pub fields: Vec<usize>,
    /// Whether the variant is gone at the target revision: the fields read are then
    /// handed to its `convert_fn`, whose result is returned; otherwise the variant is
    /// built from them.
    pub converts: bool,
    /// What happens to each of the variant's fields, in declaration order, when the
    /// variant is built: read from the payload, or, for a field added after the wire
    /// revision, built by its `default_fn` or `Default`.
    pub steps: Vec<FieldStep>,
}

/// Whether `arms` are, in order, the decode arms of the variants in `entries` (position
/// and discriminant of each variant present at `current`).
pub open spec fn decode_arms_follow(
    e: Enum,
    current: usize,
    target: usize,
    arms: Seq<DecodeArm>,
    entries: Seq<(usize, u32)>,
) -> bool {
    &&& arms.len() == entries.len()
    &&& forall|k: int|
        0 <= k < arms.len() ==> {
            let j = entries[k].0 as int;
            &&& (#[trigger] arms[k]).variant == entries[k].0
            &&& arms[k].id as u32 == entries[k].1
            &&& e.variants@[j].attrs.size == Some(arms[k].size)
            &&& arms[k].fields@ == alive_positions(e.variants@[j].fields.list(), current)
            &&& arms[k].converts == !e.variants@[j].attrs.spec_exists_at(target)
            &&& arms[k].steps@ == e.variants@[j].fields.list().map_values(
                |f: Field| field_step(f, current, target),
            )
        }
}

/// Decides the optimised deserialize body of an enum written at the context's revision,
/// read into the type at `target`: one arm per variant present on the wire, in order.
pub fn emit_enum_deserialize(e: &Enum, ctx: EncodingContext, target: usize) -> (r: Result<
    Vec<DecodeArm>,
    ValidationError,
>)
    requires
        e.variants.len() < u32::MAX,
    ensures
        r is Ok <==> enum_decodable(*e, ctx.revision as usize, target),
        r matches Err(err) ==> enum_deserialize_refusal(*e, ctx.revision as usize, target, err),
        r matches Ok(arms) ==> decode_arms_follow(
            *e,
            ctx.revision as usize,
            target,
            arms@,
            variant_entries(assigned_discriminants(*e, ctx.revision as usize)),
        ),
{
    let current = ctx.revision as usize;
    let discs = match CalcDiscriminant::new(current).visit_enum(e) {
        Ok(d) => d,
        Err(err) => return Err(err),
    };
    proof {
        lemma_small_discriminants(*e, current, discs@);
        lemma_assigned_discriminants(*e, current, discs@);
    }
    match validate_discriminants(&discs) {
        Ok(()) => {},
        Err(err) => return Err(err),
    }
    let n = e.variants.len();
    let mut arms: Vec<DecodeArm> = Vec::new();
    let mut j: usize = 0;
    while j < n
        invariant
            n == e.variants@.len(),
            current == ctx.revision as usize,
            discs@.len() == n,
            discriminants_assigned(*e, current, discs@),
            forall|i: int| 0 <= i < n && discs@[i] is Some ==> discs@[i]->Some_0 < 32,
            !overrides_repeat(*e, current),
            small_discriminants(*e, current),
            j <= n,
            forall|i: int| 0 <= i < j ==> !#[trigger] undecodable(*e, current, target, i),
            decode_arms_follow(*e, current, target, arms@, variant_entries(discs@.take(j as int))),
        decreases n - j,
    {
        assert(discs@.take(j + 1).drop_last() == discs@.take(j as int));
        let v = &e.variants[j];
        if v.attrs.exists_at(current) {
            let size = match v.attrs.size {
                Some(s) => s,
                None => {
                    assert(undecodable(*e, current, target, j as int));
                    return Err(ValidationError::MissingSize(j));
                },
            };
            let converts = !v.attrs.exists_at(target);
            if converts && v.attrs.convert.is_none() {
                assert(undecodable(*e, current, target, j as int));
                return Err(ValidationError::RemovedWithoutConvert(j));
            }
            let fields = alive_field_positions(fields_of(&v.fields), current);
            proof {
                lemma_alive_assigned(*e, current, discs@, j as int);
            }
            let steps = field_steps(fields_of(&v.fields), current, target);
            let d = discs[j].unwrap();
            let ghost before = arms@;
            arms.push(DecodeArm { variant: j, id: d as u8, size, fields, converts, steps });
            proof {
                let entries = variant_entries(discs@.take(j + 1));
                assert(entries == variant_entries(discs@.take(j as int)).push((j, d)));
                assert forall|k: int| 0 <= k < arms@.len() implies {
                    let jj = entries[k].0 as int;
                    &&& (#[trigger] arms@[k]).variant == entries[k].0
                    &&& arms@[k].id as u32 == entries[k].1
                    &&& e.variants@[jj].attrs.size == Some(arms@[k].size)
                    &&& arms@[k].fields@ == alive_positions(e.variants@[jj].fields.list(), current)
                    &&& arms@[k].converts == !e.variants@[jj].attrs.spec_exists_at(target)
                    &&& arms@[k].steps@ == e.variants@[jj].fields.list().map_values(
                        |f: Field| field_step(f, current, target),
                    )
                } by {
                    if k < before.len() {
                        assert(arms@[k] == before[k]);
                    }
                }
            }
        } else {
            assert(!undecodable(*e, current, target, j as int));
            assert(discs@[j as int] is None);
        }
        j = j + 1;
    }
    assert(discs@.take(n as int) == discs@);
    Ok(arms)
}

// -----------------------------------------------------------------------------
// Skip
// -----------------------------------------------------------------------------

/// The payload size of each variant id, built over `entries` in order: the declared `N`
/// for a `fixed(N)` variant, zero for every other id.
pub open spec fn size_table(e: Enum, entries: Seq<(usize, u32)>) -> Seq<u8>
    decreases entries.len(),
{
    if entries.len() == 0 {
        Seq::new(32, |i: int| 0u8)
    } else {
        let t = size_table(e, entries.drop_last());
        let (j, d) = entries.last();
        match e.variants@[j as int].attrs.size {
            Some(VariantSize::Fixed(n)) => t.update(d as int, n),
            _ => t,
        }
    }
}

/// Whether the enum `e` can be skipped at the optimised revision `revision`.
pub open spec fn enum_skippable(e: Enum, revision: usize) -> bool {
    &&& !overrides_repeat(e, revision)
    &&& small_discriminants(e, revision)
    &&& forall|j: int| 0 <= j < e.variants@.len() ==> !#[trigger] lacks_size(e, revision, j)
}

/// Whether `err` is how the skip generator refuses `e`: repeated overrides, then a
/// discriminant too large, then the first variant without a size class.
pub open spec fn enum_skip_refusal(e: Enum, revision: usize, err: ValidationError) -> bool {
    if overrides_repeat(e, revision) {
        err == ValidationError::DiscriminantUsedTwice
    } else if !small_discriminants(e, revision) {
        names_large_discriminant(e, revision, err)
    } else {
        exists|j: int|
            0 <= j < e.variants@.len() && #[trigger] lacks_size(e, revision, j) && (forall|i: int|
                0 <= i < j ==> !#[trigger] lacks_size(e, revision, i)) && err
                == ValidationError::MissingSize(j as usize)
    }
}

/// Decides the optimised skip body of an enum at the context's revision: the table of
/// payload sizes by variant id that the skip reads for `fixed` variants (`inline`
/// variants carry no payload, `varlen` ones carry their length).
pub fn emit_enum_skip(e: &Enum, ctx: EncodingContext) -> (r: Result<Vec<u8>, ValidationError>)
    requires
        e.variants.len() < u32::MAX,
    ensures
        r is Ok <==> enum_skippable(*e, ctx.revision as usize),
        r matches Err(err) ==> enum_skip_refusal(*e, ctx.revision as usize, err),
        r matches Ok(t) ==> t@ == size_table(
            *e,
            variant_entries(assigned_discriminants(*e, ctx.revision as usize)),
        ),
{
    let rev = ctx.revision as usize;
    let discs = match CalcDiscriminant::new(rev).visit_enum(e) {
        Ok(d) => d,
        Err(err) => return Err(err),
    };
    proof {
        lemma_small_discriminants(*e, rev, discs@);
        lemma_assigned_discriminants(*e, rev, discs@);
    }
    match validate_discriminants(&discs) {
        Ok(()) => {},
        Err(err) => return Err(err),
    }
    let mut table: Vec<u8> = Vec::new();
    while table.len() < 32
        invariant
            table@.len() <= 32,
            forall|i: int| 0 <= i < table@.len() ==> table@[i] == 0u8,
        decreases 32 - table@.len(),
    {
        table.push(0u8);
    }
    assert(table@ == size_table(*e, variant_entries(discs@.take(0))));
    let n = e.variants.len();
    let mut j: usize = 0;
    while j < n
        invariant
            n == e.variants@.len(),
            rev == ctx.revision as usize,
            discs@.len() == n,
            discriminants_assigned(*e, rev, discs@),
            forall|i: int| 0 <= i < n && discs@[i] is Some ==> discs@[i]->Some_0 < 32,
            !overrides_repeat(*e, rev),
            small_discriminants(*e, rev),
            j <= n,
            forall|i: int| 0 <= i < j ==> !#[trigger] lacks_size(*e, rev, i),
            table@ == size_table(*e, variant_entries(discs@.take(j as int))),
            table@.len() == 32,
        decreases n - j,
    {
        assert(discs@.take(j + 1).drop_last() == discs@.take(j as int));
        let v = &e.variants[j];
        if v.attrs.exists_at(rev) {
            proof {
                lemma_alive_assigned(*e, rev, discs@, j as int);
            }
            let d = discs[j].unwrap();
            proof {
                let entries = variant_entries(discs@.take(j + 1));
                assert(entries == variant_entries(discs@.take(j as int)).push((j, d)));
            }
            match v.attrs.size {
                None => {
                    assert(lacks_size(*e, rev, j as int));
                    return Err(ValidationError::MissingSize(j));
                },
                Some(VariantSize::Fixed(size)) => {
                    proof {
                        let entries = variant_entries(discs@.take(j + 1));
                        assert(entries.drop_last() == variant_entries(discs@.take(j as int)));
                        assert(size_table(*e, entries) == table@.update(d as int, size));
                    }
                    table.set(d as usize, size);
                },
                Some(_) => {
                    proof {
                        let entries = variant_entries(discs@.take(j + 1));
                        assert(entries.drop_last() == variant_entries(discs@.take(j as int)));
                        assert(size_table(*e, entries) == table@);
                    }
                },
            }
        } else {
            assert(!lacks_size(*e, rev, j as int));
            assert(discs@[j as int] is None);
        }
        j = j + 1;
    }
    assert(discs@.take(n as int) == discs@);
    Ok(table)
}

// -----------------------------------------------------------------------------
// Laws
// -----------------------------------------------------------------------------

/// At one optimised revision, what the generated serialize body writes the generated
/// deserialize body for that revision reads back: an enum that can be written can be
/// read, each variant under the same tag and size class, its fields in the same order,
/// and none converted.
pub proof fn lemma_enum_codegen_round_trip(
    e: Enum,
    revision: usize,
    arms: Seq<EnumArm>,
    decode: Seq<DecodeArm>,
)
    requires
        enum_writable(e, revision),
        arms_follow(e, revision, arms, variant_entries(assigned_discriminants(e, revision))),
        decode_arms_follow(
            e,
            revision,
            revision,
            decode,
            variant_entries(assigned_discriminants(e, revision)),
        ),
    ensures
        enum_decodable(e, revision, revision),
        decode.len() == arms.len(),
        forall|k: int|
            0 <= k < arms.len() ==> {
                &&& (#[trigger] decode[k]).variant == arms[k].variant
                &&& decode[k].id == arms[k].id
                &&& decode[k].size == arms[k].size
                &&& decode[k].fields@ == arms[k].fields@
                &&& !decode[k].converts
            },
{
    assert forall|j: int| 0 <= j < e.variants@.len() implies !#[trigger] undecodable(
        e,
        revision,
        revision,
        j,
    ) by {
        assert(!unwritable(e, revision, j));
    }
    let d = assigned_discriminants(e, revision);
    let r = choose|r: Seq<Option<u32>>|
        #[trigger] discriminants_assigned(e, revision, r) && forall|j: int|
            0 <= j < r.len() && r[j] is Some ==> r[j]->Some_0 < 32;
    lemma_assigned_discriminants(e, revision, r);
    assert(d.len() == e.variants@.len());
    assert(e.variants@.len() == e.variants.len());
    crate::expand::walk::lemma_variant_entries(d);
    assert forall|k: int| 0 <= k < arms.len() implies {
        &&& (#[trigger] decode[k]).variant == arms[k].variant
        &&& decode[k].id == arms[k].id
        &&& decode[k].size == arms[k].size
        &&& decode[k].fields@ == arms[k].fields@
        &&& !decode[k].converts
    } by {
        let j = variant_entries(d)[k].0 as int;
        assert(d[j] is Some);
        assert(e.variants@[j].attrs.spec_exists_at(revision));
    }
}

/// Built over entries with distinct ids below 32, the size table holds, at the id of
/// each entry whose variant is `fixed(N)`, that `N`.
proof fn lemma_size_table_at(e: Enum, entries: Seq<(usize, u32)>)
    requires
        forall|k: int| 0 <= k < entries.len() ==> (#[trigger] entries[k]).1 < 32,
        forall|i: int, k: int|
            0 <= i < k < entries.len() ==> (#[trigger] entries[i]).1 != (#[trigger] entries[k]).1,
    ensures
        size_table(e, entries).len() == 32,
        forall|k: int|
            0 <= k < entries.len() ==> (e.variants@[(#[trigger] entries[k]).0 as int].attrs.size
                matches Some(VariantSize::Fixed(n)) ==> size_table(e, entries)[entries[k].1 as int]
                == n),
    decreases entries.len(),
{
    if entries.len() > 0 {
        let init = entries.drop_last();
        lemma_size_table_at(e, init);
        assert forall|k: int|
            0 <= k < entries.len() implies (e.variants@[(#[trigger] entries[k]).0 as int].attrs.size
            matches Some(VariantSize::Fixed(n)) ==> size_table(e, entries)[entries[k].1 as int]
            == n) by {
            if k < init.len() {
                assert(init[k] == entries[k]);
                assert(entries[k].1 != entries.last().1);
            }
        }
    }
}

/// The generated skip of an optimised enum passes over a fixed variant's payload by
/// exactly the size the serialize body framed it with: an enum that can be written can
/// be skipped, and its size table holds each fixed variant's size at its id.
pub proof fn lemma_skip_table_matches_serialize(e: Enum, revision: usize, arms: Seq<EnumArm>)
    requires
        enum_writable(e, revision),
        arms_follow(e, revision, arms, variant_entries(assigned_discriminants(e, revision))),
    ensures
        enum_skippable(e, revision),
        size_table(e, variant_entries(assigned_discriminants(e, revision))).len() == 32,
        forall|k: int|
            0 <= k < arms.len() ==> ((#[trigger] arms[k]).size matches VariantSize::Fixed(n)
                ==> size_table(e, variant_entries(assigned_discriminants(e, revision)))[arms[k].id as int]
                == n),
{
    assert forall|j: int| 0 <= j < e.variants@.len() implies !#[trigger] lacks_size(
        e,
        revision,
        j,
    ) by {
        assert(!unwritable(e, revision, j));
    }
    let d = assigned_discriminants(e, revision);
    let r = choose|r: Seq<Option<u32>>|
        #[trigger] discriminants_assigned(e, revision, r) && forall|j: int|
            0 <= j < r.len() && r[j] is Some ==> r[j]->Some_0 < 32;
    lemma_assigned_discriminants(e, revision, r);
    assert(d.len() == e.variants@.len());
    assert(e.variants@.len() == e.variants.len());
    crate::expand::walk::lemma_variant_entries(d);
    crate::expand::common::lemma_discriminants_distinct(e, revision, d);
    let entries = variant_entries(d);
    assert forall|i: int, k: int|
        0 <= i < k < entries.len() implies (#[trigger] entries[i]).1 != (#[trigger] entries[k]).1 by {
        assert(d[entries[i].0 as int] == Some(entries[i].1));
        assert(d[entries[k].0 as int] == Some(entries[k].1));
    }
    assert forall|k: int| 0 <= k < entries.len() implies (#[trigger] entries[k]).1 < 32 by {
        assert(d[entries[k].0 as int] == Some(entries[k].1));
    }
    lemma_size_table_at(e, entries);
    assert forall|k: int| 0 <= k < arms.len() implies ((#[trigger] arms[k]).size matches VariantSize::Fixed(n)
        ==> size_table(e, entries)[arms[k].id as int] == n) by {
        assert(e.variants@[entries[k].0 as int].attrs.size == Some(arms[k].size));
    }
}

} // verus!
