//! What the generated walker of an item does: its names, per-field and per-variant
//! methods, per-revision tables and optimised arms, decided as plain values.
use vstd::prelude::*;

use crate::ast::attributes::VariantSize;
use crate::ast::history::{Encoding, HistoryEntry, StructEncoding};
use crate::ast::item::{fields_of, Enum, Field, FieldName, Fields, Item, ItemKind, Struct, Variant};
use crate::expand::common::{
    alive_field_positions, alive_positions, assigned_discriminants, CalcDiscriminant,
    discriminants_assigned, lemma_alive_positions_bound, lemma_assigned_discriminants,
    overrides_repeat,
};
use crate::expand::optimised::enum_codegen::{arms_follow, enum_writable, unwritable, EnumArm};
use crate::expand::validate_version::{lacks_size, ValidationError};
use crate::ast::text::{chars_of, decimal_digits, push_decimal, string_from_chars};

verus! {

/// Whether `char::is_uppercase` holds of `c` (the Unicode `Uppercase` property).
pub uninterp spec fn uppercase_property(c: char) -> bool;

/// The characters that `char::to_lowercase` gives for `c` (Unicode lowercase mapping).
pub uninterp spec fn lowercase_mapping(c: char) -> Seq<char>;

/// `char::is_uppercase`. Its result is named, not stated: it is Unicode's `Uppercase`
/// property of `c`, a table that depends on `c` alone.
#[verifier::external_body]
fn char_is_uppercase(c: char) -> (r: bool)
    ensures
        r == uppercase_property(c),
{
    c.is_uppercase()
}

/// `char::to_lowercase`, its characters collected. Its result is named, not stated:
/// it is Unicode's lowercase mapping of `c`, which depends on `c` alone.
#[verifier::external_body]
fn char_to_lowercase(c: char) -> (r: Vec<char>)
    ensures
        r@ == lowercase_mapping(c),
{
    c.to_lowercase().collect()
}

/// `s` with each uppercase character lowered and, but at the start, preceded by `_`.
pub open spec fn snake_case_chars(s: Seq<char>) -> Seq<char>
    decreases s.len(),
{
    if s.len() == 0 {
        Seq::empty()
    } else {
        let c = s.last();
        let sep = if uppercase_property(c) && s.len() > 1 {
            seq!['_']
        } else {
            Seq::empty()
        };
        snake_case_chars(s.drop_last()) + sep + lowercase_mapping(c)
    }
}

/// The snake-case form of an identifier: `FooBar` gives `foo_bar`.
pub fn snake_case(s: &str) -> (r: String)
    ensures
        r@ == snake_case_chars(s@),
{
    let chars = chars_of(s);
    let mut out: Vec<char> = Vec::new();
    let mut i: usize = 0;
    while i < chars.len()
        invariant
            i <= chars.len(),
            chars@ == s@,
            out@ == snake_case_chars(chars@.take(i as int)),
        decreases chars.len() - i,
    {
        let c = chars[i];
        assert(chars@.take(i + 1).drop_last() == chars@.take(i as int));
        if char_is_uppercase(c) && i > 0 {
            out.push('_');
        }
        let mut lower = char_to_lowercase(c);
        out.append(&mut lower);
        i = i + 1;
    }
    assert(chars@.take(chars@.len() as int) == chars@);
    string_from_chars(&out)
}

/// The base of the per-field method names of a field named `name`: its identifier, or
/// `field_<idx>` for a tuple field.
pub open spec fn method_base(name: FieldName, idx: nat) -> Seq<char> {
    match name {
        FieldName::Ident(i) => i@,
        FieldName::Index(_) => seq!['f', 'i', 'e', 'l', 'd', '_'] + decimal_digits(idx),
    }
}

/// The base of the per-field method names of a field: its identifier, or
/// `field_<fallback_idx>` for a tuple field.
pub fn field_method_base(name: &FieldName, fallback_idx: usize) -> (r: String)
    ensures
        r@ == method_base(*name, fallback_idx as nat),
{
    match name {
        FieldName::Ident(i) => i.clone(),
        FieldName::Index(_) => {
            let mut out: Vec<char> = Vec::new();
            out.push('f');
            out.push('i');
            out.push('e');
            out.push('l');
            out.push('d');
            out.push('_');
            push_decimal(&mut out, fallback_idx);
            string_from_chars(&out)
        },
    }
}

/// Whether the field is present at `revision`.
pub open spec fn field_alive(revision: usize) -> spec_fn(Field) -> bool {
    |f: Field| f.attrs.spec_exists_at(revision)
}

/// The fields of a struct, in declaration order.
pub fn collect_fields(s: &Struct) -> (r: Vec<&Field>)
    ensures
        r@.len() == s.fields.list().len(),
        forall|i: int| 0 <= i < r@.len() ==> *r@[i] == s.fields.list()[i],
{
    let fields = fields_of(&s.fields);
    let mut r: Vec<&Field> = Vec::new();
    let mut k: usize = 0;
    while k < fields.len()
        invariant
            k <= fields.len(),
            fields@ == s.fields.list(),
            r@.len() == k,
            forall|i: int| 0 <= i < k ==> *r@[i] == fields@[i],
        decreases fields.len() - k,
    {
        r.push(&fields[k]);
        k = k + 1;
    }
    r
}

/// The fields of a struct present at `revision`, in declaration order.
pub fn alive_fields(s: &Struct, revision: usize) -> (r: Vec<&Field>)
    ensures
        r@.len() == s.fields.list().filter(field_alive(revision)).len(),
        forall|i: int|
            0 <= i < r@.len() ==> *r@[i] == s.fields.list().filter(field_alive(revision))[i],
{
    let all = collect_fields(s);
    let ghost fs = s.fields.list();
    let mut r: Vec<&Field> = Vec::new();
    let mut k: usize = 0;
    while k < all.len()
        invariant
            k <= all.len(),
            all@.len() == fs.len(),
            forall|i: int| 0 <= i < all@.len() ==> *all@[i] == fs[i],
            r@.len() == fs.take(k as int).filter(field_alive(revision)).len(),
            forall|i: int|
                0 <= i < r@.len() ==> *r@[i] == fs.take(k as int).filter(field_alive(revision))[i],
        decreases all.len() - k,
    {
        let f = all[k];
        proof {
            reveal(Seq::filter);
            assert(fs.take(k + 1).drop_last() == fs.take(k as int));
            assert(fs.take(k + 1).last() == fs[k as int]);
        }
        if f.attrs.exists_at(revision) {
            r.push(f);
        }
        k = k + 1;
    }
    assert(fs.take(fs.len() as int) == fs);
    r
}

/// How many fields of a struct are present at `revision`.
pub fn alive_field_count(s: &Struct, revision: usize) -> (r: usize)
    ensures
        r == s.fields.list().filter(field_alive(revision)).len(),
{
    alive_fields(s, revision).len()
}

/// The variants that `d` gives a discriminant, by position, with that discriminant, in
/// order.
pub open spec fn variant_entries(d: Seq<Option<u32>>) -> Seq<(usize, u32)>
    decreases d.len(),
{
    if d.len() == 0 {
        Seq::empty()
    } else {
        let init = variant_entries(d.drop_last());
        match d.last() {
            Some(x) => init.push(((d.len() - 1) as usize, x)),
            None => init,
        }
    }
}

/// Each entry of `variant_entries(d)` names a position of `d` and the discriminant there.
pub proof fn lemma_variant_entries(d: Seq<Option<u32>>)
    requires
        d.len() <= usize::MAX,
    ensures
        forall|k: int|
            0 <= k < variant_entries(d).len() ==> (#[trigger] variant_entries(d)[k]).0 < d.len()
                && d[variant_entries(d)[k].0 as int] == Some(variant_entries(d)[k].1),
        forall|i: int, k: int|
            0 <= i < k < variant_entries(d).len() ==> (#[trigger] variant_entries(d)[i]).0
                < (#[trigger] variant_entries(d)[k]).0,
    decreases d.len(),
{
    if d.len() > 0 {
        lemma_variant_entries(d.drop_last());
        assert forall|i: int, k: int|
            0 <= i < k < variant_entries(d).len() implies (#[trigger] variant_entries(d)[i]).0
            < (#[trigger] variant_entries(d)[k]).0 by {
            let init = variant_entries(d.drop_last());
            if k < init.len() {
                assert(variant_entries(d)[k] == init[k]);
                assert(variant_entries(d)[i] == init[i]);
            } else {
                assert(variant_entries(d)[i] == init[i]);
                assert(init[i].0 < d.drop_last().len());
            }
        }
        assert forall|k: int| 0 <= k < variant_entries(d).len() implies (#[trigger] variant_entries(
            d,
        )[k]).0 < d.len() && d[variant_entries(d)[k].0 as int] == Some(variant_entries(d)[k].1) by {
            if k < variant_entries(d.drop_last()).len() {
                assert(variant_entries(d)[k] == variant_entries(d.drop_last())[k]);
                assert(d.drop_last()[variant_entries(d)[k].0 as int] == d[variant_entries(d)[k].0 as int]);
            }
        }
    }
}

/// The variant table of an enum at `revision`: each variant present there, by position
/// and in order, with its discriminant.
pub fn variant_table(e: &Enum, revision: usize) -> (r: Result<Vec<(usize, u32)>, ValidationError>)
    requires
        e.variants.len() < u32::MAX,
    ensures
        r is Err <==> overrides_repeat(*e, revision),
        r matches Err(err) ==> err == ValidationError::DiscriminantUsedTwice,
        r matches Ok(t) ==> exists|d: Seq<Option<u32>>|
            #[trigger] discriminants_assigned(*e, revision, d) && t@ == variant_entries(d),
{
    let discs = match CalcDiscriminant::new(revision).visit_enum(e) {
        Ok(d) => d,
        Err(err) => return Err(err),
    };
    let mut table: Vec<(usize, u32)> = Vec::new();
    let mut j: usize = 0;
    while j < discs.len()
        invariant
            j <= discs@.len(),
            table@ == variant_entries(discs@.take(j as int)),
        decreases discs@.len() - j,
    {
        assert(discs@.take(j + 1).drop_last() == discs@.take(j as int));
        if let Some(x) = discs[j] {
            table.push((j, x));
        }
        j = j + 1;
    }
    assert(discs@.take(discs@.len() as int) == discs@);
    assert(discriminants_assigned(*e, revision, discs@));
    Ok(table)
}


// -----------------------------------------------------------------------------
// Optimised enum walker arm
// -----------------------------------------------------------------------------

/// Whether the walker can read the optimised enum `e` written at `revision`: the
/// overrides do not repeat and every variant present declares its size class.
pub open spec fn walker_arm_ok(e: Enum, revision: usize) -> bool {
    &&& !overrides_repeat(e, revision)
    &&& forall|j: int| 0 <= j < e.variants@.len() ==> !#[trigger] lacks_size(e, revision, j)
}

/// Whether `err` is how the walker arm of `e` at `revision` is refused: repeated
/// overrides, then the first variant without a size class.
pub open spec fn walker_arm_refusal(e: Enum, revision: usize, err: ValidationError) -> bool {
    if overrides_repeat(e, revision) {
        err == ValidationError::DiscriminantUsedTwice
    } else {
        exists|j: int|
            0 <= j < e.variants@.len() && #[trigger] lacks_size(e, revision, j) && (forall|i: int|
                0 <= i < j ==> !#[trigger] lacks_size(e, revision, i)) && err
                == ValidationError::MissingSize(j as usize)
    }
}

/// The (variant id, size class) pairs of the variants in `entries`, in order: the id is
/// the discriminant cut to a byte.
pub open spec fn walker_sizes(e: Enum, entries: Seq<(usize, u32)>) -> Seq<(u8, VariantSize)> {
    entries.map_values(
        |en: (usize, u32)| (en.1 as u8, e.variants@[en.0 as int].attrs.size->Some_0),
    )
}

/// Decides the walker arm for an optimised enum entry: for each variant present, the
/// tag it is read by and the size class that frames the payload read whole.
pub fn emit_optimised_enum_walker_arm(e: &Enum, entry: &HistoryEntry) -> (r: Result<
    Vec<(u8, VariantSize)>,
    ValidationError,
>)
    requires
        e.variants.len() < u32::MAX,
    ensures
        r is Ok <==> walker_arm_ok(*e, entry.revision),
        r matches Err(err) ==> walker_arm_refusal(*e, entry.revision, err),
        r matches Ok(t) ==> t@ == walker_sizes(
            *e,
            variant_entries(assigned_discriminants(*e, entry.revision)),
        ),
{
    let rev = entry.revision;
    let discs = match CalcDiscriminant::new(rev).visit_enum(e) {
        Ok(d) => d,
        Err(err) => return Err(err),
    };
    proof {
        lemma_assigned_discriminants(*e, rev, discs@);
    }
    let n = e.variants.len();
    let mut sizes: Vec<(u8, VariantSize)> = Vec::new();
    let mut j: usize = 0;
    while j < n
        invariant
            n == e.variants@.len(),
            rev == entry.revision,
            discs@.len() == n,
            discriminants_assigned(*e, rev, discs@),
            !overrides_repeat(*e, rev),
            j <= n,
            forall|i: int| 0 <= i < j ==> !#[trigger] lacks_size(*e, rev, i),
            forall|k: int|
                0 <= k < variant_entries(discs@.take(j as int)).len() ==> e.variants@[
                    #[trigger] variant_entries(discs@.take(j as int))[k].0 as int
                ].attrs.size is Some,
            sizes@ == walker_sizes(*e, variant_entries(discs@.take(j as int))),
        decreases n - j,
    {
        assert(discs@.take(j + 1).drop_last() == discs@.take(j as int));
        let v = &e.variants[j];
        if v.attrs.exists_at(rev) {
            let size = match v.attrs.size {
                Some(s) => s,
                None => {
                    assert(lacks_size(*e, rev, j as int));
                    return Err(ValidationError::MissingSize(j));
                },
            };
            proof {
                if crate::expand::common::override_discriminant(*e, rev, j as int) is None {
                    assert(crate::expand::common::is_plain(*e, rev, j as int));
                }
            }
            let d = discs[j].unwrap();
            let ghost before = variant_entries(discs@.take(j as int));
            sizes.push((#[verifier::truncate] (d as u8), size));
            proof {
                let entries = variant_entries(discs@.take(j + 1));
                assert(entries == before.push((j, d)));
                assert(walker_sizes(*e, entries) == walker_sizes(*e, before).push(
                    (d as u8, size),
                ));
                assert forall|k: int| 0 <= k < entries.len() implies e.variants@[
                    #[trigger] entries[k].0 as int
                ].attrs.size is Some by {
                    if k < before.len() {
                        assert(entries[k] == before[k]);
                    }
                }
            }
        } else {
            assert(!lacks_size(*e, rev, j as int));
            assert(discs@[j as int] is None);
        }
        j = j + 1;
    }
    assert(discs@.take(n as int) == discs@);
    Ok(sizes)
}

// -----------------------------------------------------------------------------
// Struct walker methods
// -----------------------------------------------------------------------------

/// How the walker reads and skips a field.
#[derive(Debug, Clone, Copy, PartialEq, Eq, Structural)]
pub enum FieldCodec {
    /// Through the field type's own revisioned impls.
    Plain,
    /// `#[revision(indexed_map)]`: through the indexed-map format.
    IndexedMap,
    /// `#[revision(indexed_seq)]`: through the indexed-sequence format.
    IndexedSeq,
    /// `#[revision(indexed_set)]`: through the indexed-set format.
    IndexedSet,
}

/// How the walker reads the field `f`: the first indexed format it asks for, in the
/// order map, sequence, set; else its own impls.
pub open spec fn codec_of(f: Field) -> FieldCodec {
    if f.attrs.indexed_map {
        FieldCodec::IndexedMap
    } else if f.attrs.indexed_seq {
        FieldCodec::IndexedSeq
    } else if f.attrs.indexed_set {
        FieldCodec::IndexedSet
    } else {
        FieldCodec::Plain
    }
}

/// The walker methods of one field of the latest schema: `decode_<base>`,
/// `skip_<base>`, `walk_<base>` and `into_walk_<base>`.
#[derive(Debug)]
pub struct FieldMethods {
    /// The field's position among all fields.
    pub field: usize,
    /// The base of the method names.
    pub base: String,
    /// The first wire revision that holds the field (0 when it always did): below it the
    /// methods synthesise a default or refuse to walk.
    pub start: u16,
    /// How the field is read and skipped.
    pub codec: FieldCodec,
    /// Whether the field has a `default_fn`, which builds it below its start revision.
    pub default_fn: bool,
}

/// What `decode_<field>` does on a walker over the wire at a revision.
#[derive(Debug, Clone, Copy, PartialEq, Eq, Structural)]
pub enum FieldRead {
    /// The field is on the wire: it is read, through its codec.
    Read,
    /// The field was added later: its `default_fn` builds it from the wire revision,
    /// and no byte is read.
    DefaultFn,
    /// The field was added later: `Default::default()`, and no byte is read.
    DefaultValue,
}

/// What `decode_<field>` of `m` does on a walker over the wire at `wire_rev`.
pub open spec fn field_read(m: FieldMethods, wire_rev: u16) -> FieldRead {
    if wire_rev >= m.start {
        FieldRead::Read
    } else if m.default_fn {
        FieldRead::DefaultFn
    } else {
        FieldRead::DefaultValue
    }
}

/// Whether `walk_<field>` and `into_walk_<field>` of `m` are refused with a conversion
/// error, reading nothing: for a field read through its own impls, on a materialised
/// walker, or on a wire walker below the field's start.
pub open spec fn field_walk_refused(m: FieldMethods, materialised: bool, wire_rev: u16) -> bool {
    m.codec == FieldCodec::Plain && (materialised || wire_rev < m.start)
}

impl FieldMethods {
    /// What `decode_<field>` does on a walker over the wire at `wire_rev`: the field is
    /// read exactly when the wire revision is at least its start revision; otherwise it
    /// is built, without reading, by its `default_fn` or `Default`.
    pub fn decode_on_wire(&self, wire_rev: u16) -> (r: FieldRead)
        ensures
            r == field_read(*self, wire_rev),
    {
        if wire_rev >= self.start {
            FieldRead::Read
        } else if self.default_fn {
            FieldRead::DefaultFn
        } else {
            FieldRead::DefaultValue
        }
    }

    /// Whether `skip_<field>` passes over bytes on a walker over the wire at `wire_rev`:
    /// exactly when the field is on the wire there.
    pub fn skip_on_wire(&self, wire_rev: u16) -> (r: bool)
        ensures
            r == (wire_rev >= self.start),
    {
        wire_rev >= self.start
    }

    /// Whether `walk_<field>` and `into_walk_<field>` are refused with a conversion
    /// error. Fields in an indexed format are instead decoded and re-encoded, on any
    /// walker.
    pub fn walk_refused(&self, materialised: bool, wire_rev: u16) -> (r: bool)
        ensures
            r == field_walk_refused(*self, materialised, wire_rev),
    {
        match self.codec {
            FieldCodec::Plain => materialised || wire_rev < self.start,
            _ => false,
        }
    }
}

/// Whether `methods` are, in order, the methods of the fields at `positions` of
/// `fields`; the `k`-th is the `k`-th field of the latest schema.
pub open spec fn field_methods_follow(
    fields: Seq<Field>,
    methods: Seq<FieldMethods>,
    positions: Seq<usize>,
) -> bool {
    &&& methods.len() == positions.len()
    &&& forall|k: int|
        0 <= k < methods.len() ==> {
            let f = fields[positions[k] as int];
            &&& (#[trigger] methods[k]).field == positions[k]
            &&& methods[k].base@ == method_base(f.name, k as nat)
            &&& methods[k].start == f.attrs.start.unwrap_or(0) as u16
            &&& methods[k].codec == codec_of(f)
            &&& methods[k].default_fn == f.attrs.default is Some
        }
}

/// Decides the per-field walker methods of a struct whose latest revision is
/// `revision`: one set per field present there, in order.
pub fn emit_struct_methods(revision: usize, s: &Struct) -> (r: Vec<FieldMethods>)
    ensures
        field_methods_follow(s.fields.list(), r@, alive_positions(s.fields.list(), revision)),
{
    let fields = fields_of(&s.fields);
    let positions = alive_field_positions(fields, revision);
    proof {
        lemma_alive_positions_bound(fields@, revision);
    }
    let mut out: Vec<FieldMethods> = Vec::new();
    let mut k: usize = 0;
    while k < positions.len()
        invariant
            k <= positions@.len(),
            fields@ == s.fields.list(),
            positions@ == alive_positions(fields@, revision),
            forall|i: int| 0 <= i < positions@.len() ==> #[trigger] positions@[i] < fields@.len(),
            out@.len() == k,
            forall|i: int|
                0 <= i < k ==> {
                    let f = fields@[positions@[i] as int];
                    &&& (#[trigger] out@[i]).field == positions@[i]
                    &&& out@[i].base@ == method_base(f.name, i as nat)
                    &&& out@[i].start == f.attrs.start.unwrap_or(0) as u16
                    &&& out@[i].codec == codec_of(f)
                    &&& out@[i].default_fn == f.attrs.default is Some
                },
        decreases positions@.len() - k,
    {
        let pos = positions[k];
        let f = &fields[pos];
        let base = field_method_base(&f.name, k);
        let start: u16 = match f.attrs.start {
            Some(v) => #[verifier::truncate] (v as u16),
            None => 0,
        };
        let codec = if f.attrs.indexed_map {
            FieldCodec::IndexedMap
        } else if f.attrs.indexed_seq {
            FieldCodec::IndexedSeq
        } else if f.attrs.indexed_set {
            FieldCodec::IndexedSet
        } else {
            FieldCodec::Plain
        };
        let default_fn = f.attrs.default.is_some();
        out.push(FieldMethods { field: pos, base, start, codec, default_fn });
        k = k + 1;
    }
    out
}

// -----------------------------------------------------------------------------
// Enum walker methods
// -----------------------------------------------------------------------------

/// Which value-returning walker methods a variant gets besides `is_<variant>`.
#[derive(Debug, Clone, Copy, PartialEq, Eq, Structural)]
pub enum VariantShape {
    /// A unit variant: `into_<variant>` and `decode_<variant>` check the variant.
    Unit,
    /// A tuple variant with one field present (at this position): `into_<variant>`,
    /// `decode_<variant>` and `<variant>_view` reach that field.
    Single(usize),
    /// Any other variant: none.
    Other,
}

/// The shape of the variant `v` at `revision`.
pub open spec fn variant_shape(v: Variant, revision: usize) -> VariantShape {
    match v.fields {
        Fields::Unit => VariantShape::Unit,
        Fields::Unnamed(fs) => {
            let p = alive_positions(fs@, revision);
            if p.len() == 1 {
                VariantShape::Single(p[0])
            } else {
                VariantShape::Other
            }
        },
        Fields::Named(_) => VariantShape::Other,
    }
}

/// The walker methods of one variant of the latest schema.
#[derive(Debug)]
pub struct VariantMethods {
    /// The variant's position.
    pub variant: usize,
    /// The snake-case form of its name, the base of the method names.
    pub snake: String,
    /// Its discriminant at the latest revision, which a materialised walker holds.
    pub current: u32,
    /// Its discriminant at each wire revision `1..=latest` (entry `r - 1`), `None` where
    /// it is absent: what `is_<variant>` compares a wire walker's discriminant with.
    pub per_revision: Vec<Option<u32>>,
    /// Its value-returning methods.
    pub shape: VariantShape,
}

/// Whether `is_<variant>` of `m` holds of a walker holding `discriminant`: on a
/// materialised walker (re-encoded at the latest revision), when it is the variant's
/// latest discriminant; on a walker over the wire at `wire_rev`, when it is the
/// variant's discriminant at that revision.
pub open spec fn variant_matches(
    m: VariantMethods,
    materialised: bool,
    wire_rev: u16,
    discriminant: u32,
) -> bool {
    if materialised {
        discriminant == m.current
    } else {
        1 <= wire_rev <= m.per_revision@.len() && m.per_revision@[wire_rev - 1] == Some(
            discriminant,
        )
    }
}

/// What `into_<variant>` does.
#[derive(Debug, Clone, Copy, PartialEq, Eq, Structural)]
pub enum IntoVariant {
    /// The variant has no `into_<variant>` (neither unit nor a one-field tuple).
    Absent,
    /// The walker holds another variant: a deserialize error.
    Mismatch,
    /// A unit variant: `Ok(())`.
    Unit,
    /// A one-field tuple variant on a wire walker: the field's own walker.
    Walk,
    /// A one-field tuple variant on a materialised walker: a conversion error (its
    /// `decode_<variant>` reads the field instead).
    Conversion,
}

/// What `into_<variant>` of `m` does on a walker holding `discriminant`.
pub open spec fn into_variant(
    m: VariantMethods,
    materialised: bool,
    wire_rev: u16,
    discriminant: u32,
) -> IntoVariant {
    match m.shape {
        VariantShape::Other => IntoVariant::Absent,
        _ => if !variant_matches(m, materialised, wire_rev, discriminant) {
            IntoVariant::Mismatch
        } else {
            match m.shape {
                VariantShape::Unit => IntoVariant::Unit,
                _ => if materialised {
                    IntoVariant::Conversion
                } else {
                    IntoVariant::Walk
                },
            }
        },
    }
}

impl VariantMethods {
    /// What `is_<variant>` returns on a walker holding `discriminant`.
    pub fn is_variant(&self, materialised: bool, wire_rev: u16, discriminant: u32) -> (r: bool)
        ensures
            r == variant_matches(*self, materialised, wire_rev, discriminant),
    {
        if materialised {
            discriminant == self.current
        } else if wire_rev >= 1 && (wire_rev as usize) <= self.per_revision.len() {
            match self.per_revision[wire_rev as usize - 1] {
                Some(d) => d == discriminant,
                None => false,
            }
        } else {
            false
        }
    }

    /// What `into_<variant>` does on a walker holding `discriminant`.
    pub fn into_variant(&self, materialised: bool, wire_rev: u16, discriminant: u32) -> (r:
        IntoVariant)
        ensures
            r == into_variant(*self, materialised, wire_rev, discriminant),
    {
        match self.shape {
            VariantShape::Other => IntoVariant::Absent,
            VariantShape::Unit => if self.is_variant(materialised, wire_rev, discriminant) {
                IntoVariant::Unit
            } else {
                IntoVariant::Mismatch
            },
            VariantShape::Single(_) => if !self.is_variant(materialised, wire_rev, discriminant) {
                IntoVariant::Mismatch
            } else if materialised {
                IntoVariant::Conversion
            } else {
                IntoVariant::Walk
            },
        }
    }
}

/// The discriminant of the variant at `j` at the wire revision `r`, `None` where it is
/// absent.
pub open spec fn discriminant_at(e: Enum, r: usize, j: int) -> Option<u32> {
    if e.variants@[j].attrs.spec_exists_at(r) {
        assigned_discriminants(e, r)[j]
    } else {
        None
    }
}

/// Whether the discriminants the enum walker methods of `e` need cannot be computed:
/// overrides repeat at `revision`, or at a wire revision that holds a variant of the
/// latest schema.
pub open spec fn enum_methods_refused(e: Enum, revision: usize) -> bool {
    ||| overrides_repeat(e, revision)
    ||| exists|j: int, r: usize|
        0 <= j < e.variants@.len() && 1 <= r <= revision && e.variants@[j].attrs.spec_exists_at(
            revision,
        ) && #[trigger] e.variants@[j].attrs.spec_exists_at(r) && #[trigger] overrides_repeat(
            e,
            r,
        )
}

/// Whether `methods` are, in order, the walker methods of the variants in `entries`
/// (position and discriminant of each variant present at `revision`).
pub open spec fn variant_methods_follow(
    e: Enum,
    revision: usize,
    methods: Seq<VariantMethods>,
    entries: Seq<(usize, u32)>,
) -> bool {
    &&& methods.len() == entries.len()
    &&& forall|k: int|
        0 <= k < methods.len() ==> {
            let j = entries[k].0 as int;
            &&& (#[trigger] methods[k]).variant == entries[k].0
            &&& methods[k].snake@ == snake_case_chars(e.variants@[j].ident@)
            &&& methods[k].current == entries[k].1
            &&& methods[k].per_revision@.len() == revision
            &&& forall|r: int|
                1 <= r <= revision ==> #[trigger] methods[k].per_revision@[r - 1]
                    == discriminant_at(e, r as usize, j)
            &&& methods[k].shape == variant_shape(e.variants@[j], revision)
        }
}

/// The discriminants at each wire revision `1..=revision` of the variant at `j`.
fn variant_discriminants_by_revision(e: &Enum, revision: usize, j: usize) -> (r: Result<
    Vec<Option<u32>>,
    ValidationError,
>)
    requires
        e.variants.len() < u32::MAX,
        j < e.variants@.len(),
    ensures
        r is Err <==> exists|rr: usize|
            1 <= rr <= revision && #[trigger] e.variants@[j as int].attrs.spec_exists_at(rr)
                && overrides_repeat(*e, rr),
        r matches Err(err) ==> err == ValidationError::DiscriminantUsedTwice,
        r matches Ok(t) ==> t@.len() == revision && forall|rr: int|
            1 <= rr <= revision ==> #[trigger] t@[rr - 1] == discriminant_at(*e, rr as usize, j as int),
{
    let v = &e.variants[j];
    let mut out: Vec<Option<u32>> = Vec::new();
    let mut i: usize = 0;
    while i < revision
        invariant
            e.variants.len() < u32::MAX,
            j < e.variants@.len(),
            *v == e.variants@[j as int],
            i <= revision,
            out@.len() == i,
            forall|rr: usize|
                1 <= rr <= i && #[trigger] e.variants@[j as int].attrs.spec_exists_at(rr)
                    ==> !overrides_repeat(*e, rr),
            forall|rr: int|
                1 <= rr <= i ==> #[trigger] out@[rr - 1] == discriminant_at(*e, rr as usize, j as int),
        decreases revision - i,
    {
        let r = i + 1;
        let ghost before = out@;
        if v.attrs.exists_at(r) {
            let discs = match CalcDiscriminant::new(r).visit_enum(e) {
                Ok(d) => d,
                Err(err) => return Err(err),
            };
            proof {
                lemma_assigned_discriminants(*e, r, discs@);
            }
            out.push(discs[j]);
        } else {
            out.push(None);
        }
        proof {
            assert forall|rr: int| 1 <= rr <= r implies #[trigger] out@[rr - 1] == discriminant_at(
                *e,
                rr as usize,
                j as int,
            ) by {
                if rr < r {
                    assert(out@[rr - 1] == before[rr - 1]);
                }
            }
        }
        i = i + 1;
    }
    Ok(out)
}

/// Decides the per-variant walker methods of an enum whose latest revision is
/// `revision`: one set per variant present there, in order.
pub fn emit_enum_methods(revision: usize, e: &Enum) -> (r: Result<
    Vec<VariantMethods>,
    ValidationError,
>)
    requires
        e.variants.len() < u32::MAX,
    ensures
        r is Err <==> enum_methods_refused(*e, revision),
        r matches Err(err) ==> err == ValidationError::DiscriminantUsedTwice,
        r matches Ok(m) ==> variant_methods_follow(
            *e,
            revision,
            m@,
            variant_entries(assigned_discriminants(*e, revision)),
        ),
{
    let discs = match CalcDiscriminant::new(revision).visit_enum(e) {
        Ok(d) => d,
        Err(err) => return Err(err),
    };
    proof {
        lemma_assigned_discriminants(*e, revision, discs@);
    }
    let n = e.variants.len();
    let mut out: Vec<VariantMethods> = Vec::new();
    let mut j: usize = 0;
    while j < n
        invariant
            n == e.variants@.len(),
            n < u32::MAX,
            discs@.len() == n,
            discriminants_assigned(*e, revision, discs@),
            assigned_discriminants(*e, revision) == discs@,
            !overrides_repeat(*e, revision),
            j <= n,
            forall|jj: int, rr: usize|
                0 <= jj < j && 1 <= rr <= revision && e.variants@[jj].attrs.spec_exists_at(revision)
                    && #[trigger] e.variants@[jj].attrs.spec_exists_at(rr) ==> !overrides_repeat(
                    *e,
                    rr,
                ),
            variant_methods_follow(*e, revision, out@, variant_entries(discs@.take(j as int))),
        decreases n - j,
    {
        assert(discs@.take(j + 1).drop_last() == discs@.take(j as int));
        let v = &e.variants[j];
        if v.attrs.exists_at(revision) {
            proof {
                if crate::expand::common::override_discriminant(*e, revision, j as int) is None {
                    assert(crate::expand::common::is_plain(*e, revision, j as int));
                }
            }
            let current = discs[j].unwrap();
            let per_revision = match variant_discriminants_by_revision(e, revision, j) {
                Ok(t) => t,
                Err(err) => return Err(err),
            };
            let snake = snake_case(v.ident.as_str());
            let shape = match &v.fields {
                Fields::Unit => VariantShape::Unit,
                Fields::Unnamed(fs) => {
                    let p = alive_field_positions(fs.as_slice(), revision);
                    if p.len() == 1 {
                        VariantShape::Single(p[0])
                    } else {
                        VariantShape::Other
                    }
                },
                Fields::Named(_) => VariantShape::Other,
            };
            let ghost before = out@;
            let ghost entries0 = variant_entries(discs@.take(j as int));
            out.push(VariantMethods { variant: j, snake, current, per_revision, shape });
            proof {
                let entries = variant_entries(discs@.take(j + 1));
                assert(entries == entries0.push((j, current)));
                assert forall|k: int| 0 <= k < out@.len() implies {
                    let jj = entries[k].0 as int;
                    &&& (#[trigger] out@[k]).variant == entries[k].0
                    &&& out@[k].snake@ == snake_case_chars(e.variants@[jj].ident@)
                    &&& out@[k].current == entries[k].1
                    &&& out@[k].per_revision@.len() == revision
                    &&& forall|r: int|
                        1 <= r <= revision ==> #[trigger] out@[k].per_revision@[r - 1]
                            == discriminant_at(*e, r as usize, jj)
                    &&& out@[k].shape == variant_shape(e.variants@[jj], revision)
                } by {
                    if k < before.len() {
                        assert(out@[k] == before[k]);
                        assert(entries[k] == entries0[k]);
                    }
                }
            }
        } else {
            assert(discs@[j as int] is None);
        }
        j = j + 1;
    }
    assert(discs@.take(n as int) == discs@);
    Ok(out)
}

// -----------------------------------------------------------------------------
// Per-revision introspection tables
// -----------------------------------------------------------------------------

/// Decides the per-revision variant tables of an enum whose latest revision is
/// `revision`: for each wire revision `1..=revision`, the variants present there, by
/// position and in order, with their discriminants.
pub fn emit_variant_tables(revision: usize, e: &Enum) -> (r: Result<
    Vec<Vec<(usize, u32)>>,
    ValidationError,
>)
    requires
        e.variants.len() < u32::MAX,
    ensures
        r is Err <==> exists|rr: usize| 1 <= rr <= revision && #[trigger] overrides_repeat(*e, rr),
        r matches Err(err) ==> err == ValidationError::DiscriminantUsedTwice,
        r matches Ok(t) ==> t@.len() == revision && forall|rr: int|
            1 <= rr <= revision ==> (#[trigger] t@[rr - 1])@ == variant_entries(
                assigned_discriminants(*e, rr as usize),
            ),
{
    let mut out: Vec<Vec<(usize, u32)>> = Vec::new();
    let mut i: usize = 0;
    while i < revision
        invariant
            e.variants.len() < u32::MAX,
            i <= revision,
            out@.len() == i,
            forall|rr: usize| 1 <= rr <= i ==> !#[trigger] overrides_repeat(*e, rr),
            forall|rr: int|
                1 <= rr <= i ==> (#[trigger] out@[rr - 1])@ == variant_entries(
                    assigned_discriminants(*e, rr as usize),
                ),
        decreases revision - i,
    {
        let r = i + 1;
        let table = match variant_table(e, r) {
            Ok(t) => t,
            Err(err) => return Err(err),
        };
        proof {
            let d = choose|d: Seq<Option<u32>>|
                #[trigger] discriminants_assigned(*e, r, d) && table@ == variant_entries(d);
            lemma_assigned_discriminants(*e, r, d);
        }
        let ghost before = out@;
        out.push(table);
        proof {
            assert forall|rr: int| 1 <= rr <= r implies (#[trigger] out@[rr - 1])@
                == variant_entries(assigned_discriminants(*e, rr as usize)) by {
                if rr < r {
                    assert(out@[rr - 1] == before[rr - 1]);
                }
            }
        }
        i = i + 1;
    }
    Ok(out)
}

/// The name a field is listed by: its identifier, or its position in a tuple struct.
pub open spec fn field_label(name: FieldName) -> Seq<char> {
    match name {
        FieldName::Ident(i) => i@,
        FieldName::Index(i) => decimal_digits(i as nat),
    }
}

/// The name a field is listed by.
fn field_label_of(name: &FieldName) -> (r: String)
    ensures
        r@ == field_label(*name),
{
    match name {
        FieldName::Ident(i) => i.clone(),
        FieldName::Index(i) => {
            let mut out: Vec<char> = Vec::new();
            push_decimal(&mut out, *i);
            string_from_chars(&out)
        },
    }
}

/// Whether `labels` list, in order, the fields at `positions` of `fields`.
pub open spec fn labels_follow(fields: Seq<Field>, labels: Seq<String>, positions: Seq<usize>) -> bool {
    &&& labels.len() == positions.len()
    &&& forall|k: int|
        0 <= k < labels.len() ==> (#[trigger] labels[k])@ == field_label(
            fields[positions[k] as int].name,
        )
}

/// The names of the fields present at `revision`, in declaration order.
fn field_names_at(s: &Struct, revision: usize) -> (r: Vec<String>)
    ensures
        labels_follow(s.fields.list(), r@, alive_positions(s.fields.list(), revision)),
{
    let fields = fields_of(&s.fields);
    let positions = alive_field_positions(fields, revision);
    proof {
        lemma_alive_positions_bound(fields@, revision);
    }
    let mut out: Vec<String> = Vec::new();
    let mut k: usize = 0;
    while k < positions.len()
        invariant
            k <= positions@.len(),
            fields@ == s.fields.list(),
            positions@ == alive_positions(fields@, revision),
            forall|i: int| 0 <= i < positions@.len() ==> #[trigger] positions@[i] < fields@.len(),
            out@.len() == k,
            forall|i: int|
                0 <= i < k ==> (#[trigger] out@[i])@ == field_label(
                    fields@[positions@[i] as int].name,
                ),
        decreases positions@.len() - k,
    {
        out.push(field_label_of(&fields[positions[k]].name));
        k = k + 1;
    }
    out
}

/// Decides the per-revision field tables of a struct whose latest revision is
/// `revision`: for each wire revision `1..=revision`, the names of the fields present
/// there, in declaration order.
pub fn emit_field_tables(revision: usize, s: &Struct) -> (r: Vec<Vec<String>>)
    ensures
        r@.len() == revision,
        forall|rr: int|
            1 <= rr <= revision ==> labels_follow(
                s.fields.list(),
                (#[trigger] r@[rr - 1])@,
                alive_positions(s.fields.list(), rr as usize),
            ),
{
    let mut out: Vec<Vec<String>> = Vec::new();
    let mut i: usize = 0;
    while i < revision
        invariant
            i <= revision,
            out@.len() == i,
            forall|rr: int|
                1 <= rr <= i ==> labels_follow(
                    s.fields.list(),
                    (#[trigger] out@[rr - 1])@,
                    alive_positions(s.fields.list(), rr as usize),
                ),
        decreases revision - i,
    {
        let r = i + 1;
        let names = field_names_at(s, r);
        let ghost before = out@;
        out.push(names);
        proof {
            assert forall|rr: int| 1 <= rr <= r implies labels_follow(
                s.fields.list(),
                (#[trigger] out@[rr - 1])@,
                alive_positions(s.fields.list(), rr as usize),
            ) by {
                if rr < r {
                    assert(out@[rr - 1] == before[rr - 1]);
                }
            }
        }
        i = i + 1;
    }
    out
}

// -----------------------------------------------------------------------------
// The walker as a whole
// -----------------------------------------------------------------------------

/// How the walker starts on a value written at one optimised revision.
#[derive(Debug)]
pub enum OptimisedWalkArm {
    /// An indexed struct: the payload is read whole and its fields reached through the
    /// offset table at its start.
    IndexedStruct { revision: u16, field_count: u16 },
    /// A struct without offset table: the payload length is read past and the fields
    /// walked in place.
    SequentialStruct { revision: u16 },
    /// An enum: the tag is read, then the payload of the variant it names, framed by
    /// that variant's size class, read whole.
    Enum { revision: u16, variants: Vec<(u8, VariantSize)> },
}

/// The per-field or per-variant methods of a walker.
#[derive(Debug)]
pub enum WalkMethods {
    Struct(Vec<FieldMethods>),
    Enum(Vec<VariantMethods>),
}

/// The per-revision introspection tables of a walked type.
#[derive(Debug)]
pub enum WalkTables {
    /// For each wire revision, the names of the fields present.
    Fields(Vec<Vec<String>>),
    /// For each wire revision, the variants present with their discriminants.
    Variants(Vec<Vec<(usize, u32)>>),
}

/// What the generated walker of an item does.
#[derive(Debug)]
pub struct WalkPlan {
    /// The latest revision, which the walker's header is checked against.
    pub revision: u16,
    /// Whether a value at an older wire revision is deserialized and re-encoded at the
    /// latest revision before it is walked (types with a `convert_fn` that both
    /// serialize and deserialize).
    pub materialise: bool,
    /// One arm per optimised entry of the history, in order.
    pub optimised: Vec<OptimisedWalkArm>,
    pub methods: WalkMethods,
    pub tables: WalkTables,
}

/// The optimised entries of `history`, in order.
pub open spec fn optimised_entries(history: Seq<HistoryEntry>) -> Seq<HistoryEntry> {
    history.filter(|h: HistoryEntry| h.encoding == Encoding::Optimised)
}

/// The walker arm of a struct at the optimised `entry`, whose latest schema has
/// `field_count` fields.
pub open spec fn struct_walk_arm(entry: HistoryEntry, field_count: nat) -> OptimisedWalkArm {
    if entry.struct_kind == StructEncoding::Indexed {
        OptimisedWalkArm::IndexedStruct {
            revision: entry.revision as u16,
            field_count: field_count as u16,
        }
    } else {
        OptimisedWalkArm::SequentialStruct { revision: entry.revision as u16 }
    }
}

/// Whether the arm is the walker arm of an item of kind `kind` at the optimised
/// `entry`.
pub open spec fn walk_arm_follows(
    kind: ItemKind,
    revision: usize,
    arm: OptimisedWalkArm,
    entry: HistoryEntry,
) -> bool {
    match kind {
        ItemKind::Struct(s) => arm == struct_walk_arm(
            entry,
            alive_positions(s.fields.list(), revision).len(),
        ),
        ItemKind::Enum(e) => arm matches OptimisedWalkArm::Enum { revision: rv, variants } && rv
            == entry.revision as u16 && variants@ == walker_sizes(
            e,
            variant_entries(assigned_discriminants(e, entry.revision)),
        ),
    }
}

/// Whether `arms` are, in order, the walker arms at the optimised `entries`.
pub open spec fn walk_arms_follow(
    kind: ItemKind,
    revision: usize,
    arms: Seq<OptimisedWalkArm>,
    entries: Seq<HistoryEntry>,
) -> bool {
    &&& arms.len() == entries.len()
    &&& forall|k: int|
        0 <= k < arms.len() ==> walk_arm_follows(kind, revision, #[trigger] arms[k], entries[k])
}

/// Whether every walker arm of the enum `e` at the optimised `entries` can be built.
pub open spec fn walk_arms_ok(e: Enum, entries: Seq<HistoryEntry>) -> bool {
    forall|k: int| 0 <= k < entries.len() ==> walker_arm_ok(e, #[trigger] entries[k].revision)
}

/// Whether the walker of an item can be generated.
pub open spec fn walk_ok(
    item: Item,
    revision: usize,
    history: Seq<HistoryEntry>,
    has_convert_fn: bool,
    serialize_enabled: bool,
    deserialize_enabled: bool,
) -> bool {
    &&& !(has_convert_fn && !(serialize_enabled && deserialize_enabled))
    &&& match item.kind {
        ItemKind::Struct(_) => true,
        ItemKind::Enum(e) => {
            &&& walk_arms_ok(e, optimised_entries(history))
            &&& !enum_methods_refused(e, revision)
            &&& !exists|rr: usize| 1 <= rr <= revision && #[trigger] overrides_repeat(e, rr)
        },
    }
}

/// Whether `err` is how the walker generator refuses an item: a `convert_fn` without
/// both directions, then the first optimised entry whose arm cannot be built, then a
/// repeated override in the method or table discriminants.
pub open spec fn walk_refusal(
    item: Item,
    revision: usize,
    history: Seq<HistoryEntry>,
    has_convert_fn: bool,
    serialize_enabled: bool,
    deserialize_enabled: bool,
    err: ValidationError,
) -> bool {
    if has_convert_fn && !(serialize_enabled && deserialize_enabled) {
        err == ValidationError::WalkNeedsRoundTrip
    } else {
        match item.kind {
            ItemKind::Struct(_) => false,
            ItemKind::Enum(e) => {
                let opt = optimised_entries(history);
                if !walk_arms_ok(e, opt) {
                    exists|k: int|
                        0 <= k < opt.len() && !walker_arm_ok(e, #[trigger] opt[k].revision)
                            && (forall|i: int|
                            0 <= i < k ==> walker_arm_ok(e, #[trigger] opt[i].revision))
                            && walker_arm_refusal(e, opt[k].revision, err)
                } else {
                    err == ValidationError::DiscriminantUsedTwice
                }
            },
        }
    }
}

/// Whether `m` are the walker methods of an item of kind `kind`.
pub open spec fn walk_methods_follow(kind: ItemKind, revision: usize, m: WalkMethods) -> bool {
    match kind {
        ItemKind::Struct(s) => m matches WalkMethods::Struct(v) && field_methods_follow(
            s.fields.list(),
            v@,
            alive_positions(s.fields.list(), revision),
        ),
        ItemKind::Enum(e) => m matches WalkMethods::Enum(v) && variant_methods_follow(
            e,
            revision,
            v@,
            variant_entries(assigned_discriminants(e, revision)),
        ),
    }
}

/// Whether `t` are the introspection tables of an item of kind `kind`.
pub open spec fn walk_tables_follow(kind: ItemKind, revision: usize, t: WalkTables) -> bool {
    match kind {
        ItemKind::Struct(s) => t matches WalkTables::Fields(v) && v@.len() == revision && forall|
            rr: int,
        |
            1 <= rr <= revision ==> labels_follow(
                s.fields.list(),
                (#[trigger] v@[rr - 1])@,
                alive_positions(s.fields.list(), rr as usize),
            ),
        ItemKind::Enum(e) => t matches WalkTables::Variants(v) && v@.len() == revision && forall|
            rr: int,
        |
            1 <= rr <= revision ==> (#[trigger] v@[rr - 1])@ == variant_entries(
                assigned_discriminants(e, rr as usize),
            ),
    }
}

/// Decides the walker of an item whose latest revision is `revision`, given its
/// history, whether it has a `convert_fn`, and whether it serializes and deserializes.
pub fn emit_walk_impl(
    revision: usize,
    item: &Item,
    history: &[HistoryEntry],
    has_convert_fn: bool,
    serialize_enabled: bool,
    deserialize_enabled: bool,
) -> (r: Result<WalkPlan, ValidationError>)
    requires
        item.kind matches ItemKind::Enum(e) ==> e.variants.len() < u32::MAX,
    ensures
        r is Ok <==> walk_ok(
            *item,
            revision,
            history@,
            has_convert_fn,
            serialize_enabled,
            deserialize_enabled,
        ),
        r matches Err(err) ==> walk_refusal(
            *item,
            revision,
            history@,
            has_convert_fn,
            serialize_enabled,
            deserialize_enabled,
            err,
        ),
        r matches Ok(p) ==> {
            &&& p.revision == revision as u16
            &&& p.materialise == (has_convert_fn && serialize_enabled && deserialize_enabled)
            &&& walk_arms_follow(item.kind, revision, p.optimised@, optimised_entries(history@))
            &&& walk_methods_follow(item.kind, revision, p.methods)
            &&& walk_tables_follow(item.kind, revision, p.tables)
        },
{
    if has_convert_fn && !(serialize_enabled && deserialize_enabled) {
        return Err(ValidationError::WalkNeedsRoundTrip);
    }
    let materialise = has_convert_fn && serialize_enabled && deserialize_enabled;
    let mut arms: Vec<OptimisedWalkArm> = Vec::new();
    let mut k: usize = 0;
    while k < history.len()
        invariant
            k <= history@.len(),
            !(has_convert_fn && !(serialize_enabled && deserialize_enabled)),
            item.kind matches ItemKind::Enum(e) ==> e.variants.len() < u32::MAX,
            walk_arms_follow(item.kind, revision, arms@, optimised_entries(history@.take(k as int))),
            item.kind matches ItemKind::Enum(e) ==> walk_arms_ok(
                e,
                optimised_entries(history@.take(k as int)),
            ),
        decreases history@.len() - k,
    {
        let h = &history[k];
        let ghost opt0 = optimised_entries(history@.take(k as int));
        proof {
            reveal(Seq::filter);
            assert(history@.take(k + 1).drop_last() == history@.take(k as int));
            assert(history@.take(k + 1).last() == *h);
        }
        if h.is_optimised() {
            let arm = match &item.kind {
                ItemKind::Struct(s) => {
                    let count = alive_field_positions(fields_of(&s.fields), revision).len();
                    match h.struct_kind {
                        StructEncoding::Indexed => OptimisedWalkArm::IndexedStruct {
                            revision: #[verifier::truncate] (h.revision as u16),
                            field_count: #[verifier::truncate] (count as u16),
                        },
                        StructEncoding::Default => OptimisedWalkArm::SequentialStruct {
                            revision: #[verifier::truncate] (h.revision as u16),
                        },
                    }
                },
                ItemKind::Enum(e) => {
                    let variants = match emit_optimised_enum_walker_arm(e, h) {
                        Ok(v) => v,
                        Err(err) => {
                            proof {
                                let opt = optimised_entries(history@);
                                let opt1 = optimised_entries(history@.take(k + 1));
                                assert(opt1 == opt0.push(*h));
                                lemma_filter_prefix(history@, k as int);
                                assert(opt[opt0.len() as int] == opt1[opt0.len() as int]);
                                assert(opt[opt0.len() as int] == *h);
                                assert forall|i: int| 0 <= i < opt0.len() implies walker_arm_ok(
                                    *e,
                                    #[trigger] opt[i].revision,
                                ) by {
                                    assert(opt[i] == opt1[i]);
                                    assert(opt1[i] == opt0[i]);
                                }
                                assert(!walker_arm_ok(*e, opt[opt0.len() as int].revision));
                                assert(walker_arm_refusal(*e, opt[opt0.len() as int].revision, err));
                                assert(!walk_arms_ok(*e, opt));
                            }
                            return Err(err);
                        },
                    };
                    OptimisedWalkArm::Enum { revision: #[verifier::truncate] (h.revision as u16), variants }
                },
            };
            let ghost before = arms@;
            arms.push(arm);
            proof {
                let opt1 = optimised_entries(history@.take(k + 1));
                assert(opt1 == opt0.push(*h));
                assert forall|i: int| 0 <= i < arms@.len() implies walk_arm_follows(
                    item.kind,
                    revision,
                    #[trigger] arms@[i],
                    opt1[i],
                ) by {
                    if i < before.len() {
                        assert(arms@[i] == before[i]);
                    }
                }
                if item.kind is Enum {
                    let e = item.kind->Enum_0;
                    assert forall|i: int| 0 <= i < opt1.len() implies walker_arm_ok(
                        e,
                        #[trigger] opt1[i].revision,
                    ) by {
                        if i < opt0.len() {
                            assert(opt1[i] == opt0[i]);
                        }
                    }
                }
            }
        } else {
            assert(optimised_entries(history@.take(k + 1)) == opt0);
        }
        k = k + 1;
    }
    assert(history@.take(history@.len() as int) == history@);
    let methods = match &item.kind {
        ItemKind::Struct(s) => WalkMethods::Struct(emit_struct_methods(revision, s)),
        ItemKind::Enum(e) => match emit_enum_methods(revision, e) {
            Ok(m) => WalkMethods::Enum(m),
            Err(err) => return Err(err),
        },
    };
    let tables = match &item.kind {
        ItemKind::Struct(s) => WalkTables::Fields(emit_field_tables(revision, s)),
        ItemKind::Enum(e) => match emit_variant_tables(revision, e) {
            Ok(t) => WalkTables::Variants(t),
            Err(err) => return Err(err),
        },
    };
    Ok(WalkPlan {
        revision: #[verifier::truncate] (revision as u16),
        materialise,
        optimised: arms,
        methods,
        tables,
    })
}

/// The optimised entries of a prefix of a history are a prefix of its optimised
/// entries.
proof fn lemma_filter_prefix(history: Seq<HistoryEntry>, k: int)
    requires
        0 <= k < history.len(),
    ensures
        optimised_entries(history.take(k + 1)).len() <= optimised_entries(history).len(),
        forall|i: int|
            0 <= i < optimised_entries(history.take(k + 1)).len() ==> #[trigger] optimised_entries(
                history,
            )[i] == optimised_entries(history.take(k + 1))[i],
    decreases history.len() - k,
{
    reveal(Seq::filter);
    if k + 1 < history.len() {
        lemma_filter_prefix(history, k + 1);
        assert(history.take(k + 2).drop_last() == history.take(k + 1));
    } else {
        assert(history.take(k + 1) == history);
    }
}

/// The walker of an optimised enum reads each variant's payload under the tag and size
/// class that the generated serialize body wrote it with.
pub proof fn lemma_walker_reads_serialized_framing(e: Enum, revision: usize, arms: Seq<EnumArm>)
    requires
        enum_writable(e, revision),
        arms_follow(e, revision, arms, variant_entries(assigned_discriminants(e, revision))),
    ensures
        walker_arm_ok(e, revision),
        walker_sizes(e, variant_entries(assigned_discriminants(e, revision))).len() == arms.len(),
        forall|k: int|
            0 <= k < arms.len() ==> #[trigger] walker_sizes(
                e,
                variant_entries(assigned_discriminants(e, revision)),
            )[k] == (arms[k].id, arms[k].size),
{
    assert forall|j: int| 0 <= j < e.variants@.len() implies !#[trigger] lacks_size(
        e,
        revision,
        j,
    ) by {
        assert(!unwritable(e, revision, j));
    }
}

/// The revision an optimised walker arm is for.
pub open spec fn arm_revision(a: OptimisedWalkArm) -> u16 {
    match a {
        OptimisedWalkArm::IndexedStruct { revision, .. } => revision,
        OptimisedWalkArm::SequentialStruct { revision } => revision,
        OptimisedWalkArm::Enum { revision, .. } => revision,
    }
}

/// The position of the first arm of `arms` for revision `r`.
pub open spec fn find_walk_arm(arms: Seq<OptimisedWalkArm>, r: u16) -> Option<int>
    decreases arms.len(),
{
    if arms.len() == 0 {
        None
    } else if arm_revision(arms[0]) == r {
        Some(0)
    } else {
        match find_walk_arm(arms.drop_first(), r) {
            Some(k) => Some(k + 1),
            None => None,
        }
    }
}

/// How the generated `walk_revisioned` starts once it has read the `u16` wire revision.
#[derive(Debug, Clone, Copy, PartialEq, Eq, Structural)]
pub enum WalkStart {
    /// Revision 0, or one above the latest: a deserialize error.
    InvalidRevision,
    /// The value is deserialized at the wire revision (honouring its `convert_fn`s),
    /// serialized again at the latest revision, and walked over those bytes from just
    /// past their revision header (and, for an enum, past its `u32` discriminant).
    Materialise,
    /// The optimised arm at this position prepares the walker (see
    /// [`OptimisedWalkArm`]); a sequential struct then walks the wire in place.
    Optimised(usize),
    /// The value is walked in place on the wire at its revision (an enum reads its `u32`
    /// discriminant first).
    Wire,
}

/// How the walker of `p` starts on a value written at `wire_rev`.
pub open spec fn walk_start(p: WalkPlan, wire_rev: u16) -> WalkStart {
    if wire_rev == 0 || wire_rev > p.revision {
        WalkStart::InvalidRevision
    } else if p.materialise && wire_rev != p.revision {
        WalkStart::Materialise
    } else {
        match find_walk_arm(p.optimised@, wire_rev) {
            Some(k) => WalkStart::Optimised(k as usize),
            None => WalkStart::Wire,
        }
    }
}

impl WalkPlan {
    /// How the walker starts on a value written at `wire_rev`: the header check, then
    /// the materialised path, then the optimised arm for that revision, else in place.
    pub fn start(&self, wire_rev: u16) -> (r: WalkStart)
        ensures
            r == walk_start(*self, wire_rev),
    {
        if wire_rev == 0 || wire_rev > self.revision {
            return WalkStart::InvalidRevision;
        }
        if self.materialise && wire_rev != self.revision {
            return WalkStart::Materialise;
        }
        let mut k: usize = 0;
        assert(self.optimised@.skip(0) =~= self.optimised@);
        while k < self.optimised.len()
            invariant
                k <= self.optimised@.len(),
                1 <= wire_rev <= self.revision,
                !(self.materialise && wire_rev != self.revision),
                find_walk_arm(self.optimised@, wire_rev) == match find_walk_arm(
                    self.optimised@.skip(k as int),
                    wire_rev,
                ) {
                    Some(j) => Some(j + k),
                    None => None::<int>,
                },
            decreases self.optimised@.len() - k,
        {
            assert(self.optimised@.skip(k as int).drop_first() == self.optimised@.skip(k + 1));
            let rv = match &self.optimised[k] {
                OptimisedWalkArm::IndexedStruct { revision, .. } => *revision,
                OptimisedWalkArm::SequentialStruct { revision } => *revision,
                OptimisedWalkArm::Enum { revision, .. } => *revision,
            };
            if rv == wire_rev {
                return WalkStart::Optimised(k);
            }
            k = k + 1;
        }
        WalkStart::Wire
    }
}

} // verus!
