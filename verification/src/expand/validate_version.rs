//! Checks on an item's options against its history, run before any code is generated.
use vstd::prelude::*;

use crate::ast::history::{Encoding, HistoryEntry};
use crate::ast::item::{fields_of, Enum, Field, Fields, Item, ItemKind, Variant};
use crate::expand::common::{
    CalcDiscriminant, discriminants_assigned, lemma_discriminants_unique, overrides_repeat,
};

verus! {

/// Why an item was refused before code generation.
#[derive(Debug, Clone, Copy, PartialEq, Eq, Structural)]
pub enum ValidationError {
    /// "used revision exceededs current revision"
    RevisionExceedsCurrent,
    /// An optimised enum with more than 32 variants alive at `revision`.
    TooManyVariants { count: usize, revision: usize },
    /// The variant at this position has no `size = ".."` under an optimised revision.
    MissingSize(usize),
    /// "discriminant used twice for different variants"
    DiscriminantUsedTwice,
    /// The variant at this position has a discriminant above the 5-bit limit (31) under
    /// an optimised revision.
    DiscriminantTooLarge { variant: usize, discriminant: u32 },
    /// The variant at this position is declared `size = "inline"` under an optimised
    /// revision but has fields present there.
    InlineWithFields(usize),
    /// The variant at this position is on the wire but gone at the target revision, and
    /// has no `convert_fn` to turn it into a current variant.
    RemovedWithoutConvert(usize),
    /// `walk` was asked of a type with a `convert_fn` that does not both serialize and
    /// deserialize: the walker's cross-revision path needs both.
    WalkNeedsRoundTrip,
    /// `#[revision(fixed)]` on a field whose type is not one of `u32`, `i32`, `u64`,
    /// `i64`, `u128`, `i128` spelled as the bare name.
    FixedNeedsBareInteger,
}

/// Whether the presence range `[start, end)` names no revision after `current`.
pub open spec fn range_within(start: Option<usize>, end: Option<usize>, current: usize) -> bool {
    &&& !(start matches Some(s) && s > current)
    &&& !(end matches Some(e) && e > current)
}

/// Whether no field of `fields` names a revision after `current`.
pub open spec fn fields_within(fields: Seq<Field>, current: usize) -> bool {
    forall|i: int|
        0 <= i < fields.len() ==> range_within(
            (#[trigger] fields[i]).attrs.start,
            fields[i].attrs.end,
            current,
        )
}

/// Whether neither the variant nor its fields name a revision after `current`.
pub open spec fn variant_within(v: Variant, current: usize) -> bool {
    range_within(v.attrs.start, v.attrs.end, current) && fields_within(v.fields.list(), current)
}

/// Whether no field or variant of `item` names a revision after `current`.
pub open spec fn item_within(item: Item, current: usize) -> bool {
    match item.kind {
        ItemKind::Struct(s) => fields_within(s.fields.list(), current),
        ItemKind::Enum(e) => forall|i: int|
            0 <= i < e.variants@.len() ==> variant_within(#[trigger] e.variants@[i], current),
    }
}

fn check_range(start: Option<usize>, end: Option<usize>, current: usize) -> (r: Result<
    (),
    ValidationError,
>)
    ensures
        r is Ok <==> range_within(start, end, current),
        r matches Err(e) ==> e == ValidationError::RevisionExceedsCurrent,
{
    if let Some(s) = start {
        if s > current {
            return Err(ValidationError::RevisionExceedsCurrent);
        }
    }
    if let Some(e) = end {
        if e > current {
            return Err(ValidationError::RevisionExceedsCurrent);
        }
    }
    Ok(())
}

/// Refuses start and end revisions, on fields and variants, that lie after the
/// current revision (the one held).
pub struct ValidateRevision(pub usize);

impl ValidateRevision {
    pub fn visit_field(&self, i: &Field) -> (r: Result<(), ValidationError>)
        ensures
            r is Ok <==> range_within(i.attrs.start, i.attrs.end, self.0),
            r matches Err(e) ==> e == ValidationError::RevisionExceedsCurrent,
    {
        check_range(i.attrs.start, i.attrs.end, self.0)
    }

    pub fn visit_fields(&self, f: &Fields) -> (r: Result<(), ValidationError>)
        ensures
            r is Ok <==> fields_within(f.list(), self.0),
            r matches Err(e) ==> e == ValidationError::RevisionExceedsCurrent,
    {
        let fields = fields_of(f);
        let mut k: usize = 0;
        while k < fields.len()
            invariant
                k <= fields.len(),
                fields@ == f.list(),
                forall|j: int|
                    0 <= j < k ==> range_within(
                        (#[trigger] fields@[j]).attrs.start,
                        fields@[j].attrs.end,
                        self.0,
                    ),
            decreases fields.len() - k,
        {
            match self.visit_field(&fields[k]) {
                Ok(()) => {},
                Err(e) => return Err(e),
            }
            k = k + 1;
        }
        Ok(())
    }

    pub fn visit_variant(&self, i: &Variant) -> (r: Result<(), ValidationError>)
        ensures
            r is Ok <==> variant_within(*i, self.0),
            r matches Err(e) ==> e == ValidationError::RevisionExceedsCurrent,
    {
        match check_range(i.attrs.start, i.attrs.end, self.0) {
            Ok(()) => {},
            Err(e) => return Err(e),
        }
        self.visit_fields(&i.fields)
    }

    /// Checks every field and variant of `item`.
    pub fn visit_item(&self, item: &Item) -> (r: Result<(), ValidationError>)
        ensures
            r is Ok <==> item_within(*item, self.0),
            r matches Err(e) ==> e == ValidationError::RevisionExceedsCurrent,
    {
        match &item.kind {
            ItemKind::Struct(s) => self.visit_fields(&s.fields),
            ItemKind::Enum(e) => {
                let mut k: usize = 0;
                while k < e.variants.len()
                    invariant
                        k <= e.variants.len(),
                        item.kind == ItemKind::Enum(*e),
                        forall|j: int|
                            0 <= j < k ==> variant_within(#[trigger] e.variants@[j], self.0),
                    decreases e.variants.len() - k,
                {
                    match self.visit_variant(&e.variants[k]) {
                        Ok(()) => {},
                        Err(err) => {
                            assert(!variant_within(e.variants@[k as int], self.0));
                            assert(item.kind->Enum_0.variants@[k as int] == e.variants@[k as int]);
                            return Err(err);
                        },
                    }
                    k = k + 1;
                }
                Ok(())
            },
        }
    }
}


/// The number of variants of `vs` present at `revision`.
pub open spec fn alive_variant_count(vs: Seq<Variant>, revision: usize) -> nat
    decreases vs.len(),
{
    if vs.len() == 0 {
        0
    } else {
        alive_variant_count(vs.drop_last(), revision) + if vs.last().attrs.spec_exists_at(
            revision,
        ) {
            1nat
        } else {
            0nat
        }
    }
}

/// Whether the variant at `j` is present at `revision` without a size class.
pub open spec fn lacks_size(e: Enum, revision: usize, j: int) -> bool {
    e.variants@[j].attrs.spec_exists_at(revision) && e.variants@[j].attrs.size is None
}

/// Whether the enum `e` can be encoded under an optimised revision `revision`: at most 32
/// variants present, each with a size class, distinct overrides, and discriminants
/// that fit in 5 bits.
pub open spec fn optimised_enum_valid(e: Enum, revision: usize) -> bool {
    &&& alive_variant_count(e.variants@, revision) <= 32
    &&& forall|j: int| 0 <= j < e.variants@.len() ==> !#[trigger] lacks_size(e, revision, j)
    &&& !overrides_repeat(e, revision)
    &&& exists|r: Seq<Option<u32>>|
        #[trigger] discriminants_assigned(e, revision, r) && forall|j: int|
            0 <= j < r.len() && r[j] is Some ==> r[j]->Some_0 < 32
}

/// Whether `err` is how the check of the enum `e` at the optimised revision `revision`
/// refuses it: the checks run in the order of [`optimised_enum_valid`], and the first
/// variant without a size class is the one named.
pub open spec fn optimised_enum_refusal(e: Enum, revision: usize, err: ValidationError) -> bool {
    let count = alive_variant_count(e.variants@, revision);
    if count > 32 {
        err == ValidationError::TooManyVariants { count: count as usize, revision }
    } else if exists|j: int| 0 <= j < e.variants@.len() && #[trigger] lacks_size(e, revision, j) {
        err matches ValidationError::MissingSize(j) && 0 <= j < e.variants@.len() && lacks_size(
            e,
            revision,
            j as int,
        ) && forall|i: int| 0 <= i < j ==> !#[trigger] lacks_size(e, revision, i)
    } else if overrides_repeat(e, revision) {
        err == ValidationError::DiscriminantUsedTwice
    } else {
        err matches ValidationError::DiscriminantTooLarge { variant, discriminant }
            && discriminant >= 32 && exists|r: Seq<Option<u32>>|
            #[trigger] discriminants_assigned(e, revision, r) && variant < r.len() && r[variant as int]
                == Some(discriminant)
    }
}

/// Checks, up front, what the optimised encoding of the item needs at each optimised
/// entry of its history (the entries held).
pub struct ValidateOptimised<'a>(pub &'a [HistoryEntry]);

impl<'a> ValidateOptimised<'a> {
    /// Checks the item against every optimised entry, in order.
    pub fn check(&self, item: &Item) -> (r: Result<(), ValidationError>)
        requires
            item.kind matches ItemKind::Enum(e) ==> e.variants.len() < u32::MAX,
        ensures
            r is Ok <==> forall|k: int|
                0 <= k < self.0@.len() && (#[trigger] self.0@[k]).encoding == Encoding::Optimised
                    ==> (item.kind matches ItemKind::Enum(e) ==> optimised_enum_valid(
                    e,
                    self.0@[k].revision,
                )),
            r matches Err(err) ==> item.kind matches ItemKind::Enum(e) && exists|k: int|
                0 <= k < self.0@.len() && (#[trigger] self.0@[k]).encoding == Encoding::Optimised
                    && optimised_enum_refusal(e, self.0@[k].revision, err) && forall|i: int|
                    0 <= i < k && (#[trigger] self.0@[i]).encoding == Encoding::Optimised
                        ==> optimised_enum_valid(e, self.0@[i].revision),
    {
        let mut k: usize = 0;
        while k < self.0.len()
            invariant
                k <= self.0@.len(),
                item.kind matches ItemKind::Enum(e) ==> e.variants.len() < u32::MAX,
                forall|i: int|
                    0 <= i < k && (#[trigger] self.0@[i]).encoding == Encoding::Optimised ==> (
                    item.kind matches ItemKind::Enum(e) ==> optimised_enum_valid(
                        e,
                        self.0@[i].revision,
                    )),
            decreases self.0@.len() - k,
        {
            let entry = &self.0[k];
            if entry.is_optimised() {
                match self.check_entry(item, entry) {
                    Ok(()) => {},
                    Err(err) => return Err(err),
                }
            }
            k = k + 1;
        }
        Ok(())
    }

    /// Checks the item against one optimised entry.
    pub fn check_entry(&self, item: &Item, entry: &HistoryEntry) -> (r: Result<(), ValidationError>)
        requires
            item.kind matches ItemKind::Enum(e) ==> e.variants.len() < u32::MAX,
        ensures
            r is Ok <==> (item.kind matches ItemKind::Enum(e) ==> optimised_enum_valid(
                e,
                entry.revision,
            )),
            r matches Err(err) ==> item.kind matches ItemKind::Enum(e) && optimised_enum_refusal(
                e,
                entry.revision,
                err,
            ),
    {
        let e = match &item.kind {
            ItemKind::Enum(e) => e,
            ItemKind::Struct(_) => return Ok(()),
        };
        let rev = entry.revision;
        let n = e.variants.len();
        let mut count: usize = 0;
        let mut j: usize = 0;
        while j < n
            invariant
                n == e.variants@.len(),
                j <= n,
                count == alive_variant_count(e.variants@.take(j as int), rev),
                count <= j,
            decreases n - j,
        {
            assert(e.variants@.take(j + 1).drop_last() == e.variants@.take(j as int));
            if e.variants[j].attrs.exists_at(rev) {
                count = count + 1;
            }
            j = j + 1;
        }
        assert(e.variants@.take(n as int) == e.variants@);
        if count > 32 {
            return Err(ValidationError::TooManyVariants { count, revision: rev });
        }
        j = 0;
        while j < n
            invariant
                n == e.variants@.len(),
                j <= n,
                item.kind == ItemKind::Enum(*e),
                rev == entry.revision,
                count == alive_variant_count(e.variants@, rev),
                count <= 32,
                forall|i: int| 0 <= i < j ==> !#[trigger] lacks_size(*e, rev, i),
            decreases n - j,
        {
            if e.variants[j].attrs.exists_at(rev) && e.variants[j].attrs.size.is_none() {
                assert(lacks_size(*e, rev, j as int));
                assert(!optimised_enum_valid(*e, rev));
                return Err(ValidationError::MissingSize(j));
            }
            j = j + 1;
        }
        let discs = match CalcDiscriminant::new(rev).visit_enum(e) {
            Ok(d) => d,
            Err(err) => return Err(err),
        };
        match validate_discriminants(&discs) {
            Ok(()) => {},
            Err(err) => {
                assert(!optimised_enum_valid(*e, rev)) by {
                    if optimised_enum_valid(*e, rev) {
                        let r = choose|r: Seq<Option<u32>>|
                            #[trigger] discriminants_assigned(*e, rev, r) && forall|i: int|
                                0 <= i < r.len() && r[i] is Some ==> r[i]->Some_0 < 32;
                        lemma_discriminants_unique(*e, rev, r, discs@);
                    }
                }
                return Err(err);
            },
        }
        assert(discriminants_assigned(*e, rev, discs@));
        Ok(())
    }
}

/// Refuses a discriminant above the 5-bit limit (31) of the optimised encoding, naming
/// the first variant, by position, that has one.
pub fn validate_discriminants(discriminants: &Vec<Option<u32>>) -> (r: Result<(), ValidationError>)
    ensures
        r is Ok <==> forall|i: int|
            0 <= i < discriminants@.len() && (#[trigger] discriminants@[i]) is Some
                ==> discriminants@[i]->Some_0 < 32,
        r matches Err(err) ==> err matches ValidationError::DiscriminantTooLarge {
            variant,
            discriminant,
        } && variant < discriminants@.len() && discriminants@[variant as int] == Some(discriminant)
            && discriminant >= 32,
{
    let mut j: usize = 0;
    while j < discriminants.len()
        invariant
            j <= discriminants@.len(),
            forall|i: int|
                0 <= i < j && (#[trigger] discriminants@[i]) is Some ==> discriminants@[i]->Some_0
                    < 32,
        decreases discriminants@.len() - j,
    {
        if let Some(d) = discriminants[j] {
            if d >= 32 {
                return Err(ValidationError::DiscriminantTooLarge { variant: j, discriminant: d });
            }
        }
        j = j + 1;
    }
    Ok(())
}

} // verus!
