//! What the generated legacy skip body of an item skips, decided per wire revision.
//!
//! A value written at revision `current` is skipped field by field: every field on the
//! wire at `current` is skipped through its type's `SkipRevisioned`, whether or not it
//! survives to the target revision. An enum reads its `u32` discriminant first and
//! skips the fields of the variant it names.
use vstd::prelude::*;

use crate::ast::item::{fields_of, Enum, Fields, Struct, Variant};
use crate::expand::common::{
    alive_field_positions, alive_positions, assigned_discriminants, CalcDiscriminant,
    discriminants_assigned, lemma_assigned_discriminants, overrides_repeat,
};
use crate::expand::validate_version::ValidationError;
use crate::expand::walk::variant_entries;

verus! {

/// One arm of the generated skip body of an enum.
#[derive(Debug)]
pub struct SkipArm {
    /// The discriminant the arm matches.
    pub discriminant: u32,
    /// The positions of the variant's fields on the wire, skipped in order.
    pub fields: Vec<usize>,
}

/// Whether `arms` are, in order, the skip arms of the variants in `entries` (position
/// and discriminant of each variant on the wire at `current`).
pub open spec fn skip_arms_follow(
    e: Enum,
    current: usize,
    arms: Seq<SkipArm>,
    entries: Seq<(usize, u32)>,
) -> bool {
    &&& arms.len() == entries.len()
    &&& forall|k: int|
        0 <= k < arms.len() ==> {
            &&& (#[trigger] arms[k]).discriminant == entries[k].1
            &&& arms[k].fields@ == alive_positions(
                e.variants@[entries[k].0 as int].fields.list(),
                current,
            )
        }
}

/// Skips the fields of a struct or a variant written at `current`.
pub struct SkipFields {
    pub target: usize,
    pub current: usize,
}

impl SkipFields {
    /// The fields skipped, in order: those on the wire at `current`.
    pub fn visit_fields(&self, i: &Fields) -> (r: Vec<usize>)
        ensures
            r@ == alive_positions(i.list(), self.current),
    {
        alive_field_positions(fields_of(i), self.current)
    }
}

/// Skips a variant written at `current`, given the discriminants at `current` by
/// position.
pub struct SkipVariant {
    pub target: usize,
    pub current: usize,
    pub discriminants: Vec<Option<u32>>,
}

impl SkipVariant {
    /// The arm of the variant at position `j`, when it is on the wire at `current`.
    pub fn visit_variant(&self, j: usize, i: &Variant) -> (r: Option<SkipArm>)
        requires
            j < self.discriminants@.len(),
            i.attrs.spec_exists_at(self.current) ==> self.discriminants@[j as int] is Some,
        ensures
            r is Some <==> i.attrs.spec_exists_at(self.current),
            r matches Some(arm) ==> Some(arm.discriminant) == self.discriminants@[j as int]
                && arm.fields@ == alive_positions(i.fields.list(), self.current),
    {
        if !i.attrs.exists_at(self.current) {
            return None;
        }
        let fields = SkipFields { target: self.target, current: self.current }.visit_fields(
            &i.fields,
        );
        let discriminant = self.discriminants[j].unwrap();
        Some(SkipArm { discriminant, fields })
    }
}

/// Decides the legacy skip body of an item written at `current` and read at `target`.
pub struct SkipVisitor {
    pub target: usize,
    pub current: usize,
}

impl SkipVisitor {
    /// The fields of a struct that the skip body skips, in order.
    pub fn visit_struct(&self, i: &Struct) -> (r: Vec<usize>)
        ensures
            r@ == alive_positions(i.fields.list(), self.current),
    {
        SkipFields { target: self.target, current: self.current }.visit_fields(&i.fields)
    }

    /// The arms of the skip body of an enum: one per variant on the wire, in order.
    pub fn visit_enum(&self, i: &Enum) -> (r: Result<Vec<SkipArm>, ValidationError>)
        requires
            i.variants.len() < u32::MAX,
        ensures
            r is Err <==> overrides_repeat(*i, self.current),
            r matches Err(err) ==> err == ValidationError::DiscriminantUsedTwice,
            r matches Ok(arms) ==> skip_arms_follow(
                *i,
                self.current,
                arms@,
                variant_entries(assigned_discriminants(*i, self.current)),
            ),
    {
        let discs = match CalcDiscriminant::new(self.current).visit_enum(i) {
            Ok(d) => d,
            Err(err) => return Err(err),
        };
        proof {
            lemma_assigned_discriminants(*i, self.current, discs@);
        }
        let visitor = SkipVariant { target: self.target, current: self.current, discriminants: discs };
        let n = i.variants.len();
        let mut arms: Vec<SkipArm> = Vec::new();
        let mut j: usize = 0;
        while j < n
            invariant
                n == i.variants@.len(),
                visitor.current == self.current,
                visitor.discriminants@.len() == n,
                discriminants_assigned(*i, self.current, visitor.discriminants@),
                assigned_discriminants(*i, self.current) == visitor.discriminants@,
                j <= n,
                skip_arms_follow(
                    *i,
                    self.current,
                    arms@,
                    variant_entries(visitor.discriminants@.take(j as int)),
                ),
            decreases n - j,
        {
            let ghost d = visitor.discriminants@;
            assert(d.take(j + 1).drop_last() == d.take(j as int));
            proof {
                if i.variants@[j as int].attrs.spec_exists_at(self.current)
                    && crate::expand::common::override_discriminant(*i, self.current, j as int) is None {
                    assert(crate::expand::common::is_plain(*i, self.current, j as int));
                }
            }
            let ghost before = arms@;
            match visitor.visit_variant(j, &i.variants[j]) {
                Some(arm) => {
                    arms.push(arm);
                    proof {
                        let entries = variant_entries(d.take(j + 1));
                        assert(entries == variant_entries(d.take(j as int)).push(
                            (j, d[j as int]->Some_0),
                        ));
                        assert forall|k: int| 0 <= k < arms@.len() implies {
                            &&& (#[trigger] arms@[k]).discriminant == entries[k].1
                            &&& arms@[k].fields@ == alive_positions(
                                i.variants@[entries[k].0 as int].fields.list(),
                                self.current,
                            )
                        } by {
                            if k < before.len() {
                                assert(arms@[k] == before[k]);
                            }
                        }
                    }
                },
                None => {
                    assert(d[j as int] is None);
                },
            }
            j = j + 1;
        }
        assert(visitor.discriminants@.take(n as int) == visitor.discriminants@);
        Ok(arms)
    }
}

} // verus!
