//! The item as re-exported at one revision: only the variants and fields present there.
use vstd::prelude::*;

use crate::ast::item::{fields_of, Fields, Item, ItemKind, Variant};
use crate::expand::common::{alive_field_positions, alive_positions};

verus! {

/// The positions, in order, of the variants of `variants` present at `revision`.
pub open spec fn kept_variants(variants: Seq<Variant>, revision: usize) -> Seq<usize>
    decreases variants.len(),
{
    if variants.len() == 0 {
        Seq::empty()
    } else {
        let init = kept_variants(variants.drop_last(), revision);
        if variants.last().attrs.spec_exists_at(revision) {
            init.push((variants.len() - 1) as usize)
        } else {
            init
        }
    }
}

/// What the re-exported item keeps.
#[derive(Debug)]
pub enum ReexportShape {
    /// A struct: the positions of the fields kept, in order.
    Struct(Vec<usize>),
    /// An enum: the variants kept, by position and in order, each with the positions of
    /// its fields kept.
    Enum(Vec<(usize, Vec<usize>)>),
}

/// Re-exports an item with only the variants and fields present at `revision`.
pub struct Reexport {
    pub revision: usize,
}

impl Reexport {
    /// The fields kept, in order: those present at the revision.
    pub fn visit_fields(&self, i: &Fields) -> (r: Vec<usize>)
        ensures
            r@ == alive_positions(i.list(), self.revision),
    {
        alive_field_positions(fields_of(i), self.revision)
    }

    /// What the re-exported item keeps.
    pub fn visit_item(&self, i: &Item) -> (r: ReexportShape)
        ensures
            match i.kind {
                ItemKind::Struct(s) => r matches ReexportShape::Struct(f) && f@ == alive_positions(
                    s.fields.list(),
                    self.revision,
                ),
                ItemKind::Enum(e) => r matches ReexportShape::Enum(v) && v@.len() == kept_variants(
                    e.variants@,
                    self.revision,
                ).len() && forall|k: int|
                    0 <= k < v@.len() ==> (#[trigger] v@[k]).0 == kept_variants(
                        e.variants@,
                        self.revision,
                    )[k] && v@[k].1@ == alive_positions(
                        e.variants@[v@[k].0 as int].fields.list(),
                        self.revision,
                    ),
            },
    {
        match &i.kind {
            ItemKind::Struct(s) => ReexportShape::Struct(self.visit_fields(&s.fields)),
            ItemKind::Enum(e) => {
                let n = e.variants.len();
                let mut out: Vec<(usize, Vec<usize>)> = Vec::new();
                let mut j: usize = 0;
                while j < n
                    invariant
                        n == e.variants@.len(),
                        j <= n,
                        out@.len() == kept_variants(e.variants@.take(j as int), self.revision).len(),
                        forall|k: int|
                            0 <= k < out@.len() ==> (#[trigger] out@[k]).0 == kept_variants(
                                e.variants@.take(j as int),
                                self.revision,
                            )[k] && out@[k].1@ == alive_positions(
                                e.variants@[out@[k].0 as int].fields.list(),
                                self.revision,
                            ),
                    decreases n - j,
                {
                    assert(e.variants@.take(j + 1).drop_last() == e.variants@.take(j as int));
                    let v = &e.variants[j];
                    if v.attrs.exists_at(self.revision) {
                        let fields = self.visit_fields(&v.fields);
                        out.push((j, fields));
                    }
                    j = j + 1;
                }
                assert(e.variants@.take(n as int) == e.variants@);
                ReexportShape::Enum(out)
            },
        }
    }
}

} // verus!
