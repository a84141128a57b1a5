//! Revision-history attribute model.
//!
//! A type's history is a list of entries, each carrying its own encoding choices.
//! The legacy `#[revisioned(revision = N)]` syntax is kept by synthesising a
//! fully-`Legacy` history of length `N`.
use vstd::prelude::*;

verus! {

/// Encoding strategy for one revision entry.
#[derive(Debug, Clone, Copy, PartialEq, Eq, Structural)]
pub enum Encoding {
    /// Bincode-style fields in source order, varint lengths, no envelope.
    Legacy,
    /// Tagged ADT values, `u32_le` length-prefixed compounds, optional indexed prologues.
    Optimised,
}

/// Per-entry map encoding choice (only meaningful under `Optimised`).
#[derive(Debug, Clone, Copy, PartialEq, Eq, Structural)]
pub enum MapEncoding {
    Default,
    Indexed,
}

/// Per-entry sequence encoding choice (only meaningful under `Optimised`).
#[derive(Debug, Clone, Copy, PartialEq, Eq, Structural)]
pub enum SeqEncoding {
    Default,
    Indexed,
}

/// Per-entry struct encoding choice (only meaningful under `Optimised`).
#[derive(Debug, Clone, Copy, PartialEq, Eq, Structural)]
pub enum StructEncoding {
    Default,
    Indexed,
}

/// Per-entry length encoding choice.
#[derive(Debug, Clone, Copy, PartialEq, Eq, Structural)]
pub enum LengthEncoding {
    Varint,
    U32Le,
}

/// One revision in a type's history: the revision number and the wire-format
/// choices that revision uses.
#[derive(Debug, Clone, Copy, PartialEq, Eq, Structural)]
pub struct HistoryEntry {
    pub revision: usize,
    pub encoding: Encoding,
    pub map: MapEncoding,
    pub seq: SeqEncoding,
    pub struct_kind: StructEncoding,
    pub length: LengthEncoding,
    /// `true` when this entry was synthesised from a legacy `revision = N` attribute.
    pub from_legacy: bool,
}

impl HistoryEntry {
    /// The all-default, legacy-encoded entry for `revision`.
    pub open spec fn spec_legacy(revision: usize, from_legacy: bool) -> HistoryEntry {
        HistoryEntry {
            revision,
            encoding: Encoding::Legacy,
            map: MapEncoding::Default,
            seq: SeqEncoding::Default,
            struct_kind: StructEncoding::Default,
            length: LengthEncoding::Varint,
            from_legacy,
        }
    }

    /// Build a legacy entry: used both when synthesising from `revision = N` and
    /// when an explicit `revision(N)` names no `encoding`.
    pub fn legacy(revision: usize, from_legacy: bool) -> (r: HistoryEntry)
        ensures
            r == Self::spec_legacy(revision, from_legacy),
    {
        HistoryEntry {
            revision,
            encoding: Encoding::Legacy,
            map: MapEncoding::Default,
            seq: SeqEncoding::Default,
            struct_kind: StructEncoding::Default,
            length: LengthEncoding::Varint,
            from_legacy,
        }
    }

    /// Whether this entry uses the optimised wire format.
    pub fn is_optimised(&self) -> (r: bool)
        ensures
            r == (self.encoding == Encoding::Optimised),
    {
        match self.encoding {
            Encoding::Optimised => true,
            Encoding::Legacy => false,
        }
    }
}

} // verus!
