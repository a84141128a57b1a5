//! Per-revision encoding context: one history entry's encoding choices, with the
//! revision number, as a small `Copy` value.
use vstd::prelude::*;

use crate::ast::history::{Encoding, HistoryEntry, MapEncoding, SeqEncoding, StructEncoding};

verus! {

/// Snapshot of one history entry's encoding choices, plus the revision number.
#[derive(Debug, Clone, Copy, PartialEq, Eq, Structural)]
pub struct EncodingContext {
    pub revision: u16,
    pub encoding: Encoding,
    pub map: MapEncoding,
    pub seq: SeqEncoding,
    pub struct_kind: StructEncoding,
}

impl EncodingContext {
    /// The context of `entry`; the revision number is truncated to `u16`.
    pub fn from_entry(entry: &HistoryEntry) -> (r: EncodingContext)
        ensures
            r.revision == entry.revision as u16,
            r.encoding == entry.encoding,
            r.map == entry.map,
            r.seq == entry.seq,
            r.struct_kind == entry.struct_kind,
    {
        EncodingContext {
            revision: entry.revision as u16,
            encoding: entry.encoding,
            map: entry.map,
            seq: entry.seq,
            struct_kind: entry.struct_kind,
        }
    }

    /// Legacy context for `revision = N` syntax-driven entries.
    pub fn legacy(revision: u16) -> (r: EncodingContext)
        ensures
            r == (EncodingContext {
                revision,
                encoding: Encoding::Legacy,
                map: MapEncoding::Default,
                seq: SeqEncoding::Default,
                struct_kind: StructEncoding::Default,
            }),
    {
        EncodingContext {
            revision,
            encoding: Encoding::Legacy,
            map: MapEncoding::Default,
            seq: SeqEncoding::Default,
            struct_kind: StructEncoding::Default,
        }
    }

    /// Whether the context uses the optimised wire format.
    pub fn is_optimised(&self) -> (r: bool)
        ensures
            r == (self.encoding == Encoding::Optimised),
    {
        match self.encoding {
            Encoding::Optimised => true,
            Encoding::Legacy => false,
        }
    }

    /// Whether structs are written with an indexed prologue.
    pub fn struct_is_indexed(&self) -> (r: bool)
        ensures
            r == (self.struct_kind == StructEncoding::Indexed),
    {
        match self.struct_kind {
            StructEncoding::Indexed => true,
            StructEncoding::Default => false,
        }
    }
}

} // verus!
