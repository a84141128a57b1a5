//! What the code generated for `optimised` revisions does, decided per item.
//!
//! Each `revision(N, optimised, ...)` entry of a type's history is written in the
//! optimised wire format. The functions here decide, from the item and the entry, what
//! the generated serialize, deserialize and skip bodies do; they return that decision
//! as a plan, or the reason the item cannot be encoded that way.
pub mod enum_codegen;
pub mod struct_codegen;
pub mod wire;
