//! The traits most users of the library need.
pub use crate::{DeserializeRevisioned, Revisioned, SerializeRevisioned};
