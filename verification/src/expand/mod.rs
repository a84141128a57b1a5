pub mod common;
pub mod context;
pub mod optimised;
pub mod reexport;
pub mod skip;
pub mod validate_version;
pub mod walk;
