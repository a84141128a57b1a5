pub mod arc;
pub mod arrays;
pub mod boxes;
pub mod cow;
pub mod option;
pub mod primitives;
pub mod range;
pub mod result;
pub mod skip;
pub mod specialised;
pub mod string;
pub mod tuple;
pub mod vecs;
pub mod collections;
pub mod ordered;
pub mod duration;
pub mod walk;
pub mod prefix;
pub mod hashed;
pub mod heap;
pub mod le;
pub mod numbers;
pub mod layout;
pub mod search;
