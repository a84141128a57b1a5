pub mod attributes;
pub mod history;
pub mod item;
pub mod text;
