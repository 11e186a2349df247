//! Front matter extraction, post ordering and page assembly for a small
//! Markdown blog generator.

pub mod collection;
pub mod date;
pub mod front_matter;
pub mod paths;
pub mod render;
pub mod text;
