//! Generators of instances from content.
pub mod timeline;
