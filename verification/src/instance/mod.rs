//! Data-driven universes authored by users: the grid schema, notes with
//! wikilinks, and the on-disk layout of the instance store.
pub mod schema;
pub mod store;
pub mod note;
pub mod edit;
pub mod generators;
pub mod template;
