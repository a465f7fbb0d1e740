//! The communication rooms: lexicon slugs, links between terms, and the
//! cross-language topology of terms.
pub mod caderno;
pub mod lexicon;
pub mod pack;
pub mod pack_from_lexicon;
pub mod public;
pub mod review;
pub mod room;
pub mod score;
pub mod semantica;
pub mod store;
pub mod templates;
pub mod topologia;
pub mod writeback;
