//! A personal registry of remote-access connection profiles.
//!
//! The registry is an ordered collection of [`registry::Connection`] records,
//! keyed by a unique slug, persisted as a single JSON document. This crate
//! holds the verified core: the record model and keyed CRUD operations over
//! the registry, the JSON codec for the persisted file, and the builders that
//! translate a stored record into the exact argument list handed to an
//! external remote-access process.

pub mod builder;
pub mod errors;
pub mod json;
pub mod laws;
pub mod parse;
pub mod registry;
pub mod text;
