//! Validation and cataloguing of manga-source extension repositories.
//!
//! A repository is a JSON document holding a `manifest` and a list of
//! extension descriptors. This crate checks such documents against their
//! schema, splits them into one document per extension, derives file names
//! and identifiers, and maintains the catalog of known repositories and
//! installed extensions. Reading and writing files, fetching URLs and
//! turning JSON text into [`json::JsonValue`] trees is left to the caller.

pub mod json;
pub mod text;
pub mod schema;
pub mod naming;
pub mod decompose;
pub mod catalog;
pub mod models;
pub mod ingest;
pub mod clock;
