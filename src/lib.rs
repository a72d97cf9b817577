//! Parsing of mtree file-tree manifests: a line-oriented directive grammar, an
//! ambient default scope that `/set` and `/unset` modify, and resolution of each
//! path line into a fully specified entry, with position-tagged diagnostics.
//!
//! - `lex`: fields of a line and byte helpers
//! - `value`: keywords and the typed values of fields
//! - `model`: directives, entries and diagnostics, with their views
//! - `grammar`: one line to one statement
//! - `resolve`: the default scope and the resolution of path lines
//! - `manifest`: a whole input to its entries and diagnostics
//! - `render`: entries back to text
//! - `laws`, `round_trip`: properties proved of the above
//! - `data`: a key/value data model for deserialization
pub mod lex;
pub mod value;
pub mod model;
pub mod grammar;
pub mod resolve;
pub mod manifest;
pub mod render;
pub mod laws;
pub mod round_trip;
pub mod data;
