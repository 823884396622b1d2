//! Turns JavaScript data tables of a rhythm-game score site into JSON text.
//!
//! The library locates one object or array literal in JavaScript source,
//! rewrites each of its lines into JSON with a per-dataset list of textual
//! rules, and assembles the JSON document. Fetching, caching on disk and
//! decoding the JSON into typed values are left to the caller.

pub mod text;
pub mod pattern;
pub mod json;
pub mod error;
pub mod rules;
pub mod transform;
pub mod extract;
pub mod pipeline;
pub mod cache;
