//! Verified core of a delimiter-separated-values table provider.
//!
//! The library projects CSV/TSV-style byte streams as read-only relational
//! rows: it parses dialect configuration, decodes records under standard
//! quoting rules, resolves a schema, drives a multi-source cursor, resolves
//! fields through row-lifetime-bound references, and negotiates scan plans
//! with a host query engine.  Textual values are carried as byte vectors;
//! the host glue converts at its own boundary.

pub mod bytes;
pub mod config;
pub mod cursor;
pub mod decode;
pub mod encode;
pub mod error;
pub mod fields;
pub mod plan;
pub mod records;
pub mod rowref;
pub mod rows;
pub mod schema;
pub mod source;
pub mod value;
