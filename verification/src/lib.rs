//! Query-analysis front end of a GraphQL-to-SQL translator.
//!
//! Given an operation text, the library parses the document, classifies the
//! operation, walks selection sets and argument trees to collect every field
//! path that names a table or relationship together with the columns used
//! under each table path, and packs the result into a flat numeric resolution
//! request. Repeated calls on identical query text are answered from a
//! bounded, TTL-governed cache keyed by a 64-bit fingerprint of the text.

pub mod ast;
pub mod cache;
pub mod classify;
pub mod config;
pub mod encode;
pub mod engine;
pub mod error;
pub mod extract;
pub mod fingerprint;
pub mod interning;
pub mod laws;
pub mod parse;
pub mod pathmap;
pub mod schema;
pub mod strutil;
pub mod types;
pub mod validate;
