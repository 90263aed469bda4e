//! A verified renaming transform for a schema-like configuration graph.
//!
//! Given an ordered mapping of (old-name, new-name) pairs and a configuration
//! holding named types with typed fields and arguments, the transform rewrites
//! every occurrence of each old type name — the type definitions themselves,
//! field and argument type references, and the schema root pointers — while
//! validating that every old name exists, accumulating all validation failures
//! instead of stopping at the first.

pub mod keyed;
pub mod valid;
pub mod config;
pub mod rename;
