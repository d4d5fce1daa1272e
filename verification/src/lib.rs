//! MetaSafe: the analysis and rewriting logic of a compiler extension that
//! protects the metadata of smart pointers.
//!
//! The compiler driver hands this library plain descriptions of what it sees
//! (struct records, expression facts, call edges, basic blocks); the library
//! decides what to record and how the program is rewritten.
pub mod collections;
pub mod hir_analysis;
pub mod analysis_records;
pub mod def_id;
pub mod callgraph;
pub mod mir;
pub mod shadows;
pub mod validators;
pub mod ast_rewrite;
pub mod field_records;
pub mod runtime;
pub mod laws;
