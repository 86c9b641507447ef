//! Semantic analysis and incremental-workspace engine for a systems-modeling
//! language family.
//!
//! Given parsed syntax trees for a set of source files, the library builds a
//! cross-file symbol table, a typed relationship graph, and a file-level
//! dependency graph that drives selective re-analysis when files change. On
//! top of these it offers name resolution and back-reference collection.

pub mod ast;
pub mod dependency_graph;
pub mod elements;
pub mod enums;
pub mod events;
pub mod graph;
pub mod kerml;
pub mod laws;
pub mod name_table;
pub mod names;
pub mod population;
pub mod reach;
pub mod reference_collector;
pub mod resolver;
pub mod symbols;
pub mod syntax;
pub mod workspace;
