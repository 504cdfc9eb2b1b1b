//! Verified core of a QL query toolchain: source management and the
//! rendering of diagnostics; declarations, types, namespaces, builtins, the
//! class hierarchy; the collection of a file's declarations and the
//! resolution of its names and types over its syntax tree, with the
//! single-file analysis that combines them; the import graph and its processing order; the low-level relational IR
//! with its lowering from the mid-level IR and its printing; the discovery
//! of QL packs and the resolution of imports to files; the extraction
//! walks that turn the syntax trees of JavaScript/TypeScript, Python, Ruby,
//! Rust and Swift files into fact rows; and the tables and message helpers
//! of the extractors, the language server and the
//! evaluation report.

pub mod text;
pub mod def;
pub mod diagnostics;
pub mod types;
pub mod scc;
pub mod lir;
pub mod mir;
pub mod lower;
pub mod source;
pub mod paths;
pub mod project;
pub mod discover;
pub mod resolve;
pub mod ast;
pub mod collect;
pub mod resolver;
pub mod module_graph;
pub mod namespace;
pub mod class_hierarchy;
pub mod builtins;
pub mod database;
pub mod extractors;
pub mod syntax;
pub mod js_extract;
pub mod py_extract;
pub mod rb_extract;
pub mod rs_extract;
pub mod sw_extract;
pub mod categorize;
pub mod lsp;
pub mod pretty;
