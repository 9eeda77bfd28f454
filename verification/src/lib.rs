//! CodeGraph: a multi-language code graph library.
//!
//! Source files are turned into graph fragments by per-language extractors,
//! committed to a graph store with change detection, and queried for
//! definitions, references, call graphs and symbols.

mod clock;
pub mod engine;
pub mod languages;
pub mod seqs;
pub mod server;
pub mod storage;
pub mod text;

pub use crate::engine::config::Config;
pub use crate::engine::graph::GraphBuilder;
pub use crate::engine::parser::CodeParser;
pub use crate::engine::query::QueryExecutor;
pub use crate::languages::LanguageRegistry;
pub use crate::storage::Database;
