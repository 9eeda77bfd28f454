//! Core engine: fragment construction, graph building and querying.

pub mod batch;
pub mod config;
pub mod flow_lemmas;
pub mod graph;
pub mod graph_lemmas;
pub mod parser;
pub mod project;
pub mod query;
pub mod query_lemmas;
pub mod registry;
