//! The transport's requests and responses as plain values.

pub mod handlers;
