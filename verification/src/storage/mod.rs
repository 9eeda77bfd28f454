//! The graph store: record types, the store's mathematical value, the
//! store itself and its lookups.

pub mod database;
pub mod error;
pub mod lookup;
pub mod models;
pub mod state;

pub use crate::storage::database::Database;
pub use crate::storage::error::StoreError;
