//! Reconciliation of two tabular datasets: which keys differ between a left
//! and a right table, and what the differing rows look like side by side.
//!
//! The library holds the decisions and the data shaping of the reconciler;
//! connecting to databases, rendering SQL templates and running queries is
//! left to the caller, which hands the library plain values.
pub mod text;
pub mod config;
pub mod row;
pub mod keys;
pub mod differ;
pub mod store;
pub mod multi_store;
pub mod single_store;
pub mod datagen;
