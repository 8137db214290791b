//! A verified submission-tracking service for a set of Rust exercises.
//!
//! The library models the service's data: validated identity types, a
//! submission store with an at-most-one-row-per-pair invariant, a static
//! exercise catalog, and the progress view derived from both.  The exercise
//! solutions themselves live here as well, each with a contract.

pub mod text;
pub mod types;
pub mod store;
pub mod progress;
mod ids;
pub mod service;
pub mod catalog;
pub mod maps;
pub mod json;
pub mod admin;
pub mod cli;
pub mod exercises;
