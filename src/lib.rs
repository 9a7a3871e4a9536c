//! Embedded SQL connections behind a load / execute / select / batch / sync /
//! close surface: sandboxed path resolution, a registry with one connection
//! per logical path, JSON value marshalling and atomic batches.
pub mod batch;
pub mod codec;
pub mod config;
pub mod error;
pub mod models;
pub mod path;
pub mod registry;
