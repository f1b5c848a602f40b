//! Chunked file-storage engine with token-gated access control.
//!
//! The crate models the two stores the engine drives — a relational
//! catalog of users, files and chunks, and a blob store of raw byte
//! payloads — and verifies the upload state machine, integrity
//! hashing, ownership checks and token lifecycle that run over them.

pub mod blobstore;
pub mod catalog;
pub mod config;
pub mod errors;
pub mod guard;
pub mod hashing;
pub mod laws;
pub mod models;
pub mod procedures;
pub mod rows;
pub mod strutil;
pub mod token;
