//! A multi-tenant full-text search indexing core.
//!
//! The crate models the durable storage abstraction and the asynchronous
//! write pipeline of a search indexing service that runs on ephemeral
//! compute instances: a transactional file store (existence, listing, read,
//! atomic write, delete) standing in for local disk, and the writer worker
//! that turns an ordered stream of document mutations into committed,
//! reader-visible index state.

pub mod directory;
pub mod document;
pub mod filestore;
pub mod index;
pub mod seqs;
pub mod service;
pub mod worker;
