//! The store: its read path, which resolves a bounded neighbourhood of the
//! graph, and its write path, which detects lost updates.

pub mod batch;
pub mod dependency;
pub mod entity;
pub mod error;
pub mod filter;
pub mod ontology;
pub mod traversal;
