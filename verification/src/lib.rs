//! Query, traversal and write-consistency core of a bitemporal knowledge-graph store.

pub mod collections;
pub mod identifier;
pub mod knowledge;
pub mod ontology;
pub mod package_config;
pub mod provenance;
pub mod report;
pub mod store;
pub mod subgraph;
