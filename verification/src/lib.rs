//! Bounded traversal of a bitemporal, versioned knowledge graph and assembly
//! of the resulting subgraph, together with a few bookkeeping types of the
//! simulation engine that shares its data store.
//!
//! The graph: [`temporal`] holds the interval algebra, [`identifier`] the
//! vertex identifiers, [`edges`] and [`depths`] the edge kinds and the depth
//! budget, [`subgraph`] and [`context`] what a query accumulates.
//! [`frontier`], [`model`] and [`driver`] are the traversal: its data, what
//! each move does, and the executable state machine. [`soundness`] and
//! [`trail`] hold the invariant and its proof, [`laws`] what follows for
//! every query. [`store`] and [`query`] answer whole queries from records
//! held in memory; [`rows`] and [`write`] decide what a relational store's
//! answers mean. [`error`] names the failures.
//!
//! The engine: [`worker`], [`metaversion`], [`messages`], [`packages`].

pub mod context;
pub mod depths;
pub mod driver;
pub mod edges;
pub mod error;
pub mod frontier;
pub mod identifier;
pub mod laws;
pub mod messages;
pub mod metaversion;
pub mod model;
pub mod packages;
pub mod query;
pub mod rows;
pub mod soundness;
pub mod store;
pub mod subgraph;
pub mod temporal;
pub mod trail;
pub mod worker;
pub mod write;
