//! Rapid gossip sync: bringing a lightning network graph up to date from compact snapshots of
//! gossip, without signatures.
//!
//! - [`error`]: what a synchronisation can fail with;
//! - [`wire`]: the encoding of the values that a snapshot is made of;
//! - [`graph`]: the network graph that snapshots are applied to;
//! - [`snapshot`]: what a snapshot says, and what comes of applying it;
//! - [`processing`]: applying a snapshot;
//! - [`growth`]: what reading gives when more data follows;
//! - [`leftover`]: what reading leaves;
//! - [`encoding`]: how a snapshot is written, and that reading gives back what was written;
//! - [`roundtrip`]: that whole snapshots are applied as they were written;
//! - [`graph_laws`]: what holds of every announcement and update that the graph is handed;
//! - [`laws`]: what else holds of every snapshot and every graph.

pub mod encoding;
pub mod error;
pub mod graph;
pub mod graph_laws;
pub mod growth;
pub mod laws;
pub mod leftover;
pub mod processing;
pub mod roundtrip;
pub mod snapshot;
pub mod wire;

pub use crate::processing::RapidGossipSync;
