//! Two small verified algorithms: a bounded binary search over a
//! non-decreasing sequence, and value propagation through a graph of nodes
//! that share their children, plus a fluent builder for a server record.

pub mod search;
pub mod server;
pub mod graph;
