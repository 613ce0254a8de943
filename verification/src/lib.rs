//! Routing graphs built from H3 directed edges.
//!
//! Cells and directed edges are H3 indexes; the graph logic (edge graphs,
//! prepared graphs with fast-forward shortcuts, cell exclusion, threshold
//! searches, paths) is verified against contracts over the indexes' `u64`
//! values. The H3 geometry itself is computed by the `h3o` crate.

pub mod h3;
pub mod error;
pub mod collections;
pub mod treemap;
pub mod graph;
pub mod algorithm;
pub mod routing;
