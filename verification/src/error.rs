//! Errors of the graph library.
use vstd::prelude::*;

verus! {

/// Errors of the graph operations. Resolutions are given as their number.
#[derive(Debug, Clone, Copy, PartialEq, Eq, Structural)]
pub enum Error {
    TooHighH3Resolution(u8),
    MixedH3Resolutions(u8, u8),
    EmptyPath,
    InsufficientNumberOfEdges,
    SegmentedPath,
    DestinationsNotInGraph,
    EmptyExcludeCells,
    TooShortLongEdge(usize),
}

} // verus!
