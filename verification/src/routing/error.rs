//! Errors of the storage and configuration logic.
use vstd::prelude::*;

verus! {

/// Errors of reading graph keys, dataset configurations, file names and
/// routing mode names.
#[derive(Debug, Clone, PartialEq, Eq)]
pub enum Error {
    /// A name is no graph key.
    NotAGraphKey,
    /// The format of a file can not be told from its name.
    UnidentifiedFileFormat(String),
    /// A dataset holds no files for this H3 resolution.
    UnsupportedH3Resolution(u8),
    /// A request names a routing mode the configuration does not hold.
    UnknownRoutingMode,
}

} // verus!
