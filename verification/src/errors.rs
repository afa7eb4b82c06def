//! Typed failure values.  Lookup misses are recoverable outcomes that name
//! the path actually looked up; integrity and configuration failures are hard
//! stops.

use vstd::prelude::*;

verus! {

/// Why opening a container failed.
#[derive(Debug, Clone, Copy, PartialEq, Eq)]
pub enum OpenError {
    /// The bytes did not parse and validate as a container under the
    /// configured magic token and verifying key.
    BadContainer,
    /// The container opened but holds no readable index entry.
    MissingIndex,
    /// A verifying key was configured and the index entry's signature did not
    /// check out: nothing from this container may be served.
    UnverifiedIndex,
}

/// The spec-level shape of a failed read, without the looked-up path.
#[derive(Debug, Clone, Copy, PartialEq, Eq)]
pub enum ReadFailure {
    /// The path is not a key of the index.
    NotFound,
    /// The path is indexed, but its entry is missing, unreadable, or carries
    /// a signature that did not verify under the configured key.
    Integrity,
}

/// A failed path-addressed read.
#[derive(Debug, Clone, PartialEq, Eq)]
pub enum ReadError {
    /// Not in the index; names the path that was actually looked up.
    NotFound(Vec<u8>),
    /// Indexed, but the entry could not be served verbatim and verified.
    Integrity,
}

/// Why a build was aborted.
#[derive(Debug, Clone, PartialEq, Eq)]
pub enum BuildError {
    /// A source path would desynchronize the index codec; names the path.
    UnsafePath(Vec<u8>),
    /// The container library failed to accept or serialize the entries.
    ArchiveFailure,
}

/// Why a consistency check failed.
#[derive(Debug, Clone, Copy, PartialEq, Eq)]
pub enum CheckError {
    /// The container did not open.
    Open(OpenError),
    /// The indexed path at this position has no fetchable, verified entry.
    BadEntry(usize),
}

} // verus!
