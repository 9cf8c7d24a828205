use vstd::prelude::*;

verus! {

/// The kind of failure the operating system reported when a file could not be
/// opened, read, or decoded as text. The library does not interpret the kind;
/// it carries it unchanged for the caller to act on.
#[derive(Clone, Copy, Debug, PartialEq, Eq, Structural)]
pub enum IoErrorKind {
    /// The file does not exist.
    NotFound,
    /// The file exists but may not be read.
    PermissionDenied,
    /// The file's bytes are not valid text.
    InvalidData,
    /// Any other failure of the underlying read.
    Other,
}

/// Error conglomeration for every possible error that can occur in the crate.
///
/// The taxonomy is intentionally narrow: the only failure at this layer is an
/// I/O failure while loading a file. Cache lookups, entry allocation and
/// position resolution cannot fail by construction.
#[derive(Clone, Copy, Debug, PartialEq, Eq, Structural)]
pub enum Error {
    /// An I/O failure, surfaced unchanged from the underlying read.
    IoError(IoErrorKind),
}

} // verus!
