//! The error kinds the store surfaces to its callers.

use vstd::prelude::*;

verus! {

/// What went wrong.  A full segment is not an error: it is a value of the
/// append result type, handled inside the queue.
#[derive(Clone, Copy, Debug, PartialEq, Eq, Structural)]
pub enum StorageError {
    /// An underlying file or mapping operation failed.
    Io,
    /// The referenced topic or partition does not exist.
    NotFound,
    /// A create operation would overwrite an existing object.
    AlreadyExists,
    /// A partition id outside the configured range.
    OutOfRange,
    /// The operation addressed a tombstoned partition.
    PartitionDeleted,
    /// Recovery could not reconcile a segment's files.
    CorruptLog,
    /// The configured segment size cannot hold the request.
    InvalidConfig,
}

} // verus!
