//! The ways in which reading the archive can fail.

use vstd::prelude::*;

verus! {

/// Why a request to the reader was not carried out.
#[derive(Clone, Copy, Debug, PartialEq, Eq, Structural)]
pub enum ArchiveError {
    /// The reader was configured without a local directory or with no
    /// download slot.
    ConfigInvalid,
    /// The manifest holds no data yet.
    NotReady,
    /// The range starts behind the latest checkpoint that the archive holds.
    OutOfRange { latest: u64 },
    /// The files of the manifest do not pair up into one contiguous run of
    /// ranges that starts at zero.
    ManifestInvariantViolated,
    /// A file could not be had from the remote store.
    FetchFailed,
    /// A file does not begin with the magic number of its type.
    BadMagic,
    /// A frame announces a blob of length zero.
    Malformed,
    /// The store holds no summary just below the one to be verified.
    MissingPredecessor { sequence_number: u64 },
    /// A summary does not continue the chain, or the verifier refused it.
    VerificationFailed { sequence_number: u64 },
    /// The digest of the contents is not the one that the summary commits to.
    DigestMismatch { sequence_number: u64 },
    /// The local store reported a failure.
    StoreError,
    /// The reader was disposed of while the read was under way.
    Cancelled,
}

} // verus!
