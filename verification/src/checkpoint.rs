//! Checkpoint summaries and contents, as far as the reader looks into them.

use vstd::prelude::*;

verus! {

/// Number of a checkpoint in the chain; the first one is zero.
pub type CheckpointSequenceNumber = u64;

/// A digest of thirty-two bytes.
#[derive(Clone, Copy, Debug)]
pub struct Digest {
    pub bytes: [u8; 32],
}

impl Digest {
    /// The digest with the bytes given.
    pub fn new(bytes: [u8; 32]) -> (digest: Digest)
        ensures
            digest.bytes == bytes,
    {
        Digest { bytes }
    }

    /// Whether two digests hold the same bytes.
    pub fn same(&self, other: &Digest) -> (equal: bool)
        ensures
            equal == (*self == *other),
    {
        let mut i: usize = 0;
        while i < 32
            invariant
                i <= 32,
                forall|j: int| 0 <= j < i ==> self.bytes[j] == other.bytes[j],
            decreases 32 - i,
        {
            if self.bytes[i] != other.bytes[i] {
                return false;
            }
            i = i + 1;
        }
        assert(self.bytes =~= other.bytes);
        true
    }
}

/// The certified header of a checkpoint.
#[derive(Clone, Copy, Debug)]
pub struct CertifiedCheckpointSummary {
    pub sequence_number: CheckpointSequenceNumber,
    /// Digest of this summary.
    pub digest: Digest,
    /// Digest of the summary one below; the first summary has none.
    pub previous_digest: Option<Digest>,
    /// Digest of the contents that this summary commits to.
    pub content_digest: Digest,
}

/// The transactions of a checkpoint, known by their digest.
#[derive(Clone, Copy, Debug)]
pub struct FullCheckpointContents {
    pub digest: Digest,
}

/// A summary that has been checked against its predecessor.
#[derive(Clone, Copy, Debug)]
pub struct VerifiedCheckpoint {
    pub summary: CertifiedCheckpointSummary,
}

impl VerifiedCheckpoint {
    /// Marks a summary as verified without checking anything.
    pub fn new_unchecked(summary: CertifiedCheckpointSummary) -> (verified: VerifiedCheckpoint)
        ensures
            verified.summary == summary,
    {
        VerifiedCheckpoint { summary }
    }

    /// The summary that was verified.
    pub fn inner(&self) -> (summary: &CertifiedCheckpointSummary)
        ensures
            *summary == self.summary,
    {
        &self.summary
    }

    /// The sequence number of the summary.
    pub fn sequence_number(&self) -> (number: CheckpointSequenceNumber)
        ensures
            number == self.summary.sequence_number,
    {
        self.summary.sequence_number
    }
}

/// Contents whose digest has been compared with that of their summary.
#[derive(Clone, Copy, Debug)]
pub struct VerifiedCheckpointContents {
    pub contents: FullCheckpointContents,
}

impl VerifiedCheckpointContents {
    /// Marks contents as verified without checking anything.
    pub fn new_unchecked(contents: FullCheckpointContents) -> (verified:
        VerifiedCheckpointContents)
        ensures
            verified.contents == contents,
    {
        VerifiedCheckpointContents { contents }
    }

    /// The contents that were verified.
    pub fn inner(&self) -> (contents: &FullCheckpointContents)
        ensures
            *contents == self.contents,
    {
        &self.contents
    }
}

} // verus!
