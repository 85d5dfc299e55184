//! The manifest of the archive and the metadata of its files.

use crate::checkpoint::CheckpointSequenceNumber;
use vstd::prelude::*;

verus! {

/// What a file of the archive holds.
#[derive(Clone, Copy, Debug, PartialEq, Eq, Structural)]
pub enum FileType {
    CheckpointContent,
    CheckpointSummary,
}

/// How the body of a file is compressed.
#[derive(Clone, Copy, Debug, PartialEq, Eq, Structural)]
pub enum FileCompression {
    Uncompressed,
    Zstd,
}

/// The sequence numbers from `start` up to, not including, `end`.
#[derive(Clone, Copy, Debug, PartialEq, Eq, Structural)]
pub struct SeqRange {
    pub start: CheckpointSequenceNumber,
    pub end: CheckpointSequenceNumber,
}

impl SeqRange {
    pub fn new(start: CheckpointSequenceNumber, end: CheckpointSequenceNumber) -> (range:
        SeqRange)
        ensures
            range.start == start,
            range.end == end,
    {
        SeqRange { start, end }
    }

    /// Whether `number` lies in the range.
    pub open spec fn spec_contains(&self, number: CheckpointSequenceNumber) -> bool {
        self.start <= number < self.end
    }

    /// Whether `number` lies in the range.
    #[verifier::when_used_as_spec(spec_contains)]
    pub fn contains(&self, number: CheckpointSequenceNumber) -> (inside: bool)
        ensures
            inside == self.spec_contains(number),
    {
        self.start <= number && number < self.end
    }
}

/// One file of the archive.
#[derive(Clone, Copy, Debug, PartialEq, Eq, Structural)]
pub struct FileMetadata {
    pub file_type: FileType,
    pub epoch_num: u64,
    pub checkpoint_seq_range: SeqRange,
    pub file_compression: FileCompression,
}

/// The list of the files of the archive and the number of the next
/// checkpoint that will be added to it.
#[derive(Debug)]
pub struct Manifest {
    next_checkpoint_seq_num: CheckpointSequenceNumber,
    file_metadata: Vec<FileMetadata>,
    epoch: u64,
}

impl View for Manifest {
    type V = ManifestView;

    closed spec fn view(&self) -> ManifestView {
        ManifestView {
            next_checkpoint_seq_num: self.next_checkpoint_seq_num,
            files: self.file_metadata@,
            epoch: self.epoch,
        }
    }
}

/// A manifest as a value.
pub struct ManifestView {
    pub next_checkpoint_seq_num: CheckpointSequenceNumber,
    pub files: Seq<FileMetadata>,
    pub epoch: u64,
}

impl Manifest {
    /// A manifest without files.
    pub fn new(epoch: u64, next_checkpoint_seq_num: CheckpointSequenceNumber) -> (manifest:
        Manifest)
        ensures
            manifest@.epoch == epoch,
            manifest@.next_checkpoint_seq_num == next_checkpoint_seq_num,
            manifest@.files == Seq::<FileMetadata>::empty(),
    {
        Manifest { next_checkpoint_seq_num, file_metadata: Vec::new(), epoch }
    }

    /// A manifest with the files given.
    pub fn with_files(
        epoch: u64,
        next_checkpoint_seq_num: CheckpointSequenceNumber,
        files: Vec<FileMetadata>,
    ) -> (manifest: Manifest)
        ensures
            manifest@.epoch == epoch,
            manifest@.next_checkpoint_seq_num == next_checkpoint_seq_num,
            manifest@.files == files@,
    {
        Manifest { next_checkpoint_seq_num, file_metadata: files, epoch }
    }

    /// The files of the archive, in the order of the manifest.
    pub fn files(&self) -> (files: Vec<FileMetadata>)
        ensures
            files@ == self@.files,
    {
        self.file_metadata.clone()
    }

    /// The number of the next checkpoint that the archive will take.
    pub fn next_checkpoint_seq_num(&self) -> (number: CheckpointSequenceNumber)
        ensures
            number == self@.next_checkpoint_seq_num,
    {
        self.next_checkpoint_seq_num
    }

    /// The epoch that the archive is in.
    pub fn epoch_num(&self) -> (epoch: u64)
        ensures
            epoch == self@.epoch,
    {
        self.epoch
    }

}

impl Clone for Manifest {
    fn clone(&self) -> (copy: Manifest)
        ensures
            copy@ == self@,
    {
        Manifest {
            next_checkpoint_seq_num: self.next_checkpoint_seq_num,
            file_metadata: self.file_metadata.clone(),
            epoch: self.epoch,
        }
    }
}

} // verus!
