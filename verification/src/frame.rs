//! The frames of an archive file.
//!
//! A file is a magic number of four bytes, big-endian, and then frames. A
//! frame is a length as a variable-width integer, one byte that names the
//! encoding of the blob, and the blob of that length. A length of zero is
//! malformed. Where the bytes end before a frame is whole, the frames end.

use crate::codec::{bytes_contents, decompressed};
use crate::error::ArchiveError;
use crate::manifest::FileMetadata;
use crate::wire::{be_u32, read_u32_be, read_varint, varint_head};
use bytes::Bytes;
use vstd::prelude::*;
use vstd::slice::{slice_subrange, slice_to_vec};

verus! {

/// The magic number at the head of a file of checkpoint contents.
pub const CHECKPOINT_FILE_MAGIC: u32 = 0x0000_DEAD;

/// The magic number at the head of a file of checkpoint summaries.
pub const SUMMARY_FILE_MAGIC: u32 = 0x0000_CAFE;

/// An encoded value as a frame holds it.
#[derive(Debug)]
pub struct Blob {
    pub data: Vec<u8>,
    pub encoding: u8,
}

/// What stands at the head of a stream of frames.
pub enum Head {
    /// The bytes end before a frame is whole.
    End,
    /// A frame of length zero.
    Malformed,
    /// A frame with its blob; `length` is the number of bytes of the frame.
    Frame { encoding: u8, data: Seq<u8>, length: nat },
}

/// What stands at the head of `stream`: a frame where a length that is not
/// zero, the byte of the encoding and as many bytes as the length says are
/// all there.
pub open spec fn head_of(stream: Seq<u8>) -> Head {
    match varint_head(stream) {
        None => Head::End,
        Some((length, count)) => {
            if length == 0 {
                Head::Malformed
            } else if stream.len() < count + 1 + length {
                Head::End
            } else {
                Head::Frame {
                    encoding: stream[count as int],
                    data: stream.subrange(count as int + 1, count as int + 1 + length as int),
                    length: (count + 1 + length) as nat,
                }
            }
        },
    }
}

/// The frames that follow the magic number, where `file` begins with the
/// magic number given.
pub open spec fn body_of(file: Seq<u8>, magic: u32) -> Option<Seq<u8>> {
    if file.len() >= 4 && be_u32(file[0], file[1], file[2], file[3]) == magic {
        Some(file.skip(4))
    } else {
        None
    }
}

/// A reader of the frames of one file, from the first to the last.
pub struct FrameReader {
    stream: Vec<u8>,
    position: usize,
}

impl FrameReader {
    #[verifier::type_invariant]
    spec fn within(&self) -> bool {
        self.position <= self.stream@.len()
    }

    /// The bytes that have not been read.
    pub closed spec fn remaining(&self) -> Seq<u8> {
        self.stream@.skip(self.position as int)
    }

    /// Reads the magic number of a file.
    pub fn open(file: Vec<u8>, magic: u32) -> (opened: Result<FrameReader, ArchiveError>)
        ensures
            match opened {
                Ok(reader) => body_of(file@, magic) == Some(reader.remaining()),
                Err(error) => error == ArchiveError::BadMagic && body_of(file@, magic) is None,
            },
    {
        if file.len() < 4 {
            return Err(ArchiveError::BadMagic);
        }
        let found: u32 = read_u32_be(file.as_slice());
        if found != magic {
            return Err(ArchiveError::BadMagic);
        }
        Ok(FrameReader { stream: file, position: 4 })
    }

    /// Reads the next frame. Hands back `None` where the bytes end before a
    /// frame is whole, and fails with `Malformed` on a frame of length zero;
    /// in both cases the reader stays where it is.
    pub fn next_frame(&mut self) -> (read: Result<Option<Blob>, ArchiveError>)
        ensures
            match head_of(old(self).remaining()) {
                Head::End => read matches Ok(None) && final(self).remaining() == old(
                    self,
                ).remaining(),
                Head::Malformed => read == Err::<Option<Blob>, ArchiveError>(
                    ArchiveError::Malformed,
                ) && final(self).remaining() == old(self).remaining(),
                Head::Frame { encoding, data, length } => {
                    &&& read matches Ok(Some(blob))
                    &&& blob.encoding == encoding
                    &&& blob.data@ == data
                    &&& final(self).remaining() == old(self).remaining().skip(length as int)
                },
            },
    {
        proof {
            use_type_invariant(&*self);
        }
        let total: usize = self.stream.len();
        let rest = slice_subrange(self.stream.as_slice(), self.position, total);
        assert(rest@ == self.remaining());
        let (length, count) = match read_varint(rest) {
            Some(decoded) => decoded,
            None => { return Ok(None); },
        };
        if length == 0 {
            return Err(ArchiveError::Malformed);
        }
        let left: usize = rest.len() - count;
        if left == 0 || length > (left - 1) as u64 {
            return Ok(None);
        }
        let size: usize = length as usize;
        let encoding: u8 = *vstd::slice::slice_index_get(rest, count);
        let data = slice_to_vec(slice_subrange(rest, count + 1, count + 1 + size));
        self.position = self.position + count + 1 + size;
        assert(self.remaining() =~= old(self).remaining().skip(count + 1 + size));
        Ok(Some(Blob { data, encoding }))
    }
}

/// The frames of a file of checkpoint contents.
pub struct CheckpointContentsIter {
    reader: FrameReader,
}

impl CheckpointContentsIter {
    /// The bytes that have not been read.
    pub closed spec fn remaining(&self) -> Seq<u8> {
        self.reader.remaining()
    }

    /// Undoes the compression that the metadata names and reads the magic
    /// number of a file of checkpoint contents.
    pub fn new(file_metadata: &FileMetadata, bytes: Bytes) -> (made: Result<
        CheckpointContentsIter,
        ArchiveError,
    >)
        ensures
            match made {
                Ok(iter) => body_of(
                    decompressed(file_metadata.file_compression, bytes_contents(bytes)),
                    CHECKPOINT_FILE_MAGIC,
                ) == Some(iter.remaining()),
                Err(error) => error == ArchiveError::BadMagic && body_of(
                    decompressed(file_metadata.file_compression, bytes_contents(bytes)),
                    CHECKPOINT_FILE_MAGIC,
                ) is None,
            },
    {
        CheckpointContentsIter::from_stream(file_metadata.file_compression.bytes_decompress(bytes))
    }

    /// Reads the magic number of a file of checkpoint contents that is not
    /// compressed.
    pub fn from_stream(stream: Vec<u8>) -> (made: Result<CheckpointContentsIter, ArchiveError>)
        ensures
            match made {
                Ok(iter) => body_of(stream@, CHECKPOINT_FILE_MAGIC) == Some(iter.remaining()),
                Err(error) => error == ArchiveError::BadMagic && body_of(
                    stream@,
                    CHECKPOINT_FILE_MAGIC,
                ) is None,
            },
    {
        match FrameReader::open(stream, CHECKPOINT_FILE_MAGIC) {
            Ok(reader) => Ok(CheckpointContentsIter { reader }),
            Err(error) => Err(error),
        }
    }

    /// Reads the blob of the next checkpoint.
    pub fn next_checkpoint(&mut self) -> (read: Result<Option<Blob>, ArchiveError>)
        ensures
            match head_of(old(self).remaining()) {
                Head::End => read matches Ok(None) && final(self).remaining() == old(
                    self,
                ).remaining(),
                Head::Malformed => read == Err::<Option<Blob>, ArchiveError>(
                    ArchiveError::Malformed,
                ) && final(self).remaining() == old(self).remaining(),
                Head::Frame { encoding, data, length } => {
                    &&& read matches Ok(Some(blob))
                    &&& blob.encoding == encoding
                    &&& blob.data@ == data
                    &&& final(self).remaining() == old(self).remaining().skip(length as int)
                },
            },
    {
        self.reader.next_frame()
    }

    /// The blob of the next checkpoint, or `None` where there is none or the
    /// next frame is malformed.
    pub fn next(&mut self) -> (read: Option<Blob>)
        ensures
            match head_of(old(self).remaining()) {
                Head::Frame { encoding, data, length } => {
                    &&& read matches Some(blob)
                    &&& blob.encoding == encoding
                    &&& blob.data@ == data
                    &&& final(self).remaining() == old(self).remaining().skip(length as int)
                },
                _ => read is None && final(self).remaining() == old(self).remaining(),
            },
    {
        match self.next_checkpoint() {
            Ok(read) => read,
            Err(_) => None,
        }
    }
}

/// The frames of a file of checkpoint summaries.
pub struct CheckpointSummaryIter {
    reader: FrameReader,
}

impl CheckpointSummaryIter {
    /// The bytes that have not been read.
    pub closed spec fn remaining(&self) -> Seq<u8> {
        self.reader.remaining()
    }

    /// Undoes the compression that the metadata names and reads the magic
    /// number of a file of checkpoint summaries.
    pub fn new(file_metadata: &FileMetadata, bytes: Bytes) -> (made: Result<
        CheckpointSummaryIter,
        ArchiveError,
    >)
        ensures
            match made {
                Ok(iter) => body_of(
                    decompressed(file_metadata.file_compression, bytes_contents(bytes)),
                    SUMMARY_FILE_MAGIC,
                ) == Some(iter.remaining()),
                Err(error) => error == ArchiveError::BadMagic && body_of(
                    decompressed(file_metadata.file_compression, bytes_contents(bytes)),
                    SUMMARY_FILE_MAGIC,
                ) is None,
            },
    {
        CheckpointSummaryIter::from_stream(file_metadata.file_compression.bytes_decompress(bytes))
    }

    /// Reads the magic number of a file of checkpoint summaries that is not
    /// compressed.
    pub fn from_stream(stream: Vec<u8>) -> (made: Result<CheckpointSummaryIter, ArchiveError>)
        ensures
            match made {
                Ok(iter) => body_of(stream@, SUMMARY_FILE_MAGIC) == Some(iter.remaining()),
                Err(error) => error == ArchiveError::BadMagic && body_of(
                    stream@,
                    SUMMARY_FILE_MAGIC,
                ) is None,
            },
    {
        match FrameReader::open(stream, SUMMARY_FILE_MAGIC) {
            Ok(reader) => Ok(CheckpointSummaryIter { reader }),
            Err(error) => Err(error),
        }
    }

    /// Reads the blob of the next checkpoint.
    pub fn next_checkpoint(&mut self) -> (read: Result<Option<Blob>, ArchiveError>)
        ensures
            match head_of(old(self).remaining()) {
                Head::End => read matches Ok(None) && final(self).remaining() == old(
                    self,
                ).remaining(),
                Head::Malformed => read == Err::<Option<Blob>, ArchiveError>(
                    ArchiveError::Malformed,
                ) && final(self).remaining() == old(self).remaining(),
                Head::Frame { encoding, data, length } => {
                    &&& read matches Ok(Some(blob))
                    &&& blob.encoding == encoding
                    &&& blob.data@ == data
                    &&& final(self).remaining() == old(self).remaining().skip(length as int)
                },
            },
    {
        self.reader.next_frame()
    }

    /// The blob of the next checkpoint, or `None` where there is none or the
    /// next frame is malformed.
    pub fn next(&mut self) -> (read: Option<Blob>)
        ensures
            match head_of(old(self).remaining()) {
                Head::Frame { encoding, data, length } => {
                    &&& read matches Some(blob)
                    &&& blob.encoding == encoding
                    &&& blob.data@ == data
                    &&& final(self).remaining() == old(self).remaining().skip(length as int)
                },
                _ => read is None && final(self).remaining() == old(self).remaining(),
            },
    {
        match self.next_checkpoint() {
            Ok(read) => read,
            Err(_) => None,
        }
    }
}

/// A blob as a value: its encoding and its bytes.
pub type BlobView = (u8, Seq<u8>);

/// The blobs of a sequence as values.
pub open spec fn blob_views(pairs: Seq<(Blob, Blob)>) -> Seq<(BlobView, BlobView)> {
    Seq::new(
        pairs.len(),
        |i: int| ((pairs[i].0.encoding, pairs[i].0.data@), (pairs[i].1.encoding, pairs[i].1.data@)),
    )
}

/// The frames of a stream of summaries and of a stream of contents side by
/// side, up to the point where one of the streams ends, and whether a frame
/// of length zero ended them. A summary frame is read before the contents
/// frame that goes with it.
pub open spec fn zipped_frames(summaries: Seq<u8>, contents: Seq<u8>) -> (
    Seq<(BlobView, BlobView)>,
    bool,
)
    decreases summaries.len(),
{
    match head_of(summaries) {
        Head::End => (Seq::empty(), false),
        Head::Malformed => (Seq::empty(), true),
        Head::Frame { encoding, data, length } => match head_of(contents) {
            Head::End => (Seq::empty(), false),
            Head::Malformed => (Seq::empty(), true),
            Head::Frame { encoding: other_encoding, data: other_data, length: other_length } => {
                if 0 < length <= summaries.len() {
                    let rest = zipped_frames(
                        summaries.skip(length as int),
                        contents.skip(other_length as int),
                    );
                    (seq![((encoding, data), (other_encoding, other_data))] + rest.0, rest.1)
                } else {
                    (Seq::empty(), false)
                }
            },
        },
    }
}

/// Reads the frames of a file of summaries and of a file of contents side by
/// side. Hands back the pairs of blobs read, and whether a malformed frame
/// ended the reading.
pub fn read_frame_pairs(
    summary_frames: CheckpointSummaryIter,
    contents_frames: CheckpointContentsIter,
) -> (read: (Vec<(Blob, Blob)>, bool))
    ensures
        blob_views(read.0@) == zipped_frames(
            summary_frames.remaining(),
            contents_frames.remaining(),
        ).0,
        read.1 == zipped_frames(summary_frames.remaining(), contents_frames.remaining()).1,
{
    let ghost whole = zipped_frames(summary_frames.remaining(), contents_frames.remaining());
    let mut summaries = summary_frames;
    let mut contents = contents_frames;
    let mut pairs: Vec<(Blob, Blob)> = Vec::new();
    assert(blob_views(pairs@) =~= Seq::<(BlobView, BlobView)>::empty());
    assert(Seq::<(BlobView, BlobView)>::empty() + whole.0 =~= whole.0);
    loop
        invariant
            whole == zipped_frames(summary_frames.remaining(), contents_frames.remaining()),
            whole.0 == blob_views(pairs@) + zipped_frames(
                summaries.remaining(),
                contents.remaining(),
            ).0,
            whole.1 == zipped_frames(summaries.remaining(), contents.remaining()).1,
        decreases summaries.remaining().len(),
    {
        let ghost summaries_before = summaries.remaining();
        let ghost contents_before = contents.remaining();
        let ghost pairs_before = pairs@;
        let ghost ahead = zipped_frames(summaries_before, contents_before);
        assert(ahead.0.len() == 0 ==> whole.0 =~= blob_views(pairs_before));
        let summary = match summaries.next_checkpoint() {
            Ok(Some(blob)) => blob,
            Ok(None) => { return (pairs, false); },
            Err(_) => { return (pairs, true); },
        };
        let blob = match contents.next_checkpoint() {
            Ok(Some(blob)) => blob,
            Ok(None) => { return (pairs, false); },
            Err(_) => { return (pairs, true); },
        };
        proof {
            let length = head_of(summaries_before)->length;
            assert(0 < length <= summaries_before.len());
            let pair = ((summary.encoding, summary.data@), (blob.encoding, blob.data@));
            let rest = zipped_frames(summaries.remaining(), contents.remaining());
            assert(ahead.0 == seq![pair] + rest.0);
            assert(blob_views(pairs_before.push((summary, blob))) =~= blob_views(pairs_before)
                + seq![pair]);
            assert((blob_views(pairs_before) + seq![pair]) + rest.0 =~= blob_views(pairs_before)
                + (seq![pair] + rest.0));
        }
        pairs.push((summary, blob));
    }
}

} // verus!
