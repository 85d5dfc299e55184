use bytes::Bytes;
use sui_archival::error::ArchiveError;
use sui_archival::frame::{
    read_frame_pairs, CheckpointContentsIter, CheckpointSummaryIter, FrameReader,
    CHECKPOINT_FILE_MAGIC, SUMMARY_FILE_MAGIC,
};
use sui_archival::manifest::{FileCompression, FileMetadata, FileType, SeqRange};
use sui_archival::wire::read_varint;

fn metadata(file_type: FileType, file_compression: FileCompression) -> FileMetadata {
    FileMetadata {
        file_type,
        epoch_num: 3,
        checkpoint_seq_range: SeqRange::new(0, 2),
        file_compression,
    }
}

fn file_of_two_frames(magic: u32) -> Vec<u8> {
    let mut file = magic.to_be_bytes().to_vec();
    file.extend_from_slice(&[0x03, 0x01, 0xAA, 0xBB, 0xCC]);
    file.extend_from_slice(&[0xC8, 0x01, 0x02]);
    file.extend_from_slice(&[0x5A; 200]);
    file
}

#[test]
fn summary_file_with_one_frame() {
    let stream: Vec<u8> = vec![0x00, 0x00, 0xCA, 0xFE, 0x03, 0x01, 0xAA, 0xBB, 0xCC];
    let mut iter = CheckpointSummaryIter::from_stream(stream).unwrap();
    let blob = iter.next_checkpoint().unwrap().unwrap();
    assert_eq!(blob.encoding, 1);
    assert_eq!(blob.data, vec![0xAA, 0xBB, 0xCC]);
    assert!(iter.next_checkpoint().unwrap().is_none());
    assert!(iter.next_checkpoint().unwrap().is_none());
    assert_eq!(SUMMARY_FILE_MAGIC, 0xCAFE);
    assert_eq!(CHECKPOINT_FILE_MAGIC, 0xDEAD);
}

#[test]
fn wrong_magic_is_refused() {
    let stream: Vec<u8> = vec![0x00, 0x00, 0xDE, 0xAD, 0x03, 0x01, 0xAA, 0xBB, 0xCC];
    assert_eq!(CheckpointSummaryIter::from_stream(stream).err(), Some(ArchiveError::BadMagic));
    let stream: Vec<u8> = vec![0x00, 0x00, 0xCA, 0xFE, 0x03, 0x01, 0xAA, 0xBB, 0xCC];
    assert_eq!(CheckpointContentsIter::from_stream(stream).err(), Some(ArchiveError::BadMagic));
    let reversed: Vec<u8> = vec![0xFE, 0xCA, 0x00, 0x00, 0x03, 0x01, 0xAA, 0xBB, 0xCC];
    assert_eq!(CheckpointSummaryIter::from_stream(reversed).err(), Some(ArchiveError::BadMagic));
}

#[test]
fn file_shorter_than_the_magic_is_refused() {
    assert_eq!(CheckpointSummaryIter::from_stream(vec![]).err(), Some(ArchiveError::BadMagic));
    assert_eq!(
        CheckpointSummaryIter::from_stream(vec![0x00, 0x00, 0xCA]).err(),
        Some(ArchiveError::BadMagic)
    );
    let mut only_magic = CheckpointContentsIter::from_stream(vec![0x00, 0x00, 0xDE, 0xAD]).unwrap();
    assert!(only_magic.next_checkpoint().unwrap().is_none());
}

#[test]
fn frames_come_out_in_order_with_their_encoding() {
    let mut iter = CheckpointContentsIter::new(
        &metadata(FileType::CheckpointContent, FileCompression::Uncompressed),
        Bytes::from(file_of_two_frames(CHECKPOINT_FILE_MAGIC)),
    )
    .unwrap();
    let first = iter.next().unwrap();
    assert_eq!((first.encoding, first.data), (1, vec![0xAA, 0xBB, 0xCC]));
    let second = iter.next().unwrap();
    assert_eq!(second.encoding, 2);
    assert_eq!(second.data, vec![0x5A; 200]);
    assert!(iter.next().is_none());
}

#[test]
fn frame_of_length_zero_is_malformed() {
    let mut stream = SUMMARY_FILE_MAGIC.to_be_bytes().to_vec();
    stream.extend_from_slice(&[0x01, 0x01, 0x77, 0x00, 0x01, 0x55]);
    let mut iter = CheckpointSummaryIter::from_stream(stream).unwrap();
    assert_eq!(iter.next_checkpoint().unwrap().unwrap().data, vec![0x77]);
    assert_eq!(iter.next_checkpoint().err(), Some(ArchiveError::Malformed));
    assert_eq!(iter.next_checkpoint().err(), Some(ArchiveError::Malformed));
    assert!(iter.next().is_none());
}

#[test]
fn short_read_ends_the_frames() {
    let whole = file_of_two_frames(SUMMARY_FILE_MAGIC);
    for cut in [whole.len() - 1, whole.len() - 100, 10, 9] {
        let mut iter = CheckpointSummaryIter::from_stream(whole[..cut].to_vec()).unwrap();
        assert_eq!(iter.next_checkpoint().unwrap().unwrap().data, vec![0xAA, 0xBB, 0xCC]);
        assert!(iter.next_checkpoint().unwrap().is_none());
    }
    for cut in [8, 6, 5, 4] {
        let mut iter = CheckpointSummaryIter::from_stream(whole[..cut].to_vec()).unwrap();
        assert!(iter.next_checkpoint().unwrap().is_none());
    }
}

#[test]
fn length_larger_than_the_file_ends_the_frames() {
    let mut stream = SUMMARY_FILE_MAGIC.to_be_bytes().to_vec();
    stream.extend_from_slice(&[0xFF, 0xFF, 0xFF, 0xFF, 0xFF, 0xFF, 0xFF, 0xFF, 0xFF, 0x01, 0x01]);
    stream.extend_from_slice(&[0x11; 64]);
    let mut iter = CheckpointSummaryIter::from_stream(stream).unwrap();
    assert!(iter.next_checkpoint().unwrap().is_none());
}

#[test]
fn varint_reads_low_bits_first() {
    assert_eq!(read_varint(&[0x00]), Some((0, 1)));
    assert_eq!(read_varint(&[0x7F, 0xFF]), Some((127, 1)));
    assert_eq!(read_varint(&[0x80, 0x01]), Some((128, 2)));
    assert_eq!(read_varint(&[0xC8, 0x01, 0x55]), Some((200, 2)));
    assert_eq!(read_varint(&[0xAC, 0x02]), Some((300, 2)));
    assert_eq!(read_varint(&[0x80, 0x80, 0x01]), Some((16384, 3)));
    assert_eq!(
        read_varint(&[0xFF, 0xFF, 0xFF, 0xFF, 0xFF, 0xFF, 0xFF, 0xFF, 0xFF, 0x01]),
        Some((u64::MAX, 10))
    );
}

#[test]
fn varint_drops_the_bits_above_sixty_four() {
    assert_eq!(
        read_varint(&[0x80, 0x80, 0x80, 0x80, 0x80, 0x80, 0x80, 0x80, 0x80, 0x02]),
        Some((0, 10))
    );
    assert_eq!(
        read_varint(&[0x81, 0x80, 0x80, 0x80, 0x80, 0x80, 0x80, 0x80, 0x80, 0x03]),
        Some((0x8000_0000_0000_0001, 10))
    );
}

#[test]
fn varint_that_does_not_end_is_none() {
    assert_eq!(read_varint(&[]), None);
    assert_eq!(read_varint(&[0x80]), None);
    assert_eq!(read_varint(&[0xFF, 0xFF]), None);
    assert_eq!(read_varint(&[0x80; 10]), None);
    assert_eq!(
        read_varint(&[0x80, 0x80, 0x80, 0x80, 0x80, 0x80, 0x80, 0x80, 0x80, 0x80, 0x01]),
        None
    );
}

#[test]
fn zstd_file_is_decompressed_before_it_is_read() {
    let plain = file_of_two_frames(SUMMARY_FILE_MAGIC);
    let packed = zstd::stream::encode_all(&plain[..], 3).unwrap();
    assert_ne!(packed, plain);
    let mut iter = CheckpointSummaryIter::new(
        &metadata(FileType::CheckpointSummary, FileCompression::Zstd),
        Bytes::from(packed.clone()),
    )
    .unwrap();
    assert_eq!(iter.next_checkpoint().unwrap().unwrap().data, vec![0xAA, 0xBB, 0xCC]);
    assert_eq!(iter.next_checkpoint().unwrap().unwrap().data, vec![0x5A; 200]);
    assert!(iter.next_checkpoint().unwrap().is_none());
    let unpacked = FileCompression::Zstd.bytes_decompress(Bytes::from(packed.clone()));
    assert_eq!(unpacked, plain);
    let as_it_is = FileCompression::Uncompressed.bytes_decompress(Bytes::from(packed.clone()));
    assert_eq!(as_it_is, packed);
}

#[test]
fn zstd_file_read_as_uncompressed_has_no_magic() {
    let packed = zstd::stream::encode_all(&file_of_two_frames(SUMMARY_FILE_MAGIC)[..], 3).unwrap();
    let made = CheckpointSummaryIter::new(
        &metadata(FileType::CheckpointSummary, FileCompression::Uncompressed),
        Bytes::from(packed),
    );
    assert_eq!(made.err(), Some(ArchiveError::BadMagic));
}

#[test]
fn bytes_that_are_not_zstd_decompress_to_nothing_with_a_magic() {
    let made = CheckpointSummaryIter::new(
        &metadata(FileType::CheckpointSummary, FileCompression::Zstd),
        Bytes::from(file_of_two_frames(SUMMARY_FILE_MAGIC)),
    );
    assert_eq!(made.err(), Some(ArchiveError::BadMagic));
}

#[test]
fn frame_reader_takes_any_magic() {
    let mut reader =
        FrameReader::open(vec![0x12, 0x34, 0x56, 0x78, 0x01, 0x09, 0x42], 0x1234_5678).unwrap();
    let blob = reader.next_frame().unwrap().unwrap();
    assert_eq!((blob.encoding, blob.data), (9, vec![0x42]));
    assert!(reader.next_frame().unwrap().is_none());
    assert_eq!(
        FrameReader::open(vec![0x12, 0x34, 0x56, 0x78], 0x7856_3412).err(),
        Some(ArchiveError::BadMagic)
    );
}

fn frames_of(magic: u32, frames: &[&[u8]]) -> Vec<u8> {
    let mut file = magic.to_be_bytes().to_vec();
    for frame in frames {
        file.extend_from_slice(frame);
    }
    file
}

fn pairs_of(summaries: &[&[u8]], contents: &[&[u8]]) -> (Vec<(Vec<u8>, Vec<u8>)>, bool) {
    let summary_iter =
        CheckpointSummaryIter::from_stream(frames_of(SUMMARY_FILE_MAGIC, summaries)).unwrap();
    let contents_iter =
        CheckpointContentsIter::from_stream(frames_of(CHECKPOINT_FILE_MAGIC, contents)).unwrap();
    let (pairs, failure) = read_frame_pairs(summary_iter, contents_iter);
    (pairs.into_iter().map(|(s, c)| (s.data, c.data)).collect(), failure)
}

#[test]
fn frames_of_two_files_are_read_side_by_side() {
    let (pairs, failure) = pairs_of(
        &[&[0x01, 0x01, 0x10], &[0x02, 0x01, 0x20, 0x21]],
        &[&[0x01, 0x01, 0x30], &[0x01, 0x01, 0x40]],
    );
    assert_eq!(pairs, vec![(vec![0x10], vec![0x30]), (vec![0x20, 0x21], vec![0x40])]);
    assert!(!failure);
}

#[test]
fn side_by_side_reading_ends_with_the_shorter_file() {
    let (pairs, failure) =
        pairs_of(&[&[0x01, 0x01, 0x10], &[0x01, 0x01, 0x20]], &[&[0x01, 0x01, 0x30]]);
    assert_eq!(pairs, vec![(vec![0x10], vec![0x30])]);
    assert!(!failure);
    let (pairs, failure) = pairs_of(&[], &[&[0x01, 0x01, 0x30]]);
    assert_eq!(pairs, vec![]);
    assert!(!failure);
}

#[test]
fn side_by_side_reading_keeps_what_was_read_before_a_malformed_frame() {
    let (pairs, failure) = pairs_of(
        &[&[0x01, 0x01, 0x10], &[0x00, 0x01]],
        &[&[0x01, 0x01, 0x30], &[0x01, 0x01, 0x40]],
    );
    assert_eq!(pairs, vec![(vec![0x10], vec![0x30])]);
    assert!(failure);
    let (pairs, failure) = pairs_of(&[&[0x01, 0x01, 0x10]], &[&[0x00, 0x01, 0x30]]);
    assert_eq!(pairs, vec![]);
    assert!(failure);
}
