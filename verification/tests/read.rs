use bytes::Bytes;
use std::collections::HashMap;
use sui_archival::checkpoint::{
    CertifiedCheckpointSummary, Digest, FullCheckpointContents, VerifiedCheckpoint,
};
use sui_archival::error::ArchiveError;
use sui_archival::frame::{
    read_frame_pairs, Blob, CheckpointContentsIter, CheckpointSummaryIter,
    CHECKPOINT_FILE_MAGIC, SUMMARY_FILE_MAGIC,
};
use sui_archival::manifest::{FileCompression, FileMetadata, FileType, Manifest, SeqRange};
use sui_archival::reader::{
    ingest_fetched, ArchiveReaderV1, DecodedPair, FetchFailure, Fetched, ObjectStoreConfig,
    SyncAction, SyncEvent,
};
use sui_archival::store::{InMemoryStore, StoreFailure, StoreState, WriteStore};

fn digest_of(tag: u8, number: u64) -> Digest {
    let mut bytes = [0u8; 32];
    bytes[0] = tag;
    bytes[1..9].copy_from_slice(&number.to_be_bytes());
    Digest::new(bytes)
}

fn summary(number: u64) -> CertifiedCheckpointSummary {
    CertifiedCheckpointSummary {
        sequence_number: number,
        digest: digest_of(1, number),
        previous_digest: if number == 0 { None } else { Some(digest_of(1, number - 1)) },
        content_digest: digest_of(2, number),
    }
}

fn contents(number: u64) -> FullCheckpointContents {
    FullCheckpointContents { digest: digest_of(2, number) }
}

fn varint(mut value: u64) -> Vec<u8> {
    let mut out = Vec::new();
    while value >= 0x80 {
        out.push((value as u8 & 0x7f) | 0x80);
        value >>= 7;
    }
    out.push(value as u8);
    out
}

fn frame(blob: &[u8]) -> Vec<u8> {
    let mut out = varint(blob.len() as u64);
    out.push(1);
    out.extend_from_slice(blob);
    out
}

fn encode_summary(summary: &CertifiedCheckpointSummary) -> Vec<u8> {
    let mut out = Vec::new();
    out.extend_from_slice(&summary.sequence_number.to_be_bytes());
    out.extend_from_slice(&summary.digest.bytes);
    match summary.previous_digest {
        Some(previous) => {
            out.push(1);
            out.extend_from_slice(&previous.bytes);
        }
        None => {
            out.push(0);
            out.extend_from_slice(&[0u8; 32]);
        }
    }
    out.extend_from_slice(&summary.content_digest.bytes);
    out
}

fn digest_at(data: &[u8], at: usize) -> Digest {
    let mut bytes = [0u8; 32];
    bytes.copy_from_slice(&data[at..at + 32]);
    Digest::new(bytes)
}

fn decode_summary(blob: &Blob) -> Option<CertifiedCheckpointSummary> {
    if blob.encoding != 1 || blob.data.len() != 105 {
        return None;
    }
    let mut number = [0u8; 8];
    number.copy_from_slice(&blob.data[0..8]);
    Some(CertifiedCheckpointSummary {
        sequence_number: u64::from_be_bytes(number),
        digest: digest_at(&blob.data, 8),
        previous_digest: if blob.data[40] == 1 { Some(digest_at(&blob.data, 41)) } else { None },
        content_digest: digest_at(&blob.data, 73),
    })
}

fn decode_contents(blob: &Blob) -> Option<FullCheckpointContents> {
    if blob.encoding != 1 || blob.data.len() < 32 {
        return None;
    }
    Some(FullCheckpointContents { digest: digest_at(&blob.data, 0) })
}

fn summary_file(numbers: &[u64]) -> Vec<u8> {
    let mut out = SUMMARY_FILE_MAGIC.to_be_bytes().to_vec();
    for number in numbers {
        out.extend_from_slice(&frame(&encode_summary(&summary(*number))));
    }
    out
}

fn contents_file(numbers: &[u64]) -> Vec<u8> {
    let mut out = CHECKPOINT_FILE_MAGIC.to_be_bytes().to_vec();
    for number in numbers {
        let mut blob = contents(*number).digest.bytes.to_vec();
        blob.extend_from_slice(&[0xEE; 200]);
        out.extend_from_slice(&frame(&blob));
    }
    out
}

fn metadata(file_type: FileType, start: u64, end: u64) -> FileMetadata {
    FileMetadata {
        file_type,
        epoch_num: 0,
        checkpoint_seq_range: SeqRange::new(start, end),
        file_compression: FileCompression::Uncompressed,
    }
}

fn manifest_of_two_pairs() -> Manifest {
    Manifest::with_files(
        0,
        4,
        vec![
            metadata(FileType::CheckpointSummary, 0, 2),
            metadata(FileType::CheckpointContent, 0, 2),
            metadata(FileType::CheckpointSummary, 2, 4),
            metadata(FileType::CheckpointContent, 2, 4),
        ],
    )
}

fn archive_of_two_pairs() -> HashMap<String, Vec<u8>> {
    let mut archive = HashMap::new();
    archive.insert("epoch_0/0.sum".to_string(), summary_file(&[0, 1]));
    archive.insert("epoch_0/0.chk".to_string(), contents_file(&[0, 1]));
    archive.insert("epoch_0/2.sum".to_string(), summary_file(&[2, 3]));
    archive.insert("epoch_0/2.chk".to_string(), contents_file(&[2, 3]));
    archive
}

fn reader_with(manifest: Manifest, concurrency: usize) -> ArchiveReaderV1 {
    let mut reader = ArchiveReaderV1::new(
        ObjectStoreConfig { directory: Some("/tmp/archive".to_string()) },
        concurrency,
    )
    .unwrap();
    assert_eq!(reader.on_sync_event(SyncEvent::Refreshed(manifest)), SyncAction::Continue);
    reader
}

fn decode_pair(
    archive: &HashMap<String, Vec<u8>>,
    summary_metadata: &FileMetadata,
    contents_metadata: &FileMetadata,
) -> Fetched {
    let summary_bytes = match archive.get(&summary_metadata.remote_path()) {
        Some(bytes) => Bytes::from(bytes.clone()),
        None => return Err(FetchFailure::FetchFailed),
    };
    let contents_bytes = match archive.get(&contents_metadata.remote_path()) {
        Some(bytes) => Bytes::from(bytes.clone()),
        None => return Err(FetchFailure::FetchFailed),
    };
    let summary_iter = CheckpointSummaryIter::new(summary_metadata, summary_bytes)
        .map_err(|_| FetchFailure::BadMagic)?;
    let contents_iter = CheckpointContentsIter::new(contents_metadata, contents_bytes)
        .map_err(|_| FetchFailure::BadMagic)?;
    let (blobs, failure) = read_frame_pairs(summary_iter, contents_iter);
    let decoded = blobs
        .iter()
        .map(|(summary, contents)| (decode_summary(summary), decode_contents(contents)))
        .collect();
    Ok(DecodedPair::from_decoded(decoded, failure))
}

fn read_archive<S: WriteStore>(
    reader: &ArchiveReaderV1,
    store: &mut S,
    range: SeqRange,
    archive: &HashMap<String, Vec<u8>>,
) -> (usize, Result<(), ArchiveError>) {
    let plan = match reader.files_to_fetch(range) {
        Ok(plan) => plan,
        Err(error) => return (0, Err(error)),
    };
    let fetched: Vec<Fetched> = plan
        .iter()
        .map(|(summary_metadata, contents_metadata)| {
            decode_pair(archive, summary_metadata, contents_metadata)
        })
        .collect();
    let accept = |_previous: VerifiedCheckpoint, _candidate: CertifiedCheckpointSummary| true;
    (plan.len(), reader.read(store, range, &fetched, &accept))
}

fn stored_summary(store: &InMemoryStore, number: u64) -> Option<CertifiedCheckpointSummary> {
    store.get_checkpoint_by_sequence_number(number).unwrap().map(|held| *held.inner())
}

fn stored_contents(store: &InMemoryStore, number: u64) -> Option<FullCheckpointContents> {
    store.get_checkpoint_contents(number).map(|held| *held.inner())
}

fn assert_holds(store: &InMemoryStore, number: u64) {
    let held = stored_summary(store, number).unwrap();
    assert_eq!(held.sequence_number, number);
    assert_eq!(held.digest.bytes, summary(number).digest.bytes);
    let held_contents = stored_contents(store, number).unwrap();
    assert_eq!(held_contents.digest.bytes, held.content_digest.bytes);
}

#[test]
fn read_whole_archive_into_empty_store() {
    let reader = reader_with(manifest_of_two_pairs(), 4);
    let mut store = InMemoryStore::new();
    let (fetches, done) =
        read_archive(&reader, &mut store, SeqRange::new(0, 4), &archive_of_two_pairs());
    assert_eq!(fetches, 2);
    assert_eq!(done, Ok(()));
    for number in 0..4 {
        assert_holds(&store, number);
    }
    for number in 1..4 {
        assert_eq!(
            stored_summary(&store, number).unwrap().previous_digest.unwrap().bytes,
            stored_summary(&store, number - 1).unwrap().digest.bytes
        );
    }
    assert_eq!(store.checkpoint_count(), 4);
    assert_eq!(reader.latest_available_checkpoint(), Ok(3));
}

#[test]
fn read_from_the_middle_misses_its_predecessor() {
    let reader = reader_with(manifest_of_two_pairs(), 4);
    let mut store = InMemoryStore::new();
    let (fetches, done) =
        read_archive(&reader, &mut store, SeqRange::new(1, 3), &archive_of_two_pairs());
    assert_eq!(fetches, 2);
    assert_eq!(done, Err(ArchiveError::MissingPredecessor { sequence_number: 1 }));
    assert_eq!(store.checkpoint_count(), 0);
    assert!(stored_contents(&store, 1).is_none());
}

#[test]
fn read_twice_changes_nothing_the_second_time() {
    let reader = reader_with(manifest_of_two_pairs(), 4);
    let mut store = InMemoryStore::new();
    let archive = archive_of_two_pairs();
    assert_eq!(read_archive(&reader, &mut store, SeqRange::new(0, 4), &archive).1, Ok(()));
    let first: Vec<_> = (0..4).map(|n| (stored_summary(&store, n), stored_contents(&store, n))).collect();
    let refuse = |_previous: VerifiedCheckpoint, _candidate: CertifiedCheckpointSummary| false;
    let plan = reader.files_to_fetch(SeqRange::new(0, 4)).unwrap();
    let fetched: Vec<Fetched> =
        plan.iter().map(|(summary, contents)| decode_pair(&archive, summary, contents)).collect();
    assert_eq!(reader.read(&mut store, SeqRange::new(0, 4), &fetched, &refuse), Ok(()));
    assert_eq!(store.checkpoint_count(), 4);
    for number in 0..4u64 {
        assert_holds(&store, number);
        let (held, held_contents) = &first[number as usize];
        assert_eq!(held.unwrap().digest.bytes, stored_summary(&store, number).unwrap().digest.bytes);
        assert_eq!(
            held_contents.unwrap().digest.bytes,
            stored_contents(&store, number).unwrap().digest.bytes
        );
    }
}

#[test]
fn read_of_a_part_after_the_whole_changes_nothing() {
    let reader = reader_with(manifest_of_two_pairs(), 4);
    let mut store = InMemoryStore::new();
    let archive = archive_of_two_pairs();
    assert_eq!(read_archive(&reader, &mut store, SeqRange::new(0, 4), &archive).1, Ok(()));
    assert_eq!(read_archive(&reader, &mut store, SeqRange::new(1, 3), &archive).1, Ok(()));
    assert_eq!(store.checkpoint_count(), 4);
    for number in 0..4 {
        assert_holds(&store, number);
    }
}

#[test]
fn corrupt_contents_are_refused_after_their_summary_is_stored() {
    let reader = reader_with(manifest_of_two_pairs(), 4);
    let mut store = InMemoryStore::new();
    let mut archive = archive_of_two_pairs();
    let mut corrupt = CHECKPOINT_FILE_MAGIC.to_be_bytes().to_vec();
    let mut wrong = digest_of(9, 2).bytes.to_vec();
    wrong.extend_from_slice(&[0xEE; 200]);
    corrupt.extend_from_slice(&frame(&wrong));
    let mut right = contents(3).digest.bytes.to_vec();
    right.extend_from_slice(&[0xEE; 200]);
    corrupt.extend_from_slice(&frame(&right));
    archive.insert("epoch_0/2.chk".to_string(), corrupt);
    let (_, done) = read_archive(&reader, &mut store, SeqRange::new(0, 4), &archive);
    assert_eq!(done, Err(ArchiveError::DigestMismatch { sequence_number: 2 }));
    assert_holds(&store, 0);
    assert_holds(&store, 1);
    assert_eq!(stored_summary(&store, 2).unwrap().sequence_number, 2);
    assert!(stored_contents(&store, 2).is_none());
    assert!(stored_summary(&store, 3).is_none());
    assert_eq!(store.checkpoint_count(), 3);
}

#[test]
fn truncated_summary_file_ends_its_checkpoints() {
    let reader = reader_with(manifest_of_two_pairs(), 4);
    let mut store = InMemoryStore::new();
    let mut archive = archive_of_two_pairs();
    let whole = summary_file(&[0, 1]);
    archive.insert("epoch_0/0.sum".to_string(), whole[..4 + 50].to_vec());
    let (fetches, done) = read_archive(&reader, &mut store, SeqRange::new(0, 4), &archive);
    assert_eq!(fetches, 2);
    assert_eq!(done, Err(ArchiveError::MissingPredecessor { sequence_number: 2 }));
    assert_eq!(store.checkpoint_count(), 0);
}

#[test]
fn frame_of_length_zero_fails_the_read() {
    let reader = reader_with(manifest_of_two_pairs(), 4);
    let mut store = InMemoryStore::new();
    let mut archive = archive_of_two_pairs();
    let mut broken = SUMMARY_FILE_MAGIC.to_be_bytes().to_vec();
    broken.extend_from_slice(&frame(&encode_summary(&summary(2))));
    broken.extend_from_slice(&[0x00, 0x01]);
    archive.insert("epoch_0/2.sum".to_string(), broken);
    let (_, done) = read_archive(&reader, &mut store, SeqRange::new(0, 4), &archive);
    assert_eq!(done, Err(ArchiveError::Malformed));
    assert_holds(&store, 0);
    assert_holds(&store, 1);
    assert_holds(&store, 2);
    assert_eq!(store.checkpoint_count(), 3);
}

#[test]
fn blob_that_cannot_be_decoded_ends_the_checkpoints_of_its_file() {
    let reader = reader_with(manifest_of_two_pairs(), 4);
    let mut store = InMemoryStore::new();
    let mut archive = archive_of_two_pairs();
    let mut odd = SUMMARY_FILE_MAGIC.to_be_bytes().to_vec();
    odd.extend_from_slice(&frame(&encode_summary(&summary(2))));
    odd.extend_from_slice(&frame(&[0x01, 0x02, 0x03]));
    odd.extend_from_slice(&[0x00, 0x01]);
    archive.insert("epoch_0/2.sum".to_string(), odd);
    let (_, done) = read_archive(&reader, &mut store, SeqRange::new(0, 4), &archive);
    assert_eq!(done, Ok(()));
    assert_eq!(store.checkpoint_count(), 3);
    assert_holds(&store, 2);
}

#[test]
fn decoded_pair_ends_before_the_first_blob_that_was_not_decoded() {
    let all = DecodedPair::from_decoded(
        vec![(Some(summary(0)), Some(contents(0))), (Some(summary(1)), Some(contents(1)))],
        true,
    );
    assert_eq!(all.summaries.len(), 2);
    assert_eq!(all.contents.len(), 2);
    assert_eq!(all.summaries[1].sequence_number, 1);
    assert!(all.malformed);
    let cut = DecodedPair::from_decoded(
        vec![
            (Some(summary(0)), Some(contents(0))),
            (Some(summary(1)), None),
            (Some(summary(2)), Some(contents(2))),
        ],
        true,
    );
    assert_eq!(cut.summaries.len(), 1);
    assert_eq!(cut.contents.len(), 1);
    assert!(!cut.malformed);
    let none = DecodedPair::from_decoded(vec![(None, Some(contents(0)))], false);
    assert_eq!((none.summaries.len(), none.contents.len(), none.malformed), (0, 0, false));
    let empty = DecodedPair::from_decoded(vec![], true);
    assert_eq!((empty.summaries.len(), empty.malformed), (0, true));
    let clean = DecodedPair::from_decoded(vec![(Some(summary(0)), Some(contents(0)))], false);
    assert_eq!((clean.summaries.len(), clean.malformed), (1, false));
}

#[test]
fn one_pair_is_taken_as_a_read_takes_it() {
    let accept = |_previous: VerifiedCheckpoint, _candidate: CertifiedCheckpointSummary| true;
    let range = SeqRange::new(0, 4);
    let mut store = InMemoryStore::new();
    let first: Fetched = Ok(DecodedPair {
        summaries: vec![summary(0), summary(1)],
        contents: vec![contents(0), contents(1)],
        malformed: false,
    });
    assert_eq!(ingest_fetched(&mut store, range, &first, &accept), Ok(()));
    assert_eq!(store.checkpoint_count(), 2);
    let missing: Fetched = Err(FetchFailure::FetchFailed);
    assert_eq!(
        ingest_fetched(&mut store, range, &missing, &accept),
        Err(ArchiveError::FetchFailed)
    );
    let unreadable: Fetched = Err(FetchFailure::BadMagic);
    assert_eq!(
        ingest_fetched(&mut store, range, &unreadable, &accept),
        Err(ArchiveError::BadMagic)
    );
    assert_eq!(FetchFailure::BadMagic.to_error(), ArchiveError::BadMagic);
    assert_eq!(FetchFailure::FetchFailed.to_error(), ArchiveError::FetchFailed);
    assert_eq!(store.checkpoint_count(), 2);
    let cut: Fetched = Ok(DecodedPair {
        summaries: vec![summary(2)],
        contents: vec![contents(2)],
        malformed: true,
    });
    assert_eq!(ingest_fetched(&mut store, range, &cut, &accept), Err(ArchiveError::Malformed));
    assert_eq!(store.checkpoint_count(), 3);
    let wrong: Fetched = Ok(DecodedPair {
        summaries: vec![summary(3)],
        contents: vec![contents(1)],
        malformed: true,
    });
    assert_eq!(
        ingest_fetched(&mut store, range, &wrong, &accept),
        Err(ArchiveError::DigestMismatch { sequence_number: 3 })
    );
}

#[test]
fn failure_behind_the_checkpoints_is_reported_after_they_are_written() {
    let reader = reader_with(manifest_of_two_pairs(), 4);
    let mut store = InMemoryStore::new();
    let accept = |_previous: VerifiedCheckpoint, _candidate: CertifiedCheckpointSummary| true;
    let fetched: Vec<Fetched> = vec![
        Ok(DecodedPair {
            summaries: vec![summary(0)],
            contents: vec![contents(0)],
            malformed: true,
        }),
        Ok(DecodedPair { summaries: vec![summary(1)], contents: vec![contents(1)], malformed: false }),
    ];
    assert_eq!(
        reader.read(&mut store, SeqRange::new(0, 4), &fetched, &accept),
        Err(ArchiveError::Malformed)
    );
    assert_eq!(store.checkpoint_count(), 1);
    assert_holds(&store, 0);
}

#[test]
fn file_with_the_wrong_magic_fails_the_read() {
    let reader = reader_with(manifest_of_two_pairs(), 4);
    let mut store = InMemoryStore::new();
    let mut archive = archive_of_two_pairs();
    archive.insert("epoch_0/0.chk".to_string(), summary_file(&[0, 1]));
    let (_, done) = read_archive(&reader, &mut store, SeqRange::new(0, 4), &archive);
    assert_eq!(done, Err(ArchiveError::BadMagic));
    assert_eq!(store.checkpoint_count(), 0);
}

#[test]
fn missing_file_fails_the_read_after_the_pairs_before_it() {
    let reader = reader_with(manifest_of_two_pairs(), 4);
    let mut store = InMemoryStore::new();
    let mut archive = archive_of_two_pairs();
    archive.remove("epoch_0/2.sum");
    let (_, done) = read_archive(&reader, &mut store, SeqRange::new(0, 4), &archive);
    assert_eq!(done, Err(ArchiveError::FetchFailed));
    assert_eq!(store.checkpoint_count(), 2);
}

#[test]
fn files_that_are_not_the_planned_ones_are_refused() {
    let reader = reader_with(manifest_of_two_pairs(), 4);
    let mut store = InMemoryStore::new();
    let accept = |_previous: VerifiedCheckpoint, _candidate: CertifiedCheckpointSummary| true;
    let fetched: Vec<Fetched> = vec![Ok(DecodedPair {
        summaries: vec![summary(0), summary(1)],
        contents: vec![contents(0), contents(1)],
        malformed: false,
    })];
    assert_eq!(
        reader.read(&mut store, SeqRange::new(0, 4), &fetched, &accept),
        Err(ArchiveError::FetchFailed)
    );
    assert_eq!(store.checkpoint_count(), 0);
}

#[test]
fn read_of_an_empty_range_writes_nothing() {
    let reader = reader_with(manifest_of_two_pairs(), 4);
    let mut store = InMemoryStore::new();
    let archive = archive_of_two_pairs();
    let (fetches, done) = read_archive(&reader, &mut store, SeqRange::new(2, 2), &archive);
    assert_eq!(fetches, 0);
    assert_eq!(done, Ok(()));
    assert_eq!(store.checkpoint_count(), 0);
    let (fetches, done) = read_archive(&reader, &mut store, SeqRange::new(1, 1), &archive);
    assert_eq!(fetches, 1);
    assert_eq!(done, Ok(()));
    assert_eq!(store.checkpoint_count(), 0);
}

#[test]
fn read_from_the_latest_checkpoint_takes_one() {
    let reader = reader_with(manifest_of_two_pairs(), 4);
    let mut store = InMemoryStore::new();
    let archive = archive_of_two_pairs();
    assert_eq!(read_archive(&reader, &mut store, SeqRange::new(0, 3), &archive).1, Ok(()));
    assert_eq!(store.checkpoint_count(), 3);
    let (fetches, done) = read_archive(&reader, &mut store, SeqRange::new(3, 10), &archive);
    assert_eq!(fetches, 1);
    assert_eq!(done, Ok(()));
    assert_eq!(store.checkpoint_count(), 4);
    assert_holds(&store, 3);
}

#[test]
fn read_behind_the_latest_checkpoint_is_out_of_range() {
    let reader = reader_with(manifest_of_two_pairs(), 4);
    let mut store = InMemoryStore::new();
    let (fetches, done) =
        read_archive(&reader, &mut store, SeqRange::new(4, 6), &archive_of_two_pairs());
    assert_eq!(fetches, 0);
    assert_eq!(done, Err(ArchiveError::OutOfRange { latest: 3 }));
    assert_eq!(store.checkpoint_count(), 0);
}

#[test]
fn read_before_the_first_refresh_is_not_ready() {
    let mut reader = ArchiveReaderV1::new(
        ObjectStoreConfig { directory: Some("/tmp/archive".to_string()) },
        1,
    )
    .unwrap();
    let mut store = InMemoryStore::new();
    let archive = archive_of_two_pairs();
    assert_eq!(
        read_archive(&reader, &mut store, SeqRange::new(0, 4), &archive).1,
        Err(ArchiveError::NotReady)
    );
    assert_eq!(reader.latest_available_checkpoint(), Err(ArchiveError::NotReady));
    assert_eq!(reader.on_sync_event(SyncEvent::RefreshFailed), SyncAction::Continue);
    assert_eq!(
        read_archive(&reader, &mut store, SeqRange::new(0, 4), &archive).1,
        Err(ArchiveError::NotReady)
    );
    assert_eq!(
        reader.on_sync_event(SyncEvent::Refreshed(manifest_of_two_pairs())),
        SyncAction::Continue
    );
    assert_eq!(read_archive(&reader, &mut store, SeqRange::new(0, 4), &archive).1, Ok(()));
    assert_eq!(store.checkpoint_count(), 4);
}

#[test]
fn concurrency_does_not_change_what_is_stored() {
    let archive = archive_of_two_pairs();
    let mut one = InMemoryStore::new();
    let mut sixteen = InMemoryStore::new();
    let first = read_archive(
        &reader_with(manifest_of_two_pairs(), 1),
        &mut one,
        SeqRange::new(0, 4),
        &archive,
    );
    let second = read_archive(
        &reader_with(manifest_of_two_pairs(), 16),
        &mut sixteen,
        SeqRange::new(0, 4),
        &archive,
    );
    assert_eq!(first, second);
    assert_eq!(one.checkpoint_count(), sixteen.checkpoint_count());
    for number in 0..4 {
        assert_eq!(
            stored_summary(&one, number).unwrap().digest.bytes,
            stored_summary(&sixteen, number).unwrap().digest.bytes
        );
        assert_eq!(
            stored_contents(&one, number).unwrap().digest.bytes,
            stored_contents(&sixteen, number).unwrap().digest.bytes
        );
    }
}

#[test]
fn summary_that_breaks_the_chain_is_refused() {
    let reader = reader_with(manifest_of_two_pairs(), 4);
    let mut store = InMemoryStore::new();
    let accept = |_previous: VerifiedCheckpoint, _candidate: CertifiedCheckpointSummary| true;
    let mut forged = summary(1);
    forged.previous_digest = Some(digest_of(7, 0));
    let fetched: Vec<Fetched> = vec![
        Ok(DecodedPair {
            summaries: vec![summary(0), forged],
            contents: vec![contents(0), contents(1)],
            malformed: false,
        }),
        Ok(DecodedPair {
            summaries: vec![summary(2), summary(3)],
            contents: vec![contents(2), contents(3)],
            malformed: false,
        }),
    ];
    assert_eq!(
        reader.read(&mut store, SeqRange::new(0, 4), &fetched, &accept),
        Err(ArchiveError::VerificationFailed { sequence_number: 1 })
    );
    assert_eq!(store.checkpoint_count(), 1);
    assert_holds(&store, 0);
}

#[test]
fn summary_that_the_verifier_refuses_is_not_stored() {
    let reader = reader_with(manifest_of_two_pairs(), 4);
    let mut store = InMemoryStore::new();
    let refuse_three =
        |_previous: VerifiedCheckpoint, candidate: CertifiedCheckpointSummary| {
            candidate.sequence_number != 3
        };
    let fetched: Vec<Fetched> = vec![
        Ok(DecodedPair {
            summaries: vec![summary(0), summary(1)],
            contents: vec![contents(0), contents(1)],
            malformed: false,
        }),
        Ok(DecodedPair {
            summaries: vec![summary(2), summary(3)],
            contents: vec![contents(2), contents(3)],
            malformed: false,
        }),
    ];
    assert_eq!(
        reader.read(&mut store, SeqRange::new(0, 4), &fetched, &refuse_three),
        Err(ArchiveError::VerificationFailed { sequence_number: 3 })
    );
    assert_eq!(store.checkpoint_count(), 3);
    assert!(stored_summary(&store, 3).is_none());
}

struct FailingStore {
    inner: InMemoryStore,
    inserts_left: usize,
}

impl WriteStore for FailingStore {
    fn state(&self) -> StoreState {
        self.inner.state()
    }

    fn get_checkpoint_by_sequence_number(
        &self,
        number: u64,
    ) -> Result<Option<VerifiedCheckpoint>, StoreFailure> {
        self.inner.get_checkpoint_by_sequence_number(number)
    }

    fn insert_checkpoint(&mut self, checkpoint: VerifiedCheckpoint) -> Result<(), StoreFailure> {
        if self.inserts_left == 0 {
            return Err(StoreFailure { code: 5 });
        }
        self.inserts_left -= 1;
        self.inner.insert_checkpoint(checkpoint)
    }

    fn insert_checkpoint_contents(
        &mut self,
        checkpoint: &VerifiedCheckpoint,
        contents: sui_archival::checkpoint::VerifiedCheckpointContents,
    ) -> Result<(), StoreFailure> {
        self.inner.insert_checkpoint_contents(checkpoint, contents)
    }
}

#[test]
fn failure_of_the_store_ends_the_read() {
    let reader = reader_with(manifest_of_two_pairs(), 4);
    let mut store = FailingStore { inner: InMemoryStore::new(), inserts_left: 2 };
    let (_, done) =
        read_archive(&reader, &mut store, SeqRange::new(0, 4), &archive_of_two_pairs());
    assert_eq!(done, Err(ArchiveError::StoreError));
    assert_eq!(store.inner.checkpoint_count(), 2);
    assert_holds(&store.inner, 1);
}

#[test]
fn cancelled_reader_ignores_later_manifests() {
    let mut reader = reader_with(Manifest::new(0, 0), 2);
    assert_eq!(reader.on_sync_event(SyncEvent::Cancelled), SyncAction::Stop);
    assert_eq!(
        reader.on_sync_event(SyncEvent::Refreshed(manifest_of_two_pairs())),
        SyncAction::Stop
    );
    assert_eq!(reader.latest_available_checkpoint(), Err(ArchiveError::NotReady));
    assert_eq!(reader.download_concurrency(), 2);
}

#[test]
fn reader_needs_a_local_directory_and_a_download_slot() {
    let without_directory = ArchiveReaderV1::new(ObjectStoreConfig { directory: None }, 1);
    assert_eq!(without_directory.err(), Some(ArchiveError::ConfigInvalid));
    let without_slot = ArchiveReaderV1::new(
        ObjectStoreConfig { directory: Some("/tmp/archive".to_string()) },
        0,
    );
    assert_eq!(without_slot.err(), Some(ArchiveError::ConfigInvalid));
    let reader = ArchiveReaderV1::new(
        ObjectStoreConfig { directory: Some("/var/archive".to_string()) },
        3,
    )
    .unwrap();
    assert_eq!(reader.local_directory(), "/var/archive");
    assert_eq!(reader.download_concurrency(), 3);
    assert_eq!(reader.manifest_snapshot().files().len(), 0);
    assert_eq!(reader.manifest_snapshot().next_checkpoint_seq_num(), 0);
}

#[test]
fn concurrency_does_not_change_how_a_read_fails() {
    let mut archive = archive_of_two_pairs();
    let mut corrupt = CHECKPOINT_FILE_MAGIC.to_be_bytes().to_vec();
    let mut right = contents(2).digest.bytes.to_vec();
    right.extend_from_slice(&[0xEE; 200]);
    corrupt.extend_from_slice(&frame(&right));
    let mut wrong = digest_of(9, 3).bytes.to_vec();
    wrong.extend_from_slice(&[0xEE; 200]);
    corrupt.extend_from_slice(&frame(&wrong));
    archive.insert("epoch_0/2.chk".to_string(), corrupt);
    let mut one = InMemoryStore::new();
    let mut sixteen = InMemoryStore::new();
    let first = read_archive(
        &reader_with(manifest_of_two_pairs(), 1),
        &mut one,
        SeqRange::new(0, 4),
        &archive,
    );
    let second = read_archive(
        &reader_with(manifest_of_two_pairs(), 16),
        &mut sixteen,
        SeqRange::new(0, 4),
        &archive,
    );
    assert_eq!(first, (2, Err(ArchiveError::DigestMismatch { sequence_number: 3 })));
    assert_eq!(first, second);
    assert_eq!(one.checkpoint_count(), 4);
    assert_eq!(sixteen.checkpoint_count(), 4);
    for number in 0..3 {
        assert_holds(&one, number);
        assert_holds(&sixteen, number);
    }
    assert!(stored_contents(&one, 3).is_none());
    assert!(stored_contents(&sixteen, 3).is_none());
}

#[test]
fn broken_manifest_fails_the_read_whatever_it_counts() {
    let broken = Manifest::with_files(
        0,
        0,
        vec![metadata(FileType::CheckpointSummary, 0, 2), metadata(FileType::CheckpointContent, 0, 3)],
    );
    let reader = reader_with(broken, 2);
    let mut store = InMemoryStore::new();
    let (fetches, done) =
        read_archive(&reader, &mut store, SeqRange::new(0, 4), &archive_of_two_pairs());
    assert_eq!(fetches, 0);
    assert_eq!(done, Err(ArchiveError::ManifestInvariantViolated));
    assert_eq!(store.checkpoint_count(), 0);
    assert_eq!(reader.latest_available_checkpoint(), Err(ArchiveError::NotReady));
}
