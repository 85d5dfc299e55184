use sui_archival::checkpoint::{
    CertifiedCheckpointSummary, Digest, FullCheckpointContents, VerifiedCheckpoint,
    VerifiedCheckpointContents,
};
use sui_archival::error::ArchiveError;
use sui_archival::ingest::{
    admit_checkpoint, get_or_insert_verified_checkpoint, ingest_pair, insert_verified_contents,
    lookup_checkpoint, process_checkpoint, Standing,
};
use sui_archival::manifest::SeqRange;
use sui_archival::store::{InMemoryStore, WriteStore};

fn digest(tag: u8, number: u64) -> Digest {
    let mut bytes = [tag; 32];
    bytes[24..32].copy_from_slice(&number.to_le_bytes());
    Digest::new(bytes)
}

fn summary(number: u64) -> CertifiedCheckpointSummary {
    CertifiedCheckpointSummary {
        sequence_number: number,
        digest: digest(1, number),
        previous_digest: if number == 0 { None } else { Some(digest(1, number - 1)) },
        content_digest: digest(2, number),
    }
}

fn contents(number: u64) -> FullCheckpointContents {
    FullCheckpointContents { digest: digest(2, number) }
}

fn accept(_previous: VerifiedCheckpoint, _candidate: CertifiedCheckpointSummary) -> bool {
    true
}

fn refuse(_previous: VerifiedCheckpoint, _candidate: CertifiedCheckpointSummary) -> bool {
    false
}

fn store_with(numbers: &[u64]) -> InMemoryStore {
    let mut store = InMemoryStore::new();
    for number in numbers {
        store.insert_checkpoint(VerifiedCheckpoint::new_unchecked(summary(*number))).unwrap();
    }
    store
}

fn held(store: &InMemoryStore, number: u64) -> Option<VerifiedCheckpoint> {
    store.get_checkpoint_by_sequence_number(number).unwrap()
}

#[test]
fn digests_are_the_same_when_all_bytes_are() {
    assert!(digest(1, 5).same(&digest(1, 5)));
    assert!(!digest(1, 5).same(&digest(1, 6)));
    let mut last = digest(1, 5);
    last.bytes[31] ^= 0x80;
    assert!(!digest(1, 5).same(&last));
    let mut first = digest(1, 5);
    first.bytes[0] = 0;
    assert!(!digest(1, 5).same(&first));
}

#[test]
fn standing_of_a_candidate() {
    let store = store_with(&[0, 1]);
    assert!(matches!(lookup_checkpoint(&store, &summary(1)), Ok(Standing::Stored(v)) if v.sequence_number() == 1));
    assert!(matches!(lookup_checkpoint(&store, &summary(2)), Ok(Standing::Follows(v)) if v.sequence_number() == 1));
    assert!(matches!(lookup_checkpoint(&store, &summary(3)), Ok(Standing::Orphan)));
    assert!(matches!(lookup_checkpoint(&InMemoryStore::new(), &summary(0)), Ok(Standing::Genesis)));
    assert!(matches!(lookup_checkpoint(&InMemoryStore::new(), &summary(1)), Ok(Standing::Orphan)));
}

#[test]
fn admit_goes_by_standing_and_verdict() {
    let previous = VerifiedCheckpoint::new_unchecked(summary(4));
    let mut store = InMemoryStore::new();
    assert_eq!(
        admit_checkpoint(&mut store, Standing::Follows(previous), summary(5), false).err(),
        Some(ArchiveError::VerificationFailed { sequence_number: 5 })
    );
    assert_eq!(
        admit_checkpoint(&mut store, Standing::Orphan, summary(5), true).err(),
        Some(ArchiveError::MissingPredecessor { sequence_number: 5 })
    );
    assert_eq!(store.checkpoint_count(), 0);
    let admitted =
        admit_checkpoint(&mut store, Standing::Follows(previous), summary(5), true).unwrap();
    assert_eq!(admitted.sequence_number(), 5);
    assert_eq!(held(&store, 5).unwrap().inner().digest.bytes, summary(5).digest.bytes);
    let stored = VerifiedCheckpoint::new_unchecked(summary(9));
    let back = admit_checkpoint(&mut store, Standing::Stored(stored), summary(5), false).unwrap();
    assert_eq!(back.sequence_number(), 9);
    assert_eq!(store.checkpoint_count(), 1);
    let root = admit_checkpoint(&mut store, Standing::Genesis, summary(0), false).unwrap();
    assert_eq!(root.sequence_number(), 0);
    assert_eq!(store.checkpoint_count(), 2);
}

#[test]
fn admit_refuses_a_summary_that_names_another_predecessor() {
    let previous = VerifiedCheckpoint::new_unchecked(summary(4));
    let mut store = InMemoryStore::new();
    let mut forged = summary(5);
    forged.previous_digest = Some(digest(1, 3));
    assert_eq!(
        admit_checkpoint(&mut store, Standing::Follows(previous), forged, true).err(),
        Some(ArchiveError::VerificationFailed { sequence_number: 5 })
    );
    forged.previous_digest = None;
    assert_eq!(
        admit_checkpoint(&mut store, Standing::Follows(previous), forged, true).err(),
        Some(ArchiveError::VerificationFailed { sequence_number: 5 })
    );
    assert_eq!(store.checkpoint_count(), 0);
}

#[test]
fn stored_summary_is_handed_back_without_the_verifier() {
    let mut store = store_with(&[0, 1, 2]);
    let mut other = summary(2);
    other.digest = digest(8, 2);
    let back = get_or_insert_verified_checkpoint(&mut store, other, &refuse).unwrap();
    assert_eq!(back.inner().digest.bytes, summary(2).digest.bytes);
    assert_eq!(store.checkpoint_count(), 3);
}

#[test]
fn new_summary_is_verified_against_the_one_below() {
    let mut store = store_with(&[0, 1, 2]);
    assert_eq!(
        get_or_insert_verified_checkpoint(&mut store, summary(3), &refuse).err(),
        Some(ArchiveError::VerificationFailed { sequence_number: 3 })
    );
    assert!(held(&store, 3).is_none());
    let verified = get_or_insert_verified_checkpoint(&mut store, summary(3), &accept).unwrap();
    assert_eq!(verified.sequence_number(), 3);
    assert_eq!(held(&store, 3).unwrap().inner().content_digest.bytes, digest(2, 3).bytes);
    assert_eq!(
        get_or_insert_verified_checkpoint(&mut store, summary(5), &accept).err(),
        Some(ArchiveError::MissingPredecessor { sequence_number: 5 })
    );
    assert_eq!(store.checkpoint_count(), 4);
}

#[test]
fn first_summary_is_the_root_of_trust() {
    let mut store = InMemoryStore::new();
    let verified = get_or_insert_verified_checkpoint(&mut store, summary(0), &refuse).unwrap();
    assert_eq!(verified.sequence_number(), 0);
    assert_eq!(store.checkpoint_count(), 1);
}

#[test]
fn contents_go_under_a_summary_with_their_digest() {
    let mut store = store_with(&[0]);
    let verified = held(&store, 0).unwrap();
    assert_eq!(
        insert_verified_contents(&mut store, &verified, contents(1)),
        Err(ArchiveError::DigestMismatch { sequence_number: 0 })
    );
    assert!(store.get_checkpoint_contents(0).is_none());
    assert_eq!(insert_verified_contents(&mut store, &verified, contents(0)), Ok(()));
    assert_eq!(
        store.get_checkpoint_contents(0).unwrap().inner().digest.bytes,
        digest(2, 0).bytes
    );
    assert_eq!(insert_verified_contents(&mut store, &verified, contents(0)), Ok(()));
}

#[test]
fn store_keeps_contents_that_it_holds_with_the_same_digest() {
    let mut store = store_with(&[0]);
    let verified = held(&store, 0).unwrap();
    store
        .insert_checkpoint_contents(&verified, VerifiedCheckpointContents::new_unchecked(contents(0)))
        .unwrap();
    store
        .insert_checkpoint_contents(&verified, VerifiedCheckpointContents::new_unchecked(contents(7)))
        .unwrap();
    assert_eq!(
        store.get_checkpoint_contents(0).unwrap().inner().digest.bytes,
        digest(2, 7).bytes
    );
    assert!(store.get_checkpoint_contents(1).is_none());
}

#[test]
fn checkpoint_is_processed_summary_first() {
    let mut store = store_with(&[0]);
    assert_eq!(
        process_checkpoint(&mut store, summary(1), contents(3), &accept),
        Err(ArchiveError::DigestMismatch { sequence_number: 1 })
    );
    assert!(held(&store, 1).is_some());
    assert!(store.get_checkpoint_contents(1).is_none());
    assert_eq!(process_checkpoint(&mut store, summary(1), contents(1), &refuse), Ok(()));
    assert!(store.get_checkpoint_contents(1).is_some());
}

#[test]
fn pair_is_zipped_filtered_and_taken_in_order() {
    let mut store = store_with(&[0, 1]);
    let summaries: Vec<_> = (0..6).map(summary).collect();
    let all_contents: Vec<_> = (0..5).map(contents).collect();
    assert_eq!(
        ingest_pair(&mut store, SeqRange::new(2, 4), &summaries, &all_contents, &accept),
        Ok(())
    );
    assert_eq!(store.checkpoint_count(), 4);
    assert!(store.get_checkpoint_contents(1).is_none());
    assert!(store.get_checkpoint_contents(2).is_some());
    assert!(store.get_checkpoint_contents(3).is_some());
    assert!(held(&store, 4).is_none());
    assert_eq!(
        ingest_pair(&mut store, SeqRange::new(0, 10), &summaries, &all_contents, &accept),
        Ok(())
    );
    assert_eq!(store.checkpoint_count(), 5);
    assert!(held(&store, 5).is_none());
}

#[test]
fn pair_stops_at_the_first_failure() {
    let mut store = InMemoryStore::new();
    let summaries: Vec<_> = (0..4).map(summary).collect();
    let mut all_contents: Vec<_> = (0..4).map(contents).collect();
    all_contents[2] = contents(9);
    assert_eq!(
        ingest_pair(&mut store, SeqRange::new(0, 4), &summaries, &all_contents, &accept),
        Err(ArchiveError::DigestMismatch { sequence_number: 2 })
    );
    assert_eq!(store.checkpoint_count(), 3);
    assert!(store.get_checkpoint_contents(1).is_some());
    assert!(store.get_checkpoint_contents(2).is_none());
    assert!(held(&store, 3).is_none());
}
