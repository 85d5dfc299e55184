//! The archive reader: its manifest, and the reading of a range of
//! checkpoints into a local store.

use crate::checkpoint::{
    CertifiedCheckpointSummary, CheckpointSequenceNumber, FullCheckpointContents,
    VerifiedCheckpoint,
};
use crate::error::ArchiveError;
use crate::ingest::{all_accepted, failed_at, ingest_pair, ingested, paired};
use crate::manifest::{FileMetadata, Manifest, ManifestView, SeqRange};
use crate::planner::{plan_read, planned};
use crate::store::{StoreState, WriteStore};
use vstd::prelude::*;

verus! {

/// The seconds between two refreshes of the manifest.
pub const MANIFEST_REFRESH_SECONDS: u64 = 60;

/// Where an object store keeps its objects.
#[derive(Debug)]
pub struct ObjectStoreConfig {
    pub directory: Option<String>,
}

/// Why a pair of files could not be had or opened.
#[derive(Clone, Copy, Debug, PartialEq, Eq, Structural)]
pub enum FetchFailure {
    /// A file could not be had from the remote store.
    FetchFailed,
    /// A file does not begin with the magic number of its type.
    BadMagic,
}

impl FetchFailure {
    /// The error that a read ends with on this failure.
    pub open spec fn error(self) -> ArchiveError {
        match self {
            FetchFailure::FetchFailed => ArchiveError::FetchFailed,
            FetchFailure::BadMagic => ArchiveError::BadMagic,
        }
    }

    /// The error that a read ends with on this failure.
    pub fn to_error(&self) -> (error: ArchiveError)
        ensures
            error == self.error(),
    {
        match self {
            FetchFailure::FetchFailed => ArchiveError::FetchFailed,
            FetchFailure::BadMagic => ArchiveError::BadMagic,
        }
    }
}

/// The checkpoints that one pair of files holds, decoded, in the order of
/// the files, and whether a malformed frame ended the reading of the files
/// behind them.
#[derive(Debug)]
pub struct DecodedPair {
    pub summaries: Vec<CertifiedCheckpointSummary>,
    pub contents: Vec<FullCheckpointContents>,
    pub malformed: bool,
}

/// Whether the first `count` pairs of blobs were decoded, both blobs of each,
/// and no more than these.
pub open spec fn decoded_up_to(
    decoded: Seq<(Option<CertifiedCheckpointSummary>, Option<FullCheckpointContents>)>,
    count: int,
) -> bool {
    &&& 0 <= count <= decoded.len()
    &&& forall|i: int|
        0 <= i < count ==> (#[trigger] decoded[i]).0 is Some && decoded[i].1 is Some
    &&& count < decoded.len() ==> decoded[count].0 is None || decoded[count].1 is None
}

impl DecodedPair {
    /// The checkpoints of a pair of files, from what the decoding of each
    /// pair of blobs gave and from whether a malformed frame ended the
    /// reading of the frames. The checkpoints end before the first pair of
    /// which a blob was not decoded; the malformed frame counts where every
    /// blob was decoded.
    pub fn from_decoded(
        decoded: Vec<(Option<CertifiedCheckpointSummary>, Option<FullCheckpointContents>)>,
        malformed: bool,
    ) -> (pair: DecodedPair)
        ensures
            decoded_up_to(decoded@, pair.summaries@.len() as int),
            pair.contents@.len() == pair.summaries@.len(),
            forall|i: int|
                0 <= i < pair.summaries@.len() ==> (#[trigger] decoded@[i]).0 == Some(
                    pair.summaries@[i],
                ) && decoded@[i].1 == Some(pair.contents@[i]),
            pair.malformed == (malformed && pair.summaries@.len() == decoded@.len()),
    {
        let mut summaries: Vec<CertifiedCheckpointSummary> = Vec::new();
        let mut contents: Vec<FullCheckpointContents> = Vec::new();
        let mut i: usize = 0;
        while i < decoded.len()
            invariant
                i <= decoded.len(),
                summaries@.len() == i,
                contents@.len() == i,
                forall|k: int|
                    0 <= k < i ==> (#[trigger] decoded@[k]).0 == Some(summaries@[k])
                        && decoded@[k].1 == Some(contents@[k]),
            decreases decoded.len() - i,
        {
            match decoded[i] {
                (Some(summary), Some(blob)) => {
                    summaries.push(summary);
                    contents.push(blob);
                },
                _ => {
                    return DecodedPair { summaries, contents, malformed: false };
                },
            }
            i = i + 1;
        }
        DecodedPair { summaries, contents, malformed }
    }
}

/// What became of the download of one pair of files.
pub type Fetched = Result<DecodedPair, FetchFailure>;

/// Whether a pair of files was fetched and read to its end.
pub open spec fn whole(file: Fetched) -> bool {
    file matches Ok(pair) && !pair.malformed
}

/// Whether taking one pair of files rightly ends with `done` and takes the
/// store from `before` to `after`.
///
/// A pair that was not fetched leaves the store alone and ends with the
/// error of its failure. Of a pair that was fetched the checkpoints are
/// taken in order: a success has taken all of them and no malformed frame
/// stood behind them; a failure names the first checkpoint that was not
/// taken, or is `Malformed` once all were taken and a malformed frame stood
/// behind them.
pub open spec fn pair_outcome<V: Fn(VerifiedCheckpoint, CertifiedCheckpointSummary) -> bool>(
    before: StoreState,
    after: StoreState,
    range: SeqRange,
    file: Fetched,
    verify: V,
    done: Result<(), ArchiveError>,
) -> bool {
    match file {
        Err(failure) => done == Err::<(), ArchiveError>(failure.error()) && after == before,
        Ok(pair) => {
            let taken = paired(pair.summaries@.len(), pair.contents@.len());
            match done {
                Ok(()) => {
                    &&& !pair.malformed
                    &&& all_accepted(before, range, pair.summaries@, pair.contents@, taken, verify)
                    &&& after == ingested(before, range, pair.summaries@, pair.contents@, taken)
                },
                Err(error) => {
                    ||| exists|at: int|
                        #[trigger] failed_at(
                            before,
                            after,
                            range,
                            pair.summaries@,
                            pair.contents@,
                            verify,
                            error,
                            at,
                        )
                    ||| {
                        &&& pair.malformed
                        &&& error == ArchiveError::Malformed
                        &&& all_accepted(
                            before,
                            range,
                            pair.summaries@,
                            pair.contents@,
                            taken,
                            verify,
                        )
                        &&& after == ingested(
                            before,
                            range,
                            pair.summaries@,
                            pair.contents@,
                            taken,
                        )
                    }
                },
            }
        },
    }
}

/// Takes one pair of files into the store: the step that `read` makes for
/// each pair, for a caller that has the pairs one after the other.
pub fn ingest_fetched<S: WriteStore, V: Fn(VerifiedCheckpoint, CertifiedCheckpointSummary) -> bool>(
    store: &mut S,
    range: SeqRange,
    fetched: &Fetched,
    verify: &V,
) -> (done: Result<(), ArchiveError>)
    requires
        forall|previous: VerifiedCheckpoint, candidate: CertifiedCheckpointSummary|
            call_requires(*verify, (previous, candidate)),
    ensures
        pair_outcome(old(store).state(), final(store).state(), range, *fetched, *verify, done),
{
    match fetched {
        Ok(pair) => {
            match ingest_pair(store, range, &pair.summaries, &pair.contents, verify) {
                Ok(()) => {},
                Err(error) => { return Err(error); },
            }
            if pair.malformed {
                Err(ArchiveError::Malformed)
            } else {
                Ok(())
            }
        },
        Err(failure) => Err(failure.to_error()),
    }
}

/// What the task that refreshes the manifest reports.
#[derive(Debug)]
pub enum SyncEvent {
    /// A refresh brought this manifest.
    Refreshed(Manifest),
    /// A refresh failed.
    RefreshFailed,
    /// The reader was disposed of.
    Cancelled,
}

/// What the task that refreshes the manifest does next.
#[derive(Clone, Copy, Debug, PartialEq, Eq, Structural)]
pub enum SyncAction {
    /// Wait for the next tick and refresh again.
    Continue,
    /// End the task.
    Stop,
}

/// A reader of the archive.
pub struct ArchiveReaderV1 {
    concurrency: usize,
    local_directory: String,
    manifest: Manifest,
    syncing: bool,
}

/// The state of a store after the first `count` pairs of files have been
/// taken into it; a pair that was not fetched leaves it as it was.
pub open spec fn ingested_files(
    before: StoreState,
    range: SeqRange,
    files: Seq<Fetched>,
    count: nat,
) -> StoreState
    decreases count,
{
    if count == 0 {
        before
    } else {
        let earlier = ingested_files(before, range, files, (count - 1) as nat);
        match files[count - 1] {
            Ok(pair) => ingested(
                earlier,
                range,
                pair.summaries@,
                pair.contents@,
                paired(pair.summaries@.len(), pair.contents@.len()),
            ),
            Err(_) => earlier,
        }
    }
}

/// Whether each of the first `count` pairs of files was fetched and read
/// without failure, and all its checkpoints in `range` are accepted by the
/// store in the state that the pairs before it have left.
pub open spec fn files_accepted<V: Fn(VerifiedCheckpoint, CertifiedCheckpointSummary) -> bool>(
    before: StoreState,
    range: SeqRange,
    files: Seq<Fetched>,
    count: nat,
    verify: V,
) -> bool {
    forall|i: int|
        0 <= i < count ==> ((#[trigger] files[i]) matches Ok(pair) && !pair.malformed
            && all_accepted(
            ingested_files(before, range, files, i as nat),
            range,
            pair.summaries@,
            pair.contents@,
            paired(pair.summaries@.len(), pair.contents@.len()),
            verify,
        ))
}

/// Whether the pair of files at `index` is the first one that the read
/// failed on, and `after` and `error` are what taking it left.
pub open spec fn read_failed_at<V: Fn(VerifiedCheckpoint, CertifiedCheckpointSummary) -> bool>(
    before: StoreState,
    after: StoreState,
    range: SeqRange,
    files: Seq<Fetched>,
    verify: V,
    error: ArchiveError,
    index: int,
) -> bool {
    &&& 0 <= index < files.len()
    &&& files_accepted(before, range, files, index as nat, verify)
    &&& pair_outcome(
        ingested_files(before, range, files, index as nat),
        after,
        range,
        files[index],
        verify,
        Err(error),
    )
}

/// Whether a read of `range` against `manifest`, handed `files` for the
/// planned pairs, rightly ends with `done` and takes the store from `before`
/// to `after`.
///
/// Where no read can be planned the store is left alone and the error of the
/// plan is the result. Where the files handed in are not as many as the
/// planned pairs, the read fails with `FetchFailed` and the store is left
/// alone. Otherwise the pairs are taken in order: a success has taken every
/// one of them, a failure names the first pair that was not taken.
pub open spec fn read_outcome<V: Fn(VerifiedCheckpoint, CertifiedCheckpointSummary) -> bool>(
    manifest: ManifestView,
    before: StoreState,
    after: StoreState,
    range: SeqRange,
    files: Seq<Fetched>,
    verify: V,
    done: Result<(), ArchiveError>,
) -> bool {
    match planned(manifest, range) {
        Err(error) => done == Err::<(), ArchiveError>(error) && after == before,
        Ok(pairs) => if pairs.len() != files.len() {
            done == Err::<(), ArchiveError>(ArchiveError::FetchFailed) && after == before
        } else {
            match done {
                Ok(()) => {
                    &&& files_accepted(before, range, files, files.len(), verify)
                    &&& after == ingested_files(before, range, files, files.len())
                },
                Err(error) => exists|index: int|
                    #[trigger] read_failed_at(before, after, range, files, verify, error, index),
            }
        },
    }
}

impl ArchiveReaderV1 {
    /// The manifest that the reader holds.
    pub closed spec fn manifest(&self) -> ManifestView {
        self.manifest@
    }

    /// How many pairs of files the reader downloads at a time.
    pub closed spec fn concurrency(&self) -> usize {
        self.concurrency
    }

    /// Whether the task that refreshes the manifest is running.
    pub closed spec fn syncing(&self) -> bool {
        self.syncing
    }

    /// The directory of the local store.
    pub closed spec fn directory(&self) -> Seq<char> {
        self.local_directory@
    }

    /// A reader with an empty manifest, whose refresh task is running.
    ///
    /// Fails with `ConfigInvalid` where the local store has no directory or
    /// no download is allowed at a time.
    pub fn new(local_store_config: ObjectStoreConfig, download_concurrency: usize) -> (made: Result<
        ArchiveReaderV1,
        ArchiveError,
    >)
        ensures
            match made {
                Ok(reader) => {
                    &&& local_store_config.directory is Some
                    &&& download_concurrency > 0
                    &&& reader.concurrency() == download_concurrency
                    &&& reader.directory() == local_store_config.directory->0@
                    &&& reader.syncing()
                    &&& reader.manifest().next_checkpoint_seq_num == 0
                    &&& reader.manifest().epoch == 0
                    &&& reader.manifest().files == Seq::<FileMetadata>::empty()
                },
                Err(error) => {
                    &&& error == ArchiveError::ConfigInvalid
                    &&& (local_store_config.directory is None || download_concurrency == 0)
                },
            },
    {
        let local_directory = match local_store_config.directory {
            Some(directory) => directory,
            None => { return Err(ArchiveError::ConfigInvalid); },
        };
        if download_concurrency == 0 {
            return Err(ArchiveError::ConfigInvalid);
        }
        Ok(
            ArchiveReaderV1 {
                concurrency: download_concurrency,
                local_directory,
                manifest: Manifest::new(0, 0),
                syncing: true,
            },
        )
    }

    /// How many pairs of files to download at a time.
    pub fn download_concurrency(&self) -> (slots: usize)
        ensures
            slots == self.concurrency(),
    {
        self.concurrency
    }

    /// The directory of the local store.
    pub fn local_directory(&self) -> (directory: &String)
        ensures
            directory@ == self.directory(),
    {
        &self.local_directory
    }

    /// A copy of the manifest as it is now.
    pub fn manifest_snapshot(&self) -> (snapshot: Manifest)
        ensures
            snapshot@ == self.manifest(),
    {
        self.manifest.clone()
    }

    /// Takes in what the task that refreshes the manifest reports, and says
    /// what the task does next. A manifest that was brought replaces the one
    /// held; a failed refresh changes nothing; a cancellation ends the task,
    /// after which reports are ignored.
    pub fn on_sync_event(&mut self, event: SyncEvent) -> (action: SyncAction)
        ensures
            final(self).concurrency() == old(self).concurrency(),
            final(self).directory() == old(self).directory(),
            final(self).manifest() == match event {
                SyncEvent::Refreshed(manifest) if old(self).syncing() => manifest@,
                _ => old(self).manifest(),
            },
            final(self).syncing() == (old(self).syncing() && !(event is Cancelled)),
            action == if final(self).syncing() {
                SyncAction::Continue
            } else {
                SyncAction::Stop
            },
    {
        if !self.syncing {
            return SyncAction::Stop;
        }
        match event {
            SyncEvent::Refreshed(manifest) => {
                self.manifest = manifest;
                SyncAction::Continue
            },
            SyncEvent::RefreshFailed => SyncAction::Continue,
            SyncEvent::Cancelled => {
                self.syncing = false;
                SyncAction::Stop
            },
        }
    }

    /// The number of the latest checkpoint that the manifest lists.
    pub fn latest_available_checkpoint(&self) -> (latest: Result<
        CheckpointSequenceNumber,
        ArchiveError,
    >)
        ensures
            match latest {
                Ok(number) => number + 1 == self.manifest().next_checkpoint_seq_num,
                Err(error) => error == ArchiveError::NotReady
                    && self.manifest().next_checkpoint_seq_num == 0,
            },
    {
        match self.manifest.next_checkpoint_seq_num().checked_sub(1) {
            Some(number) => Ok(number),
            None => Err(ArchiveError::NotReady),
        }
    }

    /// The pairs of files to fetch for a read of `checkpoint_range`, in the
    /// order in which `read` takes them.
    pub fn files_to_fetch(&self, checkpoint_range: SeqRange) -> (plan: Result<
        Vec<(FileMetadata, FileMetadata)>,
        ArchiveError,
    >)
        ensures
            match plan {
                Ok(pairs) => planned(self.manifest(), checkpoint_range) == Ok::<
                    Seq<(FileMetadata, FileMetadata)>,
                    ArchiveError,
                >(pairs@),
                Err(error) => planned(self.manifest(), checkpoint_range) == Err::<
                    Seq<(FileMetadata, FileMetadata)>,
                    ArchiveError,
                >(error),
            },
    {
        plan_read(&self.manifest, checkpoint_range)
    }

    /// Reads the checkpoints of `checkpoint_range` into `store`.
    ///
    /// `fetched` holds, for each pair of files that `files_to_fetch` names
    /// and in that order, the checkpoints decoded from the pair or the reason
    /// why the pair could not be had. The checkpoints are verified and
    /// written in order; those outside the range are dropped. A malformed
    /// frame that ended the reading of a pair of files is reported once the
    /// checkpoints read before it are written. The first failure ends the
    /// read, and what was written before it stays.
    pub fn read<S: WriteStore, V: Fn(VerifiedCheckpoint, CertifiedCheckpointSummary) -> bool>(
        &self,
        store: &mut S,
        checkpoint_range: SeqRange,
        fetched: &Vec<Fetched>,
        verify: &V,
    ) -> (done: Result<(), ArchiveError>)
        requires
            forall|previous: VerifiedCheckpoint, candidate: CertifiedCheckpointSummary|
                call_requires(*verify, (previous, candidate)),
        ensures
            read_outcome(
                self.manifest(),
                old(store).state(),
                final(store).state(),
                checkpoint_range,
                fetched@,
                *verify,
                done,
            ),
    {
        let pairs = match plan_read(&self.manifest, checkpoint_range) {
            Ok(pairs) => pairs,
            Err(error) => { return Err(error); },
        };
        if pairs.len() != fetched.len() {
            return Err(ArchiveError::FetchFailed);
        }
        let ghost before = store.state();
        let mut i: usize = 0;
        while i < fetched.len()
            invariant
                i <= fetched.len(),
                before == old(store).state(),
                planned(self.manifest(), checkpoint_range) == Ok::<
                    Seq<(FileMetadata, FileMetadata)>,
                    ArchiveError,
                >(pairs@),
                pairs@.len() == fetched@.len(),
                store.state() == ingested_files(before, checkpoint_range, fetched@, i as nat),
                files_accepted(before, checkpoint_range, fetched@, i as nat, *verify),
                forall|previous: VerifiedCheckpoint, candidate: CertifiedCheckpointSummary|
                    call_requires(*verify, (previous, candidate)),
            decreases fetched.len() - i,
        {
            match ingest_fetched(store, checkpoint_range, &fetched[i], verify) {
                Ok(()) => {},
                Err(error) => {
                    assert(read_failed_at(
                        before,
                        store.state(),
                        checkpoint_range,
                        fetched@,
                        *verify,
                        error,
                        i as int,
                    ));
                    return Err(error);
                },
            }
            i = i + 1;
        }
        Ok(())
    }
}

} // verus!
