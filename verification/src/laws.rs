//! What holds of the reader as a whole.

use crate::checkpoint::{
    CertifiedCheckpointSummary, CheckpointSequenceNumber, FullCheckpointContents,
    VerifiedCheckpoint,
};
use crate::error::ArchiveError;
use crate::ingest::{
    accepted, all_accepted, failed_at, ingested, links, paired, rejected, state_after,
    summaries_after, vouched,
};
use crate::manifest::{FileMetadata, FileType, ManifestView, SeqRange};
use crate::planner::{
    archive_consistent, contents_files, contiguous, end_index, file_pairs, lemma_sorted_by_start,
    of_type, ordered, planned, start_index, start_of, starting_below, summary_files,
};
use crate::reader::{
    files_accepted, ingested_files, read_failed_at, read_outcome, whole, DecodedPair, Fetched,
};
use crate::store::StoreState;
use vstd::prelude::*;

verus! {

/// Finds, from `from` on, the file whose range holds `number`.
proof fn lemma_covering_file(files: Seq<FileMetadata>, number: u64, from: int) -> (at: int)
    requires
        contiguous(files),
        0 <= from < files.len(),
        start_of(files[from]) <= number,
        number < files.last().checkpoint_seq_range.end,
    ensures
        from <= at < files.len(),
        files[at].checkpoint_seq_range.contains(number),
    decreases files.len() - from,
{
    if from == files.len() - 1 {
        from
    } else if start_of(files[from + 1]) <= number {
        lemma_covering_file(files, number, from + 1)
    } else {
        assert(files[from + 1].checkpoint_seq_range.start
            == files[from].checkpoint_seq_range.end);
        from
    }
}

/// In an archive whose files pair up, every sequence number below the end of
/// the last file lies in the range of exactly one pair of files, and the
/// summary file and the contents file of a pair cover the same range.
pub proof fn law_files_partition(files: Seq<FileMetadata>, number: u64) -> (at: int)
    requires
        archive_consistent(files),
        number < summary_files(files).last().checkpoint_seq_range.end,
    ensures
        0 <= at < summary_files(files).len(),
        summary_files(files).len() == contents_files(files).len(),
        summary_files(files)[at].checkpoint_seq_range.contains(number),
        contents_files(files)[at].checkpoint_seq_range.contains(number),
        forall|other: int|
            0 <= other < summary_files(files).len() && (
            #[trigger] summary_files(files)[other]).checkpoint_seq_range.contains(number)
                ==> other == at,
        forall|other: int|
            0 <= other < contents_files(files).len() && (
            #[trigger] contents_files(files)[other]).checkpoint_seq_range.contains(number)
                ==> other == at,
{
    let summaries = summary_files(files);
    let contents = contents_files(files);
    lemma_sorted_by_start(of_type(files, FileType::CheckpointSummary));
    let at = lemma_covering_file(summaries, number, 0);
    assert forall|other: int|
        0 <= other < summaries.len() && (#[trigger] summaries[other]).checkpoint_seq_range.contains(
            number,
        ) implies other == at by {
        if other < at {
            assert(summaries[other + 1].checkpoint_seq_range.start
                == summaries[other].checkpoint_seq_range.end);
            assert(start_of(summaries[other + 1]) <= start_of(summaries[at]));
        } else if at < other {
            assert(summaries[at + 1].checkpoint_seq_range.start
                == summaries[at].checkpoint_seq_range.end);
            assert(start_of(summaries[at + 1]) <= start_of(summaries[other]));
        }
    }
    assert forall|other: int|
        0 <= other < contents.len() && (#[trigger] contents[other]).checkpoint_seq_range.contains(
            number,
        ) implies other == at by {
        assert(summaries[other].checkpoint_seq_range == contents[other].checkpoint_seq_range);
    }
    assert(summaries[at].checkpoint_seq_range == contents[at].checkpoint_seq_range);
    at
}

/// No fewer files start below a larger bound.
proof fn lemma_starting_below_grows(files: Seq<FileMetadata>, low: int, high: int)
    requires
        low <= high,
    ensures
        starting_below(files, low) <= starting_below(files, high) <= files.len(),
    decreases files.len(),
{
    if files.len() > 0 {
        lemma_starting_below_grows(files.drop_last(), low, high);
    }
}

/// A file that starts below the bound is counted.
proof fn lemma_starting_below_counts(files: Seq<FileMetadata>, bound: int, at: int)
    requires
        0 <= at < files.len(),
        start_of(files[at]) < bound,
    ensures
        starting_below(files, bound) >= 1,
    decreases files.len(),
{
    if at < files.len() - 1 {
        assert(files.drop_last()[at] == files[at]);
        lemma_starting_below_counts(files.drop_last(), bound, at);
    }
}

/// A read of an empty range is planned with one pair of files at most, and
/// with none where a file starts at the range.
pub proof fn law_empty_range_plan(manifest: ManifestView, range: SeqRange)
    requires
        range.start == range.end,
    ensures
        planned(manifest, range) matches Ok(pairs) ==> pairs.len() <= 1,
        planned(manifest, range) matches Ok(pairs) ==> (exists|at: int|
            0 <= at < summary_files(manifest.files).len() && start_of(
                #[trigger] summary_files(manifest.files)[at],
            ) == range.start) ==> pairs.len() == 0,
{
    let summaries = summary_files(manifest.files);
    lemma_starting_below_grows(summaries, range.end as int, range.start + 1);
    if planned(manifest, range) is Ok {
        if exists|at: int|
            0 <= at < summaries.len() && start_of(#[trigger] summaries[at]) == range.start {
            let at = choose|at: int|
                0 <= at < summaries.len() && start_of(#[trigger] summaries[at]) == range.start;
            lemma_starting_below_strict(summaries, range.start as int, at);
        }
    }
}

/// A file that starts at `bound` is counted below `bound + 1` and not below
/// `bound`.
proof fn lemma_starting_below_strict(files: Seq<FileMetadata>, bound: int, at: int)
    requires
        0 <= at < files.len(),
        start_of(files[at]) == bound,
    ensures
        starting_below(files, bound) < starting_below(files, bound + 1),
    decreases files.len(),
{
    if at < files.len() - 1 {
        assert(files.drop_last()[at] == files[at]);
        lemma_starting_below_strict(files.drop_last(), bound, at);
    } else {
        lemma_starting_below_grows(files.drop_last(), bound, bound + 1);
    }
}

/// A read of an empty range writes nothing, and it succeeds where it was
/// planned and every planned pair of files was fetched and read to its end.
pub proof fn law_empty_range_read<V: Fn(VerifiedCheckpoint, CertifiedCheckpointSummary) -> bool>(
    manifest: ManifestView,
    before: StoreState,
    after: StoreState,
    range: SeqRange,
    files: Seq<Fetched>,
    verify: V,
    done: Result<(), ArchiveError>,
)
    requires
        range.start >= range.end,
        read_outcome(manifest, before, after, range, files, verify, done),
    ensures
        after == before,
        (planned(manifest, range) matches Ok(pairs) && pairs.len() == files.len() && forall|
            i: int,
        |
            0 <= i < files.len() ==> whole(#[trigger] files[i])) ==> done is Ok,
{
    if let Ok(pairs) = planned(manifest, range) {
        if pairs.len() == files.len() {
            match done {
                Ok(()) => {
                    lemma_empty_range_files(before, range, files, files.len());
                },
                Err(error) => {
                    let index = choose|index: int|
                        #[trigger] read_failed_at(
                            before,
                            after,
                            range,
                            files,
                            verify,
                            error,
                            index,
                        );
                    lemma_empty_range_files(before, range, files, index as nat);
                    lemma_empty_range_files(before, range, files, (index + 1) as nat);
                },
            }
        }
    }
}

/// With an empty range no pair of checkpoints changes the store.
proof fn lemma_empty_range_pair(
    before: StoreState,
    range: SeqRange,
    summaries: Seq<CertifiedCheckpointSummary>,
    contents: Seq<FullCheckpointContents>,
    count: nat,
)
    requires
        range.start >= range.end,
    ensures
        ingested(before, range, summaries, contents, count) == before,
    decreases count,
{
    if count > 0 {
        lemma_empty_range_pair(before, range, summaries, contents, (count - 1) as nat);
    }
}

/// With an empty range no pair of files changes the store.
proof fn lemma_empty_range_files(
    before: StoreState,
    range: SeqRange,
    files: Seq<Fetched>,
    count: nat,
)
    requires
        range.start >= range.end,
    ensures
        ingested_files(before, range, files, count) == before,
    decreases count,
{
    if count > 0 {
        lemma_empty_range_files(before, range, files, (count - 1) as nat);
        if let Ok(pair) = files[count - 1] {
            lemma_empty_range_pair(
                before,
                range,
                pair.summaries@,
                pair.contents@,
                paired(pair.summaries@.len(), pair.contents@.len()),
            );
        }
    }
}

/// In files that are in order, the files that start below a bound are the
/// first ones.
proof fn lemma_ordered_split(files: Seq<FileMetadata>, bound: int)
    requires
        ordered(files),
    ensures
        starting_below(files, bound) <= files.len(),
        forall|k: int|
            0 <= k < files.len() ==> (k < starting_below(files, bound) <==> start_of(
                #[trigger] files[k],
            ) < bound),
    decreases files.len(),
{
    if files.len() > 0 {
        let shorter = files.drop_last();
        let last = files.len() - 1;
        assert(ordered(shorter)) by {
            assert forall|i: int, j: int| 0 <= i <= j < shorter.len() implies start_of(
                #[trigger] shorter[i],
            ) <= start_of(#[trigger] shorter[j]) by {
                assert(shorter[i] == files[i] && shorter[j] == files[j]);
            }
        }
        lemma_ordered_split(shorter, bound);
        assert(files.last() == files[last]);
        assert forall|k: int| 0 <= k < files.len() implies (k < starting_below(files, bound)
            <==> start_of(#[trigger] files[k]) < bound) by {
            if k < last {
                assert(shorter[k] == files[k]);
                assert(start_of(files[k]) <= start_of(files[last]));
            }
            if start_of(files[last]) < bound && last > 0 {
                assert(shorter[last - 1] == files[last - 1]);
                assert(start_of(files[last - 1]) <= start_of(files[last]));
            }
        }
    }
}

/// Whether the pairs of files follow one another without a gap, the first
/// of them not starting after `range` and every other one starting inside
/// it.
pub open spec fn is_run(pairs: Seq<(FileMetadata, FileMetadata)>, range: SeqRange) -> bool {
    &&& pairs.len() > 0 ==> start_of(pairs[0].0) <= range.start
    &&& forall|at: int|
        0 < at < pairs.len() ==> range.start < start_of((#[trigger] pairs[at]).0) < range.end
    &&& forall|at: int, next: int|
        0 <= at && next == at + 1 && next < pairs.len() ==> (
        #[trigger] pairs[next]).0.checkpoint_seq_range.start == (
        #[trigger] pairs[at]).0.checkpoint_seq_range.end
}

/// The pairs of files planned for a range follow one another without a gap.
/// The first of them does not start after the range, and every other one
/// starts inside it.
pub proof fn law_plan_is_a_run(manifest: ManifestView, range: SeqRange)
    requires
        planned(manifest, range) is Ok,
    ensures
        is_run(planned(manifest, range)->Ok_0, range),
{
    let files = manifest.files;
    let summaries = summary_files(files);
    let pairs = planned(manifest, range)->Ok_0;
    lemma_sorted_by_start(of_type(files, FileType::CheckpointSummary));
    lemma_ordered_split(summaries, range.start + 1);
    lemma_ordered_split(summaries, range.end as int);
    let first = start_index(files, range);
    let end = end_index(files, range);
    assert(start_of(summaries[0]) < range.start + 1);
    assert(file_pairs(files).len() == summaries.len());
    if pairs.len() > 0 {
        assert(pairs == file_pairs(files).subrange(first, end));
        assert(pairs[0].0 == summaries[first]);
        assert forall|at: int| 0 < at < pairs.len() implies range.start < start_of(
            (#[trigger] pairs[at]).0,
        ) < range.end by {
            assert(pairs[at].0 == summaries[first + at]);
        }
        assert forall|at: int, next: int|
            0 <= at && next == at + 1 && next < pairs.len() implies (
        #[trigger] pairs[next]).0.checkpoint_seq_range.start == (
        #[trigger] pairs[at]).0.checkpoint_seq_range.end by {
            assert(pairs[next].0 == summaries[first + next]);
            assert(pairs[at].0 == summaries[first + at]);
        }
    }
}

/// The pairs of files planned for a range hold every checkpoint of the range
/// that lies below the end of the last file of the archive. The first pair
/// planned does not start after the range, and every other pair planned
/// starts inside it.
pub proof fn law_plan_covers_range(manifest: ManifestView, range: SeqRange, number: u64) -> (at:
    int)
    requires
        planned(manifest, range) is Ok,
        range.contains(number),
        number < summary_files(manifest.files).last().checkpoint_seq_range.end,
    ensures
        0 <= at < planned(manifest, range)->Ok_0.len(),
        planned(manifest, range)->Ok_0[at].0.checkpoint_seq_range.contains(number),
        planned(manifest, range)->Ok_0[at].1.checkpoint_seq_range.contains(number),
        start_of(planned(manifest, range)->Ok_0[0].0) <= range.start,
        forall|other: int|
            0 < other < planned(manifest, range)->Ok_0.len() ==> range.start < start_of(
                (#[trigger] planned(manifest, range)->Ok_0[other]).0,
            ) < range.end,
{
    let files = manifest.files;
    let summaries = summary_files(files);
    let pairs = planned(manifest, range)->Ok_0;
    lemma_sorted_by_start(of_type(files, FileType::CheckpointSummary));
    lemma_ordered_split(summaries, range.start + 1);
    lemma_ordered_split(summaries, range.end as int);
    let place = law_files_partition(files, number);
    let first = start_index(files, range);
    let end = end_index(files, range);
    assert(start_of(summaries[0]) < range.start + 1);
    assert(0 <= first < summaries.len());
    assert(start_of(summaries[first]) <= range.start);
    if place < first {
        assert(summaries[place + 1].checkpoint_seq_range.start
            == summaries[place].checkpoint_seq_range.end);
        assert(start_of(summaries[place + 1]) <= start_of(summaries[first]));
    }
    assert(first <= place < end);
    assert(file_pairs(files).len() == summaries.len());
    assert(pairs == file_pairs(files).subrange(first, end));
    assert forall|other: int| 0 < other < pairs.len() implies range.start < start_of(
        (#[trigger] pairs[other]).0,
    ) < range.end by {
        assert(pairs[other].0 == summaries[first + other]);
    }
    assert(pairs[0].0 == summaries[first]);
    assert(pairs[place - first].0 == summaries[place]);
    assert(pairs[place - first].1 == contents_files(files)[place]);
    place - first
}

/// A read that starts at the latest checkpoint of the archive is planned,
/// it fetches a pair of files where its range is not empty, and the latest
/// checkpoint is the only one in its range that the archive holds.
pub proof fn law_read_from_latest(manifest: ManifestView, range: SeqRange)
    requires
        manifest.files.len() > 0,
        archive_consistent(manifest.files),
        range.start + 1 == manifest.next_checkpoint_seq_num,
    ensures
        planned(manifest, range) is Ok,
        range.start < range.end ==> planned(manifest, range)->Ok_0.len() >= 1,
        forall|number: u64|
            range.contains(number) && number < manifest.next_checkpoint_seq_num ==> number
                == range.start,
{
    let summaries = summary_files(manifest.files);
    if range.start < range.end {
        lemma_starting_below_grows(summaries, range.start + 1, range.end as int);
        lemma_starting_below_counts(summaries, range.start + 1, 0);
        assert(file_pairs(manifest.files).len() == summaries.len());
    }
}

/// A read of a range that is not empty and starts at the latest checkpoint,
/// which the last pair of files holds, plans that pair and no other.
pub proof fn law_read_from_latest_plans_the_last_pair(manifest: ManifestView, range: SeqRange)
    requires
        manifest.files.len() > 0,
        archive_consistent(manifest.files),
        range.start + 1 == manifest.next_checkpoint_seq_num,
        range.start < range.end,
        summary_files(manifest.files).last().checkpoint_seq_range.contains(range.start),
    ensures
        planned(manifest, range) is Ok,
        planned(manifest, range)->Ok_0.len() == 1,
        planned(manifest, range)->Ok_0[0] == file_pairs(manifest.files).last(),
{
    let files = manifest.files;
    let summaries = summary_files(files);
    let last = summaries.len() - 1;
    lemma_sorted_by_start(of_type(files, FileType::CheckpointSummary));
    lemma_ordered_split(summaries, range.start + 1);
    lemma_ordered_split(summaries, range.end as int);
    assert(start_of(summaries[last]) < range.start + 1);
    assert(start_of(summaries[last]) < range.end);
    assert(starting_below(summaries, range.start + 1) == summaries.len());
    assert(starting_below(summaries, range.end as int) == summaries.len());
    assert(file_pairs(files).len() == summaries.len());
    assert(start_index(files, range) == last);
    assert(end_index(files, range) == summaries.len());
    let pairs = planned(manifest, range)->Ok_0;
    assert(pairs == file_pairs(files).subrange(last, summaries.len() as int));
    assert(pairs[0] == file_pairs(files)[last]);
}

/// A read that starts behind the latest checkpoint of a readable archive is
/// refused as out of range.
pub proof fn law_read_behind_latest(manifest: ManifestView, range: SeqRange)
    requires
        manifest.files.len() > 0,
        manifest.next_checkpoint_seq_num > 0,
        archive_consistent(manifest.files),
        range.start > manifest.next_checkpoint_seq_num - 1,
    ensures
        planned(manifest, range) == Err::<Seq<(FileMetadata, FileMetadata)>, ArchiveError>(
            ArchiveError::OutOfRange { latest: (manifest.next_checkpoint_seq_num - 1) as u64 },
        ),
{
}

/// While the manifest holds no file every read is refused as not ready,
/// and the store is left alone.
pub proof fn law_empty_manifest_not_ready<
    V: Fn(VerifiedCheckpoint, CertifiedCheckpointSummary) -> bool,
>(
    manifest: ManifestView,
    before: StoreState,
    after: StoreState,
    range: SeqRange,
    files: Seq<Fetched>,
    verify: V,
    done: Result<(), ArchiveError>,
)
    requires
        manifest.files.len() == 0,
        read_outcome(manifest, before, after, range, files, verify, done),
    ensures
        done == Err::<(), ArchiveError>(ArchiveError::NotReady),
        after == before,
{
}

/// Where the manifest holds files that do not pair up into one contiguous
/// run from zero, every read is refused for that, whatever else the manifest
/// says, and the store is left alone.
pub proof fn law_broken_manifest_is_refused<
    V: Fn(VerifiedCheckpoint, CertifiedCheckpointSummary) -> bool,
>(
    manifest: ManifestView,
    before: StoreState,
    after: StoreState,
    range: SeqRange,
    files: Seq<Fetched>,
    verify: V,
    done: Result<(), ArchiveError>,
)
    requires
        manifest.files.len() > 0,
        !archive_consistent(manifest.files),
        read_outcome(manifest, before, after, range, files, verify, done),
    ensures
        done == Err::<(), ArchiveError>(ArchiveError::ManifestInvariantViolated),
        after == before,
{
}

/// A read ends with `NotReady`, `ManifestInvariantViolated` or `OutOfRange`
/// only where its planning does: no file that is handed to it and no
/// checkpoint brings one of these, nor `ConfigInvalid` or `Cancelled`.
pub proof fn law_planning_errors_come_from_the_plan<
    V: Fn(VerifiedCheckpoint, CertifiedCheckpointSummary) -> bool,
>(
    manifest: ManifestView,
    before: StoreState,
    after: StoreState,
    range: SeqRange,
    files: Seq<Fetched>,
    verify: V,
    error: ArchiveError,
)
    requires
        read_outcome(manifest, before, after, range, files, verify, Err(error)),
    ensures
        error is NotReady || error is ManifestInvariantViolated || error is OutOfRange
            ==> planned(manifest, range) == Err::<Seq<(FileMetadata, FileMetadata)>, ArchiveError>(
            error,
        ),
        !(error is ConfigInvalid),
        !(error is Cancelled),
{
    if let Ok(pairs) = planned(manifest, range) {
        if pairs.len() == files.len() {
            let index = choose|index: int|
                #[trigger] read_failed_at(before, after, range, files, verify, error, index);
        }
    }
}

/// Two reads of the same range that succeed on the same files leave the same
/// store, whatever else differs between them: the number of downloads at a
/// time does not enter into the result.
pub proof fn law_read_result_is_determined<
    V: Fn(VerifiedCheckpoint, CertifiedCheckpointSummary) -> bool,
    W: Fn(VerifiedCheckpoint, CertifiedCheckpointSummary) -> bool,
>(
    manifest: ManifestView,
    before: StoreState,
    range: SeqRange,
    files: Seq<Fetched>,
    first_after: StoreState,
    first_verify: V,
    first_done: Result<(), ArchiveError>,
    second_after: StoreState,
    second_verify: W,
    second_done: Result<(), ArchiveError>,
)
    requires
        first_done is Ok,
        second_done is Ok,
        read_outcome(manifest, before, first_after, range, files, first_verify, first_done),
        read_outcome(manifest, before, second_after, range, files, second_verify, second_done),
    ensures
        first_after == second_after,
{
}

/// Whether each summary is held under its own sequence number.
pub open spec fn coherent(summaries: Map<CheckpointSequenceNumber, VerifiedCheckpoint>) -> bool {
    forall|number: u64|
        summaries.contains_key(number) ==> (#[trigger] summaries[number]).summary.sequence_number
            == number
}

/// Whether the store holds a checkpoint under the number of `summary`: a
/// summary of that number and contents, both with the digest of `contents`.
pub open spec fn settled(
    state: StoreState,
    summary: CertifiedCheckpointSummary,
    contents: FullCheckpointContents,
) -> bool {
    let number = summary.sequence_number;
    &&& state.summaries.contains_key(number)
    &&& state.contents.contains_key(number)
    &&& state.summaries[number].summary.sequence_number == number
    &&& state.summaries[number].summary.content_digest == contents.digest
    &&& state.contents[number].contents.digest == contents.digest
}

/// Whether the store holds a verified summary and verified contents under
/// `number`, and the summary commits to the digest of the contents.
pub open spec fn holds(state: StoreState, number: CheckpointSequenceNumber) -> bool {
    &&& state.summaries.contains_key(number)
    &&& state.contents.contains_key(number)
    &&& state.summaries[number].summary.sequence_number == number
    &&& state.summaries[number].summary.content_digest
        == state.contents[number].contents.digest
}

/// Whether `files` hold the checkpoint of `summary` and `contents` as a pair
/// whose number lies in `range`.
pub open spec fn offers(
    files: Seq<Fetched>,
    range: SeqRange,
    summary: CertifiedCheckpointSummary,
    contents: FullCheckpointContents,
) -> bool {
    exists|file: int, at: int| #[trigger] offers_at(files, range, summary, contents, file, at)
}

/// Whether the pair of files at `file` was fetched and holds at `at` a pair
/// of checkpoints whose number lies in `range`.
pub open spec fn in_range_at(files: Seq<Fetched>, range: SeqRange, file: int, at: int) -> bool {
    &&& 0 <= file < files.len()
    &&& files[file] matches Ok(pair)
    &&& 0 <= at < paired(pair.summaries@.len(), pair.contents@.len())
    &&& range.contains(pair.summaries@[at].sequence_number)
}

/// The summary at `at` in the pair of files at `file`.
pub open spec fn summary_at(files: Seq<Fetched>, file: int, at: int) -> CertifiedCheckpointSummary {
    files[file]->Ok_0.summaries@[at]
}

/// The contents at `at` in the pair of files at `file`.
pub open spec fn contents_at(files: Seq<Fetched>, file: int, at: int) -> FullCheckpointContents {
    files[file]->Ok_0.contents@[at]
}

/// Whether the pair of files at `file` holds `summary` and `contents` as its
/// pair of checkpoints at `at`, and the number of the summary lies in `range`.
pub open spec fn offers_at(
    files: Seq<Fetched>,
    range: SeqRange,
    summary: CertifiedCheckpointSummary,
    contents: FullCheckpointContents,
    file: int,
    at: int,
) -> bool {
    &&& in_range_at(files, range, file, at)
    &&& summary_at(files, file, at) == summary
    &&& contents_at(files, file, at) == contents
}

/// A store that takes a checkpoint holds it afterwards, keeps each summary
/// under its number, and keeps the checkpoints that it held.
proof fn lemma_step_settles<V: Fn(VerifiedCheckpoint, CertifiedCheckpointSummary) -> bool>(
    before: StoreState,
    summary: CertifiedCheckpointSummary,
    contents: FullCheckpointContents,
    verify: V,
    held_summary: CertifiedCheckpointSummary,
    held_contents: FullCheckpointContents,
)
    requires
        coherent(before.summaries),
        accepted(before, summary, contents, verify),
    ensures
        coherent(state_after(before, summary, contents).summaries),
        settled(state_after(before, summary, contents), summary, contents),
        settled(before, held_summary, held_contents) ==> settled(
            state_after(before, summary, contents),
            held_summary,
            held_contents,
        ),
{
    let after = state_after(before, summary, contents);
    assert(coherent(after.summaries)) by {
        assert forall|number: u64| after.summaries.contains_key(number) implies (
        #[trigger] after.summaries[number]).summary.sequence_number == number by {
            if before.summaries.contains_key(number) {
                assert(before.summaries[number].summary.sequence_number == number);
            }
        }
    }
    assert(after.summaries[summary.sequence_number].summary.sequence_number
        == summary.sequence_number);
}

/// The checkpoints of a pair of files that a store takes leave each summary
/// under its number.
proof fn lemma_pair_coherent<V: Fn(VerifiedCheckpoint, CertifiedCheckpointSummary) -> bool>(
    before: StoreState,
    range: SeqRange,
    summaries: Seq<CertifiedCheckpointSummary>,
    contents: Seq<FullCheckpointContents>,
    count: nat,
    verify: V,
)
    requires
        coherent(before.summaries),
        all_accepted(before, range, summaries, contents, count, verify),
    ensures
        coherent(ingested(before, range, summaries, contents, count).summaries),
    decreases count,
{
    if count > 0 {
        let last = (count - 1) as nat;
        lemma_pair_coherent(before, range, summaries, contents, last, verify);
        let summary = summaries[last as int];
        if range.contains(summary.sequence_number) {
            lemma_step_settles(
                ingested(before, range, summaries, contents, last),
                summary,
                contents[last as int],
                verify,
                summary,
                contents[last as int],
            );
        }
    }
}

/// A checkpoint that the store holds after some checkpoints of a pair of
/// files is held after more of them.
proof fn lemma_pair_keeps<V: Fn(VerifiedCheckpoint, CertifiedCheckpointSummary) -> bool>(
    before: StoreState,
    range: SeqRange,
    summaries: Seq<CertifiedCheckpointSummary>,
    contents: Seq<FullCheckpointContents>,
    from: nat,
    count: nat,
    verify: V,
    held_summary: CertifiedCheckpointSummary,
    held_contents: FullCheckpointContents,
)
    requires
        coherent(before.summaries),
        all_accepted(before, range, summaries, contents, count, verify),
        from <= count,
        settled(ingested(before, range, summaries, contents, from), held_summary, held_contents),
    ensures
        settled(ingested(before, range, summaries, contents, count), held_summary, held_contents),
    decreases count,
{
    if from < count {
        let last = (count - 1) as nat;
        lemma_pair_keeps(
            before,
            range,
            summaries,
            contents,
            from,
            last,
            verify,
            held_summary,
            held_contents,
        );
        lemma_pair_coherent(before, range, summaries, contents, last, verify);
        let summary = summaries[last as int];
        if range.contains(summary.sequence_number) {
            lemma_step_settles(
                ingested(before, range, summaries, contents, last),
                summary,
                contents[last as int],
                verify,
                held_summary,
                held_contents,
            );
        }
    }
}

/// Each checkpoint of a pair of files that lies in the range is held by the
/// store that took the pair.
proof fn lemma_pair_settles<V: Fn(VerifiedCheckpoint, CertifiedCheckpointSummary) -> bool>(
    before: StoreState,
    range: SeqRange,
    summaries: Seq<CertifiedCheckpointSummary>,
    contents: Seq<FullCheckpointContents>,
    count: nat,
    verify: V,
    at: int,
)
    requires
        coherent(before.summaries),
        all_accepted(before, range, summaries, contents, count, verify),
        0 <= at < count,
        range.contains(summaries[at].sequence_number),
    ensures
        settled(ingested(before, range, summaries, contents, count), summaries[at], contents[at]),
{
    lemma_pair_coherent(before, range, summaries, contents, at as nat, verify);
    lemma_step_settles(
        ingested(before, range, summaries, contents, at as nat),
        summaries[at],
        contents[at],
        verify,
        summaries[at],
        contents[at],
    );
    lemma_pair_keeps(
        before,
        range,
        summaries,
        contents,
        (at + 1) as nat,
        count,
        verify,
        summaries[at],
        contents[at],
    );
}

/// The pairs of files that a store takes leave each summary under its
/// number.
proof fn lemma_files_coherent<V: Fn(VerifiedCheckpoint, CertifiedCheckpointSummary) -> bool>(
    before: StoreState,
    range: SeqRange,
    files: Seq<Fetched>,
    count: nat,
    verify: V,
)
    requires
        coherent(before.summaries),
        files_accepted(before, range, files, count, verify),
    ensures
        coherent(ingested_files(before, range, files, count).summaries),
    decreases count,
{
    if count > 0 {
        let last = (count - 1) as nat;
        lemma_files_coherent(before, range, files, last, verify);
        assert(files[last as int] is Ok);
        let pair = files[last as int]->Ok_0;
        lemma_pair_coherent(
            ingested_files(before, range, files, last),
            range,
            pair.summaries@,
            pair.contents@,
            paired(pair.summaries@.len(), pair.contents@.len()),
            verify,
        );
    }
}

/// A checkpoint that the store holds after some pairs of files is held
/// after more of them.
proof fn lemma_files_keep<V: Fn(VerifiedCheckpoint, CertifiedCheckpointSummary) -> bool>(
    before: StoreState,
    range: SeqRange,
    files: Seq<Fetched>,
    from: nat,
    count: nat,
    verify: V,
    held_summary: CertifiedCheckpointSummary,
    held_contents: FullCheckpointContents,
)
    requires
        coherent(before.summaries),
        files_accepted(before, range, files, count, verify),
        from <= count,
        settled(ingested_files(before, range, files, from), held_summary, held_contents),
    ensures
        settled(ingested_files(before, range, files, count), held_summary, held_contents),
    decreases count,
{
    if from < count {
        let last = (count - 1) as nat;
        lemma_files_keep(before, range, files, from, last, verify, held_summary, held_contents);
        lemma_files_coherent(before, range, files, last, verify);
        assert(files[last as int] is Ok);
        let pair = files[last as int]->Ok_0;
        lemma_pair_keeps(
            ingested_files(before, range, files, last),
            range,
            pair.summaries@,
            pair.contents@,
            0,
            paired(pair.summaries@.len(), pair.contents@.len()),
            verify,
            held_summary,
            held_contents,
        );
    }
}

/// Each checkpoint in the range that the files offer is held by the store
/// that took the files.
proof fn lemma_files_settle<V: Fn(VerifiedCheckpoint, CertifiedCheckpointSummary) -> bool>(
    before: StoreState,
    range: SeqRange,
    files: Seq<Fetched>,
    verify: V,
    summary: CertifiedCheckpointSummary,
    contents: FullCheckpointContents,
)
    requires
        coherent(before.summaries),
        files_accepted(before, range, files, files.len(), verify),
        offers(files, range, summary, contents),
    ensures
        settled(ingested_files(before, range, files, files.len()), summary, contents),
{
    let (file, at) = choose|file: int, at: int| #[trigger]
        offers_at(files, range, summary, contents, file, at);
    assert(files[file] is Ok);
    let pair = files[file]->Ok_0;
    lemma_files_coherent(before, range, files, file as nat, verify);
    lemma_pair_settles(
        ingested_files(before, range, files, file as nat),
        range,
        pair.summaries@,
        pair.contents@,
        paired(pair.summaries@.len(), pair.contents@.len()),
        verify,
        at,
    );
    lemma_files_keep(
        before,
        range,
        files,
        (file + 1) as nat,
        files.len(),
        verify,
        summary,
        contents,
    );
}

/// After a read that succeeds, the store holds every checkpoint of the range
/// that the fetched files offer: a verified summary and verified contents
/// under its sequence number, the summary committing to the digest of the
/// contents.
pub proof fn law_read_stores_range<V: Fn(VerifiedCheckpoint, CertifiedCheckpointSummary) -> bool>(
    manifest: ManifestView,
    before: StoreState,
    after: StoreState,
    range: SeqRange,
    files: Seq<Fetched>,
    verify: V,
    done: Result<(), ArchiveError>,
    summary: CertifiedCheckpointSummary,
    contents: FullCheckpointContents,
)
    requires
        coherent(before.summaries),
        done is Ok,
        read_outcome(manifest, before, after, range, files, verify, done),
        offers(files, range, summary, contents),
    ensures
        holds(after, summary.sequence_number),
        after.contents[summary.sequence_number].contents.digest == contents.digest,
{
    lemma_files_settle(before, range, files, verify, summary, contents);
}

/// Whether the summaries are a chain: each is held under its number, none
/// is held above a number that is missing, and each names the digest of the
/// summary one below it as its previous digest.
pub open spec fn chain_sound(summaries: Map<CheckpointSequenceNumber, VerifiedCheckpoint>) -> bool {
    &&& coherent(summaries)
    &&& forall|below: u64, above: u64|
        below < above && #[trigger] summaries.contains_key(above)
            ==> #[trigger] summaries.contains_key(below)
    &&& forall|below: u64, above: u64|
        above == below + 1 && summaries.contains_key(below) && summaries.contains_key(above)
            ==> links((#[trigger] summaries[below]).summary, (#[trigger] summaries[above]).summary)
}

/// A chain stays a chain when a summary is admitted to it that the store
/// and the verifier vouch for.
proof fn lemma_step_keeps_chain<V: Fn(VerifiedCheckpoint, CertifiedCheckpointSummary) -> bool>(
    summaries: Map<CheckpointSequenceNumber, VerifiedCheckpoint>,
    candidate: CertifiedCheckpointSummary,
    verify: V,
)
    requires
        chain_sound(summaries),
        vouched(summaries, candidate, verify),
    ensures
        chain_sound(summaries_after(summaries, candidate)),
{
    let after = summaries_after(summaries, candidate);
    let new = candidate.sequence_number;
    if !summaries.contains_key(new) {
        assert(coherent(after)) by {
            assert forall|number: u64| after.contains_key(number) implies (
            #[trigger] after[number]).summary.sequence_number == number by {
                if number != new {
                    assert(summaries[number].summary.sequence_number == number);
                }
            }
        }
        assert forall|below: u64, above: u64|
            below < above && #[trigger] after.contains_key(above) implies #[trigger] after.contains_key(
            below,
        ) by {
            if above == new {
                if below < new - 1 {
                    assert(summaries.contains_key((new - 1) as u64));
                    assert(summaries.contains_key(below));
                }
            } else {
                assert(summaries.contains_key(above));
                assert(summaries.contains_key(below));
            }
        }
        assert forall|below: u64, above: u64|
            above == below + 1 && after.contains_key(below) && after.contains_key(
                above,
            ) implies links((#[trigger] after[below]).summary, (#[trigger] after[above]).summary) by {
            if below == new {
                assert(summaries.contains_key(above));
                assert(summaries.contains_key(new));
            } else if above == new {
            } else {
                assert(links(summaries[below].summary, summaries[above].summary));
            }
        }
    }
}

/// The checkpoints of a pair of files that a store takes keep its chain.
proof fn lemma_pair_keeps_chain<V: Fn(VerifiedCheckpoint, CertifiedCheckpointSummary) -> bool>(
    before: StoreState,
    range: SeqRange,
    summaries: Seq<CertifiedCheckpointSummary>,
    contents: Seq<FullCheckpointContents>,
    count: nat,
    verify: V,
)
    requires
        chain_sound(before.summaries),
        all_accepted(before, range, summaries, contents, count, verify),
    ensures
        chain_sound(ingested(before, range, summaries, contents, count).summaries),
    decreases count,
{
    if count > 0 {
        let last = (count - 1) as nat;
        lemma_pair_keeps_chain(before, range, summaries, contents, last, verify);
        let summary = summaries[last as int];
        if range.contains(summary.sequence_number) {
            lemma_step_keeps_chain(
                ingested(before, range, summaries, contents, last).summaries,
                summary,
                verify,
            );
        }
    }
}

/// The pairs of files that a store takes keep its chain.
proof fn lemma_files_keep_chain<V: Fn(VerifiedCheckpoint, CertifiedCheckpointSummary) -> bool>(
    before: StoreState,
    range: SeqRange,
    files: Seq<Fetched>,
    count: nat,
    verify: V,
)
    requires
        chain_sound(before.summaries),
        files_accepted(before, range, files, count, verify),
    ensures
        chain_sound(ingested_files(before, range, files, count).summaries),
    decreases count,
{
    if count > 0 {
        let last = (count - 1) as nat;
        lemma_files_keep_chain(before, range, files, last, verify);
        assert(files[last as int] is Ok);
        let pair = files[last as int]->Ok_0;
        lemma_pair_keeps_chain(
            ingested_files(before, range, files, last),
            range,
            pair.summaries@,
            pair.contents@,
            paired(pair.summaries@.len(), pair.contents@.len()),
            verify,
        );
    }
}

/// Where a store whose summaries are a chain fails on a pair of files, or
/// takes all of it, its summaries are a chain afterwards.
proof fn lemma_failed_pair_keeps_chain<
    V: Fn(VerifiedCheckpoint, CertifiedCheckpointSummary) -> bool,
>(
    reached: StoreState,
    after: StoreState,
    range: SeqRange,
    summaries: Seq<CertifiedCheckpointSummary>,
    contents: Seq<FullCheckpointContents>,
    verify: V,
    error: ArchiveError,
    at: int,
)
    requires
        chain_sound(reached.summaries),
        failed_at(reached, after, range, summaries, contents, verify, error, at),
    ensures
        chain_sound(after.summaries),
{
    lemma_pair_keeps_chain(reached, range, summaries, contents, at as nat, verify);
    let stopped = ingested(reached, range, summaries, contents, at as nat);
    if after.summaries != stopped.summaries {
        lemma_step_keeps_chain(stopped.summaries, summaries[at], verify);
    }
}

/// A read, whether it succeeds or fails, leaves the summaries of the store
/// a chain if they were one: of two summaries with consecutive numbers, the
/// upper one names the digest of the lower one as its previous digest.
pub proof fn law_read_keeps_chain<V: Fn(VerifiedCheckpoint, CertifiedCheckpointSummary) -> bool>(
    manifest: ManifestView,
    before: StoreState,
    after: StoreState,
    range: SeqRange,
    files: Seq<Fetched>,
    verify: V,
    done: Result<(), ArchiveError>,
)
    requires
        chain_sound(before.summaries),
        read_outcome(manifest, before, after, range, files, verify, done),
    ensures
        chain_sound(after.summaries),
        forall|below: u64, above: u64|
            above == below + 1 && after.summaries.contains_key(below)
                && after.summaries.contains_key(above) ==> (
            #[trigger] after.summaries[above]).summary.previous_digest == Some(
                (#[trigger] after.summaries[below]).summary.digest,
            ),
{
    if let Ok(pairs) = planned(manifest, range) {
        if pairs.len() == files.len() {
            match done {
                Ok(()) => {
                    lemma_files_keep_chain(before, range, files, files.len(), verify);
                },
                Err(error) => {
                    let index = choose|index: int|
                        #[trigger] read_failed_at(
                            before,
                            after,
                            range,
                            files,
                            verify,
                            error,
                            index,
                        );
                    lemma_files_keep_chain(before, range, files, index as nat, verify);
                    let reached = ingested_files(before, range, files, index as nat);
                    if let Ok(pair) = files[index] {
                        let taken = paired(pair.summaries@.len(), pair.contents@.len());
                        if exists|at: int|
                            #[trigger] failed_at(
                                reached,
                                after,
                                range,
                                pair.summaries@,
                                pair.contents@,
                                verify,
                                error,
                                at,
                            ) {
                            let at = choose|at: int|
                                #[trigger] failed_at(
                                    reached,
                                    after,
                                    range,
                                    pair.summaries@,
                                    pair.contents@,
                                    verify,
                                    error,
                                    at,
                                );
                            lemma_failed_pair_keeps_chain(
                                reached,
                                after,
                                range,
                                pair.summaries@,
                                pair.contents@,
                                verify,
                                error,
                                at,
                            );
                        } else {
                            lemma_pair_keeps_chain(
                                reached,
                                range,
                                pair.summaries@,
                                pair.contents@,
                                taken,
                                verify,
                            );
                        }
                    }
                },
            }
        }
    }
}

/// A store that holds a checkpoint is not changed by taking it again, and
/// refuses it for no reason but a failure of its own, which a reliable store
/// does not have.
proof fn lemma_step_again<V: Fn(VerifiedCheckpoint, CertifiedCheckpointSummary) -> bool>(
    before: StoreState,
    after: StoreState,
    summary: CertifiedCheckpointSummary,
    contents: FullCheckpointContents,
    verify: V,
    error: ArchiveError,
)
    requires
        settled(before, summary, contents),
    ensures
        accepted(before, summary, contents, verify),
        state_after(before, summary, contents) =~= before,
        rejected(before, after, summary, contents, verify, error) ==> after =~= before && error
            == ArchiveError::StoreError && !before.reliable,
{
}

/// Whether the store holds every checkpoint in the range that the first
/// `count` pairs of files offer.
pub open spec fn all_settled(
    state: StoreState,
    range: SeqRange,
    files: Seq<Fetched>,
    count: nat,
) -> bool {
    forall|file: int, at: int|
        file < count && #[trigger] in_range_at(files, range, file, at) ==> settled(
            state,
            summary_at(files, file, at),
            contents_at(files, file, at),
        )
}

/// A store that holds the checkpoints in the range that the files offer is
/// not changed by taking the files.
proof fn lemma_files_again(before: StoreState, range: SeqRange, files: Seq<Fetched>, count: nat)
    requires
        count <= files.len(),
        all_settled(before, range, files, count),
    ensures
        ingested_files(before, range, files, count) == before,
    decreases count,
{
    if count > 0 {
        let last = (count - 1) as nat;
        lemma_files_again(before, range, files, last);
        if let Ok(pair) = files[last as int] {
            assert forall|at: int|
                0 <= at < paired(pair.summaries@.len(), pair.contents@.len()) && range.contains(
                    (#[trigger] pair.summaries@[at]).sequence_number,
                ) implies settled(before, pair.summaries@[at], pair.contents@[at]) by {
                assert(in_range_at(files, range, last as int, at));
            }
            lemma_pair_again_state(
                before,
                range,
                pair.summaries@,
                pair.contents@,
                paired(pair.summaries@.len(), pair.contents@.len()),
            );
        }
    }
}

/// A store that holds the checkpoints of a pair of files that lie in the
/// range is in the same state after taking the pair.
proof fn lemma_pair_again_state(
    before: StoreState,
    range: SeqRange,
    summaries: Seq<CertifiedCheckpointSummary>,
    contents: Seq<FullCheckpointContents>,
    count: nat,
)
    requires
        forall|at: int|
            0 <= at < count && range.contains((#[trigger] summaries[at]).sequence_number)
                ==> settled(before, summaries[at], contents[at]),
    ensures
        ingested(before, range, summaries, contents, count) == before,
    decreases count,
{
    if count > 0 {
        let last = (count - 1) as nat;
        lemma_pair_again_state(before, range, summaries, contents, last);
        let summary = summaries[last as int];
        if range.contains(summary.sequence_number) {
            assert(state_after(before, summary, contents[last as int]) =~= before);
        }
    }
}

/// A read of checkpoints that an earlier, successful read has offered in
/// its range leaves the store as the earlier read left it. It succeeds
/// where it is planned and its files are fetched and read to their ends,
/// unless the store is not reliable and fails.
pub proof fn law_read_again<
    V: Fn(VerifiedCheckpoint, CertifiedCheckpointSummary) -> bool,
    W: Fn(VerifiedCheckpoint, CertifiedCheckpointSummary) -> bool,
>(
    before: StoreState,
    first_manifest: ManifestView,
    first_range: SeqRange,
    first_files: Seq<Fetched>,
    first_verify: V,
    first_done: Result<(), ArchiveError>,
    between: StoreState,
    second_manifest: ManifestView,
    second_range: SeqRange,
    second_files: Seq<Fetched>,
    second_verify: W,
    after: StoreState,
    done: Result<(), ArchiveError>,
)
    requires
        coherent(before.summaries),
        first_done is Ok,
        read_outcome(
            first_manifest,
            before,
            between,
            first_range,
            first_files,
            first_verify,
            first_done,
        ),
        read_outcome(
            second_manifest,
            between,
            after,
            second_range,
            second_files,
            second_verify,
            done,
        ),
        forall|file: int, at: int| #[trigger]
            in_range_at(second_files, second_range, file, at) ==> offers(
                first_files,
                first_range,
                summary_at(second_files, file, at),
                contents_at(second_files, file, at),
            ),
    ensures
        after =~= between,
        (planned(second_manifest, second_range) matches Ok(pairs) && pairs.len()
            == second_files.len() && forall|file: int|
            0 <= file < second_files.len() ==> whole(#[trigger] second_files[file])) ==> (done
            is Ok || (done == Err::<(), ArchiveError>(ArchiveError::StoreError)
            && !between.reliable)),
{
    assert(all_settled(between, second_range, second_files, second_files.len())) by {
        assert forall|file: int, at: int| #[trigger]
            in_range_at(second_files, second_range, file, at) implies settled(
            between,
            summary_at(second_files, file, at),
            contents_at(second_files, file, at),
        ) by {
            lemma_files_settle(
                before,
                first_range,
                first_files,
                first_verify,
                summary_at(second_files, file, at),
                contents_at(second_files, file, at),
            );
        }
    }
    if let Ok(pairs) = planned(second_manifest, second_range) {
        if pairs.len() == second_files.len() {
            match done {
                Ok(()) => {
                    lemma_files_again(
                        between,
                        second_range,
                        second_files,
                        second_files.len(),
                    );
                },
                Err(error) => {
                    let index = choose|index: int|
                        #[trigger] read_failed_at(
                            between,
                            after,
                            second_range,
                            second_files,
                            second_verify,
                            error,
                            index,
                        );
                    lemma_files_again(between, second_range, second_files, index as nat);
                    if let Ok(pair) = second_files[index] {
                        if exists|at: int|
                            #[trigger] failed_at(
                                between,
                                after,
                                second_range,
                                pair.summaries@,
                                pair.contents@,
                                second_verify,
                                error,
                                at,
                            ) {
                            let at = choose|at: int|
                                #[trigger] failed_at(
                                    between,
                                    after,
                                    second_range,
                                    pair.summaries@,
                                    pair.contents@,
                                    second_verify,
                                    error,
                                    at,
                                );
                            assert(in_range_at(second_files, second_range, index, at));
                            assert forall|earlier: int|
                                0 <= earlier < at && second_range.contains(
                                    (#[trigger] pair.summaries@[earlier]).sequence_number,
                                ) implies settled(
                                between,
                                pair.summaries@[earlier],
                                pair.contents@[earlier],
                            ) by {
                                assert(in_range_at(second_files, second_range, index, earlier));
                            }
                            lemma_pair_again_state(
                                between,
                                second_range,
                                pair.summaries@,
                                pair.contents@,
                                at as nat,
                            );
                            lemma_step_again(
                                between,
                                after,
                                pair.summaries@[at],
                                pair.contents@[at],
                                second_verify,
                                error,
                            );
                        } else {
                            lemma_files_again(
                                between,
                                second_range,
                                second_files,
                                (index + 1) as nat,
                            );
                        }
                    }
                },
            }
        }
    }
}

/// Whether two states of a store hold the same under `number`: the same
/// summary or none, and the same contents or none.
pub open spec fn same_at(
    before: StoreState,
    after: StoreState,
    number: CheckpointSequenceNumber,
) -> bool {
    &&& before.summaries.contains_key(number) == after.summaries.contains_key(number)
    &&& before.summaries.contains_key(number) ==> before.summaries[number]
        == after.summaries[number]
    &&& before.contents.contains_key(number) == after.contents.contains_key(number)
    &&& before.contents.contains_key(number) ==> before.contents[number]
        == after.contents[number]
}

/// Whether none of the first `count` pairs of checkpoints that lie in
/// `range` has the number given.
pub open spec fn none_numbered(
    range: SeqRange,
    summaries: Seq<CertifiedCheckpointSummary>,
    count: nat,
    number: CheckpointSequenceNumber,
) -> bool {
    forall|at: int|
        0 <= at < count && range.contains((#[trigger] summaries[at]).sequence_number)
            ==> summaries[at].sequence_number != number
}

/// Taking the checkpoints of a pair of files leaves a store as it was under
/// every number that none of the checkpoints taken has.
proof fn lemma_pair_leaves<V: Fn(VerifiedCheckpoint, CertifiedCheckpointSummary) -> bool>(
    before: StoreState,
    range: SeqRange,
    summaries: Seq<CertifiedCheckpointSummary>,
    contents: Seq<FullCheckpointContents>,
    count: nat,
    verify: V,
    number: CheckpointSequenceNumber,
)
    requires
        coherent(before.summaries),
        all_accepted(before, range, summaries, contents, count, verify),
        none_numbered(range, summaries, count, number),
    ensures
        same_at(before, ingested(before, range, summaries, contents, count), number),
    decreases count,
{
    if count > 0 {
        let last = (count - 1) as nat;
        lemma_pair_leaves(before, range, summaries, contents, last, verify, number);
        lemma_pair_coherent(before, range, summaries, contents, last, verify);
        let earlier = ingested(before, range, summaries, contents, last);
        let summary = summaries[last as int];
        if range.contains(summary.sequence_number) {
            assert(summaries_after(
                earlier.summaries,
                summary,
            )[summary.sequence_number].summary.sequence_number == summary.sequence_number);
        }
    }
}

/// A store that fails on a pair of checkpoints is left as it was under
/// every other number.
proof fn lemma_failure_leaves<V: Fn(VerifiedCheckpoint, CertifiedCheckpointSummary) -> bool>(
    before: StoreState,
    after: StoreState,
    range: SeqRange,
    summaries: Seq<CertifiedCheckpointSummary>,
    contents: Seq<FullCheckpointContents>,
    verify: V,
    error: ArchiveError,
    at: int,
    number: CheckpointSequenceNumber,
)
    requires
        coherent(before.summaries),
        failed_at(before, after, range, summaries, contents, verify, error, at),
        none_numbered(range, summaries, (at + 1) as nat, number),
    ensures
        same_at(before, after, number),
{
    lemma_pair_leaves(before, range, summaries, contents, at as nat, verify, number);
}

/// Whether none of the checkpoints in `range` that the first `count` pairs
/// of files hold has the number given.
pub open spec fn none_offered(
    files: Seq<Fetched>,
    range: SeqRange,
    count: nat,
    number: CheckpointSequenceNumber,
) -> bool {
    forall|file: int, at: int|
        file < count && #[trigger] in_range_at(files, range, file, at) ==> summary_at(
            files,
            file,
            at,
        ).sequence_number != number
}

/// Taking pairs of files leaves a store as it was under every number that
/// none of the checkpoints taken has.
proof fn lemma_files_leave<V: Fn(VerifiedCheckpoint, CertifiedCheckpointSummary) -> bool>(
    before: StoreState,
    range: SeqRange,
    files: Seq<Fetched>,
    count: nat,
    verify: V,
    number: CheckpointSequenceNumber,
)
    requires
        count <= files.len(),
        coherent(before.summaries),
        files_accepted(before, range, files, count, verify),
        none_offered(files, range, count, number),
    ensures
        same_at(before, ingested_files(before, range, files, count), number),
    decreases count,
{
    if count > 0 {
        let last = (count - 1) as nat;
        lemma_files_leave(before, range, files, last, verify, number);
        lemma_files_coherent(before, range, files, last, verify);
        assert(files[last as int] is Ok);
        let pair = files[last as int]->Ok_0;
        let taken = paired(pair.summaries@.len(), pair.contents@.len());
        assert(none_numbered(range, pair.summaries@, taken, number)) by {
            assert forall|at: int|
                0 <= at < taken && range.contains(
                    (#[trigger] pair.summaries@[at]).sequence_number,
                ) implies pair.summaries@[at].sequence_number != number by {
                assert(in_range_at(files, range, last as int, at));
            }
        }
        lemma_pair_leaves(
            ingested_files(before, range, files, last),
            range,
            pair.summaries@,
            pair.contents@,
            taken,
            verify,
            number,
        );
    }
}

/// A read, whether it succeeds or fails, leaves the store as it was under
/// every number that none of the checkpoints in its range has.
proof fn lemma_read_leaves<V: Fn(VerifiedCheckpoint, CertifiedCheckpointSummary) -> bool>(
    manifest: ManifestView,
    before: StoreState,
    after: StoreState,
    range: SeqRange,
    files: Seq<Fetched>,
    verify: V,
    done: Result<(), ArchiveError>,
    number: CheckpointSequenceNumber,
)
    requires
        coherent(before.summaries),
        read_outcome(manifest, before, after, range, files, verify, done),
        none_offered(files, range, files.len(), number),
    ensures
        same_at(before, after, number),
{
    if let Ok(pairs) = planned(manifest, range) {
        if pairs.len() == files.len() {
            match done {
                Ok(()) => {
                    lemma_files_leave(before, range, files, files.len(), verify, number);
                },
                Err(error) => {
                    let index = choose|index: int|
                        #[trigger] read_failed_at(
                            before,
                            after,
                            range,
                            files,
                            verify,
                            error,
                            index,
                        );
                    lemma_files_leave(before, range, files, index as nat, verify, number);
                    lemma_files_coherent(before, range, files, index as nat, verify);
                    let reached = ingested_files(before, range, files, index as nat);
                    if let Ok(pair) = files[index] {
                        let taken = paired(pair.summaries@.len(), pair.contents@.len());
                        assert(none_numbered(range, pair.summaries@, taken, number)) by {
                            assert forall|at: int|
                                0 <= at < taken && range.contains(
                                    (#[trigger] pair.summaries@[at]).sequence_number,
                                ) implies pair.summaries@[at].sequence_number != number by {
                                assert(in_range_at(files, range, index, at));
                            }
                        }
                        if exists|at: int|
                            #[trigger] failed_at(
                                reached,
                                after,
                                range,
                                pair.summaries@,
                                pair.contents@,
                                verify,
                                error,
                                at,
                            ) {
                            let at = choose|at: int|
                                #[trigger] failed_at(
                                    reached,
                                    after,
                                    range,
                                    pair.summaries@,
                                    pair.contents@,
                                    verify,
                                    error,
                                    at,
                                );
                            lemma_failure_leaves(
                                reached,
                                after,
                                range,
                                pair.summaries@,
                                pair.contents@,
                                verify,
                                error,
                                at,
                                number,
                            );
                        } else {
                            lemma_pair_leaves(
                                reached,
                                range,
                                pair.summaries@,
                                pair.contents@,
                                taken,
                                verify,
                                number,
                            );
                        }
                    }
                },
            }
        }
    }
}

/// A read, whether it succeeds or fails, changes nothing in the store under
/// a number outside its range.
pub proof fn law_read_stays_in_range<V: Fn(VerifiedCheckpoint, CertifiedCheckpointSummary) -> bool>(
    manifest: ManifestView,
    before: StoreState,
    after: StoreState,
    range: SeqRange,
    files: Seq<Fetched>,
    verify: V,
    done: Result<(), ArchiveError>,
    number: CheckpointSequenceNumber,
)
    requires
        coherent(before.summaries),
        read_outcome(manifest, before, after, range, files, verify, done),
        !range.contains(number),
    ensures
        same_at(before, after, number),
{
    lemma_read_leaves(manifest, before, after, range, files, verify, done, number);
}

/// Whether a pair of files holds the checkpoints of `range`, one for each
/// number and in order.
pub open spec fn holds_range(pair: DecodedPair, range: SeqRange) -> bool {
    &&& pair.summaries@.len() == range.end - range.start
    &&& pair.contents@.len() == pair.summaries@.len()
    &&& forall|at: int|
        0 <= at < pair.summaries@.len() ==> (#[trigger] pair.summaries@[at]).sequence_number
            == range.start + at
}

/// Whether each of the files was fetched, read to its end, and holds the
/// checkpoints of the range of the pair of files that it was fetched for.
pub open spec fn faithful(files: Seq<Fetched>, pairs: Seq<(FileMetadata, FileMetadata)>) -> bool {
    &&& files.len() == pairs.len()
    &&& forall|file: int|
        0 <= file < files.len() ==> whole(#[trigger] files[file]) && holds_range(
            files[file]->Ok_0,
            pairs[file].0.checkpoint_seq_range,
        )
}

/// After a read that succeeds on files that hold the checkpoints of their
/// ranges, the store holds every checkpoint of the range that lies below the
/// end of the last file of the archive: a verified summary and verified
/// contents under its sequence number, the summary committing to the digest
/// of the contents.
pub proof fn law_read_stores_every_checkpoint<
    V: Fn(VerifiedCheckpoint, CertifiedCheckpointSummary) -> bool,
>(
    manifest: ManifestView,
    before: StoreState,
    after: StoreState,
    range: SeqRange,
    files: Seq<Fetched>,
    verify: V,
    done: Result<(), ArchiveError>,
    number: u64,
)
    requires
        coherent(before.summaries),
        done is Ok,
        read_outcome(manifest, before, after, range, files, verify, done),
        faithful(files, planned(manifest, range)->Ok_0),
        range.contains(number),
        number < summary_files(manifest.files).last().checkpoint_seq_range.end,
    ensures
        holds(after, number),
{
    let pairs = planned(manifest, range)->Ok_0;
    let file = law_plan_covers_range(manifest, range, number);
    assert(files[file] is Ok);
    let pair = files[file]->Ok_0;
    let at = number - pairs[file].0.checkpoint_seq_range.start;
    assert(pair.summaries@[at].sequence_number == number);
    assert(offers_at(files, range, pair.summaries@[at], pair.contents@[at], file, at));
    law_read_stores_range(
        manifest,
        before,
        after,
        range,
        files,
        verify,
        done,
        pair.summaries@[at],
        pair.contents@[at],
    );
}

/// A read that starts at the latest checkpoint of the archive, on files
/// that hold the checkpoints of their ranges, changes nothing in the store
/// but under the number of that checkpoint: one checkpoint at most is taken.
pub proof fn law_read_from_latest_takes_one<
    V: Fn(VerifiedCheckpoint, CertifiedCheckpointSummary) -> bool,
>(
    manifest: ManifestView,
    before: StoreState,
    after: StoreState,
    range: SeqRange,
    files: Seq<Fetched>,
    verify: V,
    done: Result<(), ArchiveError>,
    number: CheckpointSequenceNumber,
)
    requires
        manifest.files.len() > 0,
        archive_consistent(manifest.files),
        range.start + 1 == manifest.next_checkpoint_seq_num,
        summary_files(manifest.files).last().checkpoint_seq_range.contains(range.start),
        summary_files(manifest.files).last().checkpoint_seq_range.end
            == manifest.next_checkpoint_seq_num,
        coherent(before.summaries),
        faithful(files, planned(manifest, range)->Ok_0),
        read_outcome(manifest, before, after, range, files, verify, done),
        number != range.start,
    ensures
        same_at(before, after, number),
{
    let summaries = summary_files(manifest.files);
    let pairs = planned(manifest, range)->Ok_0;
    let first = start_index(manifest.files, range);
    let end = end_index(manifest.files, range);
    let last = summaries.len() - 1;
    lemma_sorted_by_start(of_type(manifest.files, FileType::CheckpointSummary));
    assert(none_offered(files, range, files.len(), number)) by {
        assert forall|file: int, at: int|
            file < files.len() && #[trigger] in_range_at(files, range, file, at) implies summary_at(
            files,
            file,
            at,
        ).sequence_number != number by {
            assert(whole(files[file]));
            assert(file_pairs(manifest.files).len() == summaries.len());
            assert(pairs == file_pairs(manifest.files).subrange(first, end));
            assert(pairs[file].0 == summaries[first + file]);
            let offered = summary_at(files, file, at).sequence_number;
            assert(offered == summaries[first + file].checkpoint_seq_range.start + at);
            if first + file < last {
                assert(summaries[first + file + 1].checkpoint_seq_range.start == summaries[first
                    + file].checkpoint_seq_range.end);
                assert(start_of(summaries[first + file + 1]) <= start_of(summaries[last]));
            }
        }
    }
    lemma_read_leaves(manifest, before, after, range, files, verify, done, number);
}

} // verus!
