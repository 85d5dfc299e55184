//! One input, one outcome.
//!
//! With a reliable store and a verifier that gives one answer to one
//! question, a read of given files can end in one way only: two reads that
//! start from one store end with the same result and leave the same store,
//! however the files came to hand.

use crate::checkpoint::{
    CertifiedCheckpointSummary, FullCheckpointContents, VerifiedCheckpoint,
};
use crate::error::ArchiveError;
use crate::ingest::{accepted, all_accepted, failed_at, ingested, paired, rejected};
use crate::manifest::{ManifestView, SeqRange};
use crate::planner::planned;
use crate::progress::{lemma_files_stay_reliable, lemma_pair_stays_reliable};
use crate::reader::{
    files_accepted, ingested_files, pair_outcome, read_failed_at, read_outcome, Fetched,
};
use crate::store::StoreState;
use vstd::prelude::*;

verus! {

/// Whether the verifier gives one answer to one question.
pub open spec fn single_valued<V: Fn(VerifiedCheckpoint, CertifiedCheckpointSummary) -> bool>(
    verify: V,
) -> bool {
    forall|previous: VerifiedCheckpoint, candidate: CertifiedCheckpointSummary|
        !(#[trigger] call_ensures(verify, (previous, candidate), true) && call_ensures(
            verify,
            (previous, candidate),
            false,
        ))
}

/// Whether two results are both a success, or both the same error.
pub open spec fn same_result(first: Result<(), ArchiveError>, second: Result<(), ArchiveError>) -> bool {
    match first {
        Ok(_) => second is Ok,
        Err(error) => second == Err::<(), ArchiveError>(error),
    }
}

/// A reliable store with a single-valued verifier does not fail on a
/// checkpoint that it accepts.
proof fn lemma_accepted_or_rejected<V: Fn(VerifiedCheckpoint, CertifiedCheckpointSummary) -> bool>(
    before: StoreState,
    after: StoreState,
    summary: CertifiedCheckpointSummary,
    contents: FullCheckpointContents,
    verify: V,
    error: ArchiveError,
)
    requires
        before.reliable,
        single_valued(verify),
        accepted(before, summary, contents, verify),
    ensures
        !rejected(before, after, summary, contents, verify, error),
{
}

/// A reliable store with a single-valued verifier fails on a checkpoint in
/// one way only.
proof fn lemma_one_rejection<V: Fn(VerifiedCheckpoint, CertifiedCheckpointSummary) -> bool>(
    before: StoreState,
    first_after: StoreState,
    second_after: StoreState,
    summary: CertifiedCheckpointSummary,
    contents: FullCheckpointContents,
    verify: V,
    first_error: ArchiveError,
    second_error: ArchiveError,
)
    requires
        before.reliable,
        single_valued(verify),
        rejected(before, first_after, summary, contents, verify, first_error),
        rejected(before, second_after, summary, contents, verify, second_error),
    ensures
        first_error == second_error,
        first_after =~= second_after,
{
}

/// A checkpoint that one taking of a pair of files failed on was not
/// accepted in another taking.
proof fn lemma_failed_is_not_accepted<V: Fn(VerifiedCheckpoint, CertifiedCheckpointSummary) -> bool>(
    before: StoreState,
    after: StoreState,
    range: SeqRange,
    summaries: Seq<CertifiedCheckpointSummary>,
    contents: Seq<FullCheckpointContents>,
    verify: V,
    error: ArchiveError,
    at: int,
    count: nat,
)
    requires
        before.reliable,
        single_valued(verify),
        failed_at(before, after, range, summaries, contents, verify, error, at),
        at < count,
    ensures
        !all_accepted(before, range, summaries, contents, count, verify),
{
    lemma_pair_stays_reliable(before, range, summaries, contents, at as nat);
    if all_accepted(before, range, summaries, contents, count, verify) {
        lemma_accepted_or_rejected(
            ingested(before, range, summaries, contents, at as nat),
            after,
            summaries[at],
            contents[at],
            verify,
            error,
        );
    }
}

/// Two failures of one taking of a pair of files are the same failure.
proof fn lemma_one_failure<V: Fn(VerifiedCheckpoint, CertifiedCheckpointSummary) -> bool>(
    before: StoreState,
    first_after: StoreState,
    second_after: StoreState,
    range: SeqRange,
    summaries: Seq<CertifiedCheckpointSummary>,
    contents: Seq<FullCheckpointContents>,
    verify: V,
    first_error: ArchiveError,
    second_error: ArchiveError,
    first_at: int,
    second_at: int,
)
    requires
        before.reliable,
        single_valued(verify),
        failed_at(before, first_after, range, summaries, contents, verify, first_error, first_at),
        failed_at(
            before,
            second_after,
            range,
            summaries,
            contents,
            verify,
            second_error,
            second_at,
        ),
    ensures
        first_error == second_error,
        first_after =~= second_after,
{
    if first_at < second_at {
        lemma_failed_is_not_accepted(
            before,
            first_after,
            range,
            summaries,
            contents,
            verify,
            first_error,
            first_at,
            second_at as nat,
        );
    } else if second_at < first_at {
        lemma_failed_is_not_accepted(
            before,
            second_after,
            range,
            summaries,
            contents,
            verify,
            second_error,
            second_at,
            first_at as nat,
        );
    } else {
        lemma_pair_stays_reliable(before, range, summaries, contents, first_at as nat);
        lemma_one_rejection(
            ingested(before, range, summaries, contents, first_at as nat),
            first_after,
            second_after,
            summaries[first_at],
            contents[first_at],
            verify,
            first_error,
            second_error,
        );
    }
}

/// Taking one pair of files into a reliable store with a single-valued
/// verifier ends in one way only.
pub proof fn law_pair_outcome_is_determined<
    V: Fn(VerifiedCheckpoint, CertifiedCheckpointSummary) -> bool,
>(
    before: StoreState,
    range: SeqRange,
    file: Fetched,
    verify: V,
    first_after: StoreState,
    first_done: Result<(), ArchiveError>,
    second_after: StoreState,
    second_done: Result<(), ArchiveError>,
)
    requires
        before.reliable,
        single_valued(verify),
        pair_outcome(before, first_after, range, file, verify, first_done),
        pair_outcome(before, second_after, range, file, verify, second_done),
    ensures
        same_result(first_done, second_done),
        first_after =~= second_after,
{
    if let Ok(pair) = file {
        let taken = paired(pair.summaries@.len(), pair.contents@.len());
        let first_failed = first_done is Err && exists|at: int|
            #[trigger] failed_at(
                before,
                first_after,
                range,
                pair.summaries@,
                pair.contents@,
                verify,
                first_done->Err_0,
                at,
            );
        let second_failed = second_done is Err && exists|at: int|
            #[trigger] failed_at(
                before,
                second_after,
                range,
                pair.summaries@,
                pair.contents@,
                verify,
                second_done->Err_0,
                at,
            );
        if first_failed {
            let first_at = choose|at: int|
                #[trigger] failed_at(
                    before,
                    first_after,
                    range,
                    pair.summaries@,
                    pair.contents@,
                    verify,
                    first_done->Err_0,
                    at,
                );
            if second_failed {
                let second_at = choose|at: int|
                    #[trigger] failed_at(
                        before,
                        second_after,
                        range,
                        pair.summaries@,
                        pair.contents@,
                        verify,
                        second_done->Err_0,
                        at,
                    );
                lemma_one_failure(
                    before,
                    first_after,
                    second_after,
                    range,
                    pair.summaries@,
                    pair.contents@,
                    verify,
                    first_done->Err_0,
                    second_done->Err_0,
                    first_at,
                    second_at,
                );
            } else {
                lemma_failed_is_not_accepted(
                    before,
                    first_after,
                    range,
                    pair.summaries@,
                    pair.contents@,
                    verify,
                    first_done->Err_0,
                    first_at,
                    taken,
                );
            }
        } else if second_failed {
            let second_at = choose|at: int|
                #[trigger] failed_at(
                    before,
                    second_after,
                    range,
                    pair.summaries@,
                    pair.contents@,
                    verify,
                    second_done->Err_0,
                    at,
                );
            lemma_failed_is_not_accepted(
                before,
                second_after,
                range,
                pair.summaries@,
                pair.contents@,
                verify,
                second_done->Err_0,
                second_at,
                taken,
            );
        }
    }
}

/// A pair of files that a read has taken whole was taken with success.
proof fn lemma_accepted_file_was_taken<V: Fn(VerifiedCheckpoint, CertifiedCheckpointSummary) -> bool>(
    before: StoreState,
    range: SeqRange,
    files: Seq<Fetched>,
    verify: V,
    count: nat,
    index: int,
)
    requires
        0 <= index < count <= files.len(),
        files_accepted(before, range, files, count, verify),
    ensures
        pair_outcome(
            ingested_files(before, range, files, index as nat),
            ingested_files(before, range, files, (index + 1) as nat),
            range,
            files[index],
            verify,
            Ok(()),
        ),
{
    assert(files[index] is Ok);
}

/// Two reads of the same files into one reliable store, with one
/// single-valued verifier, end with the same result and leave the same
/// store. How many files are downloaded at a time does not enter into it.
pub proof fn law_read_outcome_is_determined<
    V: Fn(VerifiedCheckpoint, CertifiedCheckpointSummary) -> bool,
>(
    manifest: ManifestView,
    before: StoreState,
    range: SeqRange,
    files: Seq<Fetched>,
    verify: V,
    first_after: StoreState,
    first_done: Result<(), ArchiveError>,
    second_after: StoreState,
    second_done: Result<(), ArchiveError>,
)
    requires
        before.reliable,
        single_valued(verify),
        read_outcome(manifest, before, first_after, range, files, verify, first_done),
        read_outcome(manifest, before, second_after, range, files, verify, second_done),
    ensures
        same_result(first_done, second_done),
        first_after =~= second_after,
{
    if let Ok(pairs) = planned(manifest, range) {
        if pairs.len() == files.len() {
            let count = files.len();
            let first = if first_done is Err {
                choose|index: int|
                    #[trigger] read_failed_at(
                        before,
                        first_after,
                        range,
                        files,
                        verify,
                        first_done->Err_0,
                        index,
                    )
            } else {
                count as int
            };
            let second = if second_done is Err {
                choose|index: int|
                    #[trigger] read_failed_at(
                        before,
                        second_after,
                        range,
                        files,
                        verify,
                        second_done->Err_0,
                        index,
                    )
            } else {
                count as int
            };
            if first < second {
                lemma_files_stay_reliable(before, range, files, first as nat);
                lemma_accepted_file_was_taken(before, range, files, verify, second as nat, first);
                law_pair_outcome_is_determined(
                    ingested_files(before, range, files, first as nat),
                    range,
                    files[first],
                    verify,
                    first_after,
                    first_done,
                    ingested_files(before, range, files, (first + 1) as nat),
                    Ok(()),
                );
            } else if second < first {
                lemma_files_stay_reliable(before, range, files, second as nat);
                lemma_accepted_file_was_taken(before, range, files, verify, first as nat, second);
                law_pair_outcome_is_determined(
                    ingested_files(before, range, files, second as nat),
                    range,
                    files[second],
                    verify,
                    second_after,
                    second_done,
                    ingested_files(before, range, files, (second + 1) as nat),
                    Ok(()),
                );
            } else if first < count {
                lemma_files_stay_reliable(before, range, files, first as nat);
                law_pair_outcome_is_determined(
                    ingested_files(before, range, files, first as nat),
                    range,
                    files[first],
                    verify,
                    first_after,
                    first_done,
                    second_after,
                    second_done,
                );
            }
        }
    }
}

} // verus!
