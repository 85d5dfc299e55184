//! Verification of checkpoints and their insertion into the local store.
//!
//! A summary enters the store when the store already holds it, when it is
//! the first of the chain, or when it continues the summary just below it
//! and the chain verifier accepts it. Contents enter under a summary whose
//! content digest is theirs.

use crate::checkpoint::{
    CertifiedCheckpointSummary, CheckpointSequenceNumber, FullCheckpointContents,
    VerifiedCheckpoint, VerifiedCheckpointContents,
};
use crate::error::ArchiveError;
use crate::manifest::SeqRange;
use crate::store::{contents_after_insert, StoreFailure, StoreState, WriteStore};
use vstd::prelude::*;

verus! {

/// Whether `candidate` names `previous` as the summary before it.
pub open spec fn links(
    previous: CertifiedCheckpointSummary,
    candidate: CertifiedCheckpointSummary,
) -> bool {
    candidate.previous_digest == Some(previous.digest)
}

/// Where a candidate stands with respect to the summaries of a store.
#[derive(Clone, Copy, Debug)]
pub enum Standing {
    /// The store holds a summary under the candidate's number.
    Stored(VerifiedCheckpoint),
    /// The candidate is the first of the chain, which is taken on trust.
    Genesis,
    /// The store holds the summary just below the candidate.
    Follows(VerifiedCheckpoint),
    /// The store holds neither the candidate nor the summary below it.
    Orphan,
}

/// Where `candidate` stands with respect to `summaries`.
pub open spec fn standing(
    summaries: Map<CheckpointSequenceNumber, VerifiedCheckpoint>,
    candidate: CertifiedCheckpointSummary,
) -> Standing {
    let number = candidate.sequence_number;
    if summaries.contains_key(number) {
        Standing::Stored(summaries[number])
    } else if number == 0 {
        Standing::Genesis
    } else if summaries.contains_key((number - 1) as u64) {
        Standing::Follows(summaries[(number - 1) as u64])
    } else {
        Standing::Orphan
    }
}

/// Whether a candidate of this standing is given a verified summary, when
/// `verdict` is what the chain verifier said of it.
pub open spec fn admitted(
    standing: Standing,
    candidate: CertifiedCheckpointSummary,
    verdict: bool,
) -> bool {
    match standing {
        Standing::Stored(_) => true,
        Standing::Genesis => true,
        Standing::Follows(previous) => links(previous.summary, candidate) && verdict,
        Standing::Orphan => false,
    }
}

/// The summaries of a store after `candidate` was admitted to it.
pub open spec fn summaries_after(
    summaries: Map<CheckpointSequenceNumber, VerifiedCheckpoint>,
    candidate: CertifiedCheckpointSummary,
) -> Map<CheckpointSequenceNumber, VerifiedCheckpoint> {
    if summaries.contains_key(candidate.sequence_number) {
        summaries
    } else {
        summaries.insert(candidate.sequence_number, VerifiedCheckpoint { summary: candidate })
    }
}

/// Whether the store and the verifier stand behind `candidate`: it is held
/// already, it is the first of the chain, or it continues the summary below
/// it and the verifier can accept it.
pub open spec fn vouched<V: Fn(VerifiedCheckpoint, CertifiedCheckpointSummary) -> bool>(
    summaries: Map<CheckpointSequenceNumber, VerifiedCheckpoint>,
    candidate: CertifiedCheckpointSummary,
    verify: V,
) -> bool {
    match standing(summaries, candidate) {
        Standing::Stored(_) => true,
        Standing::Genesis => true,
        Standing::Follows(previous) => links(previous.summary, candidate) && call_ensures(
            verify,
            (previous, candidate),
            true,
        ),
        Standing::Orphan => false,
    }
}

/// Whether a store in state `before` takes the pair of a summary and its
/// contents: the summary is vouched for, and the summary then held under its
/// number commits to the digest of the contents.
pub open spec fn accepted<V: Fn(VerifiedCheckpoint, CertifiedCheckpointSummary) -> bool>(
    before: StoreState,
    summary: CertifiedCheckpointSummary,
    contents: FullCheckpointContents,
    verify: V,
) -> bool {
    &&& vouched(before.summaries, summary, verify)
    &&& summaries_after(
        before.summaries,
        summary,
    )[summary.sequence_number].summary.content_digest == contents.digest
}

/// The state of a store after it took the pair of a summary and its contents.
/// The contents go under the number of the summary that the store then holds
/// for the pair.
pub open spec fn state_after(
    before: StoreState,
    summary: CertifiedCheckpointSummary,
    contents: FullCheckpointContents,
) -> StoreState {
    let summaries = summaries_after(before.summaries, summary);
    StoreState {
        summaries,
        contents: contents_after_insert(
            before.contents,
            summaries[summary.sequence_number].summary.sequence_number,
            VerifiedCheckpointContents { contents },
        ),
        reliable: before.reliable,
    }
}

/// Whether a store that was in state `before` and failed with `error` on the
/// pair of a summary and its contents is rightly in state `after`. Only a
/// store that is not reliable fails with `StoreError`.
pub open spec fn rejected<V: Fn(VerifiedCheckpoint, CertifiedCheckpointSummary) -> bool>(
    before: StoreState,
    after: StoreState,
    summary: CertifiedCheckpointSummary,
    contents: FullCheckpointContents,
    verify: V,
    error: ArchiveError,
) -> bool {
    let number = summary.sequence_number;
    &&& after.contents == before.contents
    &&& after.reliable == before.reliable
    &&& match error {
        ArchiveError::MissingPredecessor { sequence_number } => {
            &&& sequence_number == number
            &&& after.summaries == before.summaries
            &&& standing(before.summaries, summary) is Orphan
        },
        ArchiveError::VerificationFailed { sequence_number } => {
            &&& sequence_number == number
            &&& after.summaries == before.summaries
            &&& standing(before.summaries, summary) matches Standing::Follows(previous)
            &&& (!links(previous.summary, summary) || call_ensures(
                verify,
                (previous, summary),
                false,
            ))
        },
        ArchiveError::DigestMismatch { sequence_number } => {
            &&& after.summaries == summaries_after(before.summaries, summary)
            &&& sequence_number == after.summaries[number].summary.sequence_number
            &&& vouched(before.summaries, summary, verify)
            &&& after.summaries[number].summary.content_digest != contents.digest
        },
        ArchiveError::StoreError => {
            &&& !before.reliable
            &&& {
                ||| after.summaries == before.summaries
                ||| {
                    &&& after.summaries == summaries_after(before.summaries, summary)
                    &&& accepted(before, summary, contents, verify)
                }
            }
        },
        _ => false,
    }
}

fn continues(previous: &CertifiedCheckpointSummary, candidate: &CertifiedCheckpointSummary) -> (linked:
    bool)
    ensures
        linked == links(*previous, *candidate),
{
    match candidate.previous_digest {
        Some(digest) => digest.same(&previous.digest),
        None => false,
    }
}

/// Asks the store where `candidate` stands.
pub fn lookup_checkpoint<S: WriteStore>(store: &S, candidate: &CertifiedCheckpointSummary) -> (found:
    Result<Standing, StoreFailure>)
    ensures
        store.state().reliable ==> found is Ok,
        found matches Ok(place) ==> place == standing(store.state().summaries, *candidate),
{
    let number: u64 = candidate.sequence_number;
    match store.get_checkpoint_by_sequence_number(number)? {
        Some(held) => Ok(Standing::Stored(held)),
        None => {
            if number == 0 {
                Ok(Standing::Genesis)
            } else {
                match store.get_checkpoint_by_sequence_number(number - 1)? {
                    Some(previous) => Ok(Standing::Follows(previous)),
                    None => Ok(Standing::Orphan),
                }
            }
        },
    }
}

/// Gives `candidate` its verified summary, where its standing and the
/// verdict of the chain verifier allow it, and writes a new one to the store.
///
/// A stored summary is handed back as it is. The first summary of the chain
/// is taken as the root of trust. A summary that follows a stored one must
/// name it as its predecessor and have the verifier's approval.
pub fn admit_checkpoint<S: WriteStore>(
    store: &mut S,
    place: Standing,
    candidate: CertifiedCheckpointSummary,
    verdict: bool,
) -> (done: Result<VerifiedCheckpoint, ArchiveError>)
    ensures
        final(store).state().contents == old(store).state().contents,
        final(store).state().reliable == old(store).state().reliable,
        done == Err::<VerifiedCheckpoint, ArchiveError>(ArchiveError::StoreError) ==> !old(
            store,
        ).state().reliable,
        match done {
            Ok(verified) => {
                &&& admitted(place, candidate, verdict)
                &&& match place {
                    Standing::Stored(held) => {
                        &&& verified == held
                        &&& final(store).state().summaries == old(store).state().summaries
                    },
                    _ => {
                        &&& verified.summary == candidate
                        &&& final(store).state().summaries == old(
                            store,
                        ).state().summaries.insert(candidate.sequence_number, verified)
                    },
                }
            },
            Err(error) => {
                &&& final(store).state().summaries == old(store).state().summaries
                &&& match place {
                    Standing::Stored(_) => false,
                    Standing::Genesis => error == ArchiveError::StoreError,
                    Standing::Follows(_) => if admitted(place, candidate, verdict) {
                        error == ArchiveError::StoreError
                    } else {
                        error == (ArchiveError::VerificationFailed {
                            sequence_number: candidate.sequence_number,
                        })
                    },
                    Standing::Orphan => error == (ArchiveError::MissingPredecessor {
                        sequence_number: candidate.sequence_number,
                    }),
                }
            },
        },
{
    let number: u64 = candidate.sequence_number;
    match place {
        Standing::Stored(held) => { return Ok(held); },
        Standing::Genesis => {},
        Standing::Follows(previous) => {
            if !continues(&previous.summary, &candidate) || !verdict {
                return Err(ArchiveError::VerificationFailed { sequence_number: number });
            }
        },
        Standing::Orphan => {
            return Err(ArchiveError::MissingPredecessor { sequence_number: number });
        },
    }
    let verified = VerifiedCheckpoint::new_unchecked(candidate);
    match store.insert_checkpoint(verified) {
        Ok(()) => Ok(verified),
        Err(_) => Err(ArchiveError::StoreError),
    }
}

/// Hands back the verified summary under the number of `candidate`: the one
/// that the store holds, or `candidate` itself once it has been verified
/// against the summary below it and written to the store.
pub fn get_or_insert_verified_checkpoint<
    S: WriteStore,
    V: Fn(VerifiedCheckpoint, CertifiedCheckpointSummary) -> bool,
>(store: &mut S, candidate: CertifiedCheckpointSummary, verify: &V) -> (done: Result<
    VerifiedCheckpoint,
    ArchiveError,
>)
    requires
        forall|previous: VerifiedCheckpoint, summary: CertifiedCheckpointSummary|
            call_requires(*verify, (previous, summary)),
    ensures
        final(store).state().contents == old(store).state().contents,
        final(store).state().reliable == old(store).state().reliable,
        match done {
            Ok(verified) => {
                &&& vouched(old(store).state().summaries, candidate, *verify)
                &&& final(store).state().summaries == summaries_after(
                    old(store).state().summaries,
                    candidate,
                )
                &&& verified == final(store).state().summaries[candidate.sequence_number]
            },
            Err(error) => {
                &&& final(store).state().summaries == old(store).state().summaries
                &&& match error {
                    ArchiveError::MissingPredecessor { sequence_number } => {
                        &&& sequence_number == candidate.sequence_number
                        &&& standing(old(store).state().summaries, candidate) is Orphan
                    },
                    ArchiveError::VerificationFailed { sequence_number } => {
                        &&& sequence_number == candidate.sequence_number
                        &&& standing(
                            old(store).state().summaries,
                            candidate,
                        ) matches Standing::Follows(previous)
                        &&& (!links(previous.summary, candidate) || call_ensures(
                            *verify,
                            (previous, candidate),
                            false,
                        ))
                    },
                    ArchiveError::StoreError => !old(store).state().reliable,
                    _ => false,
                }
            },
        },
{
    let place = match lookup_checkpoint(store, &candidate) {
        Ok(place) => place,
        Err(_) => { return Err(ArchiveError::StoreError); },
    };
    let verdict: bool = match place {
        Standing::Follows(previous) => {
            if continues(&previous.summary, &candidate) {
                verify(previous, candidate)
            } else {
                false
            }
        },
        _ => false,
    };
    admit_checkpoint(store, place, candidate, verdict)
}

/// Writes `contents` under `verified`, if the summary commits to them.
pub fn insert_verified_contents<S: WriteStore>(
    store: &mut S,
    verified: &VerifiedCheckpoint,
    contents: FullCheckpointContents,
) -> (done: Result<(), ArchiveError>)
    ensures
        final(store).state().summaries == old(store).state().summaries,
        final(store).state().reliable == old(store).state().reliable,
        match done {
            Ok(()) => {
                &&& verified.summary.content_digest == contents.digest
                &&& final(store).state().contents == contents_after_insert(
                    old(store).state().contents,
                    verified.summary.sequence_number,
                    VerifiedCheckpointContents { contents },
                )
            },
            Err(error) => {
                &&& final(store).state().contents == old(store).state().contents
                &&& if verified.summary.content_digest == contents.digest {
                    error == ArchiveError::StoreError && !old(store).state().reliable
                } else {
                    error == (ArchiveError::DigestMismatch {
                        sequence_number: verified.summary.sequence_number,
                    })
                }
            },
        },
{
    if !verified.summary.content_digest.same(&contents.digest) {
        return Err(
            ArchiveError::DigestMismatch { sequence_number: verified.summary.sequence_number },
        );
    }
    let verified_contents = VerifiedCheckpointContents::new_unchecked(contents);
    match store.insert_checkpoint_contents(verified, verified_contents) {
        Ok(()) => Ok(()),
        Err(_) => Err(ArchiveError::StoreError),
    }
}

/// Verifies one checkpoint and writes it to the store: first the summary,
/// then the contents under it.
pub fn process_checkpoint<
    S: WriteStore,
    V: Fn(VerifiedCheckpoint, CertifiedCheckpointSummary) -> bool,
>(
    store: &mut S,
    summary: CertifiedCheckpointSummary,
    contents: FullCheckpointContents,
    verify: &V,
) -> (done: Result<(), ArchiveError>)
    requires
        forall|previous: VerifiedCheckpoint, candidate: CertifiedCheckpointSummary|
            call_requires(*verify, (previous, candidate)),
    ensures
        match done {
            Ok(()) => {
                &&& accepted(old(store).state(), summary, contents, *verify)
                &&& final(store).state() =~= state_after(old(store).state(), summary, contents)
            },
            Err(error) => rejected(
                old(store).state(),
                final(store).state(),
                summary,
                contents,
                *verify,
                error,
            ),
        },
{
    let verified = match get_or_insert_verified_checkpoint(store, summary, verify) {
        Ok(verified) => verified,
        Err(error) => { return Err(error); },
    };
    insert_verified_contents(store, &verified, contents)
}

/// The state of a store after the first `count` pairs of `summaries` and
/// `contents`, taken in order, have entered it; a pair whose number lies
/// outside `range` is passed over.
pub open spec fn ingested(
    before: StoreState,
    range: SeqRange,
    summaries: Seq<CertifiedCheckpointSummary>,
    contents: Seq<FullCheckpointContents>,
    count: nat,
) -> StoreState
    decreases count,
{
    if count == 0 {
        before
    } else {
        let earlier = ingested(before, range, summaries, contents, (count - 1) as nat);
        let summary = summaries[count - 1];
        if range.contains(summary.sequence_number) {
            state_after(earlier, summary, contents[count - 1])
        } else {
            earlier
        }
    }
}

/// Whether each of the first `count` pairs that lies in `range` is accepted
/// by the store in the state that the pairs before it have left.
pub open spec fn all_accepted<V: Fn(VerifiedCheckpoint, CertifiedCheckpointSummary) -> bool>(
    before: StoreState,
    range: SeqRange,
    summaries: Seq<CertifiedCheckpointSummary>,
    contents: Seq<FullCheckpointContents>,
    count: nat,
    verify: V,
) -> bool {
    forall|i: int|
        0 <= i < count && range.contains((#[trigger] summaries[i]).sequence_number) ==> accepted(
            ingested(before, range, summaries, contents, i as nat),
            summaries[i],
            contents[i],
            verify,
        )
}

/// Whether the pair at `index` is the first one that the store did not take,
/// and `after` and `error` are what its failure left.
pub open spec fn failed_at<V: Fn(VerifiedCheckpoint, CertifiedCheckpointSummary) -> bool>(
    before: StoreState,
    after: StoreState,
    range: SeqRange,
    summaries: Seq<CertifiedCheckpointSummary>,
    contents: Seq<FullCheckpointContents>,
    verify: V,
    error: ArchiveError,
    index: int,
) -> bool {
    &&& 0 <= index < summaries.len()
    &&& index < contents.len()
    &&& range.contains(summaries[index].sequence_number)
    &&& all_accepted(before, range, summaries, contents, index as nat, verify)
    &&& rejected(
        ingested(before, range, summaries, contents, index as nat),
        after,
        summaries[index],
        contents[index],
        verify,
        error,
    )
}

/// The number of pairs that two sequences of these lengths make.
pub open spec fn paired(summaries: nat, contents: nat) -> nat {
    if summaries <= contents {
        summaries
    } else {
        contents
    }
}

/// Takes the checkpoints of one pair of files into the store: the summaries
/// are paired with the contents in order, the pairs whose number lies outside
/// `range` are dropped, and the others are verified and written one after the
/// other. The first failure ends the work; what was written before it stays.
pub fn ingest_pair<S: WriteStore, V: Fn(VerifiedCheckpoint, CertifiedCheckpointSummary) -> bool>(
    store: &mut S,
    range: SeqRange,
    summaries: &Vec<CertifiedCheckpointSummary>,
    contents: &Vec<FullCheckpointContents>,
    verify: &V,
) -> (done: Result<(), ArchiveError>)
    requires
        forall|previous: VerifiedCheckpoint, candidate: CertifiedCheckpointSummary|
            call_requires(*verify, (previous, candidate)),
    ensures
        match done {
            Ok(()) => {
                &&& all_accepted(
                    old(store).state(),
                    range,
                    summaries@,
                    contents@,
                    paired(summaries@.len(), contents@.len()),
                    *verify,
                )
                &&& final(store).state() =~= ingested(
                    old(store).state(),
                    range,
                    summaries@,
                    contents@,
                    paired(summaries@.len(), contents@.len()),
                )
            },
            Err(error) => exists|index: int|
                failed_at(
                    old(store).state(),
                    final(store).state(),
                    range,
                    summaries@,
                    contents@,
                    *verify,
                    error,
                    index,
                ),
        },
{
    let count: usize = if summaries.len() <= contents.len() {
        summaries.len()
    } else {
        contents.len()
    };
    let ghost before = store.state();
    let mut i: usize = 0;
    while i < count
        invariant
            i <= count,
            count == paired(summaries@.len(), contents@.len()),
            before == old(store).state(),
            store.state() =~= ingested(before, range, summaries@, contents@, i as nat),
            all_accepted(before, range, summaries@, contents@, i as nat, *verify),
            forall|previous: VerifiedCheckpoint, candidate: CertifiedCheckpointSummary|
                call_requires(*verify, (previous, candidate)),
        decreases count - i,
    {
        let summary = summaries[i];
        let blob = contents[i];
        if range.contains(summary.sequence_number) {
            match process_checkpoint(store, summary, blob, verify) {
                Ok(()) => {},
                Err(error) => {
                    assert(failed_at(
                        before,
                        store.state(),
                        range,
                        summaries@,
                        contents@,
                        *verify,
                        error,
                        i as int,
                    ));
                    return Err(error);
                },
            }
        }
        i = i + 1;
    }
    Ok(())
}

} // verus!
