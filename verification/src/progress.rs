//! When a read is owed its success.
//!
//! A read of a reliable store succeeds where the store holds nothing from the
//! start of the range on, the summary below the range is in the store or the
//! range starts at zero, the files hold the checkpoints of one chain, and
//! the verifier never refuses.

use crate::checkpoint::{
    CertifiedCheckpointSummary, FullCheckpointContents, VerifiedCheckpoint,
};
use crate::error::ArchiveError;
use crate::ingest::{
    failed_at, ingested, links, paired, rejected, standing, state_after, summaries_after,
    Standing,
};
use crate::laws::{
    coherent, faithful, holds, holds_range, is_run, law_plan_is_a_run,
    law_read_from_latest_takes_one, law_read_stores_every_checkpoint, same_at,
};
use crate::manifest::{FileMetadata, ManifestView, SeqRange};
use crate::planner::{planned, start_of, summary_files};
use crate::reader::{ingested_files, read_failed_at, read_outcome, whole, Fetched};
use crate::store::StoreState;
use vstd::prelude::*;

verus! {

/// Whether the verifier never says no: `false` is no result of it, whatever
/// it is asked.
pub open spec fn never_refuses<V: Fn(VerifiedCheckpoint, CertifiedCheckpointSummary) -> bool>(
    verify: V,
) -> bool {
    forall|previous: VerifiedCheckpoint, candidate: CertifiedCheckpointSummary|
        !#[trigger] call_ensures(verify, (previous, candidate), false)
}

/// Whether nothing but the verifier or the store can keep a checkpoint out
/// of a store in state `before`: its summary is held, or is the first of the
/// chain, or continues the summary below it; and the summary then held under
/// its number commits to the digest of the contents.
pub open spec fn welcome(
    before: StoreState,
    summary: CertifiedCheckpointSummary,
    contents: FullCheckpointContents,
) -> bool {
    &&& match standing(before.summaries, summary) {
        Standing::Stored(_) => true,
        Standing::Genesis => true,
        Standing::Follows(previous) => links(previous.summary, summary),
        Standing::Orphan => false,
    }
    &&& summaries_after(
        before.summaries,
        summary,
    )[summary.sequence_number].summary.content_digest == contents.digest
}

/// Whether each of the first `count` pairs of checkpoints that lies in
/// `range` is welcome in the store in the state that the pairs before it
/// leave.
pub open spec fn all_welcome(
    before: StoreState,
    range: SeqRange,
    summaries: Seq<CertifiedCheckpointSummary>,
    contents: Seq<FullCheckpointContents>,
    count: nat,
) -> bool {
    forall|at: int|
        0 <= at < count && range.contains((#[trigger] summaries[at]).sequence_number) ==> welcome(
            ingested(before, range, summaries, contents, at as nat),
            summaries[at],
            contents[at],
        )
}

/// Whether each of the first `count` pairs of files was fetched and read to
/// its end, and all its checkpoints in `range` are welcome in the store in
/// the state that the pairs before it leave.
pub open spec fn files_welcome(
    before: StoreState,
    range: SeqRange,
    files: Seq<Fetched>,
    count: nat,
) -> bool {
    forall|file: int|
        0 <= file < count ==> whole(#[trigger] files[file]) && all_welcome(
            ingested_files(before, range, files, file as nat),
            range,
            files[file]->Ok_0.summaries@,
            files[file]->Ok_0.contents@,
            paired(files[file]->Ok_0.summaries@.len(), files[file]->Ok_0.contents@.len()),
        )
}

/// Whether `chain` gives for each number a summary of that number that
/// names the summary of the number below as its predecessor.
pub open spec fn is_chain(chain: spec_fn(int) -> CertifiedCheckpointSummary) -> bool {
    &&& forall|number: int|
        0 <= number <= u64::MAX ==> (#[trigger] chain(number)).sequence_number == number
    &&& forall|below: int, above: int|
        0 <= below && above == below + 1 && above <= u64::MAX ==> links(
            #[trigger] chain(below),
            #[trigger] chain(above),
        )
}

/// Whether the first `count` summaries are those of `chain` from `first` on,
/// and each of the contents has the digest that its summary commits to.
pub open spec fn holds_chain(
    summaries: Seq<CertifiedCheckpointSummary>,
    contents: Seq<FullCheckpointContents>,
    count: nat,
    first: int,
    chain: spec_fn(int) -> CertifiedCheckpointSummary,
) -> bool {
    &&& 0 <= first
    &&& first + count <= u64::MAX + 1
    &&& forall|at: int|
        0 <= at < count ==> #[trigger] summaries[at] == chain(first + at) && contents[at].digest
            == summaries[at].content_digest
}

/// Whether the store holds no summary from `from` on, and holds the summary
/// below `from`, which `chain` continues, unless `from` is zero.
pub open spec fn ready_for(
    state: StoreState,
    from: int,
    chain: spec_fn(int) -> CertifiedCheckpointSummary,
) -> bool {
    &&& forall|number: u64| number >= from ==> !#[trigger] state.summaries.contains_key(number)
    &&& from > 0 ==> state.summaries.contains_key((from - 1) as u64) && links(
        state.summaries[(from - 1) as u64].summary,
        chain(from),
    )
}

/// Whether `after` holds the summaries of `before` and, besides, those of
/// `chain` from `from` up to `to`.
pub open spec fn filled(
    before: StoreState,
    after: StoreState,
    from: int,
    to: int,
    chain: spec_fn(int) -> CertifiedCheckpointSummary,
) -> bool {
    &&& after.reliable == before.reliable
    &&& forall|number: u64|
        #[trigger] after.summaries.contains_key(number) <==> before.summaries.contains_key(number)
            || from <= number < to
    &&& forall|number: u64|
        from <= number < to ==> (#[trigger] after.summaries[number]).summary == chain(
            number as int,
        )
    &&& forall|number: u64|
        before.summaries.contains_key(number) ==> #[trigger] after.summaries[number]
            == before.summaries[number]
}

/// The number up to which a pair of files that starts at `first` has filled
/// a store when `count` of its checkpoints have been taken, where `from` is
/// the first number that the store lacked.
pub open spec fn filled_to(range: SeqRange, from: int, first: int, count: nat) -> int {
    let reached = if first + count <= range.end {
        first + count
    } else {
        range.end as int
    };
    if reached <= from {
        from
    } else {
        reached
    }
}

/// In a store that is ready for the checkpoints of a pair of files, each of
/// them that lies in the range is welcome, and the store is filled with
/// their summaries.
proof fn lemma_pair_fills(
    before: StoreState,
    range: SeqRange,
    summaries: Seq<CertifiedCheckpointSummary>,
    contents: Seq<FullCheckpointContents>,
    count: nat,
    first: int,
    from: int,
    chain: spec_fn(int) -> CertifiedCheckpointSummary,
)
    requires
        is_chain(chain),
        holds_chain(summaries, contents, count, first, chain),
        from == if first <= range.start {
            range.start as int
        } else {
            first
        },
        ready_for(before, from, chain),
    ensures
        all_welcome(before, range, summaries, contents, count),
        filled(
            before,
            ingested(before, range, summaries, contents, count),
            from,
            filled_to(range, from, first, count),
            chain,
        ),
    decreases count,
{
    if count > 0 {
        let last = (count - 1) as nat;
        lemma_pair_fills(before, range, summaries, contents, last, first, from, chain);
        let earlier = ingested(before, range, summaries, contents, last);
        let summary = summaries[last as int];
        let number = summary.sequence_number;
        assert(summary == chain(first + last));
        assert(number == first + last);
        if range.contains(number) {
            assert(filled_to(range, from, first, last) == number);
            assert(!earlier.summaries.contains_key(number));
            if number > 0 {
                let below = (number - 1) as u64;
                assert(earlier.summaries.contains_key(below));
                if number == from {
                    assert(earlier.summaries[below] == before.summaries[below]);
                } else {
                    assert(earlier.summaries[below].summary == chain(below as int));
                    assert(links(chain(below as int), chain(below as int + 1)));
                }
            }
            assert(welcome(earlier, summary, contents[last as int]));
            let after = state_after(earlier, summary, contents[last as int]);
            assert(filled(before, after, from, number + 1, chain)) by {
                assert forall|other: u64| from <= other < number + 1 implies (
                #[trigger] after.summaries[other]).summary == chain(other as int) by {
                    if other != number {
                        assert(earlier.summaries[other].summary == chain(other as int));
                    }
                }
                assert forall|other: u64|
                    before.summaries.contains_key(other) implies #[trigger] after.summaries[other]
                    == before.summaries[other] by {
                    assert(earlier.summaries[other] == before.summaries[other]);
                }
            }
        }
        assert forall|at: int|
            0 <= at < count && range.contains(
                (#[trigger] summaries[at]).sequence_number,
            ) implies welcome(
            ingested(before, range, summaries, contents, at as nat),
            summaries[at],
            contents[at],
        ) by {
            if at < last {
                assert(all_welcome(before, range, summaries, contents, last));
            }
        }
    } else {
        assert(filled_to(range, from, first, 0) == from);
    }
}

/// A reliable store with a verifier that never refuses does not fail on a
/// checkpoint that is welcome.
proof fn lemma_welcome_is_not_rejected<
    V: Fn(VerifiedCheckpoint, CertifiedCheckpointSummary) -> bool,
>(
    before: StoreState,
    after: StoreState,
    summary: CertifiedCheckpointSummary,
    contents: FullCheckpointContents,
    verify: V,
    error: ArchiveError,
)
    requires
        before.reliable,
        never_refuses(verify),
        welcome(before, summary, contents),
    ensures
        !rejected(before, after, summary, contents, verify, error),
{
}

/// Taking checkpoints does not change whether a store is reliable.
pub proof fn lemma_pair_stays_reliable(
    before: StoreState,
    range: SeqRange,
    summaries: Seq<CertifiedCheckpointSummary>,
    contents: Seq<FullCheckpointContents>,
    count: nat,
)
    ensures
        ingested(before, range, summaries, contents, count).reliable == before.reliable,
    decreases count,
{
    if count > 0 {
        lemma_pair_stays_reliable(before, range, summaries, contents, (count - 1) as nat);
    }
}

/// Taking pairs of files does not change whether a store is reliable.
pub proof fn lemma_files_stay_reliable(
    before: StoreState,
    range: SeqRange,
    files: Seq<Fetched>,
    count: nat,
)
    ensures
        ingested_files(before, range, files, count).reliable == before.reliable,
    decreases count,
{
    if count > 0 {
        lemma_files_stay_reliable(before, range, files, (count - 1) as nat);
        if let Ok(pair) = files[count - 1] {
            lemma_pair_stays_reliable(
                ingested_files(before, range, files, (count - 1) as nat),
                range,
                pair.summaries@,
                pair.contents@,
                paired(pair.summaries@.len(), pair.contents@.len()),
            );
        }
    }
}

/// A read of a reliable store succeeds where it is planned, the files handed
/// to it are as many as planned, every checkpoint of the range in them is
/// welcome in the store when its turn comes, and the verifier never refuses.
pub proof fn law_read_of_welcome_files_succeeds<
    V: Fn(VerifiedCheckpoint, CertifiedCheckpointSummary) -> bool,
>(
    manifest: ManifestView,
    before: StoreState,
    after: StoreState,
    range: SeqRange,
    files: Seq<Fetched>,
    verify: V,
    done: Result<(), ArchiveError>,
)
    requires
        read_outcome(manifest, before, after, range, files, verify, done),
        planned(manifest, range) matches Ok(pairs) && pairs.len() == files.len(),
        before.reliable,
        never_refuses(verify),
        files_welcome(before, range, files, files.len()),
    ensures
        done is Ok,
{
    if let Err(error) = done {
        let index = choose|index: int|
            #[trigger] read_failed_at(before, after, range, files, verify, error, index);
        let reached = ingested_files(before, range, files, index as nat);
        lemma_files_stay_reliable(before, range, files, index as nat);
        assert(whole(files[index]));
        let pair = files[index]->Ok_0;
        let at = choose|at: int|
            #[trigger] failed_at(
                reached,
                after,
                range,
                pair.summaries@,
                pair.contents@,
                verify,
                error,
                at,
            );
        let stopped = ingested(reached, range, pair.summaries@, pair.contents@, at as nat);
        lemma_pair_stays_reliable(reached, range, pair.summaries@, pair.contents@, at as nat);
        assert(welcome(stopped, pair.summaries@[at], pair.contents@[at]));
        lemma_welcome_is_not_rejected(
            stopped,
            after,
            pair.summaries@[at],
            pair.contents@[at],
            verify,
            error,
        );
    }
}

/// Whether each of the first `count` pairs of files was fetched whole and
/// holds the checkpoints of `chain` for its range, the ranges following one
/// another from a range that does not start after `range`, and every other
/// one starting inside it.
#[verifier::opaque]
pub open spec fn files_hold_chain(
    files: Seq<Fetched>,
    ranges: Seq<SeqRange>,
    range: SeqRange,
    count: nat,
    chain: spec_fn(int) -> CertifiedCheckpointSummary,
) -> bool {
    &&& count <= files.len()
    &&& count <= ranges.len()
    &&& count > 0 ==> ranges[0].start <= range.start
    &&& forall|file: int|
        0 <= file < count ==> {
            &&& whole(#[trigger] files[file])
            &&& holds_range(files[file]->Ok_0, ranges[file])
            &&& holds_chain(
                files[file]->Ok_0.summaries@,
                files[file]->Ok_0.contents@,
                files[file]->Ok_0.summaries@.len(),
                ranges[file].start as int,
                chain,
            )
            &&& file > 0 ==> range.start < ranges[file].start < range.end
        }
    &&& forall|file: int, next: int|
        0 <= file && next == file + 1 && next < count ==> (#[trigger] ranges[next]).start == (
        #[trigger] ranges[file]).end
}

/// The number up to which the first `count` pairs of files have filled a
/// store that lacked the numbers from the start of `range` on.
pub open spec fn files_filled_to(ranges: Seq<SeqRange>, range: SeqRange, count: nat) -> int {
    if count == 0 {
        range.start as int
    } else {
        let last = ranges[count - 1];
        filled_to(
            range,
            if last.start <= range.start {
                range.start as int
            } else {
                last.start as int
            },
            last.start as int,
            (last.end - last.start) as nat,
        )
    }
}

/// A store that was filled up to `from` and then from there up to `to` was
/// filled up to `to`.
proof fn lemma_filled_joins(
    before: StoreState,
    reached: StoreState,
    after: StoreState,
    start: int,
    from: int,
    to: int,
    chain: spec_fn(int) -> CertifiedCheckpointSummary,
)
    requires
        start <= from <= to,
        filled(before, reached, start, from, chain),
        filled(reached, after, from, to, chain),
    ensures
        filled(before, after, start, to, chain),
{
    assert forall|number: u64| start <= number < to implies (
    #[trigger] after.summaries[number]).summary == chain(number as int) by {
        if number < from {
            assert(reached.summaries.contains_key(number));
            assert(after.summaries[number] == reached.summaries[number]);
            assert(reached.summaries[number].summary == chain(number as int));
        }
    }
    assert forall|number: u64|
        before.summaries.contains_key(number) implies #[trigger] after.summaries[number]
        == before.summaries[number] by {
        assert(reached.summaries.contains_key(number));
        assert(after.summaries[number] == reached.summaries[number]);
        assert(reached.summaries[number] == before.summaries[number]);
    }
    assert forall|number: u64| #[trigger]
        after.summaries.contains_key(number) <==> before.summaries.contains_key(number) || start
            <= number < to by {
        assert(after.summaries.contains_key(number) <==> reached.summaries.contains_key(number)
            || from <= number < to);
        assert(reached.summaries.contains_key(number) <==> before.summaries.contains_key(number)
            || start <= number < from);
    }
}

/// A store that was ready for `start` and was filled from there up to `from`
/// is ready for `from`.
proof fn lemma_filled_is_ready(
    before: StoreState,
    reached: StoreState,
    start: int,
    from: int,
    chain: spec_fn(int) -> CertifiedCheckpointSummary,
)
    requires
        is_chain(chain),
        0 <= start <= from <= u64::MAX,
        ready_for(before, start, chain),
        filled(before, reached, start, from, chain),
    ensures
        ready_for(reached, from, chain),
{
    assert forall|number: u64| number >= from implies !#[trigger] reached.summaries.contains_key(
        number,
    ) by {
        assert(!before.summaries.contains_key(number));
    }
    if from > 0 {
        let below = (from - 1) as u64;
        if from == start {
            assert(before.summaries.contains_key(below));
            assert(reached.summaries.contains_key(below));
            assert(reached.summaries[below] == before.summaries[below]);
        } else {
            assert(reached.summaries.contains_key(below));
            assert(reached.summaries[below].summary == chain(below as int));
            assert(links(chain(below as int), chain(below as int + 1)));
        }
    }
}

/// The first number that the store lacks when the pair of files at `file`
/// is taken.
pub open spec fn taken_from(ranges: Seq<SeqRange>, range: SeqRange, file: int) -> int {
    if ranges[file].start <= range.start {
        range.start as int
    } else {
        ranges[file].start as int
    }
}

/// The pairs of files before the one at `file` have filled the store up to
/// the number from which that pair is taken.
proof fn lemma_filled_to_meets(
    files: Seq<Fetched>,
    ranges: Seq<SeqRange>,
    range: SeqRange,
    file: nat,
    chain: spec_fn(int) -> CertifiedCheckpointSummary,
)
    requires
        files_hold_chain(files, ranges, range, file + 1, chain),
    ensures
        files_filled_to(ranges, range, file) == taken_from(ranges, range, file as int),
        range.start <= taken_from(ranges, range, file as int) <= u64::MAX,
{
    reveal(files_hold_chain);
    assert(whole(files[file as int]));
    if file > 0 {
        assert(whole(files[file - 1]));
        assert(holds_range(files[file - 1]->Ok_0, ranges[file - 1]));
        assert(ranges[file as int].start == ranges[file - 1].end);
    }
}

/// The pair of files at `file`, taken into the store that the pairs before
/// it have filled, finds its checkpoints welcome and fills the store further.
proof fn lemma_file_fills(
    before: StoreState,
    reached: StoreState,
    range: SeqRange,
    files: Seq<Fetched>,
    ranges: Seq<SeqRange>,
    file: nat,
    chain: spec_fn(int) -> CertifiedCheckpointSummary,
)
    requires
        is_chain(chain),
        ready_for(before, range.start as int, chain),
        files_hold_chain(files, ranges, range, file + 1, chain),
        filled(before, reached, range.start as int, files_filled_to(ranges, range, file), chain),
    ensures
        files[file as int] is Ok,
        all_welcome(
            reached,
            range,
            files[file as int]->Ok_0.summaries@,
            files[file as int]->Ok_0.contents@,
            paired(
                files[file as int]->Ok_0.summaries@.len(),
                files[file as int]->Ok_0.contents@.len(),
            ),
        ),
        filled(
            before,
            ingested(
                reached,
                range,
                files[file as int]->Ok_0.summaries@,
                files[file as int]->Ok_0.contents@,
                paired(
                    files[file as int]->Ok_0.summaries@.len(),
                    files[file as int]->Ok_0.contents@.len(),
                ),
            ),
            range.start as int,
            files_filled_to(ranges, range, file + 1),
            chain,
        ),
{
    assert(whole(files[file as int]) && holds_range(
        files[file as int]->Ok_0,
        ranges[file as int],
    ) && holds_chain(
        files[file as int]->Ok_0.summaries@,
        files[file as int]->Ok_0.contents@,
        files[file as int]->Ok_0.summaries@.len(),
        ranges[file as int].start as int,
        chain,
    )) by {
        reveal(files_hold_chain);
    }
    let pair = files[file as int]->Ok_0;
    let taken = paired(pair.summaries@.len(), pair.contents@.len());
    let first = ranges[file as int].start as int;
    let from = taken_from(ranges, range, file as int);
    lemma_filled_to_meets(files, ranges, range, file, chain);
    lemma_filled_is_ready(before, reached, range.start as int, from, chain);
    assert(holds_range(pair, ranges[file as int]));
    assert(taken == pair.summaries@.len());
    lemma_pair_fills(reached, range, pair.summaries@, pair.contents@, taken, first, from, chain);
    let after = ingested(reached, range, pair.summaries@, pair.contents@, taken);
    let to = files_filled_to(ranges, range, file + 1);
    assert(to == filled_to(range, from, first, taken));
    lemma_filled_joins(before, reached, after, range.start as int, from, to, chain);
}

/// Fewer files hold the chain where more do.
proof fn lemma_fewer_files_hold_chain(
    files: Seq<Fetched>,
    ranges: Seq<SeqRange>,
    range: SeqRange,
    count: nat,
    chain: spec_fn(int) -> CertifiedCheckpointSummary,
)
    requires
        count > 0,
        files_hold_chain(files, ranges, range, count, chain),
    ensures
        files_hold_chain(files, ranges, range, (count - 1) as nat, chain),
{
    reveal(files_hold_chain);
    assert forall|file: int| 0 <= file < count - 1 implies whole(#[trigger] files[file]) by {
        assert(whole(files[file]));
    }
}

/// In a store that is ready for the start of the range, the checkpoints of
/// files that hold a chain are welcome, and the store is filled with their
/// summaries.
proof fn lemma_files_fill(
    before: StoreState,
    range: SeqRange,
    files: Seq<Fetched>,
    ranges: Seq<SeqRange>,
    count: nat,
    chain: spec_fn(int) -> CertifiedCheckpointSummary,
)
    requires
        is_chain(chain),
        ready_for(before, range.start as int, chain),
        files_hold_chain(files, ranges, range, count, chain),
    ensures
        files_welcome(before, range, files, count),
        filled(
            before,
            ingested_files(before, range, files, count),
            range.start as int,
            files_filled_to(ranges, range, count),
            chain,
        ),
    decreases count,
{
    if count > 0 {
        let last = (count - 1) as nat;
        lemma_fewer_files_hold_chain(files, ranges, range, count, chain);
        lemma_files_fill(before, range, files, ranges, last, chain);
        let reached = ingested_files(before, range, files, last);
        lemma_file_fills(before, reached, range, files, ranges, last, chain);
        assert forall|file: int| 0 <= file < count implies whole(#[trigger] files[file])
            && all_welcome(
            ingested_files(before, range, files, file as nat),
            range,
            files[file]->Ok_0.summaries@,
            files[file]->Ok_0.contents@,
            paired(files[file]->Ok_0.summaries@.len(), files[file]->Ok_0.contents@.len()),
        ) by {
            if file < last {
                assert(files_welcome(before, range, files, last));
            } else {
                assert(whole(files[last as int])) by {
                    reveal(files_hold_chain);
                }
            }
        }
    }
}

/// The ranges of the summary files of some pairs of files.
pub open spec fn ranges_of(pairs: Seq<(FileMetadata, FileMetadata)>) -> Seq<SeqRange> {
    Seq::new(pairs.len(), |i: int| pairs[i].0.checkpoint_seq_range)
}

/// Whether every summary in the files is the one that `chain` gives for its
/// number, and the contents beside it have the digest that it commits to.
pub open spec fn files_of_chain(
    files: Seq<Fetched>,
    chain: spec_fn(int) -> CertifiedCheckpointSummary,
) -> bool {
    forall|file: int, at: int|
        0 <= file < files.len() && 0 <= at < files[file]->Ok_0.summaries@.len() ==> (
        #[trigger] files[file]->Ok_0.summaries@[at]) == chain(
            files[file]->Ok_0.summaries@[at].sequence_number as int,
        ) && files[file]->Ok_0.contents@[at].digest
            == files[file]->Ok_0.summaries@[at].content_digest
}

/// The files of a run of pairs that hold for their ranges the checkpoints of
/// a chain hold the chain file after file.
proof fn lemma_run_files_hold_chain(
    pairs: Seq<(FileMetadata, FileMetadata)>,
    range: SeqRange,
    files: Seq<Fetched>,
    chain: spec_fn(int) -> CertifiedCheckpointSummary,
)
    requires
        is_run(pairs, range),
        faithful(files, pairs),
        files_of_chain(files, chain),
    ensures
        files_hold_chain(files, ranges_of(pairs), range, files.len(), chain),
{
    let ranges = ranges_of(pairs);
    reveal(files_hold_chain);
    assert forall|file: int| 0 <= file < files.len() implies {
        &&& whole(#[trigger] files[file])
        &&& holds_range(files[file]->Ok_0, ranges[file])
        &&& holds_chain(
            files[file]->Ok_0.summaries@,
            files[file]->Ok_0.contents@,
            files[file]->Ok_0.summaries@.len(),
            ranges[file].start as int,
            chain,
        )
        &&& file > 0 ==> range.start < ranges[file].start < range.end
    } by {
        assert(whole(files[file]));
        let held = files[file]->Ok_0;
        assert(holds_range(held, pairs[file].0.checkpoint_seq_range));
        assert forall|at: int| 0 <= at < held.summaries@.len() implies #[trigger] held.summaries@[at]
            == chain(ranges[file].start + at) && held.contents@[at].digest
            == held.summaries@[at].content_digest by {
            assert(held.summaries@[at].sequence_number == ranges[file].start + at);
        }
        if file > 0 {
            assert(start_of(pairs[file].0) == ranges[file].start);
        }
    }
    assert forall|file: int, next: int|
        0 <= file && next == file + 1 && next < files.len() implies (
    #[trigger] ranges[next]).start == (#[trigger] ranges[file]).end by {
        assert(pairs[next].0.checkpoint_seq_range.start == pairs[file].0.checkpoint_seq_range.end);
    }
    if files.len() > 0 {
        assert(start_of(pairs[0].0) == ranges[0].start);
    }
}

/// A read of a reliable store succeeds where it is planned, the store holds
/// no summary from the start of the range on but holds the one below it or
/// the range starts at zero, the files were fetched whole and hold for their
/// ranges the checkpoints of one chain, each with the contents that its
/// summary commits to, and the verifier never refuses.
pub proof fn law_read_of_a_chain_succeeds<
    V: Fn(VerifiedCheckpoint, CertifiedCheckpointSummary) -> bool,
>(
    manifest: ManifestView,
    before: StoreState,
    after: StoreState,
    range: SeqRange,
    files: Seq<Fetched>,
    verify: V,
    done: Result<(), ArchiveError>,
    chain: spec_fn(int) -> CertifiedCheckpointSummary,
)
    requires
        read_outcome(manifest, before, after, range, files, verify, done),
        planned(manifest, range) is Ok,
        faithful(files, planned(manifest, range)->Ok_0),
        before.reliable,
        never_refuses(verify),
        is_chain(chain),
        ready_for(before, range.start as int, chain),
        files_of_chain(files, chain),
    ensures
        done is Ok,
{
    let pairs = planned(manifest, range)->Ok_0;
    law_plan_is_a_run(manifest, range);
    lemma_run_files_hold_chain(pairs, range, files, chain);
    lemma_files_fill(before, range, files, ranges_of(pairs), files.len(), chain);
    law_read_of_welcome_files_succeeds(manifest, before, after, range, files, verify, done);
}

/// A read of a range that is not empty and starts at the latest checkpoint
/// of the archive succeeds under the same conditions, leaves that checkpoint
/// in the store, and changes nothing under any other number.
pub proof fn law_read_from_latest_takes_the_latest<
    V: Fn(VerifiedCheckpoint, CertifiedCheckpointSummary) -> bool,
>(
    manifest: ManifestView,
    before: StoreState,
    after: StoreState,
    range: SeqRange,
    files: Seq<Fetched>,
    verify: V,
    done: Result<(), ArchiveError>,
    chain: spec_fn(int) -> CertifiedCheckpointSummary,
)
    requires
        read_outcome(manifest, before, after, range, files, verify, done),
        planned(manifest, range) is Ok,
        range.start + 1 == manifest.next_checkpoint_seq_num,
        range.start < range.end,
        summary_files(manifest.files).last().checkpoint_seq_range.contains(range.start),
        summary_files(manifest.files).last().checkpoint_seq_range.end
            == manifest.next_checkpoint_seq_num,
        faithful(files, planned(manifest, range)->Ok_0),
        before.reliable,
        coherent(before.summaries),
        never_refuses(verify),
        is_chain(chain),
        ready_for(before, range.start as int, chain),
        files_of_chain(files, chain),
    ensures
        done is Ok,
        holds(after, range.start),
        forall|number: u64| number != range.start ==> #[trigger] same_at(before, after, number),
{
    law_read_of_a_chain_succeeds(manifest, before, after, range, files, verify, done, chain);
    law_read_stores_every_checkpoint(
        manifest,
        before,
        after,
        range,
        files,
        verify,
        done,
        range.start,
    );
    assert forall|number: u64| number != range.start implies #[trigger] same_at(
        before,
        after,
        number,
    ) by {
        law_read_from_latest_takes_one(
            manifest,
            before,
            after,
            range,
            files,
            verify,
            done,
            number,
        );
    }
}

} // verus!
