//! The choice of the files that hold a range of checkpoints.
//!
//! The files of a manifest are parted by type, each part is put in the order
//! of the first sequence number of its files, and the two parts are laid side
//! by side. Where they make one contiguous run of ranges from zero, the files
//! for a range of checkpoints are a window of that run.

use crate::error::ArchiveError;
use crate::manifest::{FileMetadata, FileType, Manifest, ManifestView, SeqRange};
use vstd::prelude::*;

verus! {

/// The first sequence number of a file.
pub open spec fn start_of(file: FileMetadata) -> int {
    file.checkpoint_seq_range.start as int
}

/// The files of one type, in the order of the manifest.
pub open spec fn of_type(files: Seq<FileMetadata>, file_type: FileType) -> Seq<FileMetadata> {
    files.filter(|file: FileMetadata| file.file_type == file_type)
}

/// `sorted` with `file` put behind the last file that does not start after it.
pub open spec fn inserted(sorted: Seq<FileMetadata>, file: FileMetadata) -> Seq<FileMetadata>
    decreases sorted.len(),
{
    if sorted.len() == 0 || start_of(sorted.last()) <= start_of(file) {
        sorted.push(file)
    } else {
        inserted(sorted.drop_last(), file).push(sorted.last())
    }
}

/// The files in the order of their first sequence number; files that start
/// at the same number keep the order they had.
pub open spec fn sorted_by_start(files: Seq<FileMetadata>) -> Seq<FileMetadata>
    decreases files.len(),
{
    if files.len() == 0 {
        files
    } else {
        inserted(sorted_by_start(files.drop_last()), files.last())
    }
}

/// Whether no file starts before a file that stands earlier.
pub open spec fn ordered(files: Seq<FileMetadata>) -> bool {
    forall|i: int, j: int|
        0 <= i <= j < files.len() ==> start_of(#[trigger] files[i]) <= start_of(
            #[trigger] files[j],
        )
}

/// Whether each file but the first starts where the file before it ends.
pub open spec fn contiguous(files: Seq<FileMetadata>) -> bool {
    forall|i: int, j: int|
        0 <= i && j == i + 1 && j < files.len() ==> (
        #[trigger] files[j]).checkpoint_seq_range.start == (
        #[trigger] files[i]).checkpoint_seq_range.end
}

/// The summary files of a manifest, ordered by their first sequence number.
pub open spec fn summary_files(files: Seq<FileMetadata>) -> Seq<FileMetadata> {
    sorted_by_start(of_type(files, FileType::CheckpointSummary))
}

/// The contents files of a manifest, ordered by their first sequence number.
pub open spec fn contents_files(files: Seq<FileMetadata>) -> Seq<FileMetadata> {
    sorted_by_start(of_type(files, FileType::CheckpointContent))
}

/// Whether the files of a manifest pair up into one contiguous run of ranges
/// that starts at zero: as many summary files as contents files, each kind
/// contiguous, the ranges of the two kinds the same, the first at zero.
pub open spec fn archive_consistent(files: Seq<FileMetadata>) -> bool {
    let summaries = summary_files(files);
    let contents = contents_files(files);
    &&& summaries.len() == contents.len()
    &&& contiguous(summaries)
    &&& contiguous(contents)
    &&& forall|i: int|
        0 <= i < summaries.len() ==> (#[trigger] summaries[i]).checkpoint_seq_range
            == contents[i].checkpoint_seq_range
    &&& summaries.len() > 0
    &&& summaries[0].checkpoint_seq_range.start == 0
}

/// The summary files and contents files of a manifest side by side.
pub open spec fn file_pairs(files: Seq<FileMetadata>) -> Seq<(FileMetadata, FileMetadata)> {
    let summaries = summary_files(files);
    let contents = contents_files(files);
    Seq::new(
        if summaries.len() <= contents.len() {
            summaries.len()
        } else {
            contents.len()
        },
        |i: int| (summaries[i], contents[i]),
    )
}

/// How many of the files start below `bound`.
pub open spec fn starting_below(files: Seq<FileMetadata>, bound: int) -> nat
    decreases files.len(),
{
    if files.len() == 0 {
        0
    } else {
        starting_below(files.drop_last(), bound) + if start_of(files.last()) < bound {
            1nat
        } else {
            0nat
        }
    }
}

/// The place in the run of pairs of the file that holds the start of `range`:
/// the last pair that does not start after it.
pub open spec fn start_index(files: Seq<FileMetadata>, range: SeqRange) -> int {
    starting_below(summary_files(files), range.start + 1) - 1
}

/// The place in the run of pairs of the first pair that starts at or after
/// the end of `range`.
pub open spec fn end_index(files: Seq<FileMetadata>, range: SeqRange) -> int {
    starting_below(summary_files(files), range.end as int) as int
}

/// The pairs of files to fetch for `range`: those from the pair that holds
/// the start of the range up to the first pair that starts at or after its
/// end.
pub open spec fn window(files: Seq<FileMetadata>, range: SeqRange) -> Seq<
    (FileMetadata, FileMetadata),
> {
    let first = start_index(files, range);
    let end = end_index(files, range);
    if 0 <= first < end <= file_pairs(files).len() {
        file_pairs(files).subrange(first, end)
    } else {
        Seq::empty()
    }
}

/// What planning a read of `range` comes to. A manifest without files is
/// not ready. Files that do not pair up are refused before anything else is
/// looked at. Files that pair up in a manifest that counts no checkpoint are
/// not ready either.
pub open spec fn planned(manifest: ManifestView, range: SeqRange) -> Result<
    Seq<(FileMetadata, FileMetadata)>,
    ArchiveError,
> {
    if manifest.files.len() == 0 {
        Err(ArchiveError::NotReady)
    } else if !archive_consistent(manifest.files) {
        Err(ArchiveError::ManifestInvariantViolated)
    } else if manifest.next_checkpoint_seq_num == 0 {
        Err(ArchiveError::NotReady)
    } else if range.start > manifest.next_checkpoint_seq_num - 1 {
        Err(
            ArchiveError::OutOfRange {
                latest: (manifest.next_checkpoint_seq_num - 1) as u64,
            },
        )
    } else {
        Ok(window(manifest.files, range))
    }
}

/// Putting `file` at `place` is what `inserted` does, where the files from
/// `place` on start after it and the file before `place` does not.
proof fn lemma_inserted_at(sorted: Seq<FileMetadata>, file: FileMetadata, place: int)
    requires
        0 <= place <= sorted.len(),
        forall|k: int| place <= k < sorted.len() ==> start_of(#[trigger] sorted[k]) > start_of(file),
        place > 0 ==> start_of(sorted[place - 1]) <= start_of(file),
    ensures
        inserted(sorted, file) == sorted.insert(place, file),
    decreases sorted.len() - place,
{
    if place == sorted.len() {
        assert(sorted.insert(place, file) =~= sorted.push(file));
    } else {
        assert(start_of(sorted[sorted.len() - 1]) > start_of(file));
        lemma_inserted_at(sorted.drop_last(), file, place);
        assert(sorted.drop_last().insert(place, file).push(sorted.last()) =~= sorted.insert(
            place,
            file,
        ));
    }
}

/// Where `inserted` puts a file into files that are in order.
proof fn lemma_insert_place(sorted: Seq<FileMetadata>, file: FileMetadata) -> (place: int)
    requires
        ordered(sorted),
    ensures
        0 <= place <= sorted.len(),
        inserted(sorted, file) == sorted.insert(place, file),
        forall|k: int| 0 <= k < place ==> start_of(#[trigger] sorted[k]) <= start_of(file),
        forall|k: int| place <= k < sorted.len() ==> start_of(#[trigger] sorted[k]) > start_of(file),
    decreases sorted.len(),
{
    if sorted.len() == 0 || start_of(sorted.last()) <= start_of(file) {
        assert(sorted.insert(sorted.len() as int, file) =~= sorted.push(file));
        assert forall|k: int| 0 <= k < sorted.len() implies start_of(#[trigger] sorted[k])
            <= start_of(file) by {
            assert(start_of(sorted[k]) <= start_of(sorted[sorted.len() - 1]));
        }
        sorted.len() as int
    } else {
        let shorter = sorted.drop_last();
        assert(ordered(shorter)) by {
            assert forall|i: int, j: int| 0 <= i <= j < shorter.len() implies start_of(
                #[trigger] shorter[i],
            ) <= start_of(#[trigger] shorter[j]) by {
                assert(shorter[i] == sorted[i] && shorter[j] == sorted[j]);
            }
        }
        let place = lemma_insert_place(shorter, file);
        assert(shorter.insert(place, file).push(sorted.last()) =~= sorted.insert(place, file));
        assert forall|k: int| 0 <= k < place implies start_of(#[trigger] sorted[k]) <= start_of(
            file,
        ) by {
            assert(sorted[k] == shorter[k]);
        }
        assert forall|k: int| place <= k < sorted.len() implies start_of(#[trigger] sorted[k])
            > start_of(file) by {
            if k < shorter.len() {
                assert(sorted[k] == shorter[k]);
            }
        }
        place
    }
}

/// The files that `sorted_by_start` gives are as many as it was given, and
/// they are in order.
pub proof fn lemma_sorted_by_start(files: Seq<FileMetadata>)
    ensures
        sorted_by_start(files).len() == files.len(),
        ordered(sorted_by_start(files)),
    decreases files.len(),
{
    if files.len() > 0 {
        lemma_sorted_by_start(files.drop_last());
        let sorted = sorted_by_start(files.drop_last());
        let file = files.last();
        let place = lemma_insert_place(sorted, file);
        let longer = sorted.insert(place, file);
        assert forall|i: int, j: int| 0 <= i <= j < longer.len() implies start_of(
            #[trigger] longer[i],
        ) <= start_of(#[trigger] longer[j]) by {
            if i < place {
                assert(longer[i] == sorted[i]);
            } else if i > place {
                assert(longer[i] == sorted[i - 1]);
            }
            if j < place {
                assert(longer[j] == sorted[j]);
            } else if j > place {
                assert(longer[j] == sorted[j - 1]);
            }
        }
    }
}

/// `inserted` adds the file and nothing else.
proof fn lemma_inserted_permutes(sorted: Seq<FileMetadata>, file: FileMetadata)
    ensures
        inserted(sorted, file).to_multiset() == sorted.to_multiset().insert(file),
    decreases sorted.len(),
{
    broadcast use vstd::seq_lib::to_multiset_build;

    if sorted.len() == 0 || start_of(sorted.last()) <= start_of(file) {
    } else {
        let shorter = sorted.drop_last();
        lemma_inserted_permutes(shorter, file);
        assert(sorted =~= shorter.push(sorted.last()));
        assert(shorter.to_multiset().insert(file).insert(sorted.last())
            =~= shorter.to_multiset().insert(sorted.last()).insert(file));
    }
}

/// The files that `sorted_by_start` gives are the files that it was given,
/// each as often as it was given.
pub proof fn lemma_sorted_by_start_permutes(files: Seq<FileMetadata>)
    ensures
        sorted_by_start(files).to_multiset() == files.to_multiset(),
    decreases files.len(),
{
    broadcast use vstd::seq_lib::to_multiset_build;

    if files.len() > 0 {
        lemma_sorted_by_start_permutes(files.drop_last());
        lemma_inserted_permutes(sorted_by_start(files.drop_last()), files.last());
        assert(files =~= files.drop_last().push(files.last()));
    }
}

/// Where the files below `place` start below `bound` and the others do not,
/// `place` files start below `bound`.
proof fn lemma_starting_below(files: Seq<FileMetadata>, bound: int, place: int)
    requires
        0 <= place <= files.len(),
        forall|k: int| 0 <= k < place ==> start_of(#[trigger] files[k]) < bound,
        forall|k: int| place <= k < files.len() ==> start_of(#[trigger] files[k]) >= bound,
    ensures
        starting_below(files, bound) == place,
    decreases files.len(),
{
    if files.len() > 0 {
        let shorter = files.drop_last();
        let last = files.len() - 1;
        assert(files.last() == files[last]);
        if place == files.len() {
            assert(start_of(files[last]) < bound);
            assert forall|k: int| 0 <= k < place - 1 implies start_of(#[trigger] shorter[k])
                < bound by {
                assert(shorter[k] == files[k]);
            }
            lemma_starting_below(shorter, bound, place - 1);
        } else {
            assert(start_of(files[last]) >= bound);
            assert forall|k: int| 0 <= k < place implies start_of(#[trigger] shorter[k])
                < bound by {
                assert(shorter[k] == files[k]);
            }
            assert forall|k: int| place <= k < shorter.len() implies start_of(
                #[trigger] shorter[k],
            ) >= bound by {
                assert(shorter[k] == files[k]);
            }
            lemma_starting_below(shorter, bound, place);
        }
    }
}

/// The files of one type, in the order in which `files` holds them.
pub fn files_of_type(files: &Vec<FileMetadata>, file_type: FileType) -> (chosen: Vec<
    FileMetadata,
>)
    ensures
        chosen@ == of_type(files@, file_type),
{
    let ghost wanted = |file: FileMetadata| file.file_type == file_type;
    let mut chosen: Vec<FileMetadata> = Vec::new();
    let mut i: usize = 0;
    proof {
        reveal(Seq::filter);
        assert(files@.take(0) =~= Seq::<FileMetadata>::empty());
    }
    while i < files.len()
        invariant
            i <= files.len(),
            wanted == (|file: FileMetadata| file.file_type == file_type),
            chosen@ == files@.take(i as int).filter(wanted),
        decreases files.len() - i,
    {
        let file = files[i];
        proof {
            assert(files@.take(i + 1) =~= files@.take(i as int).push(file));
            files@.take(i as int).lemma_filter_push(file, wanted);
        }
        if file.file_type == file_type {
            chosen.push(file);
        }
        i = i + 1;
    }
    assert(files@.take(files.len() as int) =~= files@);
    chosen
}

/// Puts files in the order of their first sequence number. Files that start
/// at the same number keep the order they had.
pub fn sort_by_start(files: &Vec<FileMetadata>) -> (sorted: Vec<FileMetadata>)
    ensures
        sorted@ == sorted_by_start(files@),
        sorted@.len() == files@.len(),
        ordered(sorted@),
{
    let mut sorted: Vec<FileMetadata> = Vec::new();
    let mut i: usize = 0;
    proof {
        assert(files@.take(0) =~= Seq::<FileMetadata>::empty());
    }
    while i < files.len()
        invariant
            i <= files.len(),
            sorted@ == sorted_by_start(files@.take(i as int)),
            sorted@.len() == i,
        decreases files.len() - i,
    {
        let file = files[i];
        let mut place: usize = sorted.len();
        while place > 0 && sorted[place - 1].checkpoint_seq_range.start
            > file.checkpoint_seq_range.start
            invariant
                place <= sorted.len(),
                forall|k: int|
                    place <= k < sorted.len() ==> start_of(#[trigger] sorted@[k]) > start_of(file),
            decreases place,
        {
            place = place - 1;
        }
        proof {
            lemma_inserted_at(sorted@, file, place as int);
            assert(files@.take(i + 1).drop_last() =~= files@.take(i as int));
            assert(files@.take(i + 1).last() == file);
        }
        sorted.insert(place, file);
        i = i + 1;
    }
    proof {
        assert(files@.take(files.len() as int) =~= files@);
        lemma_sorted_by_start(files@);
    }
    sorted
}

/// Whether each file but the first starts where the file before it ends.
pub fn is_contiguous(files: &Vec<FileMetadata>) -> (unbroken: bool)
    ensures
        unbroken == contiguous(files@),
{
    let mut i: usize = 1;
    while i < files.len()
        invariant
            1 <= i,
            forall|a: int, b: int|
                0 <= a && b == a + 1 && b < i && b < files.len() ==> (
                #[trigger] files@[b]).checkpoint_seq_range.start == (
                #[trigger] files@[a]).checkpoint_seq_range.end,
        decreases files.len() - i,
    {
        if files[i].checkpoint_seq_range.start != files[i - 1].checkpoint_seq_range.end {
            assert(files@[i as int].checkpoint_seq_range.start != files@[i
                - 1].checkpoint_seq_range.end);
            return false;
        }
        i = i + 1;
    }
    true
}

/// Whether two lists of files are of one length and cover the same ranges,
/// file by file.
pub fn same_ranges(summaries: &Vec<FileMetadata>, contents: &Vec<FileMetadata>) -> (same: bool)
    ensures
        same == (summaries@.len() == contents@.len() && forall|i: int|
            0 <= i < summaries@.len() ==> (#[trigger] summaries@[i]).checkpoint_seq_range
                == contents@[i].checkpoint_seq_range),
{
    if summaries.len() != contents.len() {
        return false;
    }
    let mut i: usize = 0;
    while i < summaries.len()
        invariant
            i <= summaries.len(),
            summaries@.len() == contents@.len(),
            forall|k: int|
                0 <= k < i ==> (#[trigger] summaries@[k]).checkpoint_seq_range
                    == contents@[k].checkpoint_seq_range,
        decreases summaries.len() - i,
    {
        if summaries[i].checkpoint_seq_range != contents[i].checkpoint_seq_range {
            assert(summaries@[i as int].checkpoint_seq_range
                != contents@[i as int].checkpoint_seq_range);
            return false;
        }
        i = i + 1;
    }
    true
}

/// How many of the files start below `bound`, where the files are in order;
/// found by halving.
pub fn count_starting_below(files: &Vec<FileMetadata>, bound: u64) -> (count: usize)
    ensures
        count <= files@.len(),
        ordered(files@) ==> count == starting_below(files@, bound as int),
        ordered(files@) ==> forall|k: int|
            0 <= k < count ==> start_of(#[trigger] files@[k]) < bound,
        ordered(files@) ==> forall|k: int|
            count <= k < files@.len() ==> start_of(#[trigger] files@[k]) >= bound,
{
    let mut low: usize = 0;
    let mut high: usize = files.len();
    while low < high
        invariant
            low <= high <= files.len(),
            ordered(files@) ==> forall|k: int|
                0 <= k < low ==> start_of(#[trigger] files@[k]) < bound,
            ordered(files@) ==> forall|k: int|
                high <= k < files.len() ==> start_of(#[trigger] files@[k]) >= bound,
        decreases high - low,
    {
        let middle: usize = low + (high - low) / 2;
        if files[middle].checkpoint_seq_range.start < bound {
            proof {
                if ordered(files@) {
                    assert forall|k: int| 0 <= k < middle + 1 implies start_of(
                        #[trigger] files@[k],
                    ) < bound by {
                        assert(start_of(files@[k]) <= start_of(files@[middle as int]));
                    }
                }
            }
            low = middle + 1;
        } else {
            proof {
                if ordered(files@) {
                    assert forall|k: int| middle <= k < files.len() implies start_of(
                        #[trigger] files@[k],
                    ) >= bound by {
                        assert(start_of(files@[middle as int]) <= start_of(files@[k]));
                    }
                }
            }
            high = middle;
        }
    }
    proof {
        if ordered(files@) {
            lemma_starting_below(files@, bound as int, low as int);
        }
    }
    low
}

/// Chooses the pairs of files to fetch for `range`.
///
/// Fails with `NotReady` on a manifest without files, with
/// `ManifestInvariantViolated` where the files do not pair up into one
/// contiguous run from zero, with `NotReady` where they do and the manifest
/// counts no checkpoint, and with `OutOfRange` where the range starts behind
/// the latest checkpoint of the manifest.
pub fn plan_read(manifest: &Manifest, range: SeqRange) -> (plan: Result<
    Vec<(FileMetadata, FileMetadata)>,
    ArchiveError,
>)
    ensures
        match plan {
            Ok(pairs) => planned(manifest@, range) == Ok::<
                Seq<(FileMetadata, FileMetadata)>,
                ArchiveError,
            >(pairs@),
            Err(error) => planned(manifest@, range) == Err::<
                Seq<(FileMetadata, FileMetadata)>,
                ArchiveError,
            >(error),
        },
{
    let files = manifest.files();
    let next: u64 = manifest.next_checkpoint_seq_num();
    if files.len() == 0 {
        return Err(ArchiveError::NotReady);
    }
    let summaries = sort_by_start(&files_of_type(&files, FileType::CheckpointSummary));
    let contents = sort_by_start(&files_of_type(&files, FileType::CheckpointContent));
    if summaries.len() == 0 || !is_contiguous(&summaries) || !is_contiguous(&contents)
        || !same_ranges(&summaries, &contents) || summaries[0].checkpoint_seq_range.start != 0 {
        return Err(ArchiveError::ManifestInvariantViolated);
    }
    if next == 0 {
        return Err(ArchiveError::NotReady);
    }
    let latest: u64 = next - 1;
    if range.start > latest {
        return Err(ArchiveError::OutOfRange { latest });
    }
    let through: usize = count_starting_below(&summaries, range.start + 1);
    assert(through > 0) by {
        assert(start_of(summaries@[0]) < range.start + 1);
    }
    let first: usize = through - 1;
    let end: usize = count_starting_below(&summaries, range.end);
    let mut pairs: Vec<(FileMetadata, FileMetadata)> = Vec::new();
    let mut i: usize = first;
    while i < end
        invariant
            first <= i,
            first < end ==> i <= end,
            end <= summaries@.len(),
            summaries@.len() == contents@.len(),
            summaries@ == summary_files(files@),
            contents@ == contents_files(files@),
            first < end ==> pairs@ == file_pairs(files@).subrange(first as int, i as int),
            first >= end ==> pairs@ == Seq::<(FileMetadata, FileMetadata)>::empty(),
        decreases end - i,
    {
        pairs.push((summaries[i], contents[i]));
        assert(file_pairs(files@).subrange(first as int, i + 1) =~= file_pairs(files@).subrange(
            first as int,
            i as int,
        ).push((summaries@[i as int], contents@[i as int])));
        i = i + 1;
    }
    assert(pairs@ =~= window(files@, range));
    Ok(pairs)
}

} // verus!
