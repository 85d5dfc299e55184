//! The local store that verified checkpoints are written to.

use crate::checkpoint::{
    CheckpointSequenceNumber, VerifiedCheckpoint, VerifiedCheckpointContents,
};
use std::collections::HashMap;
use vstd::prelude::*;

verus! {

/// What a store holds: summaries and contents, each by sequence number; and
/// whether the store is one that carries out every operation.
#[verifier::ext_equal]
pub struct StoreState {
    pub summaries: Map<CheckpointSequenceNumber, VerifiedCheckpoint>,
    pub contents: Map<CheckpointSequenceNumber, VerifiedCheckpointContents>,
    pub reliable: bool,
}

/// The store did not carry out an operation.
#[derive(Clone, Copy, Debug, PartialEq, Eq, Structural)]
pub struct StoreFailure {
    pub code: u32,
}

/// What `insert_checkpoint_contents` leaves in the store: contents with the
/// digest that is already held under the number are not written again.
pub open spec fn contents_after_insert(
    before: Map<CheckpointSequenceNumber, VerifiedCheckpointContents>,
    number: CheckpointSequenceNumber,
    contents: VerifiedCheckpointContents,
) -> Map<CheckpointSequenceNumber, VerifiedCheckpointContents> {
    if before.contains_key(number) && before[number].contents.digest == contents.contents.digest {
        before
    } else {
        before.insert(number, contents)
    }
}

/// A sink for verified checkpoints that can be asked for a summary by its
/// sequence number. An operation that fails leaves the store as it was, and
/// a reliable store fails on none.
pub trait WriteStore {
    /// What the store holds.
    spec fn state(&self) -> StoreState;

    /// The summary that the store holds under `number`, if it holds one.
    fn get_checkpoint_by_sequence_number(&self, number: CheckpointSequenceNumber) -> (found:
        Result<Option<VerifiedCheckpoint>, StoreFailure>)
        ensures
            self.state().reliable ==> found is Ok,
            found matches Ok(held) ==> held == (if self.state().summaries.contains_key(number) {
                Some(self.state().summaries[number])
            } else {
                None
            }),
    ;

    /// Writes a summary under its sequence number.
    fn insert_checkpoint(&mut self, checkpoint: VerifiedCheckpoint) -> (done: Result<
        (),
        StoreFailure,
    >)
        ensures
            old(self).state().reliable ==> done is Ok,
            final(self).state().reliable == old(self).state().reliable,
            final(self).state().contents == old(self).state().contents,
            done is Ok ==> final(self).state().summaries == old(self).state().summaries.insert(
                checkpoint.summary.sequence_number,
                checkpoint,
            ),
            done is Err ==> final(self).state().summaries == old(self).state().summaries,
    ;

    /// Writes contents under the sequence number of `checkpoint`, unless
    /// contents with the same digest are held there.
    fn insert_checkpoint_contents(
        &mut self,
        checkpoint: &VerifiedCheckpoint,
        contents: VerifiedCheckpointContents,
    ) -> (done: Result<(), StoreFailure>)
        ensures
            old(self).state().reliable ==> done is Ok,
            final(self).state().reliable == old(self).state().reliable,
            final(self).state().summaries == old(self).state().summaries,
            done is Ok ==> final(self).state().contents == contents_after_insert(
                old(self).state().contents,
                checkpoint.summary.sequence_number,
                contents,
            ),
            done is Err ==> final(self).state().contents == old(self).state().contents,
    ;
}

/// A store that keeps everything in memory and never fails.
pub struct InMemoryStore {
    summaries: HashMap<u64, VerifiedCheckpoint>,
    contents: HashMap<u64, VerifiedCheckpointContents>,
}

impl InMemoryStore {
    /// A store that holds nothing.
    pub fn new() -> (store: InMemoryStore)
        ensures
            store.state().summaries == Map::<u64, VerifiedCheckpoint>::empty(),
            store.state().contents == Map::<u64, VerifiedCheckpointContents>::empty(),
            store.state().reliable,
    {
        InMemoryStore { summaries: HashMap::new(), contents: HashMap::new() }
    }

    /// The contents held under a sequence number.
    pub fn get_checkpoint_contents(&self, number: CheckpointSequenceNumber) -> (found: Option<
        VerifiedCheckpointContents,
    >)
        ensures
            found == (if self.state().contents.contains_key(number) {
                Some(self.state().contents[number])
            } else {
                None
            }),
    {
        broadcast use vstd::std_specs::hash::group_hash_axioms;

        match self.contents.get(&number) {
            Some(held) => Some(*held),
            None => None,
        }
    }

    /// How many summaries the store holds.
    pub fn checkpoint_count(&self) -> (count: usize)
        ensures
            count == self.state().summaries.len(),
    {
        broadcast use vstd::std_specs::hash::group_hash_axioms;

        self.summaries.len()
    }
}

impl WriteStore for InMemoryStore {
    closed spec fn state(&self) -> StoreState {
        StoreState { summaries: self.summaries@, contents: self.contents@, reliable: true }
    }

    fn get_checkpoint_by_sequence_number(&self, number: CheckpointSequenceNumber) -> (found:
        Result<Option<VerifiedCheckpoint>, StoreFailure>)
        ensures
            found is Ok,
    {
        broadcast use vstd::std_specs::hash::group_hash_axioms;

        match self.summaries.get(&number) {
            Some(held) => Ok(Some(*held)),
            None => Ok(None),
        }
    }

    fn insert_checkpoint(&mut self, checkpoint: VerifiedCheckpoint) -> (done: Result<
        (),
        StoreFailure,
    >)
        ensures
            done is Ok,
    {
        broadcast use vstd::std_specs::hash::group_hash_axioms;

        self.summaries.insert(checkpoint.sequence_number(), checkpoint);
        Ok(())
    }

    fn insert_checkpoint_contents(
        &mut self,
        checkpoint: &VerifiedCheckpoint,
        contents: VerifiedCheckpointContents,
    ) -> (done: Result<(), StoreFailure>)
        ensures
            done is Ok,
    {
        broadcast use vstd::std_specs::hash::group_hash_axioms;

        let number: u64 = checkpoint.sequence_number();
        let held: bool = match self.contents.get(&number) {
            Some(old_contents) => old_contents.inner().digest.same(&contents.inner().digest),
            None => false,
        };
        if !held {
            self.contents.insert(number, contents);
        }
        Ok(())
    }
}

} // verus!
