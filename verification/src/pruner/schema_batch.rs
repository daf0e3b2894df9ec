//! Write batches: the deletions and the records that one atomic write
//! commits together.

use crate::pruner::index::{NodeKey, StaleNodeIndex, Version};
use vstd::prelude::*;

verus! {

/// What a batch asks of a partition.
#[verifier::ext_equal]
pub struct BatchView {
    pub node_deletes: Seq<NodeKey>,
    pub index_deletes: Seq<StaleNodeIndex>,
    /// The progress record to write, if any.
    pub progress: Option<Version>,
    /// The target record to write, if any.
    pub target: Option<Version>,
}

impl BatchView {
    /// The batch deletes a node exactly when it deletes the stale index
    /// that announces it: the two lists run in step.
    pub open spec fn paired(self) -> bool {
        &&& self.node_deletes.len() == self.index_deletes.len()
        &&& forall|i: int|
            0 <= i < self.index_deletes.len() ==> self.node_deletes[i]
                == (#[trigger] self.index_deletes[i]).node_key
    }

    /// The batch that retires `indices` with their nodes and records `progress`.
    pub open spec fn retiring(indices: Seq<StaleNodeIndex>, progress: Option<Version>) -> BatchView {
        BatchView {
            node_deletes: crate::pruner::index::node_keys(indices),
            index_deletes: indices,
            progress,
            target: None,
        }
    }

    /// The batch that only records `target` as the target.
    pub open spec fn targeting(target: Version) -> BatchView {
        BatchView {
            node_deletes: Seq::empty(),
            index_deletes: Seq::empty(),
            progress: None,
            target: Some(target),
        }
    }
}

/// A batch under construction. Nothing reaches a partition before the
/// batch is written, and then all of it does.
pub struct SchemaBatch {
    node_deletes: Vec<NodeKey>,
    index_deletes: Vec<StaleNodeIndex>,
    progress: Option<Version>,
    target: Option<Version>,
}

impl View for SchemaBatch {
    type V = BatchView;

    closed spec fn view(&self) -> BatchView {
        BatchView {
            node_deletes: self.node_deletes@,
            index_deletes: self.index_deletes@,
            progress: self.progress,
            target: self.target,
        }
    }
}

impl SchemaBatch {
    pub fn new() -> (batch: SchemaBatch)
        ensures
            batch@ == (BatchView {
                node_deletes: Seq::empty(),
                index_deletes: Seq::empty(),
                progress: None,
                target: None,
            }),
    {
        SchemaBatch {
            node_deletes: Vec::new(),
            index_deletes: Vec::new(),
            progress: None,
            target: None,
        }
    }

    /// Asks for the tree node at `key` to be deleted.
    pub fn delete_node(&mut self, key: &NodeKey)
        ensures
            final(self)@ == (BatchView {
                node_deletes: old(self)@.node_deletes.push(*key),
                ..old(self)@
            }),
    {
        self.node_deletes.push(*key);
    }

    /// Asks for the stale index `index` to be deleted.
    pub fn delete_stale_index(&mut self, index: &StaleNodeIndex)
        ensures
            final(self)@ == (BatchView {
                index_deletes: old(self)@.index_deletes.push(*index),
                ..old(self)@
            }),
    {
        self.index_deletes.push(*index);
    }

    /// Asks for the partition's progress record to be set to `version`.
    pub fn put_progress(&mut self, version: Version)
        ensures
            final(self)@ == (BatchView { progress: Some(version), ..old(self)@ }),
    {
        self.progress = Some(version);
    }

    /// Asks for the partition's target record to be set to `version`.
    pub fn put_target(&mut self, version: Version)
        ensures
            final(self)@ == (BatchView { target: Some(version), ..old(self)@ }),
    {
        self.target = Some(version);
    }

    pub fn node_deletes(&self) -> (keys: &Vec<NodeKey>)
        ensures
            keys@ == self@.node_deletes,
    {
        &self.node_deletes
    }

    pub fn index_deletes(&self) -> (indices: &Vec<StaleNodeIndex>)
        ensures
            indices@ == self@.index_deletes,
    {
        &self.index_deletes
    }

    pub fn progress(&self) -> (progress: Option<Version>)
        ensures
            progress == self@.progress,
    {
        self.progress
    }

    pub fn target(&self) -> (target: Option<Version>)
        ensures
            target == self@.target,
    {
        self.target
    }
}

/// What the journal holds of one write: the partition it went to, the
/// metadata partition for `None`, and what the batch asked for.
#[verifier::ext_equal]
pub struct WrittenBatchView {
    pub shard_id: Option<u8>,
    pub batch: BatchView,
}

/// A batch that was written, with the partition that it was written to.
pub struct WrittenBatch {
    shard_id: Option<u8>,
    batch: SchemaBatch,
}

impl View for WrittenBatch {
    type V = WrittenBatchView;

    closed spec fn view(&self) -> WrittenBatchView {
        WrittenBatchView { shard_id: self.shard_id, batch: self.batch@ }
    }
}

impl WrittenBatch {
    pub(crate) fn new(shard_id: Option<u8>, batch: SchemaBatch) -> (written: WrittenBatch)
        ensures
            written@ == (WrittenBatchView { shard_id, batch: batch@ }),
    {
        WrittenBatch { shard_id, batch }
    }

    /// The shard that the batch was written to; `None` for the metadata
    /// partition.
    pub fn shard_id(&self) -> (shard_id: Option<u8>)
        ensures
            shard_id == self@.shard_id,
    {
        self.shard_id
    }

    /// The batch that was written.
    pub fn batch(&self) -> (batch: &SchemaBatch)
        ensures
            batch@ == self@.batch,
    {
        &self.batch
    }
}

/// Where the run of shard batches that begins at place `from` of a journal
/// ends: at the next batch of the metadata partition, or with the journal.
/// The batches of such a run belong to one round, and those of different
/// shards among them may be written in any order.
pub fn shard_batches_end(journal: &Vec<WrittenBatch>, from: usize) -> (end: usize)
    requires
        from <= journal.len(),
    ensures
        from <= end <= journal.len(),
        forall|k: int| from <= k < end ==> (#[trigger] journal[k])@.shard_id is Some,
        end < journal.len() ==> journal[end as int]@.shard_id is None,
{
    let mut end = from;
    while end < journal.len() && journal[end].shard_id().is_some()
        invariant
            from <= end <= journal.len(),
            forall|k: int| from <= k < end ==> (#[trigger] journal[k])@.shard_id is Some,
        decreases journal.len() - end,
    {
        end += 1;
    }
    end
}

} // verus!
