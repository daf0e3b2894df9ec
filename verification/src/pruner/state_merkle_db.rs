//! The forest's storage: a metadata partition, the shard partitions, and
//! the record of every state that was ever committed to them.

use crate::pruner::index::{NodeKey, StaleNodeIndex, Version};
use crate::pruner::partition::{lemma_commit_wf, lemma_filter_membership, Partition, PartitionState};
use crate::pruner::schema_batch::{BatchView, SchemaBatch, WrittenBatch, WrittenBatchView};
use vstd::prelude::*;

verus! {

/// What the forest's storage durably holds.
#[verifier::ext_equal]
pub struct DbState {
    pub metadata: PartitionState,
    pub shards: Seq<PartitionState>,
}

/// Some stale index of `opened` announces the node at `key`.
pub open spec fn announced_stale(opened: PartitionState, key: NodeKey) -> bool {
    exists|index: StaleNodeIndex| #[trigger]
        opened.stale_node_indices.contains(index) && index.node_key == key
}

/// Nothing came into the partition since it was opened.
pub open spec fn only_shrunk(opened: PartitionState, now: PartitionState) -> bool {
    &&& forall|index: StaleNodeIndex| #[trigger]
        now.stale_node_indices.contains(index) ==> opened.stale_node_indices.contains(index)
    &&& forall|key: NodeKey| #[trigger] now.nodes.contains(key) ==> opened.nodes.contains(key)
}

/// Each stale index of `opened` is either still there together with its
/// node, or gone together with its node.
pub open spec fn atomically_paired(opened: PartitionState, now: PartitionState) -> bool {
    forall|index: StaleNodeIndex| #[trigger]
        opened.stale_node_indices.contains(index) ==> (now.stale_node_indices.contains(index)
            <==> now.nodes.contains(index.node_key))
}

/// No node that a stale index of `opened` announces is gone while the
/// index's version exceeds the durable progress.
pub open spec fn no_premature_deletion(
    opened: PartitionState,
    now: PartitionState,
    durable: Version,
) -> bool {
    forall|index: StaleNodeIndex| #[trigger]
        opened.stale_node_indices.contains(index) && !now.nodes.contains(index.node_key)
            ==> index.stale_since_version <= durable
}

/// Every node that is gone had been announced stale.
pub open spec fn only_stale_deleted(opened: PartitionState, now: PartitionState) -> bool {
    forall|key: NodeKey| #[trigger]
        opened.nodes.contains(key) && !now.nodes.contains(key) ==> announced_stale(opened, key)
}

/// What holds of a partition at every committed state, relative to the
/// state it was opened in.
pub open spec fn partition_safe(
    opened: PartitionState,
    now: PartitionState,
    durable: Version,
) -> bool {
    &&& only_shrunk(opened, now)
    &&& atomically_paired(opened, now)
    &&& no_premature_deletion(opened, now, durable)
    &&& only_stale_deleted(opened, now)
}

impl DbState {
    /// The last durably recorded progress: the metadata partition's
    /// progress record, 0 while unset.
    pub open spec fn durable_progress(self) -> Version {
        match self.metadata.progress {
            Some(version) => version,
            None => 0,
        }
    }

    /// The last durably recorded target: the metadata partition's target
    /// record.
    pub open spec fn durable_target(self) -> Option<Version> {
        self.metadata.target
    }

    pub open spec fn has_partition(self, shard_id: Option<u8>) -> bool {
        match shard_id {
            None => true,
            Some(id) => id < self.shards.len(),
        }
    }

    /// The metadata partition for `None`, else the shard of that id.
    pub open spec fn partition(self, shard_id: Option<u8>) -> PartitionState {
        match shard_id {
            None => self.metadata,
            Some(id) => self.shards[id as int],
        }
    }

    pub open spec fn wf(self) -> bool {
        &&& self.metadata.wf()
        &&& forall|i: int| 0 <= i < self.shards.len() ==> (#[trigger] self.shards[i]).wf()
    }

    /// The state after `batch` is written to one partition.
    pub open spec fn commit(self, shard_id: Option<u8>, batch: BatchView) -> DbState {
        match shard_id {
            None => DbState { metadata: self.metadata.commit(batch), shards: self.shards },
            Some(id) => DbState {
                metadata: self.metadata,
                shards: self.shards.update(id as int, self.shards[id as int].commit(batch)),
            },
        }
    }

    /// The durable progress once `batch` is written to the partition.
    pub open spec fn progress_after(self, shard_id: Option<u8>, batch: BatchView) -> Version {
        match (shard_id, batch.progress) {
            (None, Some(version)) => version,
            _ => self.durable_progress(),
        }
    }

    /// The writes that storage accepts: a batch retires present stale
    /// indices with their nodes, none of a version beyond the durable
    /// progress that holds once the batch is written, and the durable
    /// progress does not move back.
    pub open spec fn permits(self, shard_id: Option<u8>, batch: BatchView) -> bool {
        &&& self.has_partition(shard_id)
        &&& self.partition(shard_id).admits(batch)
        &&& self.durable_progress() <= self.progress_after(shard_id, batch)
        &&& forall|i: int|
            0 <= i < batch.index_deletes.len() ==> (
            #[trigger] batch.index_deletes[i]).stale_since_version <= self.progress_after(
                shard_id,
                batch,
            )
    }

    /// What holds of every committed state, relative to the state in
    /// which storage was opened.
    pub open spec fn safe_since(self, opened: DbState) -> bool {
        &&& self.shards.len() == opened.shards.len()
        &&& self.wf()
        &&& partition_safe(opened.metadata, self.metadata, self.durable_progress())
        &&& forall|i: int|
            0 <= i < self.shards.len() ==> partition_safe(
                opened.shards[i],
                #[trigger] self.shards[i],
                self.durable_progress(),
            )
    }
}

/// A well-formed partition is safe relative to itself.
pub proof fn lemma_partition_safe_initially(state: PartitionState, durable: Version)
    requires
        state.wf(),
    ensures
        partition_safe(state, state, durable),
{
}

/// Safety relative to a durable progress holds relative to any later one.
pub proof fn lemma_partition_safe_later(
    opened: PartitionState,
    now: PartitionState,
    durable: Version,
    later: Version,
)
    requires
        partition_safe(opened, now, durable),
        durable <= later,
    ensures
        partition_safe(opened, now, later),
{
}

/// Writing an admitted batch, none of whose stale indices is of a version
/// beyond the durable progress that then holds, keeps a partition safe.
pub proof fn lemma_partition_commit_safe(
    opened: PartitionState,
    now: PartitionState,
    batch: BatchView,
    durable: Version,
    later: Version,
)
    requires
        partition_safe(opened, now, durable),
        now.wf(),
        now.admits(batch),
        durable <= later,
        forall|i: int|
            0 <= i < batch.index_deletes.len() ==> (
            #[trigger] batch.index_deletes[i]).stale_since_version <= later,
    ensures
        partition_safe(opened, now.commit(batch), later),
        now.commit(batch).wf(),
{
    let after = now.commit(batch);
    let keep = |index: StaleNodeIndex| !batch.index_deletes.contains(index);
    lemma_commit_wf(now, batch);
    assert(only_shrunk(opened, after)) by {
        assert forall|index: StaleNodeIndex| #[trigger]
            after.stale_node_indices.contains(index) implies opened.stale_node_indices.contains(
            index,
        ) by {
            lemma_filter_membership(now.stale_node_indices, keep, index);
        }
    }
    // A node that the batch deletes belongs to a stale index that the batch deletes.
    assert forall|index: StaleNodeIndex|
        now.stale_node_indices.contains(index) && batch.node_deletes.contains(
            index.node_key,
        ) implies #[trigger] batch.index_deletes.contains(index) && index.stale_since_version
        <= later by {
        let i = choose|i: int|
            0 <= i < batch.node_deletes.len() && batch.node_deletes[i] == index.node_key;
        let other = batch.index_deletes[i];
        assert(now.stale_node_indices.contains(other));
        assert(other == index);
    }
    assert(atomically_paired(opened, after)) by {
        assert forall|index: StaleNodeIndex| #[trigger]
            opened.stale_node_indices.contains(index) implies (after.stale_node_indices.contains(
            index,
        ) <==> after.nodes.contains(index.node_key)) by {
            lemma_filter_membership(now.stale_node_indices, keep, index);
            if now.stale_node_indices.contains(index) {
                if batch.index_deletes.contains(index) {
                    let i = choose|i: int|
                        0 <= i < batch.index_deletes.len() && batch.index_deletes[i] == index;
                    assert(batch.node_deletes[i] == index.node_key);
                    assert(batch.node_deletes.contains(index.node_key));
                } else {
                    assert(!batch.node_deletes.contains(index.node_key)) by {
                        if batch.node_deletes.contains(index.node_key) {
                            assert(batch.index_deletes.contains(index));
                        }
                    }
                }
            }
        }
    }
    assert(no_premature_deletion(opened, after, later)) by {
        assert forall|index: StaleNodeIndex| #[trigger]
            opened.stale_node_indices.contains(index) && !after.nodes.contains(
                index.node_key,
            ) implies index.stale_since_version <= later by {
            if now.nodes.contains(index.node_key) {
                assert(now.stale_node_indices.contains(index));
                assert(batch.node_deletes.contains(index.node_key));
                assert(batch.index_deletes.contains(index));
            }
        }
    }
    assert(only_stale_deleted(opened, after)) by {
        assert forall|key: NodeKey| #[trigger]
            opened.nodes.contains(key) && !after.nodes.contains(key) implies announced_stale(
            opened,
            key,
        ) by {
            if now.nodes.contains(key) {
                let i = choose|i: int|
                    0 <= i < batch.node_deletes.len() && batch.node_deletes[i] == key;
                let index = batch.index_deletes[i];
                assert(now.stale_node_indices.contains(index));
                assert(opened.stale_node_indices.contains(index));
            }
        }
    }
}

/// Writing a permitted batch keeps storage safe and does not move the
/// durable progress back.
pub proof fn lemma_commit_safe(
    opened: DbState,
    now: DbState,
    shard_id: Option<u8>,
    batch: BatchView,
)
    requires
        now.safe_since(opened),
        now.permits(shard_id, batch),
    ensures
        now.commit(shard_id, batch).safe_since(opened),
        now.commit(shard_id, batch).durable_progress() == now.progress_after(shard_id, batch),
        now.durable_progress() <= now.commit(shard_id, batch).durable_progress(),
{
    let after = now.commit(shard_id, batch);
    let durable = now.durable_progress();
    let later = now.progress_after(shard_id, batch);
    match shard_id {
        None => {
            lemma_partition_commit_safe(opened.metadata, now.metadata, batch, durable, later);
            assert forall|i: int| 0 <= i < after.shards.len() implies partition_safe(
                opened.shards[i],
                #[trigger] after.shards[i],
                after.durable_progress(),
            ) by {
                lemma_partition_safe_later(opened.shards[i], now.shards[i], durable, later);
            }
        },
        Some(id) => {
            lemma_partition_commit_safe(
                opened.shards[id as int],
                now.shards[id as int],
                batch,
                durable,
                later,
            );
            assert forall|i: int| 0 <= i < after.shards.len() implies partition_safe(
                opened.shards[i],
                #[trigger] after.shards[i],
                after.durable_progress(),
            ) && after.shards[i].wf() by {
                if i != id as int {
                    assert(after.shards[i] == now.shards[i]);
                }
            }
        },
    }
}

/// Each batch of the journal took storage from one state of the log to the
/// next, and the last of them to the last state.
pub open spec fn journal_replays(log: Seq<DbState>, journal: Seq<WrittenBatchView>) -> bool {
    &&& journal.len() < log.len()
    &&& forall|k: int|
        0 <= k < journal.len() ==> log[log.len() - journal.len() + k] == log[log.len()
            - journal.len() + k - 1].commit((#[trigger] journal[k]).shard_id, journal[k].batch)
}

/// What a write of a pruning run over the versions
/// `start_version..=target_version` is like: it deletes only stale indices
/// of these versions, each with its node; a progress that it records is
/// within the target; it records no target; and where it goes to a shard,
/// it deletes at most `batch_size` stale indices.
pub open spec fn is_pruning_write(
    entry: WrittenBatchView,
    start_version: Version,
    target_version: Version,
    batch_size: usize,
) -> bool {
    &&& entry.batch.paired()
    &&& entry.batch.target is None
    &&& forall|i: int|
        0 <= i < entry.batch.index_deletes.len() ==> start_version <= (
        #[trigger] entry.batch.index_deletes[i]).stale_since_version <= target_version
    &&& entry.batch.progress matches Some(version) ==> version <= target_version
    &&& entry.shard_id is Some ==> entry.batch.index_deletes.len() <= batch_size
}

/// From place `from` on, every batch of the journal is a write of a
/// pruning run over `start_version..=target_version`.
pub open spec fn pruning_writes(
    journal: Seq<WrittenBatchView>,
    from: int,
    start_version: Version,
    target_version: Version,
    batch_size: usize,
) -> bool {
    forall|k: int|
        from <= k < journal.len() ==> is_pruning_write(
            #[trigger] journal[k],
            start_version,
            target_version,
            batch_size,
        )
}

/// From place `from` on, every batch of the journal went to the shard
/// `shard_id`.
pub open spec fn written_to_shard(journal: Seq<WrittenBatchView>, from: int, shard_id: u8) -> bool {
    forall|k: int| from <= k < journal.len() ==> (#[trigger] journal[k]).shard_id == Some(shard_id)
}

/// A journal that holds pruning writes from some place up to its end, and
/// whose continuation holds them from there on, holds them throughout. The
/// run of the continuation may be over fewer versions.
pub proof fn lemma_pruning_writes_extend(
    earlier: Seq<WrittenBatchView>,
    later: Seq<WrittenBatchView>,
    from: int,
    start_version: Version,
    target_version: Version,
    batch_size: usize,
    later_start: Version,
    later_target: Version,
)
    requires
        0 <= from,
        earlier.is_prefix_of(later),
        start_version <= later_start,
        later_target <= target_version,
        pruning_writes(earlier, from, start_version, target_version, batch_size),
        pruning_writes(later, earlier.len() as int, later_start, later_target, batch_size),
    ensures
        pruning_writes(later, from, start_version, target_version, batch_size),
{
    assert forall|k: int| from <= k < later.len() implies is_pruning_write(
        #[trigger] later[k],
        start_version,
        target_version,
        batch_size,
    ) by {
        if k < earlier.len() {
            assert(later[k] == earlier[k]);
        } else {
            assert(is_pruning_write(later[k], later_start, later_target, batch_size));
        }
    }
}

/// A journal whose batches went to one shard from some place up to its
/// end, and whose continuation went there, holds only that shard's batches
/// from that place on.
pub proof fn lemma_written_to_shard_extend(
    earlier: Seq<WrittenBatchView>,
    later: Seq<WrittenBatchView>,
    from: int,
    shard_id: u8,
)
    requires
        0 <= from,
        earlier.is_prefix_of(later),
        written_to_shard(earlier, from, shard_id),
        written_to_shard(later, earlier.len() as int, shard_id),
    ensures
        written_to_shard(later, from, shard_id),
{
    assert forall|k: int| from <= k < later.len() implies (#[trigger] later[k]).shard_id == Some(
        shard_id,
    ) by {
        if k < earlier.len() {
            assert(later[k] == earlier[k]);
        }
    }
}

/// The forest's storage, held in memory. Each write is one atomic step.
/// Storage keeps a journal of the batches written since the journal was
/// last taken, for whoever brings them to disk, and remembers every state
/// it has been in since it was opened.
pub struct StateMerkleDb {
    metadata_db: Partition,
    shards: Vec<Partition>,
    journal: Vec<WrittenBatch>,
    log: Ghost<Seq<DbState>>,
}

impl View for StateMerkleDb {
    type V = DbState;

    closed spec fn view(&self) -> DbState {
        DbState { metadata: self.metadata_db@, shards: self.shards@.map_values(|p: Partition| p@) }
    }
}

impl StateMerkleDb {
    /// The states that storage has been in, oldest first: the state it was
    /// opened in, then the state after each write. A crash leaves storage
    /// in one of them.
    pub closed spec fn log(&self) -> Seq<DbState> {
        self.log@
    }

    /// The batches that were written since the journal was last taken, in
    /// the order in which they were written.
    pub closed spec fn journal(&self) -> Seq<WrittenBatchView> {
        self.journal@.map_values(|written: WrittenBatch| written@)
    }

    /// Where in the log the journal was last taken: the journal leads from
    /// that state to the present one.
    pub open spec fn taken_at(&self) -> int {
        self.log().len() - 1 - self.journal().len()
    }

    /// Storage went on from `earlier`: the log of then begins the log of
    /// now, and the journal was not taken in between.
    pub open spec fn continues(&self, earlier: StateMerkleDb) -> bool {
        &&& earlier.log().is_prefix_of(self.log())
        &&& earlier.journal().is_prefix_of(self.journal())
        &&& self.taken_at() == earlier.taken_at()
    }

    /// Storage is well formed when the log ends in the present state, the
    /// journal replays the end of the log, every state of the log is safe
    /// relative to the first, and the durable progress never moved back.
    pub open spec fn wf(&self) -> bool {
        &&& self@.shards.len() <= u8::MAX
        &&& self.log().len() > 0
        &&& self.log().last() == self@
        &&& journal_replays(self.log(), self.journal())
        &&& forall|k: int|
            0 <= k < self.journal().len() ==> (#[trigger] self.journal()[k]).batch.paired()
        &&& forall|k: int|
            0 <= k < self.log().len() ==> (#[trigger] self.log()[k]).safe_since(self.log()[0])
        &&& forall|j: int, k: int|
            0 <= j <= k < self.log().len() ==> (#[trigger] self.log()[j]).durable_progress() <= (
            #[trigger] self.log()[k]).durable_progress()
    }

    /// Opens storage over a metadata partition and as many shard
    /// partitions as sharding uses, none where it is disabled. A shard is
    /// named by a `u8`, so more than 255 shards are refused.
    pub fn new(metadata_db: Partition, shards: Vec<Partition>) -> (r: Option<StateMerkleDb>)
        requires
            metadata_db.wf(),
            forall|i: int| 0 <= i < shards.len() ==> (#[trigger] shards[i]).wf(),
        ensures
            r is Some <==> shards.len() <= u8::MAX,
            r matches Some(db) ==> {
                &&& db.wf()
                &&& db@ == (DbState {
                    metadata: metadata_db@,
                    shards: shards@.map_values(|p: Partition| p@),
                })
                &&& db.log() == seq![db@]
                &&& db.journal() == Seq::<WrittenBatchView>::empty()
            },
    {
        if shards.len() > u8::MAX as usize {
            return None;
        }
        let ghost state = DbState {
            metadata: metadata_db@,
            shards: shards@.map_values(|p: Partition| p@),
        };
        let ghost log = seq![state];
        proof {
            lemma_partition_safe_initially(state.metadata, state.durable_progress());
            assert forall|i: int| 0 <= i < state.shards.len() implies partition_safe(
                state.shards[i],
                #[trigger] state.shards[i],
                state.durable_progress(),
            ) && state.shards[i].wf() by {
                assert(shards[i].wf());
                lemma_partition_safe_initially(state.shards[i], state.durable_progress());
            }
        }
        Some(StateMerkleDb { metadata_db, shards, journal: Vec::new(), log: Ghost(log) })
    }

    /// The metadata stream, held in memory, has at most `usize::MAX`
    /// entries.
    pub proof fn lemma_metadata_stream_fits(&self)
        ensures
            self@.metadata.stale_node_indices.len() <= usize::MAX,
    {
        self.metadata_db.lemma_stream_fits();
    }

    /// The metadata partition.
    pub fn metadata_db(&self) -> (partition: &Partition)
        ensures
            partition@ == self@.metadata,
    {
        &self.metadata_db
    }

    /// Whether the forest is sharded.
    pub fn sharding_enabled(&self) -> (enabled: bool)
        ensures
            enabled == (self@.shards.len() > 0),
    {
        self.shards.len() > 0
    }

    /// Number of shard partitions.
    pub fn num_shards(&self) -> (n: u8)
        requires
            self.wf(),
        ensures
            n == self@.shards.len(),
    {
        self.shards.len() as u8
    }

    /// The partition of shard `shard_id`.
    pub fn db_shard(&self, shard_id: u8) -> (partition: &Partition)
        requires
            shard_id < self@.shards.len(),
        ensures
            partition@ == self@.shards[shard_id as int],
    {
        &self.shards[shard_id as usize]
    }

    /// The last durably recorded progress.
    pub fn durable_progress(&self) -> (version: Version)
        ensures
            version == self@.durable_progress(),
    {
        match self.metadata_db.progress() {
            Some(version) => version,
            None => 0,
        }
    }

    /// The last durably recorded target, if there is one.
    pub fn durable_target(&self) -> (version: Option<Version>)
        ensures
            version == self@.durable_target(),
    {
        self.metadata_db.target()
    }

    /// Writes `batch` to the metadata partition, or to a shard, in one
    /// atomic step.
    pub(crate) fn write_schemas(&mut self, shard_id: Option<u8>, batch: SchemaBatch)
        requires
            old(self).wf(),
            old(self)@.permits(shard_id, batch@),
        ensures
            final(self).wf(),
            final(self)@ == old(self)@.commit(shard_id, batch@),
            final(self).log() == old(self).log().push(final(self)@),
            final(self).journal() == old(self).journal().push(
                (WrittenBatchView { shard_id, batch: batch@ }),
            ),
            final(self).continues(*old(self)),
    {
        match shard_id {
            None => {
                self.metadata_db.write_schemas(&batch);
            },
            Some(id) => {
                let shard = &mut self.shards[id as usize];
                shard.write_schemas(&batch);
            },
        }
        let ghost entry = WrittenBatchView { shard_id, batch: batch@ };
        self.journal.push(WrittenBatch::new(shard_id, batch));
        proof {
            let journal = old(self).journal();
            assert(self.journal() =~= journal.push(entry));
        }
        proof {
            let before = old(self)@;
            let after = before.commit(shard_id, batch@);
            assert(self@ == after);
            let log = old(self).log();
            assert(log[log.len() - 1] == before);
            lemma_commit_safe(log[0], before, shard_id, batch@);
            self.log@ = log.push(after);
            let extended = log.push(after);
            assert forall|k: int| 0 <= k < extended.len() implies (#[trigger] extended[k]).safe_since(
                extended[0],
            ) by {
                if k < log.len() {
                    assert(extended[k] == log[k]);
                }
            }
            assert forall|j: int, k: int| 0 <= j <= k < extended.len() implies (
            #[trigger] extended[j]).durable_progress() <= (#[trigger] extended[k]).durable_progress() by {
                if k < log.len() {
                    assert(extended[j] == log[j] && extended[k] == log[k]);
                } else if j < log.len() {
                    assert(extended[j] == log[j]);
                    assert(log[j].durable_progress() <= log[log.len() - 1].durable_progress());
                }
            }
            let journal = old(self).journal();
            let written = journal.push(entry);
            assert forall|k: int| 0 <= k < written.len() implies extended[extended.len()
                - written.len() + k] == extended[extended.len() - written.len() + k - 1].commit(
                (#[trigger] written[k]).shard_id,
                written[k].batch,
            ) by {
                if k < journal.len() {
                    assert(written[k] == journal[k]);
                    assert(extended[log.len() - journal.len() + k] == log[log.len()
                        - journal.len() + k]);
                    assert(extended[log.len() - journal.len() + k - 1] == log[log.len()
                        - journal.len() + k - 1]);
                }
            }
        }
    }

    /// Hands out the journal and starts a new one. Written to disk in
    /// their order, one atomic write each, the batches take the disk
    /// through the states of the log, from the one in which the journal was
    /// last taken to the present one.
    pub fn take_journal(&mut self) -> (written: Vec<WrittenBatch>)
        requires
            old(self).wf(),
        ensures
            final(self).wf(),
            final(self)@ == old(self)@,
            final(self).log() == old(self).log(),
            final(self).journal() == Seq::<WrittenBatchView>::empty(),
            written@.map_values(|entry: WrittenBatch| entry@) == old(self).journal(),
    {
        let mut written: Vec<WrittenBatch> = Vec::new();
        std::mem::swap(&mut self.journal, &mut written);
        proof {
            assert(self.journal() =~= Seq::<WrittenBatchView>::empty());
        }
        written
    }
}

/// Writes to different shards do not get in each other's way: each is
/// permitted after the other as it was before, and both orders lead to the
/// same state.
pub proof fn lemma_shard_writes_commute(
    state: DbState,
    one: u8,
    batch: BatchView,
    other: u8,
    other_batch: BatchView,
)
    requires
        one != other,
        state.permits(Some(one), batch),
        state.permits(Some(other), other_batch),
    ensures
        state.commit(Some(other), other_batch).permits(Some(one), batch),
        state.commit(Some(one), batch).permits(Some(other), other_batch),
        state.commit(Some(one), batch).commit(Some(other), other_batch) == state.commit(
            Some(other),
            other_batch,
        ).commit(Some(one), batch),
{
    let first = state.commit(Some(one), batch);
    let second = state.commit(Some(other), other_batch);
    assert(first.shards[other as int] == state.shards[other as int]);
    assert(second.shards[one as int] == state.shards[one as int]);
    assert(first.commit(Some(other), other_batch).shards =~= second.commit(
        Some(one),
        batch,
    ).shards);
}

/// The state that the batches of `journal`, written in their order, make
/// of `state`.
pub open spec fn replayed(state: DbState, journal: Seq<WrittenBatchView>) -> DbState
    decreases journal.len(),
{
    if journal.len() == 0 {
        state
    } else {
        replayed(state, journal.drop_last()).commit(
            journal.last().shard_id,
            journal.last().batch,
        )
    }
}

/// Replaying the journal: written in their order to the state in which
/// the journal was last taken, its first `n` batches give the state that
/// the log holds `n` places on. So a replay that is cut short leaves one of
/// the states of the log, and the whole replay the present state.
pub proof fn lemma_journal_replays(db: StateMerkleDb, n: int)
    requires
        db.wf(),
        0 <= n <= db.journal().len(),
    ensures
        replayed(db.log()[db.taken_at()], db.journal().take(n)) == db.log()[db.taken_at() + n],
        n == db.journal().len() ==> replayed(db.log()[db.taken_at()], db.journal()) == db@,
    decreases n,
{
    let journal = db.journal();
    if n > 0 {
        lemma_journal_replays(db, n - 1);
        assert(journal.take(n).drop_last() == journal.take(n - 1));
        assert(journal.take(n).last() == journal[n - 1]);
        assert(db.log()[db.log().len() - journal.len() + (n - 1)] == db.log()[db.log().len()
            - journal.len() + (n - 1) - 1].commit(journal[n - 1].shard_id, journal[n - 1].batch));
    }
    if n == journal.len() {
        assert(journal.take(n) == journal);
    }
}

/// What was written since leads from then to now: where storage went on
/// from `earlier`, the batches that the journal has gained, written in their
/// order to the state of then, give the present state; and each beginning
/// of them gives a state of the log.
pub proof fn lemma_continuation_replays(earlier: StateMerkleDb, later: StateMerkleDb, n: int)
    requires
        earlier.wf(),
        later.wf(),
        later.continues(earlier),
        0 <= n <= later.journal().len() - earlier.journal().len(),
    ensures
        replayed(
            earlier@,
            later.journal().subrange(
                earlier.journal().len() as int,
                earlier.journal().len() + n,
            ),
        ) == later.log()[earlier.log().len() - 1 + n],
        n == later.journal().len() - earlier.journal().len() ==> replayed(
            earlier@,
            later.journal().skip(earlier.journal().len() as int),
        ) == later@,
    decreases n,
{
    let journal = later.journal();
    let from = earlier.journal().len() as int;
    let gained = journal.subrange(from, from + n);
    assert(later.log()[earlier.log().len() - 1] == earlier.log()[earlier.log().len() - 1]);
    if n > 0 {
        lemma_continuation_replays(earlier, later, n - 1);
        assert(gained.drop_last() == journal.subrange(from, from + n - 1));
        assert(gained.last() == journal[from + n - 1]);
        assert(later.log()[later.log().len() - journal.len() + (from + n - 1)]
            == later.log()[later.log().len() - journal.len() + (from + n - 1) - 1].commit(
            journal[from + n - 1].shard_id,
            journal[from + n - 1].batch,
        ));
    }
    if n == journal.len() - from {
        assert(journal.skip(from) == gained);
    }
}

/// Every batch of the journal deletes a node exactly when it deletes the
/// stale index that announces it.
pub proof fn lemma_written_batches_are_paired(db: StateMerkleDb, k: int)
    requires
        db.wf(),
        0 <= k < db.journal().len(),
    ensures
        db.journal()[k].batch.paired(),
{
}

/// The durable progress only moves forward: of any two committed states,
/// the later records at least the progress of the earlier.
pub proof fn lemma_durable_progress_monotone(db: StateMerkleDb, j: int, k: int)
    requires
        db.wf(),
        0 <= j <= k < db.log().len(),
    ensures
        db.log()[j].durable_progress() <= db.log()[k].durable_progress(),
{
}

/// In every committed state, a node that a stale index announced when
/// storage was opened is gone only if the index's version does not exceed
/// the durable progress of that state.
pub proof fn lemma_no_premature_deletion(
    db: StateMerkleDb,
    k: int,
    shard_id: Option<u8>,
    index: StaleNodeIndex,
)
    requires
        db.wf(),
        0 <= k < db.log().len(),
        db.log()[0].has_partition(shard_id),
        db.log()[0].partition(shard_id).stale_node_indices.contains(index),
        !db.log()[k].partition(shard_id).nodes.contains(index.node_key),
    ensures
        index.stale_since_version <= db.log()[k].durable_progress(),
{
    let opened = db.log()[0];
    let state = db.log()[k];
    assert(state.safe_since(opened));
    match shard_id {
        None => {},
        Some(id) => {
            assert(partition_safe(
                opened.shards[id as int],
                state.shards[id as int],
                state.durable_progress(),
            ));
        },
    }
}

/// In every committed state, a stale index that was there when storage
/// was opened is either present with its node or gone with its node.
pub proof fn lemma_atomic_pairing(
    db: StateMerkleDb,
    k: int,
    shard_id: Option<u8>,
    index: StaleNodeIndex,
)
    requires
        db.wf(),
        0 <= k < db.log().len(),
        db.log()[0].has_partition(shard_id),
        db.log()[0].partition(shard_id).stale_node_indices.contains(index),
    ensures
        db.log()[k].partition(shard_id).stale_node_indices.contains(index) <==> db.log()[k].partition(
            shard_id,
        ).nodes.contains(index.node_key),
{
    let opened = db.log()[0];
    let state = db.log()[k];
    assert(state.safe_since(opened));
    match shard_id {
        None => {},
        Some(id) => {
            assert(partition_safe(
                opened.shards[id as int],
                state.shards[id as int],
                state.durable_progress(),
            ));
        },
    }
}

/// In every committed state, a node that was there when storage was opened
/// and is gone had been announced by a stale index: live nodes stay.
pub proof fn lemma_only_stale_nodes_deleted(
    db: StateMerkleDb,
    k: int,
    shard_id: Option<u8>,
    key: NodeKey,
)
    requires
        db.wf(),
        0 <= k < db.log().len(),
        db.log()[0].has_partition(shard_id),
        db.log()[0].partition(shard_id).nodes.contains(key),
        !db.log()[k].partition(shard_id).nodes.contains(key),
    ensures
        announced_stale(db.log()[0].partition(shard_id), key),
{
    let opened = db.log()[0];
    let state = db.log()[k];
    assert(state.safe_since(opened));
    match shard_id {
        None => {},
        Some(id) => {
            assert(partition_safe(
                opened.shards[id as int],
                state.shards[id as int],
                state.durable_progress(),
            ));
        },
    }
}

} // verus!
