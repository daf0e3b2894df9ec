//! The shard pruner: within one shard, it deletes the stale nodes of a
//! round's window, batch by batch.

use crate::pruner::index::{StaleNodeIndex, Version};
use crate::pruner::lookahead::{
    lemma_scan_finds_the_end, lemma_stale_window, lies_beyond, stale_window,
};
use crate::pruner::partition::{lemma_empty_batch, PartitionState};
use crate::pruner::retirement::{
    lemma_partly_pruned_initially, lemma_retire_batch, lemma_retire_done,
    lemma_window_after_batch, partly_pruned,
};
use crate::pruner::schema_batch::{BatchView, SchemaBatch, WrittenBatchView};
use crate::pruner::state_merkle_db::{
    lemma_pruning_writes_extend, lemma_written_to_shard_extend, pruning_writes, written_to_shard,
    DbState, StateMerkleDb,
};
use crate::pruner::state_merkle_pruner::StateMerklePruner;
use vstd::prelude::*;

verus! {

/// Whether a shard's prune covers its window: with a batch size of zero it
/// can only where the window is empty.
pub open spec fn shard_prune_completes(
    state: DbState,
    shard_id: u8,
    current_progress: Version,
    target_version: Version,
    max_nodes_to_prune: usize,
) -> bool {
    max_nodes_to_prune > 0 || stale_window(
        state.shards[shard_id as int].stale_node_indices,
        current_progress,
        target_version,
    ).len() == 0
}

/// Storage after shard `shard_id` has covered its window: the shard is
/// pruned of the versions `current_progress..=target_version` and records
/// `target_version` as its own progress; nothing else has changed.
pub open spec fn after_shard_prune(
    state: DbState,
    shard_id: u8,
    current_progress: Version,
    target_version: Version,
) -> DbState {
    DbState {
        metadata: state.metadata,
        shards: state.shards.update(
            shard_id as int,
            state.shards[shard_id as int].pruned(current_progress, target_version).recording(
                target_version,
            ),
        ),
    }
}

/// The batches in which a shard writes the window `window`. Each takes the
/// next `batch_size` stale indices, or all that are left. The batch whose
/// scan finds nothing more to come records `target_version` as the shard's
/// progress and is the last: it is the one that holds the end of the
/// window, where a stale index lies beyond the window, and else an empty
/// one that follows it. A batch that comes out empty is the last in any
/// case.
pub open spec fn shard_batches(
    window: Seq<StaleNodeIndex>,
    more_beyond: bool,
    target_version: Version,
    batch_size: usize,
) -> Seq<BatchView>
    decreases window.len(),
{
    let retired = if window.len() > batch_size {
        window.take(batch_size as int)
    } else {
        window
    };
    let done = window.len() <= batch_size && (more_beyond || window.len() == 0);
    let batch = BatchView::retiring(
        retired,
        if done {
            Some(target_version)
        } else {
            None
        },
    );
    if done || retired.len() == 0 {
        seq![batch]
    } else {
        seq![batch] + shard_batches(
            window.skip(retired.len() as int),
            more_beyond,
            target_version,
            batch_size,
        )
    }
}

/// The batches, as the journal holds them once they are written to the
/// shard `shard_id`.
pub open spec fn written_to(shard_id: u8, batches: Seq<BatchView>) -> Seq<WrittenBatchView> {
    batches.map_values(|batch: BatchView| WrittenBatchView { shard_id: Some(shard_id), batch })
}

/// What a shard's prune writes: the batches of the shard's window, to the
/// shard.
pub open spec fn shard_round_writes(
    shard: PartitionState,
    shard_id: u8,
    current_progress: Version,
    target_version: Version,
    max_nodes_to_prune: usize,
) -> Seq<WrittenBatchView> {
    written_to(
        shard_id,
        shard_batches(
            stale_window(shard.stale_node_indices, current_progress, target_version),
            lies_beyond(shard.stale_node_indices, current_progress, target_version),
            target_version,
            max_nodes_to_prune,
        ),
    )
}

/// What a shard writes to catch up with the metadata progress: first its
/// progress record, where it has none, then the batches of the window from
/// its progress up to the metadata progress.
pub open spec fn shard_catch_up_writes(
    shard: PartitionState,
    shard_id: u8,
    metadata_progress: Version,
) -> Seq<WrittenBatchView> {
    match shard.progress {
        Some(progress) => shard_round_writes(
            shard,
            shard_id,
            progress,
            metadata_progress,
            usize::MAX,
        ),
        None => seq![
            WrittenBatchView {
                shard_id: Some(shard_id),
                batch: BatchView::retiring(Seq::empty(), Some(metadata_progress)),
            },
        ] + shard_round_writes(shard, shard_id, metadata_progress, metadata_progress, usize::MAX),
    }
}

/// Prunes one shard.
pub struct StateMerkleShardPruner {
    shard_id: u8,
}

impl StateMerkleShardPruner {
    /// The shard that this pruner works on.
    pub closed spec fn id(&self) -> u8 {
        self.shard_id
    }

    /// Makes the pruner of shard `shard_id` and lets the shard catch up
    /// with the metadata progress: from the shard's own progress record,
    /// which is first set to `metadata_progress` where the shard has none,
    /// every stale node up to `metadata_progress` is pruned.
    pub fn new(shard_id: u8, db: &mut StateMerkleDb, metadata_progress: Version) -> (pruner:
        StateMerkleShardPruner)
        requires
            old(db).wf(),
            shard_id < old(db)@.shards.len(),
            metadata_progress <= old(db)@.durable_progress(),
        ensures
            pruner.id() == shard_id,
            final(db).wf(),
            final(db).continues(*old(db)),
            final(db)@ == after_shard_prune(
                old(db)@,
                shard_id,
                match old(db)@.shards[shard_id as int].progress {
                    Some(version) => version,
                    None => metadata_progress,
                },
                metadata_progress,
            ),
            final(db).journal() == old(db).journal() + shard_catch_up_writes(
                old(db)@.shards[shard_id as int],
                shard_id,
                metadata_progress,
            ),
            written_to_shard(final(db).journal(), old(db).journal().len() as int, shard_id),
            pruning_writes(
                final(db).journal(),
                old(db).journal().len() as int,
                0,
                metadata_progress,
                usize::MAX,
            ),
    {
        let progress = match db.db_shard(shard_id).progress() {
            Some(version) => version,
            None => {
                let mut batch = SchemaBatch::new();
                batch.put_progress(metadata_progress);
                proof {
                    assert(db.log().last().safe_since(db.log()[0]));
                    assert(batch@ == BatchView::retiring(Seq::empty(), Some(metadata_progress)));
                }
                db.write_schemas(Some(shard_id), batch);
                proof {
                    let shard = old(db)@.shards[shard_id as int];
                    lemma_empty_batch(shard);
                    assert(db@.shards[shard_id as int].stale_node_indices
                        == shard.stale_node_indices);
                    assert(db@.shards[shard_id as int].nodes == shard.nodes);
                }
                metadata_progress
            },
        };
        let myself = StateMerkleShardPruner { shard_id };
        let ghost initialized = db@.shards[shard_id as int];
        let ghost recorded = db.journal();
        myself.prune(db, progress, metadata_progress, usize::MAX);
        proof {
            let shard = old(db)@.shards[shard_id as int];
            assert(initialized.stale_node_indices == shard.stale_node_indices);
            assert(db.journal() =~= old(db).journal() + shard_catch_up_writes(
                shard,
                shard_id,
                metadata_progress,
            ));
            lemma_written_to_shard_extend(
                recorded,
                db.journal(),
                old(db).journal().len() as int,
                shard_id,
            );
            lemma_pruning_writes_extend(
                recorded,
                db.journal(),
                old(db).journal().len() as int,
                0,
                metadata_progress,
                usize::MAX,
                progress,
                metadata_progress,
            );
            let shard = old(db)@.shards[shard_id as int];
            assert(initialized.stale_node_indices == shard.stale_node_indices);
            assert(initialized.nodes == shard.nodes);
            assert(initialized.pruned(progress, metadata_progress).nodes =~= shard.pruned(
                progress,
                metadata_progress,
            ).nodes);
            assert(initialized.pruned(progress, metadata_progress).recording(metadata_progress)
                == shard.pruned(progress, metadata_progress).recording(metadata_progress));
            assert(db@.shards =~= after_shard_prune(
                old(db)@,
                shard_id,
                progress,
                metadata_progress,
            ).shards);
        }
        myself
    }

    /// Deletes the shard's stale nodes of the versions
    /// `current_progress..=target_version`, each with its stale index, at
    /// most `max_nodes_to_prune` in one atomic write. The write that finds
    /// nothing more to delete records `target_version` as the shard's
    /// progress. A scan that returns an empty batch ends the work: with a
    /// batch size of zero and a window that is not empty, nothing is
    /// pruned and nothing recorded.
    pub fn prune(
        &self,
        db: &mut StateMerkleDb,
        current_progress: Version,
        target_version: Version,
        max_nodes_to_prune: usize,
    )
        requires
            old(db).wf(),
            self.id() < old(db)@.shards.len(),
            target_version <= old(db)@.durable_progress(),
        ensures
            final(db).wf(),
            final(db).continues(*old(db)),
            shard_prune_completes(
                old(db)@,
                self.id(),
                current_progress,
                target_version,
                max_nodes_to_prune,
            ) ==> final(db)@ == after_shard_prune(
                old(db)@,
                self.id(),
                current_progress,
                target_version,
            ),
            !shard_prune_completes(
                old(db)@,
                self.id(),
                current_progress,
                target_version,
                max_nodes_to_prune,
            ) ==> final(db)@ == old(db)@,
            final(db).journal() == old(db).journal() + shard_round_writes(
                old(db)@.shards[self.id() as int],
                self.id(),
                current_progress,
                target_version,
                max_nodes_to_prune,
            ),
            written_to_shard(final(db).journal(), old(db).journal().len() as int, self.id()),
            pruning_writes(
                final(db).journal(),
                old(db).journal().len() as int,
                current_progress,
                target_version,
                max_nodes_to_prune,
            ),
    {
        let ghost before = db@.shards[self.shard_id as int];
        let ghost goal = db.journal() + shard_round_writes(
            before,
            self.shard_id,
            current_progress,
            target_version,
            max_nodes_to_prune,
        );
        let ghost completes = shard_prune_completes(
            db@,
            self.shard_id,
            current_progress,
            target_version,
            max_nodes_to_prune,
        );
        proof {
            assert(db.log().last().safe_since(db.log()[0]));
            lemma_partly_pruned_initially(before, current_progress, target_version);
        }
        let mut finished = false;
        while !finished
            invariant
                db.wf(),
                db.continues(*old(db)),
                self.shard_id < old(db)@.shards.len(),
                target_version <= db@.durable_progress(),
                db@.metadata == old(db)@.metadata,
                db@.shards.len() == old(db)@.shards.len(),
                forall|i: int|
                    0 <= i < db@.shards.len() && i != self.shard_id ==> db@.shards[i] == old(db)@.shards[i],
                before == old(db)@.shards[self.shard_id as int],
                before.wf(),
                completes == shard_prune_completes(
                    old(db)@,
                    self.shard_id,
                    current_progress,
                    target_version,
                    max_nodes_to_prune,
                ),
                !finished ==> partly_pruned(
                    before,
                    db@.shards[self.shard_id as int],
                    current_progress,
                    target_version,
                ),
                !finished ==> db@.shards[self.shard_id as int].progress == before.progress,
                !finished ==> db@.shards[self.shard_id as int].target == before.target,
                !finished && max_nodes_to_prune == 0 ==> db@.shards[self.shard_id as int]
                    == before,
                finished && completes ==> db@.shards[self.shard_id as int] == before.pruned(
                    current_progress,
                    target_version,
                ).recording(target_version),
                finished && !completes ==> db@.shards[self.shard_id as int] == before,
                goal == old(db).journal() + shard_round_writes(
                    before,
                    self.shard_id,
                    current_progress,
                    target_version,
                    max_nodes_to_prune,
                ),
                !finished ==> goal == db.journal() + shard_round_writes(
                    db@.shards[self.shard_id as int],
                    self.shard_id,
                    current_progress,
                    target_version,
                    max_nodes_to_prune,
                ),
                finished ==> goal == db.journal(),
                written_to_shard(db.journal(), old(db).journal().len() as int, self.shard_id),
                pruning_writes(
                    db.journal(),
                    old(db).journal().len() as int,
                    current_progress,
                    target_version,
                    max_nodes_to_prune,
                ),
            decreases
                    if finished {
                        0
                    } else {
                        db@.shards[self.shard_id as int].stale_node_indices.len() + 1
                    },
        {
            let ghost now = db@.shards[self.shard_id as int];
            let ghost stream = now.stale_node_indices;
            let ghost window = stale_window(stream, current_progress, target_version);
            proof {
                assert(db.log().last().safe_since(db.log()[0]));
            }
            let mut batch = SchemaBatch::new();
            let (indices, next_version) = StateMerklePruner::get_stale_node_indices(
                db.db_shard(self.shard_id),
                current_progress,
                target_version,
                max_nodes_to_prune,
            );
            let mut i: usize = 0;
            while i < indices.len()
                invariant
                    i <= indices.len(),
                    batch@ == BatchView::retiring(indices@.take(i as int), None),
                decreases indices.len() - i,
            {
                let index = indices[i];
                batch.delete_node(&index.node_key);
                batch.delete_stale_index(&index);
                proof {
                    assert(indices@.take(i + 1) == indices@.take(i as int).push(index));
                    assert(batch@ == BatchView::retiring(indices@.take(i + 1), None));
                }
                i += 1;
            }
            let mut done = true;
            if let Some(next_version) = next_version {
                if next_version <= target_version {
                    done = false;
                }
            }
            if done {
                batch.put_progress(target_version);
            }
            let ghost recorded = if done {
                Some(target_version)
            } else {
                None
            };
            proof {
                assert(indices@.take(indices@.len() as int) == indices@);
                assert(batch@ == BatchView::retiring(indices@, recorded));
                lemma_stale_window(stream, current_progress, target_version);
                lemma_retire_batch(
                    before,
                    now,
                    current_progress,
                    target_version,
                    indices@,
                    recorded,
                );
                if done {
                    assert(indices@ == window);
                    lemma_retire_done(
                        before,
                        now.commit(batch@),
                        current_progress,
                        target_version,
                    );
                    assert(now.commit(batch@) == before.pruned(
                        current_progress,
                        target_version,
                    ).recording(target_version));
                } else if indices@.len() == 0 {
                    assert(indices@ =~= Seq::empty());
                    lemma_empty_batch(now);
                    assert(now.commit(batch@) == now);
                    assert(window.len() > 0);
                    assert(max_nodes_to_prune == 0);
                }
            }
            let ghost journal = db.journal();
            let ghost written = batch@;
            db.write_schemas(Some(self.shard_id), batch);
            proof {
                let more = lies_beyond(stream, current_progress, target_version);
                let rest = shard_batches(window, more, target_version, max_nodes_to_prune);
                lemma_scan_finds_the_end(
                    stream,
                    current_progress,
                    target_version,
                    max_nodes_to_prune,
                );
                assert(rest[0] == written);
                if done || indices@.len() == 0 {
                    assert(rest == seq![written]);
                    assert(written_to(self.shard_id, rest) =~= seq![
                        WrittenBatchView { shard_id: Some(self.shard_id), batch: written },
                    ]);
                    assert(db.journal() =~= goal);
                } else {
                    lemma_window_after_batch(
                        now,
                        current_progress,
                        target_version,
                        indices@.len() as int,
                        recorded,
                    );
                    assert(window.take(indices@.len() as int) == indices@);
                    let left = shard_batches(
                        window.skip(indices@.len() as int),
                        more,
                        target_version,
                        max_nodes_to_prune,
                    );
                    assert(rest == seq![written] + left);
                    assert(written_to(self.shard_id, rest) =~= seq![
                        WrittenBatchView { shard_id: Some(self.shard_id), batch: written },
                    ] + written_to(self.shard_id, left));
                    assert(db.journal() + written_to(self.shard_id, left) =~= goal);
                }
            }
            proof {
                lemma_written_to_shard_extend(
                    journal,
                    db.journal(),
                    old(db).journal().len() as int,
                    self.shard_id,
                );
                lemma_pruning_writes_extend(
                    journal,
                    db.journal(),
                    old(db).journal().len() as int,
                    current_progress,
                    target_version,
                    max_nodes_to_prune,
                    current_progress,
                    target_version,
                );
            }
            if done || indices.len() == 0 {
                finished = true;
            }
        }
        proof {
            if completes {
                assert(db@.shards =~= after_shard_prune(
                    old(db)@,
                    self.shard_id,
                    current_progress,
                    target_version,
                ).shards);
            } else {
                assert(db@.shards =~= old(db)@.shards);
            }
        }
    }

    pub fn shard_id(&self) -> (shard_id: u8)
        ensures
            shard_id == self.id(),
    {
        self.shard_id
    }
}

} // verus!
