//! The pruning orchestrator: it drives the rounds, from the metadata
//! pruner's boundary over the shards to the recorded progress.

use crate::pruner::index::{StaleNodeIndex, Version};
use crate::pruner::partition::lemma_filter_keeps_all;
use crate::pruner::rounds::{
    cache_sound, catch_up_writes, caught_up, caught_up_shard, after_prune_shards,
    lemma_fast_forward, lemma_metadata_write, lemma_round_committed, lemma_run_done, reached,
    rounds_writes, shard_after_round, shards_round_writes, Reached, Run,
};
use crate::pruner::schema_batch::{BatchView, SchemaBatch, WrittenBatch, WrittenBatchView};
use crate::pruner::state_merkle_db::{lemma_pruning_writes_extend, pruning_writes, StateMerkleDb};
use crate::pruner::state_merkle_metadata_pruner::{round_candidate, StateMerkleMetadataPruner};
use crate::pruner::state_merkle_shard_pruner::StateMerkleShardPruner;
use vstd::prelude::*;

verus! {

/// Responsible for pruning the state tree.
pub struct StateMerklePruner {
    /// Keeps track of the target version that the pruner needs to achieve.
    target_version: Version,
    /// Overall progress, updated when the whole version is done.
    progress: Version,
    metadata_pruner: StateMerkleMetadataPruner,
    /// Non-empty iff sharding is enabled.
    shard_pruners: Vec<StateMerkleShardPruner>,
    state_merkle_db: StateMerkleDb,
}

impl StateMerklePruner {
    pub closed spec fn spec_progress(&self) -> Version {
        self.progress
    }

    pub closed spec fn spec_target_version(&self) -> Version {
        self.target_version
    }

    /// The metadata pruner's cache of the next stale version.
    pub closed spec fn next_known_version(&self) -> Version {
        self.metadata_pruner.next_known_version()
    }

    /// The storage that this pruner works on.
    pub closed spec fn db(&self) -> StateMerkleDb {
        self.state_merkle_db
    }

    /// There is one shard pruner for each shard, in the order of the
    /// shards.
    pub closed spec fn shards_attached(&self) -> bool {
        &&& self.shard_pruners@.len() == self.state_merkle_db@.shards.len()
        &&& forall|i: int|
            0 <= i < self.shard_pruners@.len() ==> (#[trigger] self.shard_pruners@[i]).id() == i
    }

    /// See [`cache_sound`].
    pub open spec fn cache_sound(&self) -> bool {
        cache_sound(self.db()@, self.next_known_version(), self.progress())
    }

    /// The pruner is well formed when its storage is, its progress is not
    /// behind the durable progress, its shard pruners match the shards, and
    /// its cache is sound.
    pub open spec fn wf(&self) -> bool {
        &&& self.db().wf()
        &&& self.db()@.durable_progress() <= self.progress()
        &&& self.shards_attached()
        &&& self.cache_sound()
    }

    /// What a call of `prune` with this batch size starts from.
    pub open spec fn run(&self, batch_size: usize) -> Run {
        Run {
            before: self.db()@,
            start: self.progress(),
            target_version: self.target_version(),
            first_cache: self.next_known_version(),
            batch_size,
        }
    }

    /// Whether a call of `prune` commits a round: the progress is behind
    /// the target, and the first round is achievable.
    pub open spec fn prune_starts(&self) -> bool {
        self.run(0).starts()
    }

    /// The name under which this pruner reports.
    pub fn name(&self) -> (name: &'static str)
        ensures
            name@ == "state_merkle_pruner"@,
    {
        "state_merkle_pruner"
    }

    /// Makes the pruner of a forest. It resumes from the durable progress,
    /// which is also its first target, and lets every shard catch up with
    /// it.
    pub fn new(state_merkle_db: StateMerkleDb) -> (pruner: StateMerklePruner)
        requires
            state_merkle_db.wf(),
        ensures
            pruner.wf(),
            pruner.progress() == state_merkle_db@.durable_progress(),
            pruner.target_version() == state_merkle_db@.durable_progress(),
            pruner.next_known_version() == 0,
            pruner.db()@ == caught_up(state_merkle_db@),
            pruner.db().continues(state_merkle_db),
            pruner.db().journal() == state_merkle_db.journal() + catch_up_writes(
                state_merkle_db@,
                state_merkle_db@.shards.len() as int,
            ),
            pruning_writes(
                pruner.db().journal(),
                state_merkle_db.journal().len() as int,
                0,
                state_merkle_db@.durable_progress(),
                usize::MAX,
            ),
    {
        let ghost opened = state_merkle_db@;
        let ghost opened_db = state_merkle_db;
        let mut state_merkle_db = state_merkle_db;
        let metadata_pruner = StateMerkleMetadataPruner::new();
        let metadata_progress = metadata_pruner.progress(&state_merkle_db);
        let mut shard_pruners: Vec<StateMerkleShardPruner> = Vec::new();
        if state_merkle_db.sharding_enabled() {
            let num_shards = state_merkle_db.num_shards();
            let mut shard_id: u8 = 0;
            proof {
                assert(state_merkle_db.journal() =~= opened_db.journal() + catch_up_writes(
                    opened,
                    0,
                ));
            }
            while shard_id < num_shards
                invariant
                    shard_id <= num_shards == opened.shards.len(),
                    state_merkle_db.wf(),
                    state_merkle_db.continues(opened_db),
                    state_merkle_db.journal() == opened_db.journal() + catch_up_writes(
                        opened,
                        shard_id as int,
                    ),
                    pruning_writes(
                        state_merkle_db.journal(),
                        opened_db.journal().len() as int,
                        0,
                        metadata_progress,
                        usize::MAX,
                    ),
                    metadata_progress == opened.durable_progress(),
                    state_merkle_db@.metadata == opened.metadata,
                    state_merkle_db@.shards.len() == opened.shards.len(),
                    forall|i: int|
                        0 <= i < shard_id ==> #[trigger] state_merkle_db@.shards[i]
                            == caught_up_shard(opened.shards[i], metadata_progress),
                    forall|i: int|
                        shard_id <= i < opened.shards.len() ==> #[trigger] state_merkle_db@.shards[i]
                            == opened.shards[i],
                    shard_pruners@.len() == shard_id,
                    forall|i: int|
                        0 <= i < shard_pruners@.len() ==> (#[trigger] shard_pruners@[i]).id() == i,
                decreases num_shards - shard_id,
            {
                let ghost journal = state_merkle_db.journal();
                let shard_pruner = StateMerkleShardPruner::new(
                    shard_id,
                    &mut state_merkle_db,
                    metadata_progress,
                );
                proof {
                    lemma_pruning_writes_extend(
                        journal,
                        state_merkle_db.journal(),
                        opened_db.journal().len() as int,
                        0,
                        metadata_progress,
                        usize::MAX,
                        0,
                        metadata_progress,
                    );
                    assert(state_merkle_db.journal() =~= opened_db.journal() + catch_up_writes(
                        opened,
                        shard_id + 1,
                    ));
                }
                shard_pruners.push(shard_pruner);
                shard_id += 1;
            }
        }
        proof {
            assert(state_merkle_db@.shards =~= caught_up(opened).shards);
            if opened.shards.len() == 0 {
                assert(state_merkle_db.journal() =~= opened_db.journal() + catch_up_writes(
                    opened,
                    0,
                ));
            }
        }
        StateMerklePruner {
            target_version: metadata_progress,
            progress: metadata_progress,
            metadata_pruner,
            shard_pruners,
            state_merkle_db,
        }
    }

    /// Lets every shard do its part of the round whose window is
    /// `current_progress..=target_version`.
    fn prune_shards(
        &mut self,
        current_progress: Version,
        target_version: Version,
        batch_size: usize,
    )
        requires
            old(self).db().wf(),
            old(self).shards_attached(),
            target_version <= old(self).db()@.durable_progress(),
        ensures
            final(self).db().wf(),
            final(self).shards_attached(),
            final(self).db().continues(old(self).db()),
            final(self).db()@ == after_prune_shards(
                old(self).db()@,
                current_progress,
                target_version,
                batch_size,
            ),
            final(self).progress() == old(self).progress(),
            final(self).target_version() == old(self).target_version(),
            final(self).next_known_version() == old(self).next_known_version(),
            final(self).db().journal() == old(self).db().journal() + shards_round_writes(
                old(self).db()@,
                current_progress,
                target_version,
                batch_size,
                old(self).db()@.shards.len() as int,
            ),
            pruning_writes(
                final(self).db().journal(),
                old(self).db().journal().len() as int,
                current_progress,
                target_version,
                batch_size,
            ),
    {
        let ghost before = self.state_merkle_db@;
        let mut i: usize = 0;
        proof {
            assert(self.state_merkle_db.journal() =~= old(self).db().journal()
                + shards_round_writes(before, current_progress, target_version, batch_size, 0));
        }
        while i < self.shard_pruners.len()
            invariant
                i <= self.shard_pruners.len(),
                self.state_merkle_db.wf(),
                self.shards_attached(),
                self.state_merkle_db.continues(old(self).db()),
                before == old(self).db()@,
                target_version <= self.state_merkle_db@.durable_progress(),
                self.state_merkle_db@.metadata == before.metadata,
                self.state_merkle_db@.shards.len() == before.shards.len(),
                forall|j: int|
                    0 <= j < i ==> #[trigger] self.state_merkle_db@.shards[j] == shard_after_round(
                        before.shards[j],
                        current_progress,
                        target_version,
                        batch_size,
                    ),
                forall|j: int|
                    i <= j < before.shards.len() ==> #[trigger] self.state_merkle_db@.shards[j]
                        == before.shards[j],
                self.progress == old(self).progress,
                self.target_version == old(self).target_version,
                self.metadata_pruner == old(self).metadata_pruner,
                self.state_merkle_db.journal() == old(self).db().journal() + shards_round_writes(
                    before,
                    current_progress,
                    target_version,
                    batch_size,
                    i as int,
                ),
                pruning_writes(
                    self.state_merkle_db.journal(),
                    old(self).db().journal().len() as int,
                    current_progress,
                    target_version,
                    batch_size,
                ),
            decreases self.shard_pruners.len() - i,
        {
            let ghost journal = self.state_merkle_db.journal();
            let shard_pruner = &self.shard_pruners[i];
            shard_pruner.prune(
                &mut self.state_merkle_db,
                current_progress,
                target_version,
                batch_size,
            );
            proof {
                lemma_pruning_writes_extend(
                    journal,
                    self.state_merkle_db.journal(),
                    old(self).db().journal().len() as int,
                    current_progress,
                    target_version,
                    batch_size,
                    current_progress,
                    target_version,
                );
                assert(self.state_merkle_db.journal() =~= old(self).db().journal()
                    + shards_round_writes(
                    before,
                    current_progress,
                    target_version,
                    batch_size,
                    i + 1,
                ));
            }
            i += 1;
        }
        proof {
            assert(self.state_merkle_db@.shards =~= after_prune_shards(
                before,
                current_progress,
                target_version,
                batch_size,
            ).shards);
        }
    }

    /// Prunes until the progress meets the target. Each round takes its
    /// boundary from the metadata pruner, lets all shards prune up to it,
    /// and then records it as the progress. Where the metadata pruner has
    /// no round to offer, nothing is left to prune below the target, and
    /// the progress moves to the target at once. Returns the target.
    pub fn prune(&mut self, batch_size: usize) -> (target: Version)
        requires
            old(self).wf(),
        ensures
            final(self).wf(),
            target == old(self).target_version(),
            final(self).target_version() == old(self).target_version(),
            final(self).progress() >= old(self).progress(),
            final(self).progress() == if old(self).progress() < old(self).target_version() {
                old(self).target_version()
            } else {
                old(self).progress()
            },
            final(self).db().continues(old(self).db()),
            final(self).db()@.durable_progress() <= final(self).progress(),
            old(self).run(batch_size).done(final(self).db()@, final(self).next_known_version()),
            !old(self).prune_starts() ==> final(self).db().log() == old(self).db().log(),
            final(self).db().journal() == old(self).db().journal() + rounds_writes(
                old(self).db()@,
                old(self).next_known_version(),
                old(self).progress(),
                old(self).target_version(),
                batch_size,
            ),
            pruning_writes(
                final(self).db().journal(),
                old(self).db().journal().len() as int,
                old(self).progress(),
                old(self).target_version(),
                batch_size,
            ),
    {
        let mut progress = self.progress();
        let target_version = self.target_version();
        let ghost run = self.run(batch_size);
        let ghost goal = self.state_merkle_db.journal() + rounds_writes(
            run.before,
            run.first_cache,
            run.start,
            target_version,
            batch_size,
        );
        let ghost mut committed = false;
        let mut fast_forwarded = false;
        proof {
            assert(self.state_merkle_db.log().last().safe_since(self.state_merkle_db.log()[0]));
        }
        while progress < target_version && !fast_forwarded
            invariant
                self.wf(),
                self.target_version == target_version == run.target_version,
                run == old(self).run(batch_size),
                self.state_merkle_db.continues(old(self).db()),
                !fast_forwarded ==> self.progress == progress,
                !committed ==> {
                    &&& self.state_merkle_db.log() == old(self).db().log()
                    &&& self.state_merkle_db.journal() == old(self).db().journal()
                },
                committed ==> old(self).prune_starts(),
                goal == old(self).db().journal() + rounds_writes(
                    run.before,
                    run.first_cache,
                    run.start,
                    target_version,
                    batch_size,
                ),
                !fast_forwarded ==> goal == self.state_merkle_db.journal() + rounds_writes(
                    self.state_merkle_db@,
                    self.next_known_version(),
                    progress,
                    target_version,
                    batch_size,
                ),
                fast_forwarded ==> goal == self.state_merkle_db.journal(),
                reached(
                    run,
                    (Reached {
                        now: self.state_merkle_db@,
                        progress: self.progress,
                        cache: self.next_known_version(),
                        committed,
                        fast_forwarded,
                    }),
                ),
                pruning_writes(
                    self.state_merkle_db.journal(),
                    old(self).db().journal().len() as int,
                    run.start,
                    target_version,
                    batch_size,
                ),
            decreases
                    if fast_forwarded {
                        0
                    } else {
                        target_version - progress + 1
                    },
                    if self.metadata_pruner.next_known_version() <= progress {
                        1int
                    } else {
                        0int
                    },
                    self.state_merkle_db@.metadata.stale_node_indices.len(),
        {
            let ghost reached = Reached {
                now: self.state_merkle_db@,
                progress: self.progress,
                cache: self.next_known_version(),
                committed,
                fast_forwarded,
            };
            let ghost journal = self.state_merkle_db.journal();
            let ghost candidate = round_candidate(reached.cache, progress);
            proof {
                assert(self.state_merkle_db.log().last().safe_since(
                    self.state_merkle_db.log()[0],
                ));
                self.state_merkle_db.lemma_metadata_stream_fits();
            }
            if let Some(target_version_for_this_round) =
                self.metadata_pruner.maybe_prune_single_version(
                &mut self.state_merkle_db,
                progress,
                target_version,
            ) {
                let ghost after_metadata = self.state_merkle_db.journal();
                self.prune_shards(progress, target_version_for_this_round, batch_size);
                proof {
                    lemma_metadata_write(
                        reached.now.metadata.stale_node_indices,
                        progress,
                        candidate,
                        batch_size,
                    );
                    lemma_pruning_writes_extend(
                        journal,
                        after_metadata,
                        old(self).db().journal().len() as int,
                        run.start,
                        target_version,
                        batch_size,
                        progress,
                        candidate,
                    );
                    lemma_pruning_writes_extend(
                        after_metadata,
                        self.state_merkle_db.journal(),
                        old(self).db().journal().len() as int,
                        run.start,
                        target_version,
                        batch_size,
                        progress,
                        candidate,
                    );
                    lemma_round_committed(
                        run,
                        reached,
                        self.state_merkle_db@,
                        self.next_known_version(),
                    );
                    assert(goal =~= self.state_merkle_db.journal() + rounds_writes(
                        self.state_merkle_db@,
                        self.next_known_version(),
                        candidate,
                        target_version,
                        batch_size,
                    ));
                    committed = true;
                }
                progress = target_version_for_this_round;
                self.record_progress(target_version_for_this_round);
            } else {
                proof {
                    lemma_fast_forward(run, reached);
                    assert(goal =~= self.state_merkle_db.journal());
                }
                self.record_progress(target_version);
                fast_forwarded = true;
            }
        }
        proof {
            assert(self.state_merkle_db.log().last().safe_since(self.state_merkle_db.log()[0]));
            self.state_merkle_db.lemma_metadata_stream_fits();
            assert(goal =~= self.state_merkle_db.journal());
            old(self).db().lemma_metadata_stream_fits();
            lemma_run_done(
                run,
                Reached {
                    now: self.state_merkle_db@,
                    progress: self.progress,
                    cache: self.next_known_version(),
                    committed,
                    fast_forwarded,
                },
            );
        }
        target_version
    }

    /// Overall progress: the version up to which the stale nodes are
    /// pruned.
    #[verifier::when_used_as_spec(spec_progress)]
    pub fn progress(&self) -> (progress: Version)
        ensures
            progress == self.spec_progress(),
    {
        self.progress
    }

    /// Sets the version that the pruner is to achieve, and records it
    /// durably. A target behind the progress is accepted as it is: `prune`
    /// then finds nothing to do.
    pub fn set_target_version(&mut self, target_version: Version)
        requires
            old(self).wf(),
        ensures
            final(self).wf(),
            final(self).target_version() == target_version,
            final(self).progress() == old(self).progress(),
            final(self).next_known_version() == old(self).next_known_version(),
            final(self).db()@ == old(self).db()@.commit(None, BatchView::targeting(target_version)),
            final(self).db()@.durable_target() == Some(target_version),
            final(self).db()@.metadata.nodes == old(self).db()@.metadata.nodes,
            final(self).db()@.metadata.stale_node_indices == old(self).db()@.metadata.stale_node_indices,
            final(self).db()@.metadata.progress == old(self).db()@.metadata.progress,
            final(self).db()@.shards == old(self).db()@.shards,
            final(self).db().log() == old(self).db().log().push(final(self).db()@),
            final(self).db().journal() == old(self).db().journal().push(
                (WrittenBatchView { shard_id: None, batch: BatchView::targeting(target_version) }),
            ),
            final(self).db().continues(old(self).db()),
    {
        let mut batch = SchemaBatch::new();
        batch.put_target(target_version);
        proof {
            assert(self.state_merkle_db.log().last().safe_since(self.state_merkle_db.log()[0]));
            assert(batch@ == BatchView::targeting(target_version));
            let metadata = self.state_merkle_db@.metadata;
            lemma_filter_keeps_all(
                metadata.stale_node_indices,
                |index: StaleNodeIndex| !batch@.index_deletes.contains(index),
            );
            assert(metadata.commit(batch@).nodes =~= metadata.nodes);
        }
        self.state_merkle_db.write_schemas(None, batch);
        self.target_version = target_version;
    }

    /// The version that the pruner is to achieve.
    #[verifier::when_used_as_spec(spec_target_version)]
    pub fn target_version(&self) -> (target_version: Version)
        ensures
            target_version == self.spec_target_version(),
    {
        self.target_version
    }

    fn record_progress(&mut self, progress: Version)
        ensures
            final(self).progress() == progress,
            final(self).target_version() == old(self).target_version(),
            final(self).next_known_version() == old(self).next_known_version(),
            final(self).db() == old(self).db(),
            final(self).shards_attached() == old(self).shards_attached(),
            final(self).metadata_pruner == old(self).metadata_pruner,
    {
        self.progress = progress;
    }

    /// The storage, to look into.
    pub fn state_merkle_db(&self) -> (db: &StateMerkleDb)
        ensures
            *db == self.db(),
    {
        &self.state_merkle_db
    }

    /// Hands out the journal of the batches that were written since it was
    /// last taken, for whoever brings them to disk.
    pub fn take_journal(&mut self) -> (written: Vec<WrittenBatch>)
        requires
            old(self).wf(),
        ensures
            final(self).wf(),
            final(self).progress() == old(self).progress(),
            final(self).target_version() == old(self).target_version(),
            final(self).next_known_version() == old(self).next_known_version(),
            final(self).db()@ == old(self).db()@,
            final(self).db().log() == old(self).db().log(),
            final(self).db().journal() == Seq::<WrittenBatchView>::empty(),
            written@.map_values(|entry: WrittenBatch| entry@) == old(self).db().journal(),
    {
        self.state_merkle_db.take_journal()
    }

    /// Gives the storage back, as after a shutdown.
    pub fn into_state_merkle_db(self) -> (db: StateMerkleDb)
        ensures
            db == self.db(),
    {
        self.state_merkle_db
    }
}

/// Once the progress has met the target, a call of `prune` commits no
/// round and writes nothing: by the contract of `prune` it then leaves
/// storage, its log and its journal as they are, and the progress where it
/// is.
pub proof fn lemma_prune_is_idle_at_the_target(pruner: StateMerklePruner, batch_size: usize)
    requires
        pruner.wf(),
        pruner.progress() >= pruner.target_version(),
    ensures
        !pruner.prune_starts(),
        rounds_writes(
            pruner.db()@,
            pruner.next_known_version(),
            pruner.progress(),
            pruner.target_version(),
            batch_size,
        ) == Seq::<WrittenBatchView>::empty(),
{
    assert(pruner.db().log().last().safe_since(pruner.db().log()[0]));
    pruner.db().lemma_metadata_stream_fits();
}

} // verus!
