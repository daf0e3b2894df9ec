//! The metadata pruner: it owns the stale-index stream that decides how
//! far a round may advance, and writes the durable progress.

use crate::pruner::index::Version;
use crate::pruner::lookahead::{lemma_stale_window, lookahead_cursor, stale_window};
use crate::pruner::retirement::{lemma_partly_pruned_initially, lemma_retire_batch, lemma_retire_done};
use crate::pruner::schema_batch::{BatchView, SchemaBatch, WrittenBatchView};
use crate::pruner::state_merkle_db::{DbState, StateMerkleDb};
use crate::pruner::state_merkle_pruner::StateMerklePruner;
use vstd::prelude::*;

verus! {

/// The boundary that a round tries for: the next known stale version, or
/// the current progress where that is further.
pub open spec fn round_candidate(next_version: Version, current_progress: Version) -> Version {
    if next_version >= current_progress {
        next_version
    } else {
        current_progress
    }
}

/// What the metadata scan of a round reports as the next stale version.
pub open spec fn round_cursor(
    state: DbState,
    next_version: Version,
    current_progress: Version,
) -> Option<Version> {
    lookahead_cursor(
        state.metadata.stale_node_indices,
        current_progress,
        round_candidate(next_version, current_progress),
        usize::MAX,
    )
}

/// Whether a round can be committed: the boundary it tries for is within
/// the target, and the metadata stream holds an entry at or after the
/// current progress.
pub open spec fn round_achievable(
    state: DbState,
    next_version: Version,
    current_progress: Version,
    target_version: Version,
) -> bool {
    &&& round_candidate(next_version, current_progress) <= target_version
    &&& round_cursor(state, next_version, current_progress) is Some
}

/// Storage after a committed round with boundary `boundary`: the metadata
/// partition is pruned of the versions `current_progress..=boundary` and
/// records `boundary` as the durable progress; the shards are untouched.
pub open spec fn after_metadata_round(
    state: DbState,
    current_progress: Version,
    boundary: Version,
) -> DbState {
    DbState {
        metadata: state.metadata.pruned(current_progress, boundary).recording(boundary),
        shards: state.shards,
    }
}

/// Prunes the metadata partition, one round boundary at a time.
pub struct StateMerkleMetadataPruner {
    next_version: Version,
}

impl StateMerkleMetadataPruner {
    /// The cached version of the next stale index beyond the progress, 0
    /// until a round has run.
    pub closed spec fn next_known_version(&self) -> Version {
        self.next_version
    }

    pub fn new() -> (pruner: StateMerkleMetadataPruner)
        ensures
            pruner.next_known_version() == 0,
    {
        StateMerkleMetadataPruner { next_version: 0 }
    }

    pub fn next_version(&self) -> (version: Version)
        ensures
            version == self.next_known_version(),
    {
        self.next_version
    }

    /// Tries to commit one round. The boundary is the larger of the cached
    /// next stale version and `current_progress`. Beyond `target_version`
    /// there is no round, nor where the metadata stream holds nothing at or
    /// after `current_progress`. Else one atomic write retires every stale
    /// index of the metadata partition of a version from `current_progress`
    /// up to the boundary, each with its node, and records the boundary as
    /// the durable progress; the cache takes the cursor of the scan.
    pub fn maybe_prune_single_version(
        &mut self,
        db: &mut StateMerkleDb,
        current_progress: Version,
        target_version: Version,
    ) -> (r: Option<Version>)
        requires
            old(db).wf(),
            old(db)@.durable_progress() <= current_progress,
        ensures
            final(db).wf(),
            final(db).continues(*old(db)),
            round_achievable(
                old(db)@,
                old(self).next_known_version(),
                current_progress,
                target_version,
            ) ==> {
                let boundary = round_candidate(old(self).next_known_version(), current_progress);
                &&& r == Some(boundary)
                &&& final(db)@ == after_metadata_round(old(db)@, current_progress, boundary)
                &&& final(db).log() == old(db).log().push(final(db)@)
                &&& final(db).journal() == old(db).journal().push(
                    (WrittenBatchView {
                        shard_id: None,
                        batch: BatchView::retiring(
                            stale_window(
                                old(db)@.metadata.stale_node_indices,
                                current_progress,
                                boundary,
                            ),
                            Some(boundary),
                        ),
                    }),
                )
                &&& Some(final(self).next_known_version()) == round_cursor(
                    old(db)@,
                    old(self).next_known_version(),
                    current_progress,
                )
            },
            !round_achievable(
                old(db)@,
                old(self).next_known_version(),
                current_progress,
                target_version,
            ) ==> {
                &&& r is None
                &&& final(db)@ == old(db)@
                &&& final(db).log() == old(db).log()
                &&& final(db).journal() == old(db).journal()
                &&& final(self).next_known_version() == old(self).next_known_version()
            },
    {
        let next_version = self.next_version;
        let target_version_for_this_round = if next_version >= current_progress {
            next_version
        } else {
            current_progress
        };
        if target_version_for_this_round > target_version {
            return None;
        }
        proof {
            assert(db.log().last().safe_since(db.log()[0]));
        }
        let ghost before = db@.metadata;
        let ghost stream = before.stale_node_indices;
        let metadata_db = db.metadata_db();
        let (indices, next_version) = StateMerklePruner::get_stale_node_indices(
            metadata_db,
            current_progress,
            target_version_for_this_round,
            usize::MAX,
        );
        let next_version = match next_version {
            Some(version) => version,
            None => {
                return None;
            },
        };
        proof {
            lemma_stale_window(stream, current_progress, target_version_for_this_round);
            metadata_db.lemma_stream_fits();
            assert(indices@ == stale_window(
                stream,
                current_progress,
                target_version_for_this_round,
            ));
        }
        let mut batch = SchemaBatch::new();
        let mut i: usize = 0;
        while i < indices.len()
            invariant
                i <= indices.len(),
                batch@ == BatchView::retiring(indices@.take(i as int), None),
            decreases indices.len() - i,
        {
            let index = indices[i];
            batch.delete_node(&index.node_key);
            batch.delete_stale_index(&index);
            proof {
                assert(indices@.take(i + 1) == indices@.take(i as int).push(index));
                assert(batch@ == BatchView::retiring(indices@.take(i + 1), None));
            }
            i += 1;
        }
        batch.put_progress(target_version_for_this_round);
        proof {
            assert(indices@.take(indices@.len() as int) == indices@);
            assert(batch@ == BatchView::retiring(indices@, Some(target_version_for_this_round)));
            lemma_partly_pruned_initially(before, current_progress, target_version_for_this_round);
            lemma_retire_batch(
                before,
                before,
                current_progress,
                target_version_for_this_round,
                indices@,
                Some(target_version_for_this_round),
            );
            lemma_retire_done(
                before,
                before.commit(batch@),
                current_progress,
                target_version_for_this_round,
            );
            assert(before.commit(batch@) == before.pruned(
                current_progress,
                target_version_for_this_round,
            ).recording(target_version_for_this_round));
        }
        db.write_schemas(None, batch);
        self.next_version = next_version;
        Some(target_version_for_this_round)
    }

    /// The progress that the metadata partition records, 0 while it
    /// records none.
    pub fn progress(&self, db: &StateMerkleDb) -> (version: Version)
        ensures
            version == db@.durable_progress(),
    {
        db.durable_progress()
    }
}

} // verus!
