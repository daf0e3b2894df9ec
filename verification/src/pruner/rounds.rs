//! The rounds of a pruning run: what they write, what they leave behind,
//! and why a run comes to its end.

use crate::pruner::index::{is_ordered, StaleNodeIndex, Version};
use crate::pruner::lookahead::{
    has_version, is_cursor, lemma_cursor_characterized, lemma_cursor_is_seen,
    lemma_cursor_of_whole_window, lemma_cursor_unset, lemma_stale_window, lookahead_cursor,
    stale_window, window_start,
};
use crate::pruner::partition::PartitionState;
use crate::pruner::retirement::{
    in_versions, lemma_pruned, lemma_pruned_adjacent, lemma_pruned_membership,
    lemma_pruned_nothing, lemma_pruned_recording,
};
use crate::pruner::schema_batch::{BatchView, WrittenBatchView};
use crate::pruner::state_merkle_db::{is_pruning_write, DbState};
use crate::pruner::state_merkle_metadata_pruner::{
    after_metadata_round, round_achievable, round_candidate, round_cursor,
};
use crate::pruner::state_merkle_shard_pruner::{shard_catch_up_writes, shard_round_writes};
use vstd::prelude::*;

verus! {


/// A shard once it has caught up with the metadata progress: pruned from
/// its own progress record, or from the metadata progress where it has
/// none, up to the metadata progress, which it then records.
pub open spec fn caught_up_shard(shard: PartitionState, metadata_progress: Version) -> PartitionState {
    shard.pruned(
        match shard.progress {
            Some(version) => version,
            None => metadata_progress,
        },
        metadata_progress,
    ).recording(metadata_progress)
}

/// Storage once every shard has caught up with the metadata progress.
pub open spec fn caught_up(state: DbState) -> DbState {
    DbState {
        metadata: state.metadata,
        shards: Seq::new(
            state.shards.len(),
            |i: int| caught_up_shard(state.shards[i], state.durable_progress()),
        ),
    }
}

/// A shard after its part of a round: pruned of the round's window, which
/// it records as done; left as it is where the batch size is zero and the
/// window is not empty.
pub open spec fn shard_after_round(
    shard: PartitionState,
    current_progress: Version,
    target_version: Version,
    batch_size: usize,
) -> PartitionState {
    if batch_size > 0 || stale_window(
        shard.stale_node_indices,
        current_progress,
        target_version,
    ).len() == 0 {
        shard.pruned(current_progress, target_version).recording(target_version)
    } else {
        shard
    }
}

/// Storage after all shards have done their part of a round.
pub open spec fn after_prune_shards(
    state: DbState,
    current_progress: Version,
    target_version: Version,
    batch_size: usize,
) -> DbState {
    DbState {
        metadata: state.metadata,
        shards: Seq::new(
            state.shards.len(),
            |i: int|
                shard_after_round(state.shards[i], current_progress, target_version, batch_size),
        ),
    }
}

/// What the shards before place `shards` write, one after the other, to
/// catch up with the durable progress.
pub open spec fn catch_up_writes(state: DbState, shards: int) -> Seq<WrittenBatchView>
    decreases shards,
{
    if shards <= 0 {
        Seq::empty()
    } else {
        catch_up_writes(state, shards - 1) + shard_catch_up_writes(
            state.shards[shards - 1],
            (shards - 1) as u8,
            state.durable_progress(),
        )
    }
}

/// What the shards before place `shards` write, one after the other, in
/// the round whose window is `current_progress..=target_version`.
pub open spec fn shards_round_writes(
    state: DbState,
    current_progress: Version,
    target_version: Version,
    batch_size: usize,
    shards: int,
) -> Seq<WrittenBatchView>
    decreases shards,
{
    if shards <= 0 {
        Seq::empty()
    } else {
        shards_round_writes(state, current_progress, target_version, batch_size, shards - 1)
            + shard_round_writes(
            state.shards[shards - 1],
            (shards - 1) as u8,
            current_progress,
            target_version,
            batch_size,
        )
    }
}

/// What the rounds of a run write, round after round, from where the run
/// stands: the batch of the metadata partition, which retires the window
/// from the progress up to the round's boundary and records the boundary,
/// then the batches of the shards for the same window. The next round
/// starts from the boundary, with the cursor of the metadata scan for its
/// cache. Where no round is achievable, nothing more is written.
pub open spec fn rounds_writes(
    state: DbState,
    next_version: Version,
    progress: Version,
    target_version: Version,
    batch_size: usize,
) -> Seq<WrittenBatchView>
    decreases
            target_version - progress,
            if next_version <= progress {
                1int
            } else {
                0int
            },
            state.metadata.stale_node_indices.len(),
    when state.wf() && state.metadata.stale_node_indices.len() <= usize::MAX
    via rounds_writes_decreases
{
    if progress < target_version && round_achievable(
        state,
        next_version,
        progress,
        target_version,
    ) {
        let boundary = round_candidate(next_version, progress);
        let after_metadata = after_metadata_round(state, progress, boundary);
        seq![
            WrittenBatchView {
                shard_id: None,
                batch: BatchView::retiring(
                    stale_window(state.metadata.stale_node_indices, progress, boundary),
                    Some(boundary),
                ),
            },
        ] + shards_round_writes(
            after_metadata,
            progress,
            boundary,
            batch_size,
            state.shards.len() as int,
        ) + rounds_writes(
            after_prune_shards(after_metadata, progress, boundary, batch_size),
            round_cursor(state, next_version, progress)->0,
            boundary,
            target_version,
            batch_size,
        )
    } else {
        Seq::empty()
    }
}

#[via_fn]
proof fn rounds_writes_decreases(
    state: DbState,
    next_version: Version,
    progress: Version,
    target_version: Version,
    batch_size: usize,
) {
    if progress < target_version && round_achievable(
        state,
        next_version,
        progress,
        target_version,
    ) {
        let boundary = round_candidate(next_version, progress);
        lemma_pruned(state.metadata, progress, boundary);
        lemma_cursor_of_whole_window(
            state.metadata.stale_node_indices,
            progress,
            boundary,
            usize::MAX,
        );
    }
}

/// The boundary of the last round that `prune` commits, where the first
/// round's boundary is `first_boundary`: the largest stale version of the
/// metadata stream from `progress` up to `target_version`, unless the
/// first boundary is as large.
pub open spec fn last_boundary(
    stream: Seq<StaleNodeIndex>,
    first_boundary: Version,
    progress: Version,
    target_version: Version,
) -> Version {
    let window = stale_window(stream, progress, target_version);
    if window.len() > 0 && window.last().stale_since_version > first_boundary {
        window.last().stale_since_version
    } else {
        first_boundary
    }
}

/// The cache does not overshoot: no stale index of the metadata partition
/// at or after the progress is of a version below the cache.
pub open spec fn cache_sound(state: DbState, next_known_version: Version, progress: Version) -> bool {
    forall|index: StaleNodeIndex| #[trigger]
        state.metadata.stale_node_indices.contains(index) ==> next_known_version
            <= index.stale_since_version || index.stale_since_version < progress
}

/// What a call of `prune` starts from.
pub struct Run {
    /// Storage at the call.
    pub before: DbState,
    /// The progress at the call.
    pub start: Version,
    /// The target of the call.
    pub target_version: Version,
    /// The metadata pruner's cache at the call.
    pub first_cache: Version,
    pub batch_size: usize,
}

/// Where a call of `prune` stands between two rounds.
pub(crate) struct Reached {
    /// Storage now.
    pub(crate) now: DbState,
    /// The progress now.
    pub(crate) progress: Version,
    /// The metadata pruner's cache now.
    pub(crate) cache: Version,
    /// Whether a round was committed.
    pub(crate) committed: bool,
    /// Whether the progress was moved to the target without a round.
    pub(crate) fast_forwarded: bool,
}

impl Run {
    /// The boundary of the first round.
    pub open spec fn first_boundary(self) -> Version {
        round_candidate(self.first_cache, self.start)
    }

    /// Whether the call commits a round at all.
    pub open spec fn starts(self) -> bool {
        &&& self.start < self.target_version
        &&& round_achievable(self.before, self.first_cache, self.start, self.target_version)
    }

    /// What `prune` leaves behind, in storage and in the metadata pruner's
    /// cache. Where the call commits no round, nothing has changed. Else
    /// the metadata partition is pruned of the versions from the start up to
    /// the target, and so is each shard up to the last round's boundary,
    /// which the partitions record as their progress; the cache is the
    /// cursor of one scan of the metadata stream over these versions. With a
    /// batch size of zero no shard has lost a node or a stale index.
    pub open spec fn done(self, now: DbState, cache: Version) -> bool {
        let durable = now.durable_progress();
        &&& now.shards.len() == self.before.shards.len()
        &&& !self.starts() ==> now == self.before && cache == self.first_cache
        &&& self.start < self.target_version ==> {
            let pruned = self.before.metadata.pruned(self.start, self.target_version);
            &&& now.metadata.stale_node_indices == pruned.stale_node_indices
            &&& now.metadata.nodes == pruned.nodes
        }
        &&& self.starts() ==> {
            &&& now.metadata.progress == Some(durable)
            &&& durable == last_boundary(
                self.before.metadata.stale_node_indices,
                self.first_boundary(),
                self.start,
                self.target_version,
            )
            &&& self.start <= durable <= self.target_version
            &&& Some(cache) == lookahead_cursor(
                self.before.metadata.stale_node_indices,
                self.start,
                self.target_version,
                usize::MAX,
            )
            &&& self.batch_size > 0 ==> forall|i: int|
                0 <= i < now.shards.len() ==> #[trigger] now.shards[i]
                    == self.before.shards[i].pruned(self.start, durable).recording(durable)
        }
        &&& self.batch_size == 0 ==> forall|i: int|
            0 <= i < now.shards.len() ==> {
                &&& (#[trigger] now.shards[i]).stale_node_indices
                    == self.before.shards[i].stale_node_indices
                &&& now.shards[i].nodes == self.before.shards[i].nodes
            }
    }
}

/// What holds between two rounds: while no round is committed, nothing
/// has changed; after that, every partition is pruned from the start up
/// to the durable progress, which is the boundary of the last round, and
/// the cache is the cursor of one scan over these versions.
pub(crate) open spec fn reached(run: Run, r: Reached) -> bool {
    let durable = r.now.durable_progress();
    &&& run.before.wf()
    &&& r.now.shards.len() == run.before.shards.len()
    &&& !r.fast_forwarded ==> run.start <= r.progress
    &&& r.fast_forwarded ==> r.progress == run.target_version && run.start
        < run.target_version
    &&& !r.committed ==> {
        &&& r.now == run.before
        &&& r.cache == run.first_cache
        &&& !r.fast_forwarded ==> r.progress == run.start
        &&& r.fast_forwarded ==> !run.starts()
    }
    &&& r.committed ==> {
        &&& run.starts()
        &&& run.start <= durable <= run.target_version
        &&& run.first_boundary() <= durable
        &&& durable == run.first_boundary() || has_version(
            run.before.metadata.stale_node_indices,
            durable,
        )
        &&& !r.fast_forwarded ==> durable == r.progress
        &&& !r.fast_forwarded ==> r.cache <= r.progress || has_version(
            r.now.metadata.stale_node_indices,
            r.cache,
        )
        &&& is_cursor(
            run.before.metadata.stale_node_indices,
            run.start,
            if r.fast_forwarded {
                run.target_version
            } else {
                durable
            },
            r.cache,
        )
        &&& r.now.metadata == run.before.metadata.pruned(run.start, durable).recording(
            durable,
        )
        &&& run.batch_size > 0 ==> forall|i: int|
            0 <= i < run.before.shards.len() ==> #[trigger] r.now.shards[i]
                == run.before.shards[i].pruned(run.start, durable).recording(durable)
    }
    &&& run.batch_size == 0 ==> forall|i: int|
        0 <= i < run.before.shards.len() ==> {
            &&& (#[trigger] r.now.shards[i]).stale_node_indices
                == run.before.shards[i].stale_node_indices
            &&& r.now.shards[i].nodes == run.before.shards[i].nodes
        }
    &&& r.fast_forwarded ==> forall|index: StaleNodeIndex| #[trigger]
        r.now.metadata.stale_node_indices.contains(index) ==> !in_versions(
            index,
            run.start,
            run.target_version,
        )
}

/// A committed round takes a run from where it stands to where it stands
/// next, keeps the cache sound, and brings the run nearer to its end: the
/// progress has grown, or else the cache has passed it, or else the
/// metadata stream has shrunk.
pub(crate) proof fn lemma_round_committed(run: Run, r: Reached, after: DbState, cursor: Version)
    requires
        reached(run, r),
        !r.fast_forwarded,
        r.progress < run.target_version,
        r.now.wf(),
        r.now.metadata.stale_node_indices.len() <= usize::MAX,
        round_achievable(r.now, r.cache, r.progress, run.target_version),
        round_cursor(r.now, r.cache, r.progress) == Some(cursor),
        after == after_prune_shards(
            after_metadata_round(r.now, r.progress, round_candidate(r.cache, r.progress)),
            r.progress,
            round_candidate(r.cache, r.progress),
            run.batch_size,
        ),
    ensures
        reached(
            run,
            (Reached {
                now: after,
                progress: round_candidate(r.cache, r.progress),
                cache: cursor,
                committed: true,
                fast_forwarded: false,
            }),
        ),
        after.durable_progress() == round_candidate(r.cache, r.progress),
        cache_sound(after, cursor, round_candidate(r.cache, r.progress)),
        r.progress < round_candidate(r.cache, r.progress) || (r.cache <= r.progress && r.progress
            < cursor) || (r.cache <= r.progress && cursor <= r.progress
            && after.metadata.stale_node_indices.len() < r.now.metadata.stale_node_indices.len()),
{
    let before = run.before;
    let start = run.start;
    let progress = r.progress;
    let candidate = round_candidate(r.cache, progress);
    let now = r.now;
    let stream = now.metadata.stale_node_indices;
    lemma_pruned(now.metadata, progress, candidate);
    lemma_cursor_of_whole_window(stream, progress, candidate, usize::MAX);
    lemma_cursor_is_seen(stream, progress, candidate, usize::MAX);
    lemma_cursor_characterized(stream, progress, candidate, usize::MAX, cursor);
    if r.committed {
        lemma_pruned(before.metadata, start, progress);
        lemma_pruned_recording(before.metadata.pruned(start, progress), progress, progress, candidate);
        lemma_pruned_adjacent(before.metadata, start, progress, candidate);
        assert forall|index: StaleNodeIndex|
            stream.contains(index) <==> before.metadata.stale_node_indices.contains(index)
                && !in_versions(index, start, progress) by {
            lemma_pruned_membership(before.metadata, start, progress, index);
        }
    }
    assert(after.metadata == before.metadata.pruned(start, candidate).recording(candidate));
    assert forall|index: StaleNodeIndex| #[trigger]
        after.metadata.stale_node_indices.contains(index) implies cursor
        <= index.stale_since_version || index.stale_since_version < candidate by {
        lemma_pruned_membership(now.metadata, progress, candidate, index);
    }
    assert(is_cursor(before.metadata.stale_node_indices, start, candidate, cursor));
    if r.committed && progress < candidate {
        let seen = choose|index: StaleNodeIndex| #[trigger]
            stream.contains(index) && index.stale_since_version == r.cache;
        lemma_pruned_membership(before.metadata, start, progress, seen);
    }
    if candidate < cursor {
        let seen = choose|index: StaleNodeIndex| #[trigger]
            stream.contains(index) && index.stale_since_version == cursor;
        lemma_pruned_membership(now.metadata, progress, candidate, seen);
        assert(after.metadata.stale_node_indices.contains(seen));
    }
    assert forall|i: int| 0 <= i < before.shards.len() implies {
        &&& run.batch_size > 0 ==> #[trigger] after.shards[i] == before.shards[i].pruned(
            start,
            candidate,
        ).recording(candidate)
        &&& run.batch_size == 0 ==> after.shards[i].stale_node_indices
            == before.shards[i].stale_node_indices && after.shards[i].nodes
            == before.shards[i].nodes
    } by {
        let shard = now.shards[i];
        assert(before.shards[i].wf());
        assert(shard.wf());
        if run.batch_size > 0 {
            if r.committed {
                lemma_pruned(before.shards[i], start, progress);
                lemma_pruned_recording(
                    before.shards[i].pruned(start, progress),
                    progress,
                    progress,
                    candidate,
                );
                lemma_pruned_adjacent(before.shards[i], start, progress, candidate);
            }
        } else {
            lemma_pruned(shard, progress, candidate);
            if stale_window(shard.stale_node_indices, progress, candidate).len() == 0 {
                lemma_stale_window_empty(shard, progress, candidate);
            }
        }
    }
}

/// Where no round is to be had, no stale index of the metadata partition
/// is left from the start up to the target: the run may move its progress
/// there.
pub(crate) proof fn lemma_fast_forward(run: Run, r: Reached)
    requires
        reached(run, r),
        !r.fast_forwarded,
        r.progress < run.target_version,
        r.now.wf(),
        r.now.metadata.stale_node_indices.len() <= usize::MAX,
        cache_sound(r.now, r.cache, r.progress),
        !round_achievable(r.now, r.cache, r.progress, run.target_version),
    ensures
        reached(run, (Reached { progress: run.target_version, fast_forwarded: true, ..r })),
{
    let before = run.before;
    let start = run.start;
    let progress = r.progress;
    let candidate = round_candidate(r.cache, progress);
    let stream = r.now.metadata.stale_node_indices;
    if round_cursor(r.now, r.cache, progress) is None {
        lemma_cursor_unset(stream, progress, candidate, usize::MAX);
    }
    assert forall|index: StaleNodeIndex| #[trigger] stream.contains(index) implies !in_versions(
        index,
        start,
        run.target_version,
    ) by {
        if r.committed {
            lemma_pruned_membership(before.metadata, start, progress, index);
        }
    }
    if r.committed {
        // Where the stream has run out, the version that the cache named is gone.
        assert(candidate <= run.target_version ==> r.cache <= progress) by {
            if candidate <= run.target_version && progress < r.cache {
                let seen = choose|index: StaleNodeIndex| #[trigger]
                    stream.contains(index) && index.stale_since_version == r.cache;
                assert(seen.stale_since_version < progress);
            }
        }
        assert(is_cursor(before.metadata.stale_node_indices, start, run.target_version, r.cache));
    }
}

/// A run that has met its target, or was at it from the start, leaves
/// behind what `done` says.
pub(crate) proof fn lemma_run_done(run: Run, r: Reached)
    requires
        reached(run, r),
        r.fast_forwarded || r.progress >= run.target_version,
        run.before.metadata.stale_node_indices.len() <= usize::MAX,
    ensures
        run.done(r.now, r.cache),
{
    let before = run.before;
    let start = run.start;
    let target_version = run.target_version;
    let durable = r.now.durable_progress();
    let metadata = r.now.metadata;
    if start < target_version {
        if r.committed {
            lemma_last_boundary(
                before.metadata,
                metadata,
                run.first_boundary(),
                start,
                durable,
                target_version,
            );
            lemma_cursor_characterized(
                before.metadata.stale_node_indices,
                start,
                target_version,
                usize::MAX,
                r.cache,
            );
            lemma_pruned(before.metadata, start, durable);
            lemma_pruned_recording(
                before.metadata.pruned(start, durable),
                durable,
                durable,
                target_version,
            );
            lemma_pruned_adjacent(before.metadata, start, durable, target_version);
            if r.fast_forwarded {
                assert forall|index: StaleNodeIndex| #[trigger]
                    metadata.stale_node_indices.contains(index) implies !in_versions(
                    index,
                    durable,
                    target_version,
                ) by {}
                lemma_pruned_nothing(metadata, durable, target_version);
            }
        } else {
            lemma_pruned_nothing(metadata, start, target_version);
        }
    }
}

/// The write of a metadata round is a pruning write over the round's
/// versions.
pub(crate) proof fn lemma_metadata_write(
    stream: Seq<StaleNodeIndex>,
    progress: Version,
    boundary: Version,
    batch_size: usize,
)
    requires
        is_ordered(stream),
        progress <= boundary,
    ensures
        is_pruning_write(
            (WrittenBatchView {
                shard_id: None,
                batch: BatchView::retiring(stale_window(stream, progress, boundary), Some(boundary)),
            }),
            progress,
            boundary,
            batch_size,
        ),
{
    lemma_stale_window(stream, progress, boundary);
    let window = stale_window(stream, progress, boundary);
    assert forall|i: int| 0 <= i < window.len() implies progress <= (
    #[trigger] window[i]).stale_since_version <= boundary by {
        assert(window.contains(window[i]));
    }
}

/// The durable progress after the last round is the last boundary: it is
/// the first boundary or the version of a stale index, and no stale index
/// of the range lies beyond it.
proof fn lemma_last_boundary(
    before: PartitionState,
    after: PartitionState,
    first_boundary: Version,
    start: Version,
    durable: Version,
    target_version: Version,
)
    requires
        before.wf(),
        start <= durable <= target_version,
        first_boundary <= durable,
        durable == first_boundary || has_version(before.stale_node_indices, durable),
        after.stale_node_indices == before.pruned(start, durable).stale_node_indices,
        forall|index: StaleNodeIndex| #[trigger]
            after.stale_node_indices.contains(index) ==> !in_versions(index, start, target_version),
    ensures
        durable == last_boundary(before.stale_node_indices, first_boundary, start, target_version),
{
    let s = before.stale_node_indices;
    let window = stale_window(s, start, target_version);
    lemma_stale_window(s, start, target_version);
    if window.len() > 0 {
        let last = window.last();
        assert(window.contains(last));
        lemma_pruned_membership(before, start, durable, last);
        assert(last.stale_since_version <= durable);
    }
    if durable != first_boundary {
        let index = choose|index: StaleNodeIndex| #[trigger]
            s.contains(index) && index.stale_since_version == durable;
        assert(window.contains(index));
        let i = choose|i: int| 0 <= i < window.len() && window[i] == index;
        if i < window.len() - 1 {
            let from = window_start(s, start);
            assert(window[i] == s[from + i]);
            assert(window[window.len() - 1] == s[from + window.len() - 1]);
            assert(s[from + i].precedes(s[from + window.len() - 1]));
        }
    }
}

/// A partition whose window is empty holds no stale index of the range.
proof fn lemma_stale_window_empty(
    shard: PartitionState,
    current_progress: Version,
    target_version: Version,
)
    requires
        shard.wf(),
        stale_window(shard.stale_node_indices, current_progress, target_version).len() == 0,
    ensures
        shard.pruned(current_progress, target_version) == shard,
{
    lemma_stale_window(
        shard.stale_node_indices,
        current_progress,
        target_version,
    );
    assert forall|index: StaleNodeIndex| #[trigger]
        shard.stale_node_indices.contains(index) implies !in_versions(
        index,
        current_progress,
        target_version,
    ) by {
        if in_versions(index, current_progress, target_version) {
            assert(stale_window(
                shard.stale_node_indices,
                current_progress,
                target_version,
            ).contains(index));
        }
    }
    lemma_pruned_nothing(shard, current_progress, target_version);
}

} // verus!
