//! What pruning a range of versions does to a partition, and why writing
//! the batches of a lookahead scan comes to the same.

use crate::pruner::index::{is_ordered, NodeKey, StaleNodeIndex, Version};
use crate::pruner::lookahead::{
    lemma_lies_beyond, lemma_stale_window, lemma_subrange_ordered, lies_beyond, stale_window,
    window_end, window_start,
};
use crate::pruner::partition::{
    lemma_commit_wf, lemma_filter_keeps_all, lemma_filter_membership, lemma_filter_ordered,
    PartitionState,
};
use crate::pruner::schema_batch::BatchView;
use crate::pruner::state_merkle_db::{atomically_paired, only_shrunk};
use vstd::prelude::*;

verus! {

/// The index went stale at a version in `start_version..=target_version`.
pub open spec fn in_versions(
    index: StaleNodeIndex,
    start_version: Version,
    target_version: Version,
) -> bool {
    start_version <= index.stale_since_version <= target_version
}

/// Some stale index of `state`, of a version in
/// `start_version..=target_version`, announces the node at `key`.
pub open spec fn retires_node(
    state: PartitionState,
    key: NodeKey,
    start_version: Version,
    target_version: Version,
) -> bool {
    exists|index: StaleNodeIndex| #[trigger]
        state.stale_node_indices.contains(index) && index.node_key == key && in_versions(
            index,
            start_version,
            target_version,
        )
}

impl PartitionState {
    /// The partition once every stale index of a version in
    /// `start_version..=target_version` is gone together with its node.
    pub open spec fn pruned(self, start_version: Version, target_version: Version) -> PartitionState {
        PartitionState {
            nodes: Set::new(
                |key: NodeKey|
                    self.nodes.contains(key) && !retires_node(
                        self,
                        key,
                        start_version,
                        target_version,
                    ),
            ),
            stale_node_indices: self.stale_node_indices.filter(
                |index: StaleNodeIndex| !in_versions(index, start_version, target_version),
            ),
            progress: self.progress,
            target: self.target,
        }
    }

    /// The partition with its progress record set to `version`.
    pub open spec fn recording(self, version: Version) -> PartitionState {
        PartitionState { progress: Some(version), ..self }
    }
}

/// `now` lies between `before` and `before.pruned(..)`: what is gone from
/// it is of the range and went in pairs, and nothing else changed but,
/// maybe, the progress record.
pub open spec fn partly_pruned(
    before: PartitionState,
    now: PartitionState,
    start_version: Version,
    target_version: Version,
) -> bool {
    &&& now.wf()
    &&& only_shrunk(before, now)
    &&& atomically_paired(before, now)
    &&& forall|index: StaleNodeIndex| #[trigger]
        before.stale_node_indices.contains(index) && !in_versions(
            index,
            start_version,
            target_version,
        ) ==> now.stale_node_indices.contains(index)
    &&& forall|key: NodeKey| #[trigger]
        before.nodes.contains(key) && !now.nodes.contains(key) ==> retires_node(
            before,
            key,
            start_version,
            target_version,
        )
}

/// Two ordered streams that hold the same entries are the same stream.
pub proof fn lemma_ordered_streams_equal(s: Seq<StaleNodeIndex>, t: Seq<StaleNodeIndex>)
    requires
        is_ordered(s),
        is_ordered(t),
        forall|index: StaleNodeIndex| s.contains(index) <==> t.contains(index),
    ensures
        s == t,
    decreases s.len(),
{
    if s.len() == 0 {
        if t.len() > 0 {
            assert(t.contains(t[0]));
        }
        assert(s =~= t);
    } else {
        let last = s.last();
        assert(s.contains(last));
        assert(t.contains(last));
        let k = choose|k: int| 0 <= k < t.len() && t[k] == last;
        assert(t.contains(t.last()));
        let m = choose|m: int| 0 <= m < s.len() && s[m] == t.last();
        if k < t.len() - 1 {
            assert(t[k].precedes(t[t.len() - 1]));
            if m < s.len() - 1 {
                assert(s[m].precedes(s[s.len() - 1]));
            }
        }
        assert(t.last() == last);
        let s0 = s.drop_last();
        let t0 = t.drop_last();
        assert(is_ordered(s0)) by {
            assert forall|i: int, j: int| 0 <= i < j < s0.len() implies (#[trigger] s0[i]).precedes(
                #[trigger] s0[j],
            ) by {
                assert(s[i].precedes(s[j]));
            }
        }
        assert(is_ordered(t0)) by {
            assert forall|i: int, j: int| 0 <= i < j < t0.len() implies (#[trigger] t0[i]).precedes(
                #[trigger] t0[j],
            ) by {
                assert(t[i].precedes(t[j]));
            }
        }
        assert forall|index: StaleNodeIndex| s0.contains(index) <==> t0.contains(index) by {
            if s0.contains(index) {
                let i = choose|i: int| 0 <= i < s0.len() && s0[i] == index;
                assert(s[i] == index);
                assert(s[i].precedes(s[s.len() - 1]));
                assert(s.contains(index));
                assert(t.contains(index));
                let j = choose|j: int| 0 <= j < t.len() && t[j] == index;
                assert(t0[j] == index);
            }
            if t0.contains(index) {
                let i = choose|i: int| 0 <= i < t0.len() && t0[i] == index;
                assert(t[i] == index);
                assert(t[i].precedes(t[t.len() - 1]));
                assert(t.contains(index));
                assert(s.contains(index));
                let j = choose|j: int| 0 <= j < s.len() && s[j] == index;
                assert(s0[j] == index);
            }
        }
        lemma_ordered_streams_equal(s0, t0);
        assert(s =~= s0.push(last));
        assert(t =~= t0.push(last));
    }
}

/// A well-formed partition is partly pruned relative to itself.
pub proof fn lemma_partly_pruned_initially(
    state: PartitionState,
    start_version: Version,
    target_version: Version,
)
    requires
        state.wf(),
    ensures
        partly_pruned(state, state, start_version, target_version),
{
}

/// Writing a batch that retires the leading entries of the window keeps a
/// partition partly pruned; where the batch is the whole window, no stale
/// index of the range is left.
pub proof fn lemma_retire_batch(
    before: PartitionState,
    now: PartitionState,
    start_version: Version,
    target_version: Version,
    retired: Seq<StaleNodeIndex>,
    progress: Option<Version>,
)
    requires
        partly_pruned(before, now, start_version, target_version),
        retired.is_prefix_of(stale_window(now.stale_node_indices, start_version, target_version)),
    ensures
        BatchView::retiring(retired, progress).paired(),
        now.admits(BatchView::retiring(retired, progress)),
        forall|i: int|
            0 <= i < retired.len() ==> in_versions(
                #[trigger] retired[i],
                start_version,
                target_version,
            ),
        partly_pruned(
            before,
            now.commit(BatchView::retiring(retired, progress)),
            start_version,
            target_version,
        ),
        now.commit(BatchView::retiring(retired, progress)).stale_node_indices.len()
            == now.stale_node_indices.len() - retired.len(),
        retired == stale_window(now.stale_node_indices, start_version, target_version)
            ==> forall|index: StaleNodeIndex| #[trigger]
            now.commit(BatchView::retiring(retired, progress)).stale_node_indices.contains(index)
                ==> !in_versions(index, start_version, target_version),
{
    let s = now.stale_node_indices;
    let window = stale_window(s, start_version, target_version);
    let batch = BatchView::retiring(retired, progress);
    let after = now.commit(batch);
    let keep = |index: StaleNodeIndex| !batch.index_deletes.contains(index);
    lemma_stale_window(s, start_version, target_version);
    assert forall|i: int| 0 <= i < retired.len() implies s.contains(#[trigger] retired[i])
        && in_versions(retired[i], start_version, target_version) by {
        assert(window[i] == retired[i]);
        assert(window.contains(retired[i]));
    }
    assert(batch.paired());
    assert(now.admits(batch));
    lemma_commit_wf(now, batch);
    assert forall|index: StaleNodeIndex|
        after.stale_node_indices.contains(index) <==> s.contains(index) && !retired.contains(
            index,
        ) by {
        lemma_filter_membership(s, keep, index);
    }
    // A node that the batch deletes belongs to a stale index that the batch deletes.
    assert forall|index: StaleNodeIndex|
        s.contains(index) && batch.node_deletes.contains(index.node_key) implies #[trigger] retired.contains(
        index,
    ) by {
        let i = choose|i: int|
            0 <= i < batch.node_deletes.len() && batch.node_deletes[i] == index.node_key;
        assert(s.contains(retired[i]));
        assert(retired[i] == index);
    }
    assert(atomically_paired(before, after)) by {
        assert forall|index: StaleNodeIndex| #[trigger]
            before.stale_node_indices.contains(index) implies (after.stale_node_indices.contains(
            index,
        ) <==> after.nodes.contains(index.node_key)) by {
            if s.contains(index) {
                if retired.contains(index) {
                    let i = choose|i: int| 0 <= i < retired.len() && retired[i] == index;
                    assert(batch.node_deletes[i] == index.node_key);
                } else {
                    if batch.node_deletes.contains(index.node_key) {
                        assert(retired.contains(index));
                    }
                }
            }
        }
    }
    assert forall|key: NodeKey| #[trigger]
        before.nodes.contains(key) && !after.nodes.contains(key) implies retires_node(
        before,
        key,
        start_version,
        target_version,
    ) by {
        if now.nodes.contains(key) {
            let i = choose|i: int|
                0 <= i < batch.node_deletes.len() && batch.node_deletes[i] == key;
            assert(s.contains(retired[i]));
            assert(before.stale_node_indices.contains(retired[i]));
        }
    }
    assert(after.stale_node_indices.len() == s.len() - retired.len()) by {
        lemma_filter_prefix_of_window(s, start_version, target_version, retired);
    }
    if retired == window {
        assert forall|index: StaleNodeIndex| #[trigger]
            after.stale_node_indices.contains(index) implies !in_versions(
            index,
            start_version,
            target_version,
        ) by {
            if in_versions(index, start_version, target_version) {
                assert(window.contains(index));
            }
        }
    }
}

/// Taking the leading entries of the window out of an ordered stream
/// shortens it by their number.
proof fn lemma_filter_prefix_of_window(
    s: Seq<StaleNodeIndex>,
    start_version: Version,
    target_version: Version,
    retired: Seq<StaleNodeIndex>,
)
    requires
        is_ordered(s),
        retired.is_prefix_of(stale_window(s, start_version, target_version)),
    ensures
        s.filter(|index: StaleNodeIndex| !retired.contains(index)).len() == s.len()
            - retired.len(),
{
    let keep = |index: StaleNodeIndex| !retired.contains(index);
    let from = window_start(s, start_version);
    let window = stale_window(s, start_version, target_version);
    lemma_stale_window(s, start_version, target_version);
    let head = s.take(from);
    let rest = s.skip(from + retired.len());
    let joined = head + rest;
    assert forall|i: int| 0 <= i < retired.len() implies s[from + i] == #[trigger] retired[i] by {
        assert(window[i] == retired[i]);
    }
    assert(is_ordered(joined)) by {
        assert forall|i: int, j: int| 0 <= i < j < joined.len() implies (
        #[trigger] joined[i]).precedes(#[trigger] joined[j]) by {
            let a = if i < from {
                i
            } else {
                i + retired.len()
            };
            let b = if j < from {
                j
            } else {
                j + retired.len()
            };
            assert(s[a].precedes(s[b]));
        }
    }
    lemma_filter_ordered(s, keep);
    assert forall|index: StaleNodeIndex| s.filter(keep).contains(index) <==> joined.contains(
        index,
    ) by {
        lemma_filter_membership(s, keep, index);
        if s.contains(index) && !retired.contains(index) {
            let i = choose|i: int| 0 <= i < s.len() && s[i] == index;
            if i < from {
                assert(joined[i] == index);
            } else if i < from + retired.len() {
                assert(retired[i - from] == index);
            } else {
                assert(joined[i - retired.len()] == index);
            }
        }
        if joined.contains(index) {
            let i = choose|i: int| 0 <= i < joined.len() && joined[i] == index;
            let a = if i < from {
                i
            } else {
                i + retired.len()
            };
            assert(s[a] == index);
            if retired.contains(index) {
                let k = choose|k: int| 0 <= k < retired.len() && retired[k] == index;
                assert(s[from + k] == index);
                if a < from + k {
                    assert(s[a].precedes(s[from + k]));
                } else {
                    assert(s[from + k].precedes(s[a]));
                }
            }
        }
    }
    lemma_ordered_streams_equal(s.filter(keep), joined);
}

/// Once the first `k` entries of the window are retired, the window is
/// what was left of it, and what lies beyond it is still there.
pub proof fn lemma_window_after_batch(
    state: PartitionState,
    start_version: Version,
    target_version: Version,
    k: int,
    progress: Option<Version>,
)
    requires
        state.wf(),
        0 <= k <= stale_window(state.stale_node_indices, start_version, target_version).len(),
    ensures
        stale_window(
            state.commit(
                BatchView::retiring(
                    stale_window(state.stale_node_indices, start_version, target_version).take(k),
                    progress,
                ),
            ).stale_node_indices,
            start_version,
            target_version,
        ) == stale_window(state.stale_node_indices, start_version, target_version).skip(k),
        lies_beyond(
            state.commit(
                BatchView::retiring(
                    stale_window(state.stale_node_indices, start_version, target_version).take(k),
                    progress,
                ),
            ).stale_node_indices,
            start_version,
            target_version,
        ) == lies_beyond(state.stale_node_indices, start_version, target_version),
{
    let s = state.stale_node_indices;
    let window = stale_window(s, start_version, target_version);
    let retired = window.take(k);
    let batch = BatchView::retiring(retired, progress);
    let after = state.commit(batch).stale_node_indices;
    let keep = |index: StaleNodeIndex| !batch.index_deletes.contains(index);
    lemma_stale_window(s, start_version, target_version);
    lemma_filter_ordered(s, keep);
    lemma_stale_window(after, start_version, target_version);
    lemma_subrange_ordered(
        s,
        window_start(s, start_version),
        window_end(s, start_version, target_version),
    );
    lemma_subrange_ordered(
        after,
        window_start(after, start_version),
        window_end(after, start_version, target_version),
    );
    lemma_subrange_ordered(window, k, window.len() as int);
    let left = stale_window(after, start_version, target_version);
    assert forall|index: StaleNodeIndex| left.contains(index) <==> window.skip(k).contains(
        index,
    ) by {
        lemma_filter_membership(s, keep, index);
        if window.skip(k).contains(index) {
            let j = choose|j: int| 0 <= j < window.skip(k).len() && window.skip(k)[j] == index;
            assert(window[k + j] == index);
            assert(window.contains(index));
            if retired.contains(index) {
                let i = choose|i: int| 0 <= i < retired.len() && retired[i] == index;
                assert(window[i].precedes(window[k + j]));
            }
        }
        if left.contains(index) {
            assert(window.contains(index));
            let i = choose|i: int| 0 <= i < window.len() && window[i] == index;
            if i < k {
                assert(retired[i] == index);
            } else {
                assert(window.skip(k)[i - k] == index);
            }
        }
    }
    lemma_ordered_streams_equal(left, window.skip(k));
    lemma_lies_beyond(s, start_version, target_version);
    lemma_lies_beyond(after, start_version, target_version);
    assert forall|index: StaleNodeIndex|
        start_version <= index.stale_since_version && target_version
            < index.stale_since_version implies (after.contains(index) <==> s.contains(index)) by {
        lemma_filter_membership(s, keep, index);
        if retired.contains(index) {
            let i = choose|i: int| 0 <= i < retired.len() && retired[i] == index;
            assert(window[i] == index);
            assert(window.contains(index));
        }
    }
}

/// A partly pruned partition in which no stale index of the range is left
/// is the pruned partition, but for its progress record.
pub proof fn lemma_retire_done(
    before: PartitionState,
    now: PartitionState,
    start_version: Version,
    target_version: Version,
)
    requires
        before.wf(),
        partly_pruned(before, now, start_version, target_version),
        forall|index: StaleNodeIndex| #[trigger]
            now.stale_node_indices.contains(index) ==> !in_versions(
                index,
                start_version,
                target_version,
            ),
    ensures
        now.stale_node_indices == before.pruned(start_version, target_version).stale_node_indices,
        now.nodes == before.pruned(start_version, target_version).nodes,
{
    let goal = before.pruned(start_version, target_version);
    let outside = |index: StaleNodeIndex| !in_versions(index, start_version, target_version);
    lemma_filter_ordered(before.stale_node_indices, outside);
    assert forall|index: StaleNodeIndex|
        now.stale_node_indices.contains(index) <==> goal.stale_node_indices.contains(index) by {
        lemma_filter_membership(before.stale_node_indices, outside, index);
    }
    lemma_ordered_streams_equal(now.stale_node_indices, goal.stale_node_indices);
    assert forall|key: NodeKey| now.nodes.contains(key) <==> goal.nodes.contains(key) by {
        if now.nodes.contains(key) && retires_node(before, key, start_version, target_version) {
            let index = choose|index: StaleNodeIndex| #[trigger]
                before.stale_node_indices.contains(index) && index.node_key == key && in_versions(
                    index,
                    start_version,
                    target_version,
                );
            assert(!now.stale_node_indices.contains(index));
        }
    }
    assert(now.nodes =~= goal.nodes);
}

/// Pruning a range is writing the batch that retires the range's window.
/// It keeps a partition well formed, and shortens the stream by the
/// window.
pub proof fn lemma_pruned(state: PartitionState, start_version: Version, target_version: Version)
    requires
        state.wf(),
    ensures
        state.pruned(start_version, target_version) == state.commit(
            BatchView::retiring(
                stale_window(state.stale_node_indices, start_version, target_version),
                None,
            ),
        ),
        state.pruned(start_version, target_version).wf(),
        partly_pruned(
            state,
            state.pruned(start_version, target_version),
            start_version,
            target_version,
        ),
        state.pruned(start_version, target_version).stale_node_indices.len()
            == state.stale_node_indices.len() - stale_window(
            state.stale_node_indices,
            start_version,
            target_version,
        ).len(),
        forall|index: StaleNodeIndex| #[trigger]
            state.pruned(start_version, target_version).stale_node_indices.contains(index)
                ==> !in_versions(index, start_version, target_version),
{
    let window = stale_window(state.stale_node_indices, start_version, target_version);
    let written = state.commit(BatchView::retiring(window, None));
    lemma_partly_pruned_initially(state, start_version, target_version);
    lemma_retire_batch(state, state, start_version, target_version, window, None);
    lemma_retire_done(state, written, start_version, target_version);
    assert(written == state.pruned(start_version, target_version));
}

/// Pruning a range of which the partition holds no stale index leaves the
/// partition as it is.
pub proof fn lemma_pruned_nothing(
    state: PartitionState,
    start_version: Version,
    target_version: Version,
)
    requires
        forall|index: StaleNodeIndex| #[trigger]
            state.stale_node_indices.contains(index) ==> !in_versions(
                index,
                start_version,
                target_version,
            ),
    ensures
        state.pruned(start_version, target_version) == state,
{
    let outside = |index: StaleNodeIndex| !in_versions(index, start_version, target_version);
    assert forall|i: int| 0 <= i < state.stale_node_indices.len() implies outside(
        #[trigger] state.stale_node_indices[i],
    ) by {
        assert(state.stale_node_indices.contains(state.stale_node_indices[i]));
    }
    lemma_filter_keeps_all(state.stale_node_indices, outside);
    assert(state.pruned(start_version, target_version).nodes =~= state.nodes);
}

/// The progress record plays no part in pruning.
pub proof fn lemma_pruned_recording(
    state: PartitionState,
    version: Version,
    start_version: Version,
    target_version: Version,
)
    ensures
        state.recording(version).pruned(start_version, target_version) == state.pruned(
            start_version,
            target_version,
        ).recording(version),
{
    assert(state.recording(version).pruned(start_version, target_version).nodes =~= state.pruned(
        start_version,
        target_version,
    ).nodes);
}

/// Pruning two ranges that meet is pruning the range that spans both.
pub proof fn lemma_pruned_adjacent(
    state: PartitionState,
    start_version: Version,
    middle_version: Version,
    target_version: Version,
)
    requires
        state.wf(),
        start_version <= middle_version <= target_version,
    ensures
        state.pruned(start_version, middle_version).pruned(middle_version, target_version)
            == state.pruned(start_version, target_version),
{
    let first = state.pruned(start_version, middle_version);
    let both = first.pruned(middle_version, target_version);
    let goal = state.pruned(start_version, target_version);
    lemma_pruned(state, start_version, middle_version);
    lemma_pruned(first, middle_version, target_version);
    lemma_pruned(state, start_version, target_version);
    assert forall|index: StaleNodeIndex|
        both.stale_node_indices.contains(index) <==> goal.stale_node_indices.contains(index) by {
        lemma_pruned_membership(state, start_version, middle_version, index);
        lemma_pruned_membership(first, middle_version, target_version, index);
        lemma_pruned_membership(state, start_version, target_version, index);
    }
    lemma_ordered_streams_equal(both.stale_node_indices, goal.stale_node_indices);
    assert forall|key: NodeKey| both.nodes.contains(key) <==> goal.nodes.contains(key) by {
        if retires_node(state, key, start_version, target_version) {
            let index = choose|index: StaleNodeIndex| #[trigger]
                state.stale_node_indices.contains(index) && index.node_key == key && in_versions(
                    index,
                    start_version,
                    target_version,
                );
            lemma_pruned_membership(state, start_version, middle_version, index);
            if !in_versions(index, start_version, middle_version) {
                assert(first.stale_node_indices.contains(index));
                assert(retires_node(first, key, middle_version, target_version));
            }
        }
        if retires_node(first, key, middle_version, target_version) {
            let index = choose|index: StaleNodeIndex| #[trigger]
                first.stale_node_indices.contains(index) && index.node_key == key && in_versions(
                    index,
                    middle_version,
                    target_version,
                );
            lemma_pruned_membership(state, start_version, middle_version, index);
            assert(state.stale_node_indices.contains(index));
        }
        if retires_node(state, key, start_version, middle_version) {
            let index = choose|index: StaleNodeIndex| #[trigger]
                state.stale_node_indices.contains(index) && index.node_key == key && in_versions(
                    index,
                    start_version,
                    middle_version,
                );
            assert(in_versions(index, start_version, target_version));
        }
    }
    assert(both.nodes =~= goal.nodes);
}

/// Pruning a range leaves the entries outside it: a stale index is in the
/// pruned partition exactly when it was there and is not of the range.
pub proof fn lemma_pruned_membership(
    state: PartitionState,
    start_version: Version,
    target_version: Version,
    index: StaleNodeIndex,
)
    ensures
        state.pruned(start_version, target_version).stale_node_indices.contains(index)
            <==> state.stale_node_indices.contains(index) && !in_versions(
            index,
            start_version,
            target_version,
        ),
{
    lemma_filter_membership(
        state.stale_node_indices,
        |index: StaleNodeIndex| !in_versions(index, start_version, target_version),
        index,
    );
}

} // verus!
