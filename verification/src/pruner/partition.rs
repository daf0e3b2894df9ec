//! One storage partition of the forest: the tree nodes it holds, its ordered
//! stream of stale indices, and its records of progress and target.

use crate::pruner::index::{is_ordered, NodeKey, StaleNodeIndex, Version};
use crate::pruner::schema_batch::{BatchView, SchemaBatch};
use vstd::prelude::*;

verus! {

/// What a partition durably holds.
#[verifier::ext_equal]
pub struct PartitionState {
    /// Keys of the tree nodes that are physically present.
    pub nodes: Set<NodeKey>,
    /// The stale indices that are present, in stream order.
    pub stale_node_indices: Seq<StaleNodeIndex>,
    /// The progress record, unset until first written.
    pub progress: Option<Version>,
    /// The target record, unset until first written. Only the metadata
    /// partition has use for it.
    pub target: Option<Version>,
}

impl PartitionState {
    /// Every stale index announces a node that is present.
    pub open spec fn indices_have_nodes(self) -> bool {
        forall|index: StaleNodeIndex| #[trigger]
            self.stale_node_indices.contains(index) ==> self.nodes.contains(index.node_key)
    }

    /// No node is announced stale by two indices.
    pub open spec fn node_keys_distinct(self) -> bool {
        forall|a: StaleNodeIndex, b: StaleNodeIndex|
            #[trigger] self.stale_node_indices.contains(a) && #[trigger] self.stale_node_indices.contains(
                b,
            ) && a.node_key == b.node_key ==> a == b
    }

    /// A partition is well formed when its stream is ordered, each stale
    /// index has its node, and each node goes stale once.
    pub open spec fn wf(self) -> bool {
        &&& is_ordered(self.stale_node_indices)
        &&& self.indices_have_nodes()
        &&& self.node_keys_distinct()
    }

    /// The state after `batch` is written: the named nodes and stale
    /// indices are gone, and a record is replaced if the batch carries
    /// one for it.
    pub open spec fn commit(self, batch: BatchView) -> PartitionState {
        PartitionState {
            nodes: Set::new(
                |key: NodeKey| self.nodes.contains(key) && !batch.node_deletes.contains(key),
            ),
            stale_node_indices: self.stale_node_indices.filter(
                |index: StaleNodeIndex| !batch.index_deletes.contains(index),
            ),
            progress: match batch.progress {
                Some(version) => Some(version),
                None => self.progress,
            },
            target: match batch.target {
                Some(version) => Some(version),
                None => self.target,
            },
        }
    }

    /// The batch only retires stale indices that are present, each with
    /// its node.
    pub open spec fn admits(self, batch: BatchView) -> bool {
        &&& batch.paired()
        &&& forall|i: int|
            0 <= i < batch.index_deletes.len() ==> self.stale_node_indices.contains(
                #[trigger] batch.index_deletes[i],
            )
    }
}

/// An element survives a filter exactly when it was there and passes.
pub proof fn lemma_filter_membership<A>(s: Seq<A>, pred: spec_fn(A) -> bool, e: A)
    ensures
        s.filter(pred).contains(e) <==> s.contains(e) && pred(e),
{
    if s.filter(pred).contains(e) {
        s.lemma_filter_contains_rev(pred, e);
        let i = choose|i: int| 0 <= i < s.filter(pred).len() && s.filter(pred)[i] == e;
        s.lemma_filter_pred(pred, i);
    }
    if s.contains(e) && pred(e) {
        let i = choose|i: int| 0 <= i < s.len() && s[i] == e;
        s.lemma_filter_contains(pred, i);
    }
}

/// Keeping every entry of a stream leaves the stream as it is.
pub proof fn lemma_filter_keeps_all<A>(s: Seq<A>, pred: spec_fn(A) -> bool)
    requires
        forall|i: int| 0 <= i < s.len() ==> pred(#[trigger] s[i]),
    ensures
        s.filter(pred) == s,
    decreases s.len(),
{
    reveal(Seq::filter);
    if s.len() > 0 {
        let t = s.drop_last();
        assert forall|i: int| 0 <= i < t.len() implies pred(#[trigger] t[i]) by {
            assert(t[i] == s[i]);
        }
        lemma_filter_keeps_all(t, pred);
        assert(t.push(s.last()) =~= s);
    } else {
        assert(s.filter(pred) =~= s);
    }
}

/// Writing a batch that deletes nothing and records nothing changes
/// nothing.
pub proof fn lemma_empty_batch(state: PartitionState)
    ensures
        state.commit(BatchView::retiring(Seq::empty(), None)) == state,
{
    let batch = BatchView::retiring(Seq::empty(), None);
    lemma_filter_keeps_all(
        state.stale_node_indices,
        |index: StaleNodeIndex| !batch.index_deletes.contains(index),
    );
    assert(state.commit(batch).nodes =~= state.nodes);
}

/// Filtering keeps a stream ordered.
pub proof fn lemma_filter_ordered(s: Seq<StaleNodeIndex>, pred: spec_fn(StaleNodeIndex) -> bool)
    requires
        is_ordered(s),
    ensures
        is_ordered(s.filter(pred)),
    decreases s.len(),
{
    reveal(Seq::filter);
    if s.len() > 0 {
        let t = s.drop_last();
        assert(is_ordered(t)) by {
            assert forall|i: int, j: int| 0 <= i < j < t.len() implies (#[trigger] t[i]).precedes(
                #[trigger] t[j],
            ) by {
                assert(s[i].precedes(s[j]));
            }
        }
        lemma_filter_ordered(t, pred);
        let f = t.filter(pred);
        if pred(s.last()) {
            let g = f.push(s.last());
            assert forall|i: int, j: int| 0 <= i < j < g.len() implies (#[trigger] g[i]).precedes(
                #[trigger] g[j],
            ) by {
                if j < f.len() {
                    assert(f[i].precedes(f[j]));
                } else {
                    assert(f.contains(f[i]));
                    lemma_filter_membership(t, pred, f[i]);
                    let k = choose|k: int| 0 <= k < t.len() && t[k] == f[i];
                    assert(s[k].precedes(s[s.len() - 1]));
                }
            }
        }
    }
}

/// Writing an admitted batch keeps a partition well formed.
pub proof fn lemma_commit_wf(state: PartitionState, batch: BatchView)
    requires
        state.wf(),
        state.admits(batch),
    ensures
        state.commit(batch).wf(),
{
    let after = state.commit(batch);
    let keep = |index: StaleNodeIndex| !batch.index_deletes.contains(index);
    lemma_filter_ordered(state.stale_node_indices, keep);
    assert forall|index: StaleNodeIndex| #[trigger]
        after.stale_node_indices.contains(index) implies after.nodes.contains(index.node_key) by {
        lemma_filter_membership(state.stale_node_indices, keep, index);
        if batch.node_deletes.contains(index.node_key) {
            let i = choose|i: int|
                0 <= i < batch.node_deletes.len() && batch.node_deletes[i] == index.node_key;
            let other = batch.index_deletes[i];
            assert(state.stale_node_indices.contains(other));
            assert(other == index);
            assert(batch.index_deletes.contains(index));
        }
    }
    assert forall|a: StaleNodeIndex, b: StaleNodeIndex|
        #[trigger] after.stale_node_indices.contains(a) && #[trigger] after.stale_node_indices.contains(
            b,
        ) && a.node_key == b.node_key implies a == b by {
        lemma_filter_membership(state.stale_node_indices, keep, a);
        lemma_filter_membership(state.stale_node_indices, keep, b);
    }
}

/// Why a set of nodes and stale indices is no partition.
#[derive(Clone, Copy, Debug, PartialEq, Eq, Structural)]
pub enum PartitionError {
    /// The stale indices are not in stream order.
    IndicesOutOfOrder,
    /// A stale index announces a node that is not there.
    MissingNode,
    /// Two stale indices announce the same node.
    NodeStaleTwice,
}

/// A partition held in memory.
pub struct Partition {
    nodes: Vec<NodeKey>,
    stale_node_indices: Vec<StaleNodeIndex>,
    progress: Option<Version>,
    target: Option<Version>,
}

impl View for Partition {
    type V = PartitionState;

    closed spec fn view(&self) -> PartitionState {
        PartitionState {
            nodes: self.nodes@.to_set(),
            stale_node_indices: self.stale_node_indices@,
            progress: self.progress,
            target: self.target,
        }
    }
}

fn holds_key(keys: &Vec<NodeKey>, key: &NodeKey) -> (found: bool)
    ensures
        found == keys@.contains(*key),
{
    let mut i: usize = 0;
    while i < keys.len()
        invariant
            i <= keys.len(),
            forall|j: int| 0 <= j < i ==> keys@[j] != *key,
        decreases keys.len() - i,
    {
        if keys[i] == *key {
            return true;
        }
        i += 1;
    }
    false
}

fn holds_index(indices: &Vec<StaleNodeIndex>, index: &StaleNodeIndex) -> (found: bool)
    ensures
        found == indices@.contains(*index),
{
    let mut i: usize = 0;
    while i < indices.len()
        invariant
            i <= indices.len(),
            forall|j: int| 0 <= j < i ==> indices@[j] != *index,
        decreases indices.len() - i,
    {
        if indices[i] == *index {
            return true;
        }
        i += 1;
    }
    false
}

fn in_stream_order(indices: &Vec<StaleNodeIndex>) -> (ordered: bool)
    ensures
        ordered == is_ordered(indices@),
{
    if indices.len() < 2 {
        return true;
    }
    let mut i: usize = 1;
    while i < indices.len()
        invariant
            1 <= i <= indices.len(),
            forall|a: int, b: int|
                0 <= a < b < i ==> (#[trigger] indices@[a]).precedes(#[trigger] indices@[b]),
        decreases indices.len() - i,
    {
        if !indices[i - 1].comes_before(&indices[i]) {
            return false;
        }
        proof {
            assert forall|a: int, b: int| 0 <= a < b < i + 1 implies (#[trigger] indices@[a]).precedes(
                #[trigger] indices@[b],
            ) by {
                if b == i && a < i - 1 {
                    assert(indices@[a].precedes(indices@[i - 1]));
                }
            }
        }
        i += 1;
    }
    true
}

fn all_nodes_present(nodes: &Vec<NodeKey>, indices: &Vec<StaleNodeIndex>) -> (present: bool)
    ensures
        present == (forall|index: StaleNodeIndex| #[trigger]
            indices@.contains(index) ==> nodes@.contains(index.node_key)),
{
    let mut i: usize = 0;
    while i < indices.len()
        invariant
            i <= indices.len(),
            forall|j: int| 0 <= j < i ==> nodes@.contains((#[trigger] indices@[j]).node_key),
        decreases indices.len() - i,
    {
        if !holds_key(nodes, &indices[i].node_key) {
            proof {
                assert(indices@.contains(indices@[i as int]));
            }
            return false;
        }
        i += 1;
    }
    true
}

fn node_keys_differ(indices: &Vec<StaleNodeIndex>) -> (distinct: bool)
    ensures
        distinct == (forall|i: int, j: int|
            0 <= i < j < indices.len() ==> (#[trigger] indices@[i]).node_key != (
            #[trigger] indices@[j]).node_key),
{
    let mut j: usize = 0;
    while j < indices.len()
        invariant
            j <= indices.len(),
            forall|a: int, b: int|
                0 <= a < b < j ==> (#[trigger] indices@[a]).node_key != (
                #[trigger] indices@[b]).node_key,
        decreases indices.len() - j,
    {
        let mut i: usize = 0;
        while i < j
            invariant
                i <= j < indices.len(),
                forall|a: int| 0 <= a < i ==> (#[trigger] indices@[a]).node_key != indices@[j as int].node_key,
            decreases j - i,
        {
            if indices[i].node_key == indices[j].node_key {
                return false;
            }
            i += 1;
        }
        j += 1;
    }
    true
}

impl Partition {
    /// See [`PartitionState::wf`].
    pub open spec fn wf(&self) -> bool {
        self@.wf()
    }

    /// Opens a partition over the given tree nodes, stale indices and
    /// records, or says why they are no partition.
    pub fn new(
        nodes: Vec<NodeKey>,
        stale_node_indices: Vec<StaleNodeIndex>,
        progress: Option<Version>,
        target: Option<Version>,
    ) -> (r: Result<Partition, PartitionError>)
        ensures
            match r {
                Ok(partition) => {
                    &&& partition.wf()
                    &&& partition@ == (PartitionState {
                        nodes: nodes@.to_set(),
                        stale_node_indices: stale_node_indices@,
                        progress,
                        target,
                    })
                },
                Err(PartitionError::IndicesOutOfOrder) => !is_ordered(stale_node_indices@),
                Err(PartitionError::MissingNode) => {
                    let state = PartitionState {
                        nodes: nodes@.to_set(),
                        stale_node_indices: stale_node_indices@,
                        progress,
                        target,
                    };
                    is_ordered(stale_node_indices@) && !state.indices_have_nodes()
                },
                Err(PartitionError::NodeStaleTwice) => {
                    let state = PartitionState {
                        nodes: nodes@.to_set(),
                        stale_node_indices: stale_node_indices@,
                        progress,
                        target,
                    };
                    is_ordered(stale_node_indices@) && state.indices_have_nodes()
                        && !state.node_keys_distinct()
                },
            },
    {
        let ghost state = PartitionState {
            nodes: nodes@.to_set(),
            stale_node_indices: stale_node_indices@,
            progress,
            target,
        };
        if !in_stream_order(&stale_node_indices) {
            return Err(PartitionError::IndicesOutOfOrder);
        }
        if !all_nodes_present(&nodes, &stale_node_indices) {
            proof {
                let index = choose|index: StaleNodeIndex| #[trigger]
                    stale_node_indices@.contains(index) && !nodes@.contains(index.node_key);
                assert(state.stale_node_indices.contains(index));
                assert(!state.nodes.contains(index.node_key));
            }
            return Err(PartitionError::MissingNode);
        }
        assert(state.indices_have_nodes()) by {
            assert forall|index: StaleNodeIndex| #[trigger]
                state.stale_node_indices.contains(index) implies state.nodes.contains(
                index.node_key,
            ) by {
                assert(nodes@.contains(index.node_key));
            }
        }
        if !node_keys_differ(&stale_node_indices) {
            proof {
                let s = stale_node_indices@;
                let (i, j) = choose|i: int, j: int|
                    0 <= i < j < s.len() && (#[trigger] s[i]).node_key == (#[trigger] s[j]).node_key;
                assert(s.contains(s[i]) && s.contains(s[j]));
                assert(s[i].precedes(s[j]));
                let a = s[i];
                let b = s[j];
                assert(state.stale_node_indices.contains(a) && state.stale_node_indices.contains(b)
                    && a.node_key == b.node_key && a != b);
            }
            return Err(PartitionError::NodeStaleTwice);
        }
        proof {
            let s = stale_node_indices@;
            assert forall|a: StaleNodeIndex, b: StaleNodeIndex|
                #[trigger] s.contains(a) && #[trigger] s.contains(b) && a.node_key
                    == b.node_key implies a == b by {
                let i = choose|i: int| 0 <= i < s.len() && s[i] == a;
                let j = choose|j: int| 0 <= j < s.len() && s[j] == b;
                if i < j {
                    assert(s[i].node_key != s[j].node_key);
                } else if j < i {
                    assert(s[j].node_key != s[i].node_key);
                }
            }
        }
        Ok(Partition { nodes, stale_node_indices, progress, target })
    }

    /// The progress record.
    pub fn progress(&self) -> (progress: Option<Version>)
        ensures
            progress == self@.progress,
    {
        self.progress
    }

    /// The target record.
    pub fn target(&self) -> (target: Option<Version>)
        ensures
            target == self@.target,
    {
        self.target
    }

    /// Whether the tree node at `key` is present.
    pub fn contains_node(&self, key: &NodeKey) -> (present: bool)
        ensures
            present == self@.nodes.contains(*key),
    {
        holds_key(&self.nodes, key)
    }

    /// Whether the stale index `index` is present.
    pub fn contains_stale_index(&self, index: &StaleNodeIndex) -> (present: bool)
        ensures
            present == self@.stale_node_indices.contains(*index),
    {
        holds_index(&self.stale_node_indices, index)
    }

    /// The stream of stale indices, in order.
    pub fn stale_node_indices(&self) -> (indices: &Vec<StaleNodeIndex>)
        ensures
            indices@ == self@.stale_node_indices,
    {
        &self.stale_node_indices
    }

    /// A stream that is held in memory has at most `usize::MAX` entries.
    pub proof fn lemma_stream_fits(&self)
        ensures
            self@.stale_node_indices.len() <= usize::MAX,
    {
        assert(self.stale_node_indices.len() == self.stale_node_indices@.len());
    }

    /// Positions a scan of the stream: the number of stale indices that
    /// precede `seek_key`, all of which stand before the others.
    pub fn seek(&self, seek_key: &StaleNodeIndex) -> (position: usize)
        requires
            self.wf(),
        ensures
            position <= self@.stale_node_indices.len(),
            forall|i: int|
                0 <= i < position ==> (#[trigger] self@.stale_node_indices[i]).precedes(*seek_key),
            forall|i: int|
                position <= i < self@.stale_node_indices.len() ==> !(
                #[trigger] self@.stale_node_indices[i]).precedes(*seek_key),
    {
        let stream = &self.stale_node_indices;
        let mut low: usize = 0;
        let mut high: usize = stream.len();
        while low < high
            invariant
                low <= high <= stream.len(),
                is_ordered(stream@),
                forall|i: int| 0 <= i < low ==> (#[trigger] stream@[i]).precedes(*seek_key),
                forall|i: int|
                    high <= i < stream.len() ==> !(#[trigger] stream@[i]).precedes(*seek_key),
            decreases high - low,
        {
            let middle = low + (high - low) / 2;
            if stream[middle].comes_before(seek_key) {
                proof {
                    assert forall|i: int| 0 <= i < middle + 1 implies (#[trigger] stream@[i]).precedes(
                        *seek_key,
                    ) by {
                        if i < middle {
                            assert(stream@[i].precedes(stream@[middle as int]));
                        }
                    }
                }
                low = middle + 1;
            } else {
                proof {
                    assert forall|i: int| middle <= i < stream.len() implies !(
                    #[trigger] stream@[i]).precedes(*seek_key) by {
                        if middle < i {
                            assert(stream@[middle as int].precedes(stream@[i]));
                        }
                    }
                }
                high = middle;
            }
        }
        low
    }

    /// Writes `batch` in one step.
    pub(crate) fn write_schemas(&mut self, batch: &SchemaBatch)
        ensures
            final(self)@ == old(self)@.commit(batch@),
    {
        let ghost keep_node = |key: NodeKey| !batch@.node_deletes.contains(key);
        let ghost keep_index = |index: StaleNodeIndex| !batch@.index_deletes.contains(index);
        let mut nodes: Vec<NodeKey> = Vec::new();
        let mut i: usize = 0;
        while i < self.nodes.len()
            invariant
                i <= self.nodes.len(),
                keep_node == (|key: NodeKey| !batch@.node_deletes.contains(key)),
                nodes@ == self.nodes@.take(i as int).filter(keep_node),
            decreases self.nodes.len() - i,
        {
            let key = self.nodes[i];
            proof {
                self.nodes@.take(i as int).lemma_filter_push(key, keep_node);
                assert(self.nodes@.take(i as int).push(key) == self.nodes@.take(i + 1));
            }
            if !holds_key(batch.node_deletes(), &key) {
                nodes.push(key);
            }
            i += 1;
        }
        let mut indices: Vec<StaleNodeIndex> = Vec::new();
        let mut j: usize = 0;
        while j < self.stale_node_indices.len()
            invariant
                j <= self.stale_node_indices.len(),
                keep_index == (|index: StaleNodeIndex| !batch@.index_deletes.contains(index)),
                indices@ == self.stale_node_indices@.take(j as int).filter(keep_index),
            decreases self.stale_node_indices.len() - j,
        {
            let index = self.stale_node_indices[j];
            proof {
                self.stale_node_indices@.take(j as int).lemma_filter_push(index, keep_index);
                assert(self.stale_node_indices@.take(j as int).push(index)
                    == self.stale_node_indices@.take(j + 1));
            }
            if !holds_index(batch.index_deletes(), &index) {
                indices.push(index);
            }
            j += 1;
        }
        proof {
            assert(self.nodes@.take(self.nodes@.len() as int) == self.nodes@);
            assert(self.stale_node_indices@.take(self.stale_node_indices@.len() as int)
                == self.stale_node_indices@);
            assert forall|key: NodeKey|
                nodes@.to_set().contains(key) <==> old(self)@.commit(batch@).nodes.contains(
                    key,
                ) by {
                lemma_filter_membership(self.nodes@, keep_node, key);
            }
            assert(nodes@.to_set() == old(self)@.commit(batch@).nodes);
        }
        self.nodes = nodes;
        self.stale_node_indices = indices;
        if let Some(version) = batch.progress() {
            self.progress = Some(version);
        }
        if let Some(version) = batch.target() {
            self.target = Some(version);
        }
    }
}

} // verus!
