//! The lookahead scan: one bounded batch of stale indices, and the version
//! at which the next batch resumes.

use crate::pruner::index::{
    entries_below, is_ordered, lemma_entries_below, NodeKey, StaleNodeIndex, Version,
};
use crate::pruner::partition::Partition;
use crate::pruner::state_merkle_pruner::StateMerklePruner;
use vstd::prelude::*;

verus! {

/// Where a scan from `start_version` begins: behind the entries that went
/// stale before it.
pub open spec fn window_start(s: Seq<StaleNodeIndex>, start_version: Version) -> int {
    entries_below(s, start_version as int)
}

/// Where the entries that a scan from `start_version` up to
/// `target_version` qualifies come to an end.
pub open spec fn window_end(
    s: Seq<StaleNodeIndex>,
    start_version: Version,
    target_version: Version,
) -> int {
    let from = window_start(s, start_version);
    let upto = entries_below(s, target_version + 1);
    if upto < from {
        from
    } else {
        upto
    }
}

/// The stale indices of the versions `start_version..=target_version`, in
/// stream order.
pub open spec fn stale_window(
    s: Seq<StaleNodeIndex>,
    start_version: Version,
    target_version: Version,
) -> Seq<StaleNodeIndex> {
    s.subrange(window_start(s, start_version), window_end(s, start_version, target_version))
}

/// The batch that a lookahead scan returns: the first `batch_size` entries
/// of the window, or all of it where it holds no more.
pub open spec fn lookahead_batch(
    s: Seq<StaleNodeIndex>,
    start_version: Version,
    target_version: Version,
    batch_size: usize,
) -> Seq<StaleNodeIndex> {
    let window = stale_window(s, start_version, target_version);
    if window.len() > batch_size {
        window.take(batch_size as int)
    } else {
        window
    }
}

/// The cursor that a lookahead scan reports. Where the window holds more
/// than `batch_size` entries, it is the version of the first entry left
/// out. Else it is the version of the last entry that the scan saw: the
/// first one beyond the window, or the window's last where the stream ends
/// with it; it is unset where the scan saw no entry.
pub open spec fn lookahead_cursor(
    s: Seq<StaleNodeIndex>,
    start_version: Version,
    target_version: Version,
    batch_size: usize,
) -> Option<Version> {
    let from = window_start(s, start_version);
    let end = window_end(s, start_version, target_version);
    if end - from > batch_size {
        Some(s[from + batch_size].stale_since_version)
    } else if end < s.len() {
        Some(s[end].stale_since_version)
    } else if from < end {
        Some(s[end - 1].stale_since_version)
    } else {
        None
    }
}

/// In an ordered stream the window is a stretch of the stream, and holds
/// exactly the entries of the versions `start_version..=target_version`.
pub proof fn lemma_stale_window(
    s: Seq<StaleNodeIndex>,
    start_version: Version,
    target_version: Version,
)
    requires
        is_ordered(s),
    ensures
        0 <= window_start(s, start_version) <= window_end(s, start_version, target_version)
            <= s.len(),
        forall|i: int|
            0 <= i < s.len() ==> ((#[trigger] s[i]).stale_since_version < start_version <==> i
                < window_start(s, start_version)),
        forall|i: int|
            window_start(s, start_version) <= i < s.len() ==> ((
            #[trigger] s[i]).stale_since_version <= target_version <==> i < window_end(
                s,
                start_version,
                target_version,
            )),
        forall|index: StaleNodeIndex|
            stale_window(s, start_version, target_version).contains(index) <==> s.contains(index)
                && start_version <= index.stale_since_version <= target_version,
{
    let from = window_start(s, start_version);
    let end = window_end(s, start_version, target_version);
    let window = stale_window(s, start_version, target_version);
    lemma_entries_below(s, start_version as int);
    lemma_entries_below(s, target_version + 1);
    assert forall|index: StaleNodeIndex| window.contains(index) <==> s.contains(index)
        && start_version <= index.stale_since_version <= target_version by {
        if window.contains(index) {
            let i = choose|i: int| 0 <= i < window.len() && window[i] == index;
            assert(s[from + i] == index);
        }
        if s.contains(index) && start_version <= index.stale_since_version <= target_version {
            let i = choose|i: int| 0 <= i < s.len() && s[i] == index;
            assert(window[i - from] == index);
        }
    }
}

/// A scan that reports no cursor saw no entry: the stream holds nothing at
/// or after `start_version`.
pub proof fn lemma_cursor_unset(
    s: Seq<StaleNodeIndex>,
    start_version: Version,
    target_version: Version,
    batch_size: usize,
)
    requires
        is_ordered(s),
        lookahead_cursor(s, start_version, target_version, batch_size) is None,
    ensures
        forall|index: StaleNodeIndex| #[trigger]
            s.contains(index) ==> index.stale_since_version < start_version,
{
    lemma_stale_window(s, start_version, target_version);
    assert forall|index: StaleNodeIndex| #[trigger] s.contains(index) implies index.stale_since_version
        < start_version by {
        let i = choose|i: int| 0 <= i < s.len() && s[i] == index;
        assert(s[i].stale_since_version < start_version);
    }
}

/// Where the batch size does not cut the window short, the cursor is a
/// lower bound of the versions that lie beyond the window; and a cursor
/// within the window shows that the window is not empty.
pub proof fn lemma_cursor_of_whole_window(
    s: Seq<StaleNodeIndex>,
    start_version: Version,
    target_version: Version,
    batch_size: usize,
)
    requires
        is_ordered(s),
        s.len() <= batch_size,
        lookahead_cursor(s, start_version, target_version, batch_size) is Some,
    ensures
        forall|index: StaleNodeIndex| #[trigger]
            s.contains(index) && start_version <= index.stale_since_version && target_version
                < index.stale_since_version ==> lookahead_cursor(
                s,
                start_version,
                target_version,
                batch_size,
            )->0 <= index.stale_since_version,
        lookahead_cursor(s, start_version, target_version, batch_size)->0 <= target_version
            ==> stale_window(s, start_version, target_version).len() > 0,
        lookahead_batch(s, start_version, target_version, batch_size) == stale_window(
            s,
            start_version,
            target_version,
        ),
{
    lemma_stale_window(s, start_version, target_version);
    let end = window_end(s, start_version, target_version);
    assert forall|index: StaleNodeIndex| #[trigger]
        s.contains(index) && start_version <= index.stale_since_version && target_version
            < index.stale_since_version implies lookahead_cursor(
        s,
        start_version,
        target_version,
        batch_size,
    )->0 <= index.stale_since_version by {
        let i = choose|i: int| 0 <= i < s.len() && s[i] == index;
        assert(!(s[i].stale_since_version < start_version));
        assert(!(s[i].stale_since_version <= target_version));
        if end < i {
            assert(s[end].precedes(s[i]));
        }
    }
}

/// Whether the stream holds a stale index at or after `start_version`
/// that lies beyond the window.
pub open spec fn lies_beyond(
    s: Seq<StaleNodeIndex>,
    start_version: Version,
    target_version: Version,
) -> bool {
    window_end(s, start_version, target_version) < s.len()
}

/// A stale index lies beyond the window exactly when the stream holds one
/// of a version at or after `start_version` and above `target_version`.
pub proof fn lemma_lies_beyond(
    s: Seq<StaleNodeIndex>,
    start_version: Version,
    target_version: Version,
)
    requires
        is_ordered(s),
    ensures
        lies_beyond(s, start_version, target_version) <==> exists|index: StaleNodeIndex| #[trigger]
            s.contains(index) && start_version <= index.stale_since_version && target_version
                < index.stale_since_version,
{
    lemma_stale_window(s, start_version, target_version);
    let end = window_end(s, start_version, target_version);
    if end < s.len() {
        assert(s.contains(s[end]));
        assert(!(s[end].stale_since_version < start_version));
    }
    if exists|index: StaleNodeIndex| #[trigger]
        s.contains(index) && start_version <= index.stale_since_version && target_version
            < index.stale_since_version {
        let index = choose|index: StaleNodeIndex| #[trigger]
            s.contains(index) && start_version <= index.stale_since_version && target_version
                < index.stale_since_version;
        let i = choose|i: int| 0 <= i < s.len() && s[i] == index;
        assert(!(s[i].stale_since_version < start_version));
        assert(!(s[i].stale_since_version <= target_version));
    }
}

/// A scan finds nothing more to come, its cursor being unset or beyond the
/// window, exactly when its batch takes in the whole window and either a
/// stale index lies beyond the window or the window is empty.
pub proof fn lemma_scan_finds_the_end(
    s: Seq<StaleNodeIndex>,
    start_version: Version,
    target_version: Version,
    batch_size: usize,
)
    requires
        is_ordered(s),
    ensures
        (match lookahead_cursor(s, start_version, target_version, batch_size) {
            Some(version) => version > target_version,
            None => true,
        }) <==> stale_window(s, start_version, target_version).len() <= batch_size && (lies_beyond(
            s,
            start_version,
            target_version,
        ) || stale_window(s, start_version, target_version).len() == 0),
{
    lemma_stale_window(s, start_version, target_version);
}

/// A stretch of an ordered stream is ordered.
pub proof fn lemma_subrange_ordered(s: Seq<StaleNodeIndex>, from: int, end: int)
    requires
        is_ordered(s),
        0 <= from <= end <= s.len(),
    ensures
        is_ordered(s.subrange(from, end)),
{
    let t = s.subrange(from, end);
    assert forall|i: int, j: int| 0 <= i < j < t.len() implies (#[trigger] t[i]).precedes(
        #[trigger] t[j],
    ) by {
        assert(s[from + i].precedes(s[from + j]));
    }
}

/// The stream holds a stale index of version `version`.
pub open spec fn has_version(s: Seq<StaleNodeIndex>, version: Version) -> bool {
    exists|index: StaleNodeIndex| #[trigger] s.contains(index) && index.stale_since_version == version
}

/// A cursor is the version of an entry at or after `start_version`; where
/// the batch size does not cut the window short, the cursor is the
/// largest version of the window unless an entry lies beyond.
pub proof fn lemma_cursor_is_seen(
    s: Seq<StaleNodeIndex>,
    start_version: Version,
    target_version: Version,
    batch_size: usize,
)
    requires
        is_ordered(s),
        lookahead_cursor(s, start_version, target_version, batch_size) is Some,
    ensures
        has_version(s, lookahead_cursor(s, start_version, target_version, batch_size)->0),
        start_version <= lookahead_cursor(s, start_version, target_version, batch_size)->0,
        s.len() <= batch_size && lookahead_cursor(
            s,
            start_version,
            target_version,
            batch_size,
        )->0 <= target_version ==> forall|index: StaleNodeIndex| #[trigger]
            s.contains(index) && start_version <= index.stale_since_version
                ==> index.stale_since_version <= lookahead_cursor(
                s,
                start_version,
                target_version,
                batch_size,
            )->0,
{
    lemma_stale_window(s, start_version, target_version);
    let from = window_start(s, start_version);
    let end = window_end(s, start_version, target_version);
    let seen = if end - from > batch_size {
        from + batch_size
    } else if end < s.len() {
        end
    } else {
        end - 1
    };
    assert(s.contains(s[seen]));
    assert(!(s[seen].stale_since_version < start_version));
    if s.len() <= batch_size && s[seen].stale_since_version <= target_version {
        assert forall|index: StaleNodeIndex| #[trigger]
            s.contains(index) && start_version <= index.stale_since_version implies index.stale_since_version
            <= s[seen].stale_since_version by {
            let i = choose|i: int| 0 <= i < s.len() && s[i] == index;
            if seen < i {
                assert(s[seen].precedes(s[i]));
            } else if i < seen {
                assert(s[i].precedes(s[seen]));
            }
        }
    }
}

/// What makes `version` the cursor of a scan whose batch size does not
/// cut the window short: it is the version of an entry at or after
/// `start_version`; beyond `target_version` it is the least such version
/// that is; within, no entry at or after `start_version` exceeds it.
pub open spec fn is_cursor(
    s: Seq<StaleNodeIndex>,
    start_version: Version,
    target_version: Version,
    version: Version,
) -> bool {
    &&& has_version(s, version)
    &&& start_version <= version
    &&& target_version < version ==> forall|index: StaleNodeIndex| #[trigger]
        s.contains(index) && start_version <= index.stale_since_version && target_version
            < index.stale_since_version ==> version <= index.stale_since_version
    &&& version <= target_version ==> forall|index: StaleNodeIndex| #[trigger]
        s.contains(index) && start_version <= index.stale_since_version
            ==> index.stale_since_version <= version
}

/// The cursor of a scan whose batch size does not cut the window short is
/// the one version that `is_cursor` describes.
pub proof fn lemma_cursor_characterized(
    s: Seq<StaleNodeIndex>,
    start_version: Version,
    target_version: Version,
    batch_size: usize,
    version: Version,
)
    requires
        is_ordered(s),
        s.len() <= batch_size,
    ensures
        lookahead_cursor(s, start_version, target_version, batch_size) == Some(version)
            <==> is_cursor(s, start_version, target_version, version),
{
    let cursor = lookahead_cursor(s, start_version, target_version, batch_size);
    if cursor is Some {
        lemma_cursor_of_whole_window(s, start_version, target_version, batch_size);
        lemma_cursor_is_seen(s, start_version, target_version, batch_size);
        assert(is_cursor(s, start_version, target_version, cursor->0));
    }
    if is_cursor(s, start_version, target_version, version) {
        let seen = choose|index: StaleNodeIndex| #[trigger]
            s.contains(index) && index.stale_since_version == version;
        if cursor is None {
            lemma_cursor_unset(s, start_version, target_version, batch_size);
        }
        let other = choose|index: StaleNodeIndex| #[trigger]
            s.contains(index) && index.stale_since_version == cursor->0;
        assert(cursor->0 == version);
    }
}

/// A scan whose window takes in all of an ordered stream of `N` entries
/// returns, for a batch size below `N`, the first `batch_size` entries and
/// as cursor the version of the entry behind them; for any other batch
/// size it returns all `N` entries, and its cursor points at nothing
/// beyond them: it is unset for the empty stream, else the version of the
/// last entry.
pub proof fn lemma_lookahead_over_whole_stream(
    s: Seq<StaleNodeIndex>,
    start_version: Version,
    target_version: Version,
    batch_size: usize,
)
    requires
        is_ordered(s),
        forall|i: int|
            0 <= i < s.len() ==> start_version <= (#[trigger] s[i]).stale_since_version
                <= target_version,
    ensures
        batch_size < s.len() ==> {
            &&& lookahead_batch(s, start_version, target_version, batch_size) == s.take(
                batch_size as int,
            )
            &&& lookahead_cursor(s, start_version, target_version, batch_size) == Some(
                s[batch_size as int].stale_since_version,
            )
        },
        batch_size >= s.len() ==> {
            &&& lookahead_batch(s, start_version, target_version, batch_size) == s
            &&& lookahead_cursor(s, start_version, target_version, batch_size) == if s.len() == 0 {
                None
            } else {
                Some(s.last().stale_since_version)
            }
        },
{
    lemma_stale_window(s, start_version, target_version);
    let from = window_start(s, start_version);
    let end = window_end(s, start_version, target_version);
    if s.len() > 0 {
        assert(!(s[0].stale_since_version < start_version));
        assert(s[s.len() - 1].stale_since_version <= target_version);
    }
    assert(from == 0);
    assert(end == s.len());
    assert(stale_window(s, start_version, target_version) == s);
}

impl StateMerklePruner {
    /// Scans the partition's stream from the first stale index at or after
    /// `start_version`. Reads entries while they are of a version up to
    /// `target_version`, at most `batch_size` of them and one more, which it
    /// leaves out of the batch again but reports as the cursor.
    pub fn get_stale_node_indices(
        state_merkle_db_shard: &Partition,
        start_version: Version,
        target_version: Version,
        batch_size: usize,
    ) -> (r: (Vec<StaleNodeIndex>, Option<Version>))
        requires
            state_merkle_db_shard.wf(),
        ensures
            r.0@ == lookahead_batch(
                state_merkle_db_shard@.stale_node_indices,
                start_version,
                target_version,
                batch_size,
            ),
            r.1 == lookahead_cursor(
                state_merkle_db_shard@.stale_node_indices,
                start_version,
                target_version,
                batch_size,
            ),
    {
        let stream = state_merkle_db_shard.stale_node_indices();
        let seek_key = StaleNodeIndex::new(start_version, NodeKey::new_empty_path(0));
        let mut position = state_merkle_db_shard.seek(&seek_key);
        let ghost s = stream@;
        let ghost from = window_start(s, start_version);
        let ghost end = window_end(s, start_version, target_version);
        proof {
            lemma_stale_window(s, start_version, target_version);
            assert forall|i: int| 0 <= i < s.len() implies (s[i].precedes(seek_key) <==> (
            #[trigger] s[i]).stale_since_version < start_version) by {}
            if position < from {
                assert(!s[position as int].precedes(seek_key));
            }
            if from < position {
                assert(s[from].precedes(seek_key));
            }
        }
        let mut indices: Vec<StaleNodeIndex> = Vec::new();
        let mut next_version: Option<Version> = None;
        let mut within = true;
        // over fetch by 1
        while within && indices.len() <= batch_size && position < stream.len()
            invariant
                s == stream@,
                is_ordered(s),
                from == window_start(s, start_version),
                end == window_end(s, start_version, target_version),
                0 <= from <= position <= end <= s.len(),
                forall|i: int|
                    from <= i < s.len() ==> ((#[trigger] s[i]).stale_since_version <= target_version
                        <==> i < end),
                indices@ == s.subrange(from, position as int),
                indices.len() <= batch_size + 1,
                within ==> next_version == if from < position {
                    Some(s[position - 1].stale_since_version)
                } else {
                    None
                },
                !within ==> position == end && end < s.len() && indices.len() <= batch_size
                    && next_version == Some(s[end].stale_since_version),
            decreases s.len() - position + if within { 1int } else { 0int },
        {
            let index = stream[position];
            next_version = Some(index.stale_since_version);
            if index.stale_since_version <= target_version {
                indices.push(index);
                position += 1;
                assert(indices@ == s.subrange(from, position as int));
            } else {
                within = false;
            }
        }
        if indices.len() > batch_size {
            indices.pop();
            assert(indices@ == s.subrange(from, end).take(batch_size as int));
        } else {
            assert(indices@ == s.subrange(from, end));
        }
        (indices, next_version)
    }
}

} // verus!
