//! Stale-index records and the order in which a partition streams them.

use vstd::prelude::*;

verus! {

/// A committed state snapshot of the forest.
pub type Version = u64;

/// Identity of one tree node: the version that created it, and its path
/// within the tree of that version. The path is held as an ordinal: a
/// path that sorts before another has the smaller number.
#[derive(Clone, Copy, Debug, PartialEq, Eq, Structural)]
pub struct NodeKey {
    pub version: Version,
    pub path: u64,
}

impl NodeKey {
    /// The order of node keys: by version, then by path.
    pub open spec fn precedes(self, other: NodeKey) -> bool {
        self.version < other.version || (self.version == other.version && self.path < other.path)
    }

    pub fn new(version: Version, path: u64) -> (key: NodeKey)
        ensures
            key == (NodeKey { version, path }),
    {
        NodeKey { version, path }
    }

    /// The root position of the tree of `version`: no key of that version
    /// precedes it.
    pub fn new_empty_path(version: Version) -> (key: NodeKey)
        ensures
            key == (NodeKey { version, path: 0 }),
            forall|other: NodeKey| other.version == version ==> !other.precedes(key),
    {
        NodeKey { version, path: 0 }
    }

    pub fn version(&self) -> (v: Version)
        ensures
            v == self.version,
    {
        self.version
    }

    pub fn path(&self) -> (p: u64)
        ensures
            p == self.path,
    {
        self.path
    }

    pub fn comes_before(&self, other: &NodeKey) -> (b: bool)
        ensures
            b == self.precedes(*other),
    {
        self.version < other.version || (self.version == other.version && self.path < other.path)
    }
}

/// The fact that the node at `node_key` became unreachable as of
/// `stale_since_version`.
#[derive(Clone, Copy, Debug, PartialEq, Eq, Structural)]
pub struct StaleNodeIndex {
    pub stale_since_version: Version,
    pub node_key: NodeKey,
}

impl StaleNodeIndex {
    /// The order of a stale-index stream: by the version that retired the
    /// node, then by node key.
    pub open spec fn precedes(self, other: StaleNodeIndex) -> bool {
        self.stale_since_version < other.stale_since_version || (self.stale_since_version
            == other.stale_since_version && self.node_key.precedes(other.node_key))
    }

    pub fn new(stale_since_version: Version, node_key: NodeKey) -> (index: StaleNodeIndex)
        ensures
            index == (StaleNodeIndex { stale_since_version, node_key }),
    {
        StaleNodeIndex { stale_since_version, node_key }
    }

    pub fn comes_before(&self, other: &StaleNodeIndex) -> (b: bool)
        ensures
            b == self.precedes(*other),
    {
        self.stale_since_version < other.stale_since_version || (self.stale_since_version
            == other.stale_since_version && self.node_key.comes_before(&other.node_key))
    }
}

/// A stream is ordered when each entry precedes all later ones; an ordered
/// stream holds no entry twice.
pub open spec fn is_ordered(s: Seq<StaleNodeIndex>) -> bool {
    forall|i: int, j: int| 0 <= i < j < s.len() ==> (#[trigger] s[i]).precedes(#[trigger] s[j])
}

/// The node keys of a stream, entry by entry.
pub open spec fn node_keys(s: Seq<StaleNodeIndex>) -> Seq<NodeKey> {
    s.map_values(|index: StaleNodeIndex| index.node_key)
}

/// Number of entries of `s` that went stale before version `v`.
pub open spec fn entries_below(s: Seq<StaleNodeIndex>, v: int) -> int
    decreases s.len(),
{
    if s.len() == 0 {
        0
    } else {
        entries_below(s.drop_last(), v) + if s.last().stale_since_version < v {
            1int
        } else {
            0int
        }
    }
}

/// In an ordered stream the entries that went stale before `v` are exactly
/// the first `entries_below(s, v)` ones.
pub proof fn lemma_entries_below(s: Seq<StaleNodeIndex>, v: int)
    requires
        is_ordered(s),
    ensures
        0 <= entries_below(s, v) <= s.len(),
        forall|i: int|
            0 <= i < s.len() ==> ((#[trigger] s[i]).stale_since_version < v <==> i < entries_below(
                s,
                v,
            )),
    decreases s.len(),
{
    if s.len() > 0 {
        let t = s.drop_last();
        assert(is_ordered(t)) by {
            assert forall|i: int, j: int| 0 <= i < j < t.len() implies (#[trigger] t[i]).precedes(
                #[trigger] t[j],
            ) by {
                assert(s[i].precedes(s[j]));
            }
        }
        lemma_entries_below(t, v);
        assert forall|i: int| 0 <= i < s.len() implies ((#[trigger] s[i]).stale_since_version < v
            <==> i < entries_below(s, v)) by {
            if i < t.len() {
                assert(t[i] == s[i]);
                assert(s[i].precedes(s.last()));
            } else {
                if s.last().stale_since_version < v {
                    if t.len() > 0 {
                        assert(t[t.len() - 1] == s[t.len() - 1]);
                        assert(s[t.len() - 1].precedes(s.last()));
                    }
                } else {
                }
            }
        }
    }
}

} // verus!
