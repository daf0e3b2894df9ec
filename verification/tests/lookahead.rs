use aptos_node::pruner::index::{NodeKey, StaleNodeIndex};
use aptos_node::pruner::partition::Partition;
use aptos_node::pruner::state_merkle_pruner::StateMerklePruner;

fn stale(stale_since_version: u64, path: u64) -> StaleNodeIndex {
    StaleNodeIndex::new(stale_since_version, NodeKey::new(0, path))
}

fn partition_of(indices: Vec<StaleNodeIndex>) -> Partition {
    let nodes = indices.iter().map(|index| index.node_key).collect();
    Partition::new(nodes, indices, None, None).unwrap()
}

fn rising() -> Vec<StaleNodeIndex> {
    vec![stale(10, 0), stale(20, 1), stale(30, 2), stale(40, 3), stale(50, 4)]
}

#[test]
fn batch_below_the_stream_returns_the_batch_and_the_next_version() {
    let partition = partition_of(rising());
    let (indices, next_version) = StateMerklePruner::get_stale_node_indices(&partition, 0, 100, 2);
    assert_eq!(indices, vec![stale(10, 0), stale(20, 1)]);
    assert_eq!(next_version, Some(30));
}

#[test]
fn every_batch_size_below_the_stream_points_at_the_entry_behind_the_batch() {
    let all = rising();
    let partition = partition_of(rising());
    for batch_size in 0..all.len() {
        let (indices, next_version) =
            StateMerklePruner::get_stale_node_indices(&partition, 0, 100, batch_size);
        assert_eq!(indices, all[..batch_size].to_vec());
        assert_eq!(next_version, Some(all[batch_size].stale_since_version));
    }
}

#[test]
fn batch_of_the_stream_size_returns_all_and_the_last_version() {
    let partition = partition_of(rising());
    let (indices, next_version) = StateMerklePruner::get_stale_node_indices(&partition, 0, 100, 5);
    assert_eq!(indices, rising());
    assert_eq!(next_version, Some(50));
}

#[test]
fn batch_above_the_stream_size_returns_all_and_the_last_version() {
    let partition = partition_of(rising());
    let (indices, next_version) = StateMerklePruner::get_stale_node_indices(&partition, 0, 100, 7);
    assert_eq!(indices, rising());
    assert_eq!(next_version, Some(50));
    let (indices, next_version) =
        StateMerklePruner::get_stale_node_indices(&partition, 0, 100, usize::MAX);
    assert_eq!(indices, rising());
    assert_eq!(next_version, Some(50));
}

#[test]
fn scan_of_an_empty_stream_sees_nothing() {
    let partition = partition_of(vec![]);
    let (indices, next_version) = StateMerklePruner::get_stale_node_indices(&partition, 0, 100, 3);
    assert_eq!(indices, vec![]);
    assert_eq!(next_version, None);
}

#[test]
fn scan_past_the_end_of_the_stream_sees_nothing() {
    let partition = partition_of(rising());
    let (indices, next_version) = StateMerklePruner::get_stale_node_indices(&partition, 51, 100, 3);
    assert_eq!(indices, vec![]);
    assert_eq!(next_version, None);
}

#[test]
fn scan_stops_at_the_first_entry_beyond_the_ceiling_and_reports_it() {
    let partition = partition_of(rising());
    let (indices, next_version) = StateMerklePruner::get_stale_node_indices(&partition, 0, 25, 10);
    assert_eq!(indices, vec![stale(10, 0), stale(20, 1)]);
    assert_eq!(next_version, Some(30));
}

#[test]
fn scan_with_nothing_up_to_the_ceiling_reports_the_next_version() {
    let partition = partition_of(rising());
    let (indices, next_version) = StateMerklePruner::get_stale_node_indices(&partition, 0, 9, 10);
    assert_eq!(indices, vec![]);
    assert_eq!(next_version, Some(10));
}

#[test]
fn scan_starts_at_the_first_entry_at_or_after_the_start_version() {
    let partition = partition_of(rising());
    let (indices, next_version) = StateMerklePruner::get_stale_node_indices(&partition, 20, 40, 10);
    assert_eq!(indices, vec![stale(20, 1), stale(30, 2), stale(40, 3)]);
    assert_eq!(next_version, Some(50));
    let (indices, next_version) = StateMerklePruner::get_stale_node_indices(&partition, 21, 40, 10);
    assert_eq!(indices, vec![stale(30, 2), stale(40, 3)]);
    assert_eq!(next_version, Some(50));
}

#[test]
fn over_fetched_entry_is_dropped_but_reported() {
    let partition = partition_of(rising());
    let (indices, next_version) = StateMerklePruner::get_stale_node_indices(&partition, 20, 40, 2);
    assert_eq!(indices, vec![stale(20, 1), stale(30, 2)]);
    assert_eq!(next_version, Some(40));
}

#[test]
fn batch_may_cut_a_version_in_two() {
    let indices = vec![stale(5, 0), stale(5, 1), stale(5, 2), stale(7, 3)];
    let partition = partition_of(indices);
    let (batch, next_version) = StateMerklePruner::get_stale_node_indices(&partition, 0, 5, 2);
    assert_eq!(batch, vec![stale(5, 0), stale(5, 1)]);
    assert_eq!(next_version, Some(5));
    let (batch, next_version) = StateMerklePruner::get_stale_node_indices(&partition, 0, 5, 3);
    assert_eq!(batch, vec![stale(5, 0), stale(5, 1), stale(5, 2)]);
    assert_eq!(next_version, Some(7));
}

#[test]
fn batch_size_zero_returns_nothing_but_the_cursor() {
    let partition = partition_of(rising());
    let (indices, next_version) = StateMerklePruner::get_stale_node_indices(&partition, 0, 100, 0);
    assert_eq!(indices, vec![]);
    assert_eq!(next_version, Some(10));
}

#[test]
fn scan_reaches_the_largest_version() {
    let indices = vec![stale(1, 0), stale(u64::MAX, 1)];
    let partition = partition_of(indices.clone());
    let (batch, next_version) =
        StateMerklePruner::get_stale_node_indices(&partition, 0, u64::MAX, usize::MAX);
    assert_eq!(batch, indices);
    assert_eq!(next_version, Some(u64::MAX));
}
