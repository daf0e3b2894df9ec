use aptos_node::pruner::index::{NodeKey, StaleNodeIndex};
use aptos_node::pruner::partition::Partition;
use aptos_node::pruner::schema_batch::{shard_batches_end, WrittenBatch};
use aptos_node::pruner::state_merkle_db::StateMerkleDb;
use aptos_node::pruner::state_merkle_metadata_pruner::StateMerkleMetadataPruner;
use aptos_node::pruner::state_merkle_pruner::StateMerklePruner;
use aptos_node::pruner::state_merkle_shard_pruner::StateMerkleShardPruner;

fn key(version: u64, path: u64) -> NodeKey {
    NodeKey::new(version, path)
}

fn stale(stale_since_version: u64, version: u64, path: u64) -> StaleNodeIndex {
    StaleNodeIndex::new(stale_since_version, key(version, path))
}

/// A partition that holds the nodes of `indices` and the `live` nodes.
fn partition(indices: &[StaleNodeIndex], live: &[NodeKey], progress: Option<u64>) -> Partition {
    let mut nodes: Vec<NodeKey> = indices.iter().map(|index| index.node_key).collect();
    nodes.extend_from_slice(live);
    Partition::new(nodes, indices.to_vec(), progress, None).unwrap()
}

fn present(partition: &Partition, index: &StaleNodeIndex) -> bool {
    let here = partition.contains_stale_index(index);
    assert_eq!(here, partition.contains_node(&index.node_key), "index and node part ways");
    here
}

fn a() -> StaleNodeIndex {
    stale(5, 1, 0)
}

fn b() -> StaleNodeIndex {
    stale(5, 1, 1)
}

fn c() -> StaleNodeIndex {
    stale(7, 2, 0)
}

fn d() -> StaleNodeIndex {
    stale(9, 3, 0)
}

fn four_indices() -> StateMerkleDb {
    let metadata = partition(&[a(), b(), c(), d()], &[key(9, 9)], None);
    StateMerkleDb::new(metadata, vec![]).unwrap()
}

#[test]
fn metadata_rounds_follow_the_stale_versions() {
    let mut db = four_indices();
    let mut metadata_pruner = StateMerkleMetadataPruner::new();
    assert_eq!(metadata_pruner.next_version(), 0);
    assert_eq!(metadata_pruner.progress(&db), 0);

    // Nothing is stale as of version 0: the round commits 0 and learns of version 5.
    assert_eq!(metadata_pruner.maybe_prune_single_version(&mut db, 0, 10), Some(0));
    assert_eq!(metadata_pruner.next_version(), 5);
    assert_eq!(db.metadata_db().progress(), Some(0));
    assert_eq!(db.metadata_db().stale_node_indices(), &vec![a(), b(), c(), d()]);

    assert_eq!(metadata_pruner.maybe_prune_single_version(&mut db, 0, 10), Some(5));
    assert_eq!(metadata_pruner.next_version(), 7);
    assert_eq!(metadata_pruner.progress(&db), 5);
    assert!(!present(db.metadata_db(), &a()));
    assert!(!present(db.metadata_db(), &b()));
    assert!(present(db.metadata_db(), &c()));
    assert!(present(db.metadata_db(), &d()));

    assert_eq!(metadata_pruner.maybe_prune_single_version(&mut db, 5, 10), Some(7));
    assert_eq!(metadata_pruner.next_version(), 9);
    assert_eq!(metadata_pruner.progress(&db), 7);
    assert!(!present(db.metadata_db(), &c()));
    assert!(present(db.metadata_db(), &d()));

    assert_eq!(metadata_pruner.maybe_prune_single_version(&mut db, 7, 10), Some(9));
    assert_eq!(metadata_pruner.next_version(), 9);
    assert_eq!(metadata_pruner.progress(&db), 9);
    assert!(!present(db.metadata_db(), &d()));

    // The stream is exhausted: no round is left below the target.
    assert_eq!(metadata_pruner.maybe_prune_single_version(&mut db, 9, 10), None);
    assert_eq!(metadata_pruner.next_version(), 9);
    assert_eq!(metadata_pruner.progress(&db), 9);
    assert!(db.metadata_db().stale_node_indices().is_empty());
    assert!(db.metadata_db().contains_node(&key(9, 9)));
}

#[test]
fn prune_reaches_the_target_over_the_stale_versions() {
    let mut pruner = StateMerklePruner::new(four_indices());
    assert_eq!(pruner.progress(), 0);
    assert_eq!(pruner.target_version(), 0);
    pruner.set_target_version(10);
    assert_eq!(pruner.target_version(), 10);
    assert_eq!(pruner.progress(), 0);

    assert_eq!(pruner.prune(2), 10);
    assert_eq!(pruner.progress(), 10);
    let db = pruner.state_merkle_db();
    assert_eq!(db.durable_progress(), 9);
    assert!(db.metadata_db().stale_node_indices().is_empty());
    for index in [a(), b(), c(), d()] {
        assert!(!present(db.metadata_db(), &index));
    }
    assert!(db.metadata_db().contains_node(&key(9, 9)));
}

#[test]
fn no_round_goes_beyond_the_target() {
    let mut db = four_indices();
    let mut metadata_pruner = StateMerkleMetadataPruner::new();
    assert_eq!(metadata_pruner.maybe_prune_single_version(&mut db, 0, 4), Some(0));
    // The next stale version, 5, lies beyond the target 4.
    assert_eq!(metadata_pruner.maybe_prune_single_version(&mut db, 0, 4), None);
    assert_eq!(metadata_pruner.next_version(), 5);
    assert_eq!(db.metadata_db().stale_node_indices(), &vec![a(), b(), c(), d()]);
    assert_eq!(db.metadata_db().progress(), Some(0));
}

#[test]
fn round_boundary_is_the_progress_where_the_cache_is_behind() {
    let metadata = partition(&[stale(8, 1, 0), stale(8, 1, 1), stale(12, 2, 0)], &[], Some(8));
    let mut db = StateMerkleDb::new(metadata, vec![]).unwrap();
    let mut metadata_pruner = StateMerkleMetadataPruner::new();
    // max(0, 8) = 8: the entries of version 8 itself are within the round.
    assert_eq!(metadata_pruner.maybe_prune_single_version(&mut db, 8, 20), Some(8));
    assert_eq!(metadata_pruner.next_version(), 12);
    assert_eq!(db.metadata_db().stale_node_indices(), &vec![stale(12, 2, 0)]);
    assert_eq!(db.metadata_db().progress(), Some(8));
}

#[test]
fn only_the_shard_with_stale_nodes_deletes() {
    let metadata = partition(&[stale(5, 1, 0)], &[], None);
    let shard_0 = partition(&[stale(8, 2, 0)], &[key(4, 0)], None);
    let shard_1 = partition(&[], &[key(4, 1)], None);
    let in_shard_2 = [stale(3, 1, 5), stale(5, 1, 6), stale(5, 2, 7)];
    let shard_2 = partition(&in_shard_2, &[key(4, 2)], None);
    let shard_3 = partition(&[stale(6, 2, 3)], &[key(4, 3)], None);
    let db = StateMerkleDb::new(metadata, vec![shard_0, shard_1, shard_2, shard_3]).unwrap();
    let mut pruner = StateMerklePruner::new(db);
    pruner.set_target_version(5);

    assert_eq!(pruner.prune(1), 5);
    assert_eq!(pruner.progress(), 5);
    let db = pruner.state_merkle_db();
    assert_eq!(db.durable_progress(), 5);
    assert!(!present(db.metadata_db(), &stale(5, 1, 0)));

    // Shards 0, 1 and 3 deleted nothing.
    assert_eq!(db.db_shard(0).stale_node_indices(), &vec![stale(8, 2, 0)]);
    assert!(present(db.db_shard(0), &stale(8, 2, 0)));
    assert!(db.db_shard(0).contains_node(&key(4, 0)));
    assert!(db.db_shard(1).stale_node_indices().is_empty());
    assert!(db.db_shard(1).contains_node(&key(4, 1)));
    assert_eq!(db.db_shard(3).stale_node_indices(), &vec![stale(6, 2, 3)]);
    assert!(present(db.db_shard(3), &stale(6, 2, 3)));
    assert!(db.db_shard(3).contains_node(&key(4, 3)));

    // Shard 2 deleted all of the round's window.
    assert!(db.db_shard(2).stale_node_indices().is_empty());
    for index in in_shard_2 {
        assert!(!present(db.db_shard(2), &index));
    }
    assert!(db.db_shard(2).contains_node(&key(4, 2)));

    // The round boundary is recorded by every shard alike.
    for shard_id in 0..4 {
        assert_eq!(db.db_shard(shard_id).progress(), Some(5));
    }
}

#[test]
fn progress_never_moves_back() {
    let metadata = partition(&[stale(5, 1, 0), stale(9, 2, 0), stale(15, 3, 0)], &[], None);
    let db = StateMerkleDb::new(metadata, vec![]).unwrap();
    let mut pruner = StateMerklePruner::new(db);
    let mut seen = vec![pruner.progress()];
    let mut durable = vec![pruner.state_merkle_db().durable_progress()];
    let mut returned = Vec::new();
    for target in [3, 7, 2, 7, 20] {
        pruner.set_target_version(target);
        returned.push(pruner.prune(4));
        seen.push(pruner.progress());
        durable.push(pruner.state_merkle_db().durable_progress());
    }
    assert_eq!(returned, vec![3, 7, 2, 7, 20]);
    assert_eq!(seen, vec![0, 3, 7, 7, 7, 20]);
    assert_eq!(durable, vec![0, 0, 5, 5, 5, 15]);
    for pair in seen.windows(2) {
        assert!(pair[0] <= pair[1]);
    }
    for pair in durable.windows(2) {
        assert!(pair[0] <= pair[1]);
    }
}

#[test]
fn lower_target_is_taken_and_ignored() {
    let mut pruner = StateMerklePruner::new(four_indices());
    pruner.set_target_version(7);
    assert_eq!(pruner.prune(10), 7);
    assert_eq!(pruner.progress(), 7);
    pruner.set_target_version(1);
    assert_eq!(pruner.target_version(), 1);
    assert_eq!(pruner.prune(10), 1);
    assert_eq!(pruner.progress(), 7);
    assert_eq!(pruner.state_merkle_db().metadata_db().stale_node_indices(), &vec![d()]);
}

fn sharded() -> StateMerkleDb {
    let metadata =
        partition(&[stale(2, 1, 1), stale(5, 1, 0), stale(9, 2, 0)], &[key(20, 0)], Some(0));
    let shard_0 = partition(
        &[stale(2, 1, 10), stale(5, 1, 11), stale(5, 1, 12), stale(9, 2, 13), stale(11, 3, 14)],
        &[key(20, 1)],
        Some(0),
    );
    let shard_1 = partition(&[stale(9, 2, 20)], &[key(20, 2)], Some(0));
    StateMerkleDb::new(metadata, vec![shard_0, shard_1]).unwrap()
}

fn sharded_indices() -> Vec<(Option<u8>, StaleNodeIndex)> {
    vec![
        (None, stale(2, 1, 1)),
        (None, stale(5, 1, 0)),
        (None, stale(9, 2, 0)),
        (Some(0), stale(2, 1, 10)),
        (Some(0), stale(5, 1, 11)),
        (Some(0), stale(5, 1, 12)),
        (Some(0), stale(9, 2, 13)),
        (Some(0), stale(11, 3, 14)),
        (Some(1), stale(9, 2, 20)),
    ]
}

/// Checks, of every stale index that storage was opened with, that it is
/// there with its node or gone with its node, and gone only if the durable
/// progress covers its version.
fn check_safety(db: &StateMerkleDb) {
    let progress = db.durable_progress();
    for (shard_id, index) in sharded_indices() {
        let partition = match shard_id {
            None => db.metadata_db(),
            Some(id) => db.db_shard(id),
        };
        if !present(partition, &index) {
            assert!(index.stale_since_version <= progress);
        }
    }
    assert!(db.metadata_db().contains_node(&key(20, 0)));
    assert!(db.db_shard(0).contains_node(&key(20, 1)));
    assert!(db.db_shard(1).contains_node(&key(20, 2)));
}

#[test]
fn no_node_is_gone_before_the_progress_covers_it() {
    let mut pruner = StateMerklePruner::new(sharded());
    check_safety(pruner.state_merkle_db());
    for target in [1, 4, 5, 6, 8, 9, 10, 30] {
        pruner.set_target_version(target);
        pruner.prune(1);
        check_safety(pruner.state_merkle_db());
        assert_eq!(pruner.progress(), target);
    }
    let db = pruner.state_merkle_db();
    assert_eq!(db.durable_progress(), 9);
    assert!(db.metadata_db().stale_node_indices().is_empty());
    // The metadata stream holds no stale index of version 11: no round reached it.
    assert_eq!(db.db_shard(0).stale_node_indices(), &vec![stale(11, 3, 14)]);
    assert!(db.db_shard(1).stale_node_indices().is_empty());
}

#[test]
fn crash_between_metadata_and_shard_writes_leaves_pairs_whole() {
    let mut db = sharded();
    let mut metadata_pruner = StateMerkleMetadataPruner::new();
    assert_eq!(metadata_pruner.maybe_prune_single_version(&mut db, 0, 9), Some(0));
    check_safety(&db);
    assert_eq!(metadata_pruner.maybe_prune_single_version(&mut db, 0, 9), Some(2));
    check_safety(&db);
    assert_eq!(metadata_pruner.maybe_prune_single_version(&mut db, 2, 9), Some(5));
    check_safety(&db);
    assert_eq!(db.metadata_db().stale_node_indices(), &vec![stale(9, 2, 0)]);
    // The shards have not pruned their part of the round; the process ends here.
    assert_eq!(db.durable_progress(), 5);
    assert_eq!(db.db_shard(0).stale_node_indices().len(), 5);
    assert_eq!(db.db_shard(0).progress(), Some(0));

    // A new pruner resumes from the durable progress and lets the shards catch up.
    let mut pruner = StateMerklePruner::new(db);
    assert_eq!(pruner.progress(), 5);
    assert_eq!(pruner.target_version(), 5);
    check_safety(pruner.state_merkle_db());
    assert_eq!(
        pruner.state_merkle_db().db_shard(0).stale_node_indices(),
        &vec![stale(9, 2, 13), stale(11, 3, 14)]
    );
    assert_eq!(pruner.state_merkle_db().db_shard(0).progress(), Some(5));
    assert_eq!(pruner.state_merkle_db().db_shard(1).progress(), Some(5));
    assert_eq!(pruner.state_merkle_db().db_shard(1).stale_node_indices(), &vec![stale(9, 2, 20)]);

    pruner.set_target_version(9);
    assert_eq!(pruner.prune(2), 9);
    check_safety(pruner.state_merkle_db());
    assert_eq!(pruner.progress(), 9);
    assert_eq!(pruner.state_merkle_db().db_shard(0).stale_node_indices(), &vec![stale(11, 3, 14)]);
    assert!(pruner.state_merkle_db().db_shard(1).stale_node_indices().is_empty());
}

#[test]
fn prune_converges_and_then_changes_nothing() {
    let mut pruner = StateMerklePruner::new(sharded());
    pruner.set_target_version(9);
    assert_eq!(pruner.prune(3), 9);
    assert_eq!(pruner.progress(), 9);
    let metadata_after = pruner.state_merkle_db().metadata_db().stale_node_indices().clone();
    let shard_0_after = pruner.state_merkle_db().db_shard(0).stale_node_indices().clone();
    let shard_1_after = pruner.state_merkle_db().db_shard(1).stale_node_indices().clone();
    assert!(metadata_after.is_empty());
    assert_eq!(shard_0_after, vec![stale(11, 3, 14)]);
    assert!(shard_1_after.is_empty());

    for _ in 0..3 {
        assert_eq!(pruner.prune(3), 9);
        assert_eq!(pruner.progress(), 9);
        let db = pruner.state_merkle_db();
        assert_eq!(db.durable_progress(), 9);
        assert_eq!(db.metadata_db().stale_node_indices(), &metadata_after);
        assert_eq!(db.db_shard(0).stale_node_indices(), &shard_0_after);
        assert_eq!(db.db_shard(1).stale_node_indices(), &shard_1_after);
        assert_eq!(db.db_shard(0).progress(), Some(9));
        assert_eq!(db.db_shard(1).progress(), Some(9));
        check_safety(db);
    }
}

#[test]
fn every_batch_size_above_zero_prunes_the_same() {
    for batch_size in [1, 2, 3, 4, 5, 100, usize::MAX] {
        let mut pruner = StateMerklePruner::new(sharded());
        pruner.set_target_version(9);
        assert_eq!(pruner.prune(batch_size), 9);
        let db = pruner.state_merkle_db();
        assert!(db.metadata_db().stale_node_indices().is_empty());
        assert_eq!(db.db_shard(0).stale_node_indices(), &vec![stale(11, 3, 14)]);
        assert!(db.db_shard(1).stale_node_indices().is_empty());
        assert_eq!(db.db_shard(0).progress(), Some(9));
        assert_eq!(db.db_shard(1).progress(), Some(9));
    }
}

#[test]
fn zero_batch_size_prunes_no_shard_but_ends() {
    let mut pruner = StateMerklePruner::new(sharded());
    pruner.set_target_version(9);
    assert_eq!(pruner.prune(0), 9);
    assert_eq!(pruner.progress(), 9);
    let db = pruner.state_merkle_db();
    // The metadata scan is not bounded by the batch size.
    assert!(db.metadata_db().stale_node_indices().is_empty());
    assert_eq!(db.durable_progress(), 9);
    assert_eq!(db.db_shard(0).stale_node_indices().len(), 5);
    assert_eq!(db.db_shard(1).stale_node_indices().len(), 1);
    // A shard records a round only where it has nothing to prune in it.
    assert_eq!(db.db_shard(0).progress(), Some(0));
    assert_eq!(db.db_shard(1).progress(), Some(5));
    check_safety(db);

    // A new pruner lets the shards catch up.
    let pruner = StateMerklePruner::new(pruner.into_state_merkle_db());
    let db = pruner.state_merkle_db();
    assert_eq!(db.db_shard(0).stale_node_indices(), &vec![stale(11, 3, 14)]);
    assert!(db.db_shard(1).stale_node_indices().is_empty());
    assert_eq!(db.db_shard(0).progress(), Some(9));
    assert_eq!(db.db_shard(1).progress(), Some(9));
    check_safety(db);
}

#[test]
fn shard_versions_that_the_metadata_stream_lacks_are_passed_over() {
    let metadata = partition(&[stale(5, 1, 0)], &[], None);
    let shard = partition(&[stale(2, 1, 1), stale(5, 1, 2)], &[], None);
    let db = StateMerkleDb::new(metadata, vec![shard]).unwrap();
    let mut pruner = StateMerklePruner::new(db);
    // No round is due up to version 3: the progress moves there at once.
    pruner.set_target_version(3);
    assert_eq!(pruner.prune(10), 3);
    assert_eq!(pruner.progress(), 3);
    assert_eq!(pruner.state_merkle_db().db_shard(0).stale_node_indices().len(), 2);
    // The round of version 5 prunes the shard from the progress on.
    pruner.set_target_version(5);
    assert_eq!(pruner.prune(10), 5);
    let db = pruner.state_merkle_db();
    assert_eq!(db.db_shard(0).stale_node_indices(), &vec![stale(2, 1, 1)]);
    assert!(present(db.db_shard(0), &stale(2, 1, 1)));
    assert!(!present(db.db_shard(0), &stale(5, 1, 2)));
    assert_eq!(db.db_shard(0).progress(), Some(5));
}

#[test]
fn empty_forest_moves_straight_to_the_target() {
    let metadata = partition(&[], &[key(1, 0)], None);
    let db = StateMerkleDb::new(metadata, vec![]).unwrap();
    let mut pruner = StateMerklePruner::new(db);
    pruner.set_target_version(10);
    assert_eq!(pruner.prune(5), 10);
    assert_eq!(pruner.progress(), 10);
    assert_eq!(pruner.state_merkle_db().durable_progress(), 0);
    assert_eq!(pruner.state_merkle_db().metadata_db().progress(), None);
    assert!(pruner.state_merkle_db().metadata_db().contains_node(&key(1, 0)));
}

#[test]
fn stale_indices_of_the_progress_version_are_pruned_with_the_next_target() {
    let metadata = partition(&[stale(0, 0, 1)], &[], None);
    let db = StateMerkleDb::new(metadata, vec![]).unwrap();
    let mut pruner = StateMerklePruner::new(db);
    assert_eq!(pruner.prune(5), 0);
    assert_eq!(pruner.state_merkle_db().metadata_db().stale_node_indices(), &vec![stale(0, 0, 1)]);
    pruner.set_target_version(1);
    assert_eq!(pruner.prune(5), 1);
    assert_eq!(pruner.progress(), 1);
    assert!(pruner.state_merkle_db().metadata_db().stale_node_indices().is_empty());
    assert_eq!(pruner.state_merkle_db().metadata_db().progress(), Some(0));
}

#[test]
fn stale_indices_behind_the_progress_are_left() {
    let metadata = partition(&[stale(5, 1, 0), stale(8, 2, 0)], &[], Some(6));
    let db = StateMerkleDb::new(metadata, vec![]).unwrap();
    let mut pruner = StateMerklePruner::new(db);
    assert_eq!(pruner.progress(), 6);
    assert_eq!(pruner.target_version(), 6);
    pruner.set_target_version(10);
    assert_eq!(pruner.prune(5), 10);
    assert_eq!(pruner.progress(), 10);
    let db = pruner.state_merkle_db();
    assert_eq!(db.durable_progress(), 8);
    assert_eq!(db.metadata_db().stale_node_indices(), &vec![stale(5, 1, 0)]);
    assert!(db.metadata_db().contains_node(&key(1, 0)));
    assert!(!db.metadata_db().contains_node(&key(2, 0)));
}

#[test]
fn prune_reaches_the_largest_version() {
    let metadata = partition(&[stale(u64::MAX, 1, 0)], &[], None);
    let shard = partition(&[stale(u64::MAX, 1, 1)], &[], None);
    let db = StateMerkleDb::new(metadata, vec![shard]).unwrap();
    let mut pruner = StateMerklePruner::new(db);
    pruner.set_target_version(u64::MAX);
    assert_eq!(pruner.prune(usize::MAX), u64::MAX);
    assert_eq!(pruner.progress(), u64::MAX);
    let db = pruner.state_merkle_db();
    assert!(db.metadata_db().stale_node_indices().is_empty());
    assert!(db.db_shard(0).stale_node_indices().is_empty());
    assert_eq!(db.db_shard(0).progress(), Some(u64::MAX));
}

#[test]
fn pruner_reports_under_its_name() {
    let pruner = StateMerklePruner::new(four_indices());
    assert_eq!(pruner.name(), "state_merkle_pruner");
}

#[test]
fn new_pruner_resumes_from_the_durable_progress() {
    let metadata = partition(&[stale(12, 1, 0)], &[], Some(7));
    let shard = partition(&[stale(3, 1, 1), stale(7, 1, 2), stale(9, 1, 3)], &[], Some(2));
    let db = StateMerkleDb::new(metadata, vec![shard]).unwrap();
    let pruner = StateMerklePruner::new(db);
    assert_eq!(pruner.progress(), 7);
    assert_eq!(pruner.target_version(), 7);
    let db = pruner.state_merkle_db();
    assert_eq!(db.metadata_db().stale_node_indices(), &vec![stale(12, 1, 0)]);
    assert_eq!(db.db_shard(0).stale_node_indices(), &vec![stale(9, 1, 3)]);
    assert_eq!(db.db_shard(0).progress(), Some(7));
}

#[test]
fn shard_catches_up_from_its_own_progress() {
    let metadata = partition(&[], &[], Some(10));
    let in_shard = [stale(1, 0, 1), stale(3, 0, 2), stale(5, 0, 3), stale(10, 0, 4), stale(12, 0, 5)];
    let shard = partition(&in_shard, &[key(0, 9)], Some(2));
    let mut db = StateMerkleDb::new(metadata, vec![shard]).unwrap();
    let shard_pruner = StateMerkleShardPruner::new(0, &mut db, 10);
    assert_eq!(shard_pruner.shard_id(), 0);
    assert_eq!(db.db_shard(0).stale_node_indices(), &vec![stale(1, 0, 1), stale(12, 0, 5)]);
    assert_eq!(db.db_shard(0).progress(), Some(10));
    assert!(present(db.db_shard(0), &stale(1, 0, 1)));
    assert!(!present(db.db_shard(0), &stale(3, 0, 2)));
    assert!(!present(db.db_shard(0), &stale(10, 0, 4)));
    assert!(present(db.db_shard(0), &stale(12, 0, 5)));
    assert!(db.db_shard(0).contains_node(&key(0, 9)));
}

#[test]
fn shard_without_a_progress_record_starts_at_the_metadata_progress() {
    let metadata = partition(&[], &[], Some(10));
    let shard = partition(&[stale(3, 0, 1), stale(10, 0, 2), stale(12, 0, 3)], &[], None);
    let mut db = StateMerkleDb::new(metadata, vec![shard]).unwrap();
    StateMerkleShardPruner::new(0, &mut db, 10);
    assert_eq!(db.db_shard(0).stale_node_indices(), &vec![stale(3, 0, 1), stale(12, 0, 3)]);
    assert_eq!(db.db_shard(0).progress(), Some(10));
}

#[test]
fn shard_prune_deletes_its_window_in_batches() {
    let metadata = partition(&[], &[], Some(10));
    let in_shard = [stale(4, 0, 1), stale(5, 0, 2), stale(5, 0, 3), stale(8, 0, 4), stale(11, 0, 5)];
    let shard_0 = partition(&in_shard, &[], Some(10));
    let shard_1 = partition(&in_shard, &[], Some(10));
    let mut db = StateMerkleDb::new(metadata, vec![shard_0, shard_1]).unwrap();
    let shard_pruner = StateMerkleShardPruner::new(1, &mut db, 10);
    assert_eq!(shard_pruner.shard_id(), 1);
    assert_eq!(db.db_shard(1).stale_node_indices().len(), 5);

    shard_pruner.prune(&mut db, 5, 8, 2);
    assert_eq!(db.db_shard(1).stale_node_indices(), &vec![stale(4, 0, 1), stale(11, 0, 5)]);
    assert_eq!(db.db_shard(1).progress(), Some(8));
    // The other shard is not touched.
    assert_eq!(db.db_shard(0).stale_node_indices().len(), 5);
    assert_eq!(db.db_shard(0).progress(), Some(10));
    assert_eq!(db.durable_progress(), 10);
}

#[test]
fn shard_prune_with_zero_batch_size_records_only_an_empty_window() {
    let metadata = partition(&[], &[], Some(10));
    let shard = partition(&[stale(5, 0, 1)], &[], Some(10));
    let mut db = StateMerkleDb::new(metadata, vec![shard]).unwrap();
    let shard_pruner = StateMerkleShardPruner::new(0, &mut db, 10);

    shard_pruner.prune(&mut db, 4, 6, 0);
    assert_eq!(db.db_shard(0).stale_node_indices(), &vec![stale(5, 0, 1)]);
    assert_eq!(db.db_shard(0).progress(), Some(10));

    shard_pruner.prune(&mut db, 6, 9, 0);
    assert_eq!(db.db_shard(0).stale_node_indices(), &vec![stale(5, 0, 1)]);
    assert_eq!(db.db_shard(0).progress(), Some(9));
}

fn written(entry: &WrittenBatch) -> (Option<u8>, Vec<NodeKey>, Vec<StaleNodeIndex>, Option<u64>) {
    assert_eq!(entry.batch().target(), None);
    (
        entry.shard_id(),
        entry.batch().node_deletes().clone(),
        entry.batch().index_deletes().clone(),
        entry.batch().progress(),
    )
}

/// Takes the journal, which is to begin with the one write of the target.
fn journal_after_target(
    pruner: &mut StateMerklePruner,
    target: u64,
) -> Vec<(Option<u8>, Vec<NodeKey>, Vec<StaleNodeIndex>, Option<u64>)> {
    let journal = pruner.take_journal();
    let first = &journal[0];
    assert_eq!(first.shard_id(), None);
    assert!(first.batch().node_deletes().is_empty());
    assert!(first.batch().index_deletes().is_empty());
    assert_eq!(first.batch().progress(), None);
    assert_eq!(first.batch().target(), Some(target));
    journal[1..].iter().map(written).collect()
}

#[test]
fn journal_holds_the_batches_of_the_rounds_in_order() {
    let mut pruner = StateMerklePruner::new(four_indices());
    assert!(pruner.take_journal().is_empty());
    pruner.set_target_version(10);
    pruner.prune(2);
    let journal = journal_after_target(&mut pruner, 10);
    assert_eq!(
        journal,
        vec![
            (None, vec![], vec![], Some(0)),
            (None, vec![a().node_key, b().node_key], vec![a(), b()], Some(5)),
            (None, vec![c().node_key], vec![c()], Some(7)),
            (None, vec![d().node_key], vec![d()], Some(9)),
        ]
    );
    // The journal starts anew once it is taken.
    assert!(pruner.take_journal().is_empty());
    pruner.prune(2);
    assert!(pruner.take_journal().is_empty());
}

#[test]
fn journal_writes_the_metadata_batch_of_a_round_before_the_shard_batches() {
    let metadata = partition(&[stale(5, 1, 0)], &[], Some(0));
    let shard_0 = partition(&[stale(5, 1, 1), stale(5, 1, 2), stale(5, 1, 3)], &[], Some(0));
    let shard_1 = partition(&[], &[], None);
    let db = StateMerkleDb::new(metadata, vec![shard_0, shard_1]).unwrap();
    let mut pruner = StateMerklePruner::new(db);
    // Catching up: shard 0 records the progress 0 anew, shard 1 gets its record and confirms it.
    let journal: Vec<_> = pruner.take_journal().iter().map(written).collect();
    assert_eq!(
        journal,
        vec![
            (Some(0), vec![], vec![], Some(0)),
            (Some(1), vec![], vec![], Some(0)),
            (Some(1), vec![], vec![], Some(0)),
        ]
    );
    pruner.set_target_version(5);
    pruner.prune(2);
    let journal = journal_after_target(&mut pruner, 5);
    assert_eq!(
        journal,
        vec![
            (None, vec![], vec![], Some(0)),
            (Some(0), vec![], vec![], Some(0)),
            (Some(1), vec![], vec![], Some(0)),
            (None, vec![key(1, 0)], vec![stale(5, 1, 0)], Some(5)),
            (Some(0), vec![key(1, 1), key(1, 2)], vec![stale(5, 1, 1), stale(5, 1, 2)], None),
            (Some(0), vec![key(1, 3)], vec![stale(5, 1, 3)], None),
            (Some(0), vec![], vec![], Some(5)),
            (Some(1), vec![], vec![], Some(5)),
        ]
    );
}

#[test]
fn replaying_the_journal_on_the_opened_state_gives_the_pruned_state() {
    // What a disk holds: for each partition the nodes, the stale indices and the progress.
    let mut disk: Vec<(Vec<NodeKey>, Vec<StaleNodeIndex>, Option<u64>)> = Vec::new();
    let opened = sharded();
    for partition in [opened.metadata_db(), opened.db_shard(0), opened.db_shard(1)] {
        let indices = partition.stale_node_indices().clone();
        let mut nodes: Vec<NodeKey> = indices.iter().map(|index| index.node_key).collect();
        for live in [key(20, 0), key(20, 1), key(20, 2)] {
            if partition.contains_node(&live) {
                nodes.push(live);
            }
        }
        disk.push((nodes, indices, partition.progress()));
    }
    let mut pruner = StateMerklePruner::new(opened);
    pruner.set_target_version(9);
    pruner.prune(2);
    for entry in pruner.take_journal() {
        let place = match entry.shard_id() {
            None => 0,
            Some(id) => 1 + id as usize,
        };
        let (nodes, indices, progress) = &mut disk[place];
        // A node goes in the same write as its stale index.
        let announced: Vec<NodeKey> =
            entry.batch().index_deletes().iter().map(|index| index.node_key).collect();
        assert_eq!(entry.batch().node_deletes(), &announced);
        nodes.retain(|node| !entry.batch().node_deletes().contains(node));
        indices.retain(|index| !entry.batch().index_deletes().contains(index));
        if let Some(version) = entry.batch().progress() {
            *progress = Some(version);
        }
    }
    let db = pruner.state_merkle_db();
    for (place, partition) in [db.metadata_db(), db.db_shard(0), db.db_shard(1)].iter().enumerate()
    {
        let (nodes, indices, progress) = &disk[place];
        assert_eq!(partition.stale_node_indices(), indices);
        assert_eq!(partition.progress(), *progress);
        for node in nodes {
            assert!(partition.contains_node(node));
        }
        for (_, index) in sharded_indices() {
            assert_eq!(partition.contains_node(&index.node_key), nodes.contains(&index.node_key));
        }
    }
}

#[test]
fn target_is_recorded_durably() {
    let mut pruner = StateMerklePruner::new(four_indices());
    assert_eq!(pruner.state_merkle_db().durable_target(), None);
    pruner.set_target_version(7);
    assert_eq!(pruner.target_version(), 7);
    assert_eq!(pruner.state_merkle_db().durable_target(), Some(7));
    assert_eq!(pruner.state_merkle_db().metadata_db().target(), Some(7));
    // Nothing else has changed.
    assert_eq!(pruner.progress(), 0);
    assert_eq!(pruner.state_merkle_db().metadata_db().progress(), None);
    assert_eq!(pruner.state_merkle_db().metadata_db().stale_node_indices().len(), 4);
    pruner.set_target_version(3);
    assert_eq!(pruner.state_merkle_db().durable_target(), Some(3));
    pruner.prune(1);
    assert_eq!(pruner.state_merkle_db().durable_target(), Some(3));
    assert_eq!(pruner.progress(), 3);
}

#[test]
fn new_pruner_takes_the_progress_for_its_target() {
    let mut pruner = StateMerklePruner::new(four_indices());
    pruner.set_target_version(20);
    pruner.prune(1);
    assert_eq!(pruner.progress(), 20);
    // After a shutdown the target record is still there; the pruner resumes
    // from the durable progress, which is also its target until it is told another.
    let pruner = StateMerklePruner::new(pruner.into_state_merkle_db());
    assert_eq!(pruner.state_merkle_db().durable_target(), Some(20));
    assert_eq!(pruner.progress(), 9);
    assert_eq!(pruner.target_version(), 9);
}

#[test]
fn partition_keeps_the_target_record_it_was_opened_with() {
    let metadata = Partition::new(vec![], vec![], Some(4), Some(11)).unwrap();
    assert_eq!(metadata.target(), Some(11));
    let db = StateMerkleDb::new(metadata, vec![]).unwrap();
    assert_eq!(db.durable_target(), Some(11));
    assert_eq!(db.durable_progress(), 4);
}

#[test]
fn shard_batches_of_a_round_run_up_to_the_next_metadata_batch() {
    let metadata = partition(&[stale(5, 1, 0), stale(7, 1, 9)], &[], Some(0));
    let shard_0 = partition(&[stale(5, 1, 1), stale(7, 1, 2)], &[], Some(0));
    let shard_1 = partition(&[stale(7, 2, 1)], &[], Some(0));
    let db = StateMerkleDb::new(metadata, vec![shard_0, shard_1]).unwrap();
    let mut pruner = StateMerklePruner::new(db);
    pruner.take_journal();
    pruner.set_target_version(7);
    pruner.prune(5);
    let journal = pruner.take_journal();
    let places: Vec<Option<u8>> = journal.iter().map(|entry| entry.shard_id()).collect();
    assert_eq!(
        places,
        vec![
            // The target is recorded.
            None,
            // The round of version 0 prunes nothing.
            None,
            Some(0),
            Some(1),
            // The round of version 5: stale indices lie beyond it in both shards.
            None,
            Some(0),
            Some(1),
            // The round of version 7: both streams end with it, and each shard
            // finds that out with a scan of its own.
            None,
            Some(0),
            Some(0),
            Some(1),
            Some(1),
        ]
    );
    assert_eq!(shard_batches_end(&journal, 0), 0);
    assert_eq!(shard_batches_end(&journal, 1), 1);
    assert_eq!(shard_batches_end(&journal, 2), 4);
    assert_eq!(shard_batches_end(&journal, 3), 4);
    assert_eq!(shard_batches_end(&journal, 4), 4);
    assert_eq!(shard_batches_end(&journal, 5), 7);
    assert_eq!(shard_batches_end(&journal, 8), 12);
    assert_eq!(shard_batches_end(&journal, 11), 12);
    assert_eq!(shard_batches_end(&journal, 12), 12);
}

#[test]
fn shards_of_a_round_may_be_written_in_any_order() {
    let opened = sharded();
    let mut disk: Vec<(Vec<StaleNodeIndex>, Option<u64>)> = Vec::new();
    for partition in [opened.metadata_db(), opened.db_shard(0), opened.db_shard(1)] {
        disk.push((partition.stale_node_indices().clone(), partition.progress()));
    }
    let mut pruner = StateMerklePruner::new(opened);
    pruner.set_target_version(9);
    pruner.prune(1);
    let journal = pruner.take_journal();
    let mut order: Vec<usize> = Vec::new();
    let mut next = 0;
    while next < journal.len() {
        if journal[next].shard_id().is_none() {
            order.push(next);
            next += 1;
        } else {
            let end = shard_batches_end(&journal, next);
            // The higher shard first, each shard's batches in their own order.
            for shard_id in [1, 0] {
                for place in next..end {
                    if journal[place].shard_id() == Some(shard_id) {
                        order.push(place);
                    }
                }
            }
            next = end;
        }
    }
    assert_eq!(order.len(), journal.len());
    for place in order {
        let entry = &journal[place];
        let at = match entry.shard_id() {
            None => 0,
            Some(id) => 1 + id as usize,
        };
        let (indices, progress) = &mut disk[at];
        for index in entry.batch().index_deletes() {
            assert!(indices.contains(index), "a batch deletes what is not there");
        }
        indices.retain(|index| !entry.batch().index_deletes().contains(index));
        if let Some(version) = entry.batch().progress() {
            *progress = Some(version);
        }
    }
    let db = pruner.state_merkle_db();
    for (at, partition) in [db.metadata_db(), db.db_shard(0), db.db_shard(1)].iter().enumerate() {
        assert_eq!(partition.stale_node_indices(), &disk[at].0);
        assert_eq!(partition.progress(), disk[at].1);
    }
}
