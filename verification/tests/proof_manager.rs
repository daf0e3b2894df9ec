use aptos_node::proof_manager::{BackPressure, ProofManager};

fn pressure(txn_count: bool, proof_count: bool) -> BackPressure {
    BackPressure { txn_count, proof_count }
}

#[test]
fn new_manager_counts_nothing() {
    let manager = ProofManager::new(10, 2);
    assert_eq!(manager.remaining_total_txn_num(), 0);
    assert_eq!(manager.remaining_total_proof_num(), 0);
    assert_eq!(manager.qs_back_pressure(), pressure(false, false));
}

#[test]
fn received_proofs_add_up() {
    let mut manager = ProofManager::new(10, 2);
    manager.receive_proof(4);
    manager.receive_proof(0);
    manager.receive_proof(7);
    assert_eq!(manager.remaining_total_txn_num(), 11);
    assert_eq!(manager.remaining_total_proof_num(), 3);
}

#[test]
fn back_pressure_sets_in_beyond_the_limit_only() {
    let mut manager = ProofManager::new(10, 2);
    manager.receive_proof(10);
    assert_eq!(manager.qs_back_pressure(), pressure(false, false));
    manager.receive_proof(1);
    assert_eq!(manager.qs_back_pressure(), pressure(true, false));
    manager.receive_proof(0);
    assert_eq!(manager.qs_back_pressure(), pressure(true, true));
}

#[test]
fn proofs_alone_can_press_back() {
    let mut manager = ProofManager::new(100, 1);
    manager.receive_proof(1);
    manager.receive_proof(1);
    assert_eq!(manager.qs_back_pressure(), pressure(false, true));
}

#[test]
fn zero_limits_press_back_with_the_first_proof() {
    let mut manager = ProofManager::new(0, 0);
    assert_eq!(manager.qs_back_pressure(), pressure(false, false));
    manager.receive_proof(1);
    assert_eq!(manager.qs_back_pressure(), pressure(true, true));
}

#[test]
fn commit_notification_replaces_the_counts() {
    let mut manager = ProofManager::new(10, 2);
    manager.receive_proof(50);
    manager.receive_proof(50);
    manager.receive_proof(50);
    assert_eq!(manager.qs_back_pressure(), pressure(true, true));
    manager.handle_commit_notification(10, 2);
    assert_eq!(manager.remaining_total_txn_num(), 10);
    assert_eq!(manager.remaining_total_proof_num(), 2);
    assert_eq!(manager.qs_back_pressure(), pressure(false, false));
    manager.handle_commit_notification(11, 0);
    assert_eq!(manager.qs_back_pressure(), pressure(true, false));
}

#[test]
fn back_pressure_is_announced_only_when_it_changes() {
    let mut manager = ProofManager::new(10, 2);
    let mut announced = pressure(false, false);
    assert_eq!(manager.updated_back_pressure(announced), None);
    manager.receive_proof(11);
    assert_eq!(manager.updated_back_pressure(announced), Some(pressure(true, false)));
    announced = pressure(true, false);
    assert_eq!(manager.updated_back_pressure(announced), None);
    manager.receive_proof(1);
    assert_eq!(manager.updated_back_pressure(announced), None);
    manager.receive_proof(1);
    assert_eq!(manager.updated_back_pressure(announced), Some(pressure(true, true)));
    manager.handle_commit_notification(0, 0);
    assert_eq!(manager.updated_back_pressure(pressure(true, true)), Some(pressure(false, false)));
}

#[test]
fn counts_reach_the_largest_number() {
    let mut manager = ProofManager::new(u64::MAX, u64::MAX);
    manager.receive_proof(u64::MAX);
    assert_eq!(manager.remaining_total_txn_num(), u64::MAX);
    assert_eq!(manager.qs_back_pressure(), pressure(false, false));
}
