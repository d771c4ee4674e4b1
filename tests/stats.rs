use mantle_conflict_rate::{Address, Conflict, ConflictType, GlobalStats, StorageSlot};

fn conflict(kind: ConflictType, txs: Vec<u64>) -> Conflict {
    let storage_slot = match kind {
        ConflictType::StorageSlotConflict => Some(StorageSlot { limb0: 1, limb1: 0, limb2: 0, limb3: 0 }),
        ConflictType::MultipleMntTransfersFromSameSource => None,
    };
    Conflict {
        conflict_type: kind,
        address: Address { high: 0, mid: 0, low: 1 },
        transactions: txs,
        storage_slot,
    }
}

#[test]
fn new_stats_are_zero() {
    let s = GlobalStats::default();
    assert_eq!(s.total_blocks, 0);
    assert_eq!(s.invalid_blocks, 0);
    assert_eq!(s.total_txs, 0);
    assert_eq!(s.conflicted_txs, 0);
    assert_eq!(s.same_source_conflicts, 0);
    assert_eq!(s.storage_slot_conflicts, 0);
}

#[test]
fn aggregation_over_blocks() {
    let conflicts = vec![
        conflict(ConflictType::MultipleMntTransfersFromSameSource, vec![1, 4]),
        conflict(ConflictType::StorageSlotConflict, vec![0, 4]),
    ];
    let mut s = GlobalStats::new();
    s.add_block_stats(10, 3, &conflicts);
    s.record_invalid_block();
    s.add_block_stats(5, 0, &[]);
    assert_eq!(s.total_blocks, 2);
    assert_eq!(s.invalid_blocks, 1);
    assert_eq!(s.total_txs, 15);
    assert_eq!(s.conflicted_txs, 3);
}

#[test]
fn conflict_counts_are_per_conflict() {
    let conflicts = vec![
        conflict(ConflictType::StorageSlotConflict, vec![0, 1, 2]),
        conflict(ConflictType::StorageSlotConflict, vec![1, 2]),
        conflict(ConflictType::MultipleMntTransfersFromSameSource, vec![1, 5]),
    ];
    let mut s = GlobalStats::new();
    s.add_block_stats(6, 4, &conflicts);
    assert_eq!(s.storage_slot_conflicts, 5);
    assert_eq!(s.same_source_conflicts, 2);
    assert_eq!(s.conflicted_txs, 4);
}

#[test]
fn invalid_block_touches_nothing_else() {
    let mut s = GlobalStats::new();
    s.add_block_stats(4, 2, &[conflict(ConflictType::StorageSlotConflict, vec![0, 1])]);
    s.record_invalid_block();
    s.record_invalid_block();
    assert_eq!(s.invalid_blocks, 2);
    assert_eq!(s.total_blocks, 1);
    assert_eq!(s.total_txs, 4);
    assert_eq!(s.conflicted_txs, 2);
    assert_eq!(s.storage_slot_conflicts, 2);
}
