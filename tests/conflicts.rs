use mantle_conflict_rate::{
    count_affected_transactions, AccessType, Address, Conflict, ConflictAnalyzer, ConflictType,
    GlobalStats, Location, StorageSlot,
};

fn addr(n: u64) -> Address {
    Address { high: 0, mid: 0, low: n }
}

fn slot(n: u64) -> StorageSlot {
    StorageSlot { limb0: n, limb1: 0, limb2: 0, limb3: 0 }
}

fn sorted(v: &[u64]) -> Vec<u64> {
    let mut v = v.to_vec();
    v.sort();
    v
}

fn same_source<'a>(r: &'a [Conflict], a: Address) -> Vec<&'a Conflict> {
    r.iter()
        .filter(|c| {
            c.conflict_type == ConflictType::MultipleMntTransfersFromSameSource && c.address == a
        })
        .collect()
}

fn storage<'a>(r: &'a [Conflict], a: Address, s: StorageSlot) -> Vec<&'a Conflict> {
    r.iter()
        .filter(|c| {
            c.conflict_type == ConflictType::StorageSlotConflict
                && c.address == a
                && c.storage_slot == Some(s)
        })
        .collect()
}

#[test]
fn end_to_end_block() {
    let c = addr(0xC);
    let s = slot(7);
    let a = addr(0xA);
    let b = addr(0xB);
    let mut an = ConflictAnalyzer::new();
    an.record_storage_access(c, s, 0, AccessType::Write);
    an.record_mnt_transfer(b, 1);
    an.record_mnt_transfer(a, 1);
    an.record_storage_access(c, s, 2, AccessType::Read);
    an.record_mnt_transfer(a, 4);
    an.record_storage_access(c, slot(9), 5, AccessType::Write);
    let r = an.analyze_conflicts();
    assert_eq!(r.len(), 2);
    let st = storage(&r, c, s);
    assert_eq!(st.len(), 1);
    assert_eq!(sorted(&st[0].transactions), vec![0, 2]);
    let ss = same_source(&r, a);
    assert_eq!(ss.len(), 1);
    assert_eq!(sorted(&ss[0].transactions), vec![1, 4]);
    assert_eq!(ss[0].storage_slot, None);
    assert!(same_source(&r, b).is_empty());
    assert!(r.iter().all(|c| !c.transactions.contains(&5)));
    assert_eq!(count_affected_transactions(&r), 4);
}

#[test]
fn many_transfers_from_one_source() {
    let a = addr(1);
    let mut an = ConflictAnalyzer::new();
    for tx in [3u64, 8, 11, 20] {
        an.record_mnt_transfer(a, tx);
    }
    let r = an.analyze_conflicts();
    let ss = same_source(&r, a);
    assert_eq!(ss.len(), 1);
    assert_eq!(sorted(&ss[0].transactions), vec![3, 8, 11, 20]);
}

#[test]
fn single_transfer_is_no_conflict() {
    let mut an = ConflictAnalyzer::new();
    an.record_mnt_transfer(addr(1), 0);
    an.record_mnt_transfer(addr(2), 1);
    assert!(an.analyze_conflicts().is_empty());
}

#[test]
fn writer_and_readers_conflict() {
    let c = addr(9);
    let s = slot(1);
    let mut an = ConflictAnalyzer::new();
    an.record_storage_access(c, s, 1, AccessType::Read);
    an.record_storage_access(c, s, 2, AccessType::Read);
    an.record_storage_access(c, s, 3, AccessType::Write);
    let r = an.analyze_conflicts();
    let st = storage(&r, c, s);
    assert_eq!(st.len(), 1);
    assert_eq!(sorted(&st[0].transactions), vec![1, 2, 3]);
}

#[test]
fn two_writers_conflict() {
    let c = addr(9);
    let s = slot(1);
    let mut an = ConflictAnalyzer::new();
    an.record_storage_access(c, s, 4, AccessType::Write);
    an.record_storage_access(c, s, 6, AccessType::Write);
    let r = an.analyze_conflicts();
    assert_eq!(r.len(), 1);
    assert_eq!(sorted(&r[0].transactions), vec![4, 6]);
    assert_eq!(r[0].storage_slot, Some(s));
}

#[test]
fn readers_only_no_conflict() {
    let c = addr(9);
    let s = slot(1);
    let mut an = ConflictAnalyzer::new();
    for tx in 0..6u64 {
        an.record_storage_access(c, s, tx, AccessType::Read);
    }
    assert!(an.analyze_conflicts().is_empty());
}

#[test]
fn single_writer_no_conflict() {
    let mut an = ConflictAnalyzer::new();
    an.record_storage_access(addr(9), slot(1), 3, AccessType::Write);
    an.record_storage_access(addr(9), slot(1), 3, AccessType::Read);
    an.record_storage_access(addr(9), slot(2), 4, AccessType::Read);
    assert!(an.analyze_conflicts().is_empty());
}

#[test]
fn same_slot_of_other_account_is_separate() {
    let s = slot(1);
    let mut an = ConflictAnalyzer::new();
    an.record_storage_access(addr(1), s, 0, AccessType::Write);
    an.record_storage_access(addr(2), s, 1, AccessType::Read);
    assert!(an.analyze_conflicts().is_empty());
}

#[test]
fn analysis_repeats() {
    let mut an = ConflictAnalyzer::new();
    an.record_mnt_transfer(addr(1), 0);
    an.record_mnt_transfer(addr(1), 2);
    an.record_storage_access(addr(5), slot(5), 0, AccessType::Write);
    an.record_storage_access(addr(5), slot(5), 1, AccessType::Read);
    let key = |c: &Conflict| {
        (
            c.conflict_type == ConflictType::StorageSlotConflict,
            c.address.low,
            c.storage_slot.map(|s| s.limb0),
            sorted(&c.transactions),
        )
    };
    let mut r1: Vec<_> = an.analyze_conflicts().iter().map(key).collect();
    let mut r2: Vec<_> = an.analyze_conflicts().iter().map(key).collect();
    r1.sort();
    r2.sort();
    assert_eq!(r1.len(), 2);
    assert_eq!(r1, r2);
}

#[test]
fn read_then_write_folds_to_write() {
    let c = addr(3);
    let s = slot(3);
    let mut an = ConflictAnalyzer::new();
    an.record_storage_access(c, s, 5, AccessType::Read);
    an.record_storage_access(c, s, 5, AccessType::Write);
    an.record_storage_access(c, s, 6, AccessType::Read);
    let r = an.analyze_conflicts();
    assert_eq!(r.len(), 1);
    assert_eq!(sorted(&r[0].transactions), vec![5, 6]);
}

#[test]
fn write_then_read_folds_to_write() {
    let c = addr(3);
    let s = slot(3);
    let mut an = ConflictAnalyzer::new();
    an.record_storage_access(c, s, 5, AccessType::Write);
    an.record_storage_access(c, s, 5, AccessType::Read);
    an.record_storage_access(c, s, 6, AccessType::Read);
    let r = an.analyze_conflicts();
    assert_eq!(r.len(), 1);
    assert_eq!(sorted(&r[0].transactions), vec![5, 6]);
}

#[test]
fn repeated_reads_fold_to_one_record() {
    let c = addr(3);
    let s = slot(3);
    let mut an = ConflictAnalyzer::new();
    an.record_storage_access(c, s, 5, AccessType::Read);
    an.record_storage_access(c, s, 5, AccessType::Read);
    assert!(an.analyze_conflicts().is_empty());
}

#[test]
fn empty_block() {
    let an = ConflictAnalyzer::default();
    let r = an.analyze_conflicts();
    assert!(r.is_empty());
    assert_eq!(count_affected_transactions(&r), 0);
    let mut stats = GlobalStats::new();
    stats.add_block_stats(0, 0, &r);
    assert_eq!(stats.total_blocks, 1);
    assert_eq!(stats.total_txs, 0);
    assert_eq!(stats.conflicted_txs, 0);
}

#[test]
fn failed_transaction_keeps_reads_only() {
    let c = addr(7);
    let w = Location { account: c, slot: slot(1) };
    let other = Location { account: c, slot: slot(2) };
    let mut an = ConflictAnalyzer::new();
    an.record_transaction(0, addr(1), true, true, &vec![w], &vec![]);
    an.record_transaction(1, addr(1), false, false, &vec![other], &vec![w]);
    an.record_transaction(2, addr(2), false, true, &vec![], &vec![other]);
    let r = an.analyze_conflicts();
    assert_eq!(r.len(), 1);
    assert_eq!(r[0].conflict_type, ConflictType::StorageSlotConflict);
    assert_eq!(r[0].storage_slot, Some(slot(1)));
    assert_eq!(sorted(&r[0].transactions), vec![0, 1]);
}

#[test]
fn transaction_moving_value_is_a_transfer() {
    let mut an = ConflictAnalyzer::new();
    an.record_transaction(0, addr(1), true, false, &vec![], &vec![]);
    an.record_transaction(1, addr(1), true, true, &vec![], &vec![]);
    an.record_transaction(2, addr(1), false, true, &vec![], &vec![]);
    let r = an.analyze_conflicts();
    assert_eq!(r.len(), 1);
    assert_eq!(sorted(&r[0].transactions), vec![0, 1]);
}

#[test]
fn affected_count_is_distinct() {
    let r = vec![
        Conflict {
            conflict_type: ConflictType::MultipleMntTransfersFromSameSource,
            address: addr(1),
            transactions: vec![1, 2, 3],
            storage_slot: None,
        },
        Conflict {
            conflict_type: ConflictType::StorageSlotConflict,
            address: addr(2),
            transactions: vec![3, 4],
            storage_slot: Some(slot(0)),
        },
    ];
    assert_eq!(count_affected_transactions(&r), 4);
}
