use vstd::prelude::*;

use crate::analyzer::ConflictAnalyzer;
use crate::model::{
    accesses_at, has_write, is_analysis, is_contended, is_same_source_conflict,
    is_storage_conflict, same_key, txs_of, with_access, AccessType, Address, ConflictType,
    ConflictView, Location,
};

verus! {

/// A source with two or more recorded transfers has exactly one same-source
/// conflict in the analysis, and it names exactly the transactions of those
/// transfers.
pub proof fn lemma_same_source_conflict_complete(
    an: &ConflictAnalyzer,
    r: Seq<ConflictView>,
    a: Address,
)
    requires
        is_analysis(an.transfers(), an.accesses(), r),
        txs_of(an.transfers(), a).len() >= 2,
    ensures
        exists|i: int|
            0 <= i < r.len() && (#[trigger] r[i]).kind
                == ConflictType::MultipleMntTransfersFromSameSource && r[i].address == a
                && r[i].transactions.to_set() == txs_of(an.transfers(), a).to_set(),
        forall|i: int, j: int|
            0 <= i < r.len() && 0 <= j < r.len() && (#[trigger] r[i]).kind
                == ConflictType::MultipleMntTransfersFromSameSource && r[i].address == a && (
            #[trigger] r[j]).kind == ConflictType::MultipleMntTransfersFromSameSource
                && r[j].address == a ==> i == j,
{
    let t = an.transfers();
    assert(txs_of(t, a).len() >= 2);
    let i = choose|i: int|
        0 <= i < r.len() && (#[trigger] r[i]).kind
            == ConflictType::MultipleMntTransfersFromSameSource && r[i].address == a;
    assert(is_same_source_conflict(t, r[i]));
    assert forall|i: int, j: int|
        0 <= i < r.len() && 0 <= j < r.len() && (#[trigger] r[i]).kind
            == ConflictType::MultipleMntTransfersFromSameSource && r[i].address == a && (
        #[trigger] r[j]).kind == ConflictType::MultipleMntTransfersFromSameSource
            && r[j].address == a implies i == j by {
        assert(is_same_source_conflict(t, r[i]));
        assert(is_same_source_conflict(t, r[j]));
        if i != j {
            assert(!same_key(r[i], r[j]));
        }
    }
}

/// A source with a single recorded transfer is in no conflict.
pub proof fn lemma_single_transfer_no_conflict(
    an: &ConflictAnalyzer,
    r: Seq<ConflictView>,
    a: Address,
)
    requires
        is_analysis(an.transfers(), an.accesses(), r),
        txs_of(an.transfers(), a).len() == 1,
    ensures
        forall|i: int|
            0 <= i < r.len() ==> !((#[trigger] r[i]).kind
                == ConflictType::MultipleMntTransfersFromSameSource && r[i].address == a),
{
    assert forall|i: int| 0 <= i < r.len() implies !((#[trigger] r[i]).kind
        == ConflictType::MultipleMntTransfersFromSameSource && r[i].address == a) by {
        if r[i].kind == ConflictType::MultipleMntTransfersFromSameSource {
            assert(is_same_source_conflict(an.transfers(), r[i]));
        }
    }
}

/// A location touched by two or more transactions, one of which wrote it, has
/// exactly one storage conflict, naming every transaction that touched it.
pub proof fn lemma_storage_conflict_complete(
    an: &ConflictAnalyzer,
    r: Seq<ConflictView>,
    loc: Location,
)
    requires
        is_analysis(an.transfers(), an.accesses(), r),
        accesses_at(an.accesses(), loc).dom().len() >= 2,
        has_write(accesses_at(an.accesses(), loc)),
    ensures
        exists|i: int|
            0 <= i < r.len() && (#[trigger] r[i]).kind == ConflictType::StorageSlotConflict
                && r[i].address == loc.account && r[i].storage_slot == Some(loc.slot)
                && r[i].transactions.to_set() == accesses_at(an.accesses(), loc).dom(),
        forall|i: int, j: int|
            0 <= i < r.len() && 0 <= j < r.len() && (#[trigger] r[i]).kind
                == ConflictType::StorageSlotConflict && r[i].address == loc.account
                && r[i].storage_slot == Some(loc.slot) && (#[trigger] r[j]).kind
                == ConflictType::StorageSlotConflict && r[j].address == loc.account
                && r[j].storage_slot == Some(loc.slot) ==> i == j,
{
    let m = an.accesses();
    assert(is_contended(accesses_at(m, loc)));
    let i = choose|i: int|
        0 <= i < r.len() && (#[trigger] r[i]).kind == ConflictType::StorageSlotConflict
            && r[i].address == loc.account && r[i].storage_slot == Some(loc.slot);
    assert(is_storage_conflict(m, r[i]));
    assert(Location { account: r[i].address, slot: r[i].storage_slot->Some_0 } == loc);
    assert forall|i: int, j: int|
        0 <= i < r.len() && 0 <= j < r.len() && (#[trigger] r[i]).kind
            == ConflictType::StorageSlotConflict && r[i].address == loc.account
            && r[i].storage_slot == Some(loc.slot) && (#[trigger] r[j]).kind
            == ConflictType::StorageSlotConflict && r[j].address == loc.account
            && r[j].storage_slot == Some(loc.slot) implies i == j by {
        if i != j {
            assert(!same_key(r[i], r[j]));
        }
    }
}

/// A location that was only ever read is in no conflict, however many
/// transactions read it.
pub proof fn lemma_reads_only_no_conflict(
    an: &ConflictAnalyzer,
    r: Seq<ConflictView>,
    loc: Location,
)
    requires
        is_analysis(an.transfers(), an.accesses(), r),
        forall|t: u64|
            #[trigger] accesses_at(an.accesses(), loc).contains_key(t) ==> accesses_at(
                an.accesses(),
                loc,
            )[t] == AccessType::Read,
    ensures
        forall|i: int|
            0 <= i < r.len() ==> !((#[trigger] r[i]).kind == ConflictType::StorageSlotConflict
                && r[i].address == loc.account && r[i].storage_slot == Some(loc.slot)),
{
    assert forall|i: int| 0 <= i < r.len() implies !((#[trigger] r[i]).kind
        == ConflictType::StorageSlotConflict && r[i].address == loc.account && r[i].storage_slot
        == Some(loc.slot)) by {
        if r[i].kind == ConflictType::StorageSlotConflict && r[i].address == loc.account
            && r[i].storage_slot == Some(loc.slot) {
            assert(is_storage_conflict(an.accesses(), r[i]));
            assert(Location { account: r[i].address, slot: r[i].storage_slot->Some_0 } == loc);
            assert(has_write(accesses_at(an.accesses(), loc)));
        }
    }
}

/// Every conflict of one analysis has a match in the other, of the same kind,
/// address and slot and with the same set of transactions.
pub open spec fn covers(r1: Seq<ConflictView>, r2: Seq<ConflictView>) -> bool {
    forall|i: int|
        0 <= i < r1.len() ==> exists|j: int|
            0 <= j < r2.len() && same_key(#[trigger] r1[i], #[trigger] r2[j])
                && r1[i].transactions.to_set() == r2[j].transactions.to_set()
}

proof fn lemma_covers(an: &ConflictAnalyzer, r1: Seq<ConflictView>, r2: Seq<ConflictView>)
    requires
        is_analysis(an.transfers(), an.accesses(), r1),
        is_analysis(an.transfers(), an.accesses(), r2),
    ensures
        covers(r1, r2),
{
    let t = an.transfers();
    let m = an.accesses();
    assert forall|i: int| 0 <= i < r1.len() implies exists|j: int|
        0 <= j < r2.len() && same_key(#[trigger] r1[i], #[trigger] r2[j])
            && r1[i].transactions.to_set() == r2[j].transactions.to_set() by {
        let c = r1[i];
        if is_same_source_conflict(t, c) {
            assert(txs_of(t, c.address).len() >= 2);
            let j = choose|j: int|
                0 <= j < r2.len() && (#[trigger] r2[j]).kind
                    == ConflictType::MultipleMntTransfersFromSameSource && r2[j].address
                    == c.address;
            assert(is_same_source_conflict(t, r2[j]));
            assert(same_key(r1[i], r2[j]));
        } else {
            assert(is_storage_conflict(m, c));
            let loc = Location { account: c.address, slot: c.storage_slot->Some_0 };
            assert(is_contended(accesses_at(m, loc)));
            let j = choose|j: int|
                0 <= j < r2.len() && (#[trigger] r2[j]).kind == ConflictType::StorageSlotConflict
                    && r2[j].address == loc.account && r2[j].storage_slot == Some(loc.slot);
            assert(is_storage_conflict(m, r2[j]));
            assert(Location { account: r2[j].address, slot: r2[j].storage_slot->Some_0 } == loc);
            assert(same_key(r1[i], r2[j]));
        }
    }
}

/// Two analyses of one unchanged analyzer report the same conflicts, as sets.
pub proof fn lemma_analysis_repeatable(
    an: &ConflictAnalyzer,
    r1: Seq<ConflictView>,
    r2: Seq<ConflictView>,
)
    requires
        is_analysis(an.transfers(), an.accesses(), r1),
        is_analysis(an.transfers(), an.accesses(), r2),
    ensures
        covers(r1, r2),
        covers(r2, r1),
{
    lemma_covers(an, r1, r2);
    lemma_covers(an, r2, r1);
}

/// A read and a write of one location by one transaction fold to a single
/// write, whichever is recorded first.
pub proof fn lemma_write_dominates(
    accesses: Map<Location, Map<u64, AccessType>>,
    loc: Location,
    tx: u64,
)
    ensures
        accesses_at(
            with_access(with_access(accesses, loc, tx, AccessType::Read), loc, tx, AccessType::Write),
            loc,
        )[tx] == AccessType::Write,
        with_access(with_access(accesses, loc, tx, AccessType::Read), loc, tx, AccessType::Write)
            == with_access(
            with_access(accesses, loc, tx, AccessType::Write),
            loc,
            tx,
            AccessType::Read,
        ),
{
    let a = with_access(with_access(accesses, loc, tx, AccessType::Read), loc, tx, AccessType::Write);
    let b = with_access(with_access(accesses, loc, tx, AccessType::Write), loc, tx, AccessType::Read);
    assert(accesses_at(a, loc) =~= accesses_at(accesses, loc).insert(tx, AccessType::Write));
    assert(accesses_at(b, loc) =~= accesses_at(accesses, loc).insert(tx, AccessType::Write));
    assert(a =~= b);
}

/// With nothing recorded there is nothing to report.
pub proof fn lemma_empty_analysis(an: &ConflictAnalyzer, r: Seq<ConflictView>)
    requires
        an.transfers() == Map::<Address, Seq<u64>>::empty(),
        an.accesses() == Map::<Location, Map<u64, AccessType>>::empty(),
        is_analysis(an.transfers(), an.accesses(), r),
    ensures
        r.len() == 0,
{
    if r.len() > 0 {
        if is_same_source_conflict(an.transfers(), r[0]) {
            assert(txs_of(an.transfers(), r[0].address).len() == 0);
        } else {
            assert(is_storage_conflict(an.accesses(), r[0]));
            let loc = Location { account: r[0].address, slot: r[0].storage_slot->Some_0 };
            assert(accesses_at(an.accesses(), loc).dom() =~= Set::<u64>::empty());
        }
    }
}

} // verus!
