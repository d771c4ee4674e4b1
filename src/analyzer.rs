use vstd::prelude::*;

use crate::model::{
    accesses_at, conflicts_view, dominate, has_write, implicated, implicated_upto, is_analysis,
    is_contended, is_same_source_conflict, is_storage_conflict, same_key, txs_of, with_access,
    with_accesses, with_transfer, AccessType, Address, Conflict, ConflictType, Location,
    StorageSlot,
};

verus! {

/// The transfers out of one source, in recording order.
struct TransferGroup {
    source: Address,
    txs: Vec<u64>,
}

/// The folded accesses to one location, one record per transaction.
struct SlotGroup {
    location: Location,
    records: Vec<(u64, AccessType)>,
}

/// The transactions of the records, in order.
spec fn record_txs(records: Seq<(u64, AccessType)>) -> Seq<u64> {
    records.map_values(|r: (u64, AccessType)| r.0)
}

/// `records` holds one entry per transaction, and they are the entries of `inner`.
spec fn records_match(records: Seq<(u64, AccessType)>, inner: Map<u64, AccessType>) -> bool {
    &&& record_txs(records).no_duplicates()
    &&& inner.dom() == record_txs(records).to_set()
    &&& forall|k: int| 0 <= k < records.len() ==> inner[#[trigger] records[k].0] == records[k].1
}

/// The groups hold one entry per source, and it agrees with the model.
spec fn transfers_ok(groups: Seq<TransferGroup>, model: Map<Address, Seq<u64>>) -> bool {
    &&& forall|a: Address|
        #[trigger] model.contains_key(a) <==> exists|i: int|
            0 <= i < groups.len() && (#[trigger] groups[i]).source == a
    &&& forall|i: int| 0 <= i < groups.len() ==> model[(#[trigger] groups[i]).source] == groups[i].txs@
    &&& forall|i: int, j: int|
        0 <= i < groups.len() && 0 <= j < groups.len() && i != j ==> (#[trigger] groups[i]).source
            != (#[trigger] groups[j]).source
}

/// The groups hold one entry per location, and it agrees with the model.
spec fn accesses_ok(groups: Seq<SlotGroup>, model: Map<Location, Map<u64, AccessType>>) -> bool {
    &&& forall|loc: Location|
        #[trigger] model.contains_key(loc) <==> exists|i: int|
            0 <= i < groups.len() && (#[trigger] groups[i]).location == loc
    &&& forall|i: int|
        0 <= i < groups.len() ==> records_match(
            (#[trigger] groups[i]).records@,
            model[groups[i].location],
        )
    &&& forall|i: int, j: int|
        0 <= i < groups.len() && 0 <= j < groups.len() && i != j ==> (#[trigger] groups[i]).location
            != (#[trigger] groups[j]).location
}

/// Bookkeeping of one block: native transfers by source, and the folded
/// storage accesses of each location.
pub struct ConflictAnalyzer {
    mnt_transfers: Vec<TransferGroup>,
    storage_accesses: Vec<SlotGroup>,
    transfer_model: Ghost<Map<Address, Seq<u64>>>,
    access_model: Ghost<Map<Location, Map<u64, AccessType>>>,
}

impl ConflictAnalyzer {
    /// The transfers recorded so far, by source, in recording order.
    pub closed spec fn transfers(&self) -> Map<Address, Seq<u64>> {
        self.transfer_model@
    }

    /// The folded access of each transaction, by location.
    pub closed spec fn accesses(&self) -> Map<Location, Map<u64, AccessType>> {
        self.access_model@
    }

    pub closed spec fn wf(&self) -> bool {
        &&& transfers_ok(self.mnt_transfers@, self.transfer_model@)
        &&& accesses_ok(self.storage_accesses@, self.access_model@)
    }

    /// An analyzer with nothing recorded.
    pub fn new() -> (r: Self)
        ensures
            r.wf(),
            r.transfers() == Map::<Address, Seq<u64>>::empty(),
            r.accesses() == Map::<Location, Map<u64, AccessType>>::empty(),
    {
        ConflictAnalyzer {
            mnt_transfers: Vec::new(),
            storage_accesses: Vec::new(),
            transfer_model: Ghost(Map::empty()),
            access_model: Ghost(Map::empty()),
        }
    }
    fn find_source(&self, from: Address) -> (r: Option<usize>)
        ensures
            match r {
                Some(i) => i < self.mnt_transfers.len() && self.mnt_transfers[i as int].source
                    == from,
                None => forall|k: int|
                    0 <= k < self.mnt_transfers.len() ==> (#[trigger] self.mnt_transfers[k]).source
                        != from,
            },
    {
        let mut i: usize = 0;
        while i < self.mnt_transfers.len()
            invariant
                0 <= i <= self.mnt_transfers.len(),
                forall|k: int| 0 <= k < i ==> (#[trigger] self.mnt_transfers[k]).source != from,
            decreases self.mnt_transfers.len() - i,
        {
            if self.mnt_transfers[i].source == from {
                return Some(i);
            }
            i += 1;
        }
        None
    }

    /// Records that transaction `tx_number` moved native value out of `from`.
    pub fn record_mnt_transfer(&mut self, from: Address, tx_number: u64)
        requires
            old(self).wf(),
        ensures
            final(self).wf(),
            final(self).transfers() == with_transfer(old(self).transfers(), from, tx_number),
            final(self).accesses() == old(self).accesses(),
    {
        match self.find_source(from) {
            Some(i) => {
                let mut txs = self.mnt_transfers[i].txs.clone();
                assert(txs@ =~= self.mnt_transfers[i as int].txs@);
                txs.push(tx_number);
                self.mnt_transfers.set(i, TransferGroup { source: from, txs });
                self.transfer_model = Ghost(
                    with_transfer(self.transfer_model@, from, tx_number),
                );
                proof {
                    assert(old(self).transfer_model@.contains_key(from));
                    assert(self.storage_accesses@ == old(self).storage_accesses@);
                    assert forall|k: int| 0 <= k < self.mnt_transfers.len() implies self.transfer_model@[(
                    #[trigger] self.mnt_transfers[k]).source] == self.mnt_transfers[k].txs@ by {
                        if k != i {
                            assert(old(self).mnt_transfers[k] == self.mnt_transfers[k]);
                            assert(old(self).mnt_transfers[k].source != from);
                        }
                    }
                    assert forall|a: Address|
                        #[trigger] self.transfer_model@.contains_key(a) <==> exists|k: int|
                            0 <= k < self.mnt_transfers.len()
                                && (#[trigger] self.mnt_transfers[k]).source == a by {
                        if old(self).transfer_model@.contains_key(a) {
                            let k = choose|k: int|
                                0 <= k < old(self).mnt_transfers.len()
                                    && (#[trigger] old(self).mnt_transfers[k]).source == a;
                            assert(self.mnt_transfers[k].source == a);
                        }
                        if exists|k: int|
                            0 <= k < self.mnt_transfers.len()
                                && (#[trigger] self.mnt_transfers[k]).source == a {
                            let k = choose|k: int|
                                0 <= k < self.mnt_transfers.len()
                                    && (#[trigger] self.mnt_transfers[k]).source == a;
                            assert(old(self).mnt_transfers[k].source == a);
                        }
                    }
                }
            },
            None => {
                let mut txs: Vec<u64> = Vec::new();
                txs.push(tx_number);
                self.mnt_transfers.push(TransferGroup { source: from, txs });
                self.transfer_model = Ghost(
                    with_transfer(self.transfer_model@, from, tx_number),
                );
                proof {
                    assert(!old(self).transfer_model@.contains_key(from));
                    assert(self.storage_accesses@ == old(self).storage_accesses@);
                    assert(txs@ =~= seq![tx_number]);
                    assert forall|k: int| 0 <= k < self.mnt_transfers.len() implies self.transfer_model@[(
                    #[trigger] self.mnt_transfers[k]).source] == self.mnt_transfers[k].txs@ by {
                        if k != old(self).mnt_transfers.len() as int {
                            assert(old(self).mnt_transfers[k] == self.mnt_transfers[k]);
                        }
                    }
                    let n = old(self).mnt_transfers.len() as int;
                    assert(self.mnt_transfers[n].source == from);
                    assert forall|a: Address|
                        #[trigger] self.transfer_model@.contains_key(a) <==> exists|k: int|
                            0 <= k < self.mnt_transfers.len()
                                && (#[trigger] self.mnt_transfers[k]).source == a by {
                        if old(self).transfer_model@.contains_key(a) {
                            let k = choose|k: int|
                                0 <= k < old(self).mnt_transfers.len()
                                    && (#[trigger] old(self).mnt_transfers[k]).source == a;
                            assert(self.mnt_transfers[k].source == a);
                        }
                        if exists|k: int|
                            0 <= k < self.mnt_transfers.len()
                                && (#[trigger] self.mnt_transfers[k]).source == a {
                            let k = choose|k: int|
                                0 <= k < self.mnt_transfers.len()
                                    && (#[trigger] self.mnt_transfers[k]).source == a;
                            if k < n {
                                assert(old(self).mnt_transfers[k].source == a);
                            }
                        }
                    }
                }
            },
        }
    }
    fn find_location(&self, loc: Location) -> (r: Option<usize>)
        ensures
            match r {
                Some(i) => i < self.storage_accesses.len() && self.storage_accesses[i as int].location
                    == loc,
                None => forall|k: int|
                    0 <= k < self.storage_accesses.len() ==> (
                    #[trigger] self.storage_accesses[k]).location != loc,
            },
    {
        let mut i: usize = 0;
        while i < self.storage_accesses.len()
            invariant
                0 <= i <= self.storage_accesses.len(),
                forall|k: int| 0 <= k < i ==> (#[trigger] self.storage_accesses[k]).location != loc,
            decreases self.storage_accesses.len() - i,
        {
            if self.storage_accesses[i].location == loc {
                return Some(i);
            }
            i += 1;
        }
        None
    }

    /// Records that transaction `tx_number` accessed `slot` of `contract` as
    /// `access_type`; a second access by the same transaction is folded into
    /// the first by the dominance rule.
    pub fn record_storage_access(
        &mut self,
        contract: Address,
        slot: StorageSlot,
        tx_number: u64,
        access_type: AccessType,
    )
        requires
            old(self).wf(),
        ensures
            final(self).wf(),
            final(self).accesses() == with_access(
                old(self).accesses(),
                Location { account: contract, slot },
                tx_number,
                access_type,
            ),
            final(self).transfers() == old(self).transfers(),
    {
        let loc = Location { account: contract, slot };
        match self.find_location(loc) {
            Some(i) => {
                let ghost inner = self.access_model@[loc];
                let records = fold_access(
                    &self.storage_accesses[i].records,
                    tx_number,
                    access_type,
                    Ghost(inner),
                );
                self.storage_accesses.set(i, SlotGroup { location: loc, records });
                self.access_model = Ghost(
                    with_access(self.access_model@, loc, tx_number, access_type),
                );
                proof {
                    assert(old(self).access_model@.contains_key(loc));
                    assert forall|l: Location|
                        #[trigger] self.access_model@.contains_key(l) <==> exists|k: int|
                            0 <= k < self.storage_accesses.len()
                                && (#[trigger] self.storage_accesses[k]).location == l by {
                        if old(self).access_model@.contains_key(l) {
                            let k = choose|k: int|
                                0 <= k < old(self).storage_accesses.len()
                                    && (#[trigger] old(self).storage_accesses[k]).location == l;
                            assert(self.storage_accesses[k].location == l);
                        }
                        if exists|k: int|
                            0 <= k < self.storage_accesses.len()
                                && (#[trigger] self.storage_accesses[k]).location == l {
                            let k = choose|k: int|
                                0 <= k < self.storage_accesses.len()
                                    && (#[trigger] self.storage_accesses[k]).location == l;
                            assert(old(self).storage_accesses[k].location == l);
                        }
                    }
                    assert forall|k: int| 0 <= k < self.storage_accesses.len() implies records_match(
                        (#[trigger] self.storage_accesses[k]).records@,
                        self.access_model@[self.storage_accesses[k].location],
                    ) by {
                        if k != i {
                            assert(old(self).storage_accesses[k] == self.storage_accesses[k]);
                        }
                    }
                }
            },
            None => {
                let mut records: Vec<(u64, AccessType)> = Vec::new();
                records.push((tx_number, access_type));
                self.storage_accesses.push(SlotGroup { location: loc, records });
                self.access_model = Ghost(
                    with_access(self.access_model@, loc, tx_number, access_type),
                );
                proof {
                    assert(!old(self).access_model@.contains_key(loc));
                    let n = old(self).storage_accesses.len() as int;
                    assert(self.storage_accesses[n].location == loc);
                    assert(record_txs(records@) =~= seq![tx_number]);
                    assert(seq![tx_number][0] == tx_number);
                    assert(seq![tx_number].to_set() =~= set![tx_number]);
                    assert(Map::<u64, AccessType>::empty().insert(tx_number, access_type).dom()
                        =~= set![tx_number]);
                    assert forall|l: Location|
                        #[trigger] self.access_model@.contains_key(l) <==> exists|k: int|
                            0 <= k < self.storage_accesses.len()
                                && (#[trigger] self.storage_accesses[k]).location == l by {
                        if old(self).access_model@.contains_key(l) {
                            let k = choose|k: int|
                                0 <= k < old(self).storage_accesses.len()
                                    && (#[trigger] old(self).storage_accesses[k]).location == l;
                            assert(self.storage_accesses[k].location == l);
                        }
                        if exists|k: int|
                            0 <= k < self.storage_accesses.len()
                                && (#[trigger] self.storage_accesses[k]).location == l {
                            let k = choose|k: int|
                                0 <= k < self.storage_accesses.len()
                                    && (#[trigger] self.storage_accesses[k]).location == l;
                            if k < n {
                                assert(old(self).storage_accesses[k].location == l);
                            }
                        }
                    }
                    assert forall|k: int| 0 <= k < self.storage_accesses.len() implies records_match(
                        (#[trigger] self.storage_accesses[k]).records@,
                        self.access_model@[self.storage_accesses[k].location],
                    ) by {
                        if k != n {
                            assert(old(self).storage_accesses[k] == self.storage_accesses[k]);
                        }
                    }
                }
            },
        }
    }
    /// Every conflict of the recorded transfers and accesses, each once.
    pub fn analyze_conflicts(&self) -> (r: Vec<Conflict>)
        requires
            self.wf(),
        ensures
            is_analysis(self.transfers(), self.accesses(), conflicts_view(r@)),
    {
        let ghost tm = self.transfer_model@;
        let ghost am = self.access_model@;
        let mut conflicts: Vec<Conflict> = Vec::new();
        let ghost mut origin: Seq<int> = Seq::empty();
        let mut i: usize = 0;
        while i < self.mnt_transfers.len()
            invariant
                self.wf(),
                tm == self.transfer_model@,
                0 <= i <= self.mnt_transfers.len(),
                origin.len() == conflicts.len(),
                forall|k: int|
                    0 <= k < conflicts.len() ==> 0 <= #[trigger] origin[k] < i
                        && conflicts[k]@.address == self.mnt_transfers[origin[k]].source
                        && is_same_source_conflict(tm, conflicts[k]@),
                forall|k1: int, k2: int|
                    0 <= k1 < k2 < conflicts.len() ==> #[trigger] origin[k1] < #[trigger] origin[k2],
                forall|g: int|
                    0 <= g < i && (#[trigger] self.mnt_transfers[g]).txs.len() >= 2 ==> exists|k: int|
                        0 <= k < conflicts.len() && origin[k] == g,
            decreases self.mnt_transfers.len() - i,
        {
            if self.mnt_transfers[i].txs.len() > 1 {
                let txs = self.mnt_transfers[i].txs.clone();
                assert(txs@ =~= self.mnt_transfers[i as int].txs@);
                proof {
                    let src = self.mnt_transfers[i as int].source;
                    assert(transfers_ok(self.mnt_transfers@, tm));
                    assert(self.mnt_transfers@[i as int].source == src);
                    assert(tm.contains_key(src));
                    assert(txs_of(tm, src) == txs@);
                }
                conflicts.push(
                    Conflict {
                        conflict_type: ConflictType::MultipleMntTransfersFromSameSource,
                        address: self.mnt_transfers[i].source,
                        transactions: txs,
                        storage_slot: None,
                    },
                );
                proof {
                    let old_origin = origin;
                    let k = origin.len() as int;
                    origin = origin.push(i as int);
                    assert(origin[k] == i);
                    assert forall|g: int|
                        0 <= g <= i && (#[trigger] self.mnt_transfers[g]).txs.len() >= 2 implies exists|
                        k2: int,
                    | 0 <= k2 < conflicts.len() && origin[k2] == g by {
                        if g < i {
                            let k2 = choose|k2: int| 0 <= k2 < old_origin.len() && old_origin[k2] == g;
                            assert(origin[k2] == g);
                        } else {
                            assert(origin[k] == g);
                        }
                    }
                }
            }
            i += 1;
        }
        let ghost n1 = conflicts.len() as int;
        let mut j: usize = 0;
        while j < self.storage_accesses.len()
            invariant
                self.wf(),
                tm == self.transfer_model@,
                am == self.access_model@,
                0 <= j <= self.storage_accesses.len(),
                0 <= n1 <= conflicts.len(),
                origin.len() == conflicts.len(),
                forall|k: int|
                    0 <= k < n1 ==> 0 <= #[trigger] origin[k] < self.mnt_transfers.len()
                        && conflicts[k]@.address == self.mnt_transfers[origin[k]].source
                        && is_same_source_conflict(tm, conflicts[k]@),
                forall|k1: int, k2: int|
                    0 <= k1 < k2 < n1 ==> #[trigger] origin[k1] < #[trigger] origin[k2],
                forall|g: int|
                    0 <= g < self.mnt_transfers.len() && (#[trigger] self.mnt_transfers[g]).txs.len()
                        >= 2 ==> exists|k: int| 0 <= k < n1 && origin[k] == g,
                forall|k: int|
                    n1 <= k < conflicts.len() ==> 0 <= #[trigger] origin[k] < j
                        && conflicts[k]@.address == self.storage_accesses[origin[k]].location.account
                        && conflicts[k]@.storage_slot == Some(
                        self.storage_accesses[origin[k]].location.slot,
                    ) && is_storage_conflict(am, conflicts[k]@),
                forall|k1: int, k2: int|
                    n1 <= k1 < k2 < conflicts.len() ==> #[trigger] origin[k1] < #[trigger] origin[k2],
                forall|g: int|
                    0 <= g < j && is_contended(
                        am[(#[trigger] self.storage_accesses[g]).location],
                    ) ==> exists|k: int| n1 <= k < conflicts.len() && origin[k] == g,
            decreases self.storage_accesses.len() - j,
        {
            let records = &self.storage_accesses[j].records;
            let loc = self.storage_accesses[j].location;
            proof {
                assert(accesses_ok(self.storage_accesses@, am));
                assert(self.storage_accesses@[j as int].location == loc);
                assert(am.contains_key(loc));
                lemma_contended(records@, am[loc]);
            }
            if records.len() > 1 && has_write_record(records) {
                let txs = record_tx_list(records);
                proof {
                    assert(accesses_at(am, loc) == am[loc]);
                    assert(records_match(records@, am[loc]));
                    assert(is_contended(am[loc]));
                    assert(n1 <= origin.len());
                }
                let ghost len0 = conflicts.len() as int;
                let ghost old_conflicts = conflicts@;
                conflicts.push(
                    Conflict {
                        conflict_type: ConflictType::StorageSlotConflict,
                        address: loc.account,
                        transactions: txs,
                        storage_slot: Some(loc.slot),
                    },
                );
                proof {
                    let old_origin = origin;
                    let k = origin.len() as int;
                    origin = origin.push(j as int);
                    assert(origin[k] == j);
                    assert(k == len0);
                    assert(Location {
                        account: conflicts[k]@.address,
                        slot: conflicts[k]@.storage_slot->Some_0,
                    } == loc);
                    assert(is_storage_conflict(am, conflicts[k]@));
                    assert forall|k2: int| 0 <= k2 < len0 implies conflicts@[k2] == old_conflicts[k2]
                        && origin[k2] == old_origin[k2] by {}
                    assert forall|g: int|
                        0 <= g < self.mnt_transfers.len() && (#[trigger] self.mnt_transfers[g]).txs.len()
                            >= 2 implies exists|k2: int| 0 <= k2 < n1 && origin[k2] == g by {
                        let k2 = choose|k2: int| 0 <= k2 < n1 && old_origin[k2] == g;
                        assert(origin[k2] == g);
                    }
                    assert forall|g: int|
                        0 <= g <= j && is_contended(
                            am[(#[trigger] self.storage_accesses[g]).location],
                        ) implies exists|k2: int| n1 <= k2 < conflicts.len() && origin[k2] == g by {
                        if g < j {
                            let k2 = choose|k2: int| n1 <= k2 < len0 && old_origin[k2] == g;
                            assert(origin[k2] == g);
                        } else {
                            assert(origin[k] == g);
                        }
                    }
                }
            }
            j += 1;
        }
        proof {
            let r = conflicts_view(conflicts@);
            assert forall|k: int| 0 <= k < r.len() implies r[k] == (#[trigger] conflicts[k])@ by {}
            assert forall|k: int|
                0 <= k < r.len() implies is_same_source_conflict(tm, #[trigger] r[k])
                || is_storage_conflict(am, r[k]) by {
                assert(r[k] == conflicts[k]@);
                assert(origin[k] >= 0);
            }
            assert forall|a: Address| #[trigger]
                txs_of(tm, a).len() >= 2 implies exists|k: int|
                0 <= k < r.len() && (#[trigger] r[k]).kind
                    == ConflictType::MultipleMntTransfersFromSameSource && r[k].address == a by {
                let g = choose|g: int|
                    0 <= g < self.mnt_transfers.len() && (#[trigger] self.mnt_transfers[g]).source == a;
                let k = choose|k: int| 0 <= k < n1 && origin[k] == g;
                assert(conflicts[k]@.address == a);
                assert(r[k] == conflicts[k]@);
            }
            assert forall|loc: Location| #[trigger]
                is_contended(accesses_at(am, loc)) implies exists|k: int|
                0 <= k < r.len() && (#[trigger] r[k]).kind == ConflictType::StorageSlotConflict
                    && r[k].address == loc.account && r[k].storage_slot == Some(loc.slot) by {
                assert(am.contains_key(loc));
                let g = choose|g: int|
                    0 <= g < self.storage_accesses.len()
                        && (#[trigger] self.storage_accesses[g]).location == loc;
                let k = choose|k: int| n1 <= k < conflicts.len() && origin[k] == g;
                assert(r[k] == conflicts[k]@);
            }
            assert forall|k1: int, k2: int|
                0 <= k1 < r.len() && 0 <= k2 < r.len() && k1 != k2 implies !same_key(
                #[trigger] r[k1],
                #[trigger] r[k2],
            ) by {
                assert(r[k1] == conflicts[k1]@);
                assert(r[k2] == conflicts[k2]@);
                assert(transfers_ok(self.mnt_transfers@, tm));
                assert(accesses_ok(self.storage_accesses@, am));
                if k1 < n1 && k2 < n1 {
                    if k1 < k2 {
                        assert(origin[k1] < origin[k2]);
                    } else {
                        assert(origin[k2] < origin[k1]);
                    }
                    assert(self.mnt_transfers@[origin[k1]].source
                        != self.mnt_transfers@[origin[k2]].source);
                } else if k1 >= n1 && k2 >= n1 {
                    if k1 < k2 {
                        assert(origin[k1] < origin[k2]);
                    } else {
                        assert(origin[k2] < origin[k1]);
                    }
                    let l1 = self.storage_accesses@[origin[k1]].location;
                    let l2 = self.storage_accesses@[origin[k2]].location;
                    assert(l1 != l2);
                    if same_key(r[k1], r[k2]) {
                        assert(l1.account == l2.account);
                        assert(Some(l1.slot) == Some(l2.slot));
                        assert(l1 == l2);
                    }
                }
            }
        }
        conflicts
    }
}

/// Whether some record is a write.
fn has_write_record(records: &Vec<(u64, AccessType)>) -> (r: bool)
    ensures
        r == exists|k: int| 0 <= k < records.len() && (#[trigger] records[k]).1 == AccessType::Write,
{
    let mut k: usize = 0;
    while k < records.len()
        invariant
            0 <= k <= records.len(),
            forall|m: int| 0 <= m < k ==> (#[trigger] records[m]).1 != AccessType::Write,
        decreases records.len() - k,
    {
        if records[k].1 == AccessType::Write {
            return true;
        }
        k += 1;
    }
    false
}

/// The transactions of the records, in order.
fn record_tx_list(records: &Vec<(u64, AccessType)>) -> (r: Vec<u64>)
    ensures
        r@ == record_txs(records@),
{
    let mut r: Vec<u64> = Vec::new();
    let mut k: usize = 0;
    while k < records.len()
        invariant
            0 <= k <= records.len(),
            r@ =~= record_txs(records@.take(k as int)),
        decreases records.len() - k,
    {
        r.push(records[k].0);
        k += 1;
        assert(record_txs(records@.take(k as int)) =~= record_txs(records@.take(k - 1 as int)).push(
            records[k - 1].0,
        ));
    }
    assert(records@.take(k as int) =~= records@);
    r
}

proof fn lemma_contended(records: Seq<(u64, AccessType)>, inner: Map<u64, AccessType>)
    requires
        records_match(records, inner),
    ensures
        inner.dom().finite(),
        inner.dom().len() == records.len(),
        has_write(inner) == exists|k: int|
            0 <= k < records.len() && (#[trigger] records[k]).1 == AccessType::Write,
{
    record_txs(records).unique_seq_to_set();
    if has_write(inner) {
        let t = choose|t: u64| inner.contains_key(t) && inner[t] == AccessType::Write;
        assert(record_txs(records).contains(t));
        let k = choose|k: int| 0 <= k < records.len() && record_txs(records)[k] == t;
        assert(records[k].0 == t);
    }
    if exists|k: int| 0 <= k < records.len() && (#[trigger] records[k]).1 == AccessType::Write {
        let k = choose|k: int| 0 <= k < records.len() && (#[trigger] records[k]).1 == AccessType::Write;
        assert(record_txs(records)[k] == records[k].0);
        assert(inner.contains_key(records[k].0));
    }
}


/// The records of one location after transaction `tx` accessed it as `kind`.
fn fold_access(
    records: &Vec<(u64, AccessType)>,
    tx: u64,
    kind: AccessType,
    Ghost(inner): Ghost<Map<u64, AccessType>>,
) -> (r: Vec<(u64, AccessType)>)
    requires
        records_match(records@, inner),
    ensures
        records_match(
            r@,
            inner.insert(
                tx,
                dominate(
                    if inner.contains_key(tx) {
                        Some(inner[tx])
                    } else {
                        None
                    },
                    kind,
                ),
            ),
        ),
{
    let mut r: Vec<(u64, AccessType)> = Vec::new();
    let mut found = false;
    let mut k: usize = 0;
    while k < records.len()
        invariant
            0 <= k <= records.len(),
            r.len() == k,
            records_match(records@, inner),
            found <==> exists|m: int| 0 <= m < k && (#[trigger] records[m]).0 == tx,
            forall|m: int|
                0 <= m < k ==> (#[trigger] r[m]).0 == records[m].0 && r[m].1 == (if records[m].0
                    == tx {
                    dominate(Some(records[m].1), kind)
                } else {
                    records[m].1
                }),
        decreases records.len() - k,
    {
        let (t, a) = records[k];
        if t == tx {
            let folded = if a == AccessType::Write {
                AccessType::Write
            } else {
                kind
            };
            r.push((t, folded));
            found = true;
        } else {
            r.push((t, a));
        }
        k += 1;
    }
    let ghost target = inner.insert(
        tx,
        dominate(
            if inner.contains_key(tx) {
                Some(inner[tx])
            } else {
                None
            },
            kind,
        ),
    );
    if !found {
        r.push((tx, kind));
        proof {
            let n = records.len() as int;
            assert(record_txs(r@) =~= record_txs(records@).push(tx));
            assert(!record_txs(records@).contains(tx)) by {
                if record_txs(records@).contains(tx) {
                    let m = choose|m: int| 0 <= m < n && record_txs(records@)[m] == tx;
                    assert(records[m].0 == tx);
                }
            }
            assert(!inner.contains_key(tx));
            assert(record_txs(r@)[n] == tx);
            assert forall|t: u64| record_txs(r@).contains(t) <==> record_txs(records@).contains(t)
                || t == tx by {
                if record_txs(records@).contains(t) {
                    let m = choose|m: int| 0 <= m < n && record_txs(records@)[m] == t;
                    assert(record_txs(r@)[m] == t);
                }
                if record_txs(r@).contains(t) {
                    let m = choose|m: int| 0 <= m <= n && record_txs(r@)[m] == t;
                    if m < n {
                        assert(record_txs(records@)[m] == t);
                    }
                }
            }
            assert(target.dom() =~= record_txs(r@).to_set());
            assert forall|m: int| 0 <= m < r.len() implies target[#[trigger] r[m].0] == r[m].1 by {
                if m < n {
                    assert(record_txs(records@)[m] == records[m].0);
                }
            }
        }
    } else {
        proof {
            let n = records.len() as int;
            assert(record_txs(r@) =~= record_txs(records@));
            let w = choose|m: int| 0 <= m < n && (#[trigger] records[m]).0 == tx;
            assert(record_txs(records@)[w] == tx);
            assert(inner.contains_key(tx));
            assert(inner[tx] == records[w].1);
            assert(target.dom() =~= record_txs(r@).to_set());
            assert forall|m: int| 0 <= m < r.len() implies target[#[trigger] r[m].0] == r[m].1 by {
                if records[m].0 == tx {
                    assert(record_txs(records@)[m] == record_txs(records@)[w]);
                }
            }
        }
    }
    r
}

impl Default for ConflictAnalyzer {
    fn default() -> (r: Self)
        ensures
            r.wf(),
            r.transfers() == Map::<Address, Seq<u64>>::empty(),
            r.accesses() == Map::<Location, Map<u64, AccessType>>::empty(),
    {
        Self::new()
    }
}

impl ConflictAnalyzer {
    fn record_all(&mut self, locs: &Vec<Location>, tx_number: u64, kind: AccessType)
        requires
            old(self).wf(),
        ensures
            final(self).wf(),
            final(self).accesses() == with_accesses(old(self).accesses(), locs@, tx_number, kind),
            final(self).transfers() == old(self).transfers(),
    {
        let mut i: usize = 0;
        while i < locs.len()
            invariant
                self.wf(),
                0 <= i <= locs.len(),
                self.accesses() == with_accesses(
                    old(self).accesses(),
                    locs@.take(i as int),
                    tx_number,
                    kind,
                ),
                self.transfers() == old(self).transfers(),
            decreases locs.len() - i,
        {
            let loc = locs[i];
            self.record_storage_access(loc.account, loc.slot, tx_number, kind);
            proof {
                assert(locs@.take(i + 1).drop_last() =~= locs@.take(i as int));
                assert(locs@.take(i + 1).last() == loc);
            }
            i += 1;
        }
        assert(locs@.take(i as int) =~= locs@);
    }

    /// Records what one replayed transaction did: a transfer out of `caller`
    /// when it moved native value, a write of each location in `written` when
    /// it succeeded, and then a read of each location in `read`, whether or
    /// not it succeeded.
    pub fn record_transaction(
        &mut self,
        tx_number: u64,
        caller: Address,
        moves_value: bool,
        succeeded: bool,
        written: &Vec<Location>,
        read: &Vec<Location>,
    )
        requires
            old(self).wf(),
        ensures
            final(self).wf(),
            final(self).transfers() == if moves_value {
                with_transfer(old(self).transfers(), caller, tx_number)
            } else {
                old(self).transfers()
            },
            final(self).accesses() == with_accesses(
                if succeeded {
                    with_accesses(old(self).accesses(), written@, tx_number, AccessType::Write)
                } else {
                    old(self).accesses()
                },
                read@,
                tx_number,
                AccessType::Read,
            ),
    {
        if moves_value {
            self.record_mnt_transfer(caller, tx_number);
        }
        if succeeded {
            self.record_all(written, tx_number, AccessType::Write);
        }
        self.record_all(read, tx_number, AccessType::Read);
    }
}


fn contains_tx(v: &Vec<u64>, t: u64) -> (r: bool)
    ensures
        r == v@.contains(t),
{
    let mut k: usize = 0;
    while k < v.len()
        invariant
            0 <= k <= v.len(),
            forall|m: int| 0 <= m < k ==> v[m] != t,
        decreases v.len() - k,
    {
        if v[k] == t {
            assert(v@[k as int] == t);
            return true;
        }
        k += 1;
    }
    false
}

/// The number of distinct transactions implicated in the conflicts.
pub fn count_affected_transactions(conflicts: &Vec<Conflict>) -> (r: usize)
    ensures
        implicated(conflicts_view(conflicts@)).finite(),
        r == implicated(conflicts_view(conflicts@)).len(),
{
    let ghost s = conflicts_view(conflicts@);
    let mut seen: Vec<u64> = Vec::new();
    let mut i: usize = 0;
    while i < conflicts.len()
        invariant
            s == conflicts_view(conflicts@),
            0 <= i <= conflicts.len(),
            seen@.no_duplicates(),
            seen@.to_set() == implicated_upto(s, i as int, 0),
        decreases conflicts.len() - i,
    {
        let txs = &conflicts[i].transactions;
        assert(s[i as int].transactions == txs@);
        let mut j: usize = 0;
        while j < txs.len()
            invariant
                s == conflicts_view(conflicts@),
                0 <= i < conflicts.len(),
                txs@ == s[i as int].transactions,
                0 <= j <= txs.len(),
                seen@.no_duplicates(),
                seen@.to_set() == implicated_upto(s, i as int, j as int),
            decreases txs.len() - j,
        {
            let t = txs[j];
            let ghost before = seen@;
            if !contains_tx(&seen, t) {
                seen.push(t);
                assert(seen@ == before.push(t));
            }
            proof {
                assert forall|x: u64| seen@.contains(x) <==> before.contains(x) || x == t by {
                    if x == t && !before.contains(t) {
                        assert(seen@[before.len() as int] == t);
                    }
                    if seen@.contains(x) && !before.contains(x) {
                        let m = choose|m: int| 0 <= m < seen@.len() && seen@[m] == x;
                        if m < before.len() {
                            assert(before[m] == x);
                        }
                    }
                    if before.contains(x) {
                        let m = choose|m: int| 0 <= m < before.len() && before[m] == x;
                        assert(seen@[m] == x);
                    }
                }
                assert forall|x: u64|
                    implicated_upto(s, i as int, j + 1) .contains(x) <==> implicated_upto(
                        s,
                        i as int,
                        j as int,
                    ).contains(x) || x == t by {
                    if x == t {
                        assert(s[i as int].transactions[j as int] == t);
                    }
                }
                assert forall|x: u64|
                    seen@.to_set().contains(x) <==> implicated_upto(s, i as int, j + 1).contains(
                        x,
                    ) by {
                    assert(before.to_set().contains(x) == before.contains(x));
                    assert(seen@.to_set().contains(x) == seen@.contains(x));
                }
                assert(seen@.to_set() =~= implicated_upto(s, i as int, j + 1));
            }
            j += 1;
        }
        proof {
            assert forall|x: u64|
                implicated_upto(s, i + 1, 0).contains(x) <==> implicated_upto(
                    s,
                    i as int,
                    j as int,
                ).contains(x) by {
                if implicated_upto(s, i as int, j as int).contains(x) {
                    let (a, b) = choose|a: int, b: int|
                        0 <= a <= i && a < s.len() && 0 <= b < s[a].transactions.len() && (a < i
                            || b < j) && s[a].transactions[b] == x;
                    assert(0 <= a <= i + 1 && a < s.len() && 0 <= b < s[a].transactions.len() && (a
                        < i + 1 || b < 0) && s[a].transactions[b] == x);
                }
                if implicated_upto(s, i + 1, 0).contains(x) {
                    let (a, b) = choose|a: int, b: int|
                        0 <= a <= i + 1 && a < s.len() && 0 <= b < s[a].transactions.len() && (a
                            < i + 1 || b < 0) && s[a].transactions[b] == x;
                    assert(0 <= a <= i && a < s.len() && 0 <= b < s[a].transactions.len() && (a < i
                        || b < j) && s[a].transactions[b] == x);
                }
            }
            assert(seen@.to_set() =~= implicated_upto(s, i + 1, 0));
        }
        i += 1;
    }
    proof {
        assert forall|x: u64|
            implicated(s).contains(x) <==> implicated_upto(s, i as int, 0).contains(x) by {
            if implicated(s).contains(x) {
                let (a, b) = choose|a: int, b: int|
                    0 <= a < s.len() && 0 <= b < s[a].transactions.len() && s[a].transactions[b] == x;
                assert(0 <= a <= i && a < s.len() && 0 <= b < s[a].transactions.len() && (a < i
                    || b < 0) && s[a].transactions[b] == x);
            }
        }
        assert(implicated(s) =~= implicated_upto(s, i as int, 0));
        seen@.unique_seq_to_set();
    }
    seen.len()
}

} // verus!
