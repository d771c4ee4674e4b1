use vstd::prelude::*;

verus! {

/// How a transaction touched a storage location.
#[derive(Debug, Clone, Copy, PartialEq, Eq, Structural)]
pub enum AccessType {
    Read,
    Write,
}

/// The two kinds of conflict the analyzer reports.
#[derive(Debug, Clone, Copy, PartialEq, Eq, Structural)]
pub enum ConflictType {
    MultipleMntTransfersFromSameSource,
    StorageSlotConflict,
}

/// A 20-byte account identifier, held big-endian: the first four bytes in
/// `high`, the next eight in `mid`, the last eight in `low`.
#[derive(Debug, Clone, Copy, PartialEq, Eq, Structural)]
pub struct Address {
    pub high: u32,
    pub mid: u64,
    pub low: u64,
}

/// A 256-bit storage key of an account, as four 64-bit limbs, least
/// significant first.
#[derive(Debug, Clone, Copy, PartialEq, Eq, Structural)]
pub struct StorageSlot {
    pub limb0: u64,
    pub limb1: u64,
    pub limb2: u64,
    pub limb3: u64,
}

/// One persistent storage cell: a slot of an account.
#[derive(Debug, Clone, Copy, PartialEq, Eq, Structural)]
pub struct Location {
    pub account: Address,
    pub slot: StorageSlot,
}

/// A group of transactions that cannot be assumed independent.
#[derive(Debug, Clone)]
pub struct Conflict {
    pub conflict_type: ConflictType,
    pub address: Address,
    pub transactions: Vec<u64>,
    pub storage_slot: Option<StorageSlot>,
}

/// The mathematical value of a `Conflict`.
pub struct ConflictView {
    pub kind: ConflictType,
    pub address: Address,
    pub storage_slot: Option<StorageSlot>,
    pub transactions: Seq<u64>,
}

impl View for Conflict {
    type V = ConflictView;

    open spec fn view(&self) -> ConflictView {
        ConflictView {
            kind: self.conflict_type,
            address: self.address,
            storage_slot: self.storage_slot,
            transactions: self.transactions@,
        }
    }
}

/// The values of a list of conflicts.
pub open spec fn conflicts_view(s: Seq<Conflict>) -> Seq<ConflictView> {
    s.map_values(|c: Conflict| c@)
}

/// The transfers recorded from `a`, in the order they were recorded.
pub open spec fn txs_of(transfers: Map<Address, Seq<u64>>, a: Address) -> Seq<u64> {
    if transfers.contains_key(a) {
        transfers[a]
    } else {
        Seq::empty()
    }
}

/// The folded access of each transaction to `loc`.
pub open spec fn accesses_at(
    accesses: Map<Location, Map<u64, AccessType>>,
    loc: Location,
) -> Map<u64, AccessType> {
    if accesses.contains_key(loc) {
        accesses[loc]
    } else {
        Map::empty()
    }
}

/// The dominance rule: a recorded write stays a write; otherwise the new
/// access kind is taken.
pub open spec fn dominate(prev: Option<AccessType>, kind: AccessType) -> AccessType {
    match prev {
        Some(AccessType::Write) => AccessType::Write,
        _ => kind,
    }
}

/// The transfer model after one more transfer from `a` in transaction `tx`.
pub open spec fn with_transfer(
    transfers: Map<Address, Seq<u64>>,
    a: Address,
    tx: u64,
) -> Map<Address, Seq<u64>> {
    transfers.insert(a, txs_of(transfers, a).push(tx))
}

/// The access model after transaction `tx` accessed `loc` as `kind`.
pub open spec fn with_access(
    accesses: Map<Location, Map<u64, AccessType>>,
    loc: Location,
    tx: u64,
    kind: AccessType,
) -> Map<Location, Map<u64, AccessType>> {
    let inner = accesses_at(accesses, loc);
    let prev = if inner.contains_key(tx) {
        Some(inner[tx])
    } else {
        None
    };
    accesses.insert(loc, inner.insert(tx, dominate(prev, kind)))
}

/// Some transaction wrote the location.
pub open spec fn has_write(inner: Map<u64, AccessType>) -> bool {
    exists|t: u64| inner.contains_key(t) && inner[t] == AccessType::Write
}

/// A location is contended when two or more transactions touched it and at
/// least one of them wrote it.
pub open spec fn is_contended(inner: Map<u64, AccessType>) -> bool {
    inner.dom().len() >= 2 && has_write(inner)
}

/// `c` is the same-source conflict of its address under `transfers`.
pub open spec fn is_same_source_conflict(transfers: Map<Address, Seq<u64>>, c: ConflictView) -> bool {
    &&& c.kind == ConflictType::MultipleMntTransfersFromSameSource
    &&& c.storage_slot == Option::<StorageSlot>::None
    &&& txs_of(transfers, c.address).len() >= 2
    &&& c.transactions == txs_of(transfers, c.address)
}

/// `c` is the storage conflict of its location under `accesses`.
pub open spec fn is_storage_conflict(
    accesses: Map<Location, Map<u64, AccessType>>,
    c: ConflictView,
) -> bool {
    &&& c.kind == ConflictType::StorageSlotConflict
    &&& c.storage_slot is Some
    &&& is_contended(accesses_at(accesses, Location { account: c.address, slot: c.storage_slot->Some_0 }))
    &&& c.transactions.no_duplicates()
    &&& c.transactions.to_set() == accesses_at(
        accesses,
        Location { account: c.address, slot: c.storage_slot->Some_0 },
    ).dom()
}

/// Two conflicts of the same kind about the same address and slot.
pub open spec fn same_key(c: ConflictView, d: ConflictView) -> bool {
    &&& c.kind == d.kind
    &&& c.address == d.address
    &&& c.storage_slot == d.storage_slot
}

/// `r` lists, each once and in some order, exactly the conflicts of the
/// recorded transfers and accesses.
pub open spec fn is_analysis(
    transfers: Map<Address, Seq<u64>>,
    accesses: Map<Location, Map<u64, AccessType>>,
    r: Seq<ConflictView>,
) -> bool {
    &&& forall|i: int|
        0 <= i < r.len() ==> is_same_source_conflict(transfers, #[trigger] r[i])
            || is_storage_conflict(accesses, r[i])
    &&& forall|a: Address|
        #![trigger txs_of(transfers, a)]
        txs_of(transfers, a).len() >= 2 ==> exists|i: int|
            0 <= i < r.len() && (#[trigger] r[i]).kind
                == ConflictType::MultipleMntTransfersFromSameSource && r[i].address == a
    &&& forall|loc: Location|
        #![trigger accesses_at(accesses, loc)]
        is_contended(accesses_at(accesses, loc)) ==> exists|i: int|
            0 <= i < r.len() && (#[trigger] r[i]).kind == ConflictType::StorageSlotConflict
                && r[i].address == loc.account && r[i].storage_slot == Some(loc.slot)
    &&& forall|i: int, j: int|
        0 <= i < r.len() && 0 <= j < r.len() && i != j ==> !same_key(#[trigger] r[i], #[trigger] r[j])
}

/// The access model after transaction `tx` accessed each of `locs`, in
/// order, as `kind`.
pub open spec fn with_accesses(
    accesses: Map<Location, Map<u64, AccessType>>,
    locs: Seq<Location>,
    tx: u64,
    kind: AccessType,
) -> Map<Location, Map<u64, AccessType>>
    decreases locs.len(),
{
    if locs.len() == 0 {
        accesses
    } else {
        with_access(with_accesses(accesses, locs.drop_last(), tx, kind), locs.last(), tx, kind)
    }
}

/// The transactions named in the first `i` conflicts of `s`, and in the
/// first `j` entries of conflict `i`.
pub open spec fn implicated_upto(s: Seq<ConflictView>, i: int, j: int) -> Set<u64> {
    Set::new(
        |t: u64|
            exists|a: int, b: int|
                0 <= a <= i && a < s.len() && 0 <= b < s[a].transactions.len() && (a < i || b < j)
                    && s[a].transactions[b] == t,
    )
}

/// The transactions implicated in at least one of the conflicts.
pub open spec fn implicated(s: Seq<ConflictView>) -> Set<u64> {
    Set::new(
        |t: u64|
            exists|a: int, b: int|
                0 <= a < s.len() && 0 <= b < s[a].transactions.len() && s[a].transactions[b] == t,
    )
}

} // verus!
