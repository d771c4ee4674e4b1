use vstd::prelude::*;

use crate::model::{conflicts_view, Conflict, ConflictType, ConflictView};

verus! {

#[verifier::external_type_specification]
#[verifier::external_body]
pub struct ExInstant(std::time::Instant);

/// Relies on std::time::Instant::now for the moment counting starts; nothing
/// is assumed of the value.
#[verifier::external_body]
fn now() -> (r: std::time::Instant) {
    std::time::Instant::now()
}

/// The sum, over the conflicts of kind `kind`, of the number of transactions
/// each names.
pub open spec fn tally(s: Seq<ConflictView>, kind: ConflictType) -> nat
    decreases s.len(),
{
    if s.len() == 0 {
        0
    } else {
        tally(s.drop_last(), kind) + if s.last().kind == kind {
            s.last().transactions.len()
        } else {
            0
        }
    }
}

proof fn lemma_tally_prefix(s: Seq<ConflictView>, kind: ConflictType, i: int, j: int)
    requires
        0 <= i <= j <= s.len(),
    ensures
        tally(s.take(i), kind) <= tally(s.take(j), kind),
    decreases j - i,
{
    if i < j {
        lemma_tally_prefix(s, kind, i, j - 1);
        assert(s.take(j).drop_last() =~= s.take(j - 1));
    }
}

/// Counters kept over all processed blocks.
pub struct GlobalStats {
    pub total_blocks: usize,
    pub invalid_blocks: usize,
    pub total_txs: usize,
    pub conflicted_txs: usize,
    pub same_source_conflicts: usize,
    pub storage_slot_conflicts: usize,
    pub start_time: std::time::Instant,
}

impl GlobalStats {
    /// Every counter at zero, with the clock started now.
    pub fn new() -> (r: Self)
        ensures
            r.total_blocks == 0,
            r.invalid_blocks == 0,
            r.total_txs == 0,
            r.conflicted_txs == 0,
            r.same_source_conflicts == 0,
            r.storage_slot_conflicts == 0,
    {
        GlobalStats {
            total_blocks: 0,
            invalid_blocks: 0,
            total_txs: 0,
            conflicted_txs: 0,
            same_source_conflicts: 0,
            storage_slot_conflicts: 0,
            start_time: now(),
        }
    }

    /// Folds in one analysed block: its transaction count, the number of its
    /// distinct implicated transactions, and per kind the transactions named
    /// by each of its conflicts.
    pub fn add_block_stats(
        &mut self,
        total_block_txs: usize,
        conflicted_block_txs: usize,
        conflicts: &[Conflict],
    )
        requires
            old(self).total_blocks < usize::MAX,
            old(self).total_txs + total_block_txs <= usize::MAX,
            old(self).conflicted_txs + conflicted_block_txs <= usize::MAX,
            old(self).same_source_conflicts + tally(
                conflicts_view(conflicts@),
                ConflictType::MultipleMntTransfersFromSameSource,
            ) <= usize::MAX,
            old(self).storage_slot_conflicts + tally(
                conflicts_view(conflicts@),
                ConflictType::StorageSlotConflict,
            ) <= usize::MAX,
        ensures
            final(self).total_blocks == old(self).total_blocks + 1,
            final(self).invalid_blocks == old(self).invalid_blocks,
            final(self).total_txs == old(self).total_txs + total_block_txs,
            final(self).conflicted_txs == old(self).conflicted_txs + conflicted_block_txs,
            final(self).same_source_conflicts == old(self).same_source_conflicts + tally(
                conflicts_view(conflicts@),
                ConflictType::MultipleMntTransfersFromSameSource,
            ),
            final(self).storage_slot_conflicts == old(self).storage_slot_conflicts + tally(
                conflicts_view(conflicts@),
                ConflictType::StorageSlotConflict,
            ),
            final(self).start_time == old(self).start_time,
    {
        self.total_blocks += 1;
        self.total_txs += total_block_txs;
        self.conflicted_txs += conflicted_block_txs;
        let ghost s = conflicts_view(conflicts@);
        let ghost same0 = self.same_source_conflicts as int;
        let ghost slot0 = self.storage_slot_conflicts as int;
        let mut i: usize = 0;
        while i < conflicts.len()
            invariant
                s == conflicts_view(conflicts@),
                0 <= i <= conflicts.len(),
                self.same_source_conflicts == same0 + tally(
                    s.take(i as int),
                    ConflictType::MultipleMntTransfersFromSameSource,
                ),
                self.storage_slot_conflicts == slot0 + tally(
                    s.take(i as int),
                    ConflictType::StorageSlotConflict,
                ),
                same0 + tally(s, ConflictType::MultipleMntTransfersFromSameSource) <= usize::MAX,
                slot0 + tally(s, ConflictType::StorageSlotConflict) <= usize::MAX,
                self.total_blocks == old(self).total_blocks + 1,
                self.invalid_blocks == old(self).invalid_blocks,
                self.total_txs == old(self).total_txs + total_block_txs,
                self.conflicted_txs == old(self).conflicted_txs + conflicted_block_txs,
                self.start_time == old(self).start_time,
            decreases conflicts.len() - i,
        {
            let conflict = &conflicts[i];
            proof {
                assert(s.take(i + 1).drop_last() =~= s.take(i as int));
                assert(s.take(i + 1).last() == conflict@);
                assert(s.take(s.len() as int) =~= s);
                lemma_tally_prefix(
                    s,
                    ConflictType::MultipleMntTransfersFromSameSource,
                    i + 1,
                    s.len() as int,
                );
                lemma_tally_prefix(s, ConflictType::StorageSlotConflict, i + 1, s.len() as int);
            }
            match conflict.conflict_type {
                ConflictType::MultipleMntTransfersFromSameSource => {
                    self.same_source_conflicts += conflict.transactions.len();
                },
                ConflictType::StorageSlotConflict => {
                    self.storage_slot_conflicts += conflict.transactions.len();
                },
            }
            i += 1;
        }
        assert(s.take(i as int) =~= s);
    }

    /// Counts one block whose analysis could not be completed.
    pub fn record_invalid_block(&mut self)
        requires
            old(self).invalid_blocks < usize::MAX,
        ensures
            final(self).invalid_blocks == old(self).invalid_blocks + 1,
            final(self).total_blocks == old(self).total_blocks,
            final(self).total_txs == old(self).total_txs,
            final(self).conflicted_txs == old(self).conflicted_txs,
            final(self).same_source_conflicts == old(self).same_source_conflicts,
            final(self).storage_slot_conflicts == old(self).storage_slot_conflicts,
            final(self).start_time == old(self).start_time,
    {
        self.invalid_blocks += 1;
    }
}

impl Default for GlobalStats {
    fn default() -> (r: Self)
        ensures
            r.total_blocks == 0,
            r.invalid_blocks == 0,
            r.total_txs == 0,
            r.conflicted_txs == 0,
            r.same_source_conflicts == 0,
            r.storage_slot_conflicts == 0,
    {
        Self::new()
    }
}

} // verus!
