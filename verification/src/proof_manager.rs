//! Back pressure of the quorum store: how many transactions and proofs
//! wait for consensus, and whether that is too many.

use vstd::prelude::*;

verus! {

/// Whether the quorum store is to hold back: the waiting transactions, or
/// the waiting proofs, exceed their limit.
#[derive(Clone, Copy, Debug, PartialEq, Eq, Structural)]
pub struct BackPressure {
    pub txn_count: bool,
    pub proof_count: bool,
}

/// Counts what waits for consensus, against two limits.
pub struct ProofManager {
    back_pressure_total_txn_limit: u64,
    remaining_total_txn_num: u64,
    back_pressure_total_proof_limit: u64,
    remaining_total_proof_num: u64,
}

impl ProofManager {
    /// Limit of waiting transactions beyond which there is back pressure.
    pub closed spec fn txn_limit(&self) -> u64 {
        self.back_pressure_total_txn_limit
    }

    /// Limit of waiting proofs beyond which there is back pressure.
    pub closed spec fn proof_limit(&self) -> u64 {
        self.back_pressure_total_proof_limit
    }

    /// Number of transactions that wait.
    pub closed spec fn remaining_txns(&self) -> u64 {
        self.remaining_total_txn_num
    }

    /// Number of proofs that wait.
    pub closed spec fn remaining_proofs(&self) -> u64 {
        self.remaining_total_proof_num
    }

    /// The back pressure that the counts call for.
    pub open spec fn back_pressure(&self) -> BackPressure {
        BackPressure {
            txn_count: self.remaining_txns() > self.txn_limit(),
            proof_count: self.remaining_proofs() > self.proof_limit(),
        }
    }

    pub fn new(back_pressure_total_txn_limit: u64, back_pressure_total_proof_limit: u64) -> (manager:
        ProofManager)
        ensures
            manager.txn_limit() == back_pressure_total_txn_limit,
            manager.proof_limit() == back_pressure_total_proof_limit,
            manager.remaining_txns() == 0,
            manager.remaining_proofs() == 0,
    {
        ProofManager {
            back_pressure_total_txn_limit,
            remaining_total_txn_num: 0,
            back_pressure_total_proof_limit,
            remaining_total_proof_num: 0,
        }
    }

    pub fn remaining_total_txn_num(&self) -> (count: u64)
        ensures
            count == self.remaining_txns(),
    {
        self.remaining_total_txn_num
    }

    pub fn remaining_total_proof_num(&self) -> (count: u64)
        ensures
            count == self.remaining_proofs(),
    {
        self.remaining_total_proof_num
    }

    /// Counts a received proof of `num_txns` transactions.
    pub fn receive_proof(&mut self, num_txns: u64)
        requires
            old(self).remaining_txns() + num_txns <= u64::MAX,
            old(self).remaining_proofs() < u64::MAX,
        ensures
            final(self).remaining_txns() == old(self).remaining_txns() + num_txns,
            final(self).remaining_proofs() == old(self).remaining_proofs() + 1,
            final(self).txn_limit() == old(self).txn_limit(),
            final(self).proof_limit() == old(self).proof_limit(),
    {
        self.remaining_total_txn_num += num_txns;
        self.remaining_total_proof_num += 1;
    }

    /// Takes the counts that are left once a commit is worked in.
    pub fn handle_commit_notification(
        &mut self,
        remaining_total_txn_num: u64,
        remaining_total_proof_num: u64,
    )
        ensures
            final(self).remaining_txns() == remaining_total_txn_num,
            final(self).remaining_proofs() == remaining_total_proof_num,
            final(self).txn_limit() == old(self).txn_limit(),
            final(self).proof_limit() == old(self).proof_limit(),
    {
        self.remaining_total_txn_num = remaining_total_txn_num;
        self.remaining_total_proof_num = remaining_total_proof_num;
    }

    /// Tells whether the quorum store is back pressured.
    pub fn qs_back_pressure(&self) -> (back_pressure: BackPressure)
        ensures
            back_pressure == self.back_pressure(),
    {
        BackPressure {
            txn_count: self.remaining_total_txn_num > self.back_pressure_total_txn_limit,
            proof_count: self.remaining_total_proof_num > self.back_pressure_total_proof_limit,
        }
    }

    /// The back pressure to announce after an event, given the one that was
    /// announced last: the present one where it differs, else nothing.
    pub fn updated_back_pressure(&self, announced: BackPressure) -> (update: Option<BackPressure>)
        ensures
            update == if self.back_pressure() == announced {
                None
            } else {
                Some(self.back_pressure())
            },
    {
        let updated_back_pressure = self.qs_back_pressure();
        if updated_back_pressure != announced {
            Some(updated_back_pressure)
        } else {
            None
        }
    }
}

} // verus!
