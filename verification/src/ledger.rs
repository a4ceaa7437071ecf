//! The core ledger service: the single contract the consensus engine
//! calls.
//!
//! It composes committee resolution, transmission validation and the
//! block commit pipeline over a snapshot of ledger state, and owns the
//! sole mutation path of the ledger head.

use crate::block::{
    block_digest, block_digest_exec, copy_certificates, entries_ok,
    entries_ok_upto, entries_solutions, entries_transactions, entry_ok, map_contains_key,
    lemma_txs_model_push, max_round, max_round_exec, subdag_covered, valid_next_block, Block,
    Certificate, SubDag, TransmissionMap, certs_model, txs_model,
};
use crate::codec::{fold_mix64, mix64, mix64_exec, push_u64_le, u64_le};
use crate::committee::{applicable_index, committees_sorted, previous_round, Committee};
use crate::errors::LedgerError;
use crate::transmission::{
    ensure_outcome, is_resolved_match, lemma_tx_round_trip, solution_data_model,
    solution_is_valid, transaction_data_model, tx_decoded, tx_encoding, verify_solution,
    Solution, SolutionData, Transaction, TransactionData, TransactionModel, Transmission,
    TransmissionId,
};
use vstd::prelude::*;

verus! {

/// The mathematical model of the service's state.
#[verifier::ext_equal]
pub ghost struct LedgerModel {
    /// The committee history, ordered by `starting_round`.
    pub committees: Seq<Committee>,
    /// The chain of committed blocks; the entry at index `h` has height `h`.
    pub blocks: Seq<Block>,
    /// The pool of unconfirmed transactions known to the ledger.
    pub pool: Seq<Transaction>,
    /// Whether the shutdown signal has been observed.
    pub shutdown: bool,
}

/// The invariant of the service's state: at least the genesis block is
/// present, heights index the chain, blocks are hash-linked, rounds never
/// decrease, block hashes are pairwise distinct (content addressing), and
/// the committee history is strictly ordered by `starting_round`.
pub open spec fn ledger_wf(m: LedgerModel) -> bool {
    &&& m.blocks.len() >= 1
    &&& forall|i: int| 0 <= i < m.blocks.len() ==> (#[trigger] m.blocks[i]).height == i
    &&& forall|i: int|
        1 <= i < m.blocks.len() ==> (#[trigger] m.blocks[i]).previous_hash == m.blocks[
            i - 1
        ].hash
    &&& forall|i: int|
        1 <= i < m.blocks.len() ==> (#[trigger] m.blocks[i]).round >= m.blocks[i - 1].round
    &&& forall|i: int, j: int|
        0 <= i < j < m.blocks.len() ==> (#[trigger] m.blocks[i]).hash != (#[trigger] m.blocks[
            j
        ]).hash
    &&& committees_sorted(m.committees)
}

/// Content-addressing law: on a well-formed ledger a block hash denotes
/// one height, so looking up the hash of the block stored at height `h`
/// yields `h` again.
pub proof fn lemma_hash_lookup_round_trip(m: LedgerModel, h: int)
    requires
        ledger_wf(m),
        0 <= h < m.blocks.len(),
    ensures
        forall|j: int|
            0 <= j < m.blocks.len() && (#[trigger] m.blocks[j]).hash == m.blocks[h].hash ==> j
                == h,
{
    assert forall|j: int|
        0 <= j < m.blocks.len() && (#[trigger] m.blocks[j]).hash == m.blocks[h].hash implies j
        == h by {
        if j < h {
            assert(m.blocks[j].hash != m.blocks[h].hash);
        } else if j > h {
            assert(m.blocks[h].hash != m.blocks[j].hash);
        }
    }
}

/// Whether some committed block carries a solution with this commitment.
pub open spec fn ledger_contains_solution(blocks: Seq<Block>, commitment: u64) -> bool {
    exists|i: int, j: int|
        0 <= i < blocks.len() && 0 <= j < (#[trigger] blocks[i]).solutions@.len()
            && (#[trigger] blocks[i].solutions@[j]).commitment == commitment
}

/// Whether some committed block carries a transaction with this id.
pub open spec fn ledger_contains_transaction(blocks: Seq<Block>, id: u64) -> bool {
    exists|i: int, j: int|
        0 <= i < blocks.len() && 0 <= j < (#[trigger] blocks[i]).transactions@.len()
            && (#[trigger] blocks[i].transactions@[j]).id == id
}

/// Whether some committed block carries a certificate with this digest.
pub open spec fn ledger_contains_certificate(blocks: Seq<Block>, id: u64) -> bool {
    exists|i: int, j: int|
        0 <= i < blocks.len() && 0 <= j < (#[trigger] blocks[i]).certificates@.len()
            && (#[trigger] blocks[i].certificates@[j]).id == id
}

/// The outcome of the basic transaction check against a chain of
/// committed blocks: `None` on acceptance, otherwise the exact error.
pub open spec fn check_transaction_outcome(
    blocks: Seq<Block>,
    transaction_id: u64,
    transaction: TransactionData,
) -> Option<LedgerError> {
    match transaction_data_model(transaction) {
        None => Some(LedgerError::CodecError),
        Some(t) => if t.id != transaction_id {
            Some(LedgerError::IdentityMismatch)
        } else if t.is_fee {
            Some(LedgerError::UnexpectedFeeTransaction)
        } else if ledger_contains_transaction(blocks, t.id) {
            Some(LedgerError::VerificationFailed)
        } else {
            None
        },
    }
}

/// Round-trip law for accepted transactions: a transaction the basic
/// check accepts, re-serialized, decodes back to the same object, whose
/// computed identity equals the originally claimed identity.
pub proof fn lemma_accepted_transaction_round_trips(
    blocks: Seq<Block>,
    transaction_id: u64,
    transaction: TransactionData,
)
    requires
        check_transaction_outcome(blocks, transaction_id, transaction) is None,
        (transaction_data_model(transaction)->Some_0).payload.len() <= u64::MAX,
    ensures
        transaction_data_model(transaction) is Some,
        tx_decoded(tx_encoding(transaction_data_model(transaction)->Some_0))
            == transaction_data_model(transaction),
        (transaction_data_model(transaction)->Some_0).id == transaction_id,
{
    lemma_tx_round_trip(transaction_data_model(transaction)->Some_0);
}

/// The stake-bonding transaction synthesized for the given amount and
/// key: its payload encodes both, and its id is their digest.
pub open spec fn bond_transaction(amount: u64, private_key: u64) -> TransactionModel {
    TransactionModel {
        id: fold_mix64(0, seq![private_key, amount]),
        is_fee: false,
        payload: u64_le(private_key) + u64_le(amount),
    }
}

/// A core ledger service over an in-memory ledger snapshot.
#[derive(Debug)]
pub struct CoreLedgerService {
    committees: Vec<Committee>,
    blocks: Vec<Block>,
    pool: Vec<Transaction>,
    shutdown: bool,
}

impl View for CoreLedgerService {
    type V = LedgerModel;

    closed spec fn view(&self) -> LedgerModel {
        LedgerModel {
            committees: self.committees@,
            blocks: self.blocks@,
            pool: self.pool@,
            shutdown: self.shutdown,
        }
    }
}

impl CoreLedgerService {
    /// The service invariant; established by `new` and preserved by every
    /// mutating operation.
    pub open spec fn wf(&self) -> bool {
        ledger_wf(self@)
    }

    /// Initializes a new core ledger service over the given genesis block
    /// and the current state of the shutdown signal.
    pub fn new(genesis: Block, shutdown: bool) -> (r: CoreLedgerService)
        requires
            genesis.height == 0,
        ensures
            r@.blocks == seq![genesis],
            r@.committees == Seq::<Committee>::empty(),
            r@.pool == Seq::<Transaction>::empty(),
            r@.shutdown == shutdown,
            r.wf(),
    {
        let mut blocks: Vec<Block> = Vec::new();
        blocks.push(genesis);
        let r = CoreLedgerService { committees: Vec::new(), blocks, pool: Vec::new(), shutdown };
        proof {
            assert(r@.blocks =~= seq![genesis]);
        }
        r
    }

    /// Records that the shutdown signal has been observed; the signal is
    /// monotonic and is never cleared again.
    pub fn shut_down(&mut self)
        ensures
            final(self)@ == (LedgerModel { shutdown: true, ..old(self)@ }),
    {
        self.shutdown = true;
    }

    /// Installs a committee formed at an epoch or stake-change boundary.
    /// It must start strictly after every committee already stored.
    pub fn add_committee(&mut self, committee: Committee) -> (r: Result<(), LedgerError>)
        requires
            old(self).wf(),
        ensures
            final(self).wf(),
            if old(self)@.committees.len() == 0 || committee.starting_round > old(self)@.committees.last().starting_round {
                r == Ok::<(), LedgerError>(()) && final(self)@ == (LedgerModel {
                    committees: old(self)@.committees.push(committee),
                    ..old(self)@
                })
            } else {
                r == Err::<(), LedgerError>(LedgerError::StorageError) && final(self)@ == old(self)@
            },
    {
        if self.committees.len() > 0 {
            let last = self.committees.len() - 1;
            if committee.starting_round <= self.committees[last].starting_round {
                return Err(LedgerError::StorageError);
            }
        }
        proof {
            let cs = self@.committees.push(committee);
            assert forall|i: int, j: int| 0 <= i < j < cs.len() implies (#[trigger] cs[i]).starting_round
                < (#[trigger] cs[j]).starting_round by {
                if j < cs.len() - 1 {
                    assert(self@.committees[i].starting_round
                        < self@.committees[j].starting_round);
                } else if i < cs.len() - 1 {
                    if i < self@.committees.len() - 1 {
                        assert(self@.committees[i].starting_round < self@.committees[
                            self@.committees.len() - 1
                        ].starting_round);
                    }
                }
            }
        }
        self.committees.push(committee);
        Ok(())
    }

    /// Adds a transaction to the unconfirmed pool.
    pub fn add_unconfirmed_transaction(&mut self, transaction: Transaction)
        ensures
            final(self)@ == (LedgerModel { pool: old(self)@.pool.push(transaction), ..old(self)@ }),
    {
        self.pool.push(transaction);
    }

    /// Returns the latest round in the ledger.
    pub fn latest_round(&self) -> (r: u64)
        requires
            self.wf(),
        ensures
            r == self@.blocks.last().round,
    {
        self.blocks[self.blocks.len() - 1].round
    }

    /// Returns the latest block height in the ledger.
    pub fn latest_block_height(&self) -> (r: u32)
        requires
            self.wf(),
        ensures
            r == self@.blocks.last().height,
            r == self@.blocks.len() - 1,
    {
        self.blocks[self.blocks.len() - 1].height
    }

    /// Returns the latest block in the ledger.
    pub fn latest_block(&self) -> (r: Block)
        requires
            self.wf(),
        ensures
            r@ == self@.blocks.last()@,
    {
        self.blocks[self.blocks.len() - 1].duplicate()
    }

    /// Returns `true` if the given block height exists in the ledger.
    pub fn contains_block_height(&self, height: u32) -> (r: bool)
        requires
            self.wf(),
        ensures
            r == (height < self@.blocks.len()),
    {
        (height as usize) < self.blocks.len()
    }

    /// Returns the block height for the given block hash, if a block with
    /// that hash has been committed.
    pub fn get_block_height(&self, hash: u64) -> (r: Result<u32, LedgerError>)
        requires
            self.wf(),
        ensures
            match r {
                Ok(h) => h < self@.blocks.len() && self@.blocks[h as int].hash == hash && forall|
                    j: int,
                |
                    0 <= j < self@.blocks.len() && j != h ==> (#[trigger] self@.blocks[j]).hash
                        != hash,
                Err(e) => e == LedgerError::NotFound(hash) && forall|j: int|
                    0 <= j < self@.blocks.len() ==> (#[trigger] self@.blocks[j]).hash != hash,
            },
    {
        let mut i: usize = 0;
        while i < self.blocks.len()
            invariant
                self.wf(),
                i <= self@.blocks.len(),
                forall|j: int| 0 <= j < i ==> (#[trigger] self@.blocks[j]).hash != hash,
            decreases self@.blocks.len() - i,
        {
            if self.blocks[i].hash == hash {
                proof {
                    lemma_hash_lookup_round_trip(self@, i as int);
                }
                return Ok(self.blocks[i].height);
            }
            i = i + 1;
        }
        Err(LedgerError::NotFound(hash))
    }

    /// Returns the block hash for the given block height, if it exists.
    pub fn get_block_hash(&self, height: u32) -> (r: Result<u64, LedgerError>)
        requires
            self.wf(),
        ensures
            match r {
                Ok(h) => height < self@.blocks.len() && h == self@.blocks[height as int].hash,
                Err(e) => e == LedgerError::NotFound(height as u64) && height >= self@.blocks.len(),
            },
    {
        if (height as usize) < self.blocks.len() {
            Ok(self.blocks[height as usize].hash)
        } else {
            Err(LedgerError::NotFound(height as u64))
        }
    }

    /// Returns the block for the given block height.
    pub fn get_block(&self, height: u32) -> (r: Result<Block, LedgerError>)
        requires
            self.wf(),
        ensures
            match r {
                Ok(b) => height < self@.blocks.len() && b@ == self@.blocks[height as int]@,
                Err(e) => e == LedgerError::NotFound(height as u64) && height >= self@.blocks.len(),
            },
    {
        if (height as usize) < self.blocks.len() {
            Ok(self.blocks[height as usize].duplicate())
        } else {
            Err(LedgerError::NotFound(height as u64))
        }
    }

    /// Returns the blocks in the given height range, inclusive of `start`
    /// and exclusive of `end`.  A range reaching past the chain fails
    /// `NotFound` carrying the requested end.
    pub fn get_blocks(&self, start: u32, end: u32) -> (r: Result<Vec<Block>, LedgerError>)
        requires
            self.wf(),
        ensures
            match r {
                Ok(v) => end <= self@.blocks.len() && (if start <= end {
                    v@.len() == end - start
                } else {
                    v@.len() == 0
                }) && forall|k: int|
                    0 <= k < v@.len() ==> (#[trigger] v@[k])@ == self@.blocks[start + k]@,
                Err(e) => e == LedgerError::NotFound(end as u64) && end > self@.blocks.len(),
            },
    {
        if (end as usize) > self.blocks.len() {
            return Err(LedgerError::NotFound(end as u64));
        }
        let mut v: Vec<Block> = Vec::new();
        let mut i: usize = start as usize;
        while i < end as usize
            invariant
                self.wf(),
                start <= i <= end || (start > end && i == start),
                end <= self@.blocks.len(),
                v@.len() == if start <= i { i - start } else { 0int },
                forall|k: int|
                    0 <= k < v@.len() ==> (#[trigger] v@[k])@ == self@.blocks[start + k]@,
            decreases end as int - i,
        {
            v.push(self.blocks[i].duplicate());
            i = i + 1;
        }
        Ok(v)
    }

    /// Returns the solution for the given solution commitment from block
    /// history.
    pub fn get_solution(&self, solution_id: u64) -> (r: Result<Solution, LedgerError>)
        requires
            self.wf(),
        ensures
            match r {
                Ok(s) => ledger_contains_solution(self@.blocks, solution_id) && s.commitment
                    == solution_id && (exists|i: int, j: int|
                    #![trigger self@.blocks[i].solutions@[j]]
                    0 <= i < self@.blocks.len() && 0 <= j < self@.blocks[i].solutions@.len()
                        && self@.blocks[i].solutions@[j] == s),
                Err(e) => e == LedgerError::NotFound(solution_id) && !ledger_contains_solution(
                    self@.blocks,
                    solution_id,
                ),
            },
    {
        let mut i: usize = 0;
        while i < self.blocks.len()
            invariant
                self.wf(),
                i <= self@.blocks.len(),
                forall|i2: int, j2: int|
                    0 <= i2 < i && 0 <= j2 < (#[trigger] self@.blocks[i2]).solutions@.len()
                        ==> (#[trigger] self@.blocks[i2].solutions@[j2]).commitment != solution_id,
            decreases self@.blocks.len() - i,
        {
            let block = &self.blocks[i];
            let mut j: usize = 0;
            while j < block.solutions.len()
                invariant
                    i < self@.blocks.len(),
                    block == self@.blocks[i as int],
                    j <= block.solutions@.len(),
                    forall|j2: int|
                        0 <= j2 < j ==> (#[trigger] block.solutions@[j2]).commitment
                            != solution_id,
                decreases block.solutions@.len() - j,
            {
                if block.solutions[j].commitment == solution_id {
                    return Ok(block.solutions[j]);
                }
                j = j + 1;
            }
            i = i + 1;
        }
        Err(LedgerError::NotFound(solution_id))
    }

    /// Returns the unconfirmed transaction for the given transaction id
    /// from the pool.
    pub fn get_unconfirmed_transaction(&self, transaction_id: u64) -> (r: Result<
        Transaction,
        LedgerError,
    >)
        ensures
            match r {
                Ok(t) => t.id == transaction_id && exists|i: int|
                    0 <= i < self@.pool.len() && t@ == (#[trigger] self@.pool[i])@,
                Err(e) => e == LedgerError::NotFound(transaction_id) && forall|i: int|
                    0 <= i < self@.pool.len() ==> (#[trigger] self@.pool[i]).id != transaction_id,
            },
    {
        let mut i: usize = 0;
        while i < self.pool.len()
            invariant
                i <= self@.pool.len(),
                forall|j: int| 0 <= j < i ==> (#[trigger] self@.pool[j]).id != transaction_id,
            decreases self@.pool.len() - i,
        {
            if self.pool[i].id == transaction_id {
                return Ok(self.pool[i].duplicate());
            }
            i = i + 1;
        }
        Err(LedgerError::NotFound(transaction_id))
    }

    /// Returns the batch certificate for the given certificate digest from
    /// block history.
    pub fn get_batch_certificate(&self, certificate_id: u64) -> (r: Result<
        Certificate,
        LedgerError,
    >)
        requires
            self.wf(),
        ensures
            match r {
                Ok(c) => ledger_contains_certificate(self@.blocks, certificate_id) && c.id
                    == certificate_id && (exists|i: int, j: int|
                    #![trigger self@.blocks[i].certificates@[j]]
                    0 <= i < self@.blocks.len() && 0 <= j < self@.blocks[i].certificates@.len()
                        && c@ == self@.blocks[i].certificates@[j]@),
                Err(e) => e == LedgerError::NotFound(certificate_id)
                    && !ledger_contains_certificate(self@.blocks, certificate_id),
            },
    {
        let mut i: usize = 0;
        while i < self.blocks.len()
            invariant
                self.wf(),
                i <= self@.blocks.len(),
                forall|i2: int, j2: int|
                    0 <= i2 < i && 0 <= j2 < (#[trigger] self@.blocks[i2]).certificates@.len()
                        ==> (#[trigger] self@.blocks[i2].certificates@[j2]).id != certificate_id,
            decreases self@.blocks.len() - i,
        {
            let block = &self.blocks[i];
            let mut j: usize = 0;
            while j < block.certificates.len()
                invariant
                    i < self@.blocks.len(),
                    block == self@.blocks[i as int],
                    j <= block.certificates@.len(),
                    forall|j2: int|
                        0 <= j2 < j ==> (#[trigger] block.certificates@[j2]).id
                            != certificate_id,
                decreases block.certificates@.len() - j,
            {
                if block.certificates[j].id == certificate_id {
                    return Ok(block.certificates[j].duplicate());
                }
                j = j + 1;
            }
            i = i + 1;
        }
        Err(LedgerError::NotFound(certificate_id))
    }

    /// Returns the current committee: the latest one stored.  Fails
    /// `NotFound` if the ledger holds no committee yet; there is no
    /// requested key to carry, so the error carries zero.
    pub fn current_committee(&self) -> (r: Result<Committee, LedgerError>)
        ensures
            match r {
                Ok(c) => self@.committees.len() > 0 && c@ == self@.committees.last()@,
                Err(e) => e == LedgerError::NotFound(0) && self@.committees.len() == 0,
            },
    {
        if self.committees.len() == 0 {
            return Err(LedgerError::NotFound(0));
        }
        Ok(self.committees[self.committees.len() - 1].duplicate())
    }

    /// Returns the committee for the given round: the stored committee
    /// with the greatest `starting_round <= round`.  A round at or past
    /// the current committee's starting round falls back to the current
    /// committee; an earlier round with no applicable committee fails
    /// `RoundTooOld`; an empty committee history fails `NotFound`.
    pub fn get_committee_for_round(&self, round: u64) -> (r: Result<Committee, LedgerError>)
        ensures
            match r {
                Ok(c) => applicable_index(self@.committees, round) >= 0 && c@ == self@.committees[
                    applicable_index(self@.committees, round)
                ]@,
                Err(e) => if self@.committees.len() == 0 {
                    e == LedgerError::NotFound(round)
                } else {
                    e == LedgerError::RoundTooOld && applicable_index(self@.committees, round) < 0
                },
            },
    {
        let ghost cs = self@.committees;
        let mut i: usize = self.committees.len();
        proof {
            assert(cs.take(i as int) =~= cs);
        }
        while i > 0
            invariant
                i <= cs.len(),
                cs == self@.committees,
                applicable_index(cs, round) == applicable_index(cs.take(i as int), round),
            decreases i,
        {
            proof {
                assert(cs.take(i as int).drop_last() =~= cs.take(i as int - 1));
                assert(cs.take(i as int).last() == cs[i as int - 1]);
            }
            if self.committees[i - 1].starting_round <= round {
                return Ok(self.committees[i - 1].duplicate());
            }
            i = i - 1;
        }
        proof {
            assert(cs.take(0) =~= Seq::<Committee>::empty());
        }
        if self.committees.len() == 0 {
            Err(LedgerError::NotFound(round))
        } else {
            Err(LedgerError::RoundTooOld)
        }
    }

    /// Returns the committee responsible for the round preceding the
    /// given one.  Committees change only on even rounds, so an even
    /// round looks one round back and an odd round looks two rounds back;
    /// resolution then follows `get_committee_for_round`.
    pub fn get_previous_committee_for_round(&self, round: u64) -> (r: Result<
        Committee,
        LedgerError,
    >)
        ensures
            match r {
                Ok(c) => applicable_index(self@.committees, previous_round(round)) >= 0 && c@
                    == self@.committees[applicable_index(
                    self@.committees,
                    previous_round(round),
                )]@,
                Err(e) => if self@.committees.len() == 0 {
                    e == LedgerError::NotFound(previous_round(round))
                } else {
                    e == LedgerError::RoundTooOld && applicable_index(
                        self@.committees,
                        previous_round(round),
                    ) < 0
                },
            },
    {
        let prev = if round % 2 == 0 {
            round.saturating_sub(1)
        } else {
            round.saturating_sub(2)
        };
        self.get_committee_for_round(prev)
    }

    /// Returns `true` if the ledger contains the given certificate digest
    /// in block history.
    pub fn contains_certificate(&self, certificate_id: u64) -> (r: Result<bool, LedgerError>)
        requires
            self.wf(),
        ensures
            r == Ok::<bool, LedgerError>(
                ledger_contains_certificate(self@.blocks, certificate_id),
            ),
    {
        match self.get_batch_certificate(certificate_id) {
            Ok(_) => Ok(true),
            Err(_) => Ok(false),
        }
    }

    /// Returns `true` if the transmission exists in committed block
    /// history; ratification markers are never stored.
    pub fn contains_transmission(&self, transmission_id: TransmissionId) -> (r: Result<
        bool,
        LedgerError,
    >)
        requires
            self.wf(),
        ensures
            match transmission_id {
                TransmissionId::Ratification => r == Ok::<bool, LedgerError>(false),
                TransmissionId::Solution(commitment) => r == Ok::<bool, LedgerError>(
                    ledger_contains_solution(self@.blocks, commitment),
                ),
                TransmissionId::Transaction(id) => r == Ok::<bool, LedgerError>(
                    ledger_contains_transaction(self@.blocks, id),
                ),
            },
    {
        match transmission_id {
            TransmissionId::Ratification => Ok(false),
            TransmissionId::Solution(commitment) => {
                match self.get_solution(commitment) {
                    Ok(_) => Ok(true),
                    Err(_) => Ok(false),
                }
            },
            TransmissionId::Transaction(id) => {
                let mut i: usize = 0;
                while i < self.blocks.len()
                    invariant
                        self.wf(),
                        transmission_id == TransmissionId::Transaction(id),
                        i <= self@.blocks.len(),
                        forall|i2: int, j2: int|
                            0 <= i2 < i && 0 <= j2 < (#[trigger] self@.blocks[
                                i2
                            ]).transactions@.len() ==> (#[trigger] self@.blocks[
                                i2
                            ].transactions@[j2]).id != id,
                    decreases self@.blocks.len() - i,
                {
                    let block = &self.blocks[i];
                    let mut j: usize = 0;
                    while j < block.transactions.len()
                        invariant
                            transmission_id == TransmissionId::Transaction(id),
                            i < self@.blocks.len(),
                            block == self@.blocks[i as int],
                            j <= block.transactions@.len(),
                            forall|j2: int|
                                0 <= j2 < j ==> (#[trigger] block.transactions@[j2]).id != id,
                        decreases block.transactions@.len() - j,
                    {
                        if block.transactions[j].id == id {
                            proof {
                                let bi = i as int;
                                let bj = j as int;
                                assert(0 <= bi < self@.blocks.len());
                                assert(0 <= bj < self@.blocks[bi].transactions@.len());
                                assert(self@.blocks[bi].transactions@[bj].id == id);
                                assert(ledger_contains_transaction(self@.blocks, id));
                            }
                            return Ok(true);
                        }
                        j = j + 1;
                    }
                    i = i + 1;
                }
                Ok(false)
            },
        }
    }
}


impl CoreLedgerService {
    /// Ensures the given transmission identifier matches the given
    /// transmission, resolving raw bytes to an object in place on success.
    /// The check is idempotent: a transmission already resolved against
    /// `transmission_id` passes again, unchanged.
    pub fn ensure_transmission_id_matches(
        &self,
        transmission_id: TransmissionId,
        transmission: &mut Transmission,
    ) -> (r: Result<(), LedgerError>)
        ensures
            match ensure_outcome(transmission_id, *old(transmission)) {
                None => r == Ok::<(), LedgerError>(()) && is_resolved_match(
                    transmission_id,
                    *final(transmission),
                ),
                Some(e) => r == Err::<(), LedgerError>(e) && *final(transmission) == *old(
                    transmission,
                ),
            },
            is_resolved_match(transmission_id, *old(transmission)) ==> *final(transmission)
                == *old(transmission),
            r == Ok::<(), LedgerError>(()) ==> match (*old(transmission), *final(transmission)) {
                (
                    Transmission::Transaction(d0),
                    Transmission::Transaction(TransactionData::Object(t)),
                ) => transaction_data_model(d0) == Some(t@),
                (
                    Transmission::Solution(d0),
                    Transmission::Solution(SolutionData::Object(s)),
                ) => solution_data_model(d0) == Some(s),
                (Transmission::Ratification, Transmission::Ratification) => true,
                _ => false,
            },
    {
        match (transmission_id, &mut *transmission) {
            (TransmissionId::Ratification, Transmission::Ratification) => Ok(()),
            (TransmissionId::Transaction(expected_id), Transmission::Transaction(data)) => {
                match data {
                    TransactionData::Object(t) => {
                        if t.id == expected_id {
                            Ok(())
                        } else {
                            Err(LedgerError::IdentityMismatch)
                        }
                    },
                    TransactionData::Bytes(_) => {
                        match data.deserialize() {
                            Err(e) => Err(e),
                            Ok(t) => {
                                if t.id != expected_id {
                                    Err(LedgerError::IdentityMismatch)
                                } else {
                                    *data = TransactionData::Object(t);
                                    Ok(())
                                }
                            },
                        }
                    },
                }
            },
            (TransmissionId::Solution(expected_commitment), Transmission::Solution(data)) => {
                match data {
                    SolutionData::Object(s) => {
                        if s.commitment == expected_commitment {
                            Ok(())
                        } else {
                            Err(LedgerError::IdentityMismatch)
                        }
                    },
                    SolutionData::Bytes(_) => {
                        match data.deserialize() {
                            Err(e) => Err(e),
                            Ok(s) => {
                                if s.commitment != expected_commitment {
                                    Err(LedgerError::IdentityMismatch)
                                } else {
                                    *data = SolutionData::Object(s);
                                    Ok(())
                                }
                            },
                        }
                    },
                }
            },
            _ => Err(LedgerError::TypeMismatch),
        }
    }

    /// Checks that the given solution is well-formed: it decodes, its own
    /// commitment equals the claimed one, and it verifies against the
    /// current epoch challenge and proof target of the ledger head.
    pub fn check_solution_basic(&self, puzzle_commitment: u64, solution: SolutionData) -> (r:
        Result<(), LedgerError>)
        requires
            self.wf(),
        ensures
            ({
                let head = self@.blocks.last();
                match solution_data_model(solution) {
                    None => r == Err::<(), LedgerError>(LedgerError::CodecError),
                    Some(s) => if s.commitment != puzzle_commitment {
                        r == Err::<(), LedgerError>(LedgerError::ClaimMismatch)
                    } else if !solution_is_valid(s, head.epoch_challenge, head.proof_target) {
                        r == Err::<(), LedgerError>(LedgerError::VerificationFailed)
                    } else {
                        r == Ok::<(), LedgerError>(())
                    },
                }
            }),
    {
        let s = match solution.deserialize() {
            Ok(s) => s,
            Err(e) => {
                return Err(e);
            },
        };
        if s.commitment != puzzle_commitment {
            return Err(LedgerError::ClaimMismatch);
        }
        let head = self.blocks.len() - 1;
        let epoch_challenge = self.blocks[head].epoch_challenge;
        let proof_target = self.blocks[head].proof_target;
        if !verify_solution(&s, epoch_challenge, proof_target) {
            return Err(LedgerError::VerificationFailed);
        }
        Ok(())
    }

    /// Checks that the given transaction is well-formed and unique: it
    /// decodes, its computed identity equals the claimed one, it is not a
    /// fee-settlement transaction, and it is not already confirmed.
    pub fn check_transaction_basic(&self, transaction_id: u64, transaction: TransactionData) -> (r:
        Result<(), LedgerError>)
        requires
            self.wf(),
        ensures
            match check_transaction_outcome(self@.blocks, transaction_id, transaction) {
                None => r == Ok::<(), LedgerError>(()),
                Some(e) => r == Err::<(), LedgerError>(e),
            },
    {
        let t = match transaction.deserialize() {
            Ok(t) => t,
            Err(e) => {
                return Err(e);
            },
        };
        if t.id != transaction_id {
            return Err(LedgerError::IdentityMismatch);
        }
        if t.is_fee {
            return Err(LedgerError::UnexpectedFeeTransaction);
        }
        match self.contains_transmission(TransmissionId::Transaction(t.id)) {
            Ok(true) => Err(LedgerError::VerificationFailed),
            Ok(false) => Ok(()),
            Err(e) => Err(e),
        }
    }

    /// Checks that the given block is a valid next block for the current
    /// ledger head; the check is free of side effects.
    pub fn check_next_block(&self, block: &Block) -> (r: Result<(), LedgerError>)
        requires
            self.wf(),
        ensures
            r == Ok::<(), LedgerError>(()) <==> valid_next_block(self@.blocks, *block),
            r is Err ==> r == Err::<(), LedgerError>(LedgerError::VerificationFailed),
    {
        let head_idx = self.blocks.len() - 1;
        let head = &self.blocks[head_idx];
        if (block.height as u64) != (head.height as u64) + 1 {
            return Err(LedgerError::VerificationFailed);
        }
        if block.previous_hash != head.hash {
            return Err(LedgerError::VerificationFailed);
        }
        if block.round < head.round {
            return Err(LedgerError::VerificationFailed);
        }
        if block.proof_target != head.proof_target {
            return Err(LedgerError::VerificationFailed);
        }
        if block.epoch_challenge != head.epoch_challenge {
            return Err(LedgerError::VerificationFailed);
        }
        let mut f: usize = 0;
        while f < self.blocks.len()
            invariant
                f <= self@.blocks.len(),
                forall|a: int| 0 <= a < f ==> (#[trigger] self@.blocks[a]).hash != block.hash,
            decreases self@.blocks.len() - f,
        {
            if self.blocks[f].hash == block.hash {
                return Err(LedgerError::VerificationFailed);
            }
            f = f + 1;
        }
        let digest = block_digest_exec(
            block.height,
            block.round,
            block.previous_hash,
            block.proof_target,
            block.epoch_challenge,
            &block.certificates,
            &block.transactions,
            &block.solutions,
        );
        if block.hash != digest {
            return Err(LedgerError::VerificationFailed);
        }
        let mut i: usize = 0;
        while i < block.transactions.len()
            invariant
                i <= block.transactions@.len(),
                forall|a: int, b: int|
                    0 <= a < b < block.transactions@.len() && a < i ==> (#[trigger] block.transactions@[a]).id
                        != (#[trigger] block.transactions@[b]).id,
            decreases block.transactions@.len() - i,
        {
            let mut j: usize = i + 1;
            while j < block.transactions.len()
                invariant
                    i < block.transactions@.len(),
                    i < j <= block.transactions@.len(),
                    forall|b: int|
                        i < b < j ==> (#[trigger] block.transactions@[b]).id
                            != block.transactions@[i as int].id,
                decreases block.transactions@.len() - j,
            {
                if block.transactions[j].id == block.transactions[i].id {
                    return Err(LedgerError::VerificationFailed);
                }
                j = j + 1;
            }
            i = i + 1;
        }
        let mut k: usize = 0;
        while k < block.solutions.len()
            invariant
                k <= block.solutions@.len(),
                forall|a: int|
                    0 <= a < k ==> solution_is_valid(
                        #[trigger] block.solutions@[a],
                        block.epoch_challenge,
                        block.proof_target,
                    ),
            decreases block.solutions@.len() - k,
        {
            if !verify_solution(&block.solutions[k], block.epoch_challenge, block.proof_target) {
                return Err(LedgerError::VerificationFailed);
            }
            k = k + 1;
        }
        Ok(())
    }

    /// Returns a candidate for the next block, deterministically assembled
    /// from a committed sub-DAG and its transmissions over the current
    /// ledger snapshot.  Fails `IncompleteTransmissions` if any certificate
    /// references a transmission identifier absent from the supplied map,
    /// and `StorageError` if the chain has exhausted its height space; no
    /// state is touched in any case.
    pub fn prepare_advance_to_next_quorum_block(
        &self,
        subdag: &SubDag,
        transmissions: &TransmissionMap,
    ) -> (r: Result<Block, LedgerError>)
        requires
            self.wf(),
        ensures
            !subdag_covered(subdag.certificates@, transmissions@) ==> r == Err::<
                Block,
                LedgerError,
            >(LedgerError::IncompleteTransmissions),
            subdag_covered(subdag.certificates@, transmissions@) && entries_ok(transmissions@)
                && self@.blocks.len() > u32::MAX ==> r == Err::<Block, LedgerError>(
                LedgerError::StorageError,
            ),
            subdag_covered(subdag.certificates@, transmissions@) && entries_ok(transmissions@)
                && self@.blocks.len() <= u32::MAX ==> (r matches Ok(b) && b.height
                == self@.blocks.last().height + 1 && b.round
                == max_round(subdag.certificates@) && b.previous_hash == self@.blocks.last().hash
                && b.proof_target == self@.blocks.last().proof_target && b.epoch_challenge
                == self@.blocks.last().epoch_challenge && certs_model(b.certificates@)
                == certs_model(subdag.certificates@) && txs_model(b.transactions@)
                == entries_transactions(transmissions@) && b.solutions@ == entries_solutions(
                transmissions@,
            ) && b.hash == block_digest(
                b.height,
                b.round,
                b.previous_hash,
                b.proof_target,
                b.epoch_challenge,
                b.certificates@,
                b.transactions@,
                b.solutions@,
            )),
            subdag_covered(subdag.certificates@, transmissions@) && !entries_ok(transmissions@)
                ==> (r matches Err(e) && exists|i: int|
                0 <= i < transmissions@.len() && entries_ok_upto(transmissions@, i) && !entry_ok(
                    #[trigger] transmissions@[i],
                ) && Some(e) == ensure_outcome(transmissions@[i].0, transmissions@[i].1)),
    {
        let mut ci: usize = 0;
        while ci < subdag.certificates.len()
            invariant
                ci <= subdag.certificates@.len(),
                forall|i: int, j: int|
                    0 <= i < ci && 0 <= j < (#[trigger] subdag.certificates@[
                        i
                    ]).transmission_ids@.len() ==> map_contains_key(
                        transmissions@,
                        #[trigger] subdag.certificates@[i].transmission_ids@[j],
                    ),
            decreases subdag.certificates@.len() - ci,
        {
            let cert = &subdag.certificates[ci];
            let mut tj: usize = 0;
            while tj < cert.transmission_ids.len()
                invariant
                    ci < subdag.certificates@.len(),
                    cert == subdag.certificates@[ci as int],
                    tj <= cert.transmission_ids@.len(),
                    forall|j: int|
                        0 <= j < tj ==> map_contains_key(
                            transmissions@,
                            #[trigger] cert.transmission_ids@[j],
                        ),
                decreases cert.transmission_ids@.len() - tj,
            {
                if !transmissions.contains_key(cert.transmission_ids[tj]) {
                    proof {
                        assert(!map_contains_key(
                            transmissions@,
                            subdag.certificates@[ci as int].transmission_ids@[tj as int],
                        ));
                    }
                    return Err(LedgerError::IncompleteTransmissions);
                }
                tj = tj + 1;
            }
            ci = ci + 1;
        }
        let mut txs: Vec<Transaction> = Vec::new();
        let mut sols: Vec<Solution> = Vec::new();
        let mut k: usize = 0;
        proof {
            assert(transmissions@.take(0) =~= Seq::<(TransmissionId, Transmission)>::empty());
            assert(txs_model(txs@) =~= entries_transactions(transmissions@.take(0)));
            assert(sols@ =~= entries_solutions(transmissions@.take(0)));
        }
        while k < transmissions.len()
            invariant
                subdag_covered(subdag.certificates@, transmissions@),
                k <= transmissions@.len(),
                entries_ok_upto(transmissions@, k as int),
                txs_model(txs@) == entries_transactions(transmissions@.take(k as int)),
                sols@ == entries_solutions(transmissions@.take(k as int)),
            decreases transmissions@.len() - k,
        {
            let entry = transmissions.entry_at(k);
            proof {
                assert(transmissions@.take(k as int + 1).drop_last() =~= transmissions@.take(
                    k as int,
                ));
                assert(transmissions@.take(k as int + 1).last() == transmissions@[k as int]);
            }
            match (&entry.0, &entry.1) {
                (TransmissionId::Ratification, Transmission::Ratification) => {},
                (TransmissionId::Transaction(eid), Transmission::Transaction(d)) => {
                    match d.deserialize() {
                        Err(e) => {
                            return Err(e);
                        },
                        Ok(t) => {
                            if t.id != *eid {
                                return Err(LedgerError::IdentityMismatch);
                            }
                            proof {
                                lemma_txs_model_push(txs@, t);
                            }
                            txs.push(t);
                        },
                    }
                },
                (TransmissionId::Solution(ec), Transmission::Solution(d)) => {
                    match d.deserialize() {
                        Err(e) => {
                            return Err(e);
                        },
                        Ok(s) => {
                            if s.commitment != *ec {
                                return Err(LedgerError::IdentityMismatch);
                            }
                            sols.push(s);
                        },
                    }
                },
                _ => {
                    return Err(LedgerError::TypeMismatch);
                },
            }
            k = k + 1;
        }
        proof {
            assert(transmissions@.take(transmissions@.len() as int) =~= transmissions@);
        }
        if self.blocks.len() > u32::MAX as usize {
            return Err(LedgerError::StorageError);
        }
        let height = self.latest_block_height() + 1;
        let round = max_round_exec(&subdag.certificates);
        let head_idx = self.blocks.len() - 1;
        let previous_hash = self.blocks[head_idx].hash;
        let proof_target = self.blocks[head_idx].proof_target;
        let epoch_challenge = self.blocks[head_idx].epoch_challenge;
        let certificates = copy_certificates(&subdag.certificates);
        let hash = block_digest_exec(
            height,
            round,
            previous_hash,
            proof_target,
            epoch_challenge,
            &certificates,
            &txs,
            &sols,
        );
        Ok(
            Block {
                height,
                round,
                previous_hash,
                hash,
                proof_target,
                epoch_challenge,
                certificates,
                transactions: txs,
                solutions: sols,
            },
        )
    }

    /// Adds the given block as the next block in the ledger.  If the
    /// shutdown signal has been observed the commit is refused with
    /// `Shutdown` and nothing is mutated; otherwise the block is checked
    /// against the head and, when valid, appended atomically.
    pub fn advance_to_next_block(&mut self, block: &Block) -> (r: Result<(), LedgerError>)
        requires
            old(self).wf(),
        ensures
            final(self).wf(),
            old(self)@.shutdown ==> r == Err::<(), LedgerError>(LedgerError::Shutdown) && final(self)@ == old(self)@,
            !old(self)@.shutdown && valid_next_block(old(self)@.blocks, *block) ==> r
                == Ok::<(), LedgerError>(()) && final(self)@.blocks.len() == old(self)@.blocks.len() + 1 && final(self)@.blocks.last()@ == block@ && (forall|i: int|
                0 <= i < old(self)@.blocks.len() ==> (#[trigger] final(self)@.blocks[i]) == old(self)@.blocks[i]) && final(self)@.committees == old(self)@.committees && final(self)@.pool == old(self)@.pool && final(self)@.shutdown == old(self)@.shutdown,
            !old(self)@.shutdown && !valid_next_block(old(self)@.blocks, *block) ==> r
                == Err::<(), LedgerError>(LedgerError::VerificationFailed) && final(self)@ == old(self)@,
    {
        if self.shutdown {
            return Err(LedgerError::Shutdown);
        }
        match self.check_next_block(block) {
            Err(e) => Err(e),
            Ok(u) => {
                proof {
                    assert(u == ());
                    assert(valid_next_block(self@.blocks, *block));
                }
                let stored = block.duplicate();
                self.blocks.push(stored);
                proof {
                    let m = self@;
                    let m0 = old(self)@;
                    assert(m.blocks == m0.blocks.push(stored));
                    assert(valid_next_block(m0.blocks, *block));
                    assert(m0.blocks.last() == m0.blocks[m0.blocks.len() - 1]);
                    assert(m0.blocks[m0.blocks.len() - 1].height == m0.blocks.len() - 1);
                    assert(stored@ == block@);
                    assert(stored.height == block.height && stored.previous_hash
                        == block.previous_hash && stored.round == block.round);
                    assert(stored.height == m0.blocks.len());
                    assert forall|i: int| 0 <= i < m.blocks.len() implies (#[trigger] m.blocks[
                        i
                    ]).height == i by {
                        if i < m0.blocks.len() {
                            assert(m.blocks[i] == m0.blocks[i]);
                        } else {
                            assert(m.blocks[i] == stored);
                        }
                    }
                    assert forall|i: int| 1 <= i < m.blocks.len() implies (#[trigger] m.blocks[
                        i
                    ]).previous_hash == m.blocks[i - 1].hash by {
                        if i < m0.blocks.len() {
                            assert(m.blocks[i] == m0.blocks[i]);
                            assert(m.blocks[i - 1] == m0.blocks[i - 1]);
                        } else {
                            assert(m.blocks[i] == stored);
                            assert(m.blocks[i - 1] == m0.blocks[i - 1]);
                        }
                    }
                    assert forall|i: int| 1 <= i < m.blocks.len() implies (#[trigger] m.blocks[
                        i
                    ]).round >= m.blocks[i - 1].round by {
                        if i < m0.blocks.len() {
                            assert(m.blocks[i] == m0.blocks[i]);
                            assert(m.blocks[i - 1] == m0.blocks[i - 1]);
                        } else {
                            assert(m.blocks[i] == stored);
                            assert(m.blocks[i - 1] == m0.blocks[i - 1]);
                        }
                    }
                    assert forall|i: int, j: int| 0 <= i < j < m.blocks.len() implies (
                    #[trigger] m.blocks[i]).hash != (#[trigger] m.blocks[j]).hash by {
                        assert(m.blocks[i] == m0.blocks[i]);
                        if j < m0.blocks.len() {
                            assert(m.blocks[j] == m0.blocks[j]);
                        } else {
                            assert(m.blocks[j] == stored);
                            assert(m0.blocks[i].hash != block.hash);
                        }
                    }
                }
                Ok(())
            },
        }
    }

    /// Synthesizes a stake-bonding transaction for the given amount and
    /// private key against the ledger's execution layer.  This is an
    /// administrative helper, never invoked by consensus logic.
    pub fn generate_bond_transaction(&self, amount: u64, private_key: u64) -> (r: Result<
        Transaction,
        LedgerError,
    >)
        ensures
            (r matches Ok(t) && t@ == bond_transaction(amount, private_key)),
    {
        let mut payload: Vec<u8> = Vec::new();
        push_u64_le(&mut payload, private_key);
        push_u64_le(&mut payload, amount);
        let h0 = mix64_exec(0, private_key);
        let id = mix64_exec(h0, amount);
        proof {
            let words = seq![private_key, amount];
            assert(words.drop_first() =~= seq![amount]);
            assert(seq![amount].drop_first() =~= Seq::<u64>::empty());
            assert(fold_mix64(0, words) == fold_mix64(mix64(0, private_key), seq![amount]));
            assert(fold_mix64(mix64(0, private_key), seq![amount]) == fold_mix64(
                mix64(mix64(0, private_key), amount),
                Seq::<u64>::empty(),
            ));
        }
        let t = Transaction { id, is_fee: false, payload };
        proof {
            assert(t@.payload =~= bond_transaction(amount, private_key).payload);
            assert(t@ =~= bond_transaction(amount, private_key));
        }
        Ok(t)
    }
}



} // verus!
