//! Transmissions: gossiped content referenced by content-addressed
//! identifiers, with lazy deserialize-on-demand payloads.
//!
//! A payload starts life as raw bytes and transitions in place to a
//! resolved domain object once it has been decoded and checked against
//! its claimed identity; the transition is idempotent.

use crate::codec::{
    copy_bytes, le_u64, lemma_le_u64_of_u64_le, push_u64_le, read_u64_le, u64_le, append_bytes,
};
use crate::errors::LedgerError;
use vstd::prelude::*;

verus! {

/// A content-addressed identifier of a transmission, discriminated by kind.
#[derive(Clone, Copy, PartialEq, Eq, Structural, Debug)]
pub enum TransmissionId {
    /// A ratification marker; it carries no content.
    Ratification,
    /// A puzzle solution, identified by its commitment.
    Solution(u64),
    /// A transaction, identified by its transaction id.
    Transaction(u64),
}

/// A transaction of the ledger, in decoded form.
#[derive(Clone, PartialEq, Eq, Debug)]
pub struct Transaction {
    /// The content-addressed transaction id.
    pub id: u64,
    /// Whether this is a fee-settlement transaction; those are synthesized
    /// only during block production and never accepted from the network.
    pub is_fee: bool,
    /// The opaque program payload of the transaction.
    pub payload: Vec<u8>,
}

/// The mathematical model of a [`Transaction`].
#[verifier::ext_equal]
pub ghost struct TransactionModel {
    pub id: u64,
    pub is_fee: bool,
    pub payload: Seq<u8>,
}

impl View for Transaction {
    type V = TransactionModel;

    open spec fn view(&self) -> TransactionModel {
        TransactionModel { id: self.id, is_fee: self.is_fee, payload: self.payload@ }
    }
}

impl Transaction {
    /// Returns a fresh transaction with the same content.
    pub fn duplicate(&self) -> (r: Transaction)
        ensures
            r@ == self@,
    {
        Transaction { id: self.id, is_fee: self.is_fee, payload: copy_bytes(&self.payload) }
    }
}

/// A puzzle solution, in decoded form.
#[derive(Clone, Copy, PartialEq, Eq, Structural, Debug)]
pub struct Solution {
    /// The solution's own commitment, its content-addressed identity.
    pub commitment: u64,
    /// The epoch challenge this solution was computed against.
    pub epoch_hash: u64,
    /// The target this solution attains.
    pub target: u64,
}

/// Whether a solution passes cryptographic verification against the
/// given epoch parameters: it must target the current epoch challenge
/// and attain at least the current proof target.
pub open spec fn solution_is_valid(s: Solution, epoch_challenge: u64, proof_target: u64) -> bool {
    s.epoch_hash == epoch_challenge && s.target >= proof_target
}

/// Executable counterpart of [`solution_is_valid`].
pub fn verify_solution(s: &Solution, epoch_challenge: u64, proof_target: u64) -> (r: bool)
    ensures
        r == solution_is_valid(*s, epoch_challenge, proof_target),
{
    s.epoch_hash == epoch_challenge && s.target >= proof_target
}

/// The byte encoding of a transaction: id, fee flag, then the
/// length-prefixed payload.
pub open spec fn tx_encoding(m: TransactionModel) -> Seq<u8> {
    u64_le(m.id) + seq![if m.is_fee { 1u8 } else { 0u8 }] + u64_le(m.payload.len() as u64)
        + m.payload
}

/// The transaction decoded from `b`, or `None` if `b` is malformed.
pub open spec fn tx_decoded(b: Seq<u8>) -> Option<TransactionModel> {
    if b.len() < 17 {
        None
    } else if b[8] != 0 && b[8] != 1 {
        None
    } else if b.len() - 17 != le_u64(b.subrange(9, 17)) {
        None
    } else {
        Some(
            TransactionModel {
                id: le_u64(b.subrange(0, 8)),
                is_fee: b[8] == 1,
                payload: b.subrange(17, b.len() as int),
            },
        )
    }
}

/// The byte encoding of a solution: commitment, epoch hash, target.
pub open spec fn sol_encoding(s: Solution) -> Seq<u8> {
    u64_le(s.commitment) + u64_le(s.epoch_hash) + u64_le(s.target)
}

/// The solution decoded from `b`, or `None` if `b` is malformed.
pub open spec fn sol_decoded(b: Seq<u8>) -> Option<Solution> {
    if b.len() != 24 {
        None
    } else {
        Some(
            Solution {
                commitment: le_u64(b.subrange(0, 8)),
                epoch_hash: le_u64(b.subrange(8, 16)),
                target: le_u64(b.subrange(16, 24)),
            },
        )
    }
}

/// Decoding an encoded transaction yields the transaction back: any
/// transaction that fits in memory survives a serialization round trip,
/// so its computed identity is unchanged by re-encoding.
pub proof fn lemma_tx_round_trip(m: TransactionModel)
    requires
        m.payload.len() <= u64::MAX,
    ensures
        tx_decoded(tx_encoding(m)) == Some(m),
{
    let b = tx_encoding(m);
    lemma_le_u64_of_u64_le(m.id);
    lemma_le_u64_of_u64_le(m.payload.len() as u64);
    assert(b.subrange(0, 8) =~= u64_le(m.id));
    assert(b.subrange(9, 17) =~= u64_le(m.payload.len() as u64));
    assert(b.subrange(17, b.len() as int) =~= m.payload);
}

/// Decoding an encoded solution yields the solution back.
pub proof fn lemma_sol_round_trip(s: Solution)
    ensures
        sol_decoded(sol_encoding(s)) == Some(s),
{
    let b = sol_encoding(s);
    lemma_le_u64_of_u64_le(s.commitment);
    lemma_le_u64_of_u64_le(s.epoch_hash);
    lemma_le_u64_of_u64_le(s.target);
    assert(b.subrange(0, 8) =~= u64_le(s.commitment));
    assert(b.subrange(8, 16) =~= u64_le(s.epoch_hash));
    assert(b.subrange(16, 24) =~= u64_le(s.target));
}

/// Serializes a transaction into its byte encoding.
pub fn serialize_transaction(t: &Transaction) -> (r: Vec<u8>)
    ensures
        r@ == tx_encoding(t@),
{
    let mut out: Vec<u8> = Vec::new();
    push_u64_le(&mut out, t.id);
    out.push(if t.is_fee { 1u8 } else { 0u8 });
    push_u64_le(&mut out, t.payload.len() as u64);
    append_bytes(&mut out, &t.payload);
    proof {
        assert(out@ =~= tx_encoding(t@));
    }
    out
}

/// Deserializes a transaction from its byte encoding; malformed bytes
/// fail with `CodecError`.
pub fn deserialize_transaction(b: &Vec<u8>) -> (r: Result<Transaction, LedgerError>)
    ensures
        match r {
            Ok(t) => tx_decoded(b@) == Some(t@),
            Err(e) => tx_decoded(b@) == None::<TransactionModel> && e == LedgerError::CodecError,
        },
{
    if b.len() < 17 {
        return Err(LedgerError::CodecError);
    }
    let id = read_u64_le(b, 0);
    let fee_byte = b[8];
    if fee_byte != 0 && fee_byte != 1 {
        return Err(LedgerError::CodecError);
    }
    let len = read_u64_le(b, 9);
    if (b.len() - 17) as u64 != len {
        return Err(LedgerError::CodecError);
    }
    let mut payload: Vec<u8> = Vec::new();
    let mut i: usize = 17;
    proof {
        assert(payload@ =~= b@.subrange(17, 17));
    }
    while i < b.len()
        invariant
            17 <= i <= b@.len(),
            payload@ == b@.subrange(17, i as int),
        decreases b@.len() - i,
    {
        payload.push(b[i]);
        proof {
            assert(payload@ =~= b@.subrange(17, i as int + 1));
        }
        i = i + 1;
    }
    let t = Transaction { id, is_fee: fee_byte == 1, payload };
    proof {
        assert(b@.subrange(0, 8) =~= b@.subrange(0 as int, 0 as int + 8));
        assert(b@.subrange(9, 17) =~= b@.subrange(9 as int, 9 as int + 8));
    }
    Ok(t)
}

/// Serializes a solution into its byte encoding.
pub fn serialize_solution(s: &Solution) -> (r: Vec<u8>)
    ensures
        r@ == sol_encoding(*s),
{
    let mut out: Vec<u8> = Vec::new();
    push_u64_le(&mut out, s.commitment);
    push_u64_le(&mut out, s.epoch_hash);
    push_u64_le(&mut out, s.target);
    proof {
        assert(out@ =~= sol_encoding(*s));
    }
    out
}

/// Deserializes a solution from its byte encoding; malformed bytes fail
/// with `CodecError`.
pub fn deserialize_solution(b: &Vec<u8>) -> (r: Result<Solution, LedgerError>)
    ensures
        match r {
            Ok(s) => sol_decoded(b@) == Some(s),
            Err(e) => sol_decoded(b@) == None::<Solution> && e == LedgerError::CodecError,
        },
{
    if b.len() != 24 {
        return Err(LedgerError::CodecError);
    }
    let commitment = read_u64_le(b, 0);
    let epoch_hash = read_u64_le(b, 8);
    let target = read_u64_le(b, 16);
    proof {
        assert(b@.subrange(0, 8) =~= b@.subrange(0 as int, 0 as int + 8));
        assert(b@.subrange(8, 16) =~= b@.subrange(8 as int, 8 as int + 8));
        assert(b@.subrange(16, 24) =~= b@.subrange(16 as int, 16 as int + 8));
    }
    Ok(Solution { commitment, epoch_hash, target })
}

/// A transaction payload that is either still raw bytes or already a
/// materialized object.
#[derive(Clone, PartialEq, Eq, Debug)]
pub enum TransactionData {
    /// Raw bytes, not yet decoded.
    Bytes(Vec<u8>),
    /// A decoded, identity-checked transaction.
    Object(Transaction),
}

/// A solution payload that is either still raw bytes or already a
/// materialized object.
#[derive(Clone, PartialEq, Eq, Debug)]
pub enum SolutionData {
    /// Raw bytes, not yet decoded.
    Bytes(Vec<u8>),
    /// A decoded, identity-checked solution.
    Object(Solution),
}

/// A unit of gossiped content, of the kind its identifier claims.
#[derive(Clone, PartialEq, Eq, Debug)]
pub enum Transmission {
    /// A ratification marker without content.
    Ratification,
    /// A puzzle solution payload.
    Solution(SolutionData),
    /// A transaction payload.
    Transaction(TransactionData),
}

/// The transaction a payload denotes: decoded from bytes, or the already
/// materialized object; `None` if the bytes are malformed.
pub open spec fn transaction_data_model(d: TransactionData) -> Option<TransactionModel> {
    match d {
        TransactionData::Bytes(b) => tx_decoded(b@),
        TransactionData::Object(t) => Some(t@),
    }
}

/// The solution a payload denotes: decoded from bytes, or the already
/// materialized object; `None` if the bytes are malformed.
pub open spec fn solution_data_model(d: SolutionData) -> Option<Solution> {
    match d {
        SolutionData::Bytes(b) => sol_decoded(b@),
        SolutionData::Object(s) => Some(s),
    }
}

impl TransactionData {
    /// Decodes the payload if it is still bytes; hands back a copy of the
    /// object if it is already materialized.
    pub fn deserialize(&self) -> (r: Result<Transaction, LedgerError>)
        ensures
            match r {
                Ok(t) => transaction_data_model(*self) == Some(t@),
                Err(e) => transaction_data_model(*self) == None::<TransactionModel> && e
                    == LedgerError::CodecError,
            },
    {
        match self {
            TransactionData::Bytes(b) => deserialize_transaction(b),
            TransactionData::Object(t) => Ok(t.duplicate()),
        }
    }
}

impl SolutionData {
    /// Decodes the payload if it is still bytes; hands back the object if
    /// it is already materialized.
    pub fn deserialize(&self) -> (r: Result<Solution, LedgerError>)
        ensures
            match r {
                Ok(s) => solution_data_model(*self) == Some(s),
                Err(e) => solution_data_model(*self) == None::<Solution> && e
                    == LedgerError::CodecError,
            },
    {
        match self {
            SolutionData::Bytes(b) => deserialize_solution(b),
            SolutionData::Object(s) => Ok(*s),
        }
    }
}

/// The outcome of checking a transmission against its claimed identifier:
/// `None` on success, otherwise the exact error.  Cross-kind pairings fail
/// `TypeMismatch`, malformed bytes fail `CodecError`, and a decoded
/// payload whose computed identity differs from the claimed one fails
/// `IdentityMismatch`.
pub open spec fn ensure_outcome(id: TransmissionId, t: Transmission) -> Option<LedgerError> {
    match (id, t) {
        (TransmissionId::Ratification, Transmission::Ratification) => None,
        (TransmissionId::Transaction(eid), Transmission::Transaction(d)) => match transaction_data_model(
            d,
        ) {
            None => Some(LedgerError::CodecError),
            Some(m) => if m.id == eid {
                None
            } else {
                Some(LedgerError::IdentityMismatch)
            },
        },
        (TransmissionId::Solution(ec), Transmission::Solution(d)) => match solution_data_model(d) {
            None => Some(LedgerError::CodecError),
            Some(s) => if s.commitment == ec {
                None
            } else {
                Some(LedgerError::IdentityMismatch)
            },
        },
        _ => Some(LedgerError::TypeMismatch),
    }
}

/// Whether `t` is already in resolved (materialized) form and its computed
/// identity equals the claimed identifier `id`.
pub open spec fn is_resolved_match(id: TransmissionId, t: Transmission) -> bool {
    match (id, t) {
        (TransmissionId::Ratification, Transmission::Ratification) => true,
        (
            TransmissionId::Transaction(eid),
            Transmission::Transaction(TransactionData::Object(tx)),
        ) => tx.id == eid,
        (TransmissionId::Solution(ec), Transmission::Solution(SolutionData::Object(s))) => s.commitment
            == ec,
        _ => false,
    }
}

/// Resolving is idempotent: a transmission already resolved against `id`
/// passes the identity check again, so a second invocation succeeds and,
/// by the resolver's contract, leaves the value unchanged.
pub proof fn lemma_resolution_idempotent(id: TransmissionId, t: Transmission)
    requires
        is_resolved_match(id, t),
    ensures
        ensure_outcome(id, t) is None,
{
}

} // verus!
