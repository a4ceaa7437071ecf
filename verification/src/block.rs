//! Certificates, sub-DAGs, the ordered transmission map, and blocks.
//!
//! A finalized sub-DAG plus the transmissions its certificates reference
//! is turned into a candidate block; blocks are hash-linked, their height
//! grows by exactly one per commit, and they are immutable once appended.

use crate::codec::{fold_mix64, fold_mix64_exec};
use crate::transmission::{
    ensure_outcome, solution_is_valid, transaction_data_model, solution_data_model, Solution,
    Transaction, TransactionModel, Transmission, TransmissionId,
};
use vstd::prelude::*;

verus! {

/// A validator's signed attestation endorsing a batch of transmissions at
/// a round, identified by a content-addressed digest.
#[derive(Clone, PartialEq, Eq, Debug)]
pub struct Certificate {
    /// The certificate's content-addressed digest.
    pub id: u64,
    /// The round the batch was proposed in.
    pub round: u64,
    /// The identifiers of the transmissions the batch endorses.
    pub transmission_ids: Vec<TransmissionId>,
}

/// The mathematical model of a [`Certificate`].
#[verifier::ext_equal]
pub ghost struct CertificateModel {
    pub id: u64,
    pub round: u64,
    pub transmission_ids: Seq<TransmissionId>,
}

impl View for Certificate {
    type V = CertificateModel;

    open spec fn view(&self) -> CertificateModel {
        CertificateModel {
            id: self.id,
            round: self.round,
            transmission_ids: self.transmission_ids@,
        }
    }
}

impl Certificate {
    /// Returns a fresh certificate with the same content.
    pub fn duplicate(&self) -> (r: Certificate)
        ensures
            r@ == self@,
    {
        let mut ids: Vec<TransmissionId> = Vec::new();
        let mut i: usize = 0;
        proof {
            assert(ids@ =~= self.transmission_ids@.take(0));
        }
        while i < self.transmission_ids.len()
            invariant
                i <= self.transmission_ids@.len(),
                ids@ == self.transmission_ids@.take(i as int),
            decreases self.transmission_ids@.len() - i,
        {
            ids.push(self.transmission_ids[i]);
            proof {
                assert(ids@ =~= self.transmission_ids@.take(i as int + 1));
            }
            i = i + 1;
        }
        proof {
            assert(self.transmission_ids@.take(self.transmission_ids@.len() as int)
                =~= self.transmission_ids@);
        }
        Certificate { id: self.id, round: self.round, transmission_ids: ids }
    }
}

/// The models of a sequence of certificates.
pub open spec fn certs_model(cs: Seq<Certificate>) -> Seq<CertificateModel> {
    cs.map_values(|c: Certificate| c@)
}

/// The portion of the certificate graph that consensus has finalized,
/// delivered once per commit attempt.
#[derive(Clone, PartialEq, Eq, Debug)]
pub struct SubDag {
    /// The finalized certificates, in their delivery order.
    pub certificates: Vec<Certificate>,
}

impl View for SubDag {
    type V = Seq<CertificateModel>;

    open spec fn view(&self) -> Seq<CertificateModel> {
        certs_model(self.certificates@)
    }
}

/// The anchor round of a certificate sequence: the greatest round any of
/// its certificates was proposed in.
pub open spec fn max_round(cs: Seq<Certificate>) -> u64
    decreases cs.len(),
{
    if cs.len() == 0 {
        0
    } else {
        let rest = max_round(cs.drop_last());
        if cs.last().round >= rest {
            cs.last().round
        } else {
            rest
        }
    }
}

/// Computes the anchor round of a certificate sequence.
pub fn max_round_exec(cs: &Vec<Certificate>) -> (r: u64)
    ensures
        r == max_round(cs@),
{
    let mut acc: u64 = 0;
    let mut i: usize = 0;
    proof {
        assert(cs@.take(0) =~= Seq::<Certificate>::empty());
    }
    while i < cs.len()
        invariant
            i <= cs@.len(),
            acc == max_round(cs@.take(i as int)),
        decreases cs@.len() - i,
    {
        proof {
            assert(cs@.take(i as int + 1).drop_last() =~= cs@.take(i as int));
            assert(cs@.take(i as int + 1).last() == cs@[i as int]);
        }
        if cs[i].round > acc {
            acc = cs[i].round;
        }
        i = i + 1;
    }
    proof {
        assert(cs@.take(cs@.len() as int) =~= cs@);
    }
    acc
}

/// Whether an entry sequence contains an entry keyed by `id`.
pub open spec fn map_contains_key(
    entries: Seq<(TransmissionId, Transmission)>,
    id: TransmissionId,
) -> bool {
    exists|i: int| 0 <= i < entries.len() && entries[i].0 == id
}

/// Whether every key of an entry sequence occurs exactly once.
pub open spec fn keys_unique(entries: Seq<(TransmissionId, Transmission)>) -> bool {
    forall|i: int, j: int|
        0 <= i < j < entries.len() ==> (#[trigger] entries[i]).0 != (#[trigger] entries[j]).0
}

/// An insertion-ordered map from transmission identifiers to
/// transmissions: inserting a fresh key appends, inserting a present key
/// replaces the value in place, and iteration follows insertion order.
#[derive(Clone, PartialEq, Eq, Debug)]
pub struct TransmissionMap {
    entries: Vec<(TransmissionId, Transmission)>,
}

impl View for TransmissionMap {
    type V = Seq<(TransmissionId, Transmission)>;

    closed spec fn view(&self) -> Seq<(TransmissionId, Transmission)> {
        self.entries@
    }
}

impl TransmissionMap {
    /// Every key occurs exactly once.
    pub open spec fn wf(&self) -> bool {
        keys_unique(self@)
    }

    /// Creates an empty map.
    pub fn new() -> (r: TransmissionMap)
        ensures
            r@ == Seq::<(TransmissionId, Transmission)>::empty(),
            r.wf(),
    {
        TransmissionMap { entries: Vec::new() }
    }

    /// The number of entries.
    pub fn len(&self) -> (r: usize)
        ensures
            r == self@.len(),
    {
        self.entries.len()
    }

    /// The entry at position `i`, in insertion order.
    pub fn entry_at(&self, i: usize) -> (r: &(TransmissionId, Transmission))
        requires
            i < self@.len(),
        ensures
            *r == self@[i as int],
    {
        &self.entries[i]
    }

    /// The position of the entry keyed by `id`, if the key is present.
    pub fn find(&self, id: TransmissionId) -> (r: Option<usize>)
        ensures
            match r {
                Some(i) => i < self@.len() && self@[i as int].0 == id && forall|j: int|
                    0 <= j < i ==> self@[j].0 != id,
                None => !map_contains_key(self@, id),
            },
    {
        let mut i: usize = 0;
        while i < self.entries.len()
            invariant
                i <= self@.len(),
                forall|j: int| 0 <= j < i ==> self@[j].0 != id,
            decreases self@.len() - i,
        {
            if self.entries[i].0 == id {
                return Some(i);
            }
            i = i + 1;
        }
        None
    }

    /// Whether the map holds an entry keyed by `id`.
    pub fn contains_key(&self, id: TransmissionId) -> (r: bool)
        ensures
            r == map_contains_key(self@, id),
    {
        match self.find(id) {
            Some(_) => true,
            None => false,
        }
    }

    /// A reference to the transmission keyed by `id`, if present.
    pub fn get(&self, id: TransmissionId) -> (r: Option<&Transmission>)
        ensures
            match r {
                Some(t) => map_contains_key(self@, id) && (exists|i: int|
                    0 <= i < self@.len() && self@[i].0 == id && self@[i].1 == *t),
                None => !map_contains_key(self@, id),
            },
    {
        match self.find(id) {
            Some(i) => Some(&self.entries[i].1),
            None => None,
        }
    }

    /// Inserts `t` under `id`: replaces in place when the key is present,
    /// appends otherwise, so insertion order is kept.
    pub fn insert(&mut self, id: TransmissionId, t: Transmission)
        requires
            old(self).wf(),
        ensures
            final(self).wf(),
            map_contains_key(old(self)@, id) ==> exists|i: int|
                0 <= i < old(self)@.len() && old(self)@[i].0 == id && final(self)@ == old(
                    self,
                )@.update(i, (id, t)),
            !map_contains_key(old(self)@, id) ==> final(self)@ == old(self)@.push((id, t)),
    {
        match self.find(id) {
            Some(i) => {
                self.entries.set(i, (id, t));
            },
            None => {
                self.entries.push((id, t));
            },
        }
    }
}

/// Whether every transmission identifier referenced by any certificate of
/// `certs` is a key of `entries`.
pub open spec fn subdag_covered(
    certs: Seq<Certificate>,
    entries: Seq<(TransmissionId, Transmission)>,
) -> bool {
    forall|i: int, j: int|
        0 <= i < certs.len() && 0 <= j < (#[trigger] certs[i]).transmission_ids@.len()
            ==> map_contains_key(entries, #[trigger] certs[i].transmission_ids@[j])
}

/// Whether an entry's transmission checks out against its own key.
pub open spec fn entry_ok(e: (TransmissionId, Transmission)) -> bool {
    ensure_outcome(e.0, e.1) is None
}

/// Whether the first `n` entries all check out.
pub open spec fn entries_ok_upto(entries: Seq<(TransmissionId, Transmission)>, n: int) -> bool {
    forall|j: int| 0 <= j < n ==> entry_ok(#[trigger] entries[j])
}

/// Whether every entry checks out.
pub open spec fn entries_ok(entries: Seq<(TransmissionId, Transmission)>) -> bool {
    entries_ok_upto(entries, entries.len() as int)
}

/// The transactions denoted by an entry sequence, in insertion order.
pub open spec fn entries_transactions(
    entries: Seq<(TransmissionId, Transmission)>,
) -> Seq<TransactionModel>
    decreases entries.len(),
{
    if entries.len() == 0 {
        Seq::empty()
    } else {
        let rest = entries_transactions(entries.drop_last());
        match entries.last().1 {
            Transmission::Transaction(d) => match transaction_data_model(d) {
                Some(m) => rest.push(m),
                None => rest,
            },
            _ => rest,
        }
    }
}

/// The solutions denoted by an entry sequence, in insertion order.
pub open spec fn entries_solutions(entries: Seq<(TransmissionId, Transmission)>) -> Seq<Solution>
    decreases entries.len(),
{
    if entries.len() == 0 {
        Seq::empty()
    } else {
        let rest = entries_solutions(entries.drop_last());
        match entries.last().1 {
            Transmission::Solution(d) => match solution_data_model(d) {
                Some(s) => rest.push(s),
                None => rest,
            },
            _ => rest,
        }
    }
}

/// Appending a transaction appends its model.
pub proof fn lemma_txs_model_push(s: Seq<Transaction>, t: Transaction)
    ensures
        txs_model(s.push(t)) == txs_model(s).push(t@),
{
    assert(txs_model(s.push(t)) =~= txs_model(s).push(t@));
}

/// An immutable block: hash-linked to its predecessor, carrying the
/// certificates of the sub-DAG it commits and the content they endorse.
#[derive(Clone, PartialEq, Eq, Debug)]
pub struct Block {
    /// The block height; the genesis block has height zero.
    pub height: u32,
    /// The anchor round of the committed sub-DAG; non-decreasing.
    pub round: u64,
    /// The hash of the predecessor block.
    pub previous_hash: u64,
    /// This block's own content-addressed hash.
    pub hash: u64,
    /// The proof target solutions in this block must attain.
    pub proof_target: u64,
    /// The epoch challenge solutions in this block were computed against.
    pub epoch_challenge: u64,
    /// The certificates of the committed sub-DAG.
    pub certificates: Vec<Certificate>,
    /// The committed transactions, in transmission order.
    pub transactions: Vec<Transaction>,
    /// The committed solutions, in transmission order.
    pub solutions: Vec<Solution>,
}

/// The mathematical model of a [`Block`].
#[verifier::ext_equal]
pub ghost struct BlockModel {
    pub height: u32,
    pub round: u64,
    pub previous_hash: u64,
    pub hash: u64,
    pub proof_target: u64,
    pub epoch_challenge: u64,
    pub certificates: Seq<CertificateModel>,
    pub transactions: Seq<TransactionModel>,
    pub solutions: Seq<Solution>,
}

/// The models of a sequence of transactions.
pub open spec fn txs_model(ts: Seq<Transaction>) -> Seq<TransactionModel> {
    ts.map_values(|t: Transaction| t@)
}

impl View for Block {
    type V = BlockModel;

    open spec fn view(&self) -> BlockModel {
        BlockModel {
            height: self.height,
            round: self.round,
            previous_hash: self.previous_hash,
            hash: self.hash,
            proof_target: self.proof_target,
            epoch_challenge: self.epoch_challenge,
            certificates: certs_model(self.certificates@),
            transactions: txs_model(self.transactions@),
            solutions: self.solutions@,
        }
    }
}

/// Returns a fresh certificate vector whose models equal those of `v`.
pub fn copy_certificates(v: &Vec<Certificate>) -> (r: Vec<Certificate>)
    ensures
        certs_model(r@) == certs_model(v@),
{
    let mut r: Vec<Certificate> = Vec::new();
    let mut i: usize = 0;
    while i < v.len()
        invariant
            i <= v@.len(),
            r@.len() == i,
            forall|k: int| 0 <= k < i ==> (#[trigger] r@[k])@ == v@[k]@,
        decreases v@.len() - i,
    {
        r.push(v[i].duplicate());
        i = i + 1;
    }
    proof {
        assert forall|k: int| 0 <= k < v@.len() implies certs_model(r@)[k] == certs_model(v@)[k] by {
            assert(r@[k]@ == v@[k]@);
        }
        assert(certs_model(r@) =~= certs_model(v@));
    }
    r
}

/// Returns a fresh transaction vector whose models equal those of `v`.
pub fn copy_transactions(v: &Vec<Transaction>) -> (r: Vec<Transaction>)
    ensures
        txs_model(r@) == txs_model(v@),
{
    let mut r: Vec<Transaction> = Vec::new();
    let mut i: usize = 0;
    while i < v.len()
        invariant
            i <= v@.len(),
            r@.len() == i,
            forall|k: int| 0 <= k < i ==> (#[trigger] r@[k])@ == v@[k]@,
        decreases v@.len() - i,
    {
        r.push(v[i].duplicate());
        i = i + 1;
    }
    proof {
        assert forall|k: int| 0 <= k < v@.len() implies txs_model(r@)[k] == txs_model(v@)[k] by {
            assert(r@[k]@ == v@[k]@);
        }
        assert(txs_model(r@) =~= txs_model(v@));
    }
    r
}

/// Returns a fresh solution vector with the same contents as `v`.
pub fn copy_solutions(v: &Vec<Solution>) -> (r: Vec<Solution>)
    ensures
        r@ == v@,
{
    let mut r: Vec<Solution> = Vec::new();
    let mut i: usize = 0;
    proof {
        assert(r@ =~= v@.take(0));
    }
    while i < v.len()
        invariant
            i <= v@.len(),
            r@ == v@.take(i as int),
        decreases v@.len() - i,
    {
        r.push(v[i]);
        proof {
            assert(r@ =~= v@.take(i as int + 1));
        }
        i = i + 1;
    }
    proof {
        assert(v@.take(v@.len() as int) =~= v@);
    }
    r
}

impl Block {
    /// Returns a fresh block with the same content.
    pub fn duplicate(&self) -> (r: Block)
        ensures
            r@ == self@,
    {
        let r = Block {
            height: self.height,
            round: self.round,
            previous_hash: self.previous_hash,
            hash: self.hash,
            proof_target: self.proof_target,
            epoch_challenge: self.epoch_challenge,
            certificates: copy_certificates(&self.certificates),
            transactions: copy_transactions(&self.transactions),
            solutions: copy_solutions(&self.solutions),
        };
        proof {
            assert(r@ =~= self@);
        }
        r
    }
}

/// The certificate digests of a certificate sequence.
pub open spec fn cert_ids(cs: Seq<Certificate>) -> Seq<u64> {
    cs.map_values(|c: Certificate| c.id)
}

/// The transaction ids of a transaction sequence.
pub open spec fn tx_ids(ts: Seq<Transaction>) -> Seq<u64> {
    ts.map_values(|t: Transaction| t.id)
}

/// The commitments of a solution sequence.
pub open spec fn sol_commitments(ss: Seq<Solution>) -> Seq<u64> {
    ss.map_values(|s: Solution| s.commitment)
}

/// The words folded into a block's content-addressed hash: the header
/// fields, then the digests of every certificate, transaction and
/// solution the block carries.
pub open spec fn block_words(
    height: u32,
    round: u64,
    previous_hash: u64,
    proof_target: u64,
    epoch_challenge: u64,
    certs: Seq<Certificate>,
    txs: Seq<Transaction>,
    sols: Seq<Solution>,
) -> Seq<u64> {
    seq![height as u64, round, previous_hash, proof_target, epoch_challenge] + cert_ids(certs)
        + tx_ids(txs) + sol_commitments(sols)
}

/// The content-addressed hash of a block's fields.
pub open spec fn block_digest(
    height: u32,
    round: u64,
    previous_hash: u64,
    proof_target: u64,
    epoch_challenge: u64,
    certs: Seq<Certificate>,
    txs: Seq<Transaction>,
    sols: Seq<Solution>,
) -> u64 {
    fold_mix64(
        0,
        block_words(height, round, previous_hash, proof_target, epoch_challenge, certs, txs, sols),
    )
}

/// Computes the content-addressed hash of a block's fields.
pub fn block_digest_exec(
    height: u32,
    round: u64,
    previous_hash: u64,
    proof_target: u64,
    epoch_challenge: u64,
    certs: &Vec<Certificate>,
    txs: &Vec<Transaction>,
    sols: &Vec<Solution>,
) -> (r: u64)
    ensures
        r == block_digest(
            height,
            round,
            previous_hash,
            proof_target,
            epoch_challenge,
            certs@,
            txs@,
            sols@,
        ),
{
    let mut words: Vec<u64> = Vec::new();
    words.push(height as u64);
    words.push(round);
    words.push(previous_hash);
    words.push(proof_target);
    words.push(epoch_challenge);
    let ghost header: Seq<u64> = seq![
        height as u64,
        round,
        previous_hash,
        proof_target,
        epoch_challenge,
    ];
    proof {
        assert(words@ =~= header + cert_ids(certs@.take(0)) + tx_ids(txs@.take(0))
            + sol_commitments(sols@.take(0)));
    }
    let mut i: usize = 0;
    while i < certs.len()
        invariant
            i <= certs@.len(),
            words@ == header + cert_ids(certs@.take(i as int)) + tx_ids(txs@.take(0))
                + sol_commitments(sols@.take(0)),
        decreases certs@.len() - i,
    {
        words.push(certs[i].id);
        proof {
            assert(words@ =~= header + cert_ids(certs@.take(i as int + 1)) + tx_ids(txs@.take(0))
                + sol_commitments(sols@.take(0)));
        }
        i = i + 1;
    }
    let mut j: usize = 0;
    while j < txs.len()
        invariant
            j <= txs@.len(),
            words@ == header + cert_ids(certs@.take(certs@.len() as int)) + tx_ids(
                txs@.take(j as int),
            ) + sol_commitments(sols@.take(0)),
        decreases txs@.len() - j,
    {
        words.push(txs[j].id);
        proof {
            assert(words@ =~= header + cert_ids(certs@.take(certs@.len() as int)) + tx_ids(
                txs@.take(j as int + 1),
            ) + sol_commitments(sols@.take(0)));
        }
        j = j + 1;
    }
    let mut k: usize = 0;
    while k < sols.len()
        invariant
            k <= sols@.len(),
            words@ == header + cert_ids(certs@.take(certs@.len() as int)) + tx_ids(
                txs@.take(txs@.len() as int),
            ) + sol_commitments(sols@.take(k as int)),
        decreases sols@.len() - k,
    {
        words.push(sols[k].commitment);
        proof {
            assert(words@ =~= header + cert_ids(certs@.take(certs@.len() as int)) + tx_ids(
                txs@.take(txs@.len() as int),
            ) + sol_commitments(sols@.take(k as int + 1)));
        }
        k = k + 1;
    }
    proof {
        assert(certs@.take(certs@.len() as int) =~= certs@);
        assert(txs@.take(txs@.len() as int) =~= txs@);
        assert(sols@.take(sols@.len() as int) =~= sols@);
        assert(words@ =~= block_words(
            height,
            round,
            previous_hash,
            proof_target,
            epoch_challenge,
            certs@,
            txs@,
            sols@,
        ));
    }
    fold_mix64_exec(0, &words)
}

/// Determinism law for block assembly: the content-addressed hash
/// depends only on the modeled content of the block's parts, so any two
/// candidate blocks assembled from the same sub-DAG and transmissions
/// hash identically, whatever the in-memory copies look like.
pub proof fn lemma_block_digest_depends_only_on_content(
    height: u32,
    round: u64,
    previous_hash: u64,
    proof_target: u64,
    epoch_challenge: u64,
    certs1: Seq<Certificate>,
    certs2: Seq<Certificate>,
    txs1: Seq<Transaction>,
    txs2: Seq<Transaction>,
    sols: Seq<Solution>,
)
    requires
        certs_model(certs1) == certs_model(certs2),
        txs_model(txs1) == txs_model(txs2),
    ensures
        block_digest(
            height,
            round,
            previous_hash,
            proof_target,
            epoch_challenge,
            certs1,
            txs1,
            sols,
        ) == block_digest(
            height,
            round,
            previous_hash,
            proof_target,
            epoch_challenge,
            certs2,
            txs2,
            sols,
        ),
{
    assert(certs_model(certs1).len() == certs1.len());
    assert(certs_model(certs2).len() == certs2.len());
    assert(txs_model(txs1).len() == txs1.len());
    assert(txs_model(txs2).len() == txs2.len());
    assert forall|i: int| 0 <= i < certs1.len() implies cert_ids(certs1)[i] == cert_ids(
        certs2,
    )[i] by {
        assert(certs_model(certs1)[i] == certs_model(certs2)[i]);
    }
    assert(cert_ids(certs1) =~= cert_ids(certs2));
    assert forall|i: int| 0 <= i < txs1.len() implies tx_ids(txs1)[i] == tx_ids(txs2)[i] by {
        assert(txs_model(txs1)[i] == txs_model(txs2)[i]);
    }
    assert(tx_ids(txs1) =~= tx_ids(txs2));
}

/// Whether the transaction ids within a block are pairwise distinct.
pub open spec fn block_tx_ids_unique(txs: Seq<Transaction>) -> bool {
    forall|i: int, j: int|
        0 <= i < j < txs.len() ==> (#[trigger] txs[i]).id != (#[trigger] txs[j]).id
}

/// Whether `b` is a valid next block for the chain `chain`: linked by
/// hash to the head, exactly one height up, round non-decreasing, epoch
/// parameters carried forward, its hash recomputing from its contents
/// and fresh (content-addressing: no stored block already carries it),
/// its transaction ids pairwise distinct, and every solution valid for
/// the block's epoch parameters.
///
/// The model treats the epoch parameters as constants of the chain: their
/// periodic refresh is epoch logic of the out-of-scope storage
/// collaborator, so a candidate must carry the head's values forward.
pub open spec fn valid_next_block(chain: Seq<Block>, b: Block) -> bool
    recommends
        chain.len() >= 1,
{
    let head = chain.last();
    &&& b.height == head.height + 1
    &&& b.previous_hash == head.hash
    &&& b.round >= head.round
    &&& b.proof_target == head.proof_target
    &&& b.epoch_challenge == head.epoch_challenge
    &&& forall|i: int| 0 <= i < chain.len() ==> (#[trigger] chain[i]).hash != b.hash
    &&& b.hash == block_digest(
        b.height,
        b.round,
        b.previous_hash,
        b.proof_target,
        b.epoch_challenge,
        b.certificates@,
        b.transactions@,
        b.solutions@,
    )
    &&& block_tx_ids_unique(b.transactions@)
    &&& forall|i: int|
        0 <= i < b.solutions@.len() ==> solution_is_valid(
            #[trigger] b.solutions@[i],
            b.epoch_challenge,
            b.proof_target,
        )
}


} // verus!
