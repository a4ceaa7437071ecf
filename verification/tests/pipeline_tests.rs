use ledger_service::block::{Block, Certificate, SubDag, TransmissionMap};
use ledger_service::errors::LedgerError;
use ledger_service::ledger::CoreLedgerService;
use ledger_service::transmission::{
    serialize_solution, serialize_transaction, Solution, SolutionData, Transaction,
    TransactionData, Transmission, TransmissionId,
};

fn genesis() -> Block {
    Block {
        height: 0,
        round: 0,
        previous_hash: 0,
        hash: 99,
        proof_target: 10,
        epoch_challenge: 77,
        certificates: Vec::new(),
        transactions: Vec::new(),
        solutions: Vec::new(),
    }
}

fn sample_transaction() -> Transaction {
    Transaction { id: 1, is_fee: false, payload: vec![7, 8] }
}

fn sample_solution() -> Solution {
    Solution { commitment: 5, epoch_hash: 77, target: 10 }
}

fn sample_subdag() -> SubDag {
    SubDag {
        certificates: vec![
            Certificate {
                id: 41,
                round: 2,
                transmission_ids: vec![
                    TransmissionId::Transaction(1),
                    TransmissionId::Solution(5),
                ],
            },
            Certificate { id: 42, round: 3, transmission_ids: vec![TransmissionId::Ratification] },
        ],
    }
}

fn sample_transmissions() -> TransmissionMap {
    let mut map = TransmissionMap::new();
    map.insert(
        TransmissionId::Transaction(1),
        Transmission::Transaction(TransactionData::Bytes(serialize_transaction(
            &sample_transaction(),
        ))),
    );
    map.insert(
        TransmissionId::Solution(5),
        Transmission::Solution(SolutionData::Bytes(serialize_solution(&sample_solution()))),
    );
    map.insert(TransmissionId::Ratification, Transmission::Ratification);
    map
}

#[test]
fn prepare_check_advance_end_to_end() {
    let mut svc = CoreLedgerService::new(genesis(), false);
    let block = svc
        .prepare_advance_to_next_quorum_block(&sample_subdag(), &sample_transmissions())
        .unwrap();
    assert_eq!(block.height, 1);
    assert_eq!(block.round, 3);
    assert_eq!(block.previous_hash, 99);
    assert_eq!(block.proof_target, 10);
    assert_eq!(block.epoch_challenge, 77);
    assert_eq!(block.transactions, vec![sample_transaction()]);
    assert_eq!(block.solutions, vec![sample_solution()]);
    assert_eq!(block.certificates.len(), 2);
    assert_eq!(svc.check_next_block(&block), Ok(()));
    assert_eq!(svc.advance_to_next_block(&block), Ok(()));
    assert_eq!(svc.latest_block_height(), 1);
    assert_eq!(svc.latest_round(), 3);
    assert_eq!(svc.latest_block(), block);
    // The committed content is now visible through the lookups.
    assert_eq!(svc.get_solution(5), Ok(sample_solution()));
    assert_eq!(svc.get_batch_certificate(41).unwrap().id, 41);
    assert_eq!(svc.contains_certificate(42), Ok(true));
    assert_eq!(svc.contains_certificate(43), Ok(false));
    assert_eq!(svc.contains_transmission(TransmissionId::Transaction(1)), Ok(true));
    assert_eq!(svc.contains_transmission(TransmissionId::Solution(5)), Ok(true));
    assert_eq!(svc.contains_transmission(TransmissionId::Ratification), Ok(false));
}

#[test]
fn prepare_is_deterministic() {
    let svc = CoreLedgerService::new(genesis(), false);
    let a = svc
        .prepare_advance_to_next_quorum_block(&sample_subdag(), &sample_transmissions())
        .unwrap();
    let b = svc
        .prepare_advance_to_next_quorum_block(&sample_subdag(), &sample_transmissions())
        .unwrap();
    assert_eq!(a, b);
}

#[test]
fn prepare_fails_on_missing_transmission() {
    let svc = CoreLedgerService::new(genesis(), false);
    let mut map = sample_transmissions();
    let mut subdag = sample_subdag();
    subdag.certificates[1].transmission_ids.push(TransmissionId::Transaction(1234));
    let r = svc.prepare_advance_to_next_quorum_block(&subdag, &map);
    assert_eq!(r, Err(LedgerError::IncompleteTransmissions));
    // Supplying the missing transmission makes the same call succeed.
    map.insert(
        TransmissionId::Transaction(1234),
        Transmission::Transaction(TransactionData::Bytes(serialize_transaction(&Transaction {
            id: 1234,
            is_fee: false,
            payload: vec![],
        }))),
    );
    assert!(svc.prepare_advance_to_next_quorum_block(&subdag, &map).is_ok());
}

#[test]
fn prepare_rejects_mismatched_entries() {
    let svc = CoreLedgerService::new(genesis(), false);
    let subdag = SubDag {
        certificates: vec![Certificate {
            id: 41,
            round: 2,
            transmission_ids: vec![TransmissionId::Transaction(9)],
        }],
    };
    let mut map = TransmissionMap::new();
    map.insert(
        TransmissionId::Transaction(9),
        Transmission::Transaction(TransactionData::Bytes(serialize_transaction(
            &sample_transaction(),
        ))),
    );
    assert_eq!(
        svc.prepare_advance_to_next_quorum_block(&subdag, &map),
        Err(LedgerError::IdentityMismatch)
    );
    let mut cross = TransmissionMap::new();
    cross.insert(TransmissionId::Transaction(9), Transmission::Ratification);
    assert_eq!(
        svc.prepare_advance_to_next_quorum_block(&subdag, &cross),
        Err(LedgerError::TypeMismatch)
    );
}

#[test]
fn shutdown_refuses_commits_and_leaves_head_unchanged() {
    let mut svc = CoreLedgerService::new(genesis(), false);
    let block = svc
        .prepare_advance_to_next_quorum_block(&sample_subdag(), &sample_transmissions())
        .unwrap();
    svc.shut_down();
    let before = svc.latest_block_height();
    assert_eq!(svc.advance_to_next_block(&block), Err(LedgerError::Shutdown));
    assert_eq!(svc.latest_block_height(), before);
    assert_eq!(svc.advance_to_next_block(&block), Err(LedgerError::Shutdown));
    assert_eq!(svc.latest_block_height(), 0);
}

#[test]
fn advance_rejects_blocks_that_do_not_link() {
    let mut svc = CoreLedgerService::new(genesis(), false);
    let mut block = svc
        .prepare_advance_to_next_quorum_block(&sample_subdag(), &sample_transmissions())
        .unwrap();
    block.previous_hash = 1000;
    assert_eq!(svc.check_next_block(&block), Err(LedgerError::VerificationFailed));
    assert_eq!(svc.advance_to_next_block(&block), Err(LedgerError::VerificationFailed));
    assert_eq!(svc.latest_block_height(), 0);
    // A tampered hash is caught by the digest recomputation.
    let mut forged = svc
        .prepare_advance_to_next_quorum_block(&sample_subdag(), &sample_transmissions())
        .unwrap();
    forged.hash = forged.hash.wrapping_add(1);
    assert_eq!(svc.check_next_block(&forged), Err(LedgerError::VerificationFailed));
}

#[test]
fn transmission_map_keeps_insertion_order_and_replaces_in_place() {
    let mut map = TransmissionMap::new();
    map.insert(TransmissionId::Transaction(1), Transmission::Ratification);
    map.insert(TransmissionId::Solution(2), Transmission::Ratification);
    assert_eq!(map.len(), 2);
    assert!(map.contains_key(TransmissionId::Transaction(1)));
    assert!(!map.contains_key(TransmissionId::Transaction(2)));
    let replacement = Transmission::Transaction(TransactionData::Bytes(vec![1]));
    map.insert(TransmissionId::Transaction(1), replacement.clone());
    assert_eq!(map.len(), 2);
    assert_eq!(map.entry_at(0).0, TransmissionId::Transaction(1));
    assert_eq!(map.entry_at(0).1, replacement);
    assert_eq!(map.get(TransmissionId::Transaction(1)), Some(&replacement));
    assert_eq!(map.get(TransmissionId::Solution(9)), None);
}

#[test]
fn block_lookups_cover_found_and_missing_keys() {
    let mut svc = CoreLedgerService::new(genesis(), false);
    let block = svc
        .prepare_advance_to_next_quorum_block(&sample_subdag(), &sample_transmissions())
        .unwrap();
    svc.advance_to_next_block(&block).unwrap();
    assert!(svc.contains_block_height(0));
    assert!(svc.contains_block_height(1));
    assert!(!svc.contains_block_height(2));
    assert_eq!(svc.get_block_hash(0), Ok(99));
    assert_eq!(svc.get_block_hash(1), Ok(block.hash));
    assert_eq!(svc.get_block_hash(7), Err(LedgerError::NotFound(7)));
    assert_eq!(svc.get_block_height(block.hash), Ok(1));
    assert_eq!(svc.get_block_height(99), Ok(0));
    // Content addressing: hash lookup inverts height lookup on every
    // stored block.
    for h in 0..2u32 {
        let hash = svc.get_block_hash(h).unwrap();
        assert_eq!(svc.get_block_height(hash), Ok(h));
    }
    assert_eq!(svc.get_block_height(12345), Err(LedgerError::NotFound(12345)));
    assert_eq!(svc.get_block(1), Ok(block.clone()));
    assert_eq!(svc.get_block(9), Err(LedgerError::NotFound(9)));
    let both = svc.get_blocks(0, 2).unwrap();
    assert_eq!(both.len(), 2);
    assert_eq!(both[1], block);
    assert_eq!(svc.get_blocks(0, 3), Err(LedgerError::NotFound(3)));
    assert_eq!(svc.get_solution(123), Err(LedgerError::NotFound(123)));
    assert_eq!(svc.get_batch_certificate(123), Err(LedgerError::NotFound(123)));
}

#[test]
fn unconfirmed_pool_lookup() {
    let mut svc = CoreLedgerService::new(genesis(), false);
    assert_eq!(svc.get_unconfirmed_transaction(1), Err(LedgerError::NotFound(1)));
    svc.add_unconfirmed_transaction(sample_transaction());
    assert_eq!(svc.get_unconfirmed_transaction(1), Ok(sample_transaction()));
}

#[test]
fn bond_transaction_is_deterministic_and_encodes_its_inputs() {
    let svc = CoreLedgerService::new(genesis(), false);
    let a = svc.generate_bond_transaction(3, 9).unwrap();
    let b = svc.generate_bond_transaction(3, 9).unwrap();
    assert_eq!(a, b);
    assert!(!a.is_fee);
    let mut expected_payload = vec![9, 0, 0, 0, 0, 0, 0, 0];
    expected_payload.extend_from_slice(&[3, 0, 0, 0, 0, 0, 0, 0]);
    assert_eq!(a.payload, expected_payload);
    // The digest folds the key and the amount in order.
    let prime: u128 = 0x100000001b3;
    let h0 = ((0u64 ^ 9) as u128).wrapping_mul(prime) as u64;
    let id = ((h0 ^ 3) as u128).wrapping_mul(prime) as u64;
    assert_eq!(a.id, id);
    let other = svc.generate_bond_transaction(9, 3).unwrap();
    assert_ne!(a.id, other.id);
}

#[test]
fn prepare_accepts_an_empty_subdag() {
    let mut svc = CoreLedgerService::new(genesis(), false);
    let empty = SubDag { certificates: Vec::new() };
    let map = TransmissionMap::new();
    let block = svc.prepare_advance_to_next_quorum_block(&empty, &map).unwrap();
    assert_eq!(block.height, 1);
    assert_eq!(block.round, 0);
    assert!(block.transactions.is_empty());
    assert!(block.solutions.is_empty());
    assert_eq!(svc.advance_to_next_block(&block), Ok(()));
    assert_eq!(svc.latest_block_height(), 1);
}
