use ledger_service::block::Block;
use ledger_service::errors::LedgerError;
use ledger_service::ledger::CoreLedgerService;
use ledger_service::transmission::{
    deserialize_solution, deserialize_transaction, serialize_solution, serialize_transaction,
    Solution, SolutionData, Transaction, TransactionData, Transmission, TransmissionId,
};

fn genesis() -> Block {
    Block {
        height: 0,
        round: 0,
        previous_hash: 0,
        hash: 99,
        proof_target: 10,
        epoch_challenge: 77,
        certificates: Vec::new(),
        transactions: Vec::new(),
        solutions: Vec::new(),
    }
}

fn sample_transaction() -> Transaction {
    Transaction { id: 1, is_fee: false, payload: vec![7, 8] }
}

#[test]
fn transaction_encoding_is_exact() {
    let bytes = serialize_transaction(&sample_transaction());
    let expected = vec![
        1, 0, 0, 0, 0, 0, 0, 0, // id, little endian
        0, // fee flag
        2, 0, 0, 0, 0, 0, 0, 0, // payload length, little endian
        7, 8, // payload
    ];
    assert_eq!(bytes, expected);
}

#[test]
fn transaction_round_trips_through_bytes() {
    let t = Transaction { id: 0xdead_beef_1234_5678, is_fee: true, payload: vec![0, 255, 3] };
    let bytes = serialize_transaction(&t);
    let back = deserialize_transaction(&bytes).unwrap();
    assert_eq!(back, t);
}

#[test]
fn malformed_transaction_bytes_fail_codec_error() {
    assert_eq!(deserialize_transaction(&vec![1, 2, 3]), Err(LedgerError::CodecError));
    let mut bad_fee = serialize_transaction(&sample_transaction());
    bad_fee[8] = 2;
    assert_eq!(deserialize_transaction(&bad_fee), Err(LedgerError::CodecError));
    let mut trailing = serialize_transaction(&sample_transaction());
    trailing.push(0);
    assert_eq!(deserialize_transaction(&trailing), Err(LedgerError::CodecError));
}

#[test]
fn solution_round_trips_through_bytes() {
    let s = Solution { commitment: 5, epoch_hash: 77, target: 42 };
    let bytes = serialize_solution(&s);
    assert_eq!(bytes.len(), 24);
    assert_eq!(deserialize_solution(&bytes), Ok(s));
    assert_eq!(deserialize_solution(&vec![0; 23]), Err(LedgerError::CodecError));
}

#[test]
fn ensure_id_matches_resolves_bytes_in_place() {
    let svc = CoreLedgerService::new(genesis(), false);
    let t = sample_transaction();
    let bytes = serialize_transaction(&t);
    let mut tr = Transmission::Transaction(TransactionData::Bytes(bytes));
    let r = svc.ensure_transmission_id_matches(TransmissionId::Transaction(1), &mut tr);
    assert_eq!(r, Ok(()));
    assert_eq!(tr, Transmission::Transaction(TransactionData::Object(t)));
}

#[test]
fn ensure_id_matches_is_idempotent() {
    let svc = CoreLedgerService::new(genesis(), false);
    let bytes = serialize_transaction(&sample_transaction());
    let mut tr = Transmission::Transaction(TransactionData::Bytes(bytes));
    let id = TransmissionId::Transaction(1);
    assert_eq!(svc.ensure_transmission_id_matches(id, &mut tr), Ok(()));
    let resolved_once = tr.clone();
    assert_eq!(svc.ensure_transmission_id_matches(id, &mut tr), Ok(()));
    assert_eq!(tr, resolved_once);
}

#[test]
fn ensure_id_matches_rejects_wrong_identity_and_kind() {
    let svc = CoreLedgerService::new(genesis(), false);
    let bytes = serialize_transaction(&sample_transaction());
    let mut tr = Transmission::Transaction(TransactionData::Bytes(bytes.clone()));
    assert_eq!(
        svc.ensure_transmission_id_matches(TransmissionId::Transaction(2), &mut tr),
        Err(LedgerError::IdentityMismatch)
    );
    // The failed check leaves the transmission unresolved.
    assert_eq!(tr, Transmission::Transaction(TransactionData::Bytes(bytes.clone())));
    assert_eq!(
        svc.ensure_transmission_id_matches(TransmissionId::Solution(1), &mut tr),
        Err(LedgerError::TypeMismatch)
    );
    assert_eq!(
        svc.ensure_transmission_id_matches(TransmissionId::Ratification, &mut tr),
        Err(LedgerError::TypeMismatch)
    );
    let mut garbage = Transmission::Transaction(TransactionData::Bytes(vec![9, 9]));
    assert_eq!(
        svc.ensure_transmission_id_matches(TransmissionId::Transaction(1), &mut garbage),
        Err(LedgerError::CodecError)
    );
    let mut ratification = Transmission::Ratification;
    assert_eq!(
        svc.ensure_transmission_id_matches(TransmissionId::Ratification, &mut ratification),
        Ok(())
    );
}

#[test]
fn check_transaction_basic_accepts_and_rejects() {
    let svc = CoreLedgerService::new(genesis(), false);
    let t = sample_transaction();
    let bytes = serialize_transaction(&t);
    assert_eq!(svc.check_transaction_basic(1, TransactionData::Bytes(bytes.clone())), Ok(()));
    assert_eq!(
        svc.check_transaction_basic(2, TransactionData::Bytes(bytes)),
        Err(LedgerError::IdentityMismatch)
    );
    let fee = Transaction { id: 3, is_fee: true, payload: vec![] };
    assert_eq!(
        svc.check_transaction_basic(3, TransactionData::Object(fee)),
        Err(LedgerError::UnexpectedFeeTransaction)
    );
    assert_eq!(
        svc.check_transaction_basic(1, TransactionData::Bytes(vec![0])),
        Err(LedgerError::CodecError)
    );
}

#[test]
fn check_transaction_basic_rejects_already_confirmed() {
    let mut g = genesis();
    g.transactions.push(sample_transaction());
    let svc = CoreLedgerService::new(g, false);
    assert_eq!(
        svc.check_transaction_basic(1, TransactionData::Object(sample_transaction())),
        Err(LedgerError::VerificationFailed)
    );
}

#[test]
fn accepted_transaction_reserialized_keeps_its_identity() {
    // Round-trip law on a transaction the basic check accepts.
    let svc = CoreLedgerService::new(genesis(), false);
    let t = Transaction { id: 21, is_fee: false, payload: vec![1, 2, 3, 4] };
    assert_eq!(svc.check_transaction_basic(21, TransactionData::Object(t.clone())), Ok(()));
    let reserialized = serialize_transaction(&t);
    let back = deserialize_transaction(&reserialized).unwrap();
    assert_eq!(back.id, 21);
    assert_eq!(back, t);
}

#[test]
fn check_solution_basic_verifies_against_epoch_parameters() {
    // Genesis installs epoch challenge 77 and proof target 10.
    let svc = CoreLedgerService::new(genesis(), false);
    let good = Solution { commitment: 5, epoch_hash: 77, target: 10 };
    let bytes = serialize_solution(&good);
    assert_eq!(svc.check_solution_basic(5, SolutionData::Bytes(bytes)), Ok(()));
    assert_eq!(
        svc.check_solution_basic(6, SolutionData::Object(good)),
        Err(LedgerError::ClaimMismatch)
    );
    let stale_epoch = Solution { commitment: 5, epoch_hash: 76, target: 10 };
    assert_eq!(
        svc.check_solution_basic(5, SolutionData::Object(stale_epoch)),
        Err(LedgerError::VerificationFailed)
    );
    let weak = Solution { commitment: 5, epoch_hash: 77, target: 9 };
    assert_eq!(
        svc.check_solution_basic(5, SolutionData::Object(weak)),
        Err(LedgerError::VerificationFailed)
    );
    assert_eq!(
        svc.check_solution_basic(5, SolutionData::Bytes(vec![1, 2])),
        Err(LedgerError::CodecError)
    );
}
