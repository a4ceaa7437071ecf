use ledger_service::block::Block;
use ledger_service::committee::{Committee, CommitteeMember};
use ledger_service::errors::LedgerError;
use ledger_service::ledger::CoreLedgerService;

fn genesis() -> Block {
    Block {
        height: 0,
        round: 0,
        previous_hash: 0,
        hash: 99,
        proof_target: 10,
        epoch_challenge: 77,
        certificates: Vec::new(),
        transactions: Vec::new(),
        solutions: Vec::new(),
    }
}

fn committee(starting_round: u64, address: u64) -> Committee {
    Committee {
        starting_round,
        members: vec![
            CommitteeMember { address, stake: 100 },
            CommitteeMember { address: address + 1, stake: 50 },
        ],
    }
}

#[test]
fn current_committee_empty_fails_not_found() {
    let svc = CoreLedgerService::new(genesis(), false);
    assert_eq!(svc.current_committee(), Err(LedgerError::NotFound(0)));
}

#[test]
fn genesis_committee_serves_round_zero_and_future_rounds() {
    let mut svc = CoreLedgerService::new(genesis(), false);
    let c = committee(0, 1);
    assert_eq!(svc.add_committee(c.clone()), Ok(()));
    assert_eq!(svc.get_committee_for_round(0), Ok(c.clone()));
    assert_eq!(svc.get_committee_for_round(100), Ok(c.clone()));
    assert_eq!(svc.current_committee(), Ok(c));
}

#[test]
fn future_rounds_fall_back_to_current_committee() {
    let mut svc = CoreLedgerService::new(genesis(), false);
    let early = committee(0, 1);
    let late = committee(10, 5);
    svc.add_committee(early.clone()).unwrap();
    svc.add_committee(late.clone()).unwrap();
    let current = svc.current_committee().unwrap();
    assert_eq!(current, late);
    assert_eq!(svc.get_committee_for_round(10), Ok(late.clone()));
    assert_eq!(svc.get_committee_for_round(11), Ok(late.clone()));
    assert_eq!(svc.get_committee_for_round(1_000_000), Ok(late));
    assert_eq!(svc.get_committee_for_round(9), Ok(early.clone()));
    assert_eq!(svc.get_committee_for_round(0), Ok(early));
}

#[test]
fn rounds_before_earliest_committee_fail_round_too_old() {
    let mut svc = CoreLedgerService::new(genesis(), false);
    svc.add_committee(committee(10, 1)).unwrap();
    assert_eq!(svc.get_committee_for_round(9), Err(LedgerError::RoundTooOld));
    assert_eq!(svc.get_committee_for_round(0), Err(LedgerError::RoundTooOld));
    assert_eq!(svc.get_committee_for_round(10).unwrap().starting_round, 10);
}

#[test]
fn previous_committee_reference_rounds() {
    let mut svc = CoreLedgerService::new(genesis(), false);
    let c0 = committee(0, 1);
    let c4 = committee(4, 2);
    let c10 = committee(10, 3);
    svc.add_committee(c0.clone()).unwrap();
    svc.add_committee(c4.clone()).unwrap();
    svc.add_committee(c10.clone()).unwrap();
    // r = 10 queries round 9, whose committee started at 4.
    assert_eq!(svc.get_previous_committee_for_round(10), Ok(c4.clone()));
    // r = 11 queries round 9 as well.
    assert_eq!(svc.get_previous_committee_for_round(11), Ok(c4.clone()));
    // r = 4 queries round 3, whose committee started at 0.
    assert_eq!(svc.get_previous_committee_for_round(4), Ok(c0.clone()));
    // r = 5 queries round 3 as well.
    assert_eq!(svc.get_previous_committee_for_round(5), Ok(c0));
    // The rounds themselves resolve differently, so the subtraction shows.
    assert_eq!(svc.get_committee_for_round(10), Ok(c10));
    assert_eq!(svc.get_committee_for_round(4), Ok(c4));
}

#[test]
fn add_committee_rejects_non_increasing_starting_round() {
    let mut svc = CoreLedgerService::new(genesis(), false);
    svc.add_committee(committee(4, 1)).unwrap();
    assert_eq!(svc.add_committee(committee(4, 2)), Err(LedgerError::StorageError));
    assert_eq!(svc.add_committee(committee(2, 3)), Err(LedgerError::StorageError));
    assert_eq!(svc.add_committee(committee(6, 4)), Ok(()));
}
