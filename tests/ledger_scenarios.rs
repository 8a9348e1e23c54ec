use payments_engine::amount::Amount;
use payments_engine::ledger::{
    ClientState, Outcome, Record, Rejection, SituatedRecord, TransactionType,
};
use payments_engine::store::{process_record, LedgerStore};

fn event(
    counter: usize,
    kind: TransactionType,
    client: u16,
    tx: u32,
    units: i128,
) -> SituatedRecord {
    SituatedRecord {
        monotonic_counter: counter,
        record: Record {
            transaction_type: kind,
            client_id: client,
            transaction_id: tx,
            amount: Amount { units },
        },
    }
}

fn run(client: u16, events: &[(TransactionType, u32, i128)]) -> (ClientState, Vec<Outcome>) {
    let mut state = ClientState::new(client);
    let mut outcomes = Vec::new();
    for (i, (kind, tx, units)) in events.iter().enumerate() {
        outcomes.push(state.add_transaction(event(i, *kind, client, *tx, *units)));
    }
    (state, outcomes)
}

use TransactionType::{Chargeback, Deposit, Dispute, Resolve, Withdrawal};

#[test]
fn deposit_then_withdrawal() {
    let (s, o) = run(1, &[(Deposit, 1, 50000), (Withdrawal, 2, 30000)]);
    assert_eq!(o, vec![Outcome::Applied, Outcome::Applied]);
    assert_eq!(s.get_available_funds(), Amount::new(20000, 4));
    assert_eq!(s.get_held_funds(), Amount::zero());
    assert!(!s.is_locked());
}

#[test]
fn withdrawal_beyond_funds_is_recorded_without_effect() {
    let (s, o) = run(2, &[(Deposit, 1, 50000), (Withdrawal, 2, 90000)]);
    assert_eq!(o[1], Outcome::InsufficientFunds);
    assert_eq!(s.get_available_funds(), Amount::new(5, 0));
    assert_eq!(s.transaction_len(2), 1);
    assert_eq!(s.transaction_history(2)[0].record.amount, Amount::new(9, 0));
    let (later, o2) = run(2, &[(Deposit, 1, 50000), (Withdrawal, 2, 90000), (Dispute, 2, 0)]);
    assert_eq!(o2[2], Outcome::Applied);
    assert_eq!(later.get_available_funds(), Amount::new(5, 0));
    assert_eq!(later.get_held_funds(), Amount::new(9, 0));
}

#[test]
fn dispute_then_resolve() {
    let (s, o) = run(3, &[(Deposit, 1, 100000), (Dispute, 1, 0), (Resolve, 1, 0)]);
    assert_eq!(o, vec![Outcome::Applied; 3]);
    assert_eq!(s.get_available_funds(), Amount::new(100000, 4));
    assert_eq!(s.get_held_funds(), Amount::zero());
    assert!(!s.is_locked());
    assert_eq!(s.transaction_len(1), 3);
}

#[test]
fn dispute_then_chargeback_locks() {
    let (s, o) = run(4, &[(Deposit, 1, 100000), (Dispute, 1, 0), (Chargeback, 1, 0)]);
    assert_eq!(o, vec![Outcome::Applied; 3]);
    assert_eq!(s.get_available_funds(), Amount::zero());
    assert_eq!(s.get_held_funds(), Amount::zero());
    assert_eq!(s.get_total_funds(), Amount::zero());
    assert!(s.is_locked());
}

#[test]
fn disputed_withdrawal_is_held() {
    let (s, _) = run(5, &[(Deposit, 1, 200000), (Withdrawal, 2, 50000), (Dispute, 2, 0)]);
    assert_eq!(s.get_available_funds(), Amount::new(15, 0));
    assert_eq!(s.get_held_funds(), Amount::new(5, 0));
    assert_eq!(s.get_total_funds(), Amount::new(20, 0));
}

#[test]
fn reused_id_is_rejected() {
    let (s, o) = run(6, &[(Deposit, 1, 50000), (Deposit, 1, 30000)]);
    assert_eq!(o[1], Outcome::Rejected(Rejection::DuplicateTransaction));
    assert_eq!(s.get_available_funds(), Amount::new(5, 0));
    assert_eq!(s.transaction_len(1), 1);
}

#[test]
fn total_is_available_plus_held_after_each_event() {
    let events = [
        (Deposit, 1, 200000),
        (Withdrawal, 2, 50000),
        (Dispute, 2, 0),
        (Deposit, 3, 12345),
        (Dispute, 3, 0),
        (Resolve, 2, 0),
        (Chargeback, 3, 0),
        (Deposit, 4, 7),
    ];
    let mut state = ClientState::new(7);
    for (i, (kind, tx, units)) in events.iter().enumerate() {
        state.add_transaction(event(i, *kind, 7, *tx, *units));
        assert_eq!(
            state.get_total_funds().units,
            state.get_available_funds().units + state.get_held_funds().units
        );
    }
}

#[test]
fn locked_account_takes_deposits_only() {
    let (mut s, _) = run(8, &[
        (Deposit, 1, 100000),
        (Deposit, 2, 40000),
        (Dispute, 1, 0),
        (Chargeback, 1, 0),
    ]);
    assert!(s.is_locked());
    let w = s.add_transaction(event(4, Withdrawal, 8, 3, 10000));
    assert_eq!(w, Outcome::Rejected(Rejection::AccountLocked));
    assert_eq!(s.transaction_len(3), 0);
    let d = s.add_transaction(event(5, Dispute, 8, 2, 0));
    assert_eq!(d, Outcome::Rejected(Rejection::AccountLocked));
    let r = s.add_transaction(event(6, Resolve, 8, 1, 0));
    assert_eq!(r, Outcome::Rejected(Rejection::AccountLocked));
    let c = s.add_transaction(event(7, Chargeback, 8, 1, 0));
    assert_eq!(c, Outcome::Rejected(Rejection::AccountLocked));
    let dep = s.add_transaction(event(8, Deposit, 8, 9, 10000));
    assert_eq!(dep, Outcome::Applied);
    assert_eq!(s.get_available_funds(), Amount::new(5, 0));
    assert!(s.is_locked());
}

#[test]
fn second_withdrawal_with_same_id_is_rejected() {
    let (s, o) = run(9, &[(Deposit, 1, 100000), (Withdrawal, 2, 10000), (Withdrawal, 2, 10000)]);
    assert_eq!(o[2], Outcome::Rejected(Rejection::DuplicateTransaction));
    assert_eq!(s.get_available_funds(), Amount::new(9, 0));
}

#[test]
fn dispute_resolve_restores_deposit_balances() {
    let (mut s, _) = run(10, &[(Deposit, 1, 30000), (Deposit, 2, 12500)]);
    let before = (s.get_available_funds(), s.get_held_funds());
    assert_eq!(s.add_transaction(event(2, Dispute, 10, 2, 0)), Outcome::Applied);
    assert_eq!(s.get_held_funds(), Amount::new(12500, 4));
    assert_eq!(s.add_transaction(event(3, Resolve, 10, 2, 0)), Outcome::Applied);
    assert_eq!((s.get_available_funds(), s.get_held_funds()), before);
}

#[test]
fn dispute_resolve_of_withdrawal_credits_the_amount() {
    let (s, _) = run(11, &[
        (Deposit, 1, 200000),
        (Withdrawal, 2, 50000),
        (Dispute, 2, 0),
        (Resolve, 2, 0),
    ]);
    assert_eq!(s.get_available_funds(), Amount::new(20, 0));
    assert_eq!(s.get_held_funds(), Amount::zero());
}

#[test]
fn dispute_of_failed_withdrawal_goes_negative() {
    let (s, o) = run(12, &[(Withdrawal, 1, 10000), (Dispute, 1, 0), (Chargeback, 1, 0)]);
    assert_eq!(o, vec![Outcome::InsufficientFunds, Outcome::Applied, Outcome::Applied]);
    assert_eq!(s.get_available_funds(), Amount::zero());
    assert_eq!(s.get_held_funds(), Amount::zero());
    let (s2, _) = run(13, &[(Withdrawal, 1, 10000), (Dispute, 1, 0)]);
    assert_eq!(s2.get_held_funds(), Amount::new(1, 0));
    let (s3, _) = run(14, &[(Deposit, 1, 10000), (Withdrawal, 2, 10000), (Dispute, 1, 0)]);
    assert_eq!(s3.get_available_funds(), Amount::new(-1, 0));
    assert_eq!(s3.get_held_funds(), Amount::new(1, 0));
}

#[test]
fn dispute_of_unknown_or_disputed_id_is_rejected() {
    let (s, o) = run(15, &[(Dispute, 1, 0), (Deposit, 1, 10000), (Dispute, 1, 0), (Dispute, 1, 0)]);
    assert_eq!(o[0], Outcome::Rejected(Rejection::NotDisputable));
    assert_eq!(o[3], Outcome::Rejected(Rejection::NotDisputable));
    assert_eq!(s.get_held_funds(), Amount::new(1, 0));
}

#[test]
fn resolve_without_dispute_is_rejected() {
    let (s, o) = run(16, &[
        (Resolve, 1, 0),
        (Deposit, 1, 10000),
        (Chargeback, 1, 0),
        (Dispute, 1, 0),
        (Resolve, 1, 0),
        (Resolve, 1, 0),
        (Chargeback, 1, 0),
    ]);
    assert_eq!(o[0], Outcome::Rejected(Rejection::NotDisputed));
    assert_eq!(o[2], Outcome::Rejected(Rejection::NotDisputed));
    assert_eq!(o[5], Outcome::Rejected(Rejection::NotDisputed));
    assert_eq!(o[6], Outcome::Rejected(Rejection::NotDisputed));
    assert_eq!(s.get_available_funds(), Amount::new(1, 0));
    assert!(!s.is_locked());
}

#[test]
fn balance_beyond_limit_is_rejected() {
    let big: i128 = 1_000_000_000_000_000_000_000_000_000_000_000_000;
    let (s, o) = run(17, &[(Deposit, 1, big), (Deposit, 2, 1), (Withdrawal, 3, -1)]);
    assert_eq!(o[0], Outcome::Applied);
    assert_eq!(o[1], Outcome::Rejected(Rejection::Overflow));
    assert_eq!(o[2], Outcome::Rejected(Rejection::Overflow));
    assert_eq!(s.get_available_funds().units, big);
    assert_eq!(s.transaction_len(2), 0);
}

#[test]
fn store_opens_accounts_on_first_sight() {
    let mut store = LedgerStore::new();
    assert_eq!(store.len(), 0);
    assert!(store.get(1).is_none());
    let o = process_record(event(0, Dispute, 1, 1, 0), &mut store);
    assert_eq!(o, Outcome::Rejected(Rejection::NotDisputable));
    assert_eq!(store.len(), 1);
    process_record(event(1, Deposit, 2, 1, 30000), &mut store);
    process_record(event(2, Deposit, 1, 1, 10000), &mut store);
    process_record(event(3, Deposit, 2, 2, 20000), &mut store);
    assert_eq!(store.len(), 2);
    let one = store.get(1).unwrap();
    assert_eq!(one.get_available_funds(), Amount::new(1, 0));
    let two = store.get(2).unwrap();
    assert_eq!(two.get_available_funds(), Amount::new(5, 0));
    let snap = store.snapshot();
    assert_eq!(snap.len(), 2);
    assert_eq!(snap[0].client_id, 1);
    assert_eq!(snap[1].client_id, 2);
    assert_eq!(snap[1].total, Amount::new(5, 0));
    assert!(!snap[1].locked);
}

#[test]
fn accounts_do_not_share_transaction_ids() {
    let mut store = LedgerStore::new();
    process_record(event(0, Deposit, 1, 7, 10000), &mut store);
    let o = process_record(event(1, Deposit, 2, 7, 20000), &mut store);
    assert_eq!(o, Outcome::Applied);
    process_record(event(2, Dispute, 2, 7, 0), &mut store);
    assert_eq!(store.get(1).unwrap().get_held_funds(), Amount::zero());
    assert_eq!(store.get(2).unwrap().get_held_funds(), Amount::new(2, 0));
}

#[test]
fn scenarios_in_one_store() {
    let events = [
        (Deposit, 1, 1, 50000),
        (Deposit, 2, 1, 50000),
        (Deposit, 3, 1, 100000),
        (Deposit, 4, 1, 100000),
        (Deposit, 5, 1, 200000),
        (Deposit, 6, 1, 50000),
        (Withdrawal, 1, 2, 30000),
        (Withdrawal, 2, 2, 90000),
        (Dispute, 3, 1, 0),
        (Dispute, 4, 1, 0),
        (Withdrawal, 5, 2, 50000),
        (Deposit, 6, 1, 30000),
        (Resolve, 3, 1, 0),
        (Chargeback, 4, 1, 0),
        (Dispute, 5, 2, 0),
    ];
    let mut store = LedgerStore::new();
    for (i, (kind, client, tx, units)) in events.iter().enumerate() {
        process_record(event(i, *kind, *client, *tx, *units), &mut store);
    }
    let snap = store.snapshot();
    let expected: [(u16, i128, i128, bool); 6] = [
        (1, 20000, 0, false),
        (2, 50000, 0, false),
        (3, 100000, 0, false),
        (4, 0, 0, true),
        (5, 150000, 50000, false),
        (6, 50000, 0, false),
    ];
    assert_eq!(snap.len(), 6);
    for (line, (id, available, held, locked)) in snap.iter().zip(expected.iter()) {
        assert_eq!(line.client_id, *id);
        assert_eq!(line.available.units, *available);
        assert_eq!(line.held.units, *held);
        assert_eq!(line.total.units, available + held);
        assert_eq!(line.locked, *locked);
    }
    assert_eq!(store.get(2).unwrap().transaction_len(2), 1);
}
