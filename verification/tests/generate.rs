//! Generated lists of records.

use txreader::amount::Amount;
use txreader::generate::{drawn_amount, drawn_kind, generate_txns, random_txn};
use txreader::partition::accounts_from_txns;
use txreader::transaction::TransactionKind::{Chargeback, Deposit, Dispute, Resolve, Withdrawal};
use txreader::transaction::Transaction;

/// What holds of every record of a generated list.
fn may_follow(earlier: &[Transaction], num_clients: u16, txn: &Transaction) -> bool {
    match txn.kind {
        Deposit | Withdrawal => {
            1 <= txn.client_id
                && txn.client_id <= num_clients
                && match txn.amount {
                    Some(Amount { mantissa, scale }) => {
                        scale == 4 && 0 <= mantissa && mantissa <= i64::MAX as i128
                    }
                    None => false,
                }
        }
        Dispute | Resolve | Chargeback => {
            txn.amount.is_none()
                && earlier.iter().any(|e| e.client_id == txn.client_id && e.tx_id == txn.tx_id)
        }
    }
}

#[test]
fn a_draw_stands_for_a_kind() {
    assert_eq!(drawn_kind(true, 0), Deposit);
    assert_eq!(drawn_kind(true, 1), Withdrawal);
    assert_eq!(drawn_kind(true, 2), Dispute);
    assert_eq!(drawn_kind(true, 3), Resolve);
    assert_eq!(drawn_kind(true, 4), Chargeback);
    assert_eq!(drawn_kind(true, 5), Chargeback);
    assert_eq!(drawn_kind(true, u16::MAX), Chargeback);
}

#[test]
fn without_an_earlier_record_a_draw_is_a_deposit_or_a_withdrawal() {
    assert_eq!(drawn_kind(false, 0), Deposit);
    assert_eq!(drawn_kind(false, 1), Withdrawal);
    assert_eq!(drawn_kind(false, 2), Withdrawal);
    assert_eq!(drawn_kind(false, 4), Withdrawal);
}

#[test]
fn a_drawn_amount_is_a_magnitude() {
    assert_eq!(drawn_amount(0), 0);
    assert_eq!(drawn_amount(17), 17);
    assert_eq!(drawn_amount(-17), 17);
    assert_eq!(drawn_amount(i64::MAX), i64::MAX);
    assert_eq!(drawn_amount(i64::MIN + 1), i64::MAX);
    assert_eq!(drawn_amount(i64::MIN), i64::MAX);
}

#[test]
fn the_first_record_is_a_deposit_or_a_withdrawal() {
    for _ in 0..200 {
        let t = random_txn(&vec![], 3);
        assert!(t.kind == Deposit || t.kind == Withdrawal);
        assert!(may_follow(&[], 3, &t));
    }
}

#[test]
fn with_one_client_every_deposit_is_that_client_s() {
    for t in generate_txns(300, 1) {
        assert_eq!(t.client_id, 1);
    }
}

#[test]
fn a_generated_list_has_the_length_asked_for() {
    assert_eq!(generate_txns(0, 0).len(), 0);
    assert_eq!(generate_txns(0, 5).len(), 0);
    assert_eq!(generate_txns(1, 5).len(), 1);
    assert_eq!(generate_txns(2_000, 100).len(), 2_000);
}

#[test]
fn every_generated_record_fits_what_came_before() {
    for num_clients in [1u16, 2, 100, u16::MAX] {
        let txns = generate_txns(3_000, num_clients);
        for k in 0..txns.len() {
            assert!(may_follow(&txns[..k], num_clients, &txns[k]));
        }
    }
}

#[test]
fn a_generated_list_holds_every_kind() {
    let txns = generate_txns(5_000, 10);
    for kind in [Deposit, Withdrawal, Dispute, Resolve, Chargeback] {
        assert!(txns.iter().any(|t| t.kind == kind));
    }
}

#[test]
fn a_generated_list_folds_into_balanced_accounts() {
    let txns = generate_txns(5_000, 20);
    let accounts = accounts_from_txns(txns.into_iter().enumerate().collect());
    assert!(!accounts.is_empty());
    for a in accounts {
        assert_eq!(a.total, a.available + a.held);
        assert!(1 <= a.client_id && a.client_id <= 20);
    }
}
