//! Whole inputs, folded into accounts. Each input lists the rows that a reader
//! hands over; rows that no reader can parse never reach the ledger.

use std::str::FromStr;

use rust_decimal::Decimal;
use txreader::account::Account;
use txreader::amount::Amount;
use txreader::partition::{accounts_from_txns, txns_map_to_accounts, txns_to_map};
use txreader::transaction::{Transaction, TransactionKind};
use txreader::transaction::TransactionKind::{Chargeback, Deposit, Dispute, Resolve, Withdrawal};

/// The decimal that `text` spells, as the ledger takes it.
fn dec(text: &str) -> Amount {
    let d = Decimal::from_str(text).unwrap();
    Amount { mantissa: d.mantissa(), scale: d.scale() }
}

/// The decimal that `text` spells, in units of `10^-4`.
fn units(text: &str) -> i128 {
    let mut d = Decimal::from_str(text).unwrap();
    d.rescale(4);
    assert_eq!(d.scale(), 4);
    d.mantissa()
}

/// One row: `amount` is empty where the row carries none.
fn row(kind: TransactionKind, client_id: u16, tx_id: u32, amount: &str) -> Transaction {
    let amount = if amount.is_empty() { None } else { Some(dec(amount)) };
    Transaction { kind, client_id, tx_id, amount }
}

/// The rows with their places.
fn events(rows: Vec<Transaction>) -> Vec<(usize, Transaction)> {
    rows.into_iter().enumerate().collect()
}

fn account(client_id: u16, available: &str, held: &str, total: &str, locked: bool) -> Account {
    Account {
        client_id,
        available: units(available),
        held: units(held),
        total: units(total),
        locked,
    }
}

#[test]
fn test_read_txns_map() {
    /*
     * Given
     */
    let txns = vec![
        (0, row(Deposit, 1, 1, "1.0")),
        (1, row(Deposit, 2, 2, "2.0")),
        (2, row(Deposit, 1, 3, "2.0")),
        (3, row(Withdrawal, 1, 4, "1.5")),
        (4, row(Withdrawal, 2, 5, "3.0")),
        (5, row(Dispute, 4, 4, "")),
        (6, row(Resolve, 4, 4, "")),
        (7, row(Chargeback, 5, 5, "")),
    ];

    /*
     * When
     */
    let mut txns_map = txns_to_map(txns);

    /*
     * Then
     */
    txns_map.iter_mut().for_each(|(_k, v)| v.sort_by_key(|(i, _)| *i));
    let get = |client_id: u16| {
        txns_map.iter().find(|(k, _)| *k == client_id).map(|(_, v)| v.clone())
    };
    assert_eq!(get(1), Some(vec![ (0, Transaction{ kind: Deposit, client_id: 1, tx_id: 1, amount: Some(dec("1.0")) })
                                , (2, Transaction{ kind: Deposit, client_id: 1, tx_id: 3, amount: Some(dec("2.0")) })
                                , (3, Transaction{ kind: Withdrawal, client_id: 1, tx_id: 4, amount: Some(dec("1.5")) })
                                ]));
    assert_eq!(get(2), Some(vec![ (1, Transaction{ kind: Deposit, client_id: 2, tx_id: 2, amount: Some(dec("2.0")) })
                                , (4, Transaction{ kind: Withdrawal, client_id: 2, tx_id: 5, amount: Some(dec("3.0")) })
                                ]));
    assert_eq!(get(3), None);
    assert_eq!(get(4), Some(vec![ (5, Transaction{ kind: Dispute, client_id: 4, tx_id: 4, amount: None })
                                , (6, Transaction{ kind: Resolve, client_id: 4, tx_id: 4, amount: None })
                                ]));
    assert_eq!(get(5), Some(vec![ (7, Transaction{ kind: Chargeback, client_id: 5, tx_id: 5, amount: None })
                                ]));
}

#[test]
fn test_txns_map_to_accounts() {
    /*
     * Given
     */
    let txns =
        vec![ (1, vec![ (1,  Transaction{ kind: Deposit,    client_id: 1, tx_id: 1,   amount: Some(dec("1.00001")) }) // +1
                      , (3,  Transaction{ kind: Deposit,    client_id: 1, tx_id: 3,   amount: Some(dec("2.0")) }) // +2
                      , (4,  Transaction{ kind: Withdrawal, client_id: 1, tx_id: 4,   amount: Some(dec("1.5")) }) // -1.5
                      , (5,  Transaction{ kind: Withdrawal, client_id: 1, tx_id: 4,   amount: Some(dec("10.0")) }) // ignore
                      , (6,  Transaction{ kind: Resolve,    client_id: 1, tx_id: 3,   amount: None }) // ignore
                      , (6,  Transaction{ kind: Chargeback, client_id: 1, tx_id: 3,   amount: None }) // ignore
                      , (7,  Transaction{ kind: Dispute,    client_id: 1, tx_id: 3,   amount: None }) // hold 2
                      , (8,  Transaction{ kind: Dispute,    client_id: 1, tx_id: 3,   amount: None }) // ignore
                      , (9,  Transaction{ kind: Dispute,    client_id: 1, tx_id: 100, amount: None }) // ignore
                      , (10, Transaction{ kind: Resolve,    client_id: 1, tx_id: 3,   amount: None }) // release 2
                      , (11, Transaction{ kind: Dispute,    client_id: 1, tx_id: 4,   amount: None }) // hold 1.5
                      , (12, Transaction{ kind: Chargeback, client_id: 1, tx_id: 4,   amount: None }) // revert 1.5, freeze
                      , (13, Transaction{ kind: Deposit,    client_id: 1, tx_id: 5,   amount: Some(dec("2.0")) }) // ignore
                      ])
            , (2, vec![ (14, Transaction{ kind: Deposit,    client_id: 2, tx_id: 101, amount: Some(dec("5.0")) }) // +5
                      , (15, Transaction{ kind: Deposit,    client_id: 2, tx_id: 102, amount: Some(dec("10.0")) }) // +10
                      , (16, Transaction{ kind: Withdrawal, client_id: 2, tx_id: 103, amount: Some(dec("1.5")) }) // -1.5
                      , (17, Transaction{ kind: Withdrawal, client_id: 2, tx_id: 104, amount: Some(dec("10.0")) }) // -10
                      , (18, Transaction{ kind: Resolve,    client_id: 2, tx_id: 103, amount: None }) // ignore
                      , (19, Transaction{ kind: Chargeback, client_id: 2, tx_id: 103, amount: None }) // ignore
                      , (20, Transaction{ kind: Dispute,    client_id: 2, tx_id: 102, amount: None }) // hold 10
                      , (21, Transaction{ kind: Dispute,    client_id: 2, tx_id: 101, amount: None }) // hold 5
                      , (22, Transaction{ kind: Dispute,    client_id: 2, tx_id: 102, amount: None }) // ignore
                      , (23, Transaction{ kind: Resolve,    client_id: 2, tx_id: 101, amount: None }) // release 5
                      , (24, Transaction{ kind: Dispute,    client_id: 2, tx_id: 101, amount: None }) // hold 5
                      , (25, Transaction{ kind: Chargeback, client_id: 2, tx_id: 102, amount: None }) // revert 10, freeze
                      , (26, Transaction{ kind: Deposit,    client_id: 2, tx_id: 105, amount: Some(dec("20.0")) }) // ignore
                      ])
            ];
    /*
     * When
     */
    let mut accounts = txns_map_to_accounts(txns);

    /*
     * Then
     */
    accounts.sort_by_key(|a| a.client_id);
    // The deposit of 1.00001 is applied at four fractional digits, as 1.0000.
    assert_eq!(accounts, vec![ account(1, "3.0000", "0.0", "3.0000", true)
                             , account(2, "-11.5", "5.0", "-6.5", true)
                             ]);
}

#[test]
fn test_accounts_from_path_deposit() {
    /*
     * Given
     */
    let txns = events(vec![
        row(Deposit, 1, 1, "1.0001"),
        row(Deposit, 1, 2, "+10000"),
        row(Deposit, 1, 3, "-500.0"),
        row(Deposit, 1, 6, "0.00004"),
    ]);

    /*
     * When
     */
    let accounts = accounts_from_txns(txns);

    /*
     * Then
     */
    assert_eq!(accounts, vec![account(1, "10001.0001", "0.0", "10001.0001", false)]);
}

#[test]
fn test_accounts_from_path_withdrawal() {
    /*
     * Given
     */
    let txns = events(vec![
        row(Deposit, 1, 1, "+10000"),
        row(Withdrawal, 1, 2, "1"),
        row(Withdrawal, 1, 3, "-1"),
        row(Withdrawal, 1, 4, "2.0002"),
        row(Withdrawal, 1, 5, "3.00009"),
        row(Withdrawal, 1, 9, "900000.0"),
    ]);

    /*
     * When
     */
    let accounts = accounts_from_txns(txns);

    /*
     * Then
     */
    assert_eq!(accounts, vec![account(1, "9993.9997", "0.0", "9993.9997", false)]);
}

#[test]
fn test_accounts_from_path_dispute() {
    /*
     * Given
     */
    let txns = events(vec![
        row(Deposit, 1, 1, "10000.0"),
        row(Deposit, 1, 2, "2000.0002"),
        row(Deposit, 1, 3, "300.00003"),
        row(Deposit, 1, 8, "8"),
        row(Withdrawal, 1, 4, "4"),
        row(Withdrawal, 1, 5, "5.0005"),
        row(Withdrawal, 1, 6, "6.0006"),
        row(Withdrawal, 1, 7, "7.00007"),
        row(Withdrawal, 1, 999, "70000.0"),
        row(Dispute, 1, 1, ""),
        row(Dispute, 1, 2, ""),
        row(Dispute, 1, 3, ""),
        row(Dispute, 1, 4, ""),
        row(Dispute, 1, 5, ""),
        row(Dispute, 1, 6, ""),
        row(Dispute, 1, 6, ""),
        row(Dispute, 1, 6, ""),
        row(Dispute, 1, 100, ""),
        row(Dispute, 1, 999, ""),
        row(Dispute, 1, 999, ""),
        row(Dispute, 1, 1000, "10000.0"),
        row(Dispute, 2, 1, ""),
    ]);

    /*
     * When
     */
    let mut accounts = accounts_from_txns(txns);

    /*
     * Then
     */
    accounts.sort_by_key(|a| a.client_id);
    assert_eq!(accounts, vec![ account(1, "-14.0012", "12315.0013", "12301.0001", false)
                             , account(2, "0", "0", "0", false)
                             ]);
}

#[test]
fn test_accounts_from_path_resolve() {
    /*
     * Given
     */
    let txns = events(vec![
        row(Deposit, 1, 1, "10000.0"),
        row(Deposit, 1, 2, "2000.0002"),
        row(Deposit, 1, 3, "300.00003"),
        row(Deposit, 1, 8, "8"),
        row(Withdrawal, 1, 4, "4"),
        row(Withdrawal, 1, 5, "5.0005"),
        row(Withdrawal, 1, 6, "6.0006"),
        row(Withdrawal, 1, 7, "7.00007"),
        row(Withdrawal, 1, 999, "70000.0"),
        row(Dispute, 1, 1, ""),
        row(Dispute, 1, 1, ""),
        row(Dispute, 1, 1, ""),
        row(Resolve, 1, 1, ""),
        row(Resolve, 1, 1, ""),
        row(Dispute, 1, 1, ""),
        row(Dispute, 1, 2, ""),
        row(Dispute, 1, 3, ""),
        row(Dispute, 1, 4, ""),
        row(Dispute, 1, 5, ""),
        row(Dispute, 1, 6, ""),
        row(Dispute, 1, 6, ""),
        row(Dispute, 1, 6, ""),
        row(Resolve, 1, 1, ""),
        row(Resolve, 1, 2, ""),
        row(Resolve, 1, 3, ""),
        row(Resolve, 1, 4, ""),
        row(Resolve, 1, 5, ""),
        row(Resolve, 1, 6, ""),
        row(Resolve, 1, 7, ""),
        row(Resolve, 1, 100, ""),
        row(Resolve, 1, 999, ""),
        row(Resolve, 1, 999, ""),
        row(Resolve, 1, 1000, "10000.0"),
        row(Resolve, 2, 1, ""),
    ]);

    /*
     * When
     */
    let mut accounts = accounts_from_txns(txns);

    /*
     * Then
     */
    accounts.sort_by_key(|a| a.client_id);
    assert_eq!(accounts, vec![ account(1, "12285.9990", "0", "12285.999", false)
                             , account(2, "0", "0", "0", false)
                             ]);
}

#[test]
fn test_accounts_from_path_chargeback() {
    /*
     * Given
     */
    let txns = events(vec![
        row(Deposit, 1, 1, "10000.0"),
        row(Deposit, 1, 2, "2000.0002"),
        row(Deposit, 1, 3, "300.00003"),
        row(Deposit, 1, 8, "8"),
        row(Withdrawal, 1, 4, "4"),
        row(Withdrawal, 1, 5, "5.0005"),
        row(Withdrawal, 1, 6, "6.0006"),
        row(Withdrawal, 1, 7, "7.00007"),
        row(Withdrawal, 1, 998, "70000.0"),
        row(Deposit, 1, 999, "998.998"),
        row(Dispute, 1, 1, ""),
        row(Resolve, 1, 1, ""),
        row(Dispute, 1, 1, ""),
        row(Dispute, 1, 2, ""),
        row(Dispute, 1, 3, ""),
        row(Dispute, 1, 4, ""),
        row(Dispute, 1, 5, ""),
        row(Dispute, 1, 6, ""),
        row(Chargeback, 1, 1, ""),
        row(Chargeback, 1, 1, ""),
        row(Chargeback, 1, 2, ""),
        row(Chargeback, 1, 3, ""),
        row(Chargeback, 1, 4, ""),
        row(Chargeback, 1, 5, ""),
        row(Chargeback, 1, 6, ""),
        row(Chargeback, 1, 6, ""),
        row(Chargeback, 1, 6, ""),
        row(Chargeback, 1, 6, ""),
        row(Chargeback, 1, 998, ""),
        row(Chargeback, 1, 999, ""),
        row(Chargeback, 1, 1000, ""),
        row(Chargeback, 1, 1000, "10000.0"),
        row(Chargeback, 2, 1, ""),
    ]);

    /*
     * When
     */
    let mut accounts = accounts_from_txns(txns);

    /*
     * Then
     */
    accounts.sort_by_key(|a| a.client_id);
    assert_eq!(accounts, vec![ account(1, "999.9979", "0", "999.9979", true)
                             , account(2, "0", "0", "0", false)
                             ]);
}

#[test]
fn test_accounts_from_path_withdraw_too_much() {
    /*
     * Given
     */
    let txns = events(vec![
        row(Withdrawal, 1, 1, "50"),
        row(Deposit, 1, 2, "300"),
        row(Dispute, 1, 2, ""),
        row(Deposit, 1, 3, "100"),
        row(Withdrawal, 1, 4, "200"),
    ]);

    /*
     * When
     */
    let accounts = accounts_from_txns(txns);

    /*
     * Then
     */
    assert_eq!(accounts, vec![account(1, "100", "300", "400", false)]);
}

#[test]
fn test_accounts_from_path_dispute_deposit() {
    /*
     * Given
     */
    let txns = events(vec![
        row(Deposit, 1, 1, "100"),
        row(Dispute, 1, 1, ""),
        row(Resolve, 1, 1, ""),
        row(Dispute, 1, 1, ""),
        row(Dispute, 1, 1, ""),
        row(Dispute, 1, 2, ""),
    ]);

    /*
     * When
     */
    let accounts = accounts_from_txns(txns);

    /*
     * Then
     */
    assert_eq!(accounts, vec![account(1, "0", "100", "100", false)]);
}

#[test]
fn test_accounts_from_path_dispute_withdrawal() {
    /*
     * Given
     */
    let txns = events(vec![
        row(Deposit, 1, 1, "100"),
        row(Withdrawal, 1, 2, "50"),
        row(Dispute, 1, 2, ""),
        row(Resolve, 1, 2, ""),
        row(Dispute, 1, 2, ""),
        row(Dispute, 1, 2, ""),
        row(Dispute, 1, 2, ""),
    ]);

    /*
     * When
     */
    let accounts = accounts_from_txns(txns);

    /*
     * Then
     */
    assert_eq!(accounts, vec![account(1, "50", "50", "100", false)]);
}

#[test]
fn test_accounts_from_path_resolve_many_times() {
    /*
     * Given
     */
    let txns = events(vec![
        row(Deposit, 1, 1, "100"),
        row(Dispute, 1, 1, ""),
        row(Resolve, 1, 1, ""),
        row(Resolve, 1, 1, ""),
        row(Resolve, 1, 2, ""),
    ]);

    /*
     * When
     */
    let accounts = accounts_from_txns(txns);

    /*
     * Then
     */
    assert_eq!(accounts, vec![account(1, "100", "0", "100", false)]);
}

#[test]
fn test_accounts_from_path_chargeback_deposit() {
    /*
     * Given
     */
    let txns = events(vec![
        row(Deposit, 1, 1, "100"),
        row(Dispute, 1, 1, ""),
        row(Chargeback, 1, 1, ""),
        row(Chargeback, 1, 1, ""),
        row(Chargeback, 1, 2, ""),
        row(Resolve, 1, 1, ""),
    ]);

    /*
     * When
     */
    let accounts = accounts_from_txns(txns);

    /*
     * Then
     */
    assert_eq!(accounts, vec![account(1, "0", "0", "0", true)]);
}

#[test]
fn test_accounts_from_path_chargeback_withdrawal() {
    /*
     * Given
     */
    let txns = events(vec![
        row(Deposit, 1, 1, "100"),
        row(Withdrawal, 1, 2, "50"),
        row(Dispute, 1, 2, ""),
        row(Chargeback, 1, 2, ""),
        row(Chargeback, 1, 2, ""),
        row(Chargeback, 1, 3, ""),
        row(Resolve, 1, 2, ""),
    ]);

    /*
     * When
     */
    let accounts = accounts_from_txns(txns);

    /*
     * Then
     */
    assert_eq!(accounts, vec![account(1, "100", "0", "100", true)]);
}

#[test]
fn test_accounts_from_path_withdraw_from_locked_account() {
    /*
     * Given
     */
    let txns = events(vec![
        row(Deposit, 1, 1, "100"),
        row(Dispute, 1, 1, ""),
        row(Chargeback, 1, 1, ""),
        row(Withdrawal, 1, 2, "50"),
    ]);

    /*
     * When
     */
    let accounts = accounts_from_txns(txns);

    /*
     * Then
     */
    assert_eq!(accounts, vec![account(1, "0", "0", "0", true)]);
}

#[test]
fn test_accounts_from_path_deposit_to_locked_account() {
    /*
     * Given
     */
    let txns = events(vec![
        row(Deposit, 1, 1, "100"),
        row(Dispute, 1, 1, ""),
        row(Chargeback, 1, 1, ""),
        row(Deposit, 1, 2, "50"),
    ]);

    /*
     * When
     */
    let accounts = accounts_from_txns(txns);

    /*
     * Then
     */
    assert_eq!(accounts, vec![account(1, "0", "0", "0", true)]);
}

#[test]
fn test_accounts_from_path_resolve_locked_account() {
    /*
     * Given
     */
    let txns = events(vec![
        row(Deposit, 1, 1, "100"),
        row(Dispute, 1, 1, ""),
        row(Chargeback, 1, 1, ""),
        row(Resolve, 1, 1, ""),
    ]);

    /*
     * When
     */
    let accounts = accounts_from_txns(txns);

    /*
     * Then
     */
    assert_eq!(accounts, vec![account(1, "0", "0", "0", true)]);
}
