//! Random lists of records, for trying the ledger on.
//!
//! A list is built record by record. A deposit or a withdrawal gets a client,
//! a transaction id and an amount by chance; a dispute, a resolve or a
//! chargeback refers to a record that the list already holds. What chance
//! decides comes from `rand`; what is made of it is decided here.

use vstd::prelude::*;
use rand::seq::SliceRandom;
use rand::Rng;
use crate::amount::PRECISION;
use crate::transaction::{Transaction, TransactionKind};

verus! {

/// The kind that a draw stands for. Where the list holds a record to refer
/// to, the draws from 0 to 4 stand for the five kinds; where it holds none,
/// a record can only be a deposit or a withdrawal.
pub open spec fn kind_of_draw(has_earlier: bool, draw: u16) -> TransactionKind {
    if draw == 0 {
        TransactionKind::Deposit
    } else if draw == 1 || !has_earlier {
        TransactionKind::Withdrawal
    } else if draw == 2 {
        TransactionKind::Dispute
    } else if draw == 3 {
        TransactionKind::Resolve
    } else {
        TransactionKind::Chargeback
    }
}

/// The magnitude of `x`, or `i64::MAX` where the magnitude does not fit.
pub open spec fn magnitude(x: i64) -> i64 {
    if x == i64::MIN {
        i64::MAX
    } else if x < 0 {
        (-x) as i64
    } else {
        x
    }
}

/// Whether `txn` can come next in a generated list that holds `earlier`: a
/// deposit or withdrawal belongs to one of the clients `1..=num_clients` and
/// carries a number of units that is not below zero; any other record carries
/// no amount and names the client and the transaction id of a record of
/// `earlier`.
pub open spec fn may_follow(earlier: Seq<Transaction>, num_clients: u16, txn: Transaction) -> bool {
    if txn.kind.moves_funds() {
        &&& 1 <= txn.client_id <= num_clients
        &&& txn.amount is Some
        &&& txn.amount.unwrap().scale == PRECISION
        &&& 0 <= txn.amount.unwrap().mantissa <= i64::MAX
    } else {
        &&& txn.amount is None
        &&& exists|i: int|
            0 <= i < earlier.len() && (#[trigger] earlier[i]).client_id == txn.client_id
                && earlier[i].tx_id == txn.tx_id
    }
}

/// The kind that a draw stands for.
pub fn drawn_kind(has_earlier: bool, draw: u16) -> (kind: TransactionKind)
    ensures
        kind == kind_of_draw(has_earlier, draw),
{
    if draw == 0 {
        TransactionKind::Deposit
    } else if draw == 1 || !has_earlier {
        TransactionKind::Withdrawal
    } else if draw == 2 {
        TransactionKind::Dispute
    } else if draw == 3 {
        TransactionKind::Resolve
    } else {
        TransactionKind::Chargeback
    }
}

/// The number of units that a draw stands for: its magnitude.
pub fn drawn_amount(draw: i64) -> (units: i64)
    ensures
        units == magnitude(draw),
        units >= 0,
{
    if draw == i64::MIN {
        i64::MAX
    } else if draw < 0 {
        -draw
    } else {
        draw
    }
}

/// One record to add to `acc`, made by chance.
pub fn random_txn(acc: &Vec<Transaction>, num_clients: u16) -> (txn: Transaction)
    requires
        num_clients >= 1,
    ensures
        may_follow(acc@, num_clients, txn),
{
    let referenced: Option<Transaction> = random_choice(acc);
    let kind = match referenced {
        Some(_) => drawn_kind(true, random_in_range(0, 4)),
        None => drawn_kind(false, random_in_range(0, 1)),
    };
    match (kind, referenced) {
        (TransactionKind::Dispute, Some(earlier)) => Transaction::new(
            kind,
            earlier.client_id,
            earlier.tx_id,
            None,
        ),
        (TransactionKind::Resolve, Some(earlier)) => Transaction::new(
            kind,
            earlier.client_id,
            earlier.tx_id,
            None,
        ),
        (TransactionKind::Chargeback, Some(earlier)) => Transaction::new(
            kind,
            earlier.client_id,
            earlier.tx_id,
            None,
        ),
        _ => Transaction::new(
            kind,
            random_in_range(1, num_clients),
            random_u32(),
            Some(drawn_amount(random_i64())),
        ),
    }
}

/// A list of `num_txns` records, made by chance, among `num_clients` clients.
pub fn generate_txns(num_txns: u32, num_clients: u16) -> (txns: Vec<Transaction>)
    requires
        num_txns == 0 || num_clients >= 1,
    ensures
        txns.len() == num_txns,
        forall|k: int|
            0 <= k < txns.len() ==> may_follow(txns@.take(k), num_clients, #[trigger] txns[k]),
{
    let mut txns: Vec<Transaction> = Vec::new();
    let mut i: u32 = 0;
    while i < num_txns
        invariant
            i <= num_txns,
            num_clients >= 1 || num_txns == 0,
            txns.len() == i,
            forall|k: int|
                0 <= k < txns.len() ==> may_follow(txns@.take(k), num_clients, #[trigger] txns[k]),
        decreases num_txns - i,
    {
        let ghost before = txns@;
        let txn = random_txn(&txns, num_clients);
        txns.push(txn);
        i = i + 1;
        proof {
            assert forall|k: int| 0 <= k < txns.len() implies may_follow(
                txns@.take(k),
                num_clients,
                #[trigger] txns[k],
            ) by {
                assert(txns@.take(k) =~= before.take(k));
                if k == before.len() {
                    assert(before.take(k) =~= before);
                }
            }
        }
    }
    txns
}

/// One element of `acc`, picked by `rand::seq::SliceRandom::choose` with the
/// thread's generator.
///
/// Trusted: an empty list gives `None`, any other gives one of its elements.
#[verifier::external_body]
fn random_choice(acc: &Vec<Transaction>) -> (r: Option<Transaction>)
    ensures
        acc.len() == 0 ==> r is None,
        acc.len() > 0 ==> r is Some && acc@.contains(r.unwrap()),
{
    acc.choose(&mut rand::thread_rng()).copied()
}

/// A number from `low` to `high`, both included, drawn by
/// `rand::Rng::gen_range` from the thread's generator.
///
/// Trusted: the number lies in the range. An empty range is left out: the
/// call panics on it.
#[verifier::external_body]
fn random_in_range(low: u16, high: u16) -> (r: u16)
    requires
        low <= high,
    ensures
        low <= r <= high,
{
    rand::thread_rng().gen_range(low..=high)
}

/// Any `u32`, drawn by `rand::Rng::gen` from the thread's generator.
#[verifier::external_body]
fn random_u32() -> u32 {
    rand::thread_rng().gen::<u32>()
}

/// Any `i64`, drawn by `rand::Rng::gen` from the thread's generator.
#[verifier::external_body]
fn random_i64() -> i64 {
    rand::thread_rng().gen::<i64>()
}

} // verus!
