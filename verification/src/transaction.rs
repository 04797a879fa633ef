//! One record of the input stream.

use vstd::prelude::*;
use crate::amount::{Amount, PRECISION};

verus! {

/// What a record asks for.
#[derive(Clone, Copy, Debug, PartialEq, Eq, Structural)]
pub enum TransactionKind {
    Deposit,
    Withdrawal,
    Dispute,
    Resolve,
    Chargeback,
}

impl TransactionKind {
    /// The kinds that move funds in or out and can later be disputed.
    pub open spec fn moves_funds(self) -> bool {
        self == TransactionKind::Deposit || self == TransactionKind::Withdrawal
    }
}

/// One record: what is asked, for which client, under which transaction id,
/// and, for a deposit or a withdrawal, how much.
#[derive(Clone, Copy, Debug, PartialEq, Eq, Structural)]
pub struct Transaction {
    pub kind: TransactionKind,
    pub client_id: u16,
    pub tx_id: u32,
    pub amount: Option<Amount>,
}

impl Transaction {
    /// A record whose amount, where there is one, is `a` units of `10^-4`.
    pub fn new(kind: TransactionKind, client_id: u16, tx_id: u32, a: Option<i64>) -> (txn:
        Transaction)
        ensures
            txn.kind == kind,
            txn.client_id == client_id,
            txn.tx_id == tx_id,
            txn.amount == match a {
                Some(x) => Some((Amount { mantissa: x as i128, scale: PRECISION })),
                None => None,
            },
    {
        let amount = match a {
            Some(x) => Some(Amount::from_units(x)),
            None => None,
        };
        Transaction { kind, client_id, tx_id, amount }
    }
}

/// A record with the place it had in the input.
pub type Event = (usize, Transaction);

/// The records of `events`, without their places.
pub open spec fn txns_of(events: Seq<Event>) -> Seq<Transaction> {
    events.map_values(|e: Event| e.1)
}

} // verus!
