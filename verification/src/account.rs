//! The balance record of one client.

use vstd::prelude::*;
use crate::amount::in_range;

verus! {

/// The balances of one client, each in units of `10^-4`.
#[derive(Clone, Copy, Debug, PartialEq, Eq, Structural)]
pub struct Account {
    pub client_id: u16,
    /// Funds the client can withdraw.
    pub available: i128,
    /// Funds set aside while a transaction is under dispute.
    pub held: i128,
    /// `available + held`.
    pub total: i128,
    /// Set by a chargeback, and never cleared.
    pub locked: bool,
}

impl Account {
    /// Whether the total is the sum of the two other balances.
    pub open spec fn balanced(self) -> bool {
        self.total == self.available + self.held
    }

    /// The accounts a ledger produces: balanced, each balance a decimal of
    /// four fractional digits.
    pub open spec fn wf(self) -> bool {
        &&& self.balanced()
        &&& in_range(self.available as int)
        &&& in_range(self.held as int)
        &&& in_range(self.total as int)
    }

    /// The account of a client of whom nothing is known yet.
    pub open spec fn empty(client_id: u16) -> Account {
        Account { client_id, available: 0, held: 0, total: 0, locked: false }
    }

    /// An empty, unlocked account.
    pub fn new(client_id: u16) -> (account: Account)
        ensures
            account == Account::empty(client_id),
            account.wf(),
    {
        Account { client_id, available: 0, held: 0, total: 0, locked: false }
    }
}

/// Why a record was not applied.
#[derive(Clone, Copy, Debug, PartialEq, Eq, Structural)]
pub enum Rejection {
    /// A deposit or withdrawal on a locked account.
    LockedAccount,
    /// A deposit or withdrawal without an amount, or with one that is not a
    /// decimal or not above zero.
    InvalidAmount,
    /// A withdrawal of more than is available.
    InsufficientFunds,
    /// A dispute, resolve or chargeback that names no accepted deposit or
    /// withdrawal.
    UnknownReference,
    /// A dispute of what is under dispute or was charged back; a resolve or
    /// chargeback of what is not under dispute.
    InvalidTransition,
    /// A balance would leave the range of a decimal of four digits.
    OutOfRange,
}

} // verus!
