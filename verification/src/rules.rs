//! The rules of the ledger, as a model.
//!
//! The state of a ledger is the account of one client and the log of the
//! records that it has accepted. [`transition`] says what a record does to
//! the account, or why it is rejected. A record that is rejected changes
//! nothing and is not logged, so nothing can refer to it later.
//!
//! Some choices are made here.
//!
//! - A dispute of a withdrawal sets the withdrawn funds aside again: they are
//!   added to `held` and to `total`. A resolve takes them out again, and a
//!   chargeback moves them to `available`.
//! - A locked account refuses deposits and withdrawals only: disputes,
//!   resolves and chargebacks of what it accepted earlier are still applied.
//! - A deposit or withdrawal must be above zero before it is rounded; one
//!   that rounds to nothing is accepted and moves nothing. A withdrawal is
//!   measured against the available funds before it is rounded, too.
//! - A dispute, resolve or chargeback is read by its transaction id alone: an
//!   amount that it carries is passed over.
//! - A balance is a decimal of four fractional digits and 96 bits. A record
//!   that would take a balance out of that range is rejected like any other.

use vstd::prelude::*;
use crate::account::{Account, Rejection};
use crate::amount::{in_range, Amount};
use crate::transaction::{txns_of, Event, Transaction, TransactionKind};

verus! {

/// The accepted records, by the transaction id they carry, each list in the
/// order of acceptance.
pub type Log = Map<u32, Seq<Transaction>>;

/// How many of `entries` are of `kind`.
pub open spec fn count_kind(entries: Seq<Transaction>, kind: TransactionKind) -> nat
    decreases entries.len(),
{
    if entries.len() == 0 {
        0
    } else {
        count_kind(entries.drop_last(), kind) + if entries.last().kind == kind {
            1nat
        } else {
            0nat
        }
    }
}

/// Whether a chargeback is among `entries`.
pub open spec fn charged_back(entries: Seq<Transaction>) -> bool {
    count_kind(entries, TransactionKind::Chargeback) > 0
}

/// Whether the transaction that `entries` belong to is under dispute: more
/// disputes than resolves were accepted for it, and no chargeback.
pub open spec fn under_dispute(entries: Seq<Transaction>) -> bool {
    &&& count_kind(entries, TransactionKind::Dispute) > count_kind(
        entries,
        TransactionKind::Resolve,
    )
    &&& !charged_back(entries)
}

/// The first deposit or withdrawal among `entries`.
pub open spec fn first_funding(entries: Seq<Transaction>) -> Option<Transaction>
    decreases entries.len(),
{
    if entries.len() == 0 {
        None
    } else {
        match first_funding(entries.drop_last()) {
            Some(t) => Some(t),
            None => if entries.last().kind.moves_funds() {
                Some(entries.last())
            } else {
                None
            },
        }
    }
}

/// What a dispute of the transaction behind `entries` is about: whether its
/// first deposit or withdrawal was a deposit, and how many units it moved.
/// `None` where there is no such record, or it carries no amount that could
/// have been applied.
pub open spec fn disputed(entries: Seq<Transaction>) -> Option<(TransactionKind, int)> {
    match first_funding(entries) {
        Some(t) => if payable(t.amount) {
            Some((t.kind, t.amount.unwrap().units()))
        } else {
            None
        },
        None => None,
    }
}

/// `account` with the three balances and the lock set as given, if the
/// balances are in range.
pub open spec fn moved(account: Account, available: int, held: int, total: int, locked: bool)
    -> Result<Account, Rejection> {
    if in_range(available) && in_range(held) && in_range(total) {
        Ok(
            Account {
                client_id: account.client_id,
                available: available as i128,
                held: held as i128,
                total: total as i128,
                locked,
            },
        )
    } else {
        Err(Rejection::OutOfRange)
    }
}

/// The amount of a deposit or withdrawal that can be applied: a decimal above
/// zero.
pub open spec fn payable(amount: Option<Amount>) -> bool {
    match amount {
        Some(a) => a.valid() && a.mantissa > 0,
        None => false,
    }
}

/// A deposit adds its rounded amount to `available` and `total`.
pub open spec fn deposit(account: Account, amount: Option<Amount>) -> Result<Account, Rejection> {
    if account.locked {
        Err(Rejection::LockedAccount)
    } else if !payable(amount) {
        Err(Rejection::InvalidAmount)
    } else {
        let units = amount.unwrap().units();
        moved(account, account.available + units, account.held as int, account.total + units, false)
    }
}

/// A withdrawal takes its rounded amount from `available` and `total`, if the
/// amount as it was given is available.
pub open spec fn withdrawal(account: Account, amount: Option<Amount>) -> Result<
    Account,
    Rejection,
> {
    if account.locked {
        Err(Rejection::LockedAccount)
    } else if !payable(amount) {
        Err(Rejection::InvalidAmount)
    } else if !amount.unwrap().covered_by(account.available as int) {
        Err(Rejection::InsufficientFunds)
    } else {
        let units = amount.unwrap().units();
        moved(account, account.available - units, account.held as int, account.total - units, false)
    }
}

/// A dispute sets the funds of a transaction aside. Those of a deposit move
/// from `available` to `held`; those of a withdrawal are added to `held` and
/// `total`.
pub open spec fn dispute(account: Account, log: Log, tx_id: u32) -> Result<Account, Rejection> {
    if !log.contains_key(tx_id) {
        Err(Rejection::UnknownReference)
    } else {
        match disputed(log[tx_id]) {
            None => Err(Rejection::UnknownReference),
            Some((kind, units)) => if under_dispute(log[tx_id]) || charged_back(log[tx_id]) {
                Err(Rejection::InvalidTransition)
            } else if kind == TransactionKind::Deposit {
                moved(
                    account,
                    account.available - units,
                    account.held + units,
                    account.total as int,
                    account.locked,
                )
            } else {
                moved(
                    account,
                    account.available as int,
                    account.held + units,
                    account.total + units,
                    account.locked,
                )
            },
        }
    }
}

/// A resolve undoes the dispute of a transaction.
pub open spec fn resolve(account: Account, log: Log, tx_id: u32) -> Result<Account, Rejection> {
    if !log.contains_key(tx_id) {
        Err(Rejection::UnknownReference)
    } else {
        match disputed(log[tx_id]) {
            None => Err(Rejection::UnknownReference),
            Some((kind, units)) => if !under_dispute(log[tx_id]) {
                Err(Rejection::InvalidTransition)
            } else if kind == TransactionKind::Deposit {
                moved(
                    account,
                    account.available + units,
                    account.held - units,
                    account.total as int,
                    account.locked,
                )
            } else {
                moved(
                    account,
                    account.available as int,
                    account.held - units,
                    account.total - units,
                    account.locked,
                )
            },
        }
    }
}

/// A chargeback ends a dispute by reversing the transaction, and locks the
/// account. The held funds of a deposit leave the account; those of a
/// withdrawal become available.
pub open spec fn chargeback(account: Account, log: Log, tx_id: u32) -> Result<Account, Rejection> {
    if !log.contains_key(tx_id) {
        Err(Rejection::UnknownReference)
    } else {
        match disputed(log[tx_id]) {
            None => Err(Rejection::UnknownReference),
            Some((kind, units)) => if !under_dispute(log[tx_id]) {
                Err(Rejection::InvalidTransition)
            } else if kind == TransactionKind::Deposit {
                moved(
                    account,
                    account.available as int,
                    account.held - units,
                    account.total - units,
                    true,
                )
            } else {
                moved(
                    account,
                    account.available + units,
                    account.held - units,
                    account.total as int,
                    true,
                )
            },
        }
    }
}

/// What `txn` does to `account`, given the records accepted so far: the new
/// account, or the reason why the record is rejected.
pub open spec fn transition(account: Account, log: Log, txn: Transaction) -> Result<
    Account,
    Rejection,
> {
    match txn.kind {
        TransactionKind::Deposit => deposit(account, txn.amount),
        TransactionKind::Withdrawal => withdrawal(account, txn.amount),
        TransactionKind::Dispute => dispute(account, log, txn.tx_id),
        TransactionKind::Resolve => resolve(account, log, txn.tx_id),
        TransactionKind::Chargeback => chargeback(account, log, txn.tx_id),
    }
}

/// `log` with `txn` added at the end of the list of its transaction id.
pub open spec fn record(log: Log, txn: Transaction) -> Log {
    let before = if log.contains_key(txn.tx_id) {
        log[txn.tx_id]
    } else {
        Seq::<Transaction>::empty()
    };
    log.insert(txn.tx_id, before.push(txn))
}

/// The lists of a hash map as sequences.
pub open spec fn log_view(handled: Map<u32, Vec<Transaction>>) -> Log {
    Map::new(|tx_id: u32| handled.contains_key(tx_id), |tx_id: u32| handled[tx_id]@)
}

/// The lists a ledger builds: the first record is a deposit or a withdrawal
/// that could be applied; there are never more resolves than disputes, and at
/// most one dispute that no resolve has answered.
pub open spec fn entries_wf(entries: Seq<Transaction>) -> bool {
    &&& entries.len() > 0
    &&& entries[0].kind.moves_funds()
    &&& payable(entries[0].amount)
    &&& count_kind(entries, TransactionKind::Resolve) <= count_kind(
        entries,
        TransactionKind::Dispute,
    ) <= count_kind(entries, TransactionKind::Resolve) + 1
}

/// The state of a ledger: the account and the log.
pub struct LedgerState {
    pub account: Account,
    pub log: Log,
}

impl LedgerState {
    /// The state before the first record of a client.
    pub open spec fn start(client_id: u16) -> LedgerState {
        LedgerState { account: Account::empty(client_id), log: Map::empty() }
    }

    /// The states a ledger can be in.
    pub open spec fn wf(self) -> bool {
        &&& self.account.wf()
        &&& forall|tx_id: u32| #[trigger]
            self.log.contains_key(tx_id) ==> entries_wf(self.log[tx_id])
    }

    /// Whether `txn` would be accepted.
    pub open spec fn accepts(self, txn: Transaction) -> bool {
        transition(self.account, self.log, txn) is Ok
    }

    /// The state after `txn`: changed and logged where the record is accepted,
    /// the same where it is rejected.
    pub open spec fn apply(self, txn: Transaction) -> LedgerState {
        match transition(self.account, self.log, txn) {
            Ok(account) => LedgerState { account, log: record(self.log, txn) },
            Err(_) => self,
        }
    }

    /// The state after the records of `txns`, applied in their order.
    pub open spec fn fold(self, txns: Seq<Transaction>) -> LedgerState
        decreases txns.len(),
    {
        if txns.len() == 0 {
            self
        } else {
            self.fold(txns.drop_last()).apply(txns.last())
        }
    }
}

/// The account that the records of `txns`, in their order, leave to a client.
pub open spec fn final_account(client_id: u16, txns: Seq<Transaction>) -> Account {
    LedgerState::start(client_id).fold(txns).account
}

/// A record found in a prefix is the first of the whole list too.
pub proof fn lemma_first_funding_prefix(entries: Seq<Transaction>, n: int)
    requires
        0 <= n <= entries.len(),
        first_funding(entries.take(n)) is Some,
    ensures
        first_funding(entries) == first_funding(entries.take(n)),
    decreases entries.len() - n,
{
    if n < entries.len() {
        assert(entries.take(n + 1).drop_last() =~= entries.take(n));
        lemma_first_funding_prefix(entries, n + 1);
    } else {
        assert(entries.take(n) =~= entries);
    }
}

/// A prefix holds no more records of a kind than the whole list.
pub proof fn lemma_count_kind_prefix(entries: Seq<Transaction>, n: int, kind: TransactionKind)
    requires
        0 <= n <= entries.len(),
    ensures
        count_kind(entries.take(n), kind) <= count_kind(entries, kind),
    decreases entries.len() - n,
{
    if n < entries.len() {
        assert(entries.take(n + 1).drop_last() =~= entries.take(n));
        lemma_count_kind_prefix(entries, n + 1, kind);
    } else {
        assert(entries.take(n) =~= entries);
    }
}

/// Adding a record to a list adds one to the count of its kind and leaves the
/// other counts as they were.
pub proof fn lemma_count_kind_push(entries: Seq<Transaction>, txn: Transaction, kind: TransactionKind)
    ensures
        count_kind(entries.push(txn), kind) == count_kind(entries, kind) + if txn.kind == kind {
            1nat
        } else {
            0nat
        },
{
    assert(entries.push(txn).drop_last() =~= entries);
}

/// Adding a record to a list that has a first deposit or withdrawal leaves
/// that one the first.
pub proof fn lemma_first_funding_push(entries: Seq<Transaction>, txn: Transaction)
    ensures
        first_funding(entries) is Some ==> first_funding(entries.push(txn)) == first_funding(
            entries,
        ),
        first_funding(entries) is None && txn.kind.moves_funds() ==> first_funding(
            entries.push(txn),
        ) == Some(txn),
{
    assert(entries.push(txn).drop_last() =~= entries);
}

/// A list that begins with a deposit or a withdrawal has that record as its
/// first deposit or withdrawal.
pub proof fn lemma_first_funding_first(entries: Seq<Transaction>)
    requires
        entries.len() > 0,
        entries[0].kind.moves_funds(),
    ensures
        first_funding(entries) == Some(entries[0]),
    decreases entries.len(),
{
    if entries.len() > 1 {
        lemma_first_funding_first(entries.drop_last());
    } else {
        assert(first_funding(entries.drop_last()) is None);
    }
}

/// An accepted record leaves the account balanced and in range, for the same
/// client, and locked if it was.
pub proof fn lemma_transition_wf(account: Account, log: Log, txn: Transaction)
    requires
        account.wf(),
        transition(account, log, txn) is Ok,
    ensures
        transition(account, log, txn).unwrap().wf(),
        transition(account, log, txn).unwrap().client_id == account.client_id,
        account.locked ==> transition(account, log, txn).unwrap().locked,
{
}

/// A ledger that applies a record stays well formed.
pub proof fn lemma_apply_wf(state: LedgerState, txn: Transaction)
    requires
        state.wf(),
    ensures
        state.apply(txn).wf(),
        state.apply(txn).account.client_id == state.account.client_id,
{
    if state.accepts(txn) {
        lemma_transition_wf(state.account, state.log, txn);
        let before = if state.log.contains_key(txn.tx_id) {
            state.log[txn.tx_id]
        } else {
            Seq::<Transaction>::empty()
        };
        lemma_count_kind_push(before, txn, TransactionKind::Dispute);
        lemma_count_kind_push(before, txn, TransactionKind::Resolve);
        lemma_count_kind_push(before, txn, TransactionKind::Chargeback);
    }
}

/// A ledger that applies a list of records stays well formed.
pub proof fn lemma_fold_wf(state: LedgerState, txns: Seq<Transaction>)
    requires
        state.wf(),
    ensures
        state.fold(txns).wf(),
        state.fold(txns).account.client_id == state.account.client_id,
    decreases txns.len(),
{
    if txns.len() > 0 {
        lemma_fold_wf(state, txns.drop_last());
        lemma_apply_wf(state.fold(txns.drop_last()), txns.last());
    }
}

/// The events of `events` that a ledger rejects which starts in `state` and
/// takes them in their order, each with the reason.
pub open spec fn rejected_of(state: LedgerState, events: Seq<Event>) -> Seq<(Event, Rejection)>
    decreases events.len(),
{
    if events.len() == 0 {
        Seq::empty()
    } else {
        let before = state.fold(txns_of(events.drop_last()));
        match transition(before.account, before.log, events.last().1) {
            Ok(_) => rejected_of(state, events.drop_last()),
            Err(why) => rejected_of(state, events.drop_last()).push((events.last(), why)),
        }
    }
}

} // verus!
