//! The ledger of one client: it applies records to the client's account by
//! the rules of [`crate::rules`], and logs those that it accepts.

use vstd::prelude::*;
use std::collections::HashMap;
use crate::account::{Account, Rejection};
use crate::amount::{Amount, MAX_MANTISSA};
use crate::rules::{
    charged_back, count_kind, disputed, final_account, first_funding, lemma_apply_wf,
    lemma_count_kind_prefix, lemma_first_funding_prefix, lemma_fold_wf, log_view, moved, payable,
    record, rejected_of, transition, under_dispute, LedgerState,
};
use crate::transaction::{txns_of, Event, Transaction, TransactionKind};

verus! {

/// Returns `true` if more disputes than resolves are among `txns`, and no
/// chargeback.
pub fn is_under_dispute(txns: &Vec<Transaction>) -> (r: bool)
    ensures
        r == under_dispute(txns@),
{
    let mut n_dispute: usize = 0;
    let mut n_resolve: usize = 0;
    let mut chargeback: bool = false;
    let mut i: usize = 0;
    while i < txns.len()
        invariant
            i <= txns.len(),
            n_dispute == count_kind(txns@.take(i as int), TransactionKind::Dispute),
            n_resolve == count_kind(txns@.take(i as int), TransactionKind::Resolve),
            chargeback == charged_back(txns@.take(i as int)),
            n_dispute <= i,
            n_resolve <= i,
        decreases txns.len() - i,
    {
        assert(txns@.take(i + 1).drop_last() =~= txns@.take(i as int));
        if txns[i].kind == TransactionKind::Dispute {
            n_dispute = n_dispute + 1;
        }
        if txns[i].kind == TransactionKind::Resolve {
            n_resolve = n_resolve + 1;
        }
        if txns[i].kind == TransactionKind::Chargeback {
            chargeback = true;
        }
        i = i + 1;
    }
    assert(txns@.take(i as int) =~= txns@);
    n_dispute > n_resolve && !chargeback
}

/// Whether a chargeback is among `txns`.
pub fn is_charged_back(txns: &Vec<Transaction>) -> (r: bool)
    ensures
        r == charged_back(txns@),
{
    let mut i: usize = 0;
    while i < txns.len()
        invariant
            i <= txns.len(),
            !charged_back(txns@.take(i as int)),
        decreases txns.len() - i,
    {
        assert(txns@.take(i + 1).drop_last() =~= txns@.take(i as int));
        if txns[i].kind == TransactionKind::Chargeback {
            proof {
                lemma_count_kind_prefix(txns@, i + 1, TransactionKind::Chargeback);
            }
            return true;
        }
        i = i + 1;
    }
    assert(txns@.take(i as int) =~= txns@);
    false
}

/// Returns the first deposit or withdrawal among `txns`, if there is one.
pub fn initial_txn(txns: &Vec<Transaction>) -> (r: Option<&Transaction>)
    ensures
        match r {
            Some(t) => first_funding(txns@) == Some(*t),
            None => first_funding(txns@) is None,
        },
{
    let mut i: usize = 0;
    while i < txns.len()
        invariant
            i <= txns.len(),
            first_funding(txns@.take(i as int)) is None,
        decreases txns.len() - i,
    {
        assert(txns@.take(i + 1).drop_last() =~= txns@.take(i as int));
        if txns[i].kind == TransactionKind::Withdrawal || txns[i].kind == TransactionKind::Deposit {
            proof {
                lemma_first_funding_prefix(txns@, i + 1);
            }
            return Some(&txns[i]);
        }
        i = i + 1;
    }
    assert(txns@.take(i as int) =~= txns@);
    None
}

/// Sets the balances and the lock of `account`, if the balances are in range.
fn settle(account: &mut Account, available: i128, held: i128, total: i128, locked: bool) -> (r:
    Result<(), Rejection>)
    ensures
        match moved(*old(account), available as int, held as int, total as int, locked) {
            Ok(next) => r is Ok && *final(account) == next,
            Err(why) => r == Err::<(), Rejection>(why) && *final(account) == *old(account),
        },
{
    if -MAX_MANTISSA <= available && available <= MAX_MANTISSA && -MAX_MANTISSA <= held && held
        <= MAX_MANTISSA && -MAX_MANTISSA <= total && total <= MAX_MANTISSA {
        account.available = available;
        account.held = held;
        account.total = total;
        account.locked = locked;
        Ok(())
    } else {
        Err(Rejection::OutOfRange)
    }
}

/// The units of a deposit or withdrawal that can be applied.
fn payable_units(amount: &Option<Amount>) -> (r: Option<i128>)
    ensures
        match r {
            Some(units) => payable(*amount) && units == amount.unwrap().units(),
            None => !payable(*amount),
        },
        r is Some ==> -MAX_MANTISSA * 10_000 <= r.unwrap() <= MAX_MANTISSA * 10_000,
{
    match amount {
        Some(a) => {
            if a.is_valid() && a.mantissa > 0 {
                Some(a.to_units())
            } else {
                None
            }
        },
        None => None,
    }
}

/// What a dispute, resolve or chargeback of `tx_id` refers to: whether the
/// transaction was a deposit, the units it moved, and the list of its records.
fn referenced(handled: &HashMap<u32, Vec<Transaction>>, tx_id: u32) -> (r: Option<
    (TransactionKind, i128, &Vec<Transaction>),
>)
    ensures
        match r {
            Some((kind, units, txns)) => {
                &&& log_view(handled@).contains_key(tx_id)
                &&& txns@ == log_view(handled@)[tx_id]
                &&& disputed(txns@) == Some((kind, units as int))
                &&& -MAX_MANTISSA * 10_000 <= units <= MAX_MANTISSA * 10_000
            },
            None => !log_view(handled@).contains_key(tx_id) || disputed(
                log_view(handled@)[tx_id],
            ) is None,
        },
{
    broadcast use vstd::std_specs::hash::group_hash_axioms;

    match handled.get(&tx_id) {
        Some(txns) => match initial_txn(txns) {
            Some(initial) => match payable_units(&initial.amount) {
                Some(units) => Some((initial.kind, units, txns)),
                None => None,
            },
            None => None,
        },
        None => None,
    }
}

/// Applies `txn` to `account`, given the records accepted so far, or rejects
/// it and leaves the account as it was. An amount is rounded to four
/// fractional digits when it is applied.
pub fn handle_txn(
    account: &mut Account,
    handled: &HashMap<u32, Vec<Transaction>>,
    txn: &Transaction,
) -> (r: Result<(), Rejection>)
    requires
        old(account).wf(),
    ensures
        match transition(*old(account), log_view(handled@), *txn) {
            Ok(next) => r is Ok && *final(account) == next,
            Err(why) => r == Err::<(), Rejection>(why) && *final(account) == *old(account),
        },
        final(account).wf(),
        final(account).client_id == old(account).client_id,
        old(account).locked ==> final(account).locked,
{
    match txn.kind {
        TransactionKind::Deposit => {
            if account.locked {
                return Err(Rejection::LockedAccount);
            }
            match payable_units(&txn.amount) {
                // A deposit is a credit to the client's asset account: it
                // increases the available and the total funds.
                Some(units) => settle(
                    account,
                    account.available + units,
                    account.held,
                    account.total + units,
                    false,
                ),
                None => Err(Rejection::InvalidAmount),
            }
        },
        TransactionKind::Withdrawal => {
            if account.locked {
                return Err(Rejection::LockedAccount);
            }
            match payable_units(&txn.amount) {
                Some(units) => {
                    // Without sufficient available funds the withdrawal
                    // fails and no balance changes.
                    let covered = match &txn.amount {
                        Some(a) => a.is_covered_by(account.available),
                        None => false,
                    };
                    if !covered {
                        return Err(Rejection::InsufficientFunds);
                    }
                    // A withdrawal is a debit: it decreases the available
                    // and the total funds.
                    settle(
                        account,
                        account.available - units,
                        account.held,
                        account.total - units,
                        false,
                    )
                },
                None => Err(Rejection::InvalidAmount),
            }
        },
        TransactionKind::Dispute => {
            // A dispute states no amount: it names the disputed transaction.
            match referenced(handled, txn.tx_id) {
                Some((kind, units, txns)) => {
                    if is_under_dispute(txns) || is_charged_back(txns) {
                        return Err(Rejection::InvalidTransition);
                    }
                    if kind == TransactionKind::Deposit {
                        // The funds are held: available decreases, held
                        // increases, the total stays.
                        settle(
                            account,
                            account.available - units,
                            account.held + units,
                            account.total,
                            account.locked,
                        )
                    } else {
                        // The withdrawn funds are set aside again.
                        settle(
                            account,
                            account.available,
                            account.held + units,
                            account.total + units,
                            account.locked,
                        )
                    }
                },
                None => Err(Rejection::UnknownReference),
            }
        },
        TransactionKind::Resolve => {
            match referenced(handled, txn.tx_id) {
                Some((kind, units, txns)) => {
                    if !is_under_dispute(txns) {
                        return Err(Rejection::InvalidTransition);
                    }
                    if kind == TransactionKind::Deposit {
                        // The held funds are released: held decreases,
                        // available increases, the total stays.
                        settle(
                            account,
                            account.available + units,
                            account.held - units,
                            account.total,
                            account.locked,
                        )
                    } else {
                        settle(
                            account,
                            account.available,
                            account.held - units,
                            account.total - units,
                            account.locked,
                        )
                    }
                },
                None => Err(Rejection::UnknownReference),
            }
        },
        TransactionKind::Chargeback => {
            match referenced(handled, txn.tx_id) {
                Some((kind, units, txns)) => {
                    if !is_under_dispute(txns) {
                        return Err(Rejection::InvalidTransition);
                    }
                    if kind == TransactionKind::Deposit {
                        // The held funds are withdrawn: held and total
                        // decrease, and the account is frozen.
                        settle(
                            account,
                            account.available,
                            account.held - units,
                            account.total - units,
                            true,
                        )
                    } else {
                        // The withdrawal is reversed: the held funds become
                        // available, and the account is frozen.
                        settle(
                            account,
                            account.available + units,
                            account.held - units,
                            account.total,
                            true,
                        )
                    }
                },
                None => Err(Rejection::UnknownReference),
            }
        },
    }
}

/// The ledger of one client.
pub struct Ledger {
    account: Account,
    handled: HashMap<u32, Vec<Transaction>>,
}

impl View for Ledger {
    type V = LedgerState;

    closed spec fn view(&self) -> LedgerState {
        LedgerState { account: self.account, log: log_view(self.handled@) }
    }
}

impl Ledger {
    /// The ledger of a client of whom no record was seen.
    pub fn new(client_id: u16) -> (ledger: Ledger)
        ensures
            ledger@ == LedgerState::start(client_id),
            ledger@.wf(),
    {
        let ledger = Ledger { account: Account::new(client_id), handled: HashMap::new() };
        assert(ledger@.log =~= Map::<u32, Seq<Transaction>>::empty());
        ledger
    }

    /// Applies `txn` and logs it, or rejects it and changes nothing.
    pub fn apply(&mut self, txn: Transaction) -> (r: Result<(), Rejection>)
        requires
            old(self)@.wf(),
        ensures
            final(self)@ == old(self)@.apply(txn),
            match transition(old(self)@.account, old(self)@.log, txn) {
                Ok(_) => r is Ok,
                Err(why) => r == Err::<(), Rejection>(why),
            },
            final(self)@.wf(),
    {
        broadcast use vstd::std_specs::hash::group_hash_axioms;

        proof {
            lemma_apply_wf(self@, txn);
        }
        match handle_txn(&mut self.account, &self.handled, &txn) {
            Ok(()) => {
                // Only a record that was applied is logged.
                self.handled.entry(txn.tx_id).or_insert(Vec::new()).push(txn);
                assert(self@.log =~= record(old(self)@.log, txn));
                Ok(())
            },
            Err(why) => Err(why),
        }
    }

    /// The account as it stands.
    pub fn account(&self) -> (account: Account)
        ensures
            account == self@.account,
    {
        self.account
    }
}

/// Folds the events of one client, in the order given, into the client's
/// account, and lists the events that were rejected, each with the reason.
pub fn fold_events(client_id: u16, client_txns: &Vec<Event>) -> (r: (
    Account,
    Vec<(Event, Rejection)>,
))
    ensures
        r.0 == final_account(client_id, txns_of(client_txns@)),
        r.0.wf(),
        r.0.client_id == client_id,
        r.1@ == rejected_of(LedgerState::start(client_id), client_txns@),
{
    let mut ledger = Ledger::new(client_id);
    let mut rejected: Vec<(Event, Rejection)> = Vec::new();
    let mut i: usize = 0;
    while i < client_txns.len()
        invariant
            i <= client_txns.len(),
            ledger@ == LedgerState::start(client_id).fold(txns_of(client_txns@.take(i as int))),
            ledger@.wf(),
            rejected@ == rejected_of(LedgerState::start(client_id), client_txns@.take(i as int)),
        decreases client_txns.len() - i,
    {
        assert(client_txns@.take(i + 1).drop_last() =~= client_txns@.take(i as int));
        assert(txns_of(client_txns@.take(i + 1)).drop_last() =~= txns_of(
            client_txns@.take(i as int),
        ));
        match ledger.apply(client_txns[i].1) {
            Ok(()) => {},
            Err(why) => {
                rejected.push((client_txns[i], why));
            },
        }
        i = i + 1;
    }
    assert(client_txns@.take(i as int) =~= client_txns@);
    proof {
        lemma_fold_wf(LedgerState::start(client_id), txns_of(client_txns@));
    }
    (ledger.account(), rejected)
}

/// Folds the events of one client, in the order given, into the client's
/// account. Rejected events are passed over.
pub fn to_account(client_id: u16, client_txns: &Vec<Event>) -> (account: Account)
    ensures
        account == final_account(client_id, txns_of(client_txns@)),
        account.wf(),
        account.client_id == client_id,
{
    fold_events(client_id, client_txns).0
}

} // verus!
