//! What holds of every ledger, whatever the records are.

use vstd::prelude::*;
use crate::account::{Account, Rejection};
use crate::amount::{lemma_pow10_positive, pow10, round_magnitude, Amount, PRECISION};
use crate::partition::{
    account_for, accounts_of, clients_of, events_of, lemma_clients_complete,
    lemma_clients_distinct, lemma_events_of_unlisted, lemma_sort_ordered, ordered, sort_by_place,
};
use crate::rules::{
    charged_back, disputed, final_account, lemma_apply_wf, lemma_count_kind_push,
    lemma_first_funding_first, lemma_first_funding_push, lemma_fold_wf, transition,
    under_dispute, LedgerState, Log,
};
use crate::transaction::{txns_of, Event, Transaction, TransactionKind};

verus! {

/// The total is the sum of the available and the held funds after every
/// single record: whatever `txns` holds, the account is balanced, and in
/// range, after each prefix of it and at the end.
pub proof fn law_balance_kept(client_id: u16, txns: Seq<Transaction>, n: int)
    requires
        0 <= n <= txns.len(),
    ensures
        LedgerState::start(client_id).fold(txns.take(n)).account.balanced(),
        LedgerState::start(client_id).fold(txns.take(n)).wf(),
        LedgerState::start(client_id).fold(txns).account.balanced(),
{
    lemma_fold_wf(LedgerState::start(client_id), txns.take(n));
    lemma_fold_wf(LedgerState::start(client_id), txns);
}

/// A well-formed ledger stays balanced when it applies one more record.
pub proof fn law_balance_kept_by_step(state: LedgerState, txn: Transaction)
    requires
        state.wf(),
    ensures
        state.apply(txn).account.balanced(),
        state.apply(txn).wf(),
{
    lemma_apply_wf(state, txn);
}

/// A record that is rejected changes nothing: neither the account nor the
/// log, so that nothing can refer to it later.
pub proof fn law_rejected_changes_nothing(state: LedgerState, txn: Transaction)
    requires
        !state.accepts(txn),
    ensures
        state.apply(txn) == state,
{
}

/// A record that is accepted is logged at the end of the list of its
/// transaction id, and no other list changes.
pub proof fn law_accepted_is_logged(state: LedgerState, txn: Transaction)
    requires
        state.accepts(txn),
    ensures
        state.apply(txn).log.contains_key(txn.tx_id),
        state.apply(txn).log[txn.tx_id].len() > 0,
        state.apply(txn).log[txn.tx_id].last() == txn,
        forall|tx_id: u32|
            tx_id != txn.tx_id ==> (state.apply(txn).log.contains_key(tx_id)
                <==> state.log.contains_key(tx_id)),
        forall|tx_id: u32|
            tx_id != txn.tx_id && state.log.contains_key(tx_id) ==> #[trigger] state.apply(
                txn,
            ).log[tx_id] == state.log[tx_id],
{
}

/// In a ledger's log every transaction id leads to a deposit or withdrawal
/// that was applied. So a dispute, resolve or chargeback is rejected for its
/// reference just where its transaction id is not in the log; and a record of
/// that kind that is accepted is about the rounded amount of the first record
/// under its id.
pub proof fn law_reference(state: LedgerState, txn: Transaction)
    requires
        state.wf(),
        !txn.kind.moves_funds(),
    ensures
        transition(state.account, state.log, txn) == Err::<Account, Rejection>(
            Rejection::UnknownReference,
        ) <==> !state.log.contains_key(txn.tx_id),
        state.log.contains_key(txn.tx_id) ==> disputed(state.log[txn.tx_id]) == Some(
            (state.log[txn.tx_id][0].kind, state.log[txn.tx_id][0].amount.unwrap().units()),
        ),
{
    if state.log.contains_key(txn.tx_id) {
        lemma_first_funding_first(state.log[txn.tx_id]);
    }
}

/// A dispute of a transaction that is under dispute changes nothing: neither
/// the account nor the log.
pub proof fn law_dispute_while_disputed(state: LedgerState, txn: Transaction)
    requires
        txn.kind == TransactionKind::Dispute,
        state.log.contains_key(txn.tx_id),
        under_dispute(state.log[txn.tx_id]),
    ensures
        !state.accepts(txn),
        state.apply(txn) == state,
{
}

/// Once a dispute is accepted, the same dispute is rejected: applying it a
/// second time leaves the state as the first left it.
pub proof fn law_dispute_twice(state: LedgerState, txn: Transaction)
    requires
        state.wf(),
        txn.kind == TransactionKind::Dispute,
        state.accepts(txn),
    ensures
        under_dispute(state.apply(txn).log[txn.tx_id]),
        !state.apply(txn).accepts(txn),
        state.apply(txn).apply(txn) == state.apply(txn),
{
    let entries = state.log[txn.tx_id];
    lemma_count_kind_push(entries, txn, TransactionKind::Dispute);
    lemma_count_kind_push(entries, txn, TransactionKind::Resolve);
    lemma_count_kind_push(entries, txn, TransactionKind::Chargeback);
    law_dispute_while_disputed(state.apply(txn), txn);
}

/// A dispute that is followed at once by a resolve of the same transaction
/// changes nothing in the account: the resolve is accepted, and the available,
/// held and total funds are what they were before the dispute. In between,
/// the total is unchanged where a deposit was disputed, and higher by the
/// disputed funds where a withdrawal was.
pub proof fn law_dispute_then_resolve(state: LedgerState, dispute: Transaction, resolve: Transaction)
    requires
        state.wf(),
        dispute.kind == TransactionKind::Dispute,
        resolve.kind == TransactionKind::Resolve,
        dispute.tx_id == resolve.tx_id,
        state.accepts(dispute),
    ensures
        state.apply(dispute).accepts(resolve),
        state.apply(dispute).apply(resolve).account == state.account,
        disputed(state.log[dispute.tx_id]) is Some,
        disputed(state.log[dispute.tx_id]).unwrap().0 == TransactionKind::Deposit ==> state.apply(
            dispute,
        ).account.total == state.account.total,
        disputed(state.log[dispute.tx_id]).unwrap().0 != TransactionKind::Deposit ==> state.apply(
            dispute,
        ).account.total == state.account.total + disputed(state.log[dispute.tx_id]).unwrap().1,
{
    let entries = state.log[dispute.tx_id];
    lemma_count_kind_push(entries, dispute, TransactionKind::Dispute);
    lemma_count_kind_push(entries, dispute, TransactionKind::Resolve);
    lemma_count_kind_push(entries, dispute, TransactionKind::Chargeback);
    lemma_first_funding_push(entries, dispute);
}

/// A locked account refuses every deposit and every withdrawal: the record
/// is rejected, and neither a balance nor the log changes.
pub proof fn law_locked_refuses(state: LedgerState, txn: Transaction)
    requires
        state.account.locked,
        txn.kind.moves_funds(),
    ensures
        !state.accepts(txn),
        state.apply(txn) == state,
{
}

/// No record unlocks an account.
pub proof fn law_lock_kept_by_step(state: LedgerState, txn: Transaction)
    requires
        state.account.locked,
    ensures
        state.apply(txn).account.locked,
{
}

/// An account that is locked stays locked, whatever records follow.
pub proof fn law_lock_kept(state: LedgerState, txns: Seq<Transaction>)
    requires
        state.account.locked,
    ensures
        state.fold(txns).account.locked,
    decreases txns.len(),
{
    if txns.len() > 0 {
        law_lock_kept(state, txns.drop_last());
        law_lock_kept_by_step(state.fold(txns.drop_last()), txns.last());
    }
}

/// Once an account is locked, no later deposit or withdrawal changes it:
/// whatever `txns` holds, if the account is locked after the first `n` of them
/// and the record that comes next is a deposit or a withdrawal, the state
/// after that record is the state before it; and the account is locked after
/// every longer prefix.
pub proof fn law_locked_balances(state: LedgerState, txns: Seq<Transaction>, n: int, m: int)
    requires
        0 <= n <= m < txns.len(),
        state.fold(txns.take(n)).account.locked,
    ensures
        state.fold(txns.take(m)).account.locked,
        txns[m].kind.moves_funds() ==> state.fold(txns.take(m + 1)) == state.fold(txns.take(m)),
    decreases m - n,
{
    if n < m {
        assert(txns.take(n + 1).drop_last() =~= txns.take(n));
        law_lock_kept_by_step(state.fold(txns.take(n)), txns[n]);
        law_locked_balances(state, txns, n + 1, m);
    } else {
        assert(txns.take(m + 1).drop_last() =~= txns.take(m));
        if txns[m].kind.moves_funds() {
            law_locked_refuses(state.fold(txns.take(m)), txns[m]);
        }
    }
}

/// A chargeback that is accepted locks the account and marks the transaction
/// as charged back.
pub proof fn law_chargeback_locks(state: LedgerState, txn: Transaction)
    requires
        txn.kind == TransactionKind::Chargeback,
        state.accepts(txn),
    ensures
        state.apply(txn).account.locked,
        charged_back(state.apply(txn).log[txn.tx_id]),
{
    lemma_count_kind_push(state.log[txn.tx_id], txn, TransactionKind::Chargeback);
}

/// A transaction that was charged back is never disputed, resolved or charged
/// back again: each such record is rejected.
pub proof fn law_chargeback_is_final(state: LedgerState, txn: Transaction)
    requires
        state.log.contains_key(txn.tx_id),
        charged_back(state.log[txn.tx_id]),
        !txn.kind.moves_funds(),
    ensures
        !state.accepts(txn),
        state.apply(txn) == state,
{
}

/// A transaction that was charged back stays so, whatever records follow.
pub proof fn law_charged_back_kept(state: LedgerState, txns: Seq<Transaction>, tx_id: u32)
    requires
        state.log.contains_key(tx_id),
        charged_back(state.log[tx_id]),
    ensures
        state.fold(txns).log.contains_key(tx_id),
        charged_back(state.fold(txns).log[tx_id]),
    decreases txns.len(),
{
    if txns.len() > 0 {
        law_charged_back_kept(state, txns.drop_last(), tx_id);
        let before = state.fold(txns.drop_last());
        if before.accepts(txns.last()) && txns.last().tx_id == tx_id {
            lemma_count_kind_push(before.log[tx_id], txns.last(), TransactionKind::Chargeback);
        }
    }
}

/// `10^(a + b) == 10^a * 10^b`.
proof fn lemma_pow10_sum(a: nat, b: nat)
    ensures
        pow10(a + b) == pow10(a) * pow10(b),
    decreases a,
{
    if a > 0 {
        lemma_pow10_sum((a - 1) as nat, b);
        assert(10 * (pow10((a - 1) as nat) * pow10(b)) == (10 * pow10((a - 1) as nat)) * pow10(b))
            by (nonlinear_arith);
    } else {
        assert(pow10(a) * pow10(b) == pow10(b)) by (nonlinear_arith)
            requires
                pow10(a) == 1,
        ;
    }
}

/// An amount above zero that a balance covers is, rounded, no more than that
/// balance.
pub proof fn lemma_covered_units(amount: Amount, available: int)
    requires
        amount.valid(),
        amount.mantissa > 0,
        amount.covered_by(available),
    ensures
        0 <= amount.units() <= available,
{
    let m = amount.mantissa as int;
    let s = amount.scale as nat;
    let p = PRECISION as nat;
    lemma_pow10_positive(s);
    lemma_pow10_positive(p);
    if s <= p {
        let f = pow10((p - s) as nat) as int;
        let e = pow10(s) as int;
        lemma_pow10_positive((p - s) as nat);
        lemma_pow10_sum((p - s) as nat, s);
        assert(m * f >= 0) by (nonlinear_arith)
            requires
                m > 0,
                f >= 1,
        ;
        assert(m * f <= available) by (nonlinear_arith)
            requires
                available * e >= m * (f * e),
                e >= 1,
        ;
    } else {
        let d = pow10((s - p) as nat) as int;
        let e = pow10(p) as int;
        lemma_pow10_positive((s - p) as nat);
        lemma_pow10_sum((s - p) as nat, p);
        let q = m / d;
        let r = m % d;
        assert(m == d * q + r && 0 <= r < d && q >= 0) by (nonlinear_arith)
            requires
                q == m / d,
                r == m % d,
                d >= 1,
                m > 0,
        ;
        let u = round_magnitude(m as nat, d as nat) as int;
        let one = pow10(0) as int;
        assert(u * one == u) by (nonlinear_arith)
            requires
                one == 1,
        ;
        assert(available * d >= m) by (nonlinear_arith)
            requires
                available * (d * e) >= m * e,
                e >= 1,
        ;
        if r == 0 {
            assert(available >= q) by (nonlinear_arith)
                requires
                    available * d >= d * q,
                    d >= 1,
            ;
        } else {
            assert(available >= q + 1) by (nonlinear_arith)
                requires
                    available * d >= d * q + r,
                    r > 0,
                    d >= 1,
            ;
        }
    }
}

/// A withdrawal never takes more than is available: after one that is
/// accepted, the available funds are lower than before, or the same, and not
/// below zero.
pub proof fn law_withdrawal_covered(state: LedgerState, txn: Transaction)
    requires
        txn.kind == TransactionKind::Withdrawal,
        state.accepts(txn),
    ensures
        state.apply(txn).account.available >= 0,
        state.apply(txn).account.available <= state.account.available,
{
    lemma_covered_units(txn.amount.unwrap(), state.account.available as int);
}

/// The funds that are held for the transaction `tx_id`: those of its first
/// record while it is under dispute, none otherwise.
pub open spec fn held_for(log: Log, tx_id: u32) -> int {
    if log.contains_key(tx_id) && under_dispute(log[tx_id]) && disputed(log[tx_id]) is Some {
        disputed(log[tx_id]).unwrap().1
    } else {
        0
    }
}

/// The funds that are held for the transactions with an id below `n`.
pub open spec fn held_below(log: Log, n: nat) -> int
    decreases n,
{
    if n == 0 {
        0
    } else {
        held_below(log, (n - 1) as nat) + held_for(log, (n - 1) as u32)
    }
}

/// The funds that are held for all transactions.
pub open spec fn held_in(log: Log) -> int {
    held_below(log, 0x1_0000_0000)
}

/// Two logs that differ at one transaction id hold funds that differ by what
/// they hold for that id.
proof fn lemma_held_below_differs(a: Log, b: Log, tx_id: u32, n: nat)
    requires
        n <= 0x1_0000_0000,
        forall|other: u32| other != tx_id ==> held_for(a, other) == held_for(b, other),
    ensures
        held_below(b, n) == held_below(a, n) + if tx_id < n {
            held_for(b, tx_id) - held_for(a, tx_id)
        } else {
            0
        },
    decreases n,
{
    if n > 0 {
        lemma_held_below_differs(a, b, tx_id, (n - 1) as nat);
    }
}

/// Nothing is held for an empty log.
proof fn lemma_held_below_empty(n: nat)
    ensures
        held_below(Map::<u32, Seq<Transaction>>::empty(), n) == 0,
    decreases n,
{
    if n > 0 {
        lemma_held_below_empty((n - 1) as nat);
    }
}

/// An amount above zero is, rounded, not below zero.
proof fn lemma_units_not_negative(amount: Amount)
    requires
        amount.valid(),
        amount.mantissa > 0,
    ensures
        amount.units() >= 0,
{
    let m = amount.mantissa as int;
    let s = amount.scale as nat;
    let p = PRECISION as nat;
    if s <= p {
        let f = pow10((p - s) as nat) as int;
        lemma_pow10_positive((p - s) as nat);
        assert(m * f >= 0) by (nonlinear_arith)
            requires
                m > 0,
                f >= 1,
        ;
    } else {
        let u = round_magnitude(m as nat, pow10((s - p) as nat)) as int;
        let one = pow10(0) as int;
        assert(u * one == u) by (nonlinear_arith)
            requires
                one == 1,
        ;
    }
}

/// The funds held for any part of a well-formed log are not below zero.
proof fn lemma_held_below_not_negative(state: LedgerState, n: nat)
    requires
        state.wf(),
    ensures
        held_below(state.log, n) >= 0,
    decreases n,
{
    if n > 0 {
        lemma_held_below_not_negative(state, (n - 1) as nat);
        let tx_id = (n - 1) as u32;
        if state.log.contains_key(tx_id) {
            lemma_first_funding_first(state.log[tx_id]);
            lemma_units_not_negative(state.log[tx_id][0].amount.unwrap());
        }
    }
}

/// The held funds are the funds of the transactions under dispute, no more
/// and no less: a ledger of which this holds keeps it so when it applies a
/// record.
pub proof fn law_held_kept_by_step(state: LedgerState, txn: Transaction)
    requires
        state.wf(),
        state.account.held == held_in(state.log),
    ensures
        state.apply(txn).account.held == held_in(state.apply(txn).log),
{
    if state.accepts(txn) {
        let after = state.apply(txn);
        let before = if state.log.contains_key(txn.tx_id) {
            state.log[txn.tx_id]
        } else {
            Seq::<Transaction>::empty()
        };
        lemma_apply_wf(state, txn);
        lemma_count_kind_push(before, txn, TransactionKind::Dispute);
        lemma_count_kind_push(before, txn, TransactionKind::Resolve);
        lemma_count_kind_push(before, txn, TransactionKind::Chargeback);
        lemma_first_funding_push(before, txn);
        if state.log.contains_key(txn.tx_id) {
            lemma_first_funding_first(before);
        }
        assert(after.log[txn.tx_id] == before.push(txn));
        assert(held_for(after.log, txn.tx_id) - held_for(state.log, txn.tx_id)
            == after.account.held - state.account.held);
        assert forall|other: u32| other != txn.tx_id implies held_for(state.log, other)
            == held_for(after.log, other) by {
            if state.log.contains_key(other) {
                assert(after.log[other] == state.log[other]);
            }
        }
        lemma_held_below_differs(state.log, after.log, txn.tx_id, 0x1_0000_0000);
    }
}

/// The held funds of a ledger are, after every record, the funds of the
/// transactions that are under dispute then; so they are never below zero.
pub proof fn law_held_is_disputed(client_id: u16, txns: Seq<Transaction>)
    ensures
        LedgerState::start(client_id).fold(txns).account.held == held_in(
            LedgerState::start(client_id).fold(txns).log,
        ),
        LedgerState::start(client_id).fold(txns).account.held >= 0,
    decreases txns.len(),
{
    let start = LedgerState::start(client_id);
    lemma_fold_wf(start, txns);
    if txns.len() == 0 {
        lemma_held_below_empty(0x1_0000_0000);
    } else {
        law_held_is_disputed(client_id, txns.drop_last());
        lemma_fold_wf(start, txns.drop_last());
        law_held_kept_by_step(start.fold(txns.drop_last()), txns.last());
    }
    lemma_held_below_not_negative(start.fold(txns), 0x1_0000_0000);
}

/// The events of one client, taken alone, are all of that client.
proof fn lemma_events_of_events_of(events: Seq<Event>, client_id: u16)
    ensures
        events_of(events_of(events, client_id), client_id) == events_of(events, client_id),
        forall|k: int|
            0 <= k < events_of(events, client_id).len() ==> (#[trigger] events_of(
                events,
                client_id,
            )[k]).1.client_id == client_id,
        events_of(events, client_id).len() > 0 ==> clients_of(events_of(events, client_id))
            == seq![client_id],
        events_of(events, client_id).len() == 0 ==> clients_of(events_of(events, client_id))
            == Seq::<u16>::empty(),
    decreases events.len(),
{
    if events.len() > 0 {
        let front = events.drop_last();
        lemma_events_of_events_of(front, client_id);
        if events.last().1.client_id == client_id {
            let mine = events_of(front, client_id);
            assert(mine.push(events.last()).drop_last() =~= mine);
            if mine.len() > 0 {
                assert(seq![client_id][0] == client_id);
            }
        }
    }
}

/// A client that is listed has an event.
proof fn lemma_listed_has_events(events: Seq<Event>, client_id: u16)
    requires
        clients_of(events).contains(client_id),
    ensures
        events_of(events, client_id).len() > 0,
    decreases events.len(),
{
    if events.len() > 0 {
        let front = events.drop_last();
        if events.last().1.client_id != client_id {
            if !clients_of(front).contains(events.last().1.client_id) {
                let i = choose|i: int|
                    0 <= i < clients_of(events).len() && clients_of(events)[i] == client_id;
                assert(clients_of(front)[i] == client_id);
            }
            lemma_listed_has_events(front, client_id);
        }
    }
}

/// Every event of a client's group is an event of the input.
proof fn lemma_events_of_members(events: Seq<Event>, client_id: u16)
    ensures
        forall|i: int|
            0 <= i < events_of(events, client_id).len() ==> events.contains(
                #[trigger] events_of(events, client_id)[i],
            ),
    decreases events.len(),
{
    if events.len() > 0 {
        let front = events.drop_last();
        let mine = events_of(events, client_id);
        lemma_events_of_members(front, client_id);
        assert forall|i: int| 0 <= i < mine.len() implies events.contains(#[trigger] mine[i]) by {
            if i < events_of(front, client_id).len() {
                let e = events_of(front, client_id)[i];
                assert(front.contains(e));
                let k = choose|k: int| 0 <= k < front.len() && front[k] == e;
                assert(events[k] == e);
            } else {
                assert(events[events.len() - 1] == mine[i]);
            }
        }
    }
}

/// The group of a client in an ordered input is ordered.
pub proof fn lemma_events_of_ordered(events: Seq<Event>, client_id: u16)
    requires
        ordered(events),
    ensures
        ordered(events_of(events, client_id)),
    decreases events.len(),
{
    if events.len() > 0 {
        let front = events.drop_last();
        let mine = events_of(events, client_id);
        assert(ordered(front));
        lemma_events_of_ordered(front, client_id);
        lemma_events_of_members(front, client_id);
        if events.last().1.client_id == client_id {
            let before = events_of(front, client_id);
            assert forall|i: int, j: int| 0 <= i <= j < mine.len() implies mine[i].0
                <= mine[j].0 by {
                if j < before.len() {
                    assert(before[i].0 <= before[j].0);
                } else if i < before.len() {
                    assert(front.contains(before[i]));
                    let k = choose|k: int| 0 <= k < front.len() && front[k] == before[i];
                    assert(events[k].0 <= events[events.len() - 1].0);
                }
            }
        }
    }
}

/// The account of a client depends on that client's records alone: two inputs
/// in which the client has the same records in the same order of places leave
/// the client the same account, whatever else the inputs hold and however
/// the records of other clients lie between them.
pub proof fn law_client_isolation(a: Seq<Event>, b: Seq<Event>, client_id: u16)
    requires
        txns_of(sort_by_place(events_of(a, client_id))) == txns_of(
            sort_by_place(events_of(b, client_id)),
        ),
    ensures
        account_for(a, client_id) == account_for(b, client_id),
{
}

/// Where the input is in the order of the places, the account of a client is
/// the fold of the client's records as they lie in the input. So two such
/// inputs in which the client's records follow each other in the same order
/// leave the client the same account.
pub proof fn law_client_isolation_in_order(a: Seq<Event>, b: Seq<Event>, client_id: u16)
    requires
        ordered(a),
        ordered(b),
        txns_of(events_of(a, client_id)) == txns_of(events_of(b, client_id)),
    ensures
        account_for(a, client_id) == final_account(client_id, txns_of(events_of(a, client_id))),
        account_for(a, client_id) == account_for(b, client_id),
{
    lemma_events_of_ordered(a, client_id);
    lemma_events_of_ordered(b, client_id);
    lemma_sort_ordered(events_of(a, client_id));
    lemma_sort_ordered(events_of(b, client_id));
}

/// The account that an input leaves to a client is the one account that the
/// client's own events leave when they are processed alone.
pub proof fn law_client_alone(events: Seq<Event>, i: int)
    requires
        0 <= i < clients_of(events).len(),
    ensures
        accounts_of(events_of(events, clients_of(events)[i])).len() == 1,
        accounts_of(events)[i] == accounts_of(events_of(events, clients_of(events)[i]))[0],
{
    let client_id = clients_of(events)[i];
    lemma_listed_has_events(events, client_id);
    lemma_events_of_events_of(events, client_id);
}

/// How many events the groups of `clients` hold together.
pub open spec fn group_sizes(events: Seq<Event>, clients: Seq<u16>) -> nat
    decreases clients.len(),
{
    if clients.len() == 0 {
        0
    } else {
        group_sizes(events, clients.drop_last()) + events_of(events, clients.last()).len()
    }
}

/// One more event makes the groups of distinct clients hold one more event
/// together if its client is among them, and as many as before if not.
proof fn lemma_group_sizes_push(events: Seq<Event>, e: Event, clients: Seq<u16>)
    requires
        clients.no_duplicates(),
    ensures
        group_sizes(events.push(e), clients) == group_sizes(events, clients) + if clients.contains(
            e.1.client_id,
        ) {
            1nat
        } else {
            0nat
        },
    decreases clients.len(),
{
    assert(events.push(e).drop_last() =~= events);
    if clients.len() > 0 {
        let front = clients.drop_last();
        lemma_group_sizes_push(events, e, front);
        if front.contains(e.1.client_id) {
            let i = choose|i: int| 0 <= i < front.len() && front[i] == e.1.client_id;
            assert(clients[i] == e.1.client_id);
            assert(clients.last() != e.1.client_id);
        } else if clients.last() == e.1.client_id {
            assert(clients[clients.len() - 1] == e.1.client_id);
        } else {
            assert forall|i: int| 0 <= i < clients.len() implies clients[i] != e.1.client_id by {
                if i < front.len() {
                    assert(front[i] == clients[i]);
                }
            }
        }
    }
}

/// Grouping drops no event and adds none: the groups hold together as many
/// events as the input.
pub proof fn law_nothing_dropped(events: Seq<Event>)
    ensures
        group_sizes(events, clients_of(events)) == events.len(),
    decreases events.len(),
{
    if events.len() > 0 {
        let front = events.drop_last();
        let e = events.last();
        let listed = clients_of(front);
        law_nothing_dropped(front);
        lemma_clients_distinct(front);
        lemma_group_sizes_push(front, e, listed);
        assert(front.push(e) =~= events);
        if !listed.contains(e.1.client_id) {
            lemma_events_of_unlisted(front, e.1.client_id);
            assert(listed.push(e.1.client_id).drop_last() =~= listed);
        }
    }
}

/// Every event is found in the group of its client.
pub proof fn law_event_in_group(events: Seq<Event>, k: int)
    requires
        0 <= k < events.len(),
    ensures
        clients_of(events).contains(events[k].1.client_id),
        events_of(events, events[k].1.client_id).contains(events[k]),
    decreases events.len(),
{
    lemma_clients_complete(events, events[k].1.client_id);
    let mine = events_of(events, events[k].1.client_id);
    if k == events.len() - 1 {
        assert(mine[mine.len() - 1] == events[k]);
    } else {
        let front = events.drop_last();
        law_event_in_group(front, k);
        let before = events_of(front, events[k].1.client_id);
        let i = choose|i: int| 0 <= i < before.len() && before[i] == front[k];
        assert(mine[i] == events[k]);
    }
}

/// Whether `picked` names places of a list of `len` elements from left to
/// right: each is a place of the list, and each lies behind the one before.
pub open spec fn rising(picked: Seq<int>, len: int) -> bool {
    &&& forall|k: int| 0 <= k < picked.len() ==> 0 <= #[trigger] picked[k] < len
    &&& forall|j: int, k: int| 0 <= j < k < picked.len() ==> picked[j] < picked[k]
}

/// Grouping never reorders the events of a client: the group of a client is
/// made of events of the input, taken from left to right. The places they are
/// taken from are returned.
pub proof fn law_group_keeps_order(events: Seq<Event>, client_id: u16) -> (picked: Seq<int>)
    ensures
        picked.len() == events_of(events, client_id).len(),
        rising(picked, events.len() as int),
        forall|k: int|
            0 <= k < picked.len() ==> #[trigger] events_of(events, client_id)[k]
                == events[picked[k]],
    decreases events.len(),
{
    if events.len() == 0 {
        Seq::empty()
    } else {
        let front = events.drop_last();
        let before = law_group_keeps_order(front, client_id);
        if events.last().1.client_id == client_id {
            let picked = before.push(events.len() - 1);
            assert forall|k: int| 0 <= k < picked.len() implies #[trigger] events_of(
                events,
                client_id,
            )[k] == events[picked[k]] by {
                if k < before.len() {
                    assert(events_of(front, client_id)[k] == front[before[k]]);
                }
            }
            picked
        } else {
            assert forall|k: int| 0 <= k < before.len() implies #[trigger] events_of(
                events,
                client_id,
            )[k] == events[before[k]] by {
                assert(events_of(front, client_id)[k] == front[before[k]]);
            }
            before
        }
    }
}

} // verus!
