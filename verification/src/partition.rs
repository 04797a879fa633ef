//! Grouping the records by client, and folding each group into an account.
//!
//! A record comes with the place it had in the input. Grouping keeps the
//! records of a client in the order in which they were handed over; before a
//! group is folded it is put in the order of the places, so that a client's
//! records are applied as they arrived even where they were read out of
//! order. Groups share nothing: the account of a client depends on that
//! client's records alone.

use vstd::prelude::*;
use std::collections::HashMap;
use rayon::slice::ParallelSliceMut;
use crate::account::{Account, Rejection};
use crate::ledger::fold_events;
use crate::rules::{final_account, rejected_of, LedgerState};
use crate::transaction::{txns_of, Event};

verus! {

/// The clients of `events`, each once, in the order of their first record.
pub open spec fn clients_of(events: Seq<Event>) -> Seq<u16>
    decreases events.len(),
{
    if events.len() == 0 {
        Seq::empty()
    } else {
        let before = clients_of(events.drop_last());
        if before.contains(events.last().1.client_id) {
            before
        } else {
            before.push(events.last().1.client_id)
        }
    }
}

/// The events of `events` that belong to `client_id`, in the same order.
pub open spec fn events_of(events: Seq<Event>, client_id: u16) -> Seq<Event>
    decreases events.len(),
{
    if events.len() == 0 {
        Seq::empty()
    } else {
        let before = events_of(events.drop_last(), client_id);
        if events.last().1.client_id == client_id {
            before.push(events.last())
        } else {
            before
        }
    }
}

/// Whether `groups` is `events` grouped by client: one group for each client,
/// in the order of the clients' first records, holding that client's events
/// in their order.
pub open spec fn grouped(groups: Seq<(u16, Vec<Event>)>, events: Seq<Event>) -> bool {
    &&& groups.len() == clients_of(events).len()
    &&& forall|i: int|
        0 <= i < groups.len() ==> {
            &&& (#[trigger] groups[i]).0 == clients_of(events)[i]
            &&& groups[i].1@ == events_of(events, clients_of(events)[i])
        }
}

/// Whether the places of `events` never go down.
pub open spec fn ordered(events: Seq<Event>) -> bool {
    forall|i: int, j: int| 0 <= i <= j < events.len() ==> events[i].0 <= events[j].0
}

/// `sorted` with `e` put behind every event whose place is not greater.
pub open spec fn insert_by_place(sorted: Seq<Event>, e: Event) -> Seq<Event>
    decreases sorted.len(),
{
    if sorted.len() == 0 || sorted.last().0 <= e.0 {
        sorted.push(e)
    } else {
        insert_by_place(sorted.drop_last(), e).push(sorted.last())
    }
}

/// `events` in the order of their places, events of one place in the order
/// they had.
pub open spec fn sort_by_place(events: Seq<Event>) -> Seq<Event>
    decreases events.len(),
{
    if events.len() == 0 {
        events
    } else {
        insert_by_place(sort_by_place(events.drop_last()), events.last())
    }
}

/// The account that `events` leave to `client_id`: that client's events, in
/// the order of their places, folded from an empty account.
pub open spec fn account_for(events: Seq<Event>, client_id: u16) -> Account {
    final_account(client_id, txns_of(sort_by_place(events_of(events, client_id))))
}

/// The accounts that `events` leave: one for each client, in the order of the
/// clients' first records.
pub open spec fn accounts_of(events: Seq<Event>) -> Seq<Account> {
    Seq::new(clients_of(events).len(), |i: int| account_for(events, clients_of(events)[i]))
}

/// No client is listed twice.
pub proof fn lemma_clients_distinct(events: Seq<Event>)
    ensures
        clients_of(events).no_duplicates(),
    decreases events.len(),
{
    if events.len() > 0 {
        lemma_clients_distinct(events.drop_last());
    }
}

/// The listed clients are those that have a record.
pub proof fn lemma_clients_complete(events: Seq<Event>, client_id: u16)
    ensures
        clients_of(events).contains(client_id) <==> exists|k: int|
            0 <= k < events.len() && (#[trigger] events[k]).1.client_id == client_id,
    decreases events.len(),
{
    if events.len() > 0 {
        let before = events.drop_last();
        lemma_clients_complete(before, client_id);
        let c = events.last().1.client_id;
        if clients_of(before).contains(client_id) {
            let k = choose|k: int|
                0 <= k < before.len() && (#[trigger] before[k]).1.client_id == client_id;
            assert(events[k].1.client_id == client_id);
            if !clients_of(before).contains(c) {
                let i = choose|i: int|
                    0 <= i < clients_of(before).len() && clients_of(before)[i] == client_id;
                assert(clients_of(before).push(c)[i] == client_id);
            }
        } else if c == client_id {
            assert(events[events.len() - 1].1.client_id == client_id);
            assert(clients_of(before).push(c)[clients_of(before).len() as int] == client_id);
        } else {
            assert forall|k: int| 0 <= k < events.len() implies (#[trigger] events[k]).1.client_id
                != client_id by {
                if k < before.len() {
                    assert(before[k].1.client_id != client_id);
                }
            }
            if !clients_of(before).contains(c) {
                assert forall|i: int| 0 <= i < clients_of(before).push(c).len() implies clients_of(
                    before,
                ).push(c)[i] != client_id by {
                    if i < clients_of(before).len() {
                        assert(clients_of(before)[i] != client_id);
                    }
                }
            }
        }
    }
}

/// A client that is not listed has no events.
pub proof fn lemma_events_of_unlisted(events: Seq<Event>, client_id: u16)
    requires
        !clients_of(events).contains(client_id),
    ensures
        events_of(events, client_id) =~= Seq::<Event>::empty(),
    decreases events.len(),
{
    if events.len() > 0 {
        let before = clients_of(events.drop_last());
        let c = events.last().1.client_id;
        if !before.contains(c) {
            assert(before.push(c)[before.len() as int] == c);
            assert forall|i: int| 0 <= i < before.len() implies before[i] != client_id by {
                assert(before.push(c)[i] == before[i]);
            }
        }
        lemma_events_of_unlisted(events.drop_last(), client_id);
    }
}

/// Groups the events by client. The groups come in the order of the clients'
/// first events, and each holds the events of its client in the order in which
/// they were given: none is dropped, none is added.
pub fn txns_to_map(all_txns: Vec<Event>) -> (groups: Vec<(u16, Vec<Event>)>)
    ensures
        grouped(groups@, all_txns@),
{
    broadcast use vstd::std_specs::hash::group_hash_axioms;

    let mut groups: Vec<(u16, Vec<Event>)> = Vec::new();
    let mut index: HashMap<u16, usize> = HashMap::new();
    let mut k: usize = 0;
    while k < all_txns.len()
        invariant
            k <= all_txns.len(),
            grouped(groups@, all_txns@.take(k as int)),
            forall|c: u16|
                index@.contains_key(c) <==> clients_of(all_txns@.take(k as int)).contains(c),
            forall|c: u16| #[trigger]
                index@.contains_key(c) ==> index@[c] < groups.len() && groups@[index@[c] as int].0
                    == c,
        decreases all_txns.len() - k,
    {
        let event: Event = all_txns[k];
        let client_id: u16 = event.1.client_id;
        let ghost before = all_txns@.take(k as int);
        let ghost after = all_txns@.take(k + 1);
        proof {
            assert(after.drop_last() =~= before);
            lemma_clients_distinct(before);
        }
        let found: Option<usize> = match index.get(&client_id) {
            Some(at) => Some(*at),
            None => None,
        };
        match found {
            Some(at) => {
                groups[at].1.push(event);
            },
            None => {
                let mut first: Vec<Event> = Vec::new();
                first.push(event);
                index.insert(client_id, groups.len());
                groups.push((client_id, first));
                proof {
                    lemma_events_of_unlisted(before, client_id);
                    assert forall|c: u16|
                        index@.contains_key(c) <==> clients_of(after).contains(c) by {
                        if clients_of(after).contains(c) {
                            let i = choose|i: int|
                                0 <= i < clients_of(after).len() && clients_of(after)[i] == c;
                            if i < clients_of(before).len() {
                                assert(clients_of(before)[i] == c);
                            }
                        }
                        if clients_of(before).contains(c) {
                            let i = choose|i: int|
                                0 <= i < clients_of(before).len() && clients_of(before)[i] == c;
                            assert(clients_of(after)[i] == c);
                        }
                        assert(clients_of(after)[clients_of(before).len() as int] == client_id);
                    }
                }
            },
        }
        k = k + 1;
    }
    assert(all_txns@.take(k as int) =~= all_txns@);
    groups
}

/// Putting an event into an ordered list leaves it ordered, with the same
/// events and the new one.
pub proof fn lemma_insert_by_place(sorted: Seq<Event>, e: Event)
    requires
        ordered(sorted),
    ensures
        ordered(insert_by_place(sorted, e)),
        insert_by_place(sorted, e).len() == sorted.len() + 1,
        insert_by_place(sorted, e).to_multiset() == sorted.to_multiset().insert(e),
        forall|i: int|
            0 <= i < insert_by_place(sorted, e).len() ==> #[trigger] insert_by_place(sorted, e)[i]
                == e || sorted.contains(insert_by_place(sorted, e)[i]),
    decreases sorted.len(),
{
    broadcast use vstd::seq_lib::group_to_multiset_ensures;

    if sorted.len() > 0 && sorted.last().0 > e.0 {
        let front = sorted.drop_last();
        lemma_insert_by_place(front, e);
        assert(sorted =~= front.push(sorted.last()));
    }
}

/// Sorting gives an ordered list of the same events.
pub proof fn lemma_sort_by_place(events: Seq<Event>)
    ensures
        ordered(sort_by_place(events)),
        sort_by_place(events).len() == events.len(),
        sort_by_place(events).to_multiset() == events.to_multiset(),
    decreases events.len(),
{
    broadcast use vstd::seq_lib::group_to_multiset_ensures;

    if events.len() > 0 {
        lemma_sort_by_place(events.drop_last());
        lemma_insert_by_place(sort_by_place(events.drop_last()), events.last());
        assert(events =~= events.drop_last().push(events.last()));
    }
}

/// Sorting leaves an ordered list as it is.
pub proof fn lemma_sort_ordered(events: Seq<Event>)
    requires
        ordered(events),
    ensures
        sort_by_place(events) == events,
    decreases events.len(),
{
    if events.len() > 0 {
        let front = events.drop_last();
        lemma_sort_ordered(front);
    }
}

/// The events of `events` whose place is `place`, in the same order.
pub open spec fn at_place(events: Seq<Event>, place: usize) -> Seq<Event>
    decreases events.len(),
{
    if events.len() == 0 {
        Seq::empty()
    } else {
        let before = at_place(events.drop_last(), place);
        if events.last().0 == place {
            before.push(events.last())
        } else {
            before
        }
    }
}

/// Whether `sorted` is `events` after a stable sort by place: the places
/// never go down, and the events of any one place are the same, in the same
/// order, as in `events`.
pub open spec fn stably_sorted(sorted: Seq<Event>, events: Seq<Event>) -> bool {
    &&& ordered(sorted)
    &&& forall|place: usize| #[trigger] at_place(sorted, place) == at_place(events, place)
}

/// A place that an event of the list has is a place at which the list holds
/// an event, and the other way round.
pub proof fn lemma_at_place_some(events: Seq<Event>, place: usize)
    ensures
        at_place(events, place).len() > 0 <==> exists|k: int|
            0 <= k < events.len() && (#[trigger] events[k]).0 == place,
    decreases events.len(),
{
    if events.len() > 0 {
        let front = events.drop_last();
        lemma_at_place_some(front, place);
        if events.last().0 == place {
            assert(events[events.len() - 1].0 == place);
        } else if at_place(front, place).len() > 0 {
            let k = choose|k: int| 0 <= k < front.len() && (#[trigger] front[k]).0 == place;
            assert(events[k].0 == place);
        } else {
            assert forall|k: int| 0 <= k < events.len() implies (#[trigger] events[k]).0
                != place by {
                if k < front.len() {
                    assert(front[k].0 != place);
                }
            }
        }
    }
}

/// Putting an event into an ordered list adds it at the end of the events of
/// its place, and changes nothing at the other places.
pub proof fn lemma_insert_at_place(sorted: Seq<Event>, e: Event, place: usize)
    ensures
        at_place(insert_by_place(sorted, e), place) == if e.0 == place {
            at_place(sorted, place).push(e)
        } else {
            at_place(sorted, place)
        },
    decreases sorted.len(),
{
    if sorted.len() == 0 || sorted.last().0 <= e.0 {
        assert(sorted.push(e).drop_last() =~= sorted);
    } else {
        let front = sorted.drop_last();
        let inner = insert_by_place(front, e);
        lemma_insert_at_place(front, e, place);
        assert(inner.push(sorted.last()).drop_last() =~= inner);
    }
}

/// Sorting is stable: at every place the sorted list holds the events that
/// the list held, in the order they had.
pub proof fn lemma_sort_is_stable(events: Seq<Event>)
    ensures
        stably_sorted(sort_by_place(events), events),
    decreases events.len(),
{
    lemma_sort_by_place(events);
    if events.len() > 0 {
        let front = events.drop_last();
        lemma_sort_is_stable(front);
        assert forall|place: usize| #[trigger]
            at_place(sort_by_place(events), place) == at_place(events, place) by {
            lemma_insert_at_place(sort_by_place(front), events.last(), place);
        }
    }
}

/// There is one stable sort: two ordered lists that hold the same events at
/// every place, in the same order, are the same list.
pub proof fn lemma_stable_sort_unique(a: Seq<Event>, b: Seq<Event>)
    requires
        ordered(a),
        ordered(b),
        forall|place: usize| #[trigger] at_place(a, place) == at_place(b, place),
    ensures
        a == b,
    decreases a.len(),
{
    if a.len() == 0 {
        if b.len() > 0 {
            assert(at_place(a, b.last().0).len() == 0);
        }
    } else {
        let pa = a.last().0;
        let pb = b.last().0;
        lemma_at_place_some(a, pb);
        lemma_at_place_some(b, pa);
        assert(at_place(a, pa).last() == a.last());
        let fa = a.drop_last();
        let fb = b.drop_last();
        assert forall|place: usize| #[trigger] at_place(fa, place) == at_place(fb, place) by {
            assert(at_place(a, place) == at_place(b, place));
            if place == pa {
                assert(at_place(fa, place) =~= at_place(a, place).drop_last());
            }
        }
        lemma_stable_sort_unique(fa, fb);
        assert(a =~= fa.push(a.last()));
    }
}

/// The events of `events` in the order of their places, by
/// `rayon::slice::ParallelSliceMut::par_sort_by_key` with the place as the key.
///
/// Trusted: the call sorts by the key, and the sort is stable. So the places
/// of the result never go down, and at every place the result holds the
/// events that `events` holds there, in the order they have there.
#[verifier::external_body]
fn sorted_by_place(events: &Vec<Event>) -> (sorted: Vec<Event>)
    ensures
        stably_sorted(sorted@, events@),
{
    let mut sorted = events.clone();
    sorted.par_sort_by_key(|e| e.0);
    sorted
}

/// The account of one client, and the events that were rejected on the way,
/// each with the reason: the client's events are put in the order of their
/// places and folded from an empty account.
pub fn account_of(client_id: u16, client_txns: &Vec<Event>) -> (r: (
    Account,
    Vec<(Event, Rejection)>,
))
    ensures
        r.0 == final_account(client_id, txns_of(sort_by_place(client_txns@))),
        r.0.wf(),
        r.0.client_id == client_id,
        r.1@ == rejected_of(LedgerState::start(client_id), sort_by_place(client_txns@)),
{
    let sorted = sorted_by_place(client_txns);
    proof {
        lemma_sort_is_stable(client_txns@);
        lemma_stable_sort_unique(sorted@, sort_by_place(client_txns@));
    }
    fold_events(client_id, &sorted)
}

/// The accounts of the groups, one for each, in the order of the groups.
pub fn txns_map_to_accounts(txns_map: Vec<(u16, Vec<Event>)>) -> (accounts: Vec<Account>)
    ensures
        accounts.len() == txns_map.len(),
        forall|i: int|
            0 <= i < accounts.len() ==> {
                &&& #[trigger] accounts[i] == final_account(
                    txns_map[i].0,
                    txns_of(sort_by_place(txns_map[i].1@)),
                )
                &&& accounts[i].wf()
                &&& accounts[i].client_id == txns_map[i].0
            },
{
    let mut accounts: Vec<Account> = Vec::new();
    let mut i: usize = 0;
    while i < txns_map.len()
        invariant
            i <= txns_map.len(),
            accounts.len() == i,
            forall|j: int|
                0 <= j < i ==> {
                    &&& #[trigger] accounts[j] == final_account(
                        txns_map[j].0,
                        txns_of(sort_by_place(txns_map[j].1@)),
                    )
                    &&& accounts[j].wf()
                    &&& accounts[j].client_id == txns_map[j].0
                },
        decreases txns_map.len() - i,
    {
        let folded = account_of(txns_map[i].0, &txns_map[i].1);
        accounts.push(folded.0);
        i = i + 1;
    }
    accounts
}

/// The accounts that the events leave: one for each client that has an event,
/// in the order of the clients' first events. Each is that client's events,
/// in the order of their places, folded from an empty account.
pub fn accounts_from_txns(all_txns: Vec<Event>) -> (accounts: Vec<Account>)
    ensures
        accounts@ == accounts_of(all_txns@),
        accounts.len() == clients_of(all_txns@).len(),
        forall|i: int|
            0 <= i < accounts.len() ==> (#[trigger] accounts[i]).wf() && accounts[i].client_id
                == clients_of(all_txns@)[i],
{
    let groups = txns_to_map(all_txns);
    let accounts = txns_map_to_accounts(groups);
    accounts
}

} // verus!
