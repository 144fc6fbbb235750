//! The invariant of the store is kept by every step.

use crate::receipts::{climbed, receipted};
use crate::search::{first_where, first_where_found, first_where_is_least};
use crate::store::{DbV, event_with, moved, notified_after};
use vstd::prelude::*;

verus! {

/// Looking up an event finds the same one after events are appended, or one of those.
pub proof fn lemma_event_kept(db: DbV, d: DbV, id: int)
    requires
        db.events.is_prefix_of(d.events),
    ensures
        db.event(id) is Some ==> d.event(id) == db.event(id),
        db.event(id) is None ==> match d.event(id) {
            None => true,
            Some(e) => exists|i: int| db.events.len() <= i < d.events.len() && d.events[i] == e,
        },
        d.event(id) matches Some(e) ==> e.id == id,
{
    let p = event_with(db.events, id);
    let q = event_with(d.events, id);
    first_where_is_least(db.events.len() as int, p);
    first_where_is_least(d.events.len() as int, q);
    assert forall|i: int| 0 <= i < db.events.len() implies #[trigger] q(i) == p(i) by {
        assert(d.events[i] == db.events[i]);
    }
    match first_where(db.events.len() as int, p) {
        Some(k) => {
            assert(q(k));
            assert forall|j: int| 0 <= j < k implies !#[trigger] q(j) by {
                assert(!p(j));
            }
            first_where_found(d.events.len() as int, q, k);
            assert(d.events[k] == db.events[k]);
        },
        None => {
            match first_where(d.events.len() as int, q) {
                Some(k) => {
                    if k < db.events.len() {
                        assert(q(k) == p(k));
                        assert(!p(k));
                    }
                    assert(d.events[k] == d.event(id)->0);
                },
                None => {},
            }
        },
    }
}

/// Appending events with objects as payloads keeps the payload invariant.
pub proof fn lemma_payloads_kept(db: DbV, d: DbV)
    requires
        db.payloads_wf(),
        db.events.is_prefix_of(d.events),
        d.records == db.records,
        forall|i: int|
            db.events.len() <= i < d.events.len() ==> (#[trigger] d.events[i]).data is Object,
    ensures
        d.payloads_wf(),
{
    assert forall|i: int| 0 <= i < d.records.len() implies match d.event(
        (#[trigger] d.records[i]).event_id,
    ) {
        Some(e) => e.data is Object || e.data is Null,
        None => true,
    } by {
        lemma_event_kept(db, d, d.records[i].event_id);
        assert(db.records[i] == d.records[i]);
    }
}

/// A move of a delivery appends one event whose payload is an object.
pub proof fn lemma_moved(
    db: DbV,
    k: int,
    next: Seq<char>,
    actor: Seq<char>,
    reason: Seq<char>,
    now: Seq<char>,
    instance: Seq<char>,
)
    requires
        0 <= k < db.deliveries.len(),
    ensures
        moved(db, k, next, actor, reason, now, instance) matches Ok((d, id)) ==> {
            &&& d.events.len() == db.events.len() + 1
            &&& db.events.is_prefix_of(d.events)
            &&& d.events.last().data is Object
            &&& d.events.last().id == db.sequence + 1 == id
            &&& d.sequence == db.sequence + 1
            &&& d.records == db.records
            &&& d.instances == db.instances
            &&& d.watches == db.watches
            &&& d.kv == db.kv
            &&& d.notifications == db.notifications
            &&& d.deliveries.len() == db.deliveries.len()
            &&& db.payloads_wf() ==> d.payloads_wf()
            &&& db.wf() ==> d.wf()
        },
{
    if let Ok((d, id)) = moved(db, k, next, actor, reason, now, instance) {
        assert(d.events.take(db.events.len() as int) =~= db.events);
        if db.payloads_wf() {
            lemma_payloads_kept(db, d);
        }
        if db.wf() {
            lemma_rows_kept(db, d);
        }
    }
}

/// A step that appends one event with the next id, and changes no key of a delivery, keeps the
/// invariant.
pub proof fn lemma_rows_kept(db: DbV, d: DbV)
    requires
        db.wf(),
        d.records == db.records,
        d.instances.len() == db.instances.len(),
        forall|i: int|
            0 <= i < db.instances.len() ==> (#[trigger] d.instances[i]).name == db.instances[i].name,
        d.sequence >= db.sequence,
        d.events == db.events || (d.sequence == db.sequence + 1 && d.events == db.events.push(
            d.events.last(),
        ) && d.events.last().id == d.sequence),
        d.deliveries.len() == db.deliveries.len(),
        forall|i: int|
            0 <= i < db.deliveries.len() ==> (#[trigger] d.deliveries[i]).message_id
                == db.deliveries[i].message_id && d.deliveries[i].recipient_name
                == db.deliveries[i].recipient_name,
    ensures
        d.wf(),
{
    assert(d.events_wf());
    assert(d.records_wf());
    assert forall|i: int| 0 <= i < d.deliveries.len() implies d.record(
        (#[trigger] d.deliveries[i]).message_id,
    ) is Some by {
        assert(db.record(db.deliveries[i].message_id) is Some);
        assert(d.record(d.deliveries[i].message_id) == db.record(db.deliveries[i].message_id));
    }
    assert forall|i: int, j: int| 0 <= i < j < d.deliveries.len() implies (
    #[trigger] d.deliveries[i]).message_id != (#[trigger] d.deliveries[j]).message_id
        || d.deliveries[i].recipient_name != d.deliveries[j].recipient_name by {
        assert(db.deliveries[i].message_id != db.deliveries[j].message_id
            || db.deliveries[i].recipient_name != db.deliveries[j].recipient_name);
    }
    assert forall|i: int, j: int| 0 <= i < j < d.instances.len() implies (
    #[trigger] d.instances[i]).name != (#[trigger] d.instances[j]).name by {
        assert(db.instances[i].name != db.instances[j].name);
    }
}

/// A climb along the chain of receipts keeps the invariant, and changes nothing but the delivery,
/// the event log and the sequence.
pub proof fn lemma_climbed(
    db: DbV,
    k: int,
    from: int,
    to: int,
    actor: Seq<char>,
    reason: Seq<char>,
    now: Seq<char>,
)
    requires
        0 <= k < db.deliveries.len(),
    ensures
        climbed(db, k, from, to, actor, reason, now) matches Ok(d) ==> {
            &&& db.events.is_prefix_of(d.events)
            &&& d.sequence >= db.sequence
            &&& d.records == db.records
            &&& d.instances == db.instances
            &&& d.watches == db.watches
            &&& d.kv == db.kv
            &&& d.notifications == db.notifications
            &&& d.deliveries.len() == db.deliveries.len()
            &&& d.deliveries == db.deliveries.update(k, d.deliveries[k])
            &&& d.deliveries[k].message_id == db.deliveries[k].message_id
            &&& d.deliveries[k].recipient_name == db.deliveries[k].recipient_name
            &&& d.deliveries[k].endpoint_epoch == db.deliveries[k].endpoint_epoch
            &&& d.deliveries[k].delivery_endpoint == db.deliveries[k].delivery_endpoint
            &&& d.deliveries[k].attempt == db.deliveries[k].attempt
            &&& from < to ==> d.deliveries[k].state == crate::lifecycle::receipt_state(to)
            &&& from < to ==> d.sequence > db.sequence
            &&& to <= from ==> d == db
            &&& forall|i: int|
                db.events.len() <= i < d.events.len() ==> (#[trigger] d.events[i]).data is Object
            &&& db.payloads_wf() ==> d.payloads_wf()
            &&& db.wf() ==> d.wf()
        },
    decreases to - from,
{
    if from < to {
        lemma_climbed(db, k, from, to - 1, actor, reason, now);
        if let Ok(d) = climbed(db, k, from, to - 1, actor, reason, now) {
            lemma_moved(d, k, crate::lifecycle::receipt_state(to), actor, reason, now, actor);
            if let Ok(d2) = climbed(db, k, from, to, actor, reason, now) {
                assert(d2.deliveries =~= db.deliveries.update(k, d2.deliveries[k]));
            }
        }
    } else {
        assert(db.deliveries =~= db.deliveries.update(k, db.deliveries[k]));
    }
}

/// A receipt keeps the invariant.
pub proof fn receipt_keeps_invariant(
    db: DbV,
    message_id: Seq<char>,
    recipient: Seq<char>,
    actor: Seq<char>,
    endpoint_epoch: Seq<char>,
    requested: Seq<char>,
    reason: Seq<char>,
    now: Seq<char>,
)
    ensures
        receipted(db, message_id, recipient, actor, endpoint_epoch, requested, reason, now) matches Ok(
            (d, _),
        ) ==> (db.wf() ==> d.wf()) && (db.payloads_wf() ==> d.payloads_wf()),
{
    if let Some(k) = db.delivery_pos(message_id, recipient) {
        lemma_delivery_pos(db, message_id, recipient);
        let from = crate::lifecycle::receipt_rank(db.deliveries[k].state);
        let to = crate::lifecycle::receipt_rank(requested);
        if from is Some && to is Some {
            lemma_climbed(db, k, from->0, to->0, actor, reason, now);
            if let Ok(d) = climbed(db, k, from->0, to->0, actor, reason, now) {
                lemma_notified(d, db.sequence);
            }
        }
    }
}

/// Appending events with objects as payloads keeps a message readable.
pub proof fn lemma_readable_kept(db: DbV, d: DbV, message_id: Seq<char>)
    requires
        db.readable(message_id),
        db.events.is_prefix_of(d.events),
        d.records == db.records,
        forall|i: int|
            db.events.len() <= i < d.events.len() ==> (#[trigger] d.events[i]).data is Object,
    ensures
        d.readable(message_id),
{
    if let Some(r) = d.record(message_id) {
        lemma_event_kept(db, d, r.event_id);
    }
}

/// A receipt keeps what is readable readable.
pub proof fn lemma_receipt_keeps_readable(
    db: DbV,
    message_id: Seq<char>,
    recipient: Seq<char>,
    actor: Seq<char>,
    endpoint_epoch: Seq<char>,
    requested: Seq<char>,
    reason: Seq<char>,
    now: Seq<char>,
    shown: Seq<char>,
)
    requires
        db.readable(shown),
    ensures
        receipted(db, message_id, recipient, actor, endpoint_epoch, requested, reason, now) matches Ok(
            (d, _),
        ) ==> d.readable(shown),
{
    if let Some(k) = db.delivery_pos(message_id, recipient) {
        lemma_delivery_pos(db, message_id, recipient);
        let from = crate::lifecycle::receipt_rank(db.deliveries[k].state);
        let to = crate::lifecycle::receipt_rank(requested);
        if from is Some && to is Some {
            lemma_climbed(db, k, from->0, to->0, actor, reason, now);
            if let Ok(d) = climbed(db, k, from->0, to->0, actor, reason, now) {
                lemma_readable_kept(db, d, shown);
            }
        }
    }
}

/// Notifications are no part of the invariant.
pub proof fn lemma_notified(db: DbV, from: int)
    ensures
        db.wf() ==> notified_after(db, from).wf(),
        db.payloads_wf() ==> notified_after(db, from).payloads_wf(),
{
    let d = notified_after(db, from);
    if db.wf() {
        lemma_rows_kept(db, d);
    }
    if db.payloads_wf() {
        assert(d.events.take(db.events.len() as int) =~= db.events);
        lemma_payloads_kept(db, d);
    }
}

/// The delivery that is found is of the message and to the recipient.
pub proof fn lemma_delivery_pos(db: DbV, message_id: Seq<char>, recipient: Seq<char>)
    ensures
        db.delivery_pos(message_id, recipient) matches Some(k) ==> 0 <= k < db.deliveries.len()
            && db.deliveries[k].message_id == message_id && db.deliveries[k].recipient_name
            == recipient,
{
    first_where_is_least(
        db.deliveries.len() as int,
        crate::store::delivery_of(db.deliveries, message_id, recipient),
    );
}

} // verus!
