//! How the store evolves: what every operation on messages keeps, and what it never undoes.

use crate::invariants::{lemma_delivery_pos, lemma_event_kept};
use crate::json::JsonV;
use crate::lifecycle::{
    cancellation_target, closed_to_replies, queued, receipt_rank, receipt_state, superseded,
    watches_cleared,
};
use crate::receipts::{
    acknowledged, acknowledged_one, advanced, claimed, claimed_one, climbed, fetched,
    inbox_acknowledged, receipted, rebound,
};
use crate::search::{first_where, first_where_is_least};
use crate::senders::{
    OutcomeV, cancelled, message_cancelled, outcome_watches_cleared, recipient_order,
    recipient_order_lists_all, reply_claimed, timeout_logged,
};
use crate::store::{
    DbV, DeliveryV, InstanceV, RecordV, event_logged, event_with, moved, notified_after,
};
use vstd::prelude::*;

verus! {

/// Whether a delivery in one state can come to be in another. A delivery climbs from queued over
/// received and accepted to acknowledged; on the way it can be cancelled or superseded, for good
/// while its recipient has not taken it up and as a request after that, or it can fail; and it can be
/// replied to until it is closed.
pub open spec fn state_follows(a: Seq<char>, b: Seq<char>) -> bool {
    a == b || (!closed_to_replies(a) && (b == "replied"@ || match receipt_rank(a) {
        None => false,
        Some(r) => {
            ||| receipt_rank(b) is Some && receipt_rank(b)->0 > r
            ||| r == 0 && b == "cancelled"@
            ||| b == "cancellation_requested"@
            ||| r <= 1 && b == "superseded"@
            ||| b == "supersession_requested"@
            ||| b == "delivery_failed"@
        },
    }))
}

/// The states are different from each other.
pub proof fn lemma_states()
    ensures
        receipt_rank("queued"@) == Some(0int),
        receipt_rank("received"@) == Some(1int),
        receipt_rank("accepted"@) == Some(2int),
        receipt_rank("acknowledged"@) == Some(3int),
        receipt_rank("replied"@) is None,
        receipt_rank("cancelled"@) is None,
        receipt_rank("superseded"@) is None,
        receipt_rank("delivery_failed"@) is None,
        receipt_rank("cancellation_requested"@) is None,
        receipt_rank("supersession_requested"@) is None,
        !closed_to_replies("queued"@),
        !closed_to_replies("received"@),
        !closed_to_replies("accepted"@),
        !closed_to_replies("acknowledged"@),
        !closed_to_replies("cancellation_requested"@),
        !closed_to_replies("supersession_requested"@),
        "cancelled"@ != "superseded"@,
        "cancelled"@ != "replied"@,
        "superseded"@ != "replied"@,
{
    reveal_strlit("queued");
    reveal_strlit("received");
    reveal_strlit("accepted");
    reveal_strlit("acknowledged");
    reveal_strlit("replied");
    reveal_strlit("cancelled");
    reveal_strlit("superseded");
    reveal_strlit("delivery_failed");
    reveal_strlit("cancellation_requested");
    reveal_strlit("supersession_requested");
    assert("queued"@.len() == 6 && "received"@.len() == 8 && "accepted"@.len() == 8
        && "acknowledged"@.len() == 12 && "replied"@.len() == 7 && "cancelled"@.len() == 9
        && "superseded"@.len() == 10 && "delivery_failed"@.len() == 15
        && "cancellation_requested"@.len() == 22 && "supersession_requested"@.len() == 22);
    assert("received"@[0] == 'r' && "accepted"@[0] == 'a');
}

/// What can follow what can follow a state can follow it.
pub proof fn states_follow_transitively(a: Seq<char>, b: Seq<char>, c: Seq<char>)
    requires
        state_follows(a, b),
        state_follows(b, c),
    ensures
        state_follows(a, c),
{
    lemma_states();
}

/// Nothing follows a state in which a delivery is closed but that state.
pub proof fn closed_states_are_final(a: Seq<char>, b: Seq<char>)
    requires
        closed_to_replies(a),
        state_follows(a, b),
    ensures
        b == a,
{
}

/// Whether a delivery can have become another: it is of the same message to the same recipient, at
/// the same endpoint and in the same attempt.
pub open spec fn delivery_follows(a: DeliveryV, b: DeliveryV) -> bool {
    &&& b.message_id == a.message_id
    &&& b.recipient_name == a.recipient_name
    &&& b.delivery_endpoint == a.delivery_endpoint
    &&& b.attempt == a.attempt
    &&& state_follows(a.state, b.state)
}

/// Whether an instance can have become another: only its cursor moves, and forward.
pub open spec fn instance_follows(a: InstanceV, b: InstanceV) -> bool {
    &&& b.name == a.name
    &&& b.endpoint_epoch == a.endpoint_epoch
    &&& b.origin_device_id == a.origin_device_id
    &&& b.last_event_id >= a.last_event_id
}

/// Whether a store can have become another by operations on messages: the log, the records and the
/// deliveries only grow, new events get the next ids, and nothing that stands is undone.
pub open spec fn follows(db: DbV, d: DbV) -> bool {
    &&& db.events.is_prefix_of(d.events)
    &&& d.sequence - db.sequence == d.events.len() - db.events.len()
    &&& forall|i: int|
        db.events.len() <= i < d.events.len() ==> (#[trigger] d.events[i]).id == db.sequence + 1 + i
            - db.events.len()
    &&& db.records.is_prefix_of(d.records)
    &&& forall|i: int|
        db.records.len() <= i < d.records.len() ==> db.sequence < (
        #[trigger] d.records[i]).event_id <= d.sequence
    &&& db.deliveries.len() <= d.deliveries.len()
    &&& forall|i: int|
        0 <= i < db.deliveries.len() ==> delivery_follows(
            db.deliveries[i],
            #[trigger] d.deliveries[i],
        )
    &&& d.instances.len() == db.instances.len()
    &&& forall|i: int|
        0 <= i < db.instances.len() ==> instance_follows(
            db.instances[i],
            #[trigger] d.instances[i],
        )
    &&& d.kv == db.kv
    &&& db.notifications.is_prefix_of(d.notifications)
}

/// Whether the events that one store has beyond another have objects as payloads, but for those with
/// one given payload.
pub open spec fn logs_objects_or(db: DbV, d: DbV, data: JsonV) -> bool {
    forall|i: int|
        db.events.len() <= i < d.events.len() ==> (#[trigger] d.events[i]).data is Object
            || d.events[i].data == data
}

/// Whether one store follows another and has no new record, no new delivery, and no new event but
/// with an object as its payload.
pub open spec fn follows_closely(db: DbV, d: DbV) -> bool {
    &&& follows(db, d)
    &&& forall|i: int|
        db.events.len() <= i < d.events.len() ==> (#[trigger] d.events[i]).data is Object
    &&& d.records == db.records
    &&& d.deliveries.len() == db.deliveries.len()
}

/// A store follows itself.
pub proof fn lemma_follows_itself(db: DbV)
    ensures
        follows_closely(db, db),
{
    assert(db.events.is_prefix_of(db.events));
}

/// What follows what follows a store follows it.
pub proof fn stores_follow_transitively(a: DbV, b: DbV, c: DbV)
    requires
        follows(a, b),
        follows(b, c),
    ensures
        follows(a, c),
        follows_closely(a, b) && follows_closely(b, c) ==> follows_closely(a, c),
{
    assert(a.events.is_prefix_of(c.events)) by {
        assert(a.events =~= c.events.take(a.events.len() as int));
    }
    assert forall|i: int| a.events.len() <= i < c.events.len() implies (
    #[trigger] c.events[i]).id == a.sequence + 1 + i - a.events.len() && (follows_closely(a, b)
        && follows_closely(b, c) ==> c.events[i].data is Object) by {
        if i < b.events.len() {
            assert(c.events[i] == b.events[i]);
        }
    }
    assert(a.records.is_prefix_of(c.records)) by {
        assert(a.records =~= c.records.take(a.records.len() as int));
    }
    assert forall|i: int| a.records.len() <= i < c.records.len() implies a.sequence < (
    #[trigger] c.records[i]).event_id <= c.sequence by {
        if i < b.records.len() {
            assert(c.records[i] == b.records[i]);
        }
    }
    assert forall|i: int| 0 <= i < a.deliveries.len() implies delivery_follows(
        a.deliveries[i],
        #[trigger] c.deliveries[i],
    ) by {
        assert(delivery_follows(a.deliveries[i], b.deliveries[i]));
        assert(delivery_follows(b.deliveries[i], c.deliveries[i]));
        states_follow_transitively(
            a.deliveries[i].state,
            b.deliveries[i].state,
            c.deliveries[i].state,
        );
    }
    assert forall|i: int| 0 <= i < a.instances.len() implies instance_follows(
        a.instances[i],
        #[trigger] c.instances[i],
    ) by {
        assert(instance_follows(a.instances[i], b.instances[i]));
        assert(instance_follows(b.instances[i], c.instances[i]));
    }
    assert(a.notifications.is_prefix_of(c.notifications)) by {
        assert(a.notifications =~= c.notifications.take(a.notifications.len() as int));
    }
}

/// Logging an event leads to a store that follows: closely, where its payload is an object.
pub proof fn lemma_logged(db: DbV, timestamp: Seq<char>, kind: Seq<char>, instance: Seq<char>, data: JsonV)
    ensures
        event_logged(db, timestamp, kind, instance, data) matches Ok((d, _)) ==> follows(db, d) && (
        data is Object ==> follows_closely(db, d)),
{
    if let Ok((d, _)) = event_logged(db, timestamp, kind, instance, data) {
        assert(db.events =~= d.events.take(db.events.len() as int));
    }
}

/// Moving a delivery to a state that can follow leads to a store that follows.
pub proof fn lemma_move_follows(
    db: DbV,
    k: int,
    next: Seq<char>,
    actor: Seq<char>,
    reason: Seq<char>,
    now: Seq<char>,
    instance: Seq<char>,
)
    requires
        0 <= k < db.deliveries.len(),
        state_follows(db.deliveries[k].state, next),
    ensures
        moved(db, k, next, actor, reason, now, instance) matches Ok((d, _)) ==> follows_closely(
            db,
            d,
        ),
{
    if let Ok((d, _)) = moved(db, k, next, actor, reason, now, instance) {
        assert(db.events =~= d.events.take(db.events.len() as int));
    }
}

/// Queueing events for the subscriptions leads to a store that follows.
pub proof fn lemma_notified_follows(db: DbV, from: int)
    ensures
        follows_closely(db, notified_after(db, from)),
{
    let d = notified_after(db, from);
    assert(db.events.is_prefix_of(d.events));
    assert(db.notifications =~= d.notifications.take(db.notifications.len() as int));
}

/// A climb along the chain of receipts leads to a store that follows.
proof fn lemma_climb_follows(
    db: DbV,
    k: int,
    from: int,
    to: int,
    actor: Seq<char>,
    reason: Seq<char>,
    now: Seq<char>,
)
    requires
        0 <= k < db.deliveries.len(),
        receipt_rank(db.deliveries[k].state) == Some(from),
        to <= 3,
    ensures
        climbed(db, k, from, to, actor, reason, now) matches Ok(d) ==> follows_closely(db, d) && (
        from < to ==> d.deliveries[k].state == receipt_state(to)),
    decreases to - from,
{
    lemma_states();
    if from < to {
        lemma_climb_follows(db, k, from, to - 1, actor, reason, now);
        if let Ok(d) = climbed(db, k, from, to - 1, actor, reason, now) {
            if from < to - 1 {
                assert(d.deliveries[k].state == receipt_state(to - 1));
            }
            assert(receipt_rank(d.deliveries[k].state) == Some(to - 1));
            lemma_move_follows(d, k, receipt_state(to), actor, reason, now, actor);
            if let Ok((d2, _)) = moved(d, k, receipt_state(to), actor, reason, now, actor) {
                stores_follow_transitively(db, d, d2);
            }
        }
    } else {
        lemma_follows_itself(db);
    }
}

/// A receipt leads to a store that follows.
pub proof fn receipts_follow(
    db: DbV,
    message_id: Seq<char>,
    recipient: Seq<char>,
    actor: Seq<char>,
    endpoint_epoch: Seq<char>,
    requested: Seq<char>,
    reason: Seq<char>,
    now: Seq<char>,
)
    ensures
        receipted(db, message_id, recipient, actor, endpoint_epoch, requested, reason, now) matches Ok(
            (d, _),
        ) ==> follows_closely(db, d),
{
    lemma_follows_itself(db);
    lemma_states();
    if let Some(k) = db.delivery_pos(message_id, recipient) {
        lemma_delivery_pos(db, message_id, recipient);
        let from = receipt_rank(db.deliveries[k].state);
        let to = receipt_rank(requested);
        if from is Some && to is Some {
            lemma_climb_follows(db, k, from->0, to->0, actor, reason, now);
            if let Ok(d) = climbed(db, k, from->0, to->0, actor, reason, now) {
                lemma_notified_follows(d, db.sequence);
                stores_follow_transitively(db, d, notified_after(d, db.sequence));
            }
        }
    }
}

/// Fetching one message leads to a store that follows.
pub proof fn lemma_claim_one_follows(
    db: DbV,
    recipient: Seq<char>,
    epoch: Seq<char>,
    now: Seq<char>,
    message_id: Seq<char>,
)
    ensures
        claimed_one(db, recipient, epoch, now, message_id) matches Ok((d, _)) ==> follows_closely(
            db,
            d,
        ),
{
    lemma_follows_itself(db);
    lemma_states();
    if let Some(k) = db.delivery_pos(message_id, recipient) {
        lemma_delivery_pos(db, message_id, recipient);
        let row = db.deliveries[k];
        let bound = rebound(db, k, epoch);
        assert(db.events.is_prefix_of(bound.events));
        assert(follows_closely(db, bound));
        if row.state == "queued"@ {
            let reason = crate::receipts::fetch_reason(row, epoch);
            lemma_move_follows(bound, k, "received"@, recipient, reason, now, recipient);
            if let Ok((d, _)) = moved(bound, k, "received"@, recipient, reason, now, recipient) {
                stores_follow_transitively(db, bound, d);
            }
        }
    }
}

proof fn lemma_claims_follow(
    db: DbV,
    recipient: Seq<char>,
    epoch: Seq<char>,
    now: Seq<char>,
    message_ids: Seq<Seq<char>>,
    n: int,
)
    ensures
        claimed(db, recipient, epoch, now, message_ids, n) matches Ok((d, _)) ==> follows_closely(
            db,
            d,
        ),
    decreases n,
{
    if n <= 0 {
        lemma_follows_itself(db);
    } else {
        lemma_claims_follow(db, recipient, epoch, now, message_ids, n - 1);
        if let Ok((d, _)) = claimed(db, recipient, epoch, now, message_ids, n - 1) {
            lemma_claim_one_follows(d, recipient, epoch, now, message_ids[n - 1]);
            if let Ok((d2, _)) = claimed_one(d, recipient, epoch, now, message_ids[n - 1]) {
                stores_follow_transitively(db, d, d2);
            }
        }
    }
}

/// A fetch leads to a store that follows.
pub proof fn fetches_follow(db: DbV, recipient: Seq<char>, message_ids: Seq<Seq<char>>, now: Seq<char>)
    ensures
        fetched(db, recipient, message_ids, now) matches Ok((d, _)) ==> follows_closely(db, d),
{
    if let Some(epoch) = db.epoch_of(recipient) {
        lemma_claims_follow(db, recipient, epoch, now, message_ids, message_ids.len() as int);
        if let Ok((d, _)) = claimed(
            db,
            recipient,
            epoch,
            now,
            message_ids,
            message_ids.len() as int,
        ) {
            lemma_notified_follows(d, db.sequence);
            stores_follow_transitively(db, d, notified_after(d, db.sequence));
        }
    }
}

pub proof fn lemma_acknowledge_one_follows(
    db: DbV,
    record: RecordV,
    recipient: Seq<char>,
    epoch: Seq<char>,
    cursor: int,
    now: Seq<char>,
)
    ensures
        acknowledged_one(db, record, recipient, epoch, cursor, now) matches Ok(d)
            ==> follows_closely(db, d),
{
    lemma_follows_itself(db);
    if let Some(k) = db.delivery_pos(record.message_id, recipient) {
        lemma_delivery_pos(db, record.message_id, recipient);
        if let Some(rank) = receipt_rank(db.deliveries[k].state) {
            lemma_climb_follows(
                db,
                k,
                rank,
                3,
                recipient,
                "Pi accepted inbox delivery"@,
                now,
            );
        }
    }
}

proof fn lemma_acknowledgements_follow(
    db: DbV,
    recipient: Seq<char>,
    epoch: Seq<char>,
    cursor: int,
    now: Seq<char>,
    n: int,
)
    ensures
        acknowledged(db, recipient, epoch, cursor, now, n) matches Ok(d) ==> follows_closely(db, d),
    decreases n,
{
    if n <= 0 {
        lemma_follows_itself(db);
    } else {
        lemma_acknowledgements_follow(db, recipient, epoch, cursor, now, n - 1);
        if let Ok(d) = acknowledged(db, recipient, epoch, cursor, now, n - 1) {
            lemma_acknowledge_one_follows(d, db.records[n - 1], recipient, epoch, cursor, now);
            if let Ok(d2) = acknowledged_one(
                d,
                db.records[n - 1],
                recipient,
                epoch,
                cursor,
                now,
            ) {
                stores_follow_transitively(db, d, d2);
            }
        }
    }
}

/// An acknowledgement leads to a store that follows.
pub proof fn acknowledgements_follow(db: DbV, recipient: Seq<char>, cursor: int, now: Seq<char>)
    ensures
        inbox_acknowledged(db, recipient, cursor, now) matches Ok(d) ==> follows_closely(db, d),
{
    if let Some(i) = db.instance_pos(recipient) {
        first_where_is_least(
            db.instances.len() as int,
            crate::store::instance_named(db.instances, recipient),
        );
        let epoch = db.instances[i].endpoint_epoch;
        let n: int = db.records.len() as int;
        lemma_acknowledgements_follow(db, recipient, epoch, cursor, now, n);
        if let Ok(d) = acknowledged(db, recipient, epoch, cursor, now, n) {
            let moved_on = advanced(d, i, cursor);
            assert(d.events.is_prefix_of(moved_on.events));
            assert(follows_closely(d, moved_on));
            stores_follow_transitively(db, d, moved_on);
            lemma_notified_follows(moved_on, db.sequence);
            stores_follow_transitively(db, moved_on, notified_after(moved_on, db.sequence));
        }
    }
}

pub proof fn lemma_watches_cleared_follow(db: DbV, message_id: Seq<char>, recipient: Option<Seq<char>>)
    ensures
        follows_closely(db, watches_cleared(db, message_id, recipient)),
{
    lemma_follows_itself(db);
}

proof fn lemma_outcome_watches_follow(db: DbV, message_id: Seq<char>, outcomes: Seq<OutcomeV>, n: int)
    ensures
        follows_closely(db, outcome_watches_cleared(db, message_id, outcomes, n)),
    decreases n,
{
    if n <= 0 {
        lemma_follows_itself(db);
    } else {
        lemma_outcome_watches_follow(db, message_id, outcomes, n - 1);
        let d = outcome_watches_cleared(db, message_id, outcomes, n - 1);
        lemma_watches_cleared_follow(d, message_id, Some(outcomes[n - 1].recipient));
        stores_follow_transitively(db, d, outcome_watches_cleared(db, message_id, outcomes, n));
    }
}

proof fn lemma_cancellations_follow(db: DbV, order: Seq<int>, actor: Seq<char>, now: Seq<char>, n: int)
    requires
        0 <= n <= order.len(),
        forall|q: int| 0 <= q < order.len() ==> 0 <= #[trigger] order[q] < db.deliveries.len(),
    ensures
        cancelled(db, order, actor, now, n) matches Ok((d, _)) ==> follows_closely(db, d),
    decreases n,
{
    lemma_states();
    if n <= 0 {
        lemma_follows_itself(db);
    } else {
        lemma_cancellations_follow(db, order, actor, now, n - 1);
        if let Ok((d, _)) = cancelled(db, order, actor, now, n - 1) {
            let k = order[n - 1];
            if let Some(next) = cancellation_target(d.deliveries[k].state) {
                lemma_move_follows(d, k, next, actor, "cancel"@, now, actor);
                if let Ok((d2, _)) = moved(d, k, next, actor, "cancel"@, now, actor) {
                    stores_follow_transitively(db, d, d2);
                }
            }
        }
    }
}

/// A cancellation leads to a store that follows.
pub proof fn cancellations_follow(db: DbV, message_id: Seq<char>, actor: Seq<char>, now: Seq<char>)
    ensures
        message_cancelled(db, message_id, actor, now) matches Ok((d, _)) ==> follows_closely(db, d),
{
    let n: int = db.deliveries.len() as int;
    let order = recipient_order(db.deliveries, message_id, n);
    recipient_order_lists_all(db.deliveries, message_id, n);
    assert forall|q: int| 0 <= q < order.len() implies 0 <= #[trigger] order[q]
        < db.deliveries.len() by {
        assert(order.contains(order[q]));
    }
    lemma_cancellations_follow(db, order, actor, now, order.len() as int);
    if let Ok((d, outcomes)) = cancelled(db, order, actor, now, order.len() as int) {
        let cleared = outcome_watches_cleared(d, message_id, outcomes, outcomes.len() as int);
        lemma_outcome_watches_follow(d, message_id, outcomes, outcomes.len() as int);
        stores_follow_transitively(db, d, cleared);
        lemma_notified_follows(cleared, db.sequence);
        stores_follow_transitively(db, cleared, notified_after(cleared, db.sequence));
    }
}

/// A wait that times out leads to a store that follows.
pub proof fn timeouts_follow(db: DbV, message_id: Seq<char>, actor: Seq<char>, now: Seq<char>)
    ensures
        timeout_logged(db, message_id, actor, now) matches Ok((d, _)) ==> follows_closely(db, d),
{
    let data = crate::senders::timeout_data(message_id, actor, now);
    lemma_logged(db, now, "message_state"@, actor, data);
    if let Ok((d, _)) = event_logged(db, now, "message_state"@, actor, data) {
        lemma_notified_follows(d, db.sequence);
        stores_follow_transitively(db, d, notified_after(d, db.sequence));
    }
}

/// Taking a reply leads to a store that follows.
pub proof fn reply_claims_follow(db: DbV, request_id: Seq<char>, actor: Seq<char>, now: Seq<char>)
    ensures
        follows_closely(db, reply_claimed(db, request_id, actor, now).0),
{
    lemma_follows_itself(db);
    if let Ok(Some(v)) = crate::senders::reply_found(db, request_id, actor) {
        if let Some(id) = crate::json::member_text(v.message, "message_id"@) {
            receipts_follow(
                db,
                id,
                actor,
                actor,
                crate::senders::first_epoch(v),
                "acknowledged"@,
                "request waiter claimed reply"@,
                now,
            );
        }
    }
}

/// A turn of a wait leads to a store that follows.
pub proof fn wait_turns_follow(db: DbV, request_id: Seq<char>, actor: Seq<char>, remaining_ms: Option<u64>, now: Seq<char>)
    ensures
        follows_closely(db, crate::render::turn_taken(db, request_id, actor, remaining_ms, now).0),
{
    reply_claims_follow(db, request_id, actor, now);
    let d = reply_claimed(db, request_id, actor, now).0;
    timeouts_follow(d, request_id, actor, now);
    if let Ok((t, _)) = timeout_logged(d, request_id, actor, now) {
        stores_follow_transitively(db, d, t);
    }
}

/// A store that follows one in order, without a new record or delivery, is in order.
pub proof fn invariant_is_kept(db: DbV, d: DbV)
    requires
        follows_closely(db, d),
        db.wf(),
    ensures
        d.wf(),
{
    assert(d.events_wf()) by {
        assert forall|i: int, j: int| 0 <= i < j < d.events.len() implies (
        #[trigger] d.events[i]).id < (#[trigger] d.events[j]).id by {
            if i < db.events.len() {
                assert(d.events[i] == db.events[i]);
            }
            if j < db.events.len() {
                assert(d.events[j] == db.events[j]);
            }
        }
        assert forall|i: int| 0 <= i < d.events.len() implies (#[trigger] d.events[i]).id
            <= d.sequence by {
            if i < db.events.len() {
                assert(d.events[i] == db.events[i]);
            }
        }
    }
    assert forall|i: int| 0 <= i < d.deliveries.len() implies d.record(
        (#[trigger] d.deliveries[i]).message_id,
    ) is Some by {
        assert(delivery_follows(db.deliveries[i], d.deliveries[i]));
        assert(db.record(db.deliveries[i].message_id) is Some);
        assert(d.record(d.deliveries[i].message_id) == db.record(db.deliveries[i].message_id));
    }
    assert forall|i: int, j: int| 0 <= i < j < d.deliveries.len() implies (
    #[trigger] d.deliveries[i]).message_id != (#[trigger] d.deliveries[j]).message_id
        || d.deliveries[i].recipient_name != d.deliveries[j].recipient_name by {
        assert(delivery_follows(db.deliveries[i], d.deliveries[i]));
        assert(delivery_follows(db.deliveries[j], d.deliveries[j]));
    }
    assert forall|i: int, j: int| 0 <= i < j < d.instances.len() implies (
    #[trigger] d.instances[i]).name != (#[trigger] d.instances[j]).name by {
        assert(instance_follows(db.instances[i], d.instances[i]));
        assert(instance_follows(db.instances[j], d.instances[j]));
    }
}

/// A store that follows one in which every message on record has a readable payload is one of those,
/// where what was logged in between is readable.
pub proof fn payloads_stay_readable(db: DbV, d: DbV)
    requires
        follows(db, d),
        forall|i: int|
            db.events.len() <= i < d.events.len() ==> (#[trigger] d.events[i]).data is Object
                || d.events[i].data is Null,
        db.events_wf(),
        db.payloads_wf(),
    ensures
        d.payloads_wf(),
{
    assert forall|i: int| 0 <= i < d.records.len() implies match d.event(
        (#[trigger] d.records[i]).event_id,
    ) {
        Some(e) => e.data is Object || e.data is Null,
        None => true,
    } by {
        let id = d.records[i].event_id;
        lemma_event_kept(db, d, id);
        if i < db.records.len() {
            assert(d.records[i] == db.records[i]);
        } else {
            first_where_is_least(db.events.len() as int, event_with(db.events, id));
            if let Some(k) = first_where(db.events.len() as int, event_with(db.events, id)) {
                assert(event_with(db.events, id)(k));
                assert(db.events[k].id <= db.sequence);
            }
        }
    }
}

} // verus!
