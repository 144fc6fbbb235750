//! What holds of deliveries as their recipients take them in.

use crate::commits::lemma_delivery_found;
use crate::evolution::{
    acknowledgements_follow, delivery_follows, follows_closely, instance_follows, invariant_is_kept,
    lemma_follows_itself, lemma_states, receipts_follow, stores_follow_transitively,
};
use crate::invariants::{lemma_climbed, lemma_delivery_pos, lemma_event_kept};
use crate::json::{JsonV, member_text, with_member_reads_back};
use crate::lifecycle::{cancellation_target, receipt_rank, receipt_state, routes_to_inbox};
use crate::receipts::{
    DeliveryReceiptResult, ReceiptV, acknowledged, acknowledged_one, advanced, claimed, claimed_one, climbed,
    fetch_reason, fetched, inbox_acknowledged, passed_over, receipted,
    with_text,
};
use crate::rows::views;
use crate::search::{first_where, first_where_agrees, first_where_is_least};
use crate::senders::{
    CancelOutcome, InspectionV, OutcomeV, cancelled, deliveries_are_listed_once, first_epoch, message_cancelled, outcome_watches_cleared,
    recipient_order, recipient_order_lists_all, reply_claimed, reply_found, reply_waiting, sent_by,
    waits_for, with_event_id,
};
use crate::store::{
    DbV, DeliveryV, ErrorKind, ErrorV, EventV, HcomDb, LifecycleError, RecordV, TransitionV,
    delivery_of, id_range, instance_named, moved, notified_after, plain, record_of, refusal_text,
    transition_data, transitions_are_logged_in_full,
};
use crate::text::{after_prefix, texts};
use vstd::prelude::*;

verus! {

/// Deliveries stay where they are as the store evolves.
proof fn lemma_place_kept(db: DbV, d: DbV, message_id: Seq<char>, recipient: Seq<char>)
    requires
        follows_closely(db, d),
    ensures
        d.delivery_pos(message_id, recipient) == db.delivery_pos(message_id, recipient),
{
    let p = delivery_of(db.deliveries, message_id, recipient);
    let q = delivery_of(d.deliveries, message_id, recipient);
    assert forall|i: int| 0 <= i < db.deliveries.len() implies #[trigger] p(i) == q(i) by {
        assert(delivery_follows(db.deliveries[i], d.deliveries[i]));
    }
    first_where_agrees(db.deliveries.len() as int, p, q);
}

/// Instances stay where they are as the store evolves.
proof fn lemma_instance_kept(db: DbV, d: DbV, name: Seq<char>)
    requires
        follows_closely(db, d),
    ensures
        d.instance_pos(name) == db.instance_pos(name),
        d.epoch_of(name) == db.epoch_of(name),
        d.epoch_or_empty(name) == db.epoch_or_empty(name),
{
    let p = instance_named(db.instances, name);
    let q = instance_named(d.instances, name);
    assert forall|i: int| 0 <= i < db.instances.len() implies #[trigger] p(i) == q(i) by {
        assert(instance_follows(db.instances[i], d.instances[i]));
    }
    first_where_agrees(db.instances.len() as int, p, q);
    first_where_is_least(db.instances.len() as int, p);
    if let Some(i) = db.instance_pos(name) {
        assert(instance_follows(db.instances[i], d.instances[i]));
    }
}

/// What belongs to an inbox stays so as the store evolves.
proof fn lemma_route_kept(db: DbV, d: DbV, message_id: Seq<char>, endpoint: Seq<char>)
    requires
        follows_closely(db, d),
        db.wf(),
    ensures
        routes_to_inbox(d, message_id, endpoint) == routes_to_inbox(db, message_id, endpoint),
{
    if let Some(request) = after_prefix(endpoint, "request:"@) {
        assert(d.record(message_id) == db.record(message_id));
        assert(d.record(request) == db.record(request));
        if let Some(parent) = db.record(request) {
            first_where_is_least(db.records.len() as int, record_of(db.records, request));
            let at = first_where(db.records.len() as int, record_of(db.records, request))->0;
            assert(db.records[at] == parent);
            assert(parent.event_id <= db.sequence);
            lemma_event_kept(db, d, parent.event_id);
            if let Some(e) = d.event(parent.event_id) {
                if db.event(parent.event_id) is None {
                    let i = choose|i: int|
                        db.events.len() <= i < d.events.len() && d.events[i] == e;
                    assert(d.events[i].id > db.sequence);
                }
            }
        }
    }
}

/// A receipt brings the delivery to the state it reports, or leaves it beyond that state; and the
/// same receipt once more changes nothing.
pub proof fn receipts_are_idempotent(
    db: DbV,
    message_id: Seq<char>,
    recipient: Seq<char>,
    actor: Seq<char>,
    epoch: Seq<char>,
    requested: Seq<char>,
    reason: Seq<char>,
    now: Seq<char>,
    later: Seq<char>,
)
    requires
        receipted(db, message_id, recipient, actor, epoch, requested, reason, now) is Ok,
    ensures
        ({
            let (d, r) = receipted(
                db,
                message_id,
                recipient,
                actor,
                epoch,
                requested,
                reason,
                now,
            )->Ok_0;
            &&& d.delivery(message_id, recipient) matches Some(row) && row.state == r.state
            &&& receipt_rank(r.state) matches Some(rank) && rank >= receipt_rank(requested)->0
            &&& receipted(
                d,
                message_id,
                recipient,
                actor,
                epoch,
                requested,
                reason,
                later,
            ) matches Ok((d2, r2)) && d2 == d && r2.idempotent && r2.state == r.state
        }),
{
    lemma_states();
    receipts_follow(db, message_id, recipient, actor, epoch, requested, reason, now);
    let (d, r) = receipted(
        db,
        message_id,
        recipient,
        actor,
        epoch,
        requested,
        reason,
        now,
    )->Ok_0;
    lemma_place_kept(db, d, message_id, recipient);
    lemma_delivery_pos(db, message_id, recipient);
    let k = db.delivery_pos(message_id, recipient)->0;
    let row = db.deliveries[k];
    lemma_instance_kept(db, d, row.recipient_name);
    let from = receipt_rank(row.state)->0;
    let to = receipt_rank(requested)->0;
    if from < to {
        lemma_climbed(db, k, from, to, actor, reason, now);
        assert(d.deliveries[k].state == receipt_state(to));
        assert(receipt_state(to) == requested);
    }
}

/// A receipt at an endpoint that is not the recipient's current one is refused.
pub proof fn stale_receipts_are_refused(
    db: DbV,
    message_id: Seq<char>,
    recipient: Seq<char>,
    epoch: Seq<char>,
    requested: Seq<char>,
    reason: Seq<char>,
    now: Seq<char>,
)
    requires
        db.delivery(message_id, recipient) is Some,
        epoch != db.epoch_or_empty(recipient),
    ensures
        receipted(db, message_id, recipient, recipient, epoch, requested, reason, now) == Err::<
            (DbV, ReceiptV),
            ErrorV,
        >(plain(ErrorKind::StaleEpoch)),
{
    lemma_delivery_pos(db, message_id, recipient);
}

/// Nobody but the recipient can report a receipt.
pub proof fn receipts_are_the_recipients_own(
    db: DbV,
    message_id: Seq<char>,
    recipient: Seq<char>,
    actor: Seq<char>,
    epoch: Seq<char>,
    requested: Seq<char>,
    reason: Seq<char>,
    now: Seq<char>,
)
    requires
        actor != recipient,
    ensures
        receipted(db, message_id, recipient, actor, epoch, requested, reason, now) is Err,
{
    lemma_delivery_pos(db, message_id, recipient);
}

/// Whether an acknowledgement of a message would change nothing.
pub open spec fn rests(db: DbV, record: RecordV, recipient: Seq<char>, epoch: Seq<char>, cursor: int) -> bool {
    forall|now: Seq<char>|
        #[trigger] acknowledged_one(db, record, recipient, epoch, cursor, now) == Ok::<DbV, ErrorV>(
            db,
        )
}

/// Where an acknowledgement would change nothing, in terms of the delivery alone.
pub open spec fn at_rest(db: DbV, record: RecordV, recipient: Seq<char>, epoch: Seq<char>, cursor: int) -> bool {
    record.event_id > cursor || match db.delivery_pos(record.message_id, recipient) {
        None => true,
        Some(k) => {
            let row = db.deliveries[k];
            routes_to_inbox(db, record.message_id, row.delivery_endpoint) matches Ok(inbox) && (
            !inbox || passed_over(row.state) || (row.endpoint_epoch != epoch && row.state
                != "queued"@) || (row.endpoint_epoch == epoch && row.state == "acknowledged"@))
        },
    }
}

proof fn lemma_at_rest(db: DbV, record: RecordV, recipient: Seq<char>, epoch: Seq<char>, cursor: int)
    requires
        at_rest(db, record, recipient, epoch, cursor),
    ensures
        rests(db, record, recipient, epoch, cursor),
{
    lemma_states();
    assert forall|now: Seq<char>| #[trigger]
        acknowledged_one(db, record, recipient, epoch, cursor, now) == Ok::<DbV, ErrorV>(db) by {}
}

/// After a message is acknowledged it is at rest.
proof fn lemma_comes_to_rest(
    db: DbV,
    record: RecordV,
    recipient: Seq<char>,
    epoch: Seq<char>,
    cursor: int,
    now: Seq<char>,
)
    requires
        db.wf(),
    ensures
        acknowledged_one(db, record, recipient, epoch, cursor, now) matches Ok(d) ==> at_rest(
            d,
            record,
            recipient,
            epoch,
            cursor,
        ) && follows_closely(db, d) && (forall|i: int|
            0 <= i < db.deliveries.len() && (#[trigger] db.deliveries[i]).message_id
                != record.message_id ==> d.deliveries[i] == db.deliveries[i]),
{
    lemma_states();
    lemma_follows_itself(db);
    crate::evolution::lemma_acknowledge_one_follows(db, record, recipient, epoch, cursor, now);
    if let Ok(d) = acknowledged_one(db, record, recipient, epoch, cursor, now) {
        lemma_place_kept(db, d, record.message_id, recipient);
        lemma_delivery_pos(db, record.message_id, recipient);
        if let Some(k) = db.delivery_pos(record.message_id, recipient) {
            let row = db.deliveries[k];
            assert(delivery_follows(row, d.deliveries[k]));
            lemma_route_kept(db, d, record.message_id, row.delivery_endpoint);
            if let Some(rank) = receipt_rank(row.state) {
                lemma_climbed(
                    db,
                    k,
                    rank,
                    3,
                    recipient,
                    "Pi accepted inbox delivery"@,
                    now,
                );
            }
        }
    }
}

/// Acknowledging one message leaves another at rest.
proof fn lemma_stays_at_rest(
    db: DbV,
    d: DbV,
    record: RecordV,
    other: RecordV,
    recipient: Seq<char>,
    epoch: Seq<char>,
    cursor: int,
)
    requires
        db.wf(),
        follows_closely(db, d),
        at_rest(db, record, recipient, epoch, cursor),
        record.message_id != other.message_id,
        forall|i: int|
            0 <= i < db.deliveries.len() && (#[trigger] db.deliveries[i]).message_id
                != other.message_id ==> d.deliveries[i] == db.deliveries[i],
    ensures
        at_rest(d, record, recipient, epoch, cursor),
{
    lemma_place_kept(db, d, record.message_id, recipient);
    lemma_delivery_pos(db, record.message_id, recipient);
    if let Some(k) = db.delivery_pos(record.message_id, recipient) {
        lemma_route_kept(db, d, record.message_id, db.deliveries[k].delivery_endpoint);
    }
}

proof fn lemma_all_at_rest(db: DbV, recipient: Seq<char>, epoch: Seq<char>, cursor: int, now: Seq<char>, n: int)
    requires
        db.wf(),
        0 <= n <= db.records.len(),
    ensures
        acknowledged(db, recipient, epoch, cursor, now, n) matches Ok(d) ==> follows_closely(db, d)
            && forall|i: int|
            0 <= i < n ==> at_rest(d, #[trigger] db.records[i], recipient, epoch, cursor),
    decreases n,
{
    if n <= 0 {
        lemma_follows_itself(db);
    } else {
        lemma_all_at_rest(db, recipient, epoch, cursor, now, n - 1);
        if let Ok(d) = acknowledged(db, recipient, epoch, cursor, now, n - 1) {
            let record = db.records[n - 1];
            invariant_is_kept(db, d);
            lemma_comes_to_rest(d, record, recipient, epoch, cursor, now);
            if let Ok(d2) = acknowledged_one(d, record, recipient, epoch, cursor, now) {
                stores_follow_transitively(db, d, d2);
                assert forall|i: int| 0 <= i < n implies at_rest(
                    d2,
                    #[trigger] db.records[i],
                    recipient,
                    epoch,
                    cursor,
                ) by {
                    if i < n - 1 {
                        assert(db.records[i].message_id != record.message_id);
                        lemma_stays_at_rest(
                            d,
                            d2,
                            db.records[i],
                            record,
                            recipient,
                            epoch,
                            cursor,
                        );
                    }
                }
            }
        }
    }
}

proof fn lemma_rests_through(db: DbV, recipient: Seq<char>, epoch: Seq<char>, cursor: int, now: Seq<char>, n: int)
    requires
        0 <= n <= db.records.len(),
        forall|i: int|
            0 <= i < n ==> at_rest(db, #[trigger] db.records[i], recipient, epoch, cursor),
    ensures
        acknowledged(db, recipient, epoch, cursor, now, n) == Ok::<DbV, ErrorV>(db),
    decreases n,
{
    if n > 0 {
        lemma_rests_through(db, recipient, epoch, cursor, now, n - 1);
        lemma_at_rest(db, db.records[n - 1], recipient, epoch, cursor);
        assert(acknowledged_one(db, db.records[n - 1], recipient, epoch, cursor, now) == Ok::<
            DbV,
            ErrorV,
        >(db));
    }
}

/// A second acknowledgement up to the same event changes nothing.
pub proof fn acknowledging_twice_changes_nothing(db: DbV, recipient: Seq<char>, cursor: int, now: Seq<char>, later: Seq<char>)
    requires
        db.wf(),
        inbox_acknowledged(db, recipient, cursor, now) is Ok,
    ensures
        inbox_acknowledged(
            inbox_acknowledged(db, recipient, cursor, now)->Ok_0,
            recipient,
            cursor,
            later,
        ) == Ok::<DbV, ErrorV>(inbox_acknowledged(db, recipient, cursor, now)->Ok_0),
{
    let n: int = db.records.len() as int;
    let i = db.instance_pos(recipient)->0;
    first_where_is_least(db.instances.len() as int, instance_named(db.instances, recipient));
    let epoch = db.instances[i].endpoint_epoch;
    lemma_all_at_rest(db, recipient, epoch, cursor, now, n);
    let d = acknowledged(db, recipient, epoch, cursor, now, n)->Ok_0;
    let done = inbox_acknowledged(db, recipient, cursor, now)->Ok_0;
    acknowledgements_follow(db, recipient, cursor, now);
    lemma_instance_kept(db, done, recipient);
    assert(instance_follows(db.instances[i], done.instances[i]));
    assert forall|j: int| 0 <= j < n implies at_rest(
        done,
        #[trigger] done.records[j],
        recipient,
        epoch,
        cursor,
    ) by {
        assert(done.records[j] == db.records[j]);
        assert(at_rest(d, db.records[j], recipient, epoch, cursor));
        let m = db.records[j].message_id;
        assert(done.deliveries == d.deliveries);
        assert(done.delivery_pos(m, recipient) == d.delivery_pos(m, recipient));
        assert forall|endpoint: Seq<char>| #[trigger]
            routes_to_inbox(done, m, endpoint) == routes_to_inbox(d, m, endpoint) by {
            if let Some(request) = after_prefix(endpoint, "request:"@) {
                assert(done.record(m) == d.record(m));
                assert(done.record(request) == d.record(request));
                if let Some(parent) = d.record(request) {
                    assert(done.event(parent.event_id) == d.event(parent.event_id));
                }
            }
        }
    }
    lemma_rests_through(done, recipient, epoch, cursor, later, n);
    let again = notified_after(advanced(done, i, cursor), done.sequence);
    assert(advanced(done, i, cursor).instances =~= done.instances);
    assert(again.notifications =~= done.notifications);
}

/// An acknowledgement brings the cursor of the recipient to the event, or leaves it beyond, and no
/// other cursor moves.
pub proof fn cursors_reach_what_is_acknowledged(db: DbV, recipient: Seq<char>, cursor: int, now: Seq<char>, j: int)
    requires
        inbox_acknowledged(db, recipient, cursor, now) is Ok,
        0 <= j < db.instances.len(),
    ensures
        ({
            let d = inbox_acknowledged(db, recipient, cursor, now)->Ok_0;
            d.instances[j].last_event_id == if db.instance_pos(recipient) == Some(j)
                && db.instances[j].last_event_id < cursor {
                cursor
            } else {
                db.instances[j].last_event_id
            }
        }),
{
    let n: int = db.records.len() as int;
    let i = db.instance_pos(recipient)->0;
    first_where_is_least(db.instances.len() as int, instance_named(db.instances, recipient));
    let epoch = db.instances[i].endpoint_epoch;
    lemma_acknowledged_instances(db, recipient, epoch, cursor, now, n);
}

proof fn lemma_acknowledged_instances(
    db: DbV,
    recipient: Seq<char>,
    epoch: Seq<char>,
    cursor: int,
    now: Seq<char>,
    n: int,
)
    ensures
        acknowledged(db, recipient, epoch, cursor, now, n) matches Ok(d) ==> d.instances
            == db.instances,
    decreases n,
{
    if n > 0 {
        lemma_acknowledged_instances(db, recipient, epoch, cursor, now, n - 1);
        if let Ok(d) = acknowledged(db, recipient, epoch, cursor, now, n - 1) {
            let record = db.records[n - 1];
            lemma_delivery_pos(d, record.message_id, recipient);
            if let Some(k) = d.delivery_pos(record.message_id, recipient) {
                if let Some(rank) = receipt_rank(d.deliveries[k].state) {
                    lemma_climbed(
                        d,
                        k,
                        rank,
                        3,
                        recipient,
                        "Pi accepted inbox delivery"@,
                        now,
                    );
                }
            }
        }
    }
}

/// Whether a message is taken up at an endpoint: its delivery is not queued, and it is bound to the
/// endpoint while the recipient works on it.
pub open spec fn taken_up(db: DbV, message_id: Seq<char>, recipient: Seq<char>, epoch: Seq<char>) -> bool {
    match db.delivery(message_id, recipient) {
        None => true,
        Some(row) => routes_to_inbox(db, message_id, row.delivery_endpoint) == Ok::<bool, ErrorV>(
            true,
        ) ==> row.state != "queued"@ && ((row.state == "received"@ || row.state == "accepted"@)
            ==> row.endpoint_epoch == epoch),
    }
}

proof fn lemma_taken_up(db: DbV, recipient: Seq<char>, epoch: Seq<char>, now: Seq<char>, message_id: Seq<char>, other: Seq<char>)
    requires
        db.wf(),
    ensures
        claimed_one(db, recipient, epoch, now, message_id) matches Ok((d, _)) ==> follows_closely(
            db,
            d,
        ) && taken_up(d, message_id, recipient, epoch) && (taken_up(db, other, recipient, epoch)
            ==> taken_up(d, other, recipient, epoch)),
{
    lemma_states();
    crate::evolution::lemma_claim_one_follows(db, recipient, epoch, now, message_id);
    if let Ok((d, _)) = claimed_one(db, recipient, epoch, now, message_id) {
        lemma_place_kept(db, d, message_id, recipient);
        lemma_place_kept(db, d, other, recipient);
        lemma_delivery_pos(db, message_id, recipient);
        lemma_delivery_pos(db, other, recipient);
        if let Some(k) = db.delivery_pos(message_id, recipient) {
            lemma_route_kept(db, d, message_id, db.deliveries[k].delivery_endpoint);
        }
        if let Some(k) = db.delivery_pos(other, recipient) {
            lemma_route_kept(db, d, other, db.deliveries[k].delivery_endpoint);
        }
    }
}

proof fn lemma_all_taken_up(
    db: DbV,
    recipient: Seq<char>,
    epoch: Seq<char>,
    now: Seq<char>,
    message_ids: Seq<Seq<char>>,
    n: int,
)
    requires
        db.wf(),
        0 <= n <= message_ids.len(),
    ensures
        claimed(db, recipient, epoch, now, message_ids, n) matches Ok((d, _)) ==> follows_closely(
            db,
            d,
        ) && forall|i: int|
            0 <= i < n ==> taken_up(d, #[trigger] message_ids[i], recipient, epoch),
    decreases n,
{
    if n <= 0 {
        lemma_follows_itself(db);
    } else {
        lemma_all_taken_up(db, recipient, epoch, now, message_ids, n - 1);
        if let Ok((d, _)) = claimed(db, recipient, epoch, now, message_ids, n - 1) {
            invariant_is_kept(db, d);
            let last = message_ids[n - 1];
            lemma_taken_up(d, recipient, epoch, now, last, last);
            if let Ok((d2, _)) = claimed_one(d, recipient, epoch, now, last) {
                stores_follow_transitively(db, d, d2);
                assert forall|i: int| 0 <= i < n implies taken_up(
                    d2,
                    #[trigger] message_ids[i],
                    recipient,
                    epoch,
                ) by {
                    lemma_taken_up(d, recipient, epoch, now, last, message_ids[i]);
                }
            }
        }
    }
}

/// After a fetch no inbox message among those fetched is queued any more, and those that the
/// recipient still works on are bound to its current endpoint.
pub proof fn fetched_messages_are_taken_up(db: DbV, recipient: Seq<char>, message_ids: Seq<Seq<char>>, now: Seq<char>, i: int)
    requires
        db.wf(),
        fetched(db, recipient, message_ids, now) is Ok,
        0 <= i < message_ids.len(),
    ensures
        taken_up(
            fetched(db, recipient, message_ids, now)->Ok_0.0,
            message_ids[i],
            recipient,
            db.epoch_or_empty(recipient),
        ),
{
    let epoch = db.epoch_of(recipient)->0;
    let n: int = message_ids.len() as int;
    lemma_all_taken_up(db, recipient, epoch, now, message_ids, n);
    let (d, _) = claimed(db, recipient, epoch, now, message_ids, n)->Ok_0;
    invariant_is_kept(db, d);
    let done = notified_after(d, db.sequence);
    crate::evolution::lemma_notified_follows(d, db.sequence);
    lemma_place_kept(d, done, message_ids[i], recipient);
    lemma_delivery_pos(d, message_ids[i], recipient);
    assert(taken_up(d, message_ids[i], recipient, epoch));
    if let Some(k) = d.delivery_pos(message_ids[i], recipient) {
        lemma_route_kept(d, done, message_ids[i], d.deliveries[k].delivery_endpoint);
    }
}

/// Each delivery of a cancelled message has gone where a cancellation leads from its state: one
/// that was queued is cancelled for good, one that was taken up is asked to be.
pub proof fn cancellations_reach_every_delivery(db: DbV, message_id: Seq<char>, actor: Seq<char>, now: Seq<char>, k: int)
    requires
        message_cancelled(db, message_id, actor, now) is Ok,
        0 <= k < db.deliveries.len(),
    ensures
        message_cancelled(db, message_id, actor, now)->Ok_0.0.deliveries[k].state == if db.deliveries[k].message_id
            == message_id && cancellation_target(db.deliveries[k].state) is Some {
            cancellation_target(db.deliveries[k].state)->0
        } else {
            db.deliveries[k].state
        },
{
    let n: int = db.deliveries.len() as int;
    let order = recipient_order(db.deliveries, message_id, n);
    recipient_order_lists_all(db.deliveries, message_id, n);
    assert forall|q: int| 0 <= q < order.len() implies 0 <= #[trigger] order[q]
        < db.deliveries.len() && db.deliveries[order[q]].message_id == message_id by {
        assert(order.contains(order[q]));
    }
    let m: int = order.len() as int;
    lemma_cancelled_states(db, order, actor, now, m, k);
    let (d, outcomes) = cancelled(db, order, actor, now, m)->Ok_0;
    lemma_watches_only(d, message_id, outcomes, outcomes.len() as int);
    assert(db.deliveries[k].message_id == message_id ==> order.contains(k));
    if order.contains(k) {
        let q = choose|q: int| 0 <= q < order.len() && order[q] == k;
        assert(0 <= q < m && order[q] == k);
    }
}

proof fn lemma_watches_only(db: DbV, message_id: Seq<char>, outcomes: Seq<OutcomeV>, n: int)
    ensures
        outcome_watches_cleared(db, message_id, outcomes, n).deliveries == db.deliveries,
    decreases n,
{
    if n > 0 {
        lemma_watches_only(db, message_id, outcomes, n - 1);
    }
}

proof fn lemma_cancelled_states(db: DbV, order: Seq<int>, actor: Seq<char>, now: Seq<char>, n: int, k: int)
    requires
        0 <= n <= order.len(),
        0 <= k < db.deliveries.len(),
        forall|q: int| 0 <= q < order.len() ==> 0 <= #[trigger] order[q] < db.deliveries.len(),
    ensures
        cancelled(db, order, actor, now, n) matches Ok((d, _)) ==> d.deliveries.len()
            == db.deliveries.len() && d.deliveries[k].state == if (exists|q: int|
            0 <= q < n && #[trigger] order[q] == k) && cancellation_target(
            db.deliveries[k].state,
        ) is Some {
            cancellation_target(db.deliveries[k].state)->0
        } else {
            db.deliveries[k].state
        },
    decreases n,
{
    lemma_states();
    if n > 0 {
        lemma_cancelled_states(db, order, actor, now, n - 1, k);
        if let Ok((d, _)) = cancelled(db, order, actor, now, n - 1) {
            let at = order[n - 1];
            if at == k {
                assert(order[n - 1] == k);
                assert(cancellation_target("cancelled"@) is None);
                assert(cancellation_target("cancellation_requested"@) is None);
            }
            if exists|q: int| 0 <= q < n - 1 && #[trigger] order[q] == k {
                let q = choose|q: int| 0 <= q < n - 1 && #[trigger] order[q] == k;
                assert(0 <= q < n && order[q] == k);
            }
        }
    }
}

/// A reply that was taken is acknowledged, so it does not wait any more.
pub proof fn replies_are_taken_once(db: DbV, request_id: Seq<char>, actor: Seq<char>, now: Seq<char>)
    requires
        reply_claimed(db, request_id, actor, now).1 matches Ok(Some(_)),
    ensures
        ({
            let d = reply_claimed(db, request_id, actor, now).0;
            let v = reply_found(db, request_id, actor)->Ok_0->0;
            let id = member_text(v.message, "message_id"@)->0;
            &&& d.delivery(id, actor) matches Some(row) && row.state == "acknowledged"@
            &&& forall|i: int|
                0 <= i < d.records.len() && (#[trigger] d.records[i]).message_id == id
                    ==> !waits_for(d, d.records[i], request_id, actor)
        }),
{
    lemma_states();
    let v = reply_found(db, request_id, actor)->Ok_0->0;
    let id = member_text(v.message, "message_id"@)->0;
    receipts_are_idempotent(
        db,
        id,
        actor,
        actor,
        first_epoch(v),
        "acknowledged"@,
        "request waiter claimed reply"@,
        now,
        now,
    );
}

/// Whether the payload of every message on record names the message.
pub open spec fn payloads_name_themselves(db: DbV) -> bool {
    forall|i: int|
        0 <= i < db.records.len() ==> match db.event((#[trigger] db.records[i]).event_id) {
            Some(e) => member_text(e.data, "message_id"@) == Some(db.records[i].message_id),
            None => true,
        }
}

/// Taking a reply changes one thing about what waits: the reply taken, the earliest one, waits no
/// more. It is the one that is returned, and it is acknowledged.
pub proof fn claims_take_the_earliest_reply(
    db: DbV,
    request_id: Seq<char>,
    actor: Seq<char>,
    now: Seq<char>,
)
    requires
        db.wf(),
        payloads_name_themselves(db),
        reply_claimed(db, request_id, actor, now).1 matches Ok(Some(_)),
    ensures
        ({
            let (d, r) = reply_claimed(db, request_id, actor, now);
            let v = r->Ok_0->0;
            &&& first_where(
                db.records.len() as int,
                reply_waiting(db, request_id, actor),
            ) matches Some(k) && 0 <= k < db.records.len() && member_text(
                v.message,
                "message_id"@,
            ) == Some(db.records[k].message_id) && (d.delivery(
                db.records[k].message_id,
                actor,
            ) matches Some(row) && row.state == "acknowledged"@) && forall|i: int|
                0 <= i < db.records.len() ==> (#[trigger] reply_waiting(d, request_id, actor)(i)
                    <==> reply_waiting(db, request_id, actor)(i) && i != k)
            &&& d.records == db.records
        }),
{
    lemma_states();
    replies_are_taken_once(db, request_id, actor, now);
    let p = reply_waiting(db, request_id, actor);
    first_where_is_least(db.records.len() as int, p);
    let k = first_where(db.records.len() as int, p)->0;
    let own = db.records[k].message_id;
    lemma_record_found(db, k);
    let v = reply_found(db, request_id, actor)->Ok_0->0;
    let e = db.event(db.records[k].event_id)->0;
    assert(member_text(e.data, "message_id"@) == Some(own));
    lemma_shown_id(e.data, db.records[k].event_id);
    let (d, _) = receipted(
        db,
        own,
        actor,
        actor,
        first_epoch(v),
        "acknowledged"@,
        "request waiter claimed reply"@,
        now,
    )->Ok_0;
    receipts_follow(
        db,
        own,
        actor,
        actor,
        first_epoch(v),
        "acknowledged"@,
        "request waiter claimed reply"@,
        now,
    );
    let q = db.delivery_pos(own, actor)->0;
    lemma_delivery_pos(db, own, actor);
    let from = receipt_rank(db.deliveries[q].state)->0;
    let to = receipt_rank("acknowledged"@)->0;
    lemma_climbed(db, q, from, to, actor, "request waiter claimed reply"@, now);
    assert forall|i: int| 0 <= i < db.records.len() implies (#[trigger] reply_waiting(
        d,
        request_id,
        actor,
    )(i) <==> p(i) && i != k) by {
        let id = db.records[i].message_id;
        lemma_place_kept(db, d, id, actor);
        lemma_delivery_pos(db, id, actor);
        if i == k {
            assert(d.records[k].message_id == own);
        } else {
            assert(id != own);
            if let Some(m) = db.delivery_pos(id, actor) {
                assert(m != q);
                assert(d.deliveries[m] == db.deliveries[m]);
            }
        }
    }
    lemma_record_kept_named(db, d, k);
}

/// A reply is handed out once: where a request has one reply, taking it leaves nothing to take.
pub proof fn replies_are_handed_out_once(
    db: DbV,
    request_id: Seq<char>,
    actor: Seq<char>,
    now: Seq<char>,
    later: Seq<char>,
)
    requires
        db.wf(),
        payloads_name_themselves(db),
        forall|i: int, j: int|
            0 <= i < db.records.len() && 0 <= j < db.records.len() && (
            #[trigger] db.records[i]).in_reply_to == Some(request_id) && (
            #[trigger] db.records[j]).in_reply_to == Some(request_id) ==> i == j,
        reply_claimed(db, request_id, actor, now).1 matches Ok(Some(_)),
    ensures
        ({
            let (d, r) = reply_claimed(db, request_id, actor, now);
            &&& exists|i: int|
                0 <= i < db.records.len() && (#[trigger] db.records[i]).in_reply_to == Some(
                    request_id,
                ) && member_text(r->Ok_0->0.message, "message_id"@) == Some(
                    db.records[i].message_id,
                ) && (d.delivery(db.records[i].message_id, actor) matches Some(row) && row.state
                    == "acknowledged"@)
            &&& reply_claimed(d, request_id, actor, later) == (
                d,
                Ok::<Option<InspectionV>, ErrorV>(None),
            )
        }),
{
    claims_take_the_earliest_reply(db, request_id, actor, now);
    let (d, _) = reply_claimed(db, request_id, actor, now);
    let p = reply_waiting(db, request_id, actor);
    let q = reply_waiting(d, request_id, actor);
    let n = db.records.len() as int;
    first_where_is_least(n, p);
    let k = first_where(n, p)->0;
    assert(p(k));
    assert(db.records[k].in_reply_to == Some(request_id));
    first_where_is_least(n, q);
    assert forall|i: int| 0 <= i < n implies !#[trigger] q(i) by {
        if p(i) {
            assert(db.records[i].in_reply_to == Some(request_id));
        }
    }
    assert(sent_by(d, request_id, actor) == sent_by(db, request_id, actor));
}

proof fn lemma_record_found(db: DbV, k: int)
    requires
        db.records_wf(),
        0 <= k < db.records.len(),
    ensures
        db.record(db.records[k].message_id) == Some(db.records[k]),
{
    let p = record_of(db.records, db.records[k].message_id);
    first_where_is_least(db.records.len() as int, p);
    assert(p(k));
}

proof fn lemma_shown_id(data: JsonV, event_id: int)
    ensures
        data is Object ==> member_text(with_event_id(data, event_id), "message_id"@) == member_text(
            data,
            "message_id"@,
        ),
{
    reveal_strlit("message_id");
    reveal_strlit("event_id");
    assert("message_id"@.len() != "event_id"@.len());
    if let JsonV::Object(ms) = data {
        with_member_reads_back(ms, "event_id"@, JsonV::Int(event_id), "message_id"@);
    }
}

proof fn lemma_record_kept_named(db: DbV, d: DbV, k: int)
    requires
        db.records_wf(),
        0 <= k < db.records.len(),
        d.records == db.records,
        db.events.is_prefix_of(d.events),
        db.event(db.records[k].event_id) is Some,
    ensures
        d.record(db.records[k].message_id) == Some(db.records[k]),
        d.event(db.records[k].event_id) == db.event(db.records[k].event_id),
{
    lemma_record_found(db, k);
    lemma_event_kept(db, d, db.records[k].event_id);
}

/// The steps that a receipt takes, each of them logged.
proof fn lemma_climb_steps(db: DbV, k: int, from: int, to: int, actor: Seq<char>, reason: Seq<char>, now: Seq<char>)
    requires
        0 <= k < db.deliveries.len(),
        0 <= from <= to <= 3,
        db.deliveries[k].state == receipt_state(from),
    ensures
        db.sequence + (to - from) <= i64::MAX ==> climbed(db, k, from, to, actor, reason, now) is Ok,
        climbed(db, k, from, to, actor, reason, now) matches Ok(d) ==> {
            let row = db.deliveries[k];
            &&& d.sequence == db.sequence + (to - from)
            &&& d.events.len() == db.events.len() + (to - from)
            &&& d.events.take(db.events.len() as int) == db.events
            &&& d.records == db.records && d.instances == db.instances && d.watches == db.watches && d.notifications == db.notifications
            &&& to == from ==> d.deliveries == db.deliveries
            &&& to > from ==> d.deliveries == db.deliveries.update(k, DeliveryV { state: receipt_state(to), state_event_id: Some(d.sequence), last_actor: actor, updated_at: now, ..row })
            &&& forall|m: int| db.events.len() <= m < d.events.len() ==> #[trigger] d.events[m] == (EventV {
                id: db.sequence + 1 + (m - db.events.len()),
                timestamp: now,
                kind: "message_state"@,
                instance: actor,
                data: transition_data(
                    TransitionV {
                        message_id: row.message_id,
                        recipient: row.recipient_name,
                        endpoint_epoch: row.endpoint_epoch,
                        prior_state: Some(receipt_state(from + (m - db.events.len()))),
                        new_state: receipt_state(from + (m - db.events.len()) + 1),
                        attempt: row.attempt,
                        actor,
                        reason,
                    },
                    now,
                ),
            })
        },
    decreases to - from,
{
    if to > from {
        lemma_climb_steps(db, k, from, to - 1, actor, reason, now);
        if let Ok(d) = climbed(db, k, from, to - 1, actor, reason, now) {
            if let Ok((d2, _)) = moved(d, k, receipt_state(to), actor, reason, now, actor) {
                assert(d.deliveries[k].state == receipt_state(to - 1));
                let last = DeliveryV { state: receipt_state(to), state_event_id: Some(d2.sequence), last_actor: actor, updated_at: now, ..db.deliveries[k] };
                assert(d2.deliveries =~= db.deliveries.update(k, last));
                assert(d2.events.take(db.events.len() as int) =~= db.events);
            }
        }
    } else {
        assert(db.events.take(db.events.len() as int) =~= db.events);
    }
}

/// The states of a delivery that its recipient reports, in order.
pub open spec fn receipt_chain() -> Seq<Seq<char>> {
    seq!["queued"@, "received"@, "accepted"@, "acknowledged"@]
}

/// A receipt takes the delivery to the state it reports, from wherever on the way it stood, one
/// logged step after the other; what it tells is where the delivery stood and where it stands. A
/// receipt of what the delivery has behind it changes nothing.
pub proof fn receipts_move_deliveries_on(db: &mut HcomDb, message_id: &str, recipient: &str, actor: &str, epoch: &str, state: &str, reason: &str, now: &str, r: Result<DeliveryReceiptResult, LifecycleError>, k: int, i: int, j: int, m: int)
    requires
        call_ensures(HcomDb::record_delivery_receipt, (db, message_id, recipient, actor, epoch, state, reason, now), r),
        old(db)@.delivery_pos(message_id@, recipient@) == Some(k),
        actor@ == recipient@ && old(db).deliveries@[k].endpoint_epoch@ == epoch@ && old(db)@.epoch_or_empty(recipient@) == epoch@,
        0 <= i < 4 && old(db).deliveries@[k].state@ == receipt_chain()[i],
        1 <= j < 4 && state@ == receipt_chain()[j],
    ensures
        i >= j ==> (r matches Ok(v) && v.idempotent && v.state_event_id is None && v.prior_state@ == receipt_chain()[i] && v.state@ == receipt_chain()[i] && final(db)@ == old(db)@),
        i < j && old(db)@.sequence + (j - i) <= i64::MAX ==> r is Ok,
        r matches Ok(v) ==> v.message_id@ == message_id@ && v.recipient@ == recipient@,
        i < j && r is Ok ==> {
            let v = r->Ok_0;
            let row = final(db)@.deliveries[k];
            &&& !v.idempotent && v.prior_state@ == receipt_chain()[i] && v.state@ == state@
            &&& v.state_event_id matches Some(n) && n == final(db)@.sequence
            &&& row.state == state@ && row.last_actor == actor@ && row.updated_at == now@ && row.state_event_id == Some(final(db)@.sequence)
            &&& row.message_id == message_id@ && row.recipient_name == recipient@ && row.endpoint_epoch == epoch@ && row.attempt == old(db).deliveries@[k].attempt && row.delivery_endpoint == old(db).deliveries@[k].delivery_endpoint@
            &&& final(db)@.deliveries == old(db)@.deliveries.update(k, row)
            &&& final(db)@.events.len() == old(db)@.events.len() + (j - i)
            &&& 0 <= m < j - i ==> {
                let e = final(db)@.events[old(db)@.events.len() + m];
                &&& e.id == old(db)@.sequence + 1 + m && e.kind == "message_state"@ && e.instance == actor@ && e.timestamp == now@
                &&& member_text(e.data, "message_id"@) == Some(message_id@) && member_text(e.data, "recipient"@) == Some(recipient@)
                &&& member_text(e.data, "prior_state"@) == Some(receipt_chain()[i + m]) && member_text(e.data, "new_state"@) == Some(receipt_chain()[i + m + 1])
                &&& member_text(e.data, "actor"@) == Some(actor@) && member_text(e.data, "reason"@) == Some(reason@)
            }
            &&& final(db)@.instances == old(db)@.instances && final(db)@.records == old(db)@.records && final(db)@.watches == old(db)@.watches
        },
{
    lemma_states();
    lemma_delivery_pos(old(db)@, message_id@, recipient@);
    let start = old(db)@;
    let row = start.deliveries[k];
    assert(row == old(db).deliveries@[k]@);
    assert(receipt_chain()[i] == receipt_state(i) && receipt_chain()[j] == receipt_state(j));
    assert(receipt_rank(row.state) == Some(i) && receipt_rank(state@) == Some(j));
    if i < j {
        lemma_climb_steps(start, k, i, j, actor@, reason@, now@);
        if r is Ok && 0 <= m < j - i {
            let p = start.events.len() + m;
            assert(receipt_chain()[i + m] == receipt_state(i + m));
            assert(receipt_chain()[i + m + 1] == receipt_state(i + m + 1));
            let d = climbed(start, k, i, j, actor@, reason@, now@)->Ok_0;
            assert(d.events[p as int] == final(db)@.events[p as int]);
            transitions_are_logged_in_full(
                TransitionV {
                    message_id: row.message_id,
                    recipient: row.recipient_name,
                    endpoint_epoch: row.endpoint_epoch,
                    prior_state: Some(receipt_state(i + m)),
                    new_state: receipt_state(i + m + 1),
                    attempt: row.attempt,
                    actor: actor@,
                    reason: reason@,
                },
                now@,
            );
        }
    }
}

/// A receipt is refused where there is no such delivery, where another reports it than the recipient,
/// where it comes from another endpoint than the delivery and the recipient have, where it reports a
/// state that is no receipt, and where the delivery has left the chain of receipts.
pub proof fn receipts_are_refused_for_cause(db: &mut HcomDb, message_id: &str, recipient: &str, actor: &str, epoch: &str, state: &str, reason: &str, now: &str, r: Result<DeliveryReceiptResult, LifecycleError>, k: int)
    requires
        call_ensures(HcomDb::record_delivery_receipt, (db, message_id, recipient, actor, epoch, state, reason, now), r),
        old(db)@.delivery_pos(message_id@, recipient@) matches Some(p) ==> p == k,
    ensures
        r is Err ==> final(db)@ == old(db)@,
        old(db)@.delivery_pos(message_id@, recipient@) is None ==> (r matches Err(e) && refusal_text(e@) == "message delivery not found"@),
        old(db)@.delivery_pos(message_id@, recipient@) is Some ==> {
            let row = old(db).deliveries@[k];
            let at_home = row.endpoint_epoch@ == epoch@ && old(db)@.epoch_or_empty(recipient@) == epoch@;
            &&& actor@ != recipient@ ==> (r matches Err(e) && refusal_text(e@) == "delivery receipts may only be written by the recipient"@)
            &&& actor@ == recipient@ && !at_home ==> (r matches Err(e) && refusal_text(e@) == "stale endpoint epoch"@)
            &&& actor@ == recipient@ && at_home && state@ != "received"@ && state@ != "accepted"@ && state@ != "acknowledged"@ ==> (r matches Err(e) && refusal_text(e@) == "unsupported receipt state: "@ + state@)
            &&& actor@ == recipient@ && at_home && (state@ == "received"@ || state@ == "accepted"@ || state@ == "acknowledged"@) && !receipt_chain().contains(row.state@) ==> (r matches Err(e) && refusal_text(e@) == "delivery is not receiptable ("@ + row.state@ + ")"@)
        },
{
    lemma_states();
    lemma_delivery_pos(old(db)@, message_id@, recipient@);
    if old(db)@.delivery_pos(message_id@, recipient@) is Some {
        let row = old(db)@.deliveries[k];
        assert(row == old(db).deliveries@[k]@);
        let chain = receipt_chain();
        assert(chain[0] == "queued"@ && chain[1] == "received"@ && chain[2] == "accepted"@ && chain[3] == "acknowledged"@);
        if receipt_rank(row.state) is Some {
            assert(chain.contains(row.state));
        }
    }
}

/// A message is unread while its delivery belongs to the inbox and stands queued, received, or where
/// it was asked to stop; it can be handed out again while it stands queued, received or accepted.
pub proof fn unread_messages_are_the_open_ones(db: HcomDb, message_id: &str, recipient: &str, unread: Option<bool>, again: Option<bool>, k: int)
    requires
        call_ensures(HcomDb::projected_inbox_delivery, (&db, message_id, recipient), unread),
        call_ensures(HcomDb::projected_pi_recoverable_inbox_delivery, (&db, message_id, recipient), again),
        db@.delivery_pos(message_id@, recipient@) matches Some(p) ==> p == k,
    ensures
        db@.delivery_pos(message_id@, recipient@) is None ==> unread is None && again is None,
        db@.delivery_pos(message_id@, recipient@) is Some ==> {
            let row = db.deliveries@[k];
            let state = row.state@;
            let at_inbox = routes_to_inbox(db@, message_id@, row.delivery_endpoint@) == Ok::<bool, ErrorV>(true);
            &&& row.delivery_endpoint@ == "inbox"@ ==> at_inbox
            &&& !at_inbox ==> unread == Some(false) && again == Some(false)
            &&& at_inbox ==> unread == Some(state != "accepted"@ && state != "acknowledged"@ && state != "replied"@ && state != "cancelled"@ && state != "superseded"@ && state != "delivery_failed"@)
            &&& at_inbox ==> again == Some(state == "queued"@ || state == "received"@ || state == "accepted"@)
        },
{
    lemma_delivery_pos(db@, message_id@, recipient@);
    if db@.delivery_pos(message_id@, recipient@) is Some {
        assert(db@.deliveries[k] == db.deliveries@[k]@);
    }
}

/// Fetching one queued message of the inbox makes it received, binds it to the endpoint that the
/// recipient has now, and shows it; one that was received or accepted at an earlier endpoint is bound
/// to the new one and shown again; one that is closed is not shown.
pub proof fn fetched_messages_are_received(db: &mut HcomDb, recipient: &str, ids: Vec<String>, now: &str, r: Result<Vec<String>, LifecycleError>, k: int)
    requires
        call_ensures(HcomDb::claim_inbox_received, (db, recipient, &ids, now), r),
        ids@.len() == 1,
        old(db)@.delivery_pos(ids@[0]@, recipient@) == Some(k),
        old(db).deliveries@[k].delivery_endpoint@ == "inbox"@,
    ensures
        old(db)@.epoch_of(recipient@) is None ==> (r matches Err(e) && refusal_text(e@) == "verified inbox recipient not found"@),
        old(db)@.epoch_of(recipient@) matches Some(epoch) ==> {
            let before = old(db).deliveries@[k];
            let after = final(db)@.deliveries[k];
            &&& before.state@ == "queued"@ && old(db)@.sequence < i64::MAX ==> r is Ok
            &&& before.state@ == "queued"@ && r is Ok ==> {
                let e = final(db)@.events.last();
                &&& after.state == "received"@ && after.endpoint_epoch == epoch && after.last_actor == recipient@ && after.updated_at == now@ && after.state_event_id == Some(old(db)@.sequence + 1) && after.attempt == before.attempt
                &&& r->Ok_0@.len() == 1 && r->Ok_0@[0]@ == ids@[0]@
                &&& final(db)@.events.drop_last() == old(db)@.events && e.kind == "message_state"@ && e.instance == recipient@
                &&& member_text(e.data, "prior_state"@) == Some("queued"@) && member_text(e.data, "new_state"@) == Some("received"@) && member_text(e.data, "actor"@) == Some(recipient@) && member_text(e.data, "endpoint_epoch"@) == Some(epoch)
                &&& member_text(e.data, "reason"@) == Some(if before.endpoint_epoch@ == epoch { "inbox fetch"@ } else { "inbox fetch rebound queued delivery to current endpoint"@ })
            }
            &&& before.state@ == "received"@ || before.state@ == "accepted"@ ==> r is Ok && after.state == before.state@ && after.endpoint_epoch == epoch && r->Ok_0@.len() == 1 && r->Ok_0@[0]@ == ids@[0]@ && final(db)@.events == old(db)@.events
            &&& before.state@ == "cancelled"@ || before.state@ == "superseded"@ || before.state@ == "delivery_failed"@ ==> r is Ok && r->Ok_0@.len() == 0 && final(db)@.deliveries == old(db)@.deliveries
            &&& before.state@ == "acknowledged"@ || before.state@ == "replied"@ ==> r is Ok && r->Ok_0@.len() == (if before.endpoint_epoch@ == epoch { 1nat } else { 0nat }) && final(db)@.deliveries == old(db)@.deliveries
        },
{
    lemma_states();
    let start = old(db)@;
    lemma_delivery_pos(start, ids@[0]@, recipient@);
    assert(start.deliveries[k] == old(db).deliveries@[k]@);
    let names = texts(ids@);
    assert(names.len() == 1 && names[0] == ids@[0]@);
    if let Some(epoch) = start.epoch_of(recipient@) {
        reveal_with_fuel(claimed, 2);
        assert(claimed(start, recipient@, epoch, now@, names, 0) == Ok::<(DbV, Seq<Seq<char>>), ErrorV>((start, Seq::empty())));
        let row = start.deliveries[k];
        let one = claimed_one(start, recipient@, epoch, now@, names[0]);
        assert(claimed(start, recipient@, epoch, now@, names, 1) == match one {
            Err(e) => Err::<(DbV, Seq<Seq<char>>), ErrorV>(e),
            Ok((d, shown)) => Ok((d, if shown { with_text(Seq::empty(), names[0]) } else { Seq::empty() })),
        });
        assert(with_text(Seq::empty(), names[0]) =~= seq![names[0]]);
        if r is Ok {
            assert(texts(r->Ok_0@).len() == r->Ok_0@.len());
            if r->Ok_0@.len() == 1 {
                assert(texts(r->Ok_0@)[0] == r->Ok_0@[0]@);
            }
        }
        if row.state == "queued"@ {
            let t = TransitionV { message_id: row.message_id, recipient: row.recipient_name, endpoint_epoch: epoch, prior_state: Some(row.state), new_state: "received"@, attempt: row.attempt, actor: recipient@, reason: fetch_reason(row, epoch) };
            transitions_are_logged_in_full(t, now@);
            if r is Ok {
                assert(final(db)@.events.drop_last() =~= start.events);
            }
        } else if (row.state == "received"@ || row.state == "accepted"@) && row.endpoint_epoch == epoch {
            assert(final(db)@.deliveries[k] == row);
        } else if row.state == "acknowledged"@ || row.state == "replied"@ {
            assert(row.state != "delivery_failed"@) by {
                reveal_strlit("replied");
                reveal_strlit("delivery_failed");
                assert("replied"@.len() == 7 && "delivery_failed"@.len() == 15);
            }
            assert(one == Ok::<(DbV, bool), ErrorV>((start, row.endpoint_epoch == epoch)));
            if row.endpoint_epoch == epoch {
                assert(texts(r->Ok_0@) == seq![names[0]]);
            } else {
                assert(texts(r->Ok_0@) == Seq::<Seq<char>>::empty());
            }
        }
    }
}

/// What the acknowledgement of the first `n` records leaves as it is, and what it logs.
proof fn lemma_acknowledged_rows(db: DbV, recipient: Seq<char>, epoch: Seq<char>, cursor: int, now: Seq<char>, n: int)
    requires
        0 <= n <= db.records.len(),
    ensures
        acknowledged(db, recipient, epoch, cursor, now, n) matches Ok(d) ==> {
            &&& d.records == db.records && d.watches == db.watches
            &&& d.deliveries.len() == db.deliveries.len()
            &&& d.events.len() >= db.events.len() && d.events.take(db.events.len() as int) == db.events
            &&& d.sequence - db.sequence == d.events.len() - db.events.len()
            &&& forall|k: int| 0 <= k < db.deliveries.len() ==> (#[trigger] d.deliveries[k]).message_id == db.deliveries[k].message_id && d.deliveries[k].recipient_name == db.deliveries[k].recipient_name && d.deliveries[k].endpoint_epoch == db.deliveries[k].endpoint_epoch
            &&& forall|k: int| 0 <= k < db.deliveries.len() && (db.deliveries[k].recipient_name != recipient || forall|i: int| 0 <= i < n && (#[trigger] db.records[i]).message_id == db.deliveries[k].message_id ==> db.records[i].event_id > cursor) ==> #[trigger] d.deliveries[k] == db.deliveries[k]
            &&& forall|k: int| 0 <= k < db.deliveries.len() && #[trigger] d.deliveries[k] != db.deliveries[k] ==> d.deliveries[k].state == "acknowledged"@ && d.deliveries[k].last_actor == recipient && d.deliveries[k].updated_at == now && db.deliveries[k].endpoint_epoch == epoch
            &&& d.notifications == db.notifications
            &&& forall|m: int| db.events.len() <= m < d.events.len() ==> (#[trigger] d.events[m]).kind == "message_state"@ && d.events[m].instance == recipient && d.events[m].timestamp == now && member_text(d.events[m].data, "reason"@) == Some("Pi accepted inbox delivery"@) && member_text(d.events[m].data, "recipient"@) == Some(recipient) && member_text(d.events[m].data, "actor"@) == Some(recipient)
        },
    decreases n,
{
    lemma_states();
    if n <= 0 {
        assert(db.events.take(db.events.len() as int) =~= db.events);
    } else {
        lemma_acknowledged_rows(db, recipient, epoch, cursor, now, n - 1);
        if let Ok(d) = acknowledged(db, recipient, epoch, cursor, now, n - 1) {
            let record = db.records[n - 1];
            lemma_delivery_pos(d, record.message_id, recipient);
            if let Some(at) = d.delivery_pos(record.message_id, recipient) {
                let row = d.deliveries[at];
                if let Some(rank) = receipt_rank(row.state) {
                    lemma_climb_steps(d, at, rank, 3, recipient, "Pi accepted inbox delivery"@, now);
                    if let Ok(d2) = climbed(d, at, rank, 3, recipient, "Pi accepted inbox delivery"@, now) {
                        assert(d2.events.take(db.events.len() as int) =~= db.events) by {
                            assert forall|m: int| 0 <= m < db.events.len() implies d2.events[m] == db.events[m] by {
                                assert(d2.events.take(d.events.len() as int)[m] == d.events[m]);
                                assert(d.events.take(db.events.len() as int)[m] == db.events[m]);
                            }
                        }
                        assert forall|m: int| db.events.len() <= m < d2.events.len() implies (#[trigger] d2.events[m]).kind == "message_state"@ && d2.events[m].instance == recipient && d2.events[m].timestamp == now && member_text(d2.events[m].data, "reason"@) == Some("Pi accepted inbox delivery"@) && member_text(d2.events[m].data, "recipient"@) == Some(recipient) && member_text(d2.events[m].data, "actor"@) == Some(recipient) by {
                            if m < d.events.len() {
                                assert(d2.events.take(d.events.len() as int)[m] == d.events[m]);
                            } else {
                                let step = m - d.events.len();
                                transitions_are_logged_in_full(
                                    TransitionV {
                                        message_id: row.message_id,
                                        recipient: row.recipient_name,
                                        endpoint_epoch: row.endpoint_epoch,
                                        prior_state: Some(receipt_state(rank + step)),
                                        new_state: receipt_state(rank + step + 1),
                                        attempt: row.attempt,
                                        actor: recipient,
                                        reason: "Pi accepted inbox delivery"@,
                                    },
                                    now,
                                );
                            }
                        }
                    }
                }
            }
        }
    }
}

/// An acknowledgement up to an event makes what the recipient has in its inbox up to there
/// acknowledged, leaves what came later and what others have as it was, brings the cursor to the
/// event unless it was beyond, and tells how many steps it logged.
pub proof fn acknowledgements_reach_the_inbox(db: &mut HcomDb, recipient: &str, event_id: i64, now: &str, r: Result<usize, LifecycleError>, n: int, k: int, i: int, m: int)
    requires
        call_ensures(HcomDb::acknowledge_inbox_and_advance_cursor, (db, recipient, event_id, now), r),
        old(db)@.wf(),
        0 <= n < old(db)@.records.len(),
        0 <= k < old(db).deliveries@.len(),
        old(db).deliveries@[k].message_id@ == old(db)@.records[n].message_id,
        old(db)@.instance_pos(recipient@) matches Some(p) ==> p == i,
    ensures
        old(db)@.instance_pos(recipient@) is None ==> (r matches Err(e) && refusal_text(e@) == "verified inbox recipient not found"@),
        r is Err ==> final(db)@ == old(db)@,
        r is Ok ==> {
            let before = old(db).deliveries@[k];
            let after = final(db)@.deliveries[k];
            let chain = receipt_chain();
            &&& before.recipient_name@ == recipient@ && old(db)@.records[n].event_id <= event_id && before.delivery_endpoint@ == "inbox"@ && chain.contains(before.state@) && before.endpoint_epoch@ == old(db).instances@[i].endpoint_epoch@ ==> after.state == "acknowledged"@
            &&& after.message_id == before.message_id@ && after.recipient_name == before.recipient_name@ && after.endpoint_epoch == before.endpoint_epoch@
            &&& old(db)@.records[n].event_id > event_id || before.recipient_name@ != recipient@ ==> after == old(db)@.deliveries[k]
            &&& after != old(db)@.deliveries[k] ==> after.state == "acknowledged"@ && after.last_actor == recipient@ && after.updated_at == now@
            &&& final(db)@.instances[i].last_event_id == (if old(db).instances@[i].last_event_id < event_id { event_id as int } else { old(db).instances@[i].last_event_id as int })
            &&& r->Ok_0 == final(db)@.events.len() - old(db)@.events.len()
            &&& old(db)@.events.len() <= m < final(db)@.events.len() ==> {
                let e = final(db)@.events[m];
                &&& e.kind == "message_state"@ && e.instance == recipient@ && e.timestamp == now@
                &&& member_text(e.data, "reason"@) == Some("Pi accepted inbox delivery"@) && member_text(e.data, "recipient"@) == Some(recipient@) && member_text(e.data, "actor"@) == Some(recipient@)
            }
        },
{
    lemma_states();
    let start = old(db)@;
    assert(start.deliveries[k] == old(db).deliveries@[k]@);
    if r is Ok {
        let epoch = start.instances[i].endpoint_epoch;
        let count = start.records.len() as int;
        first_where_is_least(start.instances.len() as int, instance_named(start.instances, recipient@));
        assert(start.instances[i] == old(db).instances@[i]@);
        lemma_acknowledged_rows(start, recipient@, epoch, event_id as int, now@, count);
        lemma_all_at_rest(start, recipient@, epoch, event_id as int, now@, count);
        lemma_acknowledged_instances(start, recipient@, epoch, event_id as int, now@, count);
        let d = acknowledged(start, recipient@, epoch, event_id as int, now@, count)->Ok_0;
        assert(final(db)@.deliveries == d.deliveries && final(db)@.events == d.events);
        assert(start.records[n].message_id == start.deliveries[k].message_id);
        if start.records[n].event_id > event_id {
            assert forall|j: int| 0 <= j < count && (#[trigger] start.records[j]).message_id == start.deliveries[k].message_id implies start.records[j].event_id > event_id by {
                if j != n {
                    assert(start.records[j].message_id != start.records[n].message_id);
                }
            }
            assert(d.deliveries[k] == start.deliveries[k]);
        } else if start.deliveries[k].recipient_name == recipient@ && start.deliveries[k].delivery_endpoint == "inbox"@ && receipt_chain().contains(start.deliveries[k].state) && start.deliveries[k].endpoint_epoch == epoch {
            assert(at_rest(d, start.records[n], recipient@, epoch, event_id as int));
            lemma_delivery_found(start, k);
            lemma_place_kept(start, d, start.deliveries[k].message_id, recipient@);
            lemma_states();
            assert(delivery_follows(start.deliveries[k], d.deliveries[k]));
            let chain = receipt_chain();
            let c = choose|c: int| 0 <= c < chain.len() && chain[c] == start.deliveries[k].state;
            assert(c == 0 || c == 1 || c == 2 || c == 3);
            assert(receipt_rank(start.deliveries[k].state) is Some);
            if d.deliveries[k] == start.deliveries[k] {
                assert(!passed_over(d.deliveries[k].state));
            }
        }
    }
}

/// What cancelling does to the delivery at a place in the order, and what it tells of it.
proof fn lemma_cancel_outcomes(db: DbV, order: Seq<int>, actor: Seq<char>, now: Seq<char>, n: int)
    requires
        0 <= n <= order.len(),
        forall|q: int| 0 <= q < order.len() ==> 0 <= #[trigger] order[q] < db.deliveries.len(),
        forall|p: int, q: int| 0 <= p < q < order.len() ==> #[trigger] order[p] != #[trigger] order[q],
    ensures
        cancelled(db, order, actor, now, n) matches Ok((d, outcomes)) ==> {
            &&& outcomes.len() == n
            &&& d.deliveries.len() == db.deliveries.len()
            &&& forall|q: int| n <= q < order.len() ==> #[trigger] d.deliveries[order[q]] == db.deliveries[order[q]]
            &&& forall|q: int| 0 <= q < n ==> {
                let row = db.deliveries[order[q]];
                let o = #[trigger] outcomes[q];
                &&& o.recipient == row.recipient_name
                &&& o.changed == (cancellation_target(row.state) is Some)
                &&& o.state == (match cancellation_target(row.state) { Some(s) => s, None => row.state })
            }
            &&& forall|q: int| 0 <= q < n && cancellation_target(db.deliveries[order[q]].state) is Some ==> (#[trigger] d.deliveries[order[q]]).last_actor == actor && d.deliveries[order[q]].updated_at == now
        },
    decreases n,
{
    if n > 0 {
        lemma_cancel_outcomes(db, order, actor, now, n - 1);
        if let Ok((d, outcomes)) = cancelled(db, order, actor, now, n - 1) {
            assert(d.deliveries[order[n - 1]] == db.deliveries[order[n - 1]]);
            if let Ok((d2, _)) = cancelled(db, order, actor, now, n) {
                assert forall|q: int| 0 <= q < order.len() && q != n - 1 implies #[trigger] d2.deliveries[order[q]] == d.deliveries[order[q]] by {
                    assert(order[q] != order[n - 1]);
                }
            }
        }
    }
}

/// Cancelling a message cancels what no recipient has taken up, asks the others to stop, leaves what
/// is past it, and tells this of each delivery; only the sender may.
pub proof fn cancelled_messages_are_called_back(db: &mut HcomDb, message_id: &str, actor: &str, now: &str, r: Result<Vec<CancelOutcome>, LifecycleError>, k: int, q: int)
    requires
        call_ensures(HcomDb::cancel_message_v1, (db, message_id, actor, now), r),
        0 <= k < old(db).deliveries@.len(),
    ensures
        !(old(db)@.record(message_id@) matches Some(rec) && rec.sender_name == actor@) ==> (r matches Err(e) && refusal_text(e@) == "cancel is allowed only for the original sender"@),
        r is Err ==> final(db)@ == old(db)@,
        r is Ok ==> {
            let before = old(db).deliveries@[k];
            let after = final(db)@.deliveries[k];
            let under_way = before.state@ == "received"@ || before.state@ == "accepted"@ || before.state@ == "acknowledged"@;
            &&& before.message_id@ == message_id@ && before.state@ == "queued"@ ==> after.state == "cancelled"@ && after.last_actor == actor@ && after.updated_at == now@
            &&& before.message_id@ == message_id@ && under_way ==> after.state == "cancellation_requested"@ && after.last_actor == actor@ && after.updated_at == now@
            &&& before.message_id@ != message_id@ || !(before.state@ == "queued"@ || under_way) ==> after.state == before.state@
            &&& before.message_id@ == message_id@ ==> exists|o: int| 0 <= o < r->Ok_0@.len() && (#[trigger] r->Ok_0@[o]).recipient@ == before.recipient_name@ && r->Ok_0@[o].state@ == after.state && r->Ok_0@[o].changed == (after.state != before.state@)
            &&& 0 <= q < r->Ok_0@.len() ==> exists|j: int| 0 <= j < old(db).deliveries@.len() && (#[trigger] old(db).deliveries@[j]).message_id@ == message_id@ && old(db).deliveries@[j].recipient_name@ == r->Ok_0@[q].recipient@
        },
{
    lemma_states();
    let start = old(db)@;
    assert(start.deliveries[k] == old(db).deliveries@[k]@);
    if r is Ok {
        cancellations_reach_every_delivery(start, message_id@, actor@, now@, k);
        let n: int = start.deliveries.len() as int;
        let order = recipient_order(start.deliveries, message_id@, n);
        recipient_order_lists_all(start.deliveries, message_id@, n);
        assert forall|p: int| 0 <= p < order.len() implies 0 <= #[trigger] order[p] < start.deliveries.len() && start.deliveries[order[p]].message_id == message_id@ by {
            assert(order.contains(order[p]));
        }
        deliveries_are_listed_once(start.deliveries, message_id@, n);
        let len: int = order.len() as int;
        lemma_cancel_outcomes(start, order, actor@, now@, len);
        let (d, outcomes) = cancelled(start, order, actor@, now@, len)->Ok_0;
        lemma_watches_only(d, message_id@, outcomes, outcomes.len() as int);
        let told = r->Ok_0@;
        assert(views(told) == outcomes);
        assert(told.len() == outcomes.len());
        if start.deliveries[k].message_id == message_id@ {
            assert(order.contains(k));
            let o = choose|o: int| 0 <= o < order.len() && order[o] == k;
            assert(views(told)[o] == told[o]@);
            assert(d.deliveries[order[o]] == final(db)@.deliveries[k]);
            assert(outcomes[o].recipient == start.deliveries[k].recipient_name);
        }
        if 0 <= q < told.len() {
            assert(views(told)[q] == told[q]@);
            assert(outcomes[q].recipient == start.deliveries[order[q]].recipient_name);
            assert(start.deliveries[order[q]] == old(db).deliveries@[order[q]]@);
        }
    }
}

/// A message that waits at an earlier endpoint of the recipient cannot be acknowledged before it is
/// fetched; one that was taken up there is left as it is.
pub proof fn stale_deliveries_are_not_acknowledged(db: &mut HcomDb, recipient: &str, event_id: i64, now: &str, r: Result<usize, LifecycleError>, n: int, k: int, i: int)
    requires
        call_ensures(HcomDb::acknowledge_inbox_and_advance_cursor, (db, recipient, event_id, now), r),
        old(db)@.wf(),
        0 <= n < old(db)@.records.len() && old(db)@.records[n].event_id <= event_id,
        0 <= k < old(db).deliveries@.len(),
        old(db).deliveries@[k].message_id@ == old(db)@.records[n].message_id && old(db).deliveries@[k].recipient_name@ == recipient@,
        old(db).deliveries@[k].delivery_endpoint@ == "inbox"@,
        old(db)@.instance_pos(recipient@) == Some(i) && old(db).deliveries@[k].endpoint_epoch@ != old(db).instances@[i].endpoint_epoch@,
    ensures
        old(db).deliveries@[k].state@ == "queued"@ ==> r is Err,
        r is Ok ==> final(db)@.deliveries[k] == old(db)@.deliveries[k],
{
    lemma_states();
    let start = old(db)@;
    assert(start.deliveries[k] == old(db).deliveries@[k]@);
    first_where_is_least(start.instances.len() as int, instance_named(start.instances, recipient@));
    assert(start.instances[i] == old(db).instances@[i]@);
    if r is Ok {
        let epoch = start.instances[i].endpoint_epoch;
        let count = start.records.len() as int;
        lemma_acknowledged_rows(start, recipient@, epoch, event_id as int, now@, count);
        lemma_all_at_rest(start, recipient@, epoch, event_id as int, now@, count);
        let d = acknowledged(start, recipient@, epoch, event_id as int, now@, count)->Ok_0;
        assert(d.deliveries[k] == start.deliveries[k]);
        assert(at_rest(d, start.records[n], recipient@, epoch, event_id as int));
        lemma_delivery_found(start, k);
        lemma_place_kept(start, d, start.deliveries[k].message_id, recipient@);
    }
}

/// A message that the recipient has no delivery of is not shown by a fetch, and nothing changes.
pub proof fn unknown_messages_are_not_fetched(db: &mut HcomDb, recipient: &str, ids: Vec<String>, now: &str, r: Result<Vec<String>, LifecycleError>)
    requires
        call_ensures(HcomDb::claim_inbox_received, (db, recipient, &ids, now), r),
        ids@.len() == 1 && old(db)@.delivery_pos(ids@[0]@, recipient@) is None,
        old(db)@.epoch_of(recipient@) is Some,
    ensures
        r matches Ok(v) && v@.len() == 0,
        final(db)@.deliveries == old(db)@.deliveries && final(db)@.events == old(db)@.events && final(db)@.notifications == old(db)@.notifications,
{
    let names = texts(ids@);
    assert(names.len() == 1 && names[0] == ids@[0]@);
    reveal_with_fuel(claimed, 2);
    let epoch = old(db)@.epoch_of(recipient@)->0;
    assert(claimed(old(db)@, recipient@, epoch, now@, names, 1) == Ok::<(DbV, Seq<Seq<char>>), ErrorV>((old(db)@, Seq::empty())));
    assert(texts(r->Ok_0@).len() == r->Ok_0@.len());
    assert(final(db)@.notifications =~= old(db)@.notifications);
}

/// Every step that a receipt, an acknowledgement, a cancellation or a fetch logs is announced, in order.
pub proof fn steps_are_announced(a: &mut HcomDb, message_id: &str, recipient: &str, actor: &str, epoch: &str, state: &str, reason: &str, now: &str, receipt: DeliveryReceiptResult, b: &mut HcomDb, event_id: i64, changed: usize, c: &mut HcomDb, outcomes: Vec<CancelOutcome>)
    requires
        call_ensures(HcomDb::record_delivery_receipt, (a, message_id, recipient, actor, epoch, state, reason, now), Ok::<DeliveryReceiptResult, LifecycleError>(receipt)),
        call_ensures(HcomDb::acknowledge_inbox_and_advance_cursor, (b, recipient, event_id, now), Ok::<usize, LifecycleError>(changed)),
        call_ensures(HcomDb::cancel_message_v1, (c, message_id, actor, now), Ok::<Vec<CancelOutcome>, LifecycleError>(outcomes)),
    ensures
        final(a)@.notifications == old(a)@.notifications + id_range(old(a)@.sequence, final(a)@.sequence),
        final(b)@.notifications == old(b)@.notifications + id_range(old(b)@.sequence, final(b)@.sequence),
        final(c)@.notifications == old(c)@.notifications + id_range(old(c)@.sequence, final(c)@.sequence),
{
    lemma_states();
    let start = old(a)@;
    lemma_delivery_pos(start, message_id@, recipient@);
    let k = start.delivery_pos(message_id@, recipient@)->0;
    let from = receipt_rank(start.deliveries[k].state)->0;
    let to = receipt_rank(state@)->0;
    assert(start.deliveries[k].state == receipt_state(from));
    if from < to {
        lemma_climb_steps(start, k, from, to, actor@, reason@, now@);
    } else {
        assert(id_range(start.sequence, final(a)@.sequence) =~= Seq::<int>::empty());
        assert(final(a)@.notifications =~= start.notifications + id_range(start.sequence, final(a)@.sequence));
    }
    let other = old(b)@;
    let i = other.instance_pos(recipient@)->0;
    lemma_acknowledged_rows(other, recipient@, other.instances[i].endpoint_epoch, event_id as int, now@, other.records.len() as int);
    let third = old(c)@;
    let order = recipient_order(third.deliveries, message_id@, third.deliveries.len() as int);
    lemma_cancel_quiet(third, order, actor@, now@, order.len() as int);
    let (d, told) = cancelled(third, order, actor@, now@, order.len() as int)->Ok_0;
    lemma_watches_quiet(d, message_id@, told, told.len() as int);
}

proof fn lemma_cancel_quiet(db: DbV, order: Seq<int>, actor: Seq<char>, now: Seq<char>, n: int)
    ensures
        cancelled(db, order, actor, now, n) matches Ok((d, _)) ==> d.notifications == db.notifications,
    decreases n,
{
    if n > 0 {
        lemma_cancel_quiet(db, order, actor, now, n - 1);
    }
}

proof fn lemma_watches_quiet(db: DbV, message_id: Seq<char>, outcomes: Seq<OutcomeV>, n: int)
    ensures
        outcome_watches_cleared(db, message_id, outcomes, n).notifications == db.notifications,
        outcome_watches_cleared(db, message_id, outcomes, n).sequence == db.sequence,
    decreases n,
{
    if n > 0 {
        lemma_watches_quiet(db, message_id, outcomes, n - 1);
    }
}

} // verus!
