//! What holds of a message once it is committed.

use crate::evolution::{
    delivery_follows, follows, follows_closely, lemma_follows_itself, lemma_logged,
    lemma_move_follows, lemma_states, lemma_watches_cleared_follow, logs_objects_or,
    payloads_stay_readable, stores_follow_transitively,
};
use crate::invariants::{lemma_delivery_pos, lemma_event_kept};
use crate::json::{JsonV, member, member_text};
use crate::lifecycle::{
    MessagePersistInput, MessagePersistResult, PersistV, ReplyModeV, attempt_number, closed_to_replies, distinct, highest_attempt, in_lineage,
    new_record, persist_notified, persist_refusal, persisted, queued, queued_for, reply_committed,
    reply_mode, reply_slot, superseded, supersedable, supersession_committed, supersession_target,
    watch_matches, watches_cleared, watches_ended, written,
};
use crate::receipts::unread;
use crate::rows::views;
use crate::search::{first_where, first_where_found, first_where_is_least};
use crate::senders::{
    InspectionV, inspected, owes_reply, reply_found, reply_waiting, resolved, untaken, waits_for,
    with_event_id,
};
use crate::store::{
    DbV, DeliveryV, ErrorV, EventV, HcomDb, LifecycleError, RecordV, TransitionV, WatchV,
    delivery_of, event_logged, event_with, id_range, moved, record_at, record_of, refusal_text,
    transition_data, transitions_are_logged_in_full,
};
use crate::text::{after_prefix, decimal, decimal_round_trip, opt_str, texts};
use vstd::prelude::*;

verus! {

/// The delivery of a new message to one of its recipients, with the event that logged it.
pub open spec fn fresh_delivery(
    db: DbV,
    inp: PersistV,
    attempt: int,
    now: Seq<char>,
    recipient: Seq<char>,
    event_id: int,
) -> DeliveryV {
    DeliveryV {
        message_id: inp.message_id,
        recipient_name: recipient,
        endpoint_epoch: db.epoch_or_empty(recipient),
        delivery_endpoint: inp.delivery_endpoint,
        state: "queued"@,
        attempt,
        state_event_id: Some(event_id),
        last_actor: inp.sender_name,
        updated_at: now,
    }
}

proof fn lemma_logs_transitively(a: DbV, b: DbV, c: DbV, data: JsonV)
    requires
        b.events.is_prefix_of(c.events),
        logs_objects_or(a, b, data),
        logs_objects_or(b, c, data),
    ensures
        logs_objects_or(a, c, data),
{
    assert forall|i: int| a.events.len() <= i < c.events.len() implies (
    #[trigger] c.events[i]).data is Object || c.events[i].data == data by {
        if i < b.events.len() {
            assert(c.events[i] == b.events[i]);
        }
    }
}

proof fn lemma_queued_for(db: DbV, inp: PersistV, attempt: int, now: Seq<char>, recipient: Seq<char>)
    ensures
        queued_for(db, inp, attempt, now, recipient) matches Ok(d) ==> follows(db, d) && d.records
            == db.records && d.instances == db.instances && d.deliveries == db.deliveries.push(
            fresh_delivery(db, inp, attempt, now, recipient, db.sequence + 1),
        ) && d.sequence == db.sequence + 1 && logs_objects_or(db, d, inp.data),
{
    if let Ok(d) = queued_for(db, inp, attempt, now, recipient) {
        assert(db.events =~= d.events.take(db.events.len() as int));
        assert(db.notifications.is_prefix_of(d.notifications));
        assert forall|i: int| 0 <= i < db.deliveries.len() implies delivery_follows(
            db.deliveries[i],
            #[trigger] d.deliveries[i],
        ) by {}
    }
}

proof fn lemma_queued(db: DbV, inp: PersistV, attempt: int, now: Seq<char>, n: int)
    requires
        0 <= n <= inp.recipients.len(),
    ensures
        queued(db, inp, attempt, now, n) matches Ok(d) ==> {
            &&& follows(db, d)
            &&& logs_objects_or(db, d, inp.data)
            &&& d.records == db.records
            &&& d.instances == db.instances
            &&& d.sequence == db.sequence + n
            &&& d.deliveries.len() == db.deliveries.len() + n
            &&& forall|i: int|
                0 <= i < db.deliveries.len() ==> #[trigger] d.deliveries[i] == db.deliveries[i]
            &&& forall|i: int|
                0 <= i < n ==> #[trigger] d.deliveries[db.deliveries.len() + i] == fresh_delivery(
                    db,
                    inp,
                    attempt,
                    now,
                    inp.recipients[i],
                    db.sequence + 1 + i,
                )
        },
    decreases n,
{
    if n <= 0 {
        lemma_follows_itself(db);
    } else {
        lemma_queued(db, inp, attempt, now, n - 1);
        if let Ok(d) = queued(db, inp, attempt, now, n - 1) {
            lemma_queued_for(d, inp, attempt, now, inp.recipients[n - 1]);
            if let Ok(d2) = queued_for(d, inp, attempt, now, inp.recipients[n - 1]) {
                stores_follow_transitively(db, d, d2);
                lemma_logs_transitively(db, d, d2, inp.data);
                assert forall|i: int| 0 <= i < n implies #[trigger] d2.deliveries[db.deliveries.len()
                    + i] == fresh_delivery(
                    db,
                    inp,
                    attempt,
                    now,
                    inp.recipients[i],
                    db.sequence + 1 + i,
                ) by {
                    if i < n - 1 {
                        assert(d2.deliveries[db.deliveries.len() + i]
                            == d.deliveries[db.deliveries.len() + i]);
                    }
                }
            }
        }
    }
}

/// What a store is after a message was written to it.
pub open spec fn holds_message(db: DbV, d: DbV, inp: PersistV, attempt: int, now: Seq<char>, id: int) -> bool {
    &&& follows(db, d)
    &&& id == db.sequence + 1
    &&& d.instances == db.instances
    &&& d.records == db.records.push(new_record(inp, id, now))
    &&& d.events.len() > db.events.len()
    &&& d.events[db.events.len() as int] == (EventV {
        id,
        timestamp: now,
        kind: "message"@,
        instance: inp.routing_instance,
        data: inp.data,
    })
    &&& d.deliveries.len() == db.deliveries.len() + inp.recipients.len()
    &&& forall|i: int|
        0 <= i < inp.recipients.len() ==> #[trigger] d.deliveries[db.deliveries.len() + i]
            == fresh_delivery(db, inp, attempt, now, inp.recipients[i], id + 1 + i)
}

proof fn lemma_written(db: DbV, inp: PersistV, attempt: int, now: Seq<char>)
    ensures
        written(db, inp, attempt, now) matches Ok((d, id)) ==> {
            &&& holds_message(db, d, inp, attempt, now, id)
            &&& logs_objects_or(db, d, inp.data)
            &&& db.record(inp.message_id) is None
            &&& forall|i: int|
                0 <= i < db.deliveries.len() ==> #[trigger] d.deliveries[i] == db.deliveries[i]
        },
{
    let data = inp.data;
    lemma_logged(db, now, "message"@, inp.routing_instance, data);
    if let Ok((logged, id)) = event_logged(db, now, "message"@, inp.routing_instance, data) {
        let recorded = DbV { records: logged.records.push(new_record(inp, id, now)), ..logged };
        assert(db.records =~= recorded.records.take(db.records.len() as int));
        assert(follows(db, recorded));
        let n: int = inp.recipients.len() as int;
        lemma_queued(recorded, inp, attempt, now, n);
        assert(logged.record(inp.message_id) == db.record(inp.message_id));
        if let Ok(d) = queued(recorded, inp, attempt, now, n) {
            stores_follow_transitively(db, recorded, d);
            lemma_logs_transitively(db, recorded, d, inp.data);
            assert(d.events[db.events.len() as int] == recorded.events[db.events.len() as int]);
            assert forall|i: int| 0 <= i < n implies #[trigger] d.deliveries[db.deliveries.len() + i]
                == fresh_delivery(db, inp, attempt, now, inp.recipients[i], id + 1 + i) by {
                assert(d.deliveries[recorded.deliveries.len() + i] == fresh_delivery(
                    recorded,
                    inp,
                    attempt,
                    now,
                    inp.recipients[i],
                    recorded.sequence + 1 + i,
                ));
                assert(recorded.epoch_or_empty(inp.recipients[i]) == db.epoch_or_empty(
                    inp.recipients[i],
                ));
            }
        }
    }
}

proof fn lemma_superseded(
    db: DbV,
    target: Seq<char>,
    sender: Seq<char>,
    message_id: Seq<char>,
    now: Seq<char>,
    n: int,
)
    requires
        0 <= n <= db.deliveries.len(),
    ensures
        superseded(db, target, sender, message_id, now, n) matches Ok(d) ==> {
            &&& follows_closely(db, d)
            &&& d.instances == db.instances
            &&& forall|i: int|
                0 <= i < db.deliveries.len() ==> (#[trigger] d.deliveries[i]).state == (if i < n
                    && supersedable(db.deliveries[i], target) {
                    supersession_target(db.deliveries[i].state)->0
                } else {
                    db.deliveries[i].state
                }) && (i >= n || !supersedable(db.deliveries[i], target) ==> d.deliveries[i]
                    == db.deliveries[i])
        },
    decreases n,
{
    lemma_states();
    if n <= 0 {
        lemma_follows_itself(db);
    } else {
        lemma_superseded(db, target, sender, message_id, now, n - 1);
        if let Ok(d) = superseded(db, target, sender, message_id, now, n - 1) {
            assert(d.deliveries[n - 1] == db.deliveries[n - 1]);
            if supersedable(d.deliveries[n - 1], target) {
                let next = supersession_target(d.deliveries[n - 1].state)->0;
                let reason = "superseded by "@ + message_id;
                lemma_move_follows(d, n - 1, next, sender, reason, now, sender);
                if let Ok((d2, _)) = moved(d, n - 1, next, sender, reason, now, sender) {
                    stores_follow_transitively(db, d, d2);
                    assert forall|i: int| 0 <= i < db.deliveries.len() implies (
                    #[trigger] d2.deliveries[i]).state == (if i < n && supersedable(
                        db.deliveries[i],
                        target,
                    ) {
                        supersession_target(db.deliveries[i].state)->0
                    } else {
                        db.deliveries[i].state
                    }) && (i >= n || !supersedable(db.deliveries[i], target) ==> d2.deliveries[i]
                        == db.deliveries[i]) by {
                        assert(d.deliveries[i].state == d.deliveries[i].state);
                    }
                }
            }
        }
    }
}

/// The delivery of the request that a reply answers is replied to.
proof fn lemma_reply_committed(db: DbV, inp: PersistV, now: Seq<char>)
    ensures
        reply_committed(db, inp, now) matches Ok(d) ==> {
            &&& follows_closely(db, d)
            &&& d.instances == db.instances
            &&& inp.in_reply_to is None ==> d == db
            &&& inp.in_reply_to matches Some(target) ==> {
                &&& reply_slot(db, inp, target) is Ok
                &&& 0 <= reply_slot(db, inp, target)->Ok_0 < db.deliveries.len()
                &&& db.delivery_pos(target, inp.sender_name) == Some(
                    reply_slot(db, inp, target)->Ok_0,
                )
                &&& d.deliveries[reply_slot(db, inp, target)->Ok_0].state == "replied"@
            }
        },
{
    lemma_follows_itself(db);
    if let Some(target) = inp.in_reply_to {
        lemma_delivery_pos(db, target, inp.sender_name);
        if let Ok(k) = reply_slot(db, inp, target) {
            lemma_move_follows(
                db,
                k,
                "replied"@,
                inp.sender_name,
                "reply committed"@,
                now,
                inp.sender_name,
            );
        }
    }
}

proof fn lemma_watches_ended_follow(db: DbV, inp: PersistV)
    ensures
        follows_closely(db, watches_ended(db, inp)),
{
    lemma_follows_itself(db);
    let d = match inp.supersedes {
        None => db,
        Some(target) => watches_cleared(db, target, None),
    };
    if let Some(target) = inp.supersedes {
        lemma_watches_cleared_follow(db, target, None);
    }
    if let Some(target) = inp.in_reply_to {
        lemma_watches_cleared_follow(d, target, Some(inp.sender_name));
        stores_follow_transitively(db, d, watches_ended(db, inp));
    }
}

/// What a committed message leaves behind, in one statement.
proof fn lemma_persisted(db: DbV, inp: PersistV, now: Seq<char>)
    ensures
        persisted(db, inp, now) matches Ok((d, p)) ==> {
            &&& follows(db, d)
            &&& logs_objects_or(db, d, inp.data)
            &&& d.instances == db.instances
            &&& d.records == db.records.push(new_record(inp, p.event_id, now))
            &&& p.event_id > db.sequence
            &&& db.record(inp.message_id) is None
            &&& p.event_id - db.sequence - 1 + db.events.len() < d.events.len()
            &&& d.events[p.event_id - db.sequence - 1 + db.events.len()] == (EventV {
                id: p.event_id,
                timestamp: now,
                kind: "message"@,
                instance: inp.routing_instance,
                data: inp.data,
            })
            &&& d.deliveries.len() == db.deliveries.len() + inp.recipients.len()
            &&& forall|i: int|
                0 <= i < inp.recipients.len() ==> {
                    let row = #[trigger] d.deliveries[db.deliveries.len() + i];
                    &&& row.message_id == inp.message_id
                    &&& row.recipient_name == inp.recipients[i]
                    &&& row.endpoint_epoch == db.epoch_or_empty(inp.recipients[i])
                    &&& row.delivery_endpoint == inp.delivery_endpoint
                    &&& row.attempt == attempt_number(db, inp)
                    &&& row.state == "queued"@
                    &&& row.last_actor == inp.sender_name
                    &&& row.updated_at == now
                    &&& row.state_event_id == Some(p.event_id + 1 + i)
                }
            &&& inp.in_reply_to matches Some(target) ==> db.delivery_pos(
                target,
                inp.sender_name,
            ) matches Some(k) && 0 <= k < db.deliveries.len() && d.deliveries[k].state == "replied"@
            &&& inp.supersedes matches Some(target) ==> forall|i: int|
                0 <= i < db.deliveries.len() && (#[trigger] db.deliveries[i]).message_id == target
                    && inp.in_reply_to is None ==> d.deliveries[i].state == match supersession_target(
                    db.deliveries[i].state,
                ) {
                    Some(next) => next,
                    None => db.deliveries[i].state,
                }
        },
{
    lemma_states();
    lemma_reply_committed(db, inp, now);
    if persist_refusal(db, inp) is None {
        if let Ok(d1) = reply_committed(db, inp, now) {
            let attempt = attempt_number(db, inp);
            lemma_written(d1, inp, attempt, now);
            if let Ok((d2, id)) = written(d1, inp, attempt, now) {
                stores_follow_transitively(db, d1, d2);
                assert(d1.record(inp.message_id) == db.record(inp.message_id));
                let n: int = d2.deliveries.len() as int;
                if let Some(target) = inp.supersedes {
                    lemma_superseded(d2, target, inp.sender_name, inp.message_id, now, n);
                } else {
                    lemma_follows_itself(d2);
                }
                if let Ok(d3) = supersession_committed(d2, inp, now) {
                    stores_follow_transitively(db, d2, d3);
                    let d4 = watches_ended(d3, inp);
                    lemma_watches_ended_follow(d3, inp);
                    if let Some(target) = inp.supersedes {
                        assert(target != inp.message_id) by {
                            assert(db.record(target) is Some);
                        }
                    }
                    stores_follow_transitively(db, d3, d4);
                    let d = persist_notified(d4, inp, id);
                    assert(d4.notifications =~= d.notifications.take(
                        d4.notifications.len() as int,
                    ));
                    assert(d4.events.is_prefix_of(d.events));
                    assert(follows_closely(d4, d));
                    stores_follow_transitively(db, d4, d);
                    assert(d.events == d3.events);
                    lemma_logs_transitively(db, d1, d2, inp.data);
                    lemma_logs_transitively(db, d2, d3, inp.data);
                    assert(d2.events.is_prefix_of(d3.events));
                    assert(d.events[d1.events.len() as int] == d2.events[d1.events.len() as int]);
                    assert forall|i: int| 0 <= i < inp.recipients.len() implies {
                        let row = #[trigger] d.deliveries[db.deliveries.len() + i];
                        &&& row.message_id == inp.message_id
                        &&& row.recipient_name == inp.recipients[i]
                        &&& row.endpoint_epoch == db.epoch_or_empty(inp.recipients[i])
                        &&& row.delivery_endpoint == inp.delivery_endpoint
                        &&& row.attempt == attempt
                        &&& row.state == "queued"@
                        &&& row.last_actor == inp.sender_name
                        &&& row.updated_at == now
                        &&& row.state_event_id == Some(id + 1 + i)
                    } by {
                        let j = db.deliveries.len() + i;
                        assert(d2.deliveries[d1.deliveries.len() + i] == fresh_delivery(
                            d1,
                            inp,
                            attempt,
                            now,
                            inp.recipients[i],
                            id + 1 + i,
                        ));
                        assert(d1.epoch_or_empty(inp.recipients[i]) == db.epoch_or_empty(
                            inp.recipients[i],
                        ));
                        assert(d3.deliveries[j as int] == d2.deliveries[j as int]);
                    }
                    if let Some(target) = inp.in_reply_to {
                        let k = reply_slot(db, inp, target)->Ok_0;
                        assert(d2.deliveries[k].state == "replied"@);
                        assert(d3.deliveries[k].state == "replied"@);
                    }
                    if let Some(target) = inp.supersedes {
                        if inp.in_reply_to is None {
                            assert forall|i: int|
                                0 <= i < db.deliveries.len() && (
                                #[trigger] db.deliveries[i]).message_id == target implies d.deliveries[i].state
                                == match supersession_target(db.deliveries[i].state) {
                                Some(next) => next,
                                None => db.deliveries[i].state,
                            } by {
                                assert(d2.deliveries[i] == db.deliveries[i]);
                                assert(d3.deliveries[i].state == d.deliveries[i].state);
                            }
                        }
                    }
                }
            }
        }
    }
}

/// A commit leads to a store that follows.
pub proof fn commits_follow(db: DbV, inp: PersistV, now: Seq<char>)
    ensures
        persisted(db, inp, now) matches Ok((d, p)) ==> follows(db, d) && d.records
            == db.records.push(new_record(inp, p.event_id, now)) && db.sequence < p.event_id
            <= d.sequence,
{
    lemma_persisted(db, inp, now);
    if let Ok((d, p)) = persisted(db, inp, now) {
        assert(d.records.last() == new_record(inp, p.event_id, now));
    }
}

/// A commit leaves every payload readable, where that of the message is.
pub proof fn commits_keep_payloads_readable(db: DbV, inp: PersistV, now: Seq<char>)
    requires
        db.events_wf(),
        db.payloads_wf(),
        inp.data is Object || inp.data is Null,
    ensures
        persisted(db, inp, now) matches Ok((d, _)) ==> d.payloads_wf(),
{
    lemma_persisted(db, inp, now);
    if let Ok((d, _)) = persisted(db, inp, now) {
        payloads_stay_readable(db, d);
    }
}

/// A record that is there is found, where no message has two.
pub proof fn lemma_record_found(d: DbV, k: int)
    requires
        d.records_wf(),
        0 <= k < d.records.len(),
    ensures
        d.record(d.records[k].message_id) == Some(d.records[k]),
        d.record_by_event(d.records[k].event_id) == Some(d.records[k]),
{
    let p = record_of(d.records, d.records[k].message_id);
    assert forall|j: int| 0 <= j < k implies !#[trigger] p(j) by {
        assert(d.records[j].message_id != d.records[k].message_id);
    }
    assert(p(k));
    first_where_found(d.records.len() as int, p, k);
    let q = record_at(d.records, d.records[k].event_id);
    assert forall|j: int| 0 <= j < k implies !#[trigger] q(j) by {
        assert(d.records[j].event_id < d.records[k].event_id);
    }
    assert(q(k));
    first_where_found(d.records.len() as int, q, k);
}

/// A delivery that is there is found, where no message has two to a recipient.
pub proof fn lemma_delivery_found(d: DbV, k: int)
    requires
        d.deliveries_wf(),
        0 <= k < d.deliveries.len(),
    ensures
        d.delivery_pos(d.deliveries[k].message_id, d.deliveries[k].recipient_name) == Some(k),
        d.delivery(d.deliveries[k].message_id, d.deliveries[k].recipient_name) == Some(
            d.deliveries[k],
        ),
{
    let p = delivery_of(d.deliveries, d.deliveries[k].message_id, d.deliveries[k].recipient_name);
    assert forall|j: int| 0 <= j < k implies !#[trigger] p(j) by {
        assert(d.deliveries[j].message_id != d.deliveries[k].message_id
            || d.deliveries[j].recipient_name != d.deliveries[k].recipient_name);
    }
    assert(p(k));
    first_where_found(d.deliveries.len() as int, p, k);
}

/// An event that is there is found, where ids grow along the log.
pub proof fn lemma_event_found(d: DbV, k: int)
    requires
        d.events_wf(),
        0 <= k < d.events.len(),
    ensures
        d.event(d.events[k].id) == Some(d.events[k]),
{
    let p = event_with(d.events, d.events[k].id);
    assert forall|j: int| 0 <= j < k implies !#[trigger] p(j) by {
        assert(d.events[j].id < d.events[k].id);
    }
    assert(p(k));
    first_where_found(d.events.len() as int, p, k);
}

/// A lookup of a record that finds one finds it after records are appended.
proof fn lemma_record_kept(db: DbV, d: DbV, message_id: Seq<char>)
    requires
        db.records.is_prefix_of(d.records),
        db.record(message_id) is Some,
    ensures
        d.record(message_id) == db.record(message_id),
{
    let p = record_of(db.records, message_id);
    let q = record_of(d.records, message_id);
    first_where_is_least(db.records.len() as int, p);
    let k = first_where(db.records.len() as int, p)->0;
    assert(p(k));
    assert(d.records[k] == db.records[k]);
    assert(q(k));
    assert forall|j: int| 0 <= j < k implies !#[trigger] q(j) by {
        assert(!p(j));
        assert(d.records[j] == db.records[j]);
    }
    first_where_found(d.records.len() as int, q, k);
}

/// A commit keeps the store in order.
pub proof fn commits_keep_order(db: DbV, inp: PersistV, now: Seq<char>)
    requires
        db.wf(),
    ensures
        persisted(db, inp, now) matches Ok((d, _)) ==> d.wf(),
{
    lemma_persisted(db, inp, now);
    if let Ok((d, p)) = persisted(db, inp, now) {
        let n: int = db.deliveries.len() as int;
        assert(d.events_wf()) by {
            assert forall|i: int, j: int| 0 <= i < j < d.events.len() implies (
            #[trigger] d.events[i]).id < (#[trigger] d.events[j]).id by {
                if i < db.events.len() {
                    assert(d.events[i] == db.events[i]);
                }
                if j < db.events.len() {
                    assert(d.events[j] == db.events[j]);
                }
            }
            assert forall|i: int| 0 <= i < d.events.len() implies (#[trigger] d.events[i]).id
                <= d.sequence by {
                if i < db.events.len() {
                    assert(d.events[i] == db.events[i]);
                }
            }
        }
        first_where_is_least(db.records.len() as int, record_of(db.records, inp.message_id));
        assert forall|i: int| 0 <= i < db.records.len() implies (
        #[trigger] db.records[i]).message_id != inp.message_id by {
            assert(!record_of(db.records, inp.message_id)(i));
        }
        assert(d.records_wf());
        let last: int = db.records.len() as int;
        lemma_record_found(d, last);
        assert forall|i: int| 0 <= i < d.deliveries.len() implies d.record(
            (#[trigger] d.deliveries[i]).message_id,
        ) is Some by {
            if i < n {
                assert(delivery_follows(db.deliveries[i], d.deliveries[i]));
                assert(db.record(db.deliveries[i].message_id) is Some);
                lemma_record_kept(db, d, db.deliveries[i].message_id);
            } else {
                assert(d.deliveries[n + (i - n)].message_id == inp.message_id);
            }
        }
        assert forall|i: int, j: int| 0 <= i < j < d.deliveries.len() implies (
        #[trigger] d.deliveries[i]).message_id != (#[trigger] d.deliveries[j]).message_id
            || d.deliveries[i].recipient_name != d.deliveries[j].recipient_name by {
            if i < n {
                assert(delivery_follows(db.deliveries[i], d.deliveries[i]));
                if j < n {
                    assert(delivery_follows(db.deliveries[j], d.deliveries[j]));
                } else {
                    assert(d.deliveries[n + (j - n)].message_id == inp.message_id);
                    assert(db.record(db.deliveries[i].message_id) is Some);
                }
            } else {
                assert(d.deliveries[n + (i - n)].recipient_name == inp.recipients[i - n]);
                assert(d.deliveries[n + (j - n)].recipient_name == inp.recipients[j - n]);
                assert(distinct(inp.recipients));
            }
        }
    }
}

/// A message that was committed is found under its id, with the payload it was committed with, and
/// each of its recipients has it queued, bound to the endpoint the recipient had then.
pub proof fn committed_messages_read_back(db: DbV, inp: PersistV, now: Seq<char>, i: int)
    requires
        db.wf(),
        persisted(db, inp, now) is Ok,
        0 <= i < inp.recipients.len(),
    ensures
        ({
            let (d, p) = persisted(db, inp, now)->Ok_0;
            &&& d.record(inp.message_id) == Some(new_record(inp, p.event_id, now))
            &&& inspected(d, inp.message_id) matches Ok(v) && v.message == with_event_id(
                inp.data,
                p.event_id,
            )
            &&& d.delivery(inp.message_id, inp.recipients[i]) matches Some(row) && row.state
                == "queued"@ && row.endpoint_epoch == db.epoch_or_empty(inp.recipients[i])
                && row.delivery_endpoint == inp.delivery_endpoint && row.attempt == attempt_number(
                db,
                inp,
            )
        }),
{
    lemma_persisted(db, inp, now);
    commits_keep_order(db, inp, now);
    let (d, p) = persisted(db, inp, now)->Ok_0;
    lemma_record_found(d, db.records.len() as int);
    lemma_event_found(d, p.event_id - db.sequence - 1 + db.events.len());
    lemma_delivery_found(d, db.deliveries.len() + i);
}

/// A message that was committed can be referred to by its sender and by each recipient, by its id
/// and, where no message has that number as its id, by the number of its event.
pub proof fn committed_messages_can_be_referred_to(db: DbV, inp: PersistV, now: Seq<char>, actor: Seq<char>)
    requires
        db.wf(),
        persisted(db, inp, now) is Ok,
        actor == inp.sender_name || inp.recipients.contains(actor),
        i64::MIN <= persisted(db, inp, now)->Ok_0.1.event_id <= i64::MAX,
    ensures
        ({
            let (d, p) = persisted(db, inp, now)->Ok_0;
            &&& resolved(d, inp.message_id, actor) == Ok::<Seq<char>, ErrorV>(inp.message_id)
            &&& d.record(decimal(p.event_id)) is None ==> resolved(d, decimal(p.event_id), actor)
                == Ok::<Seq<char>, ErrorV>(inp.message_id)
        }),
{
    lemma_persisted(db, inp, now);
    commits_keep_order(db, inp, now);
    let (d, p) = persisted(db, inp, now)->Ok_0;
    lemma_record_found(d, db.records.len() as int);
    decimal_round_trip(p.event_id);
    if actor != inp.sender_name {
        let i = choose|i: int| 0 <= i < inp.recipients.len() && inp.recipients[i] == actor;
        lemma_delivery_found(d, db.deliveries.len() + i);
    }
}

/// Whoever neither sent a message nor received it is told the same as if there were none.
pub proof fn foreign_messages_look_missing(db: DbV, reference: Seq<char>, actor: Seq<char>)
    requires
        resolved(db, reference, actor) is Err,
    ensures
        resolved(db, reference, actor) == Err::<Seq<char>, ErrorV>(
            crate::store::plain(crate::store::ErrorKind::MessageNotFound),
        ),
{
}

/// A message that was committed to an inbox is unread there.
pub proof fn committed_messages_are_unread(db: DbV, inp: PersistV, now: Seq<char>, i: int)
    requires
        db.wf(),
        persisted(db, inp, now) is Ok,
        0 <= i < inp.recipients.len(),
        inp.delivery_endpoint == "inbox"@,
    ensures
        unread(persisted(db, inp, now)->Ok_0.0, inp.message_id, inp.recipients[i]) == Some(true),
{
    committed_messages_read_back(db, inp, now, i);
    reveal_strlit("queued");
    reveal_strlit("accepted");
    reveal_strlit("acknowledged");
    reveal_strlit("replied");
    reveal_strlit("cancelled");
    reveal_strlit("superseded");
    reveal_strlit("delivery_failed");
    assert("queued"@.len() == 6);
}

proof fn lemma_reply_ends_watches(db: DbV, inp: PersistV, now: Seq<char>, target: Seq<char>)
    requires
        persisted(db, inp, now) is Ok,
        inp.in_reply_to == Some(target),
        db.record(target) is Some,
    ensures
        ({
            let (d, _) = persisted(db, inp, now)->Ok_0;
            forall|i: int|
                0 <= i < d.watches.len() ==> !watch_matches(
                    #[trigger] d.watches[i],
                    db.record(target)->0.event_id,
                    Some(inp.sender_name),
                )
        }),
{
    let (d, _) = persisted(db, inp, now)->Ok_0;
    let d1 = reply_committed(db, inp, now)->Ok_0;
    let (d2, _) = written(d1, inp, attempt_number(db, inp), now)->Ok_0;
    let d3 = supersession_committed(d2, inp, now)->Ok_0;
    lemma_persisted(db, inp, now);
    let before = match inp.supersedes {
        None => d3,
        Some(old_target) => watches_cleared(d3, old_target, None),
    };
    lemma_record_kept(db, d, target);
    assert(before.record(target) == d.record(target));
    let id = db.record(target)->0.event_id;
    let keep = |w: crate::store::WatchV| !watch_matches(w, id, Some(inp.sender_name));
    before.watches.filter_lemma(keep);
    assert(d.watches == before.watches.filter(keep));
    assert forall|i: int| 0 <= i < d.watches.len() implies !watch_matches(
        #[trigger] d.watches[i],
        id,
        Some(inp.sender_name),
    ) by {
        assert(keep(d.watches[i]));
    }
}

/// Once a reply is committed, its sender no longer owes one to the request and is no longer watched
/// for one, and the one who sent the request has a reply waiting.
pub proof fn replies_settle_requests(db: DbV, inp: PersistV, now: Seq<char>, target: Seq<char>)
    requires
        db.wf(),
        persisted(db, inp, now) is Ok,
        inp.in_reply_to == Some(target),
    ensures
        ({
            let (d, _) = persisted(db, inp, now)->Ok_0;
            &&& db.record(target) matches Some(parent) && !owes_reply(d, parent, inp.sender_name)
                && reply_found(d, target, parent.sender_name) != Ok::<Option<InspectionV>, ErrorV>(
                None,
            )
            &&& d.delivery(target, inp.sender_name) matches Some(row) && row.state == "replied"@
            &&& forall|i: int|
                0 <= i < d.watches.len() ==> !watch_matches(
                    #[trigger] d.watches[i],
                    db.record(target)->0.event_id,
                    Some(inp.sender_name),
                )
        }),
{
    lemma_states();
    lemma_persisted(db, inp, now);
    commits_keep_order(db, inp, now);
    let (d, p) = persisted(db, inp, now)->Ok_0;
    assert(reply_slot(db, inp, target) is Ok);
    let parent = db.record(target)->0;
    lemma_record_kept(db, d, target);
    first_where_is_least(db.records.len() as int, record_of(db.records, target));
    let at = first_where(db.records.len() as int, record_of(db.records, target))->0;
    assert(record_of(db.records, target)(at));
    assert(parent.message_id == target);
    let k = db.delivery_pos(target, inp.sender_name)->0;
    lemma_delivery_pos(db, target, inp.sender_name);
    assert(delivery_follows(db.deliveries[k], d.deliveries[k]));
    lemma_delivery_found(d, k);
    let last: int = db.records.len() as int;
    assert(d.records[last] == new_record(inp, p.event_id, now));
    assert(inp.recipients == seq![parent.sender_name]);
    assert(inp.recipients[0] == parent.sender_name);
    lemma_delivery_found(d, db.deliveries.len() + 0int);
    assert(d.deliveries[db.deliveries.len() + 0int].recipient_name == parent.sender_name);
    reveal_strlit("queued");
    reveal_strlit("acknowledged");
    reveal_strlit("replied");
    reveal_strlit("cancelled");
    reveal_strlit("superseded");
    reveal_strlit("delivery_failed");
    assert("queued"@.len() == 6);
    assert(untaken("queued"@));
    assert(waits_for(d, d.records[last], target, parent.sender_name));
    let q = reply_waiting(d, target, parent.sender_name);
    assert(q(last));
    first_where_is_least(d.records.len() as int, q);
    lemma_reply_ends_watches(db, inp, now, target);
}

/// A reply reaches the sender of its request as the request asked: it is unread in the inbox, unless
/// it is waited for; one that is waited for never shows up there.
pub proof fn replies_are_routed_as_asked(db: DbV, inp: PersistV, now: Seq<char>, target: Seq<char>)
    requires
        db.wf(),
        persisted(db, inp, now) is Ok,
        inp.in_reply_to == Some(target),
    ensures
        ({
            let (d, _) = persisted(db, inp, now)->Ok_0;
            let parent = db.record(target)->0;
            let asked = reply_mode(db.event(parent.event_id)->0.data);
            &&& asked == ReplyModeV::Named("inbox"@) || asked == ReplyModeV::Named("wait"@)
            &&& unread(d, inp.message_id, parent.sender_name) == Some(
                asked == ReplyModeV::Named("inbox"@),
            )
        }),
{
    lemma_persisted(db, inp, now);
    assert(reply_slot(db, inp, target) is Ok);
    let (d, p) = persisted(db, inp, now)->Ok_0;
    let parent = db.record(target)->0;
    assert(inp.recipients == seq![parent.sender_name]);
    assert(inp.recipients[0] == parent.sender_name);
    committed_messages_read_back(db, inp, now, 0);
    lemma_record_kept(db, d, target);
    lemma_event_kept(db, d, parent.event_id);
    reveal_strlit("inbox");
    reveal_strlit("wait");
    reveal_strlit("request:");
    reveal_strlit("queued");
    reveal_strlit("accepted");
    reveal_strlit("acknowledged");
    reveal_strlit("replied");
    reveal_strlit("cancelled");
    reveal_strlit("superseded");
    reveal_strlit("delivery_failed");
    assert("queued"@.len() == 6 && "inbox"@.len() == 5 && "wait"@.len() == 4);
    assert("inbox"@ != "wait"@);
    let endpoint = "request:"@ + target;
    assert(endpoint.len() >= 8);
    assert(endpoint != "inbox"@);
    assert("request:"@ =~= endpoint.take(8));
    assert(endpoint.skip(8) =~= target);
    assert(after_prefix(endpoint, "request:"@) == Some(target));
}

/// A message that supersedes another takes the place of each delivery of it that was still under
/// way: one that its recipient had not taken up is superseded, one that it had is asked to be.
pub proof fn superseded_deliveries_give_way(db: DbV, inp: PersistV, now: Seq<char>, target: Seq<char>, i: int)
    requires
        persisted(db, inp, now) is Ok,
        inp.in_reply_to is None,
        inp.supersedes == Some(target),
        0 <= i < db.deliveries.len(),
        db.deliveries[i].message_id == target,
    ensures
        persisted(db, inp, now)->Ok_0.0.deliveries[i].state == match supersession_target(
            db.deliveries[i].state,
        ) {
            Some(next) => next,
            None => db.deliveries[i].state,
        },
        crate::lifecycle::names_recipients(db, target, inp.recipients),
{
    lemma_persisted(db, inp, now);
}

proof fn lemma_highest_attempt(
    db: DbV,
    correlation_id: Seq<char>,
    sender: Seq<char>,
    recipients: Seq<Seq<char>>,
    n: int,
    i: int,
)
    requires
        0 <= i < n <= db.deliveries.len(),
        in_lineage(db, db.deliveries[i], correlation_id, sender, recipients),
    ensures
        db.deliveries[i].attempt <= highest_attempt(db, correlation_id, sender, recipients, n),
    decreases n,
{
    if i < n - 1 {
        lemma_highest_attempt(db, correlation_id, sender, recipients, n - 1, i);
    }
}

/// A retry has a higher attempt than everything that its sender sent before in the same correlation
/// to any of its recipients, so that no two attempts at a recipient are the same.
pub proof fn retries_outnumber_all_before(db: DbV, inp: PersistV, i: int)
    requires
        inp.retry_of is Some,
        0 <= i < db.deliveries.len(),
        in_lineage(db, db.deliveries[i], inp.correlation_id, inp.sender_name, inp.recipients),
    ensures
        db.deliveries[i].attempt < attempt_number(db, inp),
{
    lemma_highest_attempt(
        db,
        inp.correlation_id,
        inp.sender_name,
        inp.recipients,
        db.deliveries.len() as int,
        i,
    );
}

/// A reply is refused once the request is closed to its sender.
pub proof fn closed_requests_take_no_reply(db: DbV, inp: PersistV, now: Seq<char>, target: Seq<char>)
    requires
        inp.in_reply_to == Some(target),
        db.delivery(target, inp.sender_name) matches Some(row) && closed_to_replies(row.state),
    ensures
        persisted(db, inp, now) is Err,
{
}

/// A message id is committed once.
pub proof fn message_ids_are_committed_once(db: DbV, inp: PersistV, again: PersistV, now: Seq<char>, later: Seq<char>)
    requires
        db.wf(),
        persisted(db, inp, now) is Ok,
        again.message_id == inp.message_id,
    ensures
        persisted(persisted(db, inp, now)->Ok_0.0, again, later) is Err,
{
    lemma_persisted(db, inp, now);
    commits_keep_order(db, inp, now);
    let (d, p) = persisted(db, inp, now)->Ok_0;
    lemma_record_found(d, db.records.len() as int);
    lemma_persisted(d, again, later);
}

/// A message goes on record as it was handed in: its record, its event, and a queued delivery for
/// each recipient, bound to the endpoint that the recipient has; and the sender is told so.
pub proof fn messages_are_committed_as_handed_in(db: &mut HcomDb, input: MessagePersistInput<'_>, now: &str, v: MessagePersistResult, i: int)
    requires
        call_ensures(HcomDb::persist_message_v1, (db, &input, now), Ok::<MessagePersistResult, LifecycleError>(v)),
    ensures
        ({
            let rec = final(db)@.records.last();
            &&& final(db)@.records.drop_last() == old(db)@.records
            &&& rec.message_id == input.message_id@ && rec.event_id == v.event_id && rec.correlation_id == input.correlation_id@ && rec.sender_name == input.sender_name@
            &&& rec.sender_session_id == opt_str(input.sender_session_id) && rec.intent == opt_str(input.intent) && rec.expects_reply == input.expects_reply
            &&& rec.in_reply_to == opt_str(input.in_reply_to) && rec.legacy_reply_to == opt_str(input.legacy_reply_to) && rec.reply_endpoint == opt_str(input.reply_endpoint)
            &&& rec.supersedes == opt_str(input.supersedes) && rec.retry_of == opt_str(input.retry_of) && rec.attachments_json == input.attachments_json@ && rec.created_at == now@
        }),
        exists|e: int| 0 <= e < final(db)@.events.len() && (#[trigger] final(db)@.events[e]) == (EventV { id: v.event_id as int, timestamp: now@, kind: "message"@, instance: input.routing_instance@, data: input.data@ }),
        final(db)@.deliveries.len() == old(db)@.deliveries.len() + input.recipients@.len(),
        v.message_id@ == input.message_id@,
        v.delivered_to@.len() == input.recipients@.len(),
        v.recipient_endpoint_epochs@.len() == input.recipients@.len(),
        0 <= i < input.recipients@.len() ==> {
            let row = final(db)@.deliveries[old(db)@.deliveries.len() + i];
            let name = input.recipients@[i]@;
            &&& row.message_id == input.message_id@ && row.recipient_name == name && row.endpoint_epoch == old(db)@.epoch_or_empty(name) && row.delivery_endpoint == input.delivery_endpoint@
            &&& row.state == "queued"@ && row.last_actor == input.sender_name@ && row.updated_at == now@ && row.state_event_id == Some(v.event_id + 1 + i)
            &&& input.retry_of is None ==> row.attempt == 1
            &&& v.delivered_to@[i]@ == name
            &&& v.recipient_endpoint_epochs@[i].recipient@ == name && v.recipient_endpoint_epochs@[i].epoch@ == old(db)@.epoch_or_empty(name)
        },
        final(db)@.instances == old(db)@.instances,
{
    let start = old(db)@;
    let inp = input@;
    lemma_persisted(start, inp, now@);
    let (d, p) = persisted(start, inp, now@)->Ok_0;
    assert(final(db)@.records.drop_last() =~= start.records);
    let e: int = p.event_id - start.sequence - 1 + start.events.len();
    assert(final(db)@.events[e].kind == "message"@);
    assert(v@ == p);
    assert(texts(v.delivered_to@) == inp.recipients);
    assert(texts(v.delivered_to@).len() == v.delivered_to@.len());
    assert(inp.recipients.len() == input.recipients@.len());
    assert(views(v.recipient_endpoint_epochs@) == p.recipient_endpoint_epochs);
    if 0 <= i < input.recipients@.len() {
        assert(inp.recipients[i] == input.recipients@[i]@);
        assert(texts(v.delivered_to@)[i] == v.delivered_to@[i]@);
        assert(views(v.recipient_endpoint_epochs@)[i] == v.recipient_endpoint_epochs@[i]@);
    }
}

/// Superseding a message takes the place of its deliveries by how far they have come, each in the
/// words of the states.
pub proof fn superseding_takes_the_place(db: &mut HcomDb, input: MessagePersistInput<'_>, now: &str, v: MessagePersistResult, target: &str, k: int)
    requires
        call_ensures(HcomDb::persist_message_v1, (db, &input, now), Ok::<MessagePersistResult, LifecycleError>(v)),
        input.supersedes == Some(target) && input.in_reply_to is None,
        0 <= k < old(db).deliveries@.len() && old(db).deliveries@[k].message_id@ == target@,
    ensures
        ({
            let state = old(db).deliveries@[k].state@;
            let after = final(db)@.deliveries[k].state;
            &&& state == "queued"@ || state == "received"@ ==> after == "superseded"@
            &&& state == "accepted"@ || state == "acknowledged"@ ==> after == "supersession_requested"@
            &&& state != "queued"@ && state != "received"@ && state != "accepted"@ && state != "acknowledged"@ ==> after == state
        }),
        exists|i: int| 0 <= i < input.recipients@.len() && (#[trigger] input.recipients@[i])@ == old(db).deliveries@[k].recipient_name@,
{
    lemma_states();
    superseded_deliveries_give_way(old(db)@, input@, now@, target@, k);
    assert(old(db)@.deliveries[k] == old(db).deliveries@[k]@);
    let names = texts(input.recipients@);
    assert(names.contains(old(db)@.deliveries[k].recipient_name));
    let i = choose|i: int| 0 <= i < names.len() && names[i] == old(db)@.deliveries[k].recipient_name;
    assert(input.recipients@[i]@ == names[i]);
}

/// A reply marks the request as replied for the one who replies.
pub proof fn replies_mark_the_request(db: &mut HcomDb, input: MessagePersistInput<'_>, now: &str, v: MessagePersistResult, target: &str, k: int, w: WatchV, parent: RecordV)
    requires
        call_ensures(HcomDb::persist_message_v1, (db, &input, now), Ok::<MessagePersistResult, LifecycleError>(v)),
        input.in_reply_to == Some(target),
        old(db)@.delivery_pos(target@, input.sender_name@) matches Some(p) ==> p == k,
        old(db)@.record(target@) matches Some(rec) ==> rec == parent,
    ensures
        old(db)@.record(target@) == Some(parent),
        old(db)@.delivery_pos(target@, input.sender_name@) == Some(k),
        parent.intent == Some("request"@) && parent.expects_reply && parent.correlation_id == input.correlation_id@,
        opt_str(input.intent) == Some("ack"@) && input.recipients@.len() == 1 && input.recipients@[0]@ == parent.sender_name,
        opt_str(input.legacy_reply_to) == Some(decimal(parent.event_id)),
        input.delivery_endpoint@ == "inbox"@ || input.delivery_endpoint@ == "request:"@ + target@,
        final(db)@.deliveries[k].state == "replied"@,
        final(db)@.watches.contains(w) ==> !(w.request_id == parent.event_id && w.target == Some(input.sender_name@)),
        old(db).deliveries@[k].state@ != "replied"@ && old(db).deliveries@[k].state@ != "cancelled"@ && old(db).deliveries@[k].state@ != "superseded"@ && old(db).deliveries@[k].state@ != "delivery_failed"@,
{
    let start = old(db)@;
    lemma_persisted(start, input@, now@);
    lemma_reply_ends_watches(start, input@, now@, target@);
    assert(start.deliveries[k] == old(db).deliveries@[k]@);
    assert(texts(input.recipients@) == seq![parent.sender_name]);
    assert(texts(input.recipients@).len() == input.recipients@.len());
    assert(texts(input.recipients@)[0] == input.recipients@[0]@);
}

/// A message is refused where it names a recipient twice, where it renews a message that is not there,
/// that another sent, or that is a reply, and where it supersedes one for other recipients.
pub proof fn commits_are_refused_for_cause(db: &mut HcomDb, input: MessagePersistInput<'_>, now: &str, r: Result<MessagePersistResult, LifecycleError>, old_id: &str, i: int, j: int)
    requires
        call_ensures(HcomDb::persist_message_v1, (db, &input, now), r),
    ensures
        r is Err ==> final(db)@ == old(db)@,
        0 <= i < j < input.recipients@.len() && input.recipients@[i]@ == input.recipients@[j]@ ==> (r matches Err(e) && refusal_text(e@) == "message recipients must be unique"@),
        distinct(texts(input.recipients@)) && input.retry_of == Some(old_id) ==> match old(db)@.record(old_id@) {
            None => r matches Err(e) && refusal_text(e@) == "retry target not found"@,
            Some(rec) => {
                &&& rec.sender_name != input.sender_name@ ==> (r matches Err(e) && refusal_text(e@) == "retry is allowed only for the original sender"@)
                &&& rec.sender_name == input.sender_name@ && rec.in_reply_to is Some ==> (r matches Err(e) && refusal_text(e@) == "replies cannot be retried in message lifecycle V1"@)
            },
        },
        distinct(texts(input.recipients@)) && input.retry_of is None && input.supersedes == Some(old_id) ==> match old(db)@.record(old_id@) {
            None => r matches Err(e) && refusal_text(e@) == "supersede target not found"@,
            Some(rec) => {
                &&& rec.sender_name != input.sender_name@ ==> (r matches Err(e) && refusal_text(e@) == "supersede is allowed only for the original sender"@)
                &&& rec.sender_name == input.sender_name@ && rec.in_reply_to is Some ==> (r matches Err(e) && refusal_text(e@) == "replies cannot be superseded in message lifecycle V1"@)
                &&& rec.sender_name == input.sender_name@ && rec.in_reply_to is None && 0 <= i < old(db)@.deliveries.len() && old(db)@.deliveries[i].message_id == old_id@ && !texts(input.recipients@).contains(old(db)@.deliveries[i].recipient_name) ==> (r matches Err(e) && refusal_text(e@) == "supersede must preserve the identical recipient set"@)
                &&& rec.sender_name == input.sender_name@ && rec.in_reply_to is None && 0 <= i < input.recipients@.len() && old(db)@.delivery_pos(old_id@, input.recipients@[i]@) is None ==> (r matches Err(e) && refusal_text(e@) == "supersede must preserve the identical recipient set"@)
            },
        },
        old(db)@.record(input.message_id@) is Some ==> r is Err,
{
    lemma_persisted(old(db)@, input@, now@);
    let names = texts(input.recipients@);
    if 0 <= i < input.recipients@.len() {
        assert(names[i] == input.recipients@[i]@);
    }
    if 0 <= j < input.recipients@.len() {
        assert(names[j] == input.recipients@[j]@);
    }
}

/// A reply is refused where its request is not there or does not ask for one, where it has another
/// intent, correlation or addressee than it must, and where its sender is no recipient of the request
/// or can answer it no more.
pub proof fn replies_are_refused_for_cause(db: &mut HcomDb, input: MessagePersistInput<'_>, now: &str, r: Result<MessagePersistResult, LifecycleError>, target: &str, parent: RecordV, event: EventV)
    requires
        call_ensures(HcomDb::persist_message_v1, (db, &input, now), r),
        distinct(texts(input.recipients@)) && input.retry_of is None && input.supersedes is None,
        input.in_reply_to == Some(target),
        old(db)@.record(target@) matches Some(rec) ==> rec == parent && old(db)@.event(rec.event_id) == Some(event),
        member_text(event.data, "reply_mode"@) == Some("inbox"@) || member_text(event.data, "reply_mode"@) == Some("wait"@),
    ensures
        ({
            let asked = parent.intent == Some("request"@) && parent.expects_reply;
            let acks = opt_str(input.intent) == Some("ack"@);
            let correlated = parent.correlation_id == input.correlation_id@;
            let addressed = texts(input.recipients@) == seq![parent.sender_name];
            let fits = input.delivery_endpoint@ == "request:"@ + target@ || (input.delivery_endpoint@ == "inbox"@ && member_text(event.data, "reply_mode"@) == Some("inbox"@));
            let numbered = opt_str(input.legacy_reply_to) == Some(decimal(parent.event_id));
            if old(db)@.record(target@) is None {
                r matches Err(e) && refusal_text(e@) == "reply target not found"@
            } else if !asked {
                r matches Err(e) && refusal_text(e@) == "reply target must be a request that expects a reply"@
            } else if !acks {
                r matches Err(e) && refusal_text(e@) == "request replies must use ack intent"@
            } else if !correlated {
                r matches Err(e) && refusal_text(e@) == "reply correlation does not match request"@
            } else if !addressed {
                r matches Err(e) && refusal_text(e@) == "reply must address exactly the original sender"@
            } else if !fits {
                r matches Err(e) && refusal_text(e@) == "reply delivery endpoint does not match request reply mode"@
            } else if !numbered {
                r matches Err(e) && refusal_text(e@) == "reply must retain the parent event ID as legacy reply_to"@
            } else {
                match old(db)@.delivery(target@, input.sender_name@) {
                    None => r matches Err(e) && refusal_text(e@) == "reply actor is not a recipient of the request"@,
                    Some(row) => row.state == "replied"@ || row.state == "cancelled"@ || row.state == "superseded"@ || row.state == "delivery_failed"@ ==> (r matches Err(e) && refusal_text(e@) == "request is no longer replyable ("@ + row.state + ")"@),
                }
            }
        }),
{
    assert(texts(input.recipients@) == seq![parent.sender_name] || texts(input.recipients@) != seq![parent.sender_name]);
}

proof fn lemma_queueing_succeeds(db: DbV, inp: PersistV, attempt: int, now: Seq<char>, n: int)
    requires
        0 <= n <= inp.recipients.len(),
        db.sequence + n <= i64::MAX,
    ensures
        queued(db, inp, attempt, now, n) is Ok,
    decreases n,
{
    if n > 0 {
        lemma_queueing_succeeds(db, inp, attempt, now, n - 1);
        lemma_queued(db, inp, attempt, now, n - 1);
    }
}

/// A new message to different recipients, with an id that no message has, is committed, as long as
/// the log has ids left.
pub proof fn new_messages_are_committed(db: &mut HcomDb, input: MessagePersistInput<'_>, now: &str, r: Result<MessagePersistResult, LifecycleError>)
    requires
        call_ensures(HcomDb::persist_message_v1, (db, &input, now), r),
        distinct(texts(input.recipients@)) && input.retry_of is None && input.supersedes is None && input.in_reply_to is None,
        old(db)@.record(input.message_id@) is None,
        old(db)@.sequence + 1 + input.recipients@.len() <= i64::MAX,
    ensures
        r matches Ok(v) && v.event_id == old(db)@.sequence + 1,
        final(db)@.notifications == old(db)@.notifications + id_range(old(db)@.sequence, final(db)@.sequence),
        final(db)@.watches == old(db)@.watches,
{
    let start = old(db)@;
    let inp = input@;
    let id = start.sequence + 1;
    let (d, _) = event_logged(start, now@, "message"@, inp.routing_instance, inp.data)->Ok_0;
    assert(d.record(inp.message_id) == start.record(inp.message_id));
    let recorded = DbV { records: d.records.push(new_record(inp, id, now@)), ..d };
    assert(inp.recipients.len() == input.recipients@.len());
    lemma_queueing_succeeds(recorded, inp, 1, now@, inp.recipients.len() as int);
    lemma_queued(recorded, inp, 1, now@, inp.recipients.len() as int);
    lemma_queued_keeps(recorded, inp, 1, now@, inp.recipients.len() as int);
    assert(final(db)@.notifications =~= start.notifications + id_range(start.sequence, final(db)@.sequence));
}

proof fn lemma_queued_keeps(db: DbV, inp: PersistV, attempt: int, now: Seq<char>, n: int)
    ensures
        queued(db, inp, attempt, now, n) matches Ok(d) ==> d.watches == db.watches && d.notifications == db.notifications,
    decreases n,
{
    if n > 0 {
        lemma_queued_keeps(db, inp, attempt, now, n - 1);
    }
}

/// What the log says of the deliveries that are queued for the first `n` recipients.
proof fn lemma_queue_events(db: DbV, inp: PersistV, attempt: int, now: Seq<char>, n: int, i: int)
    requires
        0 <= i < n <= inp.recipients.len(),
    ensures
        queued(db, inp, attempt, now, n) matches Ok(d) ==> d.events.len() == db.events.len() + n && d.events[db.events.len() + i] == (EventV {
            id: db.sequence + 1 + i,
            timestamp: now,
            kind: "message_state"@,
            instance: inp.routing_instance,
            data: transition_data(
                TransitionV {
                    message_id: inp.message_id,
                    recipient: inp.recipients[i],
                    endpoint_epoch: db.epoch_or_empty(inp.recipients[i]),
                    prior_state: None,
                    new_state: "queued"@,
                    attempt,
                    actor: inp.sender_name,
                    reason: "message committed"@,
                },
                now,
            ),
        }),
    decreases n,
{
    lemma_queued(db, inp, attempt, now, n - 1);
    if n - 1 > i {
        lemma_queue_events(db, inp, attempt, now, n - 1, i);
    }
    if let Ok(d) = queued(db, inp, attempt, now, n - 1) {
        assert(d.epoch_or_empty(inp.recipients[n - 1]) == db.epoch_or_empty(inp.recipients[n - 1]));
        if n - 1 == i {
            assert(d.events.len() == db.events.len() + i);
        }
    }
}

/// A message that is committed is logged, and then that it is queued for each recipient, by the sender
/// and because it was committed.
pub proof fn queued_deliveries_are_logged(db: &mut HcomDb, input: MessagePersistInput<'_>, now: &str, v: MessagePersistResult, i: int)
    requires
        call_ensures(HcomDb::persist_message_v1, (db, &input, now), Ok::<MessagePersistResult, LifecycleError>(v)),
        input.retry_of is None && input.supersedes is None && input.in_reply_to is None,
        0 <= i < input.recipients@.len(),
    ensures
        final(db)@.events.len() == old(db)@.events.len() + 1 + input.recipients@.len(),
        ({
            let e = final(db)@.events[old(db)@.events.len() + 1 + i];
            &&& e.id == v.event_id + 1 + i && e.kind == "message_state"@ && e.instance == input.routing_instance@ && e.timestamp == now@
            &&& member_text(e.data, "message_id"@) == Some(input.message_id@) && member_text(e.data, "recipient"@) == Some(input.recipients@[i]@)
            &&& member(e.data, "prior_state"@) == Some(JsonV::Null) && member_text(e.data, "new_state"@) == Some("queued"@)
            &&& member_text(e.data, "actor"@) == Some(input.sender_name@) && member_text(e.data, "reason"@) == Some("message committed"@)
        }),
{
    let start = old(db)@;
    let inp = input@;
    let id = start.sequence + 1;
    let (d, _) = event_logged(start, now@, "message"@, inp.routing_instance, inp.data)->Ok_0;
    let recorded = DbV { records: d.records.push(new_record(inp, id, now@)), ..d };
    assert(inp.recipients.len() == input.recipients@.len());
    assert(inp.recipients[i] == input.recipients@[i]@);
    lemma_queue_events(recorded, inp, 1, now@, inp.recipients.len() as int, i);
    transitions_are_logged_in_full(
        TransitionV {
            message_id: inp.message_id,
            recipient: inp.recipients[i],
            endpoint_epoch: recorded.epoch_or_empty(inp.recipients[i]),
            prior_state: None,
            new_state: "queued"@,
            attempt: 1,
            actor: inp.sender_name,
            reason: "message committed"@,
        },
        now@,
    );
}

/// A reply logs first that the request is replied to, by the one who replies.
pub proof fn replies_are_logged(db: &mut HcomDb, input: MessagePersistInput<'_>, now: &str, v: MessagePersistResult, target: &str)
    requires
        call_ensures(HcomDb::persist_message_v1, (db, &input, now), Ok::<MessagePersistResult, LifecycleError>(v)),
        input.in_reply_to == Some(target),
    ensures
        v.event_id == old(db)@.sequence + 2,
        final(db)@.events.len() > old(db)@.events.len(),
        ({
            let e = final(db)@.events[old(db)@.events.len() as int];
            &&& e.id == old(db)@.sequence + 1 && e.kind == "message_state"@ && e.instance == input.sender_name@ && e.timestamp == now@
            &&& member_text(e.data, "message_id"@) == Some(target@) && member_text(e.data, "recipient"@) == Some(input.sender_name@)
            &&& member_text(e.data, "new_state"@) == Some("replied"@) && member_text(e.data, "actor"@) == Some(input.sender_name@) && member_text(e.data, "reason"@) == Some("reply committed"@)
        }),
{
    let start = old(db)@;
    let inp = input@;
    lemma_persisted(start, inp, now@);
    lemma_reply_committed(start, inp, now@);
    let k = reply_slot(start, inp, target@)->Ok_0;
    lemma_delivery_pos(start, target@, inp.sender_name);
    let row = start.deliveries[k];
    let (d1, _) = moved(start, k, "replied"@, inp.sender_name, "reply committed"@, now@, inp.sender_name)->Ok_0;
    let attempt = attempt_number(start, inp);
    lemma_written(d1, inp, attempt, now@);
    let (d2, id) = written(d1, inp, attempt, now@)->Ok_0;
    if let Some(old_id) = inp.supersedes {
        lemma_superseded(d2, old_id, inp.sender_name, inp.message_id, now@, d2.deliveries.len() as int);
    } else {
        lemma_follows_itself(d2);
    }
    let d3 = supersession_committed(d2, inp, now@)->Ok_0;
    let n = start.events.len() as int;
    assert(d1.events.is_prefix_of(d2.events) && d2.events.is_prefix_of(d3.events));
    assert(d1.events[n] == d2.events[n] && d2.events[n] == d3.events[n]);
    assert(final(db)@.events == d3.events);
    transitions_are_logged_in_full(
        TransitionV {
            message_id: row.message_id,
            recipient: row.recipient_name,
            endpoint_epoch: row.endpoint_epoch,
            prior_state: Some(row.state),
            new_state: "replied"@,
            attempt: row.attempt,
            actor: inp.sender_name,
            reason: "reply committed"@,
        },
        now@,
    );
}

/// Whether the log says that a delivery was superseded by a message.
pub open spec fn logs_supersession(events: Seq<EventV>, old_id: Seq<char>, recipient: Seq<char>, by: Seq<char>, sender: Seq<char>) -> bool {
    exists|q: int| 0 <= q < events.len() && (#[trigger] events[q]).kind == "message_state"@ && events[q].instance == sender && member_text(events[q].data, "message_id"@) == Some(old_id) && member_text(events[q].data, "recipient"@) == Some(recipient) && member_text(events[q].data, "actor"@) == Some(sender) && member_text(events[q].data, "reason"@) == Some("superseded by "@ + by)
}

proof fn lemma_supersession_logged(db: DbV, target: Seq<char>, sender: Seq<char>, message_id: Seq<char>, now: Seq<char>, n: int, i: int)
    requires
        0 <= i < n <= db.deliveries.len(),
        supersedable(db.deliveries[i], target),
    ensures
        superseded(db, target, sender, message_id, now, n) matches Ok(d) ==> logs_supersession(d.events, target, db.deliveries[i].recipient_name, message_id, sender),
    decreases n,
{
    lemma_superseded(db, target, sender, message_id, now, n - 1);
    if let Ok(d) = superseded(db, target, sender, message_id, now, n - 1) {
        if let Ok(d2) = superseded(db, target, sender, message_id, now, n) {
            if i < n - 1 {
                lemma_supersession_logged(db, target, sender, message_id, now, n - 1, i);
                let q = choose|q: int| 0 <= q < d.events.len() && (#[trigger] d.events[q]).kind == "message_state"@ && d.events[q].instance == sender && member_text(d.events[q].data, "message_id"@) == Some(target) && member_text(d.events[q].data, "recipient"@) == Some(db.deliveries[i].recipient_name) && member_text(d.events[q].data, "actor"@) == Some(sender) && member_text(d.events[q].data, "reason"@) == Some("superseded by "@ + message_id);
                assert(d2.events[q] == d.events[q]);
            } else {
                let row = d.deliveries[i];
                assert(row == db.deliveries[i]);
                transitions_are_logged_in_full(
                    TransitionV {
                        message_id: row.message_id,
                        recipient: row.recipient_name,
                        endpoint_epoch: row.endpoint_epoch,
                        prior_state: Some(row.state),
                        new_state: supersession_target(row.state)->0,
                        attempt: row.attempt,
                        actor: sender,
                        reason: "superseded by "@ + message_id,
                    },
                    now,
                );
                let q = d2.events.len() - 1;
                assert(d2.events[q].kind == "message_state"@);
            }
        }
    }
}

/// A message that supersedes another logs so for each delivery that gives way, and says by what.
pub proof fn supersessions_are_logged(db: &mut HcomDb, input: MessagePersistInput<'_>, now: &str, v: MessagePersistResult, target: &str, k: int)
    requires
        call_ensures(HcomDb::persist_message_v1, (db, &input, now), Ok::<MessagePersistResult, LifecycleError>(v)),
        input.supersedes == Some(target) && input.in_reply_to is None,
        0 <= k < old(db).deliveries@.len() && old(db).deliveries@[k].message_id@ == target@,
        old(db).deliveries@[k].state@ == "queued"@ || old(db).deliveries@[k].state@ == "received"@ || old(db).deliveries@[k].state@ == "accepted"@ || old(db).deliveries@[k].state@ == "acknowledged"@,
    ensures
        logs_supersession(final(db)@.events, target@, old(db).deliveries@[k].recipient_name@, input.message_id@, input.sender_name@),
{
    lemma_states();
    let start = old(db)@;
    let inp = input@;
    assert(start.deliveries[k] == old(db).deliveries@[k]@);
    let attempt = attempt_number(start, inp);
    lemma_written(start, inp, attempt, now@);
    let (d2, id) = written(start, inp, attempt, now@)->Ok_0;
    assert(d2.deliveries[k] == start.deliveries[k]);
    lemma_supersession_logged(d2, target@, inp.sender_name, inp.message_id, now@, d2.deliveries.len() as int, k);
}

/// The subscriptions see a reply before they see that the request is replied to.
pub proof fn replies_are_announced_first(db: &mut HcomDb, input: MessagePersistInput<'_>, now: &str, v: MessagePersistResult, target: &str)
    requires
        call_ensures(HcomDb::persist_message_v1, (db, &input, now), Ok::<MessagePersistResult, LifecycleError>(v)),
        input.in_reply_to == Some(target) && input.supersedes is None,
    ensures
        ({
            let n = old(db)@.notifications.len() as int;
            let told = final(db)@.notifications;
            &&& told.len() == n + 2 + input.recipients@.len()
            &&& told[n] == v.event_id && told[n + 1] == v.event_id - 1
            &&& told.take(n) == old(db)@.notifications
            &&& forall|i: int| 0 <= i < input.recipients@.len() ==> #[trigger] told[n + 2 + i] == v.event_id + 1 + i
        }),
{
    let start = old(db)@;
    let inp = input@;
    lemma_reply_committed(start, inp, now@);
    let d1 = reply_committed(start, inp, now@)->Ok_0;
    let attempt = attempt_number(start, inp);
    lemma_written(d1, inp, attempt, now@);
    let (d2, id) = written(d1, inp, attempt, now@)->Ok_0;
    let (logged, _) = event_logged(d1, now@, "message"@, inp.routing_instance, inp.data)->Ok_0;
    let recorded = DbV { records: logged.records.push(new_record(inp, id, now@)), ..logged };
    lemma_queued(recorded, inp, attempt, now@, inp.recipients.len() as int);
    lemma_queued_keeps(recorded, inp, attempt, now@, inp.recipients.len() as int);
    assert(inp.recipients.len() == input.recipients@.len());
    assert(d2.notifications == start.notifications);
    let told = final(db)@.notifications;
    let n = start.notifications.len() as int;
    assert(d2.sequence == id + inp.recipients.len());
    assert(told == start.notifications.push(id).push(id - 1) + id_range(id, d2.sequence));
    assert(told.take(n) =~= start.notifications);
}

} // verus!
