//! What holds of events that come from other devices.

use crate::cleanup::{
    DeliveryKeyV, all_rebuilt, cleaned, delivery_from, purged, rebuilt, record_from, without_device,
};
use crate::evolution::{delivery_follows, lemma_states};
use crate::imports::{
    ImportedMessageV, ProjectionV, answerable, delivered, delivered_to, imported_attempt,
    imported_record, later_record, latest_attempt, message_in, message_projected, message_recorded,
    origin_device, reply_projected, state_projected,
};
use crate::columns::ColumnV;
use crate::json::{Json, JsonV, member, member_int, member_text, with_member_reads_back};
use crate::relay::{
    Attachments, AttachmentsV, PreparedEvent, PreparedV, Route, RouteV, event_payload, prepared, protocol_aware};
use crate::search::{first_where, first_where_agrees, first_where_found, first_where_is_least};
use crate::store::{
    DbV, DeliveryV, ErrorV, EventV, HcomDb, InstanceV, KvV, LifecycleError, RecordV, delivery_of, event_logged, event_with,
    instance_named, kv_named, record_at, record_of,
};
use crate::sync::{
    RelayImportV, RelayV1Import, RemoteEvent, RemoteEventV, ResetMark, all_taken_in, cursor_key, event_imported,
    event_projected, events_imported, ids_regressed, import_of, imported_from, kv_put,
    plainly_logged, remote_id, same_import, seen_up_to, taken_in_from,
};
use crate::devices::{
    ControlRequest, EnvelopeStep, Greeting, GreetingV, RemoteEntry, RemoteInstance, RemoteInstanceV, StateMessage, StateMessageV, StateStep, StateSnapshotV, arrived, device_event_logged, device_gone,
    device_keys_removed, device_reset, instance_put, instances_put, instances_taken_over,
    named_short_id, short_id_taken, snapshot_applied, snapshot_in, state_finished, state_handled,
    uppercase, StateStepV, watermark, watermark_key, watermark_recorded,
};
use crate::text::{decimal, decimal_round_trip, unsigned_round_trip};
use vstd::prelude::*;

verus! {

/// What was put under a key is what is found under it, and every other key keeps its value.
pub proof fn kept_values_read_back(db: DbV, key: Seq<char>, value: Seq<char>, other: Seq<char>)
    ensures
        kv_put(db, key, Some(value)).kv_value(key) == Some(value),
        other != key ==> kv_put(db, key, Some(value)).kv_value(other) == db.kv_value(other),
{
    let n: int = db.kv.len() as int;
    let d = kv_put(db, key, Some(value));
    let p = kv_named(db.kv, key);
    let q = kv_named(d.kv, key);
    first_where_is_least(n, p);
    match first_where(n, p) {
        Some(i) => {
            assert forall|j: int| 0 <= j < i implies !#[trigger] q(j) by {
                assert(!p(j));
            }
            assert(q(i));
            first_where_found(n, q, i);
        },
        None => {
            assert forall|j: int| 0 <= j < n implies !#[trigger] q(j) by {
                assert(!p(j));
            }
            assert(q(n));
            first_where_found(n + 1, q, n);
        },
    }
    if other != key {
        let a = kv_named(db.kv, other);
        let b = kv_named(d.kv, other);
        first_where_is_least(n, a);
        assert forall|j: int| 0 <= j < n implies #[trigger] a(j) == b(j) by {
            if first_where(n, p) == Some(j) {
                assert(p(j));
            }
        }
        first_where_agrees(n, a, b);
        if first_where(n, p) is None {
            assert(!b(n));
            assert(first_where(n + 1, b) == first_where(n, b));
        }
        if let Some(k) = first_where(n, a) {
            assert(a(k));
            if let Some(i) = first_where(n, p) {
                assert(p(i));
                assert(i != k);
            }
            assert(d.kv[k] == db.kv[k]);
        }
    }
}

/// Whether no key occurs twice.
pub open spec fn keys_distinct(rows: Seq<KvV>) -> bool {
    forall|i: int, j: int|
        0 <= i < j < rows.len() ==> (#[trigger] rows[i]).key != (#[trigger] rows[j]).key
}

/// A key that was removed is not found, where no key occurs twice.
pub proof fn removed_values_are_gone(db: DbV, key: Seq<char>)
    requires
        keys_distinct(db.kv),
    ensures
        kv_put(db, key, None).kv_value(key) is None,
{
    let n: int = db.kv.len() as int;
    let d = kv_put(db, key, None);
    let p = kv_named(db.kv, key);
    let q = kv_named(d.kv, key);
    first_where_is_least(n, p);
    first_where_is_least(d.kv.len() as int, q);
    if let Some(j) = first_where(d.kv.len() as int, q) {
        assert(q(j));
        match first_where(n, p) {
            Some(i) => {
                assert(p(i));
                if j < i {
                    assert(d.kv[j] == db.kv[j]);
                    assert(!p(j));
                } else {
                    assert(d.kv[j] == db.kv[j + 1]);
                    assert(db.kv[i].key != db.kv[j + 1].key);
                }
            },
            None => {
                assert(!p(j));
            },
        }
    }
}

/// The newest time that was accepted from a device never goes back, and reaches each time that is
/// accepted.
pub proof fn watermarks_never_go_back(db: DbV, device_id: Seq<char>, ts: int)
    requires
        0 < ts <= u64::MAX,
    ensures
        watermark(watermark_recorded(db, device_id, ts), device_id) == Some(
            if watermark(db, device_id) is Some && watermark(db, device_id)->0 >= ts {
                watermark(db, device_id)->0
            } else {
                ts
            },
        ),
{
    kept_values_read_back(
        db,
        watermark_key(device_id),
        decimal(ts),
        watermark_key(device_id),
    );
    unsigned_round_trip(ts, u64::MAX as int);
}

/// An event that is rejected leaves nothing behind.
pub proof fn rejected_events_leave_nothing(
    db: DbV,
    route: RouteV,
    id: int,
    timestamp: Seq<char>,
    p: PreparedV,
    attachments: AttachmentsV,
)
    requires
        event_imported(db, route, id, timestamp, p, attachments) matches Ok((_, outcome))
            && outcome is Rejected,
    ensures
        event_imported(db, route, id, timestamp, p, attachments)->Ok_0.0 == db,
{
}

/// A record in a list is found in it.
proof fn lemma_found(d: DbV, message_id: Seq<char>, k: int)
    requires
        0 <= k < d.records.len(),
        d.records[k].message_id == message_id,
    ensures
        d.record(message_id) is Some,
{
    first_where_is_least(d.records.len() as int, record_of(d.records, message_id));
    assert(record_of(d.records, message_id)(k));
}

/// Putting an imported message on record keeps the store in order.
proof fn lemma_recorded(db: DbV, m: ImportedMessageV, event_id: int, timestamp: Seq<char>)
    requires
        db.wf(),
        event_id <= db.sequence,
    ensures
        message_recorded(db, m, event_id, timestamp) matches ProjectionV::Applied(d) ==> {
            &&& d.wf()
            &&& d.record(m.message_id) == Some(imported_record(m, event_id, timestamp))
            &&& d == (DbV { records: d.records, ..db })
            &&& forall|i: int|
                0 <= i < d.records.len() ==> (#[trigger] d.records[i]) == imported_record(
                    m,
                    event_id,
                    timestamp,
                ) || db.records.contains(d.records[i])
        },
{
    let n: int = db.records.len() as int;
    let row = imported_record(m, event_id, timestamp);
    let p = record_of(db.records, m.message_id);
    first_where_is_least(n, p);
    if let ProjectionV::Applied(d) = message_recorded(db, m, event_id, timestamp) {
        match first_where(n, p) {
            Some(i) => {
                assert(p(i));
                let q = record_of(d.records, m.message_id);
                assert forall|j: int| 0 <= j < i implies !#[trigger] q(j) by {
                    assert(!p(j));
                }
                assert(q(i));
                first_where_found(n, q, i);
                assert(d.records_wf());
                assert forall|j: int| 0 <= j < d.deliveries.len() implies d.record(
                    (#[trigger] d.deliveries[j]).message_id,
                ) is Some by {
                    let id = db.deliveries[j].message_id;
                    assert(db.record(id) is Some);
                    first_where_is_least(n, record_of(db.records, id));
                    let k = first_where(n, record_of(db.records, id))->0;
                    assert(record_of(db.records, id)(k));
                    assert(d.records[k].message_id == id);
                    lemma_found(d, id, k);
                }
                assert forall|j: int| 0 <= j < d.records.len() implies (#[trigger] d.records[j])
                    == row || db.records.contains(d.records[j]) by {
                    if j != i {
                        assert(d.records[j] == db.records[j]);
                    }
                }
            },
            None => {
                let later = later_record(db.records, event_id);
                first_where_is_least(n, later);
                first_where_is_least(n, record_at(db.records, event_id));
                let at = match first_where(n, later) {
                    Some(i) => i,
                    None => n,
                };
                assert(d.records =~= db.records.insert(at, row));
                assert forall|j: int| 0 <= j < n implies (#[trigger] db.records[j]).message_id
                    != m.message_id && db.records[j].event_id != event_id by {
                    assert(!p(j));
                    assert(!record_at(db.records, event_id)(j));
                }
                assert forall|j: int| 0 <= j < at implies (#[trigger] db.records[j]).event_id
                    < event_id by {
                    assert(!later(j));
                }
                assert forall|j: int| at <= j < n implies (#[trigger] db.records[j]).event_id
                    > event_id by {
                    assert(later(at));
                    if j > at {
                        assert(db.records[at].event_id < db.records[j].event_id);
                    }
                }
                assert forall|j: int| 0 <= j < n + 1 implies (#[trigger] d.records[j]) == (if j < at {
                    db.records[j]
                } else if j == at {
                    row
                } else {
                    db.records[j - 1]
                }) by {}
                assert(d.records_wf());
                let q = record_of(d.records, m.message_id);
                assert forall|j: int| 0 <= j < at implies !#[trigger] q(j) by {
                    assert(d.records[j] == db.records[j]);
                }
                assert(q(at));
                first_where_found(n + 1, q, at);
                assert forall|j: int| 0 <= j < d.deliveries.len() implies d.record(
                    (#[trigger] d.deliveries[j]).message_id,
                ) is Some by {
                    let id = db.deliveries[j].message_id;
                    assert(db.record(id) is Some);
                    first_where_is_least(n, record_of(db.records, id));
                    let k = first_where(n, record_of(db.records, id))->0;
                    assert(record_of(db.records, id)(k));
                    let k2 = if k < at {
                        k
                    } else {
                        k + 1
                    };
                    assert(d.records[k2] == db.records[k]);
                    lemma_found(d, id, k2);
                }
                assert forall|j: int| 0 <= j < d.records.len() implies (#[trigger] d.records[j])
                    == row || db.records.contains(d.records[j]) by {
                    if j < at {
                        assert(d.records[j] == db.records[j]);
                    } else if j > at {
                        assert(d.records[j] == db.records[j - 1]);
                    }
                }
            },
        }
    }
}

/// Delivering an imported message keeps the store in order.
proof fn lemma_delivered(
    db: DbV,
    m: ImportedMessageV,
    attempt: int,
    event_id: int,
    timestamp: Seq<char>,
    n: int,
)
    requires
        db.wf(),
        db.record(m.message_id) is Some,
        0 <= n <= m.recipients.len(),
    ensures
        ({
            let d = delivered(db, m, attempt, event_id, timestamp, n);
            &&& d.wf()
            &&& d == (DbV { deliveries: d.deliveries, ..db })
            &&& db.deliveries.len() <= d.deliveries.len()
            &&& forall|i: int|
                0 <= i < db.deliveries.len() ==> (#[trigger] d.deliveries[i]).message_id
                    == db.deliveries[i].message_id && d.deliveries[i].recipient_name
                    == db.deliveries[i].recipient_name && d.deliveries[i].attempt
                    == db.deliveries[i].attempt && d.deliveries[i].state == db.deliveries[i].state
                    && d.deliveries[i].endpoint_epoch == db.deliveries[i].endpoint_epoch
            &&& forall|i: int|
                db.deliveries.len() <= i < d.deliveries.len() ==> (
                #[trigger] d.deliveries[i]).message_id == m.message_id
            &&& forall|j: int|
                0 <= j < n ==> d.delivery_pos(m.message_id, #[trigger] m.recipients[j]) is Some
            &&& forall|j: int|
                0 <= j < n ==> d.deliveries[d.delivery_pos(
                    m.message_id,
                    #[trigger] m.recipients[j],
                )->0].delivery_endpoint == m.delivery_endpoint
        }),
    decreases n,
{
    if n > 0 {
        lemma_delivered(db, m, attempt, event_id, timestamp, n - 1);
        let d = delivered(db, m, attempt, event_id, timestamp, n - 1);
        let recipient = m.recipients[n - 1];
        let d2 = delivered_to(d, m, attempt, event_id, timestamp, recipient);
        let p = delivery_of(d.deliveries, m.message_id, recipient);
        let len: int = d.deliveries.len() as int;
        first_where_is_least(len, p);
        assert forall|i: int| 0 <= i < d2.deliveries.len() implies d2.record(
            (#[trigger] d2.deliveries[i]).message_id,
        ) is Some by {
            if i < len {
                assert(d.record(d.deliveries[i].message_id) is Some);
            }
            assert(d2.record(d2.deliveries[i].message_id) == d.record(
                d2.deliveries[i].message_id,
            ));
        }
        assert forall|i: int, j: int| 0 <= i < j < d2.deliveries.len() implies (
        #[trigger] d2.deliveries[i]).message_id != (#[trigger] d2.deliveries[j]).message_id
            || d2.deliveries[i].recipient_name != d2.deliveries[j].recipient_name by {
            if j < len {
                assert(d.deliveries[i].message_id != d.deliveries[j].message_id
                    || d.deliveries[i].recipient_name != d.deliveries[j].recipient_name);
            } else {
                assert(!p(i));
            }
        }
        assert(d2.wf());
        assert forall|j: int| 0 <= j < n implies d2.delivery_pos(
            m.message_id,
            #[trigger] m.recipients[j],
        ) is Some && d2.deliveries[d2.delivery_pos(m.message_id, m.recipients[j])->0].delivery_endpoint
            == m.delivery_endpoint by {
            let a = delivery_of(d.deliveries, m.message_id, m.recipients[j]);
            let b = delivery_of(d2.deliveries, m.message_id, m.recipients[j]);
            assert forall|i: int| 0 <= i < len implies #[trigger] a(i) == b(i) by {}
            first_where_agrees(len, a, b);
            first_where_is_least(len, a);
            if d2.deliveries.len() == len {
                assert(d2.delivery_pos(m.message_id, m.recipients[j]) == first_where(len, b));
                if j < n - 1 {
                    assert(d.delivery_pos(m.message_id, m.recipients[j]) is Some);
                }
            } else {
                assert(d2.deliveries.len() == len + 1);
                if first_where(len, a) is None {
                    assert(j == n - 1);
                    assert(b(len));
                    assert forall|i: int| 0 <= i < len implies !#[trigger] b(i) by {
                        assert(!a(i));
                    }
                    first_where_found(len + 1, b, len);
                } else {
                    assert(first_where(len + 1, b) == first_where(len, b));
                }
            }
        }
        assert forall|i: int| db.deliveries.len() <= i < d2.deliveries.len() implies (
        #[trigger] d2.deliveries[i]).message_id == m.message_id by {
            if i < len {
                assert(d.deliveries[i].message_id == m.message_id);
            }
        }
    }
}

/// A store that differs in what deliveries come to alone is in order too.
proof fn lemma_delivery_changed(db: DbV, d: DbV)
    requires
        db.wf(),
        d == (DbV { deliveries: d.deliveries, ..db }),
        d.deliveries.len() == db.deliveries.len(),
        forall|i: int|
            0 <= i < db.deliveries.len() ==> (#[trigger] d.deliveries[i]).message_id
                == db.deliveries[i].message_id && d.deliveries[i].recipient_name
                == db.deliveries[i].recipient_name,
    ensures
        d.wf(),
{
    crate::invariants::lemma_rows_kept(db, d);
}

/// Marking the request of an imported reply keeps the store in order.
proof fn lemma_reply_projected(db: DbV, m: ImportedMessageV, event_id: int, timestamp: Seq<char>)
    requires
        db.wf(),
    ensures
        reply_projected(db, m, event_id, timestamp) matches ProjectionV::Applied(d) ==> {
            &&& d.wf()
            &&& d == (DbV { deliveries: d.deliveries, ..db })
            &&& d.deliveries.len() == db.deliveries.len()
            &&& forall|i: int|
                0 <= i < db.deliveries.len() ==> delivery_follows(
                    db.deliveries[i],
                    #[trigger] d.deliveries[i],
                ) && d.deliveries[i].endpoint_epoch == db.deliveries[i].endpoint_epoch
        },
{
    lemma_states();
    if let ProjectionV::Applied(d) = reply_projected(db, m, event_id, timestamp) {
        if let Some(parent_id) = m.in_reply_to {
            crate::invariants::lemma_delivery_pos(db, parent_id, m.sender);
        }
        lemma_delivery_changed(db, d);
    }
}

/// An imported transition leads each delivery to a state that can follow, and changes nothing else.
pub proof fn imported_transitions_follow(
    db: DbV,
    event_id: int,
    timestamp: Seq<char>,
    data: JsonV,
    device_id: Seq<char>,
    short_id: Seq<char>,
)
    ensures
        state_projected(db, event_id, timestamp, data, device_id, short_id) matches ProjectionV::Applied(
            d,
        ) ==> {
            &&& d == (DbV { deliveries: d.deliveries, ..db })
            &&& d.deliveries.len() == db.deliveries.len()
            &&& forall|i: int|
                0 <= i < db.deliveries.len() ==> delivery_follows(
                    db.deliveries[i],
                    #[trigger] d.deliveries[i],
                )
            &&& db.wf() ==> d.wf()
        },
{
    lemma_states();
    if let ProjectionV::Applied(d) = state_projected(
        db,
        event_id,
        timestamp,
        data,
        device_id,
        short_id,
    ) {
        let message_id = member_text(data, "message_id"@)->0;
        if let Some(recipient) = member_text(data, "recipient"@) {
            crate::invariants::lemma_delivery_pos(db, message_id, recipient);
        }
        if db.wf() {
            lemma_delivery_changed(db, d);
        }
    }
}

/// Importing a message keeps the store in order.
proof fn lemma_message_projected(
    db: DbV,
    event_id: int,
    timestamp: Seq<char>,
    data: JsonV,
    attachments: AttachmentsV,
)
    requires
        db.wf(),
        event_id <= db.sequence,
    ensures
        message_projected(db, event_id, timestamp, data, attachments) matches ProjectionV::Applied(d)
            ==> {
            &&& d.wf()
            &&& d == (DbV { deliveries: d.deliveries, records: d.records, ..db })
            &&& forall|i: int|
                0 <= i < d.records.len() ==> (#[trigger] d.records[i]).event_id == event_id
                    || db.records.contains(d.records[i])
        },
{
    if let Ok(m) = message_in(data, attachments) {
        lemma_recorded(db, m, event_id, timestamp);
        if let ProjectionV::Applied(a) = message_recorded(db, m, event_id, timestamp) {
            let n: int = m.recipients.len() as int;
            let attempt = imported_attempt(a, m);
            lemma_delivered(a, m, attempt, event_id, timestamp, n);
            let b = delivered(a, m, attempt, event_id, timestamp, n);
            lemma_reply_projected(b, m, event_id, timestamp);
        }
    }
}

/// Importing an event keeps the store in order, and only adds to the log.
pub proof fn imports_keep_order(
    db: DbV,
    route: RouteV,
    id: int,
    timestamp: Seq<char>,
    p: PreparedV,
    attachments: AttachmentsV,
)
    requires
        db.wf(),
    ensures
        event_imported(db, route, id, timestamp, p, attachments) matches Ok((d, _)) ==> {
            &&& d.wf()
            &&& db.events.is_prefix_of(d.events)
            &&& d.sequence >= db.sequence
            &&& d.instances == db.instances
            &&& d.kv == db.kv
            &&& db.payloads_wf() ==> d.payloads_wf()
        },
{
    let n: int = db.events.len() as int;
    let q = import_of(db.events, route.device_id, id);
    first_where_is_least(n, q);
    if let Ok((d, outcome)) = event_imported(db, route, id, timestamp, p, attachments) {
        match first_where(n, q) {
            Some(i) => {
                assert(q(i));
                let event_id = db.events[i].id;
                lemma_message_projected(db, event_id, timestamp, p.data, attachments);
                imported_transitions_follow(
                    db,
                    event_id,
                    timestamp,
                    p.data,
                    route.device_id,
                    route.short_id,
                );
                assert(db.events.is_prefix_of(d.events));
                if db.payloads_wf() {
                    assert forall|k: int| 0 <= k < d.records.len() implies match d.event(
                        (#[trigger] d.records[k]).event_id,
                    ) {
                        Some(e) => e.data is Object || e.data is Null,
                        None => true,
                    } by {
                        assert(d.event(d.records[k].event_id) == db.event(d.records[k].event_id));
                        if d.records[k].event_id == event_id {
                            crate::commits::lemma_event_found(db, i);
                        } else {
                            let j = choose|j: int|
                                0 <= j < db.records.len() && db.records[j] == d.records[k];
                            assert(db.records[j] == d.records[k]);
                        }
                    }
                }
            },
            None => {
                if let Ok((logged, event_id)) = event_logged(
                    db,
                    timestamp,
                    p.kind,
                    p.instance,
                    p.data,
                ) {
                    lemma_logged_in_order(db, timestamp, p.kind, p.instance, p.data);
                    lemma_message_projected(logged, event_id, timestamp, p.data, attachments);
                    imported_transitions_follow(
                        logged,
                        event_id,
                        timestamp,
                        p.data,
                        route.device_id,
                        route.short_id,
                    );
                    assert(db.events =~= logged.events.take(n));
                    if let ProjectionV::Applied(d2) = event_projected(
                        logged,
                        event_id,
                        timestamp,
                        p,
                        route,
                        attachments,
                    ) {
                        lemma_same_rows(d2, d);
                        if db.payloads_wf() {
                            assert forall|k: int| 0 <= k < d.records.len() implies match d.event(
                                (#[trigger] d.records[k]).event_id,
                            ) {
                                Some(e) => e.data is Object || e.data is Null,
                                None => true,
                            } by {
                                let at = d.records[k].event_id;
                                assert(d.event(at) == logged.event(at));
                                if at == event_id && p.kind == "message"@ {
                                    crate::commits::lemma_event_found(logged, n);
                                } else {
                                    assert(db.records.contains(d.records[k]));
                                    let j = choose|j: int|
                                        0 <= j < db.records.len() && db.records[j] == d.records[k];
                                    assert(db.records[j] == d.records[k]);
                                    crate::invariants::lemma_event_kept(db, logged, at);
                                    if db.event(at) is None {
                                        if let Some(e) = logged.event(at) {
                                            assert(e.id == at);
                                            assert(db.records[j].event_id <= db.sequence);
                                        }
                                    }
                                }
                            }
                        }
                    }
                }
            },
        }
    }
}

/// Logging an event keeps the store in order.
proof fn lemma_logged_in_order(db: DbV, timestamp: Seq<char>, kind: Seq<char>, instance: Seq<char>, data: JsonV)
    requires
        db.wf(),
    ensures
        event_logged(db, timestamp, kind, instance, data) matches Ok((d, _)) ==> d.wf(),
{
    if let Ok((d, _)) = event_logged(db, timestamp, kind, instance, data) {
        crate::invariants::lemma_rows_kept(db, d);
    }
}

/// The invariant speaks of the log, the records, the deliveries and the instances alone.
proof fn lemma_same_rows(db: DbV, d: DbV)
    requires
        d.events == db.events,
        d.sequence == db.sequence,
        d.records == db.records,
        d.deliveries == db.deliveries,
        d.instances == db.instances,
    ensures
        db.wf() ==> d.wf(),
        db.payloads_wf() ==> d.payloads_wf(),
{
    if db.wf() {
        crate::invariants::lemma_rows_kept(db, d);
    }
    assert forall|k: int| 0 <= k < d.records.len() implies d.event(
        (#[trigger] d.records[k]).event_id,
    ) == db.event(db.records[k].event_id) by {}
}

/// A prepared event names the device it comes from and the id it had there.
pub proof fn prepared_events_name_their_origin(db: DbV, event: JsonV, route: RouteV, id: int)
    requires
        event_payload(event) is Object,
    ensures
        origin_device(prepared(db, event, route, id).data) == ColumnV::Text(route.device_id),
        remote_id(prepared(db, event, route, id).data) == Some(id),
{
    let data = event_payload(event);
    let kind = crate::relay::event_kind(event);
    let aware = protocol_aware(kind, data);
    let p = prepared(db, event, route, id);
    let digest = crate::names::source_digest(event);
    let marker = crate::relay::origin_marker(
        route,
        id,
        if aware {
            Some(digest)
        } else {
            None
        },
    );
    let ms = data->Object_0;
    let m1 = crate::relay::text_marked(ms, "from"@, route);
    let m2 = crate::relay::list_localized(m1, "mentions"@, route, aware);
    let m3 = crate::relay::list_localized(m2, "delivered_to"@, route, aware);
    let m4 = if aware && kind == "message_state"@ {
        crate::relay::name_localized(
            crate::relay::name_localized(m3, "actor"@, route),
            "recipient"@,
            route,
        )
    } else {
        m3
    };
    let m5 = if aware && kind == "message"@ {
        crate::relay::parent_linked(db, crate::relay::text_marked(m4, "reply_to"@, route))
    } else {
        m4
    };
    with_member_reads_back(m5, "_relay"@, marker, "_relay"@);
    assert(member(p.data, "_relay"@) == Some(marker));
    reveal_strlit("device");
    reveal_strlit("id");
    assert("device"@.len() == 6 && "id"@.len() == 2);
    let os = marker->Object_0;
    assert(os[0].key == "device"@ && os[1].key == "id"@);
    assert(crate::json::has_key(os, "device"@)(0));
    first_where_found(os.len() as int, crate::json::has_key(os, "device"@), 0);
    assert(!crate::json::has_key(os, "id"@)(0));
    assert(crate::json::has_key(os, "id"@)(1));
    first_where_found(os.len() as int, crate::json::has_key(os, "id"@), 1);
}

/// The attempts that count for an imported message do not depend on its own deliveries.
proof fn lemma_attempts_kept(a: DbV, z: DbV, m: ImportedMessageV, n: int)
    requires
        0 <= n <= z.deliveries.len(),
        z.records == a.records,
        a.deliveries.len() <= z.deliveries.len(),
        forall|i: int|
            0 <= i < a.deliveries.len() ==> (#[trigger] z.deliveries[i]).message_id
                == a.deliveries[i].message_id && z.deliveries[i].attempt == a.deliveries[i].attempt,
        forall|i: int|
            a.deliveries.len() <= i < z.deliveries.len() ==> (
            #[trigger] z.deliveries[i]).message_id == m.message_id,
    ensures
        latest_attempt(z, m.correlation_id, m.sender, m.message_id, n) == latest_attempt(
            a,
            m.correlation_id,
            m.sender,
            m.message_id,
            if n < a.deliveries.len() {
                n
            } else {
                a.deliveries.len() as int
            },
        ),
    decreases n,
{
    if n > 0 {
        lemma_attempts_kept(a, z, m, n - 1);
        let row = z.deliveries[n - 1];
        if n <= a.deliveries.len() {
            assert(row.message_id == a.deliveries[n - 1].message_id);
            assert(z.record(row.message_id) == a.record(row.message_id));
        } else {
            assert(row.message_id == m.message_id);
        }
    }
}

/// Delivering an imported message again changes nothing.
proof fn lemma_delivered_again(z: DbV, m: ImportedMessageV, attempt: int, event_id: int, timestamp: Seq<char>, n: int)
    requires
        0 <= n <= m.recipients.len(),
        forall|j: int|
            0 <= j < m.recipients.len() ==> z.delivery_pos(
                m.message_id,
                #[trigger] m.recipients[j],
            ) is Some,
        forall|j: int|
            0 <= j < m.recipients.len() ==> z.deliveries[z.delivery_pos(
                m.message_id,
                #[trigger] m.recipients[j],
            )->0].delivery_endpoint == m.delivery_endpoint,
    ensures
        delivered(z, m, attempt, event_id, timestamp, n) == z,
    decreases n,
{
    if n > 0 {
        lemma_delivered_again(z, m, attempt, event_id, timestamp, n - 1);
        let recipient = m.recipients[n - 1];
        assert(z.delivery_pos(m.message_id, recipient) is Some);
        crate::invariants::lemma_delivery_pos(z, m.message_id, recipient);
        let k = z.delivery_pos(m.message_id, recipient)->0;
        assert(z.deliveries[k].delivery_endpoint == m.delivery_endpoint);
        assert(z.deliveries.update(
            k,
            DeliveryV { delivery_endpoint: m.delivery_endpoint, ..z.deliveries[k] },
        ) =~= z.deliveries);
    }
}

/// Projecting an imported message again changes nothing.
proof fn lemma_message_projected_again(
    db: DbV,
    event_id: int,
    timestamp: Seq<char>,
    data: JsonV,
    attachments: AttachmentsV,
    z: DbV,
)
    requires
        db.wf(),
        event_id <= db.sequence,
        message_projected(db, event_id, timestamp, data, attachments) matches ProjectionV::Applied(d)
            && z == (DbV { notifications: z.notifications, ..d }),
    ensures
        message_projected(z, event_id, timestamp, data, attachments) == ProjectionV::Applied(z),
{
    lemma_states();
    let m = message_in(data, attachments)->Ok_0;
    lemma_recorded(db, m, event_id, timestamp);
    let a = message_recorded(db, m, event_id, timestamp)->Applied_0;
    let n: int = m.recipients.len() as int;
    let attempt = imported_attempt(a, m);
    lemma_delivered(a, m, attempt, event_id, timestamp, n);
    let b = delivered(a, m, attempt, event_id, timestamp, n);
    lemma_reply_projected(b, m, event_id, timestamp);
    let d = message_projected(db, event_id, timestamp, data, attachments)->Applied_0;
    let row = imported_record(m, event_id, timestamp);
    let len: int = z.records.len() as int;
    let p = record_of(z.records, m.message_id);
    first_where_is_least(len, p);
    assert(z.record(m.message_id) == a.record(m.message_id));
    let at = first_where(len, p)->0;
    assert(z.records[at] == row);
    assert(z.records.update(at, row) =~= z.records);
    assert(message_recorded(z, m, event_id, timestamp) == ProjectionV::Applied(z));
    assert forall|i: int| 0 <= i < a.deliveries.len() implies (
    #[trigger] z.deliveries[i]).message_id == a.deliveries[i].message_id && z.deliveries[i].attempt
        == a.deliveries[i].attempt by {
        assert(delivery_follows(b.deliveries[i], d.deliveries[i]));
    }
    assert forall|i: int| a.deliveries.len() <= i < z.deliveries.len() implies (
    #[trigger] z.deliveries[i]).message_id == m.message_id by {
        assert(delivery_follows(b.deliveries[i], d.deliveries[i]));
    }
    lemma_attempts_kept(a, z, m, z.deliveries.len() as int);
    assert(imported_attempt(z, m) == attempt);
    assert forall|j: int| 0 <= j < n implies z.delivery_pos(
        m.message_id,
        #[trigger] m.recipients[j],
    ) is Some && z.deliveries[z.delivery_pos(m.message_id, m.recipients[j])->0].delivery_endpoint
        == m.delivery_endpoint by {
        let x = delivery_of(b.deliveries, m.message_id, m.recipients[j]);
        let y = delivery_of(z.deliveries, m.message_id, m.recipients[j]);
        assert forall|i: int| 0 <= i < b.deliveries.len() implies #[trigger] x(i) == y(i) by {
            assert(delivery_follows(b.deliveries[i], d.deliveries[i]));
        }
        first_where_agrees(b.deliveries.len() as int, x, y);
        crate::invariants::lemma_delivery_pos(b, m.message_id, m.recipients[j]);
        assert(b.delivery_pos(m.message_id, m.recipients[j]) is Some);
        let k = b.delivery_pos(m.message_id, m.recipients[j])->0;
        assert(delivery_follows(b.deliveries[k], d.deliveries[k]));
    }
    lemma_delivered_again(z, m, attempt, event_id, timestamp, n);
    if let Some(parent_id) = m.in_reply_to {
        assert(z.record(parent_id) == b.record(parent_id));
        let x = delivery_of(b.deliveries, parent_id, m.sender);
        let y = delivery_of(z.deliveries, parent_id, m.sender);
        assert forall|i: int| 0 <= i < b.deliveries.len() implies #[trigger] x(i) == y(i) by {
            assert(delivery_follows(b.deliveries[i], d.deliveries[i]));
        }
        first_where_agrees(b.deliveries.len() as int, x, y);
        crate::invariants::lemma_delivery_pos(b, parent_id, m.sender);
        let k = b.delivery_pos(parent_id, m.sender)->0;
        assert(z.deliveries[k].state == "replied"@);
        assert(!answerable("replied"@));
    }
}

/// Projecting an imported transition again changes nothing.
proof fn lemma_state_projected_again(
    db: DbV,
    event_id: int,
    timestamp: Seq<char>,
    data: JsonV,
    device_id: Seq<char>,
    short_id: Seq<char>,
    z: DbV,
)
    requires
        state_projected(db, event_id, timestamp, data, device_id, short_id) matches ProjectionV::Applied(
            d,
        ) && z == (DbV { notifications: z.notifications, ..d }),
    ensures
        state_projected(z, event_id, timestamp, data, device_id, short_id) == ProjectionV::Applied(z),
{
    imported_transitions_follow(db, event_id, timestamp, data, device_id, short_id);
    let d = state_projected(db, event_id, timestamp, data, device_id, short_id)->Applied_0;
    let message_id = member_text(data, "message_id"@)->0;
    assert(z.record(message_id) == db.record(message_id));
    let r = db.record(message_id)->0;
    assert(z.event(r.event_id) == db.event(r.event_id));
    if let Some(recipient) = member_text(data, "recipient"@) {
        let x = delivery_of(db.deliveries, message_id, recipient);
        let y = delivery_of(z.deliveries, message_id, recipient);
        assert forall|i: int| 0 <= i < db.deliveries.len() implies #[trigger] x(i) == y(i) by {
            assert(delivery_follows(db.deliveries[i], d.deliveries[i]));
        }
        first_where_agrees(db.deliveries.len() as int, x, y);
        crate::invariants::lemma_delivery_pos(db, message_id, recipient);
        if let Some(k) = db.delivery_pos(message_id, recipient) {
            assert(z.epoch_or_empty(db.deliveries[k].recipient_name) == db.epoch_or_empty(
                db.deliveries[k].recipient_name,
            ));
        }
    }
}

/// An event that is applied is logged once: it stands at the end of the log under its new id, and no
/// other event there has its identity. A duplicate is on the log already, and adds no event. One
/// that is rejected leaves the store as it was.
pub proof fn imports_add_at_most_one_event(
    db: DbV,
    route: RouteV,
    id: int,
    timestamp: Seq<char>,
    p: PreparedV,
    attachments: AttachmentsV,
)
    requires
        db.wf(),
        origin_device(p.data) == ColumnV::Text(route.device_id),
        remote_id(p.data) == Some(id),
    ensures
        match event_imported(db, route, id, timestamp, p, attachments) {
            Ok((d, RelayImportV::Applied(event_id))) => {
                let n = db.events.len() as int;
                let is_import = import_of(d.events, route.device_id, id);
                &&& d.events == db.events.push(
                    EventV { id: event_id, timestamp, kind: p.kind, instance: p.instance, data: p.data },
                )
                &&& is_import(n)
                &&& forall|i: int| 0 <= i < n ==> !#[trigger] is_import(i)
                &&& forall|i: int| 0 <= i < n ==> (#[trigger] d.events[i]).id != event_id
            },
            Ok((d, RelayImportV::Duplicate)) => {
                &&& d.events == db.events
                &&& first_where(
                    db.events.len() as int,
                    import_of(db.events, route.device_id, id),
                ) matches Some(i) && same_import(db.events[i], timestamp, p)
            },
            Ok((d, RelayImportV::Rejected(_))) => d == db,
            Err(_) => true,
        },
{
    let n: int = db.events.len() as int;
    let q = import_of(db.events, route.device_id, id);
    first_where_is_least(n, q);
    match first_where(n, q) {
        Some(i) => {
            let event_id = db.events[i].id;
            imported_transitions_follow(
                db,
                event_id,
                timestamp,
                p.data,
                route.device_id,
                route.short_id,
            );
            lemma_message_projected(db, event_id, timestamp, p.data, attachments);
        },
        None => {
            if let Ok((logged, event_id)) = event_logged(
                db,
                timestamp,
                p.kind,
                p.instance,
                p.data,
            ) {
                lemma_logged_in_order(db, timestamp, p.kind, p.instance, p.data);
                imported_transitions_follow(
                    logged,
                    event_id,
                    timestamp,
                    p.data,
                    route.device_id,
                    route.short_id,
                );
                lemma_message_projected(logged, event_id, timestamp, p.data, attachments);
                let r = import_of(logged.events, route.device_id, id);
                assert forall|i: int| 0 <= i < n implies !#[trigger] r(i) by {
                    assert(!q(i));
                    assert(logged.events[i] == db.events[i]);
                }
            }
        },
    }
}

/// An event that was imported is a duplicate when it arrives again, and changes nothing then.
pub proof fn replayed_events_are_duplicates(
    db: DbV,
    route: RouteV,
    id: int,
    timestamp: Seq<char>,
    p: PreparedV,
    attachments: AttachmentsV,
)
    requires
        db.wf(),
        origin_device(p.data) == ColumnV::Text(route.device_id),
        remote_id(p.data) == Some(id),
        event_imported(db, route, id, timestamp, p, attachments) matches Ok((_, outcome))
            && outcome is Applied,
    ensures
        ({
            let d = event_imported(db, route, id, timestamp, p, attachments)->Ok_0.0;
            event_imported(d, route, id, timestamp, p, attachments) == Ok::<
                (DbV, RelayImportV),
                ErrorV,
            >((d, RelayImportV::Duplicate))
        }),
{
    let n: int = db.events.len() as int;
    let d = event_imported(db, route, id, timestamp, p, attachments)->Ok_0.0;
    let q = import_of(db.events, route.device_id, id);
    first_where_is_least(n, q);
    assert(first_where(n, q) is None);
    let (logged, event_id) = event_logged(db, timestamp, p.kind, p.instance, p.data)->Ok_0;
    lemma_logged_in_order(db, timestamp, p.kind, p.instance, p.data);
    imported_transitions_follow(
        logged,
        event_id,
        timestamp,
        p.data,
        route.device_id,
        route.short_id,
    );
    lemma_message_projected(logged, event_id, timestamp, p.data, attachments);
    assert(d.events == logged.events);
    let r = import_of(d.events, route.device_id, id);
    assert forall|i: int| 0 <= i < n implies !#[trigger] r(i) by {
        assert(!q(i));
        assert(d.events[i] == db.events[i]);
    }
    assert(d.events[n].data == p.data);
    assert(r(n));
    first_where_found(d.events.len() as int, r, n);
    assert(same_import(d.events[n], timestamp, p));
    if p.kind == "message"@ {
        lemma_message_projected_again(logged, event_id, timestamp, p.data, attachments, d);
    } else {
        lemma_state_projected_again(
            logged,
            event_id,
            timestamp,
            p.data,
            route.device_id,
            route.short_id,
            d,
        );
    }
}

/// An event that takes the identity of one that was imported, and is another, is refused.
pub proof fn colliding_events_are_refused(
    db: DbV,
    route: RouteV,
    id: int,
    timestamp: Seq<char>,
    p: PreparedV,
    attachments: AttachmentsV,
    i: int,
)
    requires
        0 <= i < db.events.len(),
        imported_from(db.events[i], route.device_id),
        remote_id(db.events[i].data) == Some(id),
        forall|j: int|
            0 <= j < db.events.len() && imported_from(#[trigger] db.events[j], route.device_id)
                && remote_id(db.events[j].data) == Some(id) ==> !same_import(
                db.events[j],
                timestamp,
                p,
            ),
    ensures
        event_imported(db, route, id, timestamp, p, attachments) matches Ok((d, outcome)) && d == db
            && outcome is Rejected,
{
    let q = import_of(db.events, route.device_id, id);
    first_where_is_least(db.events.len() as int, q);
    assert(q(i));
}

/// What is kept of a list stands in the order it had.
proof fn lemma_filter_pairs<A>(s: Seq<A>, keep: spec_fn(A) -> bool, rel: spec_fn(A, A) -> bool)
    requires
        forall|i: int, j: int| 0 <= i < j < s.len() ==> rel(#[trigger] s[i], #[trigger] s[j]),
    ensures
        forall|i: int, j: int|
            0 <= i < j < s.filter(keep).len() ==> rel(
                #[trigger] s.filter(keep)[i],
                #[trigger] s.filter(keep)[j],
            ),
    decreases s.len(),
{
    reveal(Seq::filter);
    if s.len() > 0 {
        let front = s.drop_last();
        assert forall|i: int, j: int| 0 <= i < j < front.len() implies rel(
            #[trigger] front[i],
            #[trigger] front[j],
        ) by {
            assert(rel(s[i], s[j]));
        }
        lemma_filter_pairs(front, keep, rel);
        if keep(s.last()) {
            let f = front.filter(keep);
            assert forall|i: int, j: int| 0 <= i < j < s.filter(keep).len() implies rel(
                #[trigger] s.filter(keep)[i],
                #[trigger] s.filter(keep)[j],
            ) by {
                if j == f.len() {
                    assert(f.contains(f[i]));
                    front.lemma_filter_contains_rev(keep, f[i]);
                    let k = choose|k: int| 0 <= k < front.len() && front[k] == f[i];
                    assert(rel(s[k], s[s.len() - 1]));
                } else {
                    assert(rel(f[i], f[j]));
                }
            }
        }
    }
}

/// What is kept of a list was in it, and meets the condition; and what was in it and meets the
/// condition is kept.
proof fn lemma_filter_holds<A>(s: Seq<A>, keep: spec_fn(A) -> bool)
    ensures
        forall|i: int|
            0 <= i < s.filter(keep).len() ==> keep(#[trigger] s.filter(keep)[i]) && s.contains(
                s.filter(keep)[i],
            ),
        forall|i: int|
            0 <= i < s.len() && keep(#[trigger] s[i]) ==> s.filter(keep).contains(s[i]),
{
    assert forall|i: int| 0 <= i < s.filter(keep).len() implies keep(
        #[trigger] s.filter(keep)[i],
    ) && s.contains(s.filter(keep)[i]) by {
        s.lemma_filter_pred(keep, i);
        assert(s.filter(keep).contains(s.filter(keep)[i]));
        s.lemma_filter_contains_rev(keep, s.filter(keep)[i]);
    }
    assert forall|i: int| 0 <= i < s.len() && keep(#[trigger] s[i]) implies s.filter(keep).contains(
        s[i],
    ) by {
        s.lemma_filter_contains(keep, i);
    }
}

/// Putting deliveries back changes nothing else, and keeps the store in order.
proof fn lemma_rebuilt(db: DbV, keys: Seq<DeliveryKeyV>, n: int)
    ensures
        all_rebuilt(db, keys, n) matches Ok(d) ==> {
            &&& d == (DbV { deliveries: d.deliveries, ..db })
            &&& d.deliveries.len() == db.deliveries.len()
            &&& forall|i: int|
                0 <= i < db.deliveries.len() ==> (#[trigger] d.deliveries[i]).message_id
                    == db.deliveries[i].message_id && d.deliveries[i].recipient_name
                    == db.deliveries[i].recipient_name
            &&& db.wf() ==> d.wf()
        },
    decreases n,
{
    if n > 0 {
        lemma_rebuilt(db, keys, n - 1);
        if let Ok(d) = all_rebuilt(db, keys, n - 1) {
            let key = keys[n - 1];
            crate::invariants::lemma_delivery_pos(d, key.message_id, key.recipient);
            if let Ok(d2) = rebuilt(d, key) {
                assert forall|i: int| 0 <= i < db.deliveries.len() implies (
                #[trigger] d2.deliveries[i]).message_id == db.deliveries[i].message_id
                    && d2.deliveries[i].recipient_name == db.deliveries[i].recipient_name by {
                    assert(d.deliveries[i].message_id == db.deliveries[i].message_id);
                }
                if db.wf() {
                    lemma_delivery_changed(db, d2);
                }
            }
        }
    } else if db.wf() {
        lemma_delivery_changed(db, db);
    }
}

/// Leaving out what was imported from a device keeps the store in order.
proof fn lemma_purged(db: DbV, device_id: Seq<char>)
    requires
        db.wf(),
    ensures
        purged(db, device_id).wf(),
        db.payloads_wf() ==> purged(db, device_id).payloads_wf(),
{
    let d = purged(db, device_id);
    let keep_e = |e: EventV| !imported_from(e, device_id);
    let keep_r = |r: RecordV| !record_from(db, r, device_id);
    let keep_d = |row: DeliveryV| !delivery_from(db, row, device_id);
    lemma_filter_holds(db.events, keep_e);
    lemma_filter_holds(db.records, keep_r);
    lemma_filter_holds(db.deliveries, keep_d);
    let rel_e = |a: EventV, b: EventV| a.id < b.id;
    lemma_filter_pairs(db.events, keep_e, rel_e);
    let rel_r = |a: RecordV, b: RecordV| a.event_id < b.event_id && a.message_id != b.message_id;
    lemma_filter_pairs(db.records, keep_r, rel_r);
    let rel_d = |a: DeliveryV, b: DeliveryV|
        a.message_id != b.message_id || a.recipient_name != b.recipient_name;
    lemma_filter_pairs(db.deliveries, keep_d, rel_d);
    assert(d.events_wf()) by {
        assert forall|i: int, j: int| 0 <= i < j < d.events.len() implies (
        #[trigger] d.events[i]).id < (#[trigger] d.events[j]).id by {
            assert(rel_e(d.events[i], d.events[j]));
        }
        assert forall|i: int| 0 <= i < d.events.len() implies (#[trigger] d.events[i]).id
            <= d.sequence by {
            assert(db.events.contains(d.events[i]));
            let k = choose|k: int| 0 <= k < db.events.len() && db.events[k] == d.events[i];
            assert(db.events[k].id <= db.sequence);
        }
    }
    assert(d.records_wf()) by {
        assert forall|i: int, j: int| 0 <= i < j < d.records.len() implies (
        #[trigger] d.records[i]).event_id < (#[trigger] d.records[j]).event_id
            && d.records[i].message_id != d.records[j].message_id by {
            assert(rel_r(d.records[i], d.records[j]));
        }
        assert forall|i: int| 0 <= i < d.records.len() implies (#[trigger] d.records[i]).event_id
            <= d.sequence by {
            assert(db.records.contains(d.records[i]));
            let k = choose|k: int| 0 <= k < db.records.len() && db.records[k] == d.records[i];
            assert(db.records[k].event_id <= db.sequence);
        }
    }
    assert(d.deliveries_wf()) by {
        assert forall|i: int, j: int| 0 <= i < j < d.deliveries.len() implies (
        #[trigger] d.deliveries[i]).message_id != (#[trigger] d.deliveries[j]).message_id
            || d.deliveries[i].recipient_name != d.deliveries[j].recipient_name by {
            assert(rel_d(d.deliveries[i], d.deliveries[j]));
        }
        assert forall|i: int| 0 <= i < d.deliveries.len() implies d.record(
            (#[trigger] d.deliveries[i]).message_id,
        ) is Some by {
            let row = d.deliveries[i];
            assert(db.deliveries.contains(row) && keep_d(row));
            let k = choose|k: int| 0 <= k < db.deliveries.len() && db.deliveries[k] == row;
            assert(db.record(db.deliveries[k].message_id) is Some);
            let p = record_of(db.records, row.message_id);
            first_where_is_least(db.records.len() as int, p);
            let j = first_where(db.records.len() as int, p)->0;
            assert(p(j));
            assert(keep_r(db.records[j]));
            assert(d.records.contains(db.records[j]));
            let q = choose|q: int| 0 <= q < d.records.len() && d.records[q] == db.records[j];
            lemma_found(d, row.message_id, q);
        }
    }
    if db.payloads_wf() {
        assert forall|k: int| 0 <= k < d.records.len() implies match d.event(
            (#[trigger] d.records[k]).event_id,
        ) {
            Some(e) => e.data is Object || e.data is Null,
            None => true,
        } by {
            let id = d.records[k].event_id;
            assert(db.records.contains(d.records[k]));
            let j = choose|j: int| 0 <= j < db.records.len() && db.records[j] == d.records[k];
            assert(db.records[j] == d.records[k]);
            first_where_is_least(d.events.len() as int, event_with(d.events, id));
            if let Some(i) = first_where(d.events.len() as int, event_with(d.events, id)) {
                assert(event_with(d.events, id)(i));
                assert(db.events.contains(d.events[i]));
                let x = choose|x: int| 0 <= x < db.events.len() && db.events[x] == d.events[i];
                crate::commits::lemma_event_found(db, x);
            }
        }
    }
}

/// Forgetting a device keeps the store in order.
pub proof fn forgetting_keeps_order(db: DbV, device_id: Seq<char>)
    requires
        db.wf(),
    ensures
        cleaned(db, device_id) matches Ok(d) ==> d.wf() && (db.payloads_wf() ==> d.payloads_wf()),
{
    lemma_purged(db, device_id);
    if let Ok(first) = crate::cleanup::moved_keys(db, device_id, db.events.len() as int) {
        if let Ok(keys) = crate::cleanup::answered_keys(
            db,
            device_id,
            first,
            db.records.len() as int,
        ) {
            let p = purged(db, device_id);
            lemma_rebuilt(p, keys, keys.len() as int);
            if let Ok(d) = all_rebuilt(p, keys, keys.len() as int) {
                assert forall|k: int| 0 <= k < d.records.len() implies d.event(
                    (#[trigger] d.records[k]).event_id,
                ) == p.event(p.records[k].event_id) by {}
            }
        }
    }
}

/// After a device is forgotten no event of it is on the log, and every other event is, as it was.
pub proof fn forgotten_events_are_gone(db: DbV, device_id: Seq<char>, e: EventV)
    requires
        cleaned(db, device_id) is Ok,
    ensures
        cleaned(db, device_id)->Ok_0.events.contains(e) <==> db.events.contains(e)
            && !imported_from(e, device_id),
{
    let keep = |x: EventV| !imported_from(x, device_id);
    lemma_filter_holds(db.events, keep);
    let first = crate::cleanup::moved_keys(db, device_id, db.events.len() as int)->Ok_0;
    let keys = crate::cleanup::answered_keys(db, device_id, first, db.records.len() as int)->Ok_0;
    lemma_rebuilt(purged(db, device_id), keys, keys.len() as int);
    let d = cleaned(db, device_id)->Ok_0;
    assert(d.events == db.events.filter(keep));
    if d.events.contains(e) {
        let i = choose|i: int| 0 <= i < d.events.len() && d.events[i] == e;
        assert(keep(d.events[i]));
    }
    if db.events.contains(e) && !imported_from(e, device_id) {
        let i = choose|i: int| 0 <= i < db.events.len() && db.events[i] == e;
        assert(keep(db.events[i]));
    }
}

/// After the instances of a device are removed none of them is left, and every other is.
pub proof fn removed_instances_are_gone(db: DbV, device_id: Seq<char>, i: InstanceV)
    ensures
        without_device(db, device_id).instances.contains(i) <==> db.instances.contains(i)
            && i.origin_device_id != Some(device_id),
{
    let keep = |x: InstanceV| x.origin_device_id != Some(device_id);
    lemma_filter_holds(db.instances, keep);
    let d = without_device(db, device_id);
    if d.instances.contains(i) {
        let k = choose|k: int| 0 <= k < d.instances.len() && d.instances[k] == i;
        assert(keep(d.instances[k]));
    }
    if db.instances.contains(i) && i.origin_device_id != Some(device_id) {
        let k = choose|k: int| 0 <= k < db.instances.len() && db.instances[k] == i;
        assert(keep(db.instances[k]));
    }
}

/// A store that differs in its instances alone is in order where no name occurs twice.
proof fn lemma_instances_changed(db: DbV, d: DbV)
    requires
        db.wf(),
        d == (DbV { instances: d.instances, ..db }),
        d.instances_wf(),
    ensures
        d.wf(),
        db.payloads_wf() ==> d.payloads_wf(),
{
    assert forall|i: int| 0 <= i < d.deliveries.len() implies d.record(
        (#[trigger] d.deliveries[i]).message_id,
    ) is Some by {
        assert(d.record(d.deliveries[i].message_id) == db.record(db.deliveries[i].message_id));
    }
    assert forall|k: int| 0 <= k < d.records.len() implies d.event(
        (#[trigger] d.records[k]).event_id,
    ) == db.event(db.records[k].event_id) by {}
}

proof fn lemma_instances_filtered(db: DbV, keep: spec_fn(InstanceV) -> bool)
    requires
        db.wf(),
    ensures
        (DbV { instances: db.instances.filter(keep), ..db }).wf(),
        db.payloads_wf() ==> (DbV { instances: db.instances.filter(keep), ..db }).payloads_wf(),
{
    let d = DbV { instances: db.instances.filter(keep), ..db };
    let rel = |a: InstanceV, b: InstanceV| a.name != b.name;
    lemma_filter_pairs(db.instances, keep, rel);
    assert forall|i: int, j: int| 0 <= i < j < d.instances.len() implies (
    #[trigger] d.instances[i]).name != (#[trigger] d.instances[j]).name by {
        assert(rel(d.instances[i], d.instances[j]));
    }
    lemma_instances_changed(db, d);
}

proof fn lemma_instances_put(db: DbV, device_id: Seq<char>, rs: Seq<RemoteInstanceV>, n: int)
    requires
        db.wf(),
    ensures
        instances_put(db, device_id, rs, n).wf(),
        db.payloads_wf() ==> instances_put(db, device_id, rs, n).payloads_wf(),
    decreases n,
{
    if n > 0 {
        lemma_instances_put(db, device_id, rs, n - 1);
        let d = instances_put(db, device_id, rs, n - 1);
        let r = rs[n - 1];
        let d2 = instance_put(d, device_id, r);
        let p = instance_named(d.instances, r.name);
        first_where_is_least(d.instances.len() as int, p);
        assert forall|i: int, j: int| 0 <= i < j < d2.instances.len() implies (
        #[trigger] d2.instances[i]).name != (#[trigger] d2.instances[j]).name by {
            if j < d.instances.len() {
                assert(d.instances[i].name != d.instances[j].name);
            } else {
                assert(!p(i));
            }
        }
        lemma_instances_changed(d, d2);
    }
}

/// Taking over the instances of a device keeps the store in order.
pub proof fn taking_over_keeps_order(db: DbV, device_id: Seq<char>, rs: Seq<RemoteInstanceV>)
    requires
        db.wf(),
    ensures
        instances_taken_over(db, device_id, rs).wf(),
        db.payloads_wf() ==> instances_taken_over(db, device_id, rs).payloads_wf(),
{
    let n: int = rs.len() as int;
    lemma_instances_put(db, device_id, rs, n);
    lemma_instances_filtered(
        instances_put(db, device_id, rs, n),
        |i: InstanceV|
            i.origin_device_id != Some(device_id) || crate::devices::names_one(rs, i.name),
    );
}

/// Putting a value under a key changes nothing else.
proof fn lemma_kv_put(db: DbV, key: Seq<char>, value: Option<Seq<char>>)
    ensures
        kv_put(db, key, value) == (DbV { kv: kv_put(db, key, value).kv, ..db }),
        db.wf() ==> kv_put(db, key, value).wf(),
        db.payloads_wf() ==> kv_put(db, key, value).payloads_wf(),
{
    lemma_same_rows(db, kv_put(db, key, value));
}

proof fn lemma_device_event(
    db: DbV,
    action: Seq<char>,
    short_id: Seq<char>,
    prefix: Seq<char>,
    text: Seq<char>,
    reconnect: bool,
    now: Seq<char>,
)
    requires
        db.wf(),
    ensures
        device_event_logged(db, action, short_id, prefix, text, reconnect, now).wf(),
        db.payloads_wf() ==> device_event_logged(
            db,
            action,
            short_id,
            prefix,
            text,
            reconnect,
            now,
        ).payloads_wf(),
{
    let data = crate::devices::device_event_data(action, short_id, prefix, text, reconnect);
    lemma_logged_in_order(db, now, "life"@, ""@, data);
    crate::evolution::lemma_logged(db, now, "life"@, ""@, data);
    if let Ok((d, _)) = event_logged(db, now, "life"@, ""@, data) {
        lemma_same_rows(
            d,
            device_event_logged(db, action, short_id, prefix, text, reconnect, now),
        );
        if db.payloads_wf() {
            crate::evolution::payloads_stay_readable(db, d);
        }
    }
}

/// A device that leaves leaves the store in order.
pub proof fn leaving_keeps_order(db: DbV, device_id: Seq<char>, prefix: Seq<char>, action: Seq<char>, now: Seq<char>)
    requires
        db.wf(),
    ensures
        device_gone(db, device_id, prefix, action, now).wf(),
        db.payloads_wf() ==> device_gone(db, device_id, prefix, action, now).payloads_wf(),
{
    let d = without_device(db, device_id);
    lemma_instances_filtered(db, |i: InstanceV| i.origin_device_id != Some(device_id));
    let short_id = crate::devices::short_id_of(d, device_id);
    let label = match short_id {
        Some(s) => s,
        None => prefix,
    };
    let cleared = device_keys_removed(d, device_id, short_id);
    let d1 = kv_put(d, "relay_sync_time_"@ + device_id, None);
    lemma_kv_put(d, "relay_sync_time_"@ + device_id, None);
    let d2 = kv_put(d1, "relay_caps_"@ + device_id, None);
    lemma_kv_put(d1, "relay_caps_"@ + device_id, None);
    let d3 = kv_put(d2, "relay_ctrl_"@ + device_id, None);
    lemma_kv_put(d2, "relay_ctrl_"@ + device_id, None);
    let d4 = kv_put(d3, watermark_key(device_id), None);
    lemma_kv_put(d3, watermark_key(device_id), None);
    let d5 = match short_id {
        Some(s) => kv_put(d4, "relay_short_"@ + s, None),
        None => d4,
    };
    if let Some(s) = short_id {
        lemma_kv_put(d4, "relay_short_"@ + s, None);
    }
    lemma_kv_put(d5, "relay_uuid_short_"@ + device_id, None);
    lemma_device_event(
        cleared,
        action,
        label,
        prefix,
        "device "@ + label + " left the relay"@,
        false,
        now,
    );
}

proof fn lemma_arrived(db: DbV, g: GreetingV)
    requires
        db.wf(),
    ensures
        arrived(db, g).wf(),
        db.payloads_wf() ==> arrived(db, g).payloads_wf(),
{
    let key = "relay_short_"@ + g.short_id;
    let put = kv_put(db, key, Some(g.device_id));
    lemma_kv_put(db, key, Some(g.device_id));
    lemma_device_event(
        db,
        g.action,
        g.short_id,
        g.prefix,
        "device "@ + g.short_id + " reconnected"@,
        true,
        g.now,
    );
    lemma_device_event(
        put,
        g.action,
        g.short_id,
        g.prefix,
        "new device "@ + g.short_id + " joined the relay"@,
        false,
        g.now,
    );
    let d = match db.kv_value(key) {
        Some(_) => if g.returning {
            device_event_logged(
                db,
                g.action,
                g.short_id,
                g.prefix,
                "device "@ + g.short_id + " reconnected"@,
                true,
                g.now,
            )
        } else {
            db
        },
        None => device_event_logged(
            put,
            g.action,
            g.short_id,
            g.prefix,
            "new device "@ + g.short_id + " joined the relay"@,
            false,
            g.now,
        ),
    };
    let d1 = kv_put(d, "relay_uuid_short_"@ + g.device_id, Some(g.short_id));
    lemma_kv_put(d, "relay_uuid_short_"@ + g.device_id, Some(g.short_id));
    let capabilities = match g.capabilities {
        Some(s) => s,
        None => "null"@,
    };
    lemma_kv_put(d1, "relay_caps_"@ + g.device_id, Some(capabilities));
}

proof fn lemma_device_reset(db: DbV, device_id: Seq<char>, stamp: Seq<char>)
    requires
        db.wf(),
    ensures
        device_reset(db, device_id, stamp) matches Some(d) ==> d.wf() && (db.payloads_wf()
            ==> d.payloads_wf()),
{
    forgetting_keeps_order(db, device_id);
    if let Ok(d) = cleaned(db, device_id) {
        let a = without_device(d, device_id);
        lemma_instances_filtered(d, |i: InstanceV| i.origin_device_id != Some(device_id));
        let b = kv_put(a, "relay_reset_"@ + device_id, Some(stamp));
        lemma_kv_put(a, "relay_reset_"@ + device_id, Some(stamp));
        lemma_kv_put(b, cursor_key(device_id), Some("0"@));
    }
}

/// Applying the state of a device keeps the store in order.
pub proof fn states_keep_order(db: DbV, s: StateSnapshotV)
    requires
        db.wf(),
    ensures
        snapshot_applied(db, s).0.wf(),
        db.payloads_wf() ==> snapshot_applied(db, s).0.payloads_wf(),
{
    let device_id = s.greeting.device_id;
    let met = arrived(db, s.greeting);
    lemma_arrived(db, s.greeting);
    lemma_device_reset(met, device_id, s.reset_stamp);
    let cleared = if s.reset_key > s.known_reset_key {
        device_reset(met, device_id, s.reset_stamp)
    } else {
        Some(met)
    };
    if let Some(d) = cleared {
        let marked = match s.local_reset_found {
            Some(t) => kv_put(d, "relay_local_reset_ts"@, Some(t)),
            None => d,
        };
        if let Some(t) = s.local_reset_found {
            lemma_kv_put(d, "relay_local_reset_ts"@, Some(t));
        }
        let rs = crate::devices::brought(
            s.entries,
            s.greeting.short_id,
            s.default_tool,
            s.local_reset,
            s.entries.len() as int,
        );
        taking_over_keeps_order(marked, device_id, rs);
    }
}

/// Handling a message with a state keeps the store well-formed, whatever becomes of the message.
pub proof fn state_messages_keep_order(db: DbV, m: StateMessageV)
    requires
        db.wf(),
    ensures
        state_handled(db, m).0.wf(),
        db.payloads_wf() ==> state_handled(db, m).0.payloads_wf(),
{
    leaving_keeps_order(db, m.device_id, m.prefix, m.leave_action, m.now);
    let short_id = uppercase(named_short_id(m.data, m.device_id));
    states_keep_order(db, snapshot_in(m, short_id));
}

/// A state under a short id that another device has is dropped, and nothing of it is kept.
pub proof fn taken_short_ids_are_refused(db: DbV, m: StateMessageV)
    requires
        member(m.data, "state"@) != Some(JsonV::Null),
        short_id_taken(
            db,
            snapshot_in(m, uppercase(named_short_id(m.data, m.device_id))).greeting,
        ),
    ensures
        state_handled(db, m) == (db, StateStepV::Dropped),
{
}

proof fn lemma_taken_in(
    db: DbV,
    events: Seq<RemoteEventV>,
    route: RouteV,
    reset: ResetMark,
    last: int,
    n: int,
)
    requires
        db.wf(),
    ensures
        ({
            let s = all_taken_in(db, events, route, reset, last, n);
            &&& s.db.wf()
            &&& s.db.kv == db.kv
            &&& s.newest >= last
            &&& db.payloads_wf() ==> s.db.payloads_wf()
        }),
    decreases n,
{
    if n > 0 {
        lemma_taken_in(db, events, route, reset, last, n - 1);
        let s = all_taken_in(db, events, route, reset, last, n - 1);
        let e = events[n - 1];
        if let Some(id) = member_int(e.body, "id"@) {
            let p = prepared(s.db, e.body, route, id);
            let timestamp = crate::sync::stamp_text(e.body);
            imports_keep_order(s.db, route, id, timestamp, p, e.attachments);
            lemma_logged_in_order(s.db, timestamp, p.kind, p.instance, p.data);
            if let Ok((d, event_id)) = event_logged(s.db, timestamp, p.kind, p.instance, p.data) {
                lemma_same_rows(d, plainly_logged(s.db, timestamp, p));
                if s.db.payloads_wf() {
                    assert forall|k: int| 0 <= k < d.records.len() implies match d.event(
                        (#[trigger] d.records[k]).event_id,
                    ) {
                        Some(x) => x.data is Object || x.data is Null,
                        None => true,
                    } by {
                        let at = d.records[k].event_id;
                        assert(s.db.records[k] == d.records[k]);
                        assert(s.db.events =~= d.events.take(s.db.events.len() as int));
                        crate::invariants::lemma_event_kept(s.db, d, at);
                        if s.db.event(at) is None {
                            if let Some(x) = d.event(at) {
                                assert(x.id == at);
                                assert(at <= s.db.sequence);
                            }
                        }
                    }
                }
            }
        }
    }
}

proof fn lemma_taken_in_from(db: DbV, route: RouteV, events: Seq<RemoteEventV>, reset: ResetMark, last: int)
    requires
        db.wf(),
    ensures
        taken_in_from(db, route, events, reset, last).wf(),
        db.payloads_wf() ==> taken_in_from(db, route, events, reset, last).payloads_wf(),
{
    let n: int = events.len() as int;
    lemma_taken_in(db, events, route, reset, last, n);
    let s = all_taken_in(db, events, route, reset, last, n);
    lemma_kv_put(s.db, cursor_key(route.device_id), Some(decimal(s.newest)));
}

/// Importing the events of a device keeps the store in order.
pub proof fn pulls_keep_order(db: DbV, route: RouteV, events: Seq<RemoteEventV>, reset: ResetMark)
    requires
        db.wf(),
    ensures
        events_imported(db, route, events, reset).wf(),
        db.payloads_wf() ==> events_imported(db, route, events, reset).payloads_wf(),
{
    let last = seen_up_to(db, route.device_id);
    lemma_taken_in_from(db, route, events, reset, last);
    forgetting_keeps_order(db, route.device_id);
    if let Ok(d) = cleaned(db, route.device_id) {
        let a = without_device(d, route.device_id);
        lemma_instances_filtered(d, |i: InstanceV| i.origin_device_id != Some(route.device_id));
        let b = kv_put(a, cursor_key(route.device_id), Some("0"@));
        lemma_kv_put(a, cursor_key(route.device_id), Some("0"@));
        lemma_taken_in_from(b, route, events, reset, 0);
    }
}

/// The newest event that was seen of a device never goes back, unless its ids have started over.
pub proof fn pulled_cursors_never_go_back(db: DbV, route: RouteV, events: Seq<RemoteEventV>, reset: ResetMark)
    requires
        db.wf(),
        !ids_regressed(events, seen_up_to(db, route.device_id)),
        ({
            let s = all_taken_in(
                db,
                events,
                route,
                reset,
                seen_up_to(db, route.device_id),
                events.len() as int,
            );
            i64::MIN <= s.newest <= i64::MAX
        }),
    ensures
        seen_up_to(events_imported(db, route, events, reset), route.device_id) >= seen_up_to(
            db,
            route.device_id,
        ),
{
    let last = seen_up_to(db, route.device_id);
    let n: int = events.len() as int;
    lemma_taken_in(db, events, route, reset, last, n);
    let s = all_taken_in(db, events, route, reset, last, n);
    let key = cursor_key(route.device_id);
    if s.newest > last {
        kept_values_read_back(s.db, key, decimal(s.newest), key);
        decimal_round_trip(s.newest);
    } else {
        assert(s.db.kv_value(key) == db.kv_value(key));
    }
}

/// Finishing with the state of a device keeps the store in order.
pub proof fn finishing_keeps_order(
    db: DbV,
    route: RouteV,
    events: Seq<RemoteEventV>,
    reset: ResetMark,
    now: Seq<char>,
    ts: int,
)
    requires
        db.wf(),
    ensures
        state_finished(db, route, events, reset, now, ts).wf(),
        db.payloads_wf() ==> state_finished(db, route, events, reset, now, ts).payloads_wf(),
{
    pulls_keep_order(db, route, events, reset);
    let d1 = events_imported(db, route, events, reset);
    let d2 = kv_put(d1, "relay_sync_time_"@ + route.device_id, Some(now));
    lemma_kv_put(d1, "relay_sync_time_"@ + route.device_id, Some(now));
    let count = Some(
        decimal(crate::devices::device_count(d2.instances, d2.instances.len() as int)),
    );
    let d3 = kv_put(d2, "relay_device_count"@, count);
    lemma_kv_put(d2, "relay_device_count"@, count);
    let d4 = kv_put(d3, "relay_last_sync"@, Some(now));
    lemma_kv_put(d3, "relay_last_sync"@, Some(now));
    lemma_kv_put(d4, watermark_key(route.device_id), Some(decimal(ts)));
}

proof fn lemma_delivered_to(db: DbV, m: ImportedMessageV, attempt: int, event_id: int, timestamp: Seq<char>, recipient: Seq<char>, other: Seq<char>)
    requires
        db.wf(),
    ensures
        ({
            let d = delivered_to(db, m, attempt, event_id, timestamp, recipient);
            &&& other != recipient ==> d.delivery(m.message_id, other) == db.delivery(m.message_id, other)
            &&& db.delivery(m.message_id, recipient) is None ==> d.delivery(m.message_id, recipient) == Some(
                DeliveryV {
                    message_id: m.message_id,
                    recipient_name: recipient,
                    endpoint_epoch: db.epoch_or_empty(recipient),
                    delivery_endpoint: m.delivery_endpoint,
                    state: "queued"@,
                    attempt,
                    state_event_id: Some(event_id),
                    last_actor: m.sender,
                    updated_at: timestamp,
                },
            )
            &&& db.delivery(m.message_id, recipient) matches Some(row) ==> d.delivery(m.message_id, recipient) == Some(DeliveryV { delivery_endpoint: m.delivery_endpoint, ..row })
            &&& d.deliveries.len() >= db.deliveries.len()
            &&& forall|i: int| 0 <= i < db.deliveries.len() && (#[trigger] db.deliveries[i]).message_id != m.message_id ==> d.deliveries[i] == db.deliveries[i]
            &&& forall|i: int| db.deliveries.len() <= i < d.deliveries.len() ==> (#[trigger] d.deliveries[i]).message_id == m.message_id && d.deliveries[i].recipient_name == recipient
        }),
{
    let d = delivered_to(db, m, attempt, event_id, timestamp, recipient);
    let n = db.deliveries.len() as int;
    let p = delivery_of(db.deliveries, m.message_id, recipient);
    let a = delivery_of(db.deliveries, m.message_id, other);
    let b = delivery_of(d.deliveries, m.message_id, other);
    let q = delivery_of(d.deliveries, m.message_id, recipient);
    first_where_is_least(n, p);
    first_where_is_least(n, a);
    assert forall|i: int| 0 <= i < n implies #[trigger] a(i) == b(i) by {}
    assert forall|i: int| 0 <= i < n implies #[trigger] p(i) == q(i) by {}
    first_where_agrees(n, a, b);
    first_where_agrees(n, p, q);
    match db.delivery_pos(m.message_id, recipient) {
        Some(k) => {
            assert(p(k));
        },
        None => {
            assert(d.deliveries.len() == n + 1);
            assert(q(n));
            if other != recipient {
                assert(!b(n));
            }
        },
    }
}

/// The delivery that an imported message makes for a recipient that had none of it.
pub open spec fn fresh_import(db: DbV, m: ImportedMessageV, attempt: int, event_id: int, timestamp: Seq<char>, recipient: Seq<char>) -> DeliveryV {
    DeliveryV {
        message_id: m.message_id,
        recipient_name: recipient,
        endpoint_epoch: db.epoch_or_empty(recipient),
        delivery_endpoint: m.delivery_endpoint,
        state: "queued"@,
        attempt,
        state_event_id: Some(event_id),
        last_actor: m.sender,
        updated_at: timestamp,
    }
}

proof fn lemma_delivered_rows(db: DbV, m: ImportedMessageV, attempt: int, event_id: int, timestamp: Seq<char>, n: int, t: Seq<char>)
    requires
        db.wf(),
        db.record(m.message_id) is Some,
        0 <= n <= m.recipients.len(),
        crate::lifecycle::distinct(m.recipients),
    ensures
        ({
            let d = delivered(db, m, attempt, event_id, timestamp, n);
            &&& m.recipients.take(n).contains(t) && db.delivery(m.message_id, t) is None ==> d.delivery(m.message_id, t) == Some(fresh_import(db, m, attempt, event_id, timestamp, t))
            &&& m.recipients.take(n).contains(t) && db.delivery(m.message_id, t) is Some ==> d.delivery(m.message_id, t) == Some(DeliveryV { delivery_endpoint: m.delivery_endpoint, ..db.delivery(m.message_id, t)->0 })
            &&& !m.recipients.take(n).contains(t) ==> d.delivery(m.message_id, t) == db.delivery(m.message_id, t)
            &&& d.instances == db.instances
            &&& d.deliveries.len() >= db.deliveries.len()
            &&& forall|i: int| 0 <= i < db.deliveries.len() && (#[trigger] db.deliveries[i]).message_id != m.message_id ==> d.deliveries[i] == db.deliveries[i]
        }),
    decreases n,
{
    if n > 0 {
        let d = delivered(db, m, attempt, event_id, timestamp, n - 1);
        let r = m.recipients[n - 1];
        lemma_delivered(db, m, attempt, event_id, timestamp, n - 1);
        lemma_delivered_rows(db, m, attempt, event_id, timestamp, n - 1, t);
        lemma_delivered_to(d, m, attempt, event_id, timestamp, r, t);
        assert(m.recipients.take(n) =~= m.recipients.take(n - 1).push(r));
        assert(!m.recipients.take(n - 1).contains(r)) by {
            if m.recipients.take(n - 1).contains(r) {
                let k = choose|k: int| 0 <= k < n - 1 && #[trigger] m.recipients.take(n - 1)[k] == r;
                assert(m.recipients[k] == m.recipients[n - 1]);
            }
        }
        if t == r {
            assert(m.recipients.take(n)[n - 1] == t);
        } else if m.recipients.take(n).contains(t) {
            let k = choose|k: int| 0 <= k < n && #[trigger] m.recipients.take(n)[k] == t;
            assert(m.recipients.take(n - 1)[k] == t);
        } else {
            assert(!m.recipients.take(n - 1).contains(t)) by {
                if m.recipients.take(n - 1).contains(t) {
                    let k = choose|k: int| 0 <= k < n - 1 && #[trigger] m.recipients.take(n - 1)[k] == t;
                    assert(m.recipients.take(n)[k] == t);
                }
            }
        }
        assert(d.epoch_or_empty(r) == db.epoch_or_empty(r));
    } else {
        assert(!m.recipients.take(0).contains(t));
    }
}

proof fn lemma_reply_row(db: DbV, m: ImportedMessageV, event_id: int, timestamp: Seq<char>, id: Seq<char>, t: Seq<char>)
    requires
        db.wf(),
    ensures
        reply_projected(db, m, event_id, timestamp) matches ProjectionV::Applied(d) ==> {
            &&& m.in_reply_to != Some(id) || t != m.sender ==> d.delivery(id, t) == db.delivery(id, t)
            &&& m.in_reply_to matches Some(parent) ==> d.delivery(parent, m.sender) matches Some(row) && row.state == "replied"@
            &&& m.in_reply_to matches Some(parent) ==> db.record(parent) matches Some(r) && r.intent == Some("request"@) && m.intent == Some("ack"@)
            &&& d == (DbV { deliveries: d.deliveries, ..db })
            &&& m.in_reply_to is None ==> d == db
        },
{
    if let ProjectionV::Applied(d) = reply_projected(db, m, event_id, timestamp) {
        if let Some(parent) = m.in_reply_to {
            let n = db.deliveries.len() as int;
            let p = delivery_of(db.deliveries, parent, m.sender);
            let q = delivery_of(d.deliveries, parent, m.sender);
            let a = delivery_of(db.deliveries, id, t);
            let b = delivery_of(d.deliveries, id, t);
            first_where_is_least(n, p);
            first_where_is_least(n, a);
            assert forall|i: int| 0 <= i < n implies #[trigger] p(i) == q(i) by {}
            assert forall|i: int| 0 <= i < n implies #[trigger] a(i) == b(i) by {}
            first_where_agrees(n, p, q);
            first_where_agrees(n, a, b);
            let k = db.delivery_pos(parent, m.sender)->0;
            assert(p(k));
            if id != parent || t != m.sender {
                if let Some(j) = db.delivery_pos(id, t) {
                    assert(a(j));
                    assert(j != k);
                }
            }
        }
    }
}

/// What importing a message leaves, for one of its recipients.
proof fn lemma_message_imported(db: DbV, event_id: int, timestamp: Seq<char>, data: JsonV, attachments: AttachmentsV, t: Seq<char>)
    requires
        db.wf(),
        event_id <= db.sequence,
    ensures
        message_projected(db, event_id, timestamp, data, attachments) matches ProjectionV::Applied(d) ==> {
            let m = message_in(data, attachments)->Ok_0;
            &&& message_in(data, attachments) is Ok
            &&& d.record(m.message_id) == Some(imported_record(m, event_id, timestamp))
            &&& m.recipients.contains(t) && db.delivery(m.message_id, t) is None ==> d.delivery(m.message_id, t) == Some(fresh_import(db, m, d.delivery(m.message_id, t)->0.attempt, event_id, timestamp, t))
            &&& m.recipients.contains(t) && db.delivery(m.message_id, t) is None && m.retry_of is None ==> d.delivery(m.message_id, t)->0.attempt == 1
            &&& m.recipients.contains(t) && db.delivery(m.message_id, t) is Some ==> d.delivery(m.message_id, t) == Some(DeliveryV { delivery_endpoint: m.delivery_endpoint, ..db.delivery(m.message_id, t)->0 })
            &&& !m.recipients.contains(t) ==> d.delivery(m.message_id, t) == db.delivery(m.message_id, t)
            &&& m.in_reply_to matches Some(parent) ==> d.delivery(parent, m.sender) matches Some(row) && row.state == "replied"@
        },
{
    if let ProjectionV::Applied(d) = message_projected(db, event_id, timestamp, data, attachments) {
        let m = message_in(data, attachments)->Ok_0;
        lemma_recorded(db, m, event_id, timestamp);
        let a = message_recorded(db, m, event_id, timestamp)->Applied_0;
        let n = m.recipients.len() as int;
        let attempt = imported_attempt(a, m);
        lemma_delivered(a, m, attempt, event_id, timestamp, n);
        lemma_delivered_rows(a, m, attempt, event_id, timestamp, n, t);
        assert(m.recipients.take(n) =~= m.recipients);
        let b = delivered(a, m, attempt, event_id, timestamp, n);
        lemma_reply_row(b, m, event_id, timestamp, m.message_id, t);
        assert(b.record(m.message_id) == a.record(m.message_id));
        reveal_strlit("ack");
        reveal_strlit("request");
        assert("ack"@.len() == 3 && "request"@.len() == 7);
        assert(m.in_reply_to != Some(m.message_id));
        assert(a.delivery(m.message_id, t) == db.delivery(m.message_id, t));
        assert(a.epoch_or_empty(t) == db.epoch_or_empty(t));
    }
}

/// Every recipient that an imported message names has a delivery of it, at the endpoint that the
/// message names: one that had none has it queued, by the sender and at the endpoint it has here. The
/// delivery of one that had it stays in its state, and nobody else gets one.
pub proof fn imported_messages_reach_every_recipient(
    db: &mut HcomDb,
    event_id: i64,
    timestamp: &str,
    data: Json,
    attachments: Attachments,
    vs: Seq<JsonV>,
    id: Seq<char>,
    t: Seq<char>,
)
    requires
        call_ensures(HcomDb::project_imported_message, (db, event_id, timestamp, &data, &attachments), Ok::<Option<String>, LifecycleError>(None)),
        old(db)@.wf(),
        event_id <= old(db)@.sequence,
        member(data@, "delivered_to"@) == Some(JsonV::Array(vs)),
        member_text(data@, "message_id"@) == Some(id),
    ensures
        forall|i: int| 0 <= i < vs.len() ==> (#[trigger] vs[i]) is Text,
        vs.contains(JsonV::Text(t)) ==> (final(db)@.delivery(id, t) matches Some(row) && row.message_id == id && row.recipient_name == t),
        vs.contains(JsonV::Text(t)) ==> (final(db)@.delivery(id, t) matches Some(row) && row.delivery_endpoint == (match member_text(data@, "delivery_endpoint"@) { Some(e) => e, None => "inbox"@ })),
        vs.contains(JsonV::Text(t)) && old(db)@.delivery(id, t) is None ==> (final(db)@.delivery(id, t) matches Some(row) && row.state == "queued"@ && member_text(data@, "from"@) == Some(row.last_actor) && row.endpoint_epoch == old(db)@.epoch_or_empty(t) && row.state_event_id == Some(event_id as int) && row.updated_at == timestamp@),
        vs.contains(JsonV::Text(t)) && old(db)@.delivery(id, t) is None && member_text(data@, "retry_of"@) is None ==> final(db)@.delivery(id, t)->0.attempt == 1,
        vs.contains(JsonV::Text(t)) && old(db)@.delivery(id, t) is Some ==> final(db)@.delivery(id, t)->0.state == old(db)@.delivery(id, t)->0.state && final(db)@.delivery(id, t)->0.attempt == old(db)@.delivery(id, t)->0.attempt && final(db)@.delivery(id, t)->0.endpoint_epoch == old(db)@.delivery(id, t)->0.endpoint_epoch,
        !vs.contains(JsonV::Text(t)) ==> final(db)@.delivery(id, t) == old(db)@.delivery(id, t),
{
    let m = message_in(data@, attachments@)->Ok_0;
    lemma_message_imported(old(db)@, event_id as int, timestamp@, data@, attachments@, t);
    crate::invariants::lemma_delivery_pos(final(db)@, id, t);
    if vs.contains(JsonV::Text(t)) {
        let k = choose|k: int| 0 <= k < vs.len() && vs[k] == JsonV::Text(t);
        assert(m.recipients[k] == t);
    } else if m.recipients.contains(t) {
        let k = choose|k: int| 0 <= k < m.recipients.len() && m.recipients[k] == t;
        assert(vs[k] == JsonV::Text(t));
    }
}

/// An imported message is on record with everything that its payload says of it.
pub proof fn imported_messages_are_on_record(
    db: &mut HcomDb,
    event_id: i64,
    timestamp: &str,
    data: Json,
    attachments: Attachments,
    id: Seq<char>,
)
    requires
        call_ensures(HcomDb::project_imported_message, (db, event_id, timestamp, &data, &attachments), Ok::<Option<String>, LifecycleError>(None)),
        old(db)@.wf(),
        event_id <= old(db)@.sequence,
        member_text(data@, "message_id"@) == Some(id),
    ensures
        final(db)@.record(id) matches Some(r) && {
            &&& r.message_id == id && r.event_id == event_id && r.created_at == timestamp@
            &&& member_text(data@, "correlation_id"@) == Some(r.correlation_id)
            &&& member_text(data@, "from"@) == Some(r.sender_name)
            &&& r.sender_session_id is None
            &&& r.intent == member_text(data@, "intent"@)
            &&& r.expects_reply == (crate::json::member_bool(data@, "expects_reply"@) == Some(true))
            &&& r.in_reply_to == member_text(data@, "in_reply_to"@)
            &&& r.legacy_reply_to == member_text(data@, "reply_to"@)
            &&& r.reply_endpoint == member_text(data@, "reply_endpoint"@)
            &&& r.supersedes == member_text(data@, "supersedes"@)
            &&& r.retry_of == member_text(data@, "retry_of"@)
            &&& member(data@, "attachments"@) is None ==> r.attachments_json == "[]"@
            &&& member(data@, "attachments"@) is Some ==> (attachments matches Attachments::Normalized { value, text } && value@ == member(data@, "attachments"@)->0 && r.attachments_json == text@)
        },
        (member_text(data@, "in_reply_to"@) matches Some(parent) ==> final(db)@.delivery(parent, member_text(data@, "from"@)->0) matches Some(row) && row.state == "replied"@),
{
    lemma_message_imported(old(db)@, event_id as int, timestamp@, data@, attachments@, Seq::empty());
}

proof fn lemma_others_untouched(db: DbV, event_id: int, timestamp: Seq<char>, data: JsonV, attachments: AttachmentsV, i: int)
    requires
        db.wf(),
        event_id <= db.sequence,
        0 <= i < db.deliveries.len(),
    ensures
        message_projected(db, event_id, timestamp, data, attachments) matches ProjectionV::Applied(d) ==> {
            let m = message_in(data, attachments)->Ok_0;
            &&& d.deliveries.len() >= db.deliveries.len()
            &&& db.deliveries[i].message_id != m.message_id && (m.in_reply_to != Some(db.deliveries[i].message_id) || db.deliveries[i].recipient_name != m.sender) ==> d.deliveries[i] == db.deliveries[i]
        },
{
    if let ProjectionV::Applied(d) = message_projected(db, event_id, timestamp, data, attachments) {
        let m = message_in(data, attachments)->Ok_0;
        lemma_recorded(db, m, event_id, timestamp);
        let a = message_recorded(db, m, event_id, timestamp)->Applied_0;
        let n = m.recipients.len() as int;
        let attempt = imported_attempt(a, m);
        lemma_delivered(a, m, attempt, event_id, timestamp, n);
        lemma_delivered_rows(a, m, attempt, event_id, timestamp, n, Seq::empty());
        let b = delivered(a, m, attempt, event_id, timestamp, n);
        if let Some(parent) = m.in_reply_to {
            crate::invariants::lemma_delivery_pos(b, parent, m.sender);
        }
    }
}

/// Importing a message leaves the deliveries of every other message as they are, but for that of the
/// request which it answers, to the one who answers.
pub proof fn imports_leave_other_messages(
    db: &mut HcomDb,
    event_id: i64,
    timestamp: &str,
    data: Json,
    attachments: Attachments,
    i: int,
)
    requires
        call_ensures(HcomDb::project_imported_message, (db, event_id, timestamp, &data, &attachments), Ok::<Option<String>, LifecycleError>(None)),
        old(db)@.wf(),
        event_id <= old(db)@.sequence,
        0 <= i < old(db)@.deliveries.len(),
        member_text(data@, "message_id"@) != Some(old(db)@.deliveries[i].message_id),
        member_text(data@, "in_reply_to"@) != Some(old(db)@.deliveries[i].message_id) || member_text(data@, "from"@) != Some(old(db)@.deliveries[i].recipient_name),
    ensures
        final(db)@.deliveries[i] == old(db)@.deliveries[i],
{
    lemma_others_untouched(old(db)@, event_id as int, timestamp@, data@, attachments@, i);
}

/// A message that another device sends is put on the log as it was prepared, announced, and brought to
/// each recipient that it names.
pub proof fn relayed_messages_reach_every_recipient(db: &mut HcomDb, route: Route<'_>, remote_id: i64, timestamp: &str, p: PreparedEvent, attachments: Attachments, n: i64, vs: Seq<JsonV>, id: Seq<char>, t: Seq<char>)
    requires
        call_ensures(HcomDb::import_relay_v1_event, (db, &route, remote_id, timestamp, &p, &attachments), Ok::<RelayV1Import, LifecycleError>(RelayV1Import::Applied(n))),
        old(db)@.wf(),
        p.kind@ == "message"@,
        member(p.data@, "delivered_to"@) == Some(JsonV::Array(vs)),
        member_text(p.data@, "message_id"@) == Some(id),
    ensures
        final(db)@.events == old(db)@.events.push(EventV { id: n as int, timestamp: timestamp@, kind: p.kind@, instance: p.instance@, data: p.data@ }),
        n == old(db)@.sequence + 1,
        final(db)@.notifications.len() > 0 && final(db)@.notifications.last() == n,
        final(db)@.record(id) matches Some(rec) && rec.event_id == n && rec.created_at == timestamp@,
        vs.contains(JsonV::Text(t)) ==> (final(db)@.delivery(id, t) matches Some(row) && row.recipient_name == t && row.message_id == id),
        vs.contains(JsonV::Text(t)) && old(db)@.delivery(id, t) is None ==> final(db)@.delivery(id, t)->0.state == "queued"@,
        !vs.contains(JsonV::Text(t)) ==> final(db)@.delivery(id, t) == old(db)@.delivery(id, t),
{
    let start = old(db)@;
    lemma_logged_in_order(start, timestamp@, p.kind@, p.instance@, p.data@);
    let (d, _) = event_logged(start, timestamp@, p.kind@, p.instance@, p.data@)->Ok_0;
    lemma_message_imported(d, n as int, timestamp@, p.data@, attachments@, t);
    let m = message_in(p.data@, attachments@)->Ok_0;
    let d2 = message_projected(d, n as int, timestamp@, p.data@, attachments@)->Applied_0;
    lemma_message_projected_log(d, n as int, timestamp@, p.data@, attachments@);
    assert(final(db)@.delivery(id, t) == d2.delivery(id, t));
    assert(final(db)@.record(id) == d2.record(id));
    assert(d.delivery(id, t) == start.delivery(id, t));
    crate::invariants::lemma_delivery_pos(d2, id, t);
    if vs.contains(JsonV::Text(t)) {
        let k = choose|k: int| 0 <= k < vs.len() && vs[k] == JsonV::Text(t);
        assert(m.recipients[k] == t);
    } else if m.recipients.contains(t) {
        let k = choose|k: int| 0 <= k < m.recipients.len() && m.recipients[k] == t;
        assert(vs[k] == JsonV::Text(t));
    }
}

proof fn lemma_delivered_log(db: DbV, m: ImportedMessageV, attempt: int, event_id: int, timestamp: Seq<char>, n: int)
    ensures
        delivered(db, m, attempt, event_id, timestamp, n).events == db.events,
        delivered(db, m, attempt, event_id, timestamp, n).notifications == db.notifications,
    decreases n,
{
    if n > 0 {
        lemma_delivered_log(db, m, attempt, event_id, timestamp, n - 1);
    }
}

proof fn lemma_message_projected_log(db: DbV, event_id: int, timestamp: Seq<char>, data: JsonV, attachments: AttachmentsV)
    ensures
        message_projected(db, event_id, timestamp, data, attachments) matches ProjectionV::Applied(d) ==> d.events == db.events && d.notifications == db.notifications,
{
    if let ProjectionV::Applied(d) = message_projected(db, event_id, timestamp, data, attachments) {
        let m = message_in(data, attachments)->Ok_0;
        let a = message_recorded(db, m, event_id, timestamp)->Applied_0;
        lemma_delivered_log(a, m, imported_attempt(a, m), event_id, timestamp, m.recipients.len() as int);
    }
}

/// An event that another device sends, and that is no part of the message protocol, is put on the log
/// as it was prepared, with the time it bears, and it is kept how far the log of the device was read;
/// unless it is meant for the device itself, has no id, was seen before, or is older than a reset.
pub proof fn plain_events_are_logged_once(db: &mut HcomDb, route: Route<'_>, events: Vec<RemoteEvent>, reset: ResetMark, p: PreparedEvent, id: i64)
    requires
        call_ensures(HcomDb::import_remote_events, (db, &route, &events, &reset), ()),
        events@.len() == 1,
        call_ensures(HcomDb::prepare_remote_event, (&*old(db), &events@[0].body, &route, id), p),
        member_int(events@[0].body@, "id"@) matches Some(n) ==> n == id,
        p.kind@ != "message"@ && p.kind@ != "message_state"@,
        seen_up_to(old(db)@, route.device_id@) >= 0 && (id <= 0 || id >= seen_up_to(old(db)@, route.device_id@)),
    ensures
        ({
            let e = events@[0];
            let last = seen_up_to(old(db)@, route.device_id@);
            let inward = member_text(e.body@, "type"@) == Some("control"@) || member_text(e.body@, "instance"@) == Some("_device"@);
            let old_number = reset.key > 0 && (member(e.body@, "ts"@) matches Some(JsonV::Int(_))) && 0 < e.stamp_key < reset.key;
            let old_text = reset.key > 0 && (member(e.body@, "ts"@) matches Some(JsonV::Text(s)) && 0 < crate::times::instant_seconds(s) < reset.ceiling);
            let fraction = member(e.body@, "ts"@) matches Some(JsonV::Real(_));
            &&& inward || member_int(e.body@, "id"@) is None || id <= last || old_number || old_text ==> final(db)@ == old(db)@
            &&& !inward && member_int(e.body@, "id"@) is Some && id > last && !old_number && !old_text && !fraction ==> {
                let stamp = match member(e.body@, "ts"@) { Some(JsonV::Text(s)) => s, Some(JsonV::Int(n)) => decimal(n), _ => ""@ };
                &&& old(db)@.sequence < i64::MAX ==> final(db)@.events == old(db)@.events.push(EventV { id: old(db)@.sequence + 1, timestamp: stamp, kind: p.kind@, instance: p.instance@, data: p.data@ })
                &&& old(db)@.sequence < i64::MAX ==> final(db)@.notifications == old(db)@.notifications.push(old(db)@.sequence + 1)
                &&& final(db)@.kv_value("relay_events_"@ + route.device_id@) == Some(decimal(id as int))
                &&& final(db)@.deliveries == old(db)@.deliveries && final(db)@.records == old(db)@.records && final(db)@.instances == old(db)@.instances
            }
        }),
{
    let start = old(db)@;
    let es = crate::rows::views(events@);
    assert(es.len() == 1 && es[0] == events@[0]@);
    let last = seen_up_to(start, route.device_id@);
    reveal_with_fuel(crate::sync::highest_id, 2);
    reveal_with_fuel(all_taken_in, 2);
    assert(!ids_regressed(es, last));
    assert(!protocol_aware(p.kind@, p.data@));
    let s = all_taken_in(start, es, route@, reset, last, 1);
    assert(all_taken_in(start, es, route@, reset, last, 0) == (crate::sync::ProgressV { db: start, newest: last, stopped: false }));
    if s.newest > last {
        kept_values_read_back(s.db, cursor_key(route.device_id@), decimal(s.newest), cursor_key(route.device_id@));
    }
}

/// What a device does is logged as its life: what it did, its ids, the words, and whether it came back.
pub proof fn devices_are_logged(db: &mut HcomDb, action: &str, short_id: &str, prefix: &str, text: &str, reconnect: bool, now: &str)
    requires
        call_ensures(HcomDb::emit_device_event, (db, action, short_id, prefix, text, reconnect, now), ()),
        old(db)@.sequence < i64::MAX,
    ensures
        final(db)@.events.drop_last() == old(db)@.events,
        ({
            let e = final(db)@.events.last();
            &&& e.id == old(db)@.sequence + 1 && e.kind == "life"@ && e.instance == ""@ && e.timestamp == now@
            &&& is_device_event(e.data, action@, short_id@, prefix@, text@, reconnect)
        }),
        final(db)@.notifications == old(db)@.notifications.push(old(db)@.sequence + 1),
        final(db)@.instances == old(db)@.instances && final(db)@.kv == old(db)@.kv && final(db)@.deliveries == old(db)@.deliveries,
{
    lemma_device_data(action@, short_id@, prefix@, text@, reconnect);
    assert(final(db)@.events.drop_last() =~= old(db)@.events);
}

/// Whether a payload tells of a device: what it did, its ids, the words, and whether it came back.
pub open spec fn is_device_event(data: JsonV, action: Seq<char>, short_id: Seq<char>, prefix: Seq<char>, text: Seq<char>, reconnect: bool) -> bool {
    &&& member_text(data, "action"@) == Some(action)
    &&& member_text(data, "device_id"@) == Some(prefix)
    &&& member_text(data, "short_id"@) == Some(short_id)
    &&& member_text(data, "text"@) == Some(text)
    &&& member(data, "reconnect"@) == (if reconnect { Some(JsonV::Bool(true)) } else { None })
}

proof fn lemma_device_data(action: Seq<char>, short_id: Seq<char>, prefix: Seq<char>, text: Seq<char>, reconnect: bool)
    ensures
        is_device_event(crate::devices::device_event_data(action, short_id, prefix, text, reconnect), action, short_id, prefix, text, reconnect),
{
    let data = crate::devices::device_event_data(action, short_id, prefix, text, reconnect);
    let ms = data->Object_0;
    reveal_strlit("action");
    reveal_strlit("device_id");
    reveal_strlit("reconnect");
    reveal_strlit("short_id");
    reveal_strlit("text");
    assert("action"@.len() == 6 && "device_id"@.len() == 9 && "reconnect"@.len() == 9 && "short_id"@.len() == 8 && "text"@.len() == 4);
    assert("device_id"@[0] == 'd' && "reconnect"@[0] == 'r');
    crate::json::lemma_member_at(ms, 0);
    crate::json::lemma_member_at(ms, 1);
    crate::json::lemma_member_at(ms, 2);
    crate::json::lemma_member_at(ms, 3);
    if reconnect {
        crate::json::lemma_member_at(ms, 4);
    } else {
        let p = crate::json::has_key(ms, "reconnect"@);
        first_where_is_least(ms.len() as int, p);
        assert(!p(0) && !p(1) && !p(2) && !p(3));
    }
}

/// Keys that begin differently are different.
proof fn lemma_keys_differ(a: Seq<char>, x: Seq<char>, b: Seq<char>, y: Seq<char>, i: int)
    requires
        0 <= i < a.len() && i < b.len() && a[i] != b[i],
    ensures
        a + x != b + y,
{
    assert((a + x)[i] == a[i] && (b + y)[i] == b[i]);
}

proof fn lemma_prefixes()
    ensures
        "relay_short_"@.len() == 12 && "relay_uuid_short_"@.len() == 17 && "relay_caps_"@.len() == 11 && "relay_sync_time_"@.len() == 16 && "relay_ctrl_"@.len() == 11 && "relay_state_ts_"@.len() == 15,
        "relay_short_"@[6] == 's' && "relay_short_"@[7] == 'h' && "relay_uuid_short_"@[6] == 'u' && "relay_caps_"@[6] == 'c' && "relay_caps_"@[7] == 'a' && "relay_sync_time_"@[6] == 's' && "relay_sync_time_"@[7] == 'y',
        "relay_ctrl_"@[6] == 'c' && "relay_ctrl_"@[7] == 't' && "relay_state_ts_"@[6] == 's' && "relay_state_ts_"@[7] == 't',
        "relay_device_count"@.len() == 18 && "relay_device_count"@[6] == 'd' && "relay_last_sync"@.len() == 15 && "relay_last_sync"@[6] == 'l',
{
    reveal_strlit("relay_short_");
    reveal_strlit("relay_uuid_short_");
    reveal_strlit("relay_caps_");
    reveal_strlit("relay_sync_time_");
    reveal_strlit("relay_ctrl_");
    reveal_strlit("relay_state_ts_");
    reveal_strlit("relay_device_count");
    reveal_strlit("relay_last_sync");
}

/// A device that arrives is known by its short id from then on, and so is what it can do; a new one is
/// announced as having joined, one that comes back after long as having reconnected; and one whose
/// short id another has is turned away.
pub proof fn arriving_devices_are_known(db: &mut HcomDb, g: Greeting<'_>, r: bool)
    requires
        call_ensures(HcomDb::greet_device, (db, &g), r),
    ensures
        ({
            let key = "relay_short_"@ + g.short_id@;
            let known = old(db)@.kv_value(key);
            &&& r == (known is None || known == Some(g.device_id@))
            &&& !r ==> final(db)@ == old(db)@
            &&& r ==> final(db)@.kv_value(key) == Some(g.device_id@)
            &&& r ==> final(db)@.kv_value("relay_uuid_short_"@ + g.device_id@) == Some(g.short_id@)
            &&& r ==> final(db)@.kv_value("relay_caps_"@ + g.device_id@) == Some(match g.capabilities { Some(s) => s@, None => "null"@ })
            &&& r && known is None && old(db)@.sequence < i64::MAX ==> {
                let e = final(db)@.events.last();
                &&& final(db)@.events.drop_last() == old(db)@.events && e.kind == "life"@ && e.timestamp == g.now@
                &&& is_device_event(e.data, g.action@, g.short_id@, g.prefix@, "new device "@ + g.short_id@ + " joined the relay"@, false)
            }
            &&& r && known is Some && g.returning && old(db)@.sequence < i64::MAX ==> {
                let e = final(db)@.events.last();
                &&& final(db)@.events.drop_last() == old(db)@.events && e.kind == "life"@ && e.timestamp == g.now@
                &&& is_device_event(e.data, g.action@, g.short_id@, g.prefix@, "device "@ + g.short_id@ + " reconnected"@, true)
            }
            &&& r && known is Some && !g.returning ==> final(db)@.events == old(db)@.events
            &&& final(db)@.instances == old(db)@.instances && final(db)@.deliveries == old(db)@.deliveries && final(db)@.records == old(db)@.records
        }),
{
    let start = old(db)@;
    let key = "relay_short_"@ + g.short_id@;
    let uuid = "relay_uuid_short_"@ + g.device_id@;
    let caps = "relay_caps_"@ + g.device_id@;
    lemma_prefixes();
    lemma_keys_differ("relay_short_"@, g.short_id@, "relay_uuid_short_"@, g.device_id@, 6);
    lemma_keys_differ("relay_short_"@, g.short_id@, "relay_caps_"@, g.device_id@, 6);
    lemma_keys_differ("relay_uuid_short_"@, g.device_id@, "relay_caps_"@, g.device_id@, 6);
    lemma_device_data(g.action@, g.short_id@, g.prefix@, "new device "@ + g.short_id@ + " joined the relay"@, false);
    lemma_device_data(g.action@, g.short_id@, g.prefix@, "device "@ + g.short_id@ + " reconnected"@, true);
    if r {
        kept_values_read_back(start, key, g.device_id@, key);
        let joined = kv_put(start, key, Some(g.device_id@));
        let d = match start.kv_value(key) {
            Some(_) => if g.returning {
                device_event_logged(start, g.action@, g.short_id@, g.prefix@, "device "@ + g.short_id@ + " reconnected"@, true, g.now@)
            } else {
                start
            },
            None => device_event_logged(joined, g.action@, g.short_id@, g.prefix@, "new device "@ + g.short_id@ + " joined the relay"@, false, g.now@),
        };
        let d1 = kv_put(d, uuid, Some(g.short_id@));
        let what = match g.capabilities { Some(s) => s@, None => "null"@ };
        kept_values_read_back(d, uuid, g.short_id@, key);
        kept_values_read_back(d1, caps, what, key);
        kept_values_read_back(d1, caps, what, uuid);
        assert(final(db)@ == kv_put(d1, caps, Some(what)));
        if d.events.len() > start.events.len() {
            assert(d.events.drop_last() =~= start.events);
        }
    }
}

/// Removing a key leaves every other key as it is, and no key twice.
proof fn lemma_removed_key(db: DbV, key: Seq<char>, other: Seq<char>)
    requires
        keys_distinct(db.kv),
    ensures
        keys_distinct(kv_put(db, key, None).kv),
        kv_put(db, key, None).kv_value(key) is None,
        other != key ==> kv_put(db, key, None).kv_value(other) == db.kv_value(other),
{
    removed_values_are_gone(db, key);
    let n: int = db.kv.len() as int;
    let d = kv_put(db, key, None);
    let p = kv_named(db.kv, key);
    first_where_is_least(n, p);
    if let Some(i) = first_where(n, p) {
        assert(p(i));
        assert forall|a: int, b: int| 0 <= a < b < d.kv.len() implies (#[trigger] d.kv[a]).key != (#[trigger] d.kv[b]).key by {
            let x: int = if a < i { a } else { a + 1 };
            let y: int = if b < i { b } else { b + 1 };
            assert(d.kv[a] == db.kv[x] && d.kv[b] == db.kv[y]);
        }
        if other != key {
            let a = kv_named(db.kv, other);
            let b = kv_named(d.kv, other);
            first_where_is_least(n, a);
            match first_where(n, a) {
                Some(k) => {
                    assert(a(k));
                    assert(k != i);
                    let to: int = if k < i { k } else { k - 1 };
                    assert(d.kv[to] == db.kv[k]);
                    assert(b(to));
                    assert forall|j: int| 0 <= j < to implies !#[trigger] b(j) by {
                        let x: int = if j < i { j } else { j + 1 };
                        assert(d.kv[j] == db.kv[x]);
                        assert(!a(x));
                    }
                    first_where_found(n - 1, b, to);
                },
                None => {
                    first_where_is_least(n - 1, b);
                    if let Some(j) = first_where(n - 1, b) {
                        let x: int = if j < i { j } else { j + 1 };
                        assert(b(j));
                        assert(d.kv[j] == db.kv[x]);
                        assert(!a(x));
                    }
                },
            }
        }
    }
}

/// What is kept of a device that left: nothing. Its instances are gone and no others, none of its keys
/// has a value any more, and the log says that it left.
pub proof fn devices_that_left_are_forgotten(db: &mut HcomDb, device_id: &str, prefix: &str, action: &str, now: &str, label: Option<String>, i: InstanceV)
    requires
        call_ensures(HcomDb::handle_device_gone, (db, device_id, prefix, action, now), ()),
        call_ensures(HcomDb::resolve_short_id, (&*old(db), device_id), label),
        keys_distinct(old(db)@.kv),
    ensures
        final(db)@.instances.contains(i) <==> old(db)@.instances.contains(i) && i.origin_device_id != Some(device_id@),
        final(db)@.kv_value("relay_sync_time_"@ + device_id@) is None,
        final(db)@.kv_value("relay_caps_"@ + device_id@) is None,
        final(db)@.kv_value("relay_ctrl_"@ + device_id@) is None,
        final(db)@.kv_value("relay_state_ts_"@ + device_id@) is None,
        final(db)@.kv_value("relay_uuid_short_"@ + device_id@) is None,
        label matches Some(s) ==> final(db)@.kv_value("relay_short_"@ + s@) is None,
        old(db)@.sequence < i64::MAX ==> {
            let e = final(db)@.events.last();
            let name = match label { Some(s) => s@, None => prefix@ };
            &&& final(db)@.events.drop_last() == old(db)@.events && e.kind == "life"@ && e.timestamp == now@
            &&& is_device_event(e.data, action@, name, prefix@, "device "@ + name + " left the relay"@, false)
        },
{
    let start = old(db)@;
    let id = device_id@;
    removed_instances_are_gone(start, id, i);
    let d0 = without_device(start, id);
    assert(crate::devices::short_id_of(d0, id) == crate::devices::short_id_of(start, id));
    lemma_prefixes();
    let sync = "relay_sync_time_"@ + id;
    let caps = "relay_caps_"@ + id;
    let ctrl = "relay_ctrl_"@ + id;
    let state = "relay_state_ts_"@ + id;
    let uuid = "relay_uuid_short_"@ + id;
    lemma_keys_differ("relay_sync_time_"@, id, "relay_caps_"@, id, 6);
    lemma_keys_differ("relay_sync_time_"@, id, "relay_ctrl_"@, id, 6);
    lemma_keys_differ("relay_sync_time_"@, id, "relay_state_ts_"@, id, 7);
    lemma_keys_differ("relay_sync_time_"@, id, "relay_uuid_short_"@, id, 6);
    lemma_keys_differ("relay_caps_"@, id, "relay_ctrl_"@, id, 7);
    lemma_keys_differ("relay_caps_"@, id, "relay_state_ts_"@, id, 6);
    lemma_keys_differ("relay_caps_"@, id, "relay_uuid_short_"@, id, 6);
    lemma_keys_differ("relay_ctrl_"@, id, "relay_state_ts_"@, id, 6);
    lemma_keys_differ("relay_ctrl_"@, id, "relay_uuid_short_"@, id, 6);
    lemma_keys_differ("relay_state_ts_"@, id, "relay_uuid_short_"@, id, 6);
    let d1 = kv_put(d0, sync, None);
    lemma_removed_key(d0, sync, sync);
    let d2 = kv_put(d1, caps, None);
    lemma_removed_key(d1, caps, sync);
    let d3 = kv_put(d2, ctrl, None);
    lemma_removed_key(d2, ctrl, sync);
    lemma_removed_key(d2, ctrl, caps);
    let d4 = kv_put(d3, state, None);
    lemma_removed_key(d3, state, sync);
    lemma_removed_key(d3, state, caps);
    lemma_removed_key(d3, state, ctrl);
    let d5 = match label { Some(s) => kv_put(d4, "relay_short_"@ + s@, None), None => d4 };
    if let Some(s) = label {
        let short = "relay_short_"@ + s@;
        lemma_keys_differ("relay_short_"@, s@, "relay_sync_time_"@, id, 7);
        lemma_keys_differ("relay_short_"@, s@, "relay_caps_"@, id, 6);
        lemma_keys_differ("relay_short_"@, s@, "relay_ctrl_"@, id, 6);
        lemma_keys_differ("relay_short_"@, s@, "relay_state_ts_"@, id, 7);
        lemma_keys_differ("relay_short_"@, s@, "relay_uuid_short_"@, id, 6);
        lemma_removed_key(d4, short, sync);
        lemma_removed_key(d4, short, caps);
        lemma_removed_key(d4, short, ctrl);
        lemma_removed_key(d4, short, state);
        lemma_removed_key(d5, uuid, short);
    }
    lemma_removed_key(d5, uuid, sync);
    lemma_removed_key(d5, uuid, caps);
    lemma_removed_key(d5, uuid, ctrl);
    lemma_removed_key(d5, uuid, state);
    let name = match label { Some(s) => s@, None => prefix@ };
    lemma_device_data(action@, name, prefix@, "device "@ + name + " left the relay"@, false);
    if start.sequence < i64::MAX {
        assert(final(db)@.events.drop_last() =~= start.events);
    }
}

/// The time of a state that is accepted is what is read of the device afterwards, unless a newer one
/// was accepted before.
pub proof fn accepted_times_are_read_back(db: &mut HcomDb, device_id: &str, ts: u64, before: Option<u64>, after: Option<u64>)
    requires
        call_ensures(HcomDb::state_ts_watermark, (&*old(db), device_id), before),
        call_ensures(HcomDb::record_state_ts_watermark, (db, device_id, ts), ()),
        call_ensures(HcomDb::state_ts_watermark, (&*final(db), device_id), after),
        ts > 0,
    ensures
        before is None || before->0 < ts ==> after == Some(ts),
        before is Some && before->0 >= ts ==> after == before && final(db)@ == old(db)@,
        final(db)@.kv_value("relay_state_ts_"@ + device_id@) == (if before is None || before->0 < ts { Some(decimal(ts as int)) } else { old(db)@.kv_value("relay_state_ts_"@ + device_id@) }),
{
    watermarks_never_go_back(old(db)@, device_id@, ts as int);
    kept_values_read_back(old(db)@, watermark_key(device_id@), decimal(ts as int), watermark_key(device_id@));
}

/// An instance of another device is kept under its name there with the short id of the device, and with
/// what its device says of it; what the device does not say has its default.
pub proof fn remote_instances_are_as_said(e: RemoteEntry, short_id: &str, tool: &str, r: RemoteInstance)
    requires
        call_ensures(crate::devices::read_remote_instance, (&e, short_id, tool), r),
    ensures
        r.name@ == e.name@ + ":"@ + short_id@,
        r.status@ == (match member_text(e.body@, "status"@) { Some(s) => s, None => "unknown"@ }),
        r.context@ == (match member_text(e.body@, "context"@) { Some(s) => s, None => ""@ }),
        r.detail@ == (match member_text(e.body@, "detail"@) { Some(s) => s, None => ""@ }),
        r.status_time == e.status_time && r.last_stop@ == e.last_stop@,
        member_text(e.body@, "parent"@) matches Some(p) ==> (r.parent matches Some(s) && s@ == p + ":"@ + short_id@),
        member_text(e.body@, "parent"@) is None ==> r.parent is None,
        crate::text::opt_text(r.directory) == member_text(e.body@, "directory"@),
        crate::text::opt_text(r.transcript) == member_text(e.body@, "transcript"@),
        crate::text::opt_text(r.tag) == member_text(e.body@, "tag"@),
        r.wait_timeout == (match member_int(e.body@, "wait_timeout"@) { Some(n) => n, None => 86400 }),
        r.tcp_mode == (member(e.body@, "tcp_mode"@) == Some(JsonV::Bool(true))),
        r.background == (member(e.body@, "background"@) == Some(JsonV::Bool(true))),
        r.tool@ == (match member_text(e.body@, "tool"@) { Some(s) => s, None => tool@ }),
        r.endpoint_epoch@ == (match member_text(e.body@, "endpoint_epoch"@) { Some(s) => s, None => ""@ }),
{
}

proof fn lemma_brought(entries: Seq<crate::devices::EntryV>, short_id: Seq<char>, tool: Seq<char>, reset: ResetMark, n: int, k: int)
    requires
        0 <= k < n <= entries.len(),
    ensures
        !(reset.key > 0 && entries[k].status_key < reset.key) ==> crate::devices::brought(entries, short_id, tool, reset, n).contains(crate::devices::remote_instance(entries[k], short_id, tool)),
    decreases n,
{
    let s = crate::devices::brought(entries, short_id, tool, reset, n);
    let t = crate::devices::brought(entries, short_id, tool, reset, n - 1);
    if k < n - 1 {
        lemma_brought(entries, short_id, tool, reset, n - 1, k);
        let x = crate::devices::remote_instance(entries[k], short_id, tool);
        if t.contains(x) {
            let q = choose|q: int| 0 <= q < t.len() && t[q] == x;
            assert(s[q] == x);
        }
    } else if !(reset.key > 0 && entries[k].status_key < reset.key) {
        assert(s.last() == crate::devices::remote_instance(entries[k], short_id, tool));
    }
}

proof fn lemma_brought_from(entries: Seq<crate::devices::EntryV>, short_id: Seq<char>, tool: Seq<char>, reset: ResetMark, n: int, q: int)
    requires
        0 <= n <= entries.len(),
        0 <= q < crate::devices::brought(entries, short_id, tool, reset, n).len(),
    ensures
        exists|k: int| 0 <= k < n && !(reset.key > 0 && (#[trigger] entries[k]).status_key < reset.key) && crate::devices::brought(entries, short_id, tool, reset, n)[q] == crate::devices::remote_instance(entries[k], short_id, tool),
    decreases n,
{
    if n > 0 {
        let t = crate::devices::brought(entries, short_id, tool, reset, n - 1);
        if q < t.len() {
            lemma_brought_from(entries, short_id, tool, reset, n - 1, q);
        } else {
            assert(entries[n - 1].status_key == entries[n - 1].status_key);
        }
    }
}

/// Each instance in a state that is not older than the last reset is brought, and no other is.
pub proof fn recent_instances_are_brought(entries: Vec<RemoteEntry>, short_id: &str, tool: &str, reset: ResetMark, r: Vec<RemoteInstance>, k: int, one: RemoteInstance, q: int)
    requires
        call_ensures(crate::devices::remote_instances, (&entries, short_id, tool, &reset), r),
        0 <= k < entries@.len(),
        call_ensures(crate::devices::read_remote_instance, (&entries@[k], short_id, tool), one),
    ensures
        reset.key <= 0 || entries@[k].status_key >= reset.key ==> exists|i: int| 0 <= i < r@.len() && (#[trigger] r@[i])@ == one@,
        0 <= q < r@.len() ==> exists|i: int| 0 <= i < entries@.len() && (#[trigger] entries@[i]).name@ + ":"@ + short_id@ == r@[q].name@ && (reset.key <= 0 || entries@[i].status_key >= reset.key),
{
    let es = crate::rows::views(entries@);
    let n = entries@.len() as int;
    assert(es[k] == entries@[k]@);
    lemma_brought(es, short_id@, tool@, reset, n, k);
    let rs = crate::rows::views(r@);
    assert(rs.len() == r@.len());
    if rs.contains(one@) {
        let i = choose|i: int| 0 <= i < rs.len() && rs[i] == one@;
        assert(r@[i]@ == rs[i]);
    }
    if 0 <= q < r@.len() {
        lemma_brought_from(es, short_id@, tool@, reset, n, q);
        let i = choose|i: int| 0 <= i < n && !(reset.key > 0 && (#[trigger] es[i]).status_key < reset.key) && rs[q] == crate::devices::remote_instance(es[i], short_id@, tool@);
        assert(es[i] == entries@[i]@);
        assert(rs[q] == r@[q]@);
        assert(entries@[i].name@ + ":"@ + short_id@ == r@[q].name@);
    }
}

/// What putting in the instances of a device leaves: those put in, and the others as they were.
proof fn lemma_put_instances(db: DbV, device_id: Seq<char>, rs: Seq<RemoteInstanceV>, n: int)
    requires
        0 <= n <= rs.len(),
        forall|a: int, b: int| 0 <= a < b < rs.len() ==> (#[trigger] rs[a]).name != (#[trigger] rs[b]).name,
    ensures
        ({
            let d = instances_put(db, device_id, rs, n);
            &&& forall|q: int| 0 <= q < n ==> exists|i: int| 0 <= i < d.instances.len() && (#[trigger] d.instances[i]).name == (#[trigger] rs[q]).name && d.instances[i].endpoint_epoch == rs[q].endpoint_epoch
            &&& forall|i: int| 0 <= i < db.instances.len() && (forall|q: int| 0 <= q < n ==> (#[trigger] rs[q]).name != db.instances[i].name) ==> d.instances[i] == #[trigger] db.instances[i]
            &&& d.instances.len() >= db.instances.len()
            &&& d.kv == db.kv && d.events == db.events && d.deliveries == db.deliveries && d.records == db.records
        }),
    decreases n,
{
    if n > 0 {
        lemma_put_instances(db, device_id, rs, n - 1);
        let d = instances_put(db, device_id, rs, n - 1);
        let d2 = instances_put(db, device_id, rs, n);
        let r = rs[n - 1];
        let p = instance_named(d.instances, r.name);
        first_where_is_least(d.instances.len() as int, p);
        match d.instance_pos(r.name) {
            Some(i) => {
                assert(p(i));
                assert(d2.instances[i].name == r.name && d2.instances[i].endpoint_epoch == r.endpoint_epoch);
            },
            None => {
                let i = d.instances.len() as int;
                assert(d2.instances[i].name == r.name && d2.instances[i].endpoint_epoch == r.endpoint_epoch);
            },
        }
        assert forall|q: int| 0 <= q < n implies exists|i: int| 0 <= i < d2.instances.len() && (#[trigger] d2.instances[i]).name == (#[trigger] rs[q]).name && d2.instances[i].endpoint_epoch == rs[q].endpoint_epoch by {
            if q < n - 1 {
                let i = choose|i: int| 0 <= i < d.instances.len() && (#[trigger] d.instances[i]).name == rs[q].name && d.instances[i].endpoint_epoch == rs[q].endpoint_epoch;
                assert(rs[q].name != rs[n - 1].name);
                assert(d2.instances[i] == d.instances[i]);
            }
        }
        assert forall|i: int| 0 <= i < db.instances.len() && (forall|q: int| 0 <= q < n ==> (#[trigger] rs[q]).name != db.instances[i].name) implies d2.instances[i] == #[trigger] db.instances[i] by {
            assert(rs[n - 1].name != db.instances[i].name);
            assert(d.instances[i] == db.instances[i]);
        }
    }
}

/// After a state is taken over, each instance that it brings is there with the endpoint it brings; what
/// is there of the device is what the state brings; and what the state does not name and does not live
/// on the device stays as it was.
pub proof fn states_replace_the_instances_of_a_device(db: &mut HcomDb, device_id: &str, rs: Vec<RemoteInstance>, q: int, i: InstanceV)
    requires
        call_ensures(HcomDb::take_over_instances, (db, device_id, &rs), ()),
        forall|a: int, b: int| 0 <= a < b < rs@.len() ==> (#[trigger] rs@[a]).name@ != (#[trigger] rs@[b]).name@,
    ensures
        0 <= q < rs@.len() ==> exists|k: int| 0 <= k < final(db)@.instances.len() && (#[trigger] final(db)@.instances[k]).name == rs@[q].name@ && final(db)@.instances[k].endpoint_epoch == rs@[q].endpoint_epoch@,
        final(db)@.instances.contains(i) && i.origin_device_id == Some(device_id@) ==> exists|k: int| 0 <= k < rs@.len() && (#[trigger] rs@[k]).name@ == i.name,
        old(db)@.instances.contains(i) && i.origin_device_id != Some(device_id@) && (forall|k: int| 0 <= k < rs@.len() ==> (#[trigger] rs@[k]).name@ != i.name) ==> final(db)@.instances.contains(i),
        final(db)@.kv == old(db)@.kv && final(db)@.events == old(db)@.events && final(db)@.deliveries == old(db)@.deliveries && final(db)@.records == old(db)@.records,
{
    let start = old(db)@;
    let vs = crate::rows::views(rs@);
    let n = vs.len() as int;
    assert forall|a: int, b: int| 0 <= a < b < vs.len() implies (#[trigger] vs[a]).name != (#[trigger] vs[b]).name by {
        assert(vs[a] == rs@[a]@ && vs[b] == rs@[b]@);
        assert(rs@[a].name@ != rs@[b].name@);
    }
    lemma_put_instances(start, device_id@, vs, n);
    let d = instances_put(start, device_id@, vs, n);
    let keep = |x: InstanceV| x.origin_device_id != Some(device_id@) || crate::devices::names_one(vs, x.name);
    lemma_filter_holds(d.instances, keep);
    let f = d.instances.filter(keep);
    assert(final(db)@.instances == f);
    if 0 <= q < rs@.len() {
        assert(vs[q] == rs@[q]@);
        let k = choose|k: int| 0 <= k < d.instances.len() && (#[trigger] d.instances[k]).name == vs[q].name && d.instances[k].endpoint_epoch == vs[q].endpoint_epoch;
        assert(crate::devices::names_one(vs, d.instances[k].name));
        assert(keep(d.instances[k]));
        assert(f.contains(d.instances[k]));
        let at = choose|at: int| 0 <= at < f.len() && f[at] == d.instances[k];
        assert(final(db)@.instances[at].name == rs@[q].name@);
    }
    if f.contains(i) && i.origin_device_id == Some(device_id@) {
        let at = choose|at: int| 0 <= at < f.len() && f[at] == i;
        assert(keep(f[at]));
        let k = choose|k: int| 0 <= k < vs.len() && (#[trigger] vs[k]).name == i.name;
        assert(vs[k] == rs@[k]@);
        assert(rs@[k].name@ == i.name);
    }
    if start.instances.contains(i) && i.origin_device_id != Some(device_id@) && (forall|k: int| 0 <= k < rs@.len() ==> (#[trigger] rs@[k]).name@ != i.name) {
        let at = choose|at: int| 0 <= at < start.instances.len() && start.instances[at] == i;
        assert forall|k: int| 0 <= k < n implies (#[trigger] vs[k]).name != start.instances[at].name by {
            assert(vs[k] == rs@[k]@);
            assert(rs@[k].name@ != i.name);
        }
        assert(d.instances[at] == start.instances[at]);
        assert(keep(d.instances[at]));
    }
}

/// What a control message asks for comes from the device that it names, and is what it lists, or the
/// message itself; what the own device sent is not taken up.
pub proof fn control_messages_are_taken_up(data: Json, own: &str, r: Option<ControlRequest>, vs: Seq<JsonV>)
    requires
        call_ensures(crate::devices::handle_control_message, (&data, own), r),
    ensures
        ({
            let from = match member_text(data@, "from_device"@) { Some(s) => s, None => "unknown"@ };
            &&& r is None <==> from == own@
            &&& r matches Some(c) ==> c.source_device@ == from
            &&& r is Some && member(data@, "events"@) == Some(JsonV::Array(vs)) ==> crate::json::array_view(r->0.events@) == vs
            &&& r is Some && member(data@, "events"@) is None && member_text(data@, "type"@) == Some("control"@) ==> crate::json::array_view(r->0.events@) == seq![data@]
            &&& r is Some && member(data@, "events"@) is None && member_text(data@, "type"@) != Some("control"@) ==> r->0.events@.len() == 0
        }),
{
    if r is Some {
        assert(crate::json::array_view(r->0.events@).len() == r->0.events@.len());
    }
}

/// An envelope is parsed, decrypted, checked for replay, and its nonce recorded, in this order, and is
/// open then; a step that fails drops it; and what is open or dropped stays so.
pub proof fn envelopes_are_opened_in_order(step: EnvelopeStep, ok: bool, r: EnvelopeStep)
    requires
        call_ensures(EnvelopeStep::next, (step, ok), r),
    ensures
        step == EnvelopeStep::Parse ==> r == (if ok { EnvelopeStep::Decrypt } else { EnvelopeStep::Dropped }),
        step == EnvelopeStep::Decrypt ==> r == (if ok { EnvelopeStep::CheckReplay } else { EnvelopeStep::Dropped }),
        step == EnvelopeStep::CheckReplay ==> r == (if ok { EnvelopeStep::RecordNonce } else { EnvelopeStep::Dropped }),
        step == EnvelopeStep::RecordNonce ==> r == (if ok { EnvelopeStep::Opened } else { EnvelopeStep::Dropped }),
        step == EnvelopeStep::Opened || step == EnvelopeStep::Dropped ==> r == step,
{
}

/// A device goes by the short id that its state names, in capitals; a state without content is a
/// farewell.
pub proof fn devices_go_by_their_short_id(data: Json, device_id: &str, r: String, farewell: bool, state: JsonV)
    requires
        call_ensures(crate::devices::state_short_id, (&data, device_id), r),
        call_ensures(crate::devices::is_farewell, (&data,), farewell),
        member(data@, "state"@) == Some(state),
    ensures
        member_text(state, "short_id"@) matches Some(s) ==> r@ == uppercase(s),
        farewell <==> state is Null,
{
}

/// A state is handled by what it says: an empty one makes its device leave; one whose short id another
/// device has is dropped; and one that is taken up leaves the device known by its short id, with the
/// instances that it brought.
pub proof fn states_are_handled(db: &mut HcomDb, m: StateMessage<'_>, r: StateStep, short: String)
    requires
        call_ensures(HcomDb::handle_state_message, (db, &m), r),
        member(m.data@, "state"@) != Some(JsonV::Null) ==> call_ensures(crate::devices::state_short_id, (m.data, m.device_id), short),
    ensures
        member(m.data@, "state"@) == Some(JsonV::Null) <==> r is Gone,
        member(m.data@, "state"@) != Some(JsonV::Null) && (old(db)@.kv_value("relay_short_"@ + short@) matches Some(d) && d != m.device_id@) ==> r is Dropped && final(db)@ == old(db)@,
        member(m.data@, "state"@) != Some(JsonV::Null) && !(old(db)@.kv_value("relay_short_"@ + short@) matches Some(d) && d != m.device_id@) && m.reset_key <= m.known_reset_key ==> r is Applied,
        r matches StateStep::Applied { short_id, .. } ==> short_id@ == short@,
{
}

/// When the events of a state are in, the time of the sync is kept for the device and for all, and the
/// time of the state is accepted.
pub proof fn finished_states_are_on_record(db: &mut HcomDb, route: Route<'_>, events: Vec<RemoteEvent>, reset: ResetMark, now: &str, ts: u64)
    requires
        call_ensures(HcomDb::finish_state, (db, &route, &events, &reset, now, ts), ()),
        ts > 0,
    ensures
        final(db)@.kv_value("relay_sync_time_"@ + route.device_id@) == Some(now@),
        final(db)@.kv_value("relay_last_sync"@) == Some(now@),
        (forall|i: int| 0 <= i < final(db)@.instances.len() ==> (#[trigger] final(db)@.instances[i]).origin_device_id is None) ==> final(db)@.kv_value("relay_device_count"@) == Some(decimal(0)),
        watermark(final(db)@, route.device_id@) matches Some(n) && n >= ts,
{
    let id = route.device_id@;
    lemma_prefixes();
    let d1 = events_imported(old(db)@, route@, crate::rows::views(events@), reset);
    let sync = "relay_sync_time_"@ + id;
    let d2 = kv_put(d1, sync, Some(now@));
    let count = crate::devices::device_count(d2.instances, d2.instances.len() as int);
    let d3 = kv_put(d2, "relay_device_count"@, Some(decimal(count)));
    let d4 = kv_put(d3, "relay_last_sync"@, Some(now@));
    let none = Seq::<char>::empty();
    assert("relay_device_count"@ + none =~= "relay_device_count"@ && "relay_last_sync"@ + none =~= "relay_last_sync"@);
    lemma_keys_differ("relay_sync_time_"@, id, "relay_device_count"@, none, 6);
    lemma_keys_differ("relay_sync_time_"@, id, "relay_last_sync"@, none, 6);
    lemma_keys_differ("relay_device_count"@, none, "relay_last_sync"@, none, 6);
    lemma_keys_differ("relay_state_ts_"@, id, "relay_sync_time_"@, id, 7);
    lemma_keys_differ("relay_state_ts_"@, id, "relay_device_count"@, none, 6);
    lemma_keys_differ("relay_state_ts_"@, id, "relay_last_sync"@, none, 6);
    kept_values_read_back(d1, sync, now@, sync);
    kept_values_read_back(d2, "relay_device_count"@, decimal(count), sync);
    kept_values_read_back(d3, "relay_last_sync"@, now@, sync);
    kept_values_read_back(d3, "relay_last_sync"@, now@, "relay_device_count"@);
    kept_values_read_back(d4, watermark_key(id), decimal(ts as int), sync);
    kept_values_read_back(d4, watermark_key(id), decimal(ts as int), "relay_device_count"@);
    kept_values_read_back(d4, watermark_key(id), decimal(ts as int), "relay_last_sync"@);
    watermarks_never_go_back(d4, id, ts as int);
    assert(final(db)@.instances == d2.instances);
    if forall|i: int| 0 <= i < final(db)@.instances.len() ==> (#[trigger] final(db)@.instances[i]).origin_device_id is None {
        lemma_no_devices(d2.instances, d2.instances.len() as int);
    }
}

proof fn lemma_no_devices(rows: Seq<InstanceV>, n: int)
    requires
        0 <= n <= rows.len(),
        forall|i: int| 0 <= i < rows.len() ==> (#[trigger] rows[i]).origin_device_id is None,
    ensures
        crate::devices::device_count(rows, n) == 0,
    decreases n,
{
    if n > 0 {
        lemma_no_devices(rows, n - 1);
        assert(rows[n - 1].origin_device_id is None);
    }
}

proof fn lemma_last_reset(events: Seq<EventV>, n: int, k: int)
    requires
        0 <= k < n <= events.len(),
        crate::devices::is_local_reset(events[k]),
        forall|j: int| k < j < n ==> !crate::devices::is_local_reset(#[trigger] events[j]),
    ensures
        crate::devices::last_reset(events, n) == Some(events[k].timestamp),
    decreases n,
{
    if k < n - 1 {
        assert(!crate::devices::is_local_reset(events[n - 1]));
        lemma_last_reset(events, n - 1, k);
    }
}

/// The last reset that counts is the latest one on the log that this device logged of itself.
pub proof fn the_latest_reset_counts(db: HcomDb, r: Option<i64>, k: int)
    requires
        call_ensures(HcomDb::last_logged_reset, (&db,), r),
        0 <= k < db@.events.len(),
        db@.events[k].kind == "life"@ && db@.events[k].instance == "_device"@ && member(db@.events[k].data, "action"@) == Some(JsonV::Text("reset"@)) && member(db@.events[k].data, "_relay"@) is None,
        forall|j: int| k < j < db@.events.len() ==> (#[trigger] db@.events[j]).kind != "life"@ || db@.events[j].instance != "_device"@,
    ensures
        crate::times::instant_seconds(db@.events[k].timestamp) > 0 ==> (r matches Some(n) && n == crate::times::instant_seconds(db@.events[k].timestamp)),
        crate::times::instant_seconds(db@.events[k].timestamp) <= 0 ==> r is None,
{
    lemma_last_reset(db@.events, db@.events.len() as int, k);
}

/// Whether a delivery stands where the last step of it on the log brought it, or waits as it was sent
/// where no step of it is there.
pub open spec fn stands_as_logged(db: DbV, key: DeliveryKeyV, row: DeliveryV) -> bool {
    match crate::cleanup::last_move(db.events, key, db.events.len() as int) {
        Some(i) => {
            let e = db.events[i];
            &&& crate::columns::column(member(e.data, "new_state"@)) == ColumnV::Text(row.state)
            &&& crate::columns::column(member(e.data, "endpoint_epoch"@)) == ColumnV::Text(row.endpoint_epoch)
            &&& crate::columns::column(member(e.data, "actor"@)) == ColumnV::Text(row.last_actor)
            &&& row.state_event_id == Some(e.id) && row.updated_at == e.timestamp
        },
        None => db.record(key.message_id) matches Some(r) ==> row.state == "queued"@ && row.state_event_id == Some(r.event_id) && row.last_actor == r.sender_name && row.updated_at == r.created_at,
    }
}

proof fn lemma_same_place(db: DbV, d: DbV, message_id: Seq<char>, recipient: Seq<char>)
    requires
        d.deliveries.len() == db.deliveries.len(),
        forall|i: int| 0 <= i < db.deliveries.len() ==> (#[trigger] d.deliveries[i]).message_id == db.deliveries[i].message_id && d.deliveries[i].recipient_name == db.deliveries[i].recipient_name,
    ensures
        d.delivery_pos(message_id, recipient) == db.delivery_pos(message_id, recipient),
{
    let p = delivery_of(db.deliveries, message_id, recipient);
    let q = delivery_of(d.deliveries, message_id, recipient);
    let n = db.deliveries.len() as int;
    assert forall|i: int| 0 <= i < n implies #[trigger] p(i) == q(i) by {
        assert(d.deliveries[i].message_id == db.deliveries[i].message_id);
    }
    first_where_agrees(n, p, q);
}

proof fn lemma_rebuilt_row(db: DbV, keys: Seq<DeliveryKeyV>, n: int, key: DeliveryKeyV, k: int)
    requires
        0 <= n <= keys.len(),
        db.delivery_pos(key.message_id, key.recipient) == Some(k),
        exists|q: int| 0 <= q < n && #[trigger] keys[q] == key,
    ensures
        all_rebuilt(db, keys, n) matches Ok(d) ==> stands_as_logged(db, key, d.deliveries[k]),
    decreases n,
{
    lemma_rebuilt(db, keys, n - 1);
    crate::invariants::lemma_delivery_pos(db, key.message_id, key.recipient);
    if let Ok(d) = all_rebuilt(db, keys, n - 1) {
        let at = keys[n - 1];
        lemma_same_place(db, d, at.message_id, at.recipient);
        if at != key {
            let q = choose|q: int| 0 <= q < n && #[trigger] keys[q] == key;
            assert(0 <= q < n - 1 && keys[q] == key);
            lemma_rebuilt_row(db, keys, n - 1, key, k);
            crate::invariants::lemma_delivery_pos(db, at.message_id, at.recipient);
            if let Ok(d2) = rebuilt(d, at) {
                if let Some(j) = db.delivery_pos(at.message_id, at.recipient) {
                    assert(j != k);
                }
                assert(d2.deliveries[k] == d.deliveries[k]);
            }
        } else {
            assert(d.record(key.message_id) == db.record(key.message_id));
        }
    }
}

proof fn lemma_moved_key(db: DbV, device_id: Seq<char>, n: int, m: int, key: DeliveryKeyV)
    requires
        0 <= m < n <= db.events.len(),
        crate::cleanup::is_transition(db.events[m]) && imported_from(db.events[m], device_id),
        member(db.events[m].data, "message_id"@) == Some(JsonV::Text(key.message_id)),
        member(db.events[m].data, "recipient"@) == Some(JsonV::Text(key.recipient)),
    ensures
        crate::cleanup::moved_keys(db, device_id, n) matches Ok(s) ==> s.contains(key),
    decreases n,
{
    if let Ok(s) = crate::cleanup::moved_keys(db, device_id, n) {
        let t = crate::cleanup::moved_keys(db, device_id, n - 1)->Ok_0;
        if m == n - 1 {
            assert(s.last() == key);
        } else {
            lemma_moved_key(db, device_id, n - 1, m, key);
            let q = choose|q: int| 0 <= q < t.len() && t[q] == key;
            assert(s[q] == key);
        }
    }
}

proof fn lemma_answered_keep(db: DbV, device_id: Seq<char>, first: Seq<DeliveryKeyV>, n: int, key: DeliveryKeyV)
    requires
        first.contains(key),
    ensures
        crate::cleanup::answered_keys(db, device_id, first, n) matches Ok(s) ==> s.contains(key),
    decreases n,
{
    if n > 0 {
        lemma_answered_keep(db, device_id, first, n - 1, key);
        if let Ok(s) = crate::cleanup::answered_keys(db, device_id, first, n) {
            let t = crate::cleanup::answered_keys(db, device_id, first, n - 1)->Ok_0;
            let q = choose|q: int| 0 <= q < t.len() && t[q] == key;
            assert(s[q] == key);
        }
    }
}

proof fn lemma_no_moves(events: Seq<EventV>, key: DeliveryKeyV, n: int)
    requires
        0 <= n <= events.len(),
        forall|j: int| 0 <= j < n ==> !crate::cleanup::moves(#[trigger] events[j], key),
    ensures
        crate::cleanup::last_move(events, key, n) is None,
    decreases n,
{
    if n > 0 {
        lemma_no_moves(events, key, n - 1);
        assert(!crate::cleanup::moves(events[n - 1], key));
    }
}

proof fn lemma_the_last_move(events: Seq<EventV>, key: DeliveryKeyV, n: int, i: int)
    requires
        0 <= i < n <= events.len(),
        crate::cleanup::moves(events[i], key),
        forall|j: int| i < j < n ==> !crate::cleanup::moves(#[trigger] events[j], key),
    ensures
        crate::cleanup::last_move(events, key, n) == Some(i),
    decreases n,
{
    if i < n - 1 {
        assert(!crate::cleanup::moves(events[n - 1], key));
        lemma_the_last_move(events, key, n - 1, i);
    }
}

/// Forgetting a device takes back the steps that it reported: a delivery that it had moved stands again
/// where the last step that is left on the log brought it, and waits again where no step is left.
pub proof fn forgotten_steps_are_taken_back(db: &mut HcomDb, device_id: &str, m: int, id: Seq<char>, t: Seq<char>, i: int)
    requires
        call_ensures(HcomDb::cleanup_imported_events_for_device, (db, device_id), Ok::<(), LifecycleError>(())),
        0 <= m < old(db)@.events.len(),
        old(db)@.events[m].kind == "message_state"@ && member(old(db)@.events[m].data, "protocol"@) == Some(JsonV::Text("hcom-message/v1"@)),
        member(old(db)@.events[m].data, "_relay"@) matches Some(relay) && member(relay, "device"@) == Some(JsonV::Text(device_id@)),
        member(old(db)@.events[m].data, "message_id"@) == Some(JsonV::Text(id)) && member(old(db)@.events[m].data, "recipient"@) == Some(JsonV::Text(t)),
        final(db)@.delivery(id, t) is Some,
    ensures
        ({
            let row = final(db)@.delivery(id, t)->0;
            let key = DeliveryKeyV { message_id: id, recipient: t };
            &&& (forall|j: int| 0 <= j < final(db)@.events.len() ==> !crate::cleanup::moves(#[trigger] final(db)@.events[j], key)) && final(db)@.record(id) is Some ==> row.state == "queued"@ && row.last_actor == final(db)@.record(id)->0.sender_name && row.state_event_id == Some(final(db)@.record(id)->0.event_id) && row.updated_at == final(db)@.record(id)->0.created_at
            &&& 0 <= i < final(db)@.events.len() && crate::cleanup::moves(final(db)@.events[i], key) && (forall|j: int| i < j < final(db)@.events.len() ==> !crate::cleanup::moves(#[trigger] final(db)@.events[j], key)) ==> {
                let e = final(db)@.events[i];
                &&& member_text(e.data, "new_state"@) matches Some(s) ==> row.state == s
                &&& member_text(e.data, "actor"@) matches Some(s) ==> row.last_actor == s
                &&& member_text(e.data, "endpoint_epoch"@) matches Some(s) ==> row.endpoint_epoch == s
                &&& row.state_event_id == Some(e.id) && row.updated_at == e.timestamp
            }
        }),
{
    let start = old(db)@;
    let key = DeliveryKeyV { message_id: id, recipient: t };
    let d = final(db)@;
    let p = purged(start, device_id@);
    let first = crate::cleanup::moved_keys(start, device_id@, start.events.len() as int)->Ok_0;
    lemma_moved_key(start, device_id@, start.events.len() as int, m, key);
    lemma_answered_keep(start, device_id@, first, start.records.len() as int, key);
    let keys = crate::cleanup::answered_keys(start, device_id@, first, start.records.len() as int)->Ok_0;
    let n = keys.len() as int;
    lemma_rebuilt(p, keys, n);
    lemma_same_place(p, d, id, t);
    let q = choose|q: int| 0 <= q < keys.len() && keys[q] == key;
    assert(0 <= q < n && keys[q] == key);
    let k = d.delivery_pos(id, t)->0;
    lemma_rebuilt_row(p, keys, n, key, k);
    assert(d.events == p.events && d.record(id) == p.record(id));
    let count = d.events.len() as int;
    if forall|j: int| 0 <= j < count ==> !crate::cleanup::moves(#[trigger] d.events[j], key) {
        lemma_no_moves(d.events, key, count);
    }
    if 0 <= i < count && crate::cleanup::moves(d.events[i], key) && (forall|j: int| i < j < count ==> !crate::cleanup::moves(#[trigger] d.events[j], key)) {
        lemma_the_last_move(d.events, key, count, i);
    }
}

/// An event logs a step of a delivery where it is a step in the message protocol that names the message
/// and the recipient.
pub proof fn steps_name_message_and_recipient(e: EventV, id: Seq<char>, t: Seq<char>)
    ensures
        e.kind == "message_state"@ && member(e.data, "protocol"@) == Some(JsonV::Text("hcom-message/v1"@)) && member(e.data, "message_id"@) == Some(JsonV::Text(id)) && member(e.data, "recipient"@) == Some(JsonV::Text(t)) ==> crate::cleanup::moves(e, (DeliveryKeyV { message_id: id, recipient: t })),
        e.kind != "message_state"@ || member(e.data, "protocol"@) is None || member(e.data, "message_id"@) is None || member(e.data, "recipient"@) is None ==> !crate::cleanup::moves(e, (DeliveryKeyV { message_id: id, recipient: t })),
{
}

/// Forgetting a device takes every event of it from the log and no other, every message of it, and every
/// delivery of such a message.
pub proof fn forgotten_devices_leave_no_trace(db: &mut HcomDb, device_id: &str, r: Result<(), LifecycleError>, e: EventV, k: int)
    requires
        call_ensures(HcomDb::cleanup_imported_events_for_device, (db, device_id), r),
        member(e.data, "_relay"@) is None || (member(e.data, "_relay"@) matches Some(m) && member(m, "device"@) == Some(JsonV::Text(device_id@))),
    ensures
        r is Err ==> final(db)@ == old(db)@,
        r is Ok && member(e.data, "_relay"@) is None && old(db)@.events.contains(e) ==> final(db)@.events.contains(e),
        r is Ok && member(e.data, "_relay"@) is Some ==> !final(db)@.events.contains(e),
        r is Ok && 0 <= k < final(db)@.records.len() ==> old(db)@.records.contains(final(db)@.records[k]) && !(old(db)@.event(final(db)@.records[k].event_id) matches Some(x) && imported_from(x, device_id@)),
        r is Ok ==> final(db)@.instances == old(db)@.instances && final(db)@.kv == old(db)@.kv,
{
    if r is Ok {
        let start = old(db)@;
        forgotten_events_are_gone(start, device_id@, e);
        let first = crate::cleanup::moved_keys(start, device_id@, start.events.len() as int)->Ok_0;
        let keys = crate::cleanup::answered_keys(start, device_id@, first, start.records.len() as int)->Ok_0;
        lemma_rebuilt(purged(start, device_id@), keys, keys.len() as int);
        let keep = |x: RecordV| !record_from(start, x, device_id@);
        lemma_filter_holds(start.records, keep);
        if 0 <= k < final(db)@.records.len() {
            assert(final(db)@.records == start.records.filter(keep));
            assert(keep(final(db)@.records[k]));
        }
    }
}

/// A device that has started over is forgotten, and from when on its word counts is kept, with nothing
/// of its log read yet.
pub proof fn reset_devices_begin_anew(db: &mut HcomDb, device_id: &str, stamp: &str, r: bool, i: InstanceV)
    requires
        call_ensures(HcomDb::reset_device, (db, device_id, stamp), r),
    ensures
        !r ==> final(db)@ == old(db)@,
        r ==> final(db)@.kv_value("relay_reset_"@ + device_id@) == Some(stamp@),
        r ==> final(db)@.kv_value("relay_events_"@ + device_id@) == Some("0"@),
        r && final(db)@.instances.contains(i) ==> i.origin_device_id != Some(device_id@),
        r ==> cleaned(old(db)@, device_id@) is Ok,
{
    if r {
        let id = device_id@;
        let d = cleaned(old(db)@, id)->Ok_0;
        let d1 = without_device(d, id);
        removed_instances_are_gone(d, id, i);
        reveal_strlit("relay_reset_");
        reveal_strlit("relay_events_");
        assert("relay_reset_"@[6] == 'r' && "relay_events_"@[6] == 'e' && "relay_reset_"@.len() == 12 && "relay_events_"@.len() == 13);
        lemma_keys_differ("relay_reset_"@, id, "relay_events_"@, id, 6);
        kept_values_read_back(d1, "relay_reset_"@ + id, stamp@, cursor_key(id));
        let d2 = kv_put(d1, "relay_reset_"@ + id, Some(stamp@));
        kept_values_read_back(d2, cursor_key(id), "0"@, "relay_reset_"@ + id);
    }
}

/// A state that is taken up leaves its device known by its short id, and what the state says that the
/// device can do kept as a list.
pub proof fn taken_up_states_make_the_device_known(db: &mut HcomDb, m: StateMessage<'_>, r: StateStep, state: JsonV, short_id: String)
    requires
        call_ensures(HcomDb::handle_state_message, (db, &m), r),
        m.reset_key <= m.known_reset_key && m.local_reset_found is None,
        member(m.data@, "state"@) == Some(state) && !(state is Null),
        r matches StateStep::Applied { short_id: s, .. } && s@ == short_id@,
    ensures
        final(db)@.kv_value("relay_uuid_short_"@ + m.device_id@) == Some(short_id@),
        final(db)@.kv_value("relay_short_"@ + short_id@) == Some(m.device_id@),
        member(state, "capabilities"@) matches Some(JsonV::Array(vs)) ==> final(db)@.kv_value("relay_caps_"@ + m.device_id@) == Some(crate::columns::json_text(JsonV::Array(vs))),
        member(state, "capabilities"@) is None ==> final(db)@.kv_value("relay_caps_"@ + m.device_id@) == Some("null"@),
{
    let start = old(db)@;
    let g = snapshot_in(m@, short_id@).greeting;
    let met = arrived(start, g);
    assert(final(db)@.kv == met.kv) by {
        lemma_put_keeps_keys(met, g.device_id, crate::devices::brought(snapshot_in(m@, short_id@).entries, short_id@, m.default_tool@, m.local_reset, snapshot_in(m@, short_id@).entries.len() as int), crate::devices::brought(snapshot_in(m@, short_id@).entries, short_id@, m.default_tool@, m.local_reset, snapshot_in(m@, short_id@).entries.len() as int).len() as int);
    }
    lemma_arrived_keys(start, g);
}

proof fn lemma_put_keeps_keys(db: DbV, device_id: Seq<char>, rs: Seq<RemoteInstanceV>, n: int)
    ensures
        instances_put(db, device_id, rs, n).kv == db.kv,
    decreases n,
{
    if n > 0 {
        lemma_put_keeps_keys(db, device_id, rs, n - 1);
    }
}

proof fn lemma_arrived_keys(start: DbV, g: GreetingV)
    requires
        !short_id_taken(start, g),
    ensures
        arrived(start, g).kv_value("relay_short_"@ + g.short_id) == Some(g.device_id),
        arrived(start, g).kv_value("relay_uuid_short_"@ + g.device_id) == Some(g.short_id),
        arrived(start, g).kv_value("relay_caps_"@ + g.device_id) == Some(match g.capabilities { Some(s) => s, None => "null"@ }),
{
    let key = "relay_short_"@ + g.short_id;
    let uuid = "relay_uuid_short_"@ + g.device_id;
    let caps = "relay_caps_"@ + g.device_id;
    lemma_prefixes();
    lemma_keys_differ("relay_short_"@, g.short_id, "relay_uuid_short_"@, g.device_id, 6);
    lemma_keys_differ("relay_short_"@, g.short_id, "relay_caps_"@, g.device_id, 6);
    lemma_keys_differ("relay_uuid_short_"@, g.device_id, "relay_caps_"@, g.device_id, 6);
    kept_values_read_back(start, key, g.device_id, key);
    let joined = kv_put(start, key, Some(g.device_id));
    let d = match start.kv_value(key) {
        Some(_) => if g.returning {
            device_event_logged(start, g.action, g.short_id, g.prefix, "device "@ + g.short_id + " reconnected"@, true, g.now)
        } else {
            start
        },
        None => device_event_logged(joined, g.action, g.short_id, g.prefix, "new device "@ + g.short_id + " joined the relay"@, false, g.now),
    };
    let d1 = kv_put(d, uuid, Some(g.short_id));
    let what = match g.capabilities { Some(s) => s, None => "null"@ };
    kept_values_read_back(d, uuid, g.short_id, key);
    kept_values_read_back(d1, caps, what, key);
    kept_values_read_back(d1, caps, what, uuid);
}

/// An event whose place in the log of its device another event has is refused, and so is one of the
/// protocol that is neither a message nor a step.
pub proof fn colliding_and_unknown_events_are_refused(db: &mut HcomDb, route: Route<'_>, id: i64, timestamp: &str, p: PreparedEvent, attachments: Attachments, r: Result<RelayV1Import, LifecycleError>, k: int)
    requires
        call_ensures(HcomDb::import_relay_v1_event, (db, &route, id, timestamp, &p, &attachments), r),
    ensures
        0 <= k < old(db)@.events.len() && first_where(old(db)@.events.len() as int, import_of(old(db)@.events, route.device_id@, id as int)) == Some(k) && (old(db)@.events[k].kind != p.kind@ || old(db)@.events[k].instance != p.instance@ || old(db)@.events[k].timestamp != timestamp@) ==> (r matches Ok(RelayV1Import::Rejected(w)) && w@ == "remote event identity collision device="@ + route.device_id@ + " id="@ + decimal(id as int)) && final(db)@ == old(db)@,
        first_where(old(db)@.events.len() as int, import_of(old(db)@.events, route.device_id@, id as int)) is None && p.kind@ != "message"@ && p.kind@ != "message_state"@ && old(db)@.sequence < i64::MAX ==> (r matches Ok(RelayV1Import::Rejected(w)) && w@ == "unsupported protocol-aware relay event"@) && final(db)@ == old(db)@,
{
}

/// An instance that is new here is put in as one of the device, with nothing read yet; one that is known
/// keeps how far it has read and where it lives.
pub proof fn new_instances_belong_to_the_device(db: &mut HcomDb, device_id: &str, rs: Vec<RemoteInstance>, r: RemoteInstance, i: int)
    requires
        call_ensures(HcomDb::take_over_instances, (db, device_id, &rs), ()),
        rs@ == seq![r],
    ensures
        old(db)@.instance_pos(r.name@) is None ==> final(db)@.instances.contains(InstanceV { name: r.name@, endpoint_epoch: r.endpoint_epoch@, last_event_id: 0, origin_device_id: Some(device_id@) }),
        old(db)@.instance_pos(r.name@) == Some(i) ==> final(db)@.instances.contains(InstanceV { name: old(db)@.instances[i].name, endpoint_epoch: r.endpoint_epoch@, last_event_id: old(db)@.instances[i].last_event_id, origin_device_id: old(db)@.instances[i].origin_device_id }),
{
    let start = old(db)@;
    let vs = crate::rows::views(rs@);
    assert(vs.len() == 1 && vs[0] == r@);
    reveal_with_fuel(instances_put, 2);
    let d = instance_put(start, device_id@, vs[0]);
    assert(instances_put(start, device_id@, vs, 1) == d);
    let keep = |x: InstanceV| x.origin_device_id != Some(device_id@) || crate::devices::names_one(vs, x.name);
    lemma_filter_holds(d.instances, keep);
    first_where_is_least(start.instances.len() as int, instance_named(start.instances, r.name@));
    let at: int = match start.instance_pos(r.name@) { Some(k) => k, None => start.instances.len() as int };
    assert(d.instances[at].name == vs[0].name);
    assert(crate::devices::names_one(vs, d.instances[at].name));
    assert(keep(d.instances[at]));
    assert(d.instances.filter(keep).contains(d.instances[at]));
}

proof fn lemma_one_device(rows: Seq<InstanceV>, n: int, origin: Seq<char>)
    requires
        0 <= n <= rows.len(),
        origin.len() > 0,
        forall|i: int| 0 <= i < rows.len() ==> (#[trigger] rows[i]).origin_device_id is None || rows[i].origin_device_id == Some(origin),
    ensures
        crate::devices::device_count(rows, n) == (if exists|i: int| 0 <= i < n && (#[trigger] rows[i]).origin_device_id == Some(origin) { 1int } else { 0 }),
    decreases n,
{
    if n > 0 {
        lemma_one_device(rows, n - 1, origin);
        assert(rows[n - 1].origin_device_id is None || rows[n - 1].origin_device_id == Some(origin));
    }
}

/// Instances of one device count as one device.
pub proof fn one_device_counts_once(db: &mut HcomDb, route: Route<'_>, events: Vec<RemoteEvent>, reset: ResetMark, now: &str, ts: u64, origin: Seq<char>, k: int)
    requires
        call_ensures(HcomDb::finish_state, (db, &route, &events, &reset, now, ts), ()),
        origin.len() > 0,
        forall|i: int| 0 <= i < final(db)@.instances.len() ==> (#[trigger] final(db)@.instances[i]).origin_device_id is None || final(db)@.instances[i].origin_device_id == Some(origin),
        0 <= k < final(db)@.instances.len() && final(db)@.instances[k].origin_device_id == Some(origin),
    ensures
        final(db)@.kv_value("relay_device_count"@) == Some(decimal(1)),
{
    let id = route.device_id@;
    lemma_prefixes();
    let d1 = events_imported(old(db)@, route@, crate::rows::views(events@), reset);
    let d2 = kv_put(d1, "relay_sync_time_"@ + id, Some(now@));
    let d3 = kv_put(d2, "relay_device_count"@, Some(decimal(crate::devices::device_count(d2.instances, d2.instances.len() as int))));
    let d4 = kv_put(d3, "relay_last_sync"@, Some(now@));
    assert(final(db)@.instances == d2.instances);
    lemma_one_device(d2.instances, d2.instances.len() as int, origin);
    let none = Seq::<char>::empty();
    assert("relay_device_count"@ + none =~= "relay_device_count"@ && "relay_last_sync"@ + none =~= "relay_last_sync"@);
    lemma_keys_differ("relay_device_count"@, none, "relay_last_sync"@, none, 6);
    lemma_keys_differ("relay_state_ts_"@, id, "relay_device_count"@, none, 6);
    kept_values_read_back(d2, "relay_device_count"@, decimal(1), "relay_device_count"@);
    kept_values_read_back(d3, "relay_last_sync"@, now@, "relay_device_count"@);
    kept_values_read_back(d4, watermark_key(id), decimal(ts as int), "relay_device_count"@);
}

/// The short id of a device is the one that is remembered for it; else that of the first entry that maps
/// one to it; a device that no entry knows has none.
pub proof fn short_ids_are_remembered(db: HcomDb, device_id: &str, r: Option<String>, k: int)
    requires
        call_ensures(HcomDb::resolve_short_id, (&db, device_id), r),
    ensures
        db@.kv_value("relay_uuid_short_"@ + device_id@) matches Some(s) ==> (r matches Some(t) && t@ == s),
        db@.kv_value("relay_uuid_short_"@ + device_id@) is None && (forall|j: int| 0 <= j < db@.kv.len() ==> (#[trigger] db@.kv[j]).value != device_id@) ==> r is None,
        db@.kv_value("relay_uuid_short_"@ + device_id@) is None && 0 <= k < db@.kv.len() && db@.kv[k].value == device_id@ && "relay_short_"@.is_prefix_of(db@.kv[k].key) && !"relay_short_"@.is_prefix_of(db@.kv[k].key.skip(12)) && (forall|j: int| 0 <= j < k ==> (#[trigger] db@.kv[j]).value != device_id@) ==> (r matches Some(t) && "relay_short_"@ + t@ == db@.kv[k].key),
{
    let p = crate::devices::short_id_entry(db@.kv, device_id@);
    let n = db@.kv.len() as int;
    first_where_is_least(n, p);
    lemma_prefixes();
    if let Some(j) = first_where(n, p) {
        assert(p(j));
    }
    if 0 <= k < n && db@.kv[k].value == device_id@ && "relay_short_"@.is_prefix_of(db@.kv[k].key) && (forall|j: int| 0 <= j < k ==> (#[trigger] db@.kv[j]).value != device_id@) {
        assert(p(k));
        assert forall|j: int| 0 <= j < k implies !#[trigger] p(j) by {
            assert(db@.kv[j].value != device_id@);
        }
        first_where_found(n, p, k);
        reveal_with_fuel(crate::text::after_prefixes, 2);
        assert("relay_short_"@ + db@.kv[k].key.skip(12) =~= db@.kv[k].key);
    }
}

/// Two events that another device sends after the last one that was seen of it are put on the log one
/// after the other, and the later one is then the last one seen.
pub proof fn events_are_taken_in_one_after_the_other(db: &mut HcomDb, route: Route<'_>, events: Vec<RemoteEvent>, reset: ResetMark, p: PreparedEvent, q: PreparedEvent, a: i64, b: i64)
    requires
        call_ensures(HcomDb::import_remote_events, (db, &route, &events, &reset), ()),
        events@.len() == 2 && reset.key <= 0,
        call_ensures(HcomDb::prepare_remote_event, (&*old(db), &events@[0].body, &route, a), p),
        call_ensures(HcomDb::prepare_remote_event, (&*old(db), &events@[1].body, &route, b), q),
        member_int(events@[0].body@, "id"@) == Some(a as int) && member_int(events@[1].body@, "id"@) == Some(b as int),
        p.kind@ != "message"@ && p.kind@ != "message_state"@ && q.kind@ != "message"@ && q.kind@ != "message_state"@,
        member_text(events@[0].body@, "type"@) != Some("control"@) && member_text(events@[0].body@, "instance"@) != Some("_device"@),
        member_text(events@[1].body@, "type"@) != Some("control"@) && member_text(events@[1].body@, "instance"@) != Some("_device"@),
        0 <= seen_up_to(old(db)@, route.device_id@) < a < b,
        old(db)@.sequence + 2 <= i64::MAX,
    ensures
        final(db)@.events.len() == old(db)@.events.len() + 2,
        ({
            let e = final(db)@.events[old(db)@.events.len() as int];
            e.kind == p.kind@ && e.instance == p.instance@ && e.data == p.data@ && e.id == old(db)@.sequence + 1
        }),
        ({
            let e = final(db)@.events[old(db)@.events.len() as int + 1];
            e.kind == q.kind@ && e.instance == q.instance@ && e.data == q.data@ && e.id == old(db)@.sequence + 2
        }),
        final(db)@.kv_value("relay_events_"@ + route.device_id@) == Some(decimal(b as int)),
{
    let start = old(db)@;
    let es = crate::rows::views(events@);
    assert(es.len() == 2 && es[0] == events@[0]@ && es[1] == events@[1]@);
    let last = seen_up_to(start, route.device_id@);
    reveal_with_fuel(crate::sync::highest_id, 3);
    reveal_with_fuel(all_taken_in, 3);
    assert(crate::sync::highest_id(es, 1) == Some(a as int));
    assert(crate::sync::highest_id(es, 2) == Some(b as int));
    assert(!ids_regressed(es, last));
    assert(!protocol_aware(p.kind@, p.data@) && !protocol_aware(q.kind@, q.data@));
    let s0 = all_taken_in(start, es, route@, reset, last, 0);
    let s1 = all_taken_in(start, es, route@, reset, last, 1);
    let s2 = all_taken_in(start, es, route@, reset, last, 2);
    assert(s0 == (crate::sync::ProgressV { db: start, newest: last, stopped: false }));
    assert(s1.newest == a && !s1.stopped && s1.db.records == start.records);
    lemma_prepared_alike(start, s1.db, es[1].body, route@, b as int);
    assert(s2.newest == b);
    kept_values_read_back(s2.db, cursor_key(route.device_id@), decimal(s2.newest), cursor_key(route.device_id@));
}

proof fn lemma_prepared_alike(db: DbV, d: DbV, event: JsonV, route: RouteV, id: int)
    requires
        d.records == db.records,
    ensures
        prepared(d, event, route, id) == prepared(db, event, route, id),
{
    assert forall|x: Seq<char>| d.record(x) == db.record(x) by {}
}

} // verus!
