//! The lifecycle of messages.

use hcom::json::{Json, Member};
use hcom::lifecycle::{MessagePersistInput, MessagePersistResult};
use hcom::store::{
    Delivery, ErrorKind, HcomDb, Instance, LifecycleError, MESSAGE_PROTOCOL_V1, RequestWatch,
};

const NOW: &str = "2026-01-02T03:04:05Z";

fn setup() -> HcomDb {
    let mut instances = Vec::new();
    for (name, epoch) in
        [("alice", "epoch-alice"), ("bob", "epoch-bob"), ("carol", "epoch-carol")]
    {
        instances.push(Instance {
            name: name.to_string(),
            endpoint_epoch: epoch.to_string(),
            last_event_id: 0,
            origin_device_id: None,
        });
    }
    HcomDb {
        instances,
        events: Vec::new(),
        sequence: 0,
        records: Vec::new(),
        deliveries: Vec::new(),
        watches: Vec::new(),
        kv: Vec::new(),
        notifications: Vec::new(),
    }
}

fn ids(values: &[&str]) -> Vec<String> {
    values.iter().map(|value| value.to_string()).collect()
}

fn list(values: &[&str]) -> Json {
    Json::Array(values.iter().map(|value| Json::text(value)).collect())
}

fn members(values: Vec<(&str, Json)>) -> Vec<Member> {
    values.into_iter().map(|(key, value)| Member { key: key.to_string(), value }).collect()
}

#[allow(clippy::too_many_arguments)]
fn persist(
    db: &mut HcomDb,
    message_id: &str,
    sender: &str,
    recipients: &[&str],
    intent: Option<&str>,
    expects_reply: bool,
    correlation_id: &str,
    in_reply_to: Option<&str>,
    legacy_reply_to: Option<&str>,
    delivery_endpoint: &str,
    reply_endpoint: Option<&str>,
    supersedes: Option<&str>,
    retry_of: Option<&str>,
) -> Result<MessagePersistResult, LifecycleError> {
    let mut data = members(vec![
        ("protocol", Json::text(MESSAGE_PROTOCOL_V1)),
        ("message_id", Json::text(message_id)),
        ("correlation_id", Json::text(correlation_id)),
        ("from", Json::text(sender)),
        ("sender_kind", Json::text("instance")),
        ("scope", Json::text("mentions")),
        ("mentions", list(recipients)),
        ("delivered_to", list(recipients)),
        ("text", Json::text(&format!("text-{message_id}"))),
        ("intent", Json::opt_text(intent)),
        ("expects_reply", Json::Bool(expects_reply)),
        ("delivery_endpoint", Json::text(delivery_endpoint)),
    ]);
    // A request that expects a reply is one that its sender waits for.
    if intent == Some("request") && expects_reply {
        data.extend(members(vec![("reply_mode", Json::text("wait"))]));
    }
    if let Some(value) = in_reply_to {
        data.extend(members(vec![("in_reply_to", Json::text(value))]));
    }
    if let Some(value) = legacy_reply_to {
        data.extend(members(vec![("reply_to", Json::text(value))]));
        if let Ok(event_id) = value.parse::<i64>() {
            data.extend(members(vec![("reply_to_local", Json::Int(event_id))]));
        }
    }
    if let Some(value) = reply_endpoint {
        data.extend(members(vec![("reply_endpoint", Json::text(value))]));
    }
    if let Some(value) = supersedes {
        data.extend(members(vec![("supersedes", Json::text(value))]));
    }
    if let Some(value) = retry_of {
        data.extend(members(vec![("retry_of", Json::text(value))]));
    }
    db.persist_message_v1(
        &MessagePersistInput {
            routing_instance: sender,
            sender_name: sender,
            sender_session_id: None,
            data: &Json::Object(data),
            message_id,
            correlation_id,
            intent,
            expects_reply,
            in_reply_to,
            legacy_reply_to,
            reply_endpoint,
            delivery_endpoint,
            supersedes,
            retry_of,
            attachments_json: "[]",
            recipients: &ids(recipients),
        },
        NOW,
    )
}

fn state(db: &HcomDb, message_id: &str, recipient: &str) -> String {
    db.deliveries[db.find_delivery(message_id, recipient).unwrap()].state.clone()
}

fn object(values: Vec<(&str, Json)>) -> Json {
    Json::Object(members(values))
}

fn delivery_mut<'a>(db: &'a mut HcomDb, message_id: &str, recipient: &str) -> &'a mut Delivery {
    let at = db.find_delivery(message_id, recipient).unwrap();
    &mut db.deliveries[at]
}

fn cursor(db: &HcomDb, name: &str) -> i64 {
    db.instances[db.find_instance(name).unwrap()].last_event_id
}

fn rotate(db: &mut HcomDb, name: &str, epoch: &str) {
    let at = db.find_instance(name).unwrap();
    db.instances[at].endpoint_epoch = epoch.to_string();
}

/// The messages that wait unread in an inbox.
fn unread(db: &HcomDb, name: &str) -> Vec<String> {
    db.records
        .iter()
        .filter(|record| record.event_id > cursor(db, name))
        .filter(|record| db.projected_inbox_delivery(&record.message_id, name) == Some(true))
        .map(|record| record.message_id.clone())
        .collect()
}

#[test]
fn lifecycle_references_accept_authorized_local_event_ids_without_leaking() {
    let mut db = setup();
    let first = persist(
        &mut db,
        "stable-alpha",
        "alice",
        &["bob"],
        Some("request"),
        true,
        "stable-alpha",
        None,
        None,
        "inbox",
        Some("request:stable-alpha"),
        None,
        None,
    )
    .unwrap();
    let event_reference = first.event_id.to_string();

    assert_eq!(
        db.resolve_message_reference_v1("stable-alpha", "bob")
            .unwrap(),
        "stable-alpha"
    );
    assert_eq!(
        db.resolve_message_reference_v1(&event_reference, "alice")
            .unwrap(),
        "stable-alpha"
    );
    assert_eq!(
        db.resolve_message_reference_v1(&event_reference, "bob")
            .unwrap(),
        "stable-alpha"
    );
    assert_eq!(
        db.resolve_message_reference_v1(&event_reference, "carol")
            .unwrap_err()
            .message(),
        "message not found"
    );
    assert_eq!(
        db.resolve_message_reference_v1("missing", "bob")
            .unwrap_err()
            .message(),
        "message not found"
    );

    // An exact stable ID must never fall through to an unrelated local event.
    persist(
        &mut db,
        &event_reference,
        "alice",
        &["carol"],
        Some("inform"),
        false,
        &event_reference,
        None,
        None,
        "inbox",
        None,
        None,
        None,
    )
    .unwrap();
    assert_eq!(
        db.resolve_message_reference_v1(&event_reference, "bob")
            .unwrap_err()
            .message(),
        "message not found"
    );
    assert_eq!(
        db.resolve_message_reference_v1(&event_reference, "carol")
            .unwrap(),
        event_reference
    );
}

#[test]
fn pending_defaults_to_unresolved_inbound_oldest_first() {
    let mut db = setup();
    persist(
        &mut db,
        "request-1",
        "alice",
        &["bob"],
        Some("request"),
        true,
        "request-1",
        None,
        None,
        "inbox",
        Some("request:request-1"),
        None,
        None,
    )
    .unwrap();
    persist(
        &mut db,
        "request-2",
        "carol",
        &["bob"],
        Some("request"),
        true,
        "request-2",
        None,
        None,
        "inbox",
        Some("request:request-2"),
        None,
        None,
    )
    .unwrap();
    persist(
        &mut db,
        "outbound",
        "bob",
        &["alice"],
        Some("request"),
        true,
        "outbound",
        None,
        None,
        "inbox",
        Some("request:outbound"),
        None,
        None,
    )
    .unwrap();

    let pending = db.pending_messages_v1("bob").unwrap();
    let found: Vec<&str> = pending
        .iter()
        .filter_map(|row| row.message.get_text("message_id"))
        .collect();
    assert_eq!(found, ["request-1", "request-2"]);

    db.cancel_message_v1("request-1", "alice", NOW).unwrap();
    delivery_mut(&mut db, "request-2", "bob").state = "delivery_failed".to_string();
    assert!(db.pending_messages_v1("bob").unwrap().is_empty());
}

#[test]
fn reply_uses_stable_and_legacy_ids_finalizes_watch_and_claims_immediately() {
    let mut db = setup();
    let request = persist(
        &mut db,
        "request",
        "alice",
        &["bob"],
        Some("request"),
        true,
        "correlation",
        None,
        None,
        "inbox",
        Some("request:request"),
        None,
        None,
    )
    .unwrap();
    let watch_key = format!("events_sub:reqwatch-{}-bob", request.event_id);
    db.watches.push(RequestWatch {
        key: watch_key.clone(),
        request_id: request.event_id,
        target: Some("bob".to_string()),
    });
    let legacy = request.event_id.to_string();
    let reply = persist(
        &mut db,
        "reply",
        "bob",
        &["alice"],
        Some("ack"),
        false,
        "correlation",
        Some("request"),
        Some(&legacy),
        "request:request",
        None,
        None,
        None,
    )
    .unwrap();

    assert_eq!(state(&db, "request", "bob"), "replied");
    assert!(db.watches.iter().all(|watch| watch.key != watch_key));
    let inspection = db.inspect_message_v1("reply").unwrap();
    assert_eq!(inspection.message.get_text("message_id"), Some("reply"));
    assert_eq!(inspection.message.get_text("in_reply_to"), Some("request"));
    assert_eq!(inspection.message.get_text("reply_to"), Some(legacy.as_str()));
    assert_eq!(
        inspection.deliveries[0].delivery_endpoint,
        "request:request"
    );
    assert_eq!(reply.message_id, "reply");

    let claimed = db.claim_reply_v1("request", "alice", NOW).unwrap().unwrap();
    assert_eq!(claimed.message.get_text("message_id"), Some("reply"));
    assert_eq!(state(&db, "reply", "alice"), "acknowledged");
}

#[test]
fn invalid_reply_rolls_back_without_orphan_events_or_parent_transition() {
    let mut db = setup();
    let parent = persist(
        &mut db,
        "inform",
        "alice",
        &["bob"],
        Some("inform"),
        false,
        "inform",
        None,
        None,
        "inbox",
        None,
        None,
        None,
    )
    .unwrap();
    let before_events = db.get_last_event_id();
    let legacy = parent.event_id.to_string();
    let error = persist(
        &mut db,
        "invalid-reply",
        "bob",
        &["alice"],
        Some("ack"),
        false,
        "inform",
        Some("inform"),
        Some(&legacy),
        "request:inform",
        None,
        None,
        None,
    )
    .unwrap_err();
    assert!(error.message().contains("expects a reply"));
    assert_eq!(db.get_last_event_id(), before_events);
    assert_eq!(state(&db, "inform", "bob"), "queued");
    assert!(db.find_record("invalid-reply").is_none());

    let duplicate_error = persist(
        &mut db,
        "inform",
        "alice",
        &["bob"],
        Some("inform"),
        false,
        "inform",
        None,
        None,
        "inbox",
        None,
        None,
        None,
    )
    .unwrap_err();
    assert!(duplicate_error.message().contains("UNIQUE"));
    assert_eq!(db.get_last_event_id(), before_events);
    let duplicate_events = db
        .events
        .iter()
        .filter(|event| {
            event.kind == "message" && event.data.get_text("message_id") == Some("inform")
        })
        .count();
    assert_eq!(duplicate_events, 1);
}

#[test]
fn cancel_distinguishes_pre_and_post_acceptance() {
    let mut db = setup();
    for id in ["pre", "post"] {
        persist(
            &mut db,
            id,
            "alice",
            &["bob"],
            Some("request"),
            true,
            id,
            None,
            None,
            "inbox",
            Some(&format!("request:{id}")),
            None,
            None,
        )
        .unwrap();
    }
    db.cancel_message_v1("pre", "alice", NOW).unwrap();
    assert_eq!(state(&db, "pre", "bob"), "cancelled");

    db.record_delivery_receipt(
        "post",
        "bob",
        "bob",
        "epoch-bob",
        "accepted",
        "Pi accepted input", NOW,
    )
    .unwrap();
    db.cancel_message_v1("post", "alice", NOW).unwrap();
    assert_eq!(state(&db, "post", "bob"), "cancellation_requested");
}

#[test]
fn supersede_is_atomic_and_requires_identical_recipients() {
    let mut db = setup();
    persist(
        &mut db,
        "old",
        "alice",
        &["bob"],
        Some("request"),
        true,
        "correlation",
        None,
        None,
        "inbox",
        Some("request:old"),
        None,
        None,
    )
    .unwrap();
    let before = db.get_last_event_id();
    assert!(
        persist(
            &mut db,
            "bad-new",
            "alice",
            &["carol"],
            Some("request"),
            true,
            "correlation",
            None,
            None,
            "inbox",
            Some("request:bad-new"),
            Some("old"),
            None,
        )
        .is_err()
    );
    assert_eq!(db.get_last_event_id(), before);
    assert_eq!(state(&db, "old", "bob"), "queued");

    persist(
        &mut db,
        "new",
        "alice",
        &["bob"],
        Some("request"),
        true,
        "correlation",
        None,
        None,
        "inbox",
        Some("request:new"),
        Some("old"),
        None,
    )
    .unwrap();
    assert_eq!(state(&db, "old", "bob"), "superseded");
    assert_eq!(state(&db, "new", "bob"), "queued");
    let new = &db.records[db.find_record("new").unwrap()];
    assert_eq!(new.reply_endpoint.as_deref(), Some("request:new"));
}

#[test]
fn retry_lineage_increments_attempt_and_stale_receipts_fail_closed() {
    let mut db = setup();
    persist(
        &mut db,
        "attempt-1",
        "alice",
        &["bob"],
        Some("request"),
        true,
        "correlation",
        None,
        None,
        "inbox",
        Some("request:attempt-1"),
        None,
        None,
    )
    .unwrap();
    persist(
        &mut db,
        "attempt-2",
        "alice",
        &["bob"],
        Some("request"),
        true,
        "correlation",
        None,
        None,
        "inbox",
        Some("request:attempt-2"),
        None,
        Some("attempt-1"),
    )
    .unwrap();
    let third = persist(
        &mut db,
        "attempt-3",
        "alice",
        &["bob"],
        Some("request"),
        true,
        "correlation",
        None,
        None,
        "inbox",
        Some("request:attempt-3"),
        None,
        Some("attempt-2"),
    )
    .unwrap();
    assert_eq!(
        third
            .recipient_endpoint_epochs
            .iter()
            .find(|snapshot| snapshot.recipient == "bob")
            .map(|snapshot| snapshot.epoch.as_str()),
        Some("epoch-bob")
    );
    assert_eq!(
        db.inspect_message_v1("attempt-2").unwrap().deliveries[0].attempt,
        2
    );
    assert_eq!(
        db.inspect_message_v1("attempt-3").unwrap().deliveries[0].attempt,
        3
    );

    db.record_delivery_receipt(
        "attempt-3",
        "bob",
        "bob",
        "epoch-bob",
        "received",
        "endpoint received", NOW,
    )
    .unwrap();
    rotate(&mut db, "bob", "rotated");
    let error = db
        .record_delivery_receipt(
            "attempt-3",
            "bob",
            "bob",
            "epoch-bob",
            "accepted",
            "stale endpoint", NOW,
        )
        .unwrap_err();
    assert!(error.message().contains("stale endpoint epoch"));
    assert_eq!(state(&db, "attempt-3", "bob"), "received");
}

#[test]
fn replies_cannot_be_retried_or_superseded_in_v1() {
    let mut db = setup();
    let request = persist(
        &mut db,
        "reply-parent",
        "alice",
        &["bob"],
        Some("request"),
        true,
        "reply-correlation",
        None,
        None,
        "inbox",
        Some("request:reply-parent"),
        None,
        None,
    )
    .unwrap();
    let legacy = request.event_id.to_string();
    persist(
        &mut db,
        "reply-child",
        "bob",
        &["alice"],
        Some("ack"),
        false,
        "reply-correlation",
        Some("reply-parent"),
        Some(&legacy),
        "request:reply-parent",
        None,
        None,
        None,
    )
    .unwrap();

    let retry = persist(
        &mut db,
        "reply-retry",
        "bob",
        &["alice"],
        Some("ack"),
        false,
        "reply-correlation",
        None,
        None,
        "request:reply-parent",
        None,
        None,
        Some("reply-child"),
    )
    .unwrap_err();
    assert!(retry.message().contains("replies cannot be retried"));

    let supersede = persist(
        &mut db,
        "reply-replacement",
        "bob",
        &["alice"],
        Some("ack"),
        false,
        "reply-correlation",
        None,
        None,
        "request:reply-parent",
        None,
        Some("reply-child"),
        None,
    )
    .unwrap_err();
    assert!(
        supersede.message().contains("replies cannot be superseded")
    );
}

#[test]
fn sibling_retries_use_unique_attempts_across_correlation_recipient_lineage() {
    let mut db = setup();
    persist(
        &mut db,
        "sibling-original",
        "alice",
        &["bob"],
        Some("inform"),
        false,
        "sibling-correlation",
        None,
        None,
        "inbox",
        None,
        None,
        None,
    )
    .unwrap();
    persist(
        &mut db,
        "sibling-a",
        "alice",
        &["bob"],
        Some("inform"),
        false,
        "sibling-correlation",
        None,
        None,
        "inbox",
        None,
        None,
        Some("sibling-original"),
    )
    .unwrap();
    persist(
        &mut db,
        "sibling-b",
        "alice",
        &["bob"],
        Some("inform"),
        false,
        "sibling-correlation",
        None,
        None,
        "inbox",
        None,
        None,
        Some("sibling-original"),
    )
    .unwrap();

    assert_eq!(
        db.inspect_message_v1("sibling-a").unwrap().deliveries[0].attempt,
        2
    );
    assert_eq!(
        db.inspect_message_v1("sibling-b").unwrap().deliveries[0].attempt,
        3
    );
}

#[test]
fn replied_is_terminal_and_second_replacement_requires_an_active_transition() {
    let mut db = setup();
    let request = persist(
        &mut db,
        "mixed-original",
        "alice",
        &["bob", "carol"],
        Some("request"),
        true,
        "mixed-correlation",
        None,
        None,
        "inbox",
        Some("request:mixed-original"),
        None,
        None,
    )
    .unwrap();
    let legacy = request.event_id.to_string();
    persist(
        &mut db,
        "mixed-reply",
        "bob",
        &["alice"],
        Some("ack"),
        false,
        "mixed-correlation",
        Some("mixed-original"),
        Some(&legacy),
        "request:mixed-original",
        None,
        None,
        None,
    )
    .unwrap();

    let cancelled = db.cancel_message_v1("mixed-original", "alice", NOW).unwrap();
    assert_eq!(state(&db, "mixed-original", "bob"), "replied");
    assert_eq!(state(&db, "mixed-original", "carol"), "cancelled");
    let bob = cancelled.iter().find(|row| row.recipient == "bob").unwrap();
    assert_eq!(bob.state, "replied");
    assert!(!bob.changed);

    let terminal_supersede = persist(
        &mut db,
        "mixed-replacement",
        "alice",
        &["bob", "carol"],
        Some("request"),
        true,
        "mixed-correlation",
        None,
        None,
        "inbox",
        Some("request:mixed-replacement"),
        Some("mixed-original"),
        None,
    )
    .unwrap_err();
    assert!(
        terminal_supersede.message().contains("at least one active delivery transition")
    );
    assert_eq!(state(&db, "mixed-original", "bob"), "replied");
    assert_eq!(state(&db, "mixed-original", "carol"), "cancelled");
    let original = persist(
        &mut db,
        "replace-original",
        "alice",
        &["bob"],
        Some("inform"),
        false,
        "replace-correlation",
        None,
        None,
        "inbox",
        None,
        None,
        None,
    )
    .unwrap();
    persist(
        &mut db,
        "replace-first",
        "alice",
        &["bob"],
        Some("inform"),
        false,
        "replace-correlation",
        None,
        None,
        "inbox",
        None,
        Some("replace-original"),
        None,
    )
    .unwrap();
    assert_eq!(state(&db, "replace-original", "bob"), "superseded");
    let before_second = db.get_last_event_id();
    let second = persist(
        &mut db,
        "replace-second",
        "alice",
        &["bob"],
        Some("inform"),
        false,
        "replace-correlation",
        None,
        None,
        "inbox",
        None,
        Some("replace-original"),
        None,
    )
    .unwrap_err();
    assert!(
        second.message().contains("at least one active delivery transition")
    );
    assert_eq!(db.get_last_event_id(), before_second);
    assert!(db.inspect_message_v1("replace-second").is_err());
    assert!(original.event_id > 0);
}

#[test]
fn inbox_fetch_rebinds_only_queued_delivery_and_cancellation_becomes_advisory() {
    let mut db = setup();
    persist(
        &mut db,
        "fetch-message",
        "bob",
        &["alice"],
        Some("inform"),
        false,
        "fetch-message",
        None,
        None,
        "inbox",
        None,
        None,
        None,
    )
    .unwrap();
    rotate(&mut db, "alice", "epoch-alice-new");

    let claimed = db
        .claim_inbox_received("alice", &ids(&["fetch-message"]), NOW)
        .unwrap();
    assert!(claimed.contains(&"fetch-message".to_string()));
    let inspection = db.inspect_message_v1("fetch-message").unwrap();
    assert_eq!(inspection.deliveries[0].state, "received");
    assert_eq!(
        inspection.deliveries[0].endpoint_epoch,
        "epoch-alice-new"
    );
    let stale = db
        .record_delivery_receipt(
            "fetch-message",
            "alice",
            "alice",
            "epoch-alice",
            "accepted",
            "stale endpoint", NOW,
        )
        .unwrap_err();
    assert!(stale.message().contains("stale endpoint epoch"));

    db.cancel_message_v1("fetch-message", "bob", NOW).unwrap();
    assert_eq!(
        state(&db, "fetch-message", "alice"),
        "cancellation_requested"
    );
    assert_eq!(
        db.projected_inbox_delivery("fetch-message", "alice"),
        Some(true)
    );
}

#[test]
fn pi_recovery_rebinds_received_and_accepted_deliveries_after_endpoint_rotation() {
    let mut db = setup();
    let received = persist(
        &mut db,
        "recover-received",
        "bob",
        &["alice"],
        Some("inform"),
        false,
        "recover-received",
        None,
        None,
        "inbox",
        None,
        None,
        None,
    )
    .unwrap();
    let accepted = persist(
        &mut db,
        "recover-accepted",
        "bob",
        &["alice"],
        Some("inform"),
        false,
        "recover-accepted",
        None,
        None,
        "inbox",
        None,
        None,
        None,
    )
    .unwrap();
    db.claim_inbox_received(
        "alice",
        &ids(&["recover-received", "recover-accepted"]),
        NOW,
    )
    .unwrap();
    db.record_delivery_receipt(
        "recover-accepted",
        "alice",
        "alice",
        "epoch-alice",
        "accepted",
        "Pi accepted input before reload", NOW,
    )
    .unwrap();

    let ordinary = unread(&db, "alice");
    assert!(ordinary.contains(&"recover-received".to_string()));
    assert!(!ordinary.contains(&"recover-accepted".to_string()));

    rotate(&mut db, "alice", "epoch-alice-reloaded");
    let unresolved_ids: Vec<String> = ids(&["recover-received", "recover-accepted"])
        .into_iter()
        .filter(|id| db.projected_pi_recoverable_inbox_delivery(id, "alice") == Some(true))
        .collect();
    assert!(unresolved_ids.contains(&"recover-received".to_string()));
    assert!(unresolved_ids.contains(&"recover-accepted".to_string()));

    let rebound = db.claim_inbox_received("alice", &unresolved_ids, NOW).unwrap();
    assert!(rebound.contains(&"recover-received".to_string()));
    assert!(rebound.contains(&"recover-accepted".to_string()));
    for message_id in ["recover-received", "recover-accepted"] {
        let endpoint_epoch = &delivery_mut(&mut db, message_id, "alice").endpoint_epoch;
        assert_eq!(endpoint_epoch, "epoch-alice-reloaded");
    }

    db.acknowledge_inbox_and_advance_cursor("alice", received.event_id.max(accepted.event_id), NOW)
        .unwrap();
    assert_eq!(state(&db, "recover-received", "alice"), "acknowledged");
    assert_eq!(state(&db, "recover-accepted", "alice"), "acknowledged");
}

#[test]
fn atomic_pi_ack_rolls_back_receipts_and_cursor_then_commits_together() {
    let mut db = setup();
    let sent = persist(
        &mut db,
        "atomic-ack",
        "bob",
        &["alice"],
        Some("inform"),
        false,
        "atomic-ack",
        None,
        None,
        "inbox",
        None,
        None,
        None,
    )
    .unwrap();
    db.claim_inbox_received("alice", &ids(&["atomic-ack"]), NOW)
        .unwrap();
    let events_before = db.get_last_event_id();
    let sequence = db.sequence;
    db.sequence = i64::MAX - 1;

    let error = db
        .acknowledge_inbox_and_advance_cursor("alice", sent.event_id, NOW)
        .unwrap_err();
    assert_eq!(error.kind, ErrorKind::EventIdsExhausted);
    assert_eq!(state(&db, "atomic-ack", "alice"), "received");
    assert_eq!(
        cursor(&db, "alice"),
        0
    );
    assert_eq!(db.get_last_event_id(), events_before);

    db.sequence = sequence;
    let transitions = db
        .acknowledge_inbox_and_advance_cursor("alice", sent.event_id, NOW)
        .unwrap();
    assert_eq!(transitions, 2);
    assert_eq!(state(&db, "atomic-ack", "alice"), "acknowledged");
    assert_eq!(
        cursor(&db, "alice"),
        sent.event_id
    );
}
#[test]
fn logical_request_endpoint_is_excluded_from_unread_and_inbox_ack() {
    let mut db = setup();
    let inbox = persist(
        &mut db,
        "inbox-message",
        "bob",
        &["alice"],
        Some("inform"),
        false,
        "inbox-message",
        None,
        None,
        "inbox",
        None,
        None,
        None,
    )
    .unwrap();
    let logical = persist(
        &mut db,
        "logical-message",
        "bob",
        &["alice"],
        Some("inform"),
        false,
        "logical-message",
        None,
        None,
        "request:parent",
        None,
        None,
        None,
    )
    .unwrap();
    let legacy_event = db
        .insert_event(
            NOW,
            "message",
            "bob",
            object(vec![
                ("from", Json::text("bob")),
                ("sender_kind", Json::text("instance")),
                ("scope", Json::text("mentions")),
                ("mentions", list(&["alice"])),
                ("delivered_to", list(&["alice"])),
                ("text", Json::text("legacy readable")),
                ("_relay", object(vec![("id", Json::Int(7)), ("short", Json::text("BOXE"))])),
            ]),
        )
        .unwrap();

    assert_eq!(db.find_record_by_event(legacy_event), None);
    let texts = unread(&db, "alice");
    assert!(texts.contains(&"inbox-message".to_string()));
    assert!(!texts.contains(&"logical-message".to_string()));
    assert_eq!(state(&db, "inbox-message", "alice"), "queued");
    assert_eq!(state(&db, "logical-message", "alice"), "queued");

    db.acknowledge_inbox_and_advance_cursor(
        "alice",
        legacy_event.max(logical.event_id).max(inbox.event_id),
        NOW,
    )
    .unwrap();
    assert_eq!(state(&db, "inbox-message", "alice"), "acknowledged");
    assert_eq!(state(&db, "logical-message", "alice"), "queued");
    assert_eq!(
        cursor(&db, "alice"),
        legacy_event.max(logical.event_id).max(inbox.event_id)
    );
}

#[test]
fn legacy_request_endpoint_reply_preserves_upstream_inbox_wake() {
    let mut db = setup();
    let request = persist(
        &mut db,
        "legacy-request",
        "alice",
        &["bob"],
        Some("request"),
        true,
        "legacy-request",
        None,
        None,
        "inbox",
        Some("request:legacy-request"),
        None,
        None,
    )
    .unwrap();
    let asked = db.find_event(request.event_id).unwrap();
    if let Json::Object(members) = &mut db.events[asked].data {
        members.retain(|member| member.key != "reply_mode");
    }
    let legacy = request.event_id.to_string();
    let reply = persist(
        &mut db,
        "legacy-reply",
        "bob",
        &["alice"],
        Some("ack"),
        false,
        "legacy-request",
        Some("legacy-request"),
        Some(&legacy),
        "request:legacy-request",
        None,
        None,
        None,
    )
    .unwrap();

    assert_eq!(
        db.projected_inbox_delivery("legacy-reply", "alice"),
        Some(true)
    );
    assert!(unread(&db, "alice").contains(&"legacy-reply".to_string()));
    let claimed = db
        .claim_inbox_received("alice", &ids(&["legacy-reply"]), NOW)
        .unwrap();
    assert!(claimed.contains(&"legacy-reply".to_string()));
    assert_eq!(state(&db, "legacy-reply", "alice"), "received");
    db.acknowledge_inbox_and_advance_cursor("alice", reply.event_id, NOW)
        .unwrap();
    assert_eq!(state(&db, "legacy-reply", "alice"), "acknowledged");
    assert_eq!(
        db.projected_inbox_delivery("legacy-reply", "alice"),
        Some(false),
        "a reply claimed or acknowledged through any consumer must not be reinjected"
    );
    assert!(!unread(&db, "alice").contains(&"legacy-reply".to_string()));
}
