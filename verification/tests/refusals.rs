//! What is refused, and why.

use hcom::json::{Json, Member};
use hcom::lifecycle::{MessagePersistInput, MessagePersistResult};
use hcom::relay::{Attachments, Route};
use hcom::store::{ErrorKind, HcomDb, Instance, LifecycleError, MESSAGE_PROTOCOL_V1};
use hcom::sync::RelayV1Import;

const NOW: &str = "2026-01-02T03:04:05Z";

fn setup() -> HcomDb {
    let mut instances = Vec::new();
    for (name, epoch) in
        [("alice", "epoch-alice"), ("bob", "epoch-bob"), ("carol", "epoch-carol")]
    {
        instances.push(Instance {
            name: name.to_string(),
            endpoint_epoch: epoch.to_string(),
            last_event_id: 0,
            origin_device_id: None,
        });
    }
    HcomDb {
        instances,
        events: Vec::new(),
        sequence: 0,
        records: Vec::new(),
        deliveries: Vec::new(),
        watches: Vec::new(),
        kv: Vec::new(),
        notifications: Vec::new(),
    }
}

fn ids(values: &[&str]) -> Vec<String> {
    values.iter().map(|value| value.to_string()).collect()
}

fn list(values: &[&str]) -> Json {
    Json::Array(values.iter().map(|value| Json::text(value)).collect())
}

fn members(values: Vec<(&str, Json)>) -> Vec<Member> {
    values.into_iter().map(|(key, value)| Member { key: key.to_string(), value }).collect()
}

#[allow(clippy::too_many_arguments)]
fn persist(
    db: &mut HcomDb,
    message_id: &str,
    sender: &str,
    recipients: &[&str],
    intent: Option<&str>,
    expects_reply: bool,
    correlation_id: &str,
    in_reply_to: Option<&str>,
    legacy_reply_to: Option<&str>,
    delivery_endpoint: &str,
    reply_endpoint: Option<&str>,
    supersedes: Option<&str>,
    retry_of: Option<&str>,
) -> Result<MessagePersistResult, LifecycleError> {
    let mut data = members(vec![
        ("protocol", Json::text(MESSAGE_PROTOCOL_V1)),
        ("message_id", Json::text(message_id)),
        ("correlation_id", Json::text(correlation_id)),
        ("from", Json::text(sender)),
        ("sender_kind", Json::text("instance")),
        ("scope", Json::text("mentions")),
        ("mentions", list(recipients)),
        ("delivered_to", list(recipients)),
        ("text", Json::text(&format!("text-{message_id}"))),
        ("intent", Json::opt_text(intent)),
        ("expects_reply", Json::Bool(expects_reply)),
        ("delivery_endpoint", Json::text(delivery_endpoint)),
    ]);
    // A request that expects a reply is one that its sender waits for.
    if intent == Some("request") && expects_reply {
        data.extend(members(vec![("reply_mode", Json::text("wait"))]));
    }
    if let Some(value) = in_reply_to {
        data.extend(members(vec![("in_reply_to", Json::text(value))]));
    }
    if let Some(value) = legacy_reply_to {
        data.extend(members(vec![("reply_to", Json::text(value))]));
        if let Ok(event_id) = value.parse::<i64>() {
            data.extend(members(vec![("reply_to_local", Json::Int(event_id))]));
        }
    }
    if let Some(value) = reply_endpoint {
        data.extend(members(vec![("reply_endpoint", Json::text(value))]));
    }
    if let Some(value) = supersedes {
        data.extend(members(vec![("supersedes", Json::text(value))]));
    }
    if let Some(value) = retry_of {
        data.extend(members(vec![("retry_of", Json::text(value))]));
    }
    db.persist_message_v1(
        &MessagePersistInput {
            routing_instance: sender,
            sender_name: sender,
            sender_session_id: None,
            data: &Json::Object(data),
            message_id,
            correlation_id,
            intent,
            expects_reply,
            in_reply_to,
            legacy_reply_to,
            reply_endpoint,
            delivery_endpoint,
            supersedes,
            retry_of,
            attachments_json: "[]",
            recipients: &ids(recipients),
        },
        NOW,
    )
}

fn state(db: &HcomDb, message_id: &str, recipient: &str) -> String {
    db.deliveries[db.find_delivery(message_id, recipient).unwrap()].state.clone()
}

/// Sends a message that is no reply and has no lineage.
fn tell(db: &mut HcomDb, id: &str, from: &str, to: &[&str]) -> MessagePersistResult {
    persist(
        db,
        id,
        from,
        to,
        Some("inform"),
        false,
        id,
        None,
        None,
        "inbox",
        None,
        None,
        None,
    )
    .unwrap()
}

/// Sends a request whose reply is waited for.
fn ask(db: &mut HcomDb, id: &str, from: &str, to: &[&str]) -> MessagePersistResult {
    let endpoint = format!("request:{id}");
    persist(
        db,
        id,
        from,
        to,
        Some("request"),
        true,
        id,
        None,
        None,
        "inbox",
        Some(&endpoint),
        None,
        None,
    )
    .unwrap()
}

/// Answers a request.
fn answer(
    db: &mut HcomDb,
    id: &str,
    from: &str,
    to: &[&str],
    request: &MessagePersistResult,
) -> Result<MessagePersistResult, LifecycleError> {
    let endpoint = format!("request:{}", request.message_id);
    let legacy = request.event_id.to_string();
    persist(
        db,
        id,
        from,
        to,
        Some("ack"),
        false,
        &request.message_id,
        Some(&request.message_id),
        Some(&legacy),
        &endpoint,
        None,
        None,
        None,
    )
}

fn renewed(
    db: &mut HcomDb,
    from: &str,
    to: &[&str],
    supersedes: Option<&str>,
    retry_of: Option<&str>,
) -> ErrorKind {
    persist(
        db,
        "renewal",
        from,
        to,
        Some("inform"),
        false,
        "first",
        None,
        None,
        "inbox",
        None,
        supersedes,
        retry_of,
    )
    .unwrap_err()
    .kind
}

#[test]
fn recipients_are_named_once() {
    let mut db = setup();
    let error = persist(
        &mut db,
        "twice",
        "alice",
        &["bob", "bob"],
        Some("inform"),
        false,
        "twice",
        None,
        None,
        "inbox",
        None,
        None,
        None,
    )
    .unwrap_err();
    assert_eq!(error.kind, ErrorKind::RecipientsNotUnique);
    assert_eq!(error.message(), "message recipients must be unique");
}

#[test]
fn renewals_are_of_an_own_message_that_is_there() {
    let mut db = setup();
    tell(&mut db, "first", "alice", &["bob"]);
    assert_eq!(
        renewed(&mut db, "alice", &["bob"], None, Some("none")),
        ErrorKind::RetryTargetNotFound
    );
    assert_eq!(
        renewed(&mut db, "carol", &["bob"], None, Some("first")),
        ErrorKind::RetryNotSender
    );
    assert_eq!(
        renewed(&mut db, "alice", &["bob"], Some("none"), None),
        ErrorKind::SupersedeTargetNotFound
    );
    assert_eq!(
        renewed(&mut db, "carol", &["bob"], Some("first"), None),
        ErrorKind::SupersedeNotSender
    );
    assert_eq!(
        renewed(&mut db, "alice", &["carol"], Some("first"), None),
        ErrorKind::SupersedeRecipients
    );
    db.cancel_message_v1("first", "alice", NOW).unwrap();
    assert_eq!(
        renewed(&mut db, "alice", &["bob"], Some("first"), None),
        ErrorKind::NoActiveTransition
    );
}

#[test]
fn replies_are_not_renewed() {
    let mut db = setup();
    let request = ask(&mut db, "question", "alice", &["bob"]);
    answer(&mut db, "reply", "bob", &["alice"], &request).unwrap();
    assert_eq!(
        renewed(&mut db, "bob", &["alice"], None, Some("reply")),
        ErrorKind::RetryOfReply
    );
    assert_eq!(
        renewed(&mut db, "bob", &["alice"], Some("reply"), None),
        ErrorKind::SupersedeOfReply
    );
}

/// A reply to a request, with one thing about it wrong.
fn reply_with(
    db: &mut HcomDb,
    from: &str,
    to: &[&str],
    intent: &str,
    correlation: &str,
    target: &str,
    legacy: &str,
    endpoint: &str,
) -> LifecycleError {
    persist(
        db,
        "reply",
        from,
        to,
        Some(intent),
        false,
        correlation,
        Some(target),
        Some(legacy),
        endpoint,
        None,
        None,
        None,
    )
    .unwrap_err()
}

#[test]
fn replies_fit_their_request() {
    let mut db = setup();
    let request = ask(&mut db, "question", "alice", &["bob"]);
    let told = tell(&mut db, "told", "alice", &["bob"]);
    let id = request.event_id.to_string();
    let other = told.event_id.to_string();
    let at = "request:question";
    let q = "question";
    assert_eq!(
        reply_with(&mut db, "bob", &["alice"], "ack", q, "none", &id, at).kind,
        ErrorKind::ReplyTargetNotFound
    );
    assert_eq!(
        reply_with(&mut db, "bob", &["alice"], "ack", "told", "told", &other, "inbox").kind,
        ErrorKind::ReplyTargetNotRequest
    );
    assert_eq!(
        reply_with(&mut db, "bob", &["alice"], "inform", q, q, &id, at).kind,
        ErrorKind::ReplyIntent
    );
    assert_eq!(
        reply_with(&mut db, "bob", &["alice"], "ack", "else", q, &id, at).kind,
        ErrorKind::ReplyCorrelation
    );
    assert_eq!(
        reply_with(&mut db, "bob", &["carol"], "ack", q, q, &id, at).kind,
        ErrorKind::ReplyRecipients
    );
    assert_eq!(
        reply_with(&mut db, "bob", &["alice"], "ack", q, q, &id, "inbox").kind,
        ErrorKind::ReplyEndpoint
    );
    assert_eq!(
        reply_with(&mut db, "bob", &["alice"], "ack", q, q, &other, at).kind,
        ErrorKind::ReplyLegacy
    );
    assert_eq!(
        reply_with(&mut db, "carol", &["alice"], "ack", q, q, &id, at).kind,
        ErrorKind::ReplyNotRecipient
    );
    db.cancel_message_v1("question", "alice", NOW).unwrap();
    let closed = reply_with(&mut db, "bob", &["alice"], "ack", q, q, &id, at);
    assert_eq!(closed.kind, ErrorKind::NotReplyable);
    assert_eq!(closed.message(), "request is no longer replyable (cancelled)");
}

#[test]
fn reply_modes_are_known_texts() {
    for (mode, kind, words) in [
        (
            Json::text("odd"),
            ErrorKind::ReplyModeInvalid,
            "reply target has invalid reply mode: odd",
        ),
        (
            Json::Array(vec![Json::text("wait")]),
            ErrorKind::ReplyModeInvalid,
            "reply target has invalid reply mode: [\"wait\"]",
        ),
        (
            Json::Object(Vec::new()),
            ErrorKind::ReplyModeInvalid,
            "reply target has invalid reply mode: {}",
        ),
        (Json::Int(1), ErrorKind::ReplyModeNotText, "reply mode is not a text"),
    ] {
        let mut db = setup();
        let request = ask(&mut db, "question", "alice", &["bob"]);
        let at = db.find_event(request.event_id).unwrap();
        if let Json::Object(data) = &mut db.events[at].data {
            data.retain(|member| member.key != "reply_mode");
            data.extend(members(vec![("reply_mode", mode)]));
        }
        let error = answer(&mut db, "reply", "bob", &["alice"], &request).unwrap_err();
        assert_eq!(error.kind, kind);
        assert_eq!(error.message(), words);
    }
}

#[test]
fn messages_are_committed_once_and_while_the_log_has_room() {
    let mut db = setup();
    tell(&mut db, "first", "alice", &["bob"]);
    let again = persist(
        &mut db,
        "first",
        "carol",
        &["bob"],
        Some("inform"),
        false,
        "first",
        None,
        None,
        "inbox",
        None,
        None,
        None,
    )
    .unwrap_err();
    assert_eq!(again.kind, ErrorKind::MessageExists);
    db.sequence = i64::MAX;
    let full = persist(
        &mut db,
        "second",
        "alice",
        &["bob"],
        Some("inform"),
        false,
        "second",
        None,
        None,
        "inbox",
        None,
        None,
        None,
    )
    .unwrap_err();
    assert_eq!(full.kind, ErrorKind::EventIdsExhausted);
    assert_eq!(db.records.len(), 1);
}

#[test]
fn receipts_are_bounded() {
    let mut db = setup();
    tell(&mut db, "first", "alice", &["bob"]);
    let mut receipt = |id: &str, who: &str, actor: &str, epoch: &str, to: &str| {
        db.record_delivery_receipt(id, who, actor, epoch, to, "because", NOW).unwrap_err()
    };
    assert_eq!(
        receipt("none", "bob", "bob", "epoch-bob", "received").kind,
        ErrorKind::DeliveryNotFound
    );
    assert_eq!(
        receipt("first", "bob", "alice", "epoch-bob", "received").kind,
        ErrorKind::ReceiptActor
    );
    assert_eq!(receipt("first", "bob", "bob", "old", "received").kind, ErrorKind::StaleEpoch);
    let odd = receipt("first", "bob", "bob", "epoch-bob", "odd");
    assert_eq!(odd.kind, ErrorKind::UnsupportedReceipt);
    assert_eq!(odd.message(), "unsupported receipt state: odd");
    db.cancel_message_v1("first", "alice", NOW).unwrap();
    let closed = db
        .record_delivery_receipt("first", "bob", "bob", "epoch-bob", "received", "because", NOW)
        .unwrap_err();
    assert_eq!(closed.kind, ErrorKind::NotReceiptable);
    assert_eq!(closed.message(), "delivery is not receiptable (cancelled)");
}

#[test]
fn acknowledgements_are_bounded() {
    let mut db = setup();
    let sent = tell(&mut db, "first", "alice", &["bob"]);
    assert_eq!(
        db.acknowledge_inbox_and_advance_cursor("nobody", 1, NOW).unwrap_err().kind,
        ErrorKind::RecipientUnknown
    );
    assert_eq!(
        db.claim_inbox_received("nobody", &ids(&["first"]), NOW).unwrap_err().kind,
        ErrorKind::RecipientUnknown
    );
    let at = db.find_instance("bob").unwrap();
    db.instances[at].endpoint_epoch = "later".to_string();
    assert_eq!(
        db.acknowledge_inbox_and_advance_cursor("bob", sent.event_id, NOW).unwrap_err().kind,
        ErrorKind::StaleQueued
    );
    let row = db.find_delivery("first", "bob").unwrap();
    db.deliveries[row].state = "odd".to_string();
    db.deliveries[row].endpoint_epoch = "later".to_string();
    let odd = db.acknowledge_inbox_and_advance_cursor("bob", sent.event_id, NOW).unwrap_err();
    assert_eq!(odd.kind, ErrorKind::NotAcknowledgeable);
    assert_eq!(odd.message(), "delivery is not inbox-acknowledgeable (odd)");
    assert_eq!(db.instances[at].last_event_id, 0);
}

#[test]
fn senders_act_on_their_own_messages() {
    let mut db = setup();
    ask(&mut db, "question", "alice", &["bob"]);
    assert_eq!(
        db.cancel_message_v1("question", "bob", NOW).unwrap_err().kind,
        ErrorKind::CancelNotSender
    );
    assert_eq!(
        db.append_ask_timeout_v1("question", "bob", NOW).unwrap_err().kind,
        ErrorKind::WaitNotSender
    );
    assert_eq!(
        db.inspect_message_v1("none").unwrap_err().kind,
        ErrorKind::MessageNotFound
    );
    assert_eq!(
        db.resolve_message_reference_v1("question", "carol").unwrap_err().kind,
        ErrorKind::MessageNotFound
    );
}

#[test]
fn replies_without_an_id_are_not_claimed() {
    let mut db = setup();
    let request = ask(&mut db, "question", "alice", &["bob"]);
    let reply = answer(&mut db, "reply", "bob", &["alice"], &request).unwrap();
    let at = db.find_event(reply.event_id).unwrap();
    if let Json::Object(data) = &mut db.events[at].data {
        data.retain(|member| member.key != "message_id");
    }
    assert_eq!(
        db.claim_reply_v1("question", "alice", NOW).unwrap_err().kind,
        ErrorKind::ReplyWithoutId
    );
}

fn imported(id: &str) -> Json {
    Json::Object(members(vec![
        ("protocol", Json::text(MESSAGE_PROTOCOL_V1)),
        ("message_id", Json::text(id)),
        ("correlation_id", Json::text(id)),
        ("from", Json::text("dora:DDDD")),
        ("delivered_to", list(&["bob"])),
        ("text", Json::text("hello")),
        ("intent", Json::text("inform")),
        ("expects_reply", Json::Bool(false)),
        ("delivery_endpoint", Json::text("inbox")),
    ]))
}

fn no_attachments() -> Attachments {
    Attachments::Normalized { value: Json::Array(Vec::new()), text: "[]".to_string() }
}

#[test]
fn events_carry_one_message() {
    let mut db = setup();
    let sent = tell(&mut db, "first", "alice", &["bob"]);
    let error = db
        .project_imported_message(sent.event_id, NOW, &imported("other"), &no_attachments())
        .unwrap_err();
    assert_eq!(error.kind, ErrorKind::EventHasMessage);
}

#[test]
fn imported_attempts_are_bounded() {
    let mut db = setup();
    tell(&mut db, "first", "dora:DDDD", &["bob"]);
    let row = db.find_delivery("first", "bob").unwrap();
    db.deliveries[row].attempt = i64::MAX;
    let mut data = imported("second");
    if let Json::Object(values) = &mut data {
        values.retain(|member| member.key != "correlation_id");
        values.extend(members(vec![
            ("correlation_id", Json::text("first")),
            ("retry_of", Json::text("first")),
        ]));
    }
    let error =
        db.project_imported_message(99, NOW, &data, &no_attachments()).unwrap_err();
    assert_eq!(error.kind, ErrorKind::AttemptsExhausted);
}

#[test]
fn payloads_that_are_no_text_stop_a_cleanup() {
    let mut db = setup();
    db.insert_event(
        NOW,
        "message_state",
        "dora:DDDD",
        Json::Object(members(vec![
            ("protocol", Json::text(MESSAGE_PROTOCOL_V1)),
            ("message_id", Json::Int(7)),
            ("recipient", Json::text("bob")),
            ("_relay", Json::Object(members(vec![("device", Json::text("device-d"))]))),
        ])),
    )
    .unwrap();
    let events = db.events.len();
    assert_eq!(
        db.cleanup_imported_events_for_device("device-d").unwrap_err().kind,
        ErrorKind::ColumnNotText
    );
    assert_eq!(db.events.len(), events);
}

#[test]
fn imported_states_need_a_known_message() {
    let mut db = setup();
    let route = Route { device_id: "device-d", short_id: "DDDD", own_short_id: "OWND" };
    let body = Json::Object(members(vec![
        ("id", Json::Int(5)),
        ("ts", Json::text(NOW)),
        ("type", Json::text("message_state")),
        ("instance", Json::text("dora")),
        (
            "data",
            Json::Object(members(vec![
                ("protocol", Json::text(MESSAGE_PROTOCOL_V1)),
                ("message_id", Json::text("none")),
                ("actor", Json::text("dora")),
                ("recipient", Json::text("dora")),
                ("endpoint_epoch", Json::text("")),
                ("prior_state", Json::text("queued")),
                ("new_state", Json::text("received")),
                ("attempt", Json::Int(1)),
            ])),
        ),
    ]));
    let prepared = db.prepare_remote_event(&body, &route, 5);
    let outcome = db.import_relay_v1_event(&route, 5, NOW, &prepared, &no_attachments()).unwrap();
    assert!(matches!(outcome, RelayV1Import::Rejected(_)), "{outcome:?}");
    assert!(db.events.is_empty());
}

#[test]
fn rejected_states_leave_deliveries_alone() {
    let mut db = setup();
    tell(&mut db, "first", "alice", &["bob", "dora:DDDD"]);
    let before: Vec<String> = db.deliveries.iter().map(|row| row.state.clone()).collect();
    let asked = |actor: &str, recipient: &str, new_state: &str| {
        Json::Object(members(vec![
            ("message_id", Json::text("first")),
            ("actor", Json::text(actor)),
            ("recipient", Json::text(recipient)),
            ("endpoint_epoch", Json::text("")),
            ("prior_state", Json::text("queued")),
            ("new_state", Json::text(new_state)),
            ("attempt", Json::Int(1)),
        ]))
    };
    for (data, reason) in [
        (asked("dora:DDDD", "bob", "received"), "peer cannot mutate an unrelated message projection"),
        (asked("alice", "dora:DDDD", "received"), "message_state actor is not authorized"),
        (asked("dora:DDDD", "dora:DDDD", "accepted"), "invalid message_state transition queued->accepted"),
    ] {
        let outcome = db.project_imported_state(9, NOW, &data, "device-d", "DDDD").unwrap();
        assert_eq!(outcome.as_deref(), Some(reason));
        let after: Vec<String> = db.deliveries.iter().map(|row| row.state.clone()).collect();
        assert_eq!(after, before);
    }
    let data = asked("dora:DDDD", "dora:DDDD", "received");
    assert_eq!(db.project_imported_state(9, NOW, &data, "device-d", "DDDD").unwrap(), None);
    assert_eq!(state(&db, "first", "dora:DDDD"), "received");
    assert_eq!(state(&db, "first", "bob"), "queued");
}

#[test]
fn unreadable_imports_leave_the_store_alone() {
    let mut db = setup();
    tell(&mut db, "first", "alice", &["bob"]);
    let outcome = db
        .project_imported_message(99, NOW, &Json::Object(Vec::new()), &no_attachments())
        .unwrap();
    assert_eq!(outcome.as_deref(), Some("v1 message is missing message_id"));
    let outcome =
        db.project_imported_message(99, NOW, &imported("first"), &no_attachments()).unwrap();
    assert_eq!(outcome.as_deref(), Some("stable message_id collision for first"));
    assert_eq!((db.records.len(), db.deliveries.len()), (1, 1));
    assert_eq!(db.records[0].sender_name, "alice");
}

#[test]
fn arrays_are_put_back_as_they_are_written() {
    let mut db = setup();
    tell(&mut db, "first", "alice", &["bob"]);
    let moved = |new_state: Json, device: Option<&str>| {
        let mut data = members(vec![
            ("protocol", Json::text(MESSAGE_PROTOCOL_V1)),
            ("message_id", Json::text("first")),
            ("recipient", Json::text("bob")),
            ("endpoint_epoch", Json::text("epoch-bob")),
            ("actor", Json::text("bob")),
            ("new_state", new_state),
        ]);
        if let Some(device) = device {
            data.extend(members(vec![(
                "_relay",
                Json::Object(members(vec![("device", Json::text(device))])),
            )]));
        }
        Json::Object(data)
    };
    let odd = Json::Array(vec![Json::text("a\n\"b"), Json::Int(-1), Json::Null]);
    db.insert_event(NOW, "message_state", "bob", moved(odd, None)).unwrap();
    db.insert_event(NOW, "message_state", "bob", moved(Json::text("received"), Some("device-d")))
        .unwrap();
    db.cleanup_imported_events_for_device("device-d").unwrap();
    assert_eq!(state(&db, "first", "bob"), "[\"a\\n\\\"b\",-1,null]");
}

#[test]
fn remote_ids_are_cast_to_integers() {
    for (id, found) in [
        (Json::text(" 5x"), true),
        (Json::Real("5.9".to_string()), true),
        (Json::text("x5"), false),
    ] {
        let mut db = setup();
        db.insert_event(
            NOW,
            "message",
            "dora:DDDD",
            Json::Object(members(vec![(
                "_relay",
                Json::Object(members(vec![("device", Json::text("device-d")), ("id", id)])),
            )])),
        )
        .unwrap();
        let route = Route { device_id: "device-d", short_id: "DDDD", own_short_id: "OWND" };
        let body = Json::Object(members(vec![
            ("id", Json::Int(5)),
            ("ts", Json::text(NOW)),
            ("type", Json::text("message")),
            ("instance", Json::text("dora")),
            ("data", imported("second")),
        ]));
        let prepared = db.prepare_remote_event(&body, &route, 5);
        match db.import_relay_v1_event(&route, 5, NOW, &prepared, &no_attachments()).unwrap() {
            RelayV1Import::Rejected(reason) => {
                assert!(found && reason.contains("identity collision"), "{reason}");
            }
            RelayV1Import::Applied(_) => assert!(!found),
            RelayV1Import::Duplicate => panic!("not the same event"),
        }
    }
}
