//! Other devices on the relay.

use hcom::devices::{
    EntryNumbers, EnvelopeStep, StateMessage, StateStep, can_be_shortened, handle_control_message,
    is_farewell, state_short_id,
};
use hcom::json::{Json, Member};
use hcom::lifecycle::{MessagePersistInput, MessagePersistResult};
use hcom::names::{
    add_device_suffix, map_v1_remote_name, relay_source_digest, strip_device_suffix,
    valid_stable_id,
};
use hcom::relay::{Attachments, Route, bounded_imported_attachments};
use hcom::store::{HcomDb, Instance, MESSAGE_PROTOCOL_V1};
use hcom::sync::{RemoteEvent, ResetMark};
use hcom::times::{choose_seconds, parse_instant};

const NOW: &str = "2026-01-02T03:04:05Z";
const UNRESET: ResetMark = ResetMark { key: 0, ceiling: 0 };

fn empty() -> HcomDb {
    HcomDb {
        instances: Vec::new(),
        events: Vec::new(),
        sequence: 0,
        records: Vec::new(),
        deliveries: Vec::new(),
        watches: Vec::new(),
        kv: Vec::new(),
        notifications: Vec::new(),
    }
}

fn ids(values: &[&str]) -> Vec<String> {
    values.iter().map(|value| value.to_string()).collect()
}

fn list(values: &[&str]) -> Json {
    Json::Array(values.iter().map(|value| Json::text(value)).collect())
}

fn members(values: Vec<(&str, Json)>) -> Vec<Member> {
    values.into_iter().map(|(key, value)| Member { key: key.to_string(), value }).collect()
}

fn object(values: Vec<(&str, Json)>) -> Json {
    Json::Object(members(values))
}

/// The state of an instance, with what only its numbers say.
fn instance(parent: Json, directory: &str, tag: Json) -> (Json, EntryNumbers) {
    let transcript = format!("{directory}/transcript.jsonl");
    (
        object(vec![
            ("status", Json::text("active")),
            ("context", Json::text("")),
            ("detail", Json::text("")),
            ("parent", parent),
            ("directory", Json::text(directory)),
            ("transcript", Json::text(&transcript)),
            ("wait_timeout", Json::Int(42)),
            ("tcp_mode", Json::Bool(false)),
            ("tag", tag),
            ("tool", Json::text("codex")),
            ("background", Json::Bool(false)),
        ]),
        EntryNumbers {
            status_key: 1_767_323_045,
            status_time: 1_767_323_045,
            last_stop: "0".to_string(),
        },
    )
}

/// A payload with a state, and what only its numbers say.
fn payload(
    short_id: &str,
    capabilities: Option<Json>,
    instances: Vec<(&str, (Json, EntryNumbers))>,
) -> (Json, Vec<EntryNumbers>) {
    let mut rows = Vec::new();
    let mut numbers = Vec::new();
    for (name, (body, number)) in instances {
        rows.push((name, body));
        numbers.push(number);
    }
    let mut state = members(vec![("short_id", Json::text(short_id)), ("reset_ts", Json::Int(0))]);
    if let Some(value) = capabilities {
        state.extend(members(vec![("capabilities", value)]));
    }
    state.extend(members(vec![("instances", object(rows))]));
    let data =
        object(vec![("state", Json::Object(state)), ("events", Json::Array(Vec::new()))]);
    (data, numbers)
}

fn message<'a>(
    device_id: &'a str,
    data: &'a Json,
    numbers: &'a Vec<EntryNumbers>,
) -> StateMessage<'a> {
    StateMessage {
        device_id,
        data,
        numbers,
        prefix: "device-1",
        returning: false,
        join_action: "device_join",
        leave_action: "device_leave",
        reset_key: 0,
        reset_stamp: "0",
        known_reset_key: 0,
        local_reset: UNRESET,
        local_reset_found: None,
        default_tool: "codex",
        now: NOW,
    }
}

fn has_instance(db: &HcomDb, name: &str) -> bool {
    db.find_instance(name).is_some()
}

/// Takes an envelope through its steps; whether it is opened.
fn open_envelope(outcomes: [bool; 4], recorded: &mut usize) -> bool {
    let mut step = EnvelopeStep::Parse;
    for ok in outcomes {
        if step == EnvelopeStep::RecordNonce && ok {
            *recorded += 1;
        }
        step = step.next(ok);
    }
    step == EnvelopeStep::Opened
}

#[test]
fn test_handle_state_message_drops_remote_unique_identity_fields() {
    let mut db = empty();
    let (data, numbers) = payload(
        "ABCD",
        None,
        vec![
            ("orla", instance(Json::Null, "/tmp/demo-parent", Json::text("demo"))),
            ("luna", instance(Json::text("orla"), "/tmp/demo", Json::text("demo"))),
        ],
    );
    match db.handle_state_message(&message("device-1234", &data, &numbers)) {
        StateStep::Applied { short_id, instances } => {
            assert_eq!(short_id, "ABCD");
            let row = instances.iter().find(|row| row.name == "luna:ABCD").expect("remote row");
            assert_eq!(row.parent.as_deref(), Some("orla:ABCD"));
            assert_eq!(row.tool, "codex");
            assert_eq!(row.wait_timeout, 42);
            assert_eq!(row.directory.as_deref(), Some("/tmp/demo"));
        }
        other => panic!("{other:?}"),
    }
    let at = db.find_instance("luna:ABCD").unwrap();
    assert_eq!(db.instances[at].origin_device_id.as_deref(), Some("device-1234"));
    assert_eq!(db.instances[at].endpoint_epoch, "");
}

#[test]
fn test_handle_state_message_caches_remote_capabilities() {
    let mut db = empty();
    let (data, numbers) = payload("ABCD", Some(list(&["launch", "resume"])), Vec::new());
    db.handle_state_message(&message("device-1234", &data, &numbers));
    assert_eq!(db.kv_get("relay_caps_device-1234"), Some("[\"launch\",\"resume\"]"));
}

#[test]
fn test_handle_state_message_caches_legacy_peer_without_capabilities() {
    let mut db = empty();
    let (data, numbers) = payload("ABCD", None, Vec::new());
    db.handle_state_message(&message("device-1234", &data, &numbers));
    assert_eq!(
        db.kv_get("relay_caps_device-1234"),
        Some("null"),
        "legacy peer (no capabilities field) must be cached as the \"null\" sentinel"
    );
}

#[test]
fn test_handle_state_message_accepts_sender_clock_skew_in_both_directions() {
    let mut db = empty();
    let now: i64 = 1_767_323_045;
    for (device_id, short_id, offset) in
        [("device-past", "PAST", -61_i64), ("device-future", "FUTR", 61_i64)]
    {
        let (data, numbers) =
            payload(short_id, None, vec![("luna", instance(Json::Null, "/tmp/demo", Json::Null))]);
        let sent = (now + offset) as u64;
        assert!(db.state_ts_watermark(device_id).is_none());
        let step = db.handle_state_message(&message(device_id, &data, &numbers));
        assert!(matches!(step, StateStep::Applied { .. }));
        let route = Route { device_id, short_id, own_short_id: "OWND" };
        db.finish_state(&route, &Vec::new(), &UNRESET, NOW, sent);
        assert!(has_instance(&db, &format!("luna:{short_id}")));
        assert_eq!(db.state_ts_watermark(device_id), Some(sent));
    }
    assert_eq!(db.kv_get("relay_device_count"), Some("2"));
}

#[test]
fn test_handle_state_message_rejects_rollback_behind_watermark() {
    let mut db = empty();
    db.kv_set("relay_state_ts_device-1234", Some("1500"));
    let (data, numbers) =
        payload("ABCD", None, vec![("luna", instance(Json::Null, "/tmp/demo", Json::Null))]);
    let sent: u64 = 1000;
    let fresh = db.state_ts_watermark("device-1234").is_none_or(|least| sent >= least);
    let mut recorded = 0;
    if open_envelope([true, true, fresh, true], &mut recorded) {
        db.handle_state_message(&message("device-1234", &data, &numbers));
    }
    assert!(!has_instance(&db, "luna:ABCD"));
    assert_eq!(recorded, 0);
    db.record_state_ts_watermark("device-1234", sent);
    assert_eq!(db.state_ts_watermark("device-1234"), Some(1500));
}

#[test]
fn test_decrypt_failure_does_not_consume_replay_slot() {
    let mut recorded = 0;
    assert!(!open_envelope([true, false, true, true], &mut recorded));
    assert_eq!(recorded, 0, "failed decrypt must not record replay nonce");
    assert!(open_envelope([true, true, true, true], &mut recorded));
    assert_eq!(recorded, 1);
}

#[test]
fn test_handle_state_message_authenticated_null_state_cleans_up_device_and_watermark() {
    let mut db = empty();
    add_test_instance(&mut db, "luna:ABCD", "", Some("device-1234"));
    db.kv_set("relay_state_ts_device-1234", Some("1500"));
    let data = object(vec![("state", Json::Null), ("events", Json::Array(Vec::new()))]);
    assert!(is_farewell(&data));
    let step = db.handle_state_message(&message("device-1234", &data, &Vec::new()));
    assert!(matches!(step, StateStep::Gone));
    let odd = db.handle_state_message(&message("dev\u{e9}", &data, &Vec::new()));
    assert!(matches!(odd, StateStep::Gone));
    assert!(!has_instance(&db, "luna:ABCD"));
    assert_eq!(db.kv_get("relay_state_ts_device-1234"), None);
}

#[test]
fn states_under_a_taken_short_id_are_dropped() {
    let mut db = empty();
    db.kv_set("relay_short_ABCD", Some("device-other"));
    let (data, numbers) =
        payload("abcd", None, vec![("luna", instance(Json::Null, "/tmp/demo", Json::Null))]);
    let step = db.handle_state_message(&message("device-1234", &data, &numbers));
    assert!(matches!(step, StateStep::Dropped));
    assert!(!has_instance(&db, "luna:ABCD"));
    assert_eq!(db.kv.len(), 1);
}

#[test]
fn states_bring_back_what_stays_and_drop_what_is_gone() {
    let mut db = empty();
    add_test_instance(&mut db, "gone:ABCD", "", Some("device-1234"));
    add_test_instance(&mut db, "kept", "", None);
    let (data, numbers) =
        payload("ABCD", None, vec![("luna", instance(Json::Null, "/tmp/demo", Json::Null))]);
    db.handle_state_message(&message("device-1234", &data, &numbers));
    assert!(has_instance(&db, "luna:ABCD"));
    assert!(has_instance(&db, "kept"));
    assert!(!has_instance(&db, "gone:ABCD"));
    assert_eq!(db.resolve_short_id("device-1234").as_deref(), Some("ABCD"));

    let mut late = message("device-1234", &data, &numbers);
    late.local_reset = ResetMark { key: 1_767_323_046, ceiling: 1_767_323_046 };
    db.handle_state_message(&late);
    assert!(!has_instance(&db, "luna:ABCD"));
}

fn add_test_instance(db: &mut HcomDb, name: &str, epoch: &str, origin_device_id: Option<&str>) {
    db.instances.push(Instance {
        name: name.to_string(),
        endpoint_epoch: epoch.to_string(),
        last_event_id: 0,
        origin_device_id: origin_device_id.map(str::to_string),
    });
}

#[allow(clippy::too_many_arguments)]
fn persist_test_message(
    db: &mut HcomDb,
    sender: &str,
    recipients: &[&str],
    message_id: &str,
    correlation_id: &str,
    intent: &str,
    expects_reply: bool,
    in_reply_to: Option<&str>,
    legacy_reply_to: Option<&str>,
    delivery_endpoint: &str,
) -> MessagePersistResult {
    let mut data = members(vec![
        ("protocol", Json::text(MESSAGE_PROTOCOL_V1)),
        ("message_id", Json::text(message_id)),
        ("correlation_id", Json::text(correlation_id)),
        ("from", Json::text(sender)),
        ("sender_kind", Json::text("instance")),
        ("scope", Json::text("mentions")),
        ("mentions", list(recipients)),
        ("delivered_to", list(recipients)),
        ("text", Json::text(&format!("text-{message_id}"))),
        ("intent", Json::text(intent)),
        ("expects_reply", Json::Bool(expects_reply)),
        ("delivery_endpoint", Json::text(delivery_endpoint)),
    ]);
    if expects_reply {
        let endpoint = format!("request:{message_id}");
        data.extend(members(vec![
            ("reply_endpoint", Json::text(&endpoint)),
            ("reply_mode", Json::text("wait")),
        ]));
    }
    if let Some(parent) = in_reply_to {
        data.extend(members(vec![("in_reply_to", Json::text(parent))]));
    }
    if let Some(legacy) = legacy_reply_to {
        data.extend(members(vec![
            ("reply_to", Json::text(legacy)),
            ("reply_to_local", Json::Int(legacy.parse::<i64>().unwrap())),
        ]));
    }
    db.persist_message_v1(
        &MessagePersistInput {
            routing_instance: sender,
            sender_name: sender,
            sender_session_id: None,
            data: &Json::Object(data),
            message_id,
            correlation_id,
            intent: Some(intent),
            expects_reply,
            in_reply_to,
            legacy_reply_to,
            reply_endpoint: expects_reply.then_some("request:test-request"),
            delivery_endpoint,
            supersedes: None,
            retry_of: None,
            attachments_json: "[]",
            recipients: &ids(recipients),
        },
        NOW,
    )
    .unwrap()
}

fn remote_event(body: Json) -> RemoteEvent {
    RemoteEvent {
        body,
        attachments: Attachments::Normalized {
            value: Json::Array(Vec::new()),
            text: "[]".to_string(),
        },
        stamp_key: 0,
    }
}

fn event(id: i64, ts: &str, kind: &str, instance: &str, data: Json) -> RemoteEvent {
    remote_event(object(vec![
        ("id", Json::Int(id)),
        ("ts", Json::text(ts)),
        ("type", Json::text(kind)),
        ("instance", Json::text(instance)),
        ("data", data),
    ]))
}

/// What a device sends of its own log.
fn local_push_events(db: &HcomDb) -> Vec<RemoteEvent> {
    db.events
        .iter()
        .filter(|row| row.data.get("_relay").is_none())
        .map(|row| {
            event(row.id, &row.timestamp, &row.kind, &row.instance, row.data.duplicate())
        })
        .collect()
}

fn import_remote_events(
    db: &mut HcomDb,
    device_id: &str,
    short_id: &str,
    events: &Vec<RemoteEvent>,
    own_short_id: &str,
) {
    db.import_remote_events(&Route { device_id, short_id, own_short_id }, events, &UNRESET);
}

fn delivery_state(db: &HcomDb, message_id: &str, recipient: &str) -> String {
    db.deliveries[db.find_delivery(message_id, recipient).unwrap()].state.clone()
}

fn imported_from(db: &HcomDb, device_id: &str) -> usize {
    db.events
        .iter()
        .filter(|row| {
            row.data.get("_relay").and_then(|relay| relay.get_text("device")) == Some(device_id)
        })
        .count()
}

fn remember(db: &mut HcomDb, device_id: &str, short_id: &str) {
    db.kv_set(&format!("relay_uuid_short_{device_id}"), Some(short_id));
}

#[test]
fn two_device_v1_request_reply_state_replay_collision_and_reset() {
    const DEVICE_A: &str = "device-aaaaaaaa";
    const DEVICE_B: &str = "device-bbbbbbbb";
    let mut db_a = empty();
    let mut db_b = empty();
    remember(&mut db_a, DEVICE_A, "AAAA");
    remember(&mut db_a, DEVICE_B, "BBBB");
    remember(&mut db_b, DEVICE_A, "AAAA");
    remember(&mut db_b, DEVICE_B, "BBBB");
    add_test_instance(&mut db_a, "alice", "epoch-a", None);
    add_test_instance(&mut db_a, "bob:BBBB", "epoch-b", Some(DEVICE_B));
    add_test_instance(&mut db_b, "bob", "epoch-b", None);
    add_test_instance(&mut db_b, "alice:AAAA", "epoch-a", Some(DEVICE_A));
    db_b.insert_event(NOW, "status", "bob", object(vec![("status", Json::text("active"))]))
        .unwrap();
    let request = persist_test_message(
        &mut db_a,
        "alice",
        &["bob:BBBB"],
        "test-request",
        "test-correlation",
        "request",
        true,
        None,
        None,
        "inbox",
    );
    let from_a = local_push_events(&db_a);
    import_remote_events(&mut db_b, DEVICE_A, "AAAA", &from_a, "BBBB");

    let imported = db_b.inspect_message_v1("test-request").unwrap();
    assert_eq!(imported.message.get_text("message_id"), Some("test-request"));
    assert_eq!(imported.message.get_text("correlation_id"), Some("test-correlation"));
    assert_eq!(imported.message.get_text("from"), Some("alice:AAAA"));
    assert_eq!(imported.deliveries[0].recipient_name, "bob");
    assert_eq!(imported.deliveries[0].endpoint_epoch, "epoch-b");
    assert_eq!(imported.deliveries[0].state, "queued");
    assert_eq!(db_b.pending_messages_v1("bob").unwrap().len(), 1);

    let imported_event_id = imported.message.get_int("event_id").unwrap();
    assert_ne!(imported_event_id, request.event_id);
    let event_count_before = db_b.events.len();
    import_remote_events(&mut db_b, DEVICE_A, "AAAA", &from_a, "BBBB");
    assert_eq!(db_b.events.len(), event_count_before);
    assert_eq!(
        db_b.inspect_message_v1("test-request").unwrap().message.get_int("event_id"),
        Some(imported_event_id)
    );

    db_b.records.retain(|row| row.message_id != "test-request");
    db_b.deliveries.retain(|row| row.message_id != "test-request");
    assert!(db_b.inspect_message_v1("test-request").is_err());
    import_remote_events(&mut db_b, DEVICE_A, "AAAA", &from_a, "BBBB");
    let repaired = db_b.inspect_message_v1("test-request").unwrap();
    assert_eq!(repaired.message.get_int("event_id"), Some(imported_event_id));
    assert_eq!(repaired.deliveries[0].recipient_name, "bob");
    assert_eq!(repaired.deliveries[0].endpoint_epoch, "epoch-b");
    db_b.claim_inbox_received("bob", &ids(&["test-request"]), NOW).unwrap();
    let receipt_events = local_push_events(&db_b);
    import_remote_events(&mut db_a, DEVICE_B, "BBBB", &receipt_events, "AAAA");
    assert_eq!(delivery_state(&db_a, "test-request", "bob:BBBB"), "received");

    let forged = vec![event(
        9001,
        "2026-01-01T00:00:00Z",
        "message_state",
        "mallory",
        object(vec![
            ("protocol", Json::text(MESSAGE_PROTOCOL_V1)),
            ("message_id", Json::text("test-request")),
            ("actor", Json::text("mallory")),
            ("recipient", Json::text("bob:BBBB")),
            ("endpoint_epoch", Json::text("epoch-b")),
            ("prior_state", Json::text("received")),
            ("new_state", Json::text("accepted")),
            ("attempt", Json::Int(1)),
        ]),
    )];
    import_remote_events(&mut db_a, "device-cccccccc", "CCCC", &forged, "AAAA");
    assert_eq!(delivery_state(&db_a, "test-request", "bob:BBBB"), "received");
    assert_eq!(imported_from(&db_a, "device-cccccccc"), 0);

    let collision = vec![event(
        1,
        "2026-01-01T00:00:01Z",
        "message",
        "mallory",
        object(vec![
            ("protocol", Json::text(MESSAGE_PROTOCOL_V1)),
            ("message_id", Json::text("test-request")),
            ("correlation_id", Json::text("collision")),
            ("from", Json::text("mallory")),
            ("scope", Json::text("mentions")),
            ("mentions", list(&["alice:AAAA"])),
            ("delivered_to", list(&["alice:AAAA"])),
            ("text", Json::text("collision")),
            ("intent", Json::text("inform")),
            ("expects_reply", Json::Bool(false)),
            ("delivery_endpoint", Json::text("inbox")),
        ]),
    )];
    import_remote_events(&mut db_a, "device-cccccccc", "CCCC", &collision, "AAAA");
    let request_records =
        db_a.records.iter().filter(|row| row.message_id == "test-request").count();
    assert_eq!(request_records, 1);

    let parent_local_on_b =
        db_b.inspect_message_v1("test-request").unwrap().message.get_int("event_id").unwrap();
    let parent_local_text = parent_local_on_b.to_string();
    persist_test_message(
        &mut db_b,
        "bob",
        &["alice:AAAA"],
        "test-reply",
        "test-correlation",
        "ack",
        false,
        Some("test-request"),
        Some(&parent_local_text),
        "request:test-request",
    );
    let from_b = local_push_events(&db_b);
    import_remote_events(&mut db_a, DEVICE_B, "BBBB", &from_b, "AAAA");

    let reply = db_a.inspect_message_v1("test-reply").unwrap();
    assert_eq!(reply.message.get_text("message_id"), Some("test-reply"));
    assert_eq!(reply.message.get_text("in_reply_to"), Some("test-request"));
    assert_eq!(reply.message.get_text("from"), Some("bob:BBBB"));
    let named = format!("{parent_local_on_b}:BBBB");
    assert_eq!(reply.message.get_text("reply_to"), Some(named.as_str()));
    assert_eq!(reply.message.get_int("reply_to_local"), Some(request.event_id));
    assert_eq!(reply.deliveries[0].recipient_name, "alice");
    assert_eq!(reply.deliveries[0].delivery_endpoint, "request:test-request");
    assert_eq!(db_a.projected_inbox_delivery("test-reply", "alice"), Some(false));

    let claimed = db_a.claim_reply_v1("test-request", "alice", NOW).unwrap().unwrap();
    assert_eq!(claimed.message.get_text("message_id"), Some("test-reply"));
    assert!(db_a.claim_reply_v1("test-request", "alice", NOW).unwrap().is_none());

    let before_duplicate = imported_from(&db_a, DEVICE_B);
    import_remote_events(&mut db_a, DEVICE_B, "BBBB", &from_b, "AAAA");
    assert_eq!(imported_from(&db_a, DEVICE_B), before_duplicate);

    db_a.cleanup_imported_events_for_device(DEVICE_B).unwrap();
    assert!(db_a.inspect_message_v1("test-reply").is_err());
    assert_eq!(delivery_state(&db_a, "test-request", "bob:BBBB"), "queued");
    assert!(db_a.inspect_message_v1("test-request").is_ok());
}

#[test]
fn legacy_relay_and_remote_event_short_reference_remain_compatible() {
    let mut db = empty();
    let events = vec![event(
        42,
        "2026-01-01T00:00:00Z",
        "message",
        "legacy",
        object(vec![
            ("from", Json::text("legacy")),
            ("scope", Json::text("mentions")),
            ("mentions", list(&["bob:BBBB"])),
            ("delivered_to", list(&["bob:BBBB"])),
            ("text", Json::text("legacy")),
            ("reply_to", Json::text("7:AAAA")),
        ]),
    )];
    import_remote_events(&mut db, "device-aaaaaaaa", "AAAA", &events, "BBBB");
    import_remote_events(&mut db, "device-aaaaaaaa", "AAAA", &events, "BBBB");
    assert_eq!(imported_from(&db, "device-aaaaaaaa"), 1);
    let data = &db.events[0].data;
    assert_eq!(data.get_text("from"), Some("legacy:AAAA"));
    assert!(data.get("delivered_to").unwrap().same(&list(&["bob"])));
    assert_eq!(data.get_text("reply_to"), Some("7:AAAA"));
    assert!(db.records.is_empty(), "legacy imports must remain legacy");
}

#[test]
fn control_messages_of_other_devices_are_handled() {
    let own = object(vec![("from_device", Json::text("me"))]);
    assert!(handle_control_message(&own, "me").is_none());
    let single =
        object(vec![("from_device", Json::text("you")), ("type", Json::text("control"))]);
    let request = handle_control_message(&single, "me").unwrap();
    assert_eq!(request.source_device, "you");
    assert_eq!(request.events.len(), 1);
    assert!(request.events[0].same(&single));
    let several = object(vec![("events", Json::Array(vec![Json::Int(1), Json::Int(2)]))]);
    let request = handle_control_message(&several, "me").unwrap();
    assert_eq!(request.source_device, "unknown");
    assert_eq!(request.events.len(), 2);
}

#[test]
fn short_ids_are_in_capitals() {
    let named = object(vec![("state", object(vec![("short_id", Json::text("abcd"))]))]);
    assert_eq!(state_short_id(&named, "device"), "ABCD");
    let unnamed = object(vec![("state", object(Vec::new()))]);
    assert_eq!(state_short_id(&unnamed, "device"), "DEVI");
    assert_eq!(state_short_id(&unnamed, "d"), "D");
    assert!(can_be_shortened("device"));
    assert!(!can_be_shortened("dev\u{e9}"));
}

#[test]
fn names_carry_the_device_they_live_on() {
    assert_eq!(add_device_suffix("bob", "BBBB"), "bob:BBBB");
    assert_eq!(strip_device_suffix("bob:bbbb", "BBBB"), "bob");
    assert_eq!(strip_device_suffix("bob:AAAA", "BBBB"), "bob:AAAA");
    assert_eq!(map_v1_remote_name("bob:BBBB", "AAAA", "BBBB"), "bob");
    assert_eq!(map_v1_remote_name("alice", "AAAA", "BBBB"), "alice:AAAA");
    assert_eq!(map_v1_remote_name("carol:CCCC", "AAAA", "BBBB"), "carol:CCCC");
}

#[test]
fn sources_are_known_by_their_digest() {
    let body = object(vec![
        ("id", Json::Int(5)),
        ("type", Json::text("message")),
        (
            "data",
            object(vec![
                ("text", Json::text("h\u{e9}\n")),
                ("weight", Json::Real("1e16".to_string())),
            ]),
        ),
    ]);
    assert_eq!(
        relay_source_digest(&body),
        "57a6f0640e6cb793e14efe8b4e53ca0960ecb209fa27e9d1e8e6bb20e5580f82"
    );
    assert_eq!(
        relay_source_digest(&Json::Null),
        "74234e98afe7498fb5daf1f36ac2d78acc339464f950703b8c019892f982b90b"
    );
}

#[test]
fn stable_ids_are_bounded() {
    assert!(valid_stable_id("message-1"));
    assert!(!valid_stable_id(""));
    assert!(valid_stable_id(&"x".repeat(256)));
    assert!(!valid_stable_id(&"x".repeat(257)));
    assert!(!valid_stable_id("a\nb"));
}

#[test]
fn imported_attachments_are_in_normal_form() {
    let normal = Attachments::Normalized {
        value: Json::Array(vec![Json::Int(1)]),
        text: "[1]".to_string(),
    };
    let plain = object(vec![("attachments", Json::Array(vec![Json::Int(1)]))]);
    assert_eq!(bounded_imported_attachments(&plain, &normal).unwrap(), "[1]");
    assert_eq!(bounded_imported_attachments(&object(Vec::new()), &normal).unwrap(), "[]");
    let other = object(vec![("attachments", Json::Array(vec![Json::Int(2)]))]);
    assert!(bounded_imported_attachments(&other, &normal).is_err());
    let odd = object(vec![("attachments", Json::Int(1))]);
    assert_eq!(
        bounded_imported_attachments(&odd, &normal).unwrap_err(),
        "message attachments must be an array"
    );
}

#[test]
fn instants_are_read_in_seconds() {
    assert_eq!(parse_instant("1970-01-01T00:01:00Z"), 60);
    assert_eq!(parse_instant("1970-01-01T01:01:00+01:00"), 60);
    assert_eq!(parse_instant("yesterday"), 0);
    assert_eq!(choose_seconds(Some(5), Some(6)), 5);
    assert_eq!(choose_seconds(None, Some(6)), 6);
    assert_eq!(choose_seconds(None, None), 0);
}
