//! What holds of the library as a whole, on some values.

use hcom::broker::{Request, authorize, refuse_request, should_forward};
use hcom::imports::state_transition_allowed;
use hcom::json::{Json, Member, find_value, set_member};
use hcom::lifecycle::{MessagePersistInput, MessagePersistResult, rank_of, state_of};
use hcom::message::{MessageCommand, Outside};
use hcom::names::{add_device_suffix, hex_text, strip_device_suffix};
use hcom::pidtrack::{PidRecord, get_orphan_processes, record_pid, remove_pid, tracked_pids};
use hcom::relay::{Attachments, Route};
use hcom::sandbox::{PodmanPlan, workspace_id};
use hcom::space::trim_text;
use hcom::store::{ErrorKind, HcomDb, Instance, LifecycleError, MESSAGE_PROTOCOL_V1};
use hcom::sync::{RelayV1Import, RemoteEvent, ResetMark};
use hcom::text::{decimal_text, parse_i64};
use hcom::workers::BubblewrapPlan;

const NOW: &str = "2026-01-02T03:04:05Z";
const UNRESET: ResetMark = ResetMark { key: 0, ceiling: 0 };

fn setup() -> HcomDb {
    let mut instances = Vec::new();
    for (name, epoch) in
        [("alice", "epoch-alice"), ("bob", "epoch-bob"), ("carol", "epoch-carol")]
    {
        instances.push(Instance {
            name: name.to_string(),
            endpoint_epoch: epoch.to_string(),
            last_event_id: 0,
            origin_device_id: None,
        });
    }
    HcomDb {
        instances,
        events: Vec::new(),
        sequence: 0,
        records: Vec::new(),
        deliveries: Vec::new(),
        watches: Vec::new(),
        kv: Vec::new(),
        notifications: Vec::new(),
    }
}

fn ids(values: &[&str]) -> Vec<String> {
    values.iter().map(|value| value.to_string()).collect()
}

fn list(values: &[&str]) -> Json {
    Json::Array(values.iter().map(|value| Json::text(value)).collect())
}

fn members(values: Vec<(&str, Json)>) -> Vec<Member> {
    values.into_iter().map(|(key, value)| Member { key: key.to_string(), value }).collect()
}

#[allow(clippy::too_many_arguments)]
fn persist(
    db: &mut HcomDb,
    message_id: &str,
    sender: &str,
    recipients: &[&str],
    intent: Option<&str>,
    expects_reply: bool,
    correlation_id: &str,
    in_reply_to: Option<&str>,
    legacy_reply_to: Option<&str>,
    delivery_endpoint: &str,
    reply_endpoint: Option<&str>,
    supersedes: Option<&str>,
    retry_of: Option<&str>,
) -> Result<MessagePersistResult, LifecycleError> {
    let mut data = members(vec![
        ("protocol", Json::text(MESSAGE_PROTOCOL_V1)),
        ("message_id", Json::text(message_id)),
        ("correlation_id", Json::text(correlation_id)),
        ("from", Json::text(sender)),
        ("sender_kind", Json::text("instance")),
        ("scope", Json::text("mentions")),
        ("mentions", list(recipients)),
        ("delivered_to", list(recipients)),
        ("text", Json::text(&format!("text-{message_id}"))),
        ("intent", Json::opt_text(intent)),
        ("expects_reply", Json::Bool(expects_reply)),
        ("delivery_endpoint", Json::text(delivery_endpoint)),
    ]);
    // A request that expects a reply is one that its sender waits for.
    if intent == Some("request") && expects_reply {
        data.extend(members(vec![("reply_mode", Json::text("wait"))]));
    }
    if let Some(value) = in_reply_to {
        data.extend(members(vec![("in_reply_to", Json::text(value))]));
    }
    if let Some(value) = legacy_reply_to {
        data.extend(members(vec![("reply_to", Json::text(value))]));
        if let Ok(event_id) = value.parse::<i64>() {
            data.extend(members(vec![("reply_to_local", Json::Int(event_id))]));
        }
    }
    if let Some(value) = reply_endpoint {
        data.extend(members(vec![("reply_endpoint", Json::text(value))]));
    }
    if let Some(value) = supersedes {
        data.extend(members(vec![("supersedes", Json::text(value))]));
    }
    if let Some(value) = retry_of {
        data.extend(members(vec![("retry_of", Json::text(value))]));
    }
    db.persist_message_v1(
        &MessagePersistInput {
            routing_instance: sender,
            sender_name: sender,
            sender_session_id: None,
            data: &Json::Object(data),
            message_id,
            correlation_id,
            intent,
            expects_reply,
            in_reply_to,
            legacy_reply_to,
            reply_endpoint,
            delivery_endpoint,
            supersedes,
            retry_of,
            attachments_json: "[]",
            recipients: &ids(recipients),
        },
        NOW,
    )
}

fn state(db: &HcomDb, message_id: &str, recipient: &str) -> String {
    db.deliveries[db.find_delivery(message_id, recipient).unwrap()].state.clone()
}

/// Sends a message that is no reply and has no lineage.
fn tell(db: &mut HcomDb, id: &str, from: &str, to: &[&str]) -> MessagePersistResult {
    persist(
        db,
        id,
        from,
        to,
        Some("inform"),
        false,
        id,
        None,
        None,
        "inbox",
        None,
        None,
        None,
    )
    .unwrap()
}

/// Sends a request whose reply is waited for.
fn ask(db: &mut HcomDb, id: &str, from: &str, to: &[&str]) -> MessagePersistResult {
    let endpoint = format!("request:{id}");
    persist(
        db,
        id,
        from,
        to,
        Some("request"),
        true,
        id,
        None,
        None,
        "inbox",
        Some(&endpoint),
        None,
        None,
    )
    .unwrap()
}

/// Answers a request.
fn answer(
    db: &mut HcomDb,
    id: &str,
    from: &str,
    to: &[&str],
    request: &MessagePersistResult,
) -> Result<MessagePersistResult, LifecycleError> {
    let endpoint = format!("request:{}", request.message_id);
    let legacy = request.event_id.to_string();
    persist(
        db,
        id,
        from,
        to,
        Some("ack"),
        false,
        &request.message_id,
        Some(&request.message_id),
        Some(&legacy),
        &endpoint,
        None,
        None,
        None,
    )
}

/// All that a store holds, in words.
fn shown(db: &HcomDb) -> String {
    format!("{db:?}")
}

fn cursor(db: &HcomDb, name: &str) -> i64 {
    db.instances[db.find_instance(name).unwrap()].last_event_id
}

/// Sends a message again.
fn retry(db: &mut HcomDb, id: &str, of: &str, correlation: &str) -> MessagePersistResult {
    persist(
        db,
        id,
        "alice",
        &["bob"],
        Some("inform"),
        false,
        correlation,
        None,
        None,
        "inbox",
        None,
        None,
        Some(of),
    )
    .unwrap()
}

/// An event that a device has sent.
fn remote(id: i64, message_id: &str) -> RemoteEvent {
    let data = Json::Object(members(vec![
        ("protocol", Json::text(MESSAGE_PROTOCOL_V1)),
        ("message_id", Json::text(message_id)),
        ("correlation_id", Json::text(message_id)),
        ("from", Json::text("dora")),
        ("delivered_to", list(&["bob:OWND"])),
        ("text", Json::text("hello")),
        ("intent", Json::text("inform")),
        ("expects_reply", Json::Bool(false)),
        ("delivery_endpoint", Json::text("inbox")),
    ]));
    RemoteEvent {
        body: Json::Object(members(vec![
            ("id", Json::Int(id)),
            ("ts", Json::text(NOW)),
            ("type", Json::text("message")),
            ("instance", Json::text("dora")),
            ("data", data),
        ])),
        attachments: Attachments::Normalized {
            value: Json::Array(Vec::new()),
            text: "[]".to_string(),
        },
        stamp_key: 0,
    }
}

const ROUTE: Route<'static> =
    Route { device_id: "device-d", short_id: "DDDD", own_short_id: "OWND" };

#[test]
fn numbers_read_back_from_their_digits() {
    for n in [0, 7, -1, i64::MAX, i64::MIN] {
        let text = decimal_text(n);
        assert_eq!(text, n.to_string());
        assert_eq!(parse_i64(&text), Some(n));
    }
    assert_ne!(decimal_text(10), decimal_text(1));
}

#[test]
fn members_read_back() {
    let mut data = members(vec![("a", Json::Int(1)), ("b", Json::Int(2))]);
    set_member(&mut data, "a", Json::Int(3));
    assert!(find_value(&data, "a").unwrap().same(&Json::Int(3)));
    assert!(find_value(&data, "b").unwrap().same(&Json::Int(2)));
}

#[test]
fn suffixes_come_off_again() {
    assert_eq!(strip_device_suffix(&add_device_suffix("luna", "ABCD"), "ABCD"), "luna");
}

#[test]
fn digests_are_written_in_two_digits_a_byte() {
    assert_eq!(hex_text(&vec![0, 15, 255], 3), "000fff");
    assert_ne!(hex_text(&vec![1, 16], 2), hex_text(&vec![16, 1], 2));
}

#[test]
fn trimmed_texts_have_no_space_around() {
    assert_eq!(trim_text("\t a b \u{a0}\n"), "a b");
    assert_eq!(trim_text(" \u{3000} "), "");
}

#[test]
fn what_is_served_is_also_forwarded() {
    let tools = ids(&["codex"]);
    let argv = ids(&["send", "@bob", "--", "hi"]);
    assert!(authorize(&argv));
    assert!(should_forward(None, &argv, &tools, true, true));
}

#[test]
fn wrong_tokens_are_refused() {
    let request = Request {
        version: 1,
        token: "guess".to_string(),
        argv: ids(&["list"]),
        env: Vec::new(),
        cwd: "/w".to_string(),
    };
    assert!(refuse_request(&request, "token").is_some());
}

#[test]
fn worker_mounts_begin_with_a_read_only_host() {
    let plan = BubblewrapPlan {
        command: "pi".to_string(),
        args: Vec::new(),
        workspace: "/w".to_string(),
        hcom_dir: "/h".to_string(),
        instance: "luna".to_string(),
        pi_agent: "/a".to_string(),
        has_extensions: false,
        has_agents: false,
        flock_fd: "3".to_string(),
    };
    let args = plan.to_args();
    let host = args.windows(3).position(|w| w == ["--ro-bind", "/", "/"]).unwrap();
    let first = args.iter().position(|arg| arg == "--bind").unwrap();
    assert!(host < first);
}

#[test]
fn containers_write_to_their_own_directories() {
    let plan = PodmanPlan {
        workspace: "/w".to_string(),
        id: workspace_id(&b"/w".to_vec()),
        pi_state: "/s/pi".to_string(),
        cache_state: "/s/cache".to_string(),
        client_state: "/s/client".to_string(),
        image: "image".to_string(),
        pids_limit: "1".to_string(),
        memory: "1g".to_string(),
        cpus: "1".to_string(),
        bridges: ids(&["/b"]),
        broker: Some("/k".to_string()),
        payload: Some("/p".to_string()),
    };
    let args = plan.create_args();
    let mut writable: Vec<&str> =
        args.iter().filter(|arg| arg.ends_with(":rw")).map(String::as_str).collect();
    writable.sort();
    assert_eq!(
        writable,
        ["/s/cache:/s/cache:rw", "/s/client:/s/client:rw", "/s/pi:/s/pi:rw", "/w:/w:rw"]
    );
    assert!(args.contains(&"--cap-drop=ALL".to_string()));
    assert!(args.iter().any(|arg| arg.starts_with("/p:") && arg.ends_with(":ro")));
}

#[test]
fn records_of_processes_are_kept_once() {
    let mut rows = Vec::new();
    let record = PidRecord::new(5, "pi", "luna", "/w");
    record_pid(&mut rows, &record, "1");
    let before = format!("{rows:?}");
    record_pid(&mut rows, &record, "2");
    assert_eq!(format!("{rows:?}"), before);
    record_pid(&mut rows, &PidRecord::new(6, "pi", "nova", "/w"), "3");
    assert_eq!(tracked_pids(&rows), vec![5, 6]);
    assert!(remove_pid(&mut rows, 5));
    assert_eq!(tracked_pids(&rows), vec![6]);
    assert!(!remove_pid(&mut rows, 5));
    let orphans = get_orphan_processes(&mut rows, &vec![6], &Vec::new());
    assert_eq!(orphans[0].pid, 6);
}

#[test]
fn states_only_go_on() {
    assert!(state_transition_allowed("queued", "received"));
    assert!(!state_transition_allowed("received", "queued"));
    assert!(!state_transition_allowed("cancelled", "received"));
    assert!(!state_transition_allowed("replied", "acknowledged"));
    for state in ["queued", "received", "accepted", "acknowledged"] {
        assert_eq!(state_of(rank_of(state).unwrap()), state);
    }
}

#[test]
fn commits_read_back_and_can_be_referred_to() {
    let mut db = setup();
    let sent = tell(&mut db, "first", "alice", &["bob", "carol"]);
    let seen = db.inspect_message_v1("first").unwrap();
    assert_eq!(seen.message.get_text("text"), Some("text-first"));
    assert_eq!(seen.message.get_int("event_id"), Some(sent.event_id));
    assert_eq!(seen.deliveries.len(), 2);
    for name in ["alice", "bob", "carol"] {
        assert_eq!(db.resolve_message_reference_v1("first", name).unwrap(), "first");
        let event = sent.event_id.to_string();
        assert_eq!(db.resolve_message_reference_v1(&event, name).unwrap(), "first");
    }
    assert_eq!(db.projected_inbox_delivery("first", "bob"), Some(true));
    assert_eq!(
        db.resolve_message_reference_v1("first", "dave").unwrap_err().message(),
        db.resolve_message_reference_v1("none", "dave").unwrap_err().message()
    );
    assert!(db.events.windows(2).all(|pair| pair[0].id < pair[1].id));
}

#[test]
fn payloads_of_messages_are_objects() {
    let mut db = setup();
    let sent = tell(&mut db, "first", "alice", &["bob"]);
    tell(&mut db, "second", "alice", &["bob"]);
    assert!(db.is_readable("first"));
    assert!(db.is_readable("none"));
    let at = db.find_event(sent.event_id).unwrap();
    db.events[at].data = Json::Int(1);
    assert!(!db.is_readable("first"));
    assert!(db.is_readable("second"));
    assert!(db.inspect_message_v1("second").is_ok());
}

#[test]
fn deliveries_are_listed_by_recipient() {
    let mut db = setup();
    tell(&mut db, "first", "alice", &["carol", "bob"]);
    let seen = db.inspect_message_v1("first").unwrap();
    let names: Vec<&str> =
        seen.deliveries.iter().map(|row| row.recipient_name.as_str()).collect();
    assert_eq!(names, ["bob", "carol"]);
}

#[test]
fn refusals_leave_the_store_as_it_was() {
    let mut db = setup();
    let request = ask(&mut db, "question", "alice", &["bob"]);
    db.cancel_message_v1("question", "alice", NOW).unwrap();
    let before = shown(&db);
    assert!(answer(&mut db, "reply", "bob", &["alice"], &request).is_err());
    assert!(db.cancel_message_v1("question", "bob", NOW).is_err());
    assert!(
        db.record_delivery_receipt("question", "bob", "bob", "old", "received", "", NOW).is_err()
    );
    let inspect = MessageCommand::Inspect { message_id: "question".to_string(), json: false };
    let outside = Outside {
        attachments: Ok(Json::Array(Vec::new())),
        bad_intent: None,
        bad_attachments: None,
    };
    assert!(db.run_command(&inspect, "carol", outside, NOW).is_err());
    assert_eq!(shown(&db), before);
}

#[test]
fn replies_settle_a_request_once() {
    let mut db = setup();
    let request = ask(&mut db, "question", "alice", &["bob"]);
    assert_eq!(db.pending_messages_v1("bob").unwrap().len(), 1);
    answer(&mut db, "reply", "bob", &["alice"], &request).unwrap();
    assert!(db.pending_messages_v1("bob").unwrap().is_empty());
    assert_eq!(state(&db, "question", "bob"), "replied");
    let again = answer(&mut db, "again", "bob", &["alice"], &request).unwrap_err();
    assert_eq!(again.kind, ErrorKind::NotReplyable);
    assert!(db.find_reply_v1("question", "alice").unwrap().is_some());
    assert_eq!(db.projected_inbox_delivery("reply", "alice"), Some(false));
    assert!(db.claim_reply_v1("question", "alice", NOW).unwrap().is_some());
    assert!(db.claim_reply_v1("question", "alice", NOW).unwrap().is_none());
}

#[test]
fn retries_outnumber_all_before_them() {
    let mut db = setup();
    tell(&mut db, "first", "alice", &["bob"]);
    retry(&mut db, "second", "first", "first");
    retry(&mut db, "third", "first", "first");
    let attempt = |id: &str| db.deliveries[db.find_delivery(id, "bob").unwrap()].attempt;
    assert_eq!((attempt("first"), attempt("second"), attempt("third")), (1, 2, 3));
}

#[test]
fn receipts_are_written_once() {
    let mut db = setup();
    tell(&mut db, "first", "alice", &["bob"]);
    let first = db
        .record_delivery_receipt("first", "bob", "bob", "epoch-bob", "received", "", NOW)
        .unwrap();
    assert!(!first.idempotent);
    let before = shown(&db);
    let again = db
        .record_delivery_receipt("first", "bob", "bob", "epoch-bob", "received", "", NOW)
        .unwrap();
    assert!(again.idempotent);
    assert_eq!(shown(&db), before);
}

#[test]
fn acknowledging_twice_changes_nothing_more() {
    let mut db = setup();
    let sent = tell(&mut db, "first", "alice", &["bob"]);
    db.claim_inbox_received("bob", &ids(&["first"]), NOW).unwrap();
    assert_eq!(db.acknowledge_inbox_and_advance_cursor("bob", sent.event_id, NOW).unwrap(), 2);
    assert_eq!(cursor(&db, "bob"), sent.event_id);
    let before = shown(&db);
    assert_eq!(db.acknowledge_inbox_and_advance_cursor("bob", sent.event_id, NOW).unwrap(), 0);
    assert_eq!(db.acknowledge_inbox_and_advance_cursor("bob", 0, NOW).unwrap(), 0);
    assert_eq!(shown(&db), before);
}

#[test]
fn cancellations_reach_every_recipient() {
    let mut db = setup();
    tell(&mut db, "first", "alice", &["bob", "carol"]);
    db.claim_inbox_received("bob", &ids(&["first"]), NOW).unwrap();
    let outcomes = db.cancel_message_v1("first", "alice", NOW).unwrap();
    assert_eq!(outcomes.len(), 2);
    assert_eq!(state(&db, "first", "bob"), "cancellation_requested");
    assert_eq!(state(&db, "first", "carol"), "cancelled");
}

#[test]
fn timeouts_are_logged_and_move_nothing() {
    let mut db = setup();
    ask(&mut db, "question", "alice", &["bob"]);
    let logged = db.events.len();
    let id = db.append_ask_timeout_v1("question", "alice", NOW).unwrap();
    assert_eq!(db.events.len(), logged + 1);
    assert_eq!(db.events[logged].id, id);
    assert_eq!(state(&db, "question", "bob"), "queued");
}

#[test]
fn values_are_kept_under_their_keys() {
    let mut db = setup();
    db.kv_set("a", Some("1"));
    db.kv_set("b", Some("2"));
    db.kv_set("a", Some("3"));
    assert_eq!(db.kv_get("a"), Some("3"));
    assert_eq!(db.kv_get("b"), Some("2"));
    db.kv_set("a", None);
    assert_eq!(db.kv_get("a"), None);
    assert_eq!(db.kv_get("b"), Some("2"));
}

#[test]
fn watermarks_only_rise() {
    let mut db = setup();
    db.record_state_ts_watermark("device-d", 9);
    db.record_state_ts_watermark("device-d", 5);
    assert_eq!(db.state_ts_watermark("device-d"), Some(9));
    db.record_state_ts_watermark("device-d", 11);
    assert_eq!(db.state_ts_watermark("device-d"), Some(11));
}

#[test]
fn replays_are_imported_once_and_collisions_never() {
    let mut db = setup();
    db.import_remote_events(&ROUTE, &vec![remote(1, "far")], &UNRESET);
    assert_eq!(state(&db, "far", "bob"), "queued");
    let relay = db.events[0].data.get("_relay").unwrap();
    assert_eq!(relay.get_text("device"), Some("device-d"));
    let events = db.events.len();
    db.import_remote_events(&ROUTE, &vec![remote(1, "far")], &UNRESET);
    assert_eq!(db.events.len(), events);
    let again = remote(1, "far");
    let p = db.prepare_remote_event(&again.body, &ROUTE, 1);
    let outcome = db.import_relay_v1_event(&ROUTE, 1, NOW, &p, &again.attachments).unwrap();
    assert!(matches!(outcome, RelayV1Import::Duplicate));
    assert_eq!(db.events.len(), events);
    let other = remote(3, "farther");
    let p = db.prepare_remote_event(&other.body, &ROUTE, 3);
    let outcome = db.import_relay_v1_event(&ROUTE, 3, NOW, &p, &other.attachments).unwrap();
    let last = db.events.last().unwrap().id;
    assert!(matches!(outcome, RelayV1Import::Applied(id) if id == last));
    assert_eq!(db.events.len(), events + 1);
    let before = db.records.len();
    db.import_remote_events(&ROUTE, &vec![remote(2, "far")], &UNRESET);
    assert_eq!(db.records.len(), before);
    assert_eq!(db.kv_get("relay_events_device-d"), Some("2"));
}

#[test]
fn forgotten_devices_leave_no_event_behind() {
    let mut db = setup();
    tell(&mut db, "near", "alice", &["bob"]);
    db.import_remote_events(&ROUTE, &vec![remote(1, "far")], &UNRESET);
    db.cleanup_imported_events_for_device("device-d").unwrap();
    assert!(db.inspect_message_v1("far").is_err());
    assert!(db.inspect_message_v1("near").is_ok());
    assert!(db.events.iter().all(|event| event.data.get("_relay").is_none()));
    db.instances.push(Instance {
        name: "dora:DDDD".to_string(),
        endpoint_epoch: String::new(),
        last_event_id: 0,
        origin_device_id: Some("device-d".to_string()),
    });
    db.remove_device_instances("device-d");
    assert!(db.find_instance("dora:DDDD").is_none());
    assert!(db.find_instance("bob").is_some());
}
