//! Commands on messages.

use hcom::identity::{CommandContext, SenderIdentity, SenderKind};
use hcom::json::{Json, Member};
use hcom::lifecycle::{MessagePersistInput, MessagePersistResult};
use hcom::message::{
    Lineage, MessageArgs, MessageCommand, MessageOutcome, Outside, Renewal, actor,
    authorize_inspection, check_wait, cmd_message, inspected_message, inspection_targets, join_words, plan_renewal,
    plan_reply, preserved_envelope, remote_device,
};
use hcom::render::{
    WAIT_FEATURE, WaitTurn, inspection_value, result_value, send_result_value,
};
use hcom::senders::Inspection;
use hcom::store::{Delivery, HcomDb, Instance, LifecycleError, MESSAGE_PROTOCOL_V1};

const NOW: &str = "2026-01-02T03:04:05Z";

fn setup() -> HcomDb {
    let mut instances = Vec::new();
    for (name, epoch) in
        [("alice", "epoch-alice"), ("bob", "epoch-bob"), ("carol", "epoch-carol")]
    {
        instances.push(Instance {
            name: name.to_string(),
            endpoint_epoch: epoch.to_string(),
            last_event_id: 0,
            origin_device_id: None,
        });
    }
    HcomDb {
        instances,
        events: Vec::new(),
        sequence: 0,
        records: Vec::new(),
        deliveries: Vec::new(),
        watches: Vec::new(),
        kv: Vec::new(),
        notifications: Vec::new(),
    }
}

fn ids(values: &[&str]) -> Vec<String> {
    values.iter().map(|value| value.to_string()).collect()
}

fn list(values: &[&str]) -> Json {
    Json::Array(values.iter().map(|value| Json::text(value)).collect())
}

fn members(values: Vec<(&str, Json)>) -> Vec<Member> {
    values.into_iter().map(|(key, value)| Member { key: key.to_string(), value }).collect()
}

#[allow(clippy::too_many_arguments)]
fn persist(
    db: &mut HcomDb,
    message_id: &str,
    sender: &str,
    recipients: &[&str],
    intent: Option<&str>,
    expects_reply: bool,
    correlation_id: &str,
    in_reply_to: Option<&str>,
    legacy_reply_to: Option<&str>,
    delivery_endpoint: &str,
    reply_endpoint: Option<&str>,
    supersedes: Option<&str>,
    retry_of: Option<&str>,
) -> Result<MessagePersistResult, LifecycleError> {
    let mut data = members(vec![
        ("protocol", Json::text(MESSAGE_PROTOCOL_V1)),
        ("message_id", Json::text(message_id)),
        ("correlation_id", Json::text(correlation_id)),
        ("from", Json::text(sender)),
        ("sender_kind", Json::text("instance")),
        ("scope", Json::text("mentions")),
        ("mentions", list(recipients)),
        ("delivered_to", list(recipients)),
        ("text", Json::text(&format!("text-{message_id}"))),
        ("intent", Json::opt_text(intent)),
        ("expects_reply", Json::Bool(expects_reply)),
        ("delivery_endpoint", Json::text(delivery_endpoint)),
    ]);
    // A request that expects a reply is one that its sender waits for.
    if intent == Some("request") && expects_reply {
        data.extend(members(vec![("reply_mode", Json::text("wait"))]));
    }
    if let Some(value) = in_reply_to {
        data.extend(members(vec![("in_reply_to", Json::text(value))]));
    }
    if let Some(value) = legacy_reply_to {
        data.extend(members(vec![("reply_to", Json::text(value))]));
        if let Ok(event_id) = value.parse::<i64>() {
            data.extend(members(vec![("reply_to_local", Json::Int(event_id))]));
        }
    }
    if let Some(value) = reply_endpoint {
        data.extend(members(vec![("reply_endpoint", Json::text(value))]));
    }
    if let Some(value) = supersedes {
        data.extend(members(vec![("supersedes", Json::text(value))]));
    }
    if let Some(value) = retry_of {
        data.extend(members(vec![("retry_of", Json::text(value))]));
    }
    db.persist_message_v1(
        &MessagePersistInput {
            routing_instance: sender,
            sender_name: sender,
            sender_session_id: None,
            data: &Json::Object(data),
            message_id,
            correlation_id,
            intent,
            expects_reply,
            in_reply_to,
            legacy_reply_to,
            reply_endpoint,
            delivery_endpoint,
            supersedes,
            retry_of,
            attachments_json: "[]",
            recipients: &ids(recipients),
        },
        NOW,
    )
}

fn state(db: &HcomDb, message_id: &str, recipient: &str) -> String {
    db.deliveries[db.find_delivery(message_id, recipient).unwrap()].state.clone()
}

fn object(values: Vec<(&str, Json)>) -> Json {
    Json::Object(members(values))
}

fn delivery(message_id: &str, recipient: &str) -> Delivery {
    Delivery {
        message_id: message_id.to_string(),
        recipient_name: recipient.to_string(),
        endpoint_epoch: String::new(),
        delivery_endpoint: "inbox".to_string(),
        state: "queued".to_string(),
        attempt: 1,
        state_event_id: None,
        last_actor: String::new(),
        updated_at: NOW.to_string(),
    }
}

fn outside() -> Outside {
    Outside { attachments: Ok(Json::Array(Vec::new())), bad_intent: None, bad_attachments: None }
}

fn ask(db: &mut HcomDb, id: &str) -> MessagePersistResult {
    let endpoint = format!("request:{id}");
    persist(
        db,
        id,
        "alice",
        &["bob"],
        Some("request"),
        true,
        id,
        None,
        None,
        "inbox",
        Some(&endpoint),
        None,
        None,
    )
    .unwrap()
}

fn answer(db: &mut HcomDb, id: &str, request: &MessagePersistResult) -> MessagePersistResult {
    let endpoint = format!("request:{}", request.message_id);
    let legacy = request.event_id.to_string();
    persist(
        db,
        id,
        "bob",
        &["alice"],
        Some("ack"),
        false,
        &request.message_id,
        Some(&request.message_id),
        Some(&legacy),
        &endpoint,
        None,
        None,
        None,
    )
    .unwrap()
}

#[test]
fn lifecycle_commands_require_verified_identity() {
    assert!(actor(None).is_err());
    let parsed = MessageArgs { command: MessageCommand::Pending { json: true } };
    assert!(matches!(parsed.command, MessageCommand::Pending { json: true }));

    let mut context = CommandContext { explicit_name: None, identity: None, go: false };
    assert_eq!(
        actor(Some(&context)).unwrap_err(),
        "message operations require a verified instance identity"
    );
    context.identity = Some(SenderIdentity {
        kind: SenderKind::Instance,
        name: "alice".to_string(),
        instance_data: None,
        session_id: None,
    });
    assert_eq!(actor(Some(&context)).unwrap().name, "alice");
}

#[test]
fn retry_and_supersede_envelopes_preserve_protocol_semantics() {
    let attachments = || {
        Json::Array(vec![object(vec![
            ("type", Json::text("context")),
            ("name", Json::text("context.txt")),
            ("content", Json::text("bounded context")),
        ])])
    };
    let inspection = Inspection {
        message: object(vec![
            ("message_id", Json::text("original")),
            ("correlation_id", Json::text("correlation")),
            ("intent", Json::text("request")),
            ("expects_reply", Json::Bool(true)),
            ("thread", Json::text("thread-1")),
            ("bundle_id", Json::text("bundle-1")),
            ("attachments", attachments()),
            ("text", Json::text("original text")),
        ]),
        deliveries: vec![delivery("original", "bob")],
    };

    let retry =
        preserved_envelope(&inspection, "original", Lineage::RetryOf, None, None).unwrap();
    assert_eq!(retry.intent.as_deref(), Some("request"));
    assert!(retry.expects_reply);
    assert_eq!(retry.thread.as_deref(), Some("thread-1"));
    assert_eq!(retry.bundle_id.as_deref(), Some("bundle-1"));
    assert!(retry.attachments.same(&attachments()));
    assert_eq!(retry.delivery_endpoint.as_deref(), Some("inbox"));
    assert_eq!(retry.retry_of.as_deref(), Some("original"));
    assert!(retry.reply_endpoint.is_none(), "new request ID must own its endpoint");

    let supersede =
        preserved_envelope(&inspection, "original", Lineage::Supersedes, None, None).unwrap();
    assert_eq!(supersede.supersedes.as_deref(), Some("original"));
    assert_eq!(supersede.correlation_id.as_deref(), Some("correlation"));
    assert!(supersede.attachments.same(&attachments()));

    assert_eq!(
        preserved_envelope(&inspection, "original", Lineage::RetryOf, Some("odd"), None)
            .unwrap_err(),
        "odd"
    );
}

#[test]
fn output_for_programs_keeps_messages_back() {
    let reply = |json: bool, quiet: bool| MessageArgs {
        command: MessageCommand::Reply {
            message_id: "m".to_string(),
            attachments: Vec::new(),
            json,
            quiet,
            text: Vec::new(),
        },
    };
    assert!(!reply(false, false).suppresses_post_command_delivery());
    assert!(reply(true, false).suppresses_post_command_delivery());
    assert!(reply(false, true).suppresses_post_command_delivery());
    assert!(reply(false, false).prints_result());
    assert!(!reply(false, true).prints_result());
    assert!(reply(true, true).prints_result());
}

#[test]
fn only_participants_inspect_a_message() {
    let mut db = setup();
    ask(&mut db, "question");
    let seen = db.inspect_message_v1("question").unwrap();
    assert!(authorize_inspection(&seen, "alice").is_ok());
    assert!(authorize_inspection(&seen, "bob").is_ok());
    assert!(authorize_inspection(&seen, "carol").is_err());
    assert_eq!(inspection_targets(&seen).unwrap(), ids(&["bob"]));
    assert!(inspected_message(&seen, "text").is_ok());
    assert_eq!(inspected_message(&seen, "mood").unwrap_err(), "message projection missing mood");
    let value = inspection_value(&seen);
    assert_eq!(
        value.get("message").and_then(|message| message.get_text("message_id")),
        Some("question")
    );
}

#[test]
fn commands_act_for_their_actor_alone() {
    let mut db = setup();
    ask(&mut db, "question");
    let inspect = MessageCommand::Inspect { message_id: "question".to_string(), json: true };
    assert!(matches!(
        db.run_command(&inspect, "bob", outside(), NOW),
        Ok(MessageOutcome::Inspected(_))
    ));
    assert_eq!(
        db.run_command(&inspect, "carol", outside(), NOW).unwrap_err(),
        "message not found"
    );
    match db.run_command(&MessageCommand::Pending { json: true }, "bob", outside(), NOW) {
        Ok(MessageOutcome::Pending(rows)) => assert_eq!(rows.len(), 1),
        other => panic!("{other:?}"),
    }
    let cancel = MessageCommand::Cancel { message_id: "question".to_string(), json: true };
    assert!(db.run_command(&cancel, "bob", outside(), NOW).is_err());
    match db.run_command(&cancel, "alice", outside(), NOW) {
        Ok(outcome) => {
            let value = result_value(&outcome).unwrap();
            assert_eq!(value.get_text("message_id"), Some("question"));
            assert_eq!(value.get_text("operation"), Some("cancel"));
        }
        other => panic!("{other:?}"),
    }
    assert_eq!(state(&db, "question", "bob"), "cancelled");
}

#[test]
fn receipts_are_written_by_command() {
    let mut db = setup();
    ask(&mut db, "question");
    let receipt = MessageCommand::Receipt {
        message_id: "question".to_string(),
        state: "received".to_string(),
        endpoint_epoch: "epoch-bob".to_string(),
        reason: None,
        json: true,
    };
    match db.run_command(&receipt, "bob", outside(), NOW) {
        Ok(MessageOutcome::Receipted(row)) => {
            assert_eq!(row.prior_state, "queued");
            assert_eq!(row.state, "received");
            assert!(!row.idempotent);
        }
        other => panic!("{other:?}"),
    }
    assert!(db.run_command(&receipt, "alice", outside(), NOW).is_err());
}

#[test]
fn replies_are_planned_for_the_sender_of_the_request() {
    let mut db = setup();
    let request = ask(&mut db, "question");
    let seen = db.inspect_message_v1("question").unwrap();
    let plan =
        plan_reply(&seen, "bob", "question", "yes".to_string(), Ok(Json::Array(Vec::new())))
            .unwrap();
    assert_eq!(plan.text, "yes");
    assert_eq!(plan.targets, ids(&["alice"]));
    assert_eq!(plan.envelope.in_reply_to.as_deref(), Some("question"));
    let legacy = request.event_id.to_string();
    assert_eq!(plan.envelope.reply_to.as_deref(), Some(legacy.as_str()));
    assert_eq!(plan.envelope.delivery_endpoint.as_deref(), Some("request:question"));
    let reply = MessageCommand::Reply {
        message_id: "question".to_string(),
        attachments: Vec::new(),
        json: false,
        quiet: false,
        text: ids(&["yes", "it", "is"]),
    };
    match db.run_command(&reply, "bob", outside(), NOW) {
        Ok(MessageOutcome::Send(plan)) => assert_eq!(plan.text, "yes it is"),
        other => panic!("{other:?}"),
    }
    assert!(db.run_command(&reply, "carol", outside(), NOW).is_err());
}

#[test]
fn renewals_are_planned_for_the_same_recipients() {
    let mut db = setup();
    ask(&mut db, "question");
    let seen = db.inspect_message_v1("question").unwrap();
    let renewal = Renewal {
        lineage: Lineage::RetryOf,
        has_attachments: false,
        text: None,
        bad_intent: None,
        bad_attachments: None,
    };
    let plan = plan_renewal(&seen, "alice", "question", &renewal).unwrap();
    assert_eq!(plan.text, "text-question");
    assert_eq!(plan.targets, ids(&["bob"]));
    assert_eq!(plan.envelope.retry_of.as_deref(), Some("question"));
    assert!(plan_renewal(&seen, "bob", "question", &renewal).is_err());
}

#[test]
fn waits_are_for_the_one_recipient_of_an_own_request() {
    let mut db = setup();
    ask(&mut db, "question");
    let seen = db.inspect_message_v1("question").unwrap();
    assert_eq!(check_wait(&seen, "alice").unwrap(), "bob");
    assert_eq!(
        check_wait(&seen, "bob").unwrap_err(),
        "wait is allowed only for the original sender"
    );
    let wait =
        MessageCommand::Wait { message_id: "question".to_string(), timeout: 60, json: false };
    match db.run_command(&wait, "alice", outside(), NOW) {
        Ok(MessageOutcome::Wait { message_id, target }) => {
            assert_eq!((message_id.as_str(), target.as_str()), ("question", "bob"));
        }
        other => panic!("{other:?}"),
    }
    assert_eq!(remote_device("bob:OLDP").as_deref(), Some("OLDP"));
    assert_eq!(remote_device("a:b:C").as_deref(), Some("C"));
    assert_eq!(remote_device("bob"), None);
}

#[test]
fn waits_end_with_a_reply_or_with_their_time() {
    let mut db = setup();
    let request = ask(&mut db, "question");
    assert!(matches!(
        db.wait_for_reply("question", "alice", Some(60_000), NOW),
        Ok(WaitTurn::Sleep(30_000))
    ));
    assert!(matches!(
        db.wait_for_reply("question", "alice", Some(5), NOW),
        Ok(WaitTurn::Sleep(5))
    ));
    let logged = db.events.len();
    assert!(matches!(db.wait_for_reply("question", "alice", Some(0), NOW), Ok(WaitTurn::TimedOut)));
    assert_eq!(db.events.len(), logged + 1);
    answer(&mut db, "reply", &request);
    match db.wait_for_reply("question", "alice", None, NOW) {
        Ok(WaitTurn::Reply(seen)) => {
            assert_eq!(seen.message.get_text("message_id"), Some("reply"));
        }
        other => panic!("{other:?}"),
    }
    assert_eq!(state(&db, "reply", "alice"), "acknowledged");
}

#[test]
fn senders_are_told_what_was_committed() {
    let mut db = setup();
    let sent = ask(&mut db, "question");
    let value = send_result_value(&sent);
    assert_eq!(value.get_text("message_id"), Some("question"));
    assert_eq!(value.get_int("event_id"), Some(sent.event_id));
    assert_eq!(join_words(&ids(&["a", "b"])), "a b");
    assert_eq!(join_words(&ids(&[])), "");
}

#[test]
fn commands_without_an_identity_change_nothing() {
    let mut db = setup();
    ask(&mut db, "question");
    let logged = db.events.len();
    let args = MessageArgs {
        command: MessageCommand::Cancel { message_id: "question".to_string(), json: false },
    };
    let mut context = CommandContext { explicit_name: None, identity: None, go: false };
    for ctx in [None, Some(&context)] {
        assert_eq!(
            cmd_message(&mut db, &args, ctx, outside(), NOW).unwrap_err(),
            "message operations require a verified instance identity"
        );
        assert_eq!(db.events.len(), logged);
    }
    context.identity = Some(SenderIdentity {
        kind: SenderKind::Instance,
        name: "alice".to_string(),
        instance_data: None,
        session_id: None,
    });
    assert!(db.shows_command(&args.command, "alice"));
    assert!(matches!(
        cmd_message(&mut db, &args, Some(&context), outside(), NOW),
        Ok(MessageOutcome::Cancelled { .. })
    ));
    assert_eq!(db.events.len(), logged + 1);
}

#[test]
fn blocking_wait_feature_gates_legacy_remote_peer_before_sleeping() {
    let mut db = setup();
    db.instances.push(Instance {
        name: "bob:OLDP".to_string(),
        endpoint_epoch: "epoch-b".to_string(),
        last_event_id: 0,
        origin_device_id: Some("device-old".to_string()),
    });
    persist(
        &mut db,
        "legacy-wait",
        "alice",
        &["bob:OLDP"],
        Some("request"),
        true,
        "legacy-wait",
        None,
        None,
        "inbox",
        Some("request:legacy-wait"),
        None,
        None,
    )
    .unwrap();
    let target = check_wait(&db.inspect_message_v1("legacy-wait").unwrap(), "alice").unwrap();
    assert_eq!(remote_device(&target).as_deref(), Some("OLDP"));
    let objection = "OLDP has only ordinary send/reply semantics";
    let logged = db.events.len();
    for _ in 0..2 {
        let error = db
            .begin_wait("legacy-wait", "alice", &target, Some(objection), NOW)
            .unwrap_err();
        assert!(error.contains("ordinary send/reply semantics"));
    }
    assert_eq!(db.events.len(), logged);
    assert!(db.begin_wait("legacy-wait", "alice", &target, None, NOW).unwrap().is_none());
    assert!(db.begin_wait("legacy-wait", "alice", "bob", Some(objection), NOW).unwrap().is_none());
    assert_eq!(WAIT_FEATURE, "message-lifecycle-v1");
}

#[test]
fn replies_that_are_there_need_no_feature() {
    let mut db = setup();
    let request = ask(&mut db, "question");
    answer(&mut db, "reply", &request);
    let reply = db.begin_wait("question", "alice", "bob:OLDP", Some("no"), NOW).unwrap().unwrap();
    assert_eq!(reply.message.get_text("message_id"), Some("reply"));
    assert_eq!(reply.deliveries[0].state, "acknowledged");
    assert!(db.claim_reply_v1("question", "alice", NOW).unwrap().is_none());
}
