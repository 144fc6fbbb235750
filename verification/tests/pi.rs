//! The hooks of the plugin, and the plugin.

use hcom::json::{Json, Member};
use hcom::lifecycle::{MessagePersistInput, MessagePersistResult};
use hcom::pi::{
    HookFacts, PiHook, ReadMode, ReadReply, dispatch_pi_hook, ensure_pi_plugin_installed,
    get_pi_plugin_path, has_flag, parse_endpoint_epoch, parse_flag, plan_start, read_start,
    read_status, read_stop, read_tool, reply_acked, reply_error, reply_start, verified_hook_name,
    verify_pi_plugin_installed, wakes_on_status, write_epoch,
};
use hcom::plugin::PLUGIN_SOURCE;
use hcom::store::{HcomDb, Instance, LifecycleError, MESSAGE_PROTOCOL_V1};

const NOW: &str = "2026-01-02T03:04:05Z";

fn setup() -> HcomDb {
    let mut instances = Vec::new();
    for (name, epoch) in
        [("alice", "epoch-alice"), ("bob", "epoch-bob"), ("carol", "epoch-carol")]
    {
        instances.push(Instance {
            name: name.to_string(),
            endpoint_epoch: epoch.to_string(),
            last_event_id: 0,
            origin_device_id: None,
        });
    }
    HcomDb {
        instances,
        events: Vec::new(),
        sequence: 0,
        records: Vec::new(),
        deliveries: Vec::new(),
        watches: Vec::new(),
        kv: Vec::new(),
        notifications: Vec::new(),
    }
}

fn ids(values: &[&str]) -> Vec<String> {
    values.iter().map(|value| value.to_string()).collect()
}

fn list(values: &[&str]) -> Json {
    Json::Array(values.iter().map(|value| Json::text(value)).collect())
}

fn members(values: Vec<(&str, Json)>) -> Vec<Member> {
    values.into_iter().map(|(key, value)| Member { key: key.to_string(), value }).collect()
}

#[allow(clippy::too_many_arguments)]
fn persist(
    db: &mut HcomDb,
    message_id: &str,
    sender: &str,
    recipients: &[&str],
    intent: Option<&str>,
    expects_reply: bool,
    correlation_id: &str,
    in_reply_to: Option<&str>,
    legacy_reply_to: Option<&str>,
    delivery_endpoint: &str,
    reply_endpoint: Option<&str>,
    supersedes: Option<&str>,
    retry_of: Option<&str>,
) -> Result<MessagePersistResult, LifecycleError> {
    let mut data = members(vec![
        ("protocol", Json::text(MESSAGE_PROTOCOL_V1)),
        ("message_id", Json::text(message_id)),
        ("correlation_id", Json::text(correlation_id)),
        ("from", Json::text(sender)),
        ("sender_kind", Json::text("instance")),
        ("scope", Json::text("mentions")),
        ("mentions", list(recipients)),
        ("delivered_to", list(recipients)),
        ("text", Json::text(&format!("text-{message_id}"))),
        ("intent", Json::opt_text(intent)),
        ("expects_reply", Json::Bool(expects_reply)),
        ("delivery_endpoint", Json::text(delivery_endpoint)),
    ]);
    // A request that expects a reply is one that its sender waits for.
    if intent == Some("request") && expects_reply {
        data.extend(members(vec![("reply_mode", Json::text("wait"))]));
    }
    if let Some(value) = in_reply_to {
        data.extend(members(vec![("in_reply_to", Json::text(value))]));
    }
    if let Some(value) = legacy_reply_to {
        data.extend(members(vec![("reply_to", Json::text(value))]));
        if let Ok(event_id) = value.parse::<i64>() {
            data.extend(members(vec![("reply_to_local", Json::Int(event_id))]));
        }
    }
    if let Some(value) = reply_endpoint {
        data.extend(members(vec![("reply_endpoint", Json::text(value))]));
    }
    if let Some(value) = supersedes {
        data.extend(members(vec![("supersedes", Json::text(value))]));
    }
    if let Some(value) = retry_of {
        data.extend(members(vec![("retry_of", Json::text(value))]));
    }
    db.persist_message_v1(
        &MessagePersistInput {
            routing_instance: sender,
            sender_name: sender,
            sender_session_id: None,
            data: &Json::Object(data),
            message_id,
            correlation_id,
            intent,
            expects_reply,
            in_reply_to,
            legacy_reply_to,
            reply_endpoint,
            delivery_endpoint,
            supersedes,
            retry_of,
            attachments_json: "[]",
            recipients: &ids(recipients),
        },
        NOW,
    )
}

#[test]
fn plugin_bootstraps_via_hidden_message() {
    assert!(PLUGIN_SOURCE.contains("before_agent_start"));
    assert!(PLUGIN_SOURCE.contains("customType: \"hcom-bootstrap\""));
    assert!(PLUGIN_SOURCE.contains("display: false"));
    assert!(!PLUGIN_SOURCE.contains("text: `${bootstrapText}\\n\\n${event.text}`"));
}

#[test]
fn plugin_skips_pi_subagent_child_sessions_before_registering_handlers() {
    assert!(PLUGIN_SOURCE.contains("Symbol.for(\"pi-subagents:child-session-context\")"));
    assert!(PLUGIN_SOURCE.contains("if (isPiSubagentChildSession())"));
    assert!(PLUGIN_SOURCE.contains("plugin.bind_skipped_nested"));
    let guard = PLUGIN_SOURCE
        .find("if (isPiSubagentChildSession())")
        .unwrap();
    let first_handler = PLUGIN_SOURCE.find("pi.on(\"session_start\"").unwrap();
    assert!(guard < first_handler);
}

#[test]
fn plugin_reconcile_keeps_idle_workers_alive_without_active_polling() {
    assert!(!PLUGIN_SOURCE.contains(
        "reportStatus(currentCtx, currentCtx.isIdle() ? \"listening\" : \"active\")"
    ));
    assert!(PLUGIN_SOURCE.contains("pi.on(\"agent_end\""));
    assert!(PLUGIN_SOURCE.contains("IDLE_DEBOUNCE_MS"));
    assert!(PLUGIN_SOURCE.contains("LISTENING_HEARTBEAT_MS = 5_000"));
    assert!(PLUGIN_SOURCE.contains("10s no-TCP stale threshold"));
    assert!(PLUGIN_SOURCE.contains("lastListeningHeartbeatAt"));
    assert!(PLUGIN_SOURCE.contains("heartbeatDue"));
    assert!(PLUGIN_SOURCE.contains("currentCtx?.isIdle()"));
    assert!(!PLUGIN_SOURCE.contains("pi.on(\"turn_end\", async (_event, ctx) => {\n\t\tcurrentCtx = ctx;\n\t\tawait reportStatus(ctx, \"listening\");"));
}

#[test]
fn plugin_preserves_identity_across_in_process_session_replacement() {
    assert!(
        PLUGIN_SOURCE.contains("[\"reload\", \"new\", \"resume\", \"fork\"].includes(reason)")
    );
    assert!(PLUGIN_SOURCE.contains("if (instanceName && !replacingSession)"));
    assert!(PLUGIN_SOURCE.contains("plugin.session_replacement"));
    assert!(
        PLUGIN_SOURCE.contains(
            "await hcom([\"pi-stop\", \"--name\", instanceName, \"--reason\", reason])"
        )
    );
}

#[test]
fn plugin_cleans_reconcile_timer_between_session_runtimes() {
    assert!(PLUGIN_SOURCE.contains("function stopReconcileTimer(): void"));
    assert!(PLUGIN_SOURCE.contains("clearInterval(reconcileTimer)"));
    assert!(
        PLUGIN_SOURCE.contains("function resetBinding(): void {\n\t\tstopReconcileTimer();")
    );
}

#[test]
fn plugin_delivery_reports_active_edge() {
    assert!(PLUGIN_SOURCE.contains("reportStatus(ctx, \"active\""));
    assert!(PLUGIN_SOURCE.contains("`deliver:${sender}`"));
}

#[test]
fn plugin_reports_ui_prompt_waiting_without_status_races() {
    assert!(PLUGIN_SOURCE.contains("pi.on(\"ui_prompt_start\""));
    assert!(PLUGIN_SOURCE.contains("pi.on(\"ui_prompt_end\""));
    assert!(
        PLUGIN_SOURCE.contains("reportStatus(ctx, \"blocked\", \"ui_prompt\", event.kind)")
    );
    assert!(PLUGIN_SOURCE.contains("epoch !== uiPromptEpoch || !uiPromptActive"));
    assert!(PLUGIN_SOURCE.contains("if (ctx.isIdle() && !uiPromptActive)"));
    assert!(PLUGIN_SOURCE.contains("if (!uiPromptActive) await pollPendingIfDue(ctx)"));
    assert!(PLUGIN_SOURCE.contains("await deliverPending(ctx)"));
}

#[test]
fn plugin_waits_for_real_prompt_acceptance_before_ack() {
    assert!(!PLUGIN_SOURCE.contains("ctx.ui.notify(formatted)"));
    assert!(PLUGIN_SOURCE.contains("onAccepted: resolve"));
    assert!(PLUGIN_SOURCE.contains("if (!accepted)"));
    assert!(PLUGIN_SOURCE.contains("rememberDelivered(pending.messages)"));
    assert!(PLUGIN_SOURCE.contains("await ackPending(idle ?"));
    assert!(!PLUGIN_SOURCE.contains("await pi.sendUserMessage(formatted)"));
    assert!(
        !PLUGIN_SOURCE.contains("event.source === \"extension\") {\n\t\t\tawait ackPending")
    );
}

#[test]
fn plugin_persists_delivery_ids_across_reload() {
    assert!(PLUGIN_SOURCE.contains("pi-delivery"));
    assert!(PLUGIN_SOURCE.contains("closed-workers.json"));
    assert!(PLUGIN_SOURCE.contains("isClosedSupervisionWorker"));
    assert!(PLUGIN_SOURCE.contains("deliveredMessageIds"));
    assert!(PLUGIN_SOURCE.contains("loadDeliveryLedger("));
    assert!(PLUGIN_SOURCE.contains("ctx.sessionManager.getEntries()"));
    assert!(PLUGIN_SOURCE.contains("collectDeliveredIdsFromMessage"));
    assert!(PLUGIN_SOURCE.contains("ENOENT is a normal fresh-session state"));
    assert!(PLUGIN_SOURCE.contains("rememberDelivered(pending.messages)"));
    assert!(PLUGIN_SOURCE.contains("!deliveredMessageIds.has(Number(m.event_id))"));
    assert!(PLUGIN_SOURCE.contains("--ack\", \"--up-to"));
}

#[test]
fn plugin_keeps_ack_gate_until_command_succeeds() {
    let idx = PLUGIN_SOURCE
        .find("async function ackPending")
        .expect("ackPending present");
    let ack = &PLUGIN_SOURCE[idx..];
    let command = ack.find("const result = await hcom").expect("ack command");
    let clear = ack.find("pendingAckId = null").expect("pending ack clear");
    assert!(command < clear);
    assert!(ack.contains("if (result.code !== 0)"));
    assert!(ack.contains("plugin.deferred_ack_failed"));
    assert!(PLUGIN_SOURCE.contains("await ackPending(\"reconcile\")"));
}


#[test]
fn pi_plugin_exposes_native_message_lifecycle_contract() {
    assert!(PLUGIN_SOURCE.contains("const endpointEpoch = randomUUID()"));
    assert!(PLUGIN_SOURCE.contains("--endpoint-epoch"));
    assert!(PLUGIN_SOURCE.contains("pi.registerTool({"));
    assert!(PLUGIN_SOURCE.contains("name: \"hcom\""));
    assert!(PLUGIN_SOURCE.contains("Use hcom when"));
    assert!(PLUGIN_SOURCE.contains("Only one active HCOM ask is allowed"));
    assert!(PLUGIN_SOURCE.contains("\"wait\""));
    assert!(PLUGIN_SOURCE.contains("\"cancel\""));
    assert!(PLUGIN_SOURCE.contains("pi.registerCommand(\"hcom\""));
    assert!(PLUGIN_SOURCE.contains("pi.registerShortcut(\"alt+m\""));
    assert!(PLUGIN_SOURCE.contains("CURSOR_MARKER"));
    assert!(PLUGIN_SOURCE.contains("requestRender()"));
    assert!(PLUGIN_SOURCE.contains("plugin.ui_overlay_failed"));
    assert!(PLUGIN_SOURCE.contains("stale HCOM session generation"));
    assert!(PLUGIN_SOURCE.contains("child.kill(\"SIGTERM\")"));
    assert!(PLUGIN_SOURCE.contains("child.kill(\"SIGKILL\")"));
    assert!(PLUGIN_SOURCE.contains("pi-rich-presence-v1"));
    assert!(PLUGIN_SOURCE.contains("message_id"));
    assert!(PLUGIN_SOURCE.contains("attachment?.sha256"));
}

#[test]
fn pi_plugin_child_bridge_is_scoped_and_parent_only() {
    assert!(PLUGIN_SOURCE.contains("pi-subagents:supervisor-bridge-context"));
    assert!(PLUGIN_SOURCE.contains("pi-subagents:supervisor-bridge-provider"));
    assert!(PLUGIN_SOURCE.contains("name: \"contact_supervisor\""));
    assert!(PLUGIN_SOURCE.contains("progress_update"));
    assert!(PLUGIN_SOURCE.contains("need_decision"));
    assert!(PLUGIN_SOURCE.contains("interview_request"));
    assert!(PLUGIN_SOURCE.contains("Only one active HCOM ask is allowed"));
    assert!(PLUGIN_SOURCE.contains("bridge.expiresAt <= Date.now()"));
    assert!(PLUGIN_SOURCE.contains("runtimeGeneration === expectedGeneration"));
    assert!(PLUGIN_SOURCE.contains("Parent HCOM session changed"));
    assert!(
        PLUGIN_SOURCE
            .contains("never ask for or infer a target agent name or capability token")
    );
    assert!(!PLUGIN_SOURCE.contains("target_name: seed"));
}

fn bound_to(name: &str, asserted: &str) -> HookFacts {
    HookFacts {
        process_id: Some("pi-process".to_string()),
        binding: Ok(Some(name.to_string())),
        live: Ok(true),
        asserted: Ok(asserted.to_string()),
    }
}

fn epoch_of(db: &HcomDb, name: &str) -> String {
    db.instances[db.find_instance(name).unwrap()].endpoint_epoch.clone()
}

#[test]
fn status_handler_wakes_plugin_only_when_entering_listening() {
    let argv = ids(&["--name", "luna", "--status", "listening"]);
    let request = read_status(&argv).unwrap();
    assert_eq!(request.status, "listening");
    assert!(!wakes_on_status(&request.status, Some("listening")));
    assert!(wakes_on_status(&request.status, Some("active")));
    assert!(!wakes_on_status("active", Some("listening")));
}

#[test]
fn pi_status_piggybacks_bounded_rich_presence() {
    let presence = "{\"provider\":\"openai-codex\",\"model\":\"gpt-5.6-sol\",\
        \"endpointEpoch\":\"00000000-0000-4000-8000-000000000000\"}";
    let argv = ids(&["--name", "luna", "--status", "listening", "--presence", presence]);
    assert_eq!(verified_hook_name(&bound_to("luna", "luna"), &argv).unwrap(), "luna");
    assert_eq!(read_status(&argv).unwrap().presence.as_deref(), Some(presence));
}

#[test]
fn pi_lifecycle_name_is_only_a_consistency_assertion() {
    let facts = bound_to("alice", "bob");
    for argv in [
        ids(&["--name", "bob"]),
        ids(&["--name", "bob", "--status", "listening"]),
        ids(&["--name", "bob", "--tool", "bash"]),
    ] {
        assert!(verified_hook_name(&facts, &argv).is_err());
    }
    assert_eq!(verified_hook_name(&facts, &ids(&[])).unwrap(), "alice");
    assert_eq!(verified_hook_name(&bound_to("alice", "alice"), &ids(&["--name", "alice"])).unwrap(), "alice");
}

#[test]
fn hooks_need_a_bound_and_living_process() {
    let mut facts = bound_to("alice", "alice");
    facts.live = Ok(false);
    assert!(verified_hook_name(&facts, &ids(&[])).is_err());
    facts.live = Ok(true);
    facts.binding = Ok(None);
    assert!(verified_hook_name(&facts, &ids(&[])).is_err());
    facts.binding = Err("locked".to_string());
    assert!(verified_hook_name(&facts, &ids(&[])).is_err());
    facts.process_id = None;
    assert!(verified_hook_name(&facts, &ids(&[])).is_err());
}

#[test]
fn pi_fetch_claims_received_and_ack_failure_keeps_cursor_and_state() {
    let mut db = setup();
    let persisted = persist(
        &mut db,
        "pi-atomic-ack",
        "bob",
        &["alice"],
        Some("inform"),
        false,
        "pi-atomic-ack",
        None,
        None,
        "inbox",
        None,
        None,
        None,
    )
    .unwrap();
    let unread = vec![Some(persisted.event_id)];
    let known = vec![Some("pi-atomic-ack".to_string())];

    let fetch = ids(&["--name", "alice"]);
    match db.handle_read("alice", &fetch, &unread, &known, NOW) {
        ReadReply::Shown { mode, shown } => {
            assert_eq!(mode, ReadMode::List);
            assert_eq!(shown, vec![true]);
        }
        other => panic!("{other:?}"),
    }
    assert_eq!(db.inspect_message_v1("pi-atomic-ack").unwrap().deliveries[0].state, "received");

    let event_id = persisted.event_id.to_string();
    let ack = ids(&["--name", "alice", "--ack", "--up-to", &event_id]);
    let sequence = db.sequence;
    db.sequence = i64::MAX - 1;
    match db.handle_read("alice", &ack, &unread, &known, NOW) {
        ReadReply::Failed(words) => assert!(words.contains("Pi ACK commit failed")),
        other => panic!("{other:?}"),
    }
    assert_eq!(db.instances[0].last_event_id, 0);
    assert_eq!(db.inspect_message_v1("pi-atomic-ack").unwrap().deliveries[0].state, "received");

    db.sequence = sequence;
    match db.handle_read("alice", &ack, &unread, &known, NOW) {
        ReadReply::Acked { to, count, transitions } => {
            assert_eq!(to, persisted.event_id);
            assert_eq!(count, None);
            assert_eq!(transitions, 2);
        }
        other => panic!("{other:?}"),
    }
    assert_eq!(db.instances[0].last_event_id, persisted.event_id);
    assert_eq!(
        db.inspect_message_v1("pi-atomic-ack").unwrap().deliveries[0].state,
        "acknowledged"
    );
}

#[test]
fn reads_refuse_bad_ids_and_have_forms() {
    let mut db = setup();
    let none: Vec<Option<i64>> = Vec::new();
    let unknown: Vec<Option<String>> = Vec::new();
    match db.handle_read("alice", &ids(&["--ack", "--up-to", "x"]), &none, &unknown, NOW) {
        ReadReply::Failed(words) => assert_eq!(words, "Invalid --up-to: x"),
        other => panic!("{other:?}"),
    }
    assert!(matches!(
        db.handle_read("alice", &ids(&["--ack"]), &none, &unknown, NOW),
        ReadReply::NothingToAck
    ));
    assert!(matches!(
        db.handle_read("alice", &ids(&["--check"]), &none, &unknown, NOW),
        ReadReply::Shown { mode: ReadMode::Check, .. }
    ));
    assert!(matches!(
        db.handle_read("alice", &ids(&["--format"]), &none, &unknown, NOW),
        ReadReply::Shown { mode: ReadMode::Format, .. }
    ));
    match db.handle_read("alice", &ids(&["--ack"]), &vec![Some(4), None, Some(9)], &unknown, NOW) {
        ReadReply::Acked { to, count, transitions } => {
            assert_eq!((to, count, transitions), (9, Some(3), 0));
        }
        other => panic!("{other:?}"),
    }
    match db.handle_read("nobody", &ids(&["--ack", "--up-to", "1"]), &none, &unknown, NOW) {
        ReadReply::Failed(words) => assert_eq!(
            words,
            "Pi ACK commit failed: verified inbox recipient not found"
        ),
        other => panic!("{other:?}"),
    }
}

#[test]
fn pi_start_endpoint_epoch_retries_are_idempotent_and_explicit_changes_rotate() {
    let mut db = setup();
    let first_epoch = "11111111-1111-4111-8111-111111111111";
    let second_epoch = "22222222-2222-4222-8222-222222222222";
    let process = Some("pi-endpoint".to_string());

    for epoch in [first_epoch, first_epoch, second_epoch] {
        let argv = ids(&["--session-id", "pi-session", "--endpoint-epoch", epoch]);
        let request = read_start(&argv, &process).unwrap();
        let kept = db.rotate_endpoint_epoch("alice", &request.endpoint_epoch);
        let response = reply_start("alice", &request.session_id, &kept, "");
        assert_eq!(response.get_text("endpoint_epoch"), Some(epoch));
        assert_eq!(epoch_of(&db, "alice"), epoch);
    }
    let argv = ids(&["--session-id", "pi-session", "--endpoint-epoch", "not-a-uuid"]);
    assert!(read_start(&argv, &process).unwrap_err().contains("36-character UUID"));
    assert_eq!(epoch_of(&db, "alice"), second_epoch);
}

#[test]
fn endpoint_epochs_are_read_as_ids() {
    let read = |epoch: &str| parse_endpoint_epoch(&ids(&["--endpoint-epoch", epoch]));
    assert_eq!(parse_endpoint_epoch(&ids(&[])).unwrap(), None);
    assert_eq!(
        read("A1B2C3D4-E5F6-4A7B-8C9D-0E1F2A3B4C5D").unwrap().as_deref(),
        Some("a1b2c3d4-e5f6-4a7b-8c9d-0e1f2a3b4c5d")
    );
    assert!(read("a1b2c3d4e5f64a7b8c9d0e1f2a3b4c5d").is_err());
    assert_eq!(
        write_epoch(Some(10)).unwrap().as_deref(),
        Some("00000000-0000-0000-0000-00000000000a")
    );
    assert_eq!(write_epoch(None).unwrap_err(), "--endpoint-epoch must be a valid UUID");
    assert!(read("a1b2c3d4-e5f6-4a7b-8c9d-0e1f2a3b4c5g").is_err());
}

#[test]
fn starting_reads_what_the_plugin_says() {
    let process = Some("p1".to_string());
    let argv = ids(&[
        "--session-id", "s1", "--cwd", "/w", "--notify-port", "80", "--transcript-path", "/t",
    ]);
    let request = read_start(&argv, &process).unwrap();
    assert_eq!(request.session_id, "s1");
    assert_eq!(request.process_id, "p1");
    assert_eq!(request.cwd.as_deref(), Some("/w"));
    assert_eq!(request.notify_port, Some(80));
    assert_eq!(request.transcript_path.as_deref(), Some("/t"));
    let plan = plan_start(&request, &None);
    assert_eq!(plan.get_text("directory"), Some("/w"));
    assert!(read_start(&ids(&[]), &process).is_err());
    assert!(read_start(&argv, &None).is_err());
    assert_eq!(reply_error("no").get_text("error"), Some("no"));
    let acked = reply_acked(9, None, 2);
    assert_eq!(acked.get_int("acked_to"), Some(9));
    assert_eq!(acked.get_int("receipt_transitions"), Some(2));
    assert!(matches!(acked.get("acked"), Some(Json::Null)));
}

#[test]
fn hooks_are_called_by_name() {
    let (hook, args) = dispatch_pi_hook("pi-stop", &ids(&["pi-stop", "--reason", "quit"])).unwrap();
    assert_eq!(hook, PiHook::Stop);
    assert_eq!(read_stop(&args), "quit");
    assert_eq!(read_stop(&ids(&[])), "unknown");
    assert_eq!(read_tool(&ids(&["--tool", "bash"])).as_deref(), Some("bash"));
    assert_eq!(dispatch_pi_hook("pi-x", &ids(&[])).unwrap_err(), "Unknown Pi hook: pi-x");
    assert_eq!(parse_flag(&ids(&["--a", "b"]), "--a").as_deref(), Some("b"));
    assert_eq!(parse_flag(&ids(&["--a"]), "--a"), None);
    assert!(has_flag(&ids(&["--a"]), "--a"));
}

#[test]
fn plugins_are_installed_under_the_root_of_the_tool() {
    assert_eq!(
        get_pi_plugin_path("/home/u", "/home/u", &None),
        "/home/u/.pi/agent/extensions/hcom.ts"
    );
    assert_eq!(
        get_pi_plugin_path("/home/u", "/home/u", &Some("/a".to_string())),
        "/a/extensions/hcom.ts"
    );
    assert_eq!(
        get_pi_plugin_path("/sandbox", "/home/u", &None),
        "/sandbox/.pi/extensions/hcom.ts"
    );
    assert!(verify_pi_plugin_installed(Some(PLUGIN_SOURCE)));
    assert!(!verify_pi_plugin_installed(Some("old")));
    assert_eq!(ensure_pi_plugin_installed(Some(PLUGIN_SOURCE)), None);
    assert_eq!(ensure_pi_plugin_installed(None), Some(PLUGIN_SOURCE));
}

#[test]
fn new_instances_start_where_the_log_ends() {
    let mut db = setup();
    assert_eq!(db.get_last_event_id(), 0);
    let at = db.insert_event(NOW, "life", "bob", Json::Null).unwrap();
    assert_eq!(db.get_last_event_id(), at);
    db.initialize_last_event_id("alice", None);
    assert_eq!(db.instances[0].last_event_id, at);
}

#[test]
fn explicit_wait_reply_mode_is_exclusive_and_not_injected() {
    let mut db = setup();
    let request = persist(
        &mut db,
        "request",
        "alice",
        &["bob"],
        Some("request"),
        true,
        "request",
        None,
        None,
        "inbox",
        Some("request:request"),
        None,
        None,
    )
    .unwrap();
    persist(
        &mut db,
        "reply",
        "bob",
        &["alice"],
        Some("ack"),
        false,
        "request",
        Some("request"),
        Some(&request.event_id.to_string()),
        "request:request",
        None,
        None,
        None,
    )
    .unwrap();
    let raw = vec![Some("reply".to_string())];
    match db.handle_read("alice", &Vec::new(), &Vec::new(), &raw, NOW) {
        ReadReply::Shown { shown, .. } => assert_eq!(shown, vec![false]),
        other => panic!("{other:?}"),
    }
    let waited = db.begin_wait("request", "alice", "bob", None, NOW).unwrap().unwrap();
    assert_eq!(waited.message.get_text("message_id"), Some("reply"));
    assert_eq!(waited.deliveries[0].state, "acknowledged");
}
