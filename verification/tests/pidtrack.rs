//! Launched processes.

use std::path::Path;

use hcom::json::Json;
use hcom::pidtrack::{
    OrphanProcess, PIDFILE_NAME, PidEntry, PidRecord, PidRow, ProcessProbe, RunningInstance,
    get_orphan_processes, is_alive, record_pid, recover_single_orphan, remove_pid,
    snapshot_running_to_pidtrack, tracked_pids,
};
use hcom::registry::{
    Listener, ProcessBinding, Registry, Seat, SessionBinding, recover_single_orphan_to_db,
};

fn rec<'a>(pid: u32, tool: &'a str, name: &'a str) -> PidRecord<'a> {
    PidRecord::new(pid, tool, name, "/tmp")
}

fn entry<'a>(rows: &'a [PidRow], key: &str) -> Option<&'a PidEntry> {
    rows.iter().find(|row| row.key == key).map(|row| &row.entry)
}

fn probe(pid: u32) -> ProcessProbe {
    if Path::new(&format!("/proc/{pid}")).exists() {
        ProcessProbe::Reached
    } else {
        ProcessProbe::NoSuchProcess
    }
}

fn orphan(pid: u32, process_id: &str, session_id: &str) -> OrphanProcess {
    OrphanProcess {
        pid,
        tool: "pi".to_string(),
        names: vec!["luna".to_string()],
        directory: "/tmp".to_string(),
        process_id: process_id.to_string(),
        terminal_preset: String::new(),
        pane_id: String::new(),
        terminal_id: String::new(),
        kitty_listen_on: String::new(),
        zellij_session_name: String::new(),
        session_id: session_id.to_string(),
        notify_port: 0,
        inject_port: 0,
        tag: String::new(),
    }
}

#[test]
fn test_record_and_read() {
    let mut rows = Vec::new();
    record_pid(
        &mut rows,
        &PidRecord {
            pid: 12345,
            tool: "codex",
            name: "luna",
            directory: "/tmp",
            process_id: "pid-1",
            terminal_preset: "kitty",
            pane_id: "pane-1",
            terminal_id: "term-1",
            kitty_listen_on: "/tmp/kitty.sock",
            zellij_session_name: "wise-kangaroo",
            session_id: "sess-1",
            notify_port: 8080,
            inject_port: 8081,
            tag: "test-tag",
        },
        "1.5",
    );
    assert_eq!(rows.len(), 1);
    let entry = entry(&rows, "12345").unwrap();
    assert_eq!(entry.tool, "codex");
    assert_eq!(entry.names, vec!["luna"]);
    assert_eq!(entry.process_id, "pid-1");
    assert_eq!(entry.terminal_preset, "kitty");
    assert_eq!(entry.pane_id, "pane-1");
    assert_eq!(entry.terminal_id, "term-1");
    assert_eq!(entry.kitty_listen_on, "/tmp/kitty.sock");
    assert_eq!(entry.zellij_session_name, "wise-kangaroo");
    assert_eq!(entry.session_id, "sess-1");
    assert_eq!(entry.notify_port, 8080);
    assert_eq!(entry.inject_port, 8081);
    assert_eq!(entry.launched_at, "1.5");
    assert_eq!(PIDFILE_NAME, ".tmp/launched_pids.json");
}

#[test]
fn test_record_appends_name() {
    let mut rows = Vec::new();
    record_pid(&mut rows, &rec(12345, "codex", "luna"), "1");
    record_pid(&mut rows, &rec(12345, "codex", "nova"), "2");
    assert_eq!(entry(&rows, "12345").unwrap().names, vec!["luna", "nova"]);
    record_pid(&mut rows, &rec(12345, "codex", "nova"), "3");
    assert_eq!(entry(&rows, "12345").unwrap().names, vec!["luna", "nova"]);
    assert_eq!(entry(&rows, "12345").unwrap().launched_at, "1");
}

#[test]
fn test_record_fills_empty_fields() {
    let mut rows = Vec::new();
    record_pid(&mut rows, &rec(12345, "codex", "luna"), "1");
    record_pid(
        &mut rows,
        &PidRecord {
            process_id: "pid-1",
            terminal_preset: "kitty",
            zellij_session_name: "wise-kangaroo",
            notify_port: 8080,
            ..rec(12345, "codex", "luna")
        },
        "2",
    );
    let entry = entry(&rows, "12345").unwrap();
    assert_eq!(entry.process_id, "pid-1");
    assert_eq!(entry.terminal_preset, "kitty");
    assert_eq!(entry.zellij_session_name, "wise-kangaroo");
    assert_eq!(entry.notify_port, 8080);
}

#[test]
fn test_record_does_not_overwrite_existing_fields() {
    let mut rows = Vec::new();
    record_pid(
        &mut rows,
        &PidRecord {
            process_id: "pid-1",
            terminal_preset: "kitty",
            ..rec(12345, "codex", "luna")
        },
        "1",
    );
    record_pid(
        &mut rows,
        &PidRecord {
            process_id: "pid-2",
            terminal_preset: "wezterm",
            ..rec(12345, "codex", "luna")
        },
        "2",
    );
    let entry = entry(&rows, "12345").unwrap();
    assert_eq!(entry.process_id, "pid-1");
    assert_eq!(entry.terminal_preset, "kitty");
}

#[test]
fn test_remove_pid() {
    let mut rows = Vec::new();
    record_pid(&mut rows, &rec(12345, "codex", "luna"), "1");
    record_pid(&mut rows, &rec(67890, "gemini", "nova"), "1");
    assert!(remove_pid(&mut rows, 12345));
    assert_eq!(rows.len(), 1);
    assert!(entry(&rows, "67890").is_some());
    assert!(entry(&rows, "12345").is_none());
}

#[test]
fn test_remove_nonexistent_pid() {
    let mut rows = Vec::new();
    record_pid(&mut rows, &rec(12345, "codex", "luna"), "1");
    assert!(!remove_pid(&mut rows, 99999));
    assert_eq!(rows.len(), 1);
}

#[test]
fn test_orphan_prunes_dead_pids() {
    let mut rows = Vec::new();
    record_pid(&mut rows, &rec(99999999, "codex", "dead"), "1");
    let alive: Vec<u32> =
        tracked_pids(&rows).into_iter().filter(|pid| is_alive(probe(*pid))).collect();
    let orphans = get_orphan_processes(&mut rows, &alive, &Vec::new());
    assert!(entry(&rows, "99999999").is_none());
    assert!(orphans.iter().all(|o| o.pid != 99999999));
}

#[test]
fn test_orphan_active_pids_pruned() {
    let mut rows = Vec::new();
    let our_pid: u32 = 4321;
    record_pid(&mut rows, &rec(our_pid, "codex", "luna"), "1");
    let orphans = get_orphan_processes(&mut rows, &vec![our_pid], &vec![our_pid]);
    assert!(orphans.is_empty());
    assert!(entry(&rows, "4321").is_none());
}

#[test]
fn living_processes_without_an_instance_are_orphans() {
    let mut rows = Vec::new();
    record_pid(&mut rows, &rec(10, "codex", "a"), "1");
    record_pid(&mut rows, &rec(20, "pi", "b"), "1");
    record_pid(&mut rows, &rec(30, "pi", "c"), "1");
    let orphans = get_orphan_processes(&mut rows, &vec![20, 30], &vec![30]);
    assert_eq!(orphans.len(), 1);
    assert_eq!(orphans[0].pid, 20);
    assert_eq!(orphans[0].names, vec!["b"]);
    assert_eq!(rows.len(), 1);
    assert_eq!(rows[0].key, "20");
}

#[test]
fn test_empty_pidfile() {
    let mut rows = Vec::new();
    let orphans = get_orphan_processes(&mut rows, &Vec::new(), &Vec::new());
    assert!(orphans.is_empty());
}

#[test]
fn test_is_alive_current_process() {
    assert!(is_alive(if Path::new("/proc/self").exists() {
        ProcessProbe::Reached
    } else {
        ProcessProbe::NoSuchProcess
    }));
    assert!(is_alive(ProcessProbe::NotPermitted));
}

#[test]
fn test_is_alive_dead_process() {
    assert!(!is_alive(probe(99999999)));
}

#[test]
fn recovered_processes_are_registered_with_what_is_known() {
    let mut known = orphan(7, "pid-rebind", "sid-1");
    known.zellij_session_name = "wise-kangaroo".to_string();
    known.inject_port = 8081;
    let plan = recover_single_orphan(&known);
    assert_eq!(plan.session_id.as_deref(), Some("sid-1"));
    assert_eq!(plan.process_id.as_deref(), Some("pid-rebind"));
    assert_eq!(plan.endpoints.len(), 1);
    assert_eq!(plan.endpoints[0].kind, "inject");
    assert_eq!(plan.endpoints[0].port, 8081);
    match plan.launch_context {
        Some(Json::Object(members)) => {
            let keys: Vec<&str> = members.iter().map(|m| m.key.as_str()).collect();
            assert_eq!(keys, vec!["env", "process_id"]);
        }
        other => panic!("{other:?}"),
    }
    let unknown = recover_single_orphan(&orphan(7, "", ""));
    assert!(unknown.launch_context.is_none());
    assert!(unknown.session_id.is_none());
    assert!(unknown.process_id.is_none());
    assert!(unknown.endpoints.is_empty());
}

#[test]
fn running_instances_are_kept_for_a_new_store() {
    let mut rows = Vec::new();
    record_pid(&mut rows, &rec(10, "codex", "old"), "1");
    let running = vec![
        RunningInstance {
            name: "luna".to_string(),
            pid: 10,
            alive: true,
            tool: None,
            directory: None,
            session_id: Some("s".to_string()),
            process_id: None,
            notify_port: Some(80),
            inject_port: None,
        },
        RunningInstance {
            name: "gone".to_string(),
            pid: 11,
            alive: false,
            tool: None,
            directory: None,
            session_id: None,
            process_id: None,
            notify_port: None,
            inject_port: None,
        },
    ];
    snapshot_running_to_pidtrack(&mut rows, &running, "codex", "2");
    assert_eq!(rows.len(), 1);
    assert_eq!(rows[0].entry.tool, "codex");
    assert_eq!(rows[0].entry.names, vec!["luna"]);
    assert_eq!(rows[0].entry.notify_port, 80);
    assert_eq!(rows[0].entry.launched_at, "2");
}

fn seat(name: &str, session_id: Option<&str>, parent: Option<&str>) -> Seat {
    Seat {
        name: name.to_string(),
        session_id: session_id.map(str::to_string),
        parent_session_id: parent.map(str::to_string),
    }
}

fn registry(seats: Vec<Seat>) -> Registry {
    let sessions = seats
        .iter()
        .filter_map(|seat| {
            seat.session_id.as_ref().map(|session_id| SessionBinding {
                session_id: session_id.clone(),
                instance_name: seat.name.clone(),
                created_at: "1".to_string(),
            })
        })
        .collect();
    Registry { seats, sessions, processes: Vec::new(), listeners: Vec::new() }
}

fn session_of<'a>(db: &'a Registry, name: &str) -> Option<Option<&'a str>> {
    db.seats.iter().find(|seat| seat.name == name).map(|seat| seat.session_id.as_deref())
}

#[test]
fn test_recover_single_orphan_rebinds_existing_session_atomically() {
    let mut db = registry(vec![seat("old", Some("sid-1"), None)]);
    let process = orphan(7, "pid-rebind", "sid-1");
    let row = recover_single_orphan_to_db(&mut db, &process, "luna", 9, "9.5").unwrap();
    assert_eq!(session_of(&db, "luna"), Some(Some("sid-1")));
    assert_eq!(session_of(&db, "old"), Some(None));
    assert_eq!(db.sessions.len(), 1);
    assert_eq!(db.sessions[0].session_id, "sid-1");
    assert_eq!(db.sessions[0].instance_name, "luna");
    assert_eq!(db.sessions[0].created_at, "9.5");
    assert_eq!(row.name, "luna");
    assert_eq!(row.tool, "pi");
    assert_eq!(row.status, "listening");
    assert_eq!(row.status_context, "recovered");
    assert_eq!(row.status_time, 9);
    assert_eq!(row.last_seen, 9);
    assert_eq!(row.created_at, "9.5");
    assert_eq!(row.pid, 7);
    assert_eq!(row.directory, "/tmp");
}

#[test]
fn recovered_processes_are_bound_and_reached() {
    let mut db = registry(Vec::new());
    db.processes.push(ProcessBinding {
        process_id: "pid-1".to_string(),
        session_id: None,
        instance_name: Some("gone".to_string()),
        updated_at: "1".to_string(),
    });
    db.listeners.push(Listener {
        instance: "luna".to_string(),
        kind: "pty".to_string(),
        port: 1,
        updated_at: "1".to_string(),
    });
    let mut process = orphan(7, "pid-1", "");
    process.notify_port = 8080;
    process.inject_port = 8081;
    recover_single_orphan_to_db(&mut db, &process, "luna", 9, "9.5").unwrap();
    assert_eq!(session_of(&db, "luna"), Some(None));
    assert!(db.sessions.is_empty());
    assert_eq!(db.processes.len(), 1);
    assert_eq!(db.processes[0].instance_name.as_deref(), Some("luna"));
    assert_eq!(db.processes[0].session_id, None);
    let ports: Vec<(&str, i64)> =
        db.listeners.iter().map(|l| (l.kind.as_str(), l.port)).collect();
    assert_eq!(ports, vec![("pty", 8080), ("inject", 8081)]);
}

#[test]
fn refused_recoveries_register_nothing() {
    let mut db = registry(vec![seat("luna", None, None)]);
    let process = orphan(7, "pid-1", "sid-1");
    assert_eq!(
        recover_single_orphan_to_db(&mut db, &process, "luna", 9, "9.5").unwrap_err(),
        "failed to register orphan 'luna': UNIQUE constraint failed: instances.name"
    );
    assert!(db.sessions.is_empty());
    assert!(db.processes.is_empty());

    let mut db = registry(vec![
        seat("old", Some("sid-1"), None),
        seat("child", None, Some("sid-1")),
    ]);
    assert_eq!(
        recover_single_orphan_to_db(&mut db, &process, "luna", 9, "9.5").unwrap_err(),
        "failed to register orphan 'luna': FOREIGN KEY constraint failed"
    );
    assert_eq!(session_of(&db, "luna"), None);
    assert_eq!(session_of(&db, "old"), Some(Some("sid-1")));
}
