//! The schema of the database, and how an older one is brought up to it.

use rusqlite::Connection;

use hcom::initial::init_db;
use hcom::migrate::{
    CompatFacts, EnsureStep, LockedSchemaResult, MIGRATION_FAILED, MigrationStep, Reconciled,
    ReconcileStep, SchemaCompat, SqliteCode, WatchStep, begin_ensure, check_schema_compat_on,
    continue_ensure, finish_migration, is_transient_schema_error, may_be_in_the_making,
    needs_init, reconcile_schema, repair_migrate_from, try_apply_migrations, was_replaced,
    watch_version,
};
use hcom::repair::{RepairFacts, RepairStage};
use hcom::schema::{
    ColumnShape, CopyColumn, ForeignKey, IndexShape, MessageSchema, SCHEMA_VERSION,
    copy_projection, holds_column, message_indexes_v19_complete, message_schema_v19_complete,
    repair_message_indexes_v19,
};
use hcom::store::HcomDb;

const TOOL: &str = "codex";

fn columns(conn: &Connection, table: &str) -> Vec<ColumnShape> {
    let mut statement = conn.prepare(&format!("PRAGMA table_info({table})")).unwrap();
    statement
        .query_map((), |row| {
            Ok(ColumnShape {
                name: row.get(1)?,
                not_null: row.get::<_, i64>(3)? != 0,
                primary_key_position: row.get(5)?,
            })
        })
        .unwrap()
        .map(|row| row.unwrap())
        .collect()
}

fn index_columns(conn: &Connection, index: &str) -> Vec<String> {
    let mut statement = conn.prepare(&format!("PRAGMA index_info({index})")).unwrap();
    statement
        .query_map((), |row| row.get::<_, Option<String>>(2))
        .unwrap()
        .map(|row| row.unwrap().unwrap_or_default())
        .collect()
}

fn names(conn: &Connection, kind: &str) -> Vec<String> {
    let mut statement =
        conn.prepare("SELECT name FROM sqlite_master WHERE type = ?1").unwrap();
    statement
        .query_map((kind,), |row| row.get::<_, String>(0))
        .unwrap()
        .map(|row| row.unwrap())
        .collect()
}

fn message_schema(conn: &Connection) -> MessageSchema {
    let mut record_indexes = Vec::new();
    let mut statement = conn.prepare("PRAGMA index_list(message_records)").unwrap();
    let listed: Vec<(String, bool)> = statement
        .query_map((), |row| Ok((row.get::<_, String>(1)?, row.get::<_, i64>(2)? != 0)))
        .unwrap()
        .map(|row| row.unwrap())
        .collect();
    for (name, unique) in listed {
        record_indexes.push(IndexShape { columns: index_columns(conn, &name), name, unique });
    }
    let mut statement = conn.prepare("PRAGMA foreign_key_list(message_deliveries)").unwrap();
    let delivery_keys = statement
        .query_map((), |row| {
            Ok(ForeignKey {
                parent: row.get(2)?,
                from: row.get(3)?,
                to: row.get(4)?,
                on_delete: row.get(6)?,
            })
        })
        .unwrap()
        .map(|row| row.unwrap())
        .collect();
    let indexes = names(conn, "index")
        .into_iter()
        .map(|name| IndexShape { columns: index_columns(conn, &name), name, unique: false })
        .collect();
    MessageSchema {
        records: columns(conn, "message_records"),
        deliveries: columns(conn, "message_deliveries"),
        record_indexes,
        delivery_keys,
        indexes,
    }
}

fn version(conn: &Connection) -> i32 {
    conn.query_row("PRAGMA user_version", (), |row| row.get(0)).unwrap()
}

fn compat(conn: &Connection) -> SchemaCompat {
    check_schema_compat_on(&CompatFacts {
        version: version(conn),
        tables: names(conn, "table"),
        settled_version: version(conn),
        instance_columns: columns(conn, "instances"),
        schema: message_schema(conn),
    })
}

fn count(conn: &Connection, table: &str) -> i64 {
    if !names(conn, "table").contains(&table.to_string()) {
        return 0;
    }
    conn.query_row(&format!("SELECT COUNT(*) FROM {table}"), (), |row| row.get(0)).unwrap()
}

fn violations(conn: &Connection, table: &str) -> bool {
    if !names(conn, "table").contains(&table.to_string()) {
        return false;
    }
    let mut statement = conn.prepare(&format!("PRAGMA foreign_key_check({table})")).unwrap();
    statement.exists(()).unwrap()
}

fn repair(conn: &Connection) -> Result<(), String> {
    let mut stage = RepairStage::Start;
    while stage != RepairStage::Done {
        let facts = RepairFacts {
            tables: names(conn, "table"),
            schema: message_schema(conn),
            record_count: count(conn, "message_records"),
            delivery_count: count(conn, "message_deliveries"),
            copied_records: count(conn, "message_records_v19_new"),
            copied_deliveries: count(conn, "message_deliveries_v19_new"),
            violations: violations(conn, "message_deliveries")
                || violations(conn, "message_deliveries_v19_new"),
        };
        let (next, statements) = stage.next(&facts)?;
        for statement in statements {
            conn.execute_batch(&statement).map_err(|error| error.to_string())?;
        }
        stage = next;
    }
    Ok(())
}

fn migrate(conn: &Connection) -> Result<LockedSchemaResult, String> {
    let has_instances = names(conn, "table").contains(&"instances".to_string());
    let columns = columns(conn, "instances");
    match reconcile_schema(compat(conn), has_instances, &columns) {
        ReconcileStep::Finish(result) => Ok(result),
        ReconcileStep::Migrate(steps) => {
            for step in steps {
                match step {
                    MigrationStep::Run(sql) => {
                        conn.execute_batch(sql).map_err(|error| error.to_string())?
                    }
                    MigrationStep::RepairMessages => repair(conn)?,
                    MigrationStep::Stamp(version) => conn
                        .execute_batch(&format!("PRAGMA user_version = {version}"))
                        .map_err(|error| error.to_string())?,
                }
            }
            Ok(finish_migration(compat(conn)))
        }
    }
}

fn initialize(conn: &Connection) {
    if let Some(statements) = init_db(version(conn), TOOL) {
        for statement in statements {
            conn.execute_batch(&statement).unwrap();
        }
    }
}

/// Brings a database up to the store; the reason, where it would be archived.
fn ensure_schema(conn: &Connection) -> Result<Option<String>, String> {
    match begin_ensure(&compat(conn)) {
        EnsureStep::Init => {
            initialize(conn);
            return Ok(None);
        }
        EnsureStep::Reconcile => {}
        _ => return Ok(None),
    }
    conn.execute_batch("BEGIN IMMEDIATE").unwrap();
    let (outcome, cause) = match migrate(conn) {
        Ok(LockedSchemaResult::Ready) => (Reconciled::Ready, None),
        Ok(LockedSchemaResult::Archive(reason)) => (Reconciled::Archive(reason), None),
        Err(cause) => (Reconciled::Failed(false), Some(cause)),
    };
    let end = if matches!(outcome, Reconciled::Ready) { "COMMIT" } else { "ROLLBACK" };
    conn.execute_batch(end).unwrap();
    match continue_ensure(outcome, 1) {
        EnsureStep::Archive(reason) => Ok(Some(reason)),
        EnsureStep::Fail => Err(format!("{MIGRATION_FAILED}: {}", cause.unwrap_or_default())),
        _ => Ok(None),
    }
}

fn complete(conn: &Connection) -> bool {
    let schema = message_schema(conn);
    message_schema_v19_complete(&schema) && message_indexes_v19_complete(&schema.indexes)
}

fn setup_full_test_db() -> Connection {
    let conn = Connection::open_in_memory().unwrap();
    conn.execute_batch("PRAGMA foreign_keys = ON").unwrap();
    initialize(&conn);
    conn
}

fn scratch_tables(conn: &Connection) -> i64 {
    conn.query_row(
        "SELECT COUNT(*) FROM sqlite_master
         WHERE type = 'table' AND name GLOB 'message_*_v19_*'",
        (),
        |row| row.get(0),
    )
    .unwrap()
}

#[test]
fn test_init_db_creates_all_tables() {
    let conn = setup_full_test_db();
    let tables = names(&conn, "table");
    for expected in [
        "events",
        "instances",
        "kv",
        "notify_endpoints",
        "process_bindings",
        "session_bindings",
        "claude_actor_capabilities",
        "message_records",
        "message_deliveries",
    ] {
        assert!(tables.contains(&expected.to_string()), "missing {expected}");
    }
    assert!(complete(&conn));
}

#[test]
fn test_init_db_sets_schema_version() {
    assert_eq!(version(&setup_full_test_db()), SCHEMA_VERSION);
}

#[test]
fn test_init_db_idempotent() {
    let conn = setup_full_test_db();
    initialize(&conn);
    assert_eq!(version(&conn), SCHEMA_VERSION);
    assert!(init_db(SCHEMA_VERSION, TOOL).is_none());
    assert!(!needs_init(SCHEMA_VERSION));
}

#[test]
fn test_init_db_creates_events_v_view() {
    let count: i64 = setup_full_test_db()
        .query_row(
            "SELECT COUNT(*) FROM sqlite_master WHERE type='view' AND name='events_v'",
            (),
            |row| row.get(0),
        )
        .unwrap();
    assert_eq!(count, 1);
}

#[test]
fn test_init_db_creates_fts5_table() {
    let count: i64 = setup_full_test_db()
        .query_row(
            "SELECT COUNT(*) FROM sqlite_master WHERE name='events_fts'",
            (),
            |row| row.get(0),
        )
        .unwrap();
    assert!(count > 0, "events_fts should exist");
}

#[test]
fn sessions_with_children_stay_with_their_instance() {
    let conn = setup_full_test_db();
    conn.execute_batch(
        "INSERT INTO instances (name, session_id, created_at) VALUES ('old', 'sid-1', 1);
         INSERT INTO instances (name, parent_session_id, created_at) VALUES ('child', 'sid-1', 1);",
    )
    .unwrap();
    let taken = conn
        .execute_batch("INSERT INTO instances (name, created_at) VALUES ('old', 1)")
        .unwrap_err();
    assert!(taken.to_string().contains("UNIQUE constraint failed: instances.name"));
    let parted = conn
        .execute_batch("UPDATE instances SET session_id = NULL WHERE session_id = 'sid-1'")
        .unwrap_err();
    assert!(parted.to_string().contains("FOREIGN KEY constraint failed"));
}

#[test]
fn test_init_db_fts_trigger_indexes_on_insert() {
    let conn = setup_full_test_db();
    conn.execute_batch(
        "INSERT INTO events (timestamp, type, instance, data)
         VALUES ('2026-01-01T00:00:00Z', 'message', 'luna', '{\"text\":\"hello world\",\"from\":\"luna\"}')",
    )
    .unwrap();
    let count: i64 = conn
        .query_row(
            "SELECT COUNT(*) FROM events_fts WHERE searchable MATCH 'hello'",
            (),
            |row| row.get(0),
        )
        .unwrap();
    assert_eq!(count, 1);
    let from: String =
        conn.query_row("SELECT msg_from FROM events_v", (), |row| row.get(0)).unwrap();
    assert_eq!(from, "luna");
}

#[test]
fn new_instances_have_the_default_tool() {
    let conn = setup_full_test_db();
    conn.execute_batch("INSERT INTO instances (name, created_at) VALUES ('luna', 1.0)").unwrap();
    let tool: String = conn.query_row("SELECT tool FROM instances", (), |row| row.get(0)).unwrap();
    assert_eq!(tool, TOOL);
}

#[test]
fn test_check_schema_compat_fresh_db() {
    let conn = setup_full_test_db();
    match compat(&conn) {
        SchemaCompat::Compatible => {}
        other => panic!("{other:?}"),
    }
}

#[test]
fn test_ensure_schema_fresh_db() {
    let conn = Connection::open_in_memory().unwrap();
    assert_eq!(ensure_schema(&conn), Ok(None));
    assert_eq!(version(&conn), SCHEMA_VERSION);
}

const OLD_TABLES: &str = "
    CREATE TABLE events (id INTEGER PRIMARY KEY, timestamp TEXT, type TEXT, instance TEXT, data TEXT);
    CREATE TABLE kv (key TEXT PRIMARY KEY, value TEXT);
    CREATE TABLE notify_endpoints (instance TEXT, kind TEXT, port INTEGER, updated_at REAL, PRIMARY KEY(instance, kind));
    CREATE TABLE session_bindings (session_id TEXT PRIMARY KEY, instance_name TEXT NOT NULL, created_at REAL NOT NULL);";

#[test]
fn test_ensure_schema_archives_old_version() {
    let conn = Connection::open_in_memory().unwrap();
    conn.execute_batch(OLD_TABLES).unwrap();
    conn.execute_batch(
        "CREATE TABLE instances (name TEXT PRIMARY KEY, created_at REAL NOT NULL);
         PRAGMA user_version = 5;",
    )
    .unwrap();
    assert!(ensure_schema(&conn).unwrap().is_some());
    assert_eq!(version(&conn), 5);
}

#[test]
fn test_ensure_schema_migrates_v16_to_v18_in_place_without_status_time() {
    let conn = Connection::open_in_memory().unwrap();
    conn.execute_batch(OLD_TABLES).unwrap();
    conn.execute_batch(
        "CREATE TABLE instances (
             name TEXT PRIMARY KEY,
             tool TEXT DEFAULT 'codex',
             created_at REAL NOT NULL,
             launch_context TEXT DEFAULT ''
         );
         INSERT INTO instances (name, tool, created_at, launch_context)
         VALUES ('luna', 'codex', 1.0, '{\"terminal_preset\":\"ghostty-tab\"}');
         PRAGMA user_version = 16;",
    )
    .unwrap();
    assert_eq!(ensure_schema(&conn), Ok(None));
    assert_eq!(version(&conn), SCHEMA_VERSION);
    let (preset, launch_context, last_seen): (String, String, i64) = conn
        .query_row(
            "SELECT terminal_preset_effective, launch_context, last_seen FROM instances
             WHERE name = 'luna'",
            (),
            |row| Ok((row.get(0)?, row.get(1)?, row.get(2)?)),
        )
        .unwrap();
    assert_eq!(preset, "ghostty-tab");
    assert_eq!(launch_context, "{\"terminal_preset\":\"ghostty-tab\"}");
    assert_eq!(last_seen, 0);
}

#[test]
fn test_ensure_schema_migrates_v17_to_v18_using_status_time() {
    let conn = Connection::open_in_memory().unwrap();
    conn.execute_batch(OLD_TABLES).unwrap();
    conn.execute_batch(
        "CREATE TABLE instances (
             name TEXT PRIMARY KEY,
             tool TEXT DEFAULT 'codex',
             status_time INTEGER DEFAULT 0,
             created_at REAL NOT NULL,
             launch_context TEXT DEFAULT '',
             terminal_preset_requested TEXT DEFAULT '',
             terminal_preset_effective TEXT DEFAULT ''
         );
         INSERT INTO instances (name, tool, status_time, created_at)
         VALUES ('luna', 'codex', 123, 1.0);
         PRAGMA user_version = 17;",
    )
    .unwrap();
    assert_eq!(ensure_schema(&conn), Ok(None));
    let last_seen: i64 = conn
        .query_row("SELECT last_seen FROM instances WHERE name = 'luna'", (), |row| row.get(0))
        .unwrap();
    assert_eq!(last_seen, 123);
}

#[test]
fn test_ensure_schema_column_guard() {
    let conn = Connection::open_in_memory().unwrap();
    conn.execute_batch(OLD_TABLES).unwrap();
    conn.execute_batch(
        "CREATE TABLE instances (name TEXT PRIMARY KEY, created_at REAL NOT NULL);
         CREATE TABLE claude_actor_capabilities (
             token TEXT PRIMARY KEY,
             session_id TEXT NOT NULL,
             tool_use_id TEXT NOT NULL,
             agent_id TEXT NOT NULL DEFAULT '',
             instance_name TEXT NOT NULL,
             created_at INTEGER NOT NULL,
             expires_at INTEGER NOT NULL,
             last_seen INTEGER NOT NULL,
             UNIQUE(session_id, tool_use_id, agent_id)
         );
         CREATE TABLE message_records (
             message_id TEXT PRIMARY KEY,
             event_id INTEGER NOT NULL UNIQUE,
             correlation_id TEXT NOT NULL,
             sender_name TEXT NOT NULL,
             sender_session_id TEXT,
             intent TEXT,
             expects_reply INTEGER NOT NULL DEFAULT 0,
             in_reply_to TEXT,
             legacy_reply_to TEXT,
             reply_endpoint TEXT,
             supersedes TEXT,
             retry_of TEXT,
             attachments_json TEXT NOT NULL DEFAULT '[]',
             created_at TEXT NOT NULL
         );
         CREATE TABLE message_deliveries (
             message_id TEXT NOT NULL,
             recipient_name TEXT NOT NULL,
             endpoint_epoch TEXT NOT NULL DEFAULT '',
             delivery_endpoint TEXT NOT NULL DEFAULT 'inbox',
             state TEXT NOT NULL,
             attempt INTEGER NOT NULL DEFAULT 1,
             state_event_id INTEGER,
             last_actor TEXT NOT NULL DEFAULT '',
             updated_at TEXT NOT NULL,
             PRIMARY KEY(message_id, recipient_name)
         );
         PRAGMA user_version = 19;",
    )
    .unwrap();
    match compat(&conn) {
        SchemaCompat::NeedsArchive { reason, .. } => {
            assert!(reason.contains("instances.tool"), "reason: {reason}");
        }
        other => panic!("{other:?}"),
    }
    assert!(ensure_schema(&conn).unwrap().is_some());
}

#[test]
fn test_ensure_schema_repairs_stamped_but_not_migrated_db() {
    let conn = Connection::open_in_memory().unwrap();
    conn.execute_batch(OLD_TABLES).unwrap();
    conn.execute_batch(
        "CREATE TABLE instances (
             name TEXT PRIMARY KEY,
             session_id TEXT UNIQUE,
             parent_session_id TEXT,
             parent_name TEXT,
             tag TEXT,
             last_event_id INTEGER DEFAULT 0,
             status TEXT DEFAULT 'active',
             status_time INTEGER DEFAULT 0,
             status_context TEXT DEFAULT '',
             status_detail TEXT DEFAULT '',
             last_stop INTEGER DEFAULT 0,
             directory TEXT,
             created_at REAL NOT NULL,
             transcript_path TEXT DEFAULT '',
             tcp_mode INTEGER DEFAULT 0,
             wait_timeout INTEGER DEFAULT 86400,
             background INTEGER DEFAULT 0,
             background_log_file TEXT DEFAULT '',
             name_announced INTEGER DEFAULT 0,
             agent_id TEXT UNIQUE,
             running_tasks TEXT DEFAULT '',
             origin_device_id TEXT DEFAULT '',
             hints TEXT DEFAULT '',
             subagent_timeout INTEGER,
             tool TEXT DEFAULT 'codex',
             launch_args TEXT DEFAULT '',
             idle_since TEXT DEFAULT '',
             pid INTEGER DEFAULT NULL,
             launch_context TEXT DEFAULT ''
         );
         CREATE TABLE process_bindings (process_id TEXT PRIMARY KEY, session_id TEXT, instance_name TEXT, updated_at REAL NOT NULL);
         INSERT INTO instances (name, tool, created_at) VALUES ('luna', 'codex', 1.0);
         PRAGMA user_version = 17;",
    )
    .unwrap();
    assert!(!holds_column(&columns(&conn, "instances"), "terminal_preset_requested"));
    assert_eq!(ensure_schema(&conn), Ok(None));
    assert_eq!(version(&conn), SCHEMA_VERSION);
    let after = columns(&conn, "instances");
    assert!(holds_column(&after, "terminal_preset_requested"));
    assert!(holds_column(&after, "terminal_preset_effective"));
    let name: String = conn
        .query_row("SELECT name FROM instances WHERE name = 'luna'", (), |row| row.get(0))
        .unwrap();
    assert_eq!(name, "luna");
}

#[test]
fn test_schema_18_to_19_migrates_in_place_preserving_events_instances_and_cursor() {
    let conn = setup_full_test_db();
    conn.execute_batch(
        "INSERT INTO instances (name, last_event_id, created_at) VALUES ('luna', 41, 1.0);
         INSERT INTO events (id, timestamp, type, instance, data)
         VALUES (42, '2026-01-01T00:00:00Z', 'message', 'luna', '{\"text\":\"preserve\"}');
         DROP TABLE message_deliveries;
         DROP TABLE message_records;
         PRAGMA user_version = 18;",
    )
    .unwrap();
    assert_eq!(ensure_schema(&conn), Ok(None));
    assert_eq!(version(&conn), 19);
    assert!(complete(&conn));
    let cursor: i64 = conn
        .query_row("SELECT last_event_id FROM instances WHERE name = 'luna'", (), |row| {
            row.get(0)
        })
        .unwrap();
    assert_eq!(cursor, 41);
    let event: String = conn
        .query_row("SELECT data FROM events WHERE id = 42", (), |row| row.get(0))
        .unwrap();
    assert!(event.contains("preserve"));
}

#[test]
fn test_incomplete_v19_repairs_idempotently_without_losing_state_planes() {
    let conn = setup_full_test_db();
    conn.execute_batch(
        "INSERT INTO instances (name, last_event_id, created_at) VALUES ('nova', 77, 1.0);
         INSERT INTO events (id, timestamp, type, instance, data)
         VALUES (78, '2026-01-01T00:00:00Z', 'status', 'nova', '{\"status\":\"active\"}');
         DROP TABLE message_deliveries;
         DROP TABLE message_records;
         CREATE TABLE message_records (message_id TEXT PRIMARY KEY);
         PRAGMA user_version = 19;",
    )
    .unwrap();
    assert_eq!(ensure_schema(&conn), Ok(None));
    assert_eq!(ensure_schema(&conn), Ok(None));
    assert!(complete(&conn));
    let cursor: i64 = conn
        .query_row("SELECT last_event_id FROM instances WHERE name = 'nova'", (), |row| {
            row.get(0)
        })
        .unwrap();
    assert_eq!(cursor, 77);
    assert_eq!(count(&conn, "events"), 1);
    assert_eq!(count(&conn, "instances"), 1);
}

#[test]
fn test_incomplete_v19_reconstruction_preserves_accepted_delivery() {
    let conn = setup_full_test_db();
    conn.execute_batch(
        "INSERT INTO events (id, timestamp, type, instance, data)
         VALUES (500, '2026-01-01T00:00:00Z', 'message', 'sender', '{}');
         DROP TABLE message_deliveries;
         DROP TABLE message_records;
         CREATE TABLE message_records (
             message_id TEXT, event_id INTEGER, correlation_id TEXT, sender_name TEXT,
             sender_session_id TEXT, intent TEXT, expects_reply INTEGER,
             in_reply_to TEXT, legacy_reply_to TEXT, reply_endpoint TEXT,
             supersedes TEXT, retry_of TEXT, attachments_json TEXT, created_at TEXT
         );
         CREATE TABLE message_deliveries (
             message_id TEXT, recipient_name TEXT, endpoint_epoch TEXT,
             delivery_endpoint TEXT, state TEXT, attempt INTEGER,
             state_event_id INTEGER, last_actor TEXT, updated_at TEXT
         );
         INSERT INTO message_records VALUES (
             'msg-accepted', 500, 'corr-500', 'sender', 'session-s', 'request', 1,
             NULL, NULL, 'request:msg-accepted', NULL, NULL, '[]',
             '2026-01-01T00:00:00Z'
         );
         INSERT INTO message_deliveries VALUES (
             'msg-accepted', 'recipient', 'epoch-7', 'inbox', 'accepted', 2,
             501, 'recipient', '2026-01-01T00:00:01Z'
         );
         PRAGMA user_version = 19;",
    )
    .unwrap();
    assert_eq!(ensure_schema(&conn), Ok(None));
    assert!(complete(&conn));
    let delivery: (String, String, String, i64, Option<i64>, String, String) = conn
        .query_row(
            "SELECT message_id, endpoint_epoch, state, attempt, state_event_id,
                    last_actor, updated_at
             FROM message_deliveries WHERE recipient_name = 'recipient'",
            (),
            |row| {
                Ok((
                    row.get(0)?,
                    row.get(1)?,
                    row.get(2)?,
                    row.get(3)?,
                    row.get(4)?,
                    row.get(5)?,
                    row.get(6)?,
                ))
            },
        )
        .unwrap();
    assert_eq!(
        delivery,
        (
            "msg-accepted".to_string(),
            "epoch-7".to_string(),
            "accepted".to_string(),
            2,
            Some(501),
            "recipient".to_string(),
            "2026-01-01T00:00:01Z".to_string(),
        )
    );
    assert_eq!(count(&conn, "message_records"), 1);
    assert!(!violations(&conn, "message_deliveries"));
    assert_eq!(scratch_tables(&conn), 0);
}

#[test]
fn test_impossible_v19_lossless_repair_fails_closed_without_archive() {
    let conn = setup_full_test_db();
    conn.execute_batch(
        "DROP TABLE message_deliveries;
         DROP TABLE message_records;
         CREATE TABLE message_records (
             message_id TEXT PRIMARY KEY,
             correlation_id TEXT NOT NULL,
             sender_name TEXT NOT NULL,
             created_at TEXT NOT NULL
         );
         CREATE TABLE message_deliveries (
             message_id TEXT NOT NULL,
             recipient_name TEXT NOT NULL,
             endpoint_epoch TEXT NOT NULL DEFAULT '',
             delivery_endpoint TEXT NOT NULL DEFAULT 'inbox',
             state TEXT NOT NULL,
             attempt INTEGER NOT NULL DEFAULT 1,
             state_event_id INTEGER,
             last_actor TEXT NOT NULL DEFAULT '',
             updated_at TEXT NOT NULL,
             PRIMARY KEY(message_id, recipient_name),
             FOREIGN KEY(message_id) REFERENCES message_records(message_id) ON DELETE CASCADE
         );
         INSERT INTO message_records
             (message_id, correlation_id, sender_name, created_at)
         VALUES ('cannot-prove', 'corr-x', 'sender', '2026-01-01T00:00:00Z');
         PRAGMA user_version = 19;",
    )
    .unwrap();
    let message = ensure_schema(&conn).unwrap_err();
    assert!(message.contains("lossless v19 lifecycle repair cannot be proven"));
    assert!(message.contains("missing required column event_id"));
    assert!(message.contains("database was not archived or deleted"));
    let kept: String = conn
        .query_row("SELECT message_id FROM message_records", (), |row| row.get(0))
        .unwrap();
    assert_eq!(kept, "cannot-prove");
    assert_eq!(version(&conn), SCHEMA_VERSION);
    assert_eq!(scratch_tables(&conn), 0);
}

#[test]
fn newer_databases_are_left_alone() {
    let conn = setup_full_test_db();
    conn.execute_batch("PRAGMA user_version = 20").unwrap();
    assert!(matches!(compat(&conn), SchemaCompat::StaleProcess));
    assert_eq!(ensure_schema(&conn), Ok(None));
    assert_eq!(version(&conn), 20);
}

#[test]
fn databases_in_the_making_are_watched() {
    assert!(may_be_in_the_making(0, &vec!["events".to_string()]));
    assert!(!may_be_in_the_making(0, &Vec::new()));
    assert!(!may_be_in_the_making(19, &vec!["events".to_string()]));
}

#[test]
fn failures_are_tried_again_where_they_may_pass() {
    assert!(is_transient_schema_error(&vec![SqliteCode::Other, SqliteCode::DatabaseBusy]));
    assert!(!is_transient_schema_error(&vec![SqliteCode::Other]));
    assert!(matches!(continue_ensure(Reconciled::Failed(true), 1), EnsureStep::Retry(10)));
    assert!(matches!(continue_ensure(Reconciled::Failed(true), 2), EnsureStep::Retry(20)));
    assert!(matches!(continue_ensure(Reconciled::Failed(true), 3), EnsureStep::Fail));
    assert!(matches!(continue_ensure(Reconciled::Failed(false), 1), EnsureStep::Fail));
    assert!(matches!(continue_ensure(Reconciled::Ready, 1), EnsureStep::Done));
}

#[test]
fn migrations_start_at_a_known_version() {
    assert!(try_apply_migrations(15, &Vec::new()).is_none());
    let steps = try_apply_migrations(18, &Vec::new()).unwrap();
    assert!(matches!(steps.last(), Some(MigrationStep::Stamp(19))));
    assert_eq!(repair_migrate_from(&Vec::new(), 16), 16);
}

#[test]
fn complete_indexes_are_left_alone() {
    let conn = setup_full_test_db();
    assert!(repair_message_indexes_v19(&message_schema(&conn).indexes).is_empty());
    conn.execute_batch("DROP INDEX idx_message_records_sender").unwrap();
    let repairs = repair_message_indexes_v19(&message_schema(&conn).indexes);
    assert_eq!(repairs.len(), 1);
    conn.execute_batch(&repairs[0]).unwrap();
    assert!(complete(&conn));
}

#[test]
fn columns_are_copied_only_without_loss() {
    let specs = vec![
        CopyColumn { name: "a", missing_default: None, empty_placeholder: "''" },
        CopyColumn { name: "b", missing_default: Some("NULL"), empty_placeholder: "NULL" },
    ];
    let held = vec![ColumnShape { name: "a".to_string(), not_null: false, primary_key_position: 0 }];
    assert_eq!(copy_projection(&held, 1, &specs).unwrap(), "a, NULL");
    assert_eq!(copy_projection(&Vec::new(), 0, &specs).unwrap(), "'', NULL");
    assert!(copy_projection(&Vec::new(), 1, &specs).unwrap_err().contains("column a"));
}

#[test]
fn replaced_files_are_noticed() {
    assert!(was_replaced(2, 1));
    assert!(!was_replaced(1, 1));
    assert!(!was_replaced(0, 1));
}

#[test]
fn resets_are_logged_with_the_id_of_the_device() {
    let mut db = HcomDb {
        instances: Vec::new(),
        events: Vec::new(),
        sequence: 0,
        records: Vec::new(),
        deliveries: Vec::new(),
        watches: Vec::new(),
        kv: Vec::new(),
        notifications: Vec::new(),
    };
    let contents = Some("device-1\n".to_string());
    db.log_reset_event(&contents, "2026-01-01T00:00:00Z", "1767225600").unwrap();
    assert_eq!(db.events.len(), 1);
    assert_eq!(db.events[0].instance, "_device");
    assert_eq!(db.events[0].data.get_text("action"), Some("reset"));
    assert_eq!(db.last_logged_reset(), Some(1_767_225_600));
}

#[test]
fn versions_are_watched_for_twenty_reads() {
    for settles_at in [1, 20, 21] {
        let mut reads: u32 = 0;
        let mut last = None;
        let mut waited = 0;
        let version = loop {
            match watch_version(reads, last) {
                WatchStep::Read => {
                    reads += 1;
                    last = Some(if reads == settles_at { 7 } else { 0 });
                }
                WatchStep::Pause(millis) => {
                    waited += millis;
                    last = None;
                }
                WatchStep::Settled(version) => break version,
            }
        };
        let (settled, paused) = if settles_at <= 20 { (7, settles_at - 1) } else { (0, 20) };
        assert_eq!(version, settled);
        assert_eq!(waited, u64::from(paused) * 50);
        assert_eq!(reads, settles_at.min(20));
    }
}
