//! The tables of a new database.

use crate::migrate::{needs_init, required_tables};
use crate::schema::SCHEMA_VERSION;
use crate::text::{cat3, lemma_texts_push, texts};
use vstd::prelude::*;

verus! {

/// A table of a new database: its name, and its columns as they are declared.
#[derive(Debug)]
pub struct Table {
    pub name: &'static str,
    pub columns: &'static str,
}

/// The columns of the table of the log.
pub const EVENTS: &'static str =
    "(id INTEGER PRIMARY KEY AUTOINCREMENT, timestamp TEXT NOT NULL, type TEXT NOT NULL, instance TEXT NOT NULL, data TEXT NOT NULL)";

/// The columns of the table of the endpoints that are notified.
pub const NOTIFY_ENDPOINTS: &'static str =
    "(instance TEXT NOT NULL, kind TEXT NOT NULL, port INTEGER NOT NULL, updated_at REAL NOT NULL, PRIMARY KEY (instance, kind))";

/// The columns of the table of the instances of processes.
pub const PROCESS_BINDINGS: &'static str =
    "(process_id TEXT PRIMARY KEY, session_id TEXT, instance_name TEXT, updated_at REAL NOT NULL)";

/// The columns of the table of the instances of sessions.
pub const SESSION_BINDINGS: &'static str =
    "(session_id TEXT PRIMARY KEY, instance_name TEXT NOT NULL, created_at REAL NOT NULL, FOREIGN KEY (instance_name) REFERENCES instances(name) ON DELETE CASCADE)";

/// The columns of the table of what actors in a shell may do.
pub const ACTOR_CAPABILITIES: &'static str =
    "(token TEXT PRIMARY KEY, session_id TEXT NOT NULL, tool_use_id TEXT NOT NULL, agent_id TEXT NOT NULL DEFAULT '', instance_name TEXT NOT NULL, created_at INTEGER NOT NULL, expires_at INTEGER NOT NULL, last_seen INTEGER NOT NULL, UNIQUE(session_id, tool_use_id, agent_id))";

/// The columns of the table of messages.
pub const MESSAGE_RECORDS: &'static str =
    "(message_id TEXT PRIMARY KEY, event_id INTEGER NOT NULL UNIQUE, correlation_id TEXT NOT NULL, sender_name TEXT NOT NULL, sender_session_id TEXT, intent TEXT, expects_reply INTEGER NOT NULL DEFAULT 0, in_reply_to TEXT, legacy_reply_to TEXT, reply_endpoint TEXT, supersedes TEXT, retry_of TEXT, attachments_json TEXT NOT NULL DEFAULT '[]', created_at TEXT NOT NULL)";

/// The columns of the table of deliveries.
pub const MESSAGE_DELIVERIES: &'static str =
    "(message_id TEXT NOT NULL, recipient_name TEXT NOT NULL, endpoint_epoch TEXT NOT NULL DEFAULT '', delivery_endpoint TEXT NOT NULL DEFAULT 'inbox', state TEXT NOT NULL, attempt INTEGER NOT NULL DEFAULT 1, state_event_id INTEGER, last_actor TEXT NOT NULL DEFAULT '', updated_at TEXT NOT NULL, PRIMARY KEY(message_id, recipient_name), FOREIGN KEY(message_id) REFERENCES message_records(message_id) ON DELETE CASCADE)";

/// The columns of the table of values under keys.
pub const KEYS: &'static str =
    "(key TEXT PRIMARY KEY, value TEXT)";

/// The columns of the table of instances, up to the tool of one that names none.
pub const INSTANCES_BEFORE_TOOL: &'static str =
    "(name TEXT PRIMARY KEY, session_id TEXT UNIQUE, parent_session_id TEXT, parent_name TEXT, tag TEXT, last_event_id INTEGER DEFAULT 0, status TEXT DEFAULT 'active', status_time INTEGER DEFAULT 0, last_seen INTEGER DEFAULT 0, status_context TEXT DEFAULT '', status_detail TEXT DEFAULT '', last_stop INTEGER DEFAULT 0, directory TEXT, created_at REAL NOT NULL, transcript_path TEXT DEFAULT '', tcp_mode INTEGER DEFAULT 0, wait_timeout INTEGER, background INTEGER DEFAULT 0, background_log_file TEXT DEFAULT '', name_announced INTEGER DEFAULT 0, agent_id TEXT UNIQUE, running_tasks TEXT DEFAULT '', origin_device_id TEXT DEFAULT '', hints TEXT DEFAULT '', subagent_timeout INTEGER, tool TEXT DEFAULT '";

/// The columns of the table of instances, after the tool of one that names none.
pub const INSTANCES_AFTER_TOOL: &'static str =
    "', launch_args TEXT DEFAULT '', terminal_preset_requested TEXT DEFAULT '', terminal_preset_effective TEXT DEFAULT '', idle_since TEXT DEFAULT '', pid INTEGER DEFAULT NULL, launch_context TEXT DEFAULT '', endpoint_epoch TEXT NOT NULL DEFAULT '', presence_json TEXT NOT NULL DEFAULT '{}', FOREIGN KEY (parent_session_id) REFERENCES instances(session_id) ON DELETE SET NULL)";

/// The statements that make the indexes.
pub const INDEXES: &'static str =
    "CREATE INDEX IF NOT EXISTS idx_notify_endpoints_instance ON notify_endpoints(instance); CREATE INDEX IF NOT EXISTS idx_notify_endpoints_port ON notify_endpoints(port); CREATE INDEX IF NOT EXISTS idx_process_bindings_instance ON process_bindings(instance_name); CREATE INDEX IF NOT EXISTS idx_process_bindings_session ON process_bindings(session_id); CREATE INDEX IF NOT EXISTS idx_session_bindings_instance ON session_bindings(instance_name); CREATE INDEX IF NOT EXISTS idx_claude_actor_expiry ON claude_actor_capabilities(expires_at); CREATE INDEX IF NOT EXISTS idx_claude_actor_session ON claude_actor_capabilities(session_id); CREATE INDEX IF NOT EXISTS idx_message_records_event ON message_records(event_id); CREATE INDEX IF NOT EXISTS idx_message_records_correlation ON message_records(correlation_id); CREATE INDEX IF NOT EXISTS idx_message_records_sender ON message_records(sender_name, created_at); CREATE INDEX IF NOT EXISTS idx_message_records_reply_target ON message_records(in_reply_to); CREATE INDEX IF NOT EXISTS idx_message_records_supersedes ON message_records(supersedes); CREATE INDEX IF NOT EXISTS idx_message_records_retry_of ON message_records(retry_of); CREATE INDEX IF NOT EXISTS idx_message_deliveries_recipient_state ON message_deliveries(recipient_name, state, delivery_endpoint); CREATE INDEX IF NOT EXISTS idx_timestamp ON events(timestamp); CREATE INDEX IF NOT EXISTS idx_type ON events(type); CREATE INDEX IF NOT EXISTS idx_instance ON events(instance); CREATE INDEX IF NOT EXISTS idx_type_instance ON events(type, instance); CREATE INDEX IF NOT EXISTS idx_session_id ON instances(session_id); CREATE INDEX IF NOT EXISTS idx_parent_session_id ON instances(parent_session_id); CREATE INDEX IF NOT EXISTS idx_parent_name ON instances(parent_name); CREATE INDEX IF NOT EXISTS idx_created_at ON instances(created_at DESC); CREATE INDEX IF NOT EXISTS idx_status ON instances(status); CREATE UNIQUE INDEX IF NOT EXISTS idx_agent_id_unique ON instances(agent_id) WHERE agent_id IS NOT NULL; CREATE INDEX IF NOT EXISTS idx_instances_origin ON instances(origin_device_id);";

/// The statements that make the view of the log by the members of its payloads.
pub const EVENTS_VIEW: &'static str =
    "DROP VIEW IF EXISTS events_v; CREATE VIEW IF NOT EXISTS events_v AS SELECT id, timestamp, type, instance, data, json_extract(data, '$.from') as msg_from, json_extract(data, '$.text') as msg_text, json_extract(data, '$.scope') as msg_scope, json_extract(data, '$.sender_kind') as msg_sender_kind, json_extract(data, '$.delivered_to') as msg_delivered_to, json_extract(data, '$.mentions') as msg_mentions, json_extract(data, '$.intent') as msg_intent, json_extract(data, '$.thread') as msg_thread, json_extract(data, '$.reply_to') as msg_reply_to, json_extract(data, '$.reply_to_local') as msg_reply_to_local, json_extract(data, '$.protocol') as msg_protocol, json_extract(data, '$.message_id') as msg_message_id, json_extract(data, '$.correlation_id') as msg_correlation_id, json_extract(data, '$.in_reply_to') as msg_in_reply_to, json_extract(data, '$.expects_reply') as msg_expects_reply, json_extract(data, '$.reply_endpoint') as msg_reply_endpoint, json_extract(data, '$.delivery_endpoint') as msg_delivery_endpoint, json_extract(data, '$.supersedes') as msg_supersedes, json_extract(data, '$.retry_of') as msg_retry_of, json_extract(data, '$.attachments') as msg_attachments, json_extract(data, '$.bundle_id') as bundle_id, json_extract(data, '$.title') as bundle_title, json_extract(data, '$.description') as bundle_description, json_extract(data, '$.extends') as bundle_extends, json_extract(data, '$.refs.events') as bundle_events, json_extract(data, '$.refs.files') as bundle_files, json_extract(data, '$.refs.transcript') as bundle_transcript, json_extract(data, '$.created_by') as bundle_created_by, json_extract(data, '$.status') as status_val, json_extract(data, '$.context') as status_context, json_extract(data, '$.detail') as status_detail, json_extract(data, '$.action') as life_action, json_extract(data, '$.by') as life_by, json_extract(data, '$.batch_id') as life_batch_id, json_extract(data, '$.reason') as life_reason FROM events;";

/// The statements that make the log searchable.
pub const EVENTS_SEARCH: &'static str =
    "CREATE VIRTUAL TABLE IF NOT EXISTS events_fts USING fts5( searchable, tokenize='unicode61' ); CREATE TRIGGER IF NOT EXISTS events_fts_insert AFTER INSERT ON events BEGIN INSERT INTO events_fts(rowid, searchable) VALUES ( new.id, COALESCE(json_extract(new.data, '$.text'), '') || ' ' || COALESCE(json_extract(new.data, '$.from'), '') || ' ' || COALESCE(new.instance, '') || ' ' || COALESCE(json_extract(new.data, '$.context'), '') || ' ' || COALESCE(json_extract(new.data, '$.detail'), '') || ' ' || COALESCE(json_extract(new.data, '$.action'), '') || ' ' || COALESCE(json_extract(new.data, '$.reason'), '') ); END;";

/// The tables that are the same in every new database.
pub open spec fn fixed_tables() -> Seq<Table> {
    seq![
        Table { name: "events", columns: EVENTS },
        Table { name: "notify_endpoints", columns: NOTIFY_ENDPOINTS },
        Table { name: "process_bindings", columns: PROCESS_BINDINGS },
        Table { name: "session_bindings", columns: SESSION_BINDINGS },
        Table { name: "claude_actor_capabilities", columns: ACTOR_CAPABILITIES },
        Table { name: "message_records", columns: MESSAGE_RECORDS },
        Table { name: "message_deliveries", columns: MESSAGE_DELIVERIES },
        Table { name: "kv", columns: KEYS },
    ]
}

/// The statement that makes a table, where it is not there.
pub open spec fn table_made(name: Seq<char>, columns: Seq<char>) -> Seq<char> {
    "CREATE TABLE IF NOT EXISTS "@ + name + " "@ + columns
}

/// The statements that make the first `n` of the tables that are the same in every new database.
pub open spec fn tables_made(n: int) -> Seq<Seq<char>>
    decreases n,
{
    if n <= 0 {
        Seq::empty()
    } else {
        tables_made(n - 1).push(
            table_made(fixed_tables()[n - 1].name@, fixed_tables()[n - 1].columns@),
        )
    }
}

/// The statements that make a new database: its tables, where the tool of an instance that names
/// none is the default one, then what is built on them, and its version last.
pub open spec fn initial_statements(default_tool: Seq<char>) -> Seq<Seq<char>> {
    tables_made(fixed_tables().len() as int) + seq![
        table_made(
            "instances"@,
            INSTANCES_BEFORE_TOOL@ + default_tool + INSTANCES_AFTER_TOOL@,
        ),
        INDEXES@,
        EVENTS_VIEW@,
        EVENTS_SEARCH@,
        "PRAGMA user_version = 19"@,
    ]
}

fn list_fixed_tables() -> (r: Vec<Table>)
    ensures
        r@ == fixed_tables(),
{
    let r: Vec<Table> = vec![
        Table { name: "events", columns: EVENTS },
        Table { name: "notify_endpoints", columns: NOTIFY_ENDPOINTS },
        Table { name: "process_bindings", columns: PROCESS_BINDINGS },
        Table { name: "session_bindings", columns: SESSION_BINDINGS },
        Table { name: "claude_actor_capabilities", columns: ACTOR_CAPABILITIES },
        Table { name: "message_records", columns: MESSAGE_RECORDS },
        Table { name: "message_deliveries", columns: MESSAGE_DELIVERIES },
        Table { name: "kv", columns: KEYS },
    ];
    assert(r@ =~= fixed_tables());
    r
}

fn make_table(name: &str, columns: &str) -> (r: String)
    ensures
        r@ == table_made(name@, columns@),
{
    let mut s: String = cat3("CREATE TABLE IF NOT EXISTS ", name, " ");
    s.append(columns);
    s
}

fn push_statement(v: &mut Vec<String>, s: String)
    ensures
        texts(final(v)@) == texts(old(v)@).push(s@),
{
    proof {
        lemma_texts_push(v@, s);
    }
    v.push(s);
}

/// The statements that make the tables of a database, by the version it is stamped with; nothing
/// where that is the version of the store.
pub fn init_db(version: i32, default_tool: &str) -> (r: Option<Vec<String>>)
    ensures
        match r {
            None => version == SCHEMA_VERSION,
            Some(v) => version != SCHEMA_VERSION && texts(v@) == initial_statements(default_tool@),
        },
{
    if !needs_init(version) {
        return None;
    }
    let tables: Vec<Table> = list_fixed_tables();
    let mut v: Vec<String> = Vec::new();
    assert(texts(v@) =~= Seq::<Seq<char>>::empty());
    let mut i: usize = 0;
    while i < tables.len()
        invariant
            i <= tables@.len(),
            tables@ == fixed_tables(),
            texts(v@) == tables_made(i as int),
        decreases tables.len() - i,
    {
        push_statement(&mut v, make_table(tables[i].name, tables[i].columns));
        i += 1;
    }
    let columns: String = cat3(INSTANCES_BEFORE_TOOL, default_tool, INSTANCES_AFTER_TOOL);
    push_statement(&mut v, make_table("instances", columns.as_str()));
    push_statement(&mut v, INDEXES.to_owned());
    push_statement(&mut v, EVENTS_VIEW.to_owned());
    push_statement(&mut v, EVENTS_SEARCH.to_owned());
    push_statement(&mut v, "PRAGMA user_version = 19".to_owned());
    assert(texts(v@) =~= initial_statements(default_tool@));
    Some(v)
}

/// Whether a statement makes a table.
pub open spec fn makes_table(statement: Seq<char>, table: Seq<char>) -> bool {
    ("CREATE TABLE IF NOT EXISTS "@ + table + " "@).is_prefix_of(statement)
}

/// A new database has every table that the store relies on, and its version is stamped only after
/// all of them are made.
pub proof fn new_databases_have_all_tables(default_tool: Seq<char>, k: int)
    requires
        0 <= k < required_tables().len(),
    ensures
        exists|i: int|
            0 <= i < initial_statements(default_tool).len() - 1 && makes_table(
                #[trigger] initial_statements(default_tool)[i],
                required_tables()[k]@,
            ),
        initial_statements(default_tool).last() == "PRAGMA user_version = 19"@,
{
    reveal_with_fuel(tables_made, 9);
    let all = initial_statements(default_tool);
    assert(all.len() == 13);
    let i: int = if required_tables()[k]@ == "events"@ {
        0
    } else if required_tables()[k]@ == "notify_endpoints"@ {
        1
    } else if required_tables()[k]@ == "session_bindings"@ {
        3
    } else if required_tables()[k]@ == "claude_actor_capabilities"@ {
        4
    } else if required_tables()[k]@ == "message_records"@ {
        5
    } else if required_tables()[k]@ == "message_deliveries"@ {
        6
    } else if required_tables()[k]@ == "kv"@ {
        7
    } else {
        8
    };
    let columns = if i < 8 {
        fixed_tables()[i].columns@
    } else {
        INSTANCES_BEFORE_TOOL@ + default_tool + INSTANCES_AFTER_TOOL@
    };
    assert(all[i] == table_made(required_tables()[k]@, columns));
    assert(("CREATE TABLE IF NOT EXISTS "@ + required_tables()[k]@ + " "@) =~= all[i].take(
        ("CREATE TABLE IF NOT EXISTS "@ + required_tables()[k]@ + " "@).len() as int,
    ));
    assert(makes_table(all[i], required_tables()[k]@));
}

proof fn lemma_tables_made(n: int)
    requires
        0 <= n <= fixed_tables().len(),
    ensures
        tables_made(n).len() == n,
        forall|i: int| 0 <= i < n ==> #[trigger] tables_made(n)[i] == table_made(fixed_tables()[i].name@, fixed_tables()[i].columns@),
    decreases n,
{
    if n > 0 {
        lemma_tables_made(n - 1);
    }
}

/// A database of the version of the store is left as it is. Any other gets its tables, one statement
/// each, then its indexes, the view of the log and its search, and last of all its version; an instance
/// that names no tool gets the default one.
pub proof fn new_databases_are_made_in_order(version: i32, tool: &str, r: Option<Vec<String>>)
    requires
        call_ensures(init_db, (version, tool), r),
    ensures
        version == 19 <==> r is None,
        r matches Some(v) ==> {
            let s = texts(v@);
            &&& s.len() == 13
            &&& s[0] == "CREATE TABLE IF NOT EXISTS "@ + "events"@ + " "@ + EVENTS@
            &&& s[1] == "CREATE TABLE IF NOT EXISTS "@ + "notify_endpoints"@ + " "@ + NOTIFY_ENDPOINTS@
            &&& s[2] == "CREATE TABLE IF NOT EXISTS "@ + "process_bindings"@ + " "@ + PROCESS_BINDINGS@
            &&& s[3] == "CREATE TABLE IF NOT EXISTS "@ + "session_bindings"@ + " "@ + SESSION_BINDINGS@
            &&& s[4] == "CREATE TABLE IF NOT EXISTS "@ + "claude_actor_capabilities"@ + " "@ + ACTOR_CAPABILITIES@
            &&& s[5] == "CREATE TABLE IF NOT EXISTS "@ + "message_records"@ + " "@ + MESSAGE_RECORDS@
            &&& s[6] == "CREATE TABLE IF NOT EXISTS "@ + "message_deliveries"@ + " "@ + MESSAGE_DELIVERIES@
            &&& s[7] == "CREATE TABLE IF NOT EXISTS "@ + "kv"@ + " "@ + KEYS@
            &&& s[8] == "CREATE TABLE IF NOT EXISTS "@ + "instances"@ + " "@ + (INSTANCES_BEFORE_TOOL@ + tool@ + INSTANCES_AFTER_TOOL@)
            &&& s[9] == INDEXES@ && s[10] == EVENTS_VIEW@ && s[11] == EVENTS_SEARCH@
            &&& s[12] == "PRAGMA user_version = 19"@
        },
{
    lemma_tables_made(8);
    let f = fixed_tables();
    assert(f[0].name == "events" && f[1].name == "notify_endpoints" && f[2].name == "process_bindings" && f[3].name == "session_bindings");
    assert(f[4].name == "claude_actor_capabilities" && f[5].name == "message_records" && f[6].name == "message_deliveries" && f[7].name == "kv");
    if r is Some {
        let s = texts(r->0@);
        let made = tables_made(8);
        assert(s[0] == made[0] && s[1] == made[1] && s[2] == made[2] && s[3] == made[3] && s[4] == made[4] && s[5] == made[5] && s[6] == made[6] && s[7] == made[7]);
    }
}

} // verus!
