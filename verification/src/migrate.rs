//! Whether a database fits the store, and how one that does not is brought up to it.

use crate::json::{Json, JsonV, Member, MemberV, lemma_object, member, object_view, push_member};
use crate::rows::views;
use crate::schema::{
    ColumnShape, MessageSchema, MessageSchemaV, SCHEMA_VERSION, ShapeV, has_column, holds_column,
    indexes_complete, message_indexes_v19_complete, message_schema_v19_complete, schema_complete,
};
use crate::space::{trim_text, trimmed};
use crate::store::{DbV, ErrorV, HcomDb, LifecycleError, event_logged};
use crate::sync::kv_put;
use crate::text::{cat, cat3, decimal, decimal_text, holds_text, opt_text, texts};
use vstd::prelude::*;

verus! {

/// The statements that bring a database to version 17.
pub const MIGRATION_17: &'static str =
    "ALTER TABLE instances ADD COLUMN terminal_preset_requested TEXT DEFAULT ''; ALTER TABLE instances ADD COLUMN terminal_preset_effective TEXT DEFAULT ''; UPDATE instances SET terminal_preset_effective = json_extract(launch_context, '$.terminal_preset') WHERE launch_context != '' AND json_valid(launch_context) AND json_extract(launch_context, '$.terminal_preset') IS NOT NULL;";

/// The statements that bring a database to version 18.
pub const MIGRATION_18: &'static str =
    "ALTER TABLE instances ADD COLUMN last_seen INTEGER DEFAULT 0; CREATE TABLE IF NOT EXISTS claude_actor_capabilities (token TEXT PRIMARY KEY, session_id TEXT NOT NULL, tool_use_id TEXT NOT NULL, agent_id TEXT NOT NULL DEFAULT '', instance_name TEXT NOT NULL, created_at INTEGER NOT NULL, expires_at INTEGER NOT NULL, last_seen INTEGER NOT NULL, UNIQUE(session_id, tool_use_id, agent_id)); CREATE INDEX IF NOT EXISTS idx_claude_actor_expiry ON claude_actor_capabilities(expires_at); CREATE INDEX IF NOT EXISTS idx_claude_actor_session ON claude_actor_capabilities(session_id);";

/// The statements that bring a database to version 19.
pub const MIGRATION_19: &'static str =
    "CREATE TABLE IF NOT EXISTS message_records (message_id TEXT PRIMARY KEY, event_id INTEGER NOT NULL UNIQUE, correlation_id TEXT NOT NULL, sender_name TEXT NOT NULL, sender_session_id TEXT, intent TEXT, expects_reply INTEGER NOT NULL DEFAULT 0, in_reply_to TEXT, legacy_reply_to TEXT, reply_endpoint TEXT, supersedes TEXT, retry_of TEXT, attachments_json TEXT NOT NULL DEFAULT '[]', created_at TEXT NOT NULL); CREATE TABLE IF NOT EXISTS message_deliveries (message_id TEXT NOT NULL, recipient_name TEXT NOT NULL, endpoint_epoch TEXT NOT NULL DEFAULT '', delivery_endpoint TEXT NOT NULL DEFAULT 'inbox', state TEXT NOT NULL, attempt INTEGER NOT NULL DEFAULT 1, state_event_id INTEGER, last_actor TEXT NOT NULL DEFAULT '', updated_at TEXT NOT NULL, PRIMARY KEY(message_id, recipient_name), FOREIGN KEY(message_id) REFERENCES message_records(message_id) ON DELETE CASCADE); CREATE INDEX IF NOT EXISTS idx_message_records_event ON message_records(event_id); CREATE INDEX IF NOT EXISTS idx_message_records_correlation ON message_records(correlation_id); CREATE INDEX IF NOT EXISTS idx_message_records_sender ON message_records(sender_name, created_at); CREATE INDEX IF NOT EXISTS idx_message_records_reply_target ON message_records(in_reply_to); CREATE INDEX IF NOT EXISTS idx_message_records_supersedes ON message_records(supersedes); CREATE INDEX IF NOT EXISTS idx_message_records_retry_of ON message_records(retry_of); CREATE INDEX IF NOT EXISTS idx_message_deliveries_recipient_state ON message_deliveries(recipient_name, state, delivery_endpoint);";

/// The statement that adds the context that an instance was launched in.
pub const ADD_LAUNCH_CONTEXT: &'static str =
    "ALTER TABLE instances ADD COLUMN launch_context TEXT DEFAULT ''";

/// The statement that adds the epoch of the endpoint of an instance.
pub const ADD_ENDPOINT_EPOCH: &'static str =
    "ALTER TABLE instances ADD COLUMN endpoint_epoch TEXT NOT NULL DEFAULT ''";

/// The statement that adds the presence of an instance.
pub const ADD_PRESENCE: &'static str =
    "ALTER TABLE instances ADD COLUMN presence_json TEXT NOT NULL DEFAULT '{}'";

/// The statement that takes the last change of status for the time an instance was last seen.
pub const FILL_LAST_SEEN: &'static str =
    "UPDATE instances SET last_seen = status_time WHERE last_seen = 0";

/// Whether a database fits the store.
#[derive(Debug)]
pub enum SchemaCompat {
    /// It fits, or is new.
    Compatible,
    /// It does not fit, for that reason; it is of that version, where it has one.
    NeedsArchive { reason: String, version: Option<i32> },
    /// It is newer than the store, which works with it as it is.
    StaleProcess,
}

/// The view of a [`SchemaCompat`].
pub enum CompatV {
    Compatible,
    NeedsArchive { reason: Seq<char>, version: Option<i32> },
    StaleProcess,
}

impl View for SchemaCompat {
    type V = CompatV;

    open spec fn view(&self) -> CompatV {
        match self {
            SchemaCompat::Compatible => CompatV::Compatible,
            SchemaCompat::NeedsArchive { reason, version } => CompatV::NeedsArchive {
                reason: reason@,
                version: *version,
            },
            SchemaCompat::StaleProcess => CompatV::StaleProcess,
        }
    }
}

/// What a database says of itself.
#[derive(Debug)]
pub struct CompatFacts {
    /// The version that it is stamped with.
    pub version: i32,
    pub tables: Vec<String>,
    /// The version that it was stamped with while it was watched, where it had none at first; zero
    /// where it got none.
    pub settled_version: i32,
    /// The columns of the table of instances.
    pub instance_columns: Vec<ColumnShape>,
    pub schema: MessageSchema,
}

/// The view of [`CompatFacts`].
pub struct CompatFactsV {
    pub version: i32,
    pub tables: Seq<Seq<char>>,
    pub settled_version: i32,
    pub instance_columns: Seq<ShapeV>,
    pub schema: MessageSchemaV,
}

impl View for CompatFacts {
    type V = CompatFactsV;

    open spec fn view(&self) -> CompatFactsV {
        CompatFactsV {
            version: self.version,
            tables: texts(self.tables@),
            settled_version: self.settled_version,
            instance_columns: views(self.instance_columns@),
            schema: self.schema@,
        }
    }
}

/// The tables that the store needs.
pub open spec fn required_tables() -> Seq<&'static str> {
    seq![
        "events",
        "instances",
        "kv",
        "notify_endpoints",
        "session_bindings",
        "claude_actor_capabilities",
        "message_records",
        "message_deliveries",
    ]
}

fn list_required_tables() -> (r: Vec<&'static str>)
    ensures
        r@ == required_tables(),
{
    let r: Vec<&'static str> = vec![
        "events",
        "instances",
        "kv",
        "notify_endpoints",
        "session_bindings",
        "claude_actor_capabilities",
        "message_records",
        "message_deliveries",
    ];
    assert(r@ =~= required_tables());
    r
}

/// Whether a database has some table that the store needs.
pub open spec fn has_some_table(tables: Seq<Seq<char>>) -> bool {
    exists|i: int|
        0 <= i < required_tables().len() && tables.contains((#[trigger] required_tables()[i])@)
}

fn holds_some_table(tables: &Vec<String>) -> (r: bool)
    ensures
        r == has_some_table(texts(tables@)),
{
    let required: Vec<&'static str> = list_required_tables();
    let mut i: usize = 0;
    while i < required.len()
        invariant
            i <= required@.len(),
            required@ == required_tables(),
            forall|k: int|
                0 <= k < i ==> !texts(tables@).contains((#[trigger] required_tables()[k])@),
        decreases required.len() - i,
    {
        if holds_text(tables, required[i]) {
            assert(texts(tables@).contains(required_tables()[i as int]@));
            return true;
        }
        i += 1;
    }
    false
}

/// Whether a database is to be watched before it is judged: it has tables of the store and no
/// version yet, so another process may be setting it up.
pub fn may_be_in_the_making(version: i32, tables: &Vec<String>) -> (r: bool)
    ensures
        r == (version == 0 && has_some_table(texts(tables@))),
{
    version == 0 && holds_some_table(tables)
}

/// How often the version of a database that may be in the making is read.
pub const VERSION_READS: u32 = 20;

/// How long is waited, in milliseconds, after a version was read and there was none.
pub const VERSION_PAUSE_MS: u64 = 50;

/// What is next for a database that may be in the making.
#[derive(Debug, Clone, Copy, PartialEq, Eq, Structural)]
pub enum WatchStep {
    /// Its version is read.
    Read,
    /// Nothing is done for some milliseconds.
    Pause(u64),
    /// It is judged by this version: zero where none has come.
    Settled(i32),
}

/// What is next for a database that may be in the making, after its version was read some times:
/// the version that was read last, or none where there was a pause since.
pub open spec fn watched(reads: int, last: Option<i32>) -> WatchStep {
    match last {
        Some(v) => if v != 0 {
            WatchStep::Settled(v)
        } else {
            WatchStep::Pause(VERSION_PAUSE_MS)
        },
        None => if reads < VERSION_READS {
            WatchStep::Read
        } else {
            WatchStep::Settled(0)
        },
    }
}

/// Decides what is next for a database that may be in the making: its version is read up to
/// [`VERSION_READS`] times, with a pause after each that gave none.
pub fn watch_version(reads: u32, last: Option<i32>) -> (r: WatchStep)
    ensures
        r == watched(reads as int, last),
{
    match last {
        Some(v) => if v != 0 {
            WatchStep::Settled(v)
        } else {
            WatchStep::Pause(VERSION_PAUSE_MS)
        },
        None => if reads < VERSION_READS {
            WatchStep::Read
        } else {
            WatchStep::Settled(0)
        },
    }
}

/// The names of those of the first `n` tables that a database lacks, in quotes and with commas
/// between them.
pub open spec fn missing_tables(tables: Seq<Seq<char>>, n: int) -> Seq<char>
    decreases n,
{
    if n <= 0 {
        Seq::empty()
    } else {
        let before = missing_tables(tables, n - 1);
        let name = required_tables()[n - 1]@;
        if tables.contains(name) {
            before
        } else if before.len() == 0 {
            "\""@ + name + "\""@
        } else {
            before + ", \""@ + name + "\""@
        }
    }
}

fn list_missing_tables(tables: &Vec<String>) -> (r: String)
    ensures
        r@ == missing_tables(texts(tables@), required_tables().len() as int),
{
    let required: Vec<&'static str> = list_required_tables();
    let mut out: String = String::new();
    let mut i: usize = 0;
    assert(out@ =~= Seq::<char>::empty());
    while i < required.len()
        invariant
            i <= required@.len(),
            required@ == required_tables(),
            out@ == missing_tables(texts(tables@), i as int),
        decreases required.len() - i,
    {
        if !holds_text(tables, required[i]) {
            if out.as_str().unicode_len() == 0 {
                out = cat3("\"", required[i], "\"");
            } else {
                out.append(", \"");
                out.append(required[i]);
                out.append("\"");
            }
        }
        i += 1;
    }
    out
}

/// The columns of the table of instances that the store needs.
pub open spec fn required_instance_columns() -> Seq<&'static str> {
    seq![
        "tool",
        "terminal_preset_requested",
        "terminal_preset_effective",
        "last_seen",
        "endpoint_epoch",
        "presence_json",
    ]
}

/// The first of the first `n` columns that a table of instances lacks.
pub open spec fn missing_column(columns: Seq<ShapeV>, n: int) -> Option<Seq<char>>
    decreases n,
{
    if n <= 0 {
        None
    } else {
        match missing_column(columns, n - 1) {
            Some(c) => Some(c),
            None => if has_column(columns, required_instance_columns()[n - 1]@) {
                None
            } else {
                Some(required_instance_columns()[n - 1]@)
            },
        }
    }
}

fn find_missing_column(columns: &Vec<ColumnShape>) -> (r: Option<&'static str>)
    ensures
        match r {
            Some(s) => missing_column(
                views(columns@),
                required_instance_columns().len() as int,
            ) == Some(s@),
            None => missing_column(
                views(columns@),
                required_instance_columns().len() as int,
            ) is None,
        },
{
    let required: Vec<&'static str> = vec![
        "tool",
        "terminal_preset_requested",
        "terminal_preset_effective",
        "last_seen",
        "endpoint_epoch",
        "presence_json",
    ];
    assert(required@ =~= required_instance_columns());
    let mut found: Option<&'static str> = None;
    let mut i: usize = 0;
    while i < required.len()
        invariant
            i <= required@.len(),
            required@ == required_instance_columns(),
            match found {
                Some(s) => missing_column(views(columns@), i as int) == Some(s@),
                None => missing_column(views(columns@), i as int) is None,
            },
        decreases required.len() - i,
    {
        if found.is_none() && !holds_column(columns, required[i]) {
            found = Some(required[i]);
        }
        i += 1;
    }
    found
}

/// Whether a database fits the store.
pub open spec fn compat(f: CompatFactsV) -> CompatV {
    if f.version == 0 {
        if !has_some_table(f.tables) {
            CompatV::Compatible
        } else if f.settled_version == SCHEMA_VERSION || f.settled_version == 0 {
            CompatV::Compatible
        } else if f.settled_version > SCHEMA_VERSION {
            CompatV::StaleProcess
        } else {
            CompatV::NeedsArchive { reason: "Pre-versioned DB found"@, version: None }
        }
    } else if f.version > SCHEMA_VERSION {
        CompatV::StaleProcess
    } else if f.version < SCHEMA_VERSION {
        CompatV::NeedsArchive {
            reason: "DB version mismatch (DB v"@ + decimal(f.version as int) + ", code v"@
                + decimal(SCHEMA_VERSION as int) + ")"@,
            version: Some(f.version),
        }
    } else if missing_tables(f.tables, required_tables().len() as int).len() > 0 {
        CompatV::NeedsArchive {
            reason: "DB missing tables ["@ + missing_tables(
                f.tables,
                required_tables().len() as int,
            ) + "]"@,
            version: Some(f.version),
        }
    } else if missing_column(f.instance_columns, required_instance_columns().len() as int) is Some {
        CompatV::NeedsArchive {
            reason: "DB schema missing instances."@ + missing_column(
                f.instance_columns,
                required_instance_columns().len() as int,
            )->0,
            version: Some(f.version),
        }
    } else if !schema_complete(f.schema) {
        CompatV::NeedsArchive {
            reason: "DB schema has incomplete v19 message projections"@,
            version: Some(f.version),
        }
    } else if !indexes_complete(f.schema.indexes) {
        CompatV::NeedsArchive {
            reason: "DB schema has incomplete v19 message indexes"@,
            version: Some(f.version),
        }
    } else {
        CompatV::Compatible
    }
}

/// Judges whether a database fits the store.
pub fn check_schema_compat_on(f: &CompatFacts) -> (r: SchemaCompat)
    ensures
        r@ == compat(f@),
{
    if f.version == 0 {
        if !holds_some_table(&f.tables) || f.settled_version == SCHEMA_VERSION || f.settled_version
            == 0 {
            return SchemaCompat::Compatible;
        }
        if f.settled_version > SCHEMA_VERSION {
            return SchemaCompat::StaleProcess;
        }
        return SchemaCompat::NeedsArchive {
            reason: "Pre-versioned DB found".to_owned(),
            version: None,
        };
    }
    if f.version > SCHEMA_VERSION {
        return SchemaCompat::StaleProcess;
    }
    if f.version < SCHEMA_VERSION {
        let mut reason: String = cat3(
            "DB version mismatch (DB v",
            decimal_text(f.version as i64).as_str(),
            ", code v",
        );
        reason.append(decimal_text(SCHEMA_VERSION as i64).as_str());
        reason.append(")");
        return SchemaCompat::NeedsArchive { reason, version: Some(f.version) };
    }
    let missing: String = list_missing_tables(&f.tables);
    if missing.as_str().unicode_len() > 0 {
        return SchemaCompat::NeedsArchive {
            reason: cat3("DB missing tables [", missing.as_str(), "]"),
            version: Some(f.version),
        };
    }
    if let Some(column) = find_missing_column(&f.instance_columns) {
        return SchemaCompat::NeedsArchive {
            reason: cat("DB schema missing instances.", column),
            version: Some(f.version),
        };
    }
    if !message_schema_v19_complete(&f.schema) {
        return SchemaCompat::NeedsArchive {
            reason: "DB schema has incomplete v19 message projections".to_owned(),
            version: Some(f.version),
        };
    }
    if !message_indexes_v19_complete(&f.schema.indexes) {
        return SchemaCompat::NeedsArchive {
            reason: "DB schema has incomplete v19 message indexes".to_owned(),
            version: Some(f.version),
        };
    }
    SchemaCompat::Compatible
}

/// A list of missing tables is empty only where none is missing.
proof fn lemma_missing_tables(tables: Seq<Seq<char>>, n: int)
    requires
        0 <= n <= required_tables().len(),
    ensures
        missing_tables(tables, n).len() == 0 <==> forall|i: int|
            0 <= i < n ==> tables.contains((#[trigger] required_tables()[i])@),
    decreases n,
{
    if n > 0 {
        lemma_missing_tables(tables, n - 1);
        reveal_strlit("\"");
    }
}

/// A database of the version of the store that fits it has every table that the store needs.
pub proof fn fitting_databases_have_all_tables(f: CompatFactsV, i: int)
    requires
        f.version == SCHEMA_VERSION,
        compat(f) == CompatV::Compatible,
        0 <= i < required_tables().len(),
    ensures
        f.tables.contains(required_tables()[i]@),
        schema_complete(f.schema),
        indexes_complete(f.schema.indexes),
{
    lemma_missing_tables(f.tables, required_tables().len() as int);
}

/// The version to migrate a database from: that before the migration that adds the earliest column
/// it lacks, whatever it is stamped with; or else the version it is stamped with, and the one before
/// the store's where that is not older.
pub open spec fn migrated_from(columns: Seq<ShapeV>, version: i32) -> i32 {
    if !has_column(columns, "terminal_preset_requested"@) {
        16
    } else if !has_column(columns, "last_seen"@) {
        17
    } else if !has_column(columns, "endpoint_epoch"@) || !has_column(columns, "presence_json"@) {
        18
    } else if version >= SCHEMA_VERSION {
        18
    } else {
        version
    }
}

/// The version to migrate a database from.
pub fn repair_migrate_from(columns: &Vec<ColumnShape>, version: i32) -> (r: i32)
    ensures
        r == migrated_from(views(columns@), version),
{
    if !holds_column(columns, "terminal_preset_requested") {
        16
    } else if !holds_column(columns, "last_seen") {
        17
    } else if !holds_column(columns, "endpoint_epoch") || !holds_column(columns, "presence_json") {
        18
    } else if version >= SCHEMA_VERSION {
        18
    } else {
        version
    }
}

/// A step of a migration.
#[derive(Debug, Clone, Copy)]
pub enum MigrationStep {
    /// Run statements.
    Run(&'static str),
    /// Repair the tables that messages are projected into.
    RepairMessages,
    /// Stamp the database with a version.
    Stamp(i32),
}

/// The steps that bring a database to a version from the one before it.
pub open spec fn steps_to(version: int, columns: Seq<ShapeV>) -> Seq<MigrationStep> {
    if version == 17 {
        (if has_column(columns, "launch_context"@) {
            Seq::empty()
        } else {
            seq![MigrationStep::Run(ADD_LAUNCH_CONTEXT)]
        }) + seq![MigrationStep::Run(MIGRATION_17), MigrationStep::Stamp(17)]
    } else if version == 18 {
        seq![MigrationStep::Run(MIGRATION_18)] + (if has_column(columns, "status_time"@) {
            seq![MigrationStep::Run(FILL_LAST_SEEN)]
        } else {
            Seq::empty()
        }) + seq![MigrationStep::Stamp(18)]
    } else {
        (if has_column(columns, "endpoint_epoch"@) {
            Seq::empty()
        } else {
            seq![MigrationStep::Run(ADD_ENDPOINT_EPOCH)]
        }) + (if has_column(columns, "presence_json"@) {
            Seq::empty()
        } else {
            seq![MigrationStep::Run(ADD_PRESENCE)]
        }) + seq![
            MigrationStep::RepairMessages,
            MigrationStep::Run(MIGRATION_19),
            MigrationStep::Stamp(19),
        ]
    }
}

/// The steps that bring a database of a version to that of the store.
pub open spec fn steps_from(version: int, columns: Seq<ShapeV>) -> Seq<MigrationStep>
    decreases SCHEMA_VERSION - version,
{
    if version >= SCHEMA_VERSION {
        Seq::empty()
    } else {
        steps_to(version + 1, columns) + steps_from(version + 1, columns)
    }
}

/// Whether there is a migration to each version after one, up to that of the store.
pub open spec fn has_migrations(version: int) -> bool {
    16 <= version < SCHEMA_VERSION
}

fn push_steps_to(out: &mut Vec<MigrationStep>, version: i32, columns: &Vec<ColumnShape>)
    requires
        17 <= version <= 19,
    ensures
        final(out)@ == old(out)@ + steps_to(version as int, views(columns@)),
{
    if version == 17 {
        if !holds_column(columns, "launch_context") {
            out.push(MigrationStep::Run(ADD_LAUNCH_CONTEXT));
        }
        out.push(MigrationStep::Run(MIGRATION_17));
        out.push(MigrationStep::Stamp(17));
    } else if version == 18 {
        out.push(MigrationStep::Run(MIGRATION_18));
        if holds_column(columns, "status_time") {
            out.push(MigrationStep::Run(FILL_LAST_SEEN));
        }
        out.push(MigrationStep::Stamp(18));
    } else {
        if !holds_column(columns, "endpoint_epoch") {
            out.push(MigrationStep::Run(ADD_ENDPOINT_EPOCH));
        }
        if !holds_column(columns, "presence_json") {
            out.push(MigrationStep::Run(ADD_PRESENCE));
        }
        out.push(MigrationStep::RepairMessages);
        out.push(MigrationStep::Run(MIGRATION_19));
        out.push(MigrationStep::Stamp(19));
    }
    assert(out@ =~= old(out)@ + steps_to(version as int, views(columns@)));
}

/// The steps that bring a database of a version to that of the store, given the columns of its
/// table of instances; nothing where a migration is missing.
pub fn try_apply_migrations(version: i32, columns: &Vec<ColumnShape>) -> (r: Option<
    Vec<MigrationStep>,
>)
    ensures
        match r {
            Some(v) => has_migrations(version as int) && v@ == steps_from(
                version as int,
                views(columns@),
            ),
            None => !has_migrations(version as int),
        },
{
    if version < 16 || version >= SCHEMA_VERSION {
        return None;
    }
    let mut out: Vec<MigrationStep> = Vec::new();
    let mut at: i32 = version;
    assert(out@ + steps_from(at as int, views(columns@)) =~= steps_from(
        version as int,
        views(columns@),
    ));
    while at < SCHEMA_VERSION
        invariant
            16 <= version <= at <= SCHEMA_VERSION,
            version < SCHEMA_VERSION,
            out@ + steps_from(at as int, views(columns@)) == steps_from(
                version as int,
                views(columns@),
            ),
        decreases SCHEMA_VERSION - at,
    {
        let ghost before = out@;
        push_steps_to(&mut out, at + 1, columns);
        proof {
            let step = steps_to(at as int + 1, views(columns@));
            let rest = steps_from(at as int + 1, views(columns@));
            assert(before + (step + rest) =~= (before + step) + rest);
        }
        at += 1;
    }
    assert(out@ + Seq::<MigrationStep>::empty() =~= out@);
    Some(out)
}

/// What a process that holds the lock on a database comes to.
#[derive(Debug)]
pub enum LockedSchemaResult {
    /// The database fits the store.
    Ready,
    /// The database is archived, for that reason.
    Archive(String),
}

/// What a process that holds the lock on a database does.
#[derive(Debug)]
pub enum ReconcileStep {
    /// It is done.
    Finish(LockedSchemaResult),
    /// It migrates the database and judges it again.
    Migrate(Vec<MigrationStep>),
}

/// What a process that holds the lock does with a database, by how it judged it.
pub fn reconcile_schema(f: SchemaCompat, has_instances: bool, columns: &Vec<ColumnShape>) -> (r:
    ReconcileStep)
    ensures
        match f@ {
            CompatV::Compatible | CompatV::StaleProcess => r == ReconcileStep::Finish(
                LockedSchemaResult::Ready,
            ),
            CompatV::NeedsArchive { reason, version } => if version is Some && has_instances
                && has_migrations(migrated_from(views(columns@), version->0) as int) {
                r matches ReconcileStep::Migrate(v) && v@ == steps_from(
                    migrated_from(views(columns@), version->0) as int,
                    views(columns@),
                )
            } else {
                r matches ReconcileStep::Finish(LockedSchemaResult::Archive(s)) && s@ == reason
            },
        },
{
    match f {
        SchemaCompat::Compatible => ReconcileStep::Finish(LockedSchemaResult::Ready),
        SchemaCompat::StaleProcess => ReconcileStep::Finish(LockedSchemaResult::Ready),
        SchemaCompat::NeedsArchive { reason, version } => match version {
            None => ReconcileStep::Finish(LockedSchemaResult::Archive(reason)),
            Some(v) => {
                if !has_instances {
                    return ReconcileStep::Finish(LockedSchemaResult::Archive(reason));
                }
                match try_apply_migrations(repair_migrate_from(columns, v), columns) {
                    Some(steps) => ReconcileStep::Migrate(steps),
                    None => ReconcileStep::Finish(LockedSchemaResult::Archive(reason)),
                }
            },
        },
    }
}

/// What a process that holds the lock comes to after a migration, by how it judged the database
/// again.
pub fn finish_migration(f: SchemaCompat) -> (r: LockedSchemaResult)
    ensures
        match f@ {
            CompatV::Compatible | CompatV::StaleProcess => r == LockedSchemaResult::Ready,
            CompatV::NeedsArchive { reason, .. } => r matches LockedSchemaResult::Archive(s) && s@
                == reason,
        },
{
    match f {
        SchemaCompat::Compatible => LockedSchemaResult::Ready,
        SchemaCompat::StaleProcess => LockedSchemaResult::Ready,
        SchemaCompat::NeedsArchive { reason, .. } => LockedSchemaResult::Archive(reason),
    }
}

/// A database of the version of the store is never given up for want of a migration: whatever it
/// lacks, there is one to repair it from.
pub proof fn current_databases_can_be_repaired(columns: Seq<ShapeV>, version: i32)
    requires
        version >= SCHEMA_VERSION,
    ensures
        has_migrations(migrated_from(columns, version) as int),
{
}

/// Nor is one that is stamped with any version and lacks a column that a migration adds.
pub proof fn unmigrated_databases_can_be_repaired(columns: Seq<ShapeV>, version: i32)
    requires
        !has_column(columns, "terminal_preset_requested"@) || !has_column(columns, "last_seen"@)
            || !has_column(columns, "endpoint_epoch"@) || !has_column(columns, "presence_json"@),
    ensures
        has_migrations(migrated_from(columns, version) as int),
{
}

/// A migration ends by stamping the database with the version of the store.
pub proof fn migrations_stamp_the_current_version(version: int, columns: Seq<ShapeV>)
    requires
        has_migrations(version),
    ensures
        steps_from(version, columns).len() > 0,
        steps_from(version, columns).last() == MigrationStep::Stamp(SCHEMA_VERSION),
    decreases SCHEMA_VERSION - version,
{
    if version + 1 < SCHEMA_VERSION {
        migrations_stamp_the_current_version(version + 1, columns);
    }
    let step = steps_to(version + 1, columns);
    let rest = steps_from(version + 1, columns);
    assert(step.len() > 0);
    if rest.len() == 0 {
        assert(step + rest =~= step);
    } else {
        assert((step + rest).last() == rest.last());
    }
}

/// What kind of failure a database reported.
#[derive(Debug, Clone, Copy, PartialEq, Eq, Structural)]
pub enum SqliteCode {
    DatabaseBusy,
    DatabaseLocked,
    SchemaChanged,
    FileLockingProtocolFailed,
    Other,
}

/// Whether a failure is one that a second try may not meet.
pub open spec fn passes(code: SqliteCode) -> bool {
    code != SqliteCode::Other
}

/// Whether some failure of a list is one that a second try may not meet.
pub open spec fn some_passes(causes: Seq<SqliteCode>) -> bool {
    exists|i: int| 0 <= i < causes.len() && passes(#[trigger] causes[i])
}

/// Whether an error has, among its causes, a failure that a second try may not meet.
pub fn is_transient_schema_error(causes: &Vec<SqliteCode>) -> (r: bool)
    ensures
        r == some_passes(causes@),
{
    let mut i: usize = 0;
    while i < causes.len()
        invariant
            i <= causes@.len(),
            forall|k: int| 0 <= k < i ==> !passes(#[trigger] causes@[k]),
        decreases causes.len() - i,
    {
        if !matches!(causes[i], SqliteCode::Other) {
            assert(passes(causes@[i as int]));
            return true;
        }
        i += 1;
    }
    false
}

/// How often a process tries to bring a database up to the store.
pub const MAX_RECONCILE_ATTEMPTS: u64 = 3;

/// What is said of a failure to bring a database up to the store, before its cause.
pub const MIGRATION_FAILED: &'static str =
    "schema migration failed closed; database was not archived or deleted";

/// What came of a try to bring a database up to the store.
#[derive(Debug)]
pub enum Reconciled {
    Ready,
    Archive(String),
    /// It failed; `true` where a second try may not.
    Failed(bool),
}

/// What a process does to have a database that fits the store.
#[derive(Debug)]
pub enum EnsureStep {
    /// Make the tables.
    Init,
    /// Nothing more.
    Done,
    /// Take the lock and bring the database up to the store.
    Reconcile,
    /// Wait that many milliseconds, open the database again, and try once more.
    Retry(u64),
    /// Archive the database, for that reason, and start a new one.
    Archive(String),
    /// Report the failure; the database is left as it is.
    Fail,
}

/// What a process does first, by how it judged the database without the lock.
pub fn begin_ensure(f: &SchemaCompat) -> (r: EnsureStep)
    ensures
        r == match f@ {
            CompatV::Compatible => EnsureStep::Init,
            CompatV::StaleProcess => EnsureStep::Done,
            CompatV::NeedsArchive { .. } => EnsureStep::Reconcile,
        },
{
    match f {
        SchemaCompat::Compatible => EnsureStep::Init,
        SchemaCompat::StaleProcess => EnsureStep::Done,
        SchemaCompat::NeedsArchive { .. } => EnsureStep::Reconcile,
    }
}

/// What a process does after the given try, counted from one.
pub fn continue_ensure(outcome: Reconciled, attempt: u64) -> (r: EnsureStep)
    ensures
        match outcome {
            Reconciled::Ready => r == EnsureStep::Done,
            Reconciled::Archive(reason) => r matches EnsureStep::Archive(s) && s@ == reason@,
            Reconciled::Failed(transient) => r == if transient && attempt < MAX_RECONCILE_ATTEMPTS {
                EnsureStep::Retry((10 * attempt) as u64)
            } else {
                EnsureStep::Fail
            },
        },
{
    match outcome {
        Reconciled::Ready => EnsureStep::Done,
        Reconciled::Archive(reason) => EnsureStep::Archive(reason),
        Reconciled::Failed(transient) => {
            if transient && attempt < MAX_RECONCILE_ATTEMPTS {
                EnsureStep::Retry(10 * attempt)
            } else {
                EnsureStep::Fail
            }
        },
    }
}

/// Whether the tables of a database are to be made: not where it has the version of the store.
pub fn needs_init(version: i32) -> (r: bool)
    ensures
        r == (version != SCHEMA_VERSION),
{
    version != SCHEMA_VERSION
}

/// Whether the file of a database was replaced by another since it was opened. A file that is not
/// there has the number zero.
pub fn was_replaced(current_inode: u64, known_inode: u64) -> (r: bool)
    ensures
        r == (current_inode != 0 && current_inode != known_inode),
{
    current_inode != 0 && current_inode != known_inode
}

/// The payload of the event that logs that the own device started anew.
pub open spec fn reset_data(device_id: Seq<char>) -> JsonV {
    JsonV::Object(
        seq![
            MemberV { key: "action"@, value: JsonV::Text("reset"@) },
            MemberV { key: "device"@, value: JsonV::Text(device_id) },
        ],
    )
}

/// The id of the own device, as it was read from its file.
pub open spec fn device_id_in(contents: Option<Seq<char>>) -> Seq<char> {
    match contents {
        Some(s) => trimmed(s),
        None => trimmed("unknown"@),
    }
}

/// The store after it is logged that the own device started anew, at an instant given as seconds.
pub open spec fn reset_logged(db: DbV, contents: Option<Seq<char>>, now: Seq<char>, seconds: Seq<char>) -> Result<
    DbV,
    ErrorV,
> {
    match event_logged(db, now, "life"@, "_device"@, reset_data(device_id_in(contents))) {
        Err(e) => Err(e),
        Ok((d, id)) => Ok(
            kv_put(
                DbV { notifications: d.notifications.push(id), ..d },
                "relay_local_reset_ts"@,
                Some(seconds),
            ),
        ),
    }
}

impl HcomDb {
    /// Logs that the own device started anew, given the file with its id, and keeps the instant.
    pub fn log_reset_event(&mut self, contents: &Option<String>, now: &str, seconds: &str) -> (r: Result<
        (),
        LifecycleError,
    >)
        ensures
            match r {
                Ok(()) => reset_logged(old(self)@, opt_text(*contents), now@, seconds@) == Ok::<
                    DbV,
                    ErrorV,
                >(final(self)@),
                Err(e) => reset_logged(old(self)@, opt_text(*contents), now@, seconds@) == Err::<
                    DbV,
                    ErrorV,
                >(e@) && final(self)@ == old(self)@,
            },
    {
        let device: String = match contents {
            Some(s) => trim_text(s.as_str()),
            None => trim_text("unknown"),
        };
        let mut v: Vec<Member> = Vec::new();
        push_member(&mut v, "action", Json::text("reset"));
        push_member(&mut v, "device", Json::text(device.as_str()));
        proof {
            lemma_object(v);
            assert(object_view(v@) =~= reset_data(device@)->Object_0);
        }
        match self.insert_event(now, "life", "_device", Json::Object(v)) {
            Err(e) => Err(e),
            Ok(id) => {
                self.notify(id);
                self.kv_set("relay_local_reset_ts", Some(seconds));
                Ok(())
            },
        }
    }
}

/// A database that is new fits; one that is newer than the store is left to newer processes; one that is
/// older does not fit, and it is said how old it is.
pub proof fn databases_fit_by_their_version(f: CompatFacts, r: SchemaCompat, name: Seq<char>)
    requires
        call_ensures(check_schema_compat_on, (&f,), r),
    ensures
        f.version == 0 && f.tables@.len() == 0 ==> r is Compatible,
        f.version > 19 ==> r is StaleProcess,
        f.version != 0 && f.version < 19 ==> (r matches SchemaCompat::NeedsArchive { reason, version } && version == Some(f.version) && reason@ == "DB version mismatch (DB v"@ + decimal(f.version as int) + ", code v"@ + decimal(19) + ")"@),
        f.version == 0 && texts(f.tables@).contains(name) && is_own_table(name) && (f.settled_version == 0 || f.settled_version == 19) ==> r is Compatible,
        f.version == 0 && texts(f.tables@).contains(name) && is_own_table(name) && f.settled_version > 19 ==> r is StaleProcess,
        f.version == 0 && texts(f.tables@).contains(name) && is_own_table(name) && f.settled_version != 0 && f.settled_version < 19 ==> (r matches SchemaCompat::NeedsArchive { reason, version } && version is None && reason@ == "Pre-versioned DB found"@),
{
    assert(texts(f.tables@).len() == f.tables@.len());
    if texts(f.tables@).contains(name) && is_own_table(name) {
        lemma_own_table(name);
        assert(has_some_table(texts(f.tables@)));
    }
}

/// Whether a name is that of a table of the store.
pub open spec fn is_own_table(name: Seq<char>) -> bool {
    name == "events"@ || name == "instances"@ || name == "kv"@ || name == "notify_endpoints"@ || name == "session_bindings"@ || name == "claude_actor_capabilities"@ || name == "message_records"@ || name == "message_deliveries"@
}

proof fn lemma_own_table(name: Seq<char>)
    ensures
        is_own_table(name) <==> exists|i: int| 0 <= i < required_tables().len() && name == (#[trigger] required_tables()[i])@,
{
    let t = required_tables();
    assert(t[0]@ == "events"@ && t[1]@ == "instances"@ && t[2]@ == "kv"@ && t[3]@ == "notify_endpoints"@);
    assert(t[4]@ == "session_bindings"@ && t[5]@ == "claude_actor_capabilities"@ && t[6]@ == "message_records"@ && t[7]@ == "message_deliveries"@);
    assert(t.len() == 8);
}

/// Whether a name is that of a column that the table of instances must have.
pub open spec fn is_own_column(name: Seq<char>) -> bool {
    name == "tool"@ || name == "terminal_preset_requested"@ || name == "terminal_preset_effective"@ || name == "last_seen"@ || name == "endpoint_epoch"@ || name == "presence_json"@
}

proof fn lemma_missing_column(columns: Seq<ShapeV>, n: int)
    requires
        0 <= n <= required_instance_columns().len(),
    ensures
        missing_column(columns, n) is None <==> forall|i: int| 0 <= i < n ==> has_column(columns, (#[trigger] required_instance_columns()[i])@),
        missing_column(columns, n) matches Some(c) ==> !has_column(columns, c) && exists|i: int| 0 <= i < n && (#[trigger] required_instance_columns()[i])@ == c,
    decreases n,
{
    if n > 0 {
        lemma_missing_column(columns, n - 1);
    }
}

/// A database of the version of the store fits where it has every table and every column that the store
/// needs and its messages are as they must be; where it lacks a table or a column it does not.
pub proof fn current_databases_fit_where_they_are_complete(f: CompatFacts, r: SchemaCompat, table: Seq<char>, column: Seq<char>)
    requires
        call_ensures(check_schema_compat_on, (&f,), r),
        f.version == 19,
    ensures
        is_own_table(table) && !texts(f.tables@).contains(table) ==> (r matches SchemaCompat::NeedsArchive { version, .. } && version == Some(19i32)),
        is_own_column(column) && !has_column(views(f.instance_columns@), column) ==> (r matches SchemaCompat::NeedsArchive { version, .. } && version == Some(19i32)),
        r is Compatible || r is NeedsArchive,
        (forall|t: Seq<char>| is_own_table(t) ==> #[trigger] texts(f.tables@).contains(t)) && (forall|c: Seq<char>| is_own_column(c) ==> #[trigger] has_column(views(f.instance_columns@), c)) && schema_complete(f.schema@) && indexes_complete(f.schema@.indexes) ==> r is Compatible,
        (forall|t: Seq<char>| is_own_table(t) ==> #[trigger] texts(f.tables@).contains(t)) && (forall|c: Seq<char>| is_own_column(c) ==> #[trigger] has_column(views(f.instance_columns@), c)) && !schema_complete(f.schema@) ==> (r matches SchemaCompat::NeedsArchive { reason, .. } && reason@ == "DB schema has incomplete v19 message projections"@),
        (forall|t: Seq<char>| is_own_table(t) ==> #[trigger] texts(f.tables@).contains(t)) && (forall|c: Seq<char>| is_own_column(c) ==> #[trigger] has_column(views(f.instance_columns@), c)) && schema_complete(f.schema@) && !indexes_complete(f.schema@.indexes) ==> (r matches SchemaCompat::NeedsArchive { reason, .. } && reason@ == "DB schema has incomplete v19 message indexes"@),
{
    let tables = texts(f.tables@);
    let columns = views(f.instance_columns@);
    let n = required_tables().len() as int;
    let m = required_instance_columns().len() as int;
    lemma_missing_tables(tables, n);
    lemma_missing_column(columns, m);
    lemma_own_table(table);
    let c = required_instance_columns();
    assert(c[0]@ == "tool"@ && c[1]@ == "terminal_preset_requested"@ && c[2]@ == "terminal_preset_effective"@ && c[3]@ == "last_seen"@ && c[4]@ == "endpoint_epoch"@ && c[5]@ == "presence_json"@);
    if forall|t: Seq<char>| is_own_table(t) ==> #[trigger] tables.contains(t) {
        assert forall|i: int| 0 <= i < n implies tables.contains((#[trigger] required_tables()[i])@) by {
            lemma_own_table(required_tables()[i]@);
        }
    }
}

/// A database that may be in the making is read again and again, with a pause of fifty milliseconds
/// after each read without a version, twenty times at most; the first version that is read settles it.
pub proof fn new_databases_are_waited_for(version: i32, tables: Vec<String>, r: bool, reads: u32, last: Option<i32>, step: WatchStep, name: Seq<char>)
    requires
        call_ensures(may_be_in_the_making, (version, &tables), r),
        call_ensures(watch_version, (reads, last), step),
    ensures
        version != 0 ==> !r,
        version == 0 && texts(tables@).contains(name) && is_own_table(name) ==> r,
        tables@.len() == 0 ==> !r,
        last is None && reads < 20 ==> step == WatchStep::Read,
        last is None && reads >= 20 ==> step == WatchStep::Settled(0),
        last == Some(0i32) ==> step == WatchStep::Pause(50),
        last is Some && last->0 != 0 ==> step == WatchStep::Settled(last->0),
{
    assert(texts(tables@).len() == tables@.len());
    if texts(tables@).contains(name) && is_own_table(name) {
        lemma_own_table(name);
        assert(has_some_table(texts(tables@)));
    }
}

/// A database is migrated from the version before the earliest column that it lacks.
pub proof fn migrations_begin_at_what_is_missing(columns: Vec<ColumnShape>, version: i32, r: i32)
    requires
        call_ensures(repair_migrate_from, (&columns, version), r),
    ensures
        ({
            let cs = views(columns@);
            let presets = has_column(cs, "terminal_preset_requested"@);
            let seen = has_column(cs, "last_seen"@);
            let epochs = has_column(cs, "endpoint_epoch"@) && has_column(cs, "presence_json"@);
            &&& !presets ==> r == 16
            &&& presets && !seen ==> r == 17
            &&& presets && seen && !epochs ==> r == 18
            &&& presets && seen && epochs ==> r == (if version >= 19 { 18i32 } else { version })
        }),
{
}

/// The steps of a migration, one version after the other, each stamped once it is reached; what a
/// database has already is not added again.
pub proof fn migrations_go_step_by_step(version: i32, columns: Vec<ColumnShape>, r: Option<Vec<MigrationStep>>)
    requires
        call_ensures(try_apply_migrations, (version, &columns), r),
    ensures
        r is Some <==> 16 <= version <= 18,
        ({
            let cs = views(columns@);
            let to_17 = (if has_column(cs, "launch_context"@) { Seq::<MigrationStep>::empty() } else { seq![MigrationStep::Run(ADD_LAUNCH_CONTEXT)] }) + seq![MigrationStep::Run(MIGRATION_17), MigrationStep::Stamp(17)];
            let to_18 = seq![MigrationStep::Run(MIGRATION_18)] + (if has_column(cs, "status_time"@) { seq![MigrationStep::Run(FILL_LAST_SEEN)] } else { Seq::<MigrationStep>::empty() }) + seq![MigrationStep::Stamp(18)];
            let to_19 = (if has_column(cs, "endpoint_epoch"@) { Seq::<MigrationStep>::empty() } else { seq![MigrationStep::Run(ADD_ENDPOINT_EPOCH)] }) + (if has_column(cs, "presence_json"@) { Seq::<MigrationStep>::empty() } else { seq![MigrationStep::Run(ADD_PRESENCE)] }) + seq![MigrationStep::RepairMessages, MigrationStep::Run(MIGRATION_19), MigrationStep::Stamp(19)];
            &&& version == 18 ==> r->0@ == to_19
            &&& version == 17 ==> r->0@ == to_18 + to_19
            &&& version == 16 ==> r->0@ == to_17 + to_18 + to_19
        }),
{
    reveal_with_fuel(steps_from, 4);
    let cs = views(columns@);
    let a = steps_to(17, cs);
    let b = steps_to(18, cs);
    let c = steps_to(19, cs);
    let none = Seq::<MigrationStep>::empty();
    assert(c + none =~= c);
    assert(b + (c + none) =~= b + c);
    assert(a + (b + (c + none)) =~= a + b + c);
    if version == 18 {
        assert(steps_from(18, cs) == c + none);
    } else if version == 17 {
        assert(steps_from(17, cs) == b + (c + none));
    } else if version == 16 {
        assert(steps_from(16, cs) == a + (b + (c + none)));
    }
}

/// A database that fits, or is newer, is ready; one that does not is migrated where it has a version and
/// instances, and there is a way from where it stands; else it is archived, for the reason it does not
/// fit. What comes of the migration is judged in the same way.
pub proof fn unfit_databases_are_migrated_or_archived(f: SchemaCompat, again: SchemaCompat, has_instances: bool, columns: Vec<ColumnShape>, r: ReconcileStep, end: LockedSchemaResult, from: i32, steps: Option<Vec<MigrationStep>>)
    requires
        call_ensures(reconcile_schema, (f, has_instances, &columns), r),
        call_ensures(finish_migration, (again,), end),
        f matches SchemaCompat::NeedsArchive { version, .. } ==> (version is Some ==> call_ensures(repair_migrate_from, (&columns, version->0), from)),
        call_ensures(try_apply_migrations, (from, &columns), steps),
    ensures
        f is Compatible || f is StaleProcess ==> (r matches ReconcileStep::Finish(e) && e is Ready),
        f matches SchemaCompat::NeedsArchive { reason, version } ==> {
            &&& version is Some && has_instances && steps is Some ==> (r matches ReconcileStep::Migrate(v) && v@ == steps->0@)
            &&& version is None || !has_instances || steps is None ==> (r matches ReconcileStep::Finish(LockedSchemaResult::Archive(s)) && s@ == reason@)
        },
        again is Compatible || again is StaleProcess ==> end is Ready,
        again matches SchemaCompat::NeedsArchive { reason, .. } ==> (end matches LockedSchemaResult::Archive(s) && s@ == reason@),
{
}

/// A process makes the tables where the database fits, leaves it where it is newer, and brings it up
/// otherwise; it tries three times, and waits longer each time, where a failure may pass.
pub proof fn failures_that_pass_are_tried_again(f: SchemaCompat, first: EnsureStep, outcome: Reconciled, attempt: u64, next: EnsureStep)
    requires
        call_ensures(begin_ensure, (&f,), first),
        call_ensures(continue_ensure, (outcome, attempt), next),
    ensures
        f is Compatible ==> first is Init,
        f is StaleProcess ==> first is Done,
        f is NeedsArchive ==> first is Reconcile,
        outcome is Ready ==> next is Done,
        outcome matches Reconciled::Archive(s) ==> (next matches EnsureStep::Archive(t) && t@ == s@),
        outcome == Reconciled::Failed(false) ==> next is Fail,
        outcome == Reconciled::Failed(true) && attempt == 1 ==> next == EnsureStep::Retry(10),
        outcome == Reconciled::Failed(true) && attempt == 2 ==> next == EnsureStep::Retry(20),
        outcome == Reconciled::Failed(true) && attempt >= 3 ==> next is Fail,
{
}

/// A failure may pass where the database was busy, locked, changed underneath, or its file lock failed,
/// somewhere among the causes; no other does.
pub proof fn busy_databases_are_tried_again(causes: Vec<SqliteCode>, transient: bool, i: int)
    requires
        call_ensures(is_transient_schema_error, (&causes,), transient),
        0 <= i < causes@.len(),
    ensures
        causes@[i] == SqliteCode::DatabaseBusy || causes@[i] == SqliteCode::DatabaseLocked || causes@[i] == SqliteCode::SchemaChanged || causes@[i] == SqliteCode::FileLockingProtocolFailed ==> transient,
        (forall|k: int| 0 <= k < causes@.len() ==> (#[trigger] causes@[k]) == SqliteCode::Other) ==> !transient,
{
    if passes(causes@[i]) {
        assert(some_passes(causes@));
    }
}

/// Tables are made unless the database has the version of the store; a file was replaced where another
/// stands in its place.
pub proof fn tables_are_made_once(version: i32, init: bool, current: u64, known: u64, replaced: bool)
    requires
        call_ensures(needs_init, (version,), init),
        call_ensures(was_replaced, (current, known), replaced),
    ensures
        init <==> version != 19,
        replaced <==> current != known && current != 0,
{
}

/// A reset of the own device is logged with the id of the device, announced, and its instant is kept.
pub proof fn resets_are_logged(db: &mut HcomDb, contents: Option<String>, now: &str, seconds: &str, r: Result<(), LifecycleError>)
    requires
        call_ensures(HcomDb::log_reset_event, (db, &contents, now, seconds), r),
        old(db)@.sequence < i64::MAX,
    ensures
        r is Ok,
        ({
            let e = final(db)@.events.last();
            &&& final(db)@.events.drop_last() == old(db)@.events
            &&& e.id == old(db)@.sequence + 1 && e.kind == "life"@ && e.instance == "_device"@ && e.timestamp == now@
            &&& member(e.data, "action"@) == Some(JsonV::Text("reset"@))
            &&& member(e.data, "device"@) == Some(JsonV::Text(match contents { Some(s) => trimmed(s@), None => trimmed("unknown"@) }))
        }),
        final(db)@.kv_value("relay_local_reset_ts"@) == Some(seconds@),
        final(db)@.notifications == old(db)@.notifications.push(old(db)@.sequence + 1),
        final(db)@.deliveries == old(db)@.deliveries && final(db)@.records == old(db)@.records && final(db)@.instances == old(db)@.instances,
{
    let data = reset_data(device_id_in(opt_text(contents)));
    let ms = data->Object_0;
    reveal_strlit("action");
    reveal_strlit("device");
    assert("action"@.len() == 6 && "device"@.len() == 6 && "action"@[0] == 'a' && "device"@[0] == 'd');
    crate::json::lemma_member_at(ms, 0);
    crate::json::lemma_member_at(ms, 1);
    let (d, id) = event_logged(old(db)@, now@, "life"@, "_device"@, data)->Ok_0;
    let told = DbV { notifications: d.notifications.push(id), ..d };
    crate::replication::kept_values_read_back(told, "relay_local_reset_ts"@, seconds@, "relay_local_reset_ts"@);
    assert(final(db)@.events.drop_last() =~= old(db)@.events);
}

/// What a database of the version of the store lacks is named: the tables, or else the first column.
pub proof fn what_is_missing_is_named(f: CompatFacts, r: SchemaCompat)
    requires
        call_ensures(check_schema_compat_on, (&f,), r),
        f.version == 19,
    ensures
        (forall|t: Seq<char>| is_own_table(t) && t != "kv"@ ==> #[trigger] texts(f.tables@).contains(t)) && !texts(f.tables@).contains("kv"@) ==> (r matches SchemaCompat::NeedsArchive { reason, .. } && reason@ == "DB missing tables ["@ + ("\""@ + "kv"@ + "\""@) + "]"@),
        (forall|t: Seq<char>| is_own_table(t) ==> #[trigger] texts(f.tables@).contains(t)) && !has_column(views(f.instance_columns@), "tool"@) ==> (r matches SchemaCompat::NeedsArchive { reason, .. } && reason@ == "DB schema missing instances."@ + "tool"@),
        (forall|t: Seq<char>| is_own_table(t) ==> #[trigger] texts(f.tables@).contains(t)) && has_column(views(f.instance_columns@), "tool"@) && has_column(views(f.instance_columns@), "terminal_preset_requested"@) && has_column(views(f.instance_columns@), "terminal_preset_effective"@) && has_column(views(f.instance_columns@), "last_seen"@) && !has_column(views(f.instance_columns@), "endpoint_epoch"@) ==> (r matches SchemaCompat::NeedsArchive { reason, .. } && reason@ == "DB schema missing instances."@ + "endpoint_epoch"@),
{
    let tables = texts(f.tables@);
    let n = required_tables().len() as int;
    let t = required_tables();
    reveal_strlit("kv");
    reveal_strlit("events");
    reveal_strlit("instances");
    reveal_strlit("notify_endpoints");
    reveal_strlit("session_bindings");
    reveal_strlit("claude_actor_capabilities");
    reveal_strlit("message_records");
    reveal_strlit("message_deliveries");
    assert("kv"@.len() == 2 && "events"@.len() == 6 && "instances"@.len() == 9 && "notify_endpoints"@.len() == 16 && "session_bindings"@.len() == 16 && "claude_actor_capabilities"@.len() == 25 && "message_records"@.len() == 15 && "message_deliveries"@.len() == 18);
    assert(t[0]@ == "events"@ && t[1]@ == "instances"@ && t[2]@ == "kv"@ && t[3]@ == "notify_endpoints"@ && t[4]@ == "session_bindings"@ && t[5]@ == "claude_actor_capabilities"@ && t[6]@ == "message_records"@ && t[7]@ == "message_deliveries"@);
    reveal_with_fuel(missing_tables, 9);
    reveal_with_fuel(missing_column, 7);
    let c = required_instance_columns();
    assert(c[0]@ == "tool"@ && c[1]@ == "terminal_preset_requested"@ && c[2]@ == "terminal_preset_effective"@ && c[3]@ == "last_seen"@ && c[4]@ == "endpoint_epoch"@ && c[5]@ == "presence_json"@);
    lemma_missing_tables(tables, n);
    assert(missing_tables(tables, 0) =~= Seq::<char>::empty());
}

} // verus!
