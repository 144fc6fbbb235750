//! How the tables that messages are projected into are repaired, step by step.

use crate::schema::{
    ColumnShape, MessageSchema, MessageSchemaV, ShapeV, copy_projection, delivery_columns,
    delivery_copies, has_column, holds_column, index_repairs, indexes_complete,
    list_delivery_columns, list_delivery_copies, list_record_columns, list_record_copies,
    message_indexes, message_indexes_v19_complete, message_schema_v19_complete, projection,
    record_columns, record_copies, repair_message_indexes_v19, schema_complete,
};
use crate::rows::views;
use crate::text::{cat3, decimal, decimal_text, holds_text, lemma_texts_push, same, texts};
use vstd::prelude::*;

verus! {

/// The columns of the table of records, as they are declared.
pub const RECORD_DECLARATION: &'static str =
    "(message_id TEXT PRIMARY KEY, event_id INTEGER NOT NULL UNIQUE, correlation_id TEXT NOT NULL, sender_name TEXT NOT NULL, sender_session_id TEXT, intent TEXT, expects_reply INTEGER NOT NULL DEFAULT 0, in_reply_to TEXT, legacy_reply_to TEXT, reply_endpoint TEXT, supersedes TEXT, retry_of TEXT, attachments_json TEXT NOT NULL DEFAULT '[]', created_at TEXT NOT NULL);";

/// The columns of the table of deliveries, as they are declared, up to the table that they refer to.
pub const DELIVERY_DECLARATION: &'static str =
    "(message_id TEXT NOT NULL, recipient_name TEXT NOT NULL, endpoint_epoch TEXT NOT NULL DEFAULT '', delivery_endpoint TEXT NOT NULL DEFAULT 'inbox', state TEXT NOT NULL, attempt INTEGER NOT NULL DEFAULT 1, state_event_id INTEGER, last_actor TEXT NOT NULL DEFAULT '', updated_at TEXT NOT NULL, PRIMARY KEY(message_id, recipient_name), FOREIGN KEY(message_id) REFERENCES ";

/// The statement that puts the copies in the place of the tables that they were made of.
pub const SWAP: &'static str =
    "ALTER TABLE message_deliveries RENAME TO message_deliveries_v19_old; ALTER TABLE message_records RENAME TO message_records_v19_old; ALTER TABLE message_records_v19_new RENAME TO message_records; ALTER TABLE message_deliveries_v19_new RENAME TO message_deliveries; DROP TABLE message_deliveries_v19_old; DROP TABLE message_records_v19_old;";

/// The statement that makes a table of records.
pub open spec fn records_made(table: Seq<char>) -> Seq<char> {
    "CREATE TABLE "@ + table + " "@ + RECORD_DECLARATION@
}

/// The statement that makes a table of deliveries that refer to a table of records.
pub open spec fn deliveries_made(table: Seq<char>, parent: Seq<char>) -> Seq<char> {
    "CREATE TABLE "@ + table + " "@ + DELIVERY_DECLARATION@ + parent
        + "(message_id) ON DELETE CASCADE);"@
}

/// The statement that makes a table of records.
pub fn create_message_records(table: &str) -> (r: String)
    ensures
        r@ == records_made(table@),
{
    let mut s: String = cat3("CREATE TABLE ", table, " ");
    s.append(RECORD_DECLARATION);
    s
}

/// The statement that makes a table of deliveries that refer to a table of records.
pub fn create_message_deliveries(table: &str, parent: &str) -> (r: String)
    ensures
        r@ == deliveries_made(table@, parent@),
{
    let mut s: String = cat3("CREATE TABLE ", table, " ");
    s.append(DELIVERY_DECLARATION);
    s.append(parent);
    s.append("(message_id) ON DELETE CASCADE);");
    s
}

/// A column that can be added to a table that has rows.
pub struct AdditiveColumn {
    pub name: &'static str,
    pub definition: &'static str,
}

/// The columns that can be added to a table of records.
pub open spec fn additive_record_columns() -> Seq<AdditiveColumn> {
    seq![
        AdditiveColumn { name: "sender_session_id", definition: "TEXT" },
        AdditiveColumn { name: "intent", definition: "TEXT" },
        AdditiveColumn { name: "expects_reply", definition: "INTEGER NOT NULL DEFAULT 0" },
        AdditiveColumn { name: "in_reply_to", definition: "TEXT" },
        AdditiveColumn { name: "legacy_reply_to", definition: "TEXT" },
        AdditiveColumn { name: "reply_endpoint", definition: "TEXT" },
        AdditiveColumn { name: "supersedes", definition: "TEXT" },
        AdditiveColumn { name: "retry_of", definition: "TEXT" },
        AdditiveColumn { name: "attachments_json", definition: "TEXT NOT NULL DEFAULT '[]'" },
    ]
}

fn list_additive_record_columns() -> (r: Vec<AdditiveColumn>)
    ensures
        r@ == additive_record_columns(),
{
    let r: Vec<AdditiveColumn> = vec![
        AdditiveColumn { name: "sender_session_id", definition: "TEXT" },
        AdditiveColumn { name: "intent", definition: "TEXT" },
        AdditiveColumn { name: "expects_reply", definition: "INTEGER NOT NULL DEFAULT 0" },
        AdditiveColumn { name: "in_reply_to", definition: "TEXT" },
        AdditiveColumn { name: "legacy_reply_to", definition: "TEXT" },
        AdditiveColumn { name: "reply_endpoint", definition: "TEXT" },
        AdditiveColumn { name: "supersedes", definition: "TEXT" },
        AdditiveColumn { name: "retry_of", definition: "TEXT" },
        AdditiveColumn { name: "attachments_json", definition: "TEXT NOT NULL DEFAULT '[]'" },
    ];
    assert(r@ =~= additive_record_columns());
    r
}

/// The columns that can be added to a table of deliveries.
pub open spec fn additive_delivery_columns() -> Seq<AdditiveColumn> {
    seq![
        AdditiveColumn { name: "endpoint_epoch", definition: "TEXT NOT NULL DEFAULT ''" },
        AdditiveColumn { name: "delivery_endpoint", definition: "TEXT NOT NULL DEFAULT 'inbox'" },
        AdditiveColumn { name: "attempt", definition: "INTEGER NOT NULL DEFAULT 1" },
        AdditiveColumn { name: "state_event_id", definition: "INTEGER" },
        AdditiveColumn { name: "last_actor", definition: "TEXT NOT NULL DEFAULT ''" },
    ]
}

fn list_additive_delivery_columns() -> (r: Vec<AdditiveColumn>)
    ensures
        r@ == additive_delivery_columns(),
{
    let r: Vec<AdditiveColumn> = vec![
        AdditiveColumn { name: "endpoint_epoch", definition: "TEXT NOT NULL DEFAULT ''" },
        AdditiveColumn { name: "delivery_endpoint", definition: "TEXT NOT NULL DEFAULT 'inbox'" },
        AdditiveColumn { name: "attempt", definition: "INTEGER NOT NULL DEFAULT 1" },
        AdditiveColumn { name: "state_event_id", definition: "INTEGER" },
        AdditiveColumn { name: "last_actor", definition: "TEXT NOT NULL DEFAULT ''" },
    ];
    assert(r@ =~= additive_delivery_columns());
    r
}

/// The statement that adds a column to a table.
pub open spec fn column_added(table: Seq<char>, c: AdditiveColumn) -> Seq<char> {
    "ALTER TABLE "@ + table + " ADD COLUMN "@ + c.name@ + " "@ + c.definition@
}

/// The statements that add those of the first `n` columns that a table lacks.
pub open spec fn columns_added(
    table: Seq<char>,
    columns: Seq<ShapeV>,
    wanted: Seq<AdditiveColumn>,
    n: int,
) -> Seq<Seq<char>>
    decreases n,
{
    if n <= 0 {
        Seq::empty()
    } else {
        let before = columns_added(table, columns, wanted, n - 1);
        if has_column(columns, wanted[n - 1].name@) {
            before
        } else {
            before.push(column_added(table, wanted[n - 1]))
        }
    }
}

fn add_columns(
    out: &mut Vec<String>,
    table: &str,
    columns: &Vec<ColumnShape>,
    wanted: &Vec<AdditiveColumn>,
)
    ensures
        texts(final(out)@) == texts(old(out)@) + columns_added(
            table@,
            views(columns@),
            wanted@,
            wanted@.len() as int,
        ),
{
    let ghost before = texts(out@);
    let mut i: usize = 0;
    assert(before + columns_added(table@, views(columns@), wanted@, 0) =~= before);
    while i < wanted.len()
        invariant
            i <= wanted@.len(),
            texts(out@) == before + columns_added(table@, views(columns@), wanted@, i as int),
        decreases wanted.len() - i,
    {
        if !holds_column(columns, wanted[i].name) {
            let mut s: String = cat3("ALTER TABLE ", table, " ADD COLUMN ");
            s.append(wanted[i].name);
            s.append(" ");
            s.append(wanted[i].definition);
            proof {
                lemma_texts_push(out@, s);
                let done = columns_added(table@, views(columns@), wanted@, i as int);
                assert((before + done).push(s@) =~= before + done.push(s@));
            }
            out.push(s);
        }
        i += 1;
    }
}

/// The statements that make the tables that are missing, and add the columns that the others lack.
pub open spec fn shape_repairs(tables: Seq<Seq<char>>, s: MessageSchemaV) -> Seq<Seq<char>> {
    let has_records = tables.contains("message_records"@);
    let has_deliveries = tables.contains("message_deliveries"@);
    (if has_records {
        Seq::empty()
    } else {
        seq![records_made("message_records"@)]
    }) + (if has_deliveries {
        Seq::empty()
    } else {
        seq![deliveries_made("message_deliveries"@, "message_records"@)]
    }) + (if has_records {
        columns_added(
            "message_records"@,
            s.records,
            additive_record_columns(),
            additive_record_columns().len() as int,
        )
    } else {
        Seq::empty()
    }) + (if has_deliveries {
        columns_added(
            "message_deliveries"@,
            s.deliveries,
            additive_delivery_columns(),
            additive_delivery_columns().len() as int,
        )
    } else {
        Seq::empty()
    })
}

fn repair_shape(tables: &Vec<String>, s: &MessageSchema) -> (r: Vec<String>)
    ensures
        texts(r@) == shape_repairs(texts(tables@), s@),
{
    let has_records: bool = holds_text(tables, "message_records");
    let has_deliveries: bool = holds_text(tables, "message_deliveries");
    let mut out: Vec<String> = Vec::new();
    assert(texts(out@) =~= Seq::<Seq<char>>::empty());
    if !has_records {
        let made: String = create_message_records("message_records");
        proof {
            lemma_texts_push(out@, made);
        }
        out.push(made);
    }
    let ghost first = if has_records {
        Seq::empty()
    } else {
        seq![records_made("message_records"@)]
    };
    assert(texts(out@) =~= first);
    if !has_deliveries {
        let made: String = create_message_deliveries("message_deliveries", "message_records");
        proof {
            lemma_texts_push(out@, made);
        }
        out.push(made);
    }
    let ghost second = first + (if has_deliveries {
        Seq::empty()
    } else {
        seq![deliveries_made("message_deliveries"@, "message_records"@)]
    });
    assert(texts(out@) =~= second);
    if has_records {
        add_columns(&mut out, "message_records", &s.records, &list_additive_record_columns());
    }
    let ghost third = second + (if has_records {
        columns_added(
            "message_records"@,
            s@.records,
            additive_record_columns(),
            additive_record_columns().len() as int,
        )
    } else {
        Seq::empty()
    });
    assert(texts(out@) =~= third);
    if has_deliveries {
        add_columns(
            &mut out,
            "message_deliveries",
            &s.deliveries,
            &list_additive_delivery_columns(),
        );
    }
    assert(texts(out@) =~= shape_repairs(texts(tables@), s@));
    out
}

/// The tables that copying the two tables makes use of.
pub open spec fn reserved_tables() -> Seq<&'static str> {
    seq![
        "message_records_v19_new",
        "message_deliveries_v19_new",
        "message_records_v19_old",
        "message_deliveries_v19_old",
    ]
}

/// The first of the first `n` reserved tables that exists already.
pub open spec fn reserved_in_use(tables: Seq<Seq<char>>, n: int) -> Option<Seq<char>>
    decreases n,
{
    if n <= 0 {
        None
    } else {
        match reserved_in_use(tables, n - 1) {
            Some(t) => Some(t),
            None => if tables.contains(reserved_tables()[n - 1]@) {
                Some(reserved_tables()[n - 1]@)
            } else {
                None
            },
        }
    }
}

fn find_reserved(tables: &Vec<String>) -> (r: Option<&'static str>)
    ensures
        match r {
            Some(s) => reserved_in_use(texts(tables@), 4) == Some(s@),
            None => reserved_in_use(texts(tables@), 4) is None,
        },
{
    let reserved: Vec<&'static str> = vec![
        "message_records_v19_new",
        "message_deliveries_v19_new",
        "message_records_v19_old",
        "message_deliveries_v19_old",
    ];
    assert(reserved@ =~= reserved_tables());
    let mut found: Option<&'static str> = None;
    let mut i: usize = 0;
    while i < reserved.len()
        invariant
            i <= reserved@.len(),
            reserved@ == reserved_tables(),
            match found {
                Some(s) => reserved_in_use(texts(tables@), i as int) == Some(s@),
                None => reserved_in_use(texts(tables@), i as int) is None,
            },
        decreases reserved.len() - i,
    {
        if found.is_none() && holds_text(tables, reserved[i]) {
            found = Some(reserved[i]);
        }
        i += 1;
    }
    assert(reserved@.len() == 4);
    found
}

/// Whether a name is of a list.
pub open spec fn is_known(known: Seq<&'static str>, name: Seq<char>) -> bool {
    exists|j: int| 0 <= j < known.len() && (#[trigger] known[j])@ == name
}

/// Whether a table has a column that is not of a list.
pub open spec fn has_unknown_column(columns: Seq<ShapeV>, known: Seq<&'static str>) -> bool {
    exists|i: int| 0 <= i < columns.len() && !is_known(known, (#[trigger] columns[i]).name)
}

fn knows(known: &Vec<&'static str>, name: &str) -> (r: bool)
    ensures
        r == is_known(known@, name@),
{
    let mut j: usize = 0;
    while j < known.len()
        invariant
            j <= known@.len(),
            forall|k: int| 0 <= k < j ==> (#[trigger] known@[k])@ != name@,
        decreases known.len() - j,
    {
        if same(known[j], name) {
            return true;
        }
        j += 1;
    }
    false
}

fn holds_unknown_column(columns: &Vec<ColumnShape>, known: &Vec<&'static str>) -> (r: bool)
    ensures
        r == has_unknown_column(views(columns@), known@),
{
    let mut i: usize = 0;
    while i < columns.len()
        invariant
            i <= columns@.len(),
            forall|k: int|
                0 <= k < i ==> is_known(known@, (#[trigger] views(columns@)[k]).name),
        decreases columns.len() - i,
    {
        if !knows(known, columns[i].name.as_str()) {
            assert(views(columns@)[i as int].name == columns@[i as int].name@);
            return true;
        }
        assert(views(columns@)[i as int].name == columns@[i as int].name@);
        i += 1;
    }
    false
}

/// The first `n` names with commas between them.
pub open spec fn listed(names: Seq<&'static str>, n: int) -> Seq<char>
    decreases n,
{
    if n <= 0 {
        Seq::empty()
    } else if n == 1 {
        names[0]@
    } else {
        listed(names, n - 1) + ", "@ + names[n - 1]@
    }
}

fn list_names(names: &Vec<&'static str>) -> (r: String)
    ensures
        r@ == listed(names@, names@.len() as int),
{
    let mut out: String = String::new();
    let mut i: usize = 0;
    assert(out@ =~= Seq::<char>::empty());
    while i < names.len()
        invariant
            i <= names@.len(),
            out@ == listed(names@, i as int),
        decreases names.len() - i,
    {
        if i > 0 {
            out.append(", ");
        }
        out.append(names[i]);
        assert(i == 0 ==> out@ =~= names@[0]@);
        i += 1;
    }
    out
}

/// The statement that copies the rows of a table.
pub open spec fn rows_copied(
    into: Seq<char>,
    names: Seq<&'static str>,
    from: Seq<char>,
    table: Seq<char>,
) -> Seq<char> {
    "INSERT INTO "@ + into + " ("@ + listed(names, names.len() as int) + ") SELECT "@ + from
        + " FROM "@ + table + ";"@
}

fn copy_rows(into: &str, names: &Vec<&'static str>, from: &str, table: &str) -> (r: String)
    ensures
        r@ == rows_copied(into@, names@, from@, table@),
{
    let mut s: String = cat3("INSERT INTO ", into, " (");
    s.append(list_names(names).as_str());
    s.append(") SELECT ");
    s.append(from);
    s.append(" FROM ");
    s.append(table);
    s.append(";");
    s
}

/// What a repair has seen of the database at a step.
#[derive(Debug)]
pub struct RepairFacts {
    pub tables: Vec<String>,
    pub schema: MessageSchema,
    /// The rows of the two tables.
    pub record_count: i64,
    pub delivery_count: i64,
    /// The rows of the two copies.
    pub copied_records: i64,
    pub copied_deliveries: i64,
    /// Whether a delivery, or the copy of one, refers to a record that is not there.
    pub violations: bool,
}

/// The view of [`RepairFacts`].
pub struct RepairFactsV {
    pub tables: Seq<Seq<char>>,
    pub schema: MessageSchemaV,
    pub record_count: int,
    pub delivery_count: int,
    pub copied_records: int,
    pub copied_deliveries: int,
    pub violations: bool,
}

impl View for RepairFacts {
    type V = RepairFactsV;

    open spec fn view(&self) -> RepairFactsV {
        RepairFactsV {
            tables: texts(self.tables@),
            schema: self.schema@,
            record_count: self.record_count as int,
            delivery_count: self.delivery_count as int,
            copied_records: self.copied_records as int,
            copied_deliveries: self.copied_deliveries as int,
            violations: self.violations,
        }
    }
}

/// The statements that make the two copies and fill them; or why the tables are not copied.
pub open spec fn copy_planned(f: RepairFactsV) -> Result<Seq<Seq<char>>, Seq<char>> {
    match reserved_in_use(f.tables, 4) {
        Some(t) => Err(
            "lossless v19 lifecycle repair cannot be proven: reserved table "@ + t
                + " already exists"@,
        ),
        None => if has_unknown_column(f.schema.records, record_columns()) || has_unknown_column(
            f.schema.deliveries,
            delivery_columns(),
        ) {
            Err(
                "lossless v19 lifecycle repair cannot be proven: lifecycle table has unknown columns"@,
            )
        } else {
            match projection(
                f.schema.records,
                f.record_count,
                record_copies(),
                record_copies().len() as int,
            ) {
                Err(e) => Err(e),
                Ok(records) => match projection(
                    f.schema.deliveries,
                    f.delivery_count,
                    delivery_copies(),
                    delivery_copies().len() as int,
                ) {
                    Err(e) => Err(e),
                    Ok(deliveries) => Ok(
                        seq![
                            records_made("message_records_v19_new"@),
                            deliveries_made(
                                "message_deliveries_v19_new"@,
                                "message_records_v19_new"@,
                            ),
                            rows_copied(
                                "message_records_v19_new"@,
                                record_columns(),
                                records,
                                "message_records"@,
                            ),
                            rows_copied(
                                "message_deliveries_v19_new"@,
                                delivery_columns(),
                                deliveries,
                                "message_deliveries"@,
                            ),
                        ],
                    ),
                },
            }
        },
    }
}

fn plan_copy(f: &RepairFacts) -> (r: Result<Vec<String>, String>)
    ensures
        match r {
            Ok(v) => copy_planned(f@) == Ok::<Seq<Seq<char>>, Seq<char>>(texts(v@)),
            Err(e) => copy_planned(f@) == Err::<Seq<Seq<char>>, Seq<char>>(e@),
        },
{
    if let Some(t) = find_reserved(&f.tables) {
        return Err(
            cat3(
                "lossless v19 lifecycle repair cannot be proven: reserved table ",
                t,
                " already exists",
            ),
        );
    }
    let record_names: Vec<&'static str> = list_record_columns();
    let delivery_names: Vec<&'static str> = list_delivery_columns();
    if holds_unknown_column(&f.schema.records, &record_names) || holds_unknown_column(
        &f.schema.deliveries,
        &delivery_names,
    ) {
        return Err(
            "lossless v19 lifecycle repair cannot be proven: lifecycle table has unknown columns".to_owned(),
        );
    }
    let records: String = match copy_projection(
        &f.schema.records,
        f.record_count,
        &list_record_copies(),
    ) {
        Err(e) => {
            return Err(e);
        },
        Ok(s) => s,
    };
    let deliveries: String = match copy_projection(
        &f.schema.deliveries,
        f.delivery_count,
        &list_delivery_copies(),
    ) {
        Err(e) => {
            return Err(e);
        },
        Ok(s) => s,
    };
    let mut out: Vec<String> = Vec::new();
    out.push(create_message_records("message_records_v19_new"));
    out.push(create_message_deliveries("message_deliveries_v19_new", "message_records_v19_new"));
    out.push(
        copy_rows("message_records_v19_new", &record_names, records.as_str(), "message_records"),
    );
    out.push(
        copy_rows(
            "message_deliveries_v19_new",
            &delivery_names,
            deliveries.as_str(),
            "message_deliveries",
        ),
    );
    assert(texts(out@) =~= copy_planned(f@)->Ok_0);
    Ok(out)
}

/// Why the copies may not take the place of the tables, if so: rows were lost, or a delivery refers
/// to a record that is not there.
pub open spec fn copy_refused(records: int, deliveries: int, f: RepairFactsV) -> Option<Seq<char>> {
    if f.copied_records != records || f.copied_deliveries != deliveries {
        Some(
            "lossless v19 lifecycle repair row-count mismatch: records "@ + decimal(records) + "/"@
                + decimal(f.copied_records) + ", deliveries "@ + decimal(deliveries) + "/"@
                + decimal(f.copied_deliveries),
        )
    } else if f.violations {
        Some("lossless v19 lifecycle repair found foreign-key violations"@)
    } else {
        None
    }
}

fn check_copy(records: i64, deliveries: i64, f: &RepairFacts) -> (r: Result<(), String>)
    ensures
        match r {
            Ok(()) => copy_refused(records as int, deliveries as int, f@) is None,
            Err(e) => copy_refused(records as int, deliveries as int, f@) == Some(e@),
        },
{
    if f.copied_records != records || f.copied_deliveries != deliveries {
        let mut s: String = cat3(
            "lossless v19 lifecycle repair row-count mismatch: records ",
            decimal_text(records).as_str(),
            "/",
        );
        s.append(decimal_text(f.copied_records).as_str());
        s.append(", deliveries ");
        s.append(decimal_text(deliveries).as_str());
        s.append("/");
        s.append(decimal_text(f.copied_deliveries).as_str());
        return Err(s);
    }
    if f.violations {
        return Err("lossless v19 lifecycle repair found foreign-key violations".to_owned());
    }
    Ok(())
}

/// How far a repair has come.
#[derive(Debug, Clone, Copy, PartialEq, Eq, Structural)]
pub enum RepairStage {
    /// Nothing was done yet.
    Start,
    /// Both tables exist and have the columns that can be added.
    Shaped,
    /// The tables were copied; they had that many rows.
    Copied { records: i64, deliveries: i64 },
    /// The copies stand in the place of the tables, which had that many rows.
    Swapped { records: i64, deliveries: i64 },
    /// The indexes were repaired.
    Indexed,
    /// The repair is complete.
    Done,
}

/// The next stage of a repair and the statements that lead to it; or why it stops.
pub open spec fn repair_after(stage: RepairStage, f: RepairFactsV) -> Result<
    (RepairStage, Seq<Seq<char>>),
    Seq<char>,
> {
    let indexing = (
        RepairStage::Indexed,
        index_repairs(f.schema.indexes, message_indexes().len() as int),
    );
    match stage {
        RepairStage::Start => Ok((RepairStage::Shaped, shape_repairs(f.tables, f.schema))),
        RepairStage::Shaped => if schema_complete(f.schema) {
            Ok(indexing)
        } else {
            match copy_planned(f) {
                Err(e) => Err(e),
                Ok(s) => Ok(
                    (
                        RepairStage::Copied {
                            records: f.record_count as i64,
                            deliveries: f.delivery_count as i64,
                        },
                        s,
                    ),
                ),
            }
        },
        RepairStage::Copied { records, deliveries } => match copy_refused(
            records as int,
            deliveries as int,
            f,
        ) {
            Some(e) => Err(e),
            None => Ok((RepairStage::Swapped { records, deliveries }, seq![SWAP@])),
        },
        RepairStage::Swapped { records, deliveries } => if f.record_count == records
            && f.delivery_count == deliveries && !f.violations && schema_complete(f.schema) {
            Ok(indexing)
        } else {
            Err("lossless v19 lifecycle repair failed post-swap validation"@)
        },
        RepairStage::Indexed => if schema_complete(f.schema) && indexes_complete(f.schema.indexes) {
            Ok((RepairStage::Done, Seq::empty()))
        } else {
            Err("v19 lifecycle schema repair did not produce the canonical schema"@)
        },
        RepairStage::Done => Ok((RepairStage::Done, Seq::empty())),
    }
}

impl RepairStage {
    /// The next stage of a repair and the statements that lead to it, given what the database looks
    /// like now.
    pub fn next(self, f: &RepairFacts) -> (r: Result<(RepairStage, Vec<String>), String>)
        ensures
            match r {
                Ok((stage, v)) => repair_after(self, f@) == Ok::<
                    (RepairStage, Seq<Seq<char>>),
                    Seq<char>,
                >((stage, texts(v@))),
                Err(e) => repair_after(self, f@) == Err::<
                    (RepairStage, Seq<Seq<char>>),
                    Seq<char>,
                >(e@),
            },
    {
        let none: Vec<String> = Vec::new();
        assert(texts(none@) =~= Seq::<Seq<char>>::empty());
        match self {
            RepairStage::Start => Ok((RepairStage::Shaped, repair_shape(&f.tables, &f.schema))),
            RepairStage::Shaped => {
                if message_schema_v19_complete(&f.schema) {
                    return Ok(
                        (RepairStage::Indexed, repair_message_indexes_v19(&f.schema.indexes)),
                    );
                }
                match plan_copy(f) {
                    Err(e) => Err(e),
                    Ok(v) => Ok(
                        (
                            RepairStage::Copied {
                                records: f.record_count,
                                deliveries: f.delivery_count,
                            },
                            v,
                        ),
                    ),
                }
            },
            RepairStage::Copied { records, deliveries } => match check_copy(
                records,
                deliveries,
                f,
            ) {
                Err(e) => Err(e),
                Ok(()) => {
                    let mut v: Vec<String> = Vec::new();
                    v.push(SWAP.to_owned());
                    assert(texts(v@) =~= seq![SWAP@]);
                    Ok((RepairStage::Swapped { records, deliveries }, v))
                },
            },
            RepairStage::Swapped { records, deliveries } => {
                if f.record_count == records && f.delivery_count == deliveries && !f.violations
                    && message_schema_v19_complete(&f.schema) {
                    Ok((RepairStage::Indexed, repair_message_indexes_v19(&f.schema.indexes)))
                } else {
                    Err("lossless v19 lifecycle repair failed post-swap validation".to_owned())
                }
            },
            RepairStage::Indexed => {
                if message_schema_v19_complete(&f.schema) && message_indexes_v19_complete(
                    &f.schema.indexes,
                ) {
                    Ok((RepairStage::Done, none))
                } else {
                    Err(
                        "v19 lifecycle schema repair did not produce the canonical schema".to_owned(),
                    )
                }
            },
            RepairStage::Done => Ok((RepairStage::Done, none)),
        }
    }
}

/// The stage that a repair comes to, by what the database looked like at each step; nothing where
/// it stopped.
pub open spec fn repair_run(seen: Seq<RepairFactsV>) -> Option<RepairStage>
    decreases seen.len(),
{
    if seen.len() == 0 {
        Some(RepairStage::Start)
    } else {
        match repair_run(seen.drop_last()) {
            None => None,
            Some(stage) => match repair_after(stage, seen.last()) {
                Err(_) => None,
                Ok((next, _)) => Some(next),
            },
        }
    }
}

/// A repair is done only after it has seen both tables in their shape and all indexes present.
pub proof fn repairs_end_complete(seen: Seq<RepairFactsV>)
    requires
        repair_run(seen) == Some(RepairStage::Done),
    ensures
        exists|i: int|
            0 <= i < seen.len() && schema_complete((#[trigger] seen[i]).schema)
                && indexes_complete(seen[i].schema.indexes),
    decreases seen.len(),
{
    let before = seen.drop_last();
    if repair_run(before) == Some(RepairStage::Done) {
        repairs_end_complete(before);
        let i = choose|i: int|
            0 <= i < before.len() && schema_complete((#[trigger] before[i]).schema)
                && indexes_complete(before[i].schema.indexes);
        assert(seen[i] == before[i]);
    } else {
        assert(seen[seen.len() - 1] == seen.last());
    }
}

/// The tables make room for their copies only after the copies were seen to hold as many rows as
/// the tables had when the copying began, and no delivery without its record.
pub proof fn swaps_lose_no_row(seen: Seq<RepairFactsV>, records: i64, deliveries: i64)
    requires
        repair_run(seen) == Some(RepairStage::Swapped { records, deliveries }),
        forall|i: int|
            0 <= i < seen.len() ==> i64::MIN <= (#[trigger] seen[i]).record_count <= i64::MAX
                && i64::MIN <= seen[i].delivery_count <= i64::MAX,
    ensures
        seen.len() >= 2,
        seen.last().copied_records == records,
        seen.last().copied_deliveries == deliveries,
        !seen.last().violations,
        seen[seen.len() - 2].record_count == records,
        seen[seen.len() - 2].delivery_count == deliveries,
{
    let before = seen.drop_last();
    assert(repair_run(before) == Some(RepairStage::Copied { records, deliveries }));
    let earlier = before.drop_last();
    assert(before.last() == seen[seen.len() - 2]);
    assert(repair_run(earlier) == Some(RepairStage::Shaped));
}

/// A table is made under the name it is given, and deliveries refer to the records they are given.
pub proof fn tables_are_made_under_their_names(table: &str, parent: &str, records: String, deliveries: String)
    requires
        call_ensures(create_message_records, (table,), records),
        call_ensures(create_message_deliveries, (table, parent), deliveries),
    ensures
        ("CREATE TABLE "@ + table@ + " "@).is_prefix_of(records@),
        ("CREATE TABLE "@ + table@ + " "@).is_prefix_of(deliveries@),
        (parent@ + "(message_id) ON DELETE CASCADE);"@).is_suffix_of(deliveries@),
        records@ == "CREATE TABLE "@ + table@ + " "@ + RECORD_DECLARATION@,
{
    let head = "CREATE TABLE "@ + table@ + " "@;
    assert(head + RECORD_DECLARATION@ =~= records@);
    let tail = parent@ + "(message_id) ON DELETE CASCADE);"@;
    assert(head + (DELIVERY_DECLARATION@ + tail) =~= deliveries@);
    assert((head + DELIVERY_DECLARATION@) + tail =~= deliveries@);
}

proof fn lemma_columns_added(table: Seq<char>, columns: Seq<ShapeV>, wanted: Seq<AdditiveColumn>, n: int, k: int)
    requires
        0 <= k < n <= wanted.len(),
    ensures
        !has_column(columns, wanted[k].name@) ==> columns_added(table, columns, wanted, n).contains("ALTER TABLE "@ + table + " ADD COLUMN "@ + wanted[k].name@ + " "@ + wanted[k].definition@),
    decreases n,
{
    let want = "ALTER TABLE "@ + table + " ADD COLUMN "@ + wanted[k].name@ + " "@ + wanted[k].definition@;
    let before = columns_added(table, columns, wanted, n - 1);
    let all = columns_added(table, columns, wanted, n);
    if !has_column(columns, wanted[k].name@) {
        if k < n - 1 {
            lemma_columns_added(table, columns, wanted, n - 1, k);
            let q = choose|q: int| 0 <= q < before.len() && before[q] == want;
            assert(all[q] == want);
        } else {
            assert(all.last() == want);
        }
    }
}

/// Whether a column can be added to records as it is declared.
pub open spec fn is_additive_record_column(name: Seq<char>, definition: Seq<char>) -> bool {
    ||| definition == "TEXT"@ && (name == "sender_session_id"@ || name == "intent"@ || name == "in_reply_to"@ || name == "legacy_reply_to"@ || name == "reply_endpoint"@ || name == "supersedes"@ || name == "retry_of"@)
    ||| name == "expects_reply"@ && definition == "INTEGER NOT NULL DEFAULT 0"@
    ||| name == "attachments_json"@ && definition == "TEXT NOT NULL DEFAULT '[]'"@
}

/// Whether a column can be added to deliveries as it is declared.
pub open spec fn is_additive_delivery_column(name: Seq<char>, definition: Seq<char>) -> bool {
    ||| name == "endpoint_epoch"@ && definition == "TEXT NOT NULL DEFAULT ''"@
    ||| name == "delivery_endpoint"@ && definition == "TEXT NOT NULL DEFAULT 'inbox'"@
    ||| name == "attempt"@ && definition == "INTEGER NOT NULL DEFAULT 1"@
    ||| name == "state_event_id"@ && definition == "INTEGER"@
    ||| name == "last_actor"@ && definition == "TEXT NOT NULL DEFAULT ''"@
}

/// A repair begins by making what is missing: a table that is not there is made, and a table that is
/// there gets each column that can be added and that it lacks.
pub proof fn repairs_begin_with_what_is_missing(f: RepairFacts, r: Result<(RepairStage, Vec<String>), String>, name: Seq<char>, definition: Seq<char>)
    requires
        call_ensures(RepairStage::next, (RepairStage::Start, &f), r),
    ensures
        r matches Ok((stage, _)) && stage == RepairStage::Shaped,
        !texts(f.tables@).contains("message_records"@) ==> texts(r->Ok_0.1@).contains("CREATE TABLE "@ + "message_records"@ + " "@ + RECORD_DECLARATION@),
        !texts(f.tables@).contains("message_deliveries"@) ==> texts(r->Ok_0.1@).contains("CREATE TABLE "@ + "message_deliveries"@ + " "@ + DELIVERY_DECLARATION@ + "message_records"@ + "(message_id) ON DELETE CASCADE);"@),
        texts(f.tables@).contains("message_records"@) && is_additive_record_column(name, definition) && !has_column(views(f.schema.records@), name) ==> texts(r->Ok_0.1@).contains("ALTER TABLE "@ + "message_records"@ + " ADD COLUMN "@ + name + " "@ + definition),
        texts(f.tables@).contains("message_deliveries"@) && is_additive_delivery_column(name, definition) && !has_column(views(f.schema.deliveries@), name) ==> texts(r->Ok_0.1@).contains("ALTER TABLE "@ + "message_deliveries"@ + " ADD COLUMN "@ + name + " "@ + definition),
{
    let tables = texts(f.tables@);
    let all = texts(r->Ok_0.1@);
    let has_records = tables.contains("message_records"@);
    let has_deliveries = tables.contains("message_deliveries"@);
    let a: Seq<Seq<char>> = if has_records { Seq::empty() } else { seq![records_made("message_records"@)] };
    let b: Seq<Seq<char>> = if has_deliveries { Seq::empty() } else { seq![deliveries_made("message_deliveries"@, "message_records"@)] };
    let rw = additive_record_columns();
    let dw = additive_delivery_columns();
    let c: Seq<Seq<char>> = if has_records { columns_added("message_records"@, f.schema@.records, rw, 9) } else { Seq::empty() };
    let d: Seq<Seq<char>> = if has_deliveries { columns_added("message_deliveries"@, f.schema@.deliveries, dw, 5) } else { Seq::empty() };
    assert(all == a + b + c + d);
    if !has_records {
        assert(all[0] == a[0]);
    }
    if !has_deliveries {
        assert(all[a.len() as int] == b[0]);
    }
    if has_records && is_additive_record_column(name, definition) && !has_column(f.schema@.records, name) {
        assert(rw[0].name == "sender_session_id" && rw[1].name == "intent" && rw[2].name == "expects_reply" && rw[3].name == "in_reply_to" && rw[4].name == "legacy_reply_to");
        assert(rw[5].name == "reply_endpoint" && rw[6].name == "supersedes" && rw[7].name == "retry_of" && rw[8].name == "attachments_json");
        let k: int = if name == "sender_session_id"@ { 0 } else if name == "intent"@ { 1 } else if name == "expects_reply"@ && definition == "INTEGER NOT NULL DEFAULT 0"@ { 2 } else if name == "in_reply_to"@ { 3 } else if name == "legacy_reply_to"@ { 4 } else if name == "reply_endpoint"@ { 5 } else if name == "supersedes"@ { 6 } else if name == "retry_of"@ { 7 } else { 8 };
        lemma_record_column_names();
        assert(rw[k].name@ == name && rw[k].definition@ == definition);
        lemma_columns_added("message_records"@, f.schema@.records, rw, 9, k);
        let want = "ALTER TABLE "@ + "message_records"@ + " ADD COLUMN "@ + name + " "@ + definition;
        let q = choose|q: int| 0 <= q < c.len() && c[q] == want;
        assert(all[a.len() + b.len() + q] == want);
    }
    if has_deliveries && is_additive_delivery_column(name, definition) && !has_column(f.schema@.deliveries, name) {
        assert(dw[0].name == "endpoint_epoch" && dw[1].name == "delivery_endpoint" && dw[2].name == "attempt" && dw[3].name == "state_event_id" && dw[4].name == "last_actor");
        lemma_delivery_column_names();
        let k: int = if name == "endpoint_epoch"@ { 0 } else if name == "delivery_endpoint"@ { 1 } else if name == "attempt"@ { 2 } else if name == "state_event_id"@ { 3 } else { 4 };
        assert(dw[k].name@ == name && dw[k].definition@ == definition);
        lemma_columns_added("message_deliveries"@, f.schema@.deliveries, dw, 5, k);
        let want = "ALTER TABLE "@ + "message_deliveries"@ + " ADD COLUMN "@ + name + " "@ + definition;
        let q = choose|q: int| 0 <= q < d.len() && d[q] == want;
        assert(all[a.len() + b.len() + c.len() + q] == want);
    }
}

proof fn lemma_record_column_names()
    ensures
        "sender_session_id"@.len() == 17 && "intent"@.len() == 6 && "expects_reply"@.len() == 13 && "in_reply_to"@.len() == 11 && "legacy_reply_to"@.len() == 15 && "reply_endpoint"@.len() == 14 && "supersedes"@.len() == 10 && "retry_of"@.len() == 8 && "attachments_json"@.len() == 16,
{
    reveal_strlit("sender_session_id");
    reveal_strlit("intent");
    reveal_strlit("expects_reply");
    reveal_strlit("in_reply_to");
    reveal_strlit("legacy_reply_to");
    reveal_strlit("reply_endpoint");
    reveal_strlit("supersedes");
    reveal_strlit("retry_of");
    reveal_strlit("attachments_json");
}

proof fn lemma_delivery_column_names()
    ensures
        "endpoint_epoch"@.len() == 14 && "delivery_endpoint"@.len() == 17 && "attempt"@.len() == 7 && "state_event_id"@.len() == 14 && "last_actor"@.len() == 10,
        "endpoint_epoch"@[0] == 'e' && "state_event_id"@[0] == 's',
{
    reveal_strlit("endpoint_epoch");
    reveal_strlit("delivery_endpoint");
    reveal_strlit("attempt");
    reveal_strlit("state_event_id");
    reveal_strlit("last_actor");
}

/// A shaped database goes on to its indexes where its tables are complete; else its tables are copied,
/// unless a table stands where a copy would, or a table has a column that no copy would hold.
pub proof fn incomplete_tables_are_copied(f: RepairFacts, r: Result<(RepairStage, Vec<String>), String>, complete: bool, repairs: Vec<String>, i: int)
    requires
        call_ensures(RepairStage::next, (RepairStage::Shaped, &f), r),
        call_ensures(message_schema_v19_complete, (&f.schema,), complete),
        call_ensures(repair_message_indexes_v19, (&f.schema.indexes,), repairs),
    ensures
        complete ==> (r matches Ok((stage, v)) && stage == RepairStage::Indexed && texts(v@) == texts(repairs@)),
        !complete ==> (r matches Ok((stage, v)) ==> (stage matches RepairStage::Copied { records, deliveries } && records == f.record_count && deliveries == f.delivery_count) && v@.len() == 4),
        !complete && texts(f.tables@).contains("message_records_v19_new"@) ==> (r matches Err(e) && e@ == "lossless v19 lifecycle repair cannot be proven: reserved table "@ + "message_records_v19_new"@ + " already exists"@),
        !complete && (texts(f.tables@).contains("message_deliveries_v19_new"@) || texts(f.tables@).contains("message_records_v19_old"@) || texts(f.tables@).contains("message_deliveries_v19_old"@)) ==> r is Err,
        !complete && 0 <= i < f.schema.records@.len() && !crate::schema::is_record_column(f.schema.records@[i].name@) ==> r is Err,
        !complete && 0 <= i < f.schema.deliveries@.len() && !crate::schema::is_delivery_column(f.schema.deliveries@[i].name@) ==> r is Err,
{
    let tables = texts(f.tables@);
    reveal_with_fuel(reserved_in_use, 5);
    let t = reserved_tables();
    assert(t[0]@ == "message_records_v19_new"@ && t[1]@ == "message_deliveries_v19_new"@ && t[2]@ == "message_records_v19_old"@ && t[3]@ == "message_deliveries_v19_old"@);
    assert(reserved_in_use(tables, 1) == if tables.contains(t[0]@) { Some(t[0]@) } else { None });
    if 0 <= i < f.schema.records@.len() {
        assert(f.schema@.records[i] == f.schema.records@[i]@);
        crate::schema::lemma_names(f.schema.records@[i].name@);
        if !crate::schema::is_record_column(f.schema.records@[i].name@) {
            assert(!is_known(record_columns(), f.schema@.records[i].name));
            assert(has_unknown_column(f.schema@.records, record_columns()));
        }
    }
    if 0 <= i < f.schema.deliveries@.len() {
        assert(f.schema@.deliveries[i] == f.schema.deliveries@[i]@);
        crate::schema::lemma_names(f.schema.deliveries@[i].name@);
        if !crate::schema::is_delivery_column(f.schema.deliveries@[i].name@) {
            assert(!is_known(delivery_columns(), f.schema@.deliveries[i].name));
            assert(has_unknown_column(f.schema@.deliveries, delivery_columns()));
        }
    }
    if r is Ok {
        assert(texts(r->Ok_0.1@).len() == r->Ok_0.1@.len());
    }
}

/// Copies take the place of the tables only where they hold as many rows and no delivery lacks its
/// record; after that the counts, the records and the shape are looked at again, and at the end the
/// shape and the indexes.
pub proof fn copies_are_checked_before_and_after(f: RepairFacts, records: i64, deliveries: i64, copied: Result<(RepairStage, Vec<String>), String>, swapped: Result<(RepairStage, Vec<String>), String>, indexed: Result<(RepairStage, Vec<String>), String>, complete: bool, all_indexes: bool)
    requires
        call_ensures(RepairStage::next, ((RepairStage::Copied { records, deliveries }), &f), copied),
        call_ensures(RepairStage::next, ((RepairStage::Swapped { records, deliveries }), &f), swapped),
        call_ensures(RepairStage::next, (RepairStage::Indexed, &f), indexed),
        call_ensures(message_schema_v19_complete, (&f.schema,), complete),
        call_ensures(message_indexes_v19_complete, (&f.schema.indexes,), all_indexes),
    ensures
        copied is Ok <==> f.copied_records == records && f.copied_deliveries == deliveries && !f.violations,
        copied matches Ok((stage, v)) ==> stage == (RepairStage::Swapped { records, deliveries }) && v@.len() == 1 && v@[0]@ == SWAP@,
        f.copied_records == records && f.copied_deliveries == deliveries && f.violations ==> (copied matches Err(e) && e@ == "lossless v19 lifecycle repair found foreign-key violations"@),
        f.copied_records != records || f.copied_deliveries != deliveries ==> (copied matches Err(e) && e@ == "lossless v19 lifecycle repair row-count mismatch: records "@ + decimal(records as int) + "/"@ + decimal(f.copied_records as int) + ", deliveries "@ + decimal(deliveries as int) + "/"@ + decimal(f.copied_deliveries as int)),
        swapped is Ok <==> f.record_count == records && f.delivery_count == deliveries && !f.violations && complete,
        swapped matches Ok((stage, _)) ==> stage == RepairStage::Indexed,
        swapped matches Err(e) ==> e@ == "lossless v19 lifecycle repair failed post-swap validation"@,
        indexed is Ok <==> complete && all_indexes,
        indexed matches Ok((stage, v)) ==> stage == RepairStage::Done && v@.len() == 0,
        indexed matches Err(e) ==> e@ == "v19 lifecycle schema repair did not produce the canonical schema"@,
{
    if copied is Ok {
        let v = copied->Ok_0.1@;
        assert(texts(v).len() == v.len());
        assert(texts(v) == seq![SWAP@]);
        assert(texts(v)[0] == v[0]@);
    }
    if indexed is Ok {
        assert(texts(indexed->Ok_0.1@).len() == indexed->Ok_0.1@.len());
    }
}

} // verus!
