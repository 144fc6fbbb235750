//! The tables that messages and deliveries are projected into: whether they have the shape that the
//! store relies on, and how they are brought into it without losing a row.

use crate::names::{is_same_folded, same_folded};
use crate::rows::views;
use crate::text::{cat, cat3, lemma_texts_push, same, texts};
use vstd::prelude::*;

verus! {

/// The version of the schema that the store is written for.
pub const SCHEMA_VERSION: i32 = 19;

/// A column of a table.
#[derive(Debug)]
pub struct ColumnShape {
    pub name: String,
    pub not_null: bool,
    /// The place of the column in the primary key, counted from one; zero where it has none.
    pub primary_key_position: i64,
}

/// The view of a [`ColumnShape`].
pub struct ShapeV {
    pub name: Seq<char>,
    pub not_null: bool,
    pub primary_key_position: int,
}

impl View for ColumnShape {
    type V = ShapeV;

    open spec fn view(&self) -> ShapeV {
        ShapeV {
            name: self.name@,
            not_null: self.not_null,
            primary_key_position: self.primary_key_position as int,
        }
    }
}

/// An index of a database.
#[derive(Debug)]
pub struct IndexShape {
    pub name: String,
    pub unique: bool,
    pub columns: Vec<String>,
}

/// The view of an [`IndexShape`].
pub struct IndexV {
    pub name: Seq<char>,
    pub unique: bool,
    pub columns: Seq<Seq<char>>,
}

impl View for IndexShape {
    type V = IndexV;

    open spec fn view(&self) -> IndexV {
        IndexV { name: self.name@, unique: self.unique, columns: texts(self.columns@) }
    }
}

/// A column that refers to a column of another table.
#[derive(Debug)]
pub struct ForeignKey {
    pub parent: String,
    pub from: String,
    pub to: String,
    pub on_delete: String,
}

/// The view of a [`ForeignKey`].
pub struct ForeignKeyV {
    pub parent: Seq<char>,
    pub from: Seq<char>,
    pub to: Seq<char>,
    pub on_delete: Seq<char>,
}

impl View for ForeignKey {
    type V = ForeignKeyV;

    open spec fn view(&self) -> ForeignKeyV {
        ForeignKeyV {
            parent: self.parent@,
            from: self.from@,
            to: self.to@,
            on_delete: self.on_delete@,
        }
    }
}

/// What a database says of the tables that messages are projected into. A table that is missing has
/// no columns.
#[derive(Debug)]
pub struct MessageSchema {
    pub records: Vec<ColumnShape>,
    pub deliveries: Vec<ColumnShape>,
    /// The indexes of the table of records.
    pub record_indexes: Vec<IndexShape>,
    /// The references that the table of deliveries makes.
    pub delivery_keys: Vec<ForeignKey>,
    /// All indexes of the database.
    pub indexes: Vec<IndexShape>,
}

/// The view of a [`MessageSchema`].
pub struct MessageSchemaV {
    pub records: Seq<ShapeV>,
    pub deliveries: Seq<ShapeV>,
    pub record_indexes: Seq<IndexV>,
    pub delivery_keys: Seq<ForeignKeyV>,
    pub indexes: Seq<IndexV>,
}

impl View for MessageSchema {
    type V = MessageSchemaV;

    open spec fn view(&self) -> MessageSchemaV {
        MessageSchemaV {
            records: views(self.records@),
            deliveries: views(self.deliveries@),
            record_indexes: views(self.record_indexes@),
            delivery_keys: views(self.delivery_keys@),
            indexes: views(self.indexes@),
        }
    }
}

/// Whether a table has a column.
pub open spec fn has_column(columns: Seq<ShapeV>, name: Seq<char>) -> bool {
    exists|i: int| 0 <= i < columns.len() && (#[trigger] columns[i]).name == name
}

/// Whether a table has a column that is never null.
pub open spec fn has_filled_column(columns: Seq<ShapeV>, name: Seq<char>) -> bool {
    exists|i: int|
        0 <= i < columns.len() && (#[trigger] columns[i]).name == name && columns[i].not_null
}

/// Whether a column has a place in the primary key of its table.
pub open spec fn has_key_column(columns: Seq<ShapeV>, name: Seq<char>, place: int) -> bool {
    exists|i: int|
        0 <= i < columns.len() && (#[trigger] columns[i]).name == name
            && columns[i].primary_key_position == place
}

/// Whether a table has all columns of a list.
pub open spec fn has_columns(columns: Seq<ShapeV>, names: Seq<&'static str>) -> bool {
    forall|i: int| 0 <= i < names.len() ==> has_column(columns, (#[trigger] names[i])@)
}

/// Whether no column of a list is ever null.
pub open spec fn has_filled_columns(columns: Seq<ShapeV>, names: Seq<&'static str>) -> bool {
    forall|i: int| 0 <= i < names.len() ==> has_filled_column(columns, (#[trigger] names[i])@)
}

/// Tests whether a table has a column.
pub fn holds_column(columns: &Vec<ColumnShape>, name: &str) -> (r: bool)
    ensures
        r == has_column(views(columns@), name@),
{
    let mut i: usize = 0;
    while i < columns.len()
        invariant
            i <= columns@.len(),
            forall|k: int| 0 <= k < i ==> (#[trigger] views(columns@)[k]).name != name@,
        decreases columns.len() - i,
    {
        if same(columns[i].name.as_str(), name) {
            assert(views(columns@)[i as int].name == name@);
            return true;
        }
        i += 1;
    }
    false
}

fn holds_filled_column(columns: &Vec<ColumnShape>, name: &str) -> (r: bool)
    ensures
        r == has_filled_column(views(columns@), name@),
{
    let mut i: usize = 0;
    while i < columns.len()
        invariant
            i <= columns@.len(),
            forall|k: int|
                0 <= k < i ==> (#[trigger] views(columns@)[k]).name != name@ || !views(
                    columns@,
                )[k].not_null,
        decreases columns.len() - i,
    {
        if columns[i].not_null && same(columns[i].name.as_str(), name) {
            assert(views(columns@)[i as int].name == name@);
            return true;
        }
        i += 1;
    }
    false
}

fn holds_key_column(columns: &Vec<ColumnShape>, name: &str, place: i64) -> (r: bool)
    ensures
        r == has_key_column(views(columns@), name@, place as int),
{
    let mut i: usize = 0;
    while i < columns.len()
        invariant
            i <= columns@.len(),
            forall|k: int|
                0 <= k < i ==> (#[trigger] views(columns@)[k]).name != name@ || views(
                    columns@,
                )[k].primary_key_position != place,
        decreases columns.len() - i,
    {
        if columns[i].primary_key_position == place && same(columns[i].name.as_str(), name) {
            assert(views(columns@)[i as int].name == name@);
            return true;
        }
        i += 1;
    }
    false
}

fn holds_columns(columns: &Vec<ColumnShape>, names: &Vec<&'static str>) -> (r: bool)
    ensures
        r == has_columns(views(columns@), names@),
{
    let mut i: usize = 0;
    while i < names.len()
        invariant
            i <= names@.len(),
            forall|k: int| 0 <= k < i ==> has_column(views(columns@), (#[trigger] names@[k])@),
        decreases names.len() - i,
    {
        if !holds_column(columns, names[i]) {
            return false;
        }
        i += 1;
    }
    true
}

fn holds_filled_columns(columns: &Vec<ColumnShape>, names: &Vec<&'static str>) -> (r: bool)
    ensures
        r == has_filled_columns(views(columns@), names@),
{
    let mut i: usize = 0;
    while i < names.len()
        invariant
            i <= names@.len(),
            forall|k: int|
                0 <= k < i ==> has_filled_column(views(columns@), (#[trigger] names@[k])@),
        decreases names.len() - i,
    {
        if !holds_filled_column(columns, names[i]) {
            return false;
        }
        i += 1;
    }
    true
}

/// The columns of the table of records.
pub open spec fn record_columns() -> Seq<&'static str> {
    seq![
        "message_id",
        "event_id",
        "correlation_id",
        "sender_name",
        "sender_session_id",
        "intent",
        "expects_reply",
        "in_reply_to",
        "legacy_reply_to",
        "reply_endpoint",
        "supersedes",
        "retry_of",
        "attachments_json",
        "created_at",
    ]
}

/// The columns of the table of records, as a list.
pub fn list_record_columns() -> (r: Vec<&'static str>)
    ensures
        r@ == record_columns(),
{
    let r: Vec<&'static str> = vec![
        "message_id",
        "event_id",
        "correlation_id",
        "sender_name",
        "sender_session_id",
        "intent",
        "expects_reply",
        "in_reply_to",
        "legacy_reply_to",
        "reply_endpoint",
        "supersedes",
        "retry_of",
        "attachments_json",
        "created_at",
    ];
    assert(r@ =~= record_columns());
    r
}

/// The columns of the table of deliveries.
pub open spec fn delivery_columns() -> Seq<&'static str> {
    seq![
        "message_id",
        "recipient_name",
        "endpoint_epoch",
        "delivery_endpoint",
        "state",
        "attempt",
        "state_event_id",
        "last_actor",
        "updated_at",
    ]
}

/// The columns of the table of deliveries, as a list.
pub fn list_delivery_columns() -> (r: Vec<&'static str>)
    ensures
        r@ == delivery_columns(),
{
    let r: Vec<&'static str> = vec![
        "message_id",
        "recipient_name",
        "endpoint_epoch",
        "delivery_endpoint",
        "state",
        "attempt",
        "state_event_id",
        "last_actor",
        "updated_at",
    ];
    assert(r@ =~= delivery_columns());
    r
}

/// The columns of the table of records that are never null.
pub open spec fn filled_record_columns() -> Seq<&'static str> {
    seq![
        "event_id",
        "correlation_id",
        "sender_name",
        "expects_reply",
        "attachments_json",
        "created_at",
    ]
}

fn list_filled_record_columns() -> (r: Vec<&'static str>)
    ensures
        r@ == filled_record_columns(),
{
    let r: Vec<&'static str> = vec![
        "event_id",
        "correlation_id",
        "sender_name",
        "expects_reply",
        "attachments_json",
        "created_at",
    ];
    assert(r@ =~= filled_record_columns());
    r
}

/// The columns of the table of deliveries that are never null.
pub open spec fn filled_delivery_columns() -> Seq<&'static str> {
    seq![
        "message_id",
        "recipient_name",
        "endpoint_epoch",
        "delivery_endpoint",
        "state",
        "attempt",
        "last_actor",
        "updated_at",
    ]
}

fn list_filled_delivery_columns() -> (r: Vec<&'static str>)
    ensures
        r@ == filled_delivery_columns(),
{
    let r: Vec<&'static str> = vec![
        "message_id",
        "recipient_name",
        "endpoint_epoch",
        "delivery_endpoint",
        "state",
        "attempt",
        "last_actor",
        "updated_at",
    ];
    assert(r@ =~= filled_delivery_columns());
    r
}

/// Whether some unique index is on the event of a record alone.
pub open spec fn unique_event_id(indexes: Seq<IndexV>) -> bool {
    exists|i: int|
        0 <= i < indexes.len() && (#[trigger] indexes[i]).unique && indexes[i].columns == seq![
            "event_id"@,
        ]
}

/// Tests whether some unique index is on the event of a record alone.
pub fn has_unique_event_id(indexes: &Vec<IndexShape>) -> (r: bool)
    ensures
        r == unique_event_id(views(indexes@)),
{
    let wanted: Vec<&'static str> = vec!["event_id"];
    assert(words(wanted@) =~= seq!["event_id"@]);
    let mut i: usize = 0;
    while i < indexes.len()
        invariant
            i <= indexes@.len(),
            words(wanted@) == seq!["event_id"@],
            forall|k: int|
                0 <= k < i ==> !((#[trigger] views(indexes@)[k]).unique && views(
                    indexes@,
                )[k].columns == seq!["event_id"@]),
        decreases indexes.len() - i,
    {
        if indexes[i].unique && same_words(&indexes[i].columns, &wanted) {
            assert(views(indexes@)[i as int].unique);
            return true;
        }
        i += 1;
    }
    false
}

/// Whether deliveries refer to records and go when their record goes.
pub open spec fn message_delivery_fk(keys: Seq<ForeignKeyV>) -> bool {
    exists|i: int|
        0 <= i < keys.len() && (#[trigger] keys[i]).parent == "message_records"@ && keys[i].from
            == "message_id"@ && keys[i].to == "message_id"@ && same_folded(
            keys[i].on_delete,
            "CASCADE"@,
        )
}

/// Tests whether deliveries refer to records and go when their record goes.
pub fn has_message_delivery_fk(keys: &Vec<ForeignKey>) -> (r: bool)
    ensures
        r == message_delivery_fk(views(keys@)),
{
    let mut i: usize = 0;
    while i < keys.len()
        invariant
            i <= keys@.len(),
            forall|k: int|
                0 <= k < i ==> !((#[trigger] views(keys@)[k]).parent == "message_records"@ && views(
                    keys@,
                )[k].from == "message_id"@ && views(keys@)[k].to == "message_id"@ && same_folded(
                    views(keys@)[k].on_delete,
                    "CASCADE"@,
                )),
        decreases keys.len() - i,
    {
        let k: &ForeignKey = &keys[i];
        if same(k.parent.as_str(), "message_records") && same(k.from.as_str(), "message_id") && same(
            k.to.as_str(),
            "message_id",
        ) && is_same_folded(k.on_delete.as_str(), "CASCADE") {
            assert(views(keys@)[i as int].parent == "message_records"@);
            return true;
        }
        i += 1;
    }
    false
}

/// Whether the two tables have the shape that the store relies on.
pub open spec fn schema_complete(s: MessageSchemaV) -> bool {
    &&& has_columns(s.records, record_columns())
    &&& has_key_column(s.records, "message_id"@, 1)
    &&& has_filled_columns(s.records, filled_record_columns())
    &&& unique_event_id(s.record_indexes)
    &&& has_columns(s.deliveries, delivery_columns())
    &&& has_key_column(s.deliveries, "message_id"@, 1)
    &&& has_key_column(s.deliveries, "recipient_name"@, 2)
    &&& has_filled_columns(s.deliveries, filled_delivery_columns())
    &&& message_delivery_fk(s.delivery_keys)
}

/// Tests whether the two tables have the shape that the store relies on.
pub fn message_schema_v19_complete(s: &MessageSchema) -> (r: bool)
    ensures
        r == schema_complete(s@),
{
    holds_columns(&s.records, &list_record_columns()) && holds_key_column(
        &s.records,
        "message_id",
        1,
    ) && holds_filled_columns(&s.records, &list_filled_record_columns()) && has_unique_event_id(
        &s.record_indexes,
    ) && holds_columns(&s.deliveries, &list_delivery_columns()) && holds_key_column(
        &s.deliveries,
        "message_id",
        1,
    ) && holds_key_column(&s.deliveries, "recipient_name", 2) && holds_filled_columns(
        &s.deliveries,
        &list_filled_delivery_columns(),
    ) && has_message_delivery_fk(&s.delivery_keys)
}

/// The characters of each name of a list.
pub open spec fn words(v: Seq<&'static str>) -> Seq<Seq<char>> {
    Seq::new(v.len(), |i: int| v[i]@)
}

fn same_words(a: &Vec<String>, b: &Vec<&'static str>) -> (r: bool)
    ensures
        r == (texts(a@) == words(b@)),
{
    if a.len() != b.len() {
        assert(texts(a@).len() != words(b@).len());
        return false;
    }
    let mut i: usize = 0;
    while i < a.len()
        invariant
            i <= a@.len(),
            a@.len() == b@.len(),
            forall|k: int| 0 <= k < i ==> (#[trigger] texts(a@)[k]) == words(b@)[k],
        decreases a.len() - i,
    {
        if !same(a[i].as_str(), b[i]) {
            assert(texts(a@)[i as int] != words(b@)[i as int]);
            return false;
        }
        i += 1;
    }
    assert(texts(a@) =~= words(b@));
    true
}

/// An index that the store relies on: its name, how it is made, and its columns.
pub struct MessageIndex {
    pub name: &'static str,
    pub sql: &'static str,
    pub columns: Vec<&'static str>,
}

/// The view of a [`MessageIndex`].
pub struct MessageIndexV {
    pub name: Seq<char>,
    pub sql: Seq<char>,
    pub columns: Seq<Seq<char>>,
}

impl View for MessageIndex {
    type V = MessageIndexV;

    open spec fn view(&self) -> MessageIndexV {
        MessageIndexV { name: self.name@, sql: self.sql@, columns: words(self.columns@) }
    }
}

/// The indexes that the store relies on.
pub open spec fn message_indexes() -> Seq<MessageIndexV> {
    seq![
        MessageIndexV {
            name: "idx_message_records_event"@,
            sql: "CREATE INDEX idx_message_records_event ON message_records(event_id)"@,
            columns: seq!["event_id"@],
        },
        MessageIndexV {
            name: "idx_message_records_correlation"@,
            sql: "CREATE INDEX idx_message_records_correlation ON message_records(correlation_id)"@,
            columns: seq!["correlation_id"@],
        },
        MessageIndexV {
            name: "idx_message_records_sender"@,
            sql: "CREATE INDEX idx_message_records_sender ON message_records(sender_name, created_at)"@,
            columns: seq!["sender_name"@, "created_at"@],
        },
        MessageIndexV {
            name: "idx_message_records_reply_target"@,
            sql: "CREATE INDEX idx_message_records_reply_target ON message_records(in_reply_to)"@,
            columns: seq!["in_reply_to"@],
        },
        MessageIndexV {
            name: "idx_message_records_supersedes"@,
            sql: "CREATE INDEX idx_message_records_supersedes ON message_records(supersedes)"@,
            columns: seq!["supersedes"@],
        },
        MessageIndexV {
            name: "idx_message_records_retry_of"@,
            sql: "CREATE INDEX idx_message_records_retry_of ON message_records(retry_of)"@,
            columns: seq!["retry_of"@],
        },
        MessageIndexV {
            name: "idx_message_deliveries_recipient_state"@,
            sql:
                "CREATE INDEX idx_message_deliveries_recipient_state ON message_deliveries(recipient_name, state, delivery_endpoint)"@,
            columns: seq!["recipient_name"@, "state"@, "delivery_endpoint"@],
        },
    ]
}

fn message_index(name: &'static str, sql: &'static str, columns: Vec<&'static str>) -> (r:
    MessageIndex)
    ensures
        r@ == (MessageIndexV { name: name@, sql: sql@, columns: words(columns@) }),
{
    MessageIndex { name, sql, columns }
}

fn list_message_indexes() -> (r: Vec<MessageIndex>)
    ensures
        views(r@) == message_indexes(),
{
    let event: Vec<&'static str> = vec!["event_id"];
    assert(words(event@) =~= seq!["event_id"@]);
    let correlation: Vec<&'static str> = vec!["correlation_id"];
    assert(words(correlation@) =~= seq!["correlation_id"@]);
    let sender: Vec<&'static str> = vec!["sender_name", "created_at"];
    assert(words(sender@) =~= seq!["sender_name"@, "created_at"@]);
    let reply: Vec<&'static str> = vec!["in_reply_to"];
    assert(words(reply@) =~= seq!["in_reply_to"@]);
    let supersedes: Vec<&'static str> = vec!["supersedes"];
    assert(words(supersedes@) =~= seq!["supersedes"@]);
    let retry: Vec<&'static str> = vec!["retry_of"];
    assert(words(retry@) =~= seq!["retry_of"@]);
    let state: Vec<&'static str> = vec!["recipient_name", "state", "delivery_endpoint"];
    assert(words(state@) =~= seq!["recipient_name"@, "state"@, "delivery_endpoint"@]);
    let mut r: Vec<MessageIndex> = Vec::new();
    r.push(
        message_index(
            "idx_message_records_event",
            "CREATE INDEX idx_message_records_event ON message_records(event_id)",
            event,
        ),
    );
    r.push(
        message_index(
            "idx_message_records_correlation",
            "CREATE INDEX idx_message_records_correlation ON message_records(correlation_id)",
            correlation,
        ),
    );
    r.push(
        message_index(
            "idx_message_records_sender",
            "CREATE INDEX idx_message_records_sender ON message_records(sender_name, created_at)",
            sender,
        ),
    );
    r.push(
        message_index(
            "idx_message_records_reply_target",
            "CREATE INDEX idx_message_records_reply_target ON message_records(in_reply_to)",
            reply,
        ),
    );
    r.push(
        message_index(
            "idx_message_records_supersedes",
            "CREATE INDEX idx_message_records_supersedes ON message_records(supersedes)",
            supersedes,
        ),
    );
    r.push(
        message_index(
            "idx_message_records_retry_of",
            "CREATE INDEX idx_message_records_retry_of ON message_records(retry_of)",
            retry,
        ),
    );
    r.push(
        message_index(
            "idx_message_deliveries_recipient_state",
            "CREATE INDEX idx_message_deliveries_recipient_state ON message_deliveries(recipient_name, state, delivery_endpoint)",
            state,
        ),
    );
    assert(views(r@) =~= message_indexes());
    r
}

/// Whether the database has an index with the name and the columns of one that the store relies on.
pub open spec fn index_present(indexes: Seq<IndexV>, wanted: MessageIndexV) -> bool {
    exists|i: int|
        0 <= i < indexes.len() && (#[trigger] indexes[i]).name == wanted.name && indexes[i].columns
            == wanted.columns
}

fn index_matches(indexes: &Vec<IndexShape>, wanted: &MessageIndex) -> (r: bool)
    ensures
        r == index_present(views(indexes@), wanted@),
{
    let mut i: usize = 0;
    while i < indexes.len()
        invariant
            i <= indexes@.len(),
            forall|k: int|
                0 <= k < i ==> !((#[trigger] views(indexes@)[k]).name == wanted@.name && views(
                    indexes@,
                )[k].columns == wanted@.columns),
        decreases indexes.len() - i,
    {
        if same(indexes[i].name.as_str(), wanted.name) && same_words(
            &indexes[i].columns,
            &wanted.columns,
        ) {
            assert(views(indexes@)[i as int].name == wanted@.name);
            return true;
        }
        i += 1;
    }
    false
}

/// Whether the database has all indexes that the store relies on.
pub open spec fn indexes_complete(indexes: Seq<IndexV>) -> bool {
    forall|i: int|
        0 <= i < message_indexes().len() ==> index_present(
            indexes,
            #[trigger] message_indexes()[i],
        )
}

/// Tests whether the database has all indexes that the store relies on.
pub fn message_indexes_v19_complete(indexes: &Vec<IndexShape>) -> (r: bool)
    ensures
        r == indexes_complete(views(indexes@)),
{
    let wanted: Vec<MessageIndex> = list_message_indexes();
    let mut i: usize = 0;
    while i < wanted.len()
        invariant
            i <= wanted@.len(),
            views(wanted@) == message_indexes(),
            forall|k: int|
                0 <= k < i ==> index_present(views(indexes@), #[trigger] message_indexes()[k]),
        decreases wanted.len() - i,
    {
        assert(message_indexes()[i as int] == wanted@[i as int]@);
        if !index_matches(indexes, &wanted[i]) {
            return false;
        }
        i += 1;
    }
    assert(views(wanted@).len() == wanted@.len());
    true
}

/// How an index that is missing or has other columns is made anew.
pub open spec fn index_repair(wanted: MessageIndexV) -> Seq<char> {
    "DROP INDEX IF EXISTS "@ + wanted.name + "; "@ + wanted.sql + ";"@
}

/// How the first `n` indexes that the store relies on are repaired, where they need it.
pub open spec fn index_repairs(indexes: Seq<IndexV>, n: int) -> Seq<Seq<char>>
    decreases n,
{
    if n <= 0 {
        Seq::empty()
    } else {
        let wanted = message_indexes()[n - 1];
        if index_present(indexes, wanted) {
            index_repairs(indexes, n - 1)
        } else {
            index_repairs(indexes, n - 1).push(index_repair(wanted))
        }
    }
}

/// The statements that repair the indexes: one for each that is missing or has other columns.
pub fn repair_message_indexes_v19(indexes: &Vec<IndexShape>) -> (r: Vec<String>)
    ensures
        texts(r@) == index_repairs(views(indexes@), message_indexes().len() as int),
{
    let wanted: Vec<MessageIndex> = list_message_indexes();
    let mut out: Vec<String> = Vec::new();
    let mut i: usize = 0;
    assert(texts(out@) =~= Seq::<Seq<char>>::empty());
    while i < wanted.len()
        invariant
            i <= wanted@.len(),
            views(wanted@) == message_indexes(),
            texts(out@) == index_repairs(views(indexes@), i as int),
        decreases wanted.len() - i,
    {
        assert(message_indexes()[i as int] == wanted@[i as int]@);
        if !index_matches(indexes, &wanted[i]) {
            let mut s: String = cat3("DROP INDEX IF EXISTS ", wanted[i].name, "; ");
            s.append(wanted[i].sql);
            s.append(";");
            proof {
                lemma_texts_push(out@, s);
            }
            out.push(s);
        }
        i += 1;
    }
    assert(views(wanted@).len() == wanted@.len());
    out
}

/// A database with all its indexes needs no repair of them.
pub proof fn complete_indexes_need_no_repair(indexes: Seq<IndexV>, n: int)
    requires
        indexes_complete(indexes),
        0 <= n <= message_indexes().len(),
    ensures
        index_repairs(indexes, n).len() == 0,
    decreases n,
{
    if n > 0 {
        complete_indexes_need_no_repair(indexes, n - 1);
        assert(index_present(indexes, message_indexes()[n - 1]));
    }
}

/// A column of a table that is copied: its name, what stands for it where the old table lacks it,
/// and what stands for it where the old table lacks it and is empty.
pub struct CopyColumn {
    pub name: &'static str,
    pub missing_default: Option<&'static str>,
    pub empty_placeholder: &'static str,
}

/// What a column is copied from; nothing where the old table has rows and no value can be shown.
pub open spec fn copied_from(columns: Seq<ShapeV>, row_count: int, c: CopyColumn) -> Option<Seq<char>> {
    if has_column(columns, c.name@) {
        Some(c.name@)
    } else if c.missing_default is Some {
        Some(c.missing_default->0@)
    } else if row_count == 0 {
        Some(c.empty_placeholder@)
    } else {
        None
    }
}

/// Why a table is not copied.
pub open spec fn copy_refusal(name: Seq<char>) -> Seq<char> {
    "lossless v19 lifecycle repair cannot be proven: non-empty table is missing required column "@
        + name
}

/// What the first `n` columns are copied from, with commas between them; or why they are not.
pub open spec fn projection(columns: Seq<ShapeV>, row_count: int, specs: Seq<CopyColumn>, n: int) -> Result<
    Seq<char>,
    Seq<char>,
>
    decreases n,
{
    if n <= 0 {
        Ok(Seq::empty())
    } else {
        match projection(columns, row_count, specs, n - 1) {
            Err(e) => Err(e),
            Ok(p) => match copied_from(columns, row_count, specs[n - 1]) {
                None => Err(copy_refusal(specs[n - 1].name@)),
                Some(s) => Ok(
                    if n == 1 {
                        s
                    } else {
                        p + ", "@ + s
                    },
                ),
            },
        }
    }
}

/// A projection that fails on its first columns fails.
proof fn lemma_projection_fails(
    columns: Seq<ShapeV>,
    row_count: int,
    specs: Seq<CopyColumn>,
    k: int,
    n: int,
)
    requires
        k <= n,
        projection(columns, row_count, specs, k) is Err,
    ensures
        projection(columns, row_count, specs, n) == projection(columns, row_count, specs, k),
    decreases n - k,
{
    if k < n {
        lemma_projection_fails(columns, row_count, specs, k, n - 1);
    }
}

/// What the columns of a table are copied from, with commas between them.
pub fn copy_projection(columns: &Vec<ColumnShape>, row_count: i64, specs: &Vec<CopyColumn>) -> (r:
    Result<String, String>)
    ensures
        match r {
            Ok(s) => projection(views(columns@), row_count as int, specs@, specs@.len() as int)
                == Ok::<Seq<char>, Seq<char>>(s@),
            Err(e) => projection(views(columns@), row_count as int, specs@, specs@.len() as int)
                == Err::<Seq<char>, Seq<char>>(e@),
        },
{
    let mut out: String = String::new();
    let mut i: usize = 0;
    assert(out@ =~= Seq::<char>::empty());
    while i < specs.len()
        invariant
            i <= specs@.len(),
            projection(views(columns@), row_count as int, specs@, i as int) == Ok::<
                Seq<char>,
                Seq<char>,
            >(out@),
        decreases specs.len() - i,
    {
        let c: &CopyColumn = &specs[i];
        let from: &str = if holds_column(columns, c.name) {
            c.name
        } else if let Some(d) = c.missing_default {
            d
        } else if row_count == 0 {
            c.empty_placeholder
        } else {
            proof {
                lemma_projection_fails(
                    views(columns@),
                    row_count as int,
                    specs@,
                    i as int + 1,
                    specs@.len() as int,
                );
            }
            return Err(
                cat(
                    "lossless v19 lifecycle repair cannot be proven: non-empty table is missing required column ",
                    c.name,
                ),
            );
        };
        if i > 0 {
            out.append(", ");
        }
        out.append(from);
        assert(i == 0 ==> out@ =~= from@);
        i += 1;
    }
    Ok(out)
}

/// Copying loses nothing: where a copy is made of a table that has rows, each of its columns is
/// copied from the column of that name, or has a value that stands for what was never there.
pub proof fn copies_lose_nothing(columns: Seq<ShapeV>, row_count: int, specs: Seq<CopyColumn>, n: int, i: int)
    requires
        0 <= i < n <= specs.len(),
        row_count != 0,
        projection(columns, row_count, specs, n) is Ok,
    ensures
        has_column(columns, specs[i].name@) || specs[i].missing_default is Some,
    decreases n,
{
    if i < n - 1 {
        copies_lose_nothing(columns, row_count, specs, n - 1, i);
    }
}

/// How the columns of the table of records are copied.
pub open spec fn record_copies() -> Seq<CopyColumn> {
    seq![
        CopyColumn { name: "message_id", missing_default: None, empty_placeholder: "''" },
        CopyColumn { name: "event_id", missing_default: None, empty_placeholder: "0" },
        CopyColumn { name: "correlation_id", missing_default: None, empty_placeholder: "''" },
        CopyColumn { name: "sender_name", missing_default: None, empty_placeholder: "''" },
        CopyColumn {
            name: "sender_session_id",
            missing_default: Some("NULL"),
            empty_placeholder: "NULL",
        },
        CopyColumn { name: "intent", missing_default: Some("NULL"), empty_placeholder: "NULL" },
        CopyColumn { name: "expects_reply", missing_default: Some("0"), empty_placeholder: "0" },
        CopyColumn { name: "in_reply_to", missing_default: Some("NULL"), empty_placeholder: "NULL" },
        CopyColumn {
            name: "legacy_reply_to",
            missing_default: Some("NULL"),
            empty_placeholder: "NULL",
        },
        CopyColumn {
            name: "reply_endpoint",
            missing_default: Some("NULL"),
            empty_placeholder: "NULL",
        },
        CopyColumn { name: "supersedes", missing_default: Some("NULL"), empty_placeholder: "NULL" },
        CopyColumn { name: "retry_of", missing_default: Some("NULL"), empty_placeholder: "NULL" },
        CopyColumn {
            name: "attachments_json",
            missing_default: Some("'[]'"),
            empty_placeholder: "'[]'",
        },
        CopyColumn { name: "created_at", missing_default: None, empty_placeholder: "''" },
    ]
}

pub(crate) fn list_record_copies() -> (r: Vec<CopyColumn>)
    ensures
        r@ == record_copies(),
{
    let r: Vec<CopyColumn> = vec![
        CopyColumn { name: "message_id", missing_default: None, empty_placeholder: "''" },
        CopyColumn { name: "event_id", missing_default: None, empty_placeholder: "0" },
        CopyColumn { name: "correlation_id", missing_default: None, empty_placeholder: "''" },
        CopyColumn { name: "sender_name", missing_default: None, empty_placeholder: "''" },
        CopyColumn {
            name: "sender_session_id",
            missing_default: Some("NULL"),
            empty_placeholder: "NULL",
        },
        CopyColumn { name: "intent", missing_default: Some("NULL"), empty_placeholder: "NULL" },
        CopyColumn { name: "expects_reply", missing_default: Some("0"), empty_placeholder: "0" },
        CopyColumn { name: "in_reply_to", missing_default: Some("NULL"), empty_placeholder: "NULL" },
        CopyColumn {
            name: "legacy_reply_to",
            missing_default: Some("NULL"),
            empty_placeholder: "NULL",
        },
        CopyColumn {
            name: "reply_endpoint",
            missing_default: Some("NULL"),
            empty_placeholder: "NULL",
        },
        CopyColumn { name: "supersedes", missing_default: Some("NULL"), empty_placeholder: "NULL" },
        CopyColumn { name: "retry_of", missing_default: Some("NULL"), empty_placeholder: "NULL" },
        CopyColumn {
            name: "attachments_json",
            missing_default: Some("'[]'"),
            empty_placeholder: "'[]'",
        },
        CopyColumn { name: "created_at", missing_default: None, empty_placeholder: "''" },
    ];
    assert(r@ =~= record_copies());
    r
}

/// How the columns of the table of deliveries are copied.
pub open spec fn delivery_copies() -> Seq<CopyColumn> {
    seq![
        CopyColumn { name: "message_id", missing_default: None, empty_placeholder: "''" },
        CopyColumn { name: "recipient_name", missing_default: None, empty_placeholder: "''" },
        CopyColumn { name: "endpoint_epoch", missing_default: Some("''"), empty_placeholder: "''" },
        CopyColumn {
            name: "delivery_endpoint",
            missing_default: Some("'inbox'"),
            empty_placeholder: "'inbox'",
        },
        CopyColumn { name: "state", missing_default: None, empty_placeholder: "''" },
        CopyColumn { name: "attempt", missing_default: Some("1"), empty_placeholder: "1" },
        CopyColumn {
            name: "state_event_id",
            missing_default: Some("NULL"),
            empty_placeholder: "NULL",
        },
        CopyColumn { name: "last_actor", missing_default: Some("''"), empty_placeholder: "''" },
        CopyColumn { name: "updated_at", missing_default: None, empty_placeholder: "''" },
    ]
}

pub(crate) fn list_delivery_copies() -> (r: Vec<CopyColumn>)
    ensures
        r@ == delivery_copies(),
{
    let r: Vec<CopyColumn> = vec![
        CopyColumn { name: "message_id", missing_default: None, empty_placeholder: "''" },
        CopyColumn { name: "recipient_name", missing_default: None, empty_placeholder: "''" },
        CopyColumn { name: "endpoint_epoch", missing_default: Some("''"), empty_placeholder: "''" },
        CopyColumn {
            name: "delivery_endpoint",
            missing_default: Some("'inbox'"),
            empty_placeholder: "'inbox'",
        },
        CopyColumn { name: "state", missing_default: None, empty_placeholder: "''" },
        CopyColumn { name: "attempt", missing_default: Some("1"), empty_placeholder: "1" },
        CopyColumn {
            name: "state_event_id",
            missing_default: Some("NULL"),
            empty_placeholder: "NULL",
        },
        CopyColumn { name: "last_actor", missing_default: Some("''"), empty_placeholder: "''" },
        CopyColumn { name: "updated_at", missing_default: None, empty_placeholder: "''" },
    ];
    assert(r@ =~= delivery_copies());
    r
}

/// Whether a name is that of a column of a record.
pub open spec fn is_record_column(name: Seq<char>) -> bool {
    name == "message_id"@ || name == "event_id"@ || name == "correlation_id"@ || name == "sender_name"@ || name == "sender_session_id"@ || name == "intent"@ || name == "expects_reply"@ || name == "in_reply_to"@ || name == "legacy_reply_to"@ || name == "reply_endpoint"@ || name == "supersedes"@ || name == "retry_of"@ || name == "attachments_json"@ || name == "created_at"@
}

/// Whether a name is that of a column of a delivery.
pub open spec fn is_delivery_column(name: Seq<char>) -> bool {
    name == "message_id"@ || name == "recipient_name"@ || name == "endpoint_epoch"@ || name == "delivery_endpoint"@ || name == "state"@ || name == "attempt"@ || name == "state_event_id"@ || name == "last_actor"@ || name == "updated_at"@
}

/// Whether a column of a record is always filled.
pub open spec fn is_filled_record_column(name: Seq<char>) -> bool {
    name == "event_id"@ || name == "correlation_id"@ || name == "sender_name"@ || name == "expects_reply"@ || name == "attachments_json"@ || name == "created_at"@
}

/// The names of the columns, one by one and as lists.
pub proof fn lemma_names(name: Seq<char>)
    ensures
        is_record_column(name) <==> exists|i: int| 0 <= i < record_columns().len() && name == (#[trigger] record_columns()[i])@,
        is_delivery_column(name) <==> exists|i: int| 0 <= i < delivery_columns().len() && name == (#[trigger] delivery_columns()[i])@,
        is_filled_record_column(name) <==> exists|i: int| 0 <= i < filled_record_columns().len() && name == (#[trigger] filled_record_columns()[i])@,
        is_delivery_column(name) && name != "state_event_id"@ <==> exists|i: int| 0 <= i < filled_delivery_columns().len() && name == (#[trigger] filled_delivery_columns()[i])@,
{
    let a = record_columns();
    assert(a[0]@ == "message_id"@ && a[1]@ == "event_id"@ && a[2]@ == "correlation_id"@ && a[3]@ == "sender_name"@ && a[4]@ == "sender_session_id"@ && a[5]@ == "intent"@ && a[6]@ == "expects_reply"@);
    assert(a[7]@ == "in_reply_to"@ && a[8]@ == "legacy_reply_to"@ && a[9]@ == "reply_endpoint"@ && a[10]@ == "supersedes"@ && a[11]@ == "retry_of"@ && a[12]@ == "attachments_json"@ && a[13]@ == "created_at"@);
    let b = delivery_columns();
    assert(b[0]@ == "message_id"@ && b[1]@ == "recipient_name"@ && b[2]@ == "endpoint_epoch"@ && b[3]@ == "delivery_endpoint"@ && b[4]@ == "state"@ && b[5]@ == "attempt"@ && b[6]@ == "state_event_id"@ && b[7]@ == "last_actor"@ && b[8]@ == "updated_at"@);
    let c = filled_record_columns();
    assert(c[0]@ == "event_id"@ && c[1]@ == "correlation_id"@ && c[2]@ == "sender_name"@ && c[3]@ == "expects_reply"@ && c[4]@ == "attachments_json"@ && c[5]@ == "created_at"@);
    let d = filled_delivery_columns();
    assert(d[0]@ == "message_id"@ && d[1]@ == "recipient_name"@ && d[2]@ == "endpoint_epoch"@ && d[3]@ == "delivery_endpoint"@ && d[4]@ == "state"@ && d[5]@ == "attempt"@ && d[6]@ == "last_actor"@ && d[7]@ == "updated_at"@);
    reveal_strlit("message_id");
    reveal_strlit("recipient_name");
    reveal_strlit("endpoint_epoch");
    reveal_strlit("delivery_endpoint");
    reveal_strlit("state");
    reveal_strlit("attempt");
    reveal_strlit("state_event_id");
    reveal_strlit("last_actor");
    reveal_strlit("updated_at");
    assert("state_event_id"@.len() == 14 && "message_id"@.len() == 10 && "recipient_name"@.len() == 14 && "endpoint_epoch"@.len() == 14 && "delivery_endpoint"@.len() == 17 && "state"@.len() == 5 && "attempt"@.len() == 7 && "last_actor"@.len() == 10 && "updated_at"@.len() == 10);
    assert("state_event_id"@[0] == 's' && "recipient_name"@[0] == 'r' && "endpoint_epoch"@[0] == 'e');
}

/// The tables are complete where they have each column that the store relies on, filled where it must
/// be, with the keys, the unique event and the reference that the store relies on; and only there.
pub proof fn complete_tables_have_what_is_relied_on(s: MessageSchema, r: bool, unique: bool, refers: bool, name: Seq<char>)
    requires
        call_ensures(message_schema_v19_complete, (&s,), r),
        call_ensures(has_unique_event_id, (&s.record_indexes,), unique),
        call_ensures(has_message_delivery_fk, (&s.delivery_keys,), refers),
    ensures
        r ==> unique && refers,
        r && is_record_column(name) ==> exists|i: int| 0 <= i < s.records@.len() && (#[trigger] s.records@[i]).name@ == name,
        r && is_filled_record_column(name) ==> exists|i: int| 0 <= i < s.records@.len() && (#[trigger] s.records@[i]).name@ == name && s.records@[i].not_null,
        r && is_delivery_column(name) ==> exists|i: int| 0 <= i < s.deliveries@.len() && (#[trigger] s.deliveries@[i]).name@ == name,
        r && is_delivery_column(name) && name != "state_event_id"@ ==> exists|i: int| 0 <= i < s.deliveries@.len() && (#[trigger] s.deliveries@[i]).name@ == name && s.deliveries@[i].not_null,
        r ==> exists|i: int| 0 <= i < s.records@.len() && (#[trigger] s.records@[i]).name@ == "message_id"@ && s.records@[i].primary_key_position == 1,
        r ==> exists|i: int| 0 <= i < s.deliveries@.len() && (#[trigger] s.deliveries@[i]).name@ == "message_id"@ && s.deliveries@[i].primary_key_position == 1,
        r ==> exists|i: int| 0 <= i < s.deliveries@.len() && (#[trigger] s.deliveries@[i]).name@ == "recipient_name"@ && s.deliveries@[i].primary_key_position == 2,
        unique && refers && (forall|n: Seq<char>| is_record_column(n) ==> #[trigger] has_column(views(s.records@), n)) && (forall|n: Seq<char>| is_filled_record_column(n) ==> #[trigger] has_filled_column(views(s.records@), n)) && (forall|n: Seq<char>| is_delivery_column(n) ==> #[trigger] has_column(views(s.deliveries@), n)) && (forall|n: Seq<char>| is_delivery_column(n) && n != "state_event_id"@ ==> #[trigger] has_filled_column(views(s.deliveries@), n)) && has_key_column(views(s.records@), "message_id"@, 1) && has_key_column(views(s.deliveries@), "message_id"@, 1) && has_key_column(views(s.deliveries@), "recipient_name"@, 2) ==> r,
{
    let rs = views(s.records@);
    let ds = views(s.deliveries@);
    lemma_names(name);
    if r {
        lemma_key_seen(s.records@, "message_id"@, 1);
        lemma_key_seen(s.deliveries@, "message_id"@, 1);
        lemma_key_seen(s.deliveries@, "recipient_name"@, 2);
        if is_record_column(name) {
            assert(has_column(rs, name));
            lemma_column_seen(s.records@, name);
        }
        if is_filled_record_column(name) {
            assert(has_filled_column(rs, name));
            lemma_column_seen(s.records@, name);
        }
        if is_delivery_column(name) {
            assert(has_column(ds, name));
            lemma_column_seen(s.deliveries@, name);
            if name != "state_event_id"@ {
                assert(has_filled_column(ds, name));
            }
        }
    }
    assert forall|i: int| 0 <= i < record_columns().len() implies is_record_column((#[trigger] record_columns()[i])@) by {
        lemma_names(record_columns()[i]@);
    }
    assert forall|i: int| 0 <= i < delivery_columns().len() implies is_delivery_column((#[trigger] delivery_columns()[i])@) by {
        lemma_names(delivery_columns()[i]@);
    }
    assert forall|i: int| 0 <= i < filled_record_columns().len() implies is_filled_record_column((#[trigger] filled_record_columns()[i])@) by {
        lemma_names(filled_record_columns()[i]@);
    }
    assert forall|i: int| 0 <= i < filled_delivery_columns().len() implies is_delivery_column((#[trigger] filled_delivery_columns()[i])@) && filled_delivery_columns()[i]@ != "state_event_id"@ by {
        lemma_names(filled_delivery_columns()[i]@);
    }
}

proof fn lemma_column_seen(columns: Seq<ColumnShape>, name: Seq<char>)
    ensures
        has_column(views(columns), name) ==> exists|i: int| 0 <= i < columns.len() && (#[trigger] columns[i]).name@ == name,
        has_filled_column(views(columns), name) ==> exists|i: int| 0 <= i < columns.len() && (#[trigger] columns[i]).name@ == name && columns[i].not_null,
{
    let vs = views(columns);
    if has_column(vs, name) {
        let i = choose|i: int| 0 <= i < vs.len() && (#[trigger] vs[i]).name == name;
        assert(columns[i]@ == vs[i]);
        assert(columns[i].name@ == name);
    }
    if has_filled_column(vs, name) {
        let i = choose|i: int| 0 <= i < vs.len() && (#[trigger] vs[i]).name == name && vs[i].not_null;
        assert(columns[i]@ == vs[i]);
        assert(columns[i].name@ == name);
    }
}

proof fn lemma_key_seen(columns: Seq<ColumnShape>, name: Seq<char>, place: int)
    ensures
        has_key_column(views(columns), name, place) ==> exists|i: int| 0 <= i < columns.len() && (#[trigger] columns[i]).name@ == name && columns[i].primary_key_position == place,
{
    let vs = views(columns);
    if has_key_column(vs, name, place) {
        let i = choose|i: int| 0 <= i < vs.len() && (#[trigger] vs[i]).name == name && vs[i].primary_key_position == place;
        assert(columns[i]@ == vs[i]);
        assert(columns[i].name@ == name);
    }
}

/// A unique index on the event alone makes events unique, and nothing else does; deliveries go with
/// their records where their message refers to the record, and is deleted with it.
pub proof fn references_are_recognised(indexes: Vec<IndexShape>, unique: bool, keys: Vec<ForeignKey>, refers: bool, i: int)
    requires
        call_ensures(has_unique_event_id, (&indexes,), unique),
        call_ensures(has_message_delivery_fk, (&keys,), refers),
    ensures
        0 <= i < indexes@.len() && indexes@[i].unique && indexes@[i].columns@.len() == 1 && indexes@[i].columns@[0]@ == "event_id"@ ==> unique,
        (forall|k: int| 0 <= k < indexes@.len() ==> !(#[trigger] indexes@[k]).unique || indexes@[k].columns@.len() != 1) ==> !unique,
        0 <= i < keys@.len() && keys@[i].parent@ == "message_records"@ && keys@[i].from@ == "message_id"@ && keys@[i].to@ == "message_id"@ && keys@[i].on_delete@ == "CASCADE"@ ==> refers,
        (forall|k: int| 0 <= k < keys@.len() ==> (#[trigger] keys@[k]).parent@ != "message_records"@ || keys@[k].from@ != "message_id"@ || keys@[k].to@ != "message_id"@) ==> !refers,
{
    let xs = views(indexes@);
    let ks = views(keys@);
    if 0 <= i < indexes@.len() {
        assert(xs[i] == indexes@[i]@);
        if indexes@[i].columns@.len() == 1 && indexes@[i].columns@[0]@ == "event_id"@ {
            assert(texts(indexes@[i].columns@)[0] == "event_id"@);
            assert(texts(indexes@[i].columns@) =~= seq!["event_id"@]);
        }
    }
    if 0 <= i < keys@.len() {
        assert(ks[i] == keys@[i]@);
    }
    if unique {
        let k = choose|k: int| 0 <= k < xs.len() && (#[trigger] xs[k]).unique && xs[k].columns == seq!["event_id"@];
        assert(xs[k] == indexes@[k]@);
        assert(texts(indexes@[k].columns@).len() == indexes@[k].columns@.len());
    }
    if refers {
        let k = choose|k: int| 0 <= k < ks.len() && (#[trigger] ks[k]).parent == "message_records"@ && ks[k].from == "message_id"@ && ks[k].to == "message_id"@ && same_folded(ks[k].on_delete, "CASCADE"@);
        assert(ks[k] == keys@[k]@);
    }
}

/// Whether an index is one that the store relies on: its name, the table and columns it is on, and how
/// it is made.
pub open spec fn is_own_index(name: Seq<char>, columns: Seq<Seq<char>>, sql: Seq<char>) -> bool {
    ||| name == "idx_message_records_event"@ && columns == seq!["event_id"@] && sql == "CREATE INDEX idx_message_records_event ON message_records(event_id)"@
    ||| name == "idx_message_records_correlation"@ && columns == seq!["correlation_id"@] && sql == "CREATE INDEX idx_message_records_correlation ON message_records(correlation_id)"@
    ||| name == "idx_message_records_sender"@ && columns == seq!["sender_name"@, "created_at"@] && sql == "CREATE INDEX idx_message_records_sender ON message_records(sender_name, created_at)"@
    ||| name == "idx_message_records_reply_target"@ && columns == seq!["in_reply_to"@] && sql == "CREATE INDEX idx_message_records_reply_target ON message_records(in_reply_to)"@
    ||| name == "idx_message_records_supersedes"@ && columns == seq!["supersedes"@] && sql == "CREATE INDEX idx_message_records_supersedes ON message_records(supersedes)"@
    ||| name == "idx_message_records_retry_of"@ && columns == seq!["retry_of"@] && sql == "CREATE INDEX idx_message_records_retry_of ON message_records(retry_of)"@
    ||| name == "idx_message_deliveries_recipient_state"@ && columns == seq!["recipient_name"@, "state"@, "delivery_endpoint"@] && sql == "CREATE INDEX idx_message_deliveries_recipient_state ON message_deliveries(recipient_name, state, delivery_endpoint)"@
}

proof fn lemma_own_index(name: Seq<char>, columns: Seq<Seq<char>>, sql: Seq<char>)
    ensures
        is_own_index(name, columns, sql) <==> exists|i: int| 0 <= i < message_indexes().len() && (#[trigger] message_indexes()[i]) == (MessageIndexV { name, sql, columns }),
{
    let m = message_indexes();
    assert(m.len() == 7);
    let w = MessageIndexV { name, sql, columns };
    assert(is_own_index(name, columns, sql) <==> w == m[0] || w == m[1] || w == m[2] || w == m[3] || w == m[4] || w == m[5] || w == m[6]);
}

proof fn lemma_index_repairs(indexes: Seq<IndexV>, n: int, k: int)
    requires
        0 <= k < n <= message_indexes().len(),
    ensures
        !index_present(indexes, message_indexes()[k]) ==> index_repairs(indexes, n).contains(index_repair(message_indexes()[k])),
    decreases n,
{
    let before = index_repairs(indexes, n - 1);
    let all = index_repairs(indexes, n);
    let want = index_repair(message_indexes()[k]);
    if !index_present(indexes, message_indexes()[k]) {
        if k < n - 1 {
            lemma_index_repairs(indexes, n - 1, k);
            let q = choose|q: int| 0 <= q < before.len() && before[q] == want;
            assert(all[q] == want);
        } else {
            assert(all.last() == want);
        }
    }
}

/// The indexes are complete where each that the store relies on is there with its columns; one that is
/// missing, or has other columns, is dropped and made anew.
pub proof fn missing_indexes_are_made_anew(indexes: Vec<IndexShape>, r: bool, repairs: Vec<String>, name: Seq<char>, columns: Seq<Seq<char>>, sql: Seq<char>)
    requires
        call_ensures(message_indexes_v19_complete, (&indexes,), r),
        call_ensures(repair_message_indexes_v19, (&indexes,), repairs),
        is_own_index(name, columns, sql),
    ensures
        r ==> exists|i: int| 0 <= i < indexes@.len() && (#[trigger] indexes@[i]).name@ == name && texts(indexes@[i].columns@) == columns,
        r ==> repairs@.len() == 0,
        (forall|i: int| 0 <= i < indexes@.len() ==> !((#[trigger] indexes@[i]).name@ == name && texts(indexes@[i].columns@) == columns)) ==> !r && texts(repairs@).contains("DROP INDEX IF EXISTS "@ + name + "; "@ + sql + ";"@),
{
    let xs = views(indexes@);
    lemma_own_index(name, columns, sql);
    let w = MessageIndexV { name, sql, columns };
    let k = choose|k: int| 0 <= k < message_indexes().len() && (#[trigger] message_indexes()[k]) == w;
    if r {
        assert(index_present(xs, message_indexes()[k]));
        complete_indexes_need_no_repair(xs, message_indexes().len() as int);
        assert(texts(repairs@).len() == repairs@.len());
    }
    if index_present(xs, w) {
        let i = choose|i: int| 0 <= i < xs.len() && (#[trigger] xs[i]).name == w.name && xs[i].columns == w.columns;
        assert(xs[i] == indexes@[i]@);
        assert(indexes@[i].name@ == name);
    } else {
        lemma_index_repairs(xs, message_indexes().len() as int, k);
    }
}

/// A copy takes its columns one after the other, with commas between them: each from the column of its
/// name where there is one, else from what stands for it; where nothing does and there are rows, no copy
/// is made, and it is said for which column.
pub proof fn copies_take_column_by_column(columns: Vec<ColumnShape>, rows: i64, specs: Vec<CopyColumn>, more: Vec<CopyColumn>, c: CopyColumn, one: Result<String, String>, r: Result<String, String>)
    requires
        more@ == specs@.push(c),
        call_ensures(copy_projection, (&columns, rows, &specs), one),
        call_ensures(copy_projection, (&columns, rows, &more), r),
    ensures
        one matches Err(e) ==> (r matches Err(f) && f@ == e@),
        one is Ok && has_column(views(columns@), c.name@) ==> (r matches Ok(s) && s@ == (if specs@.len() == 0 { c.name@ } else { one->Ok_0@ + ", "@ + c.name@ })),
        one is Ok && !has_column(views(columns@), c.name@) && c.missing_default is Some ==> (r matches Ok(s) && s@ == (if specs@.len() == 0 { c.missing_default->0@ } else { one->Ok_0@ + ", "@ + c.missing_default->0@ })),
        one is Ok && !has_column(views(columns@), c.name@) && c.missing_default is None && rows == 0 ==> (r matches Ok(s) && s@ == (if specs@.len() == 0 { c.empty_placeholder@ } else { one->Ok_0@ + ", "@ + c.empty_placeholder@ })),
        one is Ok && !has_column(views(columns@), c.name@) && c.missing_default is None && rows != 0 ==> (r matches Err(e) && e@ == "lossless v19 lifecycle repair cannot be proven: non-empty table is missing required column "@ + c.name@),
{
    lemma_projection_prefix(views(columns@), rows as int, specs@, more@, specs@.len() as int);
}

proof fn lemma_projection_prefix(columns: Seq<ShapeV>, rows: int, a: Seq<CopyColumn>, b: Seq<CopyColumn>, n: int)
    requires
        0 <= n <= a.len() <= b.len(),
        forall|i: int| 0 <= i < a.len() ==> #[trigger] a[i] == b[i],
    ensures
        projection(columns, rows, a, n) == projection(columns, rows, b, n),
    decreases n,
{
    if n > 0 {
        lemma_projection_prefix(columns, rows, a, b, n - 1);
        assert(a[n - 1] == b[n - 1]);
    }
}

/// A column is there where one of the table has its name.
pub proof fn columns_go_by_their_names(columns: Vec<ColumnShape>, name: &str, r: bool, i: int)
    requires
        call_ensures(holds_column, (&columns, name), r),
    ensures
        0 <= i < columns@.len() && columns@[i].name@ == name@ ==> r,
        (forall|k: int| 0 <= k < columns@.len() ==> (#[trigger] columns@[k]).name@ != name@) ==> !r,
{
    let vs = views(columns@);
    if 0 <= i < columns@.len() {
        assert(vs[i] == columns@[i]@);
    }
    if r {
        lemma_column_seen(columns@, name@);
    }
}

} // verus!
