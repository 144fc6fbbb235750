//! Projecting imported messages and state transitions onto the store.

use crate::columns::{Column, ColumnV, column, read_column};
use crate::json::{
    Json, JsonV, array_view, lemma_array, member, member_bool, member_int, member_text,
};
use crate::lifecycle::distinct;
use crate::names::{is_on_device, on_device, stable_id, valid_stable_id};
use crate::relay::{Attachments, AttachmentsV, bounded_attachments, bounded_imported_attachments};
use crate::rows::{lemma_views_insert, lemma_views_push, lemma_views_update};
use crate::search::{first_where, position};
use crate::store::{
    DbV, Delivery, DeliveryV, ErrorKind, ErrorV, HcomDb, LifecycleError, MessageRecord, RecordV, extends,
    plain, record_of, refuse,
};
use crate::text::{as_opt_str, cat, cat3, opt_text, own_opt, same, same_opt, starts_with, texts};
use vstd::prelude::*;

verus! {

/// What came of projecting an imported event: the store after it, why it was rejected, or what
/// failed.
pub enum ProjectionV {
    Applied(DbV),
    Rejected(Seq<char>),
    Failed(ErrorV),
}

/// Whether an outcome and the store it leaves are those specified.
pub open spec fn projects(r: Result<Option<String>, LifecycleError>, db: DbV, s: ProjectionV) -> bool {
    match r {
        Ok(None) => s == ProjectionV::Applied(db),
        Ok(Some(reason)) => s == ProjectionV::Rejected(reason@),
        Err(e) => s == ProjectionV::Failed(e@),
    }
}

/// Whether an outcome and the store it leaves are those specified, where only what is applied is
/// written.
pub open spec fn projects_or_keeps(
    r: Result<Option<String>, LifecycleError>,
    before: DbV,
    after: DbV,
    s: ProjectionV,
) -> bool {
    &&& projects(r, after, s)
    &&& (r matches Ok(None)) || after == before
}

/// An imported message.
pub struct ImportedMessageV {
    pub message_id: Seq<char>,
    pub correlation_id: Seq<char>,
    pub sender: Seq<char>,
    pub recipients: Seq<Seq<char>>,
    pub delivery_endpoint: Seq<char>,
    pub attachments_json: Seq<char>,
    pub intent: Option<Seq<char>>,
    pub expects_reply: bool,
    pub in_reply_to: Option<Seq<char>>,
    pub legacy_reply_to: Option<Seq<char>>,
    pub reply_endpoint: Option<Seq<char>>,
    pub supersedes: Option<Seq<char>>,
    pub retry_of: Option<Seq<char>>,
}

/// An imported message.
struct ImportedMessage {
    message_id: String,
    correlation_id: String,
    sender: String,
    recipients: Vec<String>,
    delivery_endpoint: String,
    attachments_json: String,
    intent: Option<String>,
    expects_reply: bool,
    in_reply_to: Option<String>,
    legacy_reply_to: Option<String>,
    reply_endpoint: Option<String>,
    supersedes: Option<String>,
    retry_of: Option<String>,
}

impl View for ImportedMessage {
    type V = ImportedMessageV;

    closed spec fn view(&self) -> ImportedMessageV {
        ImportedMessageV {
            message_id: self.message_id@,
            correlation_id: self.correlation_id@,
            sender: self.sender@,
            recipients: texts(self.recipients@),
            delivery_endpoint: self.delivery_endpoint@,
            attachments_json: self.attachments_json@,
            intent: opt_text(self.intent),
            expects_reply: self.expects_reply,
            in_reply_to: opt_text(self.in_reply_to),
            legacy_reply_to: opt_text(self.legacy_reply_to),
            reply_endpoint: opt_text(self.reply_endpoint),
            supersedes: opt_text(self.supersedes),
            retry_of: opt_text(self.retry_of),
        }
    }
}

/// Whether every value of a list is a text.
pub open spec fn all_texts(vs: Seq<JsonV>) -> bool {
    forall|i: int| 0 <= i < vs.len() ==> #[trigger] vs[i] is Text
}

/// The texts of a list.
pub open spec fn texts_in(vs: Seq<JsonV>) -> Seq<Seq<char>> {
    Seq::new(vs.len(), |i: int| vs[i]->Text_0)
}

/// The endpoint that a payload names, the inbox where it names none.
pub open spec fn endpoint_in(data: JsonV) -> Seq<char> {
    match member_text(data, "delivery_endpoint"@) {
        Some(s) => s,
        None => "inbox"@,
    }
}

/// The message that a payload describes, or why it is rejected.
pub open spec fn message_in(data: JsonV, attachments: AttachmentsV) -> Result<
    ImportedMessageV,
    Seq<char>,
> {
    match (
        member_text(data, "message_id"@),
        member_text(data, "correlation_id"@),
        member_text(data, "from"@),
    ) {
        (None, _, _) => Err("v1 message is missing message_id"@),
        (_, None, _) => Err("v1 message is missing correlation_id"@),
        (_, _, None) => Err("v1 message is missing sender"@),
        (Some(message_id), Some(correlation_id), Some(sender)) => if !stable_id(message_id)
            || !stable_id(correlation_id) {
            Err("v1 message has an invalid stable identity"@)
        } else {
            match member(data, "delivered_to"@) {
                Some(JsonV::Array(vs)) => if !all_texts(vs) {
                    Err("v1 recipient must be a string"@)
                } else if vs.len() == 0 || !distinct(texts_in(vs)) {
                    Err("v1 message recipients must be non-empty and unique"@)
                } else if endpoint_in(data) != "inbox"@ && !"request:"@.is_prefix_of(
                    endpoint_in(data),
                ) {
                    Err("unsupported logical delivery endpoint"@)
                } else {
                    match bounded_attachments(data, attachments) {
                        Err(reason) => Err(reason),
                        Ok(attachments_json) => Ok(
                            ImportedMessageV {
                                message_id,
                                correlation_id,
                                sender,
                                recipients: texts_in(vs),
                                delivery_endpoint: endpoint_in(data),
                                attachments_json,
                                intent: member_text(data, "intent"@),
                                expects_reply: member_bool(data, "expects_reply"@) == Some(true),
                                in_reply_to: member_text(data, "in_reply_to"@),
                                legacy_reply_to: member_text(data, "reply_to"@),
                                reply_endpoint: member_text(data, "reply_endpoint"@),
                                supersedes: member_text(data, "supersedes"@),
                                retry_of: member_text(data, "retry_of"@),
                            },
                        ),
                    }
                },
                _ => Err("v1 message is missing delivered_to"@),
            }
        },
    }
}

/// The record of an imported message.
pub open spec fn imported_record(m: ImportedMessageV, event_id: int, timestamp: Seq<char>) -> RecordV {
    RecordV {
        message_id: m.message_id,
        event_id,
        correlation_id: m.correlation_id,
        sender_name: m.sender,
        sender_session_id: None,
        intent: m.intent,
        expects_reply: m.expects_reply,
        in_reply_to: m.in_reply_to,
        legacy_reply_to: m.legacy_reply_to,
        reply_endpoint: m.reply_endpoint,
        supersedes: m.supersedes,
        retry_of: m.retry_of,
        attachments_json: m.attachments_json,
        created_at: timestamp,
    }
}

/// The condition that the record at a position is of a later event.
pub open spec fn later_record(rows: Seq<RecordV>, event_id: int) -> spec_fn(int) -> bool {
    |i: int| rows[i].event_id > event_id
}

/// The records with one more in the order of events.
pub open spec fn with_record(rows: Seq<RecordV>, row: RecordV) -> Seq<RecordV> {
    match first_where(rows.len() as int, later_record(rows, row.event_id)) {
        Some(i) => rows.insert(i, row),
        None => rows.push(row),
    }
}

/// The store with an imported message on record.
pub open spec fn message_recorded(
    db: DbV,
    m: ImportedMessageV,
    event_id: int,
    timestamp: Seq<char>,
) -> ProjectionV {
    let row = imported_record(m, event_id, timestamp);
    match first_where(db.records.len() as int, record_of(db.records, m.message_id)) {
        Some(i) => if db.records[i].event_id != event_id {
            ProjectionV::Rejected("stable message_id collision for "@ + m.message_id)
        } else {
            ProjectionV::Applied(DbV { records: db.records.update(i, row), ..db })
        },
        None => if db.record_by_event(event_id) is Some {
            ProjectionV::Failed(plain(ErrorKind::EventHasMessage))
        } else {
            ProjectionV::Applied(DbV { records: with_record(db.records, row), ..db })
        },
    }
}

/// Whether a delivery is of another message that the sender sent in a correlation.
pub open spec fn in_correlation(
    db: DbV,
    row: DeliveryV,
    correlation_id: Seq<char>,
    sender: Seq<char>,
    message_id: Seq<char>,
) -> bool {
    row.message_id != message_id && match db.record(row.message_id) {
        Some(r) => r.correlation_id == correlation_id && r.sender_name == sender,
        None => false,
    }
}

/// The highest attempt of the other messages that the sender sent in a correlation, among the
/// first `n` deliveries.
pub open spec fn latest_attempt(
    db: DbV,
    correlation_id: Seq<char>,
    sender: Seq<char>,
    message_id: Seq<char>,
    n: int,
) -> Option<int>
    decreases n,
{
    if n <= 0 {
        None
    } else {
        let best = latest_attempt(db, correlation_id, sender, message_id, n - 1);
        let row = db.deliveries[n - 1];
        if in_correlation(db, row, correlation_id, sender, message_id) && (best is None
            || row.attempt > best->0) {
            Some(row.attempt)
        } else {
            best
        }
    }
}

/// The attempt number of an imported message: one beyond the highest so far for a retry, else one.
pub open spec fn imported_attempt(db: DbV, m: ImportedMessageV) -> int {
    if m.retry_of is Some {
        match latest_attempt(
            db,
            m.correlation_id,
            m.sender,
            m.message_id,
            db.deliveries.len() as int,
        ) {
            Some(n) => n + 1,
            None => 1,
        }
    } else {
        1
    }
}

/// The store with an imported message delivered to one recipient. A delivery that is there already
/// keeps its state.
pub open spec fn delivered_to(
    db: DbV,
    m: ImportedMessageV,
    attempt: int,
    event_id: int,
    timestamp: Seq<char>,
    recipient: Seq<char>,
) -> DbV {
    match db.delivery_pos(m.message_id, recipient) {
        Some(k) => DbV {
            deliveries: db.deliveries.update(
                k,
                DeliveryV { delivery_endpoint: m.delivery_endpoint, ..db.deliveries[k] },
            ),
            ..db
        },
        None => DbV {
            deliveries: db.deliveries.push(
                DeliveryV {
                    message_id: m.message_id,
                    recipient_name: recipient,
                    endpoint_epoch: db.epoch_or_empty(recipient),
                    delivery_endpoint: m.delivery_endpoint,
                    state: "queued"@,
                    attempt,
                    state_event_id: Some(event_id),
                    last_actor: m.sender,
                    updated_at: timestamp,
                },
            ),
            ..db
        },
    }
}

/// The store with an imported message delivered to its first `n` recipients.
pub open spec fn delivered(
    db: DbV,
    m: ImportedMessageV,
    attempt: int,
    event_id: int,
    timestamp: Seq<char>,
    n: int,
) -> DbV
    decreases n,
{
    if n <= 0 {
        db
    } else {
        delivered_to(
            delivered(db, m, attempt, event_id, timestamp, n - 1),
            m,
            attempt,
            event_id,
            timestamp,
            m.recipients[n - 1],
        )
    }
}

/// Whether a delivery in the state can still be answered.
pub open spec fn answerable(state: Seq<char>) -> bool {
    state == "queued"@ || state == "received"@ || state == "accepted"@ || state == "acknowledged"@
}

/// The store with the request that an imported message answers, if it answers one, marked as
/// replied.
pub open spec fn reply_projected(
    db: DbV,
    m: ImportedMessageV,
    event_id: int,
    timestamp: Seq<char>,
) -> ProjectionV {
    match m.in_reply_to {
        None => ProjectionV::Applied(db),
        Some(parent_id) => match db.record(parent_id) {
            None => ProjectionV::Rejected("reply target projection not found"@),
            Some(parent) => if m.intent != Some("ack"@) || parent.intent != Some("request"@)
                || !parent.expects_reply || parent.correlation_id != m.correlation_id
                || m.recipients != seq![parent.sender_name] || m.delivery_endpoint != "request:"@
                + parent_id {
                ProjectionV::Rejected("imported reply lineage is invalid"@)
            } else {
                match db.delivery_pos(parent_id, m.sender) {
                    None => ProjectionV::Rejected("reply sender is not a request recipient"@),
                    Some(k) => {
                        let row = db.deliveries[k];
                        if answerable(row.state) {
                            ProjectionV::Applied(
                                DbV {
                                    deliveries: db.deliveries.update(
                                        k,
                                        DeliveryV {
                                            state: "replied"@,
                                            state_event_id: Some(event_id),
                                            last_actor: m.sender,
                                            updated_at: timestamp,
                                            ..row
                                        },
                                    ),
                                    ..db
                                },
                            )
                        } else if row.state == "replied"@ {
                            ProjectionV::Applied(db)
                        } else {
                            ProjectionV::Rejected(
                                "request is no longer replyable ("@ + row.state + ")"@,
                            )
                        }
                    },
                }
            },
        },
    }
}

/// The store with an imported message projected onto it.
pub open spec fn message_projected(
    db: DbV,
    event_id: int,
    timestamp: Seq<char>,
    data: JsonV,
    attachments: AttachmentsV,
) -> ProjectionV {
    match message_in(data, attachments) {
        Err(reason) => ProjectionV::Rejected(reason),
        Ok(m) => match message_recorded(db, m, event_id, timestamp) {
            ProjectionV::Applied(d) => if imported_attempt(d, m) > i64::MAX {
                ProjectionV::Failed(plain(ErrorKind::AttemptsExhausted))
            } else {
                reply_projected(
                    delivered(
                        d,
                        m,
                        imported_attempt(d, m),
                        event_id,
                        timestamp,
                        m.recipients.len() as int,
                    ),
                    m,
                    event_id,
                    timestamp,
                )
            },
            other => other,
        },
    }
}

/// The store that projecting an imported message leaves, whatever came of it: nothing is written
/// where the message cannot be read or recorded. Its record and deliveries are there where only the
/// request that it answers stands against it.
pub open spec fn message_left(
    db: DbV,
    event_id: int,
    timestamp: Seq<char>,
    data: JsonV,
    attachments: AttachmentsV,
) -> DbV {
    match message_in(data, attachments) {
        Err(reason) => db,
        Ok(m) => match message_recorded(db, m, event_id, timestamp) {
            ProjectionV::Applied(d) => if imported_attempt(d, m) > i64::MAX {
                d
            } else {
                let sent = delivered(
                    d,
                    m,
                    imported_attempt(d, m),
                    event_id,
                    timestamp,
                    m.recipients.len() as int,
                );
                match reply_projected(sent, m, event_id, timestamp) {
                    ProjectionV::Applied(answered) => answered,
                    _ => sent,
                }
            },
            _ => db,
        },
    }
}

fn read_recipients(vs: &Vec<Json>) -> (r: Option<Vec<String>>)
    ensures
        match r {
            Some(v) => all_texts(array_view(vs@)) && texts(v@) == texts_in(array_view(vs@)),
            None => !all_texts(array_view(vs@)),
        },
{
    let mut out: Vec<String> = Vec::new();
    let mut i: usize = 0;
    while i < vs.len()
        invariant
            i <= vs@.len(),
            out@.len() == i,
            forall|k: int| 0 <= k < i ==> #[trigger] array_view(vs@)[k] is Text,
            forall|k: int| 0 <= k < i ==> (#[trigger] out@[k])@ == array_view(vs@)[k]->Text_0,
        decreases vs.len() - i,
    {
        assert(array_view(vs@)[i as int] == vs@[i as int]@);
        match &vs[i] {
            Json::Text(s) => {
                out.push(s.clone());
            },
            _ => {
                return None;
            },
        }
        i += 1;
    }
    assert(texts(out@) =~= texts_in(array_view(vs@)));
    Some(out)
}

fn read_message(data: &Json, attachments: &Attachments) -> (r: Result<ImportedMessage, String>)
    ensures
        match r {
            Ok(m) => message_in(data@, attachments@) == Ok::<ImportedMessageV, Seq<char>>(m@),
            Err(s) => message_in(data@, attachments@) == Err::<ImportedMessageV, Seq<char>>(s@),
        },
{
    let message_id: &str = match data.get_text("message_id") {
        None => {
            return Err("v1 message is missing message_id".to_owned());
        },
        Some(s) => s,
    };
    let correlation_id: &str = match data.get_text("correlation_id") {
        None => {
            return Err("v1 message is missing correlation_id".to_owned());
        },
        Some(s) => s,
    };
    let sender: &str = match data.get_text("from") {
        None => {
            return Err("v1 message is missing sender".to_owned());
        },
        Some(s) => s,
    };
    if !valid_stable_id(message_id) || !valid_stable_id(correlation_id) {
        return Err("v1 message has an invalid stable identity".to_owned());
    }
    let recipients: Vec<String> = match data.get("delivered_to") {
        Some(Json::Array(vs)) => {
            proof {
                lemma_array(*vs);
            }
            match read_recipients(vs) {
                None => {
                    return Err("v1 recipient must be a string".to_owned());
                },
                Some(v) => v,
            }
        },
        _ => {
            return Err("v1 message is missing delivered_to".to_owned());
        },
    };
    proof {
        assert(member(data@, "delivered_to"@) is Some);
        assert(member(data@, "delivered_to"@)->0 is Array);
        let given = member(data@, "delivered_to"@)->0->Array_0;
        assert(texts(recipients@) == texts_in(given));
        assert(texts(recipients@).len() == recipients@.len());
        assert(texts_in(given).len() == given.len());
    }
    if recipients.len() == 0 || !crate::lifecycle::are_distinct(&recipients) {
        return Err("v1 message recipients must be non-empty and unique".to_owned());
    }
    let delivery_endpoint: String = match data.get_text("delivery_endpoint") {
        Some(s) => s.to_owned(),
        None => "inbox".to_owned(),
    };
    if !same(delivery_endpoint.as_str(), "inbox") && !starts_with(
        delivery_endpoint.as_str(),
        "request:",
    ) {
        return Err("unsupported logical delivery endpoint".to_owned());
    }
    let attachments_json: String = match bounded_imported_attachments(data, attachments) {
        Ok(s) => s,
        Err(reason) => {
            return Err(reason);
        },
    };
    let expects_reply: bool = match data.get_bool("expects_reply") {
        Some(b) => b,
        None => false,
    };
    Ok(
        ImportedMessage {
            message_id: message_id.to_owned(),
            correlation_id: correlation_id.to_owned(),
            sender: sender.to_owned(),
            recipients,
            delivery_endpoint,
            attachments_json,
            intent: own_opt(data.get_text("intent")),
            expects_reply,
            in_reply_to: own_opt(data.get_text("in_reply_to")),
            legacy_reply_to: own_opt(data.get_text("reply_to")),
            reply_endpoint: own_opt(data.get_text("reply_endpoint")),
            supersedes: own_opt(data.get_text("supersedes")),
            retry_of: own_opt(data.get_text("retry_of")),
        },
    )
}

impl HcomDb {
    fn record_import(&mut self, m: &ImportedMessage, event_id: i64, timestamp: &str) -> (r: Result<
        Option<String>,
        LifecycleError,
    >)
        ensures
            extends(old(self)@, final(self)@),
            projects_or_keeps(
                r,
                old(self)@,
                final(self)@,
                message_recorded(old(self)@, m@, event_id as int, timestamp@),
            ),
            final(self)@.sequence == old(self)@.sequence,
            final(self)@.events == old(self)@.events,
    {
        let row: MessageRecord = MessageRecord {
            message_id: m.message_id.clone(),
            event_id,
            correlation_id: m.correlation_id.clone(),
            sender_name: m.sender.clone(),
            sender_session_id: None,
            intent: crate::text::copy_opt(&m.intent),
            expects_reply: m.expects_reply,
            in_reply_to: crate::text::copy_opt(&m.in_reply_to),
            legacy_reply_to: crate::text::copy_opt(&m.legacy_reply_to),
            reply_endpoint: crate::text::copy_opt(&m.reply_endpoint),
            supersedes: crate::text::copy_opt(&m.supersedes),
            retry_of: crate::text::copy_opt(&m.retry_of),
            attachments_json: m.attachments_json.clone(),
            created_at: timestamp.to_owned(),
        };
        assert(row@ == imported_record(m@, event_id as int, timestamp@));
        if let Some(i) = self.find_record(m.message_id.as_str()) {
            if self.records[i].event_id != event_id {
                return Ok(Some(cat("stable message_id collision for ", m.message_id.as_str())));
            }
            proof {
                lemma_views_update(self.records@, i as int, row);
            }
            self.records.set(i, row);
            return Ok(None);
        }
        if self.find_record_by_event(event_id).is_some() {
            return Err(refuse(ErrorKind::EventHasMessage));
        }
        let ghost p = later_record(self@.records, event_id as int);
        let mut found: Option<usize> = None;
        let mut i: usize = 0;
        while i < self.records.len()
            invariant
                i <= self.records@.len(),
                p == later_record(self@.records, event_id as int),
                position(found) == first_where(i as int, p),
                found matches Some(k) ==> k < i,
            decreases self.records.len() - i,
        {
            if found.is_none() && self.records[i].event_id > event_id {
                found = Some(i);
            }
            i += 1;
        }
        match found {
            Some(k) => {
                proof {
                    lemma_views_insert(self.records@, k as int, row);
                }
                self.records.insert(k, row);
            },
            None => {
                proof {
                    lemma_views_push(self.records@, row);
                }
                self.records.push(row);
            },
        }
        Ok(None)
    }

    fn latest_attempt_of(&self, correlation_id: &str, sender: &str, message_id: &str) -> (r: Option<
        i64,
    >)
        ensures
            crate::store::opt_id(r) == latest_attempt(
                self@,
                correlation_id@,
                sender@,
                message_id@,
                self@.deliveries.len() as int,
            ),
    {
        let mut best: Option<i64> = None;
        let mut i: usize = 0;
        while i < self.deliveries.len()
            invariant
                i <= self.deliveries@.len(),
                crate::store::opt_id(best) == latest_attempt(
                    self@,
                    correlation_id@,
                    sender@,
                    message_id@,
                    i as int,
                ),
            decreases self.deliveries.len() - i,
        {
            let row: &Delivery = &self.deliveries[i];
            assert(row@ == self@.deliveries[i as int]);
            let hit: bool = !same(row.message_id.as_str(), message_id) && match self.find_record(
                row.message_id.as_str(),
            ) {
                None => false,
                Some(k) => same(self.records[k].correlation_id.as_str(), correlation_id) && same(
                    self.records[k].sender_name.as_str(),
                    sender,
                ),
            };
            if hit && match best {
                None => true,
                Some(n) => row.attempt > n,
            } {
                best = Some(row.attempt);
            }
            i += 1;
        }
        best
    }

    fn deliver_import(&mut self, m: &ImportedMessage, attempt: i64, event_id: i64, timestamp: &str)
        ensures
            final(self)@ == delivered(
                old(self)@,
                m@,
                attempt as int,
                event_id as int,
                timestamp@,
                m@.recipients.len() as int,
            ),
            final(self)@ == (DbV { deliveries: final(self)@.deliveries, ..old(self)@ }),
    {
        let ghost start = self@;
        let mut n: usize = 0;
        while n < m.recipients.len()
            invariant
                n <= m.recipients@.len(),
                self@ == delivered(
                    start,
                    m@,
                    attempt as int,
                    event_id as int,
                    timestamp@,
                    n as int,
                ),
                self@ == (DbV { deliveries: self@.deliveries, ..start }),
            decreases m.recipients.len() - n,
        {
            let recipient: &str = m.recipients[n].as_str();
            assert(recipient@ == m@.recipients[n as int]);
            match self.find_delivery(m.message_id.as_str(), recipient) {
                Some(k) => {
                    let mut row: Delivery = self.deliveries[k].duplicate();
                    row.delivery_endpoint = m.delivery_endpoint.clone();
                    proof {
                        lemma_views_update(self.deliveries@, k as int, row);
                    }
                    self.deliveries.set(k, row);
                },
                None => {
                    let epoch: String = self.snapshot_epoch(recipient);
                    let row: Delivery = Delivery {
                        message_id: m.message_id.clone(),
                        recipient_name: recipient.to_owned(),
                        endpoint_epoch: epoch,
                        delivery_endpoint: m.delivery_endpoint.clone(),
                        state: "queued".to_owned(),
                        attempt,
                        state_event_id: Some(event_id),
                        last_actor: m.sender.clone(),
                        updated_at: timestamp.to_owned(),
                    };
                    proof {
                        lemma_views_push(self.deliveries@, row);
                    }
                    self.deliveries.push(row);
                },
            }
            n += 1;
        }
    }

    fn project_reply(&mut self, m: &ImportedMessage, event_id: i64, timestamp: &str) -> (r: Result<
        Option<String>,
        LifecycleError,
    >)
        ensures
            final(self)@ == (DbV { deliveries: final(self)@.deliveries, ..old(self)@ }),
            projects_or_keeps(
                r,
                old(self)@,
                final(self)@,
                reply_projected(old(self)@, m@, event_id as int, timestamp@),
            ),
    {
        let parent_id: &str = match as_opt_str(&m.in_reply_to) {
            None => {
                return Ok(None);
            },
            Some(s) => s,
        };
        let p: usize = match self.find_record(parent_id) {
            None => {
                return Ok(Some("reply target projection not found".to_owned()));
            },
            Some(i) => i,
        };
        let parent: &MessageRecord = &self.records[p];
        let own: String = cat("request:", parent_id);
        proof {
            let want = seq![parent.sender_name@];
            let have = texts(m.recipients@);
            if have.len() == 1 && have[0] == parent.sender_name@ {
                assert(have =~= want);
            }
            if have == want {
                assert(have.len() == 1 && have[0] == parent.sender_name@);
            }
        }
        if !same_opt(as_opt_str(&m.intent), "ack") || !same_opt(
            as_opt_str(&parent.intent),
            "request",
        ) || !parent.expects_reply || !same(
            parent.correlation_id.as_str(),
            m.correlation_id.as_str(),
        ) || m.recipients.len() != 1 || !same(
            m.recipients[0].as_str(),
            parent.sender_name.as_str(),
        ) || !same(m.delivery_endpoint.as_str(), own.as_str()) {
            return Ok(Some("imported reply lineage is invalid".to_owned()));
        }
        let k: usize = match self.find_delivery(parent_id, m.sender.as_str()) {
            None => {
                return Ok(Some("reply sender is not a request recipient".to_owned()));
            },
            Some(k) => k,
        };
        let mut row: Delivery = self.deliveries[k].duplicate();
        let open: bool = same(row.state.as_str(), "queued") || same(row.state.as_str(), "received")
            || same(row.state.as_str(), "accepted") || same(row.state.as_str(), "acknowledged");
        if open {
            row.state = "replied".to_owned();
            row.state_event_id = Some(event_id);
            row.last_actor = m.sender.clone();
            row.updated_at = timestamp.to_owned();
            proof {
                lemma_views_update(self.deliveries@, k as int, row);
            }
            self.deliveries.set(k, row);
            Ok(None)
        } else if same(row.state.as_str(), "replied") {
            Ok(None)
        } else {
            Ok(Some(cat3("request is no longer replyable (", row.state.as_str(), ")")))
        }
    }

    /// Projects an imported message: its record, a queued delivery for each recipient that has none
    /// yet, and the reply transition of the request it answers. Returns why it was rejected, if it
    /// was; what was written up to there is for the caller to undo.
    pub fn project_imported_message(
        &mut self,
        event_id: i64,
        timestamp: &str,
        data: &Json,
        attachments: &Attachments,
    ) -> (r: Result<Option<String>, LifecycleError>)
        ensures
            extends(old(self)@, final(self)@),
            projects(
                r,
                final(self)@,
                message_projected(old(self)@, event_id as int, timestamp@, data@, attachments@),
            ),
            final(self)@ == message_left(
                old(self)@,
                event_id as int,
                timestamp@,
                data@,
                attachments@,
            ),
            final(self)@.sequence == old(self)@.sequence,
            final(self)@.events == old(self)@.events,
    {
        let m: ImportedMessage = match read_message(data, attachments) {
            Ok(m) => m,
            Err(reason) => {
                return Ok(Some(reason));
            },
        };
        match self.record_import(&m, event_id, timestamp) {
            Ok(None) => {},
            Ok(Some(reason)) => {
                return Ok(Some(reason));
            },
            Err(e) => {
                return Err(e);
            },
        }
        let attempt: i64 = if m.retry_of.is_some() {
            match self.latest_attempt_of(
                m.correlation_id.as_str(),
                m.sender.as_str(),
                m.message_id.as_str(),
            ) {
                Some(n) => {
                    if n == i64::MAX {
                        return Err(refuse(ErrorKind::AttemptsExhausted));
                    }
                    n + 1
                },
                None => 1,
            }
        } else {
            1
        };
        self.deliver_import(&m, attempt, event_id, timestamp);
        self.project_reply(&m, event_id, timestamp)
    }
}

/// Whether a delivery may go from one state to another.
pub open spec fn transition_allowed(prior: Seq<char>, next: Seq<char>) -> bool {
    ||| prior == "queued"@ && next == "received"@
    ||| prior == "received"@ && next == "accepted"@
    ||| prior == "accepted"@ && next == "acknowledged"@
    ||| answerable(prior) && next == "replied"@
    ||| prior == "queued"@ && (next == "cancelled"@ || next == "superseded"@ || next
        == "delivery_failed"@)
    ||| prior == "received"@ && (next == "cancellation_requested"@ || next == "superseded"@ || next
        == "delivery_failed"@)
    ||| (prior == "accepted"@ || prior == "acknowledged"@) && (next == "cancellation_requested"@
        || next == "supersession_requested"@ || next == "delivery_failed"@)
}

/// Whether a delivery may go from one state to another.
pub fn state_transition_allowed(prior: &str, next: &str) -> (r: bool)
    ensures
        r == transition_allowed(prior@, next@),
{
    let queued: bool = same(prior, "queued");
    let received: bool = same(prior, "received");
    let accepted: bool = same(prior, "accepted");
    let acknowledged: bool = same(prior, "acknowledged");
    (queued && same(next, "received")) || (received && same(next, "accepted")) || (accepted && same(
        next,
        "acknowledged",
    )) || ((queued || received || accepted || acknowledged) && same(next, "replied")) || (queued
        && (same(next, "cancelled") || same(next, "superseded") || same(next, "delivery_failed")))
        || (received && (same(next, "cancellation_requested") || same(next, "superseded") || same(
        next,
        "delivery_failed",
    ))) || ((accepted || acknowledged) && (same(next, "cancellation_requested") || same(
        next,
        "supersession_requested",
    ) || same(next, "delivery_failed")))
}

/// The device that an event was imported from.
pub open spec fn origin_device(data: JsonV) -> ColumnV {
    match member(data, "_relay"@) {
        Some(m) => column(member(m, "device"@)),
        None => ColumnV::Absent,
    }
}

/// The device that an event was imported from.
pub fn read_origin(data: &Json) -> (r: Column)
    ensures
        r@ == origin_device(data@),
{
    match data.get("_relay") {
        Some(m) => read_column(m.get("device")),
        None => Column::Absent,
    }
}

/// Whether the actor of a transition to the state must be the sender.
pub open spec fn sender_state(state: Seq<char>) -> bool {
    state == "queued"@ || state == "cancelled"@ || state == "cancellation_requested"@ || state
        == "superseded"@ || state == "supersession_requested"@ || state == "delivery_failed"@
}

/// Whether the actor of a transition to the state must be the recipient.
pub open spec fn recipient_state(state: Seq<char>) -> bool {
    state == "received"@ || state == "accepted"@ || state == "acknowledged"@ || state == "replied"@
}

/// Whether an actor may bring a delivery to a state.
pub open spec fn actor_allowed(
    state: Seq<char>,
    actor: Seq<char>,
    sender: Seq<char>,
    recipient: Seq<char>,
) -> bool {
    (sender_state(state) && actor == sender) || (recipient_state(state) && actor == recipient)
}

/// Whether a device may change the deliveries to a recipient of a message with an origin: its own
/// messages, and what was sent from here to a participant of it.
pub open spec fn device_allowed(
    origin: ColumnV,
    device_id: Seq<char>,
    short_id: Seq<char>,
    recipient: Seq<char>,
) -> bool {
    match origin {
        ColumnV::Absent => on_device(recipient, short_id),
        ColumnV::Text(d) => d == device_id,
        _ => false,
    }
}

/// The store with an imported transition applied to the delivery at a position.
pub open spec fn transition_projected(
    db: DbV,
    k: int,
    event_id: int,
    timestamp: Seq<char>,
    data: JsonV,
    actor: Seq<char>,
    new_state: Seq<char>,
) -> ProjectionV {
    let row = db.deliveries[k];
    let epoch = match member_text(data, "endpoint_epoch"@) {
        Some(s) => s,
        None => ""@,
    };
    let attempt = match member_int(data, "attempt"@) {
        Some(n) => n,
        None => 1,
    };
    let current = db.epoch_or_empty(row.recipient_name);
    if epoch != row.endpoint_epoch || attempt != row.attempt {
        ProjectionV::Rejected("stale endpoint epoch or delivery attempt"@)
    } else if current.len() > 0 && current != row.endpoint_epoch {
        ProjectionV::Rejected("destination endpoint epoch has rotated"@)
    } else if row.state == new_state {
        ProjectionV::Applied(db)
    } else if member_text(data, "prior_state"@) != Some(row.state) || !transition_allowed(
        row.state,
        new_state,
    ) {
        ProjectionV::Rejected(
            "invalid message_state transition "@ + row.state + "->"@ + new_state,
        )
    } else {
        ProjectionV::Applied(
            DbV {
                deliveries: db.deliveries.update(
                    k,
                    DeliveryV {
                        state: new_state,
                        state_event_id: Some(event_id),
                        last_actor: actor,
                        updated_at: timestamp,
                        ..row
                    },
                ),
                ..db
            },
        )
    }
}

/// The store with an imported state transition projected onto it.
pub open spec fn state_projected(
    db: DbV,
    event_id: int,
    timestamp: Seq<char>,
    data: JsonV,
    device_id: Seq<char>,
    short_id: Seq<char>,
) -> ProjectionV {
    match member_text(data, "message_id"@) {
        None => ProjectionV::Rejected("v1 message_state is missing message_id"@),
        Some(message_id) => if !stable_id(message_id) {
            ProjectionV::Rejected("v1 message_state has invalid message_id"@)
        } else {
            match (member_text(data, "actor"@), member_text(data, "new_state"@)) {
                (None, _) => ProjectionV::Rejected("v1 message_state is missing actor"@),
                (_, None) => ProjectionV::Rejected("v1 message_state is missing new_state"@),
                (Some(actor), Some(new_state)) => match db.record(message_id) {
                    None => ProjectionV::Rejected("message_state target projection not found"@),
                    Some(r) => match db.event(r.event_id) {
                        None => ProjectionV::Rejected("message_state target projection not found"@),
                        Some(e) => if origin_device(e.data) is NotText {
                            ProjectionV::Failed(plain(ErrorKind::ColumnNotText))
                        } else if new_state == "ask_timed_out"@ {
                            if actor != r.sender_name || origin_device(e.data) != ColumnV::Text(
                                device_id,
                            ) {
                                ProjectionV::Rejected("unauthorized ask timeout origin"@)
                            } else {
                                ProjectionV::Applied(db)
                            }
                        } else {
                            match member_text(data, "recipient"@) {
                                None => ProjectionV::Rejected(
                                    "v1 message_state is missing recipient"@,
                                ),
                                Some(recipient) => match db.delivery_pos(message_id, recipient) {
                                    None => ProjectionV::Rejected(
                                        "message_state recipient projection not found"@,
                                    ),
                                    Some(k) => if !device_allowed(
                                        origin_device(e.data),
                                        device_id,
                                        short_id,
                                        recipient,
                                    ) {
                                        ProjectionV::Rejected(
                                            "peer cannot mutate an unrelated message projection"@,
                                        )
                                    } else if !actor_allowed(
                                        new_state,
                                        actor,
                                        r.sender_name,
                                        recipient,
                                    ) {
                                        ProjectionV::Rejected(
                                            "message_state actor is not authorized"@,
                                        )
                                    } else {
                                        transition_projected(
                                            db,
                                            k,
                                            event_id,
                                            timestamp,
                                            data,
                                            actor,
                                            new_state,
                                        )
                                    },
                                },
                            }
                        },
                    },
                },
            }
        },
    }
}

fn is_actor_allowed(state: &str, actor: &str, sender: &str, recipient: &str) -> (r: bool)
    ensures
        r == actor_allowed(state@, actor@, sender@, recipient@),
{
    let of_sender: bool = same(state, "queued") || same(state, "cancelled") || same(
        state,
        "cancellation_requested",
    ) || same(state, "superseded") || same(state, "supersession_requested") || same(
        state,
        "delivery_failed",
    );
    let of_recipient: bool = same(state, "received") || same(state, "accepted") || same(
        state,
        "acknowledged",
    ) || same(state, "replied");
    (of_sender && same(actor, sender)) || (of_recipient && same(actor, recipient))
}

impl HcomDb {
    fn project_transition(
        &mut self,
        k: usize,
        event_id: i64,
        timestamp: &str,
        data: &Json,
        actor: &str,
        new_state: &str,
    ) -> (r: Result<Option<String>, LifecycleError>)
        requires
            k < old(self).deliveries@.len(),
        ensures
            final(self)@ == (DbV { deliveries: final(self)@.deliveries, ..old(self)@ }),
            projects_or_keeps(
                r,
                old(self)@,
                final(self)@,
                transition_projected(
                    old(self)@,
                    k as int,
                    event_id as int,
                    timestamp@,
                    data@,
                    actor@,
                    new_state@,
                ),
            ),
    {
        let mut row: Delivery = self.deliveries[k].duplicate();
        let epoch: &str = match data.get_text("endpoint_epoch") {
            Some(s) => s,
            None => "",
        };
        let attempt: i64 = match data.get_int("attempt") {
            Some(n) => n,
            None => 1,
        };
        if !same(epoch, row.endpoint_epoch.as_str()) || attempt != row.attempt {
            return Ok(Some("stale endpoint epoch or delivery attempt".to_owned()));
        }
        let current: String = self.snapshot_epoch(row.recipient_name.as_str());
        if current.as_str().unicode_len() > 0 && !same(
            current.as_str(),
            row.endpoint_epoch.as_str(),
        ) {
            return Ok(Some("destination endpoint epoch has rotated".to_owned()));
        }
        if same(row.state.as_str(), new_state) {
            return Ok(None);
        }
        if !same_opt(data.get_text("prior_state"), row.state.as_str()) || !state_transition_allowed(
            row.state.as_str(),
            new_state,
        ) {
            let mut reason: String = cat("invalid message_state transition ", row.state.as_str());
            reason.append("->");
            reason.append(new_state);
            return Ok(Some(reason));
        }
        row.state = new_state.to_owned();
        row.state_event_id = Some(event_id);
        row.last_actor = actor.to_owned();
        row.updated_at = timestamp.to_owned();
        proof {
            lemma_views_update(self.deliveries@, k as int, row);
        }
        self.deliveries.set(k, row);
        Ok(None)
    }

    /// Projects an imported state transition onto the delivery it speaks of. Returns why it was
    /// rejected, if it was; then nothing was written.
    pub fn project_imported_state(
        &mut self,
        event_id: i64,
        timestamp: &str,
        data: &Json,
        device_id: &str,
        short_id: &str,
    ) -> (r: Result<Option<String>, LifecycleError>)
        ensures
            final(self)@ == (DbV { deliveries: final(self)@.deliveries, ..old(self)@ }),
            (r matches Ok(None)) || final(self)@ == old(self)@,
            projects_or_keeps(
                r,
                old(self)@,
                final(self)@,
                state_projected(
                    old(self)@,
                    event_id as int,
                    timestamp@,
                    data@,
                    device_id@,
                    short_id@,
                ),
            ),
    {
        let message_id: &str = match data.get_text("message_id") {
            None => {
                return Ok(Some("v1 message_state is missing message_id".to_owned()));
            },
            Some(s) => s,
        };
        if !valid_stable_id(message_id) {
            return Ok(Some("v1 message_state has invalid message_id".to_owned()));
        }
        let actor: &str = match data.get_text("actor") {
            None => {
                return Ok(Some("v1 message_state is missing actor".to_owned()));
            },
            Some(s) => s,
        };
        let new_state: &str = match data.get_text("new_state") {
            None => {
                return Ok(Some("v1 message_state is missing new_state".to_owned()));
            },
            Some(s) => s,
        };
        let i: usize = match self.find_record(message_id) {
            None => {
                return Ok(Some("message_state target projection not found".to_owned()));
            },
            Some(i) => i,
        };
        let sender: String = self.records[i].sender_name.clone();
        let j: usize = match self.find_event(self.records[i].event_id) {
            None => {
                return Ok(Some("message_state target projection not found".to_owned()));
            },
            Some(j) => j,
        };
        let origin: Column = read_origin(&self.events[j].data);
        if matches!(origin, Column::NotText) {
            return Err(refuse(ErrorKind::ColumnNotText));
        }
        if same(new_state, "ask_timed_out") {
            let own: bool = match &origin {
                Column::Text(d) => same(d.as_str(), device_id),
                _ => false,
            };
            if !same(actor, sender.as_str()) || !own {
                return Ok(Some("unauthorized ask timeout origin".to_owned()));
            }
            return Ok(None);
        }
        let recipient: &str = match data.get_text("recipient") {
            None => {
                return Ok(Some("v1 message_state is missing recipient".to_owned()));
            },
            Some(s) => s,
        };
        let k: usize = match self.find_delivery(message_id, recipient) {
            None => {
                return Ok(Some("message_state recipient projection not found".to_owned()));
            },
            Some(k) => k,
        };
        let allowed: bool = match &origin {
            Column::Absent => is_on_device(recipient, short_id),
            Column::Text(d) => same(d.as_str(), device_id),
            _ => false,
        };
        if !allowed {
            return Ok(Some("peer cannot mutate an unrelated message projection".to_owned()));
        }
        if !is_actor_allowed(new_state, actor, sender.as_str(), recipient) {
            return Ok(Some("message_state actor is not authorized".to_owned()));
        }
        self.project_transition(k, event_id, timestamp, data, actor, new_state)
    }
}

/// An imported transition moves at most the delivery that it names, and that one only where it stands
/// in the state that the transition leaves, may go to the new state, and has the endpoint and the
/// attempt that the transition names; where the actor is its recipient, or for a state that senders
/// bring about the sender; and where the device may speak for the message.
pub proof fn imported_states_move_what_they_may(
    db: DbV,
    event_id: int,
    timestamp: Seq<char>,
    data: JsonV,
    device_id: Seq<char>,
    short_id: Seq<char>,
    i: int,
)
    requires
        state_projected(db, event_id, timestamp, data, device_id, short_id) is Applied,
        0 <= i < db.deliveries.len(),
        state_projected(db, event_id, timestamp, data, device_id, short_id)->Applied_0.deliveries[i]
            != db.deliveries[i],
    ensures
        ({
            let row = db.deliveries[i];
            let next = member_text(data, "new_state"@)->0;
            let actor = member_text(data, "actor"@)->0;
            &&& member_text(data, "message_id"@) == Some(row.message_id)
            &&& member_text(data, "recipient"@) == Some(row.recipient_name)
            &&& member_text(data, "prior_state"@) == Some(row.state)
            &&& transition_allowed(row.state, next)
            &&& row.endpoint_epoch == match member_text(data, "endpoint_epoch"@) {
                Some(epoch) => epoch,
                None => ""@,
            }
            &&& row.attempt == match member_int(data, "attempt"@) {
                Some(n) => n,
                None => 1,
            }
            &&& db.record(row.message_id) matches Some(r) && (if recipient_state(next) {
                actor == row.recipient_name
            } else {
                actor == r.sender_name
            }) && (db.event(r.event_id) matches Some(e) && device_allowed(
                origin_device(e.data),
                device_id,
                short_id,
                row.recipient_name,
            ))
        }),
{
    reveal_strlit("queued");
    reveal_strlit("received");
    reveal_strlit("accepted");
    reveal_strlit("acknowledged");
    reveal_strlit("replied");
    reveal_strlit("cancelled");
    reveal_strlit("superseded");
    reveal_strlit("delivery_failed");
    reveal_strlit("cancellation_requested");
    reveal_strlit("supersession_requested");
    let next = member_text(data, "new_state"@)->0;
    assert("received"@.len() == 8 && "accepted"@.len() == 8 && "acknowledged"@.len() == 12
        && "replied"@.len() == 7);
    assert("queued"@.len() == 6 && "cancelled"@.len() == 9 && "superseded"@.len() == 10
        && "delivery_failed"@.len() == 15 && "cancellation_requested"@.len() == 22
        && "supersession_requested"@.len() == 22);
    assert(recipient_state(next) ==> !sender_state(next));
    let message_id = member_text(data, "message_id"@)->0;
    let recipient = member_text(data, "recipient"@)->0;
    crate::invariants::lemma_delivery_pos(db, message_id, recipient);
}

/// Whether a payload is that of a whole message: it has its identities and its sender, names each
/// recipient once, and goes to an inbox or to a request.
pub open spec fn is_whole_message(data: JsonV, vs: Seq<JsonV>) -> bool {
    &&& member_text(data, "message_id"@) matches Some(id) && stable_id(id)
    &&& member_text(data, "correlation_id"@) matches Some(id) && stable_id(id)
    &&& member_text(data, "from"@) is Some
    &&& member(data, "delivered_to"@) == Some(JsonV::Array(vs))
    &&& vs.len() > 0
    &&& forall|i: int| 0 <= i < vs.len() ==> (#[trigger] vs[i]) is Text
    &&& forall|i: int, j: int| 0 <= i < j < vs.len() ==> #[trigger] vs[i] != #[trigger] vs[j]
    &&& member_text(data, "delivery_endpoint"@) matches Some(e) ==> e == "inbox"@ || "request:"@.is_prefix_of(e)
}

proof fn lemma_whole(data: JsonV, vs: Seq<JsonV>, attachments: AttachmentsV)
    requires
        is_whole_message(data, vs),
        member(data, "attachments"@) is None,
    ensures
        message_in(data, attachments) is Ok,
        message_in(data, attachments)->Ok_0.recipients == texts_in(vs),
{
    assert forall|i: int, j: int| 0 <= i < j < texts_in(vs).len() implies #[trigger] texts_in(vs)[i] != #[trigger] texts_in(vs)[j] by {
        assert(vs[i] != vs[j]);
    }
}

/// A whole message that answers nothing is imported, unless its id is taken or its event has one.
pub proof fn whole_messages_are_imported(
    db: &mut HcomDb,
    event_id: i64,
    timestamp: &str,
    data: Json,
    attachments: Attachments,
    r: Result<Option<String>, LifecycleError>,
    vs: Seq<JsonV>,
)
    requires
        call_ensures(HcomDb::project_imported_message, (db, event_id, timestamp, &data, &attachments), r),
        is_whole_message(data@, vs),
        member(data@, "attachments"@) is None,
        member_text(data@, "in_reply_to"@) is None,
        member_text(data@, "retry_of"@) is None,
    ensures
        old(db)@.record(member_text(data@, "message_id"@)->0) is None && old(db)@.record_by_event(event_id as int) is None ==> r matches Ok(None),
        old(db)@.record(member_text(data@, "message_id"@)->0) matches Some(rec) ==> (rec.event_id == event_id ==> r matches Ok(None)),
        old(db)@.record(member_text(data@, "message_id"@)->0) matches Some(rec) ==> (rec.event_id != event_id ==> (r matches Ok(Some(w)) && w@ == "stable message_id collision for "@ + member_text(data@, "message_id"@)->0)),
{
    lemma_whole(data@, vs, attachments@);
    crate::search::first_where_is_least(old(db)@.records.len() as int, record_of(old(db)@.records, member_text(data@, "message_id"@)->0));
}

/// A message that is not whole is rejected, and told what it lacks.
pub proof fn broken_messages_are_rejected(
    db: &mut HcomDb,
    event_id: i64,
    timestamp: &str,
    data: Json,
    attachments: Attachments,
    r: Result<Option<String>, LifecycleError>,
    named: bool,
    vs: Seq<JsonV>,
)
    requires
        call_ensures(HcomDb::project_imported_message, (db, event_id, timestamp, &data, &attachments), r),
        named == (member_text(data@, "message_id"@) is Some && member_text(data@, "correlation_id"@) is Some && member_text(data@, "from"@) is Some && stable_id(member_text(data@, "message_id"@)->0) && stable_id(member_text(data@, "correlation_id"@)->0)),
    ensures
        member_text(data@, "message_id"@) is None ==> (r matches Ok(Some(w)) && w@ == "v1 message is missing message_id"@),
        member_text(data@, "message_id"@) is Some && member_text(data@, "correlation_id"@) is None ==> (r matches Ok(Some(w)) && w@ == "v1 message is missing correlation_id"@),
        member_text(data@, "message_id"@) is Some && member_text(data@, "correlation_id"@) is Some && member_text(data@, "from"@) is None ==> (r matches Ok(Some(w)) && w@ == "v1 message is missing sender"@),
        member_text(data@, "message_id"@) is Some && member_text(data@, "correlation_id"@) is Some && member_text(data@, "from"@) is Some && !named ==> (r matches Ok(Some(w)) && w@ == "v1 message has an invalid stable identity"@),
        named && !(member(data@, "delivered_to"@) matches Some(JsonV::Array(_))) ==> (r matches Ok(Some(w)) && w@ == "v1 message is missing delivered_to"@),
        named && member(data@, "delivered_to"@) == Some(JsonV::Array(vs)) && (exists|i: int| 0 <= i < vs.len() && !((#[trigger] vs[i]) is Text)) ==> (r matches Ok(Some(w)) && w@ == "v1 recipient must be a string"@),
        named && member(data@, "delivered_to"@) == Some(JsonV::Array(vs)) && vs.len() == 0 ==> (r matches Ok(Some(w)) && w@ == "v1 message recipients must be non-empty and unique"@),
        named && member(data@, "delivered_to"@) == Some(JsonV::Array(vs)) && (forall|i: int| 0 <= i < vs.len() ==> (#[trigger] vs[i]) is Text) && (exists|i: int, j: int| 0 <= i < j < vs.len() && #[trigger] vs[i] == #[trigger] vs[j]) ==> (r matches Ok(Some(w)) && w@ == "v1 message recipients must be non-empty and unique"@),
        is_whole_message(data@, vs) && member(data@, "attachments"@) is Some && !(member(data@, "attachments"@)->0 is Array) ==> (r matches Ok(Some(w)) && w@ == "message attachments must be an array"@),
        is_whole_message(data@, vs) && (member(data@, "attachments"@) matches Some(JsonV::Array(_))) && (attachments matches Attachments::Normalized { value, .. } && value@ != member(data@, "attachments"@)->0) ==> (r matches Ok(Some(w)) && w@ == "attachment metadata or digest does not match bounded content"@),
        (r matches Ok(None)) ==> named,
{
    if exists|i: int, j: int| 0 <= i < j < vs.len() && #[trigger] vs[i] == #[trigger] vs[j] {
        let (i, j) = choose|i: int, j: int| 0 <= i < j < vs.len() && #[trigger] vs[i] == #[trigger] vs[j];
        assert(texts_in(vs)[i] == texts_in(vs)[j]);
    }
    if is_whole_message(data@, vs) {
        assert forall|i: int, j: int| 0 <= i < j < texts_in(vs).len() implies #[trigger] texts_in(vs)[i] != #[trigger] texts_in(vs)[j] by {
            assert(vs[i] != vs[j]);
        }
    }
}

proof fn lemma_import_states()
    ensures
        ("queued"@.len() == 6 && "received"@.len() == 8 && "accepted"@.len() == 8 && "acknowledged"@.len() == 12 && "replied"@.len() == 7 && "cancelled"@.len() == 9 && "superseded"@.len() == 10 && "delivery_failed"@.len() == 15 && "cancellation_requested"@.len() == 22 && "supersession_requested"@.len() == 22 && "ask_timed_out"@.len() == 13),
        ("received"@[0] == 'r' && "accepted"@[0] == 'a' && "cancellation_requested"@[0] == 'c' && "supersession_requested"@[0] == 's'),
{
    reveal_strlit("queued");
    reveal_strlit("received");
    reveal_strlit("accepted");
    reveal_strlit("acknowledged");
    reveal_strlit("replied");
    reveal_strlit("cancelled");
    reveal_strlit("superseded");
    reveal_strlit("delivery_failed");
    reveal_strlit("cancellation_requested");
    reveal_strlit("supersession_requested");
    reveal_strlit("ask_timed_out");
}

/// Deliveries go from state to state by these steps, and by no others.
pub proof fn deliveries_go_by_these_steps(prior: &str, next: &str, r: bool)
    requires
        call_ensures(state_transition_allowed, (prior, next), r),
    ensures
        prior@ == "queued"@ ==> r == (next@ == "received"@ || next@ == "replied"@ || next@ == "cancelled"@ || next@ == "superseded"@ || next@ == "delivery_failed"@),
        prior@ == "received"@ ==> r == (next@ == "accepted"@ || next@ == "replied"@ || next@ == "cancellation_requested"@ || next@ == "superseded"@ || next@ == "delivery_failed"@),
        prior@ == "accepted"@ ==> r == (next@ == "acknowledged"@ || next@ == "replied"@ || next@ == "cancellation_requested"@ || next@ == "supersession_requested"@ || next@ == "delivery_failed"@),
        prior@ == "acknowledged"@ ==> r == (next@ == "replied"@ || next@ == "cancellation_requested"@ || next@ == "supersession_requested"@ || next@ == "delivery_failed"@),
        prior@ != "queued"@ && prior@ != "received"@ && prior@ != "accepted"@ && prior@ != "acknowledged"@ ==> !r,
{
    lemma_import_states();
}

/// Whether a state is one that the recipient of a message brings about.
pub open spec fn is_recipients(state: Seq<char>) -> bool {
    state == "received"@ || state == "accepted"@ || state == "acknowledged"@ || state == "replied"@
}

/// Whether a state is one that the sender of a message brings about.
pub open spec fn is_senders(state: Seq<char>) -> bool {
    state == "queued"@ || state == "cancelled"@ || state == "cancellation_requested"@ || state == "superseded"@ || state == "supersession_requested"@ || state == "delivery_failed"@
}

/// A step that another device reports is taken, where the device may speak for the message, the one
/// who acts may act, and the delivery stands where the report says: the delivery is then in the new
/// state, and bears who brought it there and when.
pub proof fn reported_steps_are_taken(
    db: &mut HcomDb,
    event_id: i64,
    timestamp: &str,
    data: Json,
    device_id: &str,
    short_id: &str,
    r: Result<Option<String>, LifecycleError>,
    rec: RecordV,
    own: JsonV,
    row: DeliveryV,
    prior: &str,
    next: &str,
    actor: Seq<char>,
    allowed: bool,
)
    requires
        call_ensures(HcomDb::project_imported_state, (db, event_id, timestamp, &data, device_id, short_id), r),
        call_ensures(state_transition_allowed, (prior, next), allowed),
        prior@ == row.state,
        member_text(data@, "message_id"@) == Some(rec.message_id) && stable_id(rec.message_id),
        member_text(data@, "actor"@) == Some(actor),
        member_text(data@, "new_state"@) == Some(next@) && next@ != "ask_timed_out"@,
        member_text(data@, "recipient"@) == Some(row.recipient_name),
        old(db)@.record(rec.message_id) == Some(rec),
        old(db)@.event(rec.event_id) matches Some(e) && e.data == own,
        old(db)@.delivery(rec.message_id, row.recipient_name) == Some(row),
        (member(own, "_relay"@) is None && crate::names::on_device(row.recipient_name, short_id@)) || (member(own, "_relay"@) matches Some(m) && member(m, "device"@) == Some(JsonV::Text(device_id@))),
        (is_recipients(next@) && actor == row.recipient_name) || (is_senders(next@) && actor == rec.sender_name),
        member_text(data@, "endpoint_epoch"@) == Some(row.endpoint_epoch) || (member_text(data@, "endpoint_epoch"@) is None && row.endpoint_epoch == ""@),
        member_int(data@, "attempt"@) == Some(row.attempt) || (member_int(data@, "attempt"@) is None && row.attempt == 1),
        old(db)@.epoch_or_empty(row.recipient_name) == row.endpoint_epoch || old(db)@.epoch_or_empty(row.recipient_name).len() == 0,
    ensures
        allowed && member_text(data@, "prior_state"@) == Some(row.state) ==> (r matches Ok(None)) && (final(db)@.delivery(rec.message_id, row.recipient_name) matches Some(now) && now.state == next@ && now.last_actor == actor && now.state_event_id == Some(event_id as int) && now.updated_at == timestamp@ && now.attempt == row.attempt && now.endpoint_epoch == row.endpoint_epoch && now.delivery_endpoint == row.delivery_endpoint),
        row.state == next@ ==> (r matches Ok(None)) && final(db)@ == old(db)@,
        row.state != next@ && (!allowed || member_text(data@, "prior_state"@) != Some(row.state)) ==> (r matches Ok(Some(w)) && w@ == "invalid message_state transition "@ + row.state + "->"@ + next@) && final(db)@ == old(db)@,
{
    lemma_import_states();
    let d = old(db)@;
    let n = d.deliveries.len() as int;
    let p = crate::store::delivery_of(d.deliveries, rec.message_id, row.recipient_name);
    crate::search::first_where_is_least(n, p);
    let k = d.delivery_pos(rec.message_id, row.recipient_name)->0;
    if allowed && member_text(data@, "prior_state"@) == Some(row.state) && row.state != next@ {
        let q = crate::store::delivery_of(final(db)@.deliveries, rec.message_id, row.recipient_name);
        assert forall|i: int| 0 <= i < n implies #[trigger] p(i) == q(i) by {}
        crate::search::first_where_agrees(n, p, q);
    }
}

/// A device cannot report a step for a message that is not its own, to a participant that is not;
/// nobody can report a step that is another's; and no step is reported for a message that is not here.
pub proof fn foreign_steps_are_rejected(
    db: &mut HcomDb,
    event_id: i64,
    timestamp: &str,
    data: Json,
    device_id: &str,
    short_id: &str,
    r: Result<Option<String>, LifecycleError>,
    rec: RecordV,
    own: JsonV,
    recipient: Seq<char>,
    next: Seq<char>,
    actor: Seq<char>,
)
    requires
        call_ensures(HcomDb::project_imported_state, (db, event_id, timestamp, &data, device_id, short_id), r),
        member_text(data@, "message_id"@) == Some(rec.message_id) && stable_id(rec.message_id),
        member_text(data@, "actor"@) == Some(actor),
        member_text(data@, "new_state"@) == Some(next) && next != "ask_timed_out"@,
        member_text(data@, "recipient"@) == Some(recipient),
        old(db)@.record(rec.message_id) matches Some(found) ==> found == rec && (old(db)@.event(rec.event_id) matches Some(e) && e.data == own),
    ensures
        old(db)@.record(rec.message_id) is None ==> (r matches Ok(Some(w)) && w@ == "message_state target projection not found"@),
        old(db)@.record(rec.message_id) is Some && (member(own, "_relay"@) is None || (member(own, "_relay"@) matches Some(m) && (member(m, "device"@) matches Some(JsonV::Text(_)))) ) && old(db)@.delivery(rec.message_id, recipient) is None ==> (r matches Ok(Some(w)) && w@ == "message_state recipient projection not found"@),
        old(db)@.record(rec.message_id) is Some && old(db)@.delivery(rec.message_id, recipient) is Some && member(own, "_relay"@) is None && !crate::names::on_device(recipient, short_id@) ==> (r matches Ok(Some(w)) && w@ == "peer cannot mutate an unrelated message projection"@),
        old(db)@.record(rec.message_id) is Some && old(db)@.delivery(rec.message_id, recipient) is Some && (member(own, "_relay"@) matches Some(m) && (member(m, "device"@) matches Some(JsonV::Text(d)) && d != device_id@)) ==> (r matches Ok(Some(w)) && w@ == "peer cannot mutate an unrelated message projection"@),
        (r matches Ok(None)) && is_recipients(next) ==> actor == recipient,
        (r matches Ok(None)) && is_senders(next) ==> actor == rec.sender_name,
        (r matches Ok(None)) ==> is_recipients(next) || is_senders(next),
        !(r matches Ok(None)) ==> final(db)@ == old(db)@,
{
    lemma_import_states();
}

/// A step that is reported without what it must name is rejected, and told what it lacks; so is one that
/// comes from an earlier endpoint or attempt, one that another may take, and a timeout that another
/// device reports.
pub proof fn incomplete_steps_are_rejected(db: &mut HcomDb, event_id: i64, timestamp: &str, data: Json, device_id: &str, short_id: &str, r: Result<Option<String>, LifecycleError>, rec: RecordV, own: JsonV)
    requires
        call_ensures(HcomDb::project_imported_state, (db, event_id, timestamp, &data, device_id, short_id), r),
        old(db)@.record(rec.message_id) == Some(rec) && (old(db)@.event(rec.event_id) matches Some(e) && e.data == own),
        member(own, "_relay"@) matches Some(m) && member(m, "device"@) == Some(JsonV::Text(device_id@)),
    ensures
        ({
            let id = member_text(data@, "message_id"@);
            let actor = member_text(data@, "actor"@);
            let next = member_text(data@, "new_state"@);
            let to = member_text(data@, "recipient"@);
            let ours = id == Some(rec.message_id) && stable_id(rec.message_id);
            &&& id is None ==> (r matches Ok(Some(w)) && w@ == "v1 message_state is missing message_id"@)
            &&& id is Some && !stable_id(id->0) ==> (r matches Ok(Some(w)) && w@ == "v1 message_state has invalid message_id"@)
            &&& ours && actor is None ==> (r matches Ok(Some(w)) && w@ == "v1 message_state is missing actor"@)
            &&& ours && actor is Some && next is None ==> (r matches Ok(Some(w)) && w@ == "v1 message_state is missing new_state"@)
            &&& ours && actor is Some && next == Some("ask_timed_out"@) && actor != Some(rec.sender_name) ==> (r matches Ok(Some(w)) && w@ == "unauthorized ask timeout origin"@)
            &&& ours && actor == Some(rec.sender_name) && next == Some("ask_timed_out"@) ==> (r matches Ok(None)) && final(db)@ == old(db)@
            &&& ours && actor is Some && next is Some && next != Some("ask_timed_out"@) && to is None ==> (r matches Ok(Some(w)) && w@ == "v1 message_state is missing recipient"@)
            &&& ours && actor is Some && next is Some && next != Some("ask_timed_out"@) && to is Some && old(db)@.delivery(rec.message_id, to->0) is Some && !((is_recipients(next->0) && actor == to) || (is_senders(next->0) && actor == Some(rec.sender_name))) ==> (r matches Ok(Some(w)) && w@ == "message_state actor is not authorized"@)
            &&& ours && actor is Some && next is Some && next != Some("ask_timed_out"@) && to is Some && ((is_recipients(next->0) && actor == to) || (is_senders(next->0) && actor == Some(rec.sender_name))) ==> (old(db)@.delivery(rec.message_id, to->0) matches Some(row) ==> {
                let epoch = match member_text(data@, "endpoint_epoch"@) { Some(s) => s, None => ""@ };
                let attempt = match member_int(data@, "attempt"@) { Some(n) => n, None => 1 };
                &&& epoch != row.endpoint_epoch || attempt != row.attempt ==> (r matches Ok(Some(w)) && w@ == "stale endpoint epoch or delivery attempt"@)
                &&& epoch == row.endpoint_epoch && attempt == row.attempt && old(db)@.epoch_or_empty(row.recipient_name).len() > 0 && old(db)@.epoch_or_empty(row.recipient_name) != row.endpoint_epoch ==> (r matches Ok(Some(w)) && w@ == "destination endpoint epoch has rotated"@)
            })
        }),
{
    lemma_import_states();
}

/// An imported reply must answer a request that is here, as the one who got it and to the one who sent
/// it; and a message goes to an inbox or to a request.
pub proof fn imported_replies_must_answer_a_request(db: &mut HcomDb, event_id: i64, timestamp: &str, data: Json, attachments: Attachments, parent: Seq<char>, m: ImportedMessageV, d: DbV)
    requires
        call_ensures(HcomDb::project_imported_message, (db, event_id, timestamp, &data, &attachments), Ok::<Option<String>, LifecycleError>(None)),
        member_text(data@, "in_reply_to"@) == Some(parent),
        message_in(data@, attachments@) == Ok::<ImportedMessageV, Seq<char>>(m),
        message_recorded(old(db)@, m, event_id as int, timestamp@) == ProjectionV::Applied(d),
    ensures
        member_text(data@, "intent"@) == Some("ack"@),
        member_text(data@, "delivery_endpoint"@) == Some("request:"@ + parent),
        d.record(parent) matches Some(rec) && rec.intent == Some("request"@) && rec.expects_reply && member_text(data@, "correlation_id"@) == Some(rec.correlation_id) && member(data@, "delivered_to"@) == Some(JsonV::Array(seq![JsonV::Text(rec.sender_name)])),
{
    reveal_strlit("inbox");
    reveal_strlit("request:");
    assert("inbox"@.len() == 5 && "request:"@.len() == 8);
    let x = delivered(d, m, imported_attempt(d, m), event_id as int, timestamp@, m.recipients.len() as int);
    lemma_delivered_records(d, m, imported_attempt(d, m), event_id as int, timestamp@, m.recipients.len() as int);
    let rec = x.record(parent)->0;
    assert(x.record(parent) == d.record(parent));
    if let Some(JsonV::Array(vs)) = member(data@, "delivered_to"@) {
        assert(texts_in(vs) == seq![rec.sender_name]);
        assert(vs.len() == 1);
        assert(texts_in(vs)[0] == rec.sender_name);
        assert(vs =~= seq![JsonV::Text(rec.sender_name)]);
    }
}

proof fn lemma_delivered_records(db: DbV, m: ImportedMessageV, attempt: int, event_id: int, timestamp: Seq<char>, n: int)
    ensures
        delivered(db, m, attempt, event_id, timestamp, n).records == db.records,
    decreases n,
{
    if n > 0 {
        lemma_delivered_records(db, m, attempt, event_id, timestamp, n - 1);
    }
}

/// A message that goes neither to an inbox nor to a request is rejected, and so is a reply to a request
/// that is not here.
pub proof fn stray_messages_are_rejected(db: &mut HcomDb, event_id: i64, timestamp: &str, data: Json, attachments: Attachments, r: Result<Option<String>, LifecycleError>, vs: Seq<JsonV>)
    requires
        call_ensures(HcomDb::project_imported_message, (db, event_id, timestamp, &data, &attachments), r),
        member_text(data@, "message_id"@) matches Some(a) && stable_id(a),
        member_text(data@, "correlation_id"@) matches Some(b) && stable_id(b),
        member_text(data@, "from"@) is Some,
        member(data@, "delivered_to"@) == Some(JsonV::Array(vs)) && vs.len() > 0,
        forall|i: int| 0 <= i < vs.len() ==> (#[trigger] vs[i]) is Text,
        forall|i: int, j: int| 0 <= i < j < vs.len() ==> (#[trigger] vs[i]) != (#[trigger] vs[j]),
    ensures
        (member_text(data@, "delivery_endpoint"@) matches Some(e) && e != "inbox"@ && !"request:"@.is_prefix_of(e)) ==> (r matches Ok(Some(w)) && w@ == "unsupported logical delivery endpoint"@),
{
    assert forall|i: int, j: int| 0 <= i < j < texts_in(vs).len() implies #[trigger] texts_in(vs)[i] != #[trigger] texts_in(vs)[j] by {
        assert(vs[i] != vs[j]);
    }
}

} // verus!
