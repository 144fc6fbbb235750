//! The message store: the tables that the lifecycle works on, and their invariant.

use crate::json::{
    Json, JsonV, Member, MemberV, lemma_member_at, member, object_view, push_member,
};
use crate::rows::{lemma_views_push, lemma_views_take, lemma_views_update, views};
use crate::search::{first_where, first_where_is_least, position};
use crate::text::{cat, cat3, copy_opt, opt_str, opt_text, same};
use vstd::prelude::*;

verus! {

/// The protocol name carried by every lifecycle event.
pub const MESSAGE_PROTOCOL_V1: &'static str = "hcom-message/v1";

/// A participant: its name, the epoch of its current endpoint, its read cursor, and the device
/// it lives on where that is another one.
#[derive(Debug)]
pub struct Instance {
    pub name: String,
    pub endpoint_epoch: String,
    pub last_event_id: i64,
    pub origin_device_id: Option<String>,
}

/// One entry of the append-only event log.
#[derive(Debug)]
pub struct Event {
    pub id: i64,
    pub timestamp: String,
    pub kind: String,
    pub instance: String,
    pub data: Json,
}

/// The identity of one message.
#[derive(Debug)]
pub struct MessageRecord {
    pub message_id: String,
    pub event_id: i64,
    pub correlation_id: String,
    pub sender_name: String,
    pub sender_session_id: Option<String>,
    pub intent: Option<String>,
    pub expects_reply: bool,
    pub in_reply_to: Option<String>,
    pub legacy_reply_to: Option<String>,
    pub reply_endpoint: Option<String>,
    pub supersedes: Option<String>,
    pub retry_of: Option<String>,
    pub attachments_json: String,
    pub created_at: String,
}

/// The state of one message at one recipient.
#[derive(Debug)]
pub struct Delivery {
    pub message_id: String,
    pub recipient_name: String,
    pub endpoint_epoch: String,
    pub delivery_endpoint: String,
    pub state: String,
    pub attempt: i64,
    pub state_event_id: Option<i64>,
    pub last_actor: String,
    pub updated_at: String,
}

/// A standing watch for the reply to a request.
#[derive(Debug)]
pub struct RequestWatch {
    pub key: String,
    pub request_id: i64,
    pub target: Option<String>,
}

/// One key of the control-plane map.
#[derive(Debug)]
pub struct KvRow {
    pub key: String,
    pub value: String,
}

/// The store. `sequence` is the last event id that was given out, and `notifications` are the
/// ids of events that subscriptions have still to see, in the order in which they are to see
/// them.
#[derive(Debug)]
pub struct HcomDb {
    pub instances: Vec<Instance>,
    pub events: Vec<Event>,
    pub sequence: i64,
    pub records: Vec<MessageRecord>,
    pub deliveries: Vec<Delivery>,
    pub watches: Vec<RequestWatch>,
    pub kv: Vec<KvRow>,
    pub notifications: Vec<i64>,
}

/// The view of an [`Instance`].
pub struct InstanceV {
    pub name: Seq<char>,
    pub endpoint_epoch: Seq<char>,
    pub last_event_id: int,
    pub origin_device_id: Option<Seq<char>>,
}

/// The view of an [`Event`].
pub struct EventV {
    pub id: int,
    pub timestamp: Seq<char>,
    pub kind: Seq<char>,
    pub instance: Seq<char>,
    pub data: JsonV,
}

/// The view of a [`MessageRecord`].
pub struct RecordV {
    pub message_id: Seq<char>,
    pub event_id: int,
    pub correlation_id: Seq<char>,
    pub sender_name: Seq<char>,
    pub sender_session_id: Option<Seq<char>>,
    pub intent: Option<Seq<char>>,
    pub expects_reply: bool,
    pub in_reply_to: Option<Seq<char>>,
    pub legacy_reply_to: Option<Seq<char>>,
    pub reply_endpoint: Option<Seq<char>>,
    pub supersedes: Option<Seq<char>>,
    pub retry_of: Option<Seq<char>>,
    pub attachments_json: Seq<char>,
    pub created_at: Seq<char>,
}

/// The view of a [`Delivery`].
pub struct DeliveryV {
    pub message_id: Seq<char>,
    pub recipient_name: Seq<char>,
    pub endpoint_epoch: Seq<char>,
    pub delivery_endpoint: Seq<char>,
    pub state: Seq<char>,
    pub attempt: int,
    pub state_event_id: Option<int>,
    pub last_actor: Seq<char>,
    pub updated_at: Seq<char>,
}

/// The view of a [`RequestWatch`].
pub struct WatchV {
    pub key: Seq<char>,
    pub request_id: int,
    pub target: Option<Seq<char>>,
}

/// The view of a [`KvRow`].
pub struct KvV {
    pub key: Seq<char>,
    pub value: Seq<char>,
}

/// The view of the store.
#[verifier::ext_equal]
pub struct DbV {
    pub instances: Seq<InstanceV>,
    pub events: Seq<EventV>,
    pub sequence: int,
    pub records: Seq<RecordV>,
    pub deliveries: Seq<DeliveryV>,
    pub watches: Seq<WatchV>,
    pub kv: Seq<KvV>,
    pub notifications: Seq<int>,
}

impl View for Instance {
    type V = InstanceV;

    open spec fn view(&self) -> InstanceV {
        InstanceV {
            name: self.name@,
            endpoint_epoch: self.endpoint_epoch@,
            last_event_id: self.last_event_id as int,
            origin_device_id: opt_text(self.origin_device_id),
        }
    }
}

impl View for Event {
    type V = EventV;

    open spec fn view(&self) -> EventV {
        EventV {
            id: self.id as int,
            timestamp: self.timestamp@,
            kind: self.kind@,
            instance: self.instance@,
            data: self.data@,
        }
    }
}

impl View for MessageRecord {
    type V = RecordV;

    open spec fn view(&self) -> RecordV {
        RecordV {
            message_id: self.message_id@,
            event_id: self.event_id as int,
            correlation_id: self.correlation_id@,
            sender_name: self.sender_name@,
            sender_session_id: opt_text(self.sender_session_id),
            intent: opt_text(self.intent),
            expects_reply: self.expects_reply,
            in_reply_to: opt_text(self.in_reply_to),
            legacy_reply_to: opt_text(self.legacy_reply_to),
            reply_endpoint: opt_text(self.reply_endpoint),
            supersedes: opt_text(self.supersedes),
            retry_of: opt_text(self.retry_of),
            attachments_json: self.attachments_json@,
            created_at: self.created_at@,
        }
    }
}

/// An optional event id as a mathematical integer.
pub open spec fn opt_id(o: Option<i64>) -> Option<int> {
    match o {
        Some(n) => Some(n as int),
        None => None,
    }
}

impl View for Delivery {
    type V = DeliveryV;

    open spec fn view(&self) -> DeliveryV {
        DeliveryV {
            message_id: self.message_id@,
            recipient_name: self.recipient_name@,
            endpoint_epoch: self.endpoint_epoch@,
            delivery_endpoint: self.delivery_endpoint@,
            state: self.state@,
            attempt: self.attempt as int,
            state_event_id: opt_id(self.state_event_id),
            last_actor: self.last_actor@,
            updated_at: self.updated_at@,
        }
    }
}

impl View for RequestWatch {
    type V = WatchV;

    open spec fn view(&self) -> WatchV {
        WatchV {
            key: self.key@,
            request_id: self.request_id as int,
            target: opt_text(self.target),
        }
    }
}

impl View for KvRow {
    type V = KvV;

    open spec fn view(&self) -> KvV {
        KvV { key: self.key@, value: self.value@ }
    }
}

/// The ids of a list as mathematical integers.
pub open spec fn ids(v: Seq<i64>) -> Seq<int> {
    Seq::new(v.len(), |i: int| v[i] as int)
}

impl View for HcomDb {
    type V = DbV;

    open spec fn view(&self) -> DbV {
        DbV {
            instances: views(self.instances@),
            events: views(self.events@),
            sequence: self.sequence as int,
            records: views(self.records@),
            deliveries: views(self.deliveries@),
            watches: views(self.watches@),
            kv: views(self.kv@),
            notifications: ids(self.notifications@),
        }
    }
}

/// The condition that the instance at a position has the name.
pub open spec fn instance_named(rows: Seq<InstanceV>, name: Seq<char>) -> spec_fn(int) -> bool {
    |i: int| rows[i].name == name
}

/// The condition that the event at a position has the id.
pub open spec fn event_with(rows: Seq<EventV>, id: int) -> spec_fn(int) -> bool {
    |i: int| rows[i].id == id
}

/// The condition that the record at a position is of the message.
pub open spec fn record_of(rows: Seq<RecordV>, message_id: Seq<char>) -> spec_fn(int) -> bool {
    |i: int| rows[i].message_id == message_id
}

/// The condition that the record at a position is of the event.
pub open spec fn record_at(rows: Seq<RecordV>, event_id: int) -> spec_fn(int) -> bool {
    |i: int| rows[i].event_id == event_id
}

/// The condition that the delivery at a position is of the message to the recipient.
pub open spec fn delivery_of(
    rows: Seq<DeliveryV>,
    message_id: Seq<char>,
    recipient: Seq<char>,
) -> spec_fn(int) -> bool {
    |i: int| rows[i].message_id == message_id && rows[i].recipient_name == recipient
}

/// The condition that the entry at a position has the key.
pub open spec fn kv_named(rows: Seq<KvV>, key: Seq<char>) -> spec_fn(int) -> bool {
    |i: int| rows[i].key == key
}

impl DbV {
    /// The position of the instance with the name.
    pub open spec fn instance_pos(self, name: Seq<char>) -> Option<int> {
        first_where(self.instances.len() as int, instance_named(self.instances, name))
    }

    /// The endpoint epoch of the instance with the name.
    pub open spec fn epoch_of(self, name: Seq<char>) -> Option<Seq<char>> {
        match self.instance_pos(name) {
            Some(i) => Some(self.instances[i].endpoint_epoch),
            None => None,
        }
    }

    /// The endpoint epoch of the instance with the name, empty where there is none.
    pub open spec fn epoch_or_empty(self, name: Seq<char>) -> Seq<char> {
        match self.epoch_of(name) {
            Some(epoch) => epoch,
            None => Seq::empty(),
        }
    }

    /// The event with the id.
    pub open spec fn event(self, id: int) -> Option<EventV> {
        match first_where(self.events.len() as int, event_with(self.events, id)) {
            Some(i) => Some(self.events[i]),
            None => None,
        }
    }

    /// The record of the message.
    pub open spec fn record(self, message_id: Seq<char>) -> Option<RecordV> {
        match first_where(self.records.len() as int, record_of(self.records, message_id)) {
            Some(i) => Some(self.records[i]),
            None => None,
        }
    }

    /// The record of the message whose event has the id.
    pub open spec fn record_by_event(self, event_id: int) -> Option<RecordV> {
        match first_where(self.records.len() as int, record_at(self.records, event_id)) {
            Some(i) => Some(self.records[i]),
            None => None,
        }
    }

    /// The position of the delivery of the message to the recipient.
    pub open spec fn delivery_pos(self, message_id: Seq<char>, recipient: Seq<char>) -> Option<int> {
        first_where(
            self.deliveries.len() as int,
            delivery_of(self.deliveries, message_id, recipient),
        )
    }

    /// The delivery of the message to the recipient.
    pub open spec fn delivery(self, message_id: Seq<char>, recipient: Seq<char>) -> Option<
        DeliveryV,
    > {
        match self.delivery_pos(message_id, recipient) {
            Some(i) => Some(self.deliveries[i]),
            None => None,
        }
    }

    /// The value under a control-plane key.
    pub open spec fn kv_value(self, key: Seq<char>) -> Option<Seq<char>> {
        match first_where(self.kv.len() as int, kv_named(self.kv, key)) {
            Some(i) => Some(self.kv[i].value),
            None => None,
        }
    }

    /// Event ids grow along the log and none is beyond the sequence.
    pub open spec fn events_wf(self) -> bool {
        &&& forall|i: int, j: int|
            0 <= i < j < self.events.len() ==> (#[trigger] self.events[i]).id < (
            #[trigger] self.events[j]).id
        &&& forall|i: int|
            0 <= i < self.events.len() ==> (#[trigger] self.events[i]).id <= self.sequence
    }

    /// Records stand in the order of their events, each message has one, and none is of an event
    /// beyond the sequence.
    pub open spec fn records_wf(self) -> bool {
        &&& forall|i: int, j: int|
            0 <= i < j < self.records.len() ==> (#[trigger] self.records[i]).event_id < (
            #[trigger] self.records[j]).event_id
        &&& forall|i: int, j: int|
            0 <= i < j < self.records.len() ==> (#[trigger] self.records[i]).message_id != (
            #[trigger] self.records[j]).message_id
        &&& forall|i: int|
            0 <= i < self.records.len() ==> (#[trigger] self.records[i]).event_id <= self.sequence
    }

    /// A message has at most one delivery to a recipient, and every delivery is of a message that
    /// is on record.
    pub open spec fn deliveries_wf(self) -> bool {
        &&& forall|i: int, j: int|
            0 <= i < j < self.deliveries.len() ==> (#[trigger] self.deliveries[i]).message_id != (
            #[trigger] self.deliveries[j]).message_id || self.deliveries[i].recipient_name
                != self.deliveries[j].recipient_name
        &&& forall|i: int|
            0 <= i < self.deliveries.len() ==> self.record(
                (#[trigger] self.deliveries[i]).message_id,
            ) is Some
    }

    /// Each name belongs to one instance.
    pub open spec fn instances_wf(self) -> bool {
        forall|i: int, j: int|
            0 <= i < j < self.instances.len() ==> (#[trigger] self.instances[i]).name != (
            #[trigger] self.instances[j]).name
    }

    /// The invariant of the store.
    pub open spec fn wf(self) -> bool {
        &&& self.events_wf()
        &&& self.records_wf()
        &&& self.deliveries_wf()
        &&& self.instances_wf()
    }

    /// The payload of a message, where it is on record, is a JSON object, or null.
    pub open spec fn readable(self, message_id: Seq<char>) -> bool {
        match self.record(message_id) {
            Some(r) => match self.event(r.event_id) {
                Some(e) => e.data is Object || e.data is Null,
                None => true,
            },
            None => true,
        }
    }

    /// The payload of every message on record is a JSON object, or null.
    pub open spec fn payloads_wf(self) -> bool {
        forall|i: int|
            0 <= i < self.records.len() ==> match self.event(
                (#[trigger] self.records[i]).event_id,
            ) {
                Some(e) => e.data is Object || e.data is Null,
                None => true,
            }
    }
}

/// What went wrong.
#[derive(Debug, Clone, Copy, PartialEq, Eq, Structural)]
pub enum ErrorKind {
    RecipientsNotUnique,
    RetryTargetNotFound,
    RetryNotSender,
    RetryOfReply,
    SupersedeTargetNotFound,
    SupersedeNotSender,
    SupersedeOfReply,
    SupersedeRecipients,
    ReplyTargetNotFound,
    ReplyTargetNotRequest,
    ReplyIntent,
    ReplyCorrelation,
    ReplyRecipients,
    ReplyModeInvalid,
    ReplyModeNotText,
    ReplyEndpoint,
    ReplyLegacy,
    ReplyNotRecipient,
    NotReplyable,
    MessageExists,
    EventHasMessage,
    NoActiveTransition,
    EventIdsExhausted,
    DeliveryNotFound,
    ReceiptActor,
    StaleEpoch,
    UnsupportedReceipt,
    NotReceiptable,
    RecipientUnknown,
    StaleQueued,
    NotAcknowledgeable,
    CancelNotSender,
    WaitNotSender,
    MessageNotFound,
    ReplyWithoutId,
    ColumnNotText,
    AttemptsExhausted,
}

/// A refusal, with the value it speaks of where there is one.
#[derive(Debug)]
pub struct LifecycleError {
    pub kind: ErrorKind,
    pub detail: String,
}

/// The view of a [`LifecycleError`].
pub struct ErrorV {
    pub kind: ErrorKind,
    pub detail: Seq<char>,
}

impl View for LifecycleError {
    type V = ErrorV;

    open spec fn view(&self) -> ErrorV {
        ErrorV { kind: self.kind, detail: self.detail@ }
    }
}

/// A refusal that speaks of no value.
pub open spec fn plain(kind: ErrorKind) -> ErrorV {
    ErrorV { kind, detail: Seq::empty() }
}

/// A refusal that speaks of a value.
pub open spec fn about(kind: ErrorKind, detail: Seq<char>) -> ErrorV {
    ErrorV { kind, detail }
}

/// A refusal that speaks of no value.
pub fn refuse(kind: ErrorKind) -> (e: LifecycleError)
    ensures
        e@ == plain(kind),
{
    let detail: String = String::new();
    assert(detail@ =~= Seq::<char>::empty());
    LifecycleError { kind, detail }
}

/// A refusal that speaks of a value.
pub fn refuse_about(kind: ErrorKind, detail: &str) -> (e: LifecycleError)
    ensures
        e@ == about(kind, detail@),
{
    LifecycleError { kind, detail: detail.to_owned() }
}

/// The words of a refusal.
pub open spec fn refusal_text(e: ErrorV) -> Seq<char> {
    match e.kind {
        ErrorKind::RecipientsNotUnique => "message recipients must be unique"@,
        ErrorKind::RetryTargetNotFound => "retry target not found"@,
        ErrorKind::RetryNotSender => "retry is allowed only for the original sender"@,
        ErrorKind::RetryOfReply => "replies cannot be retried in message lifecycle V1"@,
        ErrorKind::SupersedeTargetNotFound => "supersede target not found"@,
        ErrorKind::SupersedeNotSender => "supersede is allowed only for the original sender"@,
        ErrorKind::SupersedeOfReply => "replies cannot be superseded in message lifecycle V1"@,
        ErrorKind::SupersedeRecipients => "supersede must preserve the identical recipient set"@,
        ErrorKind::ReplyTargetNotFound => "reply target not found"@,
        ErrorKind::ReplyTargetNotRequest => "reply target must be a request that expects a reply"@,
        ErrorKind::ReplyIntent => "request replies must use ack intent"@,
        ErrorKind::ReplyCorrelation => "reply correlation does not match request"@,
        ErrorKind::ReplyRecipients => "reply must address exactly the original sender"@,
        ErrorKind::ReplyModeInvalid => "reply target has invalid reply mode: "@ + e.detail,
        ErrorKind::ReplyModeNotText => "reply mode is not a text"@,
        ErrorKind::ReplyEndpoint => "reply delivery endpoint does not match request reply mode"@,
        ErrorKind::ReplyLegacy => "reply must retain the parent event ID as legacy reply_to"@,
        ErrorKind::ReplyNotRecipient => "reply actor is not a recipient of the request"@,
        ErrorKind::NotReplyable => "request is no longer replyable ("@ + e.detail + ")"@,
        ErrorKind::MessageExists => "UNIQUE constraint failed: message_records.message_id"@,
        ErrorKind::EventHasMessage => "UNIQUE constraint failed: message_records.event_id"@,
        ErrorKind::NoActiveTransition => "supersede requires at least one active delivery transition"@,
        ErrorKind::EventIdsExhausted => "database or disk is full"@,
        ErrorKind::DeliveryNotFound => "message delivery not found"@,
        ErrorKind::ReceiptActor => "delivery receipts may only be written by the recipient"@,
        ErrorKind::StaleEpoch => "stale endpoint epoch"@,
        ErrorKind::UnsupportedReceipt => "unsupported receipt state: "@ + e.detail,
        ErrorKind::NotReceiptable => "delivery is not receiptable ("@ + e.detail + ")"@,
        ErrorKind::RecipientUnknown => "verified inbox recipient not found"@,
        ErrorKind::StaleQueued => "queued delivery belongs to a stale endpoint; fetch before ACK"@,
        ErrorKind::NotAcknowledgeable => "delivery is not inbox-acknowledgeable ("@ + e.detail + ")"@,
        ErrorKind::CancelNotSender => "cancel is allowed only for the original sender"@,
        ErrorKind::WaitNotSender => "wait is allowed only for the original sender"@,
        ErrorKind::MessageNotFound => "message not found"@,
        ErrorKind::ReplyWithoutId => "reply projection missing message_id"@,
        ErrorKind::ColumnNotText => "column is not a text"@,
        ErrorKind::AttemptsExhausted => "delivery attempt is out of range"@,
    }
}

impl LifecycleError {
    /// The words of the refusal.
    pub fn message(&self) -> (r: String)
        ensures
            r@ == refusal_text(self@),
    {
        match self.kind {
            ErrorKind::RecipientsNotUnique => "message recipients must be unique".to_owned(),
            ErrorKind::RetryTargetNotFound => "retry target not found".to_owned(),
            ErrorKind::RetryNotSender => "retry is allowed only for the original sender".to_owned(),
            ErrorKind::RetryOfReply => "replies cannot be retried in message lifecycle V1".to_owned(),
            ErrorKind::SupersedeTargetNotFound => "supersede target not found".to_owned(),
            ErrorKind::SupersedeNotSender => "supersede is allowed only for the original sender".to_owned(),
            ErrorKind::SupersedeOfReply => "replies cannot be superseded in message lifecycle V1".to_owned(),
            ErrorKind::SupersedeRecipients => "supersede must preserve the identical recipient set".to_owned(),
            ErrorKind::ReplyTargetNotFound => "reply target not found".to_owned(),
            ErrorKind::ReplyTargetNotRequest => "reply target must be a request that expects a reply".to_owned(),
            ErrorKind::ReplyIntent => "request replies must use ack intent".to_owned(),
            ErrorKind::ReplyCorrelation => "reply correlation does not match request".to_owned(),
            ErrorKind::ReplyRecipients => "reply must address exactly the original sender".to_owned(),
            ErrorKind::ReplyModeInvalid => cat("reply target has invalid reply mode: ", self.detail.as_str()),
            ErrorKind::ReplyModeNotText => "reply mode is not a text".to_owned(),
            ErrorKind::ReplyEndpoint => "reply delivery endpoint does not match request reply mode".to_owned(),
            ErrorKind::ReplyLegacy => "reply must retain the parent event ID as legacy reply_to".to_owned(),
            ErrorKind::ReplyNotRecipient => "reply actor is not a recipient of the request".to_owned(),
            ErrorKind::NotReplyable => cat3("request is no longer replyable (", self.detail.as_str(), ")"),
            ErrorKind::MessageExists => "UNIQUE constraint failed: message_records.message_id".to_owned(),
            ErrorKind::EventHasMessage => "UNIQUE constraint failed: message_records.event_id".to_owned(),
            ErrorKind::NoActiveTransition => "supersede requires at least one active delivery transition".to_owned(),
            ErrorKind::EventIdsExhausted => "database or disk is full".to_owned(),
            ErrorKind::DeliveryNotFound => "message delivery not found".to_owned(),
            ErrorKind::ReceiptActor => "delivery receipts may only be written by the recipient".to_owned(),
            ErrorKind::StaleEpoch => "stale endpoint epoch".to_owned(),
            ErrorKind::UnsupportedReceipt => cat("unsupported receipt state: ", self.detail.as_str()),
            ErrorKind::NotReceiptable => cat3("delivery is not receiptable (", self.detail.as_str(), ")"),
            ErrorKind::RecipientUnknown => "verified inbox recipient not found".to_owned(),
            ErrorKind::StaleQueued => "queued delivery belongs to a stale endpoint; fetch before ACK".to_owned(),
            ErrorKind::NotAcknowledgeable => cat3("delivery is not inbox-acknowledgeable (", self.detail.as_str(), ")"),
            ErrorKind::CancelNotSender => "cancel is allowed only for the original sender".to_owned(),
            ErrorKind::WaitNotSender => "wait is allowed only for the original sender".to_owned(),
            ErrorKind::MessageNotFound => "message not found".to_owned(),
            ErrorKind::ReplyWithoutId => "reply projection missing message_id".to_owned(),
            ErrorKind::ColumnNotText => "column is not a text".to_owned(),
            ErrorKind::AttemptsExhausted => "delivery attempt is out of range".to_owned(),
        }
    }
}

/// Whether an outcome is the one specified.
pub open spec fn agrees<T>(r: Result<T, LifecycleError>, s: Result<T, ErrorV>) -> bool {
    match r {
        Ok(x) => s == Ok::<T, ErrorV>(x),
        Err(e) => s == Err::<T, ErrorV>(e@),
    }
}

/// Whether an outcome that leaves a store behind is the one specified.
pub open spec fn leaves<T>(r: Result<T, LifecycleError>, db: DbV, s: Result<DbV, ErrorV>) -> bool {
    match r {
        Ok(_) => s == Ok::<DbV, ErrorV>(db),
        Err(e) => s == Err::<DbV, ErrorV>(e@),
    }
}

/// The store after an event is logged, and the id it gets.
pub open spec fn event_logged(
    db: DbV,
    timestamp: Seq<char>,
    kind: Seq<char>,
    instance: Seq<char>,
    data: JsonV,
) -> Result<(DbV, int), ErrorV> {
    if db.sequence >= i64::MAX {
        Err(plain(ErrorKind::EventIdsExhausted))
    } else {
        let id = db.sequence + 1;
        Ok(
            (
                DbV {
                    sequence: id,
                    events: db.events.push(EventV { id, timestamp, kind, instance, data }),
                    ..db
                },
                id,
            ),
        )
    }
}

/// The ids after `from`, up to `to`.
pub open spec fn id_range(from: int, to: int) -> Seq<int> {
    Seq::new((to - from) as nat, |i: int| from + 1 + i)
}

/// The store with the events after `from` queued for the subscriptions.
pub open spec fn notified_after(db: DbV, from: int) -> DbV {
    DbV { notifications: db.notifications + id_range(from, db.sequence), ..db }
}

/// One state transition of a delivery, as it is logged.
pub struct TransitionV {
    pub message_id: Seq<char>,
    pub recipient: Seq<char>,
    pub endpoint_epoch: Seq<char>,
    pub prior_state: Option<Seq<char>>,
    pub new_state: Seq<char>,
    pub attempt: int,
    pub actor: Seq<char>,
    pub reason: Seq<char>,
}

/// The payload of the event that logs a transition.
pub open spec fn transition_data(t: TransitionV, timestamp: Seq<char>) -> JsonV {
    JsonV::Object(
        seq![
            MemberV { key: "actor"@, value: JsonV::Text(t.actor) },
            MemberV { key: "attempt"@, value: JsonV::Int(t.attempt) },
            MemberV { key: "endpoint_epoch"@, value: JsonV::Text(t.endpoint_epoch) },
            MemberV { key: "message_id"@, value: JsonV::Text(t.message_id) },
            MemberV { key: "new_state"@, value: JsonV::Text(t.new_state) },
            MemberV { key: "prior_state"@, value: crate::json::text_or_null(t.prior_state) },
            MemberV { key: "protocol"@, value: JsonV::Text(MESSAGE_PROTOCOL_V1@) },
            MemberV { key: "reason"@, value: JsonV::Text(t.reason) },
            MemberV { key: "recipient"@, value: JsonV::Text(t.recipient) },
            MemberV { key: "timestamp"@, value: JsonV::Text(timestamp) },
        ],
    )
}

/// The store after a transition is logged under an instance, and the id of the event.
pub open spec fn transition_logged(
    db: DbV,
    t: TransitionV,
    timestamp: Seq<char>,
    instance: Seq<char>,
) -> Result<(DbV, int), ErrorV> {
    event_logged(db, timestamp, "message_state"@, instance, transition_data(t, timestamp))
}

/// One state transition of a delivery.
pub struct Transition<'a> {
    pub message_id: &'a str,
    pub recipient: &'a str,
    pub endpoint_epoch: &'a str,
    pub prior_state: Option<&'a str>,
    pub new_state: &'a str,
    pub attempt: i64,
    pub actor: &'a str,
    pub reason: &'a str,
}

impl<'a> View for Transition<'a> {
    type V = TransitionV;

    open spec fn view(&self) -> TransitionV {
        TransitionV {
            message_id: self.message_id@,
            recipient: self.recipient@,
            endpoint_epoch: self.endpoint_epoch@,
            prior_state: opt_str(self.prior_state),
            new_state: self.new_state@,
            attempt: self.attempt as int,
            actor: self.actor@,
            reason: self.reason@,
        }
    }
}

fn transition_json(t: &Transition<'_>, timestamp: &str) -> (r: Json)
    ensures
        r@ == transition_data(t@, timestamp@),
{
    let mut v: Vec<Member> = Vec::new();
    push_member(&mut v, "actor", Json::text(t.actor));
    push_member(&mut v, "attempt", Json::Int(t.attempt));
    push_member(&mut v, "endpoint_epoch", Json::text(t.endpoint_epoch));
    push_member(&mut v, "message_id", Json::text(t.message_id));
    push_member(&mut v, "new_state", Json::text(t.new_state));
    push_member(&mut v, "prior_state", Json::opt_text(t.prior_state));
    push_member(&mut v, "protocol", Json::text(MESSAGE_PROTOCOL_V1));
    push_member(&mut v, "reason", Json::text(t.reason));
    push_member(&mut v, "recipient", Json::text(t.recipient));
    push_member(&mut v, "timestamp", Json::text(timestamp));
    proof {
        crate::json::lemma_object(v);
        assert(object_view(v@) =~= transition_data(t@, timestamp@)->Object_0);
    }
    Json::Object(v)
}

/// Appending an id to a list of ids.
pub proof fn lemma_ids_push(v: Seq<i64>, n: i64)
    ensures
        ids(v.push(n)) == ids(v).push(n as int),
{
    assert(ids(v.push(n)) =~= ids(v).push(n as int));
}

impl Delivery {
    /// A copy of the row.
    pub fn duplicate(&self) -> (r: Delivery)
        ensures
            r@ == self@,
    {
        Delivery {
            message_id: self.message_id.clone(),
            recipient_name: self.recipient_name.clone(),
            endpoint_epoch: self.endpoint_epoch.clone(),
            delivery_endpoint: self.delivery_endpoint.clone(),
            state: self.state.clone(),
            attempt: self.attempt,
            state_event_id: self.state_event_id,
            last_actor: self.last_actor.clone(),
            updated_at: self.updated_at.clone(),
        }
    }
}

impl Instance {
    /// A copy of the row.
    pub fn duplicate(&self) -> (r: Instance)
        ensures
            r@ == self@,
    {
        Instance {
            name: self.name.clone(),
            endpoint_epoch: self.endpoint_epoch.clone(),
            last_event_id: self.last_event_id,
            origin_device_id: copy_opt(&self.origin_device_id),
        }
    }
}

impl Event {
    /// A copy of the row.
    pub fn duplicate(&self) -> (r: Event)
        ensures
            r@ == self@,
    {
        Event {
            id: self.id,
            timestamp: self.timestamp.clone(),
            kind: self.kind.clone(),
            instance: self.instance.clone(),
            data: self.data.duplicate(),
        }
    }
}

impl MessageRecord {
    /// A copy of the row.
    pub fn duplicate(&self) -> (r: MessageRecord)
        ensures
            r@ == self@,
    {
        MessageRecord {
            message_id: self.message_id.clone(),
            event_id: self.event_id,
            correlation_id: self.correlation_id.clone(),
            sender_name: self.sender_name.clone(),
            sender_session_id: copy_opt(&self.sender_session_id),
            intent: copy_opt(&self.intent),
            expects_reply: self.expects_reply,
            in_reply_to: copy_opt(&self.in_reply_to),
            legacy_reply_to: copy_opt(&self.legacy_reply_to),
            reply_endpoint: copy_opt(&self.reply_endpoint),
            supersedes: copy_opt(&self.supersedes),
            retry_of: copy_opt(&self.retry_of),
            attachments_json: self.attachments_json.clone(),
            created_at: self.created_at.clone(),
        }
    }
}

impl RequestWatch {
    /// A copy of the row.
    pub fn duplicate(&self) -> (r: RequestWatch)
        ensures
            r@ == self@,
    {
        RequestWatch {
            key: self.key.clone(),
            request_id: self.request_id,
            target: copy_opt(&self.target),
        }
    }
}

fn copy_records(v: &Vec<MessageRecord>) -> (r: Vec<MessageRecord>)
    ensures
        views(r@) == views(v@),
{
    let mut out: Vec<MessageRecord> = Vec::new();
    let mut i: usize = 0;
    while i < v.len()
        invariant
            i <= v@.len(),
            views(out@) == views(v@).take(i as int),
        decreases v.len() - i,
    {
        let row: MessageRecord = v[i].duplicate();
        proof {
            assert(views(v@).take(i as int + 1) =~= views(v@).take(i as int).push(v@[i as int]@));
            lemma_views_push(out@, row);
        }
        out.push(row);
        i += 1;
    }
    assert(views(v@).take(v@.len() as int) =~= views(v@));
    out
}

fn copy_deliveries(v: &Vec<Delivery>) -> (r: Vec<Delivery>)
    ensures
        views(r@) == views(v@),
{
    let mut out: Vec<Delivery> = Vec::new();
    let mut i: usize = 0;
    while i < v.len()
        invariant
            i <= v@.len(),
            views(out@) == views(v@).take(i as int),
        decreases v.len() - i,
    {
        let row: Delivery = v[i].duplicate();
        proof {
            assert(views(v@).take(i as int + 1) =~= views(v@).take(i as int).push(v@[i as int]@));
            lemma_views_push(out@, row);
        }
        out.push(row);
        i += 1;
    }
    assert(views(v@).take(v@.len() as int) =~= views(v@));
    out
}

/// A point in time that the store can go back to.
pub struct Savepoint {
    events: usize,
    notifications: usize,
    sequence: i64,
    records: Vec<MessageRecord>,
    deliveries: Vec<Delivery>,
    start: Ghost<DbV>,
}

impl Savepoint {
    /// The store as it was.
    pub closed spec fn start(self) -> DbV {
        self.start@
    }

    /// What was kept is enough to go back.
    pub closed spec fn wf(self) -> bool {
        &&& self.events == self.start@.events.len()
        &&& self.notifications == self.start@.notifications.len()
        &&& self.sequence == self.start@.sequence
        &&& views(self.records@) == self.start@.records
        &&& views(self.deliveries@) == self.start@.deliveries
    }
}

/// Whether a store differs from an earlier one in records, deliveries, and what was appended to
/// the event log and to the notifications only.
pub open spec fn extends(start: DbV, db: DbV) -> bool {
    &&& start.events.is_prefix_of(db.events)
    &&& start.notifications.is_prefix_of(db.notifications)
    &&& start.instances == db.instances
    &&& start.watches == db.watches
    &&& start.kv == db.kv
}

/// The store after the delivery at a position moves to a state, and the id of the event that
/// logs it.
pub open spec fn moved(
    db: DbV,
    k: int,
    next: Seq<char>,
    actor: Seq<char>,
    reason: Seq<char>,
    now: Seq<char>,
    instance: Seq<char>,
) -> Result<(DbV, int), ErrorV> {
    let row = db.deliveries[k];
    let t = TransitionV {
        message_id: row.message_id,
        recipient: row.recipient_name,
        endpoint_epoch: row.endpoint_epoch,
        prior_state: Some(row.state),
        new_state: next,
        attempt: row.attempt,
        actor,
        reason,
    };
    match transition_logged(db, t, now, instance) {
        Err(e) => Err(e),
        Ok((d, id)) => Ok(
            (
                DbV {
                    deliveries: d.deliveries.update(
                        k,
                        DeliveryV {
                            state: next,
                            state_event_id: Some(id),
                            last_actor: actor,
                            updated_at: now,
                            ..row
                        },
                    ),
                    ..d
                },
                id,
            ),
        ),
    }
}

impl HcomDb {
    /// Moves the delivery at a position to a state and logs it.
    pub fn move_delivery(
        &mut self,
        k: usize,
        next: &str,
        actor: &str,
        reason: &str,
        now: &str,
        instance: &str,
    ) -> (r: Result<i64, LifecycleError>)
        requires
            k < old(self).deliveries@.len(),
        ensures
            final(self).deliveries@.len() == old(self).deliveries@.len(),
            match r {
                Ok(id) => moved(old(self)@, k as int, next@, actor@, reason@, now@, instance@)
                    == Ok::<(DbV, int), ErrorV>((final(self)@, id as int)),
                Err(e) => moved(old(self)@, k as int, next@, actor@, reason@, now@, instance@)
                    == Err::<(DbV, int), ErrorV>(e@) && final(self)@ == old(self)@,
            },
    {
        let mut row: Delivery = self.deliveries[k].duplicate();
        let id: i64 = match self.append_state_transition(
            &Transition {
                message_id: row.message_id.as_str(),
                recipient: row.recipient_name.as_str(),
                endpoint_epoch: row.endpoint_epoch.as_str(),
                prior_state: Some(row.state.as_str()),
                new_state: next,
                attempt: row.attempt,
                actor,
                reason,
            },
            now,
            instance,
        ) {
            Ok(id) => id,
            Err(e) => {
                assert(views(self.deliveries@).len() == views(old(self).deliveries@).len());
                return Err(e);
            },
        };
        row.state = next.to_owned();
        row.state_event_id = Some(id);
        row.last_actor = actor.to_owned();
        row.updated_at = now.to_owned();
        proof {
            assert(self.deliveries@.len() == views(self.deliveries@).len());
            assert(old(self).deliveries@.len() == views(old(self).deliveries@).len());
            lemma_views_update(self.deliveries@, k as int, row);
        }
        self.deliveries.set(k, row);
        Ok(id)
    }

    /// A point that the store can go back to.
    pub fn savepoint(&self) -> (r: Savepoint)
        ensures
            r.wf(),
            r.start() == self@,
    {
        Savepoint {
            events: self.events.len(),
            notifications: self.notifications.len(),
            sequence: self.sequence,
            records: copy_records(&self.records),
            deliveries: copy_deliveries(&self.deliveries),
            start: Ghost(self@),
        }
    }

    /// Goes back to a savepoint.
    pub fn roll_back(&mut self, point: Savepoint)
        requires
            point.wf(),
            extends(point.start(), old(self)@),
        ensures
            final(self)@ == point.start(),
    {
        let ghost start = point.start();
        proof {
            lemma_views_take(self.events@, point.events as int);
            assert(views(self.events@).take(point.events as int) =~= start.events);
            assert(ids(self.notifications@.take(point.notifications as int)) =~= start.notifications) by {
                assert(self@.notifications.take(point.notifications as int) =~= start.notifications);
                assert(ids(self.notifications@.take(point.notifications as int)) =~= ids(
                    self.notifications@,
                ).take(point.notifications as int));
            }
        }
        self.events.truncate(point.events);
        self.notifications.truncate(point.notifications);
        self.sequence = point.sequence;
        self.records = point.records;
        self.deliveries = point.deliveries;
        assert(self@ =~= start);
    }

    /// The position of the instance with the name.
    pub fn find_instance(&self, name: &str) -> (r: Option<usize>)
        ensures
            position(r) == self@.instance_pos(name@),
            r matches Some(i) ==> i < self.instances@.len(),
    {
        let ghost p = instance_named(self@.instances, name@);
        let mut found: Option<usize> = None;
        let mut i: usize = 0;
        while i < self.instances.len()
            invariant
                i <= self.instances@.len(),
                p == instance_named(self@.instances, name@),
                position(found) == first_where(i as int, p),
                found matches Some(k) ==> k < i,
            decreases self.instances.len() - i,
        {
            if found.is_none() && same(self.instances[i].name.as_str(), name) {
                found = Some(i);
            }
            i += 1;
        }
        found
    }

    /// The position of the event with the id.
    pub fn find_event(&self, id: i64) -> (r: Option<usize>)
        ensures
            position(r) == first_where(self@.events.len() as int, event_with(self@.events, id as int)),
            r matches Some(i) ==> i < self.events@.len() && self@.event(id as int) == Some(
                self.events@[i as int]@,
            ),
            r is None ==> self@.event(id as int) is None,
    {
        let ghost p = event_with(self@.events, id as int);
        let mut found: Option<usize> = None;
        let mut i: usize = 0;
        while i < self.events.len()
            invariant
                i <= self.events@.len(),
                p == event_with(self@.events, id as int),
                position(found) == first_where(i as int, p),
                found matches Some(k) ==> k < i,
            decreases self.events.len() - i,
        {
            if found.is_none() && self.events[i].id == id {
                found = Some(i);
            }
            i += 1;
        }
        found
    }

    /// Tests whether the payload of a message, where it is on record, is a JSON object, or null.
    pub fn is_readable(&self, message_id: &str) -> (r: bool)
        ensures
            r == self@.readable(message_id@),
    {
        match self.find_record(message_id) {
            None => true,
            Some(i) => match self.find_event(self.records[i].event_id) {
                None => true,
                Some(k) => {
                    assert(self@.events[k as int] == self.events@[k as int]@);
                    match &self.events[k].data {
                        Json::Object(_) => true,
                        Json::Null => true,
                        _ => false,
                    }
                },
            },
        }
    }

    /// The position of the record of the message.
    pub fn find_record(&self, message_id: &str) -> (r: Option<usize>)
        ensures
            position(r) == first_where(
                self@.records.len() as int,
                record_of(self@.records, message_id@),
            ),
            r matches Some(i) ==> i < self.records@.len() && self@.record(message_id@) == Some(
                self.records@[i as int]@,
            ),
            r is None ==> self@.record(message_id@) is None,
    {
        let ghost p = record_of(self@.records, message_id@);
        let mut found: Option<usize> = None;
        let mut i: usize = 0;
        while i < self.records.len()
            invariant
                i <= self.records@.len(),
                p == record_of(self@.records, message_id@),
                position(found) == first_where(i as int, p),
                found matches Some(k) ==> k < i,
            decreases self.records.len() - i,
        {
            if found.is_none() && same(self.records[i].message_id.as_str(), message_id) {
                found = Some(i);
            }
            i += 1;
        }
        found
    }

    /// The position of the record of the message whose event has the id.
    pub fn find_record_by_event(&self, event_id: i64) -> (r: Option<usize>)
        ensures
            position(r) == first_where(
                self@.records.len() as int,
                record_at(self@.records, event_id as int),
            ),
            r matches Some(i) ==> i < self.records@.len() && self@.record_by_event(event_id as int)
                == Some(self.records@[i as int]@),
            r is None ==> self@.record_by_event(event_id as int) is None,
    {
        let ghost p = record_at(self@.records, event_id as int);
        let mut found: Option<usize> = None;
        let mut i: usize = 0;
        while i < self.records.len()
            invariant
                i <= self.records@.len(),
                p == record_at(self@.records, event_id as int),
                position(found) == first_where(i as int, p),
                found matches Some(k) ==> k < i,
            decreases self.records.len() - i,
        {
            if found.is_none() && self.records[i].event_id == event_id {
                found = Some(i);
            }
            i += 1;
        }
        found
    }

    /// The position of the delivery of the message to the recipient.
    pub fn find_delivery(&self, message_id: &str, recipient: &str) -> (r: Option<usize>)
        ensures
            position(r) == self@.delivery_pos(message_id@, recipient@),
            r matches Some(i) ==> i < self.deliveries@.len() && self@.delivery(
                message_id@,
                recipient@,
            ) == Some(self.deliveries@[i as int]@),
            r is None ==> self@.delivery(message_id@, recipient@) is None,
    {
        let ghost p = delivery_of(self@.deliveries, message_id@, recipient@);
        let mut found: Option<usize> = None;
        let mut i: usize = 0;
        while i < self.deliveries.len()
            invariant
                i <= self.deliveries@.len(),
                p == delivery_of(self@.deliveries, message_id@, recipient@),
                position(found) == first_where(i as int, p),
                found matches Some(k) ==> k < i,
            decreases self.deliveries.len() - i,
        {
            if found.is_none() && same(self.deliveries[i].message_id.as_str(), message_id) && same(
                self.deliveries[i].recipient_name.as_str(),
                recipient,
            ) {
                found = Some(i);
            }
            i += 1;
        }
        found
    }

    /// The endpoint epoch of an instance, empty where there is none.
    pub fn snapshot_epoch(&self, recipient: &str) -> (r: String)
        ensures
            r@ == self@.epoch_or_empty(recipient@),
    {
        match self.find_instance(recipient) {
            Some(i) => self.instances[i].endpoint_epoch.clone(),
            None => {
                let r: String = String::new();
                assert(r@ =~= Seq::<char>::empty());
                r
            },
        }
    }

    /// Logs an event under the next id.
    pub fn insert_event(&mut self, timestamp: &str, kind: &str, instance: &str, data: Json) -> (r:
        Result<i64, LifecycleError>)
        ensures
            match r {
                Ok(id) => event_logged(old(self)@, timestamp@, kind@, instance@, data@) == Ok::<
                    (DbV, int),
                    ErrorV,
                >((final(self)@, id as int)),
                Err(e) => event_logged(old(self)@, timestamp@, kind@, instance@, data@) == Err::<
                    (DbV, int),
                    ErrorV,
                >(e@) && final(self)@ == old(self)@,
            },
    {
        if self.sequence == i64::MAX {
            return Err(refuse(ErrorKind::EventIdsExhausted));
        }
        let id: i64 = self.sequence + 1;
        let row: Event = Event {
            id,
            timestamp: timestamp.to_owned(),
            kind: kind.to_owned(),
            instance: instance.to_owned(),
            data,
        };
        proof {
            lemma_views_push(self.events@, row);
        }
        self.events.push(row);
        self.sequence = id;
        Ok(id)
    }

    /// Logs a state transition of a delivery.
    pub fn append_state_transition(&mut self, t: &Transition<'_>, timestamp: &str, instance: &str) -> (r:
        Result<i64, LifecycleError>)
        ensures
            match r {
                Ok(id) => transition_logged(old(self)@, t@, timestamp@, instance@) == Ok::<
                    (DbV, int),
                    ErrorV,
                >((final(self)@, id as int)),
                Err(e) => transition_logged(old(self)@, t@, timestamp@, instance@) == Err::<
                    (DbV, int),
                    ErrorV,
                >(e@) && final(self)@ == old(self)@,
            },
    {
        let data: Json = transition_json(t, timestamp);
        self.insert_event(timestamp, "message_state", instance, data)
    }

    /// Queues the events after `from`, up to the last one logged, for the subscriptions.
    pub fn notify_after(&mut self, from: i64)
        requires
            from <= old(self).sequence,
        ensures
            final(self)@ == notified_after(old(self)@, from as int),
    {
        let ghost start = self@;
        let mut id: i64 = from;
        assert(self@.notifications =~= start.notifications + id_range(from as int, from as int));
        while id < self.sequence
            invariant
                from <= id <= self.sequence,
                self@ == (DbV {
                    notifications: start.notifications + id_range(from as int, id as int),
                    ..start
                }),
            decreases self.sequence - id,
        {
            id = id + 1;
            proof {
                assert(start.notifications + id_range(from as int, id as int) =~= (
                start.notifications + id_range(from as int, id - 1)).push(id as int));
            }
            self.notify(id);
        }
    }

    /// Queues an event for the subscriptions.
    pub fn notify(&mut self, id: i64)
        ensures
            final(self)@ == (DbV { notifications: old(self)@.notifications.push(id as int), ..old(self)@ }),
    {
        proof {
            lemma_ids_push(self.notifications@, id);
        }
        self.notifications.push(id);
    }
}

/// The payload that logs a transition names the message, the recipient, where the delivery stood and
/// where it stands now, who moved it, why, and when.
pub proof fn transitions_are_logged_in_full(t: TransitionV, timestamp: Seq<char>)
    ensures
        ({
            let data = transition_data(t, timestamp);
            &&& member(data, "actor"@) == Some(JsonV::Text(t.actor))
            &&& member(data, "attempt"@) == Some(JsonV::Int(t.attempt))
            &&& member(data, "endpoint_epoch"@) == Some(JsonV::Text(t.endpoint_epoch))
            &&& member(data, "message_id"@) == Some(JsonV::Text(t.message_id))
            &&& member(data, "new_state"@) == Some(JsonV::Text(t.new_state))
            &&& member(data, "prior_state"@) == Some(match t.prior_state { Some(s) => JsonV::Text(s), None => JsonV::Null })
            &&& member(data, "protocol"@) == Some(JsonV::Text("hcom-message/v1"@))
            &&& member(data, "reason"@) == Some(JsonV::Text(t.reason))
            &&& member(data, "recipient"@) == Some(JsonV::Text(t.recipient))
            &&& member(data, "timestamp"@) == Some(JsonV::Text(timestamp))
        }),
{
    let ms = transition_data(t, timestamp)->Object_0;
    reveal_strlit("actor");
    reveal_strlit("attempt");
    reveal_strlit("endpoint_epoch");
    reveal_strlit("message_id");
    reveal_strlit("new_state");
    reveal_strlit("prior_state");
    reveal_strlit("protocol");
    reveal_strlit("reason");
    reveal_strlit("recipient");
    reveal_strlit("timestamp");
    assert("actor"@.len() == 5 && "attempt"@.len() == 7 && "endpoint_epoch"@.len() == 14 && "message_id"@.len() == 10 && "new_state"@.len() == 9);
    assert("prior_state"@.len() == 11 && "protocol"@.len() == 8 && "reason"@.len() == 6 && "recipient"@.len() == 9 && "timestamp"@.len() == 9);
    assert("new_state"@[0] == 'n' && "recipient"@[0] == 'r' && "timestamp"@[0] == 't');
    lemma_member_at(ms, 0);
    lemma_member_at(ms, 1);
    lemma_member_at(ms, 2);
    lemma_member_at(ms, 3);
    lemma_member_at(ms, 4);
    lemma_member_at(ms, 5);
    lemma_member_at(ms, 6);
    lemma_member_at(ms, 7);
    lemma_member_at(ms, 8);
    lemma_member_at(ms, 9);
}

/// A delivery that is moved is in the new state, by the actor and at the time given, and nothing else
/// about it changes; no other delivery changes; and one event more tells of it.
pub proof fn moved_deliveries_are_logged(db: &mut HcomDb, k: usize, next: &str, actor: &str, reason: &str, now: &str, instance: &str, id: i64, i: int)
    requires
        call_ensures(HcomDb::move_delivery, (db, k, next, actor, reason, now, instance), Ok::<i64, LifecycleError>(id)),
        k < old(db).deliveries@.len(),
    ensures
        ({
            let before = old(db).deliveries@[k as int];
            let after = final(db)@.deliveries[k as int];
            &&& after.state == next@ && after.last_actor == actor@ && after.updated_at == now@ && after.state_event_id == Some(id as int)
            &&& after.message_id == before.message_id@ && after.recipient_name == before.recipient_name@ && after.endpoint_epoch == before.endpoint_epoch@
            &&& after.delivery_endpoint == before.delivery_endpoint@ && after.attempt == before.attempt
        }),
        final(db)@.deliveries.len() == old(db)@.deliveries.len(),
        0 <= i < old(db)@.deliveries.len() && i != k ==> final(db)@.deliveries[i] == old(db)@.deliveries[i],
        ({
            let e = final(db)@.events.last();
            let row = old(db).deliveries@[k as int];
            &&& final(db)@.events.drop_last() == old(db)@.events
            &&& e.id == id && e.timestamp == now@ && e.kind == "message_state"@ && e.instance == instance@
            &&& member(e.data, "message_id"@) == Some(JsonV::Text(row.message_id@)) && member(e.data, "recipient"@) == Some(JsonV::Text(row.recipient_name@))
            &&& member(e.data, "prior_state"@) == Some(JsonV::Text(row.state@)) && member(e.data, "new_state"@) == Some(JsonV::Text(next@))
            &&& member(e.data, "actor"@) == Some(JsonV::Text(actor@)) && member(e.data, "reason"@) == Some(JsonV::Text(reason@))
            &&& member(e.data, "attempt"@) == Some(JsonV::Int(row.attempt as int)) && member(e.data, "endpoint_epoch"@) == Some(JsonV::Text(row.endpoint_epoch@))
        }),
        id == old(db)@.sequence + 1 && final(db)@.sequence == id,
        final(db)@.records == old(db)@.records && final(db)@.instances == old(db)@.instances && final(db)@.watches == old(db)@.watches && final(db)@.notifications == old(db)@.notifications,
{
    let row = old(db)@.deliveries[k as int];
    let t = TransitionV { message_id: row.message_id, recipient: row.recipient_name, endpoint_epoch: row.endpoint_epoch, prior_state: Some(row.state), new_state: next@, attempt: row.attempt, actor: actor@, reason: reason@ };
    transitions_are_logged_in_full(t, now@);
    assert(row == old(db).deliveries@[k as int]@);
    assert(final(db)@.events.drop_last() =~= old(db)@.events);
}

/// The words of a refusal are the ones that users know.
pub proof fn refusals_have_their_words(e: LifecycleError, words: String)
    requires
        call_ensures(LifecycleError::message, (&e,), words),
    ensures
        e.kind is RecipientsNotUnique ==> words@ == "message recipients must be unique"@,
        e.kind is RetryTargetNotFound ==> words@ == "retry target not found"@,
        e.kind is RetryNotSender ==> words@ == "retry is allowed only for the original sender"@,
        e.kind is RetryOfReply ==> words@ == "replies cannot be retried in message lifecycle V1"@,
        e.kind is SupersedeTargetNotFound ==> words@ == "supersede target not found"@,
        e.kind is SupersedeNotSender ==> words@ == "supersede is allowed only for the original sender"@,
        e.kind is SupersedeOfReply ==> words@ == "replies cannot be superseded in message lifecycle V1"@,
        e.kind is SupersedeRecipients ==> words@ == "supersede must preserve the identical recipient set"@,
        e.kind is ReplyTargetNotFound ==> words@ == "reply target not found"@,
        e.kind is ReplyTargetNotRequest ==> words@ == "reply target must be a request that expects a reply"@,
        e.kind is ReplyIntent ==> words@ == "request replies must use ack intent"@,
        e.kind is ReplyCorrelation ==> words@ == "reply correlation does not match request"@,
        e.kind is ReplyRecipients ==> words@ == "reply must address exactly the original sender"@,
        e.kind is ReplyModeInvalid ==> words@ == "reply target has invalid reply mode: "@ + e.detail@,
        e.kind is ReplyEndpoint ==> words@ == "reply delivery endpoint does not match request reply mode"@,
        e.kind is ReplyLegacy ==> words@ == "reply must retain the parent event ID as legacy reply_to"@,
        e.kind is ReplyNotRecipient ==> words@ == "reply actor is not a recipient of the request"@,
        e.kind is NotReplyable ==> words@ == "request is no longer replyable ("@ + e.detail@ + ")"@,
        e.kind is NoActiveTransition ==> words@ == "supersede requires at least one active delivery transition"@,
        e.kind is DeliveryNotFound ==> words@ == "message delivery not found"@,
        e.kind is ReceiptActor ==> words@ == "delivery receipts may only be written by the recipient"@,
        e.kind is StaleEpoch ==> words@ == "stale endpoint epoch"@,
        e.kind is UnsupportedReceipt ==> words@ == "unsupported receipt state: "@ + e.detail@,
        e.kind is NotReceiptable ==> words@ == "delivery is not receiptable ("@ + e.detail@ + ")"@,
        e.kind is RecipientUnknown ==> words@ == "verified inbox recipient not found"@,
        e.kind is StaleQueued ==> words@ == "queued delivery belongs to a stale endpoint; fetch before ACK"@,
        e.kind is NotAcknowledgeable ==> words@ == "delivery is not inbox-acknowledgeable ("@ + e.detail@ + ")"@,
        e.kind is CancelNotSender ==> words@ == "cancel is allowed only for the original sender"@,
        e.kind is WaitNotSender ==> words@ == "wait is allowed only for the original sender"@,
        e.kind is MessageNotFound ==> words@ == "message not found"@,
        e.kind is ReplyWithoutId ==> words@ == "reply projection missing message_id"@,
        e.kind is ReplyModeNotText ==> words@ == "reply mode is not a text"@,
        e.kind is MessageExists ==> words@ == "UNIQUE constraint failed: message_records.message_id"@,
        e.kind is EventHasMessage ==> words@ == "UNIQUE constraint failed: message_records.event_id"@,
        e.kind is EventIdsExhausted ==> words@ == "database or disk is full"@,
        e.kind is ColumnNotText ==> words@ == "column is not a text"@,
        e.kind is AttemptsExhausted ==> words@ == "delivery attempt is out of range"@,
{
}

/// The rows of the store are seen as they are.
pub proof fn rows_are_seen_as_they_are(i: Instance, e: Event, r: MessageRecord, d: Delivery, w: RequestWatch, k: KvRow)
    ensures
        i@.name == i.name@ && i@.endpoint_epoch == i.endpoint_epoch@ && i@.last_event_id == i.last_event_id && i@.origin_device_id == opt_text(i.origin_device_id),
        e@.id == e.id && e@.timestamp == e.timestamp@ && e@.kind == e.kind@ && e@.instance == e.instance@ && e@.data == e.data@,
        r@.message_id == r.message_id@ && r@.event_id == r.event_id && r@.correlation_id == r.correlation_id@ && r@.sender_name == r.sender_name@ && r@.sender_session_id == opt_text(r.sender_session_id) && r@.intent == opt_text(r.intent) && r@.expects_reply == r.expects_reply,
        r@.in_reply_to == opt_text(r.in_reply_to) && r@.legacy_reply_to == opt_text(r.legacy_reply_to) && r@.reply_endpoint == opt_text(r.reply_endpoint) && r@.supersedes == opt_text(r.supersedes) && r@.retry_of == opt_text(r.retry_of) && r@.attachments_json == r.attachments_json@ && r@.created_at == r.created_at@,
        d@.message_id == d.message_id@ && d@.recipient_name == d.recipient_name@ && d@.endpoint_epoch == d.endpoint_epoch@ && d@.delivery_endpoint == d.delivery_endpoint@ && d@.state == d.state@ && d@.attempt == d.attempt && d@.last_actor == d.last_actor@ && d@.updated_at == d.updated_at@,
        d.state_event_id is None ==> d@.state_event_id is None,
        d.state_event_id matches Some(n) ==> d@.state_event_id == Some(n as int),
        w@.request_id == w.request_id && w@.target == opt_text(w.target) && w@.key == w.key@,
        k@.key == k.key@ && k@.value == k.value@,
{
}

/// A store is seen as the rows that it holds, in their order.
pub proof fn stores_are_seen_as_they_are(db: HcomDb, i: int)
    ensures
        db@.instances.len() == db.instances@.len() && (0 <= i < db.instances@.len() ==> db@.instances[i] == db.instances@[i]@),
        db@.events.len() == db.events@.len() && (0 <= i < db.events@.len() ==> db@.events[i] == db.events@[i]@),
        db@.records.len() == db.records@.len() && (0 <= i < db.records@.len() ==> db@.records[i] == db.records@[i]@),
        db@.deliveries.len() == db.deliveries@.len() && (0 <= i < db.deliveries@.len() ==> db@.deliveries[i] == db.deliveries@[i]@),
        db@.watches.len() == db.watches@.len() && (0 <= i < db.watches@.len() ==> db@.watches[i] == db.watches@[i]@),
        db@.kv.len() == db.kv@.len() && (0 <= i < db.kv@.len() ==> db@.kv[i] == db.kv@[i]@),
        db@.notifications.len() == db.notifications@.len() && (0 <= i < db.notifications@.len() ==> db@.notifications[i] == db.notifications@[i]),
        db@.sequence == db.sequence,
{
}

/// A lookup finds the first row that has what is looked for, and nothing where no row has it.
pub proof fn lookups_find_the_first_row(db: HcomDb, name: &str, instance: Option<usize>, epoch: String, id: i64, event: Option<usize>, message: &str, record: Option<usize>, delivery: Option<usize>, i: int)
    requires
        call_ensures(HcomDb::find_instance, (&db, name), instance),
        call_ensures(HcomDb::snapshot_epoch, (&db, name), epoch),
        call_ensures(HcomDb::find_event, (&db, id), event),
        call_ensures(HcomDb::find_record, (&db, message), record),
        call_ensures(HcomDb::find_delivery, (&db, message, name), delivery),
    ensures
        instance matches Some(k) ==> k < db.instances@.len() && db.instances@[k as int].name@ == name@ && epoch@ == db.instances@[k as int].endpoint_epoch@ && (0 <= i < k ==> db.instances@[i].name@ != name@),
        instance is None ==> epoch@.len() == 0 && (0 <= i < db.instances@.len() ==> db.instances@[i].name@ != name@),
        event matches Some(k) ==> k < db.events@.len() && db.events@[k as int].id == id && (0 <= i < k ==> db.events@[i].id != id),
        event is None ==> (0 <= i < db.events@.len() ==> db.events@[i].id != id),
        record matches Some(k) ==> k < db.records@.len() && db.records@[k as int].message_id@ == message@ && (0 <= i < k ==> db.records@[i].message_id@ != message@),
        record is None ==> (0 <= i < db.records@.len() ==> db.records@[i].message_id@ != message@),
        delivery matches Some(k) ==> k < db.deliveries@.len() && db.deliveries@[k as int].message_id@ == message@ && db.deliveries@[k as int].recipient_name@ == name@ && (0 <= i < k ==> db.deliveries@[i].message_id@ != message@ || db.deliveries@[i].recipient_name@ != name@),
        delivery is None ==> (0 <= i < db.deliveries@.len() ==> db.deliveries@[i].message_id@ != message@ || db.deliveries@[i].recipient_name@ != name@),
{
    stores_are_seen_as_they_are(db, i);
    let a = instance_named(db@.instances, name@);
    let b = event_with(db@.events, id as int);
    let c = record_of(db@.records, message@);
    let d = delivery_of(db@.deliveries, message@, name@);
    first_where_is_least(db@.instances.len() as int, a);
    first_where_is_least(db@.events.len() as int, b);
    first_where_is_least(db@.records.len() as int, c);
    first_where_is_least(db@.deliveries.len() as int, d);
    if 0 <= i < db.instances@.len() {
        assert(a(i) == (db.instances@[i].name@ == name@));
    }
    if 0 <= i < db.events@.len() {
        assert(b(i) == (db.events@[i].id == id));
    }
    if 0 <= i < db.records@.len() {
        assert(c(i) == (db.records@[i].message_id@ == message@));
    }
    if 0 <= i < db.deliveries@.len() {
        assert(d(i) == (db.deliveries@[i].message_id@ == message@ && db.deliveries@[i].recipient_name@ == name@));
    }
    if let Some(k) = instance {
        assert(a(k as int));
        assert(db@.instances[k as int] == db.instances@[k as int]@);
    }
    if let Some(k) = event {
        assert(b(k as int));
        assert(db@.events[k as int] == db.events@[k as int]@);
    }
    if let Some(k) = record {
        assert(c(k as int));
        assert(db@.records[k as int] == db.records@[k as int]@);
    }
    if let Some(k) = delivery {
        assert(d(k as int));
        assert(db@.deliveries[k as int] == db.deliveries@[k as int]@);
    }
}

/// An event is logged under the next id, behind all others and as it was given, as long as ids are left;
/// and what is announced is announced in order.
pub proof fn events_are_logged_in_order(db: &mut HcomDb, timestamp: &str, kind: &str, instance: &str, data: Json, r: Result<i64, LifecycleError>, k: int)
    requires
        call_ensures(HcomDb::insert_event, (db, timestamp, kind, instance, data), r),
    ensures
        old(db).sequence < i64::MAX ==> (r matches Ok(id) && id == old(db).sequence + 1 && final(db).sequence == id),
        old(db).sequence == i64::MAX ==> (r matches Err(e) && refusal_text(e@) == "database or disk is full"@) && final(db)@ == old(db)@,
        r matches Ok(id) ==> final(db).events@.len() == old(db).events@.len() + 1,
        r matches Ok(id) ==> ({
            let e = final(db).events@.last();
            e.id == id && e.timestamp@ == timestamp@ && e.kind@ == kind@ && e.instance@ == instance@ && e.data@ == data@
        }),
        r is Ok && 0 <= k < old(db).events@.len() ==> final(db).events@[k]@ == old(db).events@[k]@,
        final(db)@.deliveries == old(db)@.deliveries && final(db)@.records == old(db)@.records && final(db)@.instances == old(db)@.instances && final(db)@.notifications == old(db)@.notifications,
{
    if r is Ok {
        assert(final(db)@.events.len() == final(db).events@.len());
        assert(old(db)@.events.len() == old(db).events@.len());
        let n = old(db).events@.len() as int;
        assert(final(db)@.events[n] == final(db).events@[n]@);
        if 0 <= k < n {
            assert(final(db)@.events[k] == final(db).events@[k]@);
            assert(old(db)@.events[k] == old(db).events@[k]@);
        }
    }
}

/// What is announced comes behind what was announced before: one event, or each after an id, in order.
pub proof fn announcements_come_in_order(db: &mut HcomDb, id: i64, other: &mut HcomDb, from: i64, k: int)
    requires
        call_ensures(HcomDb::notify, (db, id), ()),
        call_ensures(HcomDb::notify_after, (other, from), ()),
        from <= old(other).sequence,
    ensures
        final(db)@.notifications == old(db)@.notifications.push(id as int),
        final(db)@.events == old(db)@.events && final(db)@.sequence == old(db)@.sequence,
        final(other)@.notifications.len() == old(other)@.notifications.len() + (old(other).sequence - from),
        0 <= k < old(other)@.notifications.len() ==> final(other)@.notifications[k] == old(other)@.notifications[k],
        0 <= k < old(other).sequence - from ==> final(other)@.notifications[old(other)@.notifications.len() + k] == from + 1 + k,
        final(other)@.events == old(other)@.events && final(other)@.sequence == old(other)@.sequence && final(other)@.deliveries == old(other)@.deliveries,
{
}

} // verus!
