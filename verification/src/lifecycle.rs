//! Message identity, delivery projections, and lifecycle transitions.

use crate::columns::{Column, ColumnV, column, read_column};
use crate::json::{Json, JsonV, member};
use crate::rows::{lemma_views_push, views};
use crate::store::{
    Delivery, DeliveryV, ErrorKind, ErrorV, HcomDb, DbV, LifecycleError, MessageRecord, RecordV,
    RequestWatch, Savepoint, Transition, TransitionV, WatchV, about, agrees, event_logged, extends, leaves, moved,
    notified_after, plain, refuse, refuse_about, transition_logged,
};
use crate::text::{
    after_prefix, as_opt_str, cat, copy_texts, decimal, decimal_text, holds_text, opt_str, own_opt,
    same, same_opt, strip_prefix, texts,
};
use vstd::prelude::*;

verus! {

/// How the replies to a request are to reach its sender, as the payload of the request says it.
pub enum ReplyModeV {
    /// A mode by name; `inbox` where the payload names none. An array or an object stands as JSON.
    Named(Seq<char>),
    /// A number or a boolean.
    NotText,
}

/// The reply mode in the payload of a request.
pub open spec fn reply_mode(data: JsonV) -> ReplyModeV {
    match column(member(data, "reply_mode"@)) {
        ColumnV::Absent => ReplyModeV::Named("inbox"@),
        ColumnV::Text(s) => ReplyModeV::Named(s),
        ColumnV::NotText => ReplyModeV::NotText,
    }
}

/// How the replies to a request are to reach its sender.
pub enum ReplyMode {
    Named(String),
    NotText,
}

impl View for ReplyMode {
    type V = ReplyModeV;

    open spec fn view(&self) -> ReplyModeV {
        match self {
            ReplyMode::Named(s) => ReplyModeV::Named(s@),
            ReplyMode::NotText => ReplyModeV::NotText,
        }
    }
}

fn read_reply_mode(data: &Json) -> (r: ReplyMode)
    ensures
        r@ == reply_mode(data@),
{
    match read_column(data.get("reply_mode")) {
        Column::Absent => ReplyMode::Named("inbox".to_owned()),
        Column::Text(s) => ReplyMode::Named(s),
        Column::NotText => ReplyMode::NotText,
    }
}

/// Whether a delivery at an endpoint belongs to the recipient's inbox. A delivery at a request
/// endpoint does where the message answers that request and the request did not ask to wait.
pub open spec fn routes_to_inbox(db: DbV, message_id: Seq<char>, endpoint: Seq<char>) -> Result<
    bool,
    ErrorV,
> {
    if endpoint == "inbox"@ {
        Ok(true)
    } else {
        match after_prefix(endpoint, "request:"@) {
            None => Ok(false),
            Some(request) => match db.record(message_id) {
                None => Ok(false),
                Some(reply) => if reply.in_reply_to != Some(request) {
                    Ok(false)
                } else {
                    match db.record(request) {
                        None => Ok(false),
                        Some(parent) => match db.event(parent.event_id) {
                            None => Ok(false),
                            Some(e) => match reply_mode(e.data) {
                                ReplyModeV::Named(m) => Ok(m == "inbox"@),
                                ReplyModeV::NotText => Err(plain(ErrorKind::ReplyModeNotText)),
                            },
                        },
                    }
                },
            },
        }
    }
}

/// The state that a superseded delivery goes to.
pub open spec fn supersession_target(prior: Seq<char>) -> Option<Seq<char>> {
    if prior == "queued"@ || prior == "received"@ {
        Some("superseded"@)
    } else if prior == "accepted"@ || prior == "acknowledged"@ {
        Some("supersession_requested"@)
    } else {
        None
    }
}

/// The state that a superseded delivery goes to.
pub fn supersession_state(prior: &str) -> (r: Option<&'static str>)
    ensures
        opt_str(r) == supersession_target(prior@),
{
    if same(prior, "queued") || same(prior, "received") {
        Some("superseded")
    } else if same(prior, "accepted") || same(prior, "acknowledged") {
        Some("supersession_requested")
    } else {
        None
    }
}

/// The state that a cancelled delivery goes to.
pub open spec fn cancellation_target(prior: Seq<char>) -> Option<Seq<char>> {
    if prior == "queued"@ {
        Some("cancelled"@)
    } else if prior == "received"@ || prior == "accepted"@ || prior == "acknowledged"@ {
        Some("cancellation_requested"@)
    } else {
        None
    }
}

/// The state that a cancelled delivery goes to.
pub fn cancellation_state(prior: &str) -> (r: Option<&'static str>)
    ensures
        opt_str(r) == cancellation_target(prior@),
{
    if same(prior, "queued") {
        Some("cancelled")
    } else if same(prior, "received") || same(prior, "accepted") || same(prior, "acknowledged") {
        Some("cancellation_requested")
    } else {
        None
    }
}

/// The place of a state in the chain of receipts.
pub open spec fn receipt_rank(state: Seq<char>) -> Option<int> {
    if state == "queued"@ {
        Some(0)
    } else if state == "received"@ {
        Some(1)
    } else if state == "accepted"@ {
        Some(2)
    } else if state == "acknowledged"@ {
        Some(3)
    } else {
        None
    }
}

/// The place of a state in the chain of receipts.
pub fn rank_of(state: &str) -> (r: Option<u8>)
    ensures
        match r {
            Some(n) => receipt_rank(state@) == Some(n as int) && n <= 3,
            None => receipt_rank(state@) is None,
        },
{
    if same(state, "queued") {
        Some(0)
    } else if same(state, "received") {
        Some(1)
    } else if same(state, "accepted") {
        Some(2)
    } else if same(state, "acknowledged") {
        Some(3)
    } else {
        None
    }
}

/// The state at a place in the chain of receipts.
pub open spec fn receipt_state(rank: int) -> Seq<char> {
    if rank <= 0 {
        "queued"@
    } else if rank == 1 {
        "received"@
    } else if rank == 2 {
        "accepted"@
    } else {
        "acknowledged"@
    }
}

/// The state at a place in the chain of receipts.
pub fn state_of(rank: u8) -> (r: &'static str)
    ensures
        r@ == receipt_state(rank as int),
{
    if rank == 0 {
        "queued"
    } else if rank == 1 {
        "received"
    } else if rank == 2 {
        "accepted"
    } else {
        "acknowledged"
    }
}

/// Whether a delivery in the state can take no reply any more.
pub open spec fn closed_to_replies(state: Seq<char>) -> bool {
    state == "replied"@ || state == "cancelled"@ || state == "superseded"@ || state
        == "delivery_failed"@
}

fn is_closed_to_replies(state: &str) -> (r: bool)
    ensures
        r == closed_to_replies(state@),
{
    same(state, "replied") || same(state, "cancelled") || same(state, "superseded") || same(
        state,
        "delivery_failed",
    )
}

/// A message to be committed.
pub struct MessagePersistInput<'a> {
    pub routing_instance: &'a str,
    pub sender_name: &'a str,
    pub sender_session_id: Option<&'a str>,
    pub data: &'a Json,
    pub message_id: &'a str,
    pub correlation_id: &'a str,
    pub intent: Option<&'a str>,
    pub expects_reply: bool,
    pub in_reply_to: Option<&'a str>,
    pub legacy_reply_to: Option<&'a str>,
    pub reply_endpoint: Option<&'a str>,
    pub delivery_endpoint: &'a str,
    pub supersedes: Option<&'a str>,
    pub retry_of: Option<&'a str>,
    pub attachments_json: &'a str,
    pub recipients: &'a Vec<String>,
}

/// The view of a [`MessagePersistInput`].
pub struct PersistV {
    pub routing_instance: Seq<char>,
    pub sender_name: Seq<char>,
    pub sender_session_id: Option<Seq<char>>,
    pub data: JsonV,
    pub message_id: Seq<char>,
    pub correlation_id: Seq<char>,
    pub intent: Option<Seq<char>>,
    pub expects_reply: bool,
    pub in_reply_to: Option<Seq<char>>,
    pub legacy_reply_to: Option<Seq<char>>,
    pub reply_endpoint: Option<Seq<char>>,
    pub delivery_endpoint: Seq<char>,
    pub supersedes: Option<Seq<char>>,
    pub retry_of: Option<Seq<char>>,
    pub attachments_json: Seq<char>,
    pub recipients: Seq<Seq<char>>,
}

impl<'a> View for MessagePersistInput<'a> {
    type V = PersistV;

    open spec fn view(&self) -> PersistV {
        PersistV {
            routing_instance: self.routing_instance@,
            sender_name: self.sender_name@,
            sender_session_id: opt_str(self.sender_session_id),
            data: self.data@,
            message_id: self.message_id@,
            correlation_id: self.correlation_id@,
            intent: opt_str(self.intent),
            expects_reply: self.expects_reply,
            in_reply_to: opt_str(self.in_reply_to),
            legacy_reply_to: opt_str(self.legacy_reply_to),
            reply_endpoint: opt_str(self.reply_endpoint),
            delivery_endpoint: self.delivery_endpoint@,
            supersedes: opt_str(self.supersedes),
            retry_of: opt_str(self.retry_of),
            attachments_json: self.attachments_json@,
            recipients: texts(self.recipients@),
        }
    }
}

/// The endpoint epoch that a recipient had when a message was committed.
#[derive(Debug)]
pub struct EpochSnapshot {
    pub recipient: String,
    pub epoch: String,
}

/// The view of an [`EpochSnapshot`].
pub struct EpochV {
    pub recipient: Seq<char>,
    pub epoch: Seq<char>,
}

impl View for EpochSnapshot {
    type V = EpochV;

    open spec fn view(&self) -> EpochV {
        EpochV { recipient: self.recipient@, epoch: self.epoch@ }
    }
}

/// A committed message.
#[derive(Debug)]
pub struct MessagePersistResult {
    pub event_id: i64,
    pub message_id: String,
    pub delivered_to: Vec<String>,
    pub recipient_endpoint_epochs: Vec<EpochSnapshot>,
}

/// The view of a [`MessagePersistResult`].
pub struct PersistedV {
    pub event_id: int,
    pub message_id: Seq<char>,
    pub delivered_to: Seq<Seq<char>>,
    pub recipient_endpoint_epochs: Seq<EpochV>,
}

impl View for MessagePersistResult {
    type V = PersistedV;

    open spec fn view(&self) -> PersistedV {
        PersistedV {
            event_id: self.event_id as int,
            message_id: self.message_id@,
            delivered_to: texts(self.delivered_to@),
            recipient_endpoint_epochs: views(self.recipient_endpoint_epochs@),
        }
    }
}

/// Whether no two texts of a list are the same.
pub open spec fn distinct(s: Seq<Seq<char>>) -> bool {
    forall|i: int, j: int| 0 <= i < j < s.len() ==> #[trigger] s[i] != #[trigger] s[j]
}

/// Whether no two texts of a list are the same.
pub fn are_distinct(v: &Vec<String>) -> (r: bool)
    ensures
        r == distinct(texts(v@)),
{
    let ghost s = texts(v@);
    let mut j: usize = 0;
    while j < v.len()
        invariant
            j <= v@.len(),
            s == texts(v@),
            forall|a: int, b: int| 0 <= a < b < j ==> #[trigger] s[a] != #[trigger] s[b],
        decreases v.len() - j,
    {
        let mut i: usize = 0;
        while i < j
            invariant
                i <= j < v@.len(),
                s == texts(v@),
                forall|a: int| 0 <= a < i ==> #[trigger] s[a] != s[j as int],
            decreases j - i,
        {
            if same(v[i].as_str(), v[j].as_str()) {
                assert(s[i as int] == s[j as int]);
                return false;
            }
            i += 1;
        }
        j += 1;
    }
    true
}

/// The refusal of a message that renews an earlier one: it must exist, be of the same sender, and
/// answer no request.
pub open spec fn renewal_refusal(
    db: DbV,
    target: Seq<char>,
    sender: Seq<char>,
    missing: ErrorKind,
    foreign: ErrorKind,
    reply: ErrorKind,
) -> Option<ErrorV> {
    match db.record(target) {
        None => Some(plain(missing)),
        Some(old) => if old.sender_name != sender {
            Some(plain(foreign))
        } else if old.in_reply_to is Some {
            Some(plain(reply))
        } else {
            None
        },
    }
}

/// Whether a list names exactly the recipients of a message.
pub open spec fn names_recipients(db: DbV, message_id: Seq<char>, names: Seq<Seq<char>>) -> bool {
    &&& forall|i: int|
        0 <= i < db.deliveries.len() && (#[trigger] db.deliveries[i]).message_id == message_id
            ==> names.contains(db.deliveries[i].recipient_name)
    &&& forall|j: int|
        0 <= j < names.len() ==> db.delivery_pos(message_id, #[trigger] names[j]) is Some
}

/// The refusal of a message before anything is written.
pub open spec fn persist_refusal(db: DbV, inp: PersistV) -> Option<ErrorV> {
    if !distinct(inp.recipients) {
        Some(plain(ErrorKind::RecipientsNotUnique))
    } else {
        let retry = match inp.retry_of {
            None => None,
            Some(old) => renewal_refusal(
                db,
                old,
                inp.sender_name,
                ErrorKind::RetryTargetNotFound,
                ErrorKind::RetryNotSender,
                ErrorKind::RetryOfReply,
            ),
        };
        if retry is Some {
            retry
        } else {
            match inp.supersedes {
                None => None,
                Some(old) => match renewal_refusal(
                    db,
                    old,
                    inp.sender_name,
                    ErrorKind::SupersedeTargetNotFound,
                    ErrorKind::SupersedeNotSender,
                    ErrorKind::SupersedeOfReply,
                ) {
                    Some(e) => Some(e),
                    None => if names_recipients(db, old, inp.recipients) {
                        None
                    } else {
                        Some(plain(ErrorKind::SupersedeRecipients))
                    },
                },
            }
        }
    }
}

/// Whether a reply may go to an endpoint, by the mode that its request asked for.
pub open spec fn reply_endpoint_fits(mode: Seq<char>, endpoint: Seq<char>, target: Seq<char>) -> bool {
    (mode == "inbox"@ && endpoint == "inbox"@) || endpoint == "request:"@ + target
}

/// The delivery of the request that a reply answers, or the refusal of the reply.
pub open spec fn reply_slot(db: DbV, inp: PersistV, target: Seq<char>) -> Result<int, ErrorV> {
    match db.record(target) {
        None => Err(plain(ErrorKind::ReplyTargetNotFound)),
        Some(parent) => match db.event(parent.event_id) {
            None => Err(plain(ErrorKind::ReplyTargetNotFound)),
            Some(e) => if reply_mode(e.data) is NotText {
                Err(plain(ErrorKind::ReplyModeNotText))
            } else if parent.intent != Some("request"@) || !parent.expects_reply {
                Err(plain(ErrorKind::ReplyTargetNotRequest))
            } else if inp.intent != Some("ack"@) {
                Err(plain(ErrorKind::ReplyIntent))
            } else if parent.correlation_id != inp.correlation_id {
                Err(plain(ErrorKind::ReplyCorrelation))
            } else if inp.recipients != seq![parent.sender_name] {
                Err(plain(ErrorKind::ReplyRecipients))
            } else {
                match reply_mode(e.data) {
                    ReplyModeV::Named(mode) => if mode != "inbox"@ && mode != "wait"@ {
                        Err(about(ErrorKind::ReplyModeInvalid, mode))
                    } else if !reply_endpoint_fits(mode, inp.delivery_endpoint, target) {
                        Err(plain(ErrorKind::ReplyEndpoint))
                    } else if inp.legacy_reply_to != Some(decimal(parent.event_id)) {
                        Err(plain(ErrorKind::ReplyLegacy))
                    } else {
                        match db.delivery_pos(target, inp.sender_name) {
                            None => Err(plain(ErrorKind::ReplyNotRecipient)),
                            Some(k) => if closed_to_replies(db.deliveries[k].state) {
                                Err(about(ErrorKind::NotReplyable, db.deliveries[k].state))
                            } else {
                                Ok(k)
                            },
                        }
                    },
                    ReplyModeV::NotText => Err(plain(ErrorKind::ReplyModeNotText)),
                }
            },
        },
    }
}

/// The store after the request that a message answers, if it answers one, is marked as replied.
pub open spec fn reply_committed(db: DbV, inp: PersistV, now: Seq<char>) -> Result<DbV, ErrorV> {
    match inp.in_reply_to {
        None => Ok(db),
        Some(target) => match reply_slot(db, inp, target) {
            Err(e) => Err(e),
            Ok(k) => match moved(
                db,
                k,
                "replied"@,
                inp.sender_name,
                "reply committed"@,
                now,
                inp.sender_name,
            ) {
                Err(e) => Err(e),
                Ok((d, _)) => Ok(d),
            },
        },
    }
}

/// The record of a new message.
pub open spec fn new_record(inp: PersistV, event_id: int, now: Seq<char>) -> RecordV {
    RecordV {
        message_id: inp.message_id,
        event_id,
        correlation_id: inp.correlation_id,
        sender_name: inp.sender_name,
        sender_session_id: inp.sender_session_id,
        intent: inp.intent,
        expects_reply: inp.expects_reply,
        in_reply_to: inp.in_reply_to,
        legacy_reply_to: inp.legacy_reply_to,
        reply_endpoint: inp.reply_endpoint,
        supersedes: inp.supersedes,
        retry_of: inp.retry_of,
        attachments_json: inp.attachments_json,
        created_at: now,
    }
}

/// Whether a delivery is of a message that the sender sent in a correlation, to one of the
/// recipients.
pub open spec fn in_lineage(
    db: DbV,
    row: DeliveryV,
    correlation_id: Seq<char>,
    sender: Seq<char>,
    recipients: Seq<Seq<char>>,
) -> bool {
    recipients.contains(row.recipient_name) && match db.record(row.message_id) {
        Some(r) => r.correlation_id == correlation_id && r.sender_name == sender,
        None => false,
    }
}

/// The highest attempt of the sender in a correlation at one of the recipients, among the first
/// `n` deliveries; zero where there is none.
pub open spec fn highest_attempt(
    db: DbV,
    correlation_id: Seq<char>,
    sender: Seq<char>,
    recipients: Seq<Seq<char>>,
    n: int,
) -> int
    decreases n,
{
    if n <= 0 {
        0
    } else {
        let best = highest_attempt(db, correlation_id, sender, recipients, n - 1);
        let row = db.deliveries[n - 1];
        if in_lineage(db, row, correlation_id, sender, recipients) && row.attempt > best {
            row.attempt
        } else {
            best
        }
    }
}

/// The attempt number of a new message: one beyond the highest so far for a retry, else one.
pub open spec fn attempt_number(db: DbV, inp: PersistV) -> int {
    if inp.retry_of is Some {
        highest_attempt(
            db,
            inp.correlation_id,
            inp.sender_name,
            inp.recipients,
            db.deliveries.len() as int,
        ) + 1
    } else {
        1
    }
}

/// The store after a message is queued for one recipient.
pub open spec fn queued_for(
    db: DbV,
    inp: PersistV,
    attempt: int,
    now: Seq<char>,
    recipient: Seq<char>,
) -> Result<DbV, ErrorV> {
    let epoch = db.epoch_or_empty(recipient);
    let t = TransitionV {
        message_id: inp.message_id,
        recipient,
        endpoint_epoch: epoch,
        prior_state: None,
        new_state: "queued"@,
        attempt,
        actor: inp.sender_name,
        reason: "message committed"@,
    };
    match transition_logged(db, t, now, inp.routing_instance) {
        Err(e) => Err(e),
        Ok((d, id)) => Ok(
            DbV {
                deliveries: d.deliveries.push(
                    DeliveryV {
                        message_id: inp.message_id,
                        recipient_name: recipient,
                        endpoint_epoch: epoch,
                        delivery_endpoint: inp.delivery_endpoint,
                        state: "queued"@,
                        attempt,
                        state_event_id: Some(id),
                        last_actor: inp.sender_name,
                        updated_at: now,
                    },
                ),
                ..d
            },
        ),
    }
}

/// The store after a message is queued for its first `n` recipients.
pub open spec fn queued(db: DbV, inp: PersistV, attempt: int, now: Seq<char>, n: int) -> Result<
    DbV,
    ErrorV,
>
    decreases n,
{
    if n <= 0 {
        Ok(db)
    } else {
        match queued(db, inp, attempt, now, n - 1) {
            Err(e) => Err(e),
            Ok(d) => queued_for(d, inp, attempt, now, inp.recipients[n - 1]),
        }
    }
}

/// Whether a delivery is of the message and can still be superseded.
pub open spec fn supersedable(row: DeliveryV, message_id: Seq<char>) -> bool {
    row.message_id == message_id && supersession_target(row.state) is Some
}

/// The store after those of the first `n` deliveries that a message supersedes have moved on.
pub open spec fn superseded(
    db: DbV,
    target: Seq<char>,
    sender: Seq<char>,
    message_id: Seq<char>,
    now: Seq<char>,
    n: int,
) -> Result<DbV, ErrorV>
    decreases n,
{
    if n <= 0 {
        Ok(db)
    } else {
        match superseded(db, target, sender, message_id, now, n - 1) {
            Err(e) => Err(e),
            Ok(d) => if supersedable(d.deliveries[n - 1], target) {
                match moved(
                    d,
                    n - 1,
                    supersession_target(d.deliveries[n - 1].state)->0,
                    sender,
                    "superseded by "@ + message_id,
                    now,
                    sender,
                ) {
                    Err(e) => Err(e),
                    Ok((d2, _)) => Ok(d2),
                }
            } else {
                Ok(d)
            },
        }
    }
}

/// The store after a message has superseded the one it names, if it names one.
pub open spec fn supersession_committed(db: DbV, inp: PersistV, now: Seq<char>) -> Result<
    DbV,
    ErrorV,
> {
    match inp.supersedes {
        None => Ok(db),
        Some(target) => match superseded(
            db,
            target,
            inp.sender_name,
            inp.message_id,
            now,
            db.deliveries.len() as int,
        ) {
            Err(e) => Err(e),
            Ok(d) => if exists|i: int|
                0 <= i < db.deliveries.len() && supersedable(#[trigger] db.deliveries[i], target) {
                Ok(d)
            } else {
                Err(plain(ErrorKind::NoActiveTransition))
            },
        },
    }
}

/// Whether a watch stands on a request, at a target where one is given.
pub open spec fn watch_matches(w: WatchV, request_id: int, target: Option<Seq<char>>) -> bool {
    w.request_id == request_id && (target is None || w.target == target)
}

/// The store without the watches on a message, at a recipient where one is given.
pub open spec fn watches_cleared(db: DbV, message_id: Seq<char>, recipient: Option<Seq<char>>) -> DbV {
    match db.record(message_id) {
        None => db,
        Some(r) => DbV {
            watches: db.watches.filter(|w: WatchV| !watch_matches(w, r.event_id, recipient)),
            ..db
        },
    }
}

/// The store without the watches that a new message ends: those on the message it supersedes, and
/// those on the request it answers, at the one who answers.
pub open spec fn watches_ended(db: DbV, inp: PersistV) -> DbV {
    let d = match inp.supersedes {
        None => db,
        Some(target) => watches_cleared(db, target, None),
    };
    match inp.in_reply_to {
        None => d,
        Some(target) => watches_cleared(d, target, Some(inp.sender_name)),
    }
}

/// The store after a message has been written: its event, its record, and its deliveries.
pub open spec fn written(db: DbV, inp: PersistV, attempt: int, now: Seq<char>) -> Result<
    (DbV, int),
    ErrorV,
> {
    match event_logged(db, now, "message"@, inp.routing_instance, inp.data) {
        Err(e) => Err(e),
        Ok((d, id)) => if d.record(inp.message_id) is Some {
            Err(about(ErrorKind::MessageExists, inp.message_id))
        } else {
            let recorded = DbV { records: d.records.push(new_record(inp, id, now)), ..d };
            match queued(recorded, inp, attempt, now, inp.recipients.len() as int) {
                Err(e) => Err(e),
                Ok(d2) => Ok((d2, id)),
            }
        },
    }
}

/// The order in which the subscriptions see what a new message logged: the message, the reply
/// transition, then the rest.
pub open spec fn persist_notified(db: DbV, inp: PersistV, event_id: int) -> DbV {
    let first = db.notifications.push(event_id);
    let second = if inp.in_reply_to is Some {
        first.push(event_id - 1)
    } else {
        first
    };
    notified_after(DbV { notifications: second, ..db }, event_id)
}

/// The store after a message is committed, and what its sender is told; or the refusal.
pub open spec fn persisted(db: DbV, inp: PersistV, now: Seq<char>) -> Result<
    (DbV, PersistedV),
    ErrorV,
> {
    match persist_refusal(db, inp) {
        Some(e) => Err(e),
        None => match reply_committed(db, inp, now) {
            Err(e) => Err(e),
            Ok(d1) => match written(d1, inp, attempt_number(db, inp), now) {
                Err(e) => Err(e),
                Ok((d2, id)) => match supersession_committed(d2, inp, now) {
                    Err(e) => Err(e),
                    Ok(d3) => {
                        let d4 = watches_ended(d3, inp);
                        Ok(
                            (
                                persist_notified(d4, inp, id),
                                PersistedV {
                                    event_id: id,
                                    message_id: inp.message_id,
                                    delivered_to: inp.recipients,
                                    recipient_endpoint_epochs: Seq::new(
                                        inp.recipients.len(),
                                        |i: int|
                                            EpochV {
                                                recipient: inp.recipients[i],
                                                epoch: db.epoch_or_empty(inp.recipients[i]),
                                            },
                                    ),
                                },
                            ),
                        )
                    },
                },
            },
        },
    }
}

fn copy_kept_watches(v: &Vec<RequestWatch>, request_id: i64, target: Option<&str>) -> (r: Vec<
    RequestWatch,
>)
    ensures
        views(r@) == views(v@).filter(
            |w: WatchV| !watch_matches(w, request_id as int, opt_str(target)),
        ),
{
    let ghost keep = |w: WatchV| !watch_matches(w, request_id as int, opt_str(target));
    let mut out: Vec<RequestWatch> = Vec::new();
    let mut i: usize = 0;
    proof {
        assert(views(v@).take(0) =~= Seq::<WatchV>::empty());
        reveal(Seq::filter);
        assert(views(out@) =~= views(v@).take(0).filter(keep));
    }
    while i < v.len()
        invariant
            i <= v@.len(),
            keep == (|w: WatchV| !watch_matches(w, request_id as int, opt_str(target))),
            views(out@) == views(v@).take(i as int).filter(keep),
        decreases v.len() - i,
    {
        proof {
            reveal(Seq::filter);
            assert(views(v@).take(i as int + 1).drop_last() =~= views(v@).take(i as int));
            assert(views(v@).take(i as int + 1).last() == v@[i as int]@);
        }
        let hit: bool = v[i].request_id == request_id && match target {
            None => true,
            Some(t) => same_opt(as_opt_str(&v[i].target), t),
        };
        if !hit {
            let row: RequestWatch = v[i].duplicate();
            proof {
                lemma_views_push(out@, row);
            }
            out.push(row);
        }
        i += 1;
    }
    assert(views(v@).take(v@.len() as int) =~= views(v@));
    out
}

impl HcomDb {
    /// Whether a delivery at an endpoint belongs to the recipient's inbox.
    pub fn delivery_routes_to_inbox(&self, message_id: &str, delivery_endpoint: &str) -> (r: Result<
        bool,
        LifecycleError,
    >)
        ensures
            agrees(r, routes_to_inbox(self@, message_id@, delivery_endpoint@)),
    {
        if same(delivery_endpoint, "inbox") {
            return Ok(true);
        }
        let request: String = match strip_prefix(delivery_endpoint, "request:") {
            None => {
                return Ok(false);
            },
            Some(request) => request,
        };
        let reply: usize = match self.find_record(message_id) {
            None => {
                return Ok(false);
            },
            Some(i) => i,
        };
        if !same_opt(as_opt_str(&self.records[reply].in_reply_to), request.as_str()) {
            return Ok(false);
        }
        let parent: usize = match self.find_record(request.as_str()) {
            None => {
                return Ok(false);
            },
            Some(i) => i,
        };
        let event: usize = match self.find_event(self.records[parent].event_id) {
            None => {
                return Ok(false);
            },
            Some(i) => i,
        };
        match read_reply_mode(&self.events[event].data) {
            ReplyMode::Named(mode) => Ok(same(mode.as_str(), "inbox")),
            ReplyMode::NotText => Err(refuse(ErrorKind::ReplyModeNotText)),
        }
    }

    /// Removes the watches on a message, at a recipient where one is given.
    pub fn clear_request_watches_v1(&mut self, message_id: &str, recipient: Option<&str>) -> (removed:
        usize)
        ensures
            final(self)@ == watches_cleared(old(self)@, message_id@, opt_str(recipient)),
            removed == old(self)@.watches.len() - final(self)@.watches.len(),
    {
        match self.find_record(message_id) {
            None => 0,
            Some(i) => {
                let request_id: i64 = self.records[i].event_id;
                let kept: Vec<RequestWatch> = copy_kept_watches(&self.watches, request_id, recipient);
                let before: usize = self.watches.len();
                let after: usize = kept.len();
                proof {
                    views(self.watches@).lemma_filter_len(
                        |w: WatchV| !watch_matches(w, request_id as int, opt_str(recipient)),
                    );
                    assert(views(kept@).len() == kept@.len());
                    assert(views(self.watches@).len() == self.watches@.len());
                }
                self.watches = kept;
                before - after
            },
        }
    }

    fn refuse_renewal(
        &self,
        target: &str,
        sender: &str,
        missing: ErrorKind,
        foreign: ErrorKind,
        reply: ErrorKind,
    ) -> (r: Option<LifecycleError>)
        ensures
            (match r {
                Some(e) => Some(e@),
                None => None,
            }) == renewal_refusal(self@, target@, sender@, missing, foreign, reply),
    {
        match self.find_record(target) {
            None => Some(refuse(missing)),
            Some(i) => {
                if !same(self.records[i].sender_name.as_str(), sender) {
                    Some(refuse(foreign))
                } else if self.records[i].in_reply_to.is_some() {
                    Some(refuse(reply))
                } else {
                    None
                }
            },
        }
    }

    fn names_exactly(&self, message_id: &str, names: &Vec<String>) -> (r: bool)
        ensures
            r == names_recipients(self@, message_id@, texts(names@)),
    {
        let mut i: usize = 0;
        while i < self.deliveries.len()
            invariant
                i <= self.deliveries@.len(),
                forall|k: int|
                    0 <= k < i && (#[trigger] self@.deliveries[k]).message_id == message_id@
                        ==> texts(names@).contains(self@.deliveries[k].recipient_name),
            decreases self.deliveries.len() - i,
        {
            if same(self.deliveries[i].message_id.as_str(), message_id) && !holds_text(
                names,
                self.deliveries[i].recipient_name.as_str(),
            ) {
                assert(self@.deliveries[i as int].message_id == message_id@);
                return false;
            }
            i += 1;
        }
        let mut j: usize = 0;
        while j < names.len()
            invariant
                j <= names@.len(),
                forall|k: int|
                    0 <= k < j ==> self@.delivery_pos(message_id@, #[trigger] texts(names@)[k]) is Some,
            decreases names.len() - j,
        {
            if self.find_delivery(message_id, names[j].as_str()).is_none() {
                assert(self@.delivery_pos(message_id@, texts(names@)[j as int]) is None);
                return false;
            }
            j += 1;
        }
        true
    }

    fn refuse_persist(&self, input: &MessagePersistInput<'_>) -> (r: Option<LifecycleError>)
        ensures
            (match r {
                Some(e) => Some(e@),
                None => None,
            }) == persist_refusal(self@, input@),
    {
        if !are_distinct(input.recipients) {
            return Some(refuse(ErrorKind::RecipientsNotUnique));
        }
        if let Some(old) = input.retry_of {
            let e: Option<LifecycleError> = self.refuse_renewal(
                old,
                input.sender_name,
                ErrorKind::RetryTargetNotFound,
                ErrorKind::RetryNotSender,
                ErrorKind::RetryOfReply,
            );
            if e.is_some() {
                return e;
            }
        }
        if let Some(old) = input.supersedes {
            let e: Option<LifecycleError> = self.refuse_renewal(
                old,
                input.sender_name,
                ErrorKind::SupersedeTargetNotFound,
                ErrorKind::SupersedeNotSender,
                ErrorKind::SupersedeOfReply,
            );
            if e.is_some() {
                return e;
            }
            if !self.names_exactly(old, input.recipients) {
                return Some(refuse(ErrorKind::SupersedeRecipients));
            }
        }
        None
    }

    fn find_reply_slot(&self, input: &MessagePersistInput<'_>, target: &str) -> (r: Result<
        usize,
        LifecycleError,
    >)
        ensures
            match r {
                Ok(k) => reply_slot(self@, input@, target@) == Ok::<int, ErrorV>(k as int) && k
                    < self.deliveries@.len(),
                Err(e) => reply_slot(self@, input@, target@) == Err::<int, ErrorV>(e@),
            },
    {
        let p: usize = match self.find_record(target) {
            None => {
                return Err(refuse(ErrorKind::ReplyTargetNotFound));
            },
            Some(i) => i,
        };
        let event: usize = match self.find_event(self.records[p].event_id) {
            None => {
                return Err(refuse(ErrorKind::ReplyTargetNotFound));
            },
            Some(i) => i,
        };
        let mode: ReplyMode = read_reply_mode(&self.events[event].data);
        if matches!(mode, ReplyMode::NotText) {
            return Err(refuse(ErrorKind::ReplyModeNotText));
        }
        let parent: &MessageRecord = &self.records[p];
        if !same_opt(as_opt_str(&parent.intent), "request") || !parent.expects_reply {
            return Err(refuse(ErrorKind::ReplyTargetNotRequest));
        }
        if !same_opt(input.intent, "ack") {
            return Err(refuse(ErrorKind::ReplyIntent));
        }
        if !same(parent.correlation_id.as_str(), input.correlation_id) {
            return Err(refuse(ErrorKind::ReplyCorrelation));
        }
        proof {
            let want = seq![parent.sender_name@];
            let have = texts(input.recipients@);
            if have.len() == 1 && have[0] == parent.sender_name@ {
                assert(have =~= want);
            }
            if have == want {
                assert(have.len() == 1 && have[0] == parent.sender_name@);
            }
        }
        if input.recipients.len() != 1 || !same(
            input.recipients[0].as_str(),
            parent.sender_name.as_str(),
        ) {
            return Err(refuse(ErrorKind::ReplyRecipients));
        }
        let name: String = match mode {
            ReplyMode::Named(name) => name,
            ReplyMode::NotText => {
                return Err(refuse(ErrorKind::ReplyModeNotText));
            },
        };
        let inbox: bool = same(name.as_str(), "inbox");
        if !inbox && !same(name.as_str(), "wait") {
            return Err(refuse_about(ErrorKind::ReplyModeInvalid, name.as_str()));
        }
        let own: String = cat("request:", target);
        if !((inbox && same(input.delivery_endpoint, "inbox")) || same(
            input.delivery_endpoint,
            own.as_str(),
        )) {
            return Err(refuse(ErrorKind::ReplyEndpoint));
        }
        let legacy: String = decimal_text(parent.event_id);
        if !same_opt(input.legacy_reply_to, legacy.as_str()) {
            return Err(refuse(ErrorKind::ReplyLegacy));
        }
        match self.find_delivery(target, input.sender_name) {
            None => Err(refuse(ErrorKind::ReplyNotRecipient)),
            Some(k) => {
                if is_closed_to_replies(self.deliveries[k].state.as_str()) {
                    Err(refuse_about(ErrorKind::NotReplyable, self.deliveries[k].state.as_str()))
                } else {
                    Ok(k)
                }
            },
        }
    }

    fn commit_reply(&mut self, input: &MessagePersistInput<'_>, now: &str) -> (r: Result<
        (),
        LifecycleError,
    >)
        ensures
            extends(old(self)@, final(self)@),
            leaves(r, final(self)@, reply_committed(old(self)@, input@, now@)),
            r is Ok && input.in_reply_to is Some ==> final(self)@.sequence == old(self)@.sequence + 1,
            r is Ok && input.in_reply_to is None ==> final(self)@.sequence == old(self)@.sequence,
    {
        match input.in_reply_to {
            None => Ok(()),
            Some(target) => match self.find_reply_slot(input, target) {
                Err(e) => Err(e),
                Ok(k) => match self.move_delivery(
                    k,
                    "replied",
                    input.sender_name,
                    "reply committed",
                    now,
                    input.sender_name,
                ) {
                    Err(e) => Err(e),
                    Ok(_) => Ok(()),
                },
            },
        }
    }

    /// The highest attempt of a sender in a correlation at one of the recipients; zero where there
    /// is none.
    pub fn highest_attempt_of(&self, correlation_id: &str, sender: &str, recipients: &Vec<String>) -> (r:
        i64)
        ensures
            r == highest_attempt(
                self@,
                correlation_id@,
                sender@,
                texts(recipients@),
                self@.deliveries.len() as int,
            ),
            r >= 0,
    {
        let mut best: i64 = 0;
        let mut i: usize = 0;
        while i < self.deliveries.len()
            invariant
                i <= self.deliveries@.len(),
                best >= 0,
                best == highest_attempt(
                    self@,
                    correlation_id@,
                    sender@,
                    texts(recipients@),
                    i as int,
                ),
            decreases self.deliveries.len() - i,
        {
            let row: &Delivery = &self.deliveries[i];
            assert(row@ == self@.deliveries[i as int]);
            let hit: bool = holds_text(recipients, row.recipient_name.as_str())
                && match self.find_record(row.message_id.as_str()) {
                None => false,
                Some(k) => same(self.records[k].correlation_id.as_str(), correlation_id) && same(
                    self.records[k].sender_name.as_str(),
                    sender,
                ),
            };
            if hit && row.attempt > best {
                best = row.attempt;
            }
            i += 1;
        }
        best
    }

    fn queue_deliveries(&mut self, input: &MessagePersistInput<'_>, attempt: i64, now: &str) -> (r:
        Result<(), LifecycleError>)
        ensures
            extends(old(self)@, final(self)@),
            leaves(
                r,
                final(self)@,
                queued(old(self)@, input@, attempt as int, now@, input@.recipients.len() as int),
            ),
            final(self)@.sequence >= old(self)@.sequence,
    {
        let ghost start = self@;
        let mut i: usize = 0;
        while i < input.recipients.len()
            invariant
                i <= input.recipients@.len(),
                extends(start, self@),
                self@.sequence >= start.sequence,
                start == old(self)@,
                queued(start, input@, attempt as int, now@, i as int) == Ok::<DbV, ErrorV>(self@),
            decreases input.recipients.len() - i,
        {
            let recipient: &str = input.recipients[i].as_str();
            assert(recipient@ == input@.recipients[i as int]);
            let epoch: String = self.snapshot_epoch(recipient);
            let ghost before = self@;
            let ghost result = queued_for(before, input@, attempt as int, now@, recipient@);
            let id: i64 = match self.append_state_transition(
                &Transition {
                    message_id: input.message_id,
                    recipient,
                    endpoint_epoch: epoch.as_str(),
                    prior_state: None,
                    new_state: "queued",
                    attempt,
                    actor: input.sender_name,
                    reason: "message committed",
                },
                now,
                input.routing_instance,
            ) {
                Ok(id) => id,
                Err(e) => {
                    proof {
                        lemma_queued_fails(
                            start,
                            input@,
                            attempt as int,
                            now@,
                            i as int + 1,
                            input@.recipients.len() as int,
                            e@,
                        );
                    }
                    return Err(e);
                },
            };
            let row: Delivery = Delivery {
                message_id: input.message_id.to_owned(),
                recipient_name: recipient.to_owned(),
                endpoint_epoch: epoch,
                delivery_endpoint: input.delivery_endpoint.to_owned(),
                state: "queued".to_owned(),
                attempt,
                state_event_id: Some(id),
                last_actor: input.sender_name.to_owned(),
                updated_at: now.to_owned(),
            };
            proof {
                lemma_views_push(self.deliveries@, row);
            }
            self.deliveries.push(row);
            i += 1;
        }
        Ok(())
    }
}

proof fn lemma_superseded_fails(
    db: DbV,
    target: Seq<char>,
    sender: Seq<char>,
    message_id: Seq<char>,
    now: Seq<char>,
    n: int,
    m: int,
    e: ErrorV,
)
    requires
        0 <= n <= m,
        superseded(db, target, sender, message_id, now, n) == Err::<DbV, ErrorV>(e),
    ensures
        superseded(db, target, sender, message_id, now, m) == Err::<DbV, ErrorV>(e),
    decreases m - n,
{
    if n < m {
        lemma_superseded_fails(db, target, sender, message_id, now, n, m - 1, e);
    }
}

impl HcomDb {
    fn supersede_deliveries(
        &mut self,
        target: &str,
        sender: &str,
        message_id: &str,
        now: &str,
    ) -> (r: Result<bool, LifecycleError>)
        ensures
            extends(old(self)@, final(self)@),
            leaves(
                r,
                final(self)@,
                superseded(
                    old(self)@,
                    target@,
                    sender@,
                    message_id@,
                    now@,
                    old(self)@.deliveries.len() as int,
                ),
            ),
            final(self)@.sequence >= old(self)@.sequence,
            r matches Ok(any) ==> any == exists|i: int|
                0 <= i < old(self)@.deliveries.len() && supersedable(
                    #[trigger] old(self)@.deliveries[i],
                    target@,
                ),
    {
        let ghost start = self@;
        let reason: String = cat("superseded by ", message_id);
        let mut any: bool = false;
        let mut i: usize = 0;
        let total: usize = self.deliveries.len();
        while i < total
            invariant
                i <= total,
                total == start.deliveries.len(),
                total == self.deliveries@.len(),
                reason@ == "superseded by "@ + message_id@,
                extends(start, self@),
                start == old(self)@,
                self@.sequence >= start.sequence,
                superseded(start, target@, sender@, message_id@, now@, i as int) == Ok::<
                    DbV,
                    ErrorV,
                >(self@),
                forall|k: int|
                    i <= k < total ==> #[trigger] self@.deliveries[k] == start.deliveries[k],
                any == exists|k: int|
                    0 <= k < i && supersedable(#[trigger] start.deliveries[k], target@),
            decreases total - i,
        {
            assert(self@.deliveries[i as int] == start.deliveries[i as int]);
            assert(self.deliveries@[i as int]@ == start.deliveries[i as int]);
            if same(self.deliveries[i].message_id.as_str(), target) {
                if let Some(next) = supersession_state(self.deliveries[i].state.as_str()) {
                    assert(supersedable(start.deliveries[i as int], target@));
                    any = true;
                    if let Err(e) = self.move_delivery(
                        i,
                        next,
                        sender,
                        reason.as_str(),
                        now,
                        sender,
                    ) {
                        proof {
                            lemma_superseded_fails(
                                start,
                                target@,
                                sender@,
                                message_id@,
                                now@,
                                i as int + 1,
                                total as int,
                                e@,
                            );
                        }
                        return Err(e);
                    }
                }
            }
            i += 1;
        }
        Ok(any)
    }

    fn write_message(&mut self, input: &MessagePersistInput<'_>, attempt: i64, now: &str) -> (r:
        Result<i64, LifecycleError>)
        ensures
            extends(old(self)@, final(self)@),
            match r {
                Ok(id) => written(old(self)@, input@, attempt as int, now@) == Ok::<
                    (DbV, int),
                    ErrorV,
                >((final(self)@, id as int)) && id == old(self)@.sequence + 1
                    <= final(self)@.sequence,
                Err(e) => written(old(self)@, input@, attempt as int, now@) == Err::<
                    (DbV, int),
                    ErrorV,
                >(e@),
            },
    {
        let id: i64 = match self.insert_event(
            now,
            "message",
            input.routing_instance,
            input.data.duplicate(),
        ) {
            Ok(id) => id,
            Err(e) => {
                return Err(e);
            },
        };
        if self.find_record(input.message_id).is_some() {
            return Err(refuse_about(ErrorKind::MessageExists, input.message_id));
        }
        let row: MessageRecord = MessageRecord {
            message_id: input.message_id.to_owned(),
            event_id: id,
            correlation_id: input.correlation_id.to_owned(),
            sender_name: input.sender_name.to_owned(),
            sender_session_id: own_opt(input.sender_session_id),
            intent: own_opt(input.intent),
            expects_reply: input.expects_reply,
            in_reply_to: own_opt(input.in_reply_to),
            legacy_reply_to: own_opt(input.legacy_reply_to),
            reply_endpoint: own_opt(input.reply_endpoint),
            supersedes: own_opt(input.supersedes),
            retry_of: own_opt(input.retry_of),
            attachments_json: input.attachments_json.to_owned(),
            created_at: now.to_owned(),
        };
        proof {
            lemma_views_push(self.records@, row);
        }
        self.records.push(row);
        match self.queue_deliveries(input, attempt, now) {
            Ok(()) => Ok(id),
            Err(e) => Err(e),
        }
    }

    fn commit_message(&mut self, input: &MessagePersistInput<'_>, attempt: i64, now: &str) -> (r:
        Result<i64, LifecycleError>)
        requires
            persist_refusal(old(self)@, input@) is None,
            attempt == attempt_number(old(self)@, input@),
        ensures
            extends(old(self)@, final(self)@),
            match r {
                Ok(id) => reply_committed(old(self)@, input@, now@) matches Ok(d1) && written(
                    d1,
                    input@,
                    attempt as int,
                    now@,
                ) matches Ok((d2, n)) && n == id && id == d1.sequence + 1
                    && supersession_committed(d2, input@, now@) == Ok::<DbV, ErrorV>(final(self)@)
                    && d1.sequence == old(self)@.sequence + (if input@.in_reply_to is Some {
                    1int
                } else {
                    0
                }) && id <= final(self)@.sequence,
                Err(e) => persisted(old(self)@, input@, now@) == Err::<(DbV, PersistedV), ErrorV>(
                    e@,
                ),
            },
    {
        if let Err(e) = self.commit_reply(input, now) {
            return Err(e);
        }
        let id: i64 = match self.write_message(input, attempt, now) {
            Ok(id) => id,
            Err(e) => {
                return Err(e);
            },
        };
        if let Some(target) = input.supersedes {
            match self.supersede_deliveries(target, input.sender_name, input.message_id, now) {
                Ok(any) => {
                    if !any {
                        return Err(refuse(ErrorKind::NoActiveTransition));
                    }
                },
                Err(e) => {
                    return Err(e);
                },
            }
        }
        Ok(id)
    }

    fn epochs_of(&self, recipients: &Vec<String>) -> (r: Vec<EpochSnapshot>)
        ensures
            views(r@) == Seq::new(
                texts(recipients@).len(),
                |i: int|
                    EpochV {
                        recipient: texts(recipients@)[i],
                        epoch: self@.epoch_or_empty(texts(recipients@)[i]),
                    },
            ),
    {
        let mut out: Vec<EpochSnapshot> = Vec::new();
        let mut i: usize = 0;
        while i < recipients.len()
            invariant
                i <= recipients@.len(),
                out@.len() == i,
                forall|k: int|
                    0 <= k < i ==> (#[trigger] out@[k])@ == (EpochV {
                        recipient: texts(recipients@)[k],
                        epoch: self@.epoch_or_empty(texts(recipients@)[k]),
                    }),
            decreases recipients.len() - i,
        {
            let epoch: String = self.snapshot_epoch(recipients[i].as_str());
            out.push(EpochSnapshot { recipient: recipients[i].clone(), epoch });
            i += 1;
        }
        assert(views(out@) =~= Seq::new(
            texts(recipients@).len(),
            |i: int|
                EpochV {
                    recipient: texts(recipients@)[i],
                    epoch: self@.epoch_or_empty(texts(recipients@)[i]),
                },
        ));
        out
    }

    /// Commits a message: its event, its record, a queued delivery for each recipient, the reply
    /// transition of the request it answers, and the transitions of the message it supersedes.
    /// Either all of it is written or nothing is. The watches that it ends are removed.
    pub fn persist_message_v1(&mut self, input: &MessagePersistInput<'_>, now: &str) -> (r: Result<
        MessagePersistResult,
        LifecycleError,
    >)
        requires
            persist_refusal(old(self)@, input@) is None ==> attempt_number(old(self)@, input@)
                <= i64::MAX,
        ensures
            match r {
                Ok(v) => persisted(old(self)@, input@, now@) == Ok::<(DbV, PersistedV), ErrorV>(
                    (final(self)@, v@),
                ),
                Err(e) => persisted(old(self)@, input@, now@) == Err::<(DbV, PersistedV), ErrorV>(
                    e@,
                ) && final(self)@ == old(self)@,
            },
    {
        if let Some(e) = self.refuse_persist(input) {
            return Err(e);
        }
        let attempt: i64 = if input.retry_of.is_some() {
            self.highest_attempt_of(input.correlation_id, input.sender_name, input.recipients) + 1
        } else {
            1
        };
        let epochs: Vec<EpochSnapshot> = self.epochs_of(input.recipients);
        let point: Savepoint = self.savepoint();
        let id: i64 = match self.commit_message(input, attempt, now) {
            Ok(id) => id,
            Err(e) => {
                self.roll_back(point);
                return Err(e);
            },
        };
        if let Some(target) = input.supersedes {
            self.clear_request_watches_v1(target, None);
        }
        if let Some(target) = input.in_reply_to {
            self.clear_request_watches_v1(target, Some(input.sender_name));
        }
        self.notify(id);
        if input.in_reply_to.is_some() {
            self.notify(id - 1);
        }
        self.notify_after(id);
        Ok(
            MessagePersistResult {
                event_id: id,
                message_id: input.message_id.to_owned(),
                delivered_to: copy_texts(input.recipients),
                recipient_endpoint_epochs: epochs,
            },
        )
    }
}

proof fn lemma_queued_fails(
    db: DbV,
    inp: PersistV,
    attempt: int,
    now: Seq<char>,
    n: int,
    m: int,
    e: ErrorV,
)
    requires
        0 <= n <= m,
        queued(db, inp, attempt, now, n) == Err::<DbV, ErrorV>(e),
    ensures
        queued(db, inp, attempt, now, m) == Err::<DbV, ErrorV>(e),
    decreases m - n,
{
    if n < m {
        lemma_queued_fails(db, inp, attempt, now, n, m - 1, e);
    }
}

/// Cancelling reaches a delivery by how far it has come: one that still waits is cancelled, one that
/// was taken up is asked to stop, and any other is past it.
pub proof fn cancelled_deliveries_go_here(prior: &str, r: Option<&'static str>)
    requires
        call_ensures(cancellation_state, (prior,), r),
    ensures
        prior@ == "queued"@ ==> (r matches Some(s) && s@ == "cancelled"@),
        prior@ == "received"@ || prior@ == "accepted"@ || prior@ == "acknowledged"@ ==> (r matches Some(s) && s@ == "cancellation_requested"@),
        prior@ != "queued"@ && prior@ != "received"@ && prior@ != "accepted"@ && prior@ != "acknowledged"@ ==> r is None,
{
    crate::evolution::lemma_states();
}

/// Superseding reaches a delivery by how far it has come: one that was not accepted is superseded,
/// one that was is asked to make way, and any other is past it.
pub proof fn superseded_deliveries_go_here(prior: &str, r: Option<&'static str>)
    requires
        call_ensures(supersession_state, (prior,), r),
    ensures
        prior@ == "queued"@ || prior@ == "received"@ ==> (r matches Some(s) && s@ == "superseded"@),
        prior@ == "accepted"@ || prior@ == "acknowledged"@ ==> (r matches Some(s) && s@ == "supersession_requested"@),
        prior@ != "queued"@ && prior@ != "received"@ && prior@ != "accepted"@ && prior@ != "acknowledged"@ ==> r is None,
{
    crate::evolution::lemma_states();
}

/// The chain of receipts: queued, received, accepted, acknowledged. A place and its state name each
/// other.
pub proof fn receipts_form_a_chain(n: u8, state: &'static str, place: Option<u8>, other: &str, elsewhere: Option<u8>)
    requires
        n <= 3,
        call_ensures(state_of, (n,), state),
        call_ensures(rank_of, (state,), place),
        call_ensures(rank_of, (other,), elsewhere),
    ensures
        place == Some(n),
        n == 0 ==> state@ == "queued"@,
        n == 1 ==> state@ == "received"@,
        n == 2 ==> state@ == "accepted"@,
        n == 3 ==> state@ == "acknowledged"@,
        elsewhere is Some <==> other@ == "queued"@ || other@ == "received"@ || other@ == "accepted"@ || other@ == "acknowledged"@,
        elsewhere == Some(n) ==> other@ == state@,
{
    crate::evolution::lemma_states();
}

/// A list has its names once each where no name of it comes again.
pub proof fn repeated_names_are_noticed(v: Vec<String>, r: bool, i: int, j: int)
    requires
        call_ensures(are_distinct, (&v,), r),
        0 <= i < j < v@.len(),
    ensures
        v@[i]@ == v@[j]@ ==> !r,
        (forall|a: int, b: int| 0 <= a < b < v@.len() ==> (#[trigger] v@[a])@ != (#[trigger] v@[b])@) ==> r,
{
    assert(texts(v@)[i] == v@[i]@ && texts(v@)[j] == v@[j]@);
}

/// What goes to the inbox belongs there; what goes to a request belongs to the inbox where it answers
/// that request and the request did not ask to wait; nothing else does.
pub proof fn inboxes_get_what_is_theirs(db: HcomDb, message_id: &str, endpoint: &str, r: Result<bool, LifecycleError>, request: Seq<char>, reply: RecordV, parent: RecordV)
    requires
        call_ensures(HcomDb::delivery_routes_to_inbox, (&db, message_id, endpoint), r),
        db@.record(message_id@) matches Some(x) ==> x == reply,
        db@.record(request) matches Some(x) ==> x == parent,
    ensures
        endpoint@ == "inbox"@ ==> (r matches Ok(b) && b),
        endpoint@ != "inbox"@ && after_prefix(endpoint@, "request:"@) is None ==> (r matches Ok(b) && !b),
        endpoint@ == "request:"@ + request && (db@.record(message_id@) is None || reply.in_reply_to != Some(request)) ==> (r matches Ok(b) && !b),
        endpoint@ == "request:"@ + request && db@.record(message_id@) is Some && reply.in_reply_to == Some(request) && db@.record(request) is Some && db@.event(parent.event_id) is Some ==> {
            let asked = member(db@.event(parent.event_id)->0.data, "reply_mode"@);
            &&& asked is None || asked == Some(JsonV::Null) || asked == Some(JsonV::Text("inbox"@)) ==> (r matches Ok(b) && b)
            &&& asked == Some(JsonV::Text("wait"@)) ==> (r matches Ok(b) && !b)
        },
{
    reveal_strlit("inbox");
    reveal_strlit("request:");
    reveal_strlit("wait");
    assert("inbox"@.len() == 5 && "request:"@.len() == 8 && "wait"@.len() == 4);
    if endpoint@ == "request:"@ + request {
        assert(endpoint@.len() >= 8);
        assert(endpoint@.skip(8) =~= request);
        assert(endpoint@.take(8) =~= "request:"@);
    }
}

proof fn lemma_kept_watch(s: Seq<WatchV>, p: spec_fn(WatchV) -> bool, i: int)
    requires
        0 <= i < s.filter(p).len(),
    ensures
        s.contains(s.filter(p)[i]),
    decreases s.len(),
{
    reveal(Seq::filter);
    let before = s.drop_last().filter(p);
    if i < before.len() {
        lemma_kept_watch(s.drop_last(), p, i);
        let k = choose|k: int| 0 <= k < s.drop_last().len() && s.drop_last()[k] == before[i];
        assert(s[k] == before[i]);
    } else {
        assert(s[s.len() - 1] == s.filter(p)[i]);
    }
}

/// Watches that end are taken away, and no others.
pub proof fn ended_watches_are_taken_away(db: &mut HcomDb, message_id: &str, recipient: Option<&str>, removed: usize, event_id: int, w: WatchV)
    requires
        call_ensures(HcomDb::clear_request_watches_v1, (db, message_id, recipient), removed),
    ensures
        old(db)@.record(message_id@) is None ==> final(db)@ == old(db)@ && removed == 0,
        final(db)@.watches.contains(w) ==> old(db)@.watches.contains(w),
        (old(db)@.record(message_id@) matches Some(rec) && rec.event_id == event_id) && old(db)@.watches.contains(w) ==> (final(db)@.watches.contains(w) <==> !(w.request_id == event_id && (recipient matches Some(name) ==> w.target == Some(name@)))),
        removed == old(db)@.watches.len() - final(db)@.watches.len(),
        final(db)@.deliveries == old(db)@.deliveries && final(db)@.events == old(db)@.events && final(db)@.records == old(db)@.records,
{
    if let Some(rec) = old(db)@.record(message_id@) {
        let p = |w: WatchV| !watch_matches(w, rec.event_id, opt_str(recipient));
        let kept = old(db)@.watches.filter(p);
        assert(final(db)@.watches == kept);
        old(db)@.watches.filter_lemma(p);
        if kept.contains(w) {
            let i = choose|i: int| 0 <= i < kept.len() && kept[i] == w;
            assert(p(kept[i]));
            lemma_kept_watch(old(db)@.watches, p, i);
        }
        if old(db)@.watches.contains(w) && p(w) {
            let i = choose|i: int| 0 <= i < old(db)@.watches.len() && old(db)@.watches[i] == w;
            assert(kept.contains(old(db)@.watches[i]));
        }
    }
}

proof fn lemma_highest(db: DbV, correlation_id: Seq<char>, sender: Seq<char>, recipients: Seq<Seq<char>>, n: int)
    requires
        0 <= n <= db.deliveries.len(),
    ensures
        forall|i: int| 0 <= i < n && in_lineage(db, #[trigger] db.deliveries[i], correlation_id, sender, recipients) ==> db.deliveries[i].attempt <= highest_attempt(db, correlation_id, sender, recipients, n),
        highest_attempt(db, correlation_id, sender, recipients, n) >= 0,
        highest_attempt(db, correlation_id, sender, recipients, n) > 0 ==> exists|i: int| 0 <= i < n && in_lineage(db, #[trigger] db.deliveries[i], correlation_id, sender, recipients) && db.deliveries[i].attempt == highest_attempt(db, correlation_id, sender, recipients, n),
    decreases n,
{
    if n > 0 {
        lemma_highest(db, correlation_id, sender, recipients, n - 1);
        let best = highest_attempt(db, correlation_id, sender, recipients, n - 1);
        let row = db.deliveries[n - 1];
        if in_lineage(db, row, correlation_id, sender, recipients) && row.attempt > best {
            assert(in_lineage(db, db.deliveries[n - 1], correlation_id, sender, recipients));
        } else if best > 0 {
            let i = choose|i: int| 0 <= i < n - 1 && in_lineage(db, #[trigger] db.deliveries[i], correlation_id, sender, recipients) && db.deliveries[i].attempt == best;
            assert(in_lineage(db, db.deliveries[i], correlation_id, sender, recipients));
        }
    }
}

/// The highest attempt is that of a delivery to one of the recipients, of a message by the sender in
/// the correlation, and no such delivery has a higher one; where there is none it is zero.
pub proof fn attempts_are_counted_along_the_lineage(db: HcomDb, correlation_id: &str, sender: &str, recipients: Vec<String>, r: i64, i: int, rec: RecordV)
    requires
        call_ensures(HcomDb::highest_attempt_of, (&db, correlation_id, sender, &recipients), r),
    ensures
        r >= 0,
        0 <= i < db.deliveries@.len() && texts(recipients@).contains(db.deliveries@[i].recipient_name@) && db@.record(db.deliveries@[i].message_id@) == Some(rec) && rec.correlation_id == correlation_id@ && rec.sender_name == sender@ ==> db.deliveries@[i].attempt <= r,
        r > 0 ==> exists|k: int| 0 <= k < db.deliveries@.len() && (#[trigger] db.deliveries@[k]).attempt == r && texts(recipients@).contains(db.deliveries@[k].recipient_name@) && (db@.record(db.deliveries@[k].message_id@) matches Some(x) && x.correlation_id == correlation_id@ && x.sender_name == sender@),
{
    let n = db@.deliveries.len() as int;
    lemma_highest(db@, correlation_id@, sender@, texts(recipients@), n);
    if 0 <= i < n {
        assert(db@.deliveries[i] == db.deliveries@[i]@);
    }
    if r > 0 {
        let k = choose|k: int| 0 <= k < n && in_lineage(db@, #[trigger] db@.deliveries[k], correlation_id@, sender@, texts(recipients@)) && db@.deliveries[k].attempt == r;
        assert(db@.deliveries[k] == db.deliveries@[k]@);
        assert(db.deliveries@[k].attempt == r);
    }
}

} // verus!
