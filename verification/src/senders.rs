//! What senders do with their messages: cancel, inspect, find replies, and wait for them.

use crate::json::{
    Json, JsonV, Member, MemberV, duplicate_object, lemma_member_at, lemma_object, member, member_text,
    object_view,
    push_member, set_member, with_member,
};
use crate::lifecycle::{cancellation_state, cancellation_target, closed_to_replies, watches_cleared};
use crate::receipts::{grows, receipted};
use crate::rows::{lemma_views_push, views};
use crate::search::{first_where, first_where_is_least, position};
use crate::store::{
    DbV, Delivery, DeliveryV, ErrorKind, ErrorV, EventV, HcomDb, LifecycleError, MESSAGE_PROTOCOL_V1,
    MessageRecord, RecordV, Savepoint, event_logged, moved, notified_after, plain, refusal_text, refuse,
};
use crate::text::{as_opt_str, cat, decimal, parse_i64, parse_signed, same, same_opt, text_less, text_lt};
use vstd::prelude::*;

verus! {

/// Positions as mathematical integers.
pub open spec fn positions(v: Seq<usize>) -> Seq<int> {
    Seq::new(v.len(), |i: int| v[i] as int)
}

/// A list of positions of deliveries, ordered by recipient, with one more put in its place: after
/// those whose recipient does not come later.
pub open spec fn placed(rows: Seq<DeliveryV>, s: Seq<int>, k: int) -> Seq<int>
    decreases s.len(),
{
    if s.len() == 0 || !text_lt(rows[k].recipient_name, rows[s.last()].recipient_name) {
        s.push(k)
    } else {
        placed(rows, s.drop_last(), k).push(s.last())
    }
}

/// The positions of the deliveries of a message among the first `n`, ordered by recipient.
pub open spec fn recipient_order(rows: Seq<DeliveryV>, message_id: Seq<char>, n: int) -> Seq<int>
    decreases n,
{
    if n <= 0 {
        Seq::empty()
    } else {
        let s = recipient_order(rows, message_id, n - 1);
        if rows[n - 1].message_id == message_id {
            placed(rows, s, n - 1)
        } else {
            s
        }
    }
}

proof fn lemma_placed(rows: Seq<DeliveryV>, s: Seq<int>, k: int, p: int)
    requires
        0 <= p <= s.len(),
        p == 0 || !text_lt(rows[k].recipient_name, rows[s[p - 1]].recipient_name),
        forall|q: int|
            p <= q < s.len() ==> text_lt(rows[k].recipient_name, rows[#[trigger] s[q]].recipient_name),
    ensures
        placed(rows, s, k) == s.insert(p, k),
    decreases s.len(),
{
    if p == s.len() {
        assert(s.insert(p, k) =~= s.push(k));
    } else {
        assert(text_lt(rows[k].recipient_name, rows[s[s.len() - 1]].recipient_name));
        let t = s.drop_last();
        assert forall|q: int| p <= q < t.len() implies text_lt(
            rows[k].recipient_name,
            rows[#[trigger] t[q]].recipient_name,
        ) by {
            assert(t[q] == s[q]);
        }
        lemma_placed(rows, t, k, p);
        assert(s.insert(p, k) =~= t.insert(p, k).push(s.last()));
    }
}

/// Whether positions are in the order of their recipients.
pub open spec fn in_recipient_order(rows: Seq<DeliveryV>, s: Seq<int>) -> bool {
    forall|i: int, j: int|
        0 <= i < j < s.len() ==> !text_lt(
            rows[#[trigger] s[j]].recipient_name,
            rows[#[trigger] s[i]].recipient_name,
        )
}

proof fn lemma_placed_ordered(rows: Seq<DeliveryV>, s: Seq<int>, k: int)
    requires
        in_recipient_order(rows, s),
    ensures
        in_recipient_order(rows, placed(rows, s, k)),
        placed(rows, s, k).to_multiset() == s.to_multiset().insert(k),
        placed(rows, s, k).len() == s.len() + 1,
        forall|i: int|
            0 <= i < placed(rows, s, k).len() ==> (#[trigger] placed(rows, s, k)[i]) == k
                || s.contains(placed(rows, s, k)[i]),
        forall|i: int| 0 <= i < s.len() ==> placed(rows, s, k).contains(#[trigger] s[i]),
        placed(rows, s, k).contains(k),
    decreases s.len(),
{
    broadcast use vstd::seq_lib::group_to_multiset_ensures;

    let r = placed(rows, s, k);
    if s.len() == 0 || !text_lt(rows[k].recipient_name, rows[s.last()].recipient_name) {
        assert(r[s.len() as int] == k);
        assert forall|i: int, j: int| 0 <= i < j < r.len() implies !text_lt(
            rows[#[trigger] r[j]].recipient_name,
            rows[#[trigger] r[i]].recipient_name,
        ) by {
            if j == s.len() && i < s.len() - 1 {
                assert(!text_lt(rows[s[s.len() - 1]].recipient_name, rows[s[i]].recipient_name));
                let a = rows[k].recipient_name;
                let b = rows[s.last()].recipient_name;
                let c = rows[s[i]].recipient_name;
                if text_lt(a, c) {
                    crate::text::lemma_text_lt_total(b, c);
                    if b == c {
                    } else {
                        crate::text::lemma_text_lt_transitive(a, c, b);
                    }
                }
            } else if j < s.len() {
                assert(r[j] == s[j] && r[i] == s[i]);
            }
        }
        assert forall|i: int| 0 <= i < s.len() implies r.contains(#[trigger] s[i]) by {
            assert(r[i] == s[i]);
        }
        assert forall|i: int| 0 <= i < r.len() implies (#[trigger] r[i]) == k || s.contains(r[i]) by {
            if i < s.len() {
                assert(r[i] == s[i]);
            }
        }
    } else {
        let t = s.drop_last();
        assert(in_recipient_order(rows, t)) by {
            assert forall|i: int, j: int| 0 <= i < j < t.len() implies !text_lt(
                rows[#[trigger] t[j]].recipient_name,
                rows[#[trigger] t[i]].recipient_name,
            ) by {
                assert(t[i] == s[i] && t[j] == s[j]);
            }
        }
        lemma_placed_ordered(rows, t, k);
        let u = placed(rows, t, k);
        assert(s =~= t.push(s.last()));
        assert forall|i: int, j: int| 0 <= i < j < r.len() implies !text_lt(
            rows[#[trigger] r[j]].recipient_name,
            rows[#[trigger] r[i]].recipient_name,
        ) by {
            if j < u.len() {
                assert(r[i] == u[i] && r[j] == u[j]);
            } else {
                assert(r[j] == s.last() && r[i] == u[i]);
                if u[i] == k {
                    if text_lt(rows[s.last()].recipient_name, rows[k].recipient_name) {
                        crate::text::lemma_text_lt_transitive(
                            rows[k].recipient_name,
                            rows[s.last()].recipient_name,
                            rows[k].recipient_name,
                        );
                        crate::text::lemma_text_lt_irreflexive(rows[k].recipient_name);
                    }
                } else {
                    let q = choose|q: int| 0 <= q < t.len() && t[q] == u[i];
                    assert(t[q] == s[q] && s[s.len() - 1] == s.last());
                }
            }
        }
        assert(r.contains(k)) by {
            let q = choose|q: int| 0 <= q < u.len() && u[q] == k;
            assert(r[q] == k);
        }
        assert forall|i: int| 0 <= i < s.len() implies r.contains(#[trigger] s[i]) by {
            if i < t.len() {
                assert(u.contains(t[i]));
                let q = choose|q: int| 0 <= q < u.len() && u[q] == t[i];
                assert(r[q] == s[i]);
            } else {
                assert(r[r.len() - 1] == s[i]);
            }
        }
        assert forall|i: int| 0 <= i < r.len() implies (#[trigger] r[i]) == k || s.contains(r[i]) by {
            if i < u.len() {
                assert(r[i] == u[i]);
                if u[i] != k {
                    let q = choose|q: int| 0 <= q < t.len() && t[q] == u[i];
                    assert(s[q] == r[i]);
                }
            } else {
                assert(s[s.len() - 1] == r[i]);
            }
        }
        assert(r.to_multiset() =~= s.to_multiset().insert(k));
    }
}

/// The listing of a message's deliveries is in the order of their recipients, and it holds the
/// position of each delivery of the message and of no other.
pub proof fn recipient_order_lists_all(rows: Seq<DeliveryV>, message_id: Seq<char>, n: int)
    requires
        0 <= n <= rows.len(),
    ensures
        in_recipient_order(rows, recipient_order(rows, message_id, n)),
        forall|k: int|
            recipient_order(rows, message_id, n).contains(k) <==> 0 <= k < n && (
            #[trigger] rows[k]).message_id == message_id,
    decreases n,
{
    if n > 0 {
        recipient_order_lists_all(rows, message_id, n - 1);
        let s = recipient_order(rows, message_id, n - 1);
        let r = recipient_order(rows, message_id, n);
        if rows[n - 1].message_id == message_id {
            lemma_placed_ordered(rows, s, n - 1);
            assert forall|k: int| r.contains(k) <==> 0 <= k < n && (#[trigger] rows[k]).message_id
                == message_id by {
                if r.contains(k) {
                    let q = choose|q: int| 0 <= q < r.len() && r[q] == k;
                    assert(r[q] == n - 1 || s.contains(r[q]));
                }
                if 0 <= k < n - 1 && rows[k].message_id == message_id {
                    assert(s.contains(k));
                    let q = choose|q: int| 0 <= q < s.len() && s[q] == k;
                    assert(r.contains(s[q]));
                }
            }
        }
    } else {
        assert(recipient_order(rows, message_id, n) =~= Seq::<int>::empty());
    }
}

/// A message and its deliveries, as they are shown.
#[derive(Debug)]
pub struct Inspection {
    pub message: Json,
    pub deliveries: Vec<Delivery>,
}

/// The view of an [`Inspection`].
pub struct InspectionV {
    pub message: JsonV,
    pub deliveries: Seq<DeliveryV>,
}

impl View for Inspection {
    type V = InspectionV;

    open spec fn view(&self) -> InspectionV {
        InspectionV { message: self.message@, deliveries: views(self.deliveries@) }
    }
}

/// A payload with the local event id put in.
pub open spec fn with_event_id(data: JsonV, event_id: int) -> JsonV {
    match data {
        JsonV::Object(ms) => JsonV::Object(with_member(ms, "event_id"@, JsonV::Int(event_id))),
        JsonV::Null => JsonV::Object(
            seq![MemberV { key: "event_id"@, value: JsonV::Int(event_id) }],
        ),
        other => other,
    }
}

/// The rows at the positions, in order.
pub open spec fn rows_at(rows: Seq<DeliveryV>, s: Seq<int>) -> Seq<DeliveryV> {
    Seq::new(s.len(), |i: int| rows[s[i]])
}

/// A message as it is shown; or the refusal.
pub open spec fn inspected(db: DbV, message_id: Seq<char>) -> Result<InspectionV, ErrorV> {
    match db.record(message_id) {
        None => Err(plain(ErrorKind::MessageNotFound)),
        Some(r) => match db.event(r.event_id) {
            None => Err(plain(ErrorKind::MessageNotFound)),
            Some(e) => Ok(
                InspectionV {
                    message: with_event_id(e.data, r.event_id),
                    deliveries: rows_at(
                        db.deliveries,
                        recipient_order(db.deliveries, message_id, db.deliveries.len() as int),
                    ),
                },
            ),
        },
    }
}

/// Whether an actor takes part in a message.
pub open spec fn takes_part(db: DbV, record: RecordV, actor: Seq<char>) -> bool {
    record.sender_name == actor || db.delivery_pos(record.message_id, actor) is Some
}

/// The message that a reference stands for, to an actor who takes part in it: a message id, or
/// else the number of a local event. A message that is absent and one that the actor takes no
/// part in are refused alike.
pub open spec fn resolved(db: DbV, reference: Seq<char>, actor: Seq<char>) -> Result<
    Seq<char>,
    ErrorV,
> {
    match db.record(reference) {
        Some(r) => if takes_part(db, r, actor) {
            Ok(r.message_id)
        } else {
            Err(plain(ErrorKind::MessageNotFound))
        },
        None => match parse_signed(reference) {
            None => Err(plain(ErrorKind::MessageNotFound)),
            Some(event_id) => match db.record_by_event(event_id) {
                Some(r) => if takes_part(db, r, actor) {
                    Ok(r.message_id)
                } else {
                    Err(plain(ErrorKind::MessageNotFound))
                },
                None => Err(plain(ErrorKind::MessageNotFound)),
            },
        },
    }
}

/// Whether someone has answered a message.
pub open spec fn answered_by(db: DbV, message_id: Seq<char>, actor: Seq<char>) -> bool {
    exists|i: int|
        0 <= i < db.records.len() && (#[trigger] db.records[i]).in_reply_to == Some(message_id)
            && db.records[i].sender_name == actor
}

/// Whether a message is a request that an actor still owes an answer to.
pub open spec fn owes_reply(db: DbV, record: RecordV, actor: Seq<char>) -> bool {
    &&& record.intent == Some("request"@)
    &&& record.expects_reply
    &&& db.delivery(record.message_id, actor) matches Some(row) && !closed_to_replies(row.state)
    &&& !answered_by(db, record.message_id, actor)
}

/// The requests among the first `n` messages that an actor still owes an answer to.
pub open spec fn pending(db: DbV, actor: Seq<char>, n: int) -> Result<Seq<InspectionV>, ErrorV>
    decreases n,
{
    if n <= 0 {
        Ok(Seq::empty())
    } else {
        match pending(db, actor, n - 1) {
            Err(e) => Err(e),
            Ok(s) => if owes_reply(db, db.records[n - 1], actor) {
                match inspected(db, db.records[n - 1].message_id) {
                    Err(e) => Err(e),
                    Ok(v) => Ok(s.push(v)),
                }
            } else {
                Ok(s)
            },
        }
    }
}

/// Whether the requests that an actor still owes an answer to can be shown.
pub open spec fn pending_readable(db: DbV, actor: Seq<char>) -> bool {
    forall|i: int|
        0 <= i < db.records.len() && owes_reply(db, #[trigger] db.records[i], actor)
            ==> db.readable(db.records[i].message_id)
}

/// Whether a reply has not been taken by its recipient.
pub open spec fn untaken(state: Seq<char>) -> bool {
    state != "acknowledged"@ && state != "replied"@ && state != "cancelled"@ && state
        != "superseded"@ && state != "delivery_failed"@
}

/// Whether a message is a reply to a request that waits for an actor.
pub open spec fn waits_for(db: DbV, record: RecordV, request_id: Seq<char>, actor: Seq<char>) -> bool {
    &&& record.in_reply_to == Some(request_id)
    &&& db.delivery(record.message_id, actor) matches Some(row) && (row.delivery_endpoint
        == "inbox"@ || row.delivery_endpoint == "request:"@ + request_id) && untaken(row.state)
}

/// The condition that the message at a position is a reply that waits for an actor.
pub open spec fn reply_waiting(db: DbV, request_id: Seq<char>, actor: Seq<char>) -> spec_fn(
    int,
) -> bool {
    |i: int| waits_for(db, db.records[i], request_id, actor)
}

/// Whether an actor sent a message.
pub open spec fn sent_by(db: DbV, message_id: Seq<char>, actor: Seq<char>) -> bool {
    db.record(message_id) matches Some(r) && r.sender_name == actor
}

/// The earliest reply to a request that waits for the actor, who must have sent the request.
pub open spec fn reply_found(db: DbV, request_id: Seq<char>, actor: Seq<char>) -> Result<
    Option<InspectionV>,
    ErrorV,
> {
    if !sent_by(db, request_id, actor) {
        Err(plain(ErrorKind::WaitNotSender))
    } else {
        match first_where(db.records.len() as int, reply_waiting(db, request_id, actor)) {
            None => Ok(None),
            Some(i) => match inspected(db, db.records[i].message_id) {
                Err(e) => Err(e),
                Ok(v) => Ok(Some(v)),
            },
        }
    }
}

/// Whether the earliest reply to a request of the actor can be shown.
pub open spec fn reply_readable(db: DbV, request_id: Seq<char>, actor: Seq<char>) -> bool {
    sent_by(db, request_id, actor) ==> match first_where(
        db.records.len() as int,
        reply_waiting(db, request_id, actor),
    ) {
        Some(i) => db.readable(db.records[i].message_id),
        None => true,
    }
}

/// Whether the earliest reply to a request of the actor can be shown, and the message that its
/// payload names can.
pub open spec fn claim_readable(db: DbV, request_id: Seq<char>, actor: Seq<char>) -> bool {
    &&& reply_readable(db, request_id, actor)
    &&& reply_found(db, request_id, actor) matches Ok(Some(v)) ==> (member_text(
        v.message,
        "message_id"@,
    ) matches Some(id) ==> db.readable(id))
}

/// The endpoint epoch of the first delivery shown, empty where there is none.
pub open spec fn first_epoch(v: InspectionV) -> Seq<char> {
    if v.deliveries.len() == 0 {
        Seq::empty()
    } else {
        v.deliveries[0].endpoint_epoch
    }
}

/// The store after the actor has taken the earliest reply to a request, and the reply as it is
/// then shown.
pub open spec fn reply_claimed(db: DbV, request_id: Seq<char>, actor: Seq<char>, now: Seq<char>) -> (
    DbV,
    Result<Option<InspectionV>, ErrorV>,
) {
    match reply_found(db, request_id, actor) {
        Err(e) => (db, Err(e)),
        Ok(None) => (db, Ok(None)),
        Ok(Some(v)) => match member_text(v.message, "message_id"@) {
            None => (db, Err(plain(ErrorKind::ReplyWithoutId))),
            Some(id) => match receipted(
                db,
                id,
                actor,
                actor,
                first_epoch(v),
                "acknowledged"@,
                "request waiter claimed reply"@,
                now,
            ) {
                Err(e) => (db, Err(e)),
                Ok((d, _)) => match inspected(d, id) {
                    Err(e) => (d, Err(e)),
                    Ok(w) => (d, Ok(Some(w))),
                },
            },
        },
    }
}

/// What became of one delivery of a cancelled message.
#[derive(Debug)]
pub struct CancelOutcome {
    pub recipient: String,
    pub state: String,
    pub changed: bool,
}

/// The view of a [`CancelOutcome`].
pub struct OutcomeV {
    pub recipient: Seq<char>,
    pub state: Seq<char>,
    pub changed: bool,
}

impl View for CancelOutcome {
    type V = OutcomeV;

    open spec fn view(&self) -> OutcomeV {
        OutcomeV { recipient: self.recipient@, state: self.state@, changed: self.changed }
    }
}

/// The store after the deliveries at the first `n` of the positions are cancelled, and what became
/// of each.
pub open spec fn cancelled(db: DbV, order: Seq<int>, actor: Seq<char>, now: Seq<char>, n: int) -> Result<
    (DbV, Seq<OutcomeV>),
    ErrorV,
>
    decreases n,
{
    if n <= 0 {
        Ok((db, Seq::empty()))
    } else {
        match cancelled(db, order, actor, now, n - 1) {
            Err(e) => Err(e),
            Ok((d, outcomes)) => {
                let k = order[n - 1];
                let row = d.deliveries[k];
                match cancellation_target(row.state) {
                    None => Ok(
                        (
                            d,
                            outcomes.push(
                                OutcomeV {
                                    recipient: row.recipient_name,
                                    state: row.state,
                                    changed: false,
                                },
                            ),
                        ),
                    ),
                    Some(next) => match moved(d, k, next, actor, "cancel"@, now, actor) {
                        Err(e) => Err(e),
                        Ok((d2, _)) => Ok(
                            (
                                d2,
                                outcomes.push(
                                    OutcomeV {
                                        recipient: row.recipient_name,
                                        state: next,
                                        changed: true,
                                    },
                                ),
                            ),
                        ),
                    },
                }
            },
        }
    }
}

/// The store without the watches on a message at those of the first `n` recipients whose delivery
/// was cancelled for good.
pub open spec fn outcome_watches_cleared(
    db: DbV,
    message_id: Seq<char>,
    outcomes: Seq<OutcomeV>,
    n: int,
) -> DbV
    decreases n,
{
    if n <= 0 {
        db
    } else {
        let d = outcome_watches_cleared(db, message_id, outcomes, n - 1);
        if outcomes[n - 1].changed && outcomes[n - 1].state == "cancelled"@ {
            watches_cleared(d, message_id, Some(outcomes[n - 1].recipient))
        } else {
            d
        }
    }
}

/// The store after a message is cancelled by its sender, and what became of each delivery; or the
/// refusal.
pub open spec fn message_cancelled(db: DbV, message_id: Seq<char>, actor: Seq<char>, now: Seq<char>) -> Result<
    (DbV, Seq<OutcomeV>),
    ErrorV,
> {
    if !sent_by(db, message_id, actor) {
        Err(plain(ErrorKind::CancelNotSender))
    } else {
        let order = recipient_order(db.deliveries, message_id, db.deliveries.len() as int);
        match cancelled(db, order, actor, now, order.len() as int) {
            Err(e) => Err(e),
            Ok((d, outcomes)) => Ok(
                (
                    notified_after(
                        outcome_watches_cleared(d, message_id, outcomes, outcomes.len() as int),
                        db.sequence,
                    ),
                    outcomes,
                ),
            ),
        }
    }
}

/// The payload of the event that logs a wait that timed out.
pub open spec fn timeout_data(message_id: Seq<char>, actor: Seq<char>, now: Seq<char>) -> JsonV {
    JsonV::Object(
        seq![
            MemberV { key: "actor"@, value: JsonV::Text(actor) },
            MemberV { key: "message_id"@, value: JsonV::Text(message_id) },
            MemberV { key: "new_state"@, value: JsonV::Text("ask_timed_out"@) },
            MemberV { key: "protocol"@, value: JsonV::Text(MESSAGE_PROTOCOL_V1@) },
            MemberV { key: "reason"@, value: JsonV::Text("wait timeout"@) },
            MemberV { key: "timestamp"@, value: JsonV::Text(now) },
        ],
    )
}

/// The store after a wait has timed out, and the id of the event that logs it; or the refusal.
pub open spec fn timeout_logged(db: DbV, message_id: Seq<char>, actor: Seq<char>, now: Seq<char>) -> Result<
    (DbV, int),
    ErrorV,
> {
    if !sent_by(db, message_id, actor) {
        Err(plain(ErrorKind::WaitNotSender))
    } else {
        match event_logged(
            db,
            now,
            "message_state"@,
            actor,
            timeout_data(message_id, actor, now),
        ) {
            Err(e) => Err(e),
            Ok((d, id)) => Ok((notified_after(d, db.sequence), id)),
        }
    }
}

fn timeout_json(message_id: &str, actor: &str, now: &str) -> (r: Json)
    ensures
        r@ == timeout_data(message_id@, actor@, now@),
{
    let mut v: Vec<Member> = Vec::new();
    push_member(&mut v, "actor", Json::text(actor));
    push_member(&mut v, "message_id", Json::text(message_id));
    push_member(&mut v, "new_state", Json::text("ask_timed_out"));
    push_member(&mut v, "protocol", Json::text(MESSAGE_PROTOCOL_V1));
    push_member(&mut v, "reason", Json::text("wait timeout"));
    push_member(&mut v, "timestamp", Json::text(now));
    proof {
        lemma_object(v);
        assert(object_view(v@) =~= timeout_data(message_id@, actor@, now@)->Object_0);
    }
    Json::Object(v)
}

proof fn lemma_cancelled_fails(
    db: DbV,
    order: Seq<int>,
    actor: Seq<char>,
    now: Seq<char>,
    n: int,
    m: int,
    e: ErrorV,
)
    requires
        0 <= n <= m,
        cancelled(db, order, actor, now, n) == Err::<(DbV, Seq<OutcomeV>), ErrorV>(e),
    ensures
        cancelled(db, order, actor, now, m) == Err::<(DbV, Seq<OutcomeV>), ErrorV>(e),
    decreases m - n,
{
    if n < m {
        lemma_cancelled_fails(db, order, actor, now, n, m - 1, e);
    }
}

proof fn lemma_pending_fails(db: DbV, actor: Seq<char>, n: int, m: int, e: ErrorV)
    requires
        0 <= n <= m,
        pending(db, actor, n) == Err::<Seq<InspectionV>, ErrorV>(e),
    ensures
        pending(db, actor, m) == Err::<Seq<InspectionV>, ErrorV>(e),
    decreases m - n,
{
    if n < m {
        lemma_pending_fails(db, actor, n, m - 1, e);
    }
}

fn put_event_id(data: &Json, event_id: i64) -> (r: Json)
    ensures
        r@ == with_event_id(data@, event_id as int),
{
    match data {
        Json::Object(ms) => {
            let mut members: Vec<Member> = duplicate_object(ms);
            proof {
                lemma_object(*ms);
            }
            set_member(&mut members, "event_id", Json::Int(event_id));
            proof {
                lemma_object(members);
            }
            Json::Object(members)
        },
        Json::Null => {
            let mut members: Vec<Member> = Vec::new();
            push_member(&mut members, "event_id", Json::Int(event_id));
            proof {
                lemma_object(members);
                assert(object_view(members@) =~= seq![
                    MemberV { key: "event_id"@, value: JsonV::Int(event_id as int) },
                ]);
            }
            Json::Object(members)
        },
        _ => data.duplicate(),
    }
}

impl HcomDb {
    fn order_by_recipient(&self, message_id: &str) -> (r: Vec<usize>)
        ensures
            positions(r@) == recipient_order(
                self@.deliveries,
                message_id@,
                self@.deliveries.len() as int,
            ),
            forall|i: int| 0 <= i < r@.len() ==> #[trigger] r@[i] < self.deliveries@.len(),
    {
        let ghost rows = self@.deliveries;
        let mut out: Vec<usize> = Vec::new();
        let mut n: usize = 0;
        assert(positions(out@) =~= Seq::<int>::empty());
        while n < self.deliveries.len()
            invariant
                n <= self.deliveries@.len(),
                rows == self@.deliveries,
                out@.len() <= n,
                positions(out@) == recipient_order(rows, message_id@, n as int),
                forall|i: int| 0 <= i < out@.len() ==> #[trigger] out@[i] < n,
            decreases self.deliveries.len() - n,
        {
            if same(self.deliveries[n].message_id.as_str(), message_id) {
                let ghost s = positions(out@);
                let mut p: usize = out.len();
                while p > 0 && text_less(
                    self.deliveries[n].recipient_name.as_str(),
                    self.deliveries[out[p - 1]].recipient_name.as_str(),
                )
                    invariant
                        p <= out@.len(),
                        n < self.deliveries@.len(),
                        rows == self@.deliveries,
                        s == positions(out@),
                        forall|i: int| 0 <= i < out@.len() ==> #[trigger] out@[i] < n,
                        forall|q: int|
                            p <= q < s.len() ==> text_lt(
                                rows[n as int].recipient_name,
                                rows[#[trigger] s[q]].recipient_name,
                            ),
                    decreases p,
                {
                    assert(s[p - 1] == out@[p - 1]);
                    p = p - 1;
                }
                proof {
                    if p > 0 {
                        assert(s[p - 1] == out@[p - 1]);
                    }
                    lemma_placed(rows, s, n as int, p as int);
                    assert(positions(out@.insert(p as int, n)) =~= s.insert(p as int, n as int));
                }
                out.insert(p, n);
            }
            n += 1;
        }
        out
    }

    /// A message and its deliveries, ordered by recipient.
    pub fn inspect_message_v1(&self, message_id: &str) -> (r: Result<Inspection, LifecycleError>)
        requires
            self@.readable(message_id@),
        ensures
            match r {
                Ok(v) => inspected(self@, message_id@) == Ok::<InspectionV, ErrorV>(v@),
                Err(e) => inspected(self@, message_id@) == Err::<InspectionV, ErrorV>(e@),
            },
    {
        let i: usize = match self.find_record(message_id) {
            None => {
                return Err(refuse(ErrorKind::MessageNotFound));
            },
            Some(i) => i,
        };
        let event_id: i64 = self.records[i].event_id;
        assert(self@.records[i as int].event_id == event_id);
        let j: usize = match self.find_event(event_id) {
            None => {
                return Err(refuse(ErrorKind::MessageNotFound));
            },
            Some(j) => j,
        };
        let message: Json = put_event_id(&self.events[j].data, event_id);
        let order: Vec<usize> = self.order_by_recipient(message_id);
        let mut deliveries: Vec<Delivery> = Vec::new();
        let mut n: usize = 0;
        while n < order.len()
            invariant
                n <= order@.len(),
                deliveries@.len() == n,
                forall|q: int| 0 <= q < order@.len() ==> #[trigger] order@[q] < self.deliveries@.len(),
                forall|q: int|
                    0 <= q < n ==> (#[trigger] deliveries@[q])@ == self@.deliveries[positions(order@)[q]],
            decreases order.len() - n,
        {
            deliveries.push(self.deliveries[order[n]].duplicate());
            n += 1;
        }
        assert(views(deliveries@) =~= rows_at(self@.deliveries, positions(order@)));
        Ok(Inspection { message, deliveries })
    }

    fn is_party(&self, i: usize, actor: &str) -> (r: bool)
        requires
            i < self.records@.len(),
        ensures
            r == takes_part(self@, self.records@[i as int]@, actor@),
    {
        same(self.records[i].sender_name.as_str(), actor) || self.find_delivery(
            self.records[i].message_id.as_str(),
            actor,
        ).is_some()
    }

    /// The message that a reference stands for: a message id, or else the number of a local event.
    /// A message that is absent and one that the actor takes no part in are refused alike.
    pub fn resolve_message_reference_v1(&self, reference: &str, actor: &str) -> (r: Result<
        String,
        LifecycleError,
    >)
        ensures
            match r {
                Ok(id) => resolved(self@, reference@, actor@) == Ok::<Seq<char>, ErrorV>(id@),
                Err(e) => resolved(self@, reference@, actor@) == Err::<Seq<char>, ErrorV>(e@),
            },
    {
        if let Some(i) = self.find_record(reference) {
            return if self.is_party(i, actor) {
                Ok(self.records[i].message_id.clone())
            } else {
                Err(refuse(ErrorKind::MessageNotFound))
            };
        }
        let event_id: i64 = match parse_i64(reference) {
            None => {
                return Err(refuse(ErrorKind::MessageNotFound));
            },
            Some(n) => n,
        };
        match self.find_record_by_event(event_id) {
            Some(i) => {
                if self.is_party(i, actor) {
                    Ok(self.records[i].message_id.clone())
                } else {
                    Err(refuse(ErrorKind::MessageNotFound))
                }
            },
            None => Err(refuse(ErrorKind::MessageNotFound)),
        }
    }

    fn has_answer_from(&self, message_id: &str, actor: &str) -> (r: bool)
        ensures
            r == answered_by(self@, message_id@, actor@),
    {
        let mut i: usize = 0;
        while i < self.records.len()
            invariant
                i <= self.records@.len(),
                forall|k: int|
                    0 <= k < i ==> (#[trigger] self@.records[k]).in_reply_to != Some(message_id@)
                        || self@.records[k].sender_name != actor@,
            decreases self.records.len() - i,
        {
            if same_opt(as_opt_str(&self.records[i].in_reply_to), message_id) && same(
                self.records[i].sender_name.as_str(),
                actor,
            ) {
                assert(self@.records[i as int].in_reply_to == Some(message_id@));
                return true;
            }
            i += 1;
        }
        false
    }

    fn owes(&self, i: usize, actor: &str) -> (r: bool)
        requires
            i < self.records@.len(),
        ensures
            r == owes_reply(self@, self.records@[i as int]@, actor@),
    {
        let record: &MessageRecord = &self.records[i];
        if !same_opt(as_opt_str(&record.intent), "request") || !record.expects_reply {
            return false;
        }
        match self.find_delivery(record.message_id.as_str(), actor) {
            None => false,
            Some(k) => {
                let state: &str = self.deliveries[k].state.as_str();
                !same(state, "replied") && !same(state, "cancelled") && !same(state, "superseded")
                    && !same(state, "delivery_failed") && !self.has_answer_from(
                    record.message_id.as_str(),
                    actor,
                )
            },
        }
    }

    /// The requests that an actor still owes an answer to, oldest first.
    pub fn pending_messages_v1(&self, actor: &str) -> (r: Result<Vec<Inspection>, LifecycleError>)
        requires
            pending_readable(self@, actor@),
        ensures
            match r {
                Ok(v) => pending(self@, actor@, self@.records.len() as int) == Ok::<
                    Seq<InspectionV>,
                    ErrorV,
                >(views(v@)),
                Err(e) => pending(self@, actor@, self@.records.len() as int) == Err::<
                    Seq<InspectionV>,
                    ErrorV,
                >(e@),
            },
    {
        let mut out: Vec<Inspection> = Vec::new();
        assert(views(out@) =~= Seq::<InspectionV>::empty());
        let mut i: usize = 0;
        while i < self.records.len()
            invariant
                i <= self.records@.len(),
                pending_readable(self@, actor@),
                pending(self@, actor@, i as int) == Ok::<Seq<InspectionV>, ErrorV>(views(out@)),
            decreases self.records.len() - i,
        {
            assert(self@.records[i as int] == self.records@[i as int]@);
            if self.owes(i, actor) {
                match self.inspect_message_v1(self.records[i].message_id.as_str()) {
                    Err(e) => {
                        proof {
                            lemma_pending_fails(
                                self@,
                                actor@,
                                i as int + 1,
                                self@.records.len() as int,
                                e@,
                            );
                        }
                        return Err(e);
                    },
                    Ok(v) => {
                        proof {
                            lemma_views_push(out@, v);
                        }
                        out.push(v);
                    },
                }
            }
            i += 1;
        }
        Ok(out)
    }

    fn was_sent_by(&self, message_id: &str, actor: &str) -> (r: bool)
        ensures
            r == sent_by(self@, message_id@, actor@),
    {
        match self.find_record(message_id) {
            None => false,
            Some(i) => same(self.records[i].sender_name.as_str(), actor),
        }
    }

    fn reply_waits(&self, i: usize, request_id: &str, actor: &str) -> (r: bool)
        requires
            i < self.records@.len(),
        ensures
            r == waits_for(self@, self.records@[i as int]@, request_id@, actor@),
    {
        if !same_opt(as_opt_str(&self.records[i].in_reply_to), request_id) {
            return false;
        }
        match self.find_delivery(self.records[i].message_id.as_str(), actor) {
            None => false,
            Some(k) => {
                let row: &Delivery = &self.deliveries[k];
                let state: &str = row.state.as_str();
                let own: String = cat("request:", request_id);
                (same(row.delivery_endpoint.as_str(), "inbox") || same(
                    row.delivery_endpoint.as_str(),
                    own.as_str(),
                )) && !same(state, "acknowledged") && !same(state, "replied") && !same(
                    state,
                    "cancelled",
                ) && !same(state, "superseded") && !same(state, "delivery_failed")
            },
        }
    }

    fn find_waiting(&self, request_id: &str, actor: &str) -> (r: Option<usize>)
        ensures
            position(r) == first_where(
                self@.records.len() as int,
                reply_waiting(self@, request_id@, actor@),
            ),
            r matches Some(k) ==> k < self.records@.len(),
    {
        let ghost p = reply_waiting(self@, request_id@, actor@);
        let mut found: Option<usize> = None;
        let mut i: usize = 0;
        while i < self.records.len()
            invariant
                i <= self.records@.len(),
                p == reply_waiting(self@, request_id@, actor@),
                position(found) == first_where(i as int, p),
                found matches Some(k) ==> k < i,
            decreases self.records.len() - i,
        {
            assert(self@.records[i as int] == self.records@[i as int]@);
            if found.is_none() && self.reply_waits(i, request_id, actor) {
                found = Some(i);
            }
            i += 1;
        }
        found
    }

    /// The earliest reply to a request that waits for the actor, who must have sent the request.
    pub fn find_reply_v1(&self, request_id: &str, actor: &str) -> (r: Result<
        Option<Inspection>,
        LifecycleError,
    >)
        requires
            reply_readable(self@, request_id@, actor@),
        ensures
            match r {
                Ok(Some(v)) => reply_found(self@, request_id@, actor@) == Ok::<
                    Option<InspectionV>,
                    ErrorV,
                >(Some(v@)),
                Ok(None) => reply_found(self@, request_id@, actor@) == Ok::<
                    Option<InspectionV>,
                    ErrorV,
                >(None),
                Err(e) => reply_found(self@, request_id@, actor@) == Err::<
                    Option<InspectionV>,
                    ErrorV,
                >(e@),
            },
    {
        if !self.was_sent_by(request_id, actor) {
            return Err(refuse(ErrorKind::WaitNotSender));
        }
        match self.find_waiting(request_id, actor) {
            None => Ok(None),
            Some(k) => match self.inspect_message_v1(self.records[k].message_id.as_str()) {
                Ok(v) => Ok(Some(v)),
                Err(e) => Err(e),
            },
        }
    }

    /// Tests whether the requests that an actor still owes an answer to can be shown.
    pub fn shows_pending(&self, actor: &str) -> (r: bool)
        ensures
            r == pending_readable(self@, actor@),
    {
        let mut i: usize = 0;
        while i < self.records.len()
            invariant
                i <= self.records@.len(),
                forall|k: int|
                    0 <= k < i && owes_reply(self@, #[trigger] self@.records[k], actor@)
                        ==> self@.readable(self@.records[k].message_id),
            decreases self.records.len() - i,
        {
            assert(self@.records[i as int] == self.records@[i as int]@);
            if self.owes(i, actor) && !self.is_readable(self.records[i].message_id.as_str()) {
                return false;
            }
            i += 1;
        }
        true
    }

    /// Tests whether the earliest reply to a request of the actor can be shown, and the message that
    /// its payload names can.
    pub fn shows_reply(&self, request_id: &str, actor: &str) -> (r: bool)
        ensures
            r == claim_readable(self@, request_id@, actor@),
    {
        if !self.was_sent_by(request_id, actor) {
            return true;
        }
        if let Some(k) = self.find_waiting(request_id, actor) {
            if !self.is_readable(self.records[k].message_id.as_str()) {
                return false;
            }
        }
        match self.find_reply_v1(request_id, actor) {
            Ok(Some(v)) => match v.message.get_text("message_id") {
                Some(id) => self.is_readable(id),
                None => true,
            },
            _ => true,
        }
    }

    /// Takes the earliest reply to a request of the actor: acknowledges it, and returns it as it
    /// then stands.
    pub fn claim_reply_v1(&mut self, request_id: &str, actor: &str, now: &str) -> (r: Result<
        Option<Inspection>,
        LifecycleError,
    >)
        requires
            claim_readable(old(self)@, request_id@, actor@),
        ensures
            final(self)@ == reply_claimed(old(self)@, request_id@, actor@, now@).0,
            match r {
                Ok(Some(v)) => reply_claimed(old(self)@, request_id@, actor@, now@).1 == Ok::<
                    Option<InspectionV>,
                    ErrorV,
                >(Some(v@)),
                Ok(None) => reply_claimed(old(self)@, request_id@, actor@, now@).1 == Ok::<
                    Option<InspectionV>,
                    ErrorV,
                >(None),
                Err(e) => reply_claimed(old(self)@, request_id@, actor@, now@).1 == Err::<
                    Option<InspectionV>,
                    ErrorV,
                >(e@),
            },
    {
        let found: Inspection = match self.find_reply_v1(request_id, actor) {
            Err(e) => {
                return Err(e);
            },
            Ok(None) => {
                return Ok(None);
            },
            Ok(Some(v)) => v,
        };
        let message_id: String = match found.message.get_text("message_id") {
            None => {
                return Err(refuse(ErrorKind::ReplyWithoutId));
            },
            Some(id) => id.to_owned(),
        };
        let epoch: String = if found.deliveries.len() == 0 {
            let s: String = String::new();
            assert(s@ =~= Seq::<char>::empty());
            s
        } else {
            found.deliveries[0].endpoint_epoch.clone()
        };
        proof {
            assert(epoch@ == first_epoch(found@));
            crate::invariants::lemma_receipt_keeps_readable(
                self@,
                message_id@,
                actor@,
                actor@,
                epoch@,
                "acknowledged"@,
                "request waiter claimed reply"@,
                now@,
                message_id@,
            );
        }
        if let Err(e) = self.record_delivery_receipt(
            message_id.as_str(),
            actor,
            actor,
            epoch.as_str(),
            "acknowledged",
            "request waiter claimed reply",
            now,
        ) {
            return Err(e);
        }
        match self.inspect_message_v1(message_id.as_str()) {
            Ok(v) => Ok(Some(v)),
            Err(e) => Err(e),
        }
    }

    fn cancel_deliveries(&mut self, order: &Vec<usize>, actor: &str, now: &str) -> (r: Result<
        Vec<CancelOutcome>,
        LifecycleError,
    >)
        requires
            forall|i: int| 0 <= i < order@.len() ==> #[trigger] order@[i] < old(self).deliveries@.len(),
        ensures
            grows(old(self)@, final(self)@),
            match r {
                Ok(v) => cancelled(
                    old(self)@,
                    positions(order@),
                    actor@,
                    now@,
                    order@.len() as int,
                ) == Ok::<(DbV, Seq<OutcomeV>), ErrorV>((final(self)@, views(v@))),
                Err(e) => cancelled(
                    old(self)@,
                    positions(order@),
                    actor@,
                    now@,
                    order@.len() as int,
                ) == Err::<(DbV, Seq<OutcomeV>), ErrorV>(e@),
            },
    {
        let ghost start = self@;
        let mut outcomes: Vec<CancelOutcome> = Vec::new();
        assert(views(outcomes@) =~= Seq::<OutcomeV>::empty());
        let mut n: usize = 0;
        while n < order.len()
            invariant
                n <= order@.len(),
                start == old(self)@,
                grows(start, self@),
                forall|i: int| 0 <= i < order@.len() ==> #[trigger] order@[i] < self.deliveries@.len(),
                cancelled(start, positions(order@), actor@, now@, n as int) == Ok::<
                    (DbV, Seq<OutcomeV>),
                    ErrorV,
                >((self@, views(outcomes@))),
            decreases order.len() - n,
        {
            let k: usize = order[n];
            assert(positions(order@)[n as int] == k);
            assert(self@.deliveries[k as int] == self.deliveries@[k as int]@);
            let recipient: String = self.deliveries[k].recipient_name.clone();
            let outcome: CancelOutcome = match cancellation_state(self.deliveries[k].state.as_str()) {
                None => CancelOutcome {
                    recipient,
                    state: self.deliveries[k].state.clone(),
                    changed: false,
                },
                Some(next) => {
                    if let Err(e) = self.move_delivery(k, next, actor, "cancel", now, actor) {
                        proof {
                            lemma_cancelled_fails(
                                start,
                                positions(order@),
                                actor@,
                                now@,
                                n as int + 1,
                                order@.len() as int,
                                e@,
                            );
                        }
                        return Err(e);
                    }
                    CancelOutcome { recipient, state: next.to_owned(), changed: true }
                },
            };
            proof {
                lemma_views_push(outcomes@, outcome);
            }
            outcomes.push(outcome);
            n += 1;
        }
        Ok(outcomes)
    }

    /// Cancels a message of the actor: deliveries that nobody has fetched are cancelled, and for
    /// the others cancellation is requested. Returns what became of each delivery.
    pub fn cancel_message_v1(&mut self, message_id: &str, actor: &str, now: &str) -> (r: Result<
        Vec<CancelOutcome>,
        LifecycleError,
    >)
        ensures
            match r {
                Ok(v) => message_cancelled(old(self)@, message_id@, actor@, now@) == Ok::<
                    (DbV, Seq<OutcomeV>),
                    ErrorV,
                >((final(self)@, views(v@))),
                Err(e) => message_cancelled(old(self)@, message_id@, actor@, now@) == Err::<
                    (DbV, Seq<OutcomeV>),
                    ErrorV,
                >(e@) && final(self)@ == old(self)@,
            },
    {
        if !self.was_sent_by(message_id, actor) {
            return Err(refuse(ErrorKind::CancelNotSender));
        }
        let order: Vec<usize> = self.order_by_recipient(message_id);
        let first: i64 = self.sequence;
        let point: Savepoint = self.savepoint();
        let outcomes: Vec<CancelOutcome> = match self.cancel_deliveries(&order, actor, now) {
            Ok(v) => v,
            Err(e) => {
                self.roll_back(point);
                return Err(e);
            },
        };
        let ghost after = self@;
        let mut n: usize = 0;
        while n < outcomes.len()
            invariant
                n <= outcomes@.len(),
                self@ == outcome_watches_cleared(after, message_id@, views(outcomes@), n as int),
                self@.sequence == after.sequence,
            decreases outcomes.len() - n,
        {
            assert(views(outcomes@)[n as int] == outcomes@[n as int]@);
            if outcomes[n].changed && same(outcomes[n].state.as_str(), "cancelled") {
                self.clear_request_watches_v1(message_id, Some(outcomes[n].recipient.as_str()));
            }
            n += 1;
        }
        self.notify_after(first);
        Ok(outcomes)
    }

    /// Logs that a wait for the reply to a message of the actor has timed out.
    pub fn append_ask_timeout_v1(&mut self, message_id: &str, actor: &str, now: &str) -> (r: Result<
        i64,
        LifecycleError,
    >)
        ensures
            match r {
                Ok(id) => timeout_logged(old(self)@, message_id@, actor@, now@) == Ok::<
                    (DbV, int),
                    ErrorV,
                >((final(self)@, id as int)),
                Err(e) => timeout_logged(old(self)@, message_id@, actor@, now@) == Err::<
                    (DbV, int),
                    ErrorV,
                >(e@) && final(self)@ == old(self)@,
            },
    {
        if !self.was_sent_by(message_id, actor) {
            return Err(refuse(ErrorKind::WaitNotSender));
        }
        let first: i64 = self.sequence;
        let data: Json = timeout_json(message_id, actor, now);
        match self.insert_event(now, "message_state", actor, data) {
            Ok(id) => {
                self.notify_after(first);
                Ok(id)
            },
            Err(e) => Err(e),
        }
    }
}

/// A message is shown as it was committed, with the number of its event, to whoever looks it up; a
/// message that is not there is not found.
pub proof fn messages_are_shown_as_committed(db: HcomDb, id: &str, r: Result<Inspection, LifecycleError>, rec: RecordV, event: EventV, key: Seq<char>)
    requires
        call_ensures(HcomDb::inspect_message_v1, (&db, id), r),
        db@.record(id@) matches Some(found) ==> found == rec && (db@.event(rec.event_id) matches Some(e) ==> e == event),
    ensures
        db@.record(id@) is None ==> (r matches Err(e) && refusal_text(e@) == "message not found"@),
        db@.record(id@) is Some && db@.event(rec.event_id) is None ==> (r matches Err(e) && refusal_text(e@) == "message not found"@),
        db@.record(id@) is Some && db@.event(rec.event_id) is Some ==> r is Ok,
        r matches Ok(v) ==> (event.data is Object || event.data is Null ==> member(v.message@, "event_id"@) == Some(JsonV::Int(rec.event_id))),
        r matches Ok(v) ==> (event.data is Object && key != "event_id"@ ==> member(v.message@, key) == member(event.data, key)),
{
    if let JsonV::Object(ms) = event.data {
        crate::json::with_member_reads_back(ms, "event_id"@, JsonV::Int(rec.event_id), key);
        crate::json::with_member_reads_back(ms, "event_id"@, JsonV::Int(rec.event_id), "event_id"@);
    }
    let one = seq![MemberV { key: "event_id"@, value: JsonV::Int(rec.event_id) }];
    assert(crate::json::has_key(one, "event_id"@)(0));
    crate::search::first_where_found(1, crate::json::has_key(one, "event_id"@), 0);
}

/// A message is shown with each of its deliveries, and with no others, in the order of the names of
/// their recipients.
pub proof fn messages_are_shown_with_their_deliveries(db: HcomDb, id: &str, v: Inspection, i: int, j: int, k: int)
    requires
        call_ensures(HcomDb::inspect_message_v1, (&db, id), Ok::<Inspection, LifecycleError>(v)),
    ensures
        0 <= k < db.deliveries@.len() && db.deliveries@[k].message_id@ == id@ ==> exists|q: int| 0 <= q < v.deliveries@.len() && (#[trigger] v.deliveries@[q])@ == db.deliveries@[k]@,
        0 <= i < v.deliveries@.len() ==> v.deliveries@[i].message_id@ == id@ && db@.deliveries.contains(v.deliveries@[i]@),
        0 <= i < j < v.deliveries@.len() ==> !text_lt(v.deliveries@[j].recipient_name@, v.deliveries@[i].recipient_name@),
{
    let rows = db@.deliveries;
    let n = rows.len() as int;
    let order = recipient_order(rows, id@, n);
    recipient_order_lists_all(rows, id@, n);
    let shown = views(v.deliveries@);
    assert(shown == rows_at(rows, order));
    assert(shown.len() == order.len());
    if 0 <= k < n && db.deliveries@[k].message_id@ == id@ {
        assert(rows[k] == db.deliveries@[k]@);
        assert(order.contains(k));
        let q = choose|q: int| 0 <= q < order.len() && order[q] == k;
        assert(shown[q] == rows[k]);
        assert(v.deliveries@[q]@ == shown[q]);
    }
    if 0 <= i < order.len() {
        assert(shown[i] == v.deliveries@[i]@);
        assert(order.contains(order[i]));
        assert(rows[order[i]].message_id == id@);
        assert(shown[i] == rows[order[i]]);
    }
    if 0 <= i < j < order.len() {
        assert(shown[j] == v.deliveries@[j]@);
        assert(order.contains(order[j]));
        assert(shown[j] == rows[order[j]]);
    }
}

/// Who sent a message or has a delivery of it finds it by its id, or by the number of its event where
/// no message has that id; nobody else finds it.
pub proof fn participants_find_the_message(db: HcomDb, reference: &str, actor: &str, r: Result<String, LifecycleError>, rec: RecordV, party: bool)
    requires
        call_ensures(HcomDb::resolve_message_reference_v1, (&db, reference, actor), r),
        party == (rec.sender_name == actor@ || db@.delivery(rec.message_id, actor@) is Some),
    ensures
        db@.record(reference@) == Some(rec) && party ==> (r matches Ok(s) && s@ == rec.message_id),
        db@.record(reference@) == Some(rec) && !party ==> (r matches Err(e) && refusal_text(e@) == "message not found"@),
        db@.record(reference@) is None && i64::MIN <= rec.event_id <= i64::MAX && reference@ == decimal(rec.event_id) && db@.record_by_event(rec.event_id) == Some(rec) && party ==> (r matches Ok(s) && s@ == rec.message_id),
        db@.record(reference@) is None && i64::MIN <= rec.event_id <= i64::MAX && reference@ == decimal(rec.event_id) && db@.record_by_event(rec.event_id) == Some(rec) && !party ==> (r matches Err(e) && refusal_text(e@) == "message not found"@),
        db@.record(reference@) is None && parse_signed(reference@) is None ==> (r matches Err(e) && refusal_text(e@) == "message not found"@),
{
    if i64::MIN <= rec.event_id <= i64::MAX {
        crate::text::decimal_round_trip(rec.event_id);
    }
}

/// Whether an actor still owes an answer: to a request that expects a reply, that reached the actor
/// and is not closed there, and that the actor has sent no reply to.
pub open spec fn owes_an_answer(db: DbV, rec: RecordV, actor: Seq<char>) -> bool {
    &&& rec.intent == Some("request"@)
    &&& rec.expects_reply
    &&& db.delivery(rec.message_id, actor) matches Some(row) && row.state != "replied"@ && row.state != "cancelled"@ && row.state != "superseded"@ && row.state != "delivery_failed"@
    &&& forall|i: int| 0 <= i < db.records.len() ==> !((#[trigger] db.records[i]).in_reply_to == Some(rec.message_id) && db.records[i].sender_name == actor)
}

proof fn lemma_pending(db: DbV, actor: Seq<char>, n: int, i: int)
    requires
        0 <= i < n <= db.records.len(),
        owes_reply(db, db.records[i], actor),
        pending(db, actor, n) is Ok,
    ensures
        inspected(db, db.records[i].message_id) matches Ok(v) && pending(db, actor, n)->Ok_0.contains(v),
    decreases n,
{
    let s = pending(db, actor, n)->Ok_0;
    if i == n - 1 {
        assert(s.last() == inspected(db, db.records[i].message_id)->Ok_0);
    } else {
        lemma_pending(db, actor, n - 1, i);
        let v = inspected(db, db.records[i].message_id)->Ok_0;
        let before = pending(db, actor, n - 1)->Ok_0;
        let k = choose|k: int| 0 <= k < before.len() && before[k] == v;
        assert(s[k] == v);
    }
}

proof fn lemma_pending_source(db: DbV, actor: Seq<char>, n: int, k: int)
    requires
        0 <= n <= db.records.len(),
        pending(db, actor, n) is Ok,
        0 <= k < pending(db, actor, n)->Ok_0.len(),
    ensures
        exists|i: int| 0 <= i < n && owes_reply(db, #[trigger] db.records[i], actor) && inspected(db, db.records[i].message_id) == Ok::<InspectionV, ErrorV>(pending(db, actor, n)->Ok_0[k]),
    decreases n,
{
    if n > 0 {
        let before = pending(db, actor, n - 1)->Ok_0;
        if k < before.len() {
            lemma_pending_source(db, actor, n - 1, k);
        } else {
            assert(owes_reply(db, db.records[n - 1], actor));
        }
    }
}

/// Every request that an actor owes an answer to is listed as pending, as it is shown; and nothing
/// else is.
pub proof fn owed_answers_are_pending(db: HcomDb, actor: &str, listed: Vec<Inspection>, i: int, k: int)
    requires
        call_ensures(HcomDb::pending_messages_v1, (&db, actor), Ok::<Vec<Inspection>, LifecycleError>(listed)),
    ensures
        0 <= i < db@.records.len() && owes_an_answer(db@, db@.records[i], actor@) ==> (inspected(db@, db@.records[i].message_id) matches Ok(v) && views(listed@).contains(v)),
        0 <= k < listed@.len() ==> exists|q: int| 0 <= q < db@.records.len() && owes_an_answer(db@, #[trigger] db@.records[q], actor@) && inspected(db@, db@.records[q].message_id) == Ok::<InspectionV, ErrorV>(listed@[k]@),
{
    let n = db@.records.len() as int;
    assert forall|q: int| 0 <= q < n implies owes_an_answer(db@, #[trigger] db@.records[q], actor@) == owes_reply(db@, db@.records[q], actor@) by {
        let rec = db@.records[q];
        if answered_by(db@, rec.message_id, actor@) {
            let w = choose|w: int| 0 <= w < n && (#[trigger] db@.records[w]).in_reply_to == Some(rec.message_id) && db@.records[w].sender_name == actor@;
            assert(db@.records[w].in_reply_to == Some(rec.message_id));
        }
    }
    if 0 <= i < n && owes_an_answer(db@, db@.records[i], actor@) {
        lemma_pending(db@, actor@, n, i);
    }
    if 0 <= k < listed@.len() {
        assert(views(listed@)[k] == listed@[k]@);
        lemma_pending_source(db@, actor@, n, k);
        let q = choose|q: int| 0 <= q < n && owes_reply(db@, #[trigger] db@.records[q], actor@) && inspected(db@, db@.records[q].message_id) == Ok::<InspectionV, ErrorV>(listed@[k]@);
        assert(owes_an_answer(db@, db@.records[q], actor@));
    }
}

/// Whether a reply to a request waits for an actor to take it.
pub open spec fn is_waiting_reply(db: DbV, rec: RecordV, request_id: Seq<char>, actor: Seq<char>) -> bool {
    &&& rec.in_reply_to == Some(request_id)
    &&& db.delivery(rec.message_id, actor) matches Some(row) && (row.delivery_endpoint == "inbox"@ || row.delivery_endpoint == "request:"@ + request_id) && row.state != "acknowledged"@ && row.state != "replied"@ && row.state != "cancelled"@ && row.state != "superseded"@ && row.state != "delivery_failed"@
}

/// The sender of a request finds the earliest reply that waits for it; where none waits there is none,
/// and who did not send the request may not look.
pub proof fn senders_find_the_earliest_reply(db: HcomDb, request_id: &str, actor: &str, r: Result<Option<Inspection>, LifecycleError>, i: int)
    requires
        call_ensures(HcomDb::find_reply_v1, (&db, request_id, actor), r),
    ensures
        !(db@.record(request_id@) matches Some(rec) && rec.sender_name == actor@) ==> (r matches Err(e) && refusal_text(e@) == "wait is allowed only for the original sender"@),
        (db@.record(request_id@) matches Some(rec) && rec.sender_name == actor@) && 0 <= i < db@.records.len() && is_waiting_reply(db@, db@.records[i], request_id@, actor@) && (forall|k: int| 0 <= k < i ==> !is_waiting_reply(db@, #[trigger] db@.records[k], request_id@, actor@)) ==> match inspected(db@, db@.records[i].message_id) { Ok(v) => r matches Ok(Some(w)) && w@ == v, Err(_) => r is Err },
        (db@.record(request_id@) matches Some(rec) && rec.sender_name == actor@) && (forall|k: int| 0 <= k < db@.records.len() ==> !is_waiting_reply(db@, #[trigger] db@.records[k], request_id@, actor@)) ==> r matches Ok(None),
{
    let n = db@.records.len() as int;
    let p = reply_waiting(db@, request_id@, actor@);
    first_where_is_least(n, p);
    assert forall|k: int| 0 <= k < n implies #[trigger] p(k) == is_waiting_reply(db@, db@.records[k], request_id@, actor@) by {}
    if 0 <= i < n && is_waiting_reply(db@, db@.records[i], request_id@, actor@) && (forall|k: int| 0 <= k < i ==> !is_waiting_reply(db@, #[trigger] db@.records[k], request_id@, actor@)) {
        assert(p(i));
        assert forall|k: int| 0 <= k < i implies !#[trigger] p(k) by {
            assert(!is_waiting_reply(db@, db@.records[k], request_id@, actor@));
        }
        crate::search::first_where_found(n, p, i);
    }
}

/// A wait that times out is logged as such, by the sender of the request and of the request, and
/// leaves everything else as it is.
pub proof fn timeouts_are_logged(db: &mut HcomDb, id: &str, actor: &str, now: &str, r: Result<i64, LifecycleError>)
    requires
        call_ensures(HcomDb::append_ask_timeout_v1, (db, id, actor, now), r),
    ensures
        !(old(db)@.record(id@) matches Some(rec) && rec.sender_name == actor@) ==> (r matches Err(e) && refusal_text(e@) == "wait is allowed only for the original sender"@),
        (old(db)@.record(id@) matches Some(rec) && rec.sender_name == actor@) && old(db)@.sequence < i64::MAX ==> r is Ok,
        r matches Ok(n) ==> {
            let e = final(db)@.events.last();
            &&& final(db)@.events.drop_last() == old(db)@.events
            &&& e.id == n && n == old(db)@.sequence + 1 && e.kind == "message_state"@ && e.instance == actor@ && e.timestamp == now@
            &&& member_text(e.data, "message_id"@) == Some(id@) && member_text(e.data, "actor"@) == Some(actor@) && member_text(e.data, "new_state"@) == Some("ask_timed_out"@) && member_text(e.data, "reason"@) == Some("wait timeout"@) && member_text(e.data, "timestamp"@) == Some(now@) && member_text(e.data, "protocol"@) == Some("hcom-message/v1"@)
            &&& final(db)@.deliveries == old(db)@.deliveries && final(db)@.records == old(db)@.records && final(db)@.instances == old(db)@.instances && final(db)@.watches == old(db)@.watches
        },
{
    if r is Ok {
        let ms = timeout_data(id@, actor@, now@)->Object_0;
        assert(final(db)@.events.drop_last() =~= old(db)@.events);
        lemma_timeout_keys();
        lemma_member_at(ms, 0);
        lemma_member_at(ms, 1);
        lemma_member_at(ms, 2);
        lemma_member_at(ms, 3);
        lemma_member_at(ms, 4);
        lemma_member_at(ms, 5);
    }
}

proof fn lemma_timeout_keys()
    ensures
        "actor"@.len() == 5 && "message_id"@.len() == 10 && "new_state"@.len() == 9 && "protocol"@.len() == 8 && "reason"@.len() == 6 && "timestamp"@.len() == 9,
        "new_state"@[0] == 'n' && "timestamp"@[0] == 't',
{
    reveal_strlit("actor");
    reveal_strlit("message_id");
    reveal_strlit("new_state");
    reveal_strlit("protocol");
    reveal_strlit("reason");
    reveal_strlit("timestamp");
}

proof fn lemma_placed_once(rows: Seq<DeliveryV>, s: Seq<int>, k: int)
    requires
        in_recipient_order(rows, s),
        s.no_duplicates(),
        !s.contains(k),
    ensures
        placed(rows, s, k).no_duplicates(),
    decreases s.len(),
{
    if s.len() > 0 && text_lt(rows[k].recipient_name, rows[s.last()].recipient_name) {
        let t = s.drop_last();
        assert(in_recipient_order(rows, t)) by {
            assert forall|i: int, j: int| 0 <= i < j < t.len() implies !text_lt(rows[#[trigger] t[j]].recipient_name, rows[#[trigger] t[i]].recipient_name) by {
                assert(t[i] == s[i] && t[j] == s[j]);
            }
        }
        assert(!t.contains(k)) by {
            if t.contains(k) {
                let q = choose|q: int| 0 <= q < t.len() && t[q] == k;
                assert(s[q] == k);
            }
        }
        lemma_placed_once(rows, t, k);
        lemma_placed_ordered(rows, t, k);
        let u = placed(rows, t, k);
        assert forall|q: int| 0 <= q < u.len() implies #[trigger] u[q] != s.last() by {
            if u[q] == k {
                assert(s[s.len() - 1] == s.last());
            } else {
                assert(t.contains(u[q]));
                let p = choose|p: int| 0 <= p < t.len() && t[p] == u[q];
                assert(s[p] == u[q] && s[s.len() - 1] == s.last());
            }
        }
    }
}

/// Each delivery of a message is listed once.
pub proof fn deliveries_are_listed_once(rows: Seq<DeliveryV>, message_id: Seq<char>, n: int)
    requires
        0 <= n <= rows.len(),
    ensures
        recipient_order(rows, message_id, n).no_duplicates(),
    decreases n,
{
    if n > 0 {
        deliveries_are_listed_once(rows, message_id, n - 1);
        recipient_order_lists_all(rows, message_id, n - 1);
        let s = recipient_order(rows, message_id, n - 1);
        assert(!s.contains(n - 1));
        if rows[n - 1].message_id == message_id {
            lemma_placed_once(rows, s, n - 1);
        }
    }
}

/// A payload can be shown where it is an object or null; a message that is not there is no hindrance.
pub proof fn readable_payloads_are_objects(db: HcomDb, id: &str, r: bool, rec: RecordV, actor: &str, pending: bool, k: int)
    requires
        call_ensures(HcomDb::is_readable, (&db, id), r),
        call_ensures(HcomDb::shows_pending, (&db, actor), pending),
        db@.record(id@) matches Some(x) ==> x == rec,
    ensures
        db@.record(id@) is None ==> r,
        db@.record(id@) is Some && db@.event(rec.event_id) is Some ==> r == (db@.event(rec.event_id)->0.data is Object || db@.event(rec.event_id)->0.data is Null),
        pending && 0 <= k < db@.records.len() && owes_an_answer(db@, db@.records[k], actor@) && db@.records[k].message_id == id@ ==> r,
{
    if pending && 0 <= k < db@.records.len() && owes_an_answer(db@, db@.records[k], actor@) && db@.records[k].message_id == id@ {
        let rec = db@.records[k];
        if answered_by(db@, rec.message_id, actor@) {
            let w = choose|w: int| 0 <= w < db@.records.len() && (#[trigger] db@.records[w]).in_reply_to == Some(rec.message_id) && db@.records[w].sender_name == actor@;
            assert(db@.records[w].in_reply_to == Some(rec.message_id));
        }
        assert(owes_reply(db@, db@.records[k], actor@));
    }
}

/// Taking a reply acknowledges it, in the name of the one who waited, and hands it over as it is shown
/// then; where none waits nothing happens, and who did not send the request takes none.
pub proof fn taken_replies_are_acknowledged(db: &mut HcomDb, request_id: &str, actor: &str, now: &str, r: Result<Option<Inspection>, LifecycleError>, found: Result<Option<Inspection>, LifecycleError>)
    requires
        call_ensures(HcomDb::claim_reply_v1, (db, request_id, actor, now), r),
        call_ensures(HcomDb::find_reply_v1, (&*old(db), request_id, actor), found),
    ensures
        found matches Err(e) ==> (r matches Err(f) && f@ == e@) && final(db)@ == old(db)@,
        found matches Ok(None) ==> (r matches Ok(None)) && final(db)@ == old(db)@,
        found matches Ok(Some(v)) ==> {
            &&& !(r matches Ok(None))
            &&& member_text(v.message@, "message_id"@) is None ==> (r matches Err(e) && refusal_text(e@) == "reply projection missing message_id"@) && final(db)@ == old(db)@
            &&& r matches Ok(Some(w)) ==> (member_text(v.message@, "message_id"@) matches Some(id) && final(db)@.delivery(id, actor@) is Some && inspected(final(db)@, id) == Ok::<InspectionV, ErrorV>(w@))
        },
{
    if let Ok(Some(v)) = found {
        if let Some(id) = member_text(v.message@, "message_id"@) {
            if r is Ok {
                crate::evolution::receipts_follow(old(db)@, id, actor@, actor@, first_epoch(v@), "acknowledged"@, "request waiter claimed reply"@, now@);
                crate::progress::replies_are_taken_once(old(db)@, request_id@, actor@, now@);
            }
        }
    }
}

} // verus!
