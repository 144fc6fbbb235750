//! The results of commands on messages, as data.

use crate::json::{
    Json, JsonV, Member, MemberV, array_view, lemma_array, lemma_object, member, member_text, object_view,
    push_member, set_member, with_member,
};
use crate::lifecycle::{EpochSnapshot, EpochV, MessagePersistResult, PersistedV};
use crate::message::{MessageOutcome, MessageOutcomeV, device_of, remote_device};
use crate::receipts::{DeliveryReceiptResult, ReceiptV};
use crate::rows::views;
use crate::senders::{
    CancelOutcome, Inspection, InspectionV, OutcomeV, claim_readable, reply_claimed, reply_found,
    timeout_logged,
};
use crate::store::{
    DbV, Delivery, DeliveryV, ErrorV, HcomDb, LifecycleError, opt_id, refusal_text,
};
use crate::text::opt_str;
use vstd::prelude::*;

verus! {

/// A number, or null.
pub open spec fn id_or_null(o: Option<int>) -> JsonV {
    match o {
        Some(n) => JsonV::Int(n),
        None => JsonV::Null,
    }
}

fn id_value(o: Option<i64>) -> (r: Json)
    ensures
        r@ == id_or_null(opt_id(o)),
{
    match o {
        Some(n) => Json::Int(n),
        None => Json::Null,
    }
}

/// A delivery as data.
pub open spec fn delivery_json(d: DeliveryV) -> JsonV {
    JsonV::Object(
        seq![
            MemberV { key: "attempt"@, value: JsonV::Int(d.attempt) },
            MemberV { key: "delivery_endpoint"@, value: JsonV::Text(d.delivery_endpoint) },
            MemberV { key: "endpoint_epoch"@, value: JsonV::Text(d.endpoint_epoch) },
            MemberV { key: "last_actor"@, value: JsonV::Text(d.last_actor) },
            MemberV { key: "recipient_name"@, value: JsonV::Text(d.recipient_name) },
            MemberV { key: "state"@, value: JsonV::Text(d.state) },
            MemberV { key: "state_event_id"@, value: id_or_null(d.state_event_id) },
            MemberV { key: "updated_at"@, value: JsonV::Text(d.updated_at) },
        ],
    )
}

fn delivery_value(d: &Delivery) -> (r: Json)
    ensures
        r@ == delivery_json(d@),
{
    let mut v: Vec<Member> = Vec::new();
    push_member(&mut v, "attempt", Json::Int(d.attempt));
    push_member(&mut v, "delivery_endpoint", Json::text(d.delivery_endpoint.as_str()));
    push_member(&mut v, "endpoint_epoch", Json::text(d.endpoint_epoch.as_str()));
    push_member(&mut v, "last_actor", Json::text(d.last_actor.as_str()));
    push_member(&mut v, "recipient_name", Json::text(d.recipient_name.as_str()));
    push_member(&mut v, "state", Json::text(d.state.as_str()));
    push_member(&mut v, "state_event_id", id_value(d.state_event_id));
    push_member(&mut v, "updated_at", Json::text(d.updated_at.as_str()));
    proof {
        lemma_object(v);
        assert(object_view(v@) =~= delivery_json(d@)->Object_0);
    }
    Json::Object(v)
}

/// A message and its deliveries as data.
pub open spec fn inspection_json(v: InspectionV) -> JsonV {
    JsonV::Object(
        seq![
            MemberV {
                key: "deliveries"@,
                value: JsonV::Array(
                    Seq::new(v.deliveries.len(), |i: int| delivery_json(v.deliveries[i])),
                ),
            },
            MemberV { key: "message"@, value: v.message },
        ],
    )
}

/// A message and its deliveries as data.
pub fn inspection_value(inspection: &Inspection) -> (r: Json)
    ensures
        r@ == inspection_json(inspection@),
{
    let mut rows: Vec<Json> = Vec::new();
    let mut i: usize = 0;
    while i < inspection.deliveries.len()
        invariant
            i <= inspection.deliveries@.len(),
            rows@.len() == i,
            forall|k: int|
                0 <= k < i ==> (#[trigger] rows@[k])@ == delivery_json(inspection@.deliveries[k]),
        decreases inspection.deliveries.len() - i,
    {
        rows.push(delivery_value(&inspection.deliveries[i]));
        i += 1;
    }
    let mut v: Vec<Member> = Vec::new();
    proof {
        lemma_array(rows);
        assert(array_view(rows@) =~= Seq::new(
            inspection@.deliveries.len(),
            |i: int| delivery_json(inspection@.deliveries[i]),
        ));
    }
    push_member(&mut v, "deliveries", Json::Array(rows));
    push_member(&mut v, "message", inspection.message.duplicate());
    proof {
        lemma_object(v);
        assert(object_view(v@) =~= inspection_json(inspection@)->Object_0);
    }
    Json::Object(v)
}

/// Messages and their deliveries as data.
pub open spec fn inspections_json(s: Seq<InspectionV>) -> JsonV {
    JsonV::Array(Seq::new(s.len(), |i: int| inspection_json(s[i])))
}

fn inspections_value(s: &Vec<Inspection>) -> (r: Json)
    ensures
        r@ == inspections_json(views(s@)),
{
    let mut out: Vec<Json> = Vec::new();
    let mut i: usize = 0;
    while i < s.len()
        invariant
            i <= s@.len(),
            out@.len() == i,
            forall|k: int|
                0 <= k < i ==> (#[trigger] out@[k])@ == inspection_json(views(s@)[k]),
        decreases s.len() - i,
    {
        out.push(inspection_value(&s[i]));
        i += 1;
    }
    proof {
        lemma_array(out);
        assert(array_view(out@) =~= inspections_json(views(s@))->Array_0);
    }
    Json::Array(out)
}

/// What became of a delivery that was cancelled, as data.
pub open spec fn outcome_json(o: OutcomeV) -> JsonV {
    JsonV::Object(
        seq![
            MemberV { key: "changed"@, value: JsonV::Bool(o.changed) },
            MemberV { key: "recipient"@, value: JsonV::Text(o.recipient) },
            MemberV { key: "state"@, value: JsonV::Text(o.state) },
        ],
    )
}

fn outcome_value(o: &CancelOutcome) -> (r: Json)
    ensures
        r@ == outcome_json(o@),
{
    let mut v: Vec<Member> = Vec::new();
    push_member(&mut v, "changed", Json::Bool(o.changed));
    push_member(&mut v, "recipient", Json::text(o.recipient.as_str()));
    push_member(&mut v, "state", Json::text(o.state.as_str()));
    proof {
        lemma_object(v);
        assert(object_view(v@) =~= outcome_json(o@)->Object_0);
    }
    Json::Object(v)
}

/// What became of a message that was cancelled, as data.
pub open spec fn cancel_json(message_id: Seq<char>, s: Seq<OutcomeV>) -> JsonV {
    JsonV::Object(
        seq![
            MemberV {
                key: "deliveries"@,
                value: JsonV::Array(Seq::new(s.len(), |i: int| outcome_json(s[i]))),
            },
            MemberV { key: "message_id"@, value: JsonV::Text(message_id) },
            MemberV { key: "operation"@, value: JsonV::Text("cancel"@) },
        ],
    )
}

fn cancel_value(message_id: &str, s: &Vec<CancelOutcome>) -> (r: Json)
    ensures
        r@ == cancel_json(message_id@, views(s@)),
{
    let mut out: Vec<Json> = Vec::new();
    let mut i: usize = 0;
    while i < s.len()
        invariant
            i <= s@.len(),
            out@.len() == i,
            forall|k: int| 0 <= k < i ==> (#[trigger] out@[k])@ == outcome_json(views(s@)[k]),
        decreases s.len() - i,
    {
        out.push(outcome_value(&s[i]));
        i += 1;
    }
    let mut v: Vec<Member> = Vec::new();
    proof {
        lemma_array(out);
        assert(array_view(out@) =~= Seq::new(
            views(s@).len(),
            |i: int| outcome_json(views(s@)[i]),
        ));
    }
    push_member(&mut v, "deliveries", Json::Array(out));
    push_member(&mut v, "message_id", Json::text(message_id));
    push_member(&mut v, "operation", Json::text("cancel"));
    proof {
        lemma_object(v);
        assert(object_view(v@) =~= cancel_json(message_id@, views(s@))->Object_0);
    }
    Json::Object(v)
}

/// What became of a receipt, as data.
pub open spec fn receipt_json(r: ReceiptV) -> JsonV {
    JsonV::Object(
        seq![
            MemberV { key: "idempotent"@, value: JsonV::Bool(r.idempotent) },
            MemberV { key: "message_id"@, value: JsonV::Text(r.message_id) },
            MemberV { key: "prior_state"@, value: JsonV::Text(r.prior_state) },
            MemberV { key: "recipient"@, value: JsonV::Text(r.recipient) },
            MemberV { key: "state"@, value: JsonV::Text(r.state) },
            MemberV { key: "state_event_id"@, value: id_or_null(r.state_event_id) },
        ],
    )
}

fn receipt_value(receipt: &DeliveryReceiptResult) -> (r: Json)
    ensures
        r@ == receipt_json(receipt@),
{
    let mut v: Vec<Member> = Vec::new();
    push_member(&mut v, "idempotent", Json::Bool(receipt.idempotent));
    push_member(&mut v, "message_id", Json::text(receipt.message_id.as_str()));
    push_member(&mut v, "prior_state", Json::text(receipt.prior_state.as_str()));
    push_member(&mut v, "recipient", Json::text(receipt.recipient.as_str()));
    push_member(&mut v, "state", Json::text(receipt.state.as_str()));
    push_member(&mut v, "state_event_id", id_value(receipt.state_event_id));
    proof {
        lemma_object(v);
        assert(object_view(v@) =~= receipt_json(receipt@)->Object_0);
    }
    Json::Object(v)
}

/// The epochs of the first `n` recipients, by recipient.
pub open spec fn epochs_json(s: Seq<EpochV>, n: int) -> Seq<MemberV>
    decreases n,
{
    if n <= 0 {
        Seq::empty()
    } else {
        with_member(epochs_json(s, n - 1), s[n - 1].recipient, JsonV::Text(s[n - 1].epoch))
    }
}

fn epochs_value(s: &Vec<EpochSnapshot>) -> (r: Json)
    ensures
        r@ == JsonV::Object(epochs_json(views(s@), s@.len() as int)),
{
    let mut v: Vec<Member> = Vec::new();
    let mut i: usize = 0;
    assert(object_view(v@) =~= Seq::<MemberV>::empty());
    while i < s.len()
        invariant
            i <= s@.len(),
            object_view(v@) == epochs_json(views(s@), i as int),
        decreases s.len() - i,
    {
        assert(views(s@)[i as int] == s@[i as int]@);
        set_member(&mut v, s[i].recipient.as_str(), Json::text(s[i].epoch.as_str()));
        i += 1;
    }
    proof {
        lemma_object(v);
    }
    Json::Object(v)
}

/// A message that was sent, as data.
pub open spec fn sent_json(p: PersistedV) -> JsonV {
    JsonV::Object(
        seq![
            MemberV {
                key: "delivered_to"@,
                value: JsonV::Array(
                    Seq::new(p.delivered_to.len(), |i: int| JsonV::Text(p.delivered_to[i])),
                ),
            },
            MemberV { key: "event_id"@, value: JsonV::Int(p.event_id) },
            MemberV { key: "message_id"@, value: JsonV::Text(p.message_id) },
            MemberV {
                key: "recipient_endpoint_epochs"@,
                value: JsonV::Object(
                    epochs_json(
                        p.recipient_endpoint_epochs,
                        p.recipient_endpoint_epochs.len() as int,
                    ),
                ),
            },
        ],
    )
}

/// A message that was sent, as data.
pub fn send_result_value(result: &MessagePersistResult) -> (r: Json)
    ensures
        r@ == sent_json(result@),
{
    let mut to: Vec<Json> = Vec::new();
    let mut i: usize = 0;
    while i < result.delivered_to.len()
        invariant
            i <= result.delivered_to@.len(),
            to@.len() == i,
            forall|k: int|
                0 <= k < i ==> (#[trigger] to@[k])@ == JsonV::Text(result@.delivered_to[k]),
        decreases result.delivered_to.len() - i,
    {
        assert(result@.delivered_to[i as int] == result.delivered_to@[i as int]@);
        to.push(Json::text(result.delivered_to[i].as_str()));
        i += 1;
    }
    let mut v: Vec<Member> = Vec::new();
    proof {
        lemma_array(to);
        assert(array_view(to@) =~= Seq::new(
            result@.delivered_to.len(),
            |i: int| JsonV::Text(result@.delivered_to[i]),
        ));
        assert(result@.recipient_endpoint_epochs.len() == result.recipient_endpoint_epochs@.len());
    }
    push_member(&mut v, "delivered_to", Json::Array(to));
    push_member(&mut v, "event_id", Json::Int(result.event_id));
    push_member(&mut v, "message_id", Json::text(result.message_id.as_str()));
    push_member(
        &mut v,
        "recipient_endpoint_epochs",
        epochs_value(&result.recipient_endpoint_epochs),
    );
    proof {
        lemma_object(v);
        assert(object_view(v@) =~= sent_json(result@)->Object_0);
    }
    Json::Object(v)
}

/// What a command comes to, as data; nothing where a message is to be sent, or a reply waited for.
pub open spec fn result_json(o: MessageOutcomeV) -> Option<JsonV> {
    match o {
        MessageOutcomeV::Pending(s) => Some(inspections_json(s)),
        MessageOutcomeV::Cancelled { message_id, deliveries } => Some(
            cancel_json(message_id, deliveries),
        ),
        MessageOutcomeV::Receipted(r) => Some(receipt_json(r)),
        MessageOutcomeV::Inspected(v) => Some(inspection_json(v)),
        MessageOutcomeV::Send(_) => None,
        MessageOutcomeV::Wait { .. } => None,
    }
}

/// What a command comes to, as data; nothing where a message is to be sent, or a reply waited for.
pub fn result_value(outcome: &MessageOutcome) -> (r: Option<Json>)
    ensures
        match r {
            Some(j) => result_json(outcome@) == Some(j@),
            None => result_json(outcome@) is None,
        },
{
    match outcome {
        MessageOutcome::Pending(s) => Some(inspections_value(s)),
        MessageOutcome::Cancelled { message_id, deliveries } => Some(
            cancel_value(message_id.as_str(), deliveries),
        ),
        MessageOutcome::Receipted(r) => Some(receipt_value(r)),
        MessageOutcome::Inspected(v) => Some(inspection_value(v)),
        MessageOutcome::Send(_) => None,
        MessageOutcome::Wait { .. } => None,
    }
}

/// What the device of a participant must be able to do for a reply to be waited for.
pub const WAIT_FEATURE: &'static str = "message-lifecycle-v1";

/// The store after a wait for the reply to a request has begun, and the reply where it is there
/// already. Where it is not, and the request went to a participant on another device, what that
/// device said against the wait refuses it: before any sleep, and before any time can run out.
pub open spec fn wait_begun(
    db: DbV,
    request_id: Seq<char>,
    actor: Seq<char>,
    target: Seq<char>,
    objection: Option<Seq<char>>,
    now: Seq<char>,
) -> (DbV, Result<Option<InspectionV>, Seq<char>>) {
    let (d, found) = reply_claimed(db, request_id, actor, now);
    match found {
        Err(e) => (d, Err(refusal_text(e))),
        Ok(Some(v)) => (d, Ok(Some(v))),
        Ok(None) => if device_of(target) is Some && objection is Some {
            (d, Err(objection->0))
        } else {
            (d, Ok(None))
        },
    }
}

/// A wait that the device of the recipient objects to is refused, where no reply is there yet;
/// nothing is logged then.
pub proof fn gated_waits_change_nothing(
    db: DbV,
    request_id: Seq<char>,
    actor: Seq<char>,
    target: Seq<char>,
    objection: Seq<char>,
    now: Seq<char>,
)
    requires
        reply_found(db, request_id, actor) == Ok::<Option<InspectionV>, ErrorV>(None),
        device_of(target) is Some,
    ensures
        wait_begun(db, request_id, actor, target, Some(objection), now) == (
            db,
            Err::<Option<InspectionV>, Seq<char>>(objection),
        ),
{
}

/// A turn of a wait for a reply.
#[derive(Debug)]
pub enum WaitTurn {
    /// The reply has come.
    Reply(Inspection),
    /// There is no time left.
    TimedOut,
    /// Wait for that many milliseconds at most, and look again.
    Sleep(u64),
}

/// The view of a [`WaitTurn`].
pub enum WaitTurnV {
    Reply(InspectionV),
    TimedOut,
    Sleep(int),
}

impl View for WaitTurn {
    type V = WaitTurnV;

    open spec fn view(&self) -> WaitTurnV {
        match self {
            WaitTurn::Reply(v) => WaitTurnV::Reply(v@),
            WaitTurn::TimedOut => WaitTurnV::TimedOut,
            WaitTurn::Sleep(n) => WaitTurnV::Sleep(*n as int),
        }
    }
}

/// The store after a turn of a wait for the reply to a request, with some time left, and what the
/// turn comes to. A reply that is there is taken whatever time is left.
pub open spec fn turn_taken(
    db: DbV,
    request_id: Seq<char>,
    actor: Seq<char>,
    remaining_ms: Option<u64>,
    now: Seq<char>,
) -> (DbV, Result<WaitTurnV, ErrorV>) {
    let (d, found) = reply_claimed(db, request_id, actor, now);
    match found {
        Err(e) => (d, Err(e)),
        Ok(Some(v)) => (d, Ok(WaitTurnV::Reply(v))),
        Ok(None) => if remaining_ms is None || remaining_ms->0 == 0 {
            match timeout_logged(d, request_id, actor, now) {
                Err(e) => (d, Err(e)),
                Ok((t, _)) => (t, Ok(WaitTurnV::TimedOut)),
            }
        } else if remaining_ms->0 > 30000 {
            (d, Ok(WaitTurnV::Sleep(30000)))
        } else {
            (d, Ok(WaitTurnV::Sleep(remaining_ms->0 as int)))
        },
    }
}

impl HcomDb {
    /// Begins a wait for the reply to a request that went to one recipient: takes the reply where it
    /// is there, and else lets the device of the recipient object, where that is another one.
    pub fn begin_wait(
        &mut self,
        request_id: &str,
        actor: &str,
        target: &str,
        objection: Option<&str>,
        now: &str,
    ) -> (r: Result<Option<Inspection>, String>)
        requires
            claim_readable(old(self)@, request_id@, actor@),
        ensures
            ({
                let s = wait_begun(
                    old(self)@,
                    request_id@,
                    actor@,
                    target@,
                    opt_str(objection),
                    now@,
                );
                &&& final(self)@ == s.0
                &&& match r {
                    Ok(Some(v)) => s.1 == Ok::<Option<InspectionV>, Seq<char>>(Some(v@)),
                    Ok(None) => s.1 == Ok::<Option<InspectionV>, Seq<char>>(None),
                    Err(e) => s.1 == Err::<Option<InspectionV>, Seq<char>>(e@),
                }
            }),
    {
        match self.claim_reply_v1(request_id, actor, now) {
            Err(e) => Err(e.message()),
            Ok(Some(v)) => Ok(Some(v)),
            Ok(None) => match objection {
                Some(e) if remote_device(target).is_some() => Err(e.to_owned()),
                _ => Ok(None),
            },
        }
    }

    /// Takes a turn of a wait for the reply to a request, with some time left: takes the reply where
    /// it is there, and logs that the wait timed out where no time is left.
    pub fn wait_for_reply(&mut self, request_id: &str, actor: &str, remaining_ms: Option<u64>, now: &str) -> (r:
        Result<WaitTurn, LifecycleError>)
        requires
            claim_readable(old(self)@, request_id@, actor@),
        ensures
            final(self)@ == turn_taken(old(self)@, request_id@, actor@, remaining_ms, now@).0,
            match r {
                Ok(t) => turn_taken(old(self)@, request_id@, actor@, remaining_ms, now@).1 == Ok::<
                    WaitTurnV,
                    ErrorV,
                >(t@),
                Err(e) => turn_taken(old(self)@, request_id@, actor@, remaining_ms, now@).1 == Err::<
                    WaitTurnV,
                    ErrorV,
                >(e@),
            },
    {
        match self.claim_reply_v1(request_id, actor, now) {
            Err(e) => Err(e),
            Ok(Some(v)) => Ok(WaitTurn::Reply(v)),
            Ok(None) => {
                let left: u64 = match remaining_ms {
                    Some(ms) => ms,
                    None => 0,
                };
                if left == 0 {
                    return match self.append_ask_timeout_v1(request_id, actor, now) {
                        Err(e) => Err(e),
                        Ok(_) => Ok(WaitTurn::TimedOut),
                    };
                }
                if left > 30000 {
                    Ok(WaitTurn::Sleep(30000))
                } else {
                    Ok(WaitTurn::Sleep(left))
                }
            },
        }
    }
}

/// Whether an object holds just these members, each to be read under its key.
proof fn lemma_read(ms: Seq<MemberV>)
    requires
        forall|i: int, j: int| 0 <= i < j < ms.len() ==> (#[trigger] ms[i]).key != (#[trigger] ms[j]).key,
    ensures
        forall|i: int| 0 <= i < ms.len() ==> member(JsonV::Object(ms), (#[trigger] ms[i]).key) == Some(ms[i].value),
{
    assert forall|i: int| 0 <= i < ms.len() implies member(JsonV::Object(ms), (#[trigger] ms[i]).key) == Some(ms[i].value) by {
        crate::json::lemma_member_at(ms, i);
    }
}

/// Whether data shows a delivery: to whom, at which endpoint, where it stands, who brought it there,
/// when, with which event, and at which attempt.
pub open spec fn shows_delivery(j: JsonV, d: DeliveryV) -> bool {
    &&& member(j, "attempt"@) == Some(JsonV::Int(d.attempt))
    &&& member_text(j, "delivery_endpoint"@) == Some(d.delivery_endpoint)
    &&& member_text(j, "endpoint_epoch"@) == Some(d.endpoint_epoch)
    &&& member_text(j, "last_actor"@) == Some(d.last_actor)
    &&& member_text(j, "recipient_name"@) == Some(d.recipient_name)
    &&& member_text(j, "state"@) == Some(d.state)
    &&& member(j, "state_event_id"@) == Some(match d.state_event_id { Some(n) => JsonV::Int(n), None => JsonV::Null })
    &&& member_text(j, "updated_at"@) == Some(d.updated_at)
}

proof fn lemma_shows_delivery(d: DeliveryV)
    ensures
        shows_delivery(delivery_json(d), d),
{
    reveal_strlit("attempt");
    reveal_strlit("delivery_endpoint");
    reveal_strlit("endpoint_epoch");
    reveal_strlit("last_actor");
    reveal_strlit("recipient_name");
    reveal_strlit("state");
    reveal_strlit("state_event_id");
    reveal_strlit("updated_at");
    assert("attempt"@.len() == 7 && "delivery_endpoint"@.len() == 17 && "endpoint_epoch"@.len() == 14 && "last_actor"@.len() == 10);
    assert("recipient_name"@.len() == 14 && "state"@.len() == 5 && "state_event_id"@.len() == 14 && "updated_at"@.len() == 10);
    assert("endpoint_epoch"@[0] == 'e' && "recipient_name"@[0] == 'r' && "state_event_id"@[0] == 's' && "last_actor"@[0] == 'l' && "updated_at"@[0] == 'u');
    let ms = delivery_json(d)->Object_0;
    lemma_read(ms);
    assert(ms[0].key == "attempt"@ && ms[1].key == "delivery_endpoint"@ && ms[2].key == "endpoint_epoch"@ && ms[3].key == "last_actor"@);
    assert(ms[4].key == "recipient_name"@ && ms[5].key == "state"@ && ms[6].key == "state_event_id"@ && ms[7].key == "updated_at"@);
}

/// A message is shown with its payload and with each of its deliveries, in order.
pub proof fn messages_are_shown_whole(inspection: Inspection, r: Json, i: int)
    requires
        call_ensures(inspection_value, (&inspection,), r),
    ensures
        member(r@, "message"@) == Some(inspection.message@),
        member(r@, "deliveries"@) matches Some(JsonV::Array(ds)) && ds.len() == inspection.deliveries@.len() && (0 <= i < ds.len() ==> shows_delivery(ds[i], inspection.deliveries@[i]@)),
{
    lemma_inspection(inspection@);
    if 0 <= i < inspection.deliveries@.len() {
        lemma_shows_delivery(inspection.deliveries@[i]@);
        assert(views(inspection.deliveries@)[i] == inspection.deliveries@[i]@);
    }
}

proof fn lemma_inspection(v: InspectionV)
    ensures
        member(inspection_json(v), "message"@) == Some(v.message),
        member(inspection_json(v), "deliveries"@) == Some(JsonV::Array(Seq::new(v.deliveries.len(), |i: int| delivery_json(v.deliveries[i])))),
{
    reveal_strlit("deliveries");
    reveal_strlit("message");
    assert("deliveries"@.len() == 10 && "message"@.len() == 7);
    let ms = inspection_json(v)->Object_0;
    lemma_read(ms);
    assert(ms[0].key == "deliveries"@ && ms[1].key == "message"@);
}

/// What a sender is told of a message that was sent: its id, its event, to whom it went, and which
/// endpoint each of them had.
pub proof fn sent_messages_are_told(result: MessagePersistResult, r: Json, i: int)
    requires
        call_ensures(send_result_value, (&result,), r),
        forall|a: int, b: int| 0 <= a < b < result.recipient_endpoint_epochs@.len() ==> (#[trigger] result.recipient_endpoint_epochs@[a]).recipient@ != (#[trigger] result.recipient_endpoint_epochs@[b]).recipient@,
    ensures
        member_text(r@, "message_id"@) == Some(result.message_id@),
        member(r@, "event_id"@) == Some(JsonV::Int(result.event_id as int)),
        member(r@, "delivered_to"@) matches Some(JsonV::Array(names)) && names.len() == result.delivered_to@.len() && (0 <= i < names.len() ==> names[i] == JsonV::Text(result.delivered_to@[i]@)),
        0 <= i < result.recipient_endpoint_epochs@.len() ==> (member(r@, "recipient_endpoint_epochs"@) matches Some(es) && member_text(es, result.recipient_endpoint_epochs@[i].recipient@) == Some(result.recipient_endpoint_epochs@[i].epoch@)),
{
    reveal_strlit("delivered_to");
    reveal_strlit("event_id");
    reveal_strlit("message_id");
    reveal_strlit("recipient_endpoint_epochs");
    assert("delivered_to"@.len() == 12 && "event_id"@.len() == 8 && "message_id"@.len() == 10 && "recipient_endpoint_epochs"@.len() == 25);
    let p = result@;
    let ms = sent_json(p)->Object_0;
    lemma_read(ms);
    assert(ms[0].key == "delivered_to"@ && ms[1].key == "event_id"@ && ms[2].key == "message_id"@ && ms[3].key == "recipient_endpoint_epochs"@);
    assert(p.delivered_to.len() == result.delivered_to@.len());
    if 0 <= i < result.delivered_to@.len() {
        assert(p.delivered_to[i] == result.delivered_to@[i]@);
    }
    let es = p.recipient_endpoint_epochs;
    assert(es.len() == result.recipient_endpoint_epochs@.len());
    if 0 <= i < es.len() {
        assert(es[i] == result.recipient_endpoint_epochs@[i]@);
        assert forall|a: int, b: int| 0 <= a < b < es.len() implies (#[trigger] es[a]).recipient != (#[trigger] es[b]).recipient by {
            assert(es[a] == result.recipient_endpoint_epochs@[a]@ && es[b] == result.recipient_endpoint_epochs@[b]@);
            assert(result.recipient_endpoint_epochs@[a].recipient@ != result.recipient_endpoint_epochs@[b].recipient@);
        }
        lemma_epochs(es, es.len() as int, i);
    }
}

proof fn lemma_epochs(s: Seq<EpochV>, n: int, i: int)
    requires
        0 <= i < n <= s.len(),
        forall|a: int, b: int| 0 <= a < b < s.len() ==> (#[trigger] s[a]).recipient != (#[trigger] s[b]).recipient,
    ensures
        member(JsonV::Object(epochs_json(s, n)), s[i].recipient) == Some(JsonV::Text(s[i].epoch)),
    decreases n,
{
    let before = epochs_json(s, n - 1);
    crate::json::with_member_reads_back(before, s[n - 1].recipient, JsonV::Text(s[n - 1].epoch), s[i].recipient);
    if i < n - 1 {
        lemma_epochs(s, n - 1, i);
        assert(s[i].recipient != s[n - 1].recipient);
    }
}

/// A receipt is told as it came out; a cancellation with what became of each delivery; pending requests
/// and a message in full; and there is nothing to tell where a message is to be sent or waited for.
pub proof fn outcomes_are_told(outcome: MessageOutcome, r: Option<Json>, i: int)
    requires
        call_ensures(result_value, (&outcome,), r),
    ensures
        r is None <==> outcome is Send || outcome is Wait,
        outcome matches MessageOutcome::Receipted(v) ==> {
            let j = r->0@;
            &&& member(j, "idempotent"@) == Some(JsonV::Bool(v.idempotent)) && member_text(j, "message_id"@) == Some(v.message_id@) && member_text(j, "recipient"@) == Some(v.recipient@)
            &&& member_text(j, "prior_state"@) == Some(v.prior_state@) && member_text(j, "state"@) == Some(v.state@)
            &&& member(j, "state_event_id"@) == Some(match v.state_event_id { Some(n) => JsonV::Int(n as int), None => JsonV::Null })
        },
        outcome matches MessageOutcome::Cancelled { message_id, deliveries } ==> {
            let j = r->0@;
            &&& member_text(j, "message_id"@) == Some(message_id@) && member_text(j, "operation"@) == Some("cancel"@)
            &&& member(j, "deliveries"@) matches Some(JsonV::Array(ds)) && ds.len() == deliveries@.len() && (0 <= i < ds.len() ==> member_text(ds[i], "recipient"@) == Some(deliveries@[i].recipient@) && member_text(ds[i], "state"@) == Some(deliveries@[i].state@) && member(ds[i], "changed"@) == Some(JsonV::Bool(deliveries@[i].changed)))
        },
        outcome matches MessageOutcome::Inspected(v) ==> member(r->0@, "message"@) == Some(v.message@),
        outcome matches MessageOutcome::Pending(vs) ==> (r->0@ matches JsonV::Array(js) && js.len() == vs@.len() && (0 <= i < js.len() ==> member(js[i], "message"@) == Some(vs@[i].message@))),
{
    reveal_strlit("idempotent");
    reveal_strlit("message_id");
    reveal_strlit("prior_state");
    reveal_strlit("recipient");
    reveal_strlit("state");
    reveal_strlit("state_event_id");
    reveal_strlit("deliveries");
    reveal_strlit("operation");
    reveal_strlit("changed");
    assert("idempotent"@.len() == 10 && "message_id"@.len() == 10 && "prior_state"@.len() == 11 && "recipient"@.len() == 9 && "state"@.len() == 5 && "state_event_id"@.len() == 14);
    assert("deliveries"@.len() == 10 && "operation"@.len() == 9 && "changed"@.len() == 7);
    assert("idempotent"@[0] == 'i' && "message_id"@[0] == 'm' && "deliveries"@[0] == 'd');
    match outcome {
        MessageOutcome::Receipted(v) => {
            let ms = receipt_json(v@)->Object_0;
            lemma_read(ms);
            assert(ms[0].key == "idempotent"@ && ms[1].key == "message_id"@ && ms[2].key == "prior_state"@ && ms[3].key == "recipient"@ && ms[4].key == "state"@ && ms[5].key == "state_event_id"@);
        },
        MessageOutcome::Cancelled { message_id, deliveries } => {
            let s = views(deliveries@);
            let ms = cancel_json(message_id@, s)->Object_0;
            lemma_read(ms);
            assert(ms[0].key == "deliveries"@ && ms[1].key == "message_id"@ && ms[2].key == "operation"@);
            if 0 <= i < deliveries@.len() {
                assert(s[i] == deliveries@[i]@);
                let os = outcome_json(s[i])->Object_0;
                lemma_read(os);
                assert(os[0].key == "changed"@ && os[1].key == "recipient"@ && os[2].key == "state"@);
            }
        },
        MessageOutcome::Inspected(v) => {
            lemma_inspection(v@);
        },
        MessageOutcome::Pending(vs) => {
            if 0 <= i < vs@.len() {
                assert(views(vs@)[i] == vs@[i]@);
                lemma_inspection(vs@[i]@);
            }
        },
        _ => {},
    }
}

/// A turn of a wait hands over the reply that can be taken, whatever time is left; without one it times
/// out where no time is left, and else asks to sleep for what is left, but half a minute at most.
pub proof fn waits_end_with_the_reply_or_the_time(db: &mut HcomDb, request_id: &str, actor: &str, left: Option<u64>, now: &str, r: Result<WaitTurn, LifecycleError>, found: Result<Option<Inspection>, LifecycleError>)
    requires
        call_ensures(HcomDb::wait_for_reply, (db, request_id, actor, left, now), r),
        call_ensures(HcomDb::find_reply_v1, (&*old(db), request_id, actor), found),
    ensures
        found is Err ==> r is Err && final(db)@ == old(db)@,
        found matches Ok(Some(v)) ==> (r is Err || (r matches Ok(WaitTurn::Reply(_)))),
        (found matches Ok(None)) && left is Some && left->0 > 0 ==> (r matches Ok(WaitTurn::Sleep(ms)) && ms == (if left->0 > 30000 { 30000 } else { left->0 })) && final(db)@ == old(db)@,
        (found matches Ok(None)) && (left is None || left->0 == 0) && old(db)@.sequence < i64::MAX ==> (r matches Ok(WaitTurn::TimedOut)) && final(db)@.events.len() == old(db)@.events.len() + 1 && member_text(final(db)@.events.last().data, "new_state"@) == Some("ask_timed_out"@) && member_text(final(db)@.events.last().data, "message_id"@) == Some(request_id@),
{
    if (found matches Ok(None)) && (left is None || left->0 == 0) {
        let ms = crate::senders::timeout_data(request_id@, actor@, now@)->Object_0;
        reveal_strlit("actor");
        reveal_strlit("message_id");
        reveal_strlit("new_state");
        assert("actor"@.len() == 5 && "message_id"@.len() == 10 && "new_state"@.len() == 9);
        crate::json::lemma_member_at(ms, 1);
        crate::json::lemma_member_at(ms, 2);
    }
}

/// A wait begins with the reply where it can be taken; else what the device of the recipient objects
/// refuses it, where the recipient is on another device; and else it goes on.
pub proof fn waits_begin_unless_objected_to(db: &mut HcomDb, request_id: &str, actor: &str, target: &str, objection: Option<&str>, now: &str, r: Result<Option<Inspection>, String>, found: Result<Option<Inspection>, LifecycleError>, device: Option<String>)
    requires
        call_ensures(remote_device, (target,), device),
        call_ensures(HcomDb::begin_wait, (db, request_id, actor, target, objection, now), r),
        call_ensures(HcomDb::find_reply_v1, (&*old(db), request_id, actor), found),
    ensures
        found matches Err(e) ==> (r matches Err(s) && s@ == refusal_text(e@)) && final(db)@ == old(db)@,
        (found matches Ok(Some(_))) ==> !(r matches Ok(None)),
        (found matches Ok(None)) ==> final(db)@ == old(db)@,
        (found matches Ok(None)) && objection is None ==> (r matches Ok(None)),
        (found matches Ok(None)) && device is None ==> (r matches Ok(None)),
        (found matches Ok(None)) && objection is Some && device is Some ==> (r matches Err(s) && s@ == objection->0@),
{
}

} // verus!
