//! The command that inspects and controls messages.

use crate::evolution::{
    cancellations_follow, follows_closely, lemma_follows_itself, receipts_follow,
};
use crate::identity::{CommandContext, SenderIdentity};
use crate::json::{Json, JsonV, array_view, lemma_array, member, member_text};
use crate::receipts::{DeliveryReceiptResult, ReceiptV, receipted};
use crate::rows::views;
use crate::senders::{
    CancelOutcome, Inspection, InspectionV, OutcomeV, inspected, message_cancelled, pending,
    pending_readable, resolved,
};
use crate::store::{DbV, HcomDb, LifecycleError, refusal_text};
use crate::text::{cat, chars_of, decimal, decimal_text, opt_str, opt_text, own_opt, same, texts};
use vstd::prelude::*;

verus! {

/// What can be done with messages.
#[derive(Debug)]
pub enum MessageCommand {
    /// Wait for the reply to a request.
    Wait { message_id: String, timeout: u64, json: bool },
    /// List the requests that wait for an answer of the actor.
    Pending { json: bool },
    /// Answer a request.
    Reply {
        message_id: String,
        attachments: Vec<String>,
        json: bool,
        quiet: bool,
        text: Vec<String>,
    },
    /// Cancel a message.
    Cancel { message_id: String, json: bool },
    /// Send a message in place of an earlier one.
    Supersede { message_id: String, attachments: Vec<String>, json: bool, text: Vec<String> },
    /// Send an earlier message again.
    Retry { message_id: String, json: bool },
    /// Report what has become of a delivery.
    Receipt {
        message_id: String,
        state: String,
        endpoint_epoch: String,
        reason: Option<String>,
        json: bool,
    },
    /// Show a message and its deliveries.
    Inspect { message_id: String, json: bool },
}

/// The arguments of the command.
#[derive(Debug)]
pub struct MessageArgs {
    pub command: MessageCommand,
}

/// Whether the output of a command is for a program.
pub open spec fn wants_json(c: MessageCommand) -> bool {
    match c {
        MessageCommand::Wait { json, .. } => json,
        MessageCommand::Pending { json } => json,
        MessageCommand::Reply { json, .. } => json,
        MessageCommand::Cancel { json, .. } => json,
        MessageCommand::Supersede { json, .. } => json,
        MessageCommand::Retry { json, .. } => json,
        MessageCommand::Receipt { json, .. } => json,
        MessageCommand::Inspect { json, .. } => json,
    }
}

/// Whether a command is to print nothing of its own.
pub open spec fn is_quiet(c: MessageCommand) -> bool {
    c matches MessageCommand::Reply { quiet, .. } && quiet
}

impl MessageArgs {
    /// Whether messages that have arrived are kept back after the command: where its output is for a
    /// program, or it is to print nothing.
    pub fn suppresses_post_command_delivery(&self) -> (r: bool)
        ensures
            r == (wants_json(self.command) || is_quiet(self.command)),
    {
        match &self.command {
            MessageCommand::Wait { json, .. } => *json,
            MessageCommand::Pending { json } => *json,
            MessageCommand::Reply { json, quiet, .. } => *json || *quiet,
            MessageCommand::Cancel { json, .. } => *json,
            MessageCommand::Supersede { json, .. } => *json,
            MessageCommand::Retry { json, .. } => *json,
            MessageCommand::Receipt { json, .. } => *json,
            MessageCommand::Inspect { json, .. } => *json,
        }
    }

    /// Whether the result of the command is printed.
    pub fn prints_result(&self) -> (r: bool)
        ensures
            r == (wants_json(self.command) || !is_quiet(self.command)),
    {
        match &self.command {
            MessageCommand::Reply { json, quiet, .. } => *json || !*quiet,
            _ => true,
        }
    }
}

/// The identity that a command is run with; one without is refused.
pub fn actor<'a>(ctx: Option<&'a CommandContext>) -> (r: Result<&'a SenderIdentity, String>)
    ensures
        match r {
            Ok(id) => ctx matches Some(c) && c.identity == Some(*id),
            Err(e) => (ctx is None || (ctx matches Some(c) && c.identity is None)) && e@
                == "message operations require a verified instance identity"@,
        },
{
    match ctx {
        Some(c) => match &c.identity {
            Some(id) => Ok(id),
            None => Err("message operations require a verified instance identity".to_owned()),
        },
        None => Err("message operations require a verified instance identity".to_owned()),
    }
}

/// A member of an inspected message; one that is missing is an error.
pub open spec fn field(v: InspectionV, name: Seq<char>) -> Result<JsonV, Seq<char>> {
    match member(v.message, name) {
        Some(j) => Ok(j),
        None => Err("message projection missing "@ + name),
    }
}

/// A member of an inspected message; one that is missing is an error.
pub fn inspected_message<'a>(inspection: &'a Inspection, name: &str) -> (r: Result<&'a Json, String>)
    ensures
        match r {
            Ok(j) => field(inspection@, name@) == Ok::<JsonV, Seq<char>>(j@),
            Err(e) => field(inspection@, name@) == Err::<JsonV, Seq<char>>(e@),
        },
{
    match inspection.message.get(name) {
        Some(j) => Ok(j),
        None => Err(cat("message projection missing ", name)),
    }
}

/// The recipients of an inspected message.
pub open spec fn targets_of(v: InspectionV) -> Seq<Seq<char>> {
    Seq::new(v.deliveries.len(), |i: int| v.deliveries[i].recipient_name)
}

/// The recipients of an inspected message; one without any is refused.
pub fn inspection_targets(inspection: &Inspection) -> (r: Result<Vec<String>, String>)
    ensures
        match r {
            Ok(v) => texts(v@) == targets_of(inspection@) && v@.len() > 0,
            Err(e) => targets_of(inspection@).len() == 0 && e@
                == "message has no recipient deliveries"@,
        },
{
    let mut out: Vec<String> = Vec::new();
    let mut i: usize = 0;
    while i < inspection.deliveries.len()
        invariant
            i <= inspection.deliveries@.len(),
            out@.len() == i,
            forall|k: int| 0 <= k < i ==> (#[trigger] out@[k])@ == targets_of(inspection@)[k],
        decreases inspection.deliveries.len() - i,
    {
        out.push(inspection.deliveries[i].recipient_name.clone());
        i += 1;
    }
    assert(texts(out@) =~= targets_of(inspection@));
    if out.len() == 0 {
        return Err("message has no recipient deliveries".to_owned());
    }
    Ok(out)
}

/// Whether an actor takes part in an inspected message: as the sender that its payload names, or as
/// a recipient.
pub open spec fn inspection_refusal(v: InspectionV, actor: Seq<char>) -> Option<Seq<char>> {
    match field(v, "from"@) {
        Err(e) => Some(e),
        Ok(from) => if from == JsonV::Text(actor) || targets_of(v).contains(actor) {
            None
        } else {
            Some("message is not addressed to this actor"@)
        },
    }
}

fn is_text(j: &Json, s: &str) -> (r: bool)
    ensures
        r == (j@ == JsonV::Text(s@)),
{
    match j {
        Json::Text(t) => same(t.as_str(), s),
        _ => false,
    }
}

/// Tests that an actor takes part in an inspected message.
pub fn authorize_inspection(inspection: &Inspection, actor: &str) -> (r: Result<(), String>)
    ensures
        match r {
            Ok(()) => inspection_refusal(inspection@, actor@) is None,
            Err(e) => inspection_refusal(inspection@, actor@) == Some(e@),
        },
{
    let from: &Json = match inspected_message(inspection, "from") {
        Ok(j) => j,
        Err(e) => {
            return Err(e);
        },
    };
    if is_text(from, actor) {
        return Ok(());
    }
    let mut i: usize = 0;
    while i < inspection.deliveries.len()
        invariant
            i <= inspection.deliveries@.len(),
            forall|k: int| 0 <= k < i ==> (#[trigger] targets_of(inspection@)[k]) != actor@,
            field(inspection@, "from"@) matches Ok(f) && f != JsonV::Text(actor@),
        decreases inspection.deliveries.len() - i,
    {
        if same(inspection.deliveries[i].recipient_name.as_str(), actor) {
            assert(targets_of(inspection@)[i as int] == actor@);
            return Ok(());
        }
        i += 1;
    }
    Err("message is not addressed to this actor".to_owned())
}

/// Whether an inspected message is a request that expects a reply; a member that is missing is an
/// error.
pub open spec fn is_request(v: InspectionV) -> Result<bool, Seq<char>> {
    match field(v, "intent"@) {
        Err(e) => Err(e),
        Ok(intent) => if intent != JsonV::Text("request"@) {
            Ok(false)
        } else {
            match field(v, "expects_reply"@) {
                Err(e) => Err(e),
                Ok(expects) => Ok(expects == JsonV::Bool(true)),
            }
        },
    }
}

fn check_request(inspection: &Inspection) -> (r: Result<bool, String>)
    ensures
        match r {
            Ok(b) => is_request(inspection@) == Ok::<bool, Seq<char>>(b),
            Err(e) => is_request(inspection@) == Err::<bool, Seq<char>>(e@),
        },
{
    match inspected_message(inspection, "intent") {
        Err(e) => Err(e),
        Ok(intent) => {
            if !is_text(intent, "request") {
                return Ok(false);
            }
            match inspected_message(inspection, "expects_reply") {
                Err(e) => Err(e),
                Ok(Json::Bool(b)) => Ok(*b),
                Ok(_) => Ok(false),
            }
        },
    }
}

/// How a message is to be sent: what it is, what it belongs to, and what it carries.
#[derive(Debug)]
pub struct MessageEnvelope {
    pub intent: Option<String>,
    pub thread: Option<String>,
    pub bundle_id: Option<String>,
    pub correlation_id: Option<String>,
    pub reply_to: Option<String>,
    pub in_reply_to: Option<String>,
    pub reply_endpoint: Option<String>,
    pub delivery_endpoint: Option<String>,
    pub supersedes: Option<String>,
    pub retry_of: Option<String>,
    pub expects_reply: bool,
    pub attachments: Json,
}

/// The view of a [`MessageEnvelope`].
pub struct EnvelopeV {
    pub intent: Option<Seq<char>>,
    pub thread: Option<Seq<char>>,
    pub bundle_id: Option<Seq<char>>,
    pub correlation_id: Option<Seq<char>>,
    pub reply_to: Option<Seq<char>>,
    pub in_reply_to: Option<Seq<char>>,
    pub reply_endpoint: Option<Seq<char>>,
    pub delivery_endpoint: Option<Seq<char>>,
    pub supersedes: Option<Seq<char>>,
    pub retry_of: Option<Seq<char>>,
    pub expects_reply: bool,
    pub attachments: JsonV,
}

impl View for MessageEnvelope {
    type V = EnvelopeV;

    open spec fn view(&self) -> EnvelopeV {
        EnvelopeV {
            intent: opt_text(self.intent),
            thread: opt_text(self.thread),
            bundle_id: opt_text(self.bundle_id),
            correlation_id: opt_text(self.correlation_id),
            reply_to: opt_text(self.reply_to),
            in_reply_to: opt_text(self.in_reply_to),
            reply_endpoint: opt_text(self.reply_endpoint),
            delivery_endpoint: opt_text(self.delivery_endpoint),
            supersedes: opt_text(self.supersedes),
            retry_of: opt_text(self.retry_of),
            expects_reply: self.expects_reply,
            attachments: self.attachments@,
        }
    }
}

/// A message that is to be sent: its text, its envelope, and its recipients.
#[derive(Debug)]
pub struct SendPlan {
    pub text: String,
    pub envelope: MessageEnvelope,
    pub targets: Vec<String>,
}

/// The view of a [`SendPlan`].
pub struct SendPlanV {
    pub text: Seq<char>,
    pub envelope: EnvelopeV,
    pub targets: Seq<Seq<char>>,
}

impl View for SendPlan {
    type V = SendPlanV;

    open spec fn view(&self) -> SendPlanV {
        SendPlanV { text: self.text@, envelope: self.envelope@, targets: texts(self.targets@) }
    }
}

/// The view of attachments that were normalized, or why they could not be.
pub open spec fn attachments_view(r: Result<Json, String>) -> Result<JsonV, Seq<char>> {
    match r {
        Ok(j) => Ok(j@),
        Err(e) => Err(e@),
    }
}

/// The endpoint that the reply to a request goes to, by the mode that the request asked for.
pub open spec fn reply_endpoint_for(v: InspectionV, request_id: Seq<char>) -> Result<
    Seq<char>,
    Seq<char>,
> {
    let mode = match member_text(v.message, "reply_mode"@) {
        Some(s) => s,
        None => "inbox"@,
    };
    if mode == "inbox"@ {
        Ok("inbox"@)
    } else if mode == "wait"@ {
        Ok("request:"@ + request_id)
    } else {
        Err("request has invalid reply mode: "@ + mode)
    }
}

/// The reply to a request, as it is to be sent; or why it is refused.
pub open spec fn reply_planned(
    v: InspectionV,
    actor: Seq<char>,
    request_id: Seq<char>,
    text: Seq<char>,
    attachments: Result<JsonV, Seq<char>>,
) -> Result<SendPlanV, Seq<char>> {
    match inspection_refusal(v, actor) {
        Some(e) => Err(e),
        None => match is_request(v) {
            Err(e) => Err(e),
            Ok(request) => if !request {
                Err("reply target must be a request that expects a reply"@)
            } else {
                match (field(v, "from"@), field(v, "correlation_id"@), field(v, "event_id"@)) {
                    (Err(e), _, _) => Err(e),
                    (Ok(from), correlation, event) => match from {
                        JsonV::Text(sender) => match correlation {
                            Err(e) => Err(e),
                            Ok(JsonV::Text(correlation_id)) => match event {
                                Err(e) => Err(e),
                                Ok(JsonV::Int(event_id)) => match reply_endpoint_for(
                                    v,
                                    request_id,
                                ) {
                                    Err(e) => Err(e),
                                    Ok(endpoint) => match attachments {
                                        Err(e) => Err(e),
                                        Ok(a) => Ok(
                                            SendPlanV {
                                                text,
                                                envelope: EnvelopeV {
                                                    intent: Some("ack"@),
                                                    thread: member_text(v.message, "thread"@),
                                                    bundle_id: None,
                                                    correlation_id: Some(correlation_id),
                                                    reply_to: Some(decimal(event_id)),
                                                    in_reply_to: Some(request_id),
                                                    reply_endpoint: None,
                                                    delivery_endpoint: Some(endpoint),
                                                    supersedes: None,
                                                    retry_of: None,
                                                    expects_reply: false,
                                                    attachments: a,
                                                },
                                                targets: seq![sender],
                                            },
                                        ),
                                    },
                                },
                                Ok(_) => Err("request event ID is invalid"@),
                            },
                            Ok(_) => Err("request correlation is invalid"@),
                        },
                        _ => Err("request sender is invalid"@),
                    },
                }
            },
        },
    }
}

fn read_reply_endpoint(inspection: &Inspection, request_id: &str) -> (r: Result<String, String>)
    ensures
        match r {
            Ok(s) => reply_endpoint_for(inspection@, request_id@) == Ok::<Seq<char>, Seq<char>>(s@),
            Err(e) => reply_endpoint_for(inspection@, request_id@) == Err::<Seq<char>, Seq<char>>(
                e@,
            ),
        },
{
    let mode: &str = match inspection.message.get_text("reply_mode") {
        Some(s) => s,
        None => "inbox",
    };
    if same(mode, "inbox") {
        Ok("inbox".to_owned())
    } else if same(mode, "wait") {
        Ok(cat("request:", request_id))
    } else {
        Err(cat("request has invalid reply mode: ", mode))
    }
}

/// The reply to a request, as it is to be sent, given what normalizing its attachments gave.
pub fn plan_reply(
    inspection: &Inspection,
    actor: &str,
    request_id: &str,
    text: String,
    attachments: Result<Json, String>,
) -> (r: Result<SendPlan, String>)
    ensures
        match r {
            Ok(p) => reply_planned(
                inspection@,
                actor@,
                request_id@,
                text@,
                attachments_view(attachments),
            ) == Ok::<SendPlanV, Seq<char>>(p@),
            Err(e) => reply_planned(
                inspection@,
                actor@,
                request_id@,
                text@,
                attachments_view(attachments),
            ) == Err::<SendPlanV, Seq<char>>(e@),
        },
{
    if let Err(e) = authorize_inspection(inspection, actor) {
        return Err(e);
    }
    match check_request(inspection) {
        Err(e) => {
            return Err(e);
        },
        Ok(b) => {
            if !b {
                return Err("reply target must be a request that expects a reply".to_owned());
            }
        },
    }
    let sender: String = match inspected_message(inspection, "from") {
        Err(e) => {
            return Err(e);
        },
        Ok(Json::Text(s)) => s.clone(),
        Ok(_) => {
            return Err("request sender is invalid".to_owned());
        },
    };
    let correlation_id: String = match inspected_message(inspection, "correlation_id") {
        Err(e) => {
            return Err(e);
        },
        Ok(Json::Text(s)) => s.clone(),
        Ok(_) => {
            return Err("request correlation is invalid".to_owned());
        },
    };
    let event_id: i64 = match inspected_message(inspection, "event_id") {
        Err(e) => {
            return Err(e);
        },
        Ok(Json::Int(n)) => *n,
        Ok(_) => {
            return Err("request event ID is invalid".to_owned());
        },
    };
    let endpoint: String = match read_reply_endpoint(inspection, request_id) {
        Err(e) => {
            return Err(e);
        },
        Ok(s) => s,
    };
    let carried: Json = match attachments {
        Err(e) => {
            return Err(e);
        },
        Ok(a) => a,
    };
    let mut targets: Vec<String> = Vec::new();
    targets.push(sender);
    assert(texts(targets@) =~= seq![sender@]);
    Ok(
        SendPlan {
            text,
            envelope: MessageEnvelope {
                intent: Some("ack".to_owned()),
                thread: own_opt(inspection.message.get_text("thread")),
                bundle_id: None,
                correlation_id: Some(correlation_id),
                reply_to: Some(decimal_text(event_id)),
                in_reply_to: Some(request_id.to_owned()),
                reply_endpoint: None,
                delivery_endpoint: Some(endpoint),
                supersedes: None,
                retry_of: None,
                expects_reply: false,
                attachments: carried,
            },
            targets,
        },
    )
}

/// What a new message is to an earlier one.
#[derive(Debug, Clone, Copy, PartialEq, Eq, Structural)]
pub enum Lineage {
    Supersedes,
    RetryOf,
}

/// The endpoint that all deliveries of a message have.
pub open spec fn shared_endpoint(v: InspectionV) -> Result<Seq<char>, Seq<char>> {
    if v.deliveries.len() == 0 {
        Err("message has no delivery endpoint"@)
    } else if exists|i: int|
        0 <= i < v.deliveries.len() && (#[trigger] v.deliveries[i]).delivery_endpoint
            != v.deliveries[0].delivery_endpoint {
        Err("message recipients have inconsistent delivery endpoints"@)
    } else {
        Ok(v.deliveries[0].delivery_endpoint)
    }
}

/// The envelope of an earlier message, made one that renews it; or why it cannot be. What it carried
/// is kept, and it gets no reply endpoint: the new message has its own.
pub open spec fn envelope_preserved(
    v: InspectionV,
    parent_id: Seq<char>,
    lineage: Lineage,
    bad_intent: Option<Seq<char>>,
    bad_attachments: Option<Seq<char>>,
) -> Result<EnvelopeV, Seq<char>> {
    if !(v.message is Object) {
        Err("message projection is invalid"@)
    } else {
        match member_text(v.message, "correlation_id"@) {
            None => Err("message correlation is invalid"@),
            Some(correlation_id) => if member_text(v.message, "intent"@) is Some && bad_intent
                is Some {
                Err(bad_intent->0)
            } else if member(v.message, "attachments"@) is Some && bad_attachments is Some {
                Err("stored attachments are invalid: "@ + bad_attachments->0)
            } else {
                match shared_endpoint(v) {
                    Err(e) => Err(e),
                    Ok(endpoint) => Ok(
                        EnvelopeV {
                            intent: member_text(v.message, "intent"@),
                            thread: member_text(v.message, "thread"@),
                            bundle_id: member_text(v.message, "bundle_id"@),
                            correlation_id: Some(correlation_id),
                            reply_to: None,
                            in_reply_to: None,
                            reply_endpoint: None,
                            delivery_endpoint: Some(endpoint),
                            supersedes: if lineage == Lineage::Supersedes {
                                Some(parent_id)
                            } else {
                                None
                            },
                            retry_of: if lineage == Lineage::RetryOf {
                                Some(parent_id)
                            } else {
                                None
                            },
                            expects_reply: crate::json::member_bool(v.message, "expects_reply"@)
                                == Some(true),
                            attachments: match member(v.message, "attachments"@) {
                                Some(a) => a,
                                None => JsonV::Array(Seq::empty()),
                            },
                        },
                    ),
                }
            },
        }
    }
}

fn read_shared_endpoint(inspection: &Inspection) -> (r: Result<String, String>)
    ensures
        match r {
            Ok(s) => shared_endpoint(inspection@) == Ok::<Seq<char>, Seq<char>>(s@),
            Err(e) => shared_endpoint(inspection@) == Err::<Seq<char>, Seq<char>>(e@),
        },
{
    let ghost rows = inspection@.deliveries;
    if inspection.deliveries.len() == 0 {
        return Err("message has no delivery endpoint".to_owned());
    }
    let first: &str = inspection.deliveries[0].delivery_endpoint.as_str();
    let mut i: usize = 0;
    while i < inspection.deliveries.len()
        invariant
            i <= inspection.deliveries@.len(),
            inspection.deliveries@.len() > 0,
            rows == inspection@.deliveries,
            first@ == rows[0].delivery_endpoint,
            forall|k: int| 0 <= k < i ==> (#[trigger] rows[k]).delivery_endpoint == first@,
        decreases inspection.deliveries.len() - i,
    {
        if !same(inspection.deliveries[i].delivery_endpoint.as_str(), first) {
            assert(rows[i as int].delivery_endpoint != rows[0].delivery_endpoint);
            return Err("message recipients have inconsistent delivery endpoints".to_owned());
        }
        i += 1;
    }
    Ok(first.to_owned())
}

/// The envelope of an earlier message, made one that renews it, given why its intent and its
/// attachments could not be read, where they could not.
pub fn preserved_envelope(
    inspection: &Inspection,
    parent_id: &str,
    lineage: Lineage,
    bad_intent: Option<&str>,
    bad_attachments: Option<&str>,
) -> (r: Result<MessageEnvelope, String>)
    ensures
        match r {
            Ok(p) => envelope_preserved(
                inspection@,
                parent_id@,
                lineage,
                opt_str(bad_intent),
                opt_str(bad_attachments),
            ) == Ok::<EnvelopeV, Seq<char>>(p@),
            Err(e) => envelope_preserved(
                inspection@,
                parent_id@,
                lineage,
                opt_str(bad_intent),
                opt_str(bad_attachments),
            ) == Err::<EnvelopeV, Seq<char>>(e@),
        },
{
    let message: &Json = &inspection.message;
    if !matches!(message, Json::Object(_)) {
        return Err("message projection is invalid".to_owned());
    }
    let correlation_id: String = match message.get_text("correlation_id") {
        None => {
            return Err("message correlation is invalid".to_owned());
        },
        Some(s) => s.to_owned(),
    };
    if message.get_text("intent").is_some() {
        if let Some(e) = bad_intent {
            return Err(e.to_owned());
        }
    }
    let attachments: Json = match message.get("attachments") {
        Some(a) => {
            if let Some(e) = bad_attachments {
                return Err(cat("stored attachments are invalid: ", e));
            }
            a.duplicate()
        },
        None => {
            let empty: Vec<Json> = Vec::new();
            proof {
                lemma_array(empty);
                assert(array_view(empty@) =~= Seq::<JsonV>::empty());
            }
            Json::Array(empty)
        },
    };
    let endpoint: String = match read_shared_endpoint(inspection) {
        Err(e) => {
            return Err(e);
        },
        Ok(s) => s,
    };
    let expects_reply: bool = match message.get_bool("expects_reply") {
        Some(b) => b,
        None => false,
    };
    Ok(
        MessageEnvelope {
            intent: own_opt(message.get_text("intent")),
            thread: own_opt(message.get_text("thread")),
            bundle_id: own_opt(message.get_text("bundle_id")),
            correlation_id: Some(correlation_id),
            reply_to: None,
            in_reply_to: None,
            reply_endpoint: None,
            delivery_endpoint: Some(endpoint),
            supersedes: if matches!(lineage, Lineage::Supersedes) {
                Some(parent_id.to_owned())
            } else {
                None
            },
            retry_of: if matches!(lineage, Lineage::RetryOf) {
                Some(parent_id.to_owned())
            } else {
                None
            },
            expects_reply,
            attachments,
        },
    )
}

/// What a message that renews an earlier one is made with: whether it brings attachments of its own,
/// its text where it has one, and why the intent and the attachments of the earlier one could not be
/// read, where they could not.
pub struct RenewalV {
    pub lineage: Lineage,
    pub has_attachments: bool,
    pub text: Option<Seq<char>>,
    pub bad_intent: Option<Seq<char>>,
    pub bad_attachments: Option<Seq<char>>,
}

/// What a message that renews an earlier one is made with. A retry has the text of the earlier one.
pub struct Renewal<'a> {
    pub lineage: Lineage,
    pub has_attachments: bool,
    pub text: Option<&'a str>,
    pub bad_intent: Option<&'a str>,
    pub bad_attachments: Option<&'a str>,
}

impl<'a> View for Renewal<'a> {
    type V = RenewalV;

    open spec fn view(&self) -> RenewalV {
        RenewalV {
            lineage: self.lineage,
            has_attachments: self.has_attachments,
            text: opt_str(self.text),
            bad_intent: opt_str(self.bad_intent),
            bad_attachments: opt_str(self.bad_attachments),
        }
    }
}

/// Who may renew a message, in words.
pub open spec fn renewal_refused(lineage: Lineage) -> Seq<char> {
    match lineage {
        Lineage::Supersedes => "supersede is allowed only for the original sender"@,
        Lineage::RetryOf => "retry is allowed only for the original sender"@,
    }
}

/// The text of a message that renews an earlier one: its own, or else that of the earlier one.
pub open spec fn renewal_text(v: InspectionV, text: Option<Seq<char>>) -> Result<
    Seq<char>,
    Seq<char>,
> {
    match text {
        Some(t) => Ok(t),
        None => match field(v, "text"@) {
            Err(e) => Err(e),
            Ok(JsonV::Text(t)) => Ok(t),
            Ok(_) => Err("message text is invalid"@),
        },
    }
}

/// The message that renews an earlier one of the actor, as it is to be sent; or why it is refused.
pub open spec fn renewal_planned(v: InspectionV, actor: Seq<char>, id: Seq<char>, w: RenewalV) -> Result<
    SendPlanV,
    Seq<char>,
> {
    match inspection_refusal(v, actor) {
        Some(e) => Err(e),
        None => match field(v, "from"@) {
            Err(e) => Err(e),
            Ok(from) => if from != JsonV::Text(actor) {
                Err(renewal_refused(w.lineage))
            } else if w.has_attachments {
                Err(
                    "supersede preserves the original attachments; new attachments are not allowed"@,
                )
            } else if targets_of(v).len() == 0 {
                Err("message has no recipient deliveries"@)
            } else {
                match renewal_text(v, w.text) {
                    Err(e) => Err(e),
                    Ok(text) => match envelope_preserved(
                        v,
                        id,
                        w.lineage,
                        w.bad_intent,
                        w.bad_attachments,
                    ) {
                        Err(e) => Err(e),
                        Ok(envelope) => Ok(SendPlanV { text, envelope, targets: targets_of(v) }),
                    },
                }
            },
        },
    }
}

/// The message that renews an earlier one of the actor, as it is to be sent.
pub fn plan_renewal(inspection: &Inspection, actor: &str, id: &str, w: &Renewal<'_>) -> (r: Result<
    SendPlan,
    String,
>)
    ensures
        match r {
            Ok(p) => renewal_planned(inspection@, actor@, id@, w@) == Ok::<SendPlanV, Seq<char>>(
                p@,
            ),
            Err(e) => renewal_planned(inspection@, actor@, id@, w@) == Err::<SendPlanV, Seq<char>>(
                e@,
            ),
        },
{
    if let Err(e) = authorize_inspection(inspection, actor) {
        return Err(e);
    }
    match inspected_message(inspection, "from") {
        Err(e) => {
            return Err(e);
        },
        Ok(from) => {
            if !is_text(from, actor) {
                return Err(
                    match w.lineage {
                        Lineage::Supersedes =>
                            "supersede is allowed only for the original sender".to_owned(),
                        Lineage::RetryOf => "retry is allowed only for the original sender".to_owned(),
                    },
                );
            }
        },
    }
    if w.has_attachments {
        return Err(
            "supersede preserves the original attachments; new attachments are not allowed".to_owned(),
        );
    }
    let targets: Vec<String> = match inspection_targets(inspection) {
        Err(e) => {
            return Err(e);
        },
        Ok(v) => v,
    };
    assert(texts(targets@).len() == targets@.len());
    let text: String = match w.text {
        Some(t) => t.to_owned(),
        None => match inspected_message(inspection, "text") {
            Err(e) => {
                return Err(e);
            },
            Ok(Json::Text(t)) => t.clone(),
            Ok(_) => {
                return Err("message text is invalid".to_owned());
            },
        },
    };
    match preserved_envelope(inspection, id, w.lineage, w.bad_intent, w.bad_attachments) {
        Err(e) => Err(e),
        Ok(envelope) => Ok(SendPlan { text, envelope, targets }),
    }
}

/// The one recipient of a request whose reply the actor may wait for; or why the wait is refused.
pub open spec fn wait_target(v: InspectionV, actor: Seq<char>) -> Result<Seq<char>, Seq<char>> {
    match inspection_refusal(v, actor) {
        Some(e) => Err(e),
        None => match field(v, "from"@) {
            Err(e) => Err(e),
            Ok(from) => if from != JsonV::Text(actor) {
                Err("wait is allowed only for the original sender"@)
            } else {
                match is_request(v) {
                    Err(e) => Err(e),
                    Ok(request) => if !request {
                        Err("message is not a request that expects a reply"@)
                    } else if targets_of(v).len() == 0 {
                        Err("message has no recipient deliveries"@)
                    } else if targets_of(v).len() != 1 {
                        Err("blocking wait requires exactly one request recipient"@)
                    } else {
                        Ok(targets_of(v)[0])
                    },
                }
            },
        },
    }
}

/// The one recipient of a request whose reply the actor may wait for.
pub fn check_wait(inspection: &Inspection, actor: &str) -> (r: Result<String, String>)
    ensures
        match r {
            Ok(s) => wait_target(inspection@, actor@) == Ok::<Seq<char>, Seq<char>>(s@),
            Err(e) => wait_target(inspection@, actor@) == Err::<Seq<char>, Seq<char>>(e@),
        },
{
    if let Err(e) = authorize_inspection(inspection, actor) {
        return Err(e);
    }
    match inspected_message(inspection, "from") {
        Err(e) => {
            return Err(e);
        },
        Ok(from) => {
            if !is_text(from, actor) {
                return Err("wait is allowed only for the original sender".to_owned());
            }
        },
    }
    match check_request(inspection) {
        Err(e) => {
            return Err(e);
        },
        Ok(b) => {
            if !b {
                return Err("message is not a request that expects a reply".to_owned());
            }
        },
    }
    match inspection_targets(inspection) {
        Err(e) => Err(e),
        Ok(v) => {
            assert(texts(v@).len() == v@.len());
            if v.len() != 1 {
                return Err("blocking wait requires exactly one request recipient".to_owned());
            }
            assert(texts(v@)[0] == v@[0]@);
            Ok(v[0].clone())
        },
    }
}

/// What follows the last colon of a name: the short id of the device that a participant lives on.
pub open spec fn device_of(name: Seq<char>) -> Option<Seq<char>>
    decreases name.len(),
{
    if name.len() == 0 {
        None
    } else if name.last() == ':' {
        Some(Seq::empty())
    } else {
        match device_of(name.drop_last()) {
            Some(s) => Some(s.push(name.last())),
            None => None,
        }
    }
}

/// The short id of the device that a participant lives on, where that is another one.
pub fn remote_device(name: &str) -> (r: Option<String>)
    ensures
        opt_text(r) == device_of(name@),
{
    let v: Vec<char> = chars_of(name);
    let mut found: Option<String> = None;
    let mut i: usize = 0;
    assert(v@.take(0) =~= Seq::<char>::empty());
    while i < v.len()
        invariant
            i <= v@.len(),
            v@ == name@,
            opt_text(found) == device_of(v@.take(i as int)),
        decreases v.len() - i,
    {
        let ghost t = v@.take(i as int + 1);
        assert(t.drop_last() =~= v@.take(i as int));
        assert(t.last() == v@[i as int]);
        if v[i] == ':' {
            let s: String = String::new();
            assert(s@ =~= Seq::<char>::empty());
            found = Some(s);
        } else {
            found = match found {
                Some(mut s) => {
                    s.push(v[i]);
                    Some(s)
                },
                None => None,
            };
        }
        i += 1;
    }
    assert(v@.take(v@.len() as int) =~= v@);
    found
}

/// The first `n` words with spaces between them.
pub open spec fn joined(words: Seq<Seq<char>>, n: int) -> Seq<char>
    decreases n,
{
    if n <= 0 {
        Seq::empty()
    } else if n == 1 {
        words[0]
    } else {
        joined(words, n - 1) + " "@ + words[n - 1]
    }
}

/// Words with spaces between them.
pub fn join_words(words: &Vec<String>) -> (r: String)
    ensures
        r@ == joined(texts(words@), words@.len() as int),
{
    let mut out: String = String::new();
    let mut i: usize = 0;
    assert(out@ =~= Seq::<char>::empty());
    while i < words.len()
        invariant
            i <= words@.len(),
            out@ == joined(texts(words@), i as int),
        decreases words.len() - i,
    {
        let ghost before = out@;
        if i > 0 {
            out.append(" ");
        }
        out.append(words[i].as_str());
        assert(texts(words@)[i as int] == words@[i as int]@);
        assert(i == 0 ==> out@ =~= words@[0]@);
        i += 1;
    }
    out
}

/// What a command comes to, as far as the store decides it: a result, a message that is to be sent,
/// or a wait.
#[derive(Debug)]
pub enum MessageOutcome {
    Pending(Vec<Inspection>),
    Cancelled { message_id: String, deliveries: Vec<CancelOutcome> },
    Receipted(DeliveryReceiptResult),
    Inspected(Inspection),
    Send(SendPlan),
    Wait { message_id: String, target: String },
}

/// The view of a [`MessageOutcome`].
pub enum MessageOutcomeV {
    Pending(Seq<InspectionV>),
    Cancelled { message_id: Seq<char>, deliveries: Seq<OutcomeV> },
    Receipted(ReceiptV),
    Inspected(InspectionV),
    Send(SendPlanV),
    Wait { message_id: Seq<char>, target: Seq<char> },
}

impl View for MessageOutcome {
    type V = MessageOutcomeV;

    open spec fn view(&self) -> MessageOutcomeV {
        match self {
            MessageOutcome::Pending(v) => MessageOutcomeV::Pending(views(v@)),
            MessageOutcome::Cancelled { message_id, deliveries } => MessageOutcomeV::Cancelled {
                message_id: message_id@,
                deliveries: views(deliveries@),
            },
            MessageOutcome::Receipted(v) => MessageOutcomeV::Receipted(v@),
            MessageOutcome::Inspected(v) => MessageOutcomeV::Inspected(v@),
            MessageOutcome::Send(p) => MessageOutcomeV::Send(p@),
            MessageOutcome::Wait { message_id, target } => MessageOutcomeV::Wait {
                message_id: message_id@,
                target: target@,
            },
        }
    }
}

/// What was read outside the store for a command: what normalizing the attachments it brings gave,
/// and why the intent and the attachments of the message it speaks of could not be read, where they
/// could not.
pub struct OutsideV {
    pub attachments: Result<JsonV, Seq<char>>,
    pub bad_intent: Option<Seq<char>>,
    pub bad_attachments: Option<Seq<char>>,
}

/// What was read outside the store for a command.
#[derive(Debug)]
pub struct Outside {
    pub attachments: Result<Json, String>,
    pub bad_intent: Option<String>,
    pub bad_attachments: Option<String>,
}

impl View for Outside {
    type V = OutsideV;

    open spec fn view(&self) -> OutsideV {
        OutsideV {
            attachments: attachments_view(self.attachments),
            bad_intent: opt_text(self.bad_intent),
            bad_attachments: opt_text(self.bad_attachments),
        }
    }
}

/// The message that a command speaks of.
pub open spec fn reference_of(c: MessageCommand) -> Option<Seq<char>> {
    match c {
        MessageCommand::Wait { message_id, .. } => Some(message_id@),
        MessageCommand::Pending { .. } => None,
        MessageCommand::Reply { message_id, .. } => Some(message_id@),
        MessageCommand::Cancel { message_id, .. } => Some(message_id@),
        MessageCommand::Supersede { message_id, .. } => Some(message_id@),
        MessageCommand::Retry { message_id, .. } => Some(message_id@),
        MessageCommand::Receipt { message_id, .. } => Some(message_id@),
        MessageCommand::Inspect { message_id, .. } => Some(message_id@),
    }
}

/// What a command on an inspected message comes to.
pub open spec fn inspection_outcome(
    c: MessageCommand,
    actor: Seq<char>,
    id: Seq<char>,
    v: InspectionV,
    outside: OutsideV,
) -> Result<MessageOutcomeV, Seq<char>> {
    match c {
        MessageCommand::Wait { .. } => match wait_target(v, actor) {
            Err(e) => Err(e),
            Ok(target) => Ok(MessageOutcomeV::Wait { message_id: id, target }),
        },
        MessageCommand::Reply { text, .. } => match reply_planned(
            v,
            actor,
            id,
            joined(texts(text@), text@.len() as int),
            outside.attachments,
        ) {
            Err(e) => Err(e),
            Ok(p) => Ok(MessageOutcomeV::Send(p)),
        },
        MessageCommand::Supersede { attachments, text, .. } => match renewal_planned(
            v,
            actor,
            id,
            RenewalV {
                lineage: Lineage::Supersedes,
                has_attachments: attachments@.len() > 0,
                text: Some(joined(texts(text@), text@.len() as int)),
                bad_intent: outside.bad_intent,
                bad_attachments: outside.bad_attachments,
            },
        ) {
            Err(e) => Err(e),
            Ok(p) => Ok(MessageOutcomeV::Send(p)),
        },
        MessageCommand::Retry { .. } => match renewal_planned(
            v,
            actor,
            id,
            RenewalV {
                lineage: Lineage::RetryOf,
                has_attachments: false,
                text: None,
                bad_intent: outside.bad_intent,
                bad_attachments: outside.bad_attachments,
            },
        ) {
            Err(e) => Err(e),
            Ok(p) => Ok(MessageOutcomeV::Send(p)),
        },
        _ => match inspection_refusal(v, actor) {
            Some(e) => Err(e),
            None => Ok(MessageOutcomeV::Inspected(v)),
        },
    }
}

/// The store after a command of an actor, and what the command comes to; or why it is refused.
pub open spec fn command_run(
    db: DbV,
    c: MessageCommand,
    actor: Seq<char>,
    outside: OutsideV,
    now: Seq<char>,
) -> (DbV, Result<MessageOutcomeV, Seq<char>>) {
    match reference_of(c) {
        None => match pending(db, actor, db.records.len() as int) {
            Err(e) => (db, Err(refusal_text(e))),
            Ok(s) => (db, Ok(MessageOutcomeV::Pending(s))),
        },
        Some(reference) => match resolved(db, reference, actor) {
            Err(e) => (db, Err(refusal_text(e))),
            Ok(id) => match c {
                MessageCommand::Cancel { .. } => match message_cancelled(db, id, actor, now) {
                    Err(e) => (db, Err(refusal_text(e))),
                    Ok((d, deliveries)) => (
                        d,
                        Ok(MessageOutcomeV::Cancelled { message_id: id, deliveries }),
                    ),
                },
                MessageCommand::Receipt { state, endpoint_epoch, reason, .. } => match receipted(
                    db,
                    id,
                    actor,
                    actor,
                    endpoint_epoch@,
                    state@,
                    match reason {
                        Some(s) => s@,
                        None => "explicit receipt"@,
                    },
                    now,
                ) {
                    Err(e) => (db, Err(refusal_text(e))),
                    Ok((d, v)) => (d, Ok(MessageOutcomeV::Receipted(v))),
                },
                _ => match inspected(db, id) {
                    Err(e) => (db, Err(refusal_text(e))),
                    Ok(v) => (db, inspection_outcome(c, actor, id, v, outside)),
                },
            },
        },
    }
}

/// Whether what a command of an actor shows can be shown.
pub open spec fn command_readable(db: DbV, c: MessageCommand, actor: Seq<char>) -> bool {
    match reference_of(c) {
        None => pending_readable(db, actor),
        Some(reference) => match resolved(db, reference, actor) {
            Err(_) => true,
            Ok(id) => c is Cancel || c is Receipt || db.readable(id),
        },
    }
}

impl MessageCommand {
    fn reference(&self) -> (r: Option<&str>)
        ensures
            opt_str(r) == reference_of(*self),
    {
        match self {
            MessageCommand::Wait { message_id, .. } => Some(message_id.as_str()),
            MessageCommand::Pending { .. } => None,
            MessageCommand::Reply { message_id, .. } => Some(message_id.as_str()),
            MessageCommand::Cancel { message_id, .. } => Some(message_id.as_str()),
            MessageCommand::Supersede { message_id, .. } => Some(message_id.as_str()),
            MessageCommand::Retry { message_id, .. } => Some(message_id.as_str()),
            MessageCommand::Receipt { message_id, .. } => Some(message_id.as_str()),
            MessageCommand::Inspect { message_id, .. } => Some(message_id.as_str()),
        }
    }

    fn on_inspection(&self, actor: &str, id: &str, v: Inspection, outside: Outside) -> (r: Result<
        MessageOutcome,
        String,
    >)
        ensures
            match r {
                Ok(o) => inspection_outcome(*self, actor@, id@, v@, outside@) == Ok::<
                    MessageOutcomeV,
                    Seq<char>,
                >(o@),
                Err(e) => inspection_outcome(*self, actor@, id@, v@, outside@) == Err::<
                    MessageOutcomeV,
                    Seq<char>,
                >(e@),
            },
    {
        match self {
            MessageCommand::Wait { .. } => match check_wait(&v, actor) {
                Err(e) => Err(e),
                Ok(target) => Ok(MessageOutcome::Wait { message_id: id.to_owned(), target }),
            },
            MessageCommand::Reply { text, .. } => match plan_reply(
                &v,
                actor,
                id,
                join_words(text),
                outside.attachments,
            ) {
                Err(e) => Err(e),
                Ok(p) => Ok(MessageOutcome::Send(p)),
            },
            MessageCommand::Supersede { attachments, text, .. } => {
                let own: String = join_words(text);
                match plan_renewal(
                    &v,
                    actor,
                    id,
                    &Renewal {
                        lineage: Lineage::Supersedes,
                        has_attachments: attachments.len() > 0,
                        text: Some(own.as_str()),
                        bad_intent: crate::text::as_opt_str(&outside.bad_intent),
                        bad_attachments: crate::text::as_opt_str(&outside.bad_attachments),
                    },
                ) {
                    Err(e) => Err(e),
                    Ok(p) => Ok(MessageOutcome::Send(p)),
                }
            },
            MessageCommand::Retry { .. } => match plan_renewal(
                &v,
                actor,
                id,
                &Renewal {
                    lineage: Lineage::RetryOf,
                    has_attachments: false,
                    text: None,
                    bad_intent: crate::text::as_opt_str(&outside.bad_intent),
                    bad_attachments: crate::text::as_opt_str(&outside.bad_attachments),
                },
            ) {
                Err(e) => Err(e),
                Ok(p) => Ok(MessageOutcome::Send(p)),
            },
            _ => match authorize_inspection(&v, actor) {
                Err(e) => Err(e),
                Ok(()) => Ok(MessageOutcome::Inspected(v)),
            },
        }
    }
}

impl HcomDb {
    /// Tests whether what a command of an actor shows can be shown.
    pub fn shows_command(&self, command: &MessageCommand, actor: &str) -> (r: bool)
        ensures
            r == command_readable(self@, *command, actor@),
    {
        match command.reference() {
            None => self.shows_pending(actor),
            Some(reference) => match self.resolve_message_reference_v1(reference, actor) {
                Err(_) => true,
                Ok(id) => match command {
                    MessageCommand::Cancel { .. } => true,
                    MessageCommand::Receipt { .. } => true,
                    _ => self.is_readable(id.as_str()),
                },
            },
        }
    }

    /// Runs a command of an actor as far as the store decides it: a result, a message that is to be
    /// sent, or a wait.
    pub fn run_command(&mut self, command: &MessageCommand, actor: &str, outside: Outside, now: &str) -> (r:
        Result<MessageOutcome, String>)
        requires
            command_readable(old(self)@, *command, actor@),
        ensures
            final(self)@ == command_run(old(self)@, *command, actor@, outside@, now@).0,
            match r {
                Ok(o) => command_run(old(self)@, *command, actor@, outside@, now@).1 == Ok::<
                    MessageOutcomeV,
                    Seq<char>,
                >(o@),
                Err(e) => command_run(old(self)@, *command, actor@, outside@, now@).1 == Err::<
                    MessageOutcomeV,
                    Seq<char>,
                >(e@),
            },
    {
        let reference: &str = match command.reference() {
            None => {
                return match self.pending_messages_v1(actor) {
                    Ok(v) => Ok(MessageOutcome::Pending(v)),
                    Err(e) => Err(e.message()),
                };
            },
            Some(s) => s,
        };
        let id: String = match self.resolve_message_reference_v1(reference, actor) {
            Ok(id) => id,
            Err(e) => {
                return Err(e.message());
            },
        };
        match command {
            MessageCommand::Cancel { .. } => match self.cancel_message_v1(id.as_str(), actor, now) {
                Ok(deliveries) => Ok(MessageOutcome::Cancelled { message_id: id, deliveries }),
                Err(e) => Err(e.message()),
            },
            MessageCommand::Receipt { state, endpoint_epoch, reason, .. } => {
                let why: &str = match reason {
                    Some(s) => s.as_str(),
                    None => "explicit receipt",
                };
                match self.record_delivery_receipt(
                    id.as_str(),
                    actor,
                    actor,
                    endpoint_epoch.as_str(),
                    state.as_str(),
                    why,
                    now,
                ) {
                    Ok(v) => Ok(MessageOutcome::Receipted(v)),
                    Err(e) => Err(e.message()),
                }
            },
            _ => match self.inspect_message_v1(id.as_str()) {
                Ok(v) => command.on_inspection(actor, id.as_str(), v, outside),
                Err(e) => Err(e.message()),
            },
        }
    }
}

/// The name that a command is run under: that of the identity of its context.
pub open spec fn context_name(ctx: Option<&CommandContext>) -> Option<Seq<char>> {
    match ctx {
        Some(c) => match c.identity {
            Some(id) => Some(id.name@),
            None => None,
        },
        None => None,
    }
}

/// The store after a command with a context, and what the command comes to; or why it is refused.
/// One without an identity is refused, and changes nothing.
pub open spec fn context_run(
    db: DbV,
    c: MessageCommand,
    ctx: Option<&CommandContext>,
    outside: OutsideV,
    now: Seq<char>,
) -> (DbV, Result<MessageOutcomeV, Seq<char>>) {
    match context_name(ctx) {
        Some(name) => command_run(db, c, name, outside, now),
        None => (db, Err("message operations require a verified instance identity"@)),
    }
}

/// Runs a command under the identity of its context, as far as the store decides it: a result, a
/// message that is to be sent, or a wait.
pub fn cmd_message(
    db: &mut HcomDb,
    args: &MessageArgs,
    ctx: Option<&CommandContext>,
    outside: Outside,
    now: &str,
) -> (r: Result<MessageOutcome, String>)
    requires
        context_name(ctx) matches Some(name) ==> command_readable(old(db)@, args.command, name),
    ensures
        context_name(ctx) is None ==> final(db)@ == old(db)@ && r is Err,
        final(db)@ == context_run(old(db)@, args.command, ctx, outside@, now@).0,
        match r {
            Ok(o) => context_run(old(db)@, args.command, ctx, outside@, now@).1 == Ok::<
                MessageOutcomeV,
                Seq<char>,
            >(o@),
            Err(e) => context_run(old(db)@, args.command, ctx, outside@, now@).1 == Err::<
                MessageOutcomeV,
                Seq<char>,
            >(e@),
        },
{
    match actor(ctx) {
        Ok(id) => db.run_command(&args.command, id.name.as_str(), outside, now),
        Err(e) => Err(e),
    }
}

/// A command that is refused changes nothing.
pub proof fn refused_commands_change_nothing(
    db: DbV,
    c: MessageCommand,
    actor: Seq<char>,
    outside: OutsideV,
    now: Seq<char>,
)
    requires
        command_run(db, c, actor, outside, now).1 is Err,
    ensures
        command_run(db, c, actor, outside, now).0 == db,
{
}

/// A command leads to a store that follows; only cancelling and reporting a receipt change it.
pub proof fn commands_follow(
    db: DbV,
    c: MessageCommand,
    actor: Seq<char>,
    outside: OutsideV,
    now: Seq<char>,
)
    ensures
        follows_closely(db, command_run(db, c, actor, outside, now).0),
        !(c is Cancel) && !(c is Receipt) ==> command_run(db, c, actor, outside, now).0 == db,
{
    lemma_follows_itself(db);
    if let Some(reference) = reference_of(c) {
        if let Ok(id) = resolved(db, reference, actor) {
            cancellations_follow(db, id, actor, now);
            if let MessageCommand::Receipt { state, endpoint_epoch, reason, .. } = c {
                receipts_follow(
                    db,
                    id,
                    actor,
                    actor,
                    endpoint_epoch@,
                    state@,
                    match reason {
                        Some(s) => s@,
                        None => "explicit receipt"@,
                    },
                    now,
                );
            }
        }
    }
}

/// A message that renews an earlier one keeps what it belonged to and what it carried, goes to the
/// same recipients at the same endpoint, names the earlier one, and has no reply endpoint yet; and
/// only the sender of the earlier one can send it.
pub proof fn renewals_keep_the_envelope(v: InspectionV, actor: Seq<char>, id: Seq<char>, w: RenewalV)
    requires
        renewal_planned(v, actor, id, w) is Ok,
    ensures
        ({
            let p = renewal_planned(v, actor, id, w)->Ok_0;
            &&& field(v, "from"@) == Ok::<JsonV, Seq<char>>(JsonV::Text(actor))
            &&& p.targets == targets_of(v)
            &&& p.envelope.correlation_id == member_text(v.message, "correlation_id"@)
            &&& p.envelope.intent == member_text(v.message, "intent"@)
            &&& p.envelope.thread == member_text(v.message, "thread"@)
            &&& p.envelope.bundle_id == member_text(v.message, "bundle_id"@)
            &&& member(v.message, "attachments"@) matches Some(a) ==> p.envelope.attachments == a
            &&& p.envelope.reply_endpoint is None
            &&& p.envelope.in_reply_to is None
            &&& forall|i: int|
                0 <= i < v.deliveries.len() ==> p.envelope.delivery_endpoint == Some(
                    (#[trigger] v.deliveries[i]).delivery_endpoint,
                )
            &&& match w.lineage {
                Lineage::Supersedes => p.envelope.supersedes == Some(id) && p.envelope.retry_of is None,
                Lineage::RetryOf => p.envelope.retry_of == Some(id) && p.envelope.supersedes is None,
            }
        }),
{
}

/// A reply goes to the sender of the request alone, in its correlation, and names it.
pub proof fn replies_answer_the_request(
    v: InspectionV,
    actor: Seq<char>,
    request_id: Seq<char>,
    text: Seq<char>,
    attachments: Result<JsonV, Seq<char>>,
)
    requires
        reply_planned(v, actor, request_id, text, attachments) is Ok,
    ensures
        ({
            let p = reply_planned(v, actor, request_id, text, attachments)->Ok_0;
            &&& p.targets.len() == 1
            &&& field(v, "from"@) == Ok::<JsonV, Seq<char>>(JsonV::Text(p.targets[0]))
            &&& p.envelope.in_reply_to == Some(request_id)
            &&& p.envelope.correlation_id == member_text(v.message, "correlation_id"@)
            &&& p.envelope.intent == Some("ack"@)
            &&& crate::lifecycle::reply_endpoint_fits(
                match member_text(v.message, "reply_mode"@) {
                    Some(m) => m,
                    None => "inbox"@,
                },
                p.envelope.delivery_endpoint->0,
                request_id,
            )
        }),
{
}

/// Words are put behind one another with one space between them.
pub proof fn words_are_joined(words: Vec<String>, fewer: Vec<String>, word: String, r: String, of_fewer: String)
    requires
        call_ensures(join_words, (&words,), r),
        call_ensures(join_words, (&fewer,), of_fewer),
    ensures
        words@.len() == 0 ==> r@ == ""@,
        words@ == seq![word] ==> r@ == word@,
        fewer@.len() > 0 && words@ == fewer@.push(word) ==> r@ == of_fewer@ + " "@ + word@,
{
    reveal_strlit("");
    let all = texts(words@);
    if words@.len() == 0 {
        assert(r@ =~= ""@);
    }
    if words@ == seq![word] {
        assert(all[0] == words@[0]@);
    }
    if fewer@.len() > 0 && words@ == fewer@.push(word) {
        assert(all[all.len() - 1] == words@[words@.len() - 1]@);
        lemma_joined_agrees(texts(fewer@), all, fewer@.len() as int);
    }
}

proof fn lemma_joined_agrees(a: Seq<Seq<char>>, b: Seq<Seq<char>>, n: int)
    requires
        n <= a.len(),
        n <= b.len(),
        forall|i: int| 0 <= i < n ==> #[trigger] a[i] == b[i],
    ensures
        joined(a, n) == joined(b, n),
    decreases n,
{
    if n > 1 {
        lemma_joined_agrees(a, b, n - 1);
    }
}

/// Whether a list names the recipients of some deliveries, in their order.
pub open spec fn names_recipients(targets: Seq<String>, deliveries: Seq<crate::store::Delivery>) -> bool {
    targets.len() == deliveries.len() && forall|i: int|
        0 <= i < targets.len() ==> (#[trigger] targets[i])@ == deliveries[i].recipient_name@
}

proof fn lemma_names_recipients(targets: Vec<String>, shown: Inspection)
    requires
        texts(targets@) == targets_of(shown@),
    ensures
        names_recipients(targets@, shown.deliveries@),
{
    let t = texts(targets@);
    assert(t.len() == targets@.len());
    assert(targets_of(shown@).len() == shown.deliveries@.len());
    assert forall|i: int| 0 <= i < targets@.len() implies (#[trigger] targets@[i])@ == shown.deliveries@[i].recipient_name@ by {
        assert(t[i] == targets@[i]@);
        assert(shown@.deliveries[i] == shown.deliveries@[i]@);
    }
}

/// Superseding a message sends the new words, whatever the earlier message says, to the recipients of
/// the earlier one and in its correlation, and names it as superseded.
pub proof fn supersedes_send_the_new_words(
    db: &mut HcomDb,
    args: MessageArgs,
    ctx: Option<&CommandContext>,
    outside: Outside,
    now: &str,
    r: Result<MessageOutcome, String>,
    actor: &str,
    reference: &str,
    id: String,
    of: &str,
    shown: Inspection,
    text: String,
)
    requires
        call_ensures(cmd_message, (db, &args, ctx, outside, now), r),
        ctx is Some && ctx->0.identity is Some && actor@ == ctx->0.identity->0.name@,
        call_ensures(HcomDb::resolve_message_reference_v1, (&*old(db), reference, actor), Ok::<String, LifecycleError>(id)),
        call_ensures(HcomDb::inspect_message_v1, (&*old(db), of), Ok::<Inspection, LifecycleError>(shown)),
        of@ == id@,
        args.command matches MessageCommand::Supersede { message_id, .. } && message_id@ == reference@,
        call_ensures(join_words, (&args.command->Supersede_text,), text),
    ensures
        final(db)@ == old(db)@,
        r is Ok ==> r->Ok_0 is Send,
        r matches Ok(MessageOutcome::Send(p)) ==> {
            &&& p.text@ == text@
            &&& names_recipients(p.targets@, shown.deliveries@)
            &&& opt_text(p.envelope.supersedes) == Some(id@)
            &&& p.envelope.retry_of is None && p.envelope.in_reply_to is None && p.envelope.reply_to is None && p.envelope.reply_endpoint is None
            &&& opt_text(p.envelope.correlation_id) == member_text(shown.message@, "correlation_id"@)
            &&& opt_text(p.envelope.intent) == member_text(shown.message@, "intent"@)
            &&& opt_text(p.envelope.thread) == member_text(shown.message@, "thread"@)
            &&& opt_text(p.envelope.bundle_id) == member_text(shown.message@, "bundle_id"@)
            &&& p.envelope.expects_reply == (crate::json::member_bool(shown.message@, "expects_reply"@) == Some(true))
            &&& opt_text(p.envelope.delivery_endpoint) == Some(shown.deliveries@[0].delivery_endpoint@)
            &&& member(shown.message@, "attachments"@) is Some ==> p.envelope.attachments@ == member(shown.message@, "attachments"@)->0
            &&& member(shown.message@, "attachments"@) is None ==> p.envelope.attachments@ == JsonV::Array(Seq::empty())
        },
{
    assert(texts(args.command->Supersede_text@).len() == args.command->Supersede_text@.len());
    if let Ok(MessageOutcome::Send(p)) = r {
        lemma_names_recipients(p.targets, shown);
        assert(p@.envelope == p.envelope@);
        assert(shown@.deliveries[0] == shown.deliveries@[0]@);
    }
}

/// The sender of a message can supersede it and retry it, where its deliveries have one endpoint and
/// nothing of it is unreadable; nobody else can.
pub proof fn senders_renew_their_messages(
    db: &mut HcomDb,
    args: MessageArgs,
    ctx: Option<&CommandContext>,
    outside: Outside,
    now: &str,
    r: Result<MessageOutcome, String>,
    actor: &str,
    reference: &str,
    id: String,
    of: &str,
    shown: Inspection,
)
    requires
        call_ensures(cmd_message, (db, &args, ctx, outside, now), r),
        ctx is Some && ctx->0.identity is Some && actor@ == ctx->0.identity->0.name@,
        call_ensures(HcomDb::resolve_message_reference_v1, (&*old(db), reference, actor), Ok::<String, LifecycleError>(id)),
        call_ensures(HcomDb::inspect_message_v1, (&*old(db), of), Ok::<Inspection, LifecycleError>(shown)),
        of@ == id@,
        (args.command matches MessageCommand::Supersede { message_id, .. } && message_id@ == reference@) || (args.command matches MessageCommand::Retry { message_id, .. } && message_id@ == reference@),
    ensures
        member(shown.message@, "from"@) != Some(JsonV::Text(actor@)) ==> r is Err,
        args.command is Supersede && args.command->Supersede_attachments@.len() > 0 ==> r is Err,
        ({
            &&& member(shown.message@, "from"@) == Some(JsonV::Text(actor@))
            &&& args.command is Supersede ==> args.command->Supersede_attachments@.len() == 0
            &&& args.command is Retry ==> member_text(shown.message@, "text"@) is Some
            &&& shown.message@ is Object
            &&& member_text(shown.message@, "correlation_id"@) is Some
            &&& outside.bad_intent is None && outside.bad_attachments is None
            &&& shown.deliveries@.len() > 0
            &&& forall|i: int| 0 <= i < shown.deliveries@.len() ==> (#[trigger] shown.deliveries@[i]).delivery_endpoint@ == shown.deliveries@[0].delivery_endpoint@
        }) ==> (r matches Ok(MessageOutcome::Send(_))),
{
    assert forall|i: int| 0 <= i < shown@.deliveries.len() implies #[trigger] shown@.deliveries[i] == shown.deliveries@[i]@ by {}
    assert(shown.deliveries@.len() == shown@.deliveries.len());
    if exists|i: int| 0 <= i < shown@.deliveries.len() && (#[trigger] shown@.deliveries[i]).delivery_endpoint != shown@.deliveries[0].delivery_endpoint {
        let i = choose|i: int| 0 <= i < shown@.deliveries.len() && (#[trigger] shown@.deliveries[i]).delivery_endpoint != shown@.deliveries[0].delivery_endpoint;
        assert(shown.deliveries@[i].delivery_endpoint@ != shown.deliveries@[0].delivery_endpoint@);
    }
}

/// Retrying a message sends its own text again, to its recipients, and names it as retried.
pub proof fn retries_send_the_same_text(
    db: &mut HcomDb,
    args: MessageArgs,
    ctx: Option<&CommandContext>,
    outside: Outside,
    now: &str,
    r: Result<MessageOutcome, String>,
    actor: &str,
    reference: &str,
    id: String,
    of: &str,
    shown: Inspection,
)
    requires
        call_ensures(cmd_message, (db, &args, ctx, outside, now), r),
        ctx is Some && ctx->0.identity is Some && actor@ == ctx->0.identity->0.name@,
        call_ensures(HcomDb::resolve_message_reference_v1, (&*old(db), reference, actor), Ok::<String, LifecycleError>(id)),
        call_ensures(HcomDb::inspect_message_v1, (&*old(db), of), Ok::<Inspection, LifecycleError>(shown)),
        of@ == id@,
        args.command matches MessageCommand::Retry { message_id, .. } && message_id@ == reference@,
    ensures
        final(db)@ == old(db)@,
        r is Ok ==> r->Ok_0 is Send,
        r matches Ok(MessageOutcome::Send(p)) ==> {
            &&& member(shown.message@, "text"@) == Some(JsonV::Text(p.text@))
            &&& names_recipients(p.targets@, shown.deliveries@)
            &&& opt_text(p.envelope.retry_of) == Some(id@)
            &&& p.envelope.supersedes is None && p.envelope.in_reply_to is None && p.envelope.reply_to is None && p.envelope.reply_endpoint is None
            &&& opt_text(p.envelope.correlation_id) == member_text(shown.message@, "correlation_id"@)
            &&& opt_text(p.envelope.intent) == member_text(shown.message@, "intent"@)
            &&& opt_text(p.envelope.thread) == member_text(shown.message@, "thread"@)
            &&& opt_text(p.envelope.bundle_id) == member_text(shown.message@, "bundle_id"@)
            &&& p.envelope.expects_reply == (crate::json::member_bool(shown.message@, "expects_reply"@) == Some(true))
            &&& opt_text(p.envelope.delivery_endpoint) == Some(shown.deliveries@[0].delivery_endpoint@)
            &&& member(shown.message@, "attachments"@) is Some ==> p.envelope.attachments@ == member(shown.message@, "attachments"@)->0
        },
{
    if let Ok(MessageOutcome::Send(p)) = r {
        lemma_names_recipients(p.targets, shown);
        assert(p@.envelope == p.envelope@);
        assert(shown@.deliveries[0] == shown.deliveries@[0]@);
    }
}

/// A reply sends the words of the command and the attachments that it brings to the sender of the
/// request alone: as an acknowledgement, in the correlation and the thread of the request, and to the
/// endpoint that the request asks for.
pub proof fn replies_send_the_words_back(
    db: &mut HcomDb,
    args: MessageArgs,
    ctx: Option<&CommandContext>,
    outside: Outside,
    now: &str,
    r: Result<MessageOutcome, String>,
    actor: &str,
    reference: &str,
    id: String,
    of: &str,
    shown: Inspection,
    text: String,
)
    requires
        call_ensures(cmd_message, (db, &args, ctx, outside, now), r),
        ctx is Some && ctx->0.identity is Some && actor@ == ctx->0.identity->0.name@,
        call_ensures(HcomDb::resolve_message_reference_v1, (&*old(db), reference, actor), Ok::<String, LifecycleError>(id)),
        call_ensures(HcomDb::inspect_message_v1, (&*old(db), of), Ok::<Inspection, LifecycleError>(shown)),
        of@ == id@,
        args.command matches MessageCommand::Reply { message_id, .. } && message_id@ == reference@,
        call_ensures(join_words, (&args.command->Reply_text,), text),
    ensures
        final(db)@ == old(db)@,
        r is Ok ==> r->Ok_0 is Send,
        r matches Ok(MessageOutcome::Send(p)) ==> {
            &&& p.text@ == text@
            &&& p.targets@.len() == 1
            &&& member(shown.message@, "from"@) == Some(JsonV::Text(p.targets@[0]@))
            &&& member(shown.message@, "intent"@) == Some(JsonV::Text("request"@))
            &&& member(shown.message@, "expects_reply"@) == Some(JsonV::Bool(true))
            &&& opt_text(p.envelope.intent) == Some("ack"@)
            &&& opt_text(p.envelope.in_reply_to) == Some(id@)
            &&& opt_text(p.envelope.correlation_id) == member_text(shown.message@, "correlation_id"@)
            &&& opt_text(p.envelope.thread) == member_text(shown.message@, "thread"@)
            &&& member(shown.message@, "event_id"@) matches Some(JsonV::Int(n)) && opt_text(p.envelope.reply_to) == Some(decimal(n))
            &&& p.envelope.supersedes is None && p.envelope.retry_of is None && p.envelope.reply_endpoint is None && p.envelope.bundle_id is None && !p.envelope.expects_reply
            &&& outside.attachments is Ok && p.envelope.attachments@ == outside.attachments->Ok_0@
            &&& member_text(shown.message@, "reply_mode"@) is None ==> opt_text(p.envelope.delivery_endpoint) == Some("inbox"@)
            &&& member_text(shown.message@, "reply_mode"@) == Some("inbox"@) ==> opt_text(p.envelope.delivery_endpoint) == Some("inbox"@)
            &&& member_text(shown.message@, "reply_mode"@) == Some("wait"@) ==> opt_text(p.envelope.delivery_endpoint) == Some("request:"@ + id@)
        },
{
    reveal_strlit("inbox");
    reveal_strlit("wait");
    assert("inbox"@.len() == 5 && "wait"@.len() == 4);
    if let Ok(MessageOutcome::Send(p)) = r {
        assert(p@.envelope == p.envelope@);
        assert(texts(p.targets@).len() == p.targets@.len());
        assert(p@.targets.len() == 1);
        assert(texts(p.targets@)[0] == p.targets@[0]@);
    }
}

/// Whoever takes part in a request that expects a reply can answer it, where the request is whole and
/// the attachments are fine; a message that is no such request is not answered.
pub proof fn requests_can_be_answered(
    db: &mut HcomDb,
    args: MessageArgs,
    ctx: Option<&CommandContext>,
    outside: Outside,
    now: &str,
    r: Result<MessageOutcome, String>,
    actor: &str,
    reference: &str,
    id: String,
    of: &str,
    shown: Inspection,
    k: int,
)
    requires
        call_ensures(cmd_message, (db, &args, ctx, outside, now), r),
        ctx is Some && ctx->0.identity is Some && actor@ == ctx->0.identity->0.name@,
        call_ensures(HcomDb::resolve_message_reference_v1, (&*old(db), reference, actor), Ok::<String, LifecycleError>(id)),
        call_ensures(HcomDb::inspect_message_v1, (&*old(db), of), Ok::<Inspection, LifecycleError>(shown)),
        of@ == id@,
        args.command matches MessageCommand::Reply { message_id, .. } && message_id@ == reference@,
    ensures
        member(shown.message@, "intent"@) != Some(JsonV::Text("request"@)) ==> r is Err,
        member(shown.message@, "expects_reply"@) != Some(JsonV::Bool(true)) ==> r is Err,
        ({
            &&& 0 <= k < shown.deliveries@.len() && shown.deliveries@[k].recipient_name@ == actor@
            &&& member(shown.message@, "from"@) matches Some(JsonV::Text(_))
            &&& member(shown.message@, "intent"@) == Some(JsonV::Text("request"@))
            &&& member(shown.message@, "expects_reply"@) == Some(JsonV::Bool(true))
            &&& member(shown.message@, "correlation_id"@) matches Some(JsonV::Text(_))
            &&& member(shown.message@, "event_id"@) matches Some(JsonV::Int(_))
            &&& member_text(shown.message@, "reply_mode"@) is None || member_text(shown.message@, "reply_mode"@) == Some("inbox"@) || member_text(shown.message@, "reply_mode"@) == Some("wait"@)
            &&& outside.attachments is Ok
        }) ==> (r matches Ok(MessageOutcome::Send(_))),
{
    if 0 <= k < shown.deliveries@.len() && shown.deliveries@[k].recipient_name@ == actor@ {
        assert(shown@.deliveries[k] == shown.deliveries@[k]@);
        assert(targets_of(shown@)[k] == actor@);
        assert(targets_of(shown@).contains(actor@));
    }
}

/// A sender can wait for the reply to a request that went to one recipient: the wait is for that
/// message and for that recipient. Nobody else can wait, and not for another message.
pub proof fn waits_are_for_the_one_recipient(
    db: &mut HcomDb,
    args: MessageArgs,
    ctx: Option<&CommandContext>,
    outside: Outside,
    now: &str,
    r: Result<MessageOutcome, String>,
    actor: &str,
    reference: &str,
    id: String,
    of: &str,
    shown: Inspection,
)
    requires
        call_ensures(cmd_message, (db, &args, ctx, outside, now), r),
        ctx is Some && ctx->0.identity is Some && actor@ == ctx->0.identity->0.name@,
        call_ensures(HcomDb::resolve_message_reference_v1, (&*old(db), reference, actor), Ok::<String, LifecycleError>(id)),
        call_ensures(HcomDb::inspect_message_v1, (&*old(db), of), Ok::<Inspection, LifecycleError>(shown)),
        of@ == id@,
        args.command matches MessageCommand::Wait { message_id, .. } && message_id@ == reference@,
    ensures
        final(db)@ == old(db)@,
        r is Ok ==> r->Ok_0 is Wait && r->Ok_0->Wait_message_id@ == id@ && shown.deliveries@.len() == 1 && r->Ok_0->target@ == shown.deliveries@[0].recipient_name@,
        (r is Ok) == (member(shown.message@, "from"@) == Some(JsonV::Text(actor@)) && member(shown.message@, "intent"@) == Some(JsonV::Text("request"@)) && member(shown.message@, "expects_reply"@) == Some(JsonV::Bool(true)) && shown.deliveries@.len() == 1),
{
    assert(shown@.deliveries.len() == shown.deliveries@.len());
    if shown.deliveries@.len() == 1 {
        assert(shown@.deliveries[0] == shown.deliveries@[0]@);
        assert(targets_of(shown@)[0] == shown@.deliveries[0].recipient_name);
    }
}

/// Whoever takes part in a message can look at it, and sees it as it stands.
pub proof fn participants_see_the_message(
    db: &mut HcomDb,
    args: MessageArgs,
    ctx: Option<&CommandContext>,
    outside: Outside,
    now: &str,
    r: Result<MessageOutcome, String>,
    actor: &str,
    reference: &str,
    id: String,
    of: &str,
    shown: Inspection,
    k: int,
)
    requires
        call_ensures(cmd_message, (db, &args, ctx, outside, now), r),
        ctx is Some && ctx->0.identity is Some && actor@ == ctx->0.identity->0.name@,
        call_ensures(HcomDb::resolve_message_reference_v1, (&*old(db), reference, actor), Ok::<String, LifecycleError>(id)),
        call_ensures(HcomDb::inspect_message_v1, (&*old(db), of), Ok::<Inspection, LifecycleError>(shown)),
        of@ == id@,
        args.command matches MessageCommand::Inspect { message_id, .. } && message_id@ == reference@,
    ensures
        final(db)@ == old(db)@,
        r is Ok ==> r->Ok_0 is Inspected && r->Ok_0->Inspected_0@ == shown@,
        member(shown.message@, "from"@) == Some(JsonV::Text(actor@)) ==> r is Ok,
        member(shown.message@, "from"@) is Some && 0 <= k < shown.deliveries@.len() && shown.deliveries@[k].recipient_name@ == actor@ ==> r is Ok,
        r is Ok ==> member(shown.message@, "from"@) == Some(JsonV::Text(actor@)) || exists|i: int| 0 <= i < shown.deliveries@.len() && (#[trigger] shown.deliveries@[i]).recipient_name@ == actor@,
{
    if 0 <= k < shown.deliveries@.len() && shown.deliveries@[k].recipient_name@ == actor@ {
        assert(shown@.deliveries[k] == shown.deliveries@[k]@);
        assert(targets_of(shown@)[k] == actor@);
        assert(targets_of(shown@).contains(actor@));
    }
    if targets_of(shown@).contains(actor@) {
        let i = choose|i: int| 0 <= i < targets_of(shown@).len() && targets_of(shown@)[i] == actor@;
        assert(shown@.deliveries[i] == shown.deliveries@[i]@);
        assert(shown.deliveries@[i].recipient_name@ == actor@);
    }
}

/// Cancelling a message does what the store does for its sender, and reports it under its id.
pub proof fn cancellations_are_the_stores(
    db: &mut HcomDb,
    args: MessageArgs,
    ctx: Option<&CommandContext>,
    outside: Outside,
    now: &str,
    r: Result<MessageOutcome, String>,
    actor: &str,
    reference: &str,
    id: String,
    of: &str,
    other: &mut HcomDb,
    done: Result<Vec<CancelOutcome>, LifecycleError>,
)
    requires
        call_ensures(cmd_message, (db, &args, ctx, outside, now), r),
        ctx is Some && ctx->0.identity is Some && actor@ == ctx->0.identity->0.name@,
        call_ensures(HcomDb::resolve_message_reference_v1, (&*old(db), reference, actor), Ok::<String, LifecycleError>(id)),
        of@ == id@,
        args.command matches MessageCommand::Cancel { message_id, .. } && message_id@ == reference@,
        *old(other) == *old(db),
        call_ensures(HcomDb::cancel_message_v1, (other, of, actor, now), done),
    ensures
        final(db)@ == final(other)@,
        (r is Ok) == (done is Ok),
        r is Ok ==> r->Ok_0 is Cancelled && r->Ok_0->Cancelled_message_id@ == id@ && views(r->Ok_0->deliveries@) == views(done->Ok_0@),
{
}

/// A receipt is given by the actor for the actor, with the state, the epoch and the reason that the
/// command names.
pub proof fn receipts_are_given_as_told(
    db: &mut HcomDb,
    args: MessageArgs,
    ctx: Option<&CommandContext>,
    outside: Outside,
    now: &str,
    r: Result<MessageOutcome, String>,
    actor: &str,
    reference: &str,
    id: String,
    of: &str,
    other: &mut HcomDb,
    done: Result<DeliveryReceiptResult, LifecycleError>,
    epoch: &str,
    state: &str,
    reason: &str,
)
    requires
        call_ensures(cmd_message, (db, &args, ctx, outside, now), r),
        ctx is Some && ctx->0.identity is Some && actor@ == ctx->0.identity->0.name@,
        call_ensures(HcomDb::resolve_message_reference_v1, (&*old(db), reference, actor), Ok::<String, LifecycleError>(id)),
        of@ == id@,
        args.command matches MessageCommand::Receipt { message_id, .. } && message_id@ == reference@,
        args.command->endpoint_epoch@ == epoch@,
        args.command->state@ == state@,
        args.command->reason is Some ==> args.command->reason->0@ == reason@,
        args.command->reason is None ==> reason@ == "explicit receipt"@,
        *old(other) == *old(db),
        call_ensures(HcomDb::record_delivery_receipt, (other, of, actor, actor, epoch, state, reason, now), done),
    ensures
        final(db)@ == final(other)@,
        (r is Ok) == (done is Ok),
        r is Ok ==> r->Ok_0 is Receipted && r->Ok_0->Receipted_0@ == done->Ok_0@,
{
}

/// A command that no verified identity gives is refused in these words.
pub proof fn commands_need_an_identity(
    db: &mut HcomDb,
    args: MessageArgs,
    ctx: Option<&CommandContext>,
    outside: Outside,
    now: &str,
    r: Result<MessageOutcome, String>,
)
    requires
        call_ensures(cmd_message, (db, &args, ctx, outside, now), r),
        ctx is None || ctx->0.identity is None,
    ensures
        final(db)@ == old(db)@,
        r matches Err(e) && e@ == "message operations require a verified instance identity"@,
{
}

/// What waits for an answer of the actor is listed as the store lists it.
pub proof fn pending_requests_are_listed(
    db: &mut HcomDb,
    args: MessageArgs,
    ctx: Option<&CommandContext>,
    outside: Outside,
    now: &str,
    r: Result<MessageOutcome, String>,
    actor: &str,
    listed: Result<Vec<Inspection>, LifecycleError>,
)
    requires
        call_ensures(cmd_message, (db, &args, ctx, outside, now), r),
        ctx is Some && ctx->0.identity is Some && actor@ == ctx->0.identity->0.name@,
        args.command is Pending,
        call_ensures(HcomDb::pending_messages_v1, (&*old(db), actor), listed),
    ensures
        final(db)@ == old(db)@,
        (r is Ok) == (listed is Ok),
        r is Ok ==> r->Ok_0 is Pending && views(r->Ok_0->Pending_0@) == views(listed->Ok_0@),
{
}

/// A message that the actor takes no part in, or that is not there, is not found by any command.
pub proof fn unresolved_references_are_refused(
    db: &mut HcomDb,
    args: MessageArgs,
    ctx: Option<&CommandContext>,
    outside: Outside,
    now: &str,
    r: Result<MessageOutcome, String>,
    actor: &str,
    reference: &str,
    e: LifecycleError,
)
    requires
        call_ensures(cmd_message, (db, &args, ctx, outside, now), r),
        ctx is Some && ctx->0.identity is Some && actor@ == ctx->0.identity->0.name@,
        !(args.command is Pending),
        (match args.command {
            MessageCommand::Wait { message_id, .. } => message_id@,
            MessageCommand::Reply { message_id, .. } => message_id@,
            MessageCommand::Cancel { message_id, .. } => message_id@,
            MessageCommand::Supersede { message_id, .. } => message_id@,
            MessageCommand::Retry { message_id, .. } => message_id@,
            MessageCommand::Receipt { message_id, .. } => message_id@,
            MessageCommand::Inspect { message_id, .. } => message_id@,
            _ => reference@,
        }) == reference@,
        call_ensures(HcomDb::resolve_message_reference_v1, (&*old(db), reference, actor), Err::<String, LifecycleError>(e)),
    ensures
        final(db)@ == old(db)@,
        r matches Err(w) && w@ == "message not found"@,
{
}

/// Output for a program is printed and keeps back what has arrived; a quiet reply prints nothing and
/// keeps it back too; everything else prints its result and lets it follow.
pub proof fn programs_and_quiet_replies_stand_alone(args: MessageArgs, suppressed: bool, printed: bool, json: bool, quiet: bool)
    requires
        call_ensures(MessageArgs::suppresses_post_command_delivery, (&args,), suppressed),
        call_ensures(MessageArgs::prints_result, (&args,), printed),
        json == (match args.command {
            MessageCommand::Wait { json, .. } => json,
            MessageCommand::Pending { json } => json,
            MessageCommand::Reply { json, .. } => json,
            MessageCommand::Cancel { json, .. } => json,
            MessageCommand::Supersede { json, .. } => json,
            MessageCommand::Retry { json, .. } => json,
            MessageCommand::Receipt { json, .. } => json,
            MessageCommand::Inspect { json, .. } => json,
        }),
        quiet == (args.command is Reply && args.command->quiet),
    ensures
        json ==> suppressed && printed,
        !json && quiet ==> suppressed && !printed,
        !json && !quiet ==> !suppressed && printed,
{
}

/// The device of a participant is what follows the last colon of its name; a name without a colon is
/// one of this device.
pub proof fn devices_follow_the_last_colon(name: &str, head: Seq<char>, device: Seq<char>, r: Option<String>)
    requires
        call_ensures(remote_device, (name,), r),
        forall|i: int| 0 <= i < device.len() ==> #[trigger] device[i] != ':',
    ensures
        name@ == head + ":"@ + device ==> opt_text(r) == Some(device),
        name@ == device ==> r is None,
{
    reveal_strlit(":");
    if name@ == head + ":"@ + device {
        lemma_device_of(head + ":"@, device);
    }
    if name@ == device {
        assert(name@ =~= Seq::<char>::empty() + device);
        lemma_device_of(Seq::empty(), device);
    }
}

proof fn lemma_device_of(head: Seq<char>, device: Seq<char>)
    requires
        head.len() == 0 || head.last() == ':',
        forall|i: int| 0 <= i < device.len() ==> #[trigger] device[i] != ':',
    ensures
        head.len() > 0 ==> device_of(head + device) == Some(device),
        head.len() == 0 ==> device_of(head + device) is None,
    decreases device.len(),
{
    if device.len() > 0 {
        assert((head + device).drop_last() =~= head + device.drop_last());
        lemma_device_of(head, device.drop_last());
        assert(device =~= device.drop_last().push(device.last()));
    } else {
        assert(head + device =~= head);
        assert(device =~= Seq::<char>::empty());
    }
}

/// Whoever sent a message or has a delivery of it takes part in it, and nobody else does; its recipients
/// are those of its deliveries, and a message without any has none.
pub proof fn participants_are_the_sender_and_the_recipients(shown: Inspection, actor: &str, r: Result<(), String>, targets: Result<Vec<String>, String>, k: int)
    requires
        call_ensures(authorize_inspection, (&shown, actor), r),
        call_ensures(inspection_targets, (&shown,), targets),
    ensures
        member(shown.message@, "from"@) is None ==> (r matches Err(e) && e@ == "message projection missing "@ + "from"@),
        member(shown.message@, "from"@) == Some(JsonV::Text(actor@)) ==> r is Ok,
        member(shown.message@, "from"@) is Some && 0 <= k < shown.deliveries@.len() && shown.deliveries@[k].recipient_name@ == actor@ ==> r is Ok,
        member(shown.message@, "from"@) is Some && member(shown.message@, "from"@) != Some(JsonV::Text(actor@)) && (forall|i: int| 0 <= i < shown.deliveries@.len() ==> (#[trigger] shown.deliveries@[i]).recipient_name@ != actor@) ==> (r matches Err(e) && e@ == "message is not addressed to this actor"@),
        shown.deliveries@.len() == 0 ==> (targets matches Err(e) && e@ == "message has no recipient deliveries"@),
        shown.deliveries@.len() > 0 ==> (targets matches Ok(v) && v@.len() == shown.deliveries@.len() && (0 <= k < v@.len() ==> v@[k]@ == shown.deliveries@[k].recipient_name@)),
{
    let ts = targets_of(shown@);
    assert(ts.len() == shown.deliveries@.len());
    if 0 <= k < shown.deliveries@.len() {
        assert(shown@.deliveries[k] == shown.deliveries@[k]@);
        assert(ts[k] == shown.deliveries@[k].recipient_name@);
        if shown.deliveries@[k].recipient_name@ == actor@ {
            assert(ts.contains(actor@));
        }
    }
    if ts.contains(actor@) {
        let i = choose|i: int| 0 <= i < ts.len() && ts[i] == actor@;
        assert(shown@.deliveries[i] == shown.deliveries@[i]@);
        assert(shown.deliveries@[i].recipient_name@ == actor@);
    }
    if targets is Ok {
        let v = targets->Ok_0@;
        assert(texts(v).len() == v.len());
        if 0 <= k < v.len() {
            assert(texts(v)[k] == v[k]@);
        }
    }
}

/// A message is renewed by its sender alone, with no new attachments, and where it went to somebody; and
/// each refusal says which of these failed.
pub proof fn renewals_are_refused_for_cause(shown: Inspection, actor: &str, id: &str, w: Renewal<'_>, r: Result<SendPlan, String>, k: int)
    requires
        call_ensures(plan_renewal, (&shown, actor, id, &w), r),
        member(shown.message@, "from"@) is Some,
    ensures
        ({
            let own = member(shown.message@, "from"@) == Some(JsonV::Text(actor@));
            &&& !own && 0 <= k < shown.deliveries@.len() && shown.deliveries@[k].recipient_name@ == actor@ && w.lineage == Lineage::Supersedes ==> (r matches Err(e) && e@ == "supersede is allowed only for the original sender"@)
            &&& !own && 0 <= k < shown.deliveries@.len() && shown.deliveries@[k].recipient_name@ == actor@ && w.lineage == Lineage::RetryOf ==> (r matches Err(e) && e@ == "retry is allowed only for the original sender"@)
            &&& !own ==> r is Err
            &&& own && w.has_attachments ==> (r matches Err(e) && e@ == "supersede preserves the original attachments; new attachments are not allowed"@)
            &&& own && !w.has_attachments && shown.deliveries@.len() == 0 ==> (r matches Err(e) && e@ == "message has no recipient deliveries"@)
            &&& own && !w.has_attachments && shown.deliveries@.len() > 0 && w.text is None && member(shown.message@, "text"@) is None ==> (r matches Err(e) && e@ == "message projection missing "@ + "text"@)
            &&& own && !w.has_attachments && shown.deliveries@.len() > 0 && w.text is None && member(shown.message@, "text"@) is Some && !(member(shown.message@, "text"@)->0 is Text) ==> (r matches Err(e) && e@ == "message text is invalid"@)
        }),
{
    let ts = targets_of(shown@);
    assert(ts.len() == shown.deliveries@.len());
    if 0 <= k < shown.deliveries@.len() && shown.deliveries@[k].recipient_name@ == actor@ {
        assert(shown@.deliveries[k] == shown.deliveries@[k]@);
        assert(ts[k] == actor@);
        assert(ts.contains(actor@));
    }
}

/// A message that renews another keeps what the other was and carried, and says what it renews and how;
/// what cannot be kept refuses it.
pub proof fn renewals_carry_on_what_was_sent(shown: Inspection, parent: &str, lineage: Lineage, bad_intent: Option<&str>, bad_attachments: Option<&str>, r: Result<MessageEnvelope, String>, k: int)
    requires
        call_ensures(preserved_envelope, (&shown, parent, lineage, bad_intent, bad_attachments), r),
    ensures
        !(shown.message@ is Object) ==> (r matches Err(e) && e@ == "message projection is invalid"@),
        shown.message@ is Object && member_text(shown.message@, "correlation_id"@) is None ==> (r matches Err(e) && e@ == "message correlation is invalid"@),
        member_text(shown.message@, "correlation_id"@) is Some && member_text(shown.message@, "intent"@) is Some && bad_intent is Some ==> (r matches Err(e) && e@ == bad_intent->0@),
        member_text(shown.message@, "correlation_id"@) is Some && (member_text(shown.message@, "intent"@) is None || bad_intent is None) && member(shown.message@, "attachments"@) is Some && bad_attachments is Some ==> (r matches Err(e) && e@ == "stored attachments are invalid: "@ + bad_attachments->0@),
        0 <= k < shown.deliveries@.len() && shown.deliveries@[k].delivery_endpoint@ != shown.deliveries@[0].delivery_endpoint@ ==> r is Err,
        r matches Ok(p) ==> {
            &&& opt_text(p.intent) == member_text(shown.message@, "intent"@) && opt_text(p.thread) == member_text(shown.message@, "thread"@) && opt_text(p.bundle_id) == member_text(shown.message@, "bundle_id"@)
            &&& opt_text(p.correlation_id) == member_text(shown.message@, "correlation_id"@)
            &&& p.reply_to is None && p.in_reply_to is None && p.reply_endpoint is None
            &&& shown.deliveries@.len() > 0 && opt_text(p.delivery_endpoint) == Some(shown.deliveries@[0].delivery_endpoint@)
            &&& lineage == Lineage::Supersedes ==> opt_text(p.supersedes) == Some(parent@) && p.retry_of is None
            &&& lineage == Lineage::RetryOf ==> opt_text(p.retry_of) == Some(parent@) && p.supersedes is None
            &&& p.expects_reply == (member(shown.message@, "expects_reply"@) == Some(JsonV::Bool(true)))
            &&& member(shown.message@, "attachments"@) is Some ==> p.attachments@ == member(shown.message@, "attachments"@)->0
            &&& member(shown.message@, "attachments"@) is None ==> p.attachments@ == JsonV::Array(Seq::empty())
        },
{
    assert(shown@.deliveries.len() == shown.deliveries@.len());
    if shown.deliveries@.len() > 0 {
        assert(shown@.deliveries[0] == shown.deliveries@[0]@);
    }
    if 0 <= k < shown.deliveries@.len() {
        assert(shown@.deliveries[k] == shown.deliveries@[k]@);
    }
}

/// A reply is refused where its request is none, where what it needs of the request is missing or of the
/// wrong kind, where the request asks for a reply in no known way, and where its attachments are not fine.
pub proof fn answers_are_refused_for_cause(shown: Inspection, actor: &str, id: &str, text: String, attachments: Result<Json, String>, r: Result<SendPlan, String>, taking_part: Result<(), String>)
    requires
        call_ensures(plan_reply, (&shown, actor, id, text, attachments), r),
        call_ensures(authorize_inspection, (&shown, actor), taking_part),
    ensures
        taking_part matches Err(e) ==> (r matches Err(f) && f@ == e@),
        taking_part is Ok ==> {
            let intent = member(shown.message@, "intent"@);
            let expects = member(shown.message@, "expects_reply"@);
            let asked = intent == Some(JsonV::Text("request"@)) && expects == Some(JsonV::Bool(true));
            let mode = member_text(shown.message@, "reply_mode"@);
            &&& intent is Some && expects is Some && !asked ==> (r matches Err(e) && e@ == "reply target must be a request that expects a reply"@)
            &&& asked && (member(shown.message@, "from"@) matches Some(f) && !(f is Text)) ==> (r matches Err(e) && e@ == "request sender is invalid"@)
            &&& asked && (member(shown.message@, "from"@) matches Some(JsonV::Text(_))) && (member(shown.message@, "correlation_id"@) matches Some(c) && !(c is Text)) ==> (r matches Err(e) && e@ == "request correlation is invalid"@)
            &&& asked && (member(shown.message@, "from"@) matches Some(JsonV::Text(_))) && (member(shown.message@, "correlation_id"@) matches Some(JsonV::Text(_))) && (member(shown.message@, "event_id"@) matches Some(n) && !(n is Int)) ==> (r matches Err(e) && e@ == "request event ID is invalid"@)
            &&& asked && (member(shown.message@, "from"@) matches Some(JsonV::Text(_))) && (member(shown.message@, "correlation_id"@) matches Some(JsonV::Text(_))) && (member(shown.message@, "event_id"@) matches Some(JsonV::Int(_))) ==> {
                &&& mode is Some && mode != Some("inbox"@) && mode != Some("wait"@) ==> (r matches Err(e) && e@ == "request has invalid reply mode: "@ + mode->0)
                &&& (mode is None || mode == Some("inbox"@) || mode == Some("wait"@)) && attachments is Err ==> (r matches Err(e) && e@ == attachments->Err_0@)
            }
        },
{
}

/// A wait is refused to anybody but the sender, for what is no request, and for a request that went to
/// none or to several.
pub proof fn waits_are_refused_for_cause(shown: Inspection, actor: &str, r: Result<String, String>, k: int)
    requires
        call_ensures(check_wait, (&shown, actor), r),
    ensures
        ({
            let own = member(shown.message@, "from"@) == Some(JsonV::Text(actor@));
            let intent = member(shown.message@, "intent"@);
            let expects = member(shown.message@, "expects_reply"@);
            let asked = intent == Some(JsonV::Text("request"@)) && expects == Some(JsonV::Bool(true));
            &&& member(shown.message@, "from"@) is Some && !own && 0 <= k < shown.deliveries@.len() && shown.deliveries@[k].recipient_name@ == actor@ ==> (r matches Err(e) && e@ == "wait is allowed only for the original sender"@)
            &&& own && intent is Some && expects is Some && !asked ==> (r matches Err(e) && e@ == "message is not a request that expects a reply"@)
            &&& own && asked && shown.deliveries@.len() == 0 ==> (r matches Err(e) && e@ == "message has no recipient deliveries"@)
            &&& own && asked && shown.deliveries@.len() > 1 ==> (r matches Err(e) && e@ == "blocking wait requires exactly one request recipient"@)
            &&& own && asked && shown.deliveries@.len() == 1 ==> (r matches Ok(s) && s@ == shown.deliveries@[0].recipient_name@)
        }),
{
    let ts = targets_of(shown@);
    assert(ts.len() == shown.deliveries@.len());
    if shown.deliveries@.len() > 0 {
        assert(shown@.deliveries[0] == shown.deliveries@[0]@);
    }
    if 0 <= k < shown.deliveries@.len() && shown.deliveries@[k].recipient_name@ == actor@ {
        assert(shown@.deliveries[k] == shown.deliveries@[k]@);
        assert(ts[k] == actor@);
        assert(ts.contains(actor@));
    }
}

/// A message whose deliveries stand at different endpoints cannot be renewed, and says so.
pub proof fn mixed_endpoints_are_not_renewed(shown: Inspection, parent: &str, lineage: Lineage, r: Result<MessageEnvelope, String>, k: int)
    requires
        call_ensures(preserved_envelope, (&shown, parent, lineage, None::<&str>, None::<&str>), r),
        member_text(shown.message@, "correlation_id"@) is Some,
    ensures
        shown.deliveries@.len() == 0 ==> (r matches Err(e) && e@ == "message has no delivery endpoint"@),
        0 <= k < shown.deliveries@.len() && shown.deliveries@[k].delivery_endpoint@ != shown.deliveries@[0].delivery_endpoint@ ==> (r matches Err(e) && e@ == "message recipients have inconsistent delivery endpoints"@),
{
    assert(shown@.deliveries.len() == shown.deliveries@.len());
    if 0 <= k < shown.deliveries@.len() {
        assert(shown@.deliveries[0] == shown.deliveries@[0]@);
        assert(shown@.deliveries[k] == shown.deliveries@[k]@);
    }
}

} // verus!
