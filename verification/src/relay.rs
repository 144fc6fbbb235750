//! Importing the messages and state transitions of other devices.

use crate::json::{
    Json, JsonV, Member, MemberV, array_view, duplicate_object, find_text, find_value, lemma_array,
    lemma_object, lookup, lookup_text, member, member_text, object_view, push_member, set_member,
    with_member,
};
use crate::names::{
    add_device_suffix, has_char, map_v1_remote_name, mapped, relay_source_digest, source_digest,
    strip_device_suffix, stripped, suffixed,
};
use crate::store::{DbV, HcomDb, MESSAGE_PROTOCOL_V1};
use crate::text::{opt_str, same, same_opt};
use vstd::prelude::*;

verus! {

/// What normalising the attachments of a message gave: their normal form, as a value and as it is
/// stored, or why they have none.
#[derive(Debug)]
pub enum Attachments {
    Normalized { value: Json, text: String },
    Invalid(String),
}

/// The view of an [`Attachments`].
pub enum AttachmentsV {
    Normalized { value: JsonV, text: Seq<char> },
    Invalid(Seq<char>),
}

impl View for Attachments {
    type V = AttachmentsV;

    open spec fn view(&self) -> AttachmentsV {
        match self {
            Attachments::Normalized { value, text } => AttachmentsV::Normalized {
                value: value@,
                text: text@,
            },
            Attachments::Invalid(reason) => AttachmentsV::Invalid(reason@),
        }
    }
}

/// The attachments of an imported message as they are stored, or why the message is refused. They
/// must be in normal form already.
pub open spec fn bounded_attachments(data: JsonV, normalized: AttachmentsV) -> Result<
    Seq<char>,
    Seq<char>,
> {
    match member(data, "attachments"@) {
        None => Ok("[]"@),
        Some(given) => if !(given is Array) {
            Err("message attachments must be an array"@)
        } else {
            match normalized {
                AttachmentsV::Invalid(reason) => Err(reason),
                AttachmentsV::Normalized { value, text } => if value != given {
                    Err("attachment metadata or digest does not match bounded content"@)
                } else {
                    Ok(text)
                },
            }
        },
    }
}

/// The attachments of an imported message as they are stored, or why the message is refused.
pub fn bounded_imported_attachments(data: &Json, normalized: &Attachments) -> (r: Result<
    String,
    String,
>)
    ensures
        match r {
            Ok(s) => bounded_attachments(data@, normalized@) == Ok::<Seq<char>, Seq<char>>(s@),
            Err(s) => bounded_attachments(data@, normalized@) == Err::<Seq<char>, Seq<char>>(s@),
        },
{
    match data.get("attachments") {
        None => Ok("[]".to_owned()),
        Some(given) => {
            if !matches!(given, Json::Array(_)) {
                return Err("message attachments must be an array".to_owned());
            }
            match normalized {
                Attachments::Invalid(reason) => Err(reason.clone()),
                Attachments::Normalized { value, text } => {
                    if !value.same(given) {
                        Err(
                            "attachment metadata or digest does not match bounded content".to_owned(),
                        )
                    } else {
                        Ok(text.clone())
                    }
                },
            }
        },
    }
}

/// Whether an event takes part in the message protocol.
pub open spec fn protocol_aware(kind: Seq<char>, data: JsonV) -> bool {
    member_text(data, "protocol"@) == Some(MESSAGE_PROTOCOL_V1@) && (kind == "message"@ || kind
        == "message_state"@)
}

/// Whether an event takes part in the message protocol.
pub fn is_protocol_aware(kind: &str, data: &Json) -> (r: bool)
    ensures
        r == protocol_aware(kind@, data@),
{
    same_opt(data.get_text("protocol"), MESSAGE_PROTOCOL_V1) && (same(kind, "message") || same(
        kind,
        "message_state",
    ))
}

/// The devices between which an event travels: where it comes from, and this one.
pub struct RouteV {
    pub device_id: Seq<char>,
    pub short_id: Seq<char>,
    pub own_short_id: Seq<char>,
}

/// The devices between which an event travels.
pub struct Route<'a> {
    pub device_id: &'a str,
    pub short_id: &'a str,
    pub own_short_id: &'a str,
}

impl<'a> View for Route<'a> {
    type V = RouteV;

    open spec fn view(&self) -> RouteV {
        RouteV {
            device_id: self.device_id@,
            short_id: self.short_id@,
            own_short_id: self.own_short_id@,
        }
    }
}

/// A name in a list of names, as it is known here.
pub open spec fn listed_name(name: Seq<char>, route: RouteV, aware: bool) -> Seq<char> {
    if aware {
        mapped(name, route.short_id, route.own_short_id)
    } else {
        stripped(name, route.own_short_id)
    }
}

/// The names among the first `n` values of a list, as they are known here; other values are left
/// out.
pub open spec fn listed_names(vs: Seq<JsonV>, route: RouteV, aware: bool, n: int) -> Seq<JsonV>
    decreases n,
{
    if n <= 0 {
        Seq::empty()
    } else {
        let s = listed_names(vs, route, aware, n - 1);
        match vs[n - 1] {
            JsonV::Text(name) => s.push(JsonV::Text(listed_name(name, route, aware))),
            _ => s,
        }
    }
}

/// The members with a list of names under a key made local.
pub open spec fn list_localized(ms: Seq<MemberV>, key: Seq<char>, route: RouteV, aware: bool) -> Seq<
    MemberV,
> {
    match lookup(ms, key) {
        Some(JsonV::Array(vs)) => with_member(
            ms,
            key,
            JsonV::Array(listed_names(vs, route, aware, vs.len() as int)),
        ),
        _ => ms,
    }
}

/// The members with a name under a key mapped to how it is known here.
pub open spec fn name_localized(ms: Seq<MemberV>, key: Seq<char>, route: RouteV) -> Seq<MemberV> {
    match lookup_text(ms, key) {
        Some(name) => with_member(
            ms,
            key,
            JsonV::Text(mapped(name, route.short_id, route.own_short_id)),
        ),
        None => ms,
    }
}

/// The members with a text under a key marked with the device it comes from, where it names none.
pub open spec fn text_marked(ms: Seq<MemberV>, key: Seq<char>, route: RouteV) -> Seq<MemberV> {
    match lookup_text(ms, key) {
        Some(s) => if s.contains(':') {
            ms
        } else {
            with_member(ms, key, JsonV::Text(suffixed(s, route.short_id)))
        },
        None => ms,
    }
}

/// The members with the local event of the message that is answered, where it is on record.
pub open spec fn parent_linked(db: DbV, ms: Seq<MemberV>) -> Seq<MemberV> {
    match lookup_text(ms, "in_reply_to"@) {
        Some(parent) => match db.record(parent) {
            Some(r) => with_member(ms, "reply_to_local"@, JsonV::Int(r.event_id)),
            None => ms,
        },
        None => ms,
    }
}

/// Where an event comes from, as it is kept with it.
pub open spec fn origin_marker(route: RouteV, event_id: int, digest: Option<Seq<char>>) -> JsonV {
    let base = seq![
        MemberV { key: "device"@, value: JsonV::Text(route.device_id) },
        MemberV { key: "id"@, value: JsonV::Int(event_id) },
        MemberV { key: "short"@, value: JsonV::Text(route.short_id) },
    ];
    match digest {
        Some(d) => JsonV::Object(
            base.push(MemberV { key: "source_digest"@, value: JsonV::Text(d) }),
        ),
        None => JsonV::Object(base),
    }
}

/// The members of the payload of an event from another device, as they are kept here.
pub open spec fn members_prepared(
    db: DbV,
    ms: Seq<MemberV>,
    kind: Seq<char>,
    aware: bool,
    route: RouteV,
    event_id: int,
    digest: Seq<char>,
) -> Seq<MemberV> {
    let m1 = text_marked(ms, "from"@, route);
    let m2 = list_localized(m1, "mentions"@, route, aware);
    let m3 = list_localized(m2, "delivered_to"@, route, aware);
    let m4 = if aware && kind == "message_state"@ {
        name_localized(name_localized(m3, "actor"@, route), "recipient"@, route)
    } else {
        m3
    };
    let m5 = if aware && kind == "message"@ {
        parent_linked(db, text_marked(m4, "reply_to"@, route))
    } else {
        m4
    };
    with_member(
        m5,
        "_relay"@,
        origin_marker(
            route,
            event_id,
            if aware {
                Some(digest)
            } else {
                None
            },
        ),
    )
}

/// An event from another device, as it is kept here.
pub struct PreparedV {
    pub kind: Seq<char>,
    pub instance: Seq<char>,
    pub data: JsonV,
}

/// The kind of an event.
pub open spec fn event_kind(event: JsonV) -> Seq<char> {
    match member_text(event, "type"@) {
        Some(s) => s,
        None => "unknown"@,
    }
}

/// The instance of an event from another device, as it is known here.
pub open spec fn event_instance(event: JsonV, short_id: Seq<char>) -> Seq<char> {
    match member_text(event, "instance"@) {
        None => ""@,
        Some(s) => if s.len() > 0 && !s.contains(':') && s[0] != '_' {
            suffixed(s, short_id)
        } else {
            s
        },
    }
}

/// The payload of an event, an empty object where it has none.
pub open spec fn event_payload(event: JsonV) -> JsonV {
    match member(event, "data"@) {
        Some(d) => d,
        None => JsonV::Object(Seq::empty()),
    }
}

/// An event from another device, as it is kept here.
pub open spec fn prepared(db: DbV, event: JsonV, route: RouteV, event_id: int) -> PreparedV {
    let kind = event_kind(event);
    let data = event_payload(event);
    PreparedV {
        kind,
        instance: event_instance(event, route.short_id),
        data: match data {
            JsonV::Object(ms) => JsonV::Object(
                members_prepared(
                    db,
                    ms,
                    kind,
                    protocol_aware(kind, data),
                    route,
                    event_id,
                    source_digest(event),
                ),
            ),
            other => other,
        },
    }
}

fn localize_list(v: &mut Vec<Member>, key: &str, route: &Route<'_>, aware: bool)
    ensures
        object_view(final(v)@) == list_localized(object_view(old(v)@), key@, route@, aware),
{
    let mut names: Vec<Json> = Vec::new();
    match find_value(v, key) {
        Some(Json::Array(vs)) => {
            proof {
                lemma_array(*vs);
                assert(array_view(names@) =~= Seq::<JsonV>::empty());
            }
            let mut i: usize = 0;
            while i < vs.len()
                invariant
                    i <= vs@.len(),
                    array_view(names@) == listed_names(array_view(vs@), route@, aware, i as int),
                decreases vs.len() - i,
            {
                assert(array_view(vs@)[i as int] == vs@[i as int]@);
                if let Json::Text(name) = &vs[i] {
                    let fixed: String = if aware {
                        map_v1_remote_name(name.as_str(), route.short_id, route.own_short_id)
                    } else {
                        strip_device_suffix(name.as_str(), route.own_short_id)
                    };
                    let value: Json = Json::Text(fixed);
                    assert(array_view(names@.push(value)) =~= array_view(names@).push(value@));
                    names.push(value);
                }
                i += 1;
            }
        },
        _ => {
            return;
        },
    }
    proof {
        lemma_array(names);
    }
    set_member(v, key, Json::Array(names));
}

fn localize_name(v: &mut Vec<Member>, key: &str, route: &Route<'_>)
    ensures
        object_view(final(v)@) == name_localized(object_view(old(v)@), key@, route@),
{
    if let Some(name) = find_text(v, key) {
        let local: String = map_v1_remote_name(name.as_str(), route.short_id, route.own_short_id);
        set_member(v, key, Json::Text(local));
    }
}

fn mark_text(v: &mut Vec<Member>, key: &str, route: &Route<'_>)
    ensures
        object_view(final(v)@) == text_marked(object_view(old(v)@), key@, route@),
{
    if let Some(s) = find_text(v, key) {
        if !has_char(s.as_str(), ':') {
            let marked: String = add_device_suffix(s.as_str(), route.short_id);
            set_member(v, key, Json::Text(marked));
        }
    }
}

fn origin_json(route: &Route<'_>, event_id: i64, digest: Option<&str>) -> (r: Json)
    ensures
        r@ == origin_marker(route@, event_id as int, opt_str(digest)),
{
    let mut v: Vec<Member> = Vec::new();
    push_member(&mut v, "device", Json::text(route.device_id));
    push_member(&mut v, "id", Json::Int(event_id));
    push_member(&mut v, "short", Json::text(route.short_id));
    if let Some(d) = digest {
        push_member(&mut v, "source_digest", Json::text(d));
    }
    proof {
        lemma_object(v);
        assert(object_view(v@) =~= origin_marker(route@, event_id as int, opt_str(digest))->Object_0);
    }
    Json::Object(v)
}

/// An event from another device, as it is kept here.
#[derive(Debug)]
pub struct PreparedEvent {
    pub kind: String,
    pub instance: String,
    pub data: Json,
}

impl View for PreparedEvent {
    type V = PreparedV;

    open spec fn view(&self) -> PreparedV {
        PreparedV { kind: self.kind@, instance: self.instance@, data: self.data@ }
    }
}

fn begins_with_underscore(s: &str) -> (r: bool)
    ensures
        r == (s@.len() > 0 && s@[0] == '_'),
{
    s.unicode_len() > 0 && s.get_char(0) == '_'
}

impl HcomDb {
    fn link_parent(&self, v: &mut Vec<Member>)
        ensures
            object_view(final(v)@) == parent_linked(self@, object_view(old(v)@)),
    {
        if let Some(parent) = find_text(v, "in_reply_to") {
            if let Some(i) = self.find_record(parent.as_str()) {
                set_member(v, "reply_to_local", Json::Int(self.records[i].event_id));
            }
        }
    }

    /// Prepares an event from another device: names are made local, references are marked with the
    /// device, and the origin is kept.
    pub fn prepare_remote_event(&self, event: &Json, route: &Route<'_>, event_id: i64) -> (r: PreparedEvent)
        ensures
            r@ == prepared(self@, event@, route@, event_id as int),
    {
        let kind: String = match event.get_text("type") {
            Some(s) => s.to_owned(),
            None => "unknown".to_owned(),
        };
        let instance: String = match event.get_text("instance") {
            None => "".to_owned(),
            Some(s) => {
                if s.unicode_len() > 0 && !has_char(s, ':') && !begins_with_underscore(s) {
                    add_device_suffix(s, route.short_id)
                } else {
                    s.to_owned()
                }
            },
        };
        let payload: Json = match event.get("data") {
            Some(d) => d.duplicate(),
            None => {
                let empty: Vec<Member> = Vec::new();
                proof {
                    lemma_object(empty);
                    assert(object_view(empty@) =~= Seq::<MemberV>::empty());
                }
                Json::Object(empty)
            },
        };
        let aware: bool = is_protocol_aware(kind.as_str(), &payload);
        let digest: String = relay_source_digest(event);
        let data: Json = match &payload {
            Json::Object(ms) => {
                proof {
                    lemma_object(*ms);
                }
                let mut v: Vec<Member> = duplicate_object(ms);
                mark_text(&mut v, "from", route);
                localize_list(&mut v, "mentions", route, aware);
                localize_list(&mut v, "delivered_to", route, aware);
                if aware && same(kind.as_str(), "message_state") {
                    localize_name(&mut v, "actor", route);
                    localize_name(&mut v, "recipient", route);
                }
                if aware && same(kind.as_str(), "message") {
                    mark_text(&mut v, "reply_to", route);
                    self.link_parent(&mut v);
                }
                let marker: Json = origin_json(
                    route,
                    event_id,
                    if aware {
                        Some(digest.as_str())
                    } else {
                        None
                    },
                );
                set_member(&mut v, "_relay", marker);
                proof {
                    lemma_object(v);
                }
                Json::Object(v)
            },
            _ => payload.duplicate(),
        };
        PreparedEvent { kind, instance, data }
    }
}

proof fn lemma_marked_reads(ms: Seq<MemberV>, key: Seq<char>, route: RouteV, other: Seq<char>)
    ensures
        other != key ==> lookup(text_marked(ms, key, route), other) == lookup(ms, other),
        lookup_text(ms, key) matches Some(s) ==> lookup(text_marked(ms, key, route), key) == Some(JsonV::Text(if s.contains(':') { s } else { s + ":"@ + route.short_id })),
        lookup_text(ms, key) is None ==> text_marked(ms, key, route) == ms,
{
    if let Some(s) = lookup_text(ms, key) {
        crate::json::with_member_reads_back(ms, key, JsonV::Text(suffixed(s, route.short_id)), other);
        crate::json::with_member_reads_back(ms, key, JsonV::Text(suffixed(s, route.short_id)), key);
    }
}

proof fn lemma_localized_reads(ms: Seq<MemberV>, key: Seq<char>, route: RouteV, aware: bool, other: Seq<char>)
    ensures
        other != key ==> lookup(list_localized(ms, key, route, aware), other) == lookup(ms, other),
        lookup(ms, key) matches Some(JsonV::Array(vs)) ==> lookup(list_localized(ms, key, route, aware), key) == Some(JsonV::Array(listed_names(vs, route, aware, vs.len() as int))),
        !(lookup(ms, key) matches Some(JsonV::Array(_))) ==> list_localized(ms, key, route, aware) == ms,
{
    if let Some(JsonV::Array(vs)) = lookup(ms, key) {
        let v = JsonV::Array(listed_names(vs, route, aware, vs.len() as int));
        crate::json::with_member_reads_back(ms, key, v, other);
        crate::json::with_member_reads_back(ms, key, v, key);
    }
}

proof fn lemma_name_reads(ms: Seq<MemberV>, key: Seq<char>, route: RouteV, other: Seq<char>)
    ensures
        other != key ==> lookup(name_localized(ms, key, route), other) == lookup(ms, other),
        lookup_text(ms, key) matches Some(s) ==> lookup(name_localized(ms, key, route), key) == Some(JsonV::Text(mapped(s, route.short_id, route.own_short_id))),
{
    if let Some(s) = lookup_text(ms, key) {
        let v = JsonV::Text(mapped(s, route.short_id, route.own_short_id));
        crate::json::with_member_reads_back(ms, key, v, other);
        crate::json::with_member_reads_back(ms, key, v, key);
    }
}

proof fn lemma_linked_reads(db: DbV, ms: Seq<MemberV>, other: Seq<char>)
    ensures
        other != "reply_to_local"@ ==> lookup(parent_linked(db, ms), other) == lookup(ms, other),
        lookup_text(ms, "in_reply_to"@) matches Some(parent) ==> (db.record(parent) matches Some(r) ==> lookup(parent_linked(db, ms), "reply_to_local"@) == Some(JsonV::Int(r.event_id))),
{
    if let Some(parent) = lookup_text(ms, "in_reply_to"@) {
        if let Some(r) = db.record(parent) {
            crate::json::with_member_reads_back(ms, "reply_to_local"@, JsonV::Int(r.event_id), other);
            crate::json::with_member_reads_back(ms, "reply_to_local"@, JsonV::Int(r.event_id), "reply_to_local"@);
        }
    }
}

/// Whether a member of a payload tells of a participant or of where it comes from.
pub open spec fn is_local_matter(key: Seq<char>) -> bool {
    key == "from"@ || key == "mentions"@ || key == "delivered_to"@ || key == "actor"@ || key == "recipient"@ || key == "reply_to"@ || key == "reply_to_local"@ || key == "_relay"@
}

proof fn lemma_payload_keys()
    ensures
        "from"@.len() == 4 && "mentions"@.len() == 8 && "delivered_to"@.len() == 12 && "actor"@.len() == 5 && "recipient"@.len() == 9 && "reply_to"@.len() == 8 && "reply_to_local"@.len() == 14 && "_relay"@.len() == 6 && "in_reply_to"@.len() == 11 && "protocol"@.len() == 8,
        "mentions"@[0] == 'm' && "reply_to"@[0] == 'r' && "protocol"@[0] == 'p',
        "message"@.len() == 7 && "message_state"@.len() == 13,
{
    reveal_strlit("from");
    reveal_strlit("mentions");
    reveal_strlit("delivered_to");
    reveal_strlit("actor");
    reveal_strlit("recipient");
    reveal_strlit("reply_to");
    reveal_strlit("reply_to_local");
    reveal_strlit("_relay");
    reveal_strlit("in_reply_to");
    reveal_strlit("protocol");
    reveal_strlit("message");
    reveal_strlit("message_state");
}

proof fn lemma_prepared_member(db: DbV, ms: Seq<MemberV>, kind: Seq<char>, aware: bool, route: RouteV, event_id: int, digest: Seq<char>, key: Seq<char>)
    ensures
        ({
            let out = members_prepared(db, ms, kind, aware, route, event_id, digest);
            let marker = origin_marker(route, event_id, if aware { Some(digest) } else { None });
            &&& !is_local_matter(key) ==> lookup(out, key) == lookup(ms, key)
            &&& lookup(out, "_relay"@) == Some(marker)
            &&& lookup_text(ms, "from"@) matches Some(s) ==> lookup(out, "from"@) == Some(JsonV::Text(if s.contains(':') { s } else { s + ":"@ + route.short_id }))
            &&& lookup_text(ms, "from"@) is None ==> lookup(out, "from"@) == lookup(ms, "from"@)
            &&& lookup(ms, "delivered_to"@) matches Some(JsonV::Array(vs)) ==> lookup(out, "delivered_to"@) == Some(JsonV::Array(listed_names(vs, route, aware, vs.len() as int)))
            &&& lookup(ms, "mentions"@) matches Some(JsonV::Array(vs)) ==> lookup(out, "mentions"@) == Some(JsonV::Array(listed_names(vs, route, aware, vs.len() as int)))
            &&& aware && kind == "message_state"@ ==> (lookup_text(ms, "actor"@) matches Some(s) ==> lookup(out, "actor"@) == Some(JsonV::Text(mapped(s, route.short_id, route.own_short_id))))
            &&& aware && kind == "message_state"@ ==> (lookup_text(ms, "recipient"@) matches Some(s) ==> lookup(out, "recipient"@) == Some(JsonV::Text(mapped(s, route.short_id, route.own_short_id))))
            &&& aware && kind == "message"@ ==> (lookup_text(ms, "reply_to"@) matches Some(s) ==> lookup(out, "reply_to"@) == Some(JsonV::Text(if s.contains(':') { s } else { s + ":"@ + route.short_id })))
            &&& aware && kind == "message"@ ==> (lookup_text(ms, "in_reply_to"@) matches Some(parent) ==> (db.record(parent) matches Some(r) ==> lookup(out, "reply_to_local"@) == Some(JsonV::Int(r.event_id))))
        }),
{
    lemma_payload_keys();
    let m1 = text_marked(ms, "from"@, route);
    let m2 = list_localized(m1, "mentions"@, route, aware);
    let m3 = list_localized(m2, "delivered_to"@, route, aware);
    let state = aware && kind == "message_state"@;
    let a = name_localized(m3, "actor"@, route);
    let m4 = if state { name_localized(a, "recipient"@, route) } else { m3 };
    let message = aware && kind == "message"@;
    let b = text_marked(m4, "reply_to"@, route);
    let m5 = if message { parent_linked(db, b) } else { m4 };
    let marker = origin_marker(route, event_id, if aware { Some(digest) } else { None });
    lemma_prepared_step(db, ms, kind, aware, route, marker, key);
    lemma_prepared_step(db, ms, kind, aware, route, marker, "from"@);
    lemma_prepared_step(db, ms, kind, aware, route, marker, "mentions"@);
    lemma_prepared_step(db, ms, kind, aware, route, marker, "delivered_to"@);
    lemma_prepared_step(db, ms, kind, aware, route, marker, "actor"@);
    lemma_prepared_step(db, ms, kind, aware, route, marker, "recipient"@);
    lemma_prepared_step(db, ms, kind, aware, route, marker, "reply_to"@);
    lemma_prepared_step(db, ms, kind, aware, route, marker, "reply_to_local"@);
    lemma_prepared_step(db, ms, kind, aware, route, marker, "in_reply_to"@);
    lemma_prepared_step(db, ms, kind, aware, route, marker, "_relay"@);
}

proof fn lemma_prepared_step(db: DbV, ms: Seq<MemberV>, kind: Seq<char>, aware: bool, route: RouteV, marker: JsonV, key: Seq<char>)
    ensures
        ({
            let m1 = text_marked(ms, "from"@, route);
            let m2 = list_localized(m1, "mentions"@, route, aware);
            let m3 = list_localized(m2, "delivered_to"@, route, aware);
            let a = name_localized(m3, "actor"@, route);
            let m4 = if aware && kind == "message_state"@ { name_localized(a, "recipient"@, route) } else { m3 };
            let b = text_marked(m4, "reply_to"@, route);
            let m5 = if aware && kind == "message"@ { parent_linked(db, b) } else { m4 };
            let out = with_member(m5, "_relay"@, marker);
            &&& key != "from"@ ==> lookup(m1, key) == lookup(ms, key)
            &&& key != "mentions"@ ==> lookup(m2, key) == lookup(m1, key)
            &&& key != "delivered_to"@ ==> lookup(m3, key) == lookup(m2, key)
            &&& key != "actor"@ ==> lookup(a, key) == lookup(m3, key)
            &&& key != "actor"@ && key != "recipient"@ ==> lookup(m4, key) == lookup(m3, key)
            &&& key != "reply_to"@ ==> lookup(b, key) == lookup(m4, key)
            &&& key != "reply_to"@ && key != "reply_to_local"@ ==> lookup(m5, key) == lookup(m4, key)
            &&& key != "_relay"@ ==> lookup(out, key) == lookup(m5, key)
            &&& lookup(out, "_relay"@) == Some(marker)
            &&& lookup_text(ms, "from"@) matches Some(s) ==> lookup(m1, "from"@) == Some(JsonV::Text(if s.contains(':') { s } else { s + ":"@ + route.short_id }))
            &&& lookup_text(ms, "from"@) is None ==> m1 == ms
            &&& lookup(m1, "mentions"@) matches Some(JsonV::Array(vs)) ==> lookup(m2, "mentions"@) == Some(JsonV::Array(listed_names(vs, route, aware, vs.len() as int)))
            &&& lookup(m2, "delivered_to"@) matches Some(JsonV::Array(vs)) ==> lookup(m3, "delivered_to"@) == Some(JsonV::Array(listed_names(vs, route, aware, vs.len() as int)))
            &&& lookup_text(m3, "actor"@) matches Some(s) ==> lookup(a, "actor"@) == Some(JsonV::Text(mapped(s, route.short_id, route.own_short_id)))
            &&& key != "recipient"@ && aware && kind == "message_state"@ ==> lookup(m4, key) == lookup(a, key)
            &&& aware && kind == "message_state"@ ==> (lookup_text(a, "recipient"@) matches Some(s) ==> lookup(m4, "recipient"@) == Some(JsonV::Text(mapped(s, route.short_id, route.own_short_id))))
            &&& lookup_text(m4, "reply_to"@) matches Some(s) ==> lookup(b, "reply_to"@) == Some(JsonV::Text(if s.contains(':') { s } else { s + ":"@ + route.short_id }))
            &&& key != "reply_to_local"@ && aware && kind == "message"@ ==> lookup(m5, key) == lookup(b, key)
            &&& aware && kind == "message"@ ==> (lookup_text(b, "in_reply_to"@) matches Some(parent) ==> (db.record(parent) matches Some(r) ==> lookup(m5, "reply_to_local"@) == Some(JsonV::Int(r.event_id))))
        }),
{
    let m1 = text_marked(ms, "from"@, route);
    let m2 = list_localized(m1, "mentions"@, route, aware);
    let m3 = list_localized(m2, "delivered_to"@, route, aware);
    let a = name_localized(m3, "actor"@, route);
    let m4 = if aware && kind == "message_state"@ { name_localized(a, "recipient"@, route) } else { m3 };
    let b = text_marked(m4, "reply_to"@, route);
    let m5 = if aware && kind == "message"@ { parent_linked(db, b) } else { m4 };
    lemma_marked_reads(ms, "from"@, route, key);
    lemma_localized_reads(m1, "mentions"@, route, aware, key);
    lemma_localized_reads(m2, "delivered_to"@, route, aware, key);
    lemma_name_reads(m3, "actor"@, route, key);
    lemma_name_reads(a, "recipient"@, route, key);
    lemma_marked_reads(m4, "reply_to"@, route, key);
    lemma_linked_reads(db, b, key);
    crate::json::with_member_reads_back(m5, "_relay"@, marker, key);
}

proof fn lemma_listed(vs: Seq<JsonV>, route: RouteV, aware: bool, n: int, i: int)
    requires
        0 <= i < n <= vs.len(),
        forall|k: int| 0 <= k < n ==> (#[trigger] vs[k]) is Text,
    ensures
        listed_names(vs, route, aware, n).len() == n,
        listed_names(vs, route, aware, n)[i] == JsonV::Text(listed_name(vs[i]->Text_0, route, aware)),
    decreases n,
{
    assert(vs[n - 1] is Text);
    if i < n - 1 {
        lemma_listed(vs, route, aware, n - 1, i);
    } else if n > 1 {
        lemma_listed(vs, route, aware, n - 1, 0);
    } else {
        assert(listed_names(vs, route, aware, 0).len() == 0);
    }
}

/// An event keeps its type. A participant that it is of is marked with the device, unless the event
/// says where it is from or is of the device itself.
pub proof fn events_keep_their_type(db: HcomDb, event: Json, route: Route<'_>, id: i64, r: PreparedEvent)
    requires
        call_ensures(HcomDb::prepare_remote_event, (&db, &event, &route, id), r),
    ensures
        member_text(event@, "type"@) matches Some(s) ==> r.kind@ == s,
        member_text(event@, "type"@) is None ==> r.kind@ == "unknown"@,
        member_text(event@, "instance"@) is None ==> r.instance@ == ""@,
        member_text(event@, "instance"@) matches Some(s) ==> (s.len() == 0 || s.contains(':') || s[0] == '_' ==> r.instance@ == s),
        member_text(event@, "instance"@) matches Some(s) ==> (s.len() > 0 && !s.contains(':') && s[0] != '_' ==> r.instance@ == s + ":"@ + route.short_id@),
{
}

/// What an event says is kept, but for what is a local matter; its sender is marked with the device it
/// comes from, and so is the message that it replies to; and it is kept where it comes from.
pub proof fn payloads_keep_what_they_say(db: HcomDb, event: Json, route: Route<'_>, id: i64, r: PreparedEvent, data: JsonV, key: Seq<char>)
    requires
        call_ensures(HcomDb::prepare_remote_event, (&db, &event, &route, id), r),
        member(event@, "data"@) == Some(data),
        data is Object,
    ensures
        r.data@ is Object,
        !is_local_matter(key) ==> member(r.data@, key) == member(data, key),
        member_text(data, "from"@) matches Some(s) ==> member_text(r.data@, "from"@) == Some(if s.contains(':') { s } else { s + ":"@ + route.short_id@ }),
        member_text(data, "protocol"@) == Some("hcom-message/v1"@) && member_text(event@, "type"@) == Some("message"@) ==> (member_text(data, "reply_to"@) matches Some(s) ==> member_text(r.data@, "reply_to"@) == Some(if s.contains(':') { s } else { s + ":"@ + route.short_id@ })),
        member_text(data, "protocol"@) == Some("hcom-message/v1"@) && member_text(event@, "type"@) == Some("message"@) ==> (member_text(data, "in_reply_to"@) matches Some(parent) ==> (db@.record(parent) matches Some(rec) ==> member(r.data@, "reply_to_local"@) == Some(JsonV::Int(rec.event_id)))),
        member(r.data@, "_relay"@) matches Some(m) && member(m, "device"@) == Some(JsonV::Text(route.device_id@)) && member(m, "short"@) == Some(JsonV::Text(route.short_id@)) && member(m, "id"@) == Some(JsonV::Int(id as int)),
{
    let ms = data->Object_0;
    let kind = event_kind(event@);
    let aware = protocol_aware(kind, data);
    let digest = source_digest(event@);
    lemma_prepared_member(db@, ms, kind, aware, route@, id as int, digest, key);
    let marker = origin_marker(route@, id as int, if aware { Some(digest) } else { None });
    let os = marker->Object_0;
    reveal_strlit("device");
    reveal_strlit("id");
    reveal_strlit("short");
    assert("device"@.len() == 6 && "id"@.len() == 2 && "short"@.len() == 5);
    assert(crate::json::has_key(os, "device"@)(0));
    crate::search::first_where_found(os.len() as int, crate::json::has_key(os, "device"@), 0);
    assert(crate::json::has_key(os, "id"@)(1));
    crate::search::first_where_found(os.len() as int, crate::json::has_key(os, "id"@), 1);
    assert(crate::json::has_key(os, "short"@)(2));
    crate::search::first_where_found(os.len() as int, crate::json::has_key(os, "short"@), 2);
}

/// A message of the protocol keeps the digest of the event it came as.
pub proof fn origins_keep_the_digest(db: HcomDb, event: Json, route: Route<'_>, id: i64, r: PreparedEvent, data: JsonV, digest: String)
    requires
        call_ensures(HcomDb::prepare_remote_event, (&db, &event, &route, id), r),
        call_ensures(relay_source_digest, (&event,), digest),
        member(event@, "data"@) == Some(data),
        data is Object,
        member_text(data, "protocol"@) == Some("hcom-message/v1"@),
        member_text(event@, "type"@) == Some("message"@) || member_text(event@, "type"@) == Some("message_state"@),
    ensures
        member(r.data@, "_relay"@) matches Some(m) && member(m, "source_digest"@) == Some(JsonV::Text(digest@)),
{
    let ms = data->Object_0;
    let kind = event_kind(event@);
    lemma_prepared_member(db@, ms, kind, true, route@, id as int, source_digest(event@), "protocol"@);
    let os = origin_marker(route@, id as int, Some(source_digest(event@)))->Object_0;
    reveal_strlit("device");
    reveal_strlit("id");
    reveal_strlit("short");
    reveal_strlit("source_digest");
    assert("device"@.len() == 6 && "id"@.len() == 2 && "short"@.len() == 5 && "source_digest"@.len() == 13);
    assert(crate::json::has_key(os, "source_digest"@)(3));
    crate::search::first_where_found(os.len() as int, crate::json::has_key(os, "source_digest"@), 3);
}

/// Everyone that a message of the protocol is delivered to, or mentions, is named as they are known
/// here, in the same order; and so are the actor and the recipient of a state that it is in.
pub proof fn participants_are_named_as_known_here(
    db: HcomDb,
    event: Json,
    route: Route<'_>,
    id: i64,
    r: PreparedEvent,
    data: JsonV,
    key: Seq<char>,
    vs: Seq<JsonV>,
    i: int,
    name: &str,
    here: String,
)
    requires
        call_ensures(HcomDb::prepare_remote_event, (&db, &event, &route, id), r),
        member(event@, "data"@) == Some(data),
        data is Object,
        member_text(data, "protocol"@) == Some("hcom-message/v1"@),
        member_text(event@, "type"@) == Some("message"@) || member_text(event@, "type"@) == Some("message_state"@),
        call_ensures(map_v1_remote_name, (name, route.short_id, route.own_short_id), here),
    ensures
        (key == "delivered_to"@ || key == "mentions"@) && member(data, key) == Some(JsonV::Array(vs)) && (forall|k: int| 0 <= k < vs.len() ==> (#[trigger] vs[k]) is Text) && 0 <= i < vs.len() && vs[i] == JsonV::Text(name@) ==> (member(r.data@, key) matches Some(JsonV::Array(out)) && out.len() == vs.len() && out[i] == JsonV::Text(here@)),
        (key == "actor"@ || key == "recipient"@) && member_text(event@, "type"@) == Some("message_state"@) && member_text(data, key) == Some(name@) ==> member_text(r.data@, key) == Some(here@),
{
    lemma_payload_keys();
    let ms = data->Object_0;
    let kind = event_kind(event@);
    lemma_prepared_member(db@, ms, kind, true, route@, id as int, source_digest(event@), key);
    if (key == "delivered_to"@ || key == "mentions"@) && member(data, key) == Some(JsonV::Array(vs)) && (forall|k: int| 0 <= k < vs.len() ==> (#[trigger] vs[k]) is Text) && 0 <= i < vs.len() {
        lemma_listed(vs, route@, true, vs.len() as int, i);
    }
}

/// Events that are not of the protocol have those they name stripped of our own short id only.
pub proof fn plain_events_lose_our_short_id(
    db: HcomDb,
    event: Json,
    route: Route<'_>,
    id: i64,
    r: PreparedEvent,
    data: JsonV,
    key: Seq<char>,
    vs: Seq<JsonV>,
    i: int,
    name: &str,
    here: String,
)
    requires
        call_ensures(HcomDb::prepare_remote_event, (&db, &event, &route, id), r),
        member(event@, "data"@) == Some(data),
        data is Object,
        member_text(data, "protocol"@) != Some("hcom-message/v1"@) || (member_text(event@, "type"@) != Some("message"@) && member_text(event@, "type"@) != Some("message_state"@)),
        call_ensures(strip_device_suffix, (name, route.own_short_id), here),
        key == "delivered_to"@ || key == "mentions"@,
        member(data, key) == Some(JsonV::Array(vs)),
        forall|k: int| 0 <= k < vs.len() ==> (#[trigger] vs[k]) is Text,
        0 <= i < vs.len(),
        vs[i] == JsonV::Text(name@),
    ensures
        member(r.data@, key) matches Some(JsonV::Array(out)) && out.len() == vs.len() && out[i] == JsonV::Text(here@),
{
    reveal_strlit("unknown");
    lemma_payload_keys();
    assert("unknown"@.len() == 7 && "unknown"@[0] == 'u' && "message"@[0] == 'm') by {
        reveal_strlit("message");
    }
    let ms = data->Object_0;
    let kind = event_kind(event@);
    lemma_prepared_member(db@, ms, kind, false, route@, id as int, source_digest(event@), key);
    lemma_listed(vs, route@, false, vs.len() as int, i);
}

/// Attachments that came with a message are stored as they were made uniform, where they say what they
/// said; a message without any has an empty list; and what is no list, or is not as it says, is refused.
pub proof fn attachments_must_be_what_they_say(data: Json, normalized: Attachments, r: Result<String, String>)
    requires
        call_ensures(bounded_imported_attachments, (&data, &normalized), r),
    ensures
        member(data@, "attachments"@) is None ==> (r matches Ok(s) && s@ == "[]"@),
        (member(data@, "attachments"@) matches Some(a) && !(a is Array)) ==> (r matches Err(e) && e@ == "message attachments must be an array"@),
        (member(data@, "attachments"@) matches Some(a) && a is Array) ==> match normalized {
            Attachments::Invalid(reason) => r matches Err(e) && e@ == reason@,
            Attachments::Normalized { value, text } => if member(data@, "attachments"@) == Some(value@) {
                r matches Ok(s) && s@ == text@
            } else {
                r matches Err(e) && e@ == "attachment metadata or digest does not match bounded content"@
            },
        },
{
}

/// An event is part of the message protocol where it names the protocol, and is a message or a step.
pub proof fn protocol_events_name_the_protocol(kind: &str, data: Json, r: bool)
    requires
        call_ensures(is_protocol_aware, (kind, &data), r),
    ensures
        r <==> member_text(data@, "protocol"@) == Some("hcom-message/v1"@) && (kind@ == "message"@ || kind@ == "message_state"@),
{
}

} // verus!
