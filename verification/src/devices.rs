//! The other devices of a relay: joining, leaving, and the snapshots they send.

use crate::cleanup::{cleaned, without_device};
use crate::columns::{Column, ColumnV, column, json_text, read_column, write_json};
use crate::json::{
    Json, JsonV, Member, MemberV, array_view, duplicate_array, lemma_array, lemma_object, member,
    member_bool, member_int, member_text, object_view, push_member,
};
use crate::names::{add_device_suffix, suffixed};
use crate::relay::{Route, RouteV};
use crate::rows::{lemma_views_push, lemma_views_update, views};
use crate::search::{first_where, position};
use crate::store::{DbV, Event, EventV, HcomDb, Instance, InstanceV, KvV, event_logged, opt_id};
use crate::sync::{RemoteEvent, RemoteEventV, ResetMark, cursor_key, events_imported, kv_put};
use crate::text::{
    after_prefixes, as_opt_str, cat, cat3, decimal, decimal_text_u64, opt_str, opt_text, own_opt,
    parse_unsigned, parse_up_to, same, same_opt, starts_with, trim_prefixes,
};
use crate::times::{instant_seconds, parse_instant};
use vstd::prelude::*;
use vstd::utf8::{decode_utf8, encode_utf8, is_char_boundary};

verus! {

broadcast use vstd::string::group_string_axioms;

/// What is needed to open a message from the relay: the shared key, and the relay and topic it is
/// bound to.
pub struct InboundContext<'a> {
    pub psk: &'a [u8; 32],
    pub relay_id: &'a str,
    pub topic: &'a str,
}

/// How far an envelope has come. Each step is done where the one before succeeded: an envelope
/// that does not open leaves no trace in the replay guard.
#[derive(Debug, Clone, Copy, PartialEq, Eq, Structural)]
pub enum EnvelopeStep {
    Parse,
    Decrypt,
    CheckReplay,
    RecordNonce,
    Opened,
    Dropped,
}

/// The step after one that succeeded or failed.
pub open spec fn envelope_after(step: EnvelopeStep, ok: bool) -> EnvelopeStep {
    match step {
        EnvelopeStep::Opened => EnvelopeStep::Opened,
        EnvelopeStep::Dropped => EnvelopeStep::Dropped,
        _ => if !ok {
            EnvelopeStep::Dropped
        } else {
            match step {
                EnvelopeStep::Parse => EnvelopeStep::Decrypt,
                EnvelopeStep::Decrypt => EnvelopeStep::CheckReplay,
                EnvelopeStep::CheckReplay => EnvelopeStep::RecordNonce,
                _ => EnvelopeStep::Opened,
            }
        },
    }
}

impl EnvelopeStep {
    /// The step after this one has succeeded or failed.
    pub fn next(self, ok: bool) -> (r: EnvelopeStep)
        ensures
            r == envelope_after(self, ok),
    {
        match self {
            EnvelopeStep::Opened => EnvelopeStep::Opened,
            EnvelopeStep::Dropped => EnvelopeStep::Dropped,
            EnvelopeStep::Parse => if ok {
                EnvelopeStep::Decrypt
            } else {
                EnvelopeStep::Dropped
            },
            EnvelopeStep::Decrypt => if ok {
                EnvelopeStep::CheckReplay
            } else {
                EnvelopeStep::Dropped
            },
            EnvelopeStep::CheckReplay => if ok {
                EnvelopeStep::RecordNonce
            } else {
                EnvelopeStep::Dropped
            },
            EnvelopeStep::RecordNonce => if ok {
                EnvelopeStep::Opened
            } else {
                EnvelopeStep::Dropped
            },
        }
    }
}

/// The step that an envelope comes to through a series of outcomes.
pub open spec fn envelope_run(outcomes: Seq<bool>) -> EnvelopeStep
    decreases outcomes.len(),
{
    if outcomes.len() == 0 {
        EnvelopeStep::Parse
    } else {
        envelope_after(envelope_run(outcomes.drop_last()), outcomes.last())
    }
}

/// A nonce is recorded only for an envelope that has been parsed and decrypted and has passed the
/// replay check, and an envelope counts as opened only once its nonce is recorded.
pub proof fn nonce_recorded_only_after_opening(outcomes: Seq<bool>)
    ensures
        envelope_run(outcomes) == EnvelopeStep::RecordNonce ==> outcomes == seq![true, true, true],
        envelope_run(outcomes) == EnvelopeStep::Opened ==> outcomes.len() >= 4
            && outcomes.take(4) == seq![true, true, true, true],
    decreases outcomes.len(),
{
    reveal_with_fuel(envelope_run, 5);
    if outcomes.len() > 0 {
        let before = outcomes.drop_last();
        nonce_recorded_only_after_opening(before);
        lemma_envelope_early(before);
        if envelope_run(outcomes) == EnvelopeStep::RecordNonce {
            assert(envelope_run(before) == EnvelopeStep::CheckReplay);
            assert(outcomes =~= seq![true, true, true]);
        }
        if envelope_run(outcomes) == EnvelopeStep::Opened {
            if envelope_run(before) == EnvelopeStep::Opened {
                assert(outcomes.take(4) =~= before.take(4));
            } else {
                assert(before == seq![true, true, true]);
                assert(outcomes.take(4) =~= seq![true, true, true, true]);
            }
        }
    }
}

proof fn lemma_envelope_early(outcomes: Seq<bool>)
    ensures
        envelope_run(outcomes) == EnvelopeStep::Parse ==> outcomes == Seq::<bool>::empty(),
        envelope_run(outcomes) == EnvelopeStep::Decrypt ==> outcomes == seq![true],
        envelope_run(outcomes) == EnvelopeStep::CheckReplay ==> outcomes == seq![true, true],
    decreases outcomes.len(),
{
    if outcomes.len() > 0 {
        lemma_envelope_early(outcomes.drop_last());
        if envelope_run(outcomes) == EnvelopeStep::Decrypt {
            assert(outcomes =~= seq![true]);
        }
        if envelope_run(outcomes) == EnvelopeStep::CheckReplay {
            assert(outcomes =~= seq![true, true]);
        }
    } else {
        assert(outcomes =~= Seq::<bool>::empty());
    }
}

/// The key under which the newest state time of a device is kept.
pub open spec fn watermark_key(device_id: Seq<char>) -> Seq<char> {
    "relay_state_ts_"@ + device_id
}

/// The key under which the newest state time of a device is kept.
pub fn state_ts_key(device_id: &str) -> (r: String)
    ensures
        r@ == watermark_key(device_id@),
{
    cat("relay_state_ts_", device_id)
}

/// The newest time of a state that has been accepted from a device.
pub open spec fn watermark(db: DbV, device_id: Seq<char>) -> Option<int> {
    match db.kv_value(watermark_key(device_id)) {
        None => None,
        Some(s) => parse_unsigned(s, 0xffff_ffff_ffff_ffff),
    }
}

/// The store after a state with a time is accepted from a device; the newest time never goes back.
pub open spec fn watermark_recorded(db: DbV, device_id: Seq<char>, ts: int) -> DbV {
    let current = match watermark(db, device_id) {
        Some(n) => n,
        None => 0,
    };
    if ts > current {
        kv_put(db, watermark_key(device_id), Some(decimal(ts)))
    } else {
        db
    }
}

/// The payload of the event that logs what a device does.
pub open spec fn device_event_data(
    action: Seq<char>,
    short_id: Seq<char>,
    prefix: Seq<char>,
    text: Seq<char>,
    reconnect: bool,
) -> JsonV {
    let head = seq![
        MemberV { key: "action"@, value: JsonV::Text(action) },
        MemberV { key: "device_id"@, value: JsonV::Text(prefix) },
    ];
    let mid = if reconnect {
        head.push(MemberV { key: "reconnect"@, value: JsonV::Bool(true) })
    } else {
        head
    };
    JsonV::Object(
        mid.push(MemberV { key: "short_id"@, value: JsonV::Text(short_id) }).push(
            MemberV { key: "text"@, value: JsonV::Text(text) },
        ),
    )
}

/// The store after what a device does is logged; it is lost where the log can take no more.
pub open spec fn device_event_logged(
    db: DbV,
    action: Seq<char>,
    short_id: Seq<char>,
    prefix: Seq<char>,
    text: Seq<char>,
    reconnect: bool,
    now: Seq<char>,
) -> DbV {
    match event_logged(
        db,
        now,
        "life"@,
        ""@,
        device_event_data(action, short_id, prefix, text, reconnect),
    ) {
        Err(_) => db,
        Ok((d, id)) => DbV { notifications: d.notifications.push(id), ..d },
    }
}

/// The condition that the entry at a position maps a short id to a device.
pub open spec fn short_id_entry(rows: Seq<KvV>, device_id: Seq<char>) -> spec_fn(int) -> bool {
    |i: int| "relay_short_"@.is_prefix_of(rows[i].key) && rows[i].value == device_id
}

/// The short id of a device: the one that is remembered for it, or else the first one that is
/// mapped to it.
pub open spec fn short_id_of(db: DbV, device_id: Seq<char>) -> Option<Seq<char>> {
    match db.kv_value("relay_uuid_short_"@ + device_id) {
        Some(s) => Some(s),
        None => match first_where(db.kv.len() as int, short_id_entry(db.kv, device_id)) {
            Some(i) => Some(after_prefixes(db.kv[i].key, "relay_short_"@)),
            None => None,
        },
    }
}

/// The store after the keys that belong to a device, and to its short id, are removed.
pub open spec fn device_keys_removed(db: DbV, device_id: Seq<char>, short_id: Option<Seq<char>>) -> DbV {
    let d1 = kv_put(db, "relay_sync_time_"@ + device_id, None);
    let d2 = kv_put(d1, "relay_caps_"@ + device_id, None);
    let d3 = kv_put(d2, "relay_ctrl_"@ + device_id, None);
    let d4 = kv_put(d3, watermark_key(device_id), None);
    let d5 = match short_id {
        Some(s) => kv_put(d4, "relay_short_"@ + s, None),
        None => d4,
    };
    kv_put(d5, "relay_uuid_short_"@ + device_id, None)
}

/// The store after a device has left.
pub open spec fn device_gone(
    db: DbV,
    device_id: Seq<char>,
    prefix: Seq<char>,
    action: Seq<char>,
    now: Seq<char>,
) -> DbV {
    let d = without_device(db, device_id);
    let short_id = short_id_of(d, device_id);
    let label = match short_id {
        Some(s) => s,
        None => prefix,
    };
    device_event_logged(
        device_keys_removed(d, device_id, short_id),
        action,
        label,
        prefix,
        "device "@ + label + " left the relay"@,
        false,
        now,
    )
}

impl HcomDb {
    /// The newest time of a state that has been accepted from a device.
    pub fn state_ts_watermark(&self, device_id: &str) -> (r: Option<u64>)
        ensures
            (match r {
                Some(n) => Some(n as int),
                None => None,
            }) == watermark(self@, device_id@),
    {
        let key: String = state_ts_key(device_id);
        match self.kv_get(key.as_str()) {
            None => None,
            Some(s) => parse_up_to(s, 0xffff_ffff_ffff_ffff),
        }
    }

    /// Keeps the time of a state that is accepted from a device, where it is the newest.
    pub fn record_state_ts_watermark(&mut self, device_id: &str, ts_secs: u64)
        ensures
            final(self)@ == watermark_recorded(old(self)@, device_id@, ts_secs as int),
    {
        let current: u64 = match self.state_ts_watermark(device_id) {
            Some(n) => n,
            None => 0,
        };
        if ts_secs > current {
            let key: String = state_ts_key(device_id);
            let value: String = decimal_text_u64(ts_secs);
            self.kv_set(key.as_str(), Some(value.as_str()));
        }
    }

    /// Logs what a device does.
    pub fn emit_device_event(
        &mut self,
        action: &str,
        short_id: &str,
        prefix: &str,
        text: &str,
        reconnect: bool,
        now: &str,
    )
        ensures
            final(self)@ == device_event_logged(
                old(self)@,
                action@,
                short_id@,
                prefix@,
                text@,
                reconnect,
                now@,
            ),
    {
        let mut v: Vec<Member> = Vec::new();
        push_member(&mut v, "action", Json::text(action));
        push_member(&mut v, "device_id", Json::text(prefix));
        if reconnect {
            push_member(&mut v, "reconnect", Json::Bool(true));
        }
        push_member(&mut v, "short_id", Json::text(short_id));
        push_member(&mut v, "text", Json::text(text));
        proof {
            lemma_object(v);
            assert(object_view(v@) =~= device_event_data(
                action@,
                short_id@,
                prefix@,
                text@,
                reconnect,
            )->Object_0);
        }
        if let Ok(id) = self.insert_event(now, "life", "", Json::Object(v)) {
            self.notify(id);
        }
    }

    /// The short id of a device.
    pub fn resolve_short_id(&self, device_id: &str) -> (r: Option<String>)
        ensures
            opt_text(r) == short_id_of(self@, device_id@),
    {
        let key: String = cat("relay_uuid_short_", device_id);
        if let Some(s) = self.kv_get(key.as_str()) {
            return Some(s.to_owned());
        }
        let ghost p = short_id_entry(self@.kv, device_id@);
        let mut found: Option<usize> = None;
        let mut i: usize = 0;
        while i < self.kv.len()
            invariant
                i <= self.kv@.len(),
                p == short_id_entry(self@.kv, device_id@),
                position(found) == first_where(i as int, p),
                found matches Some(k) ==> k < i,
            decreases self.kv.len() - i,
        {
            if found.is_none() && starts_with(self.kv[i].key.as_str(), "relay_short_") && same(
                self.kv[i].value.as_str(),
                device_id,
            ) {
                found = Some(i);
            }
            i += 1;
        }
        match found {
            Some(k) => Some(trim_prefixes(self.kv[k].key.as_str(), "relay_short_")),
            None => None,
        }
    }

    /// Forgets a device that has left: its instances, and what is kept about it.
    pub fn handle_device_gone(&mut self, device_id: &str, prefix: &str, action: &str, now: &str)
        ensures
            final(self)@ == device_gone(old(self)@, device_id@, prefix@, action@, now@),
    {
        self.remove_device_instances(device_id);
        let short_id: Option<String> = self.resolve_short_id(device_id);
        let k1: String = cat("relay_sync_time_", device_id);
        self.kv_set(k1.as_str(), None);
        let k2: String = cat("relay_caps_", device_id);
        self.kv_set(k2.as_str(), None);
        let k3: String = cat("relay_ctrl_", device_id);
        self.kv_set(k3.as_str(), None);
        let k4: String = state_ts_key(device_id);
        self.kv_set(k4.as_str(), None);
        if let Some(s) = &short_id {
            let k5: String = cat("relay_short_", s.as_str());
            self.kv_set(k5.as_str(), None);
        }
        let k6: String = cat("relay_uuid_short_", device_id);
        self.kv_set(k6.as_str(), None);
        let label: String = match short_id {
            Some(s) => s,
            None => prefix.to_owned(),
        };
        let text: String = cat3("device ", label.as_str(), " left the relay");
        self.emit_device_event(action, label.as_str(), prefix, text.as_str(), false, now);
    }
}

/// What a control message asks for: the device it comes from, and the events to be handled.
pub struct ControlRequest {
    pub source_device: String,
    pub events: Vec<Json>,
}

/// The device that a control message comes from.
pub open spec fn control_source(data: JsonV) -> Seq<char> {
    match member_text(data, "from_device"@) {
        Some(s) => s,
        None => "unknown"@,
    }
}

/// The events of a control message: those it lists, or itself where it is one.
pub open spec fn control_events(data: JsonV) -> Seq<JsonV> {
    match member(data, "events"@) {
        Some(JsonV::Array(vs)) => vs,
        _ => if member_text(data, "type"@) == Some("control"@) {
            seq![data]
        } else {
            Seq::empty()
        },
    }
}

/// What a control message asks for; nothing where it comes from the own device.
pub fn handle_control_message(data: &Json, own_device: &str) -> (r: Option<ControlRequest>)
    ensures
        match r {
            None => control_source(data@) == own_device@,
            Some(c) => control_source(data@) != own_device@ && c.source_device@ == control_source(
                data@,
            ) && array_view(c.events@) == control_events(data@),
        },
{
    let source_device: String = match data.get_text("from_device") {
        Some(s) => s.to_owned(),
        None => "unknown".to_owned(),
    };
    if same(source_device.as_str(), own_device) {
        return None;
    }
    let events: Vec<Json> = match data.get("events") {
        Some(Json::Array(vs)) => {
            proof {
                lemma_array(*vs);
            }
            duplicate_array(vs)
        },
        _ => {
            let mut v: Vec<Json> = Vec::new();
            if same_opt(data.get_text("type"), "control") {
                v.push(data.duplicate());
                assert(array_view(v@) =~= seq![data@]);
            } else {
                assert(array_view(v@) =~= Seq::<JsonV>::empty());
            }
            v
        },
    };
    Some(ControlRequest { source_device, events })
}

/// A text in capitals.
pub uninterp spec fn uppercase(s: Seq<char>) -> Seq<char>;

/// `str::to_uppercase`: the text in capitals. The result depends on the text alone.
#[verifier::external_body]
fn to_uppercase(s: &str) -> (r: String)
    ensures
        r@ == uppercase(s@),
{
    s.to_uppercase()
}

/// Whether a state says that its device has left.
pub fn is_farewell(data: &Json) -> (r: bool)
    ensures
        r == (member(data@, "state"@) == Some(JsonV::Null)),
{
    match data.get("state") {
        Some(Json::Null) => true,
        _ => false,
    }
}

/// The first bytes of a device id, at most four.
pub open spec fn leading_bytes(device_id: Seq<char>) -> Seq<char> {
    let bytes = encode_utf8(device_id);
    decode_utf8(
        bytes.subrange(
            0,
            if bytes.len() < 4 {
                bytes.len() as int
            } else {
                4
            },
        ),
    )
}

/// Whether a device id can be cut after its first four bytes.
pub open spec fn has_leading_bytes(device_id: Seq<char>) -> bool {
    let bytes = encode_utf8(device_id);
    bytes.len() < 4 || is_char_boundary(bytes, 4)
}

/// Whether a device id can be cut after its first four bytes.
pub fn can_be_shortened(device_id: &str) -> (r: bool)
    ensures
        r == has_leading_bytes(device_id@),
{
    device_id.as_bytes().len() < 4 || device_id.is_char_boundary(4)
}

/// The short id that a state names for its device, before it is put in capitals: the start of the
/// device id where it names none.
pub open spec fn named_short_id(data: JsonV, device_id: Seq<char>) -> Seq<char> {
    match member(data, "state"@) {
        Some(state) => match member_text(state, "short_id"@) {
            Some(s) => s,
            None => leading_bytes(device_id),
        },
        None => leading_bytes(device_id),
    }
}

/// The short id of the device that a state comes from.
pub fn state_short_id(data: &Json, device_id: &str) -> (r: String)
    requires
        has_leading_bytes(device_id@),
    ensures
        r@ == uppercase(named_short_id(data@, device_id@)),
{
    let named: Option<&str> = match data.get("state") {
        Some(state) => state.get_text("short_id"),
        None => None,
    };
    match named {
        Some(s) => to_uppercase(s),
        None => {
            let n: usize = device_id.as_bytes().len();
            let cut: usize = if n < 4 {
                n
            } else {
                4
            };
            proof {
                vstd::utf8::encode_utf8_valid_utf8(device_id@);
                vstd::utf8::is_char_boundary_start_end_of_seq(encode_utf8(device_id@));
            }
            let head: &str = device_id.split_at(cut).0;
            proof {
                vstd::utf8::encode_utf8_decode_utf8(head@);
            }
            to_uppercase(head)
        },
    }
}

/// What a device that sends a state is met with.
pub struct GreetingV {
    pub device_id: Seq<char>,
    pub short_id: Seq<char>,
    pub prefix: Seq<char>,
    pub returning: bool,
    pub action: Seq<char>,
    pub capabilities: Option<Seq<char>>,
    pub now: Seq<char>,
}

/// What a device that sends a state is met with: its ids, the start of its id as it is shown,
/// whether it has been away for long, the action that logs its arrival, what it can do as it is
/// kept, and the time.
pub struct Greeting<'a> {
    pub device_id: &'a str,
    pub short_id: &'a str,
    pub prefix: &'a str,
    pub returning: bool,
    pub action: &'a str,
    pub capabilities: Option<&'a str>,
    pub now: &'a str,
}

impl<'a> View for Greeting<'a> {
    type V = GreetingV;

    open spec fn view(&self) -> GreetingV {
        GreetingV {
            device_id: self.device_id@,
            short_id: self.short_id@,
            prefix: self.prefix@,
            returning: self.returning,
            action: self.action@,
            capabilities: opt_str(self.capabilities),
            now: self.now@,
        }
    }
}

/// Whether the short id of a device is taken by another one.
pub open spec fn short_id_taken(db: DbV, g: GreetingV) -> bool {
    db.kv_value("relay_short_"@ + g.short_id) matches Some(d) && d != g.device_id
}

/// The store after a device has arrived, where its short id is not taken.
pub open spec fn arrived(db: DbV, g: GreetingV) -> DbV {
    let d = match db.kv_value("relay_short_"@ + g.short_id) {
        Some(_) => if g.returning {
            device_event_logged(
                db,
                g.action,
                g.short_id,
                g.prefix,
                "device "@ + g.short_id + " reconnected"@,
                true,
                g.now,
            )
        } else {
            db
        },
        None => device_event_logged(
            kv_put(db, "relay_short_"@ + g.short_id, Some(g.device_id)),
            g.action,
            g.short_id,
            g.prefix,
            "new device "@ + g.short_id + " joined the relay"@,
            false,
            g.now,
        ),
    };
    kv_put(
        kv_put(d, "relay_uuid_short_"@ + g.device_id, Some(g.short_id)),
        "relay_caps_"@ + g.device_id,
        Some(
            match g.capabilities {
                Some(s) => s,
                None => "null"@,
            },
        ),
    )
}

/// The store after a device has started over: what was imported from it is forgotten.
pub open spec fn device_reset(db: DbV, device_id: Seq<char>, stamp: Seq<char>) -> Option<DbV> {
    match cleaned(db, device_id) {
        Err(_) => None,
        Ok(d) => Some(
            kv_put(
                kv_put(
                    without_device(d, device_id),
                    "relay_reset_"@ + device_id,
                    Some(stamp),
                ),
                cursor_key(device_id),
                Some("0"@),
            ),
        ),
    }
}

/// Whether an event logs that this device was reset.
pub open spec fn is_local_reset(e: EventV) -> bool {
    e.kind == "life"@ && e.instance == "_device"@ && column(member(e.data, "action"@))
        == ColumnV::Text("reset"@) && match member(e.data, "_relay"@) {
        None => true,
        Some(JsonV::Null) => true,
        _ => false,
    }
}

/// The time of the last reset of this device among the first `n` events, as it was logged.
pub open spec fn last_reset(events: Seq<EventV>, n: int) -> Option<Seq<char>>
    decreases n,
{
    if n <= 0 {
        None
    } else if is_local_reset(events[n - 1]) {
        Some(events[n - 1].timestamp)
    } else {
        last_reset(events, n - 1)
    }
}

/// The seconds since the epoch of the last reset of this device that is on the log; nothing where
/// there is none, or where its time cannot be read.
pub open spec fn logged_reset(db: DbV) -> Option<int> {
    match last_reset(db.events, db.events.len() as int) {
        None => None,
        Some(s) => if instant_seconds(s) > 0 {
            Some(instant_seconds(s))
        } else {
            None
        },
    }
}

/// An instance in the state of another device, with what was read from its numbers: the order key
/// of its status time, the status time in whole seconds, and the time of its last stop as a text.
#[derive(Debug)]
pub struct RemoteEntry {
    pub name: String,
    pub body: Json,
    pub status_key: i64,
    pub status_time: i64,
    pub last_stop: String,
}

/// The view of a [`RemoteEntry`].
pub struct EntryV {
    pub name: Seq<char>,
    pub body: JsonV,
    pub status_key: int,
    pub status_time: int,
    pub last_stop: Seq<char>,
}

impl View for RemoteEntry {
    type V = EntryV;

    open spec fn view(&self) -> EntryV {
        EntryV {
            name: self.name@,
            body: self.body@,
            status_key: self.status_key as int,
            status_time: self.status_time as int,
            last_stop: self.last_stop@,
        }
    }
}

/// An instance of another device as it is kept here.
#[derive(Debug)]
pub struct RemoteInstance {
    pub name: String,
    pub status: String,
    pub context: String,
    pub detail: String,
    pub status_time: i64,
    pub parent: Option<String>,
    pub directory: Option<String>,
    pub transcript: Option<String>,
    pub wait_timeout: i64,
    pub last_stop: String,
    pub tcp_mode: bool,
    pub tag: Option<String>,
    pub tool: String,
    pub background: bool,
    pub endpoint_epoch: String,
}

/// The view of a [`RemoteInstance`].
pub struct RemoteInstanceV {
    pub name: Seq<char>,
    pub status: Seq<char>,
    pub context: Seq<char>,
    pub detail: Seq<char>,
    pub status_time: int,
    pub parent: Option<Seq<char>>,
    pub directory: Option<Seq<char>>,
    pub transcript: Option<Seq<char>>,
    pub wait_timeout: int,
    pub last_stop: Seq<char>,
    pub tcp_mode: bool,
    pub tag: Option<Seq<char>>,
    pub tool: Seq<char>,
    pub background: bool,
    pub endpoint_epoch: Seq<char>,
}

impl View for RemoteInstance {
    type V = RemoteInstanceV;

    open spec fn view(&self) -> RemoteInstanceV {
        RemoteInstanceV {
            name: self.name@,
            status: self.status@,
            context: self.context@,
            detail: self.detail@,
            status_time: self.status_time as int,
            parent: opt_text(self.parent),
            directory: opt_text(self.directory),
            transcript: opt_text(self.transcript),
            wait_timeout: self.wait_timeout as int,
            last_stop: self.last_stop@,
            tcp_mode: self.tcp_mode,
            tag: opt_text(self.tag),
            tool: self.tool@,
            background: self.background,
            endpoint_epoch: self.endpoint_epoch@,
        }
    }
}

/// The text under a key, or a default.
pub open spec fn text_or(data: JsonV, key: Seq<char>, default: Seq<char>) -> Seq<char> {
    match member_text(data, key) {
        Some(s) => s,
        None => default,
    }
}

/// An instance of another device as it is kept here: under a name with the suffix of the device,
/// and without what identifies a session.
pub open spec fn remote_instance(
    e: EntryV,
    short_id: Seq<char>,
    default_tool: Seq<char>,
) -> RemoteInstanceV {
    RemoteInstanceV {
        name: suffixed(e.name, short_id),
        status: text_or(e.body, "status"@, "unknown"@),
        context: text_or(e.body, "context"@, ""@),
        detail: text_or(e.body, "detail"@, ""@),
        status_time: e.status_time,
        parent: match member_text(e.body, "parent"@) {
            Some(p) => Some(suffixed(p, short_id)),
            None => None,
        },
        directory: member_text(e.body, "directory"@),
        transcript: member_text(e.body, "transcript"@),
        wait_timeout: match member_int(e.body, "wait_timeout"@) {
            Some(n) => n,
            None => 86400,
        },
        last_stop: e.last_stop,
        tcp_mode: member_bool(e.body, "tcp_mode"@) == Some(true),
        tag: member_text(e.body, "tag"@),
        tool: text_or(e.body, "tool"@, default_tool),
        background: member_bool(e.body, "background"@) == Some(true),
        endpoint_epoch: text_or(e.body, "endpoint_epoch"@, ""@),
    }
}

/// Whether an entry is older than the last reset of this device.
pub open spec fn entry_outdated(e: EntryV, reset: ResetMark) -> bool {
    reset.key > 0 && e.status_key < reset.key
}

/// The instances that the first `n` entries bring, as they are kept here.
pub open spec fn brought(
    entries: Seq<EntryV>,
    short_id: Seq<char>,
    default_tool: Seq<char>,
    reset: ResetMark,
    n: int,
) -> Seq<RemoteInstanceV>
    decreases n,
{
    if n <= 0 {
        Seq::empty()
    } else {
        let s = brought(entries, short_id, default_tool, reset, n - 1);
        if entry_outdated(entries[n - 1], reset) {
            s
        } else {
            s.push(remote_instance(entries[n - 1], short_id, default_tool))
        }
    }
}

/// The store with an instance of a device put in. One that is there keeps its origin and its
/// cursor.
pub open spec fn instance_put(db: DbV, device_id: Seq<char>, r: RemoteInstanceV) -> DbV {
    match db.instance_pos(r.name) {
        Some(i) => DbV {
            instances: db.instances.update(
                i,
                InstanceV { endpoint_epoch: r.endpoint_epoch, ..db.instances[i] },
            ),
            ..db
        },
        None => DbV {
            instances: db.instances.push(
                InstanceV {
                    name: r.name,
                    endpoint_epoch: r.endpoint_epoch,
                    last_event_id: 0,
                    origin_device_id: Some(device_id),
                },
            ),
            ..db
        },
    }
}

/// The store with the first `n` instances of a device put in.
pub open spec fn instances_put(db: DbV, device_id: Seq<char>, rs: Seq<RemoteInstanceV>, n: int) -> DbV
    decreases n,
{
    if n <= 0 {
        db
    } else {
        instance_put(instances_put(db, device_id, rs, n - 1), device_id, rs[n - 1])
    }
}

/// Whether one of the instances has the name.
pub open spec fn names_one(rs: Seq<RemoteInstanceV>, name: Seq<char>) -> bool {
    exists|i: int| 0 <= i < rs.len() && (#[trigger] rs[i]).name == name
}

/// The store without the instances of a device that its state no longer brings.
pub open spec fn stale_removed(db: DbV, device_id: Seq<char>, rs: Seq<RemoteInstanceV>) -> DbV {
    DbV {
        instances: db.instances.filter(
            |i: InstanceV| i.origin_device_id != Some(device_id) || names_one(rs, i.name),
        ),
        ..db
    }
}

/// The store after the instances in the state of a device are taken over.
pub open spec fn instances_taken_over(
    db: DbV,
    device_id: Seq<char>,
    rs: Seq<RemoteInstanceV>,
) -> DbV {
    stale_removed(instances_put(db, device_id, rs, rs.len() as int), device_id, rs)
}

/// The number of different devices that the first `n` instances live on.
pub open spec fn device_count(rows: Seq<InstanceV>, n: int) -> int
    decreases n,
{
    if n <= 0 {
        0
    } else {
        let before = device_count(rows, n - 1);
        let origin = rows[n - 1].origin_device_id;
        if origin is None || origin->0.len() == 0 || exists|i: int|
            0 <= i < n - 1 && (#[trigger] rows[i]).origin_device_id == origin {
            before
        } else {
            before + 1
        }
    }
}

/// The store after the events in the state of a device are imported, and the time of the state is
/// kept.
pub open spec fn state_finished(
    db: DbV,
    route: RouteV,
    events: Seq<RemoteEventV>,
    reset: ResetMark,
    now: Seq<char>,
    ts: int,
) -> DbV {
    let d1 = events_imported(db, route, events, reset);
    let d2 = kv_put(d1, "relay_sync_time_"@ + route.device_id, Some(now));
    let d3 = kv_put(
        d2,
        "relay_device_count"@,
        Some(decimal(device_count(d2.instances, d2.instances.len() as int))),
    );
    let d4 = kv_put(d3, "relay_last_sync"@, Some(now));
    watermark_recorded(d4, route.device_id, ts)
}

fn read_text_or(data: &Json, key: &str, default: &str) -> (r: String)
    ensures
        r@ == text_or(data@, key@, default@),
{
    match data.get_text(key) {
        Some(s) => s.to_owned(),
        None => default.to_owned(),
    }
}

fn read_flag(data: &Json, key: &str) -> (r: bool)
    ensures
        r == (member_bool(data@, key@) == Some(true)),
{
    match data.get_bool(key) {
        Some(b) => b,
        None => false,
    }
}

/// An instance of another device as it is kept here.
pub fn read_remote_instance(e: &RemoteEntry, short_id: &str, default_tool: &str) -> (r:
    RemoteInstance)
    ensures
        r@ == remote_instance(e@, short_id@, default_tool@),
{
    RemoteInstance {
        name: add_device_suffix(e.name.as_str(), short_id),
        status: read_text_or(&e.body, "status", "unknown"),
        context: read_text_or(&e.body, "context", ""),
        detail: read_text_or(&e.body, "detail", ""),
        status_time: e.status_time,
        parent: match e.body.get_text("parent") {
            Some(p) => Some(add_device_suffix(p, short_id)),
            None => None,
        },
        directory: own_opt(e.body.get_text("directory")),
        transcript: own_opt(e.body.get_text("transcript")),
        wait_timeout: match e.body.get_int("wait_timeout") {
            Some(n) => n,
            None => 86400,
        },
        last_stop: e.last_stop.clone(),
        tcp_mode: read_flag(&e.body, "tcp_mode"),
        tag: own_opt(e.body.get_text("tag")),
        tool: read_text_or(&e.body, "tool", default_tool),
        background: read_flag(&e.body, "background"),
        endpoint_epoch: read_text_or(&e.body, "endpoint_epoch", ""),
    }
}

/// The instances that the state of a device brings, as they are kept here. Those that are older
/// than the last reset of this device are left out.
pub fn remote_instances(
    entries: &Vec<RemoteEntry>,
    short_id: &str,
    default_tool: &str,
    reset: &ResetMark,
) -> (r: Vec<RemoteInstance>)
    ensures
        views(r@) == brought(
            views(entries@),
            short_id@,
            default_tool@,
            *reset,
            entries@.len() as int,
        ),
{
    let mut out: Vec<RemoteInstance> = Vec::new();
    assert(views(out@) =~= Seq::<RemoteInstanceV>::empty());
    let mut n: usize = 0;
    while n < entries.len()
        invariant
            n <= entries@.len(),
            views(out@) == brought(views(entries@), short_id@, default_tool@, *reset, n as int),
        decreases entries.len() - n,
    {
        let e: &RemoteEntry = &entries[n];
        assert(views(entries@)[n as int] == e@);
        if !(reset.key > 0 && e.status_key < reset.key) {
            let r: RemoteInstance = read_remote_instance(e, short_id, default_tool);
            proof {
                lemma_views_push(out@, r);
            }
            out.push(r);
        }
        n += 1;
    }
    out
}

fn has_name(rs: &Vec<RemoteInstance>, name: &str) -> (r: bool)
    ensures
        r == names_one(views(rs@), name@),
{
    let mut i: usize = 0;
    while i < rs.len()
        invariant
            i <= rs@.len(),
            forall|k: int| 0 <= k < i ==> (#[trigger] views(rs@)[k]).name != name@,
        decreases rs.len() - i,
    {
        if same(rs[i].name.as_str(), name) {
            assert(views(rs@)[i as int].name == name@);
            return true;
        }
        i += 1;
    }
    false
}

impl HcomDb {
    /// Meets a device that sends a state. Returns false, and changes nothing, where its short id is
    /// taken by another device.
    pub fn greet_device(&mut self, g: &Greeting<'_>) -> (r: bool)
        ensures
            r == !short_id_taken(old(self)@, g@),
            final(self)@ == (if r {
                arrived(old(self)@, g@)
            } else {
                old(self)@
            }),
    {
        let key: String = cat("relay_short_", g.short_id);
        let known: bool = match self.kv_get(key.as_str()) {
            Some(d) => {
                if !same(d, g.device_id) {
                    return false;
                }
                true
            },
            None => false,
        };
        if known {
            if g.returning {
                let text: String = cat3("device ", g.short_id, " reconnected");
                self.emit_device_event(g.action, g.short_id, g.prefix, text.as_str(), true, g.now);
            }
        } else {
            self.kv_set(key.as_str(), Some(g.device_id));
            let text: String = cat3("new device ", g.short_id, " joined the relay");
            self.emit_device_event(g.action, g.short_id, g.prefix, text.as_str(), false, g.now);
        }
        let remembered: String = cat("relay_uuid_short_", g.device_id);
        self.kv_set(remembered.as_str(), Some(g.short_id));
        let caps: String = cat("relay_caps_", g.device_id);
        let value: &str = match g.capabilities {
            Some(s) => s,
            None => "null",
        };
        self.kv_set(caps.as_str(), Some(value));
        true
    }

    /// Forgets what was imported from a device that has started over. Returns false, and changes
    /// nothing, where that fails.
    pub fn reset_device(&mut self, device_id: &str, stamp: &str) -> (r: bool)
        ensures
            match device_reset(old(self)@, device_id@, stamp@) {
                Some(d) => r && final(self)@ == d,
                None => !r && final(self)@ == old(self)@,
            },
    {
        if self.cleanup_imported_events_for_device(device_id).is_err() {
            return false;
        }
        self.remove_device_instances(device_id);
        let reset: String = cat("relay_reset_", device_id);
        self.kv_set(reset.as_str(), Some(stamp));
        let cursor: String = cat("relay_events_", device_id);
        self.kv_set(cursor.as_str(), Some("0"));
        true
    }

    /// The seconds since the epoch of the last reset of this device that is on the log.
    pub fn last_logged_reset(&self) -> (r: Option<i64>)
        ensures
            opt_id(r) == logged_reset(self@),
    {
        let mut n: usize = self.events.len();
        while n > 0
            invariant
                n <= self.events@.len(),
                last_reset(self@.events, self@.events.len() as int) == last_reset(
                    self@.events,
                    n as int,
                ),
            decreases n,
        {
            let e: &Event = &self.events[n - 1];
            assert(e@ == self@.events[n - 1]);
            let action: bool = match read_column(e.data.get("action")) {
                Column::Text(s) => same(s.as_str(), "reset"),
                _ => false,
            };
            let local: bool = match e.data.get("_relay") {
                None => true,
                Some(Json::Null) => true,
                _ => false,
            };
            if same(e.kind.as_str(), "life") && same(e.instance.as_str(), "_device") && action
                && local {
                let t: i64 = parse_instant(e.timestamp.as_str());
                return if t > 0 {
                    Some(t)
                } else {
                    None
                };
            }
            n = n - 1;
        }
        None
    }

    fn put_instance(&mut self, device_id: &str, r: &RemoteInstance)
        ensures
            final(self)@ == instance_put(old(self)@, device_id@, r@),
    {
        match self.find_instance(r.name.as_str()) {
            Some(i) => {
                let mut row: Instance = self.instances[i].duplicate();
                row.endpoint_epoch = r.endpoint_epoch.clone();
                proof {
                    lemma_views_update(self.instances@, i as int, row);
                }
                self.instances.set(i, row);
            },
            None => {
                let row: Instance = Instance {
                    name: r.name.clone(),
                    endpoint_epoch: r.endpoint_epoch.clone(),
                    last_event_id: 0,
                    origin_device_id: Some(device_id.to_owned()),
                };
                proof {
                    lemma_views_push(self.instances@, row);
                }
                self.instances.push(row);
            },
        }
    }

    /// Takes over the instances that the state of a device brings, and removes those of the device
    /// that it no longer brings.
    pub fn take_over_instances(&mut self, device_id: &str, rs: &Vec<RemoteInstance>)
        ensures
            final(self)@ == instances_taken_over(old(self)@, device_id@, views(rs@)),
    {
        let ghost start = self@;
        let mut n: usize = 0;
        while n < rs.len()
            invariant
                n <= rs@.len(),
                self@ == instances_put(start, device_id@, views(rs@), n as int),
            decreases rs.len() - n,
        {
            assert(views(rs@)[n as int] == rs@[n as int]@);
            self.put_instance(device_id, &rs[n]);
            n += 1;
        }
        let ghost put = self@;
        let ghost keep = |i: InstanceV|
            i.origin_device_id != Some(device_id@) || names_one(views(rs@), i.name);
        let ghost rows = self@.instances;
        let mut out: Vec<Instance> = Vec::new();
        let mut i: usize = 0;
        proof {
            reveal(Seq::filter);
            assert(rows.take(0) =~= Seq::<InstanceV>::empty());
            assert(views(out@) =~= rows.take(0).filter(keep));
        }
        while i < self.instances.len()
            invariant
                i <= self.instances@.len(),
                rows == self@.instances,
                self@ == put,
                keep == (|i: InstanceV|
                    i.origin_device_id != Some(device_id@) || names_one(views(rs@), i.name)),
                views(out@) == rows.take(i as int).filter(keep),
            decreases self.instances.len() - i,
        {
            proof {
                reveal(Seq::filter);
                assert(rows.take(i as int + 1).drop_last() =~= rows.take(i as int));
                assert(rows.take(i as int + 1).last() == self.instances@[i as int]@);
            }
            let kept: bool = !same_opt(
                as_opt_str(&self.instances[i].origin_device_id),
                device_id,
            ) || has_name(rs, self.instances[i].name.as_str());
            if kept {
                let row: Instance = self.instances[i].duplicate();
                proof {
                    lemma_views_push(out@, row);
                }
                out.push(row);
            }
            i += 1;
        }
        assert(rows.take(rows.len() as int) =~= rows);
        self.instances = out;
    }

    fn count_devices(&self) -> (r: u64)
        ensures
            r == device_count(self@.instances, self@.instances.len() as int),
    {
        let ghost rows = self@.instances;
        let mut count: u64 = 0;
        let mut n: usize = 0;
        while n < self.instances.len()
            invariant
                n <= self.instances@.len(),
                rows == self@.instances,
                count <= n,
                count == device_count(rows, n as int),
            decreases self.instances.len() - n,
        {
            let mut seen: bool = false;
            let mut i: usize = 0;
            if let Some(origin) = &self.instances[n].origin_device_id {
                while i < n
                    invariant
                        i <= n < self.instances@.len(),
                        rows == self@.instances,
                        rows[n as int].origin_device_id == Some(origin@),
                        seen == exists|k: int|
                            0 <= k < i && (#[trigger] rows[k]).origin_device_id
                                == rows[n as int].origin_device_id,
                    decreases n - i,
                {
                    if same_opt(as_opt_str(&self.instances[i].origin_device_id), origin.as_str()) {
                        assert(rows[i as int].origin_device_id == rows[n as int].origin_device_id);
                        seen = true;
                    }
                    i += 1;
                }
                if origin.as_str().unicode_len() > 0 && !seen {
                    count = count + 1;
                }
            }
            n += 1;
        }
        count
    }

    /// Imports the events in the state of a device, and keeps when and with what time it came.
    pub fn finish_state(
        &mut self,
        route: &Route<'_>,
        events: &Vec<RemoteEvent>,
        reset: &ResetMark,
        now: &str,
        ts_secs: u64,
    )
        ensures
            final(self)@ == state_finished(
                old(self)@,
                route@,
                views(events@),
                *reset,
                now@,
                ts_secs as int,
            ),
    {
        self.import_remote_events(route, events, reset);
        let sync: String = cat("relay_sync_time_", route.device_id);
        self.kv_set(sync.as_str(), Some(now));
        let count: String = decimal_text_u64(self.count_devices());
        self.kv_set("relay_device_count", Some(count.as_str()));
        self.kv_set("relay_last_sync", Some(now));
        self.record_state_ts_watermark(route.device_id, ts_secs);
    }
}

/// The state of a device as it arrives: whom it comes from, when the device says it was last
/// reset and when it is known to have been, when this device was last reset, the tool of an instance
/// that names none, and the instances.
pub struct StateSnapshotV {
    pub greeting: GreetingV,
    pub reset_key: int,
    pub reset_stamp: Seq<char>,
    pub known_reset_key: int,
    pub local_reset: ResetMark,
    pub local_reset_found: Option<Seq<char>>,
    pub default_tool: Seq<char>,
    pub entries: Seq<EntryV>,
}

/// The state of a device as it arrives. Times are given by order keys; `reset_stamp` is the reset
/// time as it is kept, and `local_reset_found` the reset time of this device, where it was found on
/// the log and is to be kept at hand. `default_tool` is the tool of an instance that names none.
pub struct StateSnapshot<'a> {
    pub greeting: Greeting<'a>,
    pub reset_key: i64,
    pub reset_stamp: &'a str,
    pub known_reset_key: i64,
    pub local_reset: ResetMark,
    pub local_reset_found: Option<&'a str>,
    pub default_tool: &'a str,
    pub entries: &'a Vec<RemoteEntry>,
}

impl<'a> View for StateSnapshot<'a> {
    type V = StateSnapshotV;

    open spec fn view(&self) -> StateSnapshotV {
        StateSnapshotV {
            greeting: self.greeting@,
            reset_key: self.reset_key as int,
            reset_stamp: self.reset_stamp@,
            known_reset_key: self.known_reset_key as int,
            local_reset: self.local_reset,
            local_reset_found: opt_str(self.local_reset_found),
            default_tool: self.default_tool@,
            entries: views(self.entries@),
        }
    }
}

/// The store after the state of a device is applied up to its instances, and the instances it
/// brings; nothing of them where the state is dropped: where the short id is taken, or where
/// forgetting a device that has started over fails.
pub open spec fn snapshot_applied(db: DbV, s: StateSnapshotV) -> (DbV, Option<Seq<RemoteInstanceV>>) {
    let device_id = s.greeting.device_id;
    if short_id_taken(db, s.greeting) {
        (db, None)
    } else {
        let met = arrived(db, s.greeting);
        let cleared = if s.reset_key > s.known_reset_key {
            device_reset(met, device_id, s.reset_stamp)
        } else {
            Some(met)
        };
        match cleared {
            None => (met, None),
            Some(d) => {
                let marked = match s.local_reset_found {
                    Some(t) => kv_put(d, "relay_local_reset_ts"@, Some(t)),
                    None => d,
                };
                let rs = brought(
                    s.entries,
                    s.greeting.short_id,
                    s.default_tool,
                    s.local_reset,
                    s.entries.len() as int,
                );
                (instances_taken_over(marked, device_id, rs), Some(rs))
            },
        }
    }
}

impl HcomDb {
    /// Applies the state of a device up to its instances, and returns the instances it brings;
    /// nothing where the state is dropped.
    pub fn apply_state_snapshot(&mut self, s: &StateSnapshot<'_>) -> (r: Option<Vec<RemoteInstance>>)
        ensures
            final(self)@ == snapshot_applied(old(self)@, s@).0,
            (match r {
                Some(v) => Some(views(v@)),
                None => None,
            }) == snapshot_applied(old(self)@, s@).1,
    {
        if !self.greet_device(&s.greeting) {
            return None;
        }
        if s.reset_key > s.known_reset_key {
            if !self.reset_device(s.greeting.device_id, s.reset_stamp) {
                return None;
            }
        }
        if let Some(t) = s.local_reset_found {
            self.kv_set("relay_local_reset_ts", Some(t));
        }
        let rs: Vec<RemoteInstance> = remote_instances(
            s.entries,
            s.greeting.short_id,
            s.default_tool,
            &s.local_reset,
        );
        self.take_over_instances(s.greeting.device_id, &rs);
        Some(rs)
    }
}

/// What was read from the numbers of an instance in the state of another device: the order key of
/// its status time, the status time in whole seconds, and the time of its last stop as a text.
#[derive(Debug)]
pub struct EntryNumbers {
    pub status_key: i64,
    pub status_time: i64,
    pub last_stop: String,
}

/// The view of an [`EntryNumbers`].
pub struct EntryNumbersV {
    pub status_key: int,
    pub status_time: int,
    pub last_stop: Seq<char>,
}

impl View for EntryNumbers {
    type V = EntryNumbersV;

    open spec fn view(&self) -> EntryNumbersV {
        EntryNumbersV {
            status_key: self.status_key as int,
            status_time: self.status_time as int,
            last_stop: self.last_stop@,
        }
    }
}

/// The state in a message; an empty one where there is none.
pub open spec fn state_in(data: JsonV) -> JsonV {
    match member(data, "state"@) {
        Some(j) => j,
        None => JsonV::Object(Seq::empty()),
    }
}

/// The instances in the state of a message.
pub open spec fn instances_in(data: JsonV) -> Seq<MemberV> {
    match member(state_in(data), "instances"@) {
        Some(JsonV::Object(ms)) => ms,
        _ => Seq::empty(),
    }
}

/// The instances, each with what was read from its numbers.
pub open spec fn entries_of(ms: Seq<MemberV>, numbers: Seq<EntryNumbersV>) -> Seq<EntryV> {
    Seq::new(
        ms.len(),
        |i: int|
            EntryV {
                name: ms[i].key,
                body: ms[i].value,
                status_key: numbers[i].status_key,
                status_time: numbers[i].status_time,
                last_stop: numbers[i].last_stop,
            },
    )
}

/// How many instances the state of a message holds.
pub fn count_instances(data: &Json) -> (r: usize)
    ensures
        r == instances_in(data@).len(),
{
    match data.get("state") {
        Some(state) => match state.get("instances") {
            Some(Json::Object(ms)) => {
                proof {
                    lemma_object(*ms);
                }
                ms.len()
            },
            _ => 0,
        },
        None => 0,
    }
}

fn read_entries(data: &Json, numbers: &Vec<EntryNumbers>) -> (r: Vec<RemoteEntry>)
    requires
        numbers@.len() == instances_in(data@).len(),
    ensures
        views(r@) == entries_of(instances_in(data@), views(numbers@)),
{
    let mut out: Vec<RemoteEntry> = Vec::new();
    assert(views(out@) =~= Seq::<EntryV>::empty());
    if let Some(state) = data.get("state") {
        if let Some(Json::Object(ms)) = state.get("instances") {
            proof {
                lemma_object(*ms);
            }
            let ghost all = entries_of(object_view(ms@), views(numbers@));
            assert(object_view(ms@) == instances_in(data@));
            assert(views(out@) =~= all.take(0));
            let mut i: usize = 0;
            while i < ms.len()
                invariant
                    i <= ms@.len(),
                    ms@.len() == numbers@.len(),
                    all == entries_of(object_view(ms@), views(numbers@)),
                    object_view(ms@).len() == ms@.len(),
                    views(out@) == all.take(i as int),
                decreases ms.len() - i,
            {
                let e: RemoteEntry = RemoteEntry {
                    name: ms[i].key.clone(),
                    body: ms[i].value.duplicate(),
                    status_key: numbers[i].status_key,
                    status_time: numbers[i].status_time,
                    last_stop: numbers[i].last_stop.clone(),
                };
                proof {
                    lemma_object(*ms);
                    lemma_views_push(out@, e);
                    assert(views(numbers@)[i as int] == numbers@[i as int]@);
                    assert(all.take(i + 1) =~= all.take(i as int).push(all[i as int]));
                    assert(e@ == all[i as int]);
                }
                out.push(e);
                i += 1;
            }
            assert(all.take(ms@.len() as int) =~= all);
            return out;
        }
    }
    assert(views(out@) =~= entries_of(instances_in(data@), views(numbers@)));
    out
}

/// A message with the state of a device, as it was opened.
pub struct StateMessageV {
    pub device_id: Seq<char>,
    pub data: JsonV,
    pub numbers: Seq<EntryNumbersV>,
    pub prefix: Seq<char>,
    pub returning: bool,
    pub join_action: Seq<char>,
    pub leave_action: Seq<char>,
    pub reset_key: int,
    pub reset_stamp: Seq<char>,
    pub known_reset_key: int,
    pub local_reset: ResetMark,
    pub local_reset_found: Option<Seq<char>>,
    pub default_tool: Seq<char>,
    pub now: Seq<char>,
}

/// A message with the state of a device, as it was opened: whom it comes from, what it holds, and
/// what was read from the numbers of its instances; the start of the device id as it is shown,
/// whether the device has been away for long, and the actions that log its arrival and its leaving;
/// and what a [`StateSnapshot`] says of resets and of the tool.
pub struct StateMessage<'a> {
    pub device_id: &'a str,
    pub data: &'a Json,
    pub numbers: &'a Vec<EntryNumbers>,
    pub prefix: &'a str,
    pub returning: bool,
    pub join_action: &'a str,
    pub leave_action: &'a str,
    pub reset_key: i64,
    pub reset_stamp: &'a str,
    pub known_reset_key: i64,
    pub local_reset: ResetMark,
    pub local_reset_found: Option<&'a str>,
    pub default_tool: &'a str,
    pub now: &'a str,
}

impl<'a> View for StateMessage<'a> {
    type V = StateMessageV;

    open spec fn view(&self) -> StateMessageV {
        StateMessageV {
            device_id: self.device_id@,
            data: self.data@,
            numbers: views(self.numbers@),
            prefix: self.prefix@,
            returning: self.returning,
            join_action: self.join_action@,
            leave_action: self.leave_action@,
            reset_key: self.reset_key as int,
            reset_stamp: self.reset_stamp@,
            known_reset_key: self.known_reset_key as int,
            local_reset: self.local_reset,
            local_reset_found: opt_str(self.local_reset_found),
            default_tool: self.default_tool@,
            now: self.now@,
        }
    }
}

/// What becomes of a message with a state.
pub enum StateStepV {
    Gone,
    Dropped,
    Applied { short_id: Seq<char>, instances: Seq<RemoteInstanceV> },
}

/// What becomes of a message with a state.
#[derive(Debug)]
pub enum StateStep {
    /// The device has left.
    Gone,
    /// The state is dropped.
    Dropped,
    /// The instances are taken over, and the events of the message are next.
    Applied { short_id: String, instances: Vec<RemoteInstance> },
}

impl View for StateStep {
    type V = StateStepV;

    open spec fn view(&self) -> StateStepV {
        match self {
            StateStep::Gone => StateStepV::Gone,
            StateStep::Dropped => StateStepV::Dropped,
            StateStep::Applied { short_id, instances } => StateStepV::Applied {
                short_id: short_id@,
                instances: views(instances@),
            },
        }
    }
}

/// What the state of a message says that its device can do: the list as JSON.
pub open spec fn said_capabilities(data: JsonV) -> Option<Seq<char>> {
    match member(state_in(data), "capabilities"@) {
        Some(JsonV::Array(vs)) => Some(json_text(JsonV::Array(vs))),
        _ => None,
    }
}

fn written_capabilities(data: &Json) -> (r: Option<String>)
    ensures
        opt_text(r) == said_capabilities(data@),
{
    match data.get("state") {
        Some(state) => match state.get("capabilities") {
            Some(list) => match list {
                Json::Array(_) => Some(write_json(list)),
                _ => None,
            },
            None => None,
        },
        None => None,
    }
}

/// The state that a message holds, under the short id of its device.
pub open spec fn snapshot_in(m: StateMessageV, short_id: Seq<char>) -> StateSnapshotV {
    StateSnapshotV {
        greeting: GreetingV {
            device_id: m.device_id,
            short_id,
            prefix: m.prefix,
            returning: m.returning,
            action: m.join_action,
            capabilities: said_capabilities(m.data),
            now: m.now,
        },
        reset_key: m.reset_key,
        reset_stamp: m.reset_stamp,
        known_reset_key: m.known_reset_key,
        local_reset: m.local_reset,
        local_reset_found: m.local_reset_found,
        default_tool: m.default_tool,
        entries: entries_of(instances_in(m.data), m.numbers),
    }
}

/// The store after a message with a state is handled up to its events, and what becomes of it.
pub open spec fn state_handled(db: DbV, m: StateMessageV) -> (DbV, StateStepV) {
    if member(m.data, "state"@) == Some(JsonV::Null) {
        (device_gone(db, m.device_id, m.prefix, m.leave_action, m.now), StateStepV::Gone)
    } else {
        let short_id = uppercase(named_short_id(m.data, m.device_id));
        match snapshot_applied(db, snapshot_in(m, short_id)) {
            (d, None) => (d, StateStepV::Dropped),
            (d, Some(instances)) => (d, StateStepV::Applied { short_id, instances }),
        }
    }
}

impl HcomDb {
    /// Handles a message with the state of a device up to its events: forgets a device that has
    /// left, and takes over the instances of any other. The events are for
    /// [`HcomDb::finish_state`], after the control events among them are handled.
    pub fn handle_state_message(&mut self, m: &StateMessage<'_>) -> (r: StateStep)
        requires
            member(m.data@, "state"@) != Some(JsonV::Null) ==> has_leading_bytes(m.device_id@),
            member(m.data@, "state"@) != Some(JsonV::Null) ==> m.numbers@.len() == instances_in(
                m.data@,
            ).len(),
        ensures
            (final(self)@, r@) == state_handled(old(self)@, m@),
    {
        if is_farewell(m.data) {
            self.handle_device_gone(m.device_id, m.prefix, m.leave_action, m.now);
            return StateStep::Gone;
        }
        let short_id: String = state_short_id(m.data, m.device_id);
        let capabilities: Option<String> = written_capabilities(m.data);
        let entries: Vec<RemoteEntry> = read_entries(m.data, m.numbers);
        let snapshot: StateSnapshot<'_> = StateSnapshot {
            greeting: Greeting {
                device_id: m.device_id,
                short_id: short_id.as_str(),
                prefix: m.prefix,
                returning: m.returning,
                action: m.join_action,
                capabilities: as_opt_str(&capabilities),
                now: m.now,
            },
            reset_key: m.reset_key,
            reset_stamp: m.reset_stamp,
            known_reset_key: m.known_reset_key,
            local_reset: m.local_reset,
            local_reset_found: m.local_reset_found,
            default_tool: m.default_tool,
            entries: &entries,
        };
        assert(snapshot@ == snapshot_in(m@, short_id@));
        match self.apply_state_snapshot(&snapshot) {
            None => StateStep::Dropped,
            Some(instances) => StateStep::Applied { short_id, instances },
        }
    }
}

} // verus!
