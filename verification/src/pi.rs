//! The hooks that the plugin of the tool `pi` calls, and where the plugin is installed.

use crate::broker::{find_flag, flag_value};
use crate::identity::{parse_uuid, uuid_value};
use crate::json::{
    Json, JsonV, Member, MemberV, lemma_object, member, member_text, object_view, push_member,
};
use crate::names::hex_char;
use crate::paths::{below, under};
use crate::plugin::PLUGIN_SOURCE;
use crate::receipts::{fetched, inbox_acknowledged, unread};
use crate::rows::lemma_views_update;
use crate::search::{first_where, first_where_is_least};
use crate::store::{DbV, EventV, HcomDb, Instance, InstanceV, instance_named, refusal_text};
use crate::text::{
    cat, cat3, copy_opt, copy_texts, holds_text, lemma_texts_push, opt_str, opt_text, parse_i64,
    parse_signed, parse_unsigned, parse_up_to, same, texts,
};
use vstd::prelude::*;
use vstd::utf8::encode_utf8;

verus! {

/// The value behind the first occurrence of a flag.
pub fn parse_flag(argv: &Vec<String>, flag: &str) -> (r: Option<String>)
    ensures
        opt_text(r) == flag_value(texts(argv@), flag@),
{
    match find_flag(argv, flag) {
        Some(i) => {
            if argv.len() - i > 1 {
                Some(argv[i + 1].clone())
            } else {
                None
            }
        },
        None => None,
    }
}

/// Whether a flag is among arguments.
pub fn has_flag(argv: &Vec<String>, flag: &str) -> (r: bool)
    ensures
        r == texts(argv@).contains(flag@),
{
    holds_text(argv, flag)
}

/// The last `n` hexadecimal digits of a number.
pub open spec fn hex_digits(v: int, n: nat) -> Seq<char>
    decreases n,
{
    if n == 0 {
        Seq::empty()
    } else {
        hex_digits(v / 16, (n - 1) as nat).push(hex_char(v % 16))
    }
}

/// The common written form of a UUID: 32 small hexadecimal digits in five groups.
pub open spec fn uuid_text(v: u128) -> Seq<char> {
    let h = hex_digits(v as int, 32);
    h.subrange(0, 8) + "-"@ + h.subrange(8, 12) + "-"@ + h.subrange(12, 16) + "-"@ + h.subrange(
        16,
        20,
    ) + "-"@ + h.subrange(20, 32)
}

/// `uuid::Uuid::from_u128` and the `Display` of `uuid::Uuid`: the common written form of the UUID
/// with that value.
#[verifier::external_body]
fn write_uuid(v: u128) -> (r: String)
    ensures
        r@ == uuid_text(v),
{
    uuid::Uuid::from_u128(v).to_string()
}

/// The epoch with the value that a text was read as, in its common written form; refused where the
/// text was read as none.
pub open spec fn epoch_read(parsed: Option<u128>) -> Result<Option<Seq<char>>, Seq<char>> {
    match parsed {
        None => Err("--endpoint-epoch must be a valid UUID"@),
        Some(v) => Ok(Some(uuid_text(v))),
    }
}

/// The epoch with the value that a text was read as.
pub fn write_epoch(parsed: Option<u128>) -> (r: Result<Option<String>, String>)
    ensures
        match r {
            Ok(o) => epoch_read(parsed) == Ok::<Option<Seq<char>>, Seq<char>>(opt_text(o)),
            Err(e) => epoch_read(parsed) == Err::<Option<Seq<char>>, Seq<char>>(e@),
        },
{
    match parsed {
        None => Err("--endpoint-epoch must be a valid UUID".to_owned()),
        Some(v) => Ok(Some(write_uuid(v))),
    }
}

/// The epoch that arguments give for an endpoint, in its common written form; or why it is refused.
pub open spec fn epoch_given(argv: Seq<Seq<char>>) -> Result<Option<Seq<char>>, Seq<char>> {
    match flag_value(argv, "--endpoint-epoch"@) {
        None => Ok(None),
        Some(raw) => if encode_utf8(raw).len() != 36 {
            Err("--endpoint-epoch must be a 36-character UUID"@)
        } else {
            epoch_read(uuid_value(raw))
        },
    }
}

/// The epoch that arguments give for an endpoint.
pub fn parse_endpoint_epoch(argv: &Vec<String>) -> (r: Result<Option<String>, String>)
    ensures
        match r {
            Ok(o) => epoch_given(texts(argv@)) == Ok::<Option<Seq<char>>, Seq<char>>(opt_text(o)),
            Err(e) => epoch_given(texts(argv@)) == Err::<Option<Seq<char>>, Seq<char>>(e@),
        },
{
    let raw: String = match parse_flag(argv, "--endpoint-epoch") {
        None => {
            return Ok(None);
        },
        Some(s) => s,
    };
    if raw.as_str().as_bytes().len() != 36 {
        return Err("--endpoint-epoch must be a 36-character UUID".to_owned());
    }
    write_epoch(parse_uuid(raw.as_str()))
}

/// What came of a lookup that can fail.
pub open spec fn looked_up(r: Result<Option<String>, String>) -> Result<Option<Seq<char>>, Seq<char>> {
    match r {
        Ok(o) => Ok(opt_text(o)),
        Err(e) => Err(e@),
    }
}

/// What came of resolving a name.
pub open spec fn resolved_name(r: Result<String, String>) -> Result<Seq<char>, Seq<char>> {
    match r {
        Ok(s) => Ok(s@),
        Err(e) => Err(e@),
    }
}

/// Why a name that was asserted is refused for an actor, by what it resolved to.
pub open spec fn assertion_refused(
    asserted: Option<Seq<char>>,
    resolved: Result<Seq<char>, Seq<char>>,
    actor: Seq<char>,
) -> Option<Seq<char>> {
    match asserted {
        None => None,
        Some(name) => match resolved {
            Err(e) => Some(e),
            Ok(s) => if s == actor {
                None
            } else {
                Some(
                    "Explicit --name '"@ + name + "' conflicts with verified Pi actor '"@ + actor
                        + "'"@,
                )
            },
        },
    }
}

/// Tests that a name that was asserted is that of the actor: an assertion never chooses the actor.
pub fn check_asserted_name(argv: &Vec<String>, resolved: &Result<String, String>, actor: &str) -> (r:
    Result<(), String>)
    ensures
        match r {
            Ok(()) => assertion_refused(
                flag_value(texts(argv@), "--name"@),
                resolved_name(*resolved),
                actor@,
            ) is None,
            Err(e) => assertion_refused(
                flag_value(texts(argv@), "--name"@),
                resolved_name(*resolved),
                actor@,
            ) == Some(e@),
        },
{
    match parse_flag(argv, "--name") {
        None => Ok(()),
        Some(name) => match resolved {
            Err(e) => Err(e.clone()),
            Ok(s) => {
                if same(s.as_str(), actor) {
                    return Ok(());
                }
                let mut e: String = cat3(
                    "Explicit --name '",
                    name.as_str(),
                    "' conflicts with verified Pi actor '",
                );
                e.append(actor);
                e.append("'");
                Err(e)
            },
        },
    }
}

/// What was looked up for a hook: the process that calls it, the instance that the process is bound
/// to, whether that instance is there, and what the name that was asserted resolved to.
#[derive(Debug)]
pub struct HookFacts {
    pub process_id: Option<String>,
    pub binding: Result<Option<String>, String>,
    pub live: Result<bool, String>,
    pub asserted: Result<String, String>,
}

/// The actor that a hook is called by, or why it is refused.
pub open spec fn hook_actor(f: HookFacts, argv: Seq<Seq<char>>) -> Result<Seq<char>, Seq<char>> {
    match opt_text(f.process_id) {
        None => Err("HCOM_PROCESS_ID not set"@),
        Some(p) => if p.len() == 0 {
            Err("HCOM_PROCESS_ID not set"@)
        } else {
            match looked_up(f.binding) {
                Err(e) => Err("process binding lookup failed: "@ + e),
                Ok(None) => Err("No instance bound to this process"@),
                Ok(Some(bound)) => match f.live {
                    Err(e) => Err("instance lookup failed: "@ + e@),
                    Ok(live) => if !live {
                        Err("Verified process binding has no live instance"@)
                    } else {
                        match assertion_refused(
                            flag_value(argv, "--name"@),
                            resolved_name(f.asserted),
                            bound,
                        ) {
                            Some(e) => Err(e),
                            None => Ok(bound),
                        }
                    },
                },
            }
        },
    }
}

/// The actor that a hook is called by: the instance that its process is bound to.
pub fn verified_hook_name(f: &HookFacts, argv: &Vec<String>) -> (r: Result<String, String>)
    ensures
        match r {
            Ok(s) => hook_actor(*f, texts(argv@)) == Ok::<Seq<char>, Seq<char>>(s@),
            Err(e) => hook_actor(*f, texts(argv@)) == Err::<Seq<char>, Seq<char>>(e@),
        },
{
    match &f.process_id {
        None => {
            return Err("HCOM_PROCESS_ID not set".to_owned());
        },
        Some(p) => {
            if p.as_str().unicode_len() == 0 {
                return Err("HCOM_PROCESS_ID not set".to_owned());
            }
        },
    }
    let bound: String = match &f.binding {
        Err(e) => {
            return Err(cat("process binding lookup failed: ", e.as_str()));
        },
        Ok(None) => {
            return Err("No instance bound to this process".to_owned());
        },
        Ok(Some(s)) => s.clone(),
    };
    match &f.live {
        Err(e) => {
            return Err(cat("instance lookup failed: ", e.as_str()));
        },
        Ok(live) => {
            if !*live {
                return Err("Verified process binding has no live instance".to_owned());
            }
        },
    }
    match check_asserted_name(argv, &f.asserted, bound.as_str()) {
        Err(e) => Err(e),
        Ok(()) => Ok(bound),
    }
}

/// A hook acts as the instance that its process is bound to, whatever name is asserted.
pub proof fn assertions_never_choose_the_actor(f: HookFacts, argv: Seq<Seq<char>>, other: Seq<Seq<char>>)
    requires
        hook_actor(f, argv) is Ok,
        hook_actor(f, other) is Ok,
    ensures
        hook_actor(f, argv) == hook_actor(f, other),
        looked_up(f.binding) == Ok::<Option<Seq<char>>, Seq<char>>(Some(hook_actor(f, argv)->Ok_0)),
{
}

/// The reply that reports an error.
pub open spec fn error_reply(e: Seq<char>) -> JsonV {
    JsonV::Object(seq![MemberV { key: "error"@, value: JsonV::Text(e) }])
}

/// The reply that reports an error.
pub fn reply_error(e: &str) -> (r: Json)
    ensures
        r@ == error_reply(e@),
{
    let mut v: Vec<Member> = Vec::new();
    push_member(&mut v, "error", Json::text(e));
    proof {
        lemma_object(v);
        assert(object_view(v@) =~= error_reply(e@)->Object_0);
    }
    Json::Object(v)
}

/// What a session says of itself when it starts.
#[derive(Debug)]
pub struct StartRequest {
    pub session_id: String,
    pub process_id: String,
    pub transcript_path: Option<String>,
    pub cwd: Option<String>,
    pub notify_port: Option<u16>,
    pub endpoint_epoch: Option<String>,
}

/// The view of a [`StartRequest`].
pub struct StartV {
    pub session_id: Seq<char>,
    pub process_id: Seq<char>,
    pub transcript_path: Option<Seq<char>>,
    pub cwd: Option<Seq<char>>,
    pub notify_port: Option<int>,
    pub endpoint_epoch: Option<Seq<char>>,
}

impl View for StartRequest {
    type V = StartV;

    open spec fn view(&self) -> StartV {
        StartV {
            session_id: self.session_id@,
            process_id: self.process_id@,
            transcript_path: opt_text(self.transcript_path),
            cwd: opt_text(self.cwd),
            notify_port: match self.notify_port {
                Some(p) => Some(p as int),
                None => None,
            },
            endpoint_epoch: opt_text(self.endpoint_epoch),
        }
    }
}

/// The port in a text.
pub open spec fn port_in(o: Option<Seq<char>>) -> Option<int> {
    match o {
        Some(s) => parse_unsigned(s, 0xffff),
        None => None,
    }
}

/// What a session says of itself when it starts, or why it is refused.
pub open spec fn start_read(argv: Seq<Seq<char>>, process_id: Option<Seq<char>>) -> Result<
    StartV,
    Seq<char>,
> {
    match flag_value(argv, "--session-id"@) {
        None => Err("Missing --session-id"@),
        Some(session_id) => match epoch_given(argv) {
            Err(e) => Err(e),
            Ok(endpoint_epoch) => match process_id {
                None => Err("HCOM_PROCESS_ID not set"@),
                Some(process_id) => Ok(
                    StartV {
                        session_id,
                        process_id,
                        transcript_path: flag_value(argv, "--transcript-path"@),
                        cwd: flag_value(argv, "--cwd"@),
                        notify_port: port_in(flag_value(argv, "--notify-port"@)),
                        endpoint_epoch,
                    },
                ),
            },
        },
    }
}

fn read_port(o: &Option<String>) -> (r: Option<u16>)
    ensures
        match r {
            Some(p) => port_in(opt_text(*o)) == Some(p as int),
            None => port_in(opt_text(*o)) is None,
        },
{
    match o {
        None => None,
        Some(s) => match parse_up_to(s.as_str(), 0xffff) {
            Some(n) => Some(n as u16),
            None => None,
        },
    }
}

/// What a session says of itself when it starts.
pub fn read_start(argv: &Vec<String>, process_id: &Option<String>) -> (r: Result<
    StartRequest,
    String,
>)
    ensures
        match r {
            Ok(s) => start_read(texts(argv@), opt_text(*process_id)) == Ok::<StartV, Seq<char>>(
                s@,
            ),
            Err(e) => start_read(texts(argv@), opt_text(*process_id)) == Err::<StartV, Seq<char>>(
                e@,
            ),
        },
{
    let session_id: String = match parse_flag(argv, "--session-id") {
        None => {
            return Err("Missing --session-id".to_owned());
        },
        Some(s) => s,
    };
    let endpoint_epoch: Option<String> = match parse_endpoint_epoch(argv) {
        Err(e) => {
            return Err(e);
        },
        Ok(o) => o,
    };
    match process_id {
        None => Err("HCOM_PROCESS_ID not set".to_owned()),
        Some(p) => Ok(
            StartRequest {
                session_id,
                process_id: p.clone(),
                transcript_path: parse_flag(argv, "--transcript-path"),
                cwd: parse_flag(argv, "--cwd"),
                notify_port: read_port(&parse_flag(argv, "--notify-port")),
                endpoint_epoch,
            },
        ),
    }
}

/// The text, unless there is none or it is empty.
pub open spec fn given_text(o: Option<Seq<char>>) -> Option<Seq<char>> {
    match o {
        Some(s) => if s.len() == 0 {
            None
        } else {
            Some(s)
        },
        None => None,
    }
}

fn read_given(o: &Option<String>) -> (r: Option<String>)
    ensures
        opt_text(r) == given_text(opt_text(*o)),
{
    match o {
        Some(s) => if s.as_str().unicode_len() == 0 {
            None
        } else {
            Some(s.clone())
        },
        None => None,
    }
}

/// A member, where there is a value for it.
pub open spec fn member_given(key: Seq<char>, o: Option<Seq<char>>) -> Seq<MemberV> {
    match o {
        Some(s) => seq![MemberV { key, value: JsonV::Text(s) }],
        None => Seq::empty(),
    }
}

/// What the instance of a session takes over from what the session says, by column; `own` is the
/// directory of the process.
pub open spec fn start_updates(s: StartV, own: Option<Seq<char>>) -> JsonV {
    let directory = match given_text(s.cwd) {
        Some(d) => Some(d),
        None => own,
    };
    JsonV::Object(
        member_given("directory"@, directory) + member_given("endpoint_epoch"@, s.endpoint_epoch)
            + seq![
            MemberV { key: "session_id"@, value: JsonV::Text(s.session_id) },
            MemberV { key: "tool"@, value: JsonV::Text("pi"@) },
        ] + member_given("transcript_path"@, given_text(s.transcript_path)),
    )
}

fn push_given(v: &mut Vec<Member>, key: &str, o: &Option<String>)
    ensures
        object_view(final(v)@) == object_view(old(v)@) + member_given(key@, opt_text(*o)),
{
    match o {
        Some(s) => {
            push_member(v, key, Json::text(s.as_str()));
        },
        None => {},
    }
    assert(object_view(v@) =~= object_view(old(v)@) + member_given(key@, opt_text(*o)));
}

/// What the instance of a session takes over from what the session says.
pub fn plan_start(s: &StartRequest, own: &Option<String>) -> (r: Json)
    ensures
        r@ == start_updates(s@, opt_text(*own)),
{
    let directory: Option<String> = match read_given(&s.cwd) {
        Some(d) => Some(d),
        None => copy_opt(own),
    };
    let mut v: Vec<Member> = Vec::new();
    assert(object_view(v@) =~= Seq::<MemberV>::empty());
    push_given(&mut v, "directory", &directory);
    push_given(&mut v, "endpoint_epoch", &s.endpoint_epoch);
    push_member(&mut v, "session_id", Json::text(s.session_id.as_str()));
    push_member(&mut v, "tool", Json::text("pi"));
    push_given(&mut v, "transcript_path", &read_given(&s.transcript_path));
    proof {
        lemma_object(v);
        assert(object_view(v@) =~= start_updates(s@, opt_text(*own))->Object_0);
    }
    Json::Object(v)
}

/// The reply to a session that started.
pub open spec fn start_reply(
    name: Seq<char>,
    session_id: Seq<char>,
    endpoint_epoch: Seq<char>,
    bootstrap: Seq<char>,
) -> JsonV {
    JsonV::Object(
        seq![
            MemberV { key: "bootstrap"@, value: JsonV::Text(bootstrap) },
            MemberV { key: "endpoint_epoch"@, value: JsonV::Text(endpoint_epoch) },
            MemberV { key: "name"@, value: JsonV::Text(name) },
            MemberV { key: "session_id"@, value: JsonV::Text(session_id) },
        ],
    )
}

/// The reply to a session that started.
pub fn reply_start(name: &str, session_id: &str, endpoint_epoch: &str, bootstrap: &str) -> (r: Json)
    ensures
        r@ == start_reply(name@, session_id@, endpoint_epoch@, bootstrap@),
{
    let mut v: Vec<Member> = Vec::new();
    push_member(&mut v, "bootstrap", Json::text(bootstrap));
    push_member(&mut v, "endpoint_epoch", Json::text(endpoint_epoch));
    push_member(&mut v, "name", Json::text(name));
    push_member(&mut v, "session_id", Json::text(session_id));
    proof {
        lemma_object(v);
        assert(object_view(v@) =~= start_reply(
            name@,
            session_id@,
            endpoint_epoch@,
            bootstrap@,
        )->Object_0);
    }
    Json::Object(v)
}

/// The reply to a plugin that acknowledged all up to an event: how many messages it was, where they
/// were counted, the event, and how many changes it made.
pub open spec fn acked_reply(to: int, count: Option<int>, transitions: int) -> JsonV {
    JsonV::Object(
        seq![
            MemberV {
                key: "acked"@,
                value: match count {
                    Some(n) => JsonV::Int(n),
                    None => JsonV::Null,
                },
            },
            MemberV { key: "acked_to"@, value: JsonV::Int(to) },
            MemberV { key: "receipt_transitions"@, value: JsonV::Int(transitions) },
        ],
    )
}

/// The reply to a plugin that acknowledged all up to an event.
pub fn reply_acked(to: i64, count: Option<i64>, transitions: i64) -> (r: Json)
    ensures
        r@ == acked_reply(
            to as int,
            match count {
                Some(n) => Some(n as int),
                None => None,
            },
            transitions as int,
        ),
{
    let acked: Json = match count {
        Some(n) => Json::Int(n),
        None => Json::Null,
    };
    let mut v: Vec<Member> = Vec::new();
    push_member(&mut v, "acked", acked);
    push_member(&mut v, "acked_to", Json::Int(to));
    push_member(&mut v, "receipt_transitions", Json::Int(transitions));
    let ghost n: Option<int> = match count {
        Some(n) => Some(n as int),
        None => None,
    };
    proof {
        lemma_object(v);
        assert(object_view(v@) =~= acked_reply(to as int, n, transitions as int)->Object_0);
    }
    Json::Object(v)
}

/// The highest id of the first `n` events; zero where there is none above.
pub open spec fn last_event_id(events: Seq<EventV>, n: int) -> int
    decreases n,
{
    if n <= 0 {
        0
    } else {
        let before = last_event_id(events, n - 1);
        if events[n - 1].id > before {
            events[n - 1].id
        } else {
            before
        }
    }
}

/// Where the cursor of an instance begins: at the event it was launched by, where that is in the
/// log, or else at the end of the log.
pub open spec fn first_cursor(db: DbV, launch_event: Option<Seq<char>>) -> int {
    let last = last_event_id(db.events, db.events.len() as int);
    match launch_event {
        Some(s) => match parse_signed(s) {
            Some(id) => if id <= last {
                id
            } else {
                last
            },
            None => last,
        },
        None => last,
    }
}

/// The store after an instance began to read, where it had not yet.
pub open spec fn reading_begun(db: DbV, name: Seq<char>, launch_event: Option<Seq<char>>) -> DbV {
    match first_where(db.instances.len() as int, instance_named(db.instances, name)) {
        None => db,
        Some(i) => if db.instances[i].last_event_id != 0 {
            db
        } else {
            DbV {
                instances: db.instances.update(
                    i,
                    InstanceV {
                        last_event_id: first_cursor(db, launch_event),
                        ..db.instances[i]
                    },
                ),
                ..db
            }
        },
    }
}

/// The store after the endpoint of an instance got an epoch, where one was given.
pub open spec fn epoch_rotated(db: DbV, name: Seq<char>, epoch: Option<Seq<char>>) -> DbV {
    match (first_where(db.instances.len() as int, instance_named(db.instances, name)), epoch) {
        (Some(i), Some(e)) => DbV {
            instances: db.instances.update(
                i,
                InstanceV { endpoint_epoch: e, ..db.instances[i] },
            ),
            ..db
        },
        _ => db,
    }
}

impl HcomDb {
    /// The highest id in the log.
    pub fn get_last_event_id(&self) -> (r: i64)
        ensures
            r == last_event_id(self@.events, self@.events.len() as int),
    {
        let mut best: i64 = 0;
        let mut i: usize = 0;
        while i < self.events.len()
            invariant
                i <= self.events@.len(),
                best == last_event_id(self@.events, i as int),
            decreases self.events.len() - i,
        {
            assert(self@.events[i as int].id == self.events@[i as int].id);
            if self.events[i].id > best {
                best = self.events[i].id;
            }
            i += 1;
        }
        best
    }

    /// Lets an instance begin to read, where it has not yet.
    pub fn initialize_last_event_id(&mut self, name: &str, launch_event: Option<&str>)
        ensures
            final(self)@ == reading_begun(old(self)@, name@, opt_str(launch_event)),
    {
        let i: usize = match self.find_instance(name) {
            None => {
                return ;
            },
            Some(i) => i,
        };
        if self.instances[i].last_event_id != 0 {
            return ;
        }
        let last: i64 = self.get_last_event_id();
        let cursor: i64 = match launch_event {
            Some(s) => match parse_i64(s) {
                Some(id) => if id <= last {
                    id
                } else {
                    last
                },
                None => last,
            },
            None => last,
        };
        let mut row: Instance = self.instances[i].duplicate();
        row.last_event_id = cursor;
        proof {
            lemma_views_update(self.instances@, i as int, row);
        }
        self.instances.set(i, row);
    }

    /// Gives the endpoint of an instance an epoch, where one is given; the epoch it has then.
    pub fn rotate_endpoint_epoch(&mut self, name: &str, epoch: &Option<String>) -> (r: String)
        ensures
            final(self)@ == epoch_rotated(old(self)@, name@, opt_text(*epoch)),
            r@ == final(self)@.epoch_or_empty(name@),
    {
        if let (Some(i), Some(e)) = (self.find_instance(name), epoch) {
            let mut row: Instance = self.instances[i].duplicate();
            row.endpoint_epoch = e.clone();
            proof {
                lemma_views_update(self.instances@, i as int, row);
            }
            self.instances.set(i, row);
        }
        self.snapshot_epoch(name)
    }
}

/// Giving an endpoint the epoch that it has changes nothing, and it has the epoch that it was given.
pub proof fn epochs_rotate_once(db: DbV, name: Seq<char>, epoch: Seq<char>)
    requires
        db.epoch_of(name) is Some,
    ensures
        epoch_rotated(db, name, Some(epoch)).epoch_of(name) == Some(epoch),
        epoch_rotated(epoch_rotated(db, name, Some(epoch)), name, Some(epoch)) == epoch_rotated(
            db,
            name,
            Some(epoch),
        ),
{
    let n: int = db.instances.len() as int;
    let p = instance_named(db.instances, name);
    first_where_is_least(n, p);
    let i = first_where(n, p)->0;
    let once = epoch_rotated(db, name, Some(epoch));
    let q = instance_named(once.instances, name);
    assert forall|j: int| 0 <= j < i implies !#[trigger] q(j) by {
        assert(!p(j));
    }
    assert(p(i));
    crate::search::first_where_found(n, q, i);
    assert(epoch_rotated(once, name, Some(epoch)).instances =~= once.instances);
}

/// What a plugin reports of an instance.
#[derive(Debug)]
pub struct StatusRequest {
    pub status: String,
    pub context: String,
    pub detail: String,
    pub presence: Option<String>,
}

/// The value behind a flag, or nothing.
pub open spec fn flag_or_empty(argv: Seq<Seq<char>>, flag: Seq<char>) -> Seq<char> {
    match flag_value(argv, flag) {
        Some(s) => s,
        None => ""@,
    }
}

fn read_or(argv: &Vec<String>, flag: &str, default: &str) -> (r: String)
    ensures
        r@ == match flag_value(texts(argv@), flag@) {
            Some(s) => s,
            None => default@,
        },
{
    match parse_flag(argv, flag) {
        Some(s) => s,
        None => default.to_owned(),
    }
}

/// What a plugin reports of an instance; nothing where it reports no status.
pub fn read_status(argv: &Vec<String>) -> (r: Option<StatusRequest>)
    ensures
        match r {
            Some(s) => flag_value(texts(argv@), "--status"@) == Some(s.status@) && s.context@
                == flag_or_empty(texts(argv@), "--context"@) && s.detail@ == flag_or_empty(
                texts(argv@),
                "--detail"@,
            ) && opt_text(s.presence) == flag_value(texts(argv@), "--presence"@),
            None => flag_value(texts(argv@), "--status"@) is None,
        },
{
    match parse_flag(argv, "--status") {
        None => None,
        Some(status) => Some(
            StatusRequest {
                status,
                context: read_or(argv, "--context", ""),
                detail: read_or(argv, "--detail", ""),
                presence: parse_flag(argv, "--presence"),
            },
        ),
    }
}

/// Whether a change of status wakes those who wait for the instance: when it begins to listen.
pub fn wakes_on_status(status: &str, before: Option<&str>) -> (r: bool)
    ensures
        r == (status@ == "listening"@ && opt_str(before) != Some("listening"@)),
{
    same(status, "listening") && !crate::text::same_opt(before, "listening")
}

/// What a plugin asks of an inbox, when it does not acknowledge.
#[derive(Debug, Clone, Copy, PartialEq, Eq, Structural)]
pub enum ReadMode {
    /// The messages as text.
    Format,
    /// Whether there are any.
    Check,
    /// The messages as data.
    List,
}

/// What a plugin asks of an inbox.
pub open spec fn mode_of(argv: Seq<Seq<char>>) -> ReadMode {
    if argv.contains("--format"@) {
        ReadMode::Format
    } else if argv.contains("--check"@) {
        ReadMode::Check
    } else {
        ReadMode::List
    }
}

/// The highest id of the first `n` messages that have one.
pub open spec fn highest_unread(ids: Seq<Option<i64>>, n: int) -> Option<int>
    decreases n,
{
    if n <= 0 {
        None
    } else {
        let before = highest_unread(ids, n - 1);
        match ids[n - 1] {
            None => before,
            Some(id) => match before {
                None => Some(id as int),
                Some(b) => if id > b {
                    Some(id as int)
                } else {
                    Some(b)
                },
            },
        }
    }
}

fn find_highest(ids: &Vec<Option<i64>>) -> (r: Option<i64>)
    ensures
        match r {
            Some(id) => highest_unread(ids@, ids@.len() as int) == Some(id as int),
            None => highest_unread(ids@, ids@.len() as int) is None,
        },
{
    let mut best: Option<i64> = None;
    let mut i: usize = 0;
    while i < ids.len()
        invariant
            i <= ids@.len(),
            match best {
                Some(id) => highest_unread(ids@, i as int) == Some(id as int),
                None => highest_unread(ids@, i as int) is None,
            },
        decreases ids.len() - i,
    {
        if let Some(id) = ids[i] {
            best = match best {
                None => Some(id),
                Some(b) => if id > b {
                    Some(id)
                } else {
                    Some(b)
                },
            };
        }
        i += 1;
    }
    best
}

/// What an acknowledgement is to reach.
pub enum AckTarget {
    /// It names something that is no event.
    Invalid(Seq<char>),
    /// There is nothing to acknowledge.
    Nothing,
    /// All up to an event; the number of messages, where it was not named.
    UpTo { id: int, count: Option<int> },
}

/// What an acknowledgement is to reach: the event that arguments name, or else all that is unread.
pub open spec fn ack_target(argv: Seq<Seq<char>>, unread_ids: Seq<Option<i64>>, last: int) -> AckTarget {
    match flag_value(argv, "--up-to"@) {
        Some(s) => match parse_signed(s) {
            None => AckTarget::Invalid(s),
            Some(id) => AckTarget::UpTo { id, count: None },
        },
        None => if unread_ids.len() == 0 {
            AckTarget::Nothing
        } else {
            let highest = highest_unread(unread_ids, unread_ids.len() as int);
            AckTarget::UpTo {
                id: if highest is Some && highest->0 > 0 {
                    highest->0
                } else {
                    last
                },
                count: Some(unread_ids.len() as int),
            }
        },
    }
}

/// The reply to a plugin that reads an inbox.
#[derive(Debug)]
pub enum ReadReply {
    /// It is refused, for that reason.
    Failed(String),
    /// There was nothing to acknowledge.
    NothingToAck,
    /// All up to an event is acknowledged, with that many changes.
    Acked { to: i64, count: Option<usize>, transitions: usize },
    /// Those messages are shown, of the ones it was asked with, in a form.
    Shown { mode: ReadMode, shown: Vec<bool> },
}

/// The view of a [`ReadReply`].
pub enum ReadReplyV {
    Failed(Seq<char>),
    NothingToAck,
    Acked { to: int, count: Option<int>, transitions: int },
    Shown { mode: ReadMode, shown: Seq<bool> },
}

impl View for ReadReply {
    type V = ReadReplyV;

    open spec fn view(&self) -> ReadReplyV {
        match self {
            ReadReply::Failed(e) => ReadReplyV::Failed(e@),
            ReadReply::NothingToAck => ReadReplyV::NothingToAck,
            ReadReply::Acked { to, count, transitions } => ReadReplyV::Acked {
                to: *to as int,
                count: match count {
                    Some(n) => Some(*n as int),
                    None => None,
                },
                transitions: *transitions as int,
            },
            ReadReply::Shown { mode, shown } => ReadReplyV::Shown { mode: *mode, shown: shown@ },
        }
    }
}

/// The ids of those of the first `n` messages that have one.
pub open spec fn ids_among(ids: Seq<Option<String>>, n: int) -> Seq<Seq<char>>
    decreases n,
{
    if n <= 0 {
        Seq::empty()
    } else {
        match opt_text(ids[n - 1]) {
            Some(s) => ids_among(ids, n - 1).push(s),
            None => ids_among(ids, n - 1),
        }
    }
}

fn list_ids(ids: &Vec<Option<String>>) -> (r: Vec<String>)
    ensures
        texts(r@) == ids_among(ids@, ids@.len() as int),
{
    let mut out: Vec<String> = Vec::new();
    let mut i: usize = 0;
    assert(texts(out@) =~= Seq::<Seq<char>>::empty());
    while i < ids.len()
        invariant
            i <= ids@.len(),
            texts(out@) == ids_among(ids@, i as int),
        decreases ids.len() - i,
    {
        if let Some(s) = &ids[i] {
            let id: String = s.clone();
            proof {
                lemma_texts_push(out@, id);
            }
            out.push(id);
        }
        i += 1;
    }
    out
}

/// Whether a message is shown to its recipient: one without an id, one that was claimed, and one
/// that has no delivery to it.
pub open spec fn is_shown(db: DbV, name: Seq<char>, id: Option<Seq<char>>, claimed: Seq<Seq<char>>) -> bool {
    match id {
        None => true,
        Some(s) => claimed.contains(s) || unread(db, s, name) is None,
    }
}

/// The store after a plugin read the inbox of an instance, and the reply. `unread_ids` are the events
/// that the instance has not read, and `ids` the messages that it has not settled.
pub open spec fn inbox_read(
    db: DbV,
    name: Seq<char>,
    argv: Seq<Seq<char>>,
    unread_ids: Seq<Option<i64>>,
    ids: Seq<Option<String>>,
    now: Seq<char>,
) -> (DbV, ReadReplyV) {
    if argv.contains("--ack"@) {
        match ack_target(argv, unread_ids, last_event_id(db.events, db.events.len() as int)) {
            AckTarget::Invalid(s) => (db, ReadReplyV::Failed("Invalid --up-to: "@ + s)),
            AckTarget::Nothing => (db, ReadReplyV::NothingToAck),
            AckTarget::UpTo { id, count } => match inbox_acknowledged(db, name, id, now) {
                Err(e) => (db, ReadReplyV::Failed("Pi ACK commit failed: "@ + refusal_text(e))),
                Ok(d) => (
                    d,
                    ReadReplyV::Acked { to: id, count, transitions: d.sequence - db.sequence },
                ),
            },
        }
    } else {
        match fetched(db, name, ids_among(ids, ids.len() as int), now) {
            Err(e) => (db, ReadReplyV::Failed("Inbox claim failed: "@ + refusal_text(e))),
            Ok((d, claimed)) => (
                d,
                ReadReplyV::Shown {
                    mode: mode_of(argv),
                    shown: Seq::new(
                        ids.len(),
                        |i: int| is_shown(d, name, opt_text(ids[i]), claimed),
                    ),
                },
            ),
        }
    }
}

impl HcomDb {
    fn choose_shown(&self, name: &str, ids: &Vec<Option<String>>, claimed: &Vec<String>) -> (r: Vec<
        bool,
    >)
        ensures
            r@ == Seq::new(
                ids@.len(),
                |i: int| is_shown(self@, name@, opt_text(ids@[i]), texts(claimed@)),
            ),
    {
        let mut out: Vec<bool> = Vec::new();
        let mut i: usize = 0;
        while i < ids.len()
            invariant
                i <= ids@.len(),
                out@.len() == i,
                forall|k: int|
                    0 <= k < i ==> (#[trigger] out@[k]) == is_shown(
                        self@,
                        name@,
                        opt_text(ids@[k]),
                        texts(claimed@),
                    ),
            decreases ids.len() - i,
        {
            let b: bool = match &ids[i] {
                None => true,
                Some(s) => holds_text(claimed, s.as_str()) || self.projected_inbox_delivery(
                    s.as_str(),
                    name,
                ).is_none(),
            };
            out.push(b);
            i += 1;
        }
        assert(out@ =~= Seq::new(
            ids@.len(),
            |i: int| is_shown(self@, name@, opt_text(ids@[i]), texts(claimed@)),
        ));
        out
    }

    /// Reads the inbox of an instance for its plugin: acknowledges it, or claims what is in it.
    pub fn handle_read(
        &mut self,
        name: &str,
        argv: &Vec<String>,
        unread_ids: &Vec<Option<i64>>,
        ids: &Vec<Option<String>>,
        now: &str,
    ) -> (r: ReadReply)
        ensures
            (final(self)@, r@) == inbox_read(
                old(self)@,
                name@,
                texts(argv@),
                unread_ids@,
                ids@,
                now@,
            ),
    {
        if has_flag(argv, "--ack") {
            let id: i64;
            let count: Option<usize>;
            match parse_flag(argv, "--up-to") {
                Some(s) => match parse_i64(s.as_str()) {
                    None => {
                        return ReadReply::Failed(cat("Invalid --up-to: ", s.as_str()));
                    },
                    Some(n) => {
                        id = n;
                        count = None;
                    },
                },
                None => {
                    if unread_ids.len() == 0 {
                        return ReadReply::NothingToAck;
                    }
                    let last: i64 = self.get_last_event_id();
                    id =
                    match find_highest(unread_ids) {
                        Some(n) => if n > 0 {
                            n
                        } else {
                            last
                        },
                        None => last,
                    };
                    count = Some(unread_ids.len());
                },
            }
            return match self.acknowledge_inbox_and_advance_cursor(name, id, now) {
                Ok(transitions) => ReadReply::Acked { to: id, count, transitions },
                Err(e) => ReadReply::Failed(cat("Pi ACK commit failed: ", e.message().as_str())),
            };
        }
        let wanted: Vec<String> = list_ids(ids);
        match self.claim_inbox_received(name, &wanted, now) {
            Err(e) => ReadReply::Failed(cat("Inbox claim failed: ", e.message().as_str())),
            Ok(claimed) => {
                let shown: Vec<bool> = self.choose_shown(name, ids, &claimed);
                let mode: ReadMode = if has_flag(argv, "--format") {
                    ReadMode::Format
                } else if has_flag(argv, "--check") {
                    ReadMode::Check
                } else {
                    ReadMode::List
                };
                ReadReply::Shown { mode, shown }
            },
        }
    }
}

/// A read that fails changes neither the cursor of the instance nor the state of a delivery.
pub proof fn failed_reads_change_nothing(
    db: DbV,
    name: Seq<char>,
    argv: Seq<Seq<char>>,
    unread_ids: Seq<Option<i64>>,
    ids: Seq<Option<String>>,
    now: Seq<char>,
)
    requires
        inbox_read(db, name, argv, unread_ids, ids, now).1 is Failed,
    ensures
        inbox_read(db, name, argv, unread_ids, ids, now).0 == db,
{
}

/// The tool that is about to run, where one is named.
pub fn read_tool(argv: &Vec<String>) -> (r: Option<String>)
    ensures
        opt_text(r) == given_text(flag_value(texts(argv@), "--tool"@)),
{
    read_given(&parse_flag(argv, "--tool"))
}

/// Why a session stops.
pub fn read_stop(argv: &Vec<String>) -> (r: String)
    ensures
        r@ == match flag_value(texts(argv@), "--reason"@) {
            Some(s) => s,
            None => "unknown"@,
        },
{
    read_or(argv, "--reason", "unknown")
}

/// A hook.
#[derive(Debug, Clone, Copy, PartialEq, Eq, Structural)]
pub enum PiHook {
    Start,
    Status,
    Read,
    BeforeTool,
    Stop,
}

/// The hook of a name.
pub open spec fn hook_named(name: Seq<char>) -> Option<PiHook> {
    if name == "pi-start"@ {
        Some(PiHook::Start)
    } else if name == "pi-status"@ {
        Some(PiHook::Status)
    } else if name == "pi-read"@ {
        Some(PiHook::Read)
    } else if name == "pi-beforetool"@ {
        Some(PiHook::BeforeTool)
    } else if name == "pi-stop"@ {
        Some(PiHook::Stop)
    } else {
        None
    }
}

/// The arguments without the name of the hook, where they begin with it.
pub open spec fn hook_args(name: Seq<char>, argv: Seq<Seq<char>>) -> Seq<Seq<char>> {
    if argv.len() > 0 && argv[0] == name {
        argv.skip(1)
    } else {
        argv
    }
}

/// Which hook is called, and its arguments; a name that is none of a hook is refused.
pub fn dispatch_pi_hook(name: &str, argv: &Vec<String>) -> (r: Result<(PiHook, Vec<String>), String>)
    ensures
        match r {
            Ok((hook, args)) => hook_named(name@) == Some(hook) && texts(args@) == hook_args(
                name@,
                texts(argv@),
            ),
            Err(e) => hook_named(name@) is None && e@ == "Unknown Pi hook: "@ + name@,
        },
{
    let hook: PiHook = if same(name, "pi-start") {
        PiHook::Start
    } else if same(name, "pi-status") {
        PiHook::Status
    } else if same(name, "pi-read") {
        PiHook::Read
    } else if same(name, "pi-beforetool") {
        PiHook::BeforeTool
    } else if same(name, "pi-stop") {
        PiHook::Stop
    } else {
        return Err(cat("Unknown Pi hook: ", name));
    };
    let mut args: Vec<String> = copy_texts(argv);
    assert(texts(args@).len() == args@.len() && texts(argv@).len() == argv@.len());
    if args.len() > 0 {
        assert(texts(args@)[0] == args@[0]@);
        if same(args[0].as_str(), name) {
            let ghost before = args@;
            args.remove(0);
            assert(texts(args@) =~= texts(before).skip(1));
        }
    }
    Ok((hook, args))
}

/// The file that the plugin is installed as.
pub const PLUGIN_FILENAME: &'static str = "hcom.ts";

/// The directory that plugins are installed in: that of the tool under its own root, or else that of
/// the user, which a setting can move.
pub open spec fn plugin_directory(tool_root: Seq<char>, home: Seq<char>, agent_dir: Option<Seq<char>>) -> Seq<char> {
    if tool_root == home {
        match given_text(agent_dir) {
            Some(dir) => below(dir, "extensions"@),
            None => below(below(below(home, ".pi"@), "agent"@), "extensions"@),
        }
    } else {
        below(below(tool_root, ".pi"@), "extensions"@)
    }
}

/// The directory that plugins are installed in.
pub fn pi_plugin_dir(tool_root: &str, home: &str, agent_dir: &Option<String>) -> (r: String)
    ensures
        r@ == plugin_directory(tool_root@, home@, opt_text(*agent_dir)),
{
    if same(tool_root, home) {
        match read_given(agent_dir) {
            Some(dir) => under(dir.as_str(), "extensions"),
            None => {
                let pi: String = under(home, ".pi");
                let agent: String = under(pi.as_str(), "agent");
                under(agent.as_str(), "extensions")
            },
        }
    } else {
        let pi: String = under(tool_root, ".pi");
        under(pi.as_str(), "extensions")
    }
}

/// Where the plugin is installed.
pub fn get_pi_plugin_path(tool_root: &str, home: &str, agent_dir: &Option<String>) -> (r: String)
    ensures
        r@ == below(
            plugin_directory(tool_root@, home@, opt_text(*agent_dir)),
            PLUGIN_FILENAME@,
        ),
{
    let dir: String = pi_plugin_dir(tool_root, home, agent_dir);
    under(dir.as_str(), PLUGIN_FILENAME)
}

/// Whether the plugin is installed as it is now, by what its file holds.
pub fn verify_pi_plugin_installed(contents: Option<&str>) -> (r: bool)
    ensures
        r == (opt_str(contents) == Some(PLUGIN_SOURCE@)),
{
    crate::text::same_opt(contents, PLUGIN_SOURCE)
}

/// What is to be written to the file of the plugin, by what it holds; nothing where it holds that.
pub fn ensure_pi_plugin_installed(contents: Option<&str>) -> (r: Option<&'static str>)
    ensures
        match r {
            None => opt_str(contents) == Some(PLUGIN_SOURCE@),
            Some(s) => opt_str(contents) != Some(PLUGIN_SOURCE@) && s@ == PLUGIN_SOURCE@,
        },
{
    if verify_pi_plugin_installed(contents) {
        None
    } else {
        Some(PLUGIN_SOURCE)
    }
}

/// The value of a flag is what stands behind it where it first occurs; a flag that does not occur, or
/// that nothing stands behind, has none.
pub proof fn flags_take_what_follows(argv: Vec<String>, flag: &str, r: Option<String>, given: bool, i: int)
    requires
        call_ensures(parse_flag, (&argv, flag), r),
        call_ensures(has_flag, (&argv, flag), given),
        0 <= i < argv@.len(),
        forall|j: int| 0 <= j < i ==> (#[trigger] argv@[j])@ != flag@,
    ensures
        argv@[i]@ == flag@ && i + 1 < argv@.len() ==> (r matches Some(s) && s@ == argv@[i + 1]@),
        argv@[i]@ == flag@ && i + 1 == argv@.len() ==> r is None,
        argv@[i]@ == flag@ ==> given,
        i + 1 == argv@.len() && argv@[i]@ != flag@ ==> r is None && !given,
{
    let s = texts(argv@);
    assert(s[i] == argv@[i]@);
    assert forall|j: int| 0 <= j < i implies #[trigger] s[j] != flag@ by {
        assert(s[j] == argv@[j]@);
    }
    let p = crate::broker::flag_at(s, flag@);
    let n = s.len() as int;
    first_where_is_least(n, p);
    assert forall|j: int| 0 <= j < i implies !#[trigger] p(j) by {
        assert(s[j] != flag@);
    }
    if s[i] == flag@ {
        assert(p(i));
        crate::search::first_where_found(n, p, i);
    } else if i + 1 == n {
        if let Some(j) = first_where(n, p) {
            assert(p(j));
            assert(s[j] == flag@);
        }
        if s.contains(flag@) {
            let j = choose|j: int| 0 <= j < s.len() && s[j] == flag@;
            assert(p(j));
        }
    }
    if i + 1 < argv@.len() {
        assert(s[i + 1] == argv@[i + 1]@);
    }
}

/// An epoch that is given is written in its common form; one that is not of the length of a UUID, or
/// is none, is refused.
pub proof fn given_epochs_are_uuids(argv: Vec<String>, r: Result<Option<String>, String>, raw: Seq<char>)
    requires
        call_ensures(parse_endpoint_epoch, (&argv,), r),
        flag_value(texts(argv@), "--endpoint-epoch"@) matches Some(s) ==> s == raw,
    ensures
        flag_value(texts(argv@), "--endpoint-epoch"@) is None ==> (r matches Ok(None)),
        flag_value(texts(argv@), "--endpoint-epoch"@) is Some ==> {
            &&& encode_utf8(raw).len() != 36 ==> (r matches Err(e) && e@ == "--endpoint-epoch must be a 36-character UUID"@)
            &&& encode_utf8(raw).len() == 36 && uuid_value(raw) is None ==> (r matches Err(e) && e@ == "--endpoint-epoch must be a valid UUID"@)
            &&& encode_utf8(raw).len() == 36 && uuid_value(raw) is Some ==> (r matches Ok(Some(s)) && s@ == uuid_text(uuid_value(raw)->0))
        },
{
}

/// A name that is asserted must be that of the actor.
pub proof fn asserted_names_must_be_the_actors(argv: Vec<String>, resolved: Result<String, String>, actor: &str, r: Result<(), String>, name: Seq<char>)
    requires
        call_ensures(check_asserted_name, (&argv, &resolved, actor), r),
        flag_value(texts(argv@), "--name"@) matches Some(s) ==> s == name,
    ensures
        flag_value(texts(argv@), "--name"@) is None ==> r is Ok,
        flag_value(texts(argv@), "--name"@) is Some ==> match resolved {
            Err(e) => r matches Err(w) && w@ == e@,
            Ok(s) => if s@ == actor@ {
                r is Ok
            } else {
                r matches Err(w) && w@ == "Explicit --name '"@ + name + "' conflicts with verified Pi actor '"@ + actor@ + "'"@
            },
        },
{
}

/// A hook acts as the instance that its process is bound to, as long as that instance is there; it is
/// refused without a process, without a binding, and where a lookup fails.
pub proof fn hooks_act_as_the_bound_instance(f: HookFacts, argv: Vec<String>, r: Result<String, String>)
    requires
        call_ensures(verified_hook_name, (&f, &argv), r),
        flag_value(texts(argv@), "--name"@) is None,
    ensures
        f.process_id is None || f.process_id->0@.len() == 0 ==> (r matches Err(e) && e@ == "HCOM_PROCESS_ID not set"@),
        f.process_id matches Some(p) ==> p@.len() > 0 ==> match f.binding {
            Err(e) => r matches Err(w) && w@ == "process binding lookup failed: "@ + e@,
            Ok(None) => r matches Err(w) && w@ == "No instance bound to this process"@,
            Ok(Some(bound)) => match f.live {
                Err(e) => r matches Err(w) && w@ == "instance lookup failed: "@ + e@,
                Ok(false) => r matches Err(w) && w@ == "Verified process binding has no live instance"@,
                Ok(true) => r matches Ok(s) && s@ == bound@,
            },
        },
{
}

/// What a session says when it starts is what its arguments say, with the process it runs in; without a
/// session, without a process, or with a wrong epoch it is refused.
pub proof fn sessions_start_as_they_say(argv: Vec<String>, process_id: Option<String>, r: Result<StartRequest, String>, epoch: Result<Option<String>, String>)
    requires
        call_ensures(read_start, (&argv, &process_id), r),
        call_ensures(parse_endpoint_epoch, (&argv,), epoch),
    ensures
        flag_value(texts(argv@), "--session-id"@) is None ==> (r matches Err(e) && e@ == "Missing --session-id"@),
        flag_value(texts(argv@), "--session-id"@) is Some && epoch is Err ==> (r matches Err(e) && e@ == epoch->Err_0@),
        flag_value(texts(argv@), "--session-id"@) is Some && epoch is Ok && process_id is None ==> (r matches Err(e) && e@ == "HCOM_PROCESS_ID not set"@),
        flag_value(texts(argv@), "--session-id"@) is Some && epoch is Ok && process_id is Some ==> r is Ok,
        r matches Ok(s) ==> {
            &&& flag_value(texts(argv@), "--session-id"@) == Some(s.session_id@)
            &&& process_id matches Some(p) && s.process_id@ == p@
            &&& opt_text(s.transcript_path) == flag_value(texts(argv@), "--transcript-path"@)
            &&& opt_text(s.cwd) == flag_value(texts(argv@), "--cwd"@)
            &&& epoch matches Ok(o) && opt_text(s.endpoint_epoch) == opt_text(o)
            &&& flag_value(texts(argv@), "--notify-port"@) is None ==> s.notify_port is None
            &&& flag_value(texts(argv@), "--notify-port"@) matches Some(t) ==> match parse_unsigned(t, 65535) { Some(n) => s.notify_port matches Some(p) && p == n, None => s.notify_port is None }
        },
{
}

proof fn lemma_start_keys()
    ensures
        "directory"@.len() == 9 && "endpoint_epoch"@.len() == 14 && "session_id"@.len() == 10 && "tool"@.len() == 4 && "transcript_path"@.len() == 15,
        "bootstrap"@.len() == 9 && "name"@.len() == 4 && "acked"@.len() == 5 && "acked_to"@.len() == 8 && "receipt_transitions"@.len() == 19 && "error"@.len() == 5,
{
    reveal_strlit("directory");
    reveal_strlit("endpoint_epoch");
    reveal_strlit("session_id");
    reveal_strlit("tool");
    reveal_strlit("transcript_path");
    reveal_strlit("bootstrap");
    reveal_strlit("name");
    reveal_strlit("acked");
    reveal_strlit("acked_to");
    reveal_strlit("receipt_transitions");
    reveal_strlit("error");
}

proof fn lemma_absent(ms: Seq<MemberV>, key: Seq<char>)
    requires
        forall|i: int| 0 <= i < ms.len() ==> (#[trigger] ms[i]).key != key,
    ensures
        member(JsonV::Object(ms), key) is None,
{
    let p = crate::json::has_key(ms, key);
    first_where_is_least(ms.len() as int, p);
    if let Some(i) = first_where(ms.len() as int, p) {
        assert(p(i));
    }
}

proof fn lemma_present(ms: Seq<MemberV>, k: int, key: Seq<char>)
    requires
        0 <= k < ms.len() && ms[k].key == key,
        forall|i: int| 0 <= i < k ==> (#[trigger] ms[i]).key != key,
    ensures
        member(JsonV::Object(ms), key) == Some(ms[k].value),
{
    crate::json::lemma_member_at(ms, k);
}

/// The instance of a session takes over the session and the tool, the directory that the session names
/// or else that of the process, and the endpoint and the transcript where they are named.
pub proof fn instances_take_over_the_session(s: StartRequest, own: Option<String>, r: Json)
    requires
        call_ensures(plan_start, (&s, &own), r),
    ensures
        member_text(r@, "session_id"@) == Some(s.session_id@),
        member_text(r@, "tool"@) == Some("pi"@),
        member_text(r@, "endpoint_epoch"@) == opt_text(s.endpoint_epoch),
        s.cwd is Some && s.cwd->0@.len() > 0 ==> member_text(r@, "directory"@) == Some(s.cwd->0@),
        s.cwd is None || s.cwd->0@.len() == 0 ==> member_text(r@, "directory"@) == opt_text(own),
        s.transcript_path is Some && s.transcript_path->0@.len() > 0 ==> member_text(r@, "transcript_path"@) == Some(s.transcript_path->0@),
        s.transcript_path is None || s.transcript_path->0@.len() == 0 ==> member(r@, "transcript_path"@) is None,
{
    lemma_start_keys();
    let ms = r@->Object_0;
    let directory = match given_text(s@.cwd) { Some(d) => Some(d), None => opt_text(own) };
    let a: int = if directory is Some { 1 } else { 0 };
    let b: int = if s@.endpoint_epoch is Some { 1 } else { 0 };
    assert(ms[a + b].key == "session_id"@ && ms[a + b + 1].key == "tool"@);
    if directory is Some {
        assert(ms[0].key == "directory"@);
        lemma_present(ms, 0, "directory"@);
    } else {
        lemma_absent(ms, "directory"@);
    }
    if s@.endpoint_epoch is Some {
        assert(ms[a].key == "endpoint_epoch"@);
        lemma_present(ms, a, "endpoint_epoch"@);
    } else {
        lemma_absent(ms, "endpoint_epoch"@);
    }
    lemma_present(ms, a + b, "session_id"@);
    lemma_present(ms, a + b + 1, "tool"@);
    if given_text(s@.transcript_path) is Some {
        assert(ms[a + b + 2].key == "transcript_path"@);
        lemma_present(ms, a + b + 2, "transcript_path"@);
    } else {
        lemma_absent(ms, "transcript_path"@);
    }
}

/// Replies say what they are about: an error, the name, session, endpoint and instructions of a session
/// that started, and what was acknowledged.
pub proof fn replies_say_what_happened(e: &str, failed: Json, name: &str, session: &str, epoch: &str, bootstrap: &str, started: Json, to: i64, count: Option<i64>, transitions: i64, acked: Json)
    requires
        call_ensures(reply_error, (e,), failed),
        call_ensures(reply_start, (name, session, epoch, bootstrap), started),
        call_ensures(reply_acked, (to, count, transitions), acked),
    ensures
        member_text(failed@, "error"@) == Some(e@),
        member_text(started@, "name"@) == Some(name@) && member_text(started@, "session_id"@) == Some(session@) && member_text(started@, "endpoint_epoch"@) == Some(epoch@) && member_text(started@, "bootstrap"@) == Some(bootstrap@),
        member(acked@, "acked"@) == Some(match count { Some(n) => JsonV::Int(n as int), None => JsonV::Null }),
        member(acked@, "acked_to"@) == Some(JsonV::Int(to as int)),
        member(acked@, "receipt_transitions"@) == Some(JsonV::Int(transitions as int)),
{
    lemma_start_keys();
    lemma_present(failed@->Object_0, 0, "error"@);
    lemma_present(started@->Object_0, 0, "bootstrap"@);
    lemma_present(started@->Object_0, 1, "endpoint_epoch"@);
    lemma_present(started@->Object_0, 2, "name"@);
    lemma_present(started@->Object_0, 3, "session_id"@);
    lemma_present(acked@->Object_0, 0, "acked"@);
    lemma_present(acked@->Object_0, 1, "acked_to"@);
    lemma_present(acked@->Object_0, 2, "receipt_transitions"@);
}

proof fn lemma_last_id(events: Seq<EventV>, n: int)
    requires
        0 <= n <= events.len(),
    ensures
        last_event_id(events, n) >= 0,
        forall|i: int| 0 <= i < n ==> (#[trigger] events[i]).id <= last_event_id(events, n),
        last_event_id(events, n) > 0 ==> exists|i: int| 0 <= i < n && (#[trigger] events[i]).id == last_event_id(events, n),
    decreases n,
{
    if n > 0 {
        lemma_last_id(events, n - 1);
        if events[n - 1].id > last_event_id(events, n - 1) {
            assert(events[n - 1].id == last_event_id(events, n));
        }
    }
}

/// The last event is the one with the highest id.
pub proof fn the_last_event_has_the_highest_id(db: HcomDb, r: i64, i: int)
    requires
        call_ensures(HcomDb::get_last_event_id, (&db,), r),
    ensures
        r >= 0,
        0 <= i < db@.events.len() ==> db@.events[i].id <= r,
        r > 0 ==> exists|k: int| 0 <= k < db@.events.len() && (#[trigger] db@.events[k]).id == r,
{
    lemma_last_id(db@.events, db@.events.len() as int);
}

/// An instance that has not read yet begins where it was launched, or at the end of the log; one that
/// has goes on where it is; and no other instance is touched.
pub proof fn new_readers_begin_where_they_were_launched(db: &mut HcomDb, name: &str, launch: Option<&str>, last: i64, i: int, j: int)
    requires
        call_ensures(HcomDb::initialize_last_event_id, (db, name, launch), ()),
        call_ensures(HcomDb::get_last_event_id, (&*old(db),), last),
        old(db)@.instance_pos(name@) == Some(i),
    ensures
        old(db).instances@[i].last_event_id != 0 ==> final(db)@ == old(db)@,
        old(db).instances@[i].last_event_id == 0 && (launch is None || parse_signed(launch->0@) is None) ==> final(db)@.instances[i].last_event_id == last,
        old(db).instances@[i].last_event_id == 0 && launch is Some && parse_signed(launch->0@) is Some ==> final(db)@.instances[i].last_event_id == (if parse_signed(launch->0@)->0 <= last { parse_signed(launch->0@)->0 } else { last as int }),
        final(db)@.instances[i].endpoint_epoch == old(db).instances@[i].endpoint_epoch@ && final(db)@.instances[i].name == old(db).instances@[i].name@,
        0 <= j < old(db)@.instances.len() && j != i ==> final(db)@.instances[j] == old(db)@.instances[j],
        final(db)@.events == old(db)@.events && final(db)@.deliveries == old(db)@.deliveries,
{
    first_where_is_least(old(db)@.instances.len() as int, instance_named(old(db)@.instances, name@));
    assert(old(db)@.instances[i] == old(db).instances@[i]@);
}

/// An endpoint has the epoch that it was given from then on, and no other instance is touched; without
/// one it keeps its own.
pub proof fn endpoints_have_the_given_epoch(db: &mut HcomDb, name: &str, epoch: Option<String>, r: String, i: int, j: int)
    requires
        call_ensures(HcomDb::rotate_endpoint_epoch, (db, name, &epoch), r),
        old(db)@.instance_pos(name@) == Some(i),
    ensures
        epoch matches Some(e) ==> r@ == e@ && final(db)@.instances[i].endpoint_epoch == e@,
        epoch is None ==> r@ == old(db).instances@[i].endpoint_epoch@ && final(db)@ == old(db)@,
        final(db)@.instances[i].last_event_id == old(db).instances@[i].last_event_id && final(db)@.instances[i].name == old(db).instances@[i].name@,
        0 <= j < old(db)@.instances.len() && j != i ==> final(db)@.instances[j] == old(db)@.instances[j],
        final(db)@.deliveries == old(db)@.deliveries && final(db)@.events == old(db)@.events,
{
    first_where_is_least(old(db)@.instances.len() as int, instance_named(old(db)@.instances, name@));
    assert(old(db)@.instances[i] == old(db).instances@[i]@);
    if let Some(e) = epoch {
        epochs_rotate_once(old(db)@, name@, e@);
    }
}

/// A status is read with its context, its detail and its presence; and an instance wakes those who wait
/// for it when it begins to listen, not while it goes on.
pub proof fn statuses_are_read_and_wake(argv: Vec<String>, r: Option<StatusRequest>, status: &str, before: Option<&str>, wakes: bool)
    requires
        call_ensures(read_status, (&argv,), r),
        call_ensures(wakes_on_status, (status, before), wakes),
    ensures
        r is Some <==> flag_value(texts(argv@), "--status"@) is Some,
        r matches Some(s) ==> flag_value(texts(argv@), "--status"@) == Some(s.status@),
        r matches Some(s) ==> s.context@ == (match flag_value(texts(argv@), "--context"@) { Some(t) => t, None => ""@ }),
        r matches Some(s) ==> s.detail@ == (match flag_value(texts(argv@), "--detail"@) { Some(t) => t, None => ""@ }),
        r matches Some(s) ==> opt_text(s.presence) == flag_value(texts(argv@), "--presence"@),
        wakes <==> status@ == "listening"@ && (before is None || before->0@ != "listening"@),
{
}

proof fn lemma_highest_unread(ids: Seq<Option<i64>>, n: int)
    requires
        0 <= n <= ids.len(),
    ensures
        forall|i: int| 0 <= i < n && (#[trigger] ids[i]) is Some ==> (highest_unread(ids, n) matches Some(h) && ids[i]->0 <= h),
        highest_unread(ids, n) matches Some(h) ==> exists|i: int| 0 <= i < n && (#[trigger] ids[i]) is Some && ids[i]->0 == h,
    decreases n,
{
    if n > 0 {
        lemma_highest_unread(ids, n - 1);
        if highest_unread(ids, n) is Some {
            if highest_unread(ids, n - 1) == highest_unread(ids, n) {
            } else {
                assert(ids[n - 1] is Some && ids[n - 1]->0 == highest_unread(ids, n)->0);
            }
        }
    }
}

/// An acknowledgement reaches the event that it names; where it names none, the highest that is unread;
/// where nothing is unread there is nothing to do; what is no number is refused; and what it reports is
/// what the acknowledgement did.
pub proof fn acknowledgements_reach_what_they_name(db: &mut HcomDb, name: &str, argv: Vec<String>, unread_ids: Vec<Option<i64>>, ids: Vec<Option<String>>, now: &str, r: ReadReply, i: int)
    requires
        call_ensures(HcomDb::handle_read, (db, name, &argv, &unread_ids, &ids, now), r),
        texts(argv@).contains("--ack"@),
    ensures
        r is Shown ==> false,
        flag_value(texts(argv@), "--up-to"@) matches Some(s) ==> (parse_signed(s) is None ==> (r matches ReadReply::Failed(e) && e@ == "Invalid --up-to: "@ + s) && final(db)@ == old(db)@),
        flag_value(texts(argv@), "--up-to"@) matches Some(s) ==> (parse_signed(s) matches Some(n) ==> (r is Failed || (r matches ReadReply::Acked { to, count, .. } && to == n && count is None))),
        flag_value(texts(argv@), "--up-to"@) is None && unread_ids@.len() == 0 ==> r is NothingToAck && final(db)@ == old(db)@,
        flag_value(texts(argv@), "--up-to"@) is None && unread_ids@.len() > 0 ==> r is Failed || (r matches ReadReply::Acked { to, count, .. } && count == Some(unread_ids@.len() as usize) && (0 <= i < unread_ids@.len() && unread_ids@[i] is Some && unread_ids@[i]->0 > 0 ==> to >= unread_ids@[i]->0)),
        r matches ReadReply::Acked { to, transitions, .. } ==> inbox_acknowledged(old(db)@, name@, to as int, now@) == Ok::<DbV, crate::store::ErrorV>(final(db)@) && transitions == final(db)@.sequence - old(db)@.sequence,
        old(db)@.instance_pos(name@) is None && r is Failed && (flag_value(texts(argv@), "--up-to"@) is None || parse_signed(flag_value(texts(argv@), "--up-to"@)->0) is Some) ==> (r matches ReadReply::Failed(e) && e@ == "Pi ACK commit failed: verified inbox recipient not found"@),
{
    lemma_highest_unread(unread_ids@, unread_ids@.len() as int);
    reveal_strlit("Pi ACK commit failed: ");
    reveal_strlit("verified inbox recipient not found");
    reveal_strlit("Pi ACK commit failed: verified inbox recipient not found");
    assert("Pi ACK commit failed: "@ + "verified inbox recipient not found"@ =~= "Pi ACK commit failed: verified inbox recipient not found"@);
}

proof fn lemma_ids_among(ids: Seq<Option<String>>, n: int, k: int)
    requires
        0 <= k < n <= ids.len(),
        ids[k] is Some,
    ensures
        ids_among(ids, n).contains(ids[k]->0@),
    decreases n,
{
    let before = ids_among(ids, n - 1);
    if k < n - 1 {
        lemma_ids_among(ids, n - 1, k);
        let q = choose|q: int| 0 <= q < before.len() && before[q] == ids[k]->0@;
        assert(ids_among(ids, n)[q] == ids[k]->0@);
    } else {
        assert(ids_among(ids, n).last() == ids[k]->0@);
    }
}

/// A read that does not acknowledge is in the form that is asked for, covers every message that it was
/// asked with, and shows those that have no id.
pub proof fn reads_show_what_was_fetched(db: &mut HcomDb, name: &str, argv: Vec<String>, unread_ids: Vec<Option<i64>>, ids: Vec<Option<String>>, now: &str, r: ReadReply, k: int)
    requires
        call_ensures(HcomDb::handle_read, (db, name, &argv, &unread_ids, &ids, now), r),
        !texts(argv@).contains("--ack"@),
    ensures
        r is Failed || r is Shown,
        r is Failed ==> final(db)@ == old(db)@,
        r matches ReadReply::Shown { mode, shown } ==> {
            &&& texts(argv@).contains("--format"@) ==> mode is Format
            &&& !texts(argv@).contains("--format"@) && texts(argv@).contains("--check"@) ==> mode is Check
            &&& !texts(argv@).contains("--format"@) && !texts(argv@).contains("--check"@) ==> mode is List
            &&& shown@.len() == ids@.len()
            &&& 0 <= k < ids@.len() && ids@[k] is None ==> shown@[k]
            &&& 0 <= k < ids@.len() && ids@[k] is Some && final(db)@.delivery(ids@[k]->0@, name@) is None ==> shown@[k]
        },
        old(db)@.instance_pos(name@) is None ==> (r matches ReadReply::Failed(e) && e@ == "Inbox claim failed: verified inbox recipient not found"@),
{
    reveal_strlit("Inbox claim failed: ");
    reveal_strlit("verified inbox recipient not found");
    reveal_strlit("Inbox claim failed: verified inbox recipient not found");
    assert("Inbox claim failed: "@ + "verified inbox recipient not found"@ =~= "Inbox claim failed: verified inbox recipient not found"@);
}

/// Hooks go by their names, and are called with the arguments behind their name.
pub proof fn hooks_go_by_their_names(name: &str, argv: Vec<String>, r: Result<(PiHook, Vec<String>), String>)
    requires
        call_ensures(dispatch_pi_hook, (name, &argv), r),
    ensures
        name@ == "pi-start"@ ==> (r matches Ok((h, _)) && h is Start),
        name@ == "pi-status"@ ==> (r matches Ok((h, _)) && h is Status),
        name@ == "pi-read"@ ==> (r matches Ok((h, _)) && h is Read),
        name@ == "pi-beforetool"@ ==> (r matches Ok((h, _)) && h is BeforeTool),
        name@ == "pi-stop"@ ==> (r matches Ok((h, _)) && h is Stop),
        name@ != "pi-start"@ && name@ != "pi-status"@ && name@ != "pi-read"@ && name@ != "pi-beforetool"@ && name@ != "pi-stop"@ ==> (r matches Err(e) && e@ == "Unknown Pi hook: "@ + name@),
        r matches Ok((_, args)) ==> (argv@.len() > 0 && argv@[0]@ == name@ ==> texts(args@) == texts(argv@).skip(1)),
        r matches Ok((_, args)) ==> (argv@.len() == 0 || argv@[0]@ != name@ ==> texts(args@) == texts(argv@)),
{
    reveal_strlit("pi-start");
    reveal_strlit("pi-status");
    reveal_strlit("pi-read");
    reveal_strlit("pi-beforetool");
    reveal_strlit("pi-stop");
    assert("pi-start"@.len() == 8 && "pi-status"@.len() == 9 && "pi-read"@.len() == 7 && "pi-beforetool"@.len() == 13 && "pi-stop"@.len() == 7);
    assert("pi-read"@[3] == 'r' && "pi-stop"@[3] == 's');
    if argv@.len() > 0 {
        assert(texts(argv@)[0] == argv@[0]@);
    }
}

/// A tool is read where one is named, and a stop has its reason, or none that is known.
pub proof fn tools_and_stops_are_read(argv: Vec<String>, tool: Option<String>, reason: String)
    requires
        call_ensures(read_tool, (&argv,), tool),
        call_ensures(read_stop, (&argv,), reason),
    ensures
        tool matches Some(t) ==> flag_value(texts(argv@), "--tool"@) == Some(t@) && t@.len() > 0,
        flag_value(texts(argv@), "--tool"@) is Some && flag_value(texts(argv@), "--tool"@)->0.len() > 0 ==> tool is Some,
        flag_value(texts(argv@), "--reason"@) matches Some(s) ==> reason@ == s,
        flag_value(texts(argv@), "--reason"@) is None ==> reason@ == "unknown"@,
{
}

/// The plugin is a file among the extensions of the tool: below the root of the tool where that is not
/// the home of the user, else where the setting says, else in its usual place at home.
pub proof fn plugins_have_their_place(root: &str, home: &str, agent_dir: Option<String>, dir: String, path: String)
    requires
        call_ensures(pi_plugin_dir, (root, home, &agent_dir), dir),
        call_ensures(get_pi_plugin_path, (root, home, &agent_dir), path),
    ensures
        path@ == below(dir@, "hcom.ts"@),
        root@ != home@ ==> dir@ == below(below(root@, ".pi"@), "extensions"@),
        root@ == home@ && agent_dir is Some && agent_dir->0@.len() > 0 ==> dir@ == below(agent_dir->0@, "extensions"@),
        root@ == home@ && (agent_dir is None || agent_dir->0@.len() == 0) ==> dir@ == below(below(below(home@, ".pi"@), "agent"@), "extensions"@),
{
}

/// The plugin is written where its file does not hold it, and is then installed.
pub proof fn plugins_are_brought_up_to_date(contents: Option<&str>, write: Option<&'static str>, installed: bool, after: bool)
    requires
        call_ensures(ensure_pi_plugin_installed, (contents,), write),
        call_ensures(verify_pi_plugin_installed, (contents,), installed),
        write is Some ==> call_ensures(verify_pi_plugin_installed, (write,), after),
    ensures
        installed <==> write is None,
        write is Some ==> after,
        contents is None ==> !installed,
{
}

} // verus!
