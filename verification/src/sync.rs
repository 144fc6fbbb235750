//! Keeping the store in step with other devices.

use crate::cleanup::{cleaned, without_device};
use crate::imports::{
    ProjectionV, message_projected, origin_device, projects, read_origin, state_projected,
};
use crate::columns::{Column, ColumnV, integer_column, read_integer_column};
use crate::json::{Json, JsonV, member, member_int, member_text};
use crate::relay::{
    Attachments, AttachmentsV, PreparedEvent, PreparedV, Route, RouteV, prepared, protocol_aware,
};
use crate::rows::{lemma_views_push, lemma_views_remove, lemma_views_update, views};
use crate::search::{first_where, position};
use crate::store::{
    DbV, ErrorV, Event, EventV, HcomDb, KvRow, KvV, LifecycleError, Savepoint, event_logged,
    extends, kv_named, leaves,
};
use crate::text::{
    cat, cat3, decimal, decimal_text, opt_str, parse_i64, parse_signed, same, same_opt,
};
use crate::times::{instant_seconds, parse_instant};
use vstd::prelude::*;

verus! {

/// The store with a control-plane key set, or removed.
pub open spec fn kv_put(db: DbV, key: Seq<char>, value: Option<Seq<char>>) -> DbV {
    match (first_where(db.kv.len() as int, kv_named(db.kv, key)), value) {
        (Some(i), Some(v)) => DbV { kv: db.kv.update(i, KvV { key, value: v }), ..db },
        (None, Some(v)) => DbV { kv: db.kv.push(KvV { key, value: v }), ..db },
        (Some(i), None) => DbV { kv: db.kv.remove(i), ..db },
        (None, None) => db,
    }
}

impl HcomDb {
    fn find_kv(&self, key: &str) -> (r: Option<usize>)
        ensures
            position(r) == first_where(self@.kv.len() as int, kv_named(self@.kv, key@)),
            r matches Some(i) ==> i < self.kv@.len(),
    {
        let ghost p = kv_named(self@.kv, key@);
        let mut found: Option<usize> = None;
        let mut i: usize = 0;
        while i < self.kv.len()
            invariant
                i <= self.kv@.len(),
                p == kv_named(self@.kv, key@),
                position(found) == first_where(i as int, p),
                found matches Some(k) ==> k < i,
            decreases self.kv.len() - i,
        {
            if found.is_none() && same(self.kv[i].key.as_str(), key) {
                found = Some(i);
            }
            i += 1;
        }
        found
    }

    /// The value under a control-plane key.
    pub fn kv_get(&self, key: &str) -> (r: Option<&str>)
        ensures
            opt_str(r) == self@.kv_value(key@),
    {
        match self.find_kv(key) {
            Some(i) => Some(self.kv[i].value.as_str()),
            None => None,
        }
    }

    /// Sets a control-plane key, or removes it.
    pub fn kv_set(&mut self, key: &str, value: Option<&str>)
        ensures
            final(self)@ == kv_put(old(self)@, key@, opt_str(value)),
    {
        match (self.find_kv(key), value) {
            (Some(i), Some(v)) => {
                let row: KvRow = KvRow { key: key.to_owned(), value: v.to_owned() };
                proof {
                    lemma_views_update(self.kv@, i as int, row);
                }
                self.kv.set(i, row);
            },
            (None, Some(v)) => {
                let row: KvRow = KvRow { key: key.to_owned(), value: v.to_owned() };
                proof {
                    lemma_views_push(self.kv@, row);
                }
                self.kv.push(row);
            },
            (Some(i), None) => {
                proof {
                    lemma_views_remove(self.kv@, i as int);
                }
                self.kv.remove(i);
            },
            (None, None) => {},
        }
    }
}

/// Whether an event was imported from a device.
pub open spec fn imported_from(e: EventV, device_id: Seq<char>) -> bool {
    origin_device(e.data) == ColumnV::Text(device_id)
}

/// Whether an event was imported from a device.
pub fn is_imported_from(e: &Event, device_id: &str) -> (r: bool)
    ensures
        r == imported_from(e@, device_id@),
{
    match read_origin(&e.data) {
        Column::Text(d) => same(d.as_str(), device_id),
        _ => false,
    }
}

/// The id that an imported event had on the device it comes from.
pub open spec fn remote_id(data: JsonV) -> Option<int> {
    match member(data, "_relay"@) {
        Some(m) => integer_column(member(m, "id"@)),
        None => None,
    }
}

/// The digest that was kept with an imported event.
pub open spec fn kept_digest(data: JsonV) -> Option<Seq<char>> {
    match member(data, "_relay"@) {
        Some(m) => member_text(m, "source_digest"@),
        None => None,
    }
}

fn read_digest(data: &Json) -> (r: Option<&str>)
    ensures
        opt_str(r) == kept_digest(data@),
{
    match data.get("_relay") {
        Some(m) => m.get_text("source_digest"),
        None => None,
    }
}

/// The condition that the event at a position was imported from a device, where it had an id.
pub open spec fn import_of(rows: Seq<EventV>, device_id: Seq<char>, id: int) -> spec_fn(int) -> bool {
    |i: int| imported_from(rows[i], device_id) && remote_id(rows[i].data) == Some(id)
}

/// Whether an event that is kept is the one that arrives again.
pub open spec fn same_import(e: EventV, timestamp: Seq<char>, p: PreparedV) -> bool {
    e.kind == p.kind && e.instance == p.instance && e.timestamp == timestamp && match (
        kept_digest(e.data),
        kept_digest(p.data),
    ) {
        (Some(a), Some(b)) => a == b,
        _ => e.data == p.data,
    }
}

/// What came of importing an event.
pub enum RelayImportV {
    Applied(int),
    Duplicate,
    Rejected(Seq<char>),
}

/// What came of importing an event.
#[derive(Debug)]
pub enum RelayV1Import {
    Applied(i64),
    Duplicate,
    Rejected(String),
}

impl View for RelayV1Import {
    type V = RelayImportV;

    open spec fn view(&self) -> RelayImportV {
        match self {
            RelayV1Import::Applied(id) => RelayImportV::Applied(*id as int),
            RelayV1Import::Duplicate => RelayImportV::Duplicate,
            RelayV1Import::Rejected(reason) => RelayImportV::Rejected(reason@),
        }
    }
}

/// The store with a protocol-aware event projected onto it.
pub open spec fn event_projected(
    db: DbV,
    event_id: int,
    timestamp: Seq<char>,
    p: PreparedV,
    route: RouteV,
    attachments: AttachmentsV,
) -> ProjectionV {
    if p.kind == "message"@ {
        message_projected(db, event_id, timestamp, p.data, attachments)
    } else if p.kind == "message_state"@ {
        state_projected(db, event_id, timestamp, p.data, route.device_id, route.short_id)
    } else {
        ProjectionV::Rejected("unsupported protocol-aware relay event"@)
    }
}

/// Why an event is refused whose identity is taken by another one.
pub open spec fn collision_reason(device_id: Seq<char>, id: int) -> Seq<char> {
    "remote event identity collision device="@ + device_id + " id="@ + decimal(id)
}

/// The store after a protocol-aware event of another device is imported, and what came of it. An
/// event that is kept already is projected again, and one that is rejected leaves nothing behind.
pub open spec fn event_imported(
    db: DbV,
    route: RouteV,
    id: int,
    timestamp: Seq<char>,
    p: PreparedV,
    attachments: AttachmentsV,
) -> Result<(DbV, RelayImportV), ErrorV> {
    match first_where(db.events.len() as int, import_of(db.events, route.device_id, id)) {
        Some(i) => if !same_import(db.events[i], timestamp, p) {
            Ok((db, RelayImportV::Rejected(collision_reason(route.device_id, id))))
        } else {
            match event_projected(db, db.events[i].id, timestamp, p, route, attachments) {
                ProjectionV::Applied(d) => Ok((d, RelayImportV::Duplicate)),
                ProjectionV::Rejected(reason) => Ok((db, RelayImportV::Rejected(reason))),
                ProjectionV::Failed(e) => Err(e),
            }
        },
        None => match event_logged(db, timestamp, p.kind, p.instance, p.data) {
            Err(e) => Err(e),
            Ok((d, event_id)) => match event_projected(
                d,
                event_id,
                timestamp,
                p,
                route,
                attachments,
            ) {
                ProjectionV::Applied(d2) => Ok(
                    (
                        DbV { notifications: d2.notifications.push(event_id), ..d2 },
                        RelayImportV::Applied(event_id),
                    ),
                ),
                ProjectionV::Rejected(reason) => Ok((db, RelayImportV::Rejected(reason))),
                ProjectionV::Failed(e) => Err(e),
            },
        },
    }
}

fn is_same_import(e: &Event, timestamp: &str, p: &PreparedEvent) -> (r: bool)
    ensures
        r == same_import(e@, timestamp@, p@),
{
    if !same(e.kind.as_str(), p.kind.as_str()) || !same(e.instance.as_str(), p.instance.as_str())
        || !same(e.timestamp.as_str(), timestamp) {
        return false;
    }
    match (read_digest(&e.data), read_digest(&p.data)) {
        (Some(a), Some(b)) => same(a, b),
        _ => e.data.same(&p.data),
    }
}

impl HcomDb {
    fn find_import(&self, device_id: &str, id: i64) -> (r: Option<usize>)
        ensures
            position(r) == first_where(
                self@.events.len() as int,
                import_of(self@.events, device_id@, id as int),
            ),
            r matches Some(i) ==> i < self.events@.len(),
    {
        let ghost p = import_of(self@.events, device_id@, id as int);
        let mut found: Option<usize> = None;
        let mut i: usize = 0;
        while i < self.events.len()
            invariant
                i <= self.events@.len(),
                p == import_of(self@.events, device_id@, id as int),
                position(found) == first_where(i as int, p),
                found matches Some(k) ==> k < i,
            decreases self.events.len() - i,
        {
            if found.is_none() && is_imported_from(&self.events[i], device_id) {
                let own: Option<i64> = match self.events[i].data.get("_relay") {
                    Some(m) => read_integer_column(m.get("id")),
                    None => None,
                };
                if let Some(n) = own {
                    if n == id {
                        found = Some(i);
                    }
                }
            }
            i += 1;
        }
        found
    }

    fn project_event(
        &mut self,
        event_id: i64,
        timestamp: &str,
        p: &PreparedEvent,
        route: &Route<'_>,
        attachments: &Attachments,
    ) -> (r: Result<Option<String>, LifecycleError>)
        ensures
            extends(old(self)@, final(self)@),
            projects(
                r,
                final(self)@,
                event_projected(
                    old(self)@,
                    event_id as int,
                    timestamp@,
                    p@,
                    route@,
                    attachments@,
                ),
            ),
            final(self)@.sequence == old(self)@.sequence,
    {
        if same(p.kind.as_str(), "message") {
            self.project_imported_message(event_id, timestamp, &p.data, attachments)
        } else if same(p.kind.as_str(), "message_state") {
            self.project_imported_state(event_id, timestamp, &p.data, route.device_id, route.short_id)
        } else {
            Ok(Some("unsupported protocol-aware relay event".to_owned()))
        }
    }

    /// Imports a protocol-aware event of another device. An event that is kept already is projected
    /// again, so that a lost projection is repaired; one that is rejected leaves nothing behind.
    pub fn import_relay_v1_event(
        &mut self,
        route: &Route<'_>,
        remote_event_id: i64,
        timestamp: &str,
        p: &PreparedEvent,
        attachments: &Attachments,
    ) -> (r: Result<RelayV1Import, LifecycleError>)
        ensures
            match r {
                Ok(v) => event_imported(
                    old(self)@,
                    route@,
                    remote_event_id as int,
                    timestamp@,
                    p@,
                    attachments@,
                ) == Ok::<(DbV, RelayImportV), ErrorV>((final(self)@, v@)),
                Err(e) => event_imported(
                    old(self)@,
                    route@,
                    remote_event_id as int,
                    timestamp@,
                    p@,
                    attachments@,
                ) == Err::<(DbV, RelayImportV), ErrorV>(e@) && final(self)@ == old(self)@,
            },
    {
        let point: Savepoint = self.savepoint();
        let known: Option<usize> = self.find_import(route.device_id, remote_event_id);
        let event_id: i64 = match known {
            Some(i) => {
                if !is_same_import(&self.events[i], timestamp, p) {
                    let mut reason: String = cat3(
                        "remote event identity collision device=",
                        route.device_id,
                        " id=",
                    );
                    let id: String = decimal_text(remote_event_id);
                    reason.append(id.as_str());
                    return Ok(RelayV1Import::Rejected(reason));
                }
                self.events[i].id
            },
            None => match self.insert_event(
                timestamp,
                p.kind.as_str(),
                p.instance.as_str(),
                p.data.duplicate(),
            ) {
                Ok(id) => id,
                Err(e) => {
                    return Err(e);
                },
            },
        };
        match self.project_event(event_id, timestamp, p, route, attachments) {
            Ok(None) => {
                if known.is_none() {
                    self.notify(event_id);
                    Ok(RelayV1Import::Applied(event_id))
                } else {
                    Ok(RelayV1Import::Duplicate)
                }
            },
            Ok(Some(reason)) => {
                self.roll_back(point);
                Ok(RelayV1Import::Rejected(reason))
            },
            Err(e) => {
                self.roll_back(point);
                Err(e)
            },
        }
    }
}

/// A time before which what other devices say is out of date. Marks order times: `key` orders
/// them among themselves and is positive where a time is set, and `ceiling` is the least whole
/// second that is not before the time.
#[derive(Debug, Clone, Copy)]
pub struct ResetMark {
    pub key: i64,
    pub ceiling: i64,
}

/// An event as another device has sent it: its value, what normalising its attachments gave, and
/// the order key of its time stamp where that is a number.
#[derive(Debug)]
pub struct RemoteEvent {
    pub body: Json,
    pub attachments: Attachments,
    pub stamp_key: i64,
}

/// The view of a [`RemoteEvent`].
pub struct RemoteEventV {
    pub body: JsonV,
    pub attachments: AttachmentsV,
    pub stamp_key: int,
}

impl View for RemoteEvent {
    type V = RemoteEventV;

    open spec fn view(&self) -> RemoteEventV {
        RemoteEventV {
            body: self.body@,
            attachments: self.attachments@,
            stamp_key: self.stamp_key as int,
        }
    }
}

/// Whether an event is older than a reset.
pub open spec fn outdated(e: RemoteEventV, reset: ResetMark) -> bool {
    reset.key > 0 && match member(e.body, "ts"@) {
        Some(JsonV::Int(_)) => 0 < e.stamp_key < reset.key,
        Some(JsonV::Real(_)) => 0 < e.stamp_key < reset.key,
        Some(JsonV::Text(s)) => 0 < instant_seconds(s) < reset.ceiling,
        _ => false,
    }
}

/// The time stamp of an event as it is kept.
pub open spec fn stamp_text(body: JsonV) -> Seq<char> {
    match member(body, "ts"@) {
        Some(JsonV::Text(s)) => s,
        Some(JsonV::Int(n)) => decimal(n),
        Some(JsonV::Real(s)) => s,
        _ => ""@,
    }
}

fn is_outdated(e: &RemoteEvent, reset: &ResetMark) -> (r: bool)
    ensures
        r == outdated(e@, *reset),
{
    if reset.key <= 0 {
        return false;
    }
    match e.body.get("ts") {
        Some(Json::Int(_)) => 0 < e.stamp_key && e.stamp_key < reset.key,
        Some(Json::Real(_)) => 0 < e.stamp_key && e.stamp_key < reset.key,
        Some(Json::Text(s)) => {
            let n: i64 = parse_instant(s.as_str());
            0 < n && n < reset.ceiling
        },
        _ => false,
    }
}

fn read_stamp(body: &Json) -> (r: String)
    ensures
        r@ == stamp_text(body@),
{
    match body.get("ts") {
        Some(Json::Text(s)) => s.clone(),
        Some(Json::Int(n)) => decimal_text(*n),
        Some(Json::Real(s)) => s.clone(),
        _ => "".to_owned(),
    }
}

/// Whether an event is meant for the device and not for the log.
pub open spec fn is_internal(body: JsonV) -> bool {
    member_text(body, "type"@) == Some("control"@) || member_text(body, "instance"@) == Some(
        "_device"@,
    )
}

/// How far the events of another device have been taken in.
pub struct ProgressV {
    pub db: DbV,
    pub newest: int,
    pub stopped: bool,
}

/// The store with an event of another device put on the log as it is; the event is lost where the
/// log can take no more.
pub open spec fn plainly_logged(db: DbV, timestamp: Seq<char>, p: PreparedV) -> DbV {
    match event_logged(db, timestamp, p.kind, p.instance, p.data) {
        Err(_) => db,
        Ok((d, id)) => DbV { notifications: d.notifications.push(id), ..d },
    }
}

/// The newest id so far, where the ids up to `last` have been seen before.
pub open spec fn newest_of(newest: int, id: int, last: int) -> int {
    if id > last && id > newest {
        id
    } else {
        newest
    }
}

/// How far the events have been taken in after one more. A failure stops the rest.
pub open spec fn taken_in(s: ProgressV, e: RemoteEventV, route: RouteV, reset: ResetMark, last: int) -> ProgressV {
    if s.stopped || is_internal(e.body) {
        s
    } else {
        match member_int(e.body, "id"@) {
            None => s,
            Some(id) => {
                let p = prepared(s.db, e.body, route, id);
                let aware = protocol_aware(p.kind, p.data);
                let timestamp = stamp_text(e.body);
                if outdated(e, reset) || (id <= last && !aware) {
                    s
                } else if aware {
                    match event_imported(s.db, route, id, timestamp, p, e.attachments) {
                        Err(_) => ProgressV { stopped: true, ..s },
                        Ok((d, _)) => ProgressV {
                            db: d,
                            newest: newest_of(s.newest, id, last),
                            stopped: false,
                        },
                    }
                } else {
                    ProgressV {
                        db: plainly_logged(s.db, timestamp, p),
                        newest: newest_of(s.newest, id, last),
                        stopped: false,
                    }
                }
            },
        }
    }
}

/// How far the first `n` events have been taken in.
pub open spec fn all_taken_in(
    db: DbV,
    events: Seq<RemoteEventV>,
    route: RouteV,
    reset: ResetMark,
    last: int,
    n: int,
) -> ProgressV
    decreases n,
{
    if n <= 0 {
        ProgressV { db, newest: last, stopped: false }
    } else {
        taken_in(
            all_taken_in(db, events, route, reset, last, n - 1),
            events[n - 1],
            route,
            reset,
            last,
        )
    }
}

/// The highest id among the first `n` events, control events aside.
pub open spec fn highest_id(events: Seq<RemoteEventV>, n: int) -> Option<int>
    decreases n,
{
    if n <= 0 {
        None
    } else {
        let best = highest_id(events, n - 1);
        let body = events[n - 1].body;
        match member_int(body, "id"@) {
            Some(id) => if member_text(body, "type"@) != Some("control"@) && (best is None || id
                > best->0) {
                Some(id)
            } else {
                best
            },
            None => best,
        }
    }
}

/// Whether the ids of another device have started over, though its events up to `last` have been
/// seen.
pub open spec fn ids_regressed(events: Seq<RemoteEventV>, last: int) -> bool {
    last > 0 && match highest_id(events, events.len() as int) {
        Some(max) => 0 < max < last,
        None => false,
    }
}

/// The key under which the newest event seen of a device is kept.
pub open spec fn cursor_key(device_id: Seq<char>) -> Seq<char> {
    "relay_events_"@ + device_id
}

/// The newest event that has been seen of a device.
pub open spec fn seen_up_to(db: DbV, device_id: Seq<char>) -> int {
    match db.kv_value(cursor_key(device_id)) {
        None => 0,
        Some(s) => match parse_signed(s) {
            Some(n) => n,
            None => 0,
        },
    }
}

/// The store after the events of another device are taken in from a point.
pub open spec fn taken_in_from(
    db: DbV,
    route: RouteV,
    events: Seq<RemoteEventV>,
    reset: ResetMark,
    last: int,
) -> DbV {
    let s = all_taken_in(db, events, route, reset, last, events.len() as int);
    if s.newest > last {
        kv_put(s.db, cursor_key(route.device_id), Some(decimal(s.newest)))
    } else {
        s.db
    }
}

/// The store after the events of another device are imported. Where its ids have started over,
/// what was imported from it before is forgotten first.
pub open spec fn events_imported(
    db: DbV,
    route: RouteV,
    events: Seq<RemoteEventV>,
    reset: ResetMark,
) -> DbV {
    let last = seen_up_to(db, route.device_id);
    if ids_regressed(events, last) {
        match cleaned(db, route.device_id) {
            Err(_) => db,
            Ok(d) => taken_in_from(
                kv_put(
                    without_device(d, route.device_id),
                    cursor_key(route.device_id),
                    Some("0"@),
                ),
                route,
                events,
                reset,
                0,
            ),
        }
    } else {
        taken_in_from(db, route, events, reset, last)
    }
}

fn find_highest_id(events: &Vec<RemoteEvent>) -> (r: Option<i64>)
    ensures
        crate::store::opt_id(r) == highest_id(views(events@), events@.len() as int),
{
    let mut best: Option<i64> = None;
    let mut i: usize = 0;
    while i < events.len()
        invariant
            i <= events@.len(),
            crate::store::opt_id(best) == highest_id(views(events@), i as int),
        decreases events.len() - i,
    {
        assert(views(events@)[i as int] == events@[i as int]@);
        if let Some(id) = events[i].body.get_int("id") {
            let control: bool = same_opt(events[i].body.get_text("type"), "control");
            if !control && match best {
                None => true,
                Some(n) => id > n,
            } {
                best = Some(id);
            }
        }
        i += 1;
    }
    best
}

impl HcomDb {
    fn log_plainly(&mut self, timestamp: &str, p: &PreparedEvent)
        ensures
            final(self)@ == plainly_logged(old(self)@, timestamp@, p@),
    {
        if let Ok(id) = self.insert_event(
            timestamp,
            p.kind.as_str(),
            p.instance.as_str(),
            p.data.duplicate(),
        ) {
            self.notify(id);
        }
    }

    fn take_in_from(
        &mut self,
        route: &Route<'_>,
        events: &Vec<RemoteEvent>,
        reset: &ResetMark,
        last: i64,
    )
        ensures
            final(self)@ == taken_in_from(
                old(self)@,
                route@,
                views(events@),
                *reset,
                last as int,
            ),
    {
        let ghost start = self@;
        let mut newest: i64 = last;
        let mut stopped: bool = false;
        let mut n: usize = 0;
        while n < events.len()
            invariant
                n <= events@.len(),
                newest >= last,
                all_taken_in(start, views(events@), route@, *reset, last as int, n as int) == (
                ProgressV { db: self@, newest: newest as int, stopped }),
            decreases events.len() - n,
        {
            let e: &RemoteEvent = &events[n];
            assert(views(events@)[n as int] == e@);
            let internal: bool = same_opt(e.body.get_text("type"), "control") || same_opt(
                e.body.get_text("instance"),
                "_device",
            );
            if !stopped && !internal {
                if let Some(id) = e.body.get_int("id") {
                    let p: PreparedEvent = self.prepare_remote_event(&e.body, route, id);
                    let aware: bool = crate::relay::is_protocol_aware(p.kind.as_str(), &p.data);
                    let timestamp: String = read_stamp(&e.body);
                    if !is_outdated(e, reset) && (id > last || aware) {
                        if aware {
                            match self.import_relay_v1_event(
                                route,
                                id,
                                timestamp.as_str(),
                                &p,
                                &e.attachments,
                            ) {
                                Ok(_) => {},
                                Err(_) => {
                                    stopped = true;
                                },
                            }
                        } else {
                            self.log_plainly(timestamp.as_str(), &p);
                        }
                        if !stopped && id > last && id > newest {
                            newest = id;
                        }
                    }
                }
            }
            n += 1;
        }
        if newest > last {
            let key: String = cat("relay_events_", route.device_id);
            let value: String = decimal_text(newest);
            self.kv_set(key.as_str(), Some(value.as_str()));
        }
    }

    /// Imports the events of another device. Events up to the newest one seen before are left out,
    /// but those of the message protocol are projected again. Where the ids of the device have
    /// started over, what was imported from it before is forgotten first.
    pub fn import_remote_events(
        &mut self,
        route: &Route<'_>,
        events: &Vec<RemoteEvent>,
        reset: &ResetMark,
    )
        ensures
            final(self)@ == events_imported(old(self)@, route@, views(events@), *reset),
    {
        let key: String = cat("relay_events_", route.device_id);
        let last: i64 = match self.kv_get(key.as_str()) {
            None => 0,
            Some(s) => match parse_i64(s) {
                Some(n) => n,
                None => 0,
            },
        };
        let regressed: bool = last > 0 && match find_highest_id(events) {
            Some(max) => 0 < max && max < last,
            None => false,
        };
        if regressed {
            if self.cleanup_imported_events_for_device(route.device_id).is_err() {
                return;
            }
            self.remove_device_instances(route.device_id);
            self.kv_set(key.as_str(), Some("0"));
            self.take_in_from(route, events, reset, 0);
        } else {
            self.take_in_from(route, events, reset, last);
        }
    }
}

/// A value that was set is read, a key that was not is not changed by it, and a key that has none has
/// nothing to read.
pub proof fn kept_values_are_read(db: &mut HcomDb, key: &str, value: &str, r: Option<&str>, other: &str, before: Option<&str>, after: Option<&str>)
    requires
        call_ensures(HcomDb::kv_set, (db, key, Some(value)), ()),
        call_ensures(HcomDb::kv_get, (&*final(db), key), r),
        call_ensures(HcomDb::kv_get, (&*old(db), other), before),
        call_ensures(HcomDb::kv_get, (&*final(db), other), after),
    ensures
        r matches Some(s) && s@ == value@,
        other@ != key@ ==> opt_str(after) == opt_str(before),
        final(db)@.events == old(db)@.events && final(db)@.deliveries == old(db)@.deliveries && final(db)@.instances == old(db)@.instances,
{
    crate::replication::kept_values_read_back(old(db)@, key@, value@, other@);
}

/// An event comes from a device where it says so.
pub proof fn imports_name_their_device(e: Event, device_id: &str, r: bool)
    requires
        call_ensures(is_imported_from, (&e, device_id), r),
    ensures
        member(e.data@, "_relay"@) is None ==> !r,
        (member(e.data@, "_relay"@) matches Some(m) && member(m, "device"@) == Some(JsonV::Text(device_id@))) ==> r,
        (member(e.data@, "_relay"@) matches Some(m) && (member(m, "device"@) matches Some(JsonV::Text(s)) && s != device_id@)) ==> !r,
{
}

} // verus!
