//! Forgetting what another device has sent.

use crate::columns::{Column, ColumnV, column, read_column};
use crate::json::member;
use crate::rows::{lemma_views_push, lemma_views_update, views};
use crate::search::position;
use crate::store::{
    DbV, Delivery, DeliveryV, ErrorKind, ErrorV, Event, EventV, HcomDb, Instance, InstanceV,
    LifecycleError, MESSAGE_PROTOCOL_V1, MessageRecord, RecordV, leaves, plain, refuse,
};
use crate::sync::{imported_from, is_imported_from};
use crate::text::{same, same_opt};
use vstd::prelude::*;

verus! {

/// The key of a delivery.
pub struct DeliveryKeyV {
    pub message_id: Seq<char>,
    pub recipient: Seq<char>,
}

/// The key of a delivery.
struct DeliveryKey {
    message_id: String,
    recipient: String,
}

impl View for DeliveryKey {
    type V = DeliveryKeyV;

    closed spec fn view(&self) -> DeliveryKeyV {
        DeliveryKeyV { message_id: self.message_id@, recipient: self.recipient@ }
    }
}

/// Whether an event logs a transition in the message protocol.
pub open spec fn is_transition(e: EventV) -> bool {
    e.kind == "message_state"@ && column(member(e.data, "protocol"@)) == ColumnV::Text(
        MESSAGE_PROTOCOL_V1@,
    )
}

fn logs_transition(e: &Event) -> (r: bool)
    ensures
        r == is_transition(e@),
{
    if !same(e.kind.as_str(), "message_state") {
        return false;
    }
    match read_column(e.data.get("protocol")) {
        Column::Text(s) => same(s.as_str(), MESSAGE_PROTOCOL_V1),
        _ => false,
    }
}

/// A list of keys with the one that two columns hold.
pub open spec fn with_key(s: Seq<DeliveryKeyV>, message_id: ColumnV, recipient: ColumnV) -> Result<
    Seq<DeliveryKeyV>,
    ErrorV,
> {
    match (message_id, recipient) {
        (ColumnV::Text(m), ColumnV::Text(r)) => Ok(
            s.push(DeliveryKeyV { message_id: m, recipient: r }),
        ),
        _ => Err(plain(ErrorKind::ColumnNotText)),
    }
}

/// The keys of the deliveries that the transitions among the first `n` events speak of, as far as
/// they were imported from a device.
pub open spec fn moved_keys(db: DbV, device_id: Seq<char>, n: int) -> Result<
    Seq<DeliveryKeyV>,
    ErrorV,
>
    decreases n,
{
    if n <= 0 {
        Ok(Seq::empty())
    } else {
        match moved_keys(db, device_id, n - 1) {
            Err(e) => Err(e),
            Ok(s) => {
                let e = db.events[n - 1];
                let recipient = column(member(e.data, "recipient"@));
                if is_transition(e) && imported_from(e, device_id) && !(recipient is Absent) {
                    with_key(s, column(member(e.data, "message_id"@)), recipient)
                } else {
                    Ok(s)
                }
            },
        }
    }
}

/// The keys with those of the deliveries that the first `n` messages answer, as far as they were
/// imported from a device.
pub open spec fn answered_keys(
    db: DbV,
    device_id: Seq<char>,
    first: Seq<DeliveryKeyV>,
    n: int,
) -> Result<Seq<DeliveryKeyV>, ErrorV>
    decreases n,
{
    if n <= 0 {
        Ok(first)
    } else {
        match answered_keys(db, device_id, first, n - 1) {
            Err(e) => Err(e),
            Ok(s) => match db.event(db.records[n - 1].event_id) {
                None => Ok(s),
                Some(e) => {
                    let parent = column(member(e.data, "in_reply_to"@));
                    if imported_from(e, device_id) && !(parent is Absent) {
                        with_key(s, parent, column(member(e.data, "from"@)))
                    } else {
                        Ok(s)
                    }
                },
            },
        }
    }
}

/// Whether a record is of a message that was imported from a device.
pub open spec fn record_from(db: DbV, r: RecordV, device_id: Seq<char>) -> bool {
    db.event(r.event_id) matches Some(e) && imported_from(e, device_id)
}

/// Whether a delivery is of a message that was imported from a device.
pub open spec fn delivery_from(db: DbV, row: DeliveryV, device_id: Seq<char>) -> bool {
    db.record(row.message_id) matches Some(r) && record_from(db, r, device_id)
}

/// The store without what was imported from a device.
pub open spec fn purged(db: DbV, device_id: Seq<char>) -> DbV {
    DbV {
        events: db.events.filter(|e: EventV| !imported_from(e, device_id)),
        records: db.records.filter(|r: RecordV| !record_from(db, r, device_id)),
        deliveries: db.deliveries.filter(|row: DeliveryV| !delivery_from(db, row, device_id)),
        ..db
    }
}

/// Whether an event logs a transition of a delivery.
pub open spec fn moves(e: EventV, key: DeliveryKeyV) -> bool {
    is_transition(e) && column(member(e.data, "message_id"@)) == ColumnV::Text(key.message_id)
        && column(member(e.data, "recipient"@)) == ColumnV::Text(key.recipient)
}

/// The position of the last of the first `n` events that logs a transition of a delivery.
pub open spec fn last_move(events: Seq<EventV>, key: DeliveryKeyV, n: int) -> Option<int>
    decreases n,
{
    if n <= 0 {
        None
    } else if moves(events[n - 1], key) {
        Some(n - 1)
    } else {
        last_move(events, key, n - 1)
    }
}

/// The store with a delivery put back to where the last transition that is still on the log has
/// brought it, or to queued where there is none.
pub open spec fn rebuilt(db: DbV, key: DeliveryKeyV) -> Result<DbV, ErrorV> {
    let pos = db.delivery_pos(key.message_id, key.recipient);
    match last_move(db.events, key, db.events.len() as int) {
        Some(i) => {
            let e = db.events[i];
            match (
                column(member(e.data, "new_state"@)),
                column(member(e.data, "endpoint_epoch"@)),
                column(member(e.data, "actor"@)),
            ) {
                (ColumnV::Text(state), ColumnV::Text(epoch), ColumnV::Text(actor)) => match pos {
                    None => Ok(db),
                    Some(k) => Ok(
                        DbV {
                            deliveries: db.deliveries.update(
                                k,
                                DeliveryV {
                                    state,
                                    endpoint_epoch: epoch,
                                    state_event_id: Some(e.id),
                                    last_actor: actor,
                                    updated_at: e.timestamp,
                                    ..db.deliveries[k]
                                },
                            ),
                            ..db
                        },
                    ),
                },
                _ => Err(plain(ErrorKind::ColumnNotText)),
            }
        },
        None => match (pos, db.record(key.message_id)) {
            (Some(k), Some(r)) => Ok(
                DbV {
                    deliveries: db.deliveries.update(
                        k,
                        DeliveryV {
                            state: "queued"@,
                            state_event_id: Some(r.event_id),
                            last_actor: r.sender_name,
                            updated_at: r.created_at,
                            ..db.deliveries[k]
                        },
                    ),
                    ..db
                },
            ),
            _ => Ok(db),
        },
    }
}

/// The store with the deliveries of the first `n` keys rebuilt.
pub open spec fn all_rebuilt(db: DbV, keys: Seq<DeliveryKeyV>, n: int) -> Result<DbV, ErrorV>
    decreases n,
{
    if n <= 0 {
        Ok(db)
    } else {
        match all_rebuilt(db, keys, n - 1) {
            Err(e) => Err(e),
            Ok(d) => rebuilt(d, keys[n - 1]),
        }
    }
}

/// The store without what was imported from a device, with the deliveries that it had moved put
/// back to where what remains on the log has brought them.
pub open spec fn cleaned(db: DbV, device_id: Seq<char>) -> Result<DbV, ErrorV> {
    match moved_keys(db, device_id, db.events.len() as int) {
        Err(e) => Err(e),
        Ok(first) => match answered_keys(db, device_id, first, db.records.len() as int) {
            Err(e) => Err(e),
            Ok(keys) => all_rebuilt(purged(db, device_id), keys, keys.len() as int),
        },
    }
}

proof fn lemma_moved_keys_fail(db: DbV, device_id: Seq<char>, n: int, m: int, e: ErrorV)
    requires
        0 <= n <= m,
        moved_keys(db, device_id, n) == Err::<Seq<DeliveryKeyV>, ErrorV>(e),
    ensures
        moved_keys(db, device_id, m) == Err::<Seq<DeliveryKeyV>, ErrorV>(e),
    decreases m - n,
{
    if n < m {
        lemma_moved_keys_fail(db, device_id, n, m - 1, e);
    }
}

proof fn lemma_answered_keys_fail(
    db: DbV,
    device_id: Seq<char>,
    first: Seq<DeliveryKeyV>,
    n: int,
    m: int,
    e: ErrorV,
)
    requires
        0 <= n <= m,
        answered_keys(db, device_id, first, n) == Err::<Seq<DeliveryKeyV>, ErrorV>(e),
    ensures
        answered_keys(db, device_id, first, m) == Err::<Seq<DeliveryKeyV>, ErrorV>(e),
    decreases m - n,
{
    if n < m {
        lemma_answered_keys_fail(db, device_id, first, n, m - 1, e);
    }
}

proof fn lemma_all_rebuilt_fails(db: DbV, keys: Seq<DeliveryKeyV>, n: int, m: int, e: ErrorV)
    requires
        0 <= n <= m,
        all_rebuilt(db, keys, n) == Err::<DbV, ErrorV>(e),
    ensures
        all_rebuilt(db, keys, m) == Err::<DbV, ErrorV>(e),
    decreases m - n,
{
    if n < m {
        lemma_all_rebuilt_fails(db, keys, n, m - 1, e);
    }
}

fn push_key(v: &mut Vec<DeliveryKey>, message_id: Column, recipient: Column) -> (r: Result<
    (),
    LifecycleError,
>)
    ensures
        match r {
            Ok(()) => with_key(views(old(v)@), message_id@, recipient@) == Ok::<
                Seq<DeliveryKeyV>,
                ErrorV,
            >(views(final(v)@)),
            Err(e) => with_key(views(old(v)@), message_id@, recipient@) == Err::<
                Seq<DeliveryKeyV>,
                ErrorV,
            >(e@),
        },
{
    match (message_id, recipient) {
        (Column::Text(m), Column::Text(r)) => {
            let key: DeliveryKey = DeliveryKey { message_id: m, recipient: r };
            proof {
                lemma_views_push(v@, key);
            }
            v.push(key);
            Ok(())
        },
        _ => Err(refuse(ErrorKind::ColumnNotText)),
    }
}

fn is_move(e: &Event, key: &DeliveryKey) -> (r: bool)
    ensures
        r == moves(e@, key@),
{
    if !logs_transition(e) {
        return false;
    }
    match (read_column(e.data.get("message_id")), read_column(e.data.get("recipient"))) {
        (Column::Text(m), Column::Text(r)) => same(m.as_str(), key.message_id.as_str()) && same(
            r.as_str(),
            key.recipient.as_str(),
        ),
        _ => false,
    }
}

impl HcomDb {
    fn collect_moved_keys(&self, device_id: &str) -> (r: Result<Vec<DeliveryKey>, LifecycleError>)
        ensures
            match r {
                Ok(v) => moved_keys(self@, device_id@, self@.events.len() as int) == Ok::<
                    Seq<DeliveryKeyV>,
                    ErrorV,
                >(views(v@)),
                Err(e) => moved_keys(self@, device_id@, self@.events.len() as int) == Err::<
                    Seq<DeliveryKeyV>,
                    ErrorV,
                >(e@),
            },
    {
        let mut keys: Vec<DeliveryKey> = Vec::new();
        assert(views(keys@) =~= Seq::<DeliveryKeyV>::empty());
        let mut n: usize = 0;
        while n < self.events.len()
            invariant
                n <= self.events@.len(),
                moved_keys(self@, device_id@, n as int) == Ok::<Seq<DeliveryKeyV>, ErrorV>(
                    views(keys@),
                ),
            decreases self.events.len() - n,
        {
            let e: &Event = &self.events[n];
            assert(e@ == self@.events[n as int]);
            if logs_transition(e) && is_imported_from(e, device_id) {
                let recipient: Column = read_column(e.data.get("recipient"));
                if !matches!(recipient, Column::Absent) {
                    let message_id: Column = read_column(e.data.get("message_id"));
                    if let Err(e) = push_key(&mut keys, message_id, recipient) {
                        proof {
                            lemma_moved_keys_fail(
                                self@,
                                device_id@,
                                n as int + 1,
                                self@.events.len() as int,
                                e@,
                            );
                        }
                        return Err(e);
                    }
                }
            }
            n += 1;
        }
        Ok(keys)
    }

    fn collect_answered_keys(&self, device_id: &str, first: Vec<DeliveryKey>) -> (r: Result<
        Vec<DeliveryKey>,
        LifecycleError,
    >)
        ensures
            match r {
                Ok(v) => answered_keys(
                    self@,
                    device_id@,
                    views(first@),
                    self@.records.len() as int,
                ) == Ok::<Seq<DeliveryKeyV>, ErrorV>(views(v@)),
                Err(e) => answered_keys(
                    self@,
                    device_id@,
                    views(first@),
                    self@.records.len() as int,
                ) == Err::<Seq<DeliveryKeyV>, ErrorV>(e@),
            },
    {
        let ghost start = views(first@);
        let mut keys: Vec<DeliveryKey> = first;
        let mut n: usize = 0;
        while n < self.records.len()
            invariant
                n <= self.records@.len(),
                start == views(first@),
                answered_keys(self@, device_id@, start, n as int) == Ok::<Seq<DeliveryKeyV>, ErrorV>(
                    views(keys@),
                ),
            decreases self.records.len() - n,
        {
            assert(self@.records[n as int] == self.records@[n as int]@);
            if let Some(j) = self.find_event(self.records[n].event_id) {
                let e: &Event = &self.events[j];
                if is_imported_from(e, device_id) {
                    let parent: Column = read_column(e.data.get("in_reply_to"));
                    if !matches!(parent, Column::Absent) {
                        let from: Column = read_column(e.data.get("from"));
                        if let Err(e) = push_key(&mut keys, parent, from) {
                            proof {
                                lemma_answered_keys_fail(
                                    self@,
                                    device_id@,
                                    start,
                                    n as int + 1,
                                    self@.records.len() as int,
                                    e@,
                                );
                            }
                            return Err(e);
                        }
                    }
                }
            }
            n += 1;
        }
        Ok(keys)
    }

    fn is_record_from(&self, r: &MessageRecord, device_id: &str) -> (b: bool)
        ensures
            b == record_from(self@, r@, device_id@),
    {
        match self.find_event(r.event_id) {
            Some(j) => is_imported_from(&self.events[j], device_id),
            None => false,
        }
    }

    fn kept_events(&self, device_id: &str) -> (r: Vec<Event>)
        ensures
            views(r@) == purged(self@, device_id@).events,
    {
        let ghost keep = |e: EventV| !imported_from(e, device_id@);
        let ghost rows = self@.events;
        let mut out: Vec<Event> = Vec::new();
        let mut i: usize = 0;
        proof {
            reveal(Seq::filter);
            assert(rows.take(0) =~= Seq::<EventV>::empty());
            assert(views(out@) =~= rows.take(0).filter(keep));
        }
        while i < self.events.len()
            invariant
                i <= self.events@.len(),
                rows == self@.events,
                keep == (|e: EventV| !imported_from(e, device_id@)),
                views(out@) == rows.take(i as int).filter(keep),
            decreases self.events.len() - i,
        {
            proof {
                reveal(Seq::filter);
                assert(rows.take(i as int + 1).drop_last() =~= rows.take(i as int));
                assert(rows.take(i as int + 1).last() == self.events@[i as int]@);
            }
            if !is_imported_from(&self.events[i], device_id) {
                let row: Event = self.events[i].duplicate();
                proof {
                    lemma_views_push(out@, row);
                }
                out.push(row);
            }
            i += 1;
        }
        assert(rows.take(rows.len() as int) =~= rows);
        out
    }

    fn kept_records(&self, device_id: &str) -> (r: Vec<MessageRecord>)
        ensures
            views(r@) == purged(self@, device_id@).records,
    {
        let ghost keep = |r: RecordV| !record_from(self@, r, device_id@);
        let ghost rows = self@.records;
        let mut out: Vec<MessageRecord> = Vec::new();
        let mut i: usize = 0;
        proof {
            reveal(Seq::filter);
            assert(rows.take(0) =~= Seq::<RecordV>::empty());
            assert(views(out@) =~= rows.take(0).filter(keep));
        }
        while i < self.records.len()
            invariant
                i <= self.records@.len(),
                rows == self@.records,
                keep == (|r: RecordV| !record_from(self@, r, device_id@)),
                views(out@) == rows.take(i as int).filter(keep),
            decreases self.records.len() - i,
        {
            proof {
                reveal(Seq::filter);
                assert(rows.take(i as int + 1).drop_last() =~= rows.take(i as int));
                assert(rows.take(i as int + 1).last() == self.records@[i as int]@);
            }
            if !self.is_record_from(&self.records[i], device_id) {
                let row: MessageRecord = self.records[i].duplicate();
                proof {
                    lemma_views_push(out@, row);
                }
                out.push(row);
            }
            i += 1;
        }
        assert(rows.take(rows.len() as int) =~= rows);
        out
    }

    fn kept_deliveries(&self, device_id: &str) -> (r: Vec<Delivery>)
        ensures
            views(r@) == purged(self@, device_id@).deliveries,
    {
        let ghost keep = |row: DeliveryV| !delivery_from(self@, row, device_id@);
        let ghost rows = self@.deliveries;
        let mut out: Vec<Delivery> = Vec::new();
        let mut i: usize = 0;
        proof {
            reveal(Seq::filter);
            assert(rows.take(0) =~= Seq::<DeliveryV>::empty());
            assert(views(out@) =~= rows.take(0).filter(keep));
        }
        while i < self.deliveries.len()
            invariant
                i <= self.deliveries@.len(),
                rows == self@.deliveries,
                keep == (|row: DeliveryV| !delivery_from(self@, row, device_id@)),
                views(out@) == rows.take(i as int).filter(keep),
            decreases self.deliveries.len() - i,
        {
            proof {
                reveal(Seq::filter);
                assert(rows.take(i as int + 1).drop_last() =~= rows.take(i as int));
                assert(rows.take(i as int + 1).last() == self.deliveries@[i as int]@);
            }
            let gone: bool = match self.find_record(self.deliveries[i].message_id.as_str()) {
                Some(k) => self.is_record_from(&self.records[k], device_id),
                None => false,
            };
            if !gone {
                let row: Delivery = self.deliveries[i].duplicate();
                proof {
                    lemma_views_push(out@, row);
                }
                out.push(row);
            }
            i += 1;
        }
        assert(rows.take(rows.len() as int) =~= rows);
        out
    }

    fn find_last_move(&self, key: &DeliveryKey) -> (r: Option<usize>)
        ensures
            position(r) == last_move(self@.events, key@, self@.events.len() as int),
            r matches Some(i) ==> i < self.events@.len(),
    {
        let mut n: usize = self.events.len();
        while n > 0
            invariant
                n <= self.events@.len(),
                last_move(self@.events, key@, self@.events.len() as int) == last_move(
                    self@.events,
                    key@,
                    n as int,
                ),
            decreases n,
        {
            if is_move(&self.events[n - 1], key) {
                return Some(n - 1);
            }
            n = n - 1;
        }
        None
    }

    fn rebuild(&mut self, key: &DeliveryKey) -> (r: Result<(), LifecycleError>)
        ensures
            leaves(r, final(self)@, rebuilt(old(self)@, key@)),
            final(self)@ == (DbV { deliveries: final(self)@.deliveries, ..old(self)@ }),
    {
        let pos: Option<usize> = self.find_delivery(
            key.message_id.as_str(),
            key.recipient.as_str(),
        );
        match self.find_last_move(key) {
            Some(i) => {
                let e: &Event = &self.events[i];
                assert(e@ == self@.events[i as int]);
                match (
                    read_column(e.data.get("new_state")),
                    read_column(e.data.get("endpoint_epoch")),
                    read_column(e.data.get("actor")),
                ) {
                    (Column::Text(state), Column::Text(epoch), Column::Text(actor)) => {
                        if let Some(k) = pos {
                            let mut row: Delivery = self.deliveries[k].duplicate();
                            row.state = state;
                            row.endpoint_epoch = epoch;
                            row.state_event_id = Some(e.id);
                            row.last_actor = actor;
                            row.updated_at = e.timestamp.clone();
                            proof {
                                lemma_views_update(self.deliveries@, k as int, row);
                            }
                            self.deliveries.set(k, row);
                        }
                        Ok(())
                    },
                    _ => Err(refuse(ErrorKind::ColumnNotText)),
                }
            },
            None => {
                if let Some(k) = pos {
                    if let Some(i) = self.find_record(key.message_id.as_str()) {
                        let mut row: Delivery = self.deliveries[k].duplicate();
                        row.state = "queued".to_owned();
                        row.state_event_id = Some(self.records[i].event_id);
                        row.last_actor = self.records[i].sender_name.clone();
                        row.updated_at = self.records[i].created_at.clone();
                        proof {
                            lemma_views_update(self.deliveries@, k as int, row);
                        }
                        self.deliveries.set(k, row);
                    }
                }
                Ok(())
            },
        }
    }

    /// Forgets what was imported from a device, and puts the deliveries that it had moved back to
    /// where what remains on the log has brought them. Either all of it is done or nothing is.
    pub fn cleanup_imported_events_for_device(&mut self, device_id: &str) -> (r: Result<
        (),
        LifecycleError,
    >)
        ensures
            leaves(r, final(self)@, cleaned(old(self)@, device_id@)),
            r is Err ==> final(self)@ == old(self)@,
    {
        let first: Vec<DeliveryKey> = match self.collect_moved_keys(device_id) {
            Ok(v) => v,
            Err(e) => {
                return Err(e);
            },
        };
        let keys: Vec<DeliveryKey> = match self.collect_answered_keys(device_id, first) {
            Ok(v) => v,
            Err(e) => {
                return Err(e);
            },
        };
        let mut events: Vec<Event> = self.kept_events(device_id);
        let mut records: Vec<MessageRecord> = self.kept_records(device_id);
        let mut deliveries: Vec<Delivery> = self.kept_deliveries(device_id);
        std::mem::swap(&mut self.events, &mut events);
        std::mem::swap(&mut self.records, &mut records);
        std::mem::swap(&mut self.deliveries, &mut deliveries);
        let ghost start = self@;
        assert(start =~= purged(old(self)@, device_id@));
        let mut n: usize = 0;
        while n < keys.len()
            invariant
                n <= keys@.len(),
                all_rebuilt(start, views(keys@), n as int) == Ok::<DbV, ErrorV>(self@),
                self@ == (DbV { deliveries: self@.deliveries, ..start }),
                views(events@) == old(self)@.events,
                views(records@) == old(self)@.records,
                views(deliveries@) == old(self)@.deliveries,
                start == purged(old(self)@, device_id@),
                cleaned(old(self)@, device_id@) == all_rebuilt(
                    start,
                    views(keys@),
                    keys@.len() as int,
                ),
            decreases keys.len() - n,
        {
            assert(views(keys@)[n as int] == keys@[n as int]@);
            if let Err(e) = self.rebuild(&keys[n]) {
                proof {
                    lemma_all_rebuilt_fails(
                        start,
                        views(keys@),
                        n as int + 1,
                        keys@.len() as int,
                        e@,
                    );
                }
                self.events = events;
                self.records = records;
                self.deliveries = deliveries;
                assert(self@ =~= old(self)@);
                return Err(e);
            }
            n += 1;
        }
        Ok(())
    }

    /// Removes the instances that live on a device.
    pub fn remove_device_instances(&mut self, device_id: &str)
        ensures
            final(self)@ == without_device(old(self)@, device_id@),
    {
        let ghost keep = |i: InstanceV| i.origin_device_id != Some(device_id@);
        let ghost rows = self@.instances;
        let mut out: Vec<Instance> = Vec::new();
        let mut i: usize = 0;
        proof {
            reveal(Seq::filter);
            assert(rows.take(0) =~= Seq::<InstanceV>::empty());
            assert(views(out@) =~= rows.take(0).filter(keep));
        }
        while i < self.instances.len()
            invariant
                i <= self.instances@.len(),
                rows == self@.instances,
                self@ == old(self)@,
                keep == (|i: InstanceV| i.origin_device_id != Some(device_id@)),
                views(out@) == rows.take(i as int).filter(keep),
            decreases self.instances.len() - i,
        {
            proof {
                reveal(Seq::filter);
                assert(rows.take(i as int + 1).drop_last() =~= rows.take(i as int));
                assert(rows.take(i as int + 1).last() == self.instances@[i as int]@);
            }
            if !same_opt(crate::text::as_opt_str(&self.instances[i].origin_device_id), device_id) {
                let row: Instance = self.instances[i].duplicate();
                proof {
                    lemma_views_push(out@, row);
                }
                out.push(row);
            }
            i += 1;
        }
        assert(rows.take(rows.len() as int) =~= rows);
        self.instances = out;
    }
}

/// The store without the instances that live on a device.
pub open spec fn without_device(db: DbV, device_id: Seq<char>) -> DbV {
    DbV {
        instances: db.instances.filter(|i: InstanceV| i.origin_device_id != Some(device_id)),
        ..db
    }
}

} // verus!
