//! The registry of instances: the session and the process that each of them runs, and the ports that
//! it listens on.

use crate::json::{Json, JsonV};
use crate::pidtrack::{
    Endpoint, OrphanProcess, OrphanV, Recovery, endpoints_of, filled, launch_context,
    recover_single_orphan,
};
use crate::rows::{lemma_views_push, lemma_views_update, views};
use crate::search::{first_where, first_where_is_least, position};
use crate::text::{as_opt_str, cat3, copy_opt, opt_text, same, same_opt};
use vstd::prelude::*;

verus! {

/// An instance, with the session that it runs and the session that it was started from.
#[derive(Debug)]
pub struct Seat {
    pub name: String,
    pub session_id: Option<String>,
    pub parent_session_id: Option<String>,
}

/// The view of a [`Seat`].
pub struct SeatV {
    pub name: Seq<char>,
    pub session_id: Option<Seq<char>>,
    pub parent_session_id: Option<Seq<char>>,
}

impl View for Seat {
    type V = SeatV;

    open spec fn view(&self) -> SeatV {
        SeatV {
            name: self.name@,
            session_id: opt_text(self.session_id),
            parent_session_id: opt_text(self.parent_session_id),
        }
    }
}

/// The instance that a session belongs to.
#[derive(Debug)]
pub struct SessionBinding {
    pub session_id: String,
    pub instance_name: String,
    pub created_at: String,
}

/// The view of a [`SessionBinding`].
pub struct SessionBindingV {
    pub session_id: Seq<char>,
    pub instance_name: Seq<char>,
    pub created_at: Seq<char>,
}

impl View for SessionBinding {
    type V = SessionBindingV;

    open spec fn view(&self) -> SessionBindingV {
        SessionBindingV {
            session_id: self.session_id@,
            instance_name: self.instance_name@,
            created_at: self.created_at@,
        }
    }
}

/// The session and the instance that a process belongs to.
#[derive(Debug)]
pub struct ProcessBinding {
    pub process_id: String,
    pub session_id: Option<String>,
    pub instance_name: Option<String>,
    pub updated_at: String,
}

/// The view of a [`ProcessBinding`].
pub struct ProcessBindingV {
    pub process_id: Seq<char>,
    pub session_id: Option<Seq<char>>,
    pub instance_name: Option<Seq<char>>,
    pub updated_at: Seq<char>,
}

impl View for ProcessBinding {
    type V = ProcessBindingV;

    open spec fn view(&self) -> ProcessBindingV {
        ProcessBindingV {
            process_id: self.process_id@,
            session_id: opt_text(self.session_id),
            instance_name: opt_text(self.instance_name),
            updated_at: self.updated_at@,
        }
    }
}

/// A port that an instance listens on for one kind of call.
#[derive(Debug)]
pub struct Listener {
    pub instance: String,
    pub kind: String,
    pub port: i64,
    pub updated_at: String,
}

/// The view of a [`Listener`].
pub struct ListenerV {
    pub instance: Seq<char>,
    pub kind: Seq<char>,
    pub port: int,
    pub updated_at: Seq<char>,
}

impl View for Listener {
    type V = ListenerV;

    open spec fn view(&self) -> ListenerV {
        ListenerV {
            instance: self.instance@,
            kind: self.kind@,
            port: self.port as int,
            updated_at: self.updated_at@,
        }
    }
}

/// The registry. The order of its rows has no meaning. An instant stands as the caller writes it.
#[derive(Debug)]
pub struct Registry {
    pub seats: Vec<Seat>,
    pub sessions: Vec<SessionBinding>,
    pub processes: Vec<ProcessBinding>,
    pub listeners: Vec<Listener>,
}

/// The view of a [`Registry`].
#[verifier::ext_equal]
pub struct RegistryV {
    pub seats: Seq<SeatV>,
    pub sessions: Seq<SessionBindingV>,
    pub processes: Seq<ProcessBindingV>,
    pub listeners: Seq<ListenerV>,
}

impl View for Registry {
    type V = RegistryV;

    open spec fn view(&self) -> RegistryV {
        RegistryV {
            seats: views(self.seats@),
            sessions: views(self.sessions@),
            processes: views(self.processes@),
            listeners: views(self.listeners@),
        }
    }
}

/// Whether an instance has the name.
pub open spec fn seated(seats: Seq<SeatV>, name: Seq<char>) -> bool {
    exists|i: int| 0 <= i < seats.len() && (#[trigger] seats[i]).name == name
}

/// Whether an instance runs the session.
pub open spec fn held(seats: Seq<SeatV>, session: Seq<char>) -> bool {
    exists|i: int| 0 <= i < seats.len() && (#[trigger] seats[i]).session_id == Some(session)
}

/// Whether an instance was started from the session.
pub open spec fn has_children(seats: Seq<SeatV>, session: Seq<char>) -> bool {
    exists|i: int| 0 <= i < seats.len() && (#[trigger] seats[i]).parent_session_id == Some(session)
}

impl RegistryV {
    /// Whether names, sessions, bindings and ports are told apart by their keys, and a session is
    /// bound to an instance that there is.
    pub open spec fn wf(self) -> bool {
        &&& forall|i: int, j: int|
            0 <= i < j < self.seats.len() ==> (#[trigger] self.seats[i]).name != (
            #[trigger] self.seats[j]).name
        &&& forall|i: int, j: int|
            0 <= i < j < self.seats.len() && (#[trigger] self.seats[i]).session_id is Some
                ==> self.seats[i].session_id != (#[trigger] self.seats[j]).session_id
        &&& forall|i: int, j: int|
            0 <= i < j < self.sessions.len() ==> (#[trigger] self.sessions[i]).session_id != (
            #[trigger] self.sessions[j]).session_id
        &&& forall|i: int|
            0 <= i < self.sessions.len() ==> seated(
                self.seats,
                (#[trigger] self.sessions[i]).instance_name,
            )
        &&& forall|i: int, j: int|
            0 <= i < j < self.processes.len() ==> (#[trigger] self.processes[i]).process_id != (
            #[trigger] self.processes[j]).process_id
        &&& forall|i: int, j: int|
            0 <= i < j < self.listeners.len() ==> !((#[trigger] self.listeners[i]).instance == (
            #[trigger] self.listeners[j]).instance && self.listeners[i].kind
                == self.listeners[j].kind)
    }
}

/// The seats, with the session taken from whoever runs it.
pub open spec fn released(seats: Seq<SeatV>, session: Seq<char>) -> Seq<SeatV> {
    Seq::new(
        seats.len(),
        |i: int|
            if seats[i].session_id == Some(session) {
                SeatV { session_id: None, ..seats[i] }
            } else {
                seats[i]
            },
    )
}

/// Where the binding of a session stands.
pub open spec fn session_place(rows: Seq<SessionBindingV>, session: Seq<char>) -> Option<int> {
    first_where(rows.len() as int, |i: int| rows[i].session_id == session)
}

/// The bindings, with one for its session in place of the one before.
pub open spec fn with_session(rows: Seq<SessionBindingV>, row: SessionBindingV) -> Seq<
    SessionBindingV,
> {
    match session_place(rows, row.session_id) {
        Some(i) => rows.update(i, row),
        None => rows.push(row),
    }
}

/// Where the binding of a process stands.
pub open spec fn process_place(rows: Seq<ProcessBindingV>, process: Seq<char>) -> Option<int> {
    first_where(rows.len() as int, |i: int| rows[i].process_id == process)
}

/// The bindings, with one for its process in place of the one before.
pub open spec fn with_process(rows: Seq<ProcessBindingV>, row: ProcessBindingV) -> Seq<
    ProcessBindingV,
> {
    match process_place(rows, row.process_id) {
        Some(i) => rows.update(i, row),
        None => rows.push(row),
    }
}

/// Where the port of an instance for a kind of call stands.
pub open spec fn listener_place(
    rows: Seq<ListenerV>,
    instance: Seq<char>,
    kind: Seq<char>,
) -> Option<int> {
    first_where(
        rows.len() as int,
        |i: int| rows[i].instance == instance && rows[i].kind == kind,
    )
}

/// The ports, with one for its instance and kind in place of the one before.
pub open spec fn with_listener(rows: Seq<ListenerV>, row: ListenerV) -> Seq<ListenerV> {
    match listener_place(rows, row.instance, row.kind) {
        Some(i) => rows.update(i, row),
        None => rows.push(row),
    }
}

/// The ports, with the first `n` of some endpoints of an instance in place of those before.
pub open spec fn with_endpoints(
    rows: Seq<ListenerV>,
    instance: Seq<char>,
    endpoints: Seq<Endpoint>,
    at: Seq<char>,
    n: int,
) -> Seq<ListenerV>
    decreases n,
{
    if n <= 0 {
        rows
    } else {
        with_listener(
            with_endpoints(rows, instance, endpoints, at, n - 1),
            ListenerV {
                instance,
                kind: endpoints[n - 1].kind@,
                port: endpoints[n - 1].port as int,
                updated_at: at,
            },
        )
    }
}

/// Why a process cannot be registered under a name: the name is taken, or its session would be taken
/// from an instance while others were started from it.
pub open spec fn recovery_refused(db: RegistryV, o: OrphanV, name: Seq<char>) -> Option<Seq<char>> {
    if seated(db.seats, name) {
        Some("UNIQUE constraint failed: instances.name"@)
    } else {
        match filled(o.session_id) {
            Some(s) => if held(db.seats, s) && has_children(db.seats, s) {
                Some("FOREIGN KEY constraint failed"@)
            } else {
                None
            },
            None => None,
        }
    }
}

/// The registry, with a process registered under a name.
pub open spec fn registered(
    db: RegistryV,
    o: OrphanV,
    name: Seq<char>,
    at: Seq<char>,
) -> RegistryV {
    let session = filled(o.session_id);
    RegistryV {
        seats: (match session {
            Some(s) => released(db.seats, s),
            None => db.seats,
        }).push(SeatV { name, session_id: session, parent_session_id: None }),
        sessions: match session {
            Some(s) => with_session(
                db.sessions,
                SessionBindingV { session_id: s, instance_name: name, created_at: at },
            ),
            None => db.sessions,
        },
        processes: match filled(o.process_id) {
            Some(p) => with_process(
                db.processes,
                ProcessBindingV {
                    process_id: p,
                    session_id: session,
                    instance_name: Some(name),
                    updated_at: at,
                },
            ),
            None => db.processes,
        },
        listeners: with_endpoints(
            db.listeners,
            name,
            endpoints_of(o),
            at,
            endpoints_of(o).len() as int,
        ),
    }
}

/// What is kept of an instance that was registered again.
#[derive(Debug)]
pub struct RecoveredInstance {
    pub name: String,
    pub tool: String,
    pub status: String,
    pub status_context: String,
    pub status_time: i64,
    pub last_seen: i64,
    pub created_at: String,
    pub pid: u32,
    pub directory: String,
    pub terminal_preset: String,
    /// What is known of how the process was launched; nothing where that is nothing.
    pub launch_context: Option<Json>,
}

/// The view of a [`RecoveredInstance`].
pub struct RecoveredV {
    pub name: Seq<char>,
    pub tool: Seq<char>,
    pub status: Seq<char>,
    pub status_context: Seq<char>,
    pub status_time: int,
    pub last_seen: int,
    pub created_at: Seq<char>,
    pub pid: u32,
    pub directory: Seq<char>,
    pub terminal_preset: Seq<char>,
    pub launch_context: Option<JsonV>,
}

impl View for RecoveredInstance {
    type V = RecoveredV;

    open spec fn view(&self) -> RecoveredV {
        RecoveredV {
            name: self.name@,
            tool: self.tool@,
            status: self.status@,
            status_context: self.status_context@,
            status_time: self.status_time as int,
            last_seen: self.last_seen as int,
            created_at: self.created_at@,
            pid: self.pid,
            directory: self.directory@,
            terminal_preset: self.terminal_preset@,
            launch_context: match self.launch_context {
                Some(j) => Some(j@),
                None => None,
            },
        }
    }
}

/// What is kept of a process that is registered under a name.
pub open spec fn recovered(o: OrphanV, name: Seq<char>, now: int, at: Seq<char>) -> RecoveredV {
    RecoveredV {
        name,
        tool: o.tool,
        status: "listening"@,
        status_context: "recovered"@,
        status_time: now,
        last_seen: now,
        created_at: at,
        pid: o.pid,
        directory: o.directory,
        terminal_preset: o.terminal_preset,
        launch_context: if launch_context(o).len() == 0 {
            None
        } else {
            Some(JsonV::Object(launch_context(o)))
        },
    }
}

fn is_seated(seats: &Vec<Seat>, name: &str) -> (r: bool)
    ensures
        r == seated(views(seats@), name@),
{
    let mut i: usize = 0;
    while i < seats.len()
        invariant
            i <= seats@.len(),
            forall|j: int| 0 <= j < i ==> (#[trigger] views(seats@)[j]).name != name@,
        decreases seats.len() - i,
    {
        if same(seats[i].name.as_str(), name) {
            assert(views(seats@)[i as int].name == name@);
            return true;
        }
        i += 1;
    }
    false
}

fn is_held(seats: &Vec<Seat>, session: &str) -> (r: bool)
    ensures
        r == held(views(seats@), session@),
{
    let mut i: usize = 0;
    while i < seats.len()
        invariant
            i <= seats@.len(),
            forall|j: int|
                0 <= j < i ==> (#[trigger] views(seats@)[j]).session_id != Some(session@),
        decreases seats.len() - i,
    {
        if same_opt(as_opt_str(&seats[i].session_id), session) {
            assert(views(seats@)[i as int].session_id == Some(session@));
            return true;
        }
        i += 1;
    }
    false
}

fn is_parent(seats: &Vec<Seat>, session: &str) -> (r: bool)
    ensures
        r == has_children(views(seats@), session@),
{
    let mut i: usize = 0;
    while i < seats.len()
        invariant
            i <= seats@.len(),
            forall|j: int|
                0 <= j < i ==> (#[trigger] views(seats@)[j]).parent_session_id != Some(session@),
        decreases seats.len() - i,
    {
        if same_opt(as_opt_str(&seats[i].parent_session_id), session) {
            assert(views(seats@)[i as int].parent_session_id == Some(session@));
            return true;
        }
        i += 1;
    }
    false
}

fn release(seats: &mut Vec<Seat>, session: &str)
    ensures
        views(final(seats)@) == released(views(old(seats)@), session@),
{
    let ghost start = views(seats@);
    let mut i: usize = 0;
    while i < seats.len()
        invariant
            i <= seats@.len(),
            seats@.len() == start.len(),
            forall|j: int|
                0 <= j < i ==> #[trigger] views(seats@)[j] == released(start, session@)[j],
            forall|j: int| i <= j < start.len() ==> #[trigger] views(seats@)[j] == start[j],
        decreases seats.len() - i,
    {
        assert(views(seats@)[i as int] == start[i as int]);
        if same_opt(as_opt_str(&seats[i].session_id), session) {
            let free: Seat = Seat {
                name: seats[i].name.clone(),
                session_id: None,
                parent_session_id: copy_opt(&seats[i].parent_session_id),
            };
            proof {
                lemma_views_update(seats@, i as int, free);
            }
            seats.set(i, free);
        }
        i += 1;
    }
    assert(views(seats@) =~= released(start, session@));
}

fn find_session(rows: &Vec<SessionBinding>, session: &str) -> (r: Option<usize>)
    ensures
        position(r) == session_place(views(rows@), session@),
        r matches Some(i) ==> i < rows@.len(),
{
    let ghost p = |i: int| views(rows@)[i].session_id == session@;
    let mut found: Option<usize> = None;
    let mut i: usize = 0;
    while i < rows.len()
        invariant
            i <= rows@.len(),
            p == (|i: int| views(rows@)[i].session_id == session@),
            position(found) == first_where(i as int, p),
            found matches Some(k) ==> k < i,
        decreases rows.len() - i,
    {
        if found.is_none() && same(rows[i].session_id.as_str(), session) {
            found = Some(i);
        }
        i += 1;
    }
    found
}

fn bind_session(rows: &mut Vec<SessionBinding>, row: SessionBinding)
    ensures
        views(final(rows)@) == with_session(views(old(rows)@), row@),
{
    match find_session(rows, row.session_id.as_str()) {
        Some(i) => {
            proof {
                lemma_views_update(rows@, i as int, row);
            }
            rows.set(i, row);
        },
        None => {
            proof {
                lemma_views_push(rows@, row);
            }
            rows.push(row);
        },
    }
}

fn find_process(rows: &Vec<ProcessBinding>, process: &str) -> (r: Option<usize>)
    ensures
        position(r) == process_place(views(rows@), process@),
        r matches Some(i) ==> i < rows@.len(),
{
    let ghost p = |i: int| views(rows@)[i].process_id == process@;
    let mut found: Option<usize> = None;
    let mut i: usize = 0;
    while i < rows.len()
        invariant
            i <= rows@.len(),
            p == (|i: int| views(rows@)[i].process_id == process@),
            position(found) == first_where(i as int, p),
            found matches Some(k) ==> k < i,
        decreases rows.len() - i,
    {
        if found.is_none() && same(rows[i].process_id.as_str(), process) {
            found = Some(i);
        }
        i += 1;
    }
    found
}

fn bind_process(rows: &mut Vec<ProcessBinding>, row: ProcessBinding)
    ensures
        views(final(rows)@) == with_process(views(old(rows)@), row@),
{
    match find_process(rows, row.process_id.as_str()) {
        Some(i) => {
            proof {
                lemma_views_update(rows@, i as int, row);
            }
            rows.set(i, row);
        },
        None => {
            proof {
                lemma_views_push(rows@, row);
            }
            rows.push(row);
        },
    }
}

fn find_listener(rows: &Vec<Listener>, instance: &str, kind: &str) -> (r: Option<usize>)
    ensures
        position(r) == listener_place(views(rows@), instance@, kind@),
        r matches Some(i) ==> i < rows@.len(),
{
    let ghost p = |i: int|
        views(rows@)[i].instance == instance@ && views(rows@)[i].kind == kind@;
    let mut found: Option<usize> = None;
    let mut i: usize = 0;
    while i < rows.len()
        invariant
            i <= rows@.len(),
            p == (|i: int| views(rows@)[i].instance == instance@ && views(rows@)[i].kind == kind@),
            position(found) == first_where(i as int, p),
            found matches Some(k) ==> k < i,
        decreases rows.len() - i,
    {
        if found.is_none() && same(rows[i].instance.as_str(), instance) && same(
            rows[i].kind.as_str(),
            kind,
        ) {
            found = Some(i);
        }
        i += 1;
    }
    found
}

fn set_listener(rows: &mut Vec<Listener>, row: Listener)
    ensures
        views(final(rows)@) == with_listener(views(old(rows)@), row@),
{
    match find_listener(rows, row.instance.as_str(), row.kind.as_str()) {
        Some(i) => {
            proof {
                lemma_views_update(rows@, i as int, row);
            }
            rows.set(i, row);
        },
        None => {
            proof {
                lemma_views_push(rows@, row);
            }
            rows.push(row);
        },
    }
}

fn set_endpoints(rows: &mut Vec<Listener>, instance: &str, endpoints: &Vec<Endpoint>, at: &str)
    ensures
        views(final(rows)@) == with_endpoints(
            views(old(rows)@),
            instance@,
            endpoints@,
            at@,
            endpoints@.len() as int,
        ),
{
    let ghost start = views(rows@);
    let mut n: usize = 0;
    while n < endpoints.len()
        invariant
            n <= endpoints@.len(),
            views(rows@) == with_endpoints(start, instance@, endpoints@, at@, n as int),
        decreases endpoints.len() - n,
    {
        let row: Listener = Listener {
            instance: instance.to_owned(),
            kind: endpoints[n].kind.to_owned(),
            port: endpoints[n].port as i64,
            updated_at: at.to_owned(),
        };
        set_listener(rows, row);
        n += 1;
    }
}

fn tell_refusal(name: &str, cause: &str) -> (r: String)
    ensures
        r@ == "failed to register orphan '"@ + name@ + "': "@ + cause@,
{
    let mut e: String = cat3("failed to register orphan '", name, "': ");
    e.append(cause);
    e
}

/// Registers a process that runs without an instance under the name of one, or tells why not. The
/// session of the process becomes the instance's, and is no longer that of another. `now` is the
/// instant in whole seconds, and `at` the same instant in full.
pub fn recover_single_orphan_to_db(
    db: &mut Registry,
    orphan: &OrphanProcess,
    instance_name: &str,
    now: i64,
    at: &str,
) -> (r: Result<RecoveredInstance, String>)
    ensures
        match r {
            Ok(row) => {
                &&& recovery_refused(old(db)@, orphan@, instance_name@) is None
                &&& final(db)@ == registered(old(db)@, orphan@, instance_name@, at@)
                &&& row@ == recovered(orphan@, instance_name@, now as int, at@)
            },
            Err(e) => {
                &&& recovery_refused(old(db)@, orphan@, instance_name@) matches Some(cause)
                &&& e@ == "failed to register orphan '"@ + instance_name@ + "': "@ + cause
                &&& final(db)@ == old(db)@
            },
        },
{
    if is_seated(&db.seats, instance_name) {
        return Err(tell_refusal(instance_name, "UNIQUE constraint failed: instances.name"));
    }
    let plan: Recovery = recover_single_orphan(orphan);
    if let Some(session) = &plan.session_id {
        if is_held(&db.seats, session.as_str()) && is_parent(&db.seats, session.as_str()) {
            return Err(tell_refusal(instance_name, "FOREIGN KEY constraint failed"));
        }
        release(&mut db.seats, session.as_str());
        bind_session(
            &mut db.sessions,
            SessionBinding {
                session_id: session.clone(),
                instance_name: instance_name.to_owned(),
                created_at: at.to_owned(),
            },
        );
    }
    let seat: Seat = Seat {
        name: instance_name.to_owned(),
        session_id: copy_opt(&plan.session_id),
        parent_session_id: None,
    };
    proof {
        lemma_views_push(db.seats@, seat);
    }
    db.seats.push(seat);
    if let Some(process) = &plan.process_id {
        bind_process(
            &mut db.processes,
            ProcessBinding {
                process_id: process.clone(),
                session_id: copy_opt(&plan.session_id),
                instance_name: Some(instance_name.to_owned()),
                updated_at: at.to_owned(),
            },
        );
    }
    set_endpoints(&mut db.listeners, instance_name, &plan.endpoints, at);
    Ok(
        RecoveredInstance {
            name: instance_name.to_owned(),
            tool: orphan.tool.clone(),
            status: "listening".to_owned(),
            status_context: "recovered".to_owned(),
            status_time: now,
            last_seen: now,
            created_at: at.to_owned(),
            pid: orphan.pid,
            directory: orphan.directory.clone(),
            terminal_preset: orphan.terminal_preset.clone(),
            launch_context: plan.launch_context,
        },
    )
}

proof fn lemma_with_listener_distinct(rows: Seq<ListenerV>, row: ListenerV)
    requires
        forall|i: int, j: int|
            0 <= i < j < rows.len() ==> !((#[trigger] rows[i]).instance == (
            #[trigger] rows[j]).instance && rows[i].kind == rows[j].kind),
    ensures
        forall|i: int, j: int|
            0 <= i < j < with_listener(rows, row).len() ==> !((#[trigger] with_listener(
                rows,
                row,
            )[i]).instance == (#[trigger] with_listener(rows, row)[j]).instance && with_listener(
                rows,
                row,
            )[i].kind == with_listener(rows, row)[j].kind),
{
    let p = |i: int| rows[i].instance == row.instance && rows[i].kind == row.kind;
    first_where_is_least(rows.len() as int, p);
    match first_where(rows.len() as int, p) {
        Some(k) => {
            assert(p(k));
        },
        None => {
            assert forall|i: int| 0 <= i < rows.len() implies !(#[trigger] rows[i].instance
                == row.instance && rows[i].kind == row.kind) by {
                assert(!p(i));
            }
        },
    }
}

proof fn lemma_with_endpoints_distinct(
    rows: Seq<ListenerV>,
    instance: Seq<char>,
    endpoints: Seq<Endpoint>,
    at: Seq<char>,
    n: int,
)
    requires
        forall|i: int, j: int|
            0 <= i < j < rows.len() ==> !((#[trigger] rows[i]).instance == (
            #[trigger] rows[j]).instance && rows[i].kind == rows[j].kind),
    ensures
        ({
            let after = with_endpoints(rows, instance, endpoints, at, n);
            forall|i: int, j: int|
                0 <= i < j < after.len() ==> !((#[trigger] after[i]).instance == (
                #[trigger] after[j]).instance && after[i].kind == after[j].kind)
        }),
    decreases n,
{
    if n > 0 {
        lemma_with_endpoints_distinct(rows, instance, endpoints, at, n - 1);
        lemma_with_listener_distinct(
            with_endpoints(rows, instance, endpoints, at, n - 1),
            ListenerV {
                instance,
                kind: endpoints[n - 1].kind@,
                port: endpoints[n - 1].port as int,
                updated_at: at,
            },
        );
    }
}

proof fn lemma_with_session(rows: Seq<SessionBindingV>, row: SessionBindingV)
    requires
        forall|i: int, j: int|
            0 <= i < j < rows.len() ==> (#[trigger] rows[i]).session_id != (
            #[trigger] rows[j]).session_id,
    ensures
        ({
            let after = with_session(rows, row);
            &&& forall|i: int, j: int|
                0 <= i < j < after.len() ==> (#[trigger] after[i]).session_id != (
                #[trigger] after[j]).session_id
            &&& forall|i: int|
                0 <= i < after.len() ==> (#[trigger] after[i]) == row || rows.contains(after[i])
                    && after[i].session_id != row.session_id
            &&& after.contains(row)
        }),
{
    let p = |i: int| rows[i].session_id == row.session_id;
    first_where_is_least(rows.len() as int, p);
    let after = with_session(rows, row);
    match first_where(rows.len() as int, p) {
        Some(k) => {
            assert(p(k));
            assert(after[k] == row);
            assert forall|i: int| 0 <= i < after.len() implies (#[trigger] after[i]) == row
                || rows.contains(after[i]) && after[i].session_id != row.session_id by {
                if i != k {
                    assert(rows[i] == after[i]);
                    assert(rows[k].session_id == row.session_id);
                }
            }
        },
        None => {
            assert(after[rows.len() as int] == row);
            assert forall|i: int| 0 <= i < rows.len() implies (#[trigger] rows[i]).session_id
                != row.session_id by {
                assert(!p(i));
            }
            assert forall|i: int| 0 <= i < after.len() implies (#[trigger] after[i]) == row
                || rows.contains(after[i]) && after[i].session_id != row.session_id by {
                if i < rows.len() {
                    assert(rows[i] == after[i]);
                }
            }
        },
    }
}

proof fn lemma_with_process_distinct(rows: Seq<ProcessBindingV>, row: ProcessBindingV)
    requires
        forall|i: int, j: int|
            0 <= i < j < rows.len() ==> (#[trigger] rows[i]).process_id != (
            #[trigger] rows[j]).process_id,
    ensures
        ({
            let after = with_process(rows, row);
            forall|i: int, j: int|
                0 <= i < j < after.len() ==> (#[trigger] after[i]).process_id != (
                #[trigger] after[j]).process_id
        }),
{
    let p = |i: int| rows[i].process_id == row.process_id;
    first_where_is_least(rows.len() as int, p);
    match first_where(rows.len() as int, p) {
        Some(k) => {
            assert(p(k));
        },
        None => {
            assert forall|i: int| 0 <= i < rows.len() implies (#[trigger] rows[i]).process_id
                != row.process_id by {
                assert(!p(i));
            }
        },
    }
}

/// Registering a process keeps the registry in order: no name, session, process or port is there
/// twice, and a session is bound to an instance that there is.
pub proof fn recovery_keeps_order(db: RegistryV, o: OrphanV, name: Seq<char>, at: Seq<char>)
    requires
        db.wf(),
        recovery_refused(db, o, name) is None,
    ensures
        registered(db, o, name, at).wf(),
{
    let after = registered(db, o, name, at);
    let session = filled(o.session_id);
    let last = db.seats.len() as int;
    assert(after.seats.len() == last + 1);
    assert(after.seats[last].name == name);
    assert forall|i: int| 0 <= i < last implies (#[trigger] after.seats[i]).name
        == db.seats[i].name && (after.seats[i].session_id == db.seats[i].session_id
        || after.seats[i].session_id is None) && (session is Some ==> after.seats[i].session_id
        != session) by {}
    assert forall|i: int| 0 <= i < last implies (#[trigger] db.seats[i]).name != name by {
        if db.seats[i].name == name {
            assert(seated(db.seats, name));
        }
    }
    assert(seated(after.seats, name));
    assert forall|n: Seq<char>| seated(db.seats, n) implies seated(after.seats, n) by {
        let i = choose|i: int| 0 <= i < db.seats.len() && (#[trigger] db.seats[i]).name == n;
        assert(after.seats[i].name == n);
    }
    if session is Some {
        lemma_with_session(
            db.sessions,
            SessionBindingV { session_id: session->0, instance_name: name, created_at: at },
        );
    }
    assert forall|i: int| 0 <= i < after.sessions.len() implies seated(
        after.seats,
        (#[trigger] after.sessions[i]).instance_name,
    ) by {
        if after.sessions[i].instance_name != name {
            assert(db.sessions.contains(after.sessions[i]));
        }
    }
    if let Some(p) = filled(o.process_id) {
        lemma_with_process_distinct(
            db.processes,
            ProcessBindingV {
                process_id: p,
                session_id: session,
                instance_name: Some(name),
                updated_at: at,
            },
        );
    }
    lemma_with_endpoints_distinct(
        db.listeners,
        name,
        endpoints_of(o),
        at,
        endpoints_of(o).len() as int,
    );
}

/// The session of a process that is registered changes hands: the new instance runs it and no other
/// does, and it is bound to the new instance only.
pub proof fn recovered_sessions_change_hands(
    db: RegistryV,
    o: OrphanV,
    name: Seq<char>,
    at: Seq<char>,
)
    requires
        db.wf(),
        recovery_refused(db, o, name) is None,
        o.session_id.len() > 0,
    ensures
        ({
            let after = registered(db, o, name, at);
            &&& held(after.seats, o.session_id)
            &&& forall|i: int|
                0 <= i < after.seats.len() ==> ((#[trigger] after.seats[i]).session_id == Some(
                    o.session_id,
                ) <==> after.seats[i].name == name)
            &&& exists|i: int|
                0 <= i < after.sessions.len() && (#[trigger] after.sessions[i]).session_id
                    == o.session_id
            &&& forall|i: int|
                0 <= i < after.sessions.len() && (#[trigger] after.sessions[i]).session_id
                    == o.session_id ==> after.sessions[i].instance_name == name
        }),
{
    let after = registered(db, o, name, at);
    let last = db.seats.len() as int;
    assert(after.seats[last].session_id == Some(o.session_id));
    assert forall|i: int| 0 <= i < after.seats.len() implies ((
    #[trigger] after.seats[i]).session_id == Some(o.session_id) <==> after.seats[i].name
        == name) by {
        if i < last {
            assert(after.seats[i].name == db.seats[i].name);
            if db.seats[i].name == name {
                assert(seated(db.seats, name));
            }
        }
    }
    let row = SessionBindingV { session_id: o.session_id, instance_name: name, created_at: at };
    lemma_with_session(db.sessions, row);
    let k = choose|k: int| 0 <= k < after.sessions.len() && after.sessions[k] == row;
    assert(after.sessions[k].session_id == o.session_id);
}

/// A process is registered under its new name as one that listens, with the number, the tool, the
/// directory and the terminal that were recorded of it.
pub proof fn recovered_instances_are_the_recorded_ones(db: &mut Registry, o: OrphanProcess, name: &str, now: i64, at: &str, r: Result<RecoveredInstance, String>, plan: Recovery)
    requires
        call_ensures(recover_single_orphan_to_db, (db, &o, name, now, at), r),
        call_ensures(recover_single_orphan, (&o,), plan),
        r is Ok,
    ensures
        r->Ok_0.name@ == name@ && r->Ok_0.pid == o.pid && r->Ok_0.tool@ == o.tool@ && r->Ok_0.directory@ == o.directory@ && r->Ok_0.terminal_preset@ == o.terminal_preset@,
        r->Ok_0.status@ == "listening"@ && r->Ok_0.status_context@ == "recovered"@,
        r->Ok_0.status_time == now && r->Ok_0.last_seen == now && r->Ok_0.created_at@ == at@,
        (match r->Ok_0.launch_context { Some(j) => Some(j@), None => None }) == (match plan.launch_context { Some(j) => Some(j@), None => None::<JsonV> }),
{
    let row = r->Ok_0;
    let want = recovered(o@, name@, now as int, at@);
    assert(row@ == want);
    assert(row@.launch_context == want.launch_context);
}

/// A process is not registered under a name that is taken, nor with a session that others were
/// started from; in every other case it is. A refusal changes nothing.
pub proof fn recoveries_are_refused_for_cause(db: &mut Registry, o: OrphanProcess, name: &str, now: i64, at: &str, r: Result<RecoveredInstance, String>, taken: bool, parent: bool)
    requires
        call_ensures(recover_single_orphan_to_db, (db, &o, name, now, at), r),
        taken == (exists|i: int| 0 <= i < old(db).seats@.len() && (#[trigger] old(db).seats@[i]).name@ == name@),
        parent == (o.session_id@.len() > 0 && (exists|i: int| 0 <= i < old(db).seats@.len() && opt_text((#[trigger] old(db).seats@[i]).session_id) == Some(o.session_id@)) && (exists|i: int| 0 <= i < old(db).seats@.len() && opt_text((#[trigger] old(db).seats@[i]).parent_session_id) == Some(o.session_id@))),
    ensures
        taken ==> (r matches Err(e) && e@ == "failed to register orphan '"@ + name@ + "': "@ + "UNIQUE constraint failed: instances.name"@),
        !taken && parent ==> (r matches Err(e) && e@ == "failed to register orphan '"@ + name@ + "': "@ + "FOREIGN KEY constraint failed"@),
        !taken && !parent ==> r is Ok,
        r is Err ==> final(db)@ == old(db)@,
{
    let seats = views(old(db).seats@);
    assert forall|i: int| 0 <= i < seats.len() implies #[trigger] seats[i] == old(db).seats@[i]@ by {}
    assert(taken == seated(seats, name@)) by {
        if taken {
            let i = choose|i: int| 0 <= i < old(db).seats@.len() && (#[trigger] old(db).seats@[i]).name@ == name@;
            assert(seats[i].name == name@);
        }
        if seated(seats, name@) {
            let i = choose|i: int| 0 <= i < seats.len() && (#[trigger] seats[i]).name == name@;
            assert(old(db).seats@[i].name@ == name@);
        }
    }
    let s = o.session_id@;
    assert((exists|i: int| 0 <= i < old(db).seats@.len() && opt_text((#[trigger] old(db).seats@[i]).session_id) == Some(s)) == held(seats, s)) by {
        if held(seats, s) {
            let i = choose|i: int| 0 <= i < seats.len() && (#[trigger] seats[i]).session_id == Some(s);
            assert(opt_text(old(db).seats@[i].session_id) == Some(s));
        }
        if exists|i: int| 0 <= i < old(db).seats@.len() && opt_text((#[trigger] old(db).seats@[i]).session_id) == Some(s) {
            let i = choose|i: int| 0 <= i < old(db).seats@.len() && opt_text((#[trigger] old(db).seats@[i]).session_id) == Some(s);
            assert(seats[i].session_id == Some(s));
        }
    }
    assert((exists|i: int| 0 <= i < old(db).seats@.len() && opt_text((#[trigger] old(db).seats@[i]).parent_session_id) == Some(s)) == has_children(seats, s)) by {
        if has_children(seats, s) {
            let i = choose|i: int| 0 <= i < seats.len() && (#[trigger] seats[i]).parent_session_id == Some(s);
            assert(opt_text(old(db).seats@[i].parent_session_id) == Some(s));
        }
        if exists|i: int| 0 <= i < old(db).seats@.len() && opt_text((#[trigger] old(db).seats@[i]).parent_session_id) == Some(s) {
            let i = choose|i: int| 0 <= i < old(db).seats@.len() && opt_text((#[trigger] old(db).seats@[i]).parent_session_id) == Some(s);
            assert(seats[i].parent_session_id == Some(s));
        }
    }
}

/// A registered process has a seat under its name, with its session and no parent; the other seats
/// keep their names and parents, and their sessions unless they had that one.
pub proof fn recovered_processes_take_a_seat(db: &mut Registry, o: OrphanProcess, name: &str, now: i64, at: &str, r: Result<RecoveredInstance, String>, i: int)
    requires
        call_ensures(recover_single_orphan_to_db, (db, &o, name, now, at), r),
        r is Ok,
    ensures
        final(db).seats@.len() == old(db).seats@.len() + 1,
        final(db).seats@.last().name@ == name@,
        opt_text(final(db).seats@.last().session_id) == (if o.session_id@.len() > 0 { Some(o.session_id@) } else { None }),
        final(db).seats@.last().parent_session_id is None,
        0 <= i < old(db).seats@.len() ==> final(db).seats@[i].name@ == old(db).seats@[i].name@ && opt_text(final(db).seats@[i].parent_session_id) == opt_text(old(db).seats@[i].parent_session_id),
        0 <= i < old(db).seats@.len() && opt_text(old(db).seats@[i].session_id) != Some(o.session_id@) ==> opt_text(final(db).seats@[i].session_id) == opt_text(old(db).seats@[i].session_id),
        0 <= i < old(db).seats@.len() && o.session_id@.len() > 0 && opt_text(old(db).seats@[i].session_id) == Some(o.session_id@) ==> final(db).seats@[i].session_id is None,
{
    let before = views(old(db).seats@);
    let after = views(final(db).seats@);
    assert(final(db)@.seats == after);
    assert(after.last() == final(db).seats@.last()@);
    if 0 <= i < before.len() {
        assert(before[i] == old(db).seats@[i]@);
        assert(after[i] == final(db).seats@[i]@);
    }
}

/// A registered process is bound to its new name and to its session, under the process that was
/// recorded of it, and its ports are those that were recorded, each for its kind of call.
pub proof fn recovered_processes_are_bound(db: &mut Registry, o: OrphanProcess, name: &str, now: i64, at: &str, r: Result<RecoveredInstance, String>)
    requires
        call_ensures(recover_single_orphan_to_db, (db, &o, name, now, at), r),
        r is Ok,
    ensures
        o.session_id@.len() > 0 ==> final(db)@.sessions.contains(SessionBindingV { session_id: o.session_id@, instance_name: name@, created_at: at@ }),
        o.session_id@.len() == 0 ==> final(db)@.sessions == old(db)@.sessions,
        o.process_id@.len() > 0 ==> final(db)@.processes.contains(ProcessBindingV { process_id: o.process_id@, session_id: (if o.session_id@.len() > 0 { Some(o.session_id@) } else { None }), instance_name: Some(name@), updated_at: at@ }),
        o.process_id@.len() == 0 ==> final(db)@.processes == old(db)@.processes,
        o.notify_port != 0 ==> final(db)@.listeners.contains(ListenerV { instance: name@, kind: "pty"@, port: o.notify_port as int, updated_at: at@ }),
        o.inject_port != 0 ==> final(db)@.listeners.contains(ListenerV { instance: name@, kind: "inject"@, port: o.inject_port as int, updated_at: at@ }),
        o.notify_port == 0 && o.inject_port == 0 ==> final(db)@.listeners == old(db)@.listeners,
{
    let b = old(db)@;
    let e = endpoints_of(o@);
    let session = filled(o.session_id@);
    if o.session_id@.len() > 0 {
        let row = SessionBindingV { session_id: o.session_id@, instance_name: name@, created_at: at@ };
        first_where_is_least(b.sessions.len() as int, |i: int| b.sessions[i].session_id == row.session_id);
        let after = with_session(b.sessions, row);
        match session_place(b.sessions, row.session_id) {
            Some(i) => assert(after[i] == row),
            None => assert(after.last() == row),
        }
    }
    if o.process_id@.len() > 0 {
        let row = ProcessBindingV { process_id: o.process_id@, session_id: session, instance_name: Some(name@), updated_at: at@ };
        first_where_is_least(b.processes.len() as int, |i: int| b.processes[i].process_id == row.process_id);
        let after = with_process(b.processes, row);
        match process_place(b.processes, row.process_id) {
            Some(i) => assert(after[i] == row),
            None => assert(after.last() == row),
        }
    }
    reveal_with_fuel(with_endpoints, 3);
    let pty = ListenerV { instance: name@, kind: "pty"@, port: o.notify_port as int, updated_at: at@ };
    let inject = ListenerV { instance: name@, kind: "inject"@, port: o.inject_port as int, updated_at: at@ };
    reveal_strlit("pty");
    reveal_strlit("inject");
    assert("pty"@.len() == 3 && "inject"@.len() == 6);
    lemma_listener_set(b.listeners, pty, inject);
    lemma_listener_set(b.listeners, inject, pty);
    lemma_listener_set(with_listener(b.listeners, pty), inject, pty);
}

proof fn lemma_listener_set(rows: Seq<ListenerV>, row: ListenerV, other: ListenerV)
    ensures
        with_listener(rows, row).contains(row),
        other.kind != row.kind && rows.contains(other) ==> with_listener(rows, row).contains(other),
{
    let p = |i: int| rows[i].instance == row.instance && rows[i].kind == row.kind;
    first_where_is_least(rows.len() as int, p);
    let after = with_listener(rows, row);
    match listener_place(rows, row.instance, row.kind) {
        Some(i) => assert(after[i] == row),
        None => assert(after.last() == row),
    }
    if other.kind != row.kind && rows.contains(other) {
        let k = choose|k: int| 0 <= k < rows.len() && rows[k] == other;
        assert(after[k] == other);
    }
}

proof fn lemma_others_kept(db: RegistryV, o: OrphanV, name: Seq<char>, at: Seq<char>, s: SessionBindingV, p: ProcessBindingV, l: ListenerV)
    ensures
        db.sessions.contains(s) && s.session_id != o.session_id ==> registered(db, o, name, at).sessions.contains(s),
        db.processes.contains(p) && p.process_id != o.process_id ==> registered(db, o, name, at).processes.contains(p),
        db.listeners.contains(l) && l.instance != name ==> registered(db, o, name, at).listeners.contains(l),
{
    let after = registered(db, o, name, at);
    if db.sessions.contains(s) && s.session_id != o.session_id {
        let k = choose|k: int| 0 <= k < db.sessions.len() && db.sessions[k] == s;
        first_where_is_least(db.sessions.len() as int, |i: int| db.sessions[i].session_id == o.session_id);
        assert(after.sessions[k] == s);
    }
    if db.processes.contains(p) && p.process_id != o.process_id {
        let k = choose|k: int| 0 <= k < db.processes.len() && db.processes[k] == p;
        first_where_is_least(db.processes.len() as int, |i: int| db.processes[i].process_id == o.process_id);
        assert(after.processes[k] == p);
    }
    if db.listeners.contains(l) && l.instance != name {
        lemma_other_listeners(db.listeners, name, endpoints_of(o), at, endpoints_of(o).len() as int, l);
    }
}

proof fn lemma_other_listeners(rows: Seq<ListenerV>, name: Seq<char>, endpoints: Seq<Endpoint>, at: Seq<char>, n: int, l: ListenerV)
    requires
        rows.contains(l),
        l.instance != name,
        0 <= n <= endpoints.len(),
    ensures
        with_endpoints(rows, name, endpoints, at, n).contains(l),
    decreases n,
{
    if n > 0 {
        lemma_other_listeners(rows, name, endpoints, at, n - 1, l);
        let before = with_endpoints(rows, name, endpoints, at, n - 1);
        let row = ListenerV { instance: name, kind: endpoints[n - 1].kind@, port: endpoints[n - 1].port as int, updated_at: at };
        first_where_is_least(before.len() as int, |i: int| before[i].instance == row.instance && before[i].kind == row.kind);
        let k = choose|k: int| 0 <= k < before.len() && before[k] == l;
        assert(with_listener(before, row)[k] == l);
    }
}

/// Registering a process leaves the sessions, the processes and the ports of the others as they are.
pub proof fn others_keep_their_bindings(
    db: &mut Registry,
    o: OrphanProcess,
    name: &str,
    now: i64,
    at: &str,
    r: Result<RecoveredInstance, String>,
    s: SessionBindingV,
    p: ProcessBindingV,
    l: ListenerV,
)
    requires
        call_ensures(recover_single_orphan_to_db, (db, &o, name, now, at), r),
    ensures
        old(db)@.sessions.contains(s) && s.session_id != o.session_id@ ==> final(db)@.sessions.contains(s),
        old(db)@.processes.contains(p) && p.process_id != o.process_id@ ==> final(db)@.processes.contains(p),
        old(db)@.listeners.contains(l) && l.instance != name@ ==> final(db)@.listeners.contains(l),
{
    lemma_others_kept(old(db)@, o@, name@, at@, s, p, l);
}

} // verus!
