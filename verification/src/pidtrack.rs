//! The processes that were launched, as they are kept in a file so that one that lost its instance
//! can be found again.

use crate::json::{
    Json, JsonV, Member, MemberV, lemma_object, lookup, member, object_view, set_member, with_member,
};
use crate::rows::{lemma_views_push, lemma_views_remove, lemma_views_update, views};
use crate::search::{first_where, position};
use crate::text::{
    copy_texts, decimal, decimal_text, decimal_text_u64, holds_text, lemma_texts_push, opt_text,
    parse_unsigned, parse_up_to, same, texts, unsigned_round_trip,
};
use vstd::prelude::*;

verus! {

/// The file that launched processes are kept in, below the directory of the program.
pub const PIDFILE_NAME: &'static str = ".tmp/launched_pids.json";

/// A launched process. The instant of the launch stands as the file has it.
#[derive(Debug)]
pub struct PidEntry {
    pub tool: String,
    pub names: Vec<String>,
    pub launched_at: String,
    pub directory: String,
    pub process_id: String,
    pub terminal_preset: String,
    pub pane_id: String,
    pub terminal_id: String,
    pub kitty_listen_on: String,
    pub zellij_session_name: String,
    pub session_id: String,
    pub notify_port: u16,
    pub inject_port: u16,
    pub tag: String,
}

/// The view of a [`PidEntry`].
pub struct EntryV {
    pub tool: Seq<char>,
    pub names: Seq<Seq<char>>,
    pub launched_at: Seq<char>,
    pub directory: Seq<char>,
    pub process_id: Seq<char>,
    pub terminal_preset: Seq<char>,
    pub pane_id: Seq<char>,
    pub terminal_id: Seq<char>,
    pub kitty_listen_on: Seq<char>,
    pub zellij_session_name: Seq<char>,
    pub session_id: Seq<char>,
    pub notify_port: u16,
    pub inject_port: u16,
    pub tag: Seq<char>,
}

impl View for PidEntry {
    type V = EntryV;

    open spec fn view(&self) -> EntryV {
        EntryV {
            tool: self.tool@,
            names: texts(self.names@),
            launched_at: self.launched_at@,
            directory: self.directory@,
            process_id: self.process_id@,
            terminal_preset: self.terminal_preset@,
            pane_id: self.pane_id@,
            terminal_id: self.terminal_id@,
            kitty_listen_on: self.kitty_listen_on@,
            zellij_session_name: self.zellij_session_name@,
            session_id: self.session_id@,
            notify_port: self.notify_port,
            inject_port: self.inject_port,
            tag: self.tag@,
        }
    }
}

impl PidEntry {
    /// A copy of the entry.
    pub fn duplicate(&self) -> (r: PidEntry)
        ensures
            r@ == self@,
    {
        PidEntry {
            tool: self.tool.clone(),
            names: copy_texts(&self.names),
            launched_at: self.launched_at.clone(),
            directory: self.directory.clone(),
            process_id: self.process_id.clone(),
            terminal_preset: self.terminal_preset.clone(),
            pane_id: self.pane_id.clone(),
            terminal_id: self.terminal_id.clone(),
            kitty_listen_on: self.kitty_listen_on.clone(),
            zellij_session_name: self.zellij_session_name.clone(),
            session_id: self.session_id.clone(),
            notify_port: self.notify_port,
            inject_port: self.inject_port,
            tag: self.tag.clone(),
        }
    }
}

/// An entry of the file, under the number of its process in text.
#[derive(Debug)]
pub struct PidRow {
    pub key: String,
    pub entry: PidEntry,
}

/// The view of a [`PidRow`].
pub struct PidRowV {
    pub key: Seq<char>,
    pub entry: EntryV,
}

impl View for PidRow {
    type V = PidRowV;

    open spec fn view(&self) -> PidRowV {
        PidRowV { key: self.key@, entry: self.entry@ }
    }
}

impl PidRow {
    /// A copy of the row.
    pub fn duplicate(&self) -> (r: PidRow)
        ensures
            r@ == self@,
    {
        PidRow { key: self.key.clone(), entry: self.entry.duplicate() }
    }
}

/// Whether no key occurs twice.
pub open spec fn keys_distinct(rows: Seq<PidRowV>) -> bool {
    forall|i: int, j: int|
        0 <= i < j < rows.len() ==> (#[trigger] rows[i]).key != (#[trigger] rows[j]).key
}

/// A process that runs without an instance.
#[derive(Debug)]
pub struct OrphanProcess {
    pub pid: u32,
    pub tool: String,
    pub names: Vec<String>,
    pub directory: String,
    pub process_id: String,
    pub terminal_preset: String,
    pub pane_id: String,
    pub terminal_id: String,
    pub kitty_listen_on: String,
    pub zellij_session_name: String,
    pub session_id: String,
    pub notify_port: u16,
    pub inject_port: u16,
    pub tag: String,
}

/// The view of an [`OrphanProcess`].
pub struct OrphanV {
    pub pid: u32,
    pub tool: Seq<char>,
    pub names: Seq<Seq<char>>,
    pub directory: Seq<char>,
    pub process_id: Seq<char>,
    pub terminal_preset: Seq<char>,
    pub pane_id: Seq<char>,
    pub terminal_id: Seq<char>,
    pub kitty_listen_on: Seq<char>,
    pub zellij_session_name: Seq<char>,
    pub session_id: Seq<char>,
    pub notify_port: u16,
    pub inject_port: u16,
    pub tag: Seq<char>,
}

impl View for OrphanProcess {
    type V = OrphanV;

    open spec fn view(&self) -> OrphanV {
        OrphanV {
            pid: self.pid,
            tool: self.tool@,
            names: texts(self.names@),
            directory: self.directory@,
            process_id: self.process_id@,
            terminal_preset: self.terminal_preset@,
            pane_id: self.pane_id@,
            terminal_id: self.terminal_id@,
            kitty_listen_on: self.kitty_listen_on@,
            zellij_session_name: self.zellij_session_name@,
            session_id: self.session_id@,
            notify_port: self.notify_port,
            inject_port: self.inject_port,
            tag: self.tag@,
        }
    }
}

/// An entry of the file as a process with its number.
pub open spec fn orphan_of(pid: u32, e: EntryV) -> OrphanV {
    OrphanV {
        pid,
        tool: e.tool,
        names: e.names,
        directory: e.directory,
        process_id: e.process_id,
        terminal_preset: e.terminal_preset,
        pane_id: e.pane_id,
        terminal_id: e.terminal_id,
        kitty_listen_on: e.kitty_listen_on,
        zellij_session_name: e.zellij_session_name,
        session_id: e.session_id,
        notify_port: e.notify_port,
        inject_port: e.inject_port,
        tag: e.tag,
    }
}

impl OrphanProcess {
    /// An entry of the file as a process with its number.
    pub fn from(pid: u32, entry: &PidEntry) -> (r: OrphanProcess)
        ensures
            r@ == orphan_of(pid, entry@),
    {
        OrphanProcess {
            pid,
            tool: entry.tool.clone(),
            names: copy_texts(&entry.names),
            directory: entry.directory.clone(),
            process_id: entry.process_id.clone(),
            terminal_preset: entry.terminal_preset.clone(),
            pane_id: entry.pane_id.clone(),
            terminal_id: entry.terminal_id.clone(),
            kitty_listen_on: entry.kitty_listen_on.clone(),
            zellij_session_name: entry.zellij_session_name.clone(),
            session_id: entry.session_id.clone(),
            notify_port: entry.notify_port,
            inject_port: entry.inject_port,
            tag: entry.tag.clone(),
        }
    }
}

/// How the system answers when a process is asked whether it is there.
#[derive(Debug, Clone, Copy, PartialEq, Eq, Structural)]
pub enum ProcessProbe {
    /// It is there.
    Reached,
    /// It is there and belongs to another user.
    NotPermitted,
    /// There is none of that number.
    NoSuchProcess,
}

/// Whether a process is there, by the answer of the system.
pub fn is_alive(probe: ProcessProbe) -> (r: bool)
    ensures
        r == (probe != ProcessProbe::NoSuchProcess),
{
    !matches!(probe, ProcessProbe::NoSuchProcess)
}

/// What is recorded of a launched process.
#[derive(Debug, Clone, Copy)]
pub struct PidRecord<'a> {
    pub pid: u32,
    pub tool: &'a str,
    pub name: &'a str,
    pub directory: &'a str,
    pub process_id: &'a str,
    pub terminal_preset: &'a str,
    pub pane_id: &'a str,
    pub terminal_id: &'a str,
    pub kitty_listen_on: &'a str,
    pub zellij_session_name: &'a str,
    pub session_id: &'a str,
    pub notify_port: u16,
    pub inject_port: u16,
    pub tag: &'a str,
}

impl<'a> PidRecord<'a> {
    /// A record with what is always known, and nothing of the rest.
    pub fn new(pid: u32, tool: &'a str, name: &'a str, directory: &'a str) -> (r: PidRecord<'a>)
        ensures
            r == (PidRecord {
                pid,
                tool,
                name,
                directory,
                process_id: "",
                terminal_preset: "",
                pane_id: "",
                terminal_id: "",
                kitty_listen_on: "",
                zellij_session_name: "",
                session_id: "",
                notify_port: 0,
                inject_port: 0,
                tag: "",
            }),
    {
        PidRecord {
            pid,
            tool,
            name,
            directory,
            process_id: "",
            terminal_preset: "",
            pane_id: "",
            terminal_id: "",
            kitty_listen_on: "",
            zellij_session_name: "",
            session_id: "",
            notify_port: 0,
            inject_port: 0,
            tag: "",
        }
    }
}

/// What is kept of two values of a field: the first, unless it is empty.
pub open spec fn kept(old: Seq<char>, new: Seq<char>) -> Seq<char> {
    if old.len() == 0 {
        new
    } else {
        old
    }
}

/// What is kept of two ports: the first, unless it is zero.
pub open spec fn kept_port(old: u16, new: u16) -> u16 {
    if old == 0 {
        new
    } else {
        old
    }
}

fn keep(old: &str, new: &str) -> (r: String)
    ensures
        r@ == kept(old@, new@),
{
    if old.unicode_len() == 0 {
        new.to_owned()
    } else {
        old.to_owned()
    }
}

fn keep_port(old: u16, new: u16) -> (r: u16)
    ensures
        r == kept_port(old, new),
{
    if old == 0 {
        new
    } else {
        old
    }
}

/// An entry of the file after its process is recorded again: it gets the name, and what it lacked.
pub open spec fn merged(e: EntryV, rec: PidRecord<'_>) -> EntryV {
    EntryV {
        names: if e.names.contains(rec.name@) {
            e.names
        } else {
            e.names.push(rec.name@)
        },
        process_id: kept(e.process_id, rec.process_id@),
        terminal_preset: kept(e.terminal_preset, rec.terminal_preset@),
        pane_id: kept(e.pane_id, rec.pane_id@),
        terminal_id: kept(e.terminal_id, rec.terminal_id@),
        kitty_listen_on: kept(e.kitty_listen_on, rec.kitty_listen_on@),
        zellij_session_name: kept(e.zellij_session_name, rec.zellij_session_name@),
        session_id: kept(e.session_id, rec.session_id@),
        notify_port: kept_port(e.notify_port, rec.notify_port),
        inject_port: kept_port(e.inject_port, rec.inject_port),
        tag: kept(e.tag, rec.tag@),
        ..e
    }
}

/// The entry of a process that is recorded for the first time.
pub open spec fn first_entry(rec: PidRecord<'_>, launched_at: Seq<char>) -> EntryV {
    EntryV {
        tool: rec.tool@,
        names: seq![rec.name@],
        launched_at,
        directory: rec.directory@,
        process_id: rec.process_id@,
        terminal_preset: rec.terminal_preset@,
        pane_id: rec.pane_id@,
        terminal_id: rec.terminal_id@,
        kitty_listen_on: rec.kitty_listen_on@,
        zellij_session_name: rec.zellij_session_name@,
        session_id: rec.session_id@,
        notify_port: rec.notify_port,
        inject_port: rec.inject_port,
        tag: rec.tag@,
    }
}

/// The condition that the row at a position has the key.
pub open spec fn keyed(rows: Seq<PidRowV>, key: Seq<char>) -> spec_fn(int) -> bool {
    |i: int| rows[i].key == key
}

/// The place of a key among rows.
pub open spec fn key_place(rows: Seq<PidRowV>, key: Seq<char>) -> Option<int> {
    first_where(rows.len() as int, keyed(rows, key))
}

/// The rows after a process is recorded.
pub open spec fn recorded(rows: Seq<PidRowV>, rec: PidRecord<'_>, launched_at: Seq<char>) -> Seq<PidRowV> {
    let key = decimal(rec.pid as int);
    match key_place(rows, key) {
        Some(i) => rows.update(i, PidRowV { key, entry: merged(rows[i].entry, rec) }),
        None => rows.push(PidRowV { key, entry: first_entry(rec, launched_at) }),
    }
}

fn find_key(rows: &Vec<PidRow>, key: &str) -> (r: Option<usize>)
    ensures
        position(r) == key_place(views(rows@), key@),
        r matches Some(i) ==> i < rows@.len() && rows@[i as int].key@ == key@,
{
    let ghost p = keyed(views(rows@), key@);
    let mut found: Option<usize> = None;
    let mut i: usize = 0;
    while i < rows.len()
        invariant
            i <= rows@.len(),
            p == keyed(views(rows@), key@),
            position(found) == first_where(i as int, p),
            found matches Some(k) ==> k < i && rows@[k as int].key@ == key@,
        decreases rows.len() - i,
    {
        if found.is_none() && same(rows[i].key.as_str(), key) {
            found = Some(i);
        }
        i += 1;
    }
    found
}

fn merge(e: &PidEntry, rec: &PidRecord<'_>) -> (r: PidEntry)
    ensures
        r@ == merged(e@, *rec),
{
    let mut names: Vec<String> = copy_texts(&e.names);
    if !holds_text(&e.names, rec.name) {
        let name: String = rec.name.to_owned();
        proof {
            lemma_texts_push(names@, name);
        }
        names.push(name);
    }
    PidEntry {
        tool: e.tool.clone(),
        names,
        launched_at: e.launched_at.clone(),
        directory: e.directory.clone(),
        process_id: keep(e.process_id.as_str(), rec.process_id),
        terminal_preset: keep(e.terminal_preset.as_str(), rec.terminal_preset),
        pane_id: keep(e.pane_id.as_str(), rec.pane_id),
        terminal_id: keep(e.terminal_id.as_str(), rec.terminal_id),
        kitty_listen_on: keep(e.kitty_listen_on.as_str(), rec.kitty_listen_on),
        zellij_session_name: keep(e.zellij_session_name.as_str(), rec.zellij_session_name),
        session_id: keep(e.session_id.as_str(), rec.session_id),
        notify_port: keep_port(e.notify_port, rec.notify_port),
        inject_port: keep_port(e.inject_port, rec.inject_port),
        tag: keep(e.tag.as_str(), rec.tag),
    }
}

/// Records a launched process, at an instant given as text.
pub fn record_pid(rows: &mut Vec<PidRow>, rec: &PidRecord<'_>, launched_at: &str)
    ensures
        views(final(rows)@) == recorded(views(old(rows)@), *rec, launched_at@),
{
    let key: String = decimal_text_u64(rec.pid as u64);
    match find_key(rows, key.as_str()) {
        Some(i) => {
            let row: PidRow = PidRow { key, entry: merge(&rows[i].entry, rec) };
            proof {
                lemma_views_update(rows@, i as int, row);
            }
            rows.set(i, row);
        },
        None => {
            let mut names: Vec<String> = Vec::new();
            names.push(rec.name.to_owned());
            assert(texts(names@) =~= seq![rec.name@]);
            let row: PidRow = PidRow {
                key,
                entry: PidEntry {
                    tool: rec.tool.to_owned(),
                    names,
                    launched_at: launched_at.to_owned(),
                    directory: rec.directory.to_owned(),
                    process_id: rec.process_id.to_owned(),
                    terminal_preset: rec.terminal_preset.to_owned(),
                    pane_id: rec.pane_id.to_owned(),
                    terminal_id: rec.terminal_id.to_owned(),
                    kitty_listen_on: rec.kitty_listen_on.to_owned(),
                    zellij_session_name: rec.zellij_session_name.to_owned(),
                    session_id: rec.session_id.to_owned(),
                    notify_port: rec.notify_port,
                    inject_port: rec.inject_port,
                    tag: rec.tag.to_owned(),
                },
            };
            proof {
                lemma_views_push(rows@, row);
            }
            rows.push(row);
        },
    }
}

/// The rows after a process is no longer kept.
pub open spec fn removed(rows: Seq<PidRowV>, key: Seq<char>) -> Seq<PidRowV> {
    match key_place(rows, key) {
        Some(i) => rows.remove(i),
        None => rows,
    }
}

/// Stops keeping a process; whether it was kept.
pub fn remove_pid(rows: &mut Vec<PidRow>, pid: u32) -> (r: bool)
    ensures
        views(final(rows)@) == removed(views(old(rows)@), decimal(pid as int)),
        r == (key_place(views(old(rows)@), decimal(pid as int)) is Some),
{
    let key: String = decimal_text_u64(pid as u64);
    match find_key(rows, key.as_str()) {
        Some(i) => {
            proof {
                lemma_views_remove(rows@, i as int);
            }
            rows.remove(i);
            true
        },
        None => false,
    }
}

/// The number of the process that a row is of.
pub open spec fn pid_of(row: PidRowV) -> Option<int> {
    parse_unsigned(row.key, u32::MAX as int)
}

fn read_pid(row: &PidRow) -> (r: Option<u32>)
    ensures
        match r {
            Some(n) => pid_of(row@) == Some(n as int),
            None => pid_of(row@) is None,
        },
{
    match parse_up_to(row.key.as_str(), 0xffff_ffff) {
        Some(n) => Some(n as u32),
        None => None,
    }
}

/// The numbers of the processes that the first `n` rows are of.
pub open spec fn pids_of(rows: Seq<PidRowV>, n: int) -> Seq<int>
    decreases n,
{
    if n <= 0 {
        Seq::empty()
    } else {
        match pid_of(rows[n - 1]) {
            Some(p) => pids_of(rows, n - 1).push(p),
            None => pids_of(rows, n - 1),
        }
    }
}

/// The numbers of the processes that are kept.
pub fn tracked_pids(rows: &Vec<PidRow>) -> (r: Vec<u32>)
    ensures
        r@.map_values(|p: u32| p as int) == pids_of(views(rows@), rows@.len() as int),
{
    let mut out: Vec<u32> = Vec::new();
    let mut i: usize = 0;
    let ghost f = |p: u32| p as int;
    assert(out@.map_values(f) =~= Seq::<int>::empty());
    while i < rows.len()
        invariant
            i <= rows@.len(),
            f == (|p: u32| p as int),
            out@.map_values(f) == pids_of(views(rows@), i as int),
        decreases rows.len() - i,
    {
        assert(views(rows@)[i as int] == rows@[i as int]@);
        if let Some(p) = read_pid(&rows[i]) {
            assert(out@.push(p).map_values(f) =~= out@.map_values(f).push(p as int));
            out.push(p);
        }
        i += 1;
    }
    out
}

fn holds_pid(v: &Vec<u32>, pid: u32) -> (r: bool)
    ensures
        r == v@.contains(pid),
{
    let mut i: usize = 0;
    while i < v.len()
        invariant
            i <= v@.len(),
            forall|k: int| 0 <= k < i ==> (#[trigger] v@[k]) != pid,
        decreases v.len() - i,
    {
        if v[i] == pid {
            assert(v@[i as int] == pid);
            return true;
        }
        i += 1;
    }
    false
}

/// Whether the process of a row is among some processes.
pub open spec fn is_among(row: PidRowV, pids: Seq<u32>) -> bool {
    pid_of(row) is Some && pids.contains(pid_of(row)->0 as u32)
}

/// Whether a row stays when those of dead processes, and of those that have an instance, go.
pub open spec fn stays(row: PidRowV, alive: Seq<u32>, active: Seq<u32>) -> bool {
    is_among(row, alive) && !(is_among(row, active) && row.key == decimal(pid_of(row)->0))
}

/// The rows that stay of the first `n`.
pub open spec fn rows_kept(rows: Seq<PidRowV>, alive: Seq<u32>, active: Seq<u32>, n: int) -> Seq<PidRowV>
    decreases n,
{
    if n <= 0 {
        Seq::empty()
    } else if stays(rows[n - 1], alive, active) {
        rows_kept(rows, alive, active, n - 1).push(rows[n - 1])
    } else {
        rows_kept(rows, alive, active, n - 1)
    }
}

/// The processes of the first `n` rows that are alive and have no instance.
pub open spec fn orphans_among(rows: Seq<PidRowV>, alive: Seq<u32>, active: Seq<u32>, n: int) -> Seq<OrphanV>
    decreases n,
{
    if n <= 0 {
        Seq::empty()
    } else {
        let row = rows[n - 1];
        let before = orphans_among(rows, alive, active, n - 1);
        if is_among(row, alive) && !is_among(row, active) {
            before.push(orphan_of(pid_of(row)->0 as u32, row.entry))
        } else {
            before
        }
    }
}

/// The processes that are alive and have no instance, in the order of the rows. Rows of dead
/// processes and of those that have an instance go.
pub fn get_orphan_processes(rows: &mut Vec<PidRow>, alive: &Vec<u32>, active: &Vec<u32>) -> (r: Vec<
    OrphanProcess,
>)
    ensures
        views(r@) == orphans_among(
            views(old(rows)@),
            alive@,
            active@,
            old(rows)@.len() as int,
        ),
        views(final(rows)@) == rows_kept(
            views(old(rows)@),
            alive@,
            active@,
            old(rows)@.len() as int,
        ),
{
    let mut out: Vec<OrphanProcess> = Vec::new();
    let mut left: Vec<PidRow> = Vec::new();
    let mut i: usize = 0;
    assert(views(out@) =~= Seq::<OrphanV>::empty());
    assert(views(left@) =~= Seq::<PidRowV>::empty());
    while i < rows.len()
        invariant
            i <= rows@.len(),
            rows@ == old(rows)@,
            views(out@) == orphans_among(views(rows@), alive@, active@, i as int),
            views(left@) == rows_kept(views(rows@), alive@, active@, i as int),
        decreases rows.len() - i,
    {
        assert(views(rows@)[i as int] == rows@[i as int]@);
        if let Some(p) = read_pid(&rows[i]) {
            if holds_pid(alive, p) {
                if !holds_pid(active, p) {
                    let o: OrphanProcess = OrphanProcess::from(p, &rows[i].entry);
                    let row: PidRow = rows[i].duplicate();
                    proof {
                        lemma_views_push(out@, o);
                        lemma_views_push(left@, row);
                    }
                    out.push(o);
                    left.push(row);
                } else if !same(rows[i].key.as_str(), decimal_text_u64(p as u64).as_str()) {
                    let row: PidRow = rows[i].duplicate();
                    proof {
                        lemma_views_push(left@, row);
                    }
                    left.push(row);
                }
            }
        }
        i += 1;
    }
    *rows = left;
    out
}

/// A running instance, as the store has it.
#[derive(Debug)]
pub struct RunningInstance {
    pub name: String,
    pub pid: i64,
    pub alive: bool,
    pub tool: Option<String>,
    pub directory: Option<String>,
    pub session_id: Option<String>,
    pub process_id: Option<String>,
    pub notify_port: Option<u16>,
    pub inject_port: Option<u16>,
}

/// A text that may be missing, or what stands for it.
pub open spec fn text_or(o: Option<String>, default: Seq<char>) -> Seq<char> {
    match o {
        Some(s) => s@,
        None => default,
    }
}

/// A port that may be missing, or zero.
pub open spec fn port_or_zero(o: Option<u16>) -> u16 {
    match o {
        Some(p) => p,
        None => 0,
    }
}

fn own_or(o: &Option<String>, default: &str) -> (r: String)
    ensures
        r@ == text_or(*o, default@),
{
    match o {
        Some(s) => s.clone(),
        None => default.to_owned(),
    }
}

/// The entry that a running instance is kept as.
pub open spec fn entry_of(
    i: RunningInstance,
    default_tool: Seq<char>,
    launched_at: Seq<char>,
) -> EntryV {
    EntryV {
        tool: text_or(i.tool, default_tool),
        names: seq![i.name@],
        launched_at,
        directory: text_or(i.directory, ""@),
        process_id: text_or(i.process_id, ""@),
        terminal_preset: ""@,
        pane_id: ""@,
        terminal_id: ""@,
        kitty_listen_on: ""@,
        zellij_session_name: ""@,
        session_id: text_or(i.session_id, ""@),
        notify_port: port_or_zero(i.notify_port),
        inject_port: port_or_zero(i.inject_port),
        tag: ""@,
    }
}

/// The rows with one put under its key.
pub open spec fn put(rows: Seq<PidRowV>, row: PidRowV) -> Seq<PidRowV> {
    match key_place(rows, row.key) {
        Some(i) => rows.update(i, row),
        None => rows.push(row),
    }
}

/// The rows after those of the first `n` running instances that are alive are kept.
pub open spec fn snapshot(
    rows: Seq<PidRowV>,
    running: Seq<RunningInstance>,
    default_tool: Seq<char>,
    launched_at: Seq<char>,
    n: int,
) -> Seq<PidRowV>
    decreases n,
{
    if n <= 0 {
        rows
    } else {
        let before = snapshot(rows, running, default_tool, launched_at, n - 1);
        let i = running[n - 1];
        if i.alive {
            put(
                before,
                PidRowV {
                    key: decimal(i.pid as int),
                    entry: entry_of(i, default_tool, launched_at),
                },
            )
        } else {
            before
        }
    }
}

/// Keeps the running instances that are alive, so that they are found again in a new store. One that
/// names no tool has the default one.
pub fn snapshot_running_to_pidtrack(
    rows: &mut Vec<PidRow>,
    running: &Vec<RunningInstance>,
    default_tool: &str,
    launched_at: &str,
)
    ensures
        views(final(rows)@) == snapshot(
            views(old(rows)@),
            running@,
            default_tool@,
            launched_at@,
            running@.len() as int,
        ),
{
    let ghost start = views(rows@);
    let mut n: usize = 0;
    while n < running.len()
        invariant
            n <= running@.len(),
            views(rows@) == snapshot(start, running@, default_tool@, launched_at@, n as int),
        decreases running.len() - n,
    {
        let i: &RunningInstance = &running[n];
        if i.alive {
            let key: String = decimal_text(i.pid);
            let mut names: Vec<String> = Vec::new();
            names.push(i.name.clone());
            assert(texts(names@) =~= seq![i.name@]);
            let row: PidRow = PidRow {
                key: key.clone(),
                entry: PidEntry {
                    tool: own_or(&i.tool, default_tool),
                    names,
                    launched_at: launched_at.to_owned(),
                    directory: own_or(&i.directory, ""),
                    process_id: own_or(&i.process_id, ""),
                    terminal_preset: "".to_owned(),
                    pane_id: "".to_owned(),
                    terminal_id: "".to_owned(),
                    kitty_listen_on: "".to_owned(),
                    zellij_session_name: "".to_owned(),
                    session_id: own_or(&i.session_id, ""),
                    notify_port: match i.notify_port {
                        Some(p) => p,
                        None => 0,
                    },
                    inject_port: match i.inject_port {
                        Some(p) => p,
                        None => 0,
                    },
                    tag: "".to_owned(),
                },
            };
            match find_key(rows, key.as_str()) {
                Some(at) => {
                    proof {
                        lemma_views_update(rows@, at as int, row);
                    }
                    rows.set(at, row);
                },
                None => {
                    proof {
                        lemma_views_push(rows@, row);
                    }
                    rows.push(row);
                },
            }
        }
        n += 1;
    }
}

/// An object with a text under a key, where the text is not empty.
pub open spec fn with_filled(ms: Seq<MemberV>, key: Seq<char>, value: Seq<char>) -> Seq<MemberV> {
    if value.len() == 0 {
        ms
    } else {
        with_member(ms, key, JsonV::Text(value))
    }
}

/// What is known of how a process was launched.
pub open spec fn launch_context(o: OrphanV) -> Seq<MemberV> {
    let a = with_filled(Seq::empty(), "process_id"@, o.process_id);
    let b = with_filled(a, "pane_id"@, o.pane_id);
    let c = with_filled(b, "terminal_id"@, o.terminal_id);
    let d = with_filled(c, "kitty_listen_on"@, o.kitty_listen_on);
    if o.zellij_session_name.len() == 0 {
        d
    } else {
        with_member(
            d,
            "env"@,
            JsonV::Object(
                seq![
                    MemberV {
                        key: "ZELLIJ_SESSION_NAME"@,
                        value: JsonV::Text(o.zellij_session_name),
                    },
                ],
            ),
        )
    }
}

fn set_filled(v: &mut Vec<Member>, key: &str, value: &str)
    ensures
        object_view(final(v)@) == with_filled(object_view(old(v)@), key@, value@),
{
    if value.unicode_len() > 0 {
        set_member(v, key, Json::text(value));
    }
}

/// A port that an instance listens on.
#[derive(Debug)]
pub struct Endpoint {
    pub kind: &'static str,
    pub port: u16,
}

/// How a process without an instance is registered again, under the name of one.
#[derive(Debug)]
pub struct Recovery {
    /// What is known of how it was launched; nothing where that is nothing.
    pub launch_context: Option<Json>,
    /// The session that the instance gets, and that another instance then loses.
    pub session_id: Option<String>,
    /// The process that the instance is bound to.
    pub process_id: Option<String>,
    /// The ports it listens on.
    pub endpoints: Vec<Endpoint>,
}

/// The text, unless it is empty.
pub open spec fn filled(s: Seq<char>) -> Option<Seq<char>> {
    if s.len() == 0 {
        None
    } else {
        Some(s)
    }
}

fn own_filled(s: &str) -> (r: Option<String>)
    ensures
        opt_text(r) == filled(s@),
{
    if s.unicode_len() == 0 {
        None
    } else {
        Some(s.to_owned())
    }
}

/// The ports that a process listens on: those that are not zero.
pub open spec fn endpoints_of(o: OrphanV) -> Seq<Endpoint> {
    (if o.notify_port == 0 {
        Seq::empty()
    } else {
        seq![Endpoint { kind: "pty", port: o.notify_port }]
    }) + (if o.inject_port == 0 {
        Seq::empty()
    } else {
        seq![Endpoint { kind: "inject", port: o.inject_port }]
    })
}

/// How a process without an instance is registered again.
pub fn recover_single_orphan(orphan: &OrphanProcess) -> (r: Recovery)
    ensures
        match r.launch_context {
            Some(j) => launch_context(orphan@).len() > 0 && j@ == JsonV::Object(
                launch_context(orphan@),
            ),
            None => launch_context(orphan@).len() == 0,
        },
        opt_text(r.session_id) == filled(orphan@.session_id),
        opt_text(r.process_id) == filled(orphan@.process_id),
        r.endpoints@ == endpoints_of(orphan@),
{
    let mut v: Vec<Member> = Vec::new();
    assert(object_view(v@) =~= Seq::<MemberV>::empty());
    set_filled(&mut v, "process_id", orphan.process_id.as_str());
    set_filled(&mut v, "pane_id", orphan.pane_id.as_str());
    set_filled(&mut v, "terminal_id", orphan.terminal_id.as_str());
    set_filled(&mut v, "kitty_listen_on", orphan.kitty_listen_on.as_str());
    if orphan.zellij_session_name.as_str().unicode_len() > 0 {
        let mut env: Vec<Member> = Vec::new();
        crate::json::push_member(
            &mut env,
            "ZELLIJ_SESSION_NAME",
            Json::text(orphan.zellij_session_name.as_str()),
        );
        proof {
            lemma_object(env);
            assert(object_view(env@) =~= seq![
                MemberV {
                    key: "ZELLIJ_SESSION_NAME"@,
                    value: JsonV::Text(orphan@.zellij_session_name),
                },
            ]);
        }
        set_member(&mut v, "env", Json::Object(env));
    }
    let mut endpoints: Vec<Endpoint> = Vec::new();
    if orphan.notify_port != 0 {
        endpoints.push(Endpoint { kind: "pty", port: orphan.notify_port });
    }
    if orphan.inject_port != 0 {
        endpoints.push(Endpoint { kind: "inject", port: orphan.inject_port });
    }
    assert(endpoints@ =~= endpoints_of(orphan@));
    assert(object_view(v@).len() == v@.len());
    let context: Option<Json> = if v.len() == 0 {
        None
    } else {
        proof {
            lemma_object(v);
        }
        Some(Json::Object(v))
    };
    Recovery {
        launch_context: context,
        session_id: own_filled(orphan.session_id.as_str()),
        process_id: own_filled(orphan.process_id.as_str()),
        endpoints,
    }
}

/// Recording a process again changes nothing once it has been recorded.
pub proof fn recording_twice_changes_nothing(rows: Seq<PidRowV>, rec: PidRecord<'_>, first: Seq<char>, second: Seq<char>)
    ensures
        recorded(recorded(rows, rec, first), rec, second) == recorded(rows, rec, first),
{
    let key = decimal(rec.pid as int);
    let once = recorded(rows, rec, first);
    let p = keyed(once, key);
    crate::search::first_where_is_least(rows.len() as int, keyed(rows, key));
    match key_place(rows, key) {
        Some(i) => {
            assert forall|j: int| 0 <= j < i implies !#[trigger] p(j) by {
                assert(!keyed(rows, key)(j));
                assert(once[j] == rows[j]);
            }
            crate::search::first_where_found(once.len() as int, keyed(once, key), i);
            let e = merged(rows[i].entry, rec);
            if !rows[i].entry.names.contains(rec.name@) {
                assert(e.names[e.names.len() - 1] == rec.name@);
            }
            assert(merged(e, rec).names =~= e.names);
            assert(merged(e, rec) == e);
            assert(once.update(i, PidRowV { key, entry: e }) =~= once);
        },
        None => {
            let n: int = rows.len() as int;
            assert forall|j: int| 0 <= j < n implies !#[trigger] p(j) by {
                assert(!keyed(rows, key)(j));
                assert(once[j] == rows[j]);
            }
            crate::search::first_where_found(once.len() as int, keyed(once, key), n);
            let e = first_entry(rec, first);
            assert(e.names[0] == rec.name@);
            assert(merged(e, rec) == e);
            assert(once.update(n, PidRowV { key, entry: e }) =~= once);
        },
    }
}

/// Recording a process keeps every key at most once.
pub proof fn recording_keeps_keys_distinct(rows: Seq<PidRowV>, rec: PidRecord<'_>, launched_at: Seq<char>)
    requires
        keys_distinct(rows),
    ensures
        keys_distinct(recorded(rows, rec, launched_at)),
{
    let key = decimal(rec.pid as int);
    crate::search::first_where_is_least(rows.len() as int, keyed(rows, key));
    let after = recorded(rows, rec, launched_at);
    match key_place(rows, key) {
        Some(i) => {
            assert forall|j: int| 0 <= j < rows.len() implies (#[trigger] after[j]).key
                == rows[j].key by {}
        },
        None => {
            assert forall|j: int| 0 <= j < rows.len() implies (#[trigger] after[j]).key != key by {
                assert(!keyed(rows, key)(j));
            }
        },
    }
}

/// A process that was removed is no longer kept, where no key occurs twice.
pub proof fn removed_processes_are_gone(rows: Seq<PidRowV>, key: Seq<char>)
    requires
        keys_distinct(rows),
    ensures
        key_place(removed(rows, key), key) is None,
{
    crate::search::first_where_is_least(rows.len() as int, keyed(rows, key));
    let after = removed(rows, key);
    crate::search::first_where_is_least(after.len() as int, keyed(after, key));
    if let Some(j) = key_place(after, key) {
        assert(keyed(after, key)(j));
        match key_place(rows, key) {
            Some(i) => {
                assert(keyed(rows, key)(i));
                if j < i {
                    assert(after[j] == rows[j]);
                    assert(!keyed(rows, key)(j));
                } else {
                    assert(after[j] == rows[j + 1]);
                    assert(rows[i].key != rows[j + 1].key);
                }
            },
            None => {
                assert(!keyed(rows, key)(j));
            },
        }
    }
}

/// No process that is reported as one without an instance has one, and each of them is alive.
pub proof fn orphans_are_alive_and_unclaimed(rows: Seq<PidRowV>, alive: Seq<u32>, active: Seq<u32>, n: int, i: int)
    requires
        0 <= n <= rows.len(),
        0 <= i < orphans_among(rows, alive, active, n).len(),
    ensures
        alive.contains(orphans_among(rows, alive, active, n)[i].pid),
        !active.contains(orphans_among(rows, alive, active, n)[i].pid),
    decreases n,
{
    if n > 0 && i < orphans_among(rows, alive, active, n - 1).len() {
        orphans_are_alive_and_unclaimed(rows, alive, active, n - 1, i);
    }
}

/// A process that is taken from an entry has everything that was recorded of it, field by field.
pub proof fn orphans_have_what_was_recorded(pid: u32, entry: PidEntry, r: OrphanProcess)
    requires
        call_ensures(OrphanProcess::from, (pid, &entry), r),
    ensures
        r.pid == pid,
        texts(r.names@) == texts(entry.names@),
        (r.tool@ == entry.tool@ && r.directory@ == entry.directory@ && r.process_id@ == entry.process_id@ && r.terminal_preset@ == entry.terminal_preset@ && r.pane_id@ == entry.pane_id@ && r.terminal_id@ == entry.terminal_id@ && r.kitty_listen_on@ == entry.kitty_listen_on@ && r.zellij_session_name@ == entry.zellij_session_name@ && r.session_id@ == entry.session_id@ && r.tag@ == entry.tag@ && r.notify_port == entry.notify_port && r.inject_port == entry.inject_port),
{
    assert(r@.tag == orphan_of(pid, entry@).tag);
}

proof fn lemma_orphan_found(rows: Seq<PidRowV>, alive: Seq<u32>, active: Seq<u32>, n: int, i: int)
    requires
        0 <= i < n <= rows.len(),
        is_among(rows[i], alive),
        !is_among(rows[i], active),
    ensures
        orphans_among(rows, alive, active, n).contains(orphan_of(pid_of(rows[i])->0 as u32, rows[i].entry)),
    decreases n,
{
    let o = orphan_of(pid_of(rows[i])->0 as u32, rows[i].entry);
    let now = orphans_among(rows, alive, active, n);
    if i == n - 1 {
        assert(now.last() == o);
    } else {
        lemma_orphan_found(rows, alive, active, n - 1, i);
        let before = orphans_among(rows, alive, active, n - 1);
        let k = choose|k: int| 0 <= k < before.len() && before[k] == o;
        assert(now[k] == o);
    }
}

proof fn lemma_orphan_source(rows: Seq<PidRowV>, alive: Seq<u32>, active: Seq<u32>, n: int, k: int)
    requires
        0 <= n <= rows.len(),
        0 <= k < orphans_among(rows, alive, active, n).len(),
    ensures
        exists|i: int|
            0 <= i < n && is_among(#[trigger] rows[i], alive) && !is_among(rows[i], active) && orphans_among(rows, alive, active, n)[k] == orphan_of(pid_of(rows[i])->0 as u32, rows[i].entry),
    decreases n,
{
    if n > 0 {
        let before = orphans_among(rows, alive, active, n - 1);
        if k < before.len() {
            lemma_orphan_source(rows, alive, active, n - 1, k);
        } else {
            assert(is_among(rows[n - 1], alive));
        }
    }
}

/// Whether an orphan is the process of a row: it has its number, and all that the row holds.
pub open spec fn is_process_of(o: OrphanProcess, row: PidRow) -> bool {
    &&& row.key@ == decimal(o.pid as int)
    &&& texts(o.names@) == texts(row.entry.names@)
    &&& (o.tool@ == row.entry.tool@ && o.directory@ == row.entry.directory@ && o.process_id@ == row.entry.process_id@ && o.terminal_preset@ == row.entry.terminal_preset@ && o.pane_id@ == row.entry.pane_id@ && o.terminal_id@ == row.entry.terminal_id@ && o.kitty_listen_on@ == row.entry.kitty_listen_on@ && o.zellij_session_name@ == row.entry.zellij_session_name@ && o.session_id@ == row.entry.session_id@ && o.tag@ == row.entry.tag@ && o.notify_port == row.entry.notify_port && o.inject_port == row.entry.inject_port)
}

/// Every process that is alive and has no instance is reported, with all that was recorded of it.
pub proof fn every_orphan_is_reported(rows: &mut Vec<PidRow>, alive: Vec<u32>, active: Vec<u32>, r: Vec<OrphanProcess>, i: int, pid: u32)
    requires
        call_ensures(get_orphan_processes, (rows, &alive, &active), r),
        0 <= i < old(rows)@.len(),
        old(rows)@[i].key@ == decimal(pid as int),
        alive@.contains(pid),
        !active@.contains(pid),
    ensures
        exists|k: int| 0 <= k < r@.len() && is_process_of(#[trigger] r@[k], old(rows)@[i]) && r@[k].pid == pid,
{
    let all = views(old(rows)@);
    let n = all.len() as int;
    unsigned_round_trip(pid as int, u32::MAX as int);
    assert(all[i] == old(rows)@[i]@);
    lemma_orphan_found(all, alive@, active@, n, i);
    let o = orphan_of(pid, all[i].entry);
    let k = choose|k: int| 0 <= k < views(r@).len() && views(r@)[k] == o;
    assert(r@[k]@ == o);
    assert(is_process_of(r@[k], old(rows)@[i]));
}

/// Nothing is reported but what was recorded: each orphan that is reported is alive, has no instance,
/// and has all that its row holds.
pub proof fn only_orphans_are_reported(rows: &mut Vec<PidRow>, alive: Vec<u32>, active: Vec<u32>, r: Vec<OrphanProcess>, k: int)
    requires
        call_ensures(get_orphan_processes, (rows, &alive, &active), r),
        0 <= k < r@.len(),
        forall|i: int| 0 <= i < old(rows)@.len() ==> exists|n: u32| (#[trigger] old(rows)@[i]).key@ == #[trigger] decimal(n as int),
    ensures
        alive@.contains(r@[k].pid),
        !active@.contains(r@[k].pid),
        exists|i: int| 0 <= i < old(rows)@.len() && is_process_of(r@[k], #[trigger] old(rows)@[i]),
{
    let all = views(old(rows)@);
    let n = all.len() as int;
    lemma_orphan_source(all, alive@, active@, n, k);
    assert(views(r@)[k] == r@[k]@);
    let i = choose|i: int|
        0 <= i < n && is_among(#[trigger] all[i], alive@) && !is_among(all[i], active@) && orphans_among(all, alive@, active@, n)[k] == orphan_of(pid_of(all[i])->0 as u32, all[i].entry);
    assert(all[i] == old(rows)@[i]@);
    let p = choose|p: u32| old(rows)@[i].key@ == #[trigger] decimal(p as int);
    unsigned_round_trip(p as int, u32::MAX as int);
    assert(is_process_of(r@[k], old(rows)@[i]));
}

/// A process that was recorded with a session is found again with that session, once it is alive
/// without an instance, and so with everything else that was recorded of it.
pub proof fn recorded_processes_are_found_again(
    rows: &mut Vec<PidRow>,
    rec: PidRecord<'_>,
    launched_at: &str,
    later: &mut Vec<PidRow>,
    alive: Vec<u32>,
    active: Vec<u32>,
    r: Vec<OrphanProcess>,
)
    requires
        call_ensures(record_pid, (rows, &rec, launched_at), ()),
        forall|i: int| 0 <= i < old(rows)@.len() ==> (#[trigger] old(rows)@[i]).key@ != decimal(rec.pid as int),
        old(later)@ == final(rows)@,
        call_ensures(get_orphan_processes, (later, &alive, &active), r),
        alive@.contains(rec.pid),
        !active@.contains(rec.pid),
    ensures
        r@.len() > 0,
        r@.last().pid == rec.pid && texts(r@.last().names@) == seq![rec.name@],
        (r@.last().tool@ == rec.tool@ && r@.last().directory@ == rec.directory@ && r@.last().process_id@ == rec.process_id@ && r@.last().terminal_preset@ == rec.terminal_preset@ && r@.last().pane_id@ == rec.pane_id@ && r@.last().terminal_id@ == rec.terminal_id@ && r@.last().kitty_listen_on@ == rec.kitty_listen_on@ && r@.last().zellij_session_name@ == rec.zellij_session_name@ && r@.last().session_id@ == rec.session_id@ && r@.last().tag@ == rec.tag@ && r@.last().notify_port == rec.notify_port && r@.last().inject_port == rec.inject_port),
{
    let before = views(old(rows)@);
    let key = decimal(rec.pid as int);
    crate::search::first_where_is_least(before.len() as int, keyed(before, key));
    assert forall|i: int| 0 <= i < before.len() implies !#[trigger] keyed(before, key)(i) by {
        assert(before[i] == old(rows)@[i]@);
    }
    let all = views(old(later)@);
    let n = all.len() as int;
    unsigned_round_trip(rec.pid as int, u32::MAX as int);
    let row = PidRowV { key, entry: first_entry(rec, launched_at@) };
    assert(all[n - 1] == row);
    assert(is_among(row, alive@) && !is_among(row, active@));
    let o = orphan_of(rec.pid, first_entry(rec, launched_at@));
    assert(views(r@).last() == o);
    assert(r@.last()@ == o);
}

/// Recording a process again keeps what was known of it, adds what was not, and adds the name once;
/// every other row stays.
pub proof fn records_are_completed(rows: &mut Vec<PidRow>, rec: PidRecord<'_>, launched_at: &str, i: int, j: int)
    requires
        call_ensures(record_pid, (rows, &rec, launched_at), ()),
        0 <= i < old(rows)@.len(),
        old(rows)@[i].key@ == decimal(rec.pid as int),
        forall|k: int| 0 <= k < i ==> (#[trigger] old(rows)@[k]).key@ != decimal(rec.pid as int),
    ensures
        final(rows)@.len() == old(rows)@.len(),
        0 <= j < old(rows)@.len() && j != i ==> final(rows)@[j]@ == old(rows)@[j]@,
        final(rows)@[i].key@ == old(rows)@[i].key@,
        final(rows)@[i].entry.tool@ == old(rows)@[i].entry.tool@ && final(rows)@[i].entry.directory@ == old(rows)@[i].entry.directory@ && final(rows)@[i].entry.launched_at@ == old(rows)@[i].entry.launched_at@,
        texts(final(rows)@[i].entry.names@).contains(rec.name@),
        texts(old(rows)@[i].entry.names@).is_prefix_of(texts(final(rows)@[i].entry.names@)),
        texts(old(rows)@[i].entry.names@).contains(rec.name@) ==> texts(final(rows)@[i].entry.names@) == texts(old(rows)@[i].entry.names@),
        final(rows)@[i].entry.process_id@ == (if old(rows)@[i].entry.process_id@.len() > 0 { old(rows)@[i].entry.process_id@ } else { rec.process_id@ }),
        final(rows)@[i].entry.terminal_preset@ == (if old(rows)@[i].entry.terminal_preset@.len() > 0 { old(rows)@[i].entry.terminal_preset@ } else { rec.terminal_preset@ }),
        final(rows)@[i].entry.pane_id@ == (if old(rows)@[i].entry.pane_id@.len() > 0 { old(rows)@[i].entry.pane_id@ } else { rec.pane_id@ }),
        final(rows)@[i].entry.terminal_id@ == (if old(rows)@[i].entry.terminal_id@.len() > 0 { old(rows)@[i].entry.terminal_id@ } else { rec.terminal_id@ }),
        final(rows)@[i].entry.kitty_listen_on@ == (if old(rows)@[i].entry.kitty_listen_on@.len() > 0 { old(rows)@[i].entry.kitty_listen_on@ } else { rec.kitty_listen_on@ }),
        final(rows)@[i].entry.zellij_session_name@ == (if old(rows)@[i].entry.zellij_session_name@.len() > 0 { old(rows)@[i].entry.zellij_session_name@ } else { rec.zellij_session_name@ }),
        final(rows)@[i].entry.session_id@ == (if old(rows)@[i].entry.session_id@.len() > 0 { old(rows)@[i].entry.session_id@ } else { rec.session_id@ }),
        final(rows)@[i].entry.tag@ == (if old(rows)@[i].entry.tag@.len() > 0 { old(rows)@[i].entry.tag@ } else { rec.tag@ }),
        final(rows)@[i].entry.notify_port == (if old(rows)@[i].entry.notify_port != 0 { old(rows)@[i].entry.notify_port } else { rec.notify_port }),
        final(rows)@[i].entry.inject_port == (if old(rows)@[i].entry.inject_port != 0 { old(rows)@[i].entry.inject_port } else { rec.inject_port }),
{
    let before = views(old(rows)@);
    let after = views(final(rows)@);
    let key = decimal(rec.pid as int);
    assert forall|k: int| 0 <= k < i implies !#[trigger] keyed(before, key)(k) by {
        assert(before[k] == old(rows)@[k]@);
    }
    assert(before[i] == old(rows)@[i]@);
    assert(keyed(before, key)(i));
    crate::search::first_where_found(before.len() as int, keyed(before, key), i);
    assert(after.len() == before.len());
    assert(after[i] == final(rows)@[i]@);
    if 0 <= j < before.len() && j != i {
        assert(after[j] == final(rows)@[j]@ && before[j] == old(rows)@[j]@);
    }
    let names = before[i].entry.names;
    assert(names.push(rec.name@).last() == rec.name@);
    assert(names.push(rec.name@).contains(rec.name@));
}

/// A record tells what is always known, and nothing of the rest.
pub proof fn new_records_tell_what_is_known<'a>(pid: u32, tool: &'a str, name: &'a str, directory: &'a str, r: PidRecord<'a>)
    requires
        call_ensures(PidRecord::new, (pid, tool, name, directory), r),
    ensures
        r.pid == pid && r.tool@ == tool@ && r.name@ == name@ && r.directory@ == directory@,
        r.process_id@ == ""@ && r.terminal_preset@ == ""@ && r.pane_id@ == ""@ && r.terminal_id@ == ""@,
        r.kitty_listen_on@ == ""@ && r.zellij_session_name@ == ""@ && r.session_id@ == ""@ && r.tag@ == ""@,
        r.notify_port == 0 && r.inject_port == 0,
{
}

/// A process that answers is alive, and so is one that may not be asked; one that is not there is not.
pub proof fn processes_that_answer_are_alive(probe: ProcessProbe, r: bool)
    requires
        call_ensures(is_alive, (probe,), r),
    ensures
        probe == ProcessProbe::Reached ==> r,
        probe == ProcessProbe::NotPermitted ==> r,
        probe == ProcessProbe::NoSuchProcess ==> !r,
{
}

/// Removing a process takes its row and no other, and tells whether there was one.
pub proof fn removing_takes_one_row(rows: &mut Vec<PidRow>, pid: u32, r: bool, i: int)
    requires
        call_ensures(remove_pid, (rows, pid), r),
    ensures
        (forall|k: int| 0 <= k < old(rows)@.len() ==> (#[trigger] old(rows)@[k]).key@ != decimal(pid as int)) ==> !r && views(final(rows)@) == views(old(rows)@),
        0 <= i < old(rows)@.len() && old(rows)@[i].key@ == decimal(pid as int) && (forall|k: int| 0 <= k < i ==> (#[trigger] old(rows)@[k]).key@ != decimal(pid as int)) ==> r && views(final(rows)@) == views(old(rows)@).remove(i),
{
    let before = views(old(rows)@);
    let key = decimal(pid as int);
    let p = keyed(before, key);
    crate::search::first_where_is_least(before.len() as int, p);
    assert forall|k: int| 0 <= k < before.len() implies #[trigger] p(k) == (old(rows)@[k].key@ == key) by {
        assert(before[k] == old(rows)@[k]@);
    }
    if 0 <= i < before.len() && old(rows)@[i].key@ == key && (forall|k: int| 0 <= k < i ==> (#[trigger] old(rows)@[k]).key@ != key) {
        assert(p(i));
        assert forall|k: int| 0 <= k < i implies !#[trigger] p(k) by {
            assert(old(rows)@[k].key@ != key);
        }
        crate::search::first_where_found(before.len() as int, p, i);
    }
}

proof fn lemma_rows_kept(rows: Seq<PidRowV>, alive: Seq<u32>, active: Seq<u32>, n: int, i: int)
    requires
        0 <= i < n <= rows.len(),
    ensures
        stays(rows[i], alive, active) ==> rows_kept(rows, alive, active, n).contains(rows[i]),
        forall|k: int| 0 <= k < rows_kept(rows, alive, active, n).len() ==> stays(#[trigger] rows_kept(rows, alive, active, n)[k], alive, active),
    decreases n,
{
    let now = rows_kept(rows, alive, active, n);
    let before = rows_kept(rows, alive, active, n - 1);
    if n > 1 {
        lemma_rows_kept(rows, alive, active, n - 1, if i < n - 1 { i } else { 0 });
    } else {
        assert(before =~= Seq::empty());
    }
    if stays(rows[i], alive, active) {
        if i == n - 1 {
            assert(now.last() == rows[i]);
        } else {
            let k = choose|k: int| 0 <= k < before.len() && before[k] == rows[i];
            assert(now[k] == rows[i]);
        }
    }
}

/// Asking for orphans forgets the processes that are dead or have an instance, and keeps the others.
pub proof fn lost_processes_stay_recorded(rows: &mut Vec<PidRow>, alive: Vec<u32>, active: Vec<u32>, r: Vec<OrphanProcess>, i: int, pid: u32)
    requires
        call_ensures(get_orphan_processes, (rows, &alive, &active), r),
        0 <= i < old(rows)@.len(),
        old(rows)@[i].key@ == decimal(pid as int),
    ensures
        alive@.contains(pid) && !active@.contains(pid) ==> views(final(rows)@).contains(old(rows)@[i]@),
        !alive@.contains(pid) || active@.contains(pid) ==> !views(final(rows)@).contains(old(rows)@[i]@),
{
    let all = views(old(rows)@);
    unsigned_round_trip(pid as int, u32::MAX as int);
    assert(all[i] == old(rows)@[i]@);
    lemma_rows_kept(all, alive@, active@, all.len() as int, i);
    assert(!stays(all[i], alive@, active@) ==> !rows_kept(all, alive@, active@, all.len() as int).contains(all[i]));
}

proof fn lemma_pids_of(rows: Seq<PidRowV>, n: int, i: int)
    requires
        0 <= i < n <= rows.len(),
        pid_of(rows[i]) is Some,
    ensures
        pids_of(rows, n).contains(pid_of(rows[i])->0),
    decreases n,
{
    let p = pid_of(rows[i])->0;
    if i == n - 1 {
        assert(pids_of(rows, n).last() == p);
    } else {
        lemma_pids_of(rows, n - 1, i);
        let before = pids_of(rows, n - 1);
        let k = choose|k: int| 0 <= k < before.len() && before[k] == p;
        assert(pids_of(rows, n)[k] == p);
    }
}

proof fn lemma_pids_source(rows: Seq<PidRowV>, n: int, p: int)
    requires
        0 <= n <= rows.len(),
        pids_of(rows, n).contains(p),
    ensures
        exists|i: int| 0 <= i < n && pid_of(#[trigger] rows[i]) == Some(p),
    decreases n,
{
    if n > 0 {
        let now = pids_of(rows, n);
        let k = choose|k: int| 0 <= k < now.len() && now[k] == p;
        if pid_of(rows[n - 1]) == Some(p) {
        } else {
            assert(pids_of(rows, n - 1)[k] == p);
            lemma_pids_source(rows, n - 1, p);
        }
    }
}

/// The processes that are tracked are those that have a row.
pub proof fn tracked_processes_have_a_row(rows: Vec<PidRow>, r: Vec<u32>, pid: u32)
    requires
        call_ensures(tracked_pids, (&rows,), r),
        forall|i: int| 0 <= i < rows@.len() ==> exists|n: u32| (#[trigger] rows@[i]).key@ == #[trigger] decimal(n as int),
    ensures
        r@.contains(pid) == (exists|i: int| 0 <= i < rows@.len() && (#[trigger] rows@[i]).key@ == decimal(pid as int)),
{
    let all = views(rows@);
    let n = all.len() as int;
    let ids = r@.map_values(|p: u32| p as int);
    unsigned_round_trip(pid as int, u32::MAX as int);
    if r@.contains(pid) {
        let k = choose|k: int| 0 <= k < r@.len() && r@[k] == pid;
        assert(ids[k] == pid as int);
        lemma_pids_source(all, n, pid as int);
        let i = choose|i: int| 0 <= i < n && pid_of(#[trigger] all[i]) == Some(pid as int);
        assert(all[i] == rows@[i]@);
        let p = choose|p: u32| rows@[i].key@ == #[trigger] decimal(p as int);
        unsigned_round_trip(p as int, u32::MAX as int);
    }
    if exists|i: int| 0 <= i < rows@.len() && (#[trigger] rows@[i]).key@ == decimal(pid as int) {
        let i = choose|i: int| 0 <= i < rows@.len() && (#[trigger] rows@[i]).key@ == decimal(pid as int);
        assert(all[i] == rows@[i]@);
        lemma_pids_of(all, n, i);
        let k = choose|k: int| 0 <= k < ids.len() && ids[k] == pid as int;
        assert(r@[k] == pid);
    }
}

proof fn lemma_put_found(rows: Seq<PidRowV>, row: PidRowV)
    ensures
        put(rows, row).contains(row),
        forall|i: int| 0 <= i < rows.len() && (#[trigger] rows[i]).key != row.key ==> put(rows, row)[i] == rows[i],
        put(rows, row).len() >= rows.len(),
{
    let p = keyed(rows, row.key);
    crate::search::first_where_is_least(rows.len() as int, p);
    let after = put(rows, row);
    match key_place(rows, row.key) {
        Some(i) => {
            assert(after[i] == row);
            assert(p(i));
        },
        None => {
            assert(after.last() == row);
        },
    }
}

proof fn lemma_snapshot_found(rows: Seq<PidRowV>, running: Seq<RunningInstance>, tool: Seq<char>, at: Seq<char>, n: int, i: int)
    requires
        0 <= i < n <= running.len(),
        running[i].alive,
        forall|k: int| i < k < n ==> (#[trigger] running[k]).pid != running[i].pid,
    ensures
        snapshot(rows, running, tool, at, n).contains(PidRowV { key: decimal(running[i].pid as int), entry: entry_of(running[i], tool, at) }),
    decreases n,
{
    let row = PidRowV { key: decimal(running[i].pid as int), entry: entry_of(running[i], tool, at) };
    let before = snapshot(rows, running, tool, at, n - 1);
    let last = running[n - 1];
    let put_row = PidRowV { key: decimal(last.pid as int), entry: entry_of(last, tool, at) };
    lemma_put_found(before, put_row);
    if i < n - 1 {
        lemma_snapshot_found(rows, running, tool, at, n - 1, i);
        let k = choose|k: int| 0 <= k < before.len() && before[k] == row;
        assert(last.pid != running[i].pid);
        if put_row.key == row.key {
            crate::text::decimal_injective(last.pid as int, running[i].pid as int);
        }
        assert(snapshot(rows, running, tool, at, n)[k] == row);
    }
}

/// A running instance that is alive is kept under the number of its process, with its name, its tool
/// or the default one, its directory, its session, its process and its ports.
pub proof fn running_instances_are_kept(
    rows: &mut Vec<PidRow>,
    running: Vec<RunningInstance>,
    default_tool: &str,
    launched_at: &str,
    i: int,
)
    requires
        call_ensures(snapshot_running_to_pidtrack, (rows, &running, default_tool, launched_at), ()),
        0 <= i < running@.len(),
        running@[i].alive,
        forall|k: int| i < k < running@.len() ==> (#[trigger] running@[k]).pid != running@[i].pid,
    ensures
        exists|k: int| {
            let row = #[trigger] final(rows)@[k];
            &&& 0 <= k < final(rows)@.len()
            &&& row.key@ == decimal(running@[i].pid as int)
            &&& texts(row.entry.names@) == seq![running@[i].name@]
            &&& row.entry.tool@ == (match running@[i].tool { Some(t) => t@, None => default_tool@ })
            &&& row.entry.launched_at@ == launched_at@
            &&& row.entry.directory@ == (match running@[i].directory { Some(t) => t@, None => ""@ })
            &&& row.entry.session_id@ == (match running@[i].session_id { Some(t) => t@, None => ""@ })
            &&& row.entry.process_id@ == (match running@[i].process_id { Some(t) => t@, None => ""@ })
            &&& row.entry.notify_port == (match running@[i].notify_port { Some(p) => p, None => 0 })
            &&& row.entry.inject_port == (match running@[i].inject_port { Some(p) => p, None => 0 })
        },
{
    let after = views(final(rows)@);
    lemma_snapshot_found(views(old(rows)@), running@, default_tool@, launched_at@, running@.len() as int, i);
    let row = PidRowV { key: decimal(running@[i].pid as int), entry: entry_of(running@[i], default_tool@, launched_at@) };
    let k = choose|k: int| 0 <= k < after.len() && after[k] == row;
    assert(final(rows)@[k]@ == row);
}

proof fn lemma_snapshot_keeps(rows: Seq<PidRowV>, running: Seq<RunningInstance>, tool: Seq<char>, at: Seq<char>, n: int, j: int)
    requires
        0 <= n <= running.len(),
        0 <= j < rows.len(),
        forall|k: int| 0 <= k < n && (#[trigger] running[k]).alive ==> decimal(running[k].pid as int) != rows[j].key,
    ensures
        snapshot(rows, running, tool, at, n).len() >= rows.len(),
        snapshot(rows, running, tool, at, n)[j] == rows[j],
    decreases n,
{
    if n > 0 {
        lemma_snapshot_keeps(rows, running, tool, at, n - 1, j);
        let before = snapshot(rows, running, tool, at, n - 1);
        let last = running[n - 1];
        lemma_put_found(before, PidRowV { key: decimal(last.pid as int), entry: entry_of(last, tool, at) });
    }
}

/// Keeping the running instances leaves the other rows, and a dead instance takes none.
pub proof fn other_rows_are_left(
    rows: &mut Vec<PidRow>,
    running: Vec<RunningInstance>,
    default_tool: &str,
    launched_at: &str,
    j: int,
)
    requires
        call_ensures(snapshot_running_to_pidtrack, (rows, &running, default_tool, launched_at), ()),
        0 <= j < old(rows)@.len(),
        forall|k: int| 0 <= k < running@.len() && (#[trigger] running@[k]).alive ==> decimal(running@[k].pid as int) != old(rows)@[j].key@,
    ensures
        final(rows)@.len() >= old(rows)@.len(),
        final(rows)@[j]@ == old(rows)@[j]@,
{
    let before = views(old(rows)@);
    assert(before[j] == old(rows)@[j]@);
    lemma_snapshot_keeps(before, running@, default_tool@, launched_at@, running@.len() as int, j);
    assert(views(final(rows)@)[j] == final(rows)@[j]@);
}

proof fn lemma_launch_keys()
    ensures
        "process_id"@.len() == 10 && "pane_id"@.len() == 7 && "terminal_id"@.len() == 11 && "kitty_listen_on"@.len() == 15 && "env"@.len() == 3,
{
    reveal_strlit("process_id");
    reveal_strlit("pane_id");
    reveal_strlit("terminal_id");
    reveal_strlit("kitty_listen_on");
    reveal_strlit("env");
}

proof fn lemma_filled(ms: Seq<MemberV>, key: Seq<char>, value: Seq<char>, other: Seq<char>)
    ensures
        other != key ==> lookup(with_filled(ms, key, value), other) == lookup(ms, other),
        value.len() > 0 ==> lookup(with_filled(ms, key, value), key) == Some(JsonV::Text(value)),
        value.len() == 0 ==> with_filled(ms, key, value) == ms,
        value.len() > 0 ==> with_filled(ms, key, value).len() > 0,
{
    crate::json::with_member_reads_back(ms, key, JsonV::Text(value), other);
    crate::json::with_member_reads_back(ms, key, JsonV::Text(value), key);
    if value.len() > 0 && with_filled(ms, key, value).len() == 0 {
        assert(lookup(with_filled(ms, key, value), key) is None);
    }
}

/// What a launch is remembered by, under a key: the text where there is one.
pub open spec fn remembered(value: Seq<char>) -> Option<JsonV> {
    if value.len() > 0 {
        Some(JsonV::Text(value))
    } else {
        None
    }
}

proof fn lemma_launch_context(o: OrphanV)
    ensures
        lookup(launch_context(o), "process_id"@) == remembered(o.process_id),
        lookup(launch_context(o), "pane_id"@) == remembered(o.pane_id),
        lookup(launch_context(o), "terminal_id"@) == remembered(o.terminal_id),
        lookup(launch_context(o), "kitty_listen_on"@) == remembered(o.kitty_listen_on),
        lookup(launch_context(o), "env"@) is Some == (o.zellij_session_name.len() > 0),
        o.zellij_session_name.len() > 0 ==> member(lookup(launch_context(o), "env"@)->0, "ZELLIJ_SESSION_NAME"@) == Some(JsonV::Text(o.zellij_session_name)),
        launch_context(o).len() == 0 ==> o.process_id.len() == 0 && o.pane_id.len() == 0 && o.terminal_id.len() == 0 && o.kitty_listen_on.len() == 0 && o.zellij_session_name.len() == 0,
        o.process_id.len() == 0 && o.pane_id.len() == 0 && o.terminal_id.len() == 0 && o.kitty_listen_on.len() == 0 && o.zellij_session_name.len() == 0 ==> launch_context(o).len() == 0,
{
    lemma_launch_keys();
    let none = Seq::<MemberV>::empty();
    assert(lookup(none, "process_id"@) is None);
    assert(lookup(none, "pane_id"@) is None);
    assert(lookup(none, "terminal_id"@) is None);
    assert(lookup(none, "kitty_listen_on"@) is None);
    assert(lookup(none, "env"@) is None);
    let a = with_filled(none, "process_id"@, o.process_id);
    let b = with_filled(a, "pane_id"@, o.pane_id);
    let c = with_filled(b, "terminal_id"@, o.terminal_id);
    let d = with_filled(c, "kitty_listen_on"@, o.kitty_listen_on);
    lemma_filled(none, "process_id"@, o.process_id, "pane_id"@);
    lemma_filled(none, "process_id"@, o.process_id, "terminal_id"@);
    lemma_filled(none, "process_id"@, o.process_id, "kitty_listen_on"@);
    lemma_filled(none, "process_id"@, o.process_id, "env"@);
    lemma_filled(a, "pane_id"@, o.pane_id, "process_id"@);
    lemma_filled(a, "pane_id"@, o.pane_id, "terminal_id"@);
    lemma_filled(a, "pane_id"@, o.pane_id, "kitty_listen_on"@);
    lemma_filled(a, "pane_id"@, o.pane_id, "env"@);
    lemma_filled(b, "terminal_id"@, o.terminal_id, "process_id"@);
    lemma_filled(b, "terminal_id"@, o.terminal_id, "pane_id"@);
    lemma_filled(b, "terminal_id"@, o.terminal_id, "kitty_listen_on"@);
    lemma_filled(b, "terminal_id"@, o.terminal_id, "env"@);
    lemma_filled(c, "kitty_listen_on"@, o.kitty_listen_on, "process_id"@);
    lemma_filled(c, "kitty_listen_on"@, o.kitty_listen_on, "pane_id"@);
    lemma_filled(c, "kitty_listen_on"@, o.kitty_listen_on, "terminal_id"@);
    lemma_filled(c, "kitty_listen_on"@, o.kitty_listen_on, "env"@);
    if o.zellij_session_name.len() > 0 {
        let inner = seq![MemberV { key: "ZELLIJ_SESSION_NAME"@, value: JsonV::Text(o.zellij_session_name) }];
        let env = JsonV::Object(inner);
        crate::json::with_member_reads_back(d, "env"@, env, "process_id"@);
        crate::json::with_member_reads_back(d, "env"@, env, "pane_id"@);
        crate::json::with_member_reads_back(d, "env"@, env, "terminal_id"@);
        crate::json::with_member_reads_back(d, "env"@, env, "kitty_listen_on"@);
        crate::json::with_member_reads_back(d, "env"@, env, "env"@);
        if with_member(d, "env"@, env).len() == 0 {
            assert(lookup(with_member(d, "env"@, env), "env"@) is None);
        }
        assert(crate::json::has_key(inner, "ZELLIJ_SESSION_NAME"@)(0));
        crate::search::first_where_found(1, crate::json::has_key(inner, "ZELLIJ_SESSION_NAME"@), 0);
    }
    if d.len() == 0 {
        assert(lookup(d, "process_id"@) is None);
        assert(lookup(d, "pane_id"@) is None);
        assert(lookup(d, "terminal_id"@) is None);
        assert(lookup(d, "kitty_listen_on"@) is None);
    }
}

/// A process is registered again with the session and the process that were recorded of it, with the
/// ports that it listens on, and with what is known of its launch.
pub proof fn recoveries_have_what_was_recorded(o: OrphanProcess, r: Recovery)
    requires
        call_ensures(recover_single_orphan, (&o,), r),
    ensures
        o.session_id@.len() == 0 ==> r.session_id is None,
        o.session_id@.len() > 0 ==> (r.session_id matches Some(s) && s@ == o.session_id@),
        o.process_id@.len() == 0 ==> r.process_id is None,
        o.process_id@.len() > 0 ==> (r.process_id matches Some(s) && s@ == o.process_id@),
        r.endpoints@.len() == (if o.notify_port != 0 { 1int } else { 0int }) + (if o.inject_port != 0 { 1int } else { 0int }),
        o.notify_port != 0 ==> r.endpoints@[0].kind@ == "pty"@ && r.endpoints@[0].port == o.notify_port,
        o.inject_port != 0 ==> r.endpoints@.last().kind@ == "inject"@ && r.endpoints@.last().port == o.inject_port,
        (r.launch_context is None) == (o.process_id@.len() == 0 && o.pane_id@.len() == 0 && o.terminal_id@.len() == 0 && o.kitty_listen_on@.len() == 0 && o.zellij_session_name@.len() == 0),
        r.launch_context matches Some(j) ==> member(j@, "process_id"@) == remembered(o.process_id@) && member(j@, "pane_id"@) == remembered(o.pane_id@) && member(j@, "terminal_id"@) == remembered(o.terminal_id@) && member(j@, "kitty_listen_on"@) == remembered(o.kitty_listen_on@),
        r.launch_context is Some && o.zellij_session_name@.len() > 0 ==> (member(r.launch_context->0@, "env"@) matches Some(env) && member(env, "ZELLIJ_SESSION_NAME"@) == Some(JsonV::Text(o.zellij_session_name@))),
{
    lemma_launch_context(o@);
}

} // verus!
