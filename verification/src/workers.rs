//! Running a worker under bubblewrap, and what its private state is made of.

use crate::paths::{below, under};
use crate::podman::push_all;
use crate::sandbox::{
    MODE_ENV, PODMAN_WORKSPACE_MODE, ROOT_ENV, WORKSPACE_MODE, blank, given, is_blank, push2, push3,
};
use crate::text::{cat, chars_of, holds_part, lemma_holds_part, opt_str, same, same_opt, text_of, texts};
use vstd::prelude::*;

verus! {

broadcast use vstd::string::group_string_axioms;

/// What the sandbox of a worker is made with: the worker and its arguments, the canonical paths of
/// the workspace and of the state directory, the name of the instance, the directory of the agent
/// on the host and whether it has extensions and agents, and the descriptor of the lock helper.
#[derive(Debug)]
pub struct BubblewrapPlan {
    pub command: String,
    pub args: Vec<String>,
    pub workspace: String,
    pub hcom_dir: String,
    pub instance: String,
    pub pi_agent: String,
    pub has_extensions: bool,
    pub has_agents: bool,
    pub flock_fd: String,
}

/// The view of a [`BubblewrapPlan`].
pub struct BubblewrapV {
    pub command: Seq<char>,
    pub args: Seq<Seq<char>>,
    pub workspace: Seq<char>,
    pub hcom_dir: Seq<char>,
    pub instance: Seq<char>,
    pub pi_agent: Seq<char>,
    pub has_extensions: bool,
    pub has_agents: bool,
    pub flock_fd: Seq<char>,
}

impl View for BubblewrapPlan {
    type V = BubblewrapV;

    open spec fn view(&self) -> BubblewrapV {
        BubblewrapV {
            command: self.command@,
            args: texts(self.args@),
            workspace: self.workspace@,
            hcom_dir: self.hcom_dir@,
            instance: self.instance@,
            pi_agent: self.pi_agent@,
            has_extensions: self.has_extensions,
            has_agents: self.has_agents,
            flock_fd: self.flock_fd@,
        }
    }
}

/// The private directory of a worker.
pub open spec fn sandbox_root(p: BubblewrapV) -> Seq<char> {
    below(below(p.hcom_dir, "sandboxes"@), p.instance)
}

/// The private state directory of a worker.
pub open spec fn sandbox_hcom(p: BubblewrapV) -> Seq<char> {
    below(sandbox_root(p), "hcom-state"@)
}

/// The private agent directory of a worker.
pub open spec fn sandbox_pi(p: BubblewrapV) -> Seq<char> {
    below(sandbox_root(p), "pi-agent"@)
}

/// Whether a character separates the parts of a path, on one system or another.
pub open spec fn is_root_char(c: char) -> bool {
    c == '/' || c == '\\'
}

/// A path without the separators at its start.
pub open spec fn without_root(s: Seq<char>) -> Seq<char>
    decreases s.len(),
{
    if s.len() > 0 && is_root_char(s[0]) {
        without_root(s.skip(1))
    } else {
        s
    }
}

/// A character of a path in the name of a session directory.
pub open spec fn session_char(c: char) -> char {
    if c == '/' || c == '\\' || c == ':' {
        '-'
    } else {
        c
    }
}

/// The name of the directory that holds the sessions of a working directory.
pub open spec fn session_directory(cwd: Seq<char>) -> Seq<char> {
    let rest = without_root(cwd);
    "--"@ + Seq::new(rest.len(), |i: int| session_char(rest[i])) + "--"@
}

/// The name of the directory that holds the sessions of a working directory.
pub fn pi_session_directory_name(cwd: &str) -> (r: String)
    ensures
        r@ == session_directory(cwd@),
{
    let v: Vec<char> = chars_of(cwd);
    let mut from: usize = 0;
    assert(v@.skip(0) =~= v@);
    while from < v.len() && (v[from] == '/' || v[from] == '\\')
        invariant
            from <= v@.len(),
            v@ == cwd@,
            without_root(cwd@) == without_root(v@.skip(from as int)),
        decreases v.len() - from,
    {
        assert(v@.skip(from as int).skip(1) =~= v@.skip(from as int + 1));
        from += 1;
    }
    let ghost rest = v@.skip(from as int);
    assert(without_root(cwd@) == rest);
    let mut out: String = "--".to_owned();
    let ghost head = "--"@;
    let mut i: usize = from;
    assert(out@ =~= head + Seq::new(0, |k: int| session_char(rest[k])));
    while i < v.len()
        invariant
            from <= i <= v@.len(),
            rest == v@.skip(from as int),
            out@ == head + Seq::new((i - from) as nat, |k: int| session_char(rest[k])),
        decreases v.len() - i,
    {
        let c: char = v[i];
        let d: char = if c == '/' || c == '\\' || c == ':' {
            '-'
        } else {
            c
        };
        assert(rest[i - from] == c);
        out.push(d);
        assert(out@ =~= head + Seq::new((i + 1 - from) as nat, |k: int| session_char(rest[k])));
        i += 1;
    }
    out.append("--");
    out
}

/// A directory or file that is opened for writing at a place.
pub open spec fn bind(source: Seq<char>, destination: Seq<char>) -> Seq<Seq<char>> {
    seq!["--bind"@, source, destination]
}

/// A directory that is shown at a place.
pub open spec fn ro_bind(source: Seq<char>, destination: Seq<char>) -> Seq<Seq<char>> {
    seq!["--ro-bind"@, source, destination]
}

/// The arguments that every sandbox begins with: the whole host read-only, private temporary
/// directories, and the lock helper.
pub open spec fn base_args(flock_fd: Seq<char>) -> Seq<Seq<char>> {
    seq![
        "--die-with-parent"@,
        "--new-session"@,
        "--unshare-pid"@,
        "--unshare-user"@,
        "--uid"@,
        "0"@,
        "--gid"@,
        "0"@,
        "--ro-bind"@,
        "/"@,
        "/"@,
        "--tmpfs"@,
        "/tmp"@,
        "--tmpfs"@,
        "/run"@,
        "--proc"@,
        "/proc"@,
        "--dev-bind"@,
        "/dev"@,
        "/dev"@,
        "--perms"@,
        "0755"@,
        "--file"@,
        flock_fd,
        "/run/flock"@,
        "--remount-ro"@,
        "/run"@,
        "--setenv"@,
        "PI_POSITION_FLOCK_HELPER"@,
        "/run/flock"@,
    ]
}

/// The arguments that open the workspace and the private state for writing, show the sessions, the
/// extensions and the agents, and share the sessions of the workspace and the message store.
pub open spec fn mount_list(p: BubblewrapV) -> Seq<Seq<char>> {
    let pi = sandbox_pi(p);
    let hcom = sandbox_hcom(p);
    let sessions = below(pi, "sessions"@);
    let host_sessions = below(p.pi_agent, "sessions"@);
    let own = session_directory(p.workspace);
    bind(p.workspace, p.workspace) + bind(sandbox_root(p), sandbox_root(p)) + ro_bind(
        host_sessions,
        sessions,
    ) + bind(below(host_sessions, own), below(sessions, own)) + (if p.has_extensions {
        ro_bind(below(p.pi_agent, "extensions"@), below(pi, "extensions"@))
    } else {
        Seq::empty()
    }) + (if p.has_agents {
        ro_bind(below(p.pi_agent, "agents"@), below(pi, "agents"@))
    } else {
        Seq::empty()
    }) + bind(below(p.hcom_dir, "hcom.db"@), below(hcom, "hcom.db"@)) + bind(
        below(p.hcom_dir, "hcom.db-wal"@),
        below(hcom, "hcom.db-wal"@),
    ) + bind(below(p.hcom_dir, "hcom.db-shm"@), below(hcom, "hcom.db-shm"@))
}

/// The arguments that tell the worker where it is, and run it.
pub open spec fn run_args(p: BubblewrapV) -> Seq<Seq<char>> {
    seq![
        "--chdir"@,
        p.workspace,
        "--setenv"@,
        MODE_ENV@,
        WORKSPACE_MODE@,
        "--setenv"@,
        ROOT_ENV@,
        p.workspace,
        "--setenv"@,
        "PI_WORKER_SANDBOX"@,
        WORKSPACE_MODE@,
        "--setenv"@,
        "PI_WORKER_SANDBOX_ROOT"@,
        p.workspace,
        "--setenv"@,
        "HCOM_DIR"@,
        sandbox_hcom(p),
        "--setenv"@,
        "PI_CODING_AGENT_DIR"@,
        sandbox_pi(p),
        "--"@,
        p.command,
    ] + p.args
}

/// The arguments that run a worker under bubblewrap.
pub open spec fn bubblewrap_args(p: BubblewrapV) -> Seq<Seq<char>> {
    base_args(p.flock_fd) + mount_list(p) + run_args(p)
}

fn base(flock_fd: &str) -> (r: Vec<String>)
    ensures
        texts(r@) == base_args(flock_fd@),
{
    let mut v: Vec<String> = Vec::new();
    push3(&mut v, "--die-with-parent", "--new-session", "--unshare-pid");
    push3(&mut v, "--unshare-user", "--uid", "0");
    push2(&mut v, "--gid", "0");
    push3(&mut v, "--ro-bind", "/", "/");
    push2(&mut v, "--tmpfs", "/tmp");
    push2(&mut v, "--tmpfs", "/run");
    push2(&mut v, "--proc", "/proc");
    push3(&mut v, "--dev-bind", "/dev", "/dev");
    push2(&mut v, "--perms", "0755");
    push3(&mut v, "--file", flock_fd, "/run/flock");
    push2(&mut v, "--remount-ro", "/run");
    push3(&mut v, "--setenv", "PI_POSITION_FLOCK_HELPER", "/run/flock");
    assert(texts(v@) =~= base_args(flock_fd@));
    v
}

impl BubblewrapPlan {
    fn push_mounts(&self, v: &mut Vec<String>)
        ensures
            texts(final(v)@) == texts(old(v)@) + mount_list(self@),
    {
        let ghost start = texts(v@);
        let root: String = under(
            under(self.hcom_dir.as_str(), "sandboxes").as_str(),
            self.instance.as_str(),
        );
        let hcom: String = under(root.as_str(), "hcom-state");
        let pi: String = under(root.as_str(), "pi-agent");
        let sessions: String = under(pi.as_str(), "sessions");
        let host_sessions: String = under(self.pi_agent.as_str(), "sessions");
        let own: String = pi_session_directory_name(self.workspace.as_str());
        push3(v, "--bind", self.workspace.as_str(), self.workspace.as_str());
        push3(v, "--bind", root.as_str(), root.as_str());
        push3(v, "--ro-bind", host_sessions.as_str(), sessions.as_str());
        push3(
            v,
            "--bind",
            under(host_sessions.as_str(), own.as_str()).as_str(),
            under(sessions.as_str(), own.as_str()).as_str(),
        );
        if self.has_extensions {
            push3(
                v,
                "--ro-bind",
                under(self.pi_agent.as_str(), "extensions").as_str(),
                under(pi.as_str(), "extensions").as_str(),
            );
        }
        if self.has_agents {
            push3(
                v,
                "--ro-bind",
                under(self.pi_agent.as_str(), "agents").as_str(),
                under(pi.as_str(), "agents").as_str(),
            );
        }
        push3(
            v,
            "--bind",
            under(self.hcom_dir.as_str(), "hcom.db").as_str(),
            under(hcom.as_str(), "hcom.db").as_str(),
        );
        push3(
            v,
            "--bind",
            under(self.hcom_dir.as_str(), "hcom.db-wal").as_str(),
            under(hcom.as_str(), "hcom.db-wal").as_str(),
        );
        push3(
            v,
            "--bind",
            under(self.hcom_dir.as_str(), "hcom.db-shm").as_str(),
            under(hcom.as_str(), "hcom.db-shm").as_str(),
        );
        assert(texts(v@) =~= start + mount_list(self@));
    }

    /// The arguments that run the worker under bubblewrap.
    pub fn to_args(&self) -> (r: Vec<String>)
        ensures
            texts(r@) == bubblewrap_args(self@),
    {
        let root: String = under(
            under(self.hcom_dir.as_str(), "sandboxes").as_str(),
            self.instance.as_str(),
        );
        let hcom: String = under(root.as_str(), "hcom-state");
        let pi: String = under(root.as_str(), "pi-agent");
        let mut v: Vec<String> = base(self.flock_fd.as_str());
        self.push_mounts(&mut v);
        let ghost head = texts(v@);
        push2(&mut v, "--chdir", self.workspace.as_str());
        push3(&mut v, "--setenv", MODE_ENV, WORKSPACE_MODE);
        push3(&mut v, "--setenv", ROOT_ENV, self.workspace.as_str());
        push3(&mut v, "--setenv", "PI_WORKER_SANDBOX", WORKSPACE_MODE);
        push3(&mut v, "--setenv", "PI_WORKER_SANDBOX_ROOT", self.workspace.as_str());
        push3(&mut v, "--setenv", "HCOM_DIR", hcom.as_str());
        push3(&mut v, "--setenv", "PI_CODING_AGENT_DIR", pi.as_str());
        push2(&mut v, "--", self.command.as_str());
        push_all(&mut v, &self.args);
        assert(texts(v@) =~= head + run_args(self@));
        v
    }
}

/// A sandbox is the whole host read-only, then what is opened, then the worker with its arguments
/// and nothing after them.
pub proof fn host_is_read_only_first(p: BubblewrapV)
    ensures
        bubblewrap_args(p)[8] == "--ro-bind"@,
        bubblewrap_args(p)[9] == "/"@,
        bubblewrap_args(p)[10] == "/"@,
        (seq!["--"@, p.command] + p.args).is_suffix_of(bubblewrap_args(p)),
{
    let a = bubblewrap_args(p);
    let b = base_args(p.flock_fd);
    assert(a[8] == b[8] && a[9] == b[9] && a[10] == b[10]);
    let tail = seq!["--"@, p.command] + p.args;
    assert(a.subrange(a.len() - tail.len(), a.len() as int) =~= tail);
}

/// What the environment says about a managed launch.
pub struct RpcEnvironment<'a> {
    pub launched: Option<&'a str>,
    pub process_id: Option<&'a str>,
    pub mode: Option<&'a str>,
    pub root: Option<&'a str>,
    pub broker_socket: Option<&'a str>,
    pub broker_token: Option<&'a str>,
}

/// The view of an [`RpcEnvironment`].
pub struct RpcEnvironmentV {
    pub launched: Option<Seq<char>>,
    pub process_id: Option<Seq<char>>,
    pub mode: Option<Seq<char>>,
    pub root: Option<Seq<char>>,
    pub broker_socket: Option<Seq<char>>,
    pub broker_token: Option<Seq<char>>,
}

impl<'a> View for RpcEnvironment<'a> {
    type V = RpcEnvironmentV;

    open spec fn view(&self) -> RpcEnvironmentV {
        RpcEnvironmentV {
            launched: opt_str(self.launched),
            process_id: opt_str(self.process_id),
            mode: opt_str(self.mode),
            root: opt_str(self.root),
            broker_socket: opt_str(self.broker_socket),
            broker_token: opt_str(self.broker_token),
        }
    }
}

/// Why an environment is none in which the agent may be run for remote calls.
pub open spec fn rpc_environment_refusal(e: RpcEnvironmentV) -> Option<Seq<char>> {
    if e.launched != Some("1"@) || given(e.process_id) is None {
        Some("sandbox-pi-rpc requires a managed HCOM launch"@)
    } else if e.mode != Some(PODMAN_WORKSPACE_MODE@) {
        Some("sandbox-pi-rpc requires podman-workspace mode"@)
    } else if given(e.root) is None {
        Some("sandbox-pi-rpc requires an explicit workspace root"@)
    } else if given(e.broker_socket) is None || given(e.broker_token) is None {
        Some("sandbox-pi-rpc requires the authenticated workspace broker"@)
    } else {
        None
    }
}

fn is_given(o: Option<&str>) -> (r: bool)
    ensures
        r == (given(opt_str(o)) is Some),
{
    match o {
        Some(s) => !is_blank(s),
        None => false,
    }
}

/// Tests that the environment is one in which the agent may be run for remote calls.
pub fn validate_pi_rpc_environment(e: &RpcEnvironment<'_>) -> (r: Result<(), String>)
    ensures
        match r {
            Ok(()) => rpc_environment_refusal(e@) is None,
            Err(s) => rpc_environment_refusal(e@) == Some(s@),
        },
{
    if !same_opt(e.launched, "1") || !is_given(e.process_id) {
        return Err("sandbox-pi-rpc requires a managed HCOM launch".to_owned());
    }
    if !same_opt(e.mode, PODMAN_WORKSPACE_MODE) {
        return Err("sandbox-pi-rpc requires podman-workspace mode".to_owned());
    }
    if !is_given(e.root) {
        return Err("sandbox-pi-rpc requires an explicit workspace root".to_owned());
    }
    if !is_given(e.broker_socket) || !is_given(e.broker_token) {
        return Err("sandbox-pi-rpc requires the authenticated workspace broker".to_owned());
    }
    Ok(())
}

/// What the arguments of a remote call have named so far.
pub struct RpcSeenV {
    pub mode: bool,
    pub themes: bool,
    pub session: bool,
}

/// Why arguments are none that the agent may be run with for remote calls, read from a position:
/// the remote-call mode once, and at most once each the option without themes and a session.
pub open spec fn rpc_args_refusal(args: Seq<Seq<char>>, i: int, seen: RpcSeenV) -> Option<Seq<char>>
    decreases args.len() - i,
{
    if i < 0 || i >= args.len() {
        if seen.mode {
            None
        } else {
            Some("sandbox Pi RPC requires --mode rpc"@)
        }
    } else if args[i] == "--mode"@ && i + 1 < args.len() && args[i + 1] == "rpc"@ && !seen.mode {
        rpc_args_refusal(args, i + 2, RpcSeenV { mode: true, ..seen })
    } else if args[i] == "--no-themes"@ && !seen.themes {
        rpc_args_refusal(args, i + 1, RpcSeenV { themes: true, ..seen })
    } else if args[i] == "--session"@ && !seen.session && i + 1 < args.len() && args[i + 1].len()
        > 0 {
        rpc_args_refusal(args, i + 2, RpcSeenV { session: true, ..seen })
    } else {
        Some("unsupported sandbox Pi RPC argument: "@ + args[i])
    }
}

/// Why arguments are none that the agent may be run with for remote calls.
pub open spec fn rpc_refusal(args: Seq<Seq<char>>) -> Option<Seq<char>> {
    rpc_args_refusal(args, 0, RpcSeenV { mode: false, themes: false, session: false })
}

/// Tests that the arguments are ones that the agent may be run with for remote calls.
pub fn validate_pi_rpc_args(args: &Vec<String>) -> (r: Result<(), String>)
    ensures
        match r {
            Ok(()) => rpc_refusal(texts(args@)) is None,
            Err(s) => rpc_refusal(texts(args@)) == Some(s@),
        },
{
    let ghost list = texts(args@);
    let mut mode: bool = false;
    let mut themes: bool = false;
    let mut session: bool = false;
    let mut i: usize = 0;
    while i < args.len()
        invariant
            i <= args@.len(),
            list == texts(args@),
            rpc_refusal(list) == rpc_args_refusal(list, i as int, RpcSeenV { mode, themes, session }),
        decreases args.len() - i,
    {
        assert(list[i as int] == args@[i as int]@);
        let more: bool = args.len() - i > 1;
        assert(more ==> list[i + 1] == args@[i + 1]@);
        if same(args[i].as_str(), "--mode") && more && same(args[i + 1].as_str(), "rpc") && !mode {
            mode = true;
            i += 2;
        } else if same(args[i].as_str(), "--no-themes") && !themes {
            themes = true;
            i += 1;
        } else if same(args[i].as_str(), "--session") && !session && more
            && args[i + 1].as_str().unicode_len() > 0 {
            session = true;
            i += 2;
        } else {
            return Err(cat("unsupported sandbox Pi RPC argument: ", args[i].as_str()));
        }
    }
    if !mode {
        return Err("sandbox Pi RPC requires --mode rpc".to_owned());
    }
    Ok(())
}

/// Whether a file of the host is copied over one in a sandbox, by when they were changed: always,
/// unless both times are known and that of the sandbox is not the earlier one.
pub fn host_is_newer(host: Option<u128>, sandbox: Option<u128>) -> (r: bool)
    ensures
        r == match (host, sandbox) {
            (Some(h), Some(s)) => h > s,
            _ => true,
        },
{
    match (host, sandbox) {
        (Some(h), Some(s)) => h > s,
        _ => true,
    }
}

/// How a file of the agent on the host is brought up to date in a workspace.
#[derive(Debug, Clone, Copy, PartialEq, Eq, Structural)]
pub enum SyncRule {
    /// The copy is replaced where the host's file was changed later.
    Newer,
    /// The host's file is the one that counts: a copy that differs is replaced at one blow, and a link
    /// is never followed.
    Canonical,
}

/// A file of the agent on the host that workspaces have a copy of.
#[derive(Debug)]
pub struct HostFile {
    pub name: String,
    pub rule: SyncRule,
}

/// The view of a [`HostFile`].
pub struct HostFileV {
    pub name: Seq<char>,
    pub rule: SyncRule,
}

impl View for HostFile {
    type V = HostFileV;

    open spec fn view(&self) -> HostFileV {
        HostFileV { name: self.name@, rule: self.rule }
    }
}

/// The files of the agent on the host that workspaces have a copy of, besides the credentials.
pub fn synchronized_files() -> (r: Vec<HostFile>)
    ensures
        crate::rows::views(r@) == seq![
            HostFileV { name: "auth.json"@, rule: SyncRule::Newer },
            HostFileV { name: "models.json"@, rule: SyncRule::Newer },
            HostFileV { name: "APPEND_SYSTEM.md"@, rule: SyncRule::Canonical },
        ],
{
    let mut v: Vec<HostFile> = Vec::new();
    v.push(HostFile { name: "auth.json".to_owned(), rule: SyncRule::Newer });
    v.push(HostFile { name: "models.json".to_owned(), rule: SyncRule::Newer });
    v.push(HostFile { name: "APPEND_SYSTEM.md".to_owned(), rule: SyncRule::Canonical });
    assert(crate::rows::views(v@) =~= seq![
        HostFileV { name: "auth.json"@, rule: SyncRule::Newer },
        HostFileV { name: "models.json"@, rule: SyncRule::Newer },
        HostFileV { name: "APPEND_SYSTEM.md"@, rule: SyncRule::Canonical },
    ]);
    v
}

/// Whether the copy of a file of the host is replaced: `is_file` tells whether the host has it as a
/// regular file, `newer` whether that was changed later than the copy, and `differs` whether the copy
/// is missing or has other contents.
pub fn needs_copy(rule: SyncRule, is_file: bool, newer: bool, differs: bool) -> (r: bool)
    ensures
        r == (is_file && match rule {
            SyncRule::Newer => newer,
            SyncRule::Canonical => differs,
        }),
{
    is_file && match rule {
        SyncRule::Newer => newer,
        SyncRule::Canonical => differs,
    }
}

/// Whether a text ends in another one.
pub fn ends_with(s: &str, suffix: &str) -> (r: bool)
    ensures
        r == suffix@.is_suffix_of(s@),
{
    let n: usize = s.unicode_len();
    let m: usize = suffix.unicode_len();
    if n < m {
        return false;
    }
    let tail: &str = s.substring_char(n - m, n);
    same(tail, suffix)
}

/// Whether a directory entry is a credential that may be copied into a sandbox: a regular file with
/// the extension of Markdown. Links and directories are none.
pub fn is_credential(name: &str, is_file: bool) -> (r: bool)
    ensures
        r == (is_file && ".md"@.is_suffix_of(name@) && name@.len() > 3),
{
    is_file && ends_with(name, ".md") && name.unicode_len() > 3
}

/// Whether a directory entry of the agent is copied into a sandbox: a regular file that is no lock.
pub fn is_agent_file(name: &str, is_file: bool) -> (r: bool)
    ensures
        r == (is_file && !".lock"@.is_suffix_of(name@)),
{
    is_file && !ends_with(name, ".lock")
}

/// A text with every occurrence of a part, read from the left, replaced.
pub open spec fn replaced(s: Seq<char>, from: Seq<char>, to: Seq<char>) -> Seq<char>
    decreases s.len(),
{
    if from.len() == 0 || s.len() < from.len() {
        s
    } else if from.is_prefix_of(s) {
        to + replaced(s.skip(from.len() as int), from, to)
    } else {
        seq![s[0]] + replaced(s.skip(1), from, to)
    }
}

fn occurs_at(s: &Vec<char>, at: usize, part: &Vec<char>) -> (r: bool)
    requires
        at <= s@.len(),
    ensures
        r == part@.is_prefix_of(s@.skip(at as int)),
{
    if s.len() - at < part.len() {
        return false;
    }
    let mut i: usize = 0;
    while i < part.len()
        invariant
            i <= part.len(),
            at <= s.len(),
            part.len() <= s.len() - at,
            forall|k: int| 0 <= k < i ==> part@[k] == #[trigger] s@.skip(at as int)[k],
        decreases part.len() - i,
    {
        if s[at + i] != part[i] {
            assert(s@.skip(at as int)[i as int] != part@[i as int]);
            assert(!part@.is_prefix_of(s@.skip(at as int))) by {
                if part@.is_prefix_of(s@.skip(at as int)) {
                    assert(part@[i as int] == s@.skip(at as int).subrange(0, part@.len() as int)[i as int]);
                }
            }
            return false;
        }
        i += 1;
    }
    assert(part@ =~= s@.skip(at as int).subrange(0, part@.len() as int));
    true
}

/// The settings of the agent as they hold in a sandbox: the path of the host's extensions replaced
/// by that of the sandbox.
pub fn rewrite_settings(contents: &str, host_extensions: &str, sandbox_extensions: &str) -> (r: String)
    requires
        host_extensions@.len() > 0,
    ensures
        r@ == replaced(contents@, host_extensions@, sandbox_extensions@),
{
    let s: Vec<char> = chars_of(contents);
    let from: Vec<char> = chars_of(host_extensions);
    let mut out: String = String::new();
    let mut at: usize = 0;
    let ghost whole = replaced(contents@, from@, sandbox_extensions@);
    assert(s@.skip(0) =~= s@);
    assert(out@ + replaced(s@.skip(0), from@, sandbox_extensions@) =~= whole);
    while s.len() - at >= from.len()
        invariant
            at <= s.len(),
            from@.len() > 0,
            out@ + replaced(s@.skip(at as int), from@, sandbox_extensions@) == whole,
        decreases s.len() - at,
    {
        let ghost rest = s@.skip(at as int);
        let ghost before = out@;
        if occurs_at(&s, at, &from) {
            proof {
                assert(rest.skip(from@.len() as int) =~= s@.skip(at + from@.len()));
            }
            out.append(sandbox_extensions);
            at = at + from.len();
            assert(out@ + replaced(s@.skip(at as int), from@, sandbox_extensions@) =~= before + (
            sandbox_extensions@ + replaced(s@.skip(at as int), from@, sandbox_extensions@)));
        } else {
            proof {
                assert(rest.skip(1) =~= s@.skip(at + 1));
            }
            out.push(s[at]);
            at = at + 1;
            assert(out@ + replaced(s@.skip(at as int), from@, sandbox_extensions@) =~= before + (
            seq![rest[0]] + replaced(s@.skip(at as int), from@, sandbox_extensions@)));
        }
    }
    let tail: String = text_of(&s, at, s.len());
    assert(s@.subrange(at as int, s@.len() as int) =~= s@.skip(at as int));
    out.append(tail.as_str());
    out
}

/// Whether the paths of a plan are absolute, and the descriptor is a number.
pub open spec fn is_plain(p: BubblewrapV) -> bool {
    &&& p.workspace.len() > 0 && p.workspace[0] == '/'
    &&& p.hcom_dir.len() > 0 && p.hcom_dir[0] == '/'
    &&& p.pi_agent.len() > 0 && p.pi_agent[0] == '/'
    &&& p.flock_fd.len() > 0 && p.flock_fd[0] != '-'
}

proof fn lemma_below_is_absolute(dir: Seq<char>, name: Seq<char>)
    requires
        dir.len() > 0,
        dir[0] == '/',
    ensures
        below(dir, name).len() > 0,
        below(dir, name)[0] == '/',
{
    reveal(below);
}

/// Whether a text is no option.
pub open spec fn no_option(s: Seq<char>) -> bool {
    s.len() == 0 || s[0] != '-'
}

proof fn lemma_mount_list(p: BubblewrapV)
    requires
        is_plain(p),
    ensures
        forall|i: int|
            0 <= i < mount_list(p).len() ==> if i % 3 == 0 {
                #[trigger] mount_list(p)[i] == "--bind"@ || mount_list(p)[i] == "--ro-bind"@
            } else {
                no_option(mount_list(p)[i])
            },
        mount_list(p).len() % 3 == 0,
        no_option(sandbox_hcom(p)) && no_option(sandbox_pi(p)) && no_option(sandbox_root(p)),
{
    let pi = sandbox_pi(p);
    let hcom = sandbox_hcom(p);
    let sessions = below(pi, "sessions"@);
    let host_sessions = below(p.pi_agent, "sessions"@);
    let own = session_directory(p.workspace);
    lemma_below_is_absolute(p.hcom_dir, "sandboxes"@);
    lemma_below_is_absolute(below(p.hcom_dir, "sandboxes"@), p.instance);
    lemma_below_is_absolute(sandbox_root(p), "hcom-state"@);
    lemma_below_is_absolute(sandbox_root(p), "pi-agent"@);
    lemma_below_is_absolute(pi, "sessions"@);
    lemma_below_is_absolute(p.pi_agent, "sessions"@);
    lemma_below_is_absolute(host_sessions, own);
    lemma_below_is_absolute(sessions, own);
    lemma_below_is_absolute(p.pi_agent, "extensions"@);
    lemma_below_is_absolute(pi, "extensions"@);
    lemma_below_is_absolute(p.pi_agent, "agents"@);
    lemma_below_is_absolute(pi, "agents"@);
    lemma_below_is_absolute(p.hcom_dir, "hcom.db"@);
    lemma_below_is_absolute(hcom, "hcom.db"@);
    lemma_below_is_absolute(p.hcom_dir, "hcom.db-wal"@);
    lemma_below_is_absolute(hcom, "hcom.db-wal"@);
    lemma_below_is_absolute(p.hcom_dir, "hcom.db-shm"@);
    lemma_below_is_absolute(hcom, "hcom.db-shm"@);
}

/// What tells the options of bubblewrap apart: they begin with a dash, and what is no option does not.
proof fn lemma_options()
    ensures
        "--die-with-parent"@.len() == 17 && "--die-with-parent"@[0] == '-' && "--die-with-parent"@[2] == 'd',
        "--new-session"@.len() == 13 && "--new-session"@[0] == '-' && "--new-session"@[2] == 'n',
        "--unshare-pid"@.len() == 13 && "--unshare-pid"@[0] == '-' && "--unshare-pid"@[2] == 'u',
        "--unshare-user"@.len() == 14 && "--unshare-user"@[0] == '-' && "--unshare-user"@[2] == 'u',
        "--uid"@.len() == 5 && "--uid"@[0] == '-' && "--uid"@[2] == 'u',
        no_option("0"@),
        "--gid"@.len() == 5 && "--gid"@[0] == '-' && "--gid"@[2] == 'g',
        "--ro-bind"@.len() == 9 && "--ro-bind"@[0] == '-' && "--ro-bind"@[2] == 'r',
        no_option("/"@),
        "--tmpfs"@.len() == 7 && "--tmpfs"@[0] == '-' && "--tmpfs"@[2] == 't',
        no_option("/tmp"@),
        no_option("/run"@),
        "--proc"@.len() == 6 && "--proc"@[0] == '-' && "--proc"@[2] == 'p',
        no_option("/proc"@),
        "--dev-bind"@.len() == 10 && "--dev-bind"@[0] == '-' && "--dev-bind"@[2] == 'd',
        no_option("/dev"@),
        "--perms"@.len() == 7 && "--perms"@[0] == '-' && "--perms"@[2] == 'p',
        no_option("0755"@),
        "--file"@.len() == 6 && "--file"@[0] == '-' && "--file"@[2] == 'f',
        no_option("/run/flock"@),
        "--remount-ro"@.len() == 12 && "--remount-ro"@[0] == '-' && "--remount-ro"@[2] == 'r',
        "--setenv"@.len() == 8 && "--setenv"@[0] == '-' && "--setenv"@[2] == 's',
        no_option("PI_POSITION_FLOCK_HELPER"@),
        "--chdir"@.len() == 7 && "--chdir"@[0] == '-' && "--chdir"@[2] == 'c',
        no_option("PI_WORKER_SANDBOX"@),
        no_option("PI_WORKER_SANDBOX_ROOT"@),
        no_option("HCOM_DIR"@),
        no_option("PI_CODING_AGENT_DIR"@),
        "--bind"@.len() == 6 && "--bind"@[0] == '-' && "--bind"@[2] == 'b',
        no_option("workspace"@),
        no_option("HCOM_WORKER_SANDBOX"@),
        no_option("HCOM_WORKER_SANDBOX_ROOT"@),
{
    reveal_strlit("--die-with-parent");
    reveal_strlit("--new-session");
    reveal_strlit("--unshare-pid");
    reveal_strlit("--unshare-user");
    reveal_strlit("--uid");
    reveal_strlit("0");
    reveal_strlit("--gid");
    reveal_strlit("--ro-bind");
    reveal_strlit("/");
    reveal_strlit("--tmpfs");
    reveal_strlit("/tmp");
    reveal_strlit("/run");
    reveal_strlit("--proc");
    reveal_strlit("/proc");
    reveal_strlit("--dev-bind");
    reveal_strlit("/dev");
    reveal_strlit("--perms");
    reveal_strlit("0755");
    reveal_strlit("--file");
    reveal_strlit("/run/flock");
    reveal_strlit("--remount-ro");
    reveal_strlit("--setenv");
    reveal_strlit("PI_POSITION_FLOCK_HELPER");
    reveal_strlit("--chdir");
    reveal_strlit("PI_WORKER_SANDBOX");
    reveal_strlit("PI_WORKER_SANDBOX_ROOT");
    reveal_strlit("HCOM_DIR");
    reveal_strlit("PI_CODING_AGENT_DIR");
    reveal_strlit("--bind");
    reveal_strlit("workspace");
    reveal_strlit("HCOM_WORKER_SANDBOX");
    reveal_strlit("HCOM_WORKER_SANDBOX_ROOT");
}

/// Where the worker's own arguments begin, behind the two dashes.
pub open spec fn options_end(p: BubblewrapV, args: Seq<Seq<char>>) -> int {
    args.len() - p.args.len() - 2
}

/// A worker starts in its workspace: among the options of its sandbox there is one directory to
/// start in, and it is the workspace.
pub proof fn workers_start_in_their_workspace(plan: BubblewrapPlan, r: Vec<String>, i: int)
    requires
        call_ensures(BubblewrapPlan::to_args, (&plan,), r),
        is_plain(plan@),
    ensures
        holds_part(texts(r@), options_end(plan@, texts(r@)), seq!["--chdir"@, plan.workspace@]),
        0 <= i < options_end(plan@, texts(r@)) && texts(r@)[i] == "--chdir"@ ==> texts(r@)[i + 1] == plan.workspace@,
        0 <= i < options_end(plan@, texts(r@)) && texts(r@)[i] == "--chdir"@ ==> forall|j: int| 0 <= j < options_end(plan@, texts(r@)) && #[trigger] texts(r@)[j] == "--chdir"@ ==> i == j,
        texts(r@)[options_end(plan@, texts(r@))] == "--"@,
        texts(r@)[options_end(plan@, texts(r@)) + 1] == plan.command@,
        texts(r@).skip(options_end(plan@, texts(r@)) + 2) == texts(plan.args@),
{
    let p = plan@;
    let a = texts(r@);
    let b = base_args(p.flock_fd);
    let m = mount_list(p);
    let t = run_args(p);
    let end = options_end(p, a);
    let at = (b.len() + m.len()) as int;
    lemma_mount_list(p);
    lemma_options();
    assert forall|j: int| 0 <= j < end && #[trigger] a[j] == "--chdir"@ implies j == at by {
        if j < b.len() {
            assert(a[j] == b[j]);
        } else if j < at {
            assert(a[j] == m[j - b.len()]);
        } else {
            assert(a[j] == t[j - at]);
        }
    }
    assert(a[at] == t[0] && a[at + 1] == t[1]);
    assert(a.subrange(at, at + 2) =~= seq!["--chdir"@, p.workspace]);
    assert(a.skip(end + 2) =~= p.args);
}

/// The private directory of a worker stands among the sandboxes, under the name of its instance.
pub open spec fn stands_among_sandboxes(plan: BubblewrapV, root: Seq<char>) -> bool {
    &&& plan.hcom_dir.last() != '/'
    &&& plan.instance.len() > 0
    &&& plan.instance[0] != '/'
    &&& plan.instance.last() != '/'
    &&& root == plan.hcom_dir + "/sandboxes/"@ + plan.instance
}

proof fn lemma_below_joins(dir: Seq<char>, name: Seq<char>)
    requires
        dir.len() > 0,
        dir.last() != '/',
        name.len() > 0,
        name[0] != '/',
    ensures
        below(dir, name) == dir + "/"@ + name,
        below(dir, name) == dir + ("/"@ + name),
        below(dir, name).last() == name.last(),
        below(dir, name).len() > 0,
{
    reveal(below);
    assert(dir + "/"@ + name =~= dir + ("/"@ + name));
}

proof fn lemma_parts()
    ensures
        "/sandboxes/"@ == "/"@ + "sandboxes"@ + "/"@,
        "/hcom-state"@ == "/"@ + "hcom-state"@,
        "/pi-agent"@ == "/"@ + "pi-agent"@,
        "sandboxes"@.len() > 0 && "sandboxes"@[0] == 's' && "sandboxes"@.last() == 's',
        "hcom-state"@.len() > 0 && "hcom-state"@[0] == 'h' && "hcom-state"@.last() == 'e',
        "pi-agent"@.len() > 0 && "pi-agent"@[0] == 'p' && "pi-agent"@.last() == 't',
{
    reveal_strlit("/");
    reveal_strlit("sandboxes");
    reveal_strlit("/sandboxes/");
    reveal_strlit("hcom-state");
    reveal_strlit("/hcom-state");
    reveal_strlit("pi-agent");
    reveal_strlit("/pi-agent");
    assert("/sandboxes/"@ =~= "/"@ + "sandboxes"@ + "/"@);
    assert("/hcom-state"@ =~= "/"@ + "hcom-state"@);
    assert("/pi-agent"@ =~= "/"@ + "pi-agent"@);
}

proof fn lemma_private_paths(p: BubblewrapV, root: Seq<char>)
    requires
        is_plain(p),
        stands_among_sandboxes(p, root),
    ensures
        sandbox_root(p) == root,
        sandbox_hcom(p) == root + "/hcom-state"@,
        sandbox_pi(p) == root + "/pi-agent"@,
        root.len() > 0 && root.last() != '/',
{
    lemma_parts();
    let dir = below(p.hcom_dir, "sandboxes"@);
    lemma_below_joins(p.hcom_dir, "sandboxes"@);
    lemma_below_joins(dir, p.instance);
    assert(dir + "/"@ + p.instance =~= p.hcom_dir + ("/"@ + "sandboxes"@ + "/"@) + p.instance);
    lemma_below_joins(root, "hcom-state"@);
    lemma_below_joins(root, "pi-agent"@);
}

/// What tells the variables of a worker apart.
proof fn lemma_variables()
    ensures
        "HCOM_WORKER_SANDBOX"@.len() == 19 && "HCOM_WORKER_SANDBOX"@[0] == 'H',
        "HCOM_WORKER_SANDBOX_ROOT"@.len() == 24 && "HCOM_WORKER_SANDBOX_ROOT"@[0] == 'H',
        "PI_WORKER_SANDBOX"@.len() == 17 && "PI_WORKER_SANDBOX"@[0] == 'P',
        "PI_WORKER_SANDBOX_ROOT"@.len() == 22 && "PI_WORKER_SANDBOX_ROOT"@[0] == 'P',
        "HCOM_DIR"@.len() == 8 && "HCOM_DIR"@[0] == 'H',
        "PI_CODING_AGENT_DIR"@.len() == 19 && "PI_CODING_AGENT_DIR"@[0] == 'P',
        "PI_POSITION_FLOCK_HELPER"@.len() == 24 && "PI_POSITION_FLOCK_HELPER"@[0] == 'P',
{
    reveal_strlit("HCOM_WORKER_SANDBOX");
    reveal_strlit("HCOM_WORKER_SANDBOX_ROOT");
    reveal_strlit("PI_WORKER_SANDBOX");
    reveal_strlit("PI_WORKER_SANDBOX_ROOT");
    reveal_strlit("HCOM_DIR");
    reveal_strlit("PI_CODING_AGENT_DIR");
    reveal_strlit("PI_POSITION_FLOCK_HELPER");
}

proof fn lemma_setenv_places(p: BubblewrapV, i: int)
    requires
        is_plain(p),
        0 <= i < options_end(p, bubblewrap_args(p)),
        bubblewrap_args(p)[i] == "--setenv"@,
    ensures
        ({
            let k = i - 30 - mount_list(p).len();
            i == 27 || k == 2 || k == 5 || k == 8 || k == 11 || k == 14 || k == 17
        }),
{
    let a = bubblewrap_args(p);
    let b = base_args(p.flock_fd);
    let m = mount_list(p);
    let at = (b.len() + m.len()) as int;
    lemma_mount_list(p);
    lemma_options();
    if i < b.len() {
        assert(a[i] == b[i]);
    } else if i < at {
        assert(a[i] == m[i - b.len()]);
    } else {
        assert(a[i] == run_args(p)[i - at]);
    }
}

proof fn lemma_run_part(p: BubblewrapV, k: int)
    requires
        0 <= k < run_args(p).len(),
    ensures
        bubblewrap_args(p)[30 + mount_list(p).len() + k] == run_args(p)[k],
        bubblewrap_args(p)[28] == "PI_POSITION_FLOCK_HELPER"@,
        bubblewrap_args(p).len() == 30 + mount_list(p).len() + 22 + p.args.len(),
{
    let a = bubblewrap_args(p);
    let b = base_args(p.flock_fd);
    assert(a[28] == b[28]);
}

/// A worker is told that it runs in a sandbox, where its workspace is, and where its own state and
/// its own agent directory are; and it is told nothing else of these.
#[verifier::spinoff_prover]
#[verifier::rlimit(60)]
pub proof fn workers_are_told_where_they_are(plan: BubblewrapPlan, r: Vec<String>, root: Seq<char>, i: int)
    requires
        call_ensures(BubblewrapPlan::to_args, (&plan,), r),
        is_plain(plan@),
        stands_among_sandboxes(plan@, root),
    ensures
        holds_part(texts(r@), options_end(plan@, texts(r@)), seq!["--setenv"@, "HCOM_WORKER_SANDBOX"@, "workspace"@]),
        0 <= i < options_end(plan@, texts(r@)) && texts(r@)[i] == "--setenv"@ && texts(r@)[i + 1] == "HCOM_WORKER_SANDBOX"@ ==> texts(r@)[i + 2] == "workspace"@,
        holds_part(texts(r@), options_end(plan@, texts(r@)), seq!["--setenv"@, "HCOM_WORKER_SANDBOX_ROOT"@, plan.workspace@]),
        0 <= i < options_end(plan@, texts(r@)) && texts(r@)[i] == "--setenv"@ && texts(r@)[i + 1] == "HCOM_WORKER_SANDBOX_ROOT"@ ==> texts(r@)[i + 2] == plan.workspace@,
        holds_part(texts(r@), options_end(plan@, texts(r@)), seq!["--setenv"@, "PI_WORKER_SANDBOX"@, "workspace"@]),
        0 <= i < options_end(plan@, texts(r@)) && texts(r@)[i] == "--setenv"@ && texts(r@)[i + 1] == "PI_WORKER_SANDBOX"@ ==> texts(r@)[i + 2] == "workspace"@,
        holds_part(texts(r@), options_end(plan@, texts(r@)), seq!["--setenv"@, "PI_WORKER_SANDBOX_ROOT"@, plan.workspace@]),
        0 <= i < options_end(plan@, texts(r@)) && texts(r@)[i] == "--setenv"@ && texts(r@)[i + 1] == "PI_WORKER_SANDBOX_ROOT"@ ==> texts(r@)[i + 2] == plan.workspace@,
        holds_part(texts(r@), options_end(plan@, texts(r@)), seq!["--setenv"@, "HCOM_DIR"@, root + "/hcom-state"@]),
        0 <= i < options_end(plan@, texts(r@)) && texts(r@)[i] == "--setenv"@ && texts(r@)[i + 1] == "HCOM_DIR"@ ==> texts(r@)[i + 2] == root + "/hcom-state"@,
        holds_part(texts(r@), options_end(plan@, texts(r@)), seq!["--setenv"@, "PI_CODING_AGENT_DIR"@, root + "/pi-agent"@]),
        0 <= i < options_end(plan@, texts(r@)) && texts(r@)[i] == "--setenv"@ && texts(r@)[i + 1] == "PI_CODING_AGENT_DIR"@ ==> texts(r@)[i + 2] == root + "/pi-agent"@,
{
    let p = plan@;
    let a = texts(r@);
    let end = options_end(p, a);
    let at = (30 + mount_list(p).len()) as int;
    lemma_private_paths(p, root);
    lemma_variables();
    assert forall|k: int| 0 <= k < 22 implies a[at + k] == #[trigger] run_args(p)[k] by {
        lemma_run_part(p, k);
    }
    lemma_run_part(p, 0);
    lemma_holds_part(a, end, seq!["--setenv"@, "HCOM_WORKER_SANDBOX"@, "workspace"@], at + 2);
    lemma_holds_part(a, end, seq!["--setenv"@, "HCOM_WORKER_SANDBOX_ROOT"@, plan.workspace@], at + 5);
    lemma_holds_part(a, end, seq!["--setenv"@, "PI_WORKER_SANDBOX"@, "workspace"@], at + 8);
    lemma_holds_part(a, end, seq!["--setenv"@, "PI_WORKER_SANDBOX_ROOT"@, plan.workspace@], at + 11);
    lemma_holds_part(a, end, seq!["--setenv"@, "HCOM_DIR"@, root + "/hcom-state"@], at + 14);
    lemma_holds_part(a, end, seq!["--setenv"@, "PI_CODING_AGENT_DIR"@, root + "/pi-agent"@], at + 17);
    if 0 <= i < end && a[i] == "--setenv"@ {
        lemma_setenv_places(p, i);
        assert(run_args(p)[3] == "HCOM_WORKER_SANDBOX"@ && run_args(p)[6] == "HCOM_WORKER_SANDBOX_ROOT"@);
        assert(run_args(p)[9] == "PI_WORKER_SANDBOX"@ && run_args(p)[12] == "PI_WORKER_SANDBOX_ROOT"@);
        assert(run_args(p)[15] == "HCOM_DIR"@ && run_args(p)[18] == "PI_CODING_AGENT_DIR"@);
        assert(run_args(p)[4] == "workspace"@ && run_args(p)[7] == p.workspace);
        assert(run_args(p)[10] == "workspace"@ && run_args(p)[13] == p.workspace);
        assert(run_args(p)[16] == sandbox_hcom(p) && run_args(p)[19] == sandbox_pi(p));
    }
}

proof fn lemma_mount_names()
    ensures
        "/sessions"@ == "/"@ + "sessions"@ && "sessions"@.len() > 0 && "sessions"@[0] != '/' && "sessions"@.last() != '/',
        "/extensions"@ == "/"@ + "extensions"@ && "extensions"@.len() > 0 && "extensions"@[0] != '/' && "extensions"@.last() != '/',
        "/agents"@ == "/"@ + "agents"@ && "agents"@.len() > 0 && "agents"@[0] != '/' && "agents"@.last() != '/',
        "/hcom.db"@ == "/"@ + "hcom.db"@ && "hcom.db"@.len() > 0 && "hcom.db"@[0] != '/' && "hcom.db"@.last() != '/',
        "/hcom.db-wal"@ == "/"@ + "hcom.db-wal"@ && "hcom.db-wal"@.len() > 0 && "hcom.db-wal"@[0] != '/' && "hcom.db-wal"@.last() != '/',
        "/hcom.db-shm"@ == "/"@ + "hcom.db-shm"@ && "hcom.db-shm"@.len() > 0 && "hcom.db-shm"@[0] != '/' && "hcom.db-shm"@.last() != '/',
        "--"@.len() == 2 && "--"@[0] == '-' && "--"@[1] == '-',
{
    reveal_strlit("/");
    reveal_strlit("--");
    reveal_strlit("sessions");
    reveal_strlit("/sessions");
    assert("/sessions"@ =~= "/"@ + "sessions"@);
    reveal_strlit("extensions");
    reveal_strlit("/extensions");
    assert("/extensions"@ =~= "/"@ + "extensions"@);
    reveal_strlit("agents");
    reveal_strlit("/agents");
    assert("/agents"@ =~= "/"@ + "agents"@);
    reveal_strlit("hcom.db");
    reveal_strlit("/hcom.db");
    assert("/hcom.db"@ =~= "/"@ + "hcom.db"@);
    reveal_strlit("hcom.db-wal");
    reveal_strlit("/hcom.db-wal");
    assert("/hcom.db-wal"@ =~= "/"@ + "hcom.db-wal"@);
    reveal_strlit("hcom.db-shm");
    reveal_strlit("/hcom.db-shm");
    assert("/hcom.db-shm"@ =~= "/"@ + "hcom.db-shm"@);
}

proof fn lemma_mounted_paths(p: BubblewrapV, root: Seq<char>)
    requires
        is_plain(p),
        stands_among_sandboxes(p, root),
        p.pi_agent.last() != '/',
    ensures
        ({
            let own = session_directory(p.workspace);
            let e: int = if p.has_extensions { 3 } else { 0 };
            let g: int = if p.has_agents { 3 } else { 0 };
            let m = mount_list(p);
            &&& m.len() == 21 + e + g
            &&& m.subrange(0, 3) == seq!["--bind"@, p.workspace, p.workspace]
            &&& m.subrange(3, 6) == seq!["--bind"@, root, root]
            &&& m.subrange(6, 9) == seq!["--ro-bind"@, p.pi_agent + "/sessions"@, root + "/pi-agent"@ + "/sessions"@]
            &&& m.subrange(9, 12) == seq!["--bind"@, p.pi_agent + "/sessions"@ + "/"@ + own, root + "/pi-agent"@ + "/sessions"@ + "/"@ + own]
            &&& p.has_extensions ==> m.subrange(12, 15) == seq!["--ro-bind"@, p.pi_agent + "/extensions"@, root + "/pi-agent"@ + "/extensions"@]
            &&& p.has_agents ==> m.subrange(12 + e, 15 + e) == seq!["--ro-bind"@, p.pi_agent + "/agents"@, root + "/pi-agent"@ + "/agents"@]
            &&& m.subrange(12 + e + g, 15 + e + g) == seq!["--bind"@, p.hcom_dir + "/hcom.db"@, root + "/hcom-state"@ + "/hcom.db"@]
            &&& m.subrange(15 + e + g, 18 + e + g) == seq!["--bind"@, p.hcom_dir + "/hcom.db-wal"@, root + "/hcom-state"@ + "/hcom.db-wal"@]
            &&& m.subrange(18 + e + g, 21 + e + g) == seq!["--bind"@, p.hcom_dir + "/hcom.db-shm"@, root + "/hcom-state"@ + "/hcom.db-shm"@]
        }),
{
    lemma_mount_names();
    lemma_parts();
    lemma_private_paths(p, root);
    let own = session_directory(p.workspace);
    assert(own[0] == '-' && own.len() > 0);
    let pi = root + "/pi-agent"@;
    let hcom = root + "/hcom-state"@;
    assert(pi.last() == 't' && hcom.last() == 'e');
    lemma_below_joins(pi, "sessions"@);
    lemma_below_joins(p.pi_agent, "sessions"@);
    lemma_below_joins(pi + "/sessions"@, own);
    lemma_below_joins(p.pi_agent + "/sessions"@, own);
    lemma_below_joins(p.pi_agent, "extensions"@);
    lemma_below_joins(pi, "extensions"@);
    lemma_below_joins(p.pi_agent, "agents"@);
    lemma_below_joins(pi, "agents"@);
    lemma_below_joins(p.hcom_dir, "hcom.db"@);
    lemma_below_joins(hcom, "hcom.db"@);
    lemma_below_joins(p.hcom_dir, "hcom.db-wal"@);
    lemma_below_joins(hcom, "hcom.db-wal"@);
    lemma_below_joins(p.hcom_dir, "hcom.db-shm"@);
    lemma_below_joins(hcom, "hcom.db-shm"@);
}

proof fn lemma_part_of(p: BubblewrapV, part: Seq<Seq<char>>, i: int)
    requires
        part.len() == 3,
        0 <= i,
        i + 3 <= mount_list(p).len(),
        mount_list(p).subrange(i, i + 3) == part,
    ensures
        holds_part(bubblewrap_args(p), options_end(p, bubblewrap_args(p)), part),
{
    let a = bubblewrap_args(p);
    let m = mount_list(p);
    assert(base_args(p.flock_fd).len() == 30);
    assert forall|k: int| 0 <= k < 3 implies a[30 + i + k] == #[trigger] part[k] by {
        assert(m.subrange(i, i + 3)[k] == m[i + k]);
    }
    lemma_run_part(p, 0);
    lemma_holds_part(a, options_end(p, a), part, 30 + i);
}

proof fn lemma_bind_places(p: BubblewrapV, i: int)
    requires
        is_plain(p),
        0 <= i < options_end(p, bubblewrap_args(p)),
        bubblewrap_args(p)[i] == "--bind"@,
    ensures
        30 <= i < 30 + mount_list(p).len(),
        (i - 30) % 3 == 0,
        bubblewrap_args(p)[i] == mount_list(p)[i - 30],
        bubblewrap_args(p)[i + 1] == mount_list(p)[i - 29],
{
    let a = bubblewrap_args(p);
    let b = base_args(p.flock_fd);
    let m = mount_list(p);
    let at = (b.len() + m.len()) as int;
    lemma_mount_list(p);
    lemma_options();
    if i < b.len() {
        assert(a[i] == b[i]);
    } else if i < at {
        assert(a[i] == m[i - b.len()]);
    } else {
        assert(a[i] == run_args(p)[i - at]);
    }
}

/// A worker can write to its workspace, to its private directory, to the sessions of the workspace
/// and to the message store, and finds each of them; it sees the sessions of the host, and its
/// extensions and agents where there are any.
pub proof fn workers_find_their_directories(plan: BubblewrapPlan, r: Vec<String>, root: Seq<char>, cwd: &str, name: String)
    requires
        call_ensures(BubblewrapPlan::to_args, (&plan,), r),
        call_ensures(pi_session_directory_name, (cwd,), name),
        cwd@ == plan.workspace@,
        is_plain(plan@),
        stands_among_sandboxes(plan@, root),
        plan.pi_agent@.last() != '/',
    ensures
        holds_part(texts(r@), options_end(plan@, texts(r@)), seq!["--bind"@, plan.workspace@, plan.workspace@]),
        holds_part(texts(r@), options_end(plan@, texts(r@)), seq!["--bind"@, root, root]),
        holds_part(texts(r@), options_end(plan@, texts(r@)), seq!["--ro-bind"@, plan.pi_agent@ + "/sessions"@, root + "/pi-agent"@ + "/sessions"@]),
        holds_part(texts(r@), options_end(plan@, texts(r@)), seq!["--bind"@, plan.pi_agent@ + "/sessions"@ + "/"@ + name@, root + "/pi-agent"@ + "/sessions"@ + "/"@ + name@]),
        plan.has_extensions ==> holds_part(texts(r@), options_end(plan@, texts(r@)), seq!["--ro-bind"@, plan.pi_agent@ + "/extensions"@, root + "/pi-agent"@ + "/extensions"@]),
        plan.has_agents ==> holds_part(texts(r@), options_end(plan@, texts(r@)), seq!["--ro-bind"@, plan.pi_agent@ + "/agents"@, root + "/pi-agent"@ + "/agents"@]),
        holds_part(texts(r@), options_end(plan@, texts(r@)), seq!["--bind"@, plan.hcom_dir@ + "/hcom.db"@, root + "/hcom-state"@ + "/hcom.db"@]),
        holds_part(texts(r@), options_end(plan@, texts(r@)), seq!["--bind"@, plan.hcom_dir@ + "/hcom.db-wal"@, root + "/hcom-state"@ + "/hcom.db-wal"@]),
        holds_part(texts(r@), options_end(plan@, texts(r@)), seq!["--bind"@, plan.hcom_dir@ + "/hcom.db-shm"@, root + "/hcom-state"@ + "/hcom.db-shm"@]),
{
    let p = plan@;
    let a = texts(r@);
    let end = options_end(p, a);
    let own = name@;
    let m = mount_list(p);
    let e: int = if p.has_extensions { 3 } else { 0 };
    let g: int = if p.has_agents { 3 } else { 0 };
    lemma_mounted_paths(p, root);
    lemma_part_of(p, m.subrange(0, 3), 0);
    lemma_part_of(p, m.subrange(3, 6), 3);
    lemma_part_of(p, m.subrange(6, 9), 6);
    lemma_part_of(p, m.subrange(9, 12), 9);
    if p.has_extensions {
        lemma_part_of(p, m.subrange(12, 15), 12);
    }
    if p.has_agents {
        lemma_part_of(p, m.subrange(12 + e, 15 + e), 12 + e);
    }
    lemma_part_of(p, m.subrange(12 + e + g, 15 + e + g), 12 + e + g);
    lemma_part_of(p, m.subrange(15 + e + g, 18 + e + g), 15 + e + g);
    lemma_part_of(p, m.subrange(18 + e + g, 21 + e + g), 18 + e + g);
}

proof fn lemma_writable_sources(p: BubblewrapV, root: Seq<char>, k: int)
    requires
        is_plain(p),
        stands_among_sandboxes(p, root),
        p.pi_agent.last() != '/',
        0 <= k < mount_list(p).len(),
        k % 3 == 0,
        mount_list(p)[k] == "--bind"@,
    ensures
        ({
            let x = mount_list(p)[k + 1];
            x == p.workspace || x == root || x == p.pi_agent + "/sessions"@ + "/"@ + session_directory(p.workspace) || x == p.hcom_dir + "/hcom.db"@ || x == p.hcom_dir + "/hcom.db-wal"@ || x == p.hcom_dir + "/hcom.db-shm"@
        }),
{
    let m = mount_list(p);
    let e: int = if p.has_extensions { 3 } else { 0 };
    let g: int = if p.has_agents { 3 } else { 0 };
    lemma_mounted_paths(p, root);
    lemma_options();
    let part = m.subrange(k, k + 3);
    assert(part[0] == m[k] && part[1] == m[k + 1]);
    assert(p.has_extensions && k == 12 ==> part[0] == "--ro-bind"@);
    assert(p.has_agents && k == 12 + e ==> part[0] == "--ro-bind"@);
    assert(k == 0 || k == 3 || k == 6 || k == 9 || k == 12 || k == 15 || k == 18 || k == 21 || k == 24);
}

/// A worker can write to its workspace, to its private directory, to the sessions of the workspace
/// and to the message store, and to nothing else of the host.
pub proof fn workers_write_nowhere_else(plan: BubblewrapPlan, r: Vec<String>, root: Seq<char>, cwd: &str, name: String, i: int)
    requires
        call_ensures(BubblewrapPlan::to_args, (&plan,), r),
        call_ensures(pi_session_directory_name, (cwd,), name),
        cwd@ == plan.workspace@,
        is_plain(plan@),
        stands_among_sandboxes(plan@, root),
        plan.pi_agent@.last() != '/',
        0 <= i < options_end(plan@, texts(r@)),
        texts(r@)[i] == "--bind"@,
    ensures
        (texts(r@)[i + 1] == plan.workspace@ || texts(r@)[i + 1] == root || texts(r@)[i + 1] == plan.pi_agent@ + "/sessions"@ + "/"@ + name@ || texts(r@)[i + 1] == plan.hcom_dir@ + "/hcom.db"@ || texts(r@)[i + 1] == plan.hcom_dir@ + "/hcom.db-wal"@ || texts(r@)[i + 1] == plan.hcom_dir@ + "/hcom.db-shm"@),
{
    lemma_bind_places(plan@, i);
    lemma_writable_sources(plan@, root, i - 30);
}

/// The directory of the sessions of a path bears the path: separators and colons stand as dashes, and
/// every other character as it is.
pub proof fn session_directories_bear_the_path(cwd: &str, rest: Seq<char>, r: String, i: int)
    requires
        call_ensures(pi_session_directory_name, (cwd,), r),
        cwd@ == "/"@ + rest,
        rest.len() > 0 ==> rest[0] != '/' && rest[0] != '\\',
    ensures
        r@.len() == rest.len() + 4,
        r@[0] == '-' && r@[1] == '-' && r@[r@.len() - 2] == '-' && r@[r@.len() - 1] == '-',
        0 <= i < rest.len() ==> r@[i + 2] == (if rest[i] == '/' || rest[i] == '\\' || rest[i] == ':' { '-' } else { rest[i] }),
{
    reveal_strlit("/");
    reveal_strlit("--");
    reveal_with_fuel(without_root, 2);
    assert(cwd@.skip(1) =~= rest);
}

/// A sandbox ends with its parent, has processes and users of its own, sees the host read-only, and
/// has temporary directories of its own and the lock helper.
pub proof fn sandboxes_are_closed_off(plan: BubblewrapPlan, r: Vec<String>)
    requires
        call_ensures(BubblewrapPlan::to_args, (&plan,), r),
    ensures
        r@[0]@ == "--die-with-parent"@ && r@[1]@ == "--new-session"@,
        r@[2]@ == "--unshare-pid"@ && r@[3]@ == "--unshare-user"@,
        r@[4]@ == "--uid"@ && r@[5]@ == "0"@ && r@[6]@ == "--gid"@ && r@[7]@ == "0"@,
        r@[8]@ == "--ro-bind"@ && r@[9]@ == "/"@ && r@[10]@ == "/"@,
        r@[11]@ == "--tmpfs"@ && r@[12]@ == "/tmp"@ && r@[13]@ == "--tmpfs"@ && r@[14]@ == "/run"@,
        r@[15]@ == "--proc"@ && r@[16]@ == "/proc"@,
        r@[17]@ == "--dev-bind"@ && r@[18]@ == "/dev"@ && r@[19]@ == "/dev"@,
        r@[20]@ == "--perms"@ && r@[21]@ == "0755"@ && r@[22]@ == "--file"@ && r@[23]@ == plan.flock_fd@ && r@[24]@ == "/run/flock"@,
        r@[25]@ == "--remount-ro"@ && r@[26]@ == "/run"@,
        r@[27]@ == "--setenv"@ && r@[28]@ == "PI_POSITION_FLOCK_HELPER"@ && r@[29]@ == "/run/flock"@,
{
    let a = texts(r@);
    let b = base_args(plan@.flock_fd);
    assert forall|i: int| 0 <= i < 30 implies #[trigger] r@[i]@ == b[i] by {
        assert(a.len() >= 30 && a.len() == r@.len());
        assert(a[i] == b[i]);
        assert(a[i] == r@[i]@);
    }
}

/// The agent is run for remote calls in a managed launch, in a workspace that is named, and with its
/// broker; where it is not, the first of these that is missing is told.
pub proof fn remote_calls_need_a_managed_launch(e: RpcEnvironment<'_>, r: Result<(), String>, managed: bool, named: bool, brokered: bool)
    requires
        call_ensures(validate_pi_rpc_environment, (&e,), r),
        managed == (opt_str(e.launched) == Some("1"@) && (e.process_id matches Some(s) && !blank(s@))),
        named == (e.root matches Some(s) && !blank(s@)),
        brokered == ((e.broker_socket matches Some(s) && !blank(s@)) && (e.broker_token matches Some(s) && !blank(s@))),
    ensures
        !managed ==> (r matches Err(w) && w@ == "sandbox-pi-rpc requires a managed HCOM launch"@),
        managed && opt_str(e.mode) != Some("podman-workspace"@) ==> (r matches Err(w) && w@ == "sandbox-pi-rpc requires podman-workspace mode"@),
        managed && opt_str(e.mode) == Some("podman-workspace"@) && !named ==> (r matches Err(w) && w@ == "sandbox-pi-rpc requires an explicit workspace root"@),
        managed && opt_str(e.mode) == Some("podman-workspace"@) && named && !brokered ==> (r matches Err(w) && w@ == "sandbox-pi-rpc requires the authenticated workspace broker"@),
        managed && opt_str(e.mode) == Some("podman-workspace"@) && named && brokered ==> r is Ok,
{
}

proof fn lemma_rpc_options()
    ensures
        "--mode"@.len() == 6 && "rpc"@.len() == 3 && "--no-themes"@.len() == 11 && "--session"@.len() == 9,
{
    reveal_strlit("--mode");
    reveal_strlit("rpc");
    reveal_strlit("--no-themes");
    reveal_strlit("--session");
}

/// The agent takes the mode of remote calls, in any order with the option without themes and a
/// session that is named.
pub proof fn remote_calls_take_these_arguments(args: Vec<String>, session: Seq<char>, r: Result<(), String>)
    requires
        call_ensures(validate_pi_rpc_args, (&args,), r),
        session.len() > 0,
        (texts(args@) == seq!["--mode"@, "rpc"@] || texts(args@) == seq!["--mode"@, "rpc"@, "--no-themes"@] || texts(args@) == seq!["--no-themes"@, "--mode"@, "rpc"@] || texts(args@) == seq!["--mode"@, "rpc"@, "--session"@, session] || texts(args@) == seq!["--session"@, session, "--mode"@, "rpc"@] || texts(args@) == seq!["--mode"@, "rpc"@, "--no-themes"@, "--session"@, session] || texts(args@) == seq!["--session"@, session, "--no-themes"@, "--mode"@, "rpc"@]),
    ensures
        r is Ok,
{
    lemma_rpc_options();
    reveal_with_fuel(rpc_args_refusal, 5);
}

proof fn lemma_rpc_mode_seen(args: Seq<Seq<char>>, i: int, seen: RpcSeenV)
    requires
        0 <= i <= args.len(),
        rpc_args_refusal(args, i, seen) is None,
        !seen.mode,
    ensures
        exists|k: int| i <= k < args.len() - 1 && #[trigger] args[k] == "--mode"@ && args[k + 1] == "rpc"@,
    decreases args.len() - i,
{
    lemma_rpc_options();
    if i < args.len() {
        if args[i] == "--mode"@ && i + 1 < args.len() && args[i + 1] == "rpc"@ {
        } else if args[i] == "--no-themes"@ {
            lemma_rpc_mode_seen(args, i + 1, RpcSeenV { themes: true, ..seen });
        } else {
            lemma_rpc_mode_seen(args, i + 2, RpcSeenV { session: true, ..seen });
        }
    }
}

/// The agent is never run for remote calls without their mode, nor with an argument that is none of
/// those it takes.
pub proof fn other_arguments_are_refused(args: Vec<String>, r: Result<(), String>)
    requires
        call_ensures(validate_pi_rpc_args, (&args,), r),
    ensures
        r is Ok ==> exists|k: int| 0 <= k < args@.len() - 1 && (#[trigger] args@[k])@ == "--mode"@ && args@[k + 1]@ == "rpc"@,
        args@.len() == 0 ==> (r matches Err(w) && w@ == "sandbox Pi RPC requires --mode rpc"@),
        args@.len() > 0 && args@[0]@ != "--mode"@ && args@[0]@ != "--no-themes"@ && args@[0]@ != "--session"@ ==> (r matches Err(w) && w@ == "unsupported sandbox Pi RPC argument: "@ + args@[0]@),
        args@.len() == 1 && args@[0]@ == "--session"@ ==> (r matches Err(w) && w@ == "unsupported sandbox Pi RPC argument: "@ + args@[0]@),
        args@.len() > 1 && args@[0]@ == "--session"@ && args@[1]@.len() == 0 ==> r is Err,
        args@.len() > 1 && args@[0]@ == "--mode"@ && args@[1]@ != "rpc"@ ==> r is Err,
{
    let a = texts(args@);
    lemma_rpc_options();
    if args@.len() > 0 {
        assert(a[0] == args@[0]@);
    }
    if args@.len() > 1 {
        assert(a[1] == args@[1]@);
    }
    if r is Ok {
        lemma_rpc_mode_seen(a, 0, RpcSeenV { mode: false, themes: false, session: false });
        let k = choose|k: int| 0 <= k < a.len() - 1 && #[trigger] a[k] == "--mode"@ && a[k + 1] == "rpc"@;
        assert(args@[k]@ == a[k] && args@[k + 1]@ == a[k + 1]);
    }
}

/// These files of the host are kept up to date in workspaces: the credentials where they are newer,
/// and the prompt wherever it differs.
pub proof fn these_files_are_kept_up_to_date(r: Vec<HostFile>)
    requires
        call_ensures(synchronized_files, (), r),
    ensures
        r@.len() == 3,
        r@[0].name@ == "auth.json"@ && r@[0].rule == SyncRule::Newer,
        r@[1].name@ == "models.json"@ && r@[1].rule == SyncRule::Newer,
        r@[2].name@ == "APPEND_SYSTEM.md"@ && r@[2].rule == SyncRule::Canonical,
{
    let v = crate::rows::views(r@);
    assert(v.len() == 3);
    assert(v[0] == r@[0]@ && v[1] == r@[1]@ && v[2] == r@[2]@);
}

/// A file that the host has is copied where it is newer, or differs, as its rule has it; one that the
/// host has not, or has as a link, never is. A file counts as newer unless the copy is known to be as
/// new.
pub proof fn copies_follow_their_rule(rule: SyncRule, is_file: bool, newer: bool, differs: bool, r: bool, host: Option<u128>, own: Option<u128>, later: bool)
    requires
        call_ensures(needs_copy, (rule, is_file, newer, differs), r),
        call_ensures(host_is_newer, (host, own), later),
    ensures
        !is_file ==> !r,
        is_file && rule == SyncRule::Newer ==> r == newer,
        is_file && rule == SyncRule::Canonical ==> r == differs,
        host is None || own is None ==> later,
        host is Some && own is Some ==> later == (host->0 > own->0),
{
}

/// A Markdown file is a credential, and a file that is no lock is copied; links and directories are
/// neither.
pub proof fn entries_are_told_apart(name: &str, stem: Seq<char>, is_file: bool, credential: bool, agent: bool)
    requires
        call_ensures(is_credential, (name, is_file), credential),
        call_ensures(is_agent_file, (name, is_file), agent),
    ensures
        !is_file ==> !credential && !agent,
        is_file && stem.len() > 0 && name@ == stem + ".md"@ ==> credential && agent,
        is_file && name@ == stem + ".lock"@ ==> !credential && !agent,
        credential ==> name@.len() > 3 && name@[name@.len() - 3] == '.' && name@[name@.len() - 2] == 'm' && name@[name@.len() - 1] == 'd',
        is_file && name@.len() > 0 && name@.last() != 'k' ==> agent,
{
    reveal_strlit(".md");
    reveal_strlit(".lock");
    if is_file && name@ == stem + ".md"@ {
        assert(name@.subrange(name@.len() - 3, name@.len() as int) =~= ".md"@);
        assert(name@.last() == 'd');
    }
    if is_file && name@ == stem + ".lock"@ {
        assert(name@.subrange(name@.len() - 5, name@.len() as int) =~= ".lock"@);
        assert(name@.last() == 'k');
    }
    if ".lock"@.is_suffix_of(name@) {
        assert(name@.last() == ".lock"@[4]);
    }
    if ".md"@.is_suffix_of(name@) {
        let n = name@.len() as int;
        assert(name@.subrange(n - 3, n)[0] == name@[n - 3] && name@.subrange(n - 3, n)[1] == name@[n - 2] && name@.subrange(n - 3, n)[2] == name@[n - 1]);
    }
}

/// In the settings of a sandbox the path of the host's extensions is replaced, wherever it stands, and
/// nothing else is.
pub proof fn settings_are_rewritten(contents: &str, rest: &str, from: &str, to: &str, r: String, of_rest: String, c: char)
    requires
        call_ensures(rewrite_settings, (contents, from, to), r),
        call_ensures(rewrite_settings, (rest, from, to), of_rest),
        from@.len() > 0,
    ensures
        contents@.len() < from@.len() ==> r@ == contents@,
        contents@ == from@ + rest@ ==> r@ == to@ + of_rest@,
        contents@ == seq![c] + rest@ && !from@.is_prefix_of(contents@) ==> r@ == seq![c] + of_rest@,
{
    if contents@ == from@ + rest@ {
        assert(from@.is_prefix_of(contents@));
        assert(contents@.skip(from@.len() as int) =~= rest@);
    }
    if contents@ == seq![c] + rest@ {
        assert(contents@.skip(1) =~= rest@);
        if contents@.len() < from@.len() {
            assert(of_rest@ == rest@);
        }
    }
}

} // verus!
