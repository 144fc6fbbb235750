//! Wrapping workers in a sandbox: which one, with what arguments, and in which steps.

use crate::names::short_digest;
use crate::names::{hex, sha256};
use crate::paths::{below, under};
use crate::text::{
    as_opt_str, cat, cat3, char_code, chars_of, holds_part, lemma_holds_part, lemma_texts_push, opt_str, opt_text, same, same_opt,
    starts_with, texts,
};
use vstd::prelude::*;

verus! {

/// The environment variable that names the sandbox mode.
pub const MODE_ENV: &'static str = "HCOM_WORKER_SANDBOX";

/// The environment variable that names the workspace.
pub const ROOT_ENV: &'static str = "HCOM_WORKER_SANDBOX_ROOT";

/// The mode that wraps workers in bubblewrap.
pub const WORKSPACE_MODE: &'static str = "workspace";

/// The mode that wraps workers in a Podman container of the workspace.
pub const PODMAN_WORKSPACE_MODE: &'static str = "podman-workspace";

/// The image of workspace containers where none is configured.
pub const DEFAULT_PODMAN_IMAGE: &'static str = "localhost/hcom-pi-workspace:live";

/// A command and its arguments.
#[derive(Debug)]
pub struct WorkerCommand {
    pub command: String,
    pub args: Vec<String>,
}

/// Whether a character is white space.
pub open spec fn is_space(c: char) -> bool {
    let n = c as int;
    9 <= n <= 13 || n == 0x20 || n == 0x85 || n == 0xa0 || n == 0x1680 || 0x2000 <= n <= 0x200a || n
        == 0x2028 || n == 0x2029 || n == 0x202f || n == 0x205f || n == 0x3000
}

/// Whether a character is white space.
pub fn char_is_space(c: char) -> (r: bool)
    ensures
        r == is_space(c),
{
    let n: u32 = char_code(c);
    (9 <= n && n <= 13) || n == 0x20 || n == 0x85 || n == 0xa0 || n == 0x1680 || (0x2000 <= n && n
        <= 0x200a) || n == 0x2028 || n == 0x2029 || n == 0x202f || n == 0x205f || n == 0x3000
}

/// Whether a text is white space alone.
pub open spec fn blank(s: Seq<char>) -> bool {
    forall|i: int| 0 <= i < s.len() ==> is_space(#[trigger] s[i])
}

/// Whether a text is white space alone.
pub fn is_blank(s: &str) -> (r: bool)
    ensures
        r == blank(s@),
{
    let v: Vec<char> = chars_of(s);
    let mut i: usize = 0;
    while i < v.len()
        invariant
            i <= v@.len(),
            v@ == s@,
            forall|k: int| 0 <= k < i ==> is_space(#[trigger] v@[k]),
        decreases v.len() - i,
    {
        if !char_is_space(v[i]) {
            assert(!is_space(s@[i as int]));
            return false;
        }
        i += 1;
    }
    true
}

/// A setting that is there and not blank.
pub open spec fn given(value: Option<Seq<char>>) -> Option<Seq<char>> {
    match value {
        Some(s) => if blank(s) {
            None
        } else {
            Some(s)
        },
        None => None,
    }
}

/// A setting, where it is there and not blank.
pub fn env_nonempty(value: Option<&str>) -> (r: Option<String>)
    ensures
        opt_text(r) == given(opt_str(value)),
{
    match value {
        Some(s) => if is_blank(s) {
            None
        } else {
            Some(s.to_owned())
        },
        None => None,
    }
}

/// A setting that is there and not blank, or else a default.
pub open spec fn given_or(value: Option<Seq<char>>, default: Seq<char>) -> Seq<char> {
    match given(value) {
        Some(s) => s,
        None => default,
    }
}

/// A setting, or a default where it is absent or blank.
pub fn setting_or(value: Option<&str>, default: &str) -> (r: String)
    ensures
        r@ == given_or(opt_str(value), default@),
{
    match env_nonempty(value) {
        Some(s) => s,
        None => default.to_owned(),
    }
}

/// How a worker is to be run.
#[derive(Debug, Clone, Copy, PartialEq, Eq, Structural)]
pub enum SandboxMode {
    Off,
    Workspace,
    PodmanWorkspace,
}

/// The sandbox mode that a setting stands for.
pub open spec fn mode_named(mode: Seq<char>) -> Option<SandboxMode> {
    if mode == ""@ || mode == "off"@ {
        Some(SandboxMode::Off)
    } else if mode == WORKSPACE_MODE@ {
        Some(SandboxMode::Workspace)
    } else if mode == PODMAN_WORKSPACE_MODE@ {
        Some(SandboxMode::PodmanWorkspace)
    } else {
        None
    }
}

/// The sandbox mode that a setting stands for; a setting that stands for none is refused.
pub fn read_sandbox_mode(mode: &str) -> (r: Result<SandboxMode, String>)
    ensures
        match r {
            Ok(m) => mode_named(mode@) == Some(m),
            Err(e) => mode_named(mode@) is None && e@ == "Unsupported HCOM worker sandbox mode: "@
                + mode@,
        },
{
    if same(mode, "") || same(mode, "off") {
        Ok(SandboxMode::Off)
    } else if same(mode, WORKSPACE_MODE) {
        Ok(SandboxMode::Workspace)
    } else if same(mode, PODMAN_WORKSPACE_MODE) {
        Ok(SandboxMode::PodmanWorkspace)
    } else {
        Err(cat("Unsupported HCOM worker sandbox mode: ", mode))
    }
}

/// Whether a worker runs on the host: where the host runner is asked for, and the command is the
/// configured one, both given as they resolve.
pub fn runs_on_host(
    host_runner: Option<&str>,
    expected: &str,
    command_path: Option<&str>,
    expected_path: Option<&str>,
) -> (r: bool)
    ensures
        r == (opt_str(host_runner) == Some("1"@) && expected@.len() > 0 && opt_str(command_path)
            is Some && opt_str(command_path) == opt_str(expected_path)),
{
    if !same_opt(host_runner, "1") || expected.unicode_len() == 0 {
        return false;
    }
    match (command_path, expected_path) {
        (Some(a), Some(b)) => same(a, b),
        _ => false,
    }
}

/// Whether a path is a directory or lies in it. Both are canonical.
pub open spec fn within(path: Seq<char>, dir: Seq<char>) -> bool {
    path == dir || (dir + "/"@).is_prefix_of(path)
}

/// Why a directory cannot be the workspace of a sandbox.
pub open spec fn workspace_refusal(
    workspace: Seq<char>,
    home: Option<Seq<char>>,
    hcom_dir: Seq<char>,
) -> Option<Seq<char>> {
    if workspace == "/"@ || home == Some(workspace) {
        Some(
            "Refusing unsafe sandbox workspace "@ + workspace + "; choose a project directory"@,
        )
    } else if within(hcom_dir, workspace) {
        Some(
            "Refusing sandbox workspace "@ + workspace + " because it contains HCOM state "@
                + hcom_dir,
        )
    } else {
        None
    }
}

/// Why a directory cannot be the workspace of a sandbox: it is the root, or the home directory, or
/// it holds the state of this program. All paths are canonical.
pub fn refuse_workspace(workspace: &str, home: Option<&str>, hcom_dir: &str) -> (r: Option<String>)
    ensures
        opt_text(r) == workspace_refusal(workspace@, opt_str(home), hcom_dir@),
{
    if same(workspace, "/") || same_opt(home, workspace) {
        return Some(
            cat3(
                "Refusing unsafe sandbox workspace ",
                workspace,
                "; choose a project directory",
            ),
        );
    }
    let inside: String = cat(workspace, "/");
    if same(hcom_dir, workspace) || starts_with(hcom_dir, inside.as_str()) {
        let mut reason: String = cat3(
            "Refusing sandbox workspace ",
            workspace,
            " because it contains HCOM state ",
        );
        reason.append(hcom_dir);
        return Some(reason);
    }
    None
}

/// The id of a workspace, given the bytes of its canonical path.
pub fn workspace_id(path: &Vec<u8>) -> (r: String)
    ensures
        r@ == hex(sha256(path@).take(10)),
{
    short_digest(path, 10)
}

/// A directory made visible in a container at the same path.
pub struct MountV {
    pub source: Seq<char>,
    pub destination: Seq<char>,
    pub read_only: bool,
}

/// A mount as an argument.
pub open spec fn mount_text(m: MountV) -> Seq<char> {
    m.source + ":"@ + m.destination + ":"@ + if m.read_only {
        "ro"@
    } else {
        "rw"@
    }
}

/// A mount as an argument.
pub fn bind_mount_arg(source: &str, destination: &str, read_only: bool) -> (r: String)
    ensures
        r@ == mount_text(MountV { source: source@, destination: destination@, read_only }),
{
    let mut r: String = cat3(source, ":", destination);
    r.append(":");
    r.append(
        if read_only {
            "ro"
        } else {
            "rw"
        },
    );
    r
}

/// A directory that is mounted at its own path.
pub open spec fn own_mount(path: Seq<char>, read_only: bool) -> MountV {
    MountV { source: path, destination: path, read_only }
}

/// What a container of a workspace is made with: the workspace and its id, the private directories,
/// the image and the limits, the directories of the bridges and of the broker that are shown to it,
/// and the payload that is pinned to it.
#[derive(Debug)]
pub struct PodmanPlan {
    pub workspace: String,
    pub id: String,
    pub pi_state: String,
    pub cache_state: String,
    pub client_state: String,
    pub image: String,
    pub pids_limit: String,
    pub memory: String,
    pub cpus: String,
    pub bridges: Vec<String>,
    pub broker: Option<String>,
    pub payload: Option<String>,
}

/// The view of a [`PodmanPlan`].
pub struct PodmanPlanV {
    pub workspace: Seq<char>,
    pub id: Seq<char>,
    pub pi_state: Seq<char>,
    pub cache_state: Seq<char>,
    pub client_state: Seq<char>,
    pub image: Seq<char>,
    pub pids_limit: Seq<char>,
    pub memory: Seq<char>,
    pub cpus: Seq<char>,
    pub bridges: Seq<Seq<char>>,
    pub broker: Option<Seq<char>>,
    pub payload: Option<Seq<char>>,
}

impl View for PodmanPlan {
    type V = PodmanPlanV;

    open spec fn view(&self) -> PodmanPlanV {
        PodmanPlanV {
            workspace: self.workspace@,
            id: self.id@,
            pi_state: self.pi_state@,
            cache_state: self.cache_state@,
            client_state: self.client_state@,
            image: self.image@,
            pids_limit: self.pids_limit@,
            memory: self.memory@,
            cpus: self.cpus@,
            bridges: texts(self.bridges@),
            broker: opt_text(self.broker),
            payload: opt_text(self.payload),
        }
    }
}

/// The settings of workspace containers, as far as they are there, and the home directory.
#[derive(Debug)]
pub struct PodmanSettings {
    pub state_root: Option<String>,
    pub home: Option<String>,
    pub image: Option<String>,
    pub pids_limit: Option<String>,
    pub memory: Option<String>,
    pub cpus: Option<String>,
}

/// The view of [`PodmanSettings`].
pub struct PodmanSettingsV {
    pub state_root: Option<Seq<char>>,
    pub home: Option<Seq<char>>,
    pub image: Option<Seq<char>>,
    pub pids_limit: Option<Seq<char>>,
    pub memory: Option<Seq<char>>,
    pub cpus: Option<Seq<char>>,
}

impl View for PodmanSettings {
    type V = PodmanSettingsV;

    open spec fn view(&self) -> PodmanSettingsV {
        PodmanSettingsV {
            state_root: opt_text(self.state_root),
            home: opt_text(self.home),
            image: opt_text(self.image),
            pids_limit: opt_text(self.pids_limit),
            memory: opt_text(self.memory),
            cpus: opt_text(self.cpus),
        }
    }
}

/// The directory that holds what is private to a workspace: its own below the state root that is
/// configured, or else below one in the home directory.
pub open spec fn private_root(id: Seq<char>, s: PodmanSettingsV) -> Result<Seq<char>, Seq<char>> {
    match given(s.state_root) {
        Some(root) => Ok(below(root, id)),
        None => match s.home {
            Some(home) => Ok(below(below(home, ".local/share/hcom-sandbox/workspaces"@), id)),
            None => Err("Cannot resolve HOME for Podman workspace state"@),
        },
    }
}

/// The directory that holds what is private to a workspace.
pub fn podman_state_root(id: &str, s: &PodmanSettings) -> (r: Result<String, String>)
    ensures
        match r {
            Ok(dir) => private_root(id@, s@) == Ok::<Seq<char>, Seq<char>>(dir@),
            Err(e) => private_root(id@, s@) == Err::<Seq<char>, Seq<char>>(e@),
        },
{
    match env_nonempty(as_opt_str(&s.state_root)) {
        Some(root) => Ok(under(root.as_str(), id)),
        None => match &s.home {
            Some(home) => {
                let shared: String = under(
                    home.as_str(),
                    ".local/share/hcom-sandbox/workspaces",
                );
                Ok(under(shared.as_str(), id))
            },
            None => Err("Cannot resolve HOME for Podman workspace state".to_owned()),
        },
    }
}

/// The plan for the container of a workspace, before it is known what the container is shown.
pub open spec fn podman_planned(
    workspace: Seq<char>,
    id: Seq<char>,
    s: PodmanSettingsV,
) -> Result<PodmanPlanV, Seq<char>> {
    match private_root(id, s) {
        Err(e) => Err(e),
        Ok(root) => Ok(
            PodmanPlanV {
                workspace,
                id,
                pi_state: below(root, "pi-agent"@),
                cache_state: below(root, "cache"@),
                client_state: below(root, "hcom-client"@),
                image: given_or(s.image, DEFAULT_PODMAN_IMAGE@),
                pids_limit: given_or(s.pids_limit, "512"@),
                memory: given_or(s.memory, "4g"@),
                cpus: given_or(s.cpus, "2"@),
                bridges: Seq::empty(),
                broker: None,
                payload: None,
            },
        ),
    }
}

/// Plans the container of a workspace, before it is known what the container is shown.
pub fn plan_podman(workspace: &str, id: &str, s: &PodmanSettings) -> (r: Result<PodmanPlan, String>)
    ensures
        match r {
            Ok(p) => podman_planned(workspace@, id@, s@) == Ok::<PodmanPlanV, Seq<char>>(p@),
            Err(e) => podman_planned(workspace@, id@, s@) == Err::<PodmanPlanV, Seq<char>>(e@),
        },
{
    let root: String = match podman_state_root(id, s) {
        Ok(dir) => dir,
        Err(e) => {
            return Err(e);
        },
    };
    let bridges: Vec<String> = Vec::new();
    assert(texts(bridges@) =~= Seq::<Seq<char>>::empty());
    Ok(
        PodmanPlan {
            workspace: workspace.to_owned(),
            id: id.to_owned(),
            pi_state: under(root.as_str(), "pi-agent"),
            cache_state: under(root.as_str(), "cache"),
            client_state: under(root.as_str(), "hcom-client"),
            image: setting_or(as_opt_str(&s.image), DEFAULT_PODMAN_IMAGE),
            pids_limit: setting_or(as_opt_str(&s.pids_limit), "512"),
            memory: setting_or(as_opt_str(&s.memory), "4g"),
            cpus: setting_or(as_opt_str(&s.cpus), "2"),
            bridges,
            broker: None,
            payload: None,
        },
    )
}

/// The private directories of a workspace lie in a directory of its own, which bears its id.
pub proof fn private_directories_are_the_workspaces_own(
    workspace: Seq<char>,
    id: Seq<char>,
    s: PodmanSettingsV,
)
    requires
        podman_planned(workspace, id, s) is Ok,
        id.len() > 0,
        id.last() != '/',
    ensures
        ({
            let p = podman_planned(workspace, id, s)->Ok_0;
            let root = private_root(id, s)->Ok_0;
            &&& id.is_suffix_of(root)
            &&& within(p.pi_state, root)
            &&& within(p.cache_state, root)
            &&& within(p.client_state, root)
        }),
{
    let p = podman_planned(workspace, id, s)->Ok_0;
    let root = private_root(id, s)->Ok_0;
    reveal(below);
    reveal_strlit("pi-agent");
    reveal_strlit("cache");
    reveal_strlit("hcom-client");
    assert("pi-agent"@[0] == 'p' && "cache"@[0] == 'c' && "hcom-client"@[0] == 'h');
    assert(root.last() == id.last());
    assert(root.subrange(root.len() - id.len(), root.len() as int) =~= id);
    assert((root + "/"@).is_prefix_of(p.pi_state));
    assert((root + "/"@).is_prefix_of(p.cache_state));
    assert((root + "/"@).is_prefix_of(p.client_state));
}

/// The settings that name the sockets of the bridges, in the order in which they are shown.
pub open spec fn bridge_names() -> Seq<Seq<char>> {
    seq!["AGENTMEMORY_SOCKET"@, "ANYSEARCH_SOCKET"@, "MMX_SOCKET"@, "FLOWUS_SOCKET"@]
}

/// The settings that name the sockets of the bridges.
pub fn bridge_settings() -> (r: Vec<String>)
    ensures
        texts(r@) == bridge_names(),
{
    let mut v: Vec<String> = Vec::new();
    push2(&mut v, "AGENTMEMORY_SOCKET", "ANYSEARCH_SOCKET");
    push2(&mut v, "MMX_SOCKET", "FLOWUS_SOCKET");
    assert(texts(v@) =~= bridge_names());
    v
}

/// The name of the container of a workspace.
pub open spec fn container_name(id: Seq<char>) -> Seq<char> {
    "hcs-"@ + id
}

/// The directories that a container may write to: the workspace, and its private directories.
pub open spec fn writable_mounts(p: PodmanPlanV) -> Seq<MountV> {
    seq![
        own_mount(p.workspace, false),
        own_mount(p.pi_state, false),
        own_mount(p.cache_state, false),
        own_mount(p.client_state, false),
    ]
}

/// The directories that are shown to a container: those of the bridges, that of the broker, and the
/// payload.
pub open spec fn shown_mounts(p: PodmanPlanV) -> Seq<MountV> {
    let bridges = Seq::new(p.bridges.len(), |i: int| own_mount(p.bridges[i], true));
    let broker = match p.broker {
        Some(dir) => seq![own_mount(dir, true)],
        None => Seq::empty(),
    };
    let payload = match p.payload {
        Some(dir) => seq![
            MountV { source: dir, destination: "/opt/pi-payload"@, read_only: true },
        ],
        None => Seq::empty(),
    };
    bridges + broker + payload
}

/// All directories that a container sees.
pub open spec fn mounts(p: PodmanPlanV) -> Seq<MountV> {
    writable_mounts(p) + shown_mounts(p)
}

/// The first `n` mounts as arguments.
pub open spec fn mount_args(ms: Seq<MountV>, n: int) -> Seq<Seq<char>>
    decreases n,
{
    if n <= 0 {
        Seq::empty()
    } else {
        mount_args(ms, n - 1).push("--volume"@).push(mount_text(ms[n - 1]))
    }
}

/// The arguments that confine a container: its labels, a root file system that it cannot write to,
/// no capabilities, no new privileges, and its limits.
pub open spec fn confinement_args(p: PodmanPlanV) -> Seq<Seq<char>> {
    let labels = seq![
        "create"@,
        "--name"@,
        container_name(p.id),
        "--label"@,
        "io.hcom.workspace="@ + p.id,
        "--label"@,
        "io.hcom.workspace-path="@ + p.workspace,
    ];
    let pinned = match p.payload {
        Some(dir) => seq!["--label"@, "io.hcom.payload-root="@ + dir],
        None => Seq::empty(),
    };
    labels + pinned + seq![
        "--read-only"@,
        "--cap-drop=ALL"@,
        "--security-opt=no-new-privileges"@,
        "--user"@,
        "0:0"@,
        "--network=slirp4netns"@,
        "--pids-limit"@,
        p.pids_limit,
        "--memory"@,
        p.memory,
        "--cpus"@,
        p.cpus,
        "--tmpfs"@,
        "/tmp:rw,nosuid,nodev"@,
        "--tmpfs"@,
        "/run:rw,nosuid,nodev"@,
        "--tmpfs"@,
        "/var/tmp:rw,nosuid,nodev"@,
    ]
}

/// The arguments that make the container of a workspace.
pub open spec fn create_args(p: PodmanPlanV) -> Seq<Seq<char>> {
    confinement_args(p) + mount_args(mounts(p), mounts(p).len() as int) + seq![
        p.image,
        "/usr/bin/tini"@,
        "--"@,
        "sleep"@,
        "infinity"@,
    ]
}

/// Appends a text.
pub fn push1(v: &mut Vec<String>, a: &str)
    ensures
        texts(final(v)@) == texts(old(v)@).push(a@),
{
    let s: String = a.to_owned();
    proof {
        lemma_texts_push(v@, s);
    }
    v.push(s);
}

/// Appends two texts.
pub fn push2(v: &mut Vec<String>, a: &str, b: &str)
    ensures
        texts(final(v)@) == texts(old(v)@).push(a@).push(b@),
{
    push1(v, a);
    push1(v, b);
}

/// Appends three texts.
pub fn push3(v: &mut Vec<String>, a: &str, b: &str, c: &str)
    ensures
        texts(final(v)@) == texts(old(v)@).push(a@).push(b@).push(c@),
{
    push2(v, a, b);
    push1(v, c);
}

fn push_mount(v: &mut Vec<String>, source: &str, destination: &str, read_only: bool)
    ensures
        texts(final(v)@) == texts(old(v)@).push("--volume"@).push(
            mount_text(MountV { source: source@, destination: destination@, read_only }),
        ),
{
    let m: String = bind_mount_arg(source, destination, read_only);
    push2(v, "--volume", m.as_str());
}

proof fn lemma_mount_args_agree(a: Seq<MountV>, b: Seq<MountV>, n: int)
    requires
        0 <= n <= a.len(),
        n <= b.len(),
        forall|i: int| 0 <= i < n ==> #[trigger] a[i] == b[i],
    ensures
        mount_args(a, n) == mount_args(b, n),
    decreases n,
{
    if n > 0 {
        lemma_mount_args_agree(a, b, n - 1);
    }
}

impl PodmanPlan {
    fn confinement(&self) -> (r: Vec<String>)
        ensures
            texts(r@) == confinement_args(self@),
    {
        let mut v: Vec<String> = Vec::new();
        let name: String = cat("hcs-", self.id.as_str());
        push3(&mut v, "create", "--name", name.as_str());
        let id: String = cat("io.hcom.workspace=", self.id.as_str());
        push2(&mut v, "--label", id.as_str());
        let path: String = cat("io.hcom.workspace-path=", self.workspace.as_str());
        push2(&mut v, "--label", path.as_str());
        if let Some(dir) = &self.payload {
            let root: String = cat("io.hcom.payload-root=", dir.as_str());
            push2(&mut v, "--label", root.as_str());
        }
        push3(&mut v, "--read-only", "--cap-drop=ALL", "--security-opt=no-new-privileges");
        push3(&mut v, "--user", "0:0", "--network=slirp4netns");
        push2(&mut v, "--pids-limit", self.pids_limit.as_str());
        push2(&mut v, "--memory", self.memory.as_str());
        push2(&mut v, "--cpus", self.cpus.as_str());
        push2(&mut v, "--tmpfs", "/tmp:rw,nosuid,nodev");
        push2(&mut v, "--tmpfs", "/run:rw,nosuid,nodev");
        push2(&mut v, "--tmpfs", "/var/tmp:rw,nosuid,nodev");
        assert(texts(v@) =~= confinement_args(self@));
        v
    }

    /// The arguments that make the container of the workspace.
    pub fn create_args(&self) -> (r: Vec<String>)
        ensures
            texts(r@) == create_args(self@),
    {
        let mut v: Vec<String> = self.confinement();
        let ghost head = texts(v@);
        let ghost ms = mounts(self@);
        let ghost w = writable_mounts(self@);
        proof {
            assert(ms[0] == w[0] && ms[1] == w[1] && ms[2] == w[2] && ms[3] == w[3]);
            reveal_with_fuel(mount_args, 5);
            assert(head =~= head + mount_args(ms, 0));
        }
        push_mount(&mut v, self.workspace.as_str(), self.workspace.as_str(), false);
        push_mount(&mut v, self.pi_state.as_str(), self.pi_state.as_str(), false);
        push_mount(&mut v, self.cache_state.as_str(), self.cache_state.as_str(), false);
        push_mount(&mut v, self.client_state.as_str(), self.client_state.as_str(), false);
        assert(texts(v@) =~= head + mount_args(ms, 4));
        let mut n: usize = 0;
        while n < self.bridges.len()
            invariant
                n <= self.bridges@.len(),
                ms == mounts(self@),
                texts(v@) == head + mount_args(ms, 4 + n),
            decreases self.bridges.len() - n,
        {
            let dir: &str = self.bridges[n].as_str();
            assert(ms[4 + n] == own_mount(dir@, true));
            push_mount(&mut v, dir, dir, true);
            assert(texts(v@) =~= head + mount_args(ms, 4 + n + 1));
            n += 1;
        }
        let ghost k: int = 4 + self.bridges@.len() as int;
        if let Some(dir) = &self.broker {
            assert(ms[k] == own_mount(dir@, true));
            push_mount(&mut v, dir.as_str(), dir.as_str(), true);
            assert(texts(v@) =~= head + mount_args(ms, k + 1));
        }
        let ghost j: int = if self.broker is Some {
            k + 1
        } else {
            k
        };
        if let Some(dir) = &self.payload {
            assert(ms[j] == (MountV {
                source: dir@,
                destination: "/opt/pi-payload"@,
                read_only: true,
            }));
            push_mount(&mut v, dir.as_str(), "/opt/pi-payload", true);
            assert(texts(v@) =~= head + mount_args(ms, j + 1));
        }
        assert(texts(v@) == head + mount_args(ms, ms.len() as int));
        push3(&mut v, self.image.as_str(), "/usr/bin/tini", "--");
        push2(&mut v, "sleep", "infinity");
        assert(texts(v@) =~= create_args(self@));
        v
    }
}

/// A container can write to the workspace and to its private directories, and to nothing else that
/// it sees.
pub proof fn only_private_directories_are_writable(p: PodmanPlanV)
    ensures
        forall|i: int|
            0 <= i < mounts(p).len() && !(#[trigger] mounts(p)[i]).read_only ==> mounts(p)[i].source
                == p.workspace || mounts(p)[i].source == p.pi_state || mounts(p)[i].source
                == p.cache_state || mounts(p)[i].source == p.client_state,
        forall|i: int|
            4 <= i < mounts(p).len() ==> (#[trigger] mounts(p)[i]).read_only,
{
    let w = writable_mounts(p);
    let s = shown_mounts(p);
    assert forall|i: int| 0 <= i < s.len() implies (#[trigger] s[i]).read_only by {}
    assert forall|i: int| 0 <= i < mounts(p).len() implies (#[trigger] mounts(p)[i]) == (if i < 4 {
        w[i]
    } else {
        s[i - 4]
    }) by {}
}

/// Every container is made with a read-only root file system, without capabilities, and without
/// the means to gain privileges; and it runs an init process.
pub proof fn containers_are_confined(p: PodmanPlanV)
    ensures
        create_args(p).contains("--read-only"@),
        create_args(p).contains("--cap-drop=ALL"@),
        create_args(p).contains("--security-opt=no-new-privileges"@),
        create_args(p)[create_args(p).len() - 4] == "/usr/bin/tini"@,
{
    let c = confinement_args(p);
    let a = create_args(p);
    let base: int = if p.payload is Some {
        9
    } else {
        7
    };
    assert(c[base] == "--read-only"@);
    assert(c[base + 1] == "--cap-drop=ALL"@);
    assert(c[base + 2] == "--security-opt=no-new-privileges"@);
    assert(a[base] == c[base]);
    assert(a[base + 1] == c[base + 1]);
    assert(a[base + 2] == c[base + 2]);
}

/// A payload is pinned to the container that is made with it: it is recorded by its path, and shown
/// read-only.
pub proof fn payload_is_pinned(p: PodmanPlanV, dir: Seq<char>)
    requires
        p.payload == Some(dir),
    ensures
        create_args(p)[8] == "io.hcom.payload-root="@ + dir,
        mounts(p).contains(
            MountV { source: dir, destination: "/opt/pi-payload"@, read_only: true },
        ),
{
    let c = confinement_args(p);
    assert(c[8] == "io.hcom.payload-root="@ + dir);
    assert(create_args(p)[8] == c[8]);
    let ms = mounts(p);
    assert(ms[ms.len() - 1] == (MountV {
        source: dir,
        destination: "/opt/pi-payload"@,
        read_only: true,
    }));
}

/// A setting with something in it is taken as it is; one of spaces, tabs and line ends alone, or
/// none, leaves the default.
pub proof fn settings_stand_unless_blank(value: Option<&str>, default: &str, r: Option<String>, t: String, i: int)
    requires
        call_ensures(env_nonempty, (value,), r),
        call_ensures(setting_or, (value, default), t),
    ensures
        value is None ==> r is None && t@ == default@,
        value is Some && 0 <= i < value->0@.len() && '!' as int <= value->0@[i] as int <= '~' as int ==> opt_text(r) == Some(value->0@) && t@ == value->0@,
        value is Some && (forall|k: int| 0 <= k < value->0@.len() ==> #[trigger] value->0@[k] == ' ' || value->0@[k] == '\t' || value->0@[k] == '\n' || value->0@[k] == '\r') ==> r is None && t@ == default@,
{
    if value is Some && 0 <= i < value->0@.len() && '!' as int <= value->0@[i] as int <= '~' as int {
        assert(!is_space(value->0@[i]));
        assert(!blank(value->0@));
    }
}

/// These settings turn the sandbox off, or name one of its kinds; any other is refused.
pub proof fn modes_are_named(mode: &str, r: Result<SandboxMode, String>)
    requires
        call_ensures(read_sandbox_mode, (mode,), r),
    ensures
        mode@ == ""@ || mode@ == "off"@ ==> r == Ok::<SandboxMode, String>(SandboxMode::Off),
        mode@ == "workspace"@ ==> r == Ok::<SandboxMode, String>(SandboxMode::Workspace),
        mode@ == "podman-workspace"@ ==> r == Ok::<SandboxMode, String>(SandboxMode::PodmanWorkspace),
        mode@ != ""@ && mode@ != "off"@ && mode@ != "workspace"@ && mode@ != "podman-workspace"@ ==> (r matches Err(e) && e@ == "Unsupported HCOM worker sandbox mode: "@ + mode@),
{
    reveal_strlit("");
    reveal_strlit("off");
    reveal_strlit("workspace");
    reveal_strlit("podman-workspace");
    assert(""@.len() == 0 && "off"@.len() == 3 && "workspace"@.len() == 9 && "podman-workspace"@.len() == 16);
}

/// A worker runs on the host only where the host runner is asked for by a one, and its command is
/// found to be the configured one.
pub proof fn hosts_run_their_own_command(runner: Option<&str>, expected: &str, command: Option<&str>, configured: Option<&str>, r: bool)
    requires
        call_ensures(runs_on_host, (runner, expected, command, configured), r),
    ensures
        r ==> (runner matches Some(s) && s@ == "1"@) && expected@.len() > 0 && (command matches Some(a) && configured matches Some(b) && a@ == b@),
        (runner matches Some(s) && s@ == "1"@) && expected@.len() > 0 && command is Some && configured is Some && command->0@ == configured->0@ ==> r,
{
}

/// A project directory is a workspace. The root, the home directory, and a directory that holds the
/// state of this program are not.
pub proof fn workspaces_are_project_directories(workspace: &str, home: Option<&str>, hcom_dir: &str, rest: Seq<char>, r: Option<String>)
    requires
        call_ensures(refuse_workspace, (workspace, home, hcom_dir), r),
    ensures
        workspace@ == "/"@ || opt_str(home) == Some(workspace@) ==> opt_text(r) == Some("Refusing unsafe sandbox workspace "@ + workspace@ + "; choose a project directory"@),
        workspace@ != "/"@ && opt_str(home) != Some(workspace@) && (hcom_dir@ == workspace@ || hcom_dir@ == workspace@ + "/"@ + rest) ==> opt_text(r) == Some("Refusing sandbox workspace "@ + workspace@ + " because it contains HCOM state "@ + hcom_dir@),
        workspace@ != "/"@ && opt_str(home) != Some(workspace@) && hcom_dir@ != workspace@ && !(workspace@ + "/"@).is_prefix_of(hcom_dir@) ==> r is None,
{
    if hcom_dir@ == workspace@ + "/"@ + rest {
        assert((workspace@ + "/"@).is_prefix_of(hcom_dir@));
    }
}

/// A workspace is known by twenty hexadecimal digits, the first of the digest of its path.
pub proof fn workspaces_are_known_by_their_path(path: Vec<u8>, r: String)
    requires
        call_ensures(workspace_id, (&path,), r),
        sha256(path@).len() == 32,
    ensures
        r@.len() == 20,
        r@ == hex(sha256(path@)).take(20),
{
    crate::names::hex_length(sha256(path@).take(10));
    lemma_hex_prefix(sha256(path@), 10);
}

proof fn lemma_hex_prefix(bytes: Seq<u8>, n: int)
    requires
        0 <= n <= bytes.len(),
    ensures
        hex(bytes).take(2 * n) == hex(bytes.take(n)),
    decreases bytes.len(),
{
    crate::names::hex_length(bytes);
    crate::names::hex_length(bytes.take(n));
    if n == bytes.len() {
        assert(bytes.take(n) =~= bytes);
        assert(hex(bytes).take(2 * n) =~= hex(bytes));
    } else {
        crate::names::hex_length(bytes.drop_last());
        lemma_hex_prefix(bytes.drop_last(), n);
        assert(bytes.drop_last().take(n) =~= bytes.take(n));
        assert(hex(bytes).take(2 * n) =~= hex(bytes.drop_last()).take(2 * n));
    }
}

/// A mount shows a directory at a place, to be read or to be written.
pub proof fn mounts_are_written_out(source: &str, destination: &str, read_only: bool, r: String)
    requires
        call_ensures(bind_mount_arg, (source, destination, read_only), r),
    ensures
        read_only ==> r@ == source@ + ":"@ + destination@ + ":"@ + "ro"@,
        !read_only ==> r@ == source@ + ":"@ + destination@ + ":"@ + "rw"@,
{
}

/// What a workspace keeps to itself stands under its id, in the configured directory or else in the
/// home directory; without either there is no place for it.
pub proof fn private_state_has_its_place(id: &str, s: PodmanSettings, r: Result<String, String>)
    requires
        call_ensures(podman_state_root, (id, &s), r),
        id@.len() > 0 && id@[0] != '/',
        s.state_root matches Some(d) ==> d@.len() > 0 && d@.last() != '/',
        s.home matches Some(d) ==> d@.len() > 0 && d@.last() != '/',
    ensures
        s.state_root is Some && !blank(s.state_root->0@) ==> (r matches Ok(d) && d@ == s.state_root->0@ + "/"@ + id@),
        (s.state_root is None || blank(s.state_root->0@)) && s.home is Some ==> (r matches Ok(d) && d@ == s.home->0@ + "/.local/share/hcom-sandbox/workspaces/"@ + id@),
        (s.state_root is None || blank(s.state_root->0@)) && s.home is None ==> (r matches Err(e) && e@ == "Cannot resolve HOME for Podman workspace state"@),
{
    reveal(below);
    reveal_strlit("/");
    reveal_strlit(".local/share/hcom-sandbox/workspaces");
    reveal_strlit("/.local/share/hcom-sandbox/workspaces/");
    let mid = ".local/share/hcom-sandbox/workspaces"@;
    assert("/.local/share/hcom-sandbox/workspaces/"@ =~= "/"@ + mid + "/"@);
    if (s.state_root is None || blank(s.state_root->0@)) && s.home is Some {
        let h = s.home->0@;
        assert(mid[0] == '.' && mid.last() == 's');
        assert(h + "/"@ + mid + "/"@ + id@ =~= h + ("/"@ + mid + "/"@) + id@);
    }
}

/// A container is planned for its workspace, with its private directories below their root, and with
/// the configured image and limits, or the default ones.
pub proof fn containers_are_planned_as_configured(workspace: &str, id: &str, s: PodmanSettings, root: Result<String, String>, r: Result<PodmanPlan, String>)
    requires
        call_ensures(podman_state_root, (id, &s), root),
        call_ensures(plan_podman, (workspace, id, &s), r),
        root matches Ok(d) ==> d@.len() > 0 && d@.last() != '/',
    ensures
        root matches Err(e) ==> (r matches Err(w) && w@ == e@),
        root is Ok ==> r is Ok,
        root is Ok ==> r->Ok_0.workspace@ == workspace@ && r->Ok_0.id@ == id@,
        root is Ok ==> r->Ok_0.pi_state@ == root->Ok_0@ + "/pi-agent"@ && r->Ok_0.cache_state@ == root->Ok_0@ + "/cache"@ && r->Ok_0.client_state@ == root->Ok_0@ + "/hcom-client"@,
        root is Ok ==> r->Ok_0.image@ == (if s.image is Some && !blank(s.image->0@) { s.image->0@ } else { "localhost/hcom-pi-workspace:live"@ }),
        root is Ok ==> r->Ok_0.pids_limit@ == (if s.pids_limit is Some && !blank(s.pids_limit->0@) { s.pids_limit->0@ } else { "512"@ }),
        root is Ok ==> r->Ok_0.memory@ == (if s.memory is Some && !blank(s.memory->0@) { s.memory->0@ } else { "4g"@ }),
        root is Ok ==> r->Ok_0.cpus@ == (if s.cpus is Some && !blank(s.cpus->0@) { s.cpus->0@ } else { "2"@ }),
        root is Ok ==> r->Ok_0.bridges@.len() == 0 && r->Ok_0.broker is None && r->Ok_0.payload is None,
{
    reveal(below);
    reveal_strlit("/");
    reveal_strlit("pi-agent");
    reveal_strlit("cache");
    reveal_strlit("hcom-client");
    reveal_strlit("/pi-agent");
    reveal_strlit("/cache");
    reveal_strlit("/hcom-client");
    assert("pi-agent"@[0] == 'p' && "cache"@[0] == 'c' && "hcom-client"@[0] == 'h');
    if root is Ok {
        let d = root->Ok_0@;
        assert(d + "/"@ + "pi-agent"@ =~= d + "/pi-agent"@);
        assert(d + "/"@ + "cache"@ =~= d + "/cache"@);
        assert(d + "/"@ + "hcom-client"@ =~= d + "/hcom-client"@);
        assert(texts(r->Ok_0.bridges@).len() == 0);
    }
}

/// The sockets of four bridges can be shown to a container.
pub proof fn four_bridges_can_be_shown(r: Vec<String>)
    requires
        call_ensures(bridge_settings, (), r),
    ensures
        r@.len() == 4,
        r@[0]@ == "AGENTMEMORY_SOCKET"@ && r@[1]@ == "ANYSEARCH_SOCKET"@ && r@[2]@ == "MMX_SOCKET"@ && r@[3]@ == "FLOWUS_SOCKET"@,
{
    let v = texts(r@);
    assert(v.len() == 4);
    assert(v[0] == r@[0]@ && v[1] == r@[1]@ && v[2] == r@[2]@ && v[3] == r@[3]@);
}

proof fn lemma_mount_args_at(ms: Seq<MountV>, n: int, k: int)
    requires
        0 <= k < n <= ms.len(),
    ensures
        mount_args(ms, n).len() == 2 * n,
        mount_args(ms, n)[2 * k] == "--volume"@,
        mount_args(ms, n)[2 * k + 1] == mount_text(ms[k]),
    decreases n,
{
    if k < n - 1 {
        lemma_mount_args_at(ms, n - 1, k);
    } else if n > 1 {
        lemma_mount_args_at(ms, n - 1, 0);
    } else {
        assert(mount_args(ms, 0).len() == 0);
    }
}

/// The number of arguments before the mounts of a container.
pub open spec fn mounts_start(p: PodmanPlanV) -> int {
    if p.payload is Some {
        27
    } else {
        25
    }
}

proof fn lemma_mounted(p: PodmanPlanV, k: int)
    requires
        0 <= k < mounts(p).len(),
    ensures
        create_args(p)[mounts_start(p) + 2 * k] == "--volume"@,
        create_args(p)[mounts_start(p) + 2 * k + 1] == mount_text(mounts(p)[k]),
        create_args(p).len() == mounts_start(p) + 2 * mounts(p).len() + 5,
{
    lemma_mount_args_at(mounts(p), mounts(p).len() as int, k);
    assert(confinement_args(p).len() == mounts_start(p));
}

proof fn lemma_mount_held(p: PodmanPlanV, k: int)
    requires
        0 <= k < mounts(p).len(),
    ensures
        holds_part(create_args(p), create_args(p).len() as int, seq!["--volume"@, mount_text(mounts(p)[k])]),
{
    lemma_mounted(p, k);
    lemma_holds_part(create_args(p), create_args(p).len() as int, seq!["--volume"@, mount_text(mounts(p)[k])], mounts_start(p) + 2 * k);
}

/// A container can write to its workspace and to its private directories, at their own paths; it is
/// shown its bridges, its broker and its payload, and cannot write to them.
pub proof fn containers_see_their_directories(plan: PodmanPlan, r: Vec<String>, i: int)
    requires
        call_ensures(PodmanPlan::create_args, (&plan,), r),
    ensures
        holds_part(texts(r@), r@.len() as int, seq!["--volume"@, plan.workspace@ + ":"@ + plan.workspace@ + ":"@ + "rw"@]),
        holds_part(texts(r@), r@.len() as int, seq!["--volume"@, plan.pi_state@ + ":"@ + plan.pi_state@ + ":"@ + "rw"@]),
        holds_part(texts(r@), r@.len() as int, seq!["--volume"@, plan.cache_state@ + ":"@ + plan.cache_state@ + ":"@ + "rw"@]),
        holds_part(texts(r@), r@.len() as int, seq!["--volume"@, plan.client_state@ + ":"@ + plan.client_state@ + ":"@ + "rw"@]),
        0 <= i < plan.bridges@.len() ==> holds_part(texts(r@), r@.len() as int, seq!["--volume"@, plan.bridges@[i]@ + ":"@ + plan.bridges@[i]@ + ":"@ + "ro"@]),
        plan.broker is Some ==> holds_part(texts(r@), r@.len() as int, seq!["--volume"@, plan.broker->0@ + ":"@ + plan.broker->0@ + ":"@ + "ro"@]),
        plan.payload is Some ==> holds_part(texts(r@), r@.len() as int, seq!["--volume"@, plan.payload->0@ + ":"@ + "/opt/pi-payload"@ + ":"@ + "ro"@]),
{
    let p = plan@;
    let m = mounts(p);
    lemma_mount_held(p, 0);
    lemma_mount_held(p, 1);
    lemma_mount_held(p, 2);
    lemma_mount_held(p, 3);
    let n = p.bridges.len() as int;
    if 0 <= i < n {
        assert(m[4 + i] == own_mount(p.bridges[i], true));
        lemma_mount_held(p, 4 + i);
    }
    if plan.broker is Some {
        assert(m[4 + n] == own_mount(p.broker->0, true));
        lemma_mount_held(p, 4 + n);
    }
    if plan.payload is Some {
        assert(m.last() == MountV { source: p.payload->0, destination: "/opt/pi-payload"@, read_only: true });
        lemma_mount_held(p, m.len() - 1);
    }
}

/// A container bears the name and the labels of its workspace, cannot write to its root, has no
/// capabilities and cannot gain privileges, and has its limits; it is made from its image, and idles
/// under an init process until workers are run in it.
pub proof fn containers_are_made_to_measure(plan: PodmanPlan, r: Vec<String>)
    requires
        call_ensures(PodmanPlan::create_args, (&plan,), r),
    ensures
        r@[0]@ == "create"@,
        holds_part(texts(r@), r@.len() as int, seq!["--name"@, "hcs-"@ + plan.id@]),
        holds_part(texts(r@), r@.len() as int, seq!["--label"@, "io.hcom.workspace="@ + plan.id@]),
        holds_part(texts(r@), r@.len() as int, seq!["--label"@, "io.hcom.workspace-path="@ + plan.workspace@]),
        plan.payload is Some ==> holds_part(texts(r@), r@.len() as int, seq!["--label"@, "io.hcom.payload-root="@ + plan.payload->0@]),
        holds_part(texts(r@), r@.len() as int, seq!["--read-only"@, "--cap-drop=ALL"@, "--security-opt=no-new-privileges"@]),
        holds_part(texts(r@), r@.len() as int, seq!["--user"@, "0:0"@, "--network=slirp4netns"@]),
        holds_part(texts(r@), r@.len() as int, seq!["--pids-limit"@, plan.pids_limit@]),
        holds_part(texts(r@), r@.len() as int, seq!["--memory"@, plan.memory@]),
        holds_part(texts(r@), r@.len() as int, seq!["--cpus"@, plan.cpus@]),
        holds_part(texts(r@), r@.len() as int, seq!["--tmpfs"@, "/tmp:rw,nosuid,nodev"@, "--tmpfs"@, "/run:rw,nosuid,nodev"@, "--tmpfs"@, "/var/tmp:rw,nosuid,nodev"@]),
        texts(r@).skip(r@.len() - 5) == seq![plan.image@, "/usr/bin/tini"@, "--"@, "sleep"@, "infinity"@],
{
    let p = plan@;
    let a = texts(r@);
    let n = a.len() as int;
    let c = confinement_args(p);
    let at = mounts_start(p) - 18;
    lemma_mounted(p, 0);
    assert(c.len() == mounts_start(p));
    assert forall|i: int| 0 <= i < c.len() implies #[trigger] a[i] == c[i] by {}
    lemma_holds_part(a, n, seq!["--name"@, "hcs-"@ + p.id], 1);
    lemma_holds_part(a, n, seq!["--label"@, "io.hcom.workspace="@ + p.id], 3);
    lemma_holds_part(a, n, seq!["--label"@, "io.hcom.workspace-path="@ + p.workspace], 5);
    if p.payload is Some {
        lemma_holds_part(a, n, seq!["--label"@, "io.hcom.payload-root="@ + p.payload->0], 7);
    }
    lemma_holds_part(a, n, seq!["--read-only"@, "--cap-drop=ALL"@, "--security-opt=no-new-privileges"@], at);
    lemma_holds_part(a, n, seq!["--user"@, "0:0"@, "--network=slirp4netns"@], at + 3);
    lemma_holds_part(a, n, seq!["--pids-limit"@, p.pids_limit], at + 6);
    lemma_holds_part(a, n, seq!["--memory"@, p.memory], at + 8);
    lemma_holds_part(a, n, seq!["--cpus"@, p.cpus], at + 10);
    lemma_holds_part(a, n, seq!["--tmpfs"@, "/tmp:rw,nosuid,nodev"@, "--tmpfs"@, "/run:rw,nosuid,nodev"@, "--tmpfs"@, "/var/tmp:rw,nosuid,nodev"@], at + 12);
    assert(a.skip(n - 5) =~= seq![p.image, "/usr/bin/tini"@, "--"@, "sleep"@, "infinity"@]);
    assert(a[0] == r@[0]@);
}

} // verus!
