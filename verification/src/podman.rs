//! Bringing up the container of a workspace, and running a worker in it.

use crate::sandbox::{PodmanPlan, PodmanPlanV, container_name, create_args, push1, push2, push3};
use crate::space::{trim_text, trimmed};
use crate::text::{
    as_opt_str, cat, cat3, chars_of, holds_part, lemma_holds_part, opt_str, opt_text, same, text_of, texts,
};
use vstd::prelude::*;

verus! {

/// A path that a setting names, as it was found: whether it is absolute, whether it exists as what
/// it should be, and the directory it lies in.
#[derive(Debug)]
pub struct PathProbe {
    pub setting: String,
    pub absolute: bool,
    pub exists: bool,
    pub parent: Option<String>,
}

/// The view of a [`PathProbe`].
pub struct ProbeV {
    pub setting: Seq<char>,
    pub absolute: bool,
    pub exists: bool,
    pub parent: Option<Seq<char>>,
}

impl View for PathProbe {
    type V = ProbeV;

    open spec fn view(&self) -> ProbeV {
        ProbeV {
            setting: self.setting@,
            absolute: self.absolute,
            exists: self.exists,
            parent: opt_text(self.parent),
        }
    }
}

/// The directory of a bridge socket, or why it is refused.
pub open spec fn bridge_dir(p: ProbeV) -> Result<Seq<char>, Seq<char>> {
    if !p.absolute || !p.exists {
        Err(p.setting + " must be an existing absolute path"@)
    } else {
        match p.parent {
            Some(dir) => Ok(dir),
            None => Err("bridge socket has no parent"@),
        }
    }
}

/// The directories of the first `n` bridge sockets, or why one of them is refused.
pub open spec fn bridge_dirs(ps: Seq<ProbeV>, n: int) -> Result<Seq<Seq<char>>, Seq<char>>
    decreases n,
{
    if n <= 0 {
        Ok(Seq::empty())
    } else {
        match bridge_dirs(ps, n - 1) {
            Err(e) => Err(e),
            Ok(s) => match bridge_dir(ps[n - 1]) {
                Err(e) => Err(e),
                Ok(dir) => Ok(s.push(dir)),
            },
        }
    }
}

proof fn lemma_bridge_dirs_fail(ps: Seq<ProbeV>, n: int, m: int, e: Seq<char>)
    requires
        0 <= n <= m,
        bridge_dirs(ps, n) == Err::<Seq<Seq<char>>, Seq<char>>(e),
    ensures
        bridge_dirs(ps, m) == Err::<Seq<Seq<char>>, Seq<char>>(e),
    decreases m - n,
{
    if n < m {
        lemma_bridge_dirs_fail(ps, n, m - 1, e);
    }
}

/// The directories of the bridge sockets that are configured.
pub fn read_bridges(probes: &Vec<PathProbe>) -> (r: Result<Vec<String>, String>)
    ensures
        match r {
            Ok(v) => bridge_dirs(crate::rows::views(probes@), probes@.len() as int) == Ok::<
                Seq<Seq<char>>,
                Seq<char>,
            >(texts(v@)),
            Err(e) => bridge_dirs(crate::rows::views(probes@), probes@.len() as int) == Err::<
                Seq<Seq<char>>,
                Seq<char>,
            >(e@),
        },
{
    let ghost ps = crate::rows::views(probes@);
    let mut out: Vec<String> = Vec::new();
    assert(texts(out@) =~= Seq::<Seq<char>>::empty());
    let mut n: usize = 0;
    while n < probes.len()
        invariant
            n <= probes@.len(),
            ps == crate::rows::views(probes@),
            bridge_dirs(ps, n as int) == Ok::<Seq<Seq<char>>, Seq<char>>(texts(out@)),
        decreases probes.len() - n,
    {
        let p: &PathProbe = &probes[n];
        assert(ps[n as int] == p@);
        if !p.absolute || !p.exists {
            let e: String = cat(p.setting.as_str(), " must be an existing absolute path");
            proof {
                lemma_bridge_dirs_fail(ps, n as int + 1, ps.len() as int, e@);
            }
            return Err(e);
        }
        match &p.parent {
            None => {
                let e: String = "bridge socket has no parent".to_owned();
                proof {
                    lemma_bridge_dirs_fail(ps, n as int + 1, ps.len() as int, e@);
                }
                return Err(e);
            },
            Some(dir) => {
                push1(&mut out, dir.as_str());
            },
        }
        n += 1;
    }
    Ok(out)
}

/// The directory that the broker's socket and token share, where they are configured; or why they
/// are refused.
pub open spec fn broker_dir(socket: Option<ProbeV>, token: Option<ProbeV>) -> Result<
    Option<Seq<char>>,
    Seq<char>,
> {
    match (socket, token) {
        (Some(s), Some(t)) => if !s.absolute || !s.exists {
            Err("HCOM_BROKER_SOCKET must be an existing absolute path"@)
        } else if !t.absolute || !t.exists {
            Err("HCOM_BROKER_TOKEN_FILE must be an existing absolute file"@)
        } else {
            match s.parent {
                None => Err("broker socket has no parent"@),
                Some(dir) => if t.parent != Some(dir) {
                    Err("broker socket and token must share a directory"@)
                } else {
                    Ok(Some(dir))
                },
            }
        },
        (None, None) => Ok(None),
        _ => Err("broker socket and token must be configured together"@),
    }
}

/// The view of an optional probe.
pub open spec fn opt_probe(o: Option<&PathProbe>) -> Option<ProbeV> {
    match o {
        Some(p) => Some(p@),
        None => None,
    }
}

/// The directory that the broker's socket and token share, where they are configured.
pub fn read_broker(socket: Option<&PathProbe>, token: Option<&PathProbe>) -> (r: Result<
    Option<String>,
    String,
>)
    ensures
        match r {
            Ok(o) => broker_dir(opt_probe(socket), opt_probe(token)) == Ok::<
                Option<Seq<char>>,
                Seq<char>,
            >(opt_text(o)),
            Err(e) => broker_dir(opt_probe(socket), opt_probe(token)) == Err::<
                Option<Seq<char>>,
                Seq<char>,
            >(e@),
        },
{
    match (socket, token) {
        (Some(s), Some(t)) => {
            if !s.absolute || !s.exists {
                return Err("HCOM_BROKER_SOCKET must be an existing absolute path".to_owned());
            }
            if !t.absolute || !t.exists {
                return Err("HCOM_BROKER_TOKEN_FILE must be an existing absolute file".to_owned());
            }
            match &s.parent {
                None => Err("broker socket has no parent".to_owned()),
                Some(dir) => {
                    let shared: bool = match &t.parent {
                        Some(other) => same(other.as_str(), dir.as_str()),
                        None => false,
                    };
                    if shared {
                        Ok(Some(dir.clone()))
                    } else {
                        Err("broker socket and token must share a directory".to_owned())
                    }
                },
            }
        },
        (None, None) => Ok(None),
        _ => Err("broker socket and token must be configured together".to_owned()),
    }
}

/// The payload that a new container is pinned to: the current one where a payload root is
/// configured; a root without a current payload is refused.
pub open spec fn payload_dir(root: Option<Seq<char>>, current: Option<Seq<char>>) -> Result<
    Option<Seq<char>>,
    Seq<char>,
> {
    match root {
        None => Ok(None),
        Some(r) => match current {
            Some(dir) => Ok(Some(dir)),
            None => Err("Podman payload root has no current payload: "@ + r),
        },
    }
}

/// The payload that a new container is pinned to.
pub fn read_payload(root: Option<&str>, current: Option<&str>) -> (r: Result<Option<String>, String>)
    ensures
        match r {
            Ok(o) => payload_dir(opt_str(root), opt_str(current)) == Ok::<
                Option<Seq<char>>,
                Seq<char>,
            >(opt_text(o)),
            Err(e) => payload_dir(opt_str(root), opt_str(current)) == Err::<
                Option<Seq<char>>,
                Seq<char>,
            >(e@),
        },
{
    match root {
        None => Ok(None),
        Some(root) => match current {
            Some(dir) => Ok(Some(dir.to_owned())),
            None => Err(cat("Podman payload root has no current payload: ", root)),
        },
    }
}

/// What a new container is shown, as it was found: the sockets of the bridges that are configured, the
/// socket and the token of the broker, and the payload root with its current payload.
#[derive(Debug)]
pub struct Surroundings {
    pub bridges: Vec<PathProbe>,
    pub broker_socket: Option<PathProbe>,
    pub broker_token: Option<PathProbe>,
    pub payload_root: Option<String>,
    pub payload_current: Option<String>,
}

/// The view of [`Surroundings`].
pub struct SurroundingsV {
    pub bridges: Seq<ProbeV>,
    pub broker_socket: Option<ProbeV>,
    pub broker_token: Option<ProbeV>,
    pub payload_root: Option<Seq<char>>,
    pub payload_current: Option<Seq<char>>,
}

/// The view of a probe that may be absent.
pub open spec fn held_probe(o: Option<PathProbe>) -> Option<ProbeV> {
    match o {
        Some(p) => Some(p@),
        None => None,
    }
}

impl View for Surroundings {
    type V = SurroundingsV;

    open spec fn view(&self) -> SurroundingsV {
        SurroundingsV {
            bridges: crate::rows::views(self.bridges@),
            broker_socket: held_probe(self.broker_socket),
            broker_token: held_probe(self.broker_token),
            payload_root: opt_text(self.payload_root),
            payload_current: opt_text(self.payload_current),
        }
    }
}

/// A plan with what a new container is shown, or why that is refused.
pub open spec fn plan_resolved(p: PodmanPlanV, s: SurroundingsV) -> Result<PodmanPlanV, Seq<char>> {
    match bridge_dirs(s.bridges, s.bridges.len() as int) {
        Err(e) => Err(e),
        Ok(bridges) => match broker_dir(s.broker_socket, s.broker_token) {
            Err(e) => Err(e),
            Ok(broker) => match payload_dir(s.payload_root, s.payload_current) {
                Err(e) => Err(e),
                Ok(payload) => Ok(PodmanPlanV { bridges, broker, payload, ..p }),
            },
        },
    }
}

impl PodmanPlan {
    /// A plan with what a new container is shown, or why that is refused. Of a container that exists
    /// nothing of this is looked up.
    pub fn resolve(self, s: &Surroundings) -> (r: Result<PodmanPlan, String>)
        ensures
            match r {
                Ok(p) => plan_resolved(self@, s@) == Ok::<PodmanPlanV, Seq<char>>(p@),
                Err(e) => plan_resolved(self@, s@) == Err::<PodmanPlanV, Seq<char>>(e@),
            },
    {
        let bridges: Vec<String> = match read_bridges(&s.bridges) {
            Ok(v) => v,
            Err(e) => {
                return Err(e);
            },
        };
        let broker: Option<String> = match read_broker(
            s.broker_socket.as_ref(),
            s.broker_token.as_ref(),
        ) {
            Ok(o) => o,
            Err(e) => {
                return Err(e);
            },
        };
        let payload: Option<String> = match read_payload(
            as_opt_str(&s.payload_root),
            as_opt_str(&s.payload_current),
        ) {
            Ok(o) => o,
            Err(e) => {
                return Err(e);
            },
        };
        Ok(
            PodmanPlan {
                workspace: self.workspace,
                id: self.id,
                pi_state: self.pi_state,
                cache_state: self.cache_state,
                client_state: self.client_state,
                image: self.image,
                pids_limit: self.pids_limit,
                memory: self.memory,
                cpus: self.cpus,
                bridges,
                broker,
                payload,
            },
        )
    }
}

/// The steps in which a container is brought up. The labels of one that exists are compared once
/// both are read.
#[derive(Debug, Clone, Copy, PartialEq, Eq, Structural)]
pub enum PodmanStage {
    Rootless,
    Exists,
    LabelId,
    LabelPath { id_matches: bool },
    /// What a new container is shown is looked up; nothing is asked of Podman.
    Resolve,
    ImageMode,
    Create,
    Running,
    Start,
    Ready,
}

/// What Podman answered: its exit code, its output, and for a failure its status and its words.
#[derive(Debug)]
pub struct PodmanReply {
    pub code: Option<i32>,
    pub output: String,
    pub status: String,
    pub words: String,
}

/// The view of a [`PodmanReply`].
pub struct ReplyV {
    pub code: Option<i32>,
    pub output: Seq<char>,
    pub status: Seq<char>,
    pub words: Seq<char>,
}

impl View for PodmanReply {
    type V = ReplyV;

    open spec fn view(&self) -> ReplyV {
        ReplyV {
            code: self.code,
            output: self.output@,
            status: self.status@,
            words: self.words@,
        }
    }
}

/// The arguments of an inspection of a container.
pub open spec fn inspect_args(container: Seq<char>, format: Seq<char>) -> Seq<Seq<char>> {
    seq!["container"@, "inspect"@, "--format"@, format, container]
}

/// What Podman is asked in a step.
pub open spec fn stage_args(stage: PodmanStage, p: PodmanPlanV) -> Seq<Seq<char>> {
    let name = container_name(p.id);
    match stage {
        PodmanStage::Rootless => seq!["info"@, "--format"@, "{{.Host.Security.Rootless}}"@],
        PodmanStage::Exists => seq!["container"@, "exists"@, name],
        PodmanStage::LabelId => inspect_args(
            name,
            "{{ index .Config.Labels \"io.hcom.workspace\" }}"@,
        ),
        PodmanStage::LabelPath { .. } => inspect_args(
            name,
            "{{ index .Config.Labels \"io.hcom.workspace-path\" }}"@,
        ),
        PodmanStage::Resolve => Seq::empty(),
        PodmanStage::ImageMode => seq![
            "image"@,
            "inspect"@,
            "--format"@,
            "{{ index .Config.Labels \"io.hcom.payload-mode\" }}"@,
            p.image,
        ],
        PodmanStage::Create => create_args(p),
        PodmanStage::Running => inspect_args(name, "{{.State.Running}}"@),
        PodmanStage::Start => seq!["start"@, name],
        PodmanStage::Ready => Seq::empty(),
    }
}

/// Why a container that exists is refused.
pub open spec fn foreign_container(p: PodmanPlanV) -> Seq<char> {
    "Existing container "@ + container_name(p.id) + " does not match workspace identity"@
}

/// What a step does, in the words of its failure; nothing for one that has no command, or whose
/// failure is an answer.
pub open spec fn stage_action(stage: PodmanStage) -> Option<Seq<char>> {
    match stage {
        PodmanStage::Rootless => Some("rootless verification"@),
        PodmanStage::Exists => None,
        PodmanStage::LabelId => Some("container inspection"@),
        PodmanStage::LabelPath { .. } => Some("container inspection"@),
        PodmanStage::Resolve => None,
        PodmanStage::ImageMode => Some("image inspection"@),
        PodmanStage::Create => Some("container creation"@),
        PodmanStage::Running => Some("container inspection"@),
        PodmanStage::Start => Some("container start"@),
        PodmanStage::Ready => None,
    }
}

/// The words of a failure of Podman.
pub open spec fn podman_failure(action: Seq<char>, r: ReplyV) -> Seq<char> {
    "Podman "@ + action + " failed (status "@ + r.status + "): "@ + trimmed(r.words)
}

/// The step after Podman has answered, or why the sandbox is refused: a step that failed, or an
/// answer that is not the one it takes.
pub open spec fn stage_after(stage: PodmanStage, p: PodmanPlanV, r: ReplyV) -> Result<
    PodmanStage,
    Seq<char>,
> {
    match stage_action(stage) {
        Some(action) => if r.code == Some(0i32) {
            stage_answered(stage, p, r)
        } else {
            Err(podman_failure(action, r))
        },
        None => stage_answered(stage, p, r),
    }
}

/// The step in which a new container is made: where it takes a payload, its image is looked at first.
pub open spec fn creation_stage(p: PodmanPlanV) -> PodmanStage {
    if p.payload is Some {
        PodmanStage::ImageMode
    } else {
        PodmanStage::Create
    }
}

/// The step after Podman has answered a command that did not fail, or why the sandbox is refused.
pub open spec fn stage_answered(stage: PodmanStage, p: PodmanPlanV, r: ReplyV) -> Result<
    PodmanStage,
    Seq<char>,
> {
    match stage {
        PodmanStage::Rootless => if trimmed(r.output) == "true"@ {
            Ok(PodmanStage::Exists)
        } else {
            Err("Podman is not running rootless; refusing podman-workspace sandbox"@)
        },
        PodmanStage::Exists => if r.code == Some(0i32) {
            Ok(PodmanStage::LabelId)
        } else if r.code == Some(1i32) {
            Ok(PodmanStage::Resolve)
        } else {
            Err(podman_failure("container existence check"@, r))
        },
        PodmanStage::LabelId => Ok(PodmanStage::LabelPath { id_matches: trimmed(r.output) == p.id }),
        PodmanStage::LabelPath { id_matches } => if id_matches && trimmed(r.output) == p.workspace {
            Ok(PodmanStage::Running)
        } else {
            Err(foreign_container(p))
        },
        PodmanStage::Resolve => Ok(creation_stage(p)),
        PodmanStage::ImageMode => if trimmed(r.output) == "readonly-host-bind"@ {
            Ok(PodmanStage::Create)
        } else {
            Err("Podman image does not take a read-only payload: "@ + p.image)
        },
        PodmanStage::Create => Ok(PodmanStage::Running),
        PodmanStage::Running => if trimmed(r.output) == "true"@ {
            Ok(PodmanStage::Ready)
        } else {
            Ok(PodmanStage::Start)
        },
        PodmanStage::Start => Ok(PodmanStage::Ready),
        PodmanStage::Ready => Ok(PodmanStage::Ready),
    }
}

fn name_action(stage: PodmanStage) -> (r: Option<&'static str>)
    ensures
        crate::text::opt_str(r) == stage_action(stage),
{
    match stage {
        PodmanStage::Rootless => Some("rootless verification"),
        PodmanStage::Exists => None,
        PodmanStage::LabelId => Some("container inspection"),
        PodmanStage::LabelPath { .. } => Some("container inspection"),
        PodmanStage::Resolve => None,
        PodmanStage::ImageMode => Some("image inspection"),
        PodmanStage::Create => Some("container creation"),
        PodmanStage::Running => Some("container inspection"),
        PodmanStage::Start => Some("container start"),
        PodmanStage::Ready => None,
    }
}

fn tell_failure(action: &str, reply: &PodmanReply) -> (r: String)
    ensures
        r@ == podman_failure(action@, reply@),
{
    let words: String = trim_text(reply.words.as_str());
    let mut e: String = cat3("Podman ", action, " failed (status ");
    e.append(reply.status.as_str());
    e.append("): ");
    e.append(words.as_str());
    e
}

fn inspection(container: &str, format: &str) -> (r: Vec<String>)
    ensures
        texts(r@) == inspect_args(container@, format@),
{
    let mut v: Vec<String> = Vec::new();
    push3(&mut v, "container", "inspect", "--format");
    push2(&mut v, format, container);
    assert(texts(v@) =~= inspect_args(container@, format@));
    v
}

impl PodmanPlan {
    /// What Podman is asked in a step.
    pub fn args_for(&self, stage: PodmanStage) -> (r: Vec<String>)
        ensures
            texts(r@) == stage_args(stage, self@),
    {
        let name: String = cat("hcs-", self.id.as_str());
        let mut v: Vec<String> = Vec::new();
        match stage {
            PodmanStage::Rootless => {
                push3(&mut v, "info", "--format", "{{.Host.Security.Rootless}}");
            },
            PodmanStage::Exists => {
                push3(&mut v, "container", "exists", name.as_str());
            },
            PodmanStage::LabelId => {
                return inspection(
                    name.as_str(),
                    "{{ index .Config.Labels \"io.hcom.workspace\" }}",
                );
            },
            PodmanStage::LabelPath { .. } => {
                return inspection(
                    name.as_str(),
                    "{{ index .Config.Labels \"io.hcom.workspace-path\" }}",
                );
            },
            PodmanStage::Resolve => {},
            PodmanStage::ImageMode => {
                push3(&mut v, "image", "inspect", "--format");
                push2(
                    &mut v,
                    "{{ index .Config.Labels \"io.hcom.payload-mode\" }}",
                    self.image.as_str(),
                );
            },
            PodmanStage::Create => {
                return self.create_args();
            },
            PodmanStage::Running => {
                return inspection(name.as_str(), "{{.State.Running}}");
            },
            PodmanStage::Start => {
                push2(&mut v, "start", name.as_str());
            },
            PodmanStage::Ready => {},
        }
        assert(texts(v@) =~= stage_args(stage, self@));
        v
    }

    /// The step after Podman has answered, or why the sandbox is refused.
    pub fn next_stage(&self, stage: PodmanStage, reply: &PodmanReply) -> (r: Result<
        PodmanStage,
        String,
    >)
        ensures
            match r {
                Ok(s) => stage_after(stage, self@, reply@) == Ok::<PodmanStage, Seq<char>>(s),
                Err(e) => stage_after(stage, self@, reply@) == Err::<PodmanStage, Seq<char>>(e@),
            },
    {
        if let Some(action) = name_action(stage) {
            match reply.code {
                Some(0) => {},
                _ => {
                    return Err(tell_failure(action, reply));
                },
            }
        }
        let output: String = trim_text(reply.output.as_str());
        match stage {
            PodmanStage::Rootless => {
                if same(output.as_str(), "true") {
                    Ok(PodmanStage::Exists)
                } else {
                    Err(
                        "Podman is not running rootless; refusing podman-workspace sandbox".to_owned(),
                    )
                }
            },
            PodmanStage::Exists => match reply.code {
                Some(0) => Ok(PodmanStage::LabelId),
                Some(1) => Ok(PodmanStage::Resolve),
                _ => Err(tell_failure("container existence check", reply)),
            },
            PodmanStage::LabelId => Ok(
                PodmanStage::LabelPath { id_matches: same(output.as_str(), self.id.as_str()) },
            ),
            PodmanStage::LabelPath { id_matches } => {
                if id_matches && same(output.as_str(), self.workspace.as_str()) {
                    Ok(PodmanStage::Running)
                } else {
                    let name: String = cat("hcs-", self.id.as_str());
                    Err(
                        cat3(
                            "Existing container ",
                            name.as_str(),
                            " does not match workspace identity",
                        ),
                    )
                }
            },
            PodmanStage::Resolve => if self.payload.is_some() {
                Ok(PodmanStage::ImageMode)
            } else {
                Ok(PodmanStage::Create)
            },
            PodmanStage::ImageMode => {
                if same(output.as_str(), "readonly-host-bind") {
                    Ok(PodmanStage::Create)
                } else {
                    Err(
                        cat(
                            "Podman image does not take a read-only payload: ",
                            self.image.as_str(),
                        ),
                    )
                }
            },
            PodmanStage::Create => Ok(PodmanStage::Running),
            PodmanStage::Running => {
                if same(output.as_str(), "true") {
                    Ok(PodmanStage::Ready)
                } else {
                    Ok(PodmanStage::Start)
                }
            },
            PodmanStage::Start => Ok(PodmanStage::Ready),
            PodmanStage::Ready => Ok(PodmanStage::Ready),
        }
    }
}

/// How far a container has come through a series of answers.
pub open spec fn stage_run(p: PodmanPlanV, replies: Seq<ReplyV>) -> Result<PodmanStage, Seq<char>>
    decreases replies.len(),
{
    if replies.len() == 0 {
        Ok(PodmanStage::Rootless)
    } else {
        match stage_run(p, replies.drop_last()) {
            Err(e) => Err(e),
            Ok(stage) => stage_after(stage, p, replies.last()),
        }
    }
}

/// Nothing is asked of a Podman that is not rootless beyond whether it is: every later step has
/// seen it say so.
pub proof fn rootless_comes_first(p: PodmanPlanV, replies: Seq<ReplyV>)
    requires
        stage_run(p, replies) matches Ok(stage) && stage != PodmanStage::Rootless,
    ensures
        replies.len() > 0,
        replies[0].code == Some(0i32),
        trimmed(replies[0].output) == "true"@,
    decreases replies.len(),
{
    let before = replies.drop_last();
    if stage_run(p, before) == Ok::<PodmanStage, Seq<char>>(PodmanStage::Rootless) {
        lemma_rootless_start(p, before);
        assert(replies[0] == replies.last());
    } else {
        rootless_comes_first(p, before);
        assert(replies[0] == before[0]);
    }
}

proof fn lemma_rootless_start(p: PodmanPlanV, replies: Seq<ReplyV>)
    requires
        stage_run(p, replies) == Ok::<PodmanStage, Seq<char>>(PodmanStage::Rootless),
    ensures
        replies.len() == 0,
{
}

/// A container that exists is used only where both of its labels name this workspace: the step
/// after the labels is reached from a matching id and a matching path alone.
pub proof fn foreign_containers_are_refused(p: PodmanPlanV, id_reply: ReplyV, path_reply: ReplyV)
    ensures
        (stage_after(PodmanStage::LabelId, p, id_reply) matches Ok(next) && stage_after(
            next,
            p,
            path_reply,
        ) == Ok::<PodmanStage, Seq<char>>(PodmanStage::Running)) ==> id_reply.code == Some(0i32)
            && path_reply.code == Some(0i32) && trimmed(id_reply.output) == p.id && trimmed(
            path_reply.output,
        ) == p.workspace,
{
}

/// The last name of a path: the last of its parts between slashes that is neither empty nor a
/// single dot; the first part where there is none.
pub open spec fn last_name(s: Seq<char>) -> Seq<char>
    decreases s.len(),
{
    let part = last_part(s);
    if s.len() > part.len() && (part.len() == 0 || part == "."@) {
        last_name(s.take(s.len() - part.len() - 1))
    } else {
        part
    }
}

/// What follows the last slash of a path.
pub open spec fn last_part(s: Seq<char>) -> Seq<char>
    decreases s.len(),
{
    if s.len() == 0 || s.last() == '/' {
        Seq::empty()
    } else {
        last_part(s.drop_last()).push(s.last())
    }
}

fn part_start(v: &Vec<char>, end: usize) -> (r: usize)
    requires
        end <= v@.len(),
    ensures
        r <= end,
        v@.subrange(r as int, end as int) == last_part(v@.take(end as int)),
        r > 0 ==> v@[r - 1] == '/',
{
    let ghost s = v@.take(end as int);
    let mut k: usize = end;
    assert(v@.subrange(end as int, end as int) =~= Seq::<char>::empty());
    assert(v@.take(end as int).len() == end);
    while k > 0 && v[k - 1] != '/'
        invariant
            k <= end <= v@.len(),
            s == v@.take(end as int),
            last_part(s) == last_part(v@.take(k as int)) + v@.subrange(k as int, end as int),
        decreases k,
    {
        proof {
            let t = v@.take(k as int);
            assert(t.drop_last() =~= v@.take(k - 1));
            assert(t.last() == v@[k - 1]);
            assert(last_part(t) == last_part(v@.take(k - 1)).push(v@[k - 1]));
            assert(last_part(t) + v@.subrange(k as int, end as int) =~= last_part(v@.take(k - 1))
                + v@.subrange(k - 1, end as int));
        }
        k = k - 1;
    }
    proof {
        let t = v@.take(k as int);
        if k > 0 {
            assert(t.last() == '/');
        }
        assert(last_part(t) =~= Seq::<char>::empty());
        assert(last_part(s) =~= v@.subrange(k as int, end as int));
    }
    k
}

/// The last name of a path.
pub fn path_name(path: &str) -> (r: String)
    ensures
        r@ == last_name(path@),
{
    let v: Vec<char> = chars_of(path);
    let mut end: usize = v.len();
    assert(v@.take(end as int) =~= v@);
    loop
        invariant
            end <= v@.len(),
            v@ == path@,
            last_name(path@) == last_name(v@.take(end as int)),
        decreases end,
    {
        let from: usize = part_start(&v, end);
        let part: String = text_of(&v, from, end);
        proof {
            assert(v@.take(end as int).len() == end);
            assert(last_part(v@.take(end as int)).len() == end - from);
        }
        if from > 0 && (from == end || same(part.as_str(), ".")) {
            proof {
                assert(v@.take(end as int).take(from - 1) =~= v@.take(from - 1));
            }
            end = from - 1;
        } else {
            return part;
        }
    }
}

/// The command that stands for a worker inside the container.
pub open spec fn container_command(command: Seq<char>) -> Seq<char> {
    if last_name(command) == "pi"@ {
        "/usr/local/bin/pi-container-entry"@
    } else if last_name(command) == "hcom"@ {
        "/usr/local/bin/hcom"@
    } else {
        command
    }
}

/// The arguments that run a worker in the container of its workspace.
pub open spec fn exec_args(p: PodmanPlanV, terminal: bool, command: Seq<char>, args: Seq<Seq<char>>) -> Seq<
    Seq<char>,
> {
    let head = seq!["exec"@, "--interactive"@];
    let tty = if terminal {
        seq!["--tty"@]
    } else {
        Seq::empty()
    };
    head + tty + seq![
        "--workdir"@,
        p.workspace,
        "--env"@,
        "HOME=/home/pi"@,
        "--env"@,
        "PI_CODING_AGENT_DIR="@ + p.pi_state,
        "--env"@,
        "HCOM_CLIENT_DIR="@ + p.client_state,
        "--env"@,
        "HCOM_DIR="@ + p.client_state,
        "--env"@,
        "HCOM_WORKER_SANDBOX=podman-workspace"@,
        "--env"@,
        "HCOM_WORKER_SANDBOX_ROOT="@ + p.workspace,
        "--env"@,
        "HCOM_PROCESS_ID"@,
        "--env"@,
        "HCOM_LAUNCHED"@,
        "--env"@,
        "HCOM_TAG"@,
        "--env"@,
        "HCOM_BROKER_SOCKET"@,
        "--env"@,
        "HCOM_BROKER_TOKEN_FILE"@,
        "--env"@,
        "AGENTMEMORY_SOCKET"@,
        "--env"@,
        "ANYSEARCH_SOCKET"@,
        "--env"@,
        "MMX_SOCKET"@,
        "--env"@,
        "FLOWUS_SOCKET"@,
        container_name(p.id),
        container_command(command),
    ] + args
}

/// Appends all texts of a list.
pub fn push_all(v: &mut Vec<String>, more: &Vec<String>)
    ensures
        texts(final(v)@) == texts(old(v)@) + texts(more@),
{
    let ghost start = texts(v@);
    let mut i: usize = 0;
    assert(texts(v@) =~= start + texts(more@).take(0));
    while i < more.len()
        invariant
            i <= more@.len(),
            texts(v@) == start + texts(more@).take(i as int),
        decreases more.len() - i,
    {
        push1(v, more[i].as_str());
        assert(texts(v@) =~= start + texts(more@).take(i as int + 1));
        i += 1;
    }
    assert(texts(more@).take(more@.len() as int) =~= texts(more@));
}

impl PodmanPlan {
    /// The arguments that run a worker in the container of the workspace, at a terminal or not.
    pub fn exec_args(&self, terminal: bool, command: &str, args: &Vec<String>) -> (r: Vec<String>)
        ensures
            texts(r@) == exec_args(self@, terminal, command@, texts(args@)),
    {
        let mut v: Vec<String> = Vec::new();
        push2(&mut v, "exec", "--interactive");
        if terminal {
            push1(&mut v, "--tty");
        }
        push2(&mut v, "--workdir", self.workspace.as_str());
        push2(&mut v, "--env", "HOME=/home/pi");
        let pi: String = cat("PI_CODING_AGENT_DIR=", self.pi_state.as_str());
        push2(&mut v, "--env", pi.as_str());
        let client: String = cat("HCOM_CLIENT_DIR=", self.client_state.as_str());
        push2(&mut v, "--env", client.as_str());
        let dir: String = cat("HCOM_DIR=", self.client_state.as_str());
        push2(&mut v, "--env", dir.as_str());
        push2(&mut v, "--env", "HCOM_WORKER_SANDBOX=podman-workspace");
        let root: String = cat("HCOM_WORKER_SANDBOX_ROOT=", self.workspace.as_str());
        push2(&mut v, "--env", root.as_str());
        push2(&mut v, "--env", "HCOM_PROCESS_ID");
        push2(&mut v, "--env", "HCOM_LAUNCHED");
        push2(&mut v, "--env", "HCOM_TAG");
        push2(&mut v, "--env", "HCOM_BROKER_SOCKET");
        push2(&mut v, "--env", "HCOM_BROKER_TOKEN_FILE");
        push2(&mut v, "--env", "AGENTMEMORY_SOCKET");
        push2(&mut v, "--env", "ANYSEARCH_SOCKET");
        push2(&mut v, "--env", "MMX_SOCKET");
        push2(&mut v, "--env", "FLOWUS_SOCKET");
        let name: String = cat("hcs-", self.id.as_str());
        let last: String = path_name(command);
        let inner: &str = if same(last.as_str(), "pi") {
            "/usr/local/bin/pi-container-entry"
        } else if same(last.as_str(), "hcom") {
            "/usr/local/bin/hcom"
        } else {
            command
        };
        push2(&mut v, name.as_str(), inner);
        push_all(&mut v, args);
        assert(texts(v@) =~= exec_args(self@, terminal, command@, texts(args@)));
        v
    }
}

/// The directory of every bridge is shown, in their order; a socket that is not there, or is no
/// absolute path, is refused by the name of its setting.
pub proof fn bridges_are_shown_in_order(probes: Vec<PathProbe>, r: Result<Vec<String>, String>, i: int)
    requires
        call_ensures(read_bridges, (&probes,), r),
        0 <= i < probes@.len(),
    ensures
        r matches Ok(v) ==> v@.len() == probes@.len() && probes@[i].absolute && probes@[i].exists && opt_text(probes@[i].parent) == Some(v@[i]@),
        (forall|k: int| 0 <= k < probes@.len() ==> (#[trigger] probes@[k]).absolute && probes@[k].exists && probes@[k].parent is Some) ==> r is Ok,
        (!probes@[i].absolute || !probes@[i].exists) && (forall|k: int| 0 <= k < i ==> (#[trigger] probes@[k]).absolute && probes@[k].exists && probes@[k].parent is Some) ==> (r matches Err(e) && e@ == probes@[i].setting@ + " must be an existing absolute path"@),
{
    let ps = crate::rows::views(probes@);
    let n = probes@.len() as int;
    assert(ps[i] == probes@[i]@);
    assert forall|k: int| 0 <= k < n implies #[trigger] ps[k] == probes@[k]@ by {}
    lemma_bridge_dirs(ps, n, i);
    if r is Ok {
        assert(texts(r->Ok_0@)[i] == r->Ok_0@[i]@);
    }
    if forall|k: int| 0 <= k < n ==> (#[trigger] probes@[k]).absolute && probes@[k].exists && probes@[k].parent is Some {
        assert forall|k: int| 0 <= k < n implies (#[trigger] ps[k]).absolute && ps[k].exists && ps[k].parent is Some by {
            assert(probes@[k].absolute);
        }
        lemma_bridge_dirs_given(ps, n);
    }
    if (!probes@[i].absolute || !probes@[i].exists) && (forall|k: int| 0 <= k < i ==> (#[trigger] probes@[k]).absolute && probes@[k].exists && probes@[k].parent is Some) {
        assert forall|k: int| 0 <= k < i implies (#[trigger] ps[k]).absolute && ps[k].exists && ps[k].parent is Some by {
            assert(probes@[k].absolute);
        }
        lemma_bridge_dirs_given(ps, i);
        lemma_bridge_dirs_fail(ps, i + 1, n, probes@[i].setting@ + " must be an existing absolute path"@);
    }
}

proof fn lemma_bridge_dirs(ps: Seq<ProbeV>, n: int, i: int)
    requires
        0 <= i < n <= ps.len(),
    ensures
        bridge_dirs(ps, n) matches Ok(s) ==> s.len() == n && bridge_dir(ps[i]) == Ok::<Seq<char>, Seq<char>>(s[i]),
    decreases n,
{
    if i < n - 1 {
        lemma_bridge_dirs(ps, n - 1, i);
    } else if n > 1 {
        lemma_bridge_dirs(ps, n - 1, 0);
    } else {
        assert(bridge_dirs(ps, 0) matches Ok(s) && s.len() == 0);
    }
}

proof fn lemma_bridge_dirs_given(ps: Seq<ProbeV>, n: int)
    requires
        0 <= n <= ps.len(),
        forall|k: int| 0 <= k < n ==> (#[trigger] ps[k]).absolute && ps[k].exists && ps[k].parent is Some,
    ensures
        bridge_dirs(ps, n) is Ok,
    decreases n,
{
    if n > 0 {
        lemma_bridge_dirs_given(ps, n - 1);
    }
}

/// The broker is shown where its socket and its token lie in one directory; half a broker is refused,
/// and so is one that is not there.
pub proof fn brokers_are_shown_whole(socket: Option<&PathProbe>, token: Option<&PathProbe>, r: Result<Option<String>, String>)
    requires
        call_ensures(read_broker, (socket, token), r),
    ensures
        socket is None && token is None ==> r matches Ok(None),
        (socket is None) != (token is None) ==> (r matches Err(e) && e@ == "broker socket and token must be configured together"@),
        socket is Some && token is Some && (!socket->0.absolute || !socket->0.exists) ==> (r matches Err(e) && e@ == "HCOM_BROKER_SOCKET must be an existing absolute path"@),
        socket is Some && token is Some && socket->0.absolute && socket->0.exists && (!token->0.absolute || !token->0.exists) ==> (r matches Err(e) && e@ == "HCOM_BROKER_TOKEN_FILE must be an existing absolute file"@),
        socket is Some && token is Some && socket->0.absolute && socket->0.exists && token->0.absolute && token->0.exists && socket->0.parent is Some ==> match r {
            Ok(o) => opt_text(o) == Some(socket->0.parent->0@) && opt_text(token->0.parent) == Some(socket->0.parent->0@),
            Err(e) => opt_text(token->0.parent) != Some(socket->0.parent->0@) && e@ == "broker socket and token must share a directory"@,
        },
{
}

/// A new container is pinned to the current payload where a payload root is configured, and to none
/// where none is; a root without a payload is refused.
pub proof fn payloads_are_the_current_ones(root: Option<&str>, current: Option<&str>, r: Result<Option<String>, String>)
    requires
        call_ensures(read_payload, (root, current), r),
    ensures
        root is None ==> r matches Ok(None),
        root is Some && current is Some ==> (r matches Ok(Some(d)) && d@ == current->0@),
        root is Some && current is None ==> (r matches Err(e) && e@ == "Podman payload root has no current payload: "@ + root->0@),
{
}

/// What a new container is shown is what was found; the rest of its plan stays as it is.
pub proof fn plans_take_what_was_found(plan: PodmanPlan, s: Surroundings, r: Result<PodmanPlan, String>, bridges: Result<Vec<String>, String>)
    requires
        call_ensures(PodmanPlan::resolve, (plan, &s), r),
        call_ensures(read_bridges, (&s.bridges,), bridges),
    ensures
        bridges matches Err(e) ==> (r matches Err(w) && w@ == e@),
        r matches Ok(p) ==> bridges is Ok && texts(p.bridges@) == texts(bridges->Ok_0@),
        r matches Ok(p) ==> p.workspace@ == plan.workspace@ && p.id@ == plan.id@ && p.image@ == plan.image@,
        r matches Ok(p) ==> p.pi_state@ == plan.pi_state@ && p.cache_state@ == plan.cache_state@ && p.client_state@ == plan.client_state@,
        r matches Ok(p) ==> p.pids_limit@ == plan.pids_limit@ && p.memory@ == plan.memory@ && p.cpus@ == plan.cpus@,
        r matches Ok(p) ==> opt_text(p.payload) == (if s.payload_root is Some { opt_text(s.payload_current) } else { None }),
        r matches Ok(p) ==> opt_text(p.broker) == (match s.broker_socket { Some(b) => opt_text(b.parent), None => None }),
        bridges is Ok && s.broker_socket is None && s.broker_token is None && (s.payload_root is None || s.payload_current is Some) ==> r is Ok,
{
}

/// What Podman is asked of a container, it is asked by the name of the container.
pub proof fn containers_are_asked_for_by_name(plan: PodmanPlan, stage: PodmanStage, r: Vec<String>, made: Vec<String>)
    requires
        call_ensures(PodmanPlan::args_for, (&plan, stage), r),
        call_ensures(PodmanPlan::create_args, (&plan,), made),
    ensures
        stage == PodmanStage::Rootless ==> texts(r@) == seq!["info"@, "--format"@, "{{.Host.Security.Rootless}}"@],
        stage == PodmanStage::Exists ==> texts(r@) == seq!["container"@, "exists"@, "hcs-"@ + plan.id@],
        stage == PodmanStage::LabelId ==> texts(r@) == seq!["container"@, "inspect"@, "--format"@, "{{ index .Config.Labels \"io.hcom.workspace\" }}"@, "hcs-"@ + plan.id@],
        stage is LabelPath ==> texts(r@) == seq!["container"@, "inspect"@, "--format"@, "{{ index .Config.Labels \"io.hcom.workspace-path\" }}"@, "hcs-"@ + plan.id@],
        stage == PodmanStage::ImageMode ==> texts(r@) == seq!["image"@, "inspect"@, "--format"@, "{{ index .Config.Labels \"io.hcom.payload-mode\" }}"@, plan.image@],
        stage == PodmanStage::Create ==> texts(r@) == texts(made@),
        stage == PodmanStage::Running ==> texts(r@) == seq!["container"@, "inspect"@, "--format"@, "{{.State.Running}}"@, "hcs-"@ + plan.id@],
        stage == PodmanStage::Start ==> texts(r@) == seq!["start"@, "hcs-"@ + plan.id@],
{
}

/// A container that is there is looked at and never made anew; one that is not is made, after its
/// image is looked at where it takes a payload; and either is started unless it runs.
pub proof fn containers_are_brought_up(plan: PodmanPlan, stage: PodmanStage, reply: PodmanReply, r: Result<PodmanStage, String>)
    requires
        call_ensures(PodmanPlan::next_stage, (&plan, stage, &reply), r),
    ensures
        stage == PodmanStage::Rootless && reply.code == Some(0i32) ==> (r == Ok::<PodmanStage, String>(PodmanStage::Exists)) == (trimmed(reply.output@) == "true"@),
        stage == PodmanStage::Rootless && reply.code == Some(0i32) && trimmed(reply.output@) != "true"@ ==> (r matches Err(e) && e@ == "Podman is not running rootless; refusing podman-workspace sandbox"@),
        stage == PodmanStage::Exists && reply.code == Some(0i32) ==> r == Ok::<PodmanStage, String>(PodmanStage::LabelId),
        stage == PodmanStage::Exists && reply.code == Some(1i32) ==> r == Ok::<PodmanStage, String>(PodmanStage::Resolve),
        stage == PodmanStage::Exists && reply.code != Some(0i32) && reply.code != Some(1i32) ==> r is Err,
        stage is LabelPath && stage->id_matches && reply.code == Some(0i32) && trimmed(reply.output@) == plan.workspace@ ==> r == Ok::<PodmanStage, String>(PodmanStage::Running),
        stage is LabelPath && reply.code == Some(0i32) && (!stage->id_matches || trimmed(reply.output@) != plan.workspace@) ==> (r matches Err(e) && e@ == "Existing container "@ + ("hcs-"@ + plan.id@) + " does not match workspace identity"@),
        stage == PodmanStage::LabelId && reply.code == Some(0i32) ==> (r matches Ok(s) && s == (PodmanStage::LabelPath { id_matches: trimmed(reply.output@) == plan.id@ })),
        stage == PodmanStage::Resolve ==> r == Ok::<PodmanStage, String>(if plan.payload is Some { PodmanStage::ImageMode } else { PodmanStage::Create }),
        stage == PodmanStage::ImageMode && reply.code == Some(0i32) && trimmed(reply.output@) == "readonly-host-bind"@ ==> r == Ok::<PodmanStage, String>(PodmanStage::Create),
        stage == PodmanStage::ImageMode && reply.code == Some(0i32) && trimmed(reply.output@) != "readonly-host-bind"@ ==> (r matches Err(e) && e@ == "Podman image does not take a read-only payload: "@ + plan.image@),
        stage == PodmanStage::Create && reply.code == Some(0i32) ==> r == Ok::<PodmanStage, String>(PodmanStage::Running),
        stage == PodmanStage::Running && reply.code == Some(0i32) ==> r == Ok::<PodmanStage, String>(if trimmed(reply.output@) == "true"@ { PodmanStage::Ready } else { PodmanStage::Start }),
        stage == PodmanStage::Start && reply.code == Some(0i32) ==> r == Ok::<PodmanStage, String>(PodmanStage::Ready),
{
}

/// A step that Podman fails at ends the attempt, and what failed is told with Podman's own words.
pub proof fn failed_steps_are_told(plan: PodmanPlan, stage: PodmanStage, reply: PodmanReply, r: Result<PodmanStage, String>)
    requires
        call_ensures(PodmanPlan::next_stage, (&plan, stage, &reply), r),
        reply.code != Some(0i32),
    ensures
        stage == PodmanStage::Rootless ==> (r matches Err(e) && e@ == "Podman "@ + "rootless verification"@ + " failed (status "@ + reply.status@ + "): "@ + trimmed(reply.words@)),
        stage == PodmanStage::Exists && reply.code != Some(1i32) ==> (r matches Err(e) && e@ == "Podman "@ + "container existence check"@ + " failed (status "@ + reply.status@ + "): "@ + trimmed(reply.words@)),
        stage == PodmanStage::LabelId || stage is LabelPath || stage == PodmanStage::Running ==> (r matches Err(e) && e@ == "Podman "@ + "container inspection"@ + " failed (status "@ + reply.status@ + "): "@ + trimmed(reply.words@)),
        stage == PodmanStage::ImageMode ==> (r matches Err(e) && e@ == "Podman "@ + "image inspection"@ + " failed (status "@ + reply.status@ + "): "@ + trimmed(reply.words@)),
        stage == PodmanStage::Create ==> (r matches Err(e) && e@ == "Podman "@ + "container creation"@ + " failed (status "@ + reply.status@ + "): "@ + trimmed(reply.words@)),
        stage == PodmanStage::Start ==> (r matches Err(e) && e@ == "Podman "@ + "container start"@ + " failed (status "@ + reply.status@ + "): "@ + trimmed(reply.words@)),
{
}

/// The last name of a path is what follows its last slash.
pub proof fn paths_end_in_their_name(path: &str, dir: Seq<char>, name: Seq<char>, r: String)
    requires
        call_ensures(path_name, (path,), r),
        path@ == dir + "/"@ + name || path@ == name,
        name.len() > 0,
        name != "."@,
        forall|i: int| 0 <= i < name.len() ==> #[trigger] name[i] != '/',
    ensures
        r@ == name,
{
    reveal_strlit("/");
    if path@ == name {
        assert(name =~= Seq::<char>::empty() + name);
        lemma_last_part(Seq::empty(), name);
    } else {
        lemma_last_part(dir + "/"@, name);
    }
}

proof fn lemma_last_part(head: Seq<char>, name: Seq<char>)
    requires
        head.len() == 0 || head.last() == '/',
        forall|i: int| 0 <= i < name.len() ==> #[trigger] name[i] != '/',
    ensures
        last_part(head + name) == name,
    decreases name.len(),
{
    if name.len() > 0 {
        assert((head + name).drop_last() =~= head + name.drop_last());
        lemma_last_part(head, name.drop_last());
        assert(name =~= name.drop_last().push(name.last()));
    } else {
        assert(head + name =~= head);
    }
}

/// A worker runs in the container of its workspace, at a terminal where it has one, in the workspace,
/// and with its arguments as they are; the agent and this program are run by their names there.
pub proof fn workers_run_in_their_container(plan: PodmanPlan, terminal: bool, command: &str, args: Vec<String>, r: Vec<String>, name: String)
    requires
        call_ensures(PodmanPlan::exec_args, (&plan, terminal, command, &args), r),
        call_ensures(path_name, (command,), name),
    ensures
        texts(r@).take(2) == seq!["exec"@, "--interactive"@],
        (r@[2]@ == "--tty"@) == terminal,
        holds_part(texts(r@), r@.len() - args@.len() - 2, seq!["--workdir"@, plan.workspace@]),
        r@[r@.len() - args@.len() - 2]@ == "hcs-"@ + plan.id@,
        r@[r@.len() - args@.len() - 1]@ == (if name@ == "pi"@ { "/usr/local/bin/pi-container-entry"@ } else if name@ == "hcom"@ { "/usr/local/bin/hcom"@ } else { command@ }),
        texts(r@).skip(r@.len() - args@.len()) == texts(args@),
        r@.len() == args@.len() + (if terminal { 37int } else { 36int }),
{
    let p = plan@;
    let a = texts(r@);
    let n = a.len() - args@.len() - 2;
    let at: int = if terminal { 3 } else { 2 };
    reveal_strlit("--tty");
    reveal_strlit("--workdir");
    assert("--tty"@.len() == 5 && "--workdir"@.len() == 9);
    assert(a[2] == r@[2]@);
    assert(a[n] == r@[n]@ && a[n + 1] == r@[n + 1]@);
    lemma_holds_part(a, n, seq!["--workdir"@, p.workspace], at);
    assert(a.take(2) =~= seq!["exec"@, "--interactive"@]);
    assert(a.skip(n + 2) =~= texts(args@));
}

/// A worker in a container finds its home, its agent directory, its client directory, the sandbox and
/// its workspace in its environment, and what its client was started with is passed on to it.
pub proof fn contained_workers_know_their_place(plan: PodmanPlan, terminal: bool, command: &str, args: Vec<String>, r: Vec<String>)
    requires
        call_ensures(PodmanPlan::exec_args, (&plan, terminal, command, &args), r),
    ensures
        holds_part(texts(r@), r@.len() - args@.len() - 2, seq!["--env"@, "HOME=/home/pi"@]),
        holds_part(texts(r@), r@.len() - args@.len() - 2, seq!["--env"@, "PI_CODING_AGENT_DIR="@ + plan.pi_state@]),
        holds_part(texts(r@), r@.len() - args@.len() - 2, seq!["--env"@, "HCOM_CLIENT_DIR="@ + plan.client_state@]),
        holds_part(texts(r@), r@.len() - args@.len() - 2, seq!["--env"@, "HCOM_DIR="@ + plan.client_state@]),
        holds_part(texts(r@), r@.len() - args@.len() - 2, seq!["--env"@, "HCOM_WORKER_SANDBOX=podman-workspace"@]),
        holds_part(texts(r@), r@.len() - args@.len() - 2, seq!["--env"@, "HCOM_WORKER_SANDBOX_ROOT="@ + plan.workspace@]),
        holds_part(texts(r@), r@.len() - args@.len() - 2, seq!["--env"@, "HCOM_PROCESS_ID"@]),
        holds_part(texts(r@), r@.len() - args@.len() - 2, seq!["--env"@, "HCOM_LAUNCHED"@]),
        holds_part(texts(r@), r@.len() - args@.len() - 2, seq!["--env"@, "HCOM_TAG"@]),
        holds_part(texts(r@), r@.len() - args@.len() - 2, seq!["--env"@, "HCOM_BROKER_SOCKET"@]),
        holds_part(texts(r@), r@.len() - args@.len() - 2, seq!["--env"@, "HCOM_BROKER_TOKEN_FILE"@]),
        holds_part(texts(r@), r@.len() - args@.len() - 2, seq!["--env"@, "AGENTMEMORY_SOCKET"@]),
        holds_part(texts(r@), r@.len() - args@.len() - 2, seq!["--env"@, "ANYSEARCH_SOCKET"@]),
        holds_part(texts(r@), r@.len() - args@.len() - 2, seq!["--env"@, "MMX_SOCKET"@]),
        holds_part(texts(r@), r@.len() - args@.len() - 2, seq!["--env"@, "FLOWUS_SOCKET"@]),
{
    let p = plan@;
    let a = texts(r@);
    let n = a.len() - args@.len() - 2;
    let at: int = if terminal { 3 } else { 2 };
    lemma_holds_part(a, n, seq!["--env"@, "HOME=/home/pi"@], at + 2);
    lemma_holds_part(a, n, seq!["--env"@, "PI_CODING_AGENT_DIR="@ + p.pi_state], at + 4);
    lemma_holds_part(a, n, seq!["--env"@, "HCOM_CLIENT_DIR="@ + p.client_state], at + 6);
    lemma_holds_part(a, n, seq!["--env"@, "HCOM_DIR="@ + p.client_state], at + 8);
    lemma_holds_part(a, n, seq!["--env"@, "HCOM_WORKER_SANDBOX=podman-workspace"@], at + 10);
    lemma_holds_part(a, n, seq!["--env"@, "HCOM_WORKER_SANDBOX_ROOT="@ + p.workspace], at + 12);
    lemma_holds_part(a, n, seq!["--env"@, "HCOM_PROCESS_ID"@], at + 14);
    lemma_holds_part(a, n, seq!["--env"@, "HCOM_LAUNCHED"@], at + 16);
    lemma_holds_part(a, n, seq!["--env"@, "HCOM_TAG"@], at + 18);
    lemma_holds_part(a, n, seq!["--env"@, "HCOM_BROKER_SOCKET"@], at + 20);
    lemma_holds_part(a, n, seq!["--env"@, "HCOM_BROKER_TOKEN_FILE"@], at + 22);
    lemma_holds_part(a, n, seq!["--env"@, "AGENTMEMORY_SOCKET"@], at + 24);
    lemma_holds_part(a, n, seq!["--env"@, "ANYSEARCH_SOCKET"@], at + 26);
    lemma_holds_part(a, n, seq!["--env"@, "MMX_SOCKET"@], at + 28);
    lemma_holds_part(a, n, seq!["--env"@, "FLOWUS_SOCKET"@], at + 30);
}

/// A socket that has no directory to show is refused.
pub proof fn sockets_need_a_directory(probe: PathProbe, probes: Vec<PathProbe>, r: Result<Vec<String>, String>, token: PathProbe, b: Result<Option<String>, String>)
    requires
        probe.absolute && probe.exists && probe.parent is None,
        probes@ == seq![probe],
        call_ensures(read_bridges, (&probes,), r),
        token.absolute && token.exists,
        call_ensures(read_broker, (Some(&probe), Some(&token)), b),
    ensures
        r matches Err(e) && e@ == "bridge socket has no parent"@,
        b matches Err(e) && e@ == "broker socket has no parent"@,
{
    let ps = crate::rows::views(probes@);
    assert(ps[0] == probe@);
    reveal_with_fuel(bridge_dirs, 2);
}

} // verus!
