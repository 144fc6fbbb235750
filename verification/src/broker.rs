//! The broker that runs commands for confined clients: what it serves, what it refuses, and how
//! frames are cut.

use crate::sandbox::within;
use crate::text::{
    cat, cat3, chars_of, copy_texts, decimal, decimal_text_u64, opt_str, opt_text, parse_unsigned, parse_up_to, same, same_opt,
    starts_with, text_of, texts,
};
use vstd::prelude::*;
use vstd::utf8::encode_utf8;

verus! {

broadcast use vstd::string::group_string_axioms;

/// The version of the broker protocol.
pub const PROTOCOL_VERSION: u32 = 1;

/// The most bytes that a request may have.
pub const MAX_REQUEST: usize = 1048576;

/// The most bytes that an output of a command may have.
pub const MAX_OUTPUT: usize = 16777216;

/// The most bytes that the header of a response may have.
pub const MAX_HEADER: usize = 65536;

/// The position of the command among arguments, after the options that come before it.
pub open spec fn command_pos(argv: Seq<Seq<char>>, i: int) -> int
    decreases
            if i < argv.len() {
                argv.len() - i
            } else {
                0
            },
{
    if i < 0 || i >= argv.len() {
        i
    } else if argv[i] == "--go"@ {
        command_pos(argv, i + 1)
    } else if argv[i] == "--name"@ {
        command_pos(argv, i + 2)
    } else {
        i
    }
}

/// The command among arguments.
pub open spec fn command_in(argv: Seq<Seq<char>>) -> Option<Seq<char>> {
    let i = command_pos(argv, 0);
    if 0 <= i < argv.len() {
        Some(argv[i])
    } else {
        None
    }
}

fn find_command(argv: &Vec<String>) -> (r: Option<&str>)
    ensures
        opt_str(r) == command_in(texts(argv@)),
{
    let ghost list = texts(argv@);
    let mut i: usize = 0;
    loop
        invariant_except_break
            i <= argv.len(),
            list == texts(argv@),
            command_pos(list, 0) == command_pos(list, i as int),
        ensures
            list == texts(argv@),
            i < argv.len() ==> command_pos(list, 0) == i,
            i >= argv.len() ==> command_in(list) is None,
        decreases argv.len() - i,
    {
        if i >= argv.len() {
            break;
        }
        assert(list[i as int] == argv@[i as int]@);
        if same(argv[i].as_str(), "--go") {
            i = i + 1;
        } else if same(argv[i].as_str(), "--name") {
            if argv.len() - i < 2 {
                assert(command_pos(list, i + 2) == i + 2);
                i = argv.len();
                break;
            }
            i = i + 2;
        } else {
            break;
        }
    }
    if i < argv.len() {
        Some(argv[i].as_str())
    } else {
        None
    }
}

/// Whether a command is one that the broker runs.
pub open spec fn is_served(command: Seq<char>) -> bool {
    command == "pi-start"@ || command == "pi-status"@ || command == "pi-read"@ || command
        == "pi-beforetool"@ || command == "pi-stop"@ || command == "send"@ || command == "list"@
        || command == "events"@ || command == "listen"@ || command == "status"@ || command
        == "start"@ || command == "stop"@ || command == "transcript"@ || command == "bundle"@
        || command == "kill"@ || command == "term"@
}

/// Whether the broker may run arguments: their command must be on the list of those it serves.
pub fn authorize(argv: &Vec<String>) -> (r: bool)
    ensures
        r == (command_in(texts(argv@)) matches Some(c) && is_served(c)),
{
    match find_command(argv) {
        None => false,
        Some(c) => same(c, "pi-start") || same(c, "pi-status") || same(c, "pi-read") || same(
            c,
            "pi-beforetool",
        ) || same(c, "pi-stop") || same(c, "send") || same(c, "list") || same(c, "events") || same(
            c,
            "listen",
        ) || same(c, "status") || same(c, "start") || same(c, "stop") || same(c, "transcript")
            || same(c, "bundle") || same(c, "kill") || same(c, "term"),
    }
}

/// Whether a command stays on this side of the broker: it launches something, or names a tool that
/// can be launched, or a number of them.
pub open spec fn stays_local(command: Seq<char>, tools: Seq<Seq<char>>) -> bool {
    command == "pty"@ || command == "launch"@ || command == "resume"@ || command == "fork"@
        || command == "r"@ || command == "f"@ || parse_unsigned(command, 0xffff_ffff) is Some
        || tools.contains(command)
}

/// Whether arguments stay on this side of the broker, given the tools that can be launched.
pub fn is_local_control_command(argv: &Vec<String>, released_tools: &Vec<String>) -> (r: bool)
    ensures
        r == match command_in(texts(argv@)) {
            None => true,
            Some(c) => stays_local(c, texts(released_tools@)),
        },
{
    match find_command(argv) {
        None => true,
        Some(c) => same(c, "pty") || same(c, "launch") || same(c, "resume") || same(c, "fork")
            || same(c, "r") || same(c, "f") || parse_up_to(c, 0xffff_ffff).is_some()
            || crate::text::holds_text(released_tools, c),
    }
}

/// No command that the broker runs stays on this side of it, unless a tool goes by its name.
pub proof fn served_commands_are_forwarded(command: Seq<char>, tools: Seq<Seq<char>>)
    requires
        is_served(command),
        !tools.contains(command),
    ensures
        !stays_local(command, tools),
{
    reveal_strlit("pi-start");
    reveal_strlit("pi-status");
    reveal_strlit("pi-read");
    reveal_strlit("pi-beforetool");
    reveal_strlit("pi-stop");
    reveal_strlit("send");
    reveal_strlit("list");
    reveal_strlit("events");
    reveal_strlit("listen");
    reveal_strlit("status");
    reveal_strlit("start");
    reveal_strlit("stop");
    reveal_strlit("transcript");
    reveal_strlit("bundle");
    reveal_strlit("kill");
    reveal_strlit("term");
    reveal_strlit("pty");
    reveal_strlit("launch");
    reveal_strlit("resume");
    reveal_strlit("fork");
    reveal_strlit("r");
    reveal_strlit("f");
    assert(!crate::text::is_digit(command[0]));
    assert(command[0] != '+');
}

/// Whether a request is sent to the broker: where one is configured, the process does not run on
/// its behalf, and the command does not stay on this side.
pub fn should_forward(
    direct: Option<&str>,
    argv: &Vec<String>,
    released_tools: &Vec<String>,
    socket: bool,
    token_file: bool,
) -> (r: bool)
    ensures
        r == (opt_str(direct) != Some("1"@) && socket && token_file && (command_in(
            texts(argv@),
        ) matches Some(c) && !stays_local(c, texts(released_tools@)))),
{
    !same_opt(direct, "1") && !is_local_control_command(argv, released_tools) && socket && token_file
}

/// The position of the first argument that is a flag.
pub open spec fn flag_at(argv: Seq<Seq<char>>, flag: Seq<char>) -> spec_fn(int) -> bool {
    |i: int| argv[i] == flag
}

/// The value behind the first occurrence of a flag.
pub open spec fn flag_value(argv: Seq<Seq<char>>, flag: Seq<char>) -> Option<Seq<char>> {
    match crate::search::first_where(argv.len() as int, flag_at(argv, flag)) {
        Some(i) => if i + 1 < argv.len() {
            Some(argv[i + 1])
        } else {
            None
        },
        None => None,
    }
}

/// The position of the first argument that is a flag.
pub fn find_flag(argv: &Vec<String>, flag: &str) -> (r: Option<usize>)
    ensures
        crate::search::position(r) == crate::search::first_where(
            argv@.len() as int,
            flag_at(texts(argv@), flag@),
        ),
        r matches Some(i) ==> i < argv@.len(),
{
    let ghost p = flag_at(texts(argv@), flag@);
    let mut found: Option<usize> = None;
    let mut i: usize = 0;
    while i < argv.len()
        invariant
            i <= argv@.len(),
            p == flag_at(texts(argv@), flag@),
            crate::search::position(found) == crate::search::first_where(i as int, p),
            found matches Some(k) ==> k < i,
        decreases argv.len() - i,
    {
        if found.is_none() && same(argv[i].as_str(), flag) {
            found = Some(i);
        }
        i += 1;
    }
    found
}

/// The value behind the first occurrence of a flag; a flag without one is refused.
pub fn required_flag(argv: &Vec<String>, flag: &str) -> (r: Result<String, String>)
    ensures
        match r {
            Ok(s) => flag_value(texts(argv@), flag@) == Some(s@),
            Err(e) => flag_value(texts(argv@), flag@) is None && e@ == "broker-serve requires "@
                + flag@ + " PATH"@,
        },
{
    match find_flag(argv, flag) {
        Some(i) => {
            if argv.len() - i > 1 {
                return Ok(argv[i + 1].clone());
            }
        },
        None => {},
    }
    Err(cat3("broker-serve requires ", flag, " PATH"))
}

/// Where a broker is to serve, and for which workspace.
#[derive(Debug)]
pub struct ServePaths {
    pub socket: String,
    pub token_file: String,
    pub workspace: String,
}

/// Whether arguments ask for a broker.
pub open spec fn asks_to_serve(argv: Seq<Seq<char>>) -> bool {
    argv.len() > 0 && argv[0] == "broker-serve"@
}

/// The first flag that a broker needs and arguments lack.
pub open spec fn missing_flag(argv: Seq<Seq<char>>) -> Option<Seq<char>> {
    if flag_value(argv, "--socket"@) is None {
        Some("--socket"@)
    } else if flag_value(argv, "--token-file"@) is None {
        Some("--token-file"@)
    } else if flag_value(argv, "--workspace"@) is None {
        Some("--workspace"@)
    } else {
        None
    }
}

/// Where a broker is to serve, if arguments ask for one.
pub fn maybe_serve(argv: &Vec<String>) -> (r: Result<Option<ServePaths>, String>)
    ensures
        match r {
            Ok(None) => !asks_to_serve(texts(argv@)),
            Ok(Some(p)) => asks_to_serve(texts(argv@)) && missing_flag(texts(argv@)) is None
                && flag_value(texts(argv@), "--socket"@) == Some(p.socket@) && flag_value(
                texts(argv@),
                "--token-file"@,
            ) == Some(p.token_file@) && flag_value(texts(argv@), "--workspace"@) == Some(
                p.workspace@,
            ),
            Err(e) => asks_to_serve(texts(argv@)) && (missing_flag(texts(argv@)) matches Some(f)
                && e@ == "broker-serve requires "@ + f + " PATH"@),
        },
{
    if argv.len() == 0 || !same(argv[0].as_str(), "broker-serve") {
        return Ok(None);
    }
    let socket: String = match required_flag(argv, "--socket") {
        Ok(s) => s,
        Err(e) => {
            return Err(e);
        },
    };
    let token_file: String = match required_flag(argv, "--token-file") {
        Ok(s) => s,
        Err(e) => {
            return Err(e);
        },
    };
    let workspace: String = match required_flag(argv, "--workspace") {
        Ok(s) => s,
        Err(e) => {
            return Err(e);
        },
    };
    Ok(Some(ServePaths { socket, token_file, workspace }))
}

/// A text without the line ends at its end.
pub open spec fn without_newlines(s: Seq<char>) -> Seq<char>
    decreases s.len(),
{
    if s.len() > 0 && (s.last() == '\r' || s.last() == '\n') {
        without_newlines(s.drop_last())
    } else {
        s
    }
}

/// The token in the contents of a token file; an empty one is refused.
pub fn read_token(contents: &str) -> (r: Result<String, String>)
    ensures
        match r {
            Ok(t) => t@ == without_newlines(contents@) && t@.len() > 0,
            Err(e) => without_newlines(contents@).len() == 0 && e@ == "broker token is empty"@,
        },
{
    let v: Vec<char> = chars_of(contents);
    let mut end: usize = v.len();
    assert(v@.take(end as int) =~= v@);
    while end > 0 && (v[end - 1] == '\r' || v[end - 1] == '\n')
        invariant
            end <= v@.len(),
            v@ == contents@,
            without_newlines(contents@) == without_newlines(v@.take(end as int)),
        decreases end,
    {
        assert(v@.take(end as int).drop_last() =~= v@.take(end - 1));
        end = end - 1;
    }
    assert(without_newlines(contents@) =~= v@.take(end as int));
    if end == 0 {
        return Err("broker token is empty".to_owned());
    }
    assert(v@.subrange(0, end as int) =~= v@.take(end as int));
    Ok(text_of(&v, 0, end))
}

proof fn lemma_or_zero(a: u8, b: u8)
    ensures
        (a | b) == 0 <==> a == 0 && b == 0,
{
    assert((a | b) == 0 <==> a == 0 && b == 0) by (bit_vector);
}

proof fn lemma_xor_zero(a: u8, b: u8)
    ensures
        (a ^ b) == 0 <==> a == b,
{
    assert((a ^ b) == 0 <==> a == b) by (bit_vector);
}

/// The byte at a position, zero beyond the end.
pub open spec fn byte_or_zero(s: Seq<u8>, i: int) -> u8 {
    if 0 <= i < s.len() {
        s[i]
    } else {
        0
    }
}

/// Whether two secrets are the same. All bytes are looked at, whatever the first ones are.
pub fn constant_time_eq(left: &[u8], right: &[u8]) -> (r: bool)
    ensures
        r == (left@ == right@),
{
    let n: usize = if left.len() > right.len() {
        left.len()
    } else {
        right.len()
    };
    let mut difference: u8 = if left.len() == right.len() {
        0
    } else {
        1
    };
    let mut i: usize = 0;
    while i < n
        invariant
            i <= n,
            n >= left@.len(),
            n >= right@.len(),
            difference == 0 <==> left@.len() == right@.len() && forall|k: int|
                0 <= k < i ==> #[trigger] byte_or_zero(left@, k) == byte_or_zero(right@, k),
        decreases n - i,
    {
        let a: u8 = if i < left.len() {
            left[i]
        } else {
            0
        };
        let b: u8 = if i < right.len() {
            right[i]
        } else {
            0
        };
        proof {
            assert(a == byte_or_zero(left@, i as int));
            assert(b == byte_or_zero(right@, i as int));
            lemma_xor_zero(a, b);
            lemma_or_zero(difference, a ^ b);
        }
        difference = difference | (a ^ b);
        i += 1;
    }
    proof {
        if difference == 0 {
            assert forall|k: int| 0 <= k < left@.len() implies left@[k] == right@[k] by {
                assert(byte_or_zero(left@, k) == byte_or_zero(right@, k));
            }
            assert(left@ =~= right@);
        }
    }
    difference == 0
}

/// A variable of the environment.
#[derive(Debug)]
pub struct EnvVar {
    pub key: String,
    pub value: String,
}

/// A request to the broker.
#[derive(Debug)]
pub struct Request {
    pub version: u32,
    pub token: String,
    pub argv: Vec<String>,
    pub env: Vec<EnvVar>,
    pub cwd: String,
}

/// Whether a client may pass on a variable of its environment.
pub open spec fn env_allowed(key: Seq<char>) -> bool {
    key == "HCOM_PROCESS_ID"@ || key == "HCOM_LAUNCHED"@ || key == "HCOM_TAG"@
}

/// Whether a client may pass on a variable of its environment.
pub fn is_env_allowed(key: &str) -> (r: bool)
    ensures
        r == env_allowed(key@),
{
    same(key, "HCOM_PROCESS_ID") || same(key, "HCOM_LAUNCHED") || same(key, "HCOM_TAG")
}

/// Whether an environment holds a variable that a client may not pass on.
pub open spec fn has_disallowed(env: Seq<EnvVar>) -> bool {
    exists|i: int| 0 <= i < env.len() && !env_allowed((#[trigger] env[i]).key@)
}

fn passes_on_more(env: &Vec<EnvVar>) -> (r: bool)
    ensures
        r == has_disallowed(env@),
{
    let mut i: usize = 0;
    while i < env.len()
        invariant
            i <= env@.len(),
            forall|k: int| 0 <= k < i ==> env_allowed((#[trigger] env@[k]).key@),
        decreases env.len() - i,
    {
        if !is_env_allowed(env[i].key.as_str()) {
            assert(!env_allowed(env@[i as int].key@));
            return true;
        }
        i += 1;
    }
    false
}

/// Why a request is refused before its directory is looked at.
pub open spec fn request_refusal(req: Request, token: Seq<char>) -> Option<Seq<char>> {
    if req.version != PROTOCOL_VERSION {
        Some("unsupported broker protocol version "@ + decimal(req.version as int))
    } else if encode_utf8(req.token@) != encode_utf8(token) {
        Some("broker authentication failed"@)
    } else if !(command_in(texts(req.argv@)) matches Some(c) && is_served(c)) {
        Some("broker command is not authorized"@)
    } else if has_disallowed(req.env@) {
        Some("request contains a disallowed environment variable"@)
    } else {
        None
    }
}

/// Why a request is refused before its directory is looked at: it must speak the protocol, carry
/// the token, ask for a command that is served, and pass on nothing but what it may.
pub fn refuse_request(req: &Request, token: &str) -> (r: Option<String>)
    ensures
        crate::text::opt_text(r) == request_refusal(*req, token@),
{
    if req.version != PROTOCOL_VERSION {
        let version: String = decimal_text_u64(req.version as u64);
        return Some(cat("unsupported broker protocol version ", version.as_str()));
    }
    if !constant_time_eq(req.token.as_str().as_bytes(), token.as_bytes()) {
        return Some("broker authentication failed".to_owned());
    }
    if !authorize(&req.argv) {
        return Some("broker command is not authorized".to_owned());
    }
    if passes_on_more(&req.env) {
        return Some("request contains a disallowed environment variable".to_owned());
    }
    None
}

/// Why the directory of a request is refused: it must lie in the workspace. Both are canonical.
pub fn refuse_cwd(cwd: &str, workspace: &str) -> (r: Option<String>)
    ensures
        match r {
            None => workspace@ == "/"@ || within(cwd@, workspace@),
            Some(e) => workspace@ != "/"@ && !within(cwd@, workspace@) && e@
                == "client cwd is outside broker workspace"@,
        },
{
    let inside: String = cat(workspace, "/");
    if same(workspace, "/") || same(cwd, workspace) || starts_with(cwd, inside.as_str()) {
        None
    } else {
        Some("client cwd is outside broker workspace".to_owned())
    }
}

/// How the process that runs a request is started: with its arguments, in the workspace, and with
/// variables in its environment, of which a later one goes before an earlier one.
#[derive(Debug)]
pub struct ChildPlan {
    pub args: Vec<String>,
    pub directory: String,
    pub env: Vec<EnvVar>,
}

/// The view of a [`ChildPlan`].
pub struct ChildPlanV {
    pub args: Seq<Seq<char>>,
    pub directory: Seq<char>,
    pub env: Seq<(Seq<char>, Seq<char>)>,
}

/// The names and values of variables.
pub open spec fn pairs(env: Seq<EnvVar>) -> Seq<(Seq<char>, Seq<char>)> {
    Seq::new(env.len(), |i: int| (env[i].key@, env[i].value@))
}

impl View for ChildPlan {
    type V = ChildPlanV;

    open spec fn view(&self) -> ChildPlanV {
        ChildPlanV {
            args: texts(self.args@),
            directory: self.directory@,
            env: pairs(self.env@),
        }
    }
}

/// How the process that runs a request is started. It is told to run the command itself.
pub open spec fn child_planned(req: Request, workspace: Seq<char>) -> ChildPlanV {
    ChildPlanV {
        args: texts(req.argv@),
        directory: workspace,
        env: seq![("HCOM_BROKER_DIRECT"@, "1"@)] + pairs(req.env@),
    }
}

/// Plans how the process that runs a request is started.
pub fn plan_child(req: &Request, workspace: &str) -> (r: ChildPlan)
    ensures
        r@ == child_planned(*req, workspace@),
{
    let mut env: Vec<EnvVar> = Vec::new();
    env.push(EnvVar { key: "HCOM_BROKER_DIRECT".to_owned(), value: "1".to_owned() });
    let ghost want = child_planned(*req, workspace@).env;
    let mut i: usize = 0;
    assert(pairs(env@) =~= want.take(1));
    while i < req.env.len()
        invariant
            i <= req.env@.len(),
            want == seq![("HCOM_BROKER_DIRECT"@, "1"@)] + pairs(req.env@),
            pairs(env@) == want.take(1 + i),
        decreases req.env.len() - i,
    {
        let own: EnvVar = EnvVar { key: req.env[i].key.clone(), value: req.env[i].value.clone() };
        let ghost before = env@;
        env.push(own);
        assert(pairs(env@) =~= pairs(before).push((own.key@, own.value@)));
        assert(want[1 + i] == (own.key@, own.value@));
        assert(pairs(env@) =~= want.take(1 + i + 1));
        i += 1;
    }
    assert(want.take(want.len() as int) =~= want);
    ChildPlan { args: copy_texts(&req.argv), directory: workspace.to_owned(), env }
}

/// The process that runs a request that is not refused is always told to run the command itself: the
/// request cannot say otherwise. So it forwards nothing.
pub proof fn children_run_directly(req: Request, token: Seq<char>, workspace: Seq<char>, i: int)
    requires
        request_refusal(req, token) is None,
        0 <= i < child_planned(req, workspace).env.len(),
        child_planned(req, workspace).env[i].0 == "HCOM_BROKER_DIRECT"@,
    ensures
        child_planned(req, workspace).env[i].1 == "1"@,
{
    reveal_strlit("HCOM_BROKER_DIRECT");
    reveal_strlit("HCOM_PROCESS_ID");
    reveal_strlit("HCOM_LAUNCHED");
    reveal_strlit("HCOM_TAG");
    assert("HCOM_BROKER_DIRECT"@.len() == 18);
    assert("HCOM_PROCESS_ID"@.len() == 15 && "HCOM_LAUNCHED"@.len() == 13 && "HCOM_TAG"@.len() == 8);
    if i > 0 {
        assert(child_planned(req, workspace).env[i] == pairs(req.env@)[i - 1]);
        assert(env_allowed(req.env@[i - 1].key@));
    }
}

/// A request without the token is refused, whatever else it holds.
pub proof fn wrong_token_is_refused(req: Request, token: Seq<char>)
    requires
        req.token@ != token,
    ensures
        request_refusal(req, token) is Some,
{
    vstd::utf8::encode_utf8_decode_utf8(req.token@);
    vstd::utf8::encode_utf8_decode_utf8(token);
}

/// The exit code of a command: its own, or one that tells the signal that ended it.
pub fn exit_code(code: Option<i32>, signal: Option<i32>) -> (r: i32)
    requires
        signal matches Some(s) ==> s <= i32::MAX - 128,
    ensures
        r == match code {
            Some(c) => c as int,
            None => 128 + match signal {
                Some(s) => s as int,
                None => 1,
            },
        },
{
    match code {
        Some(c) => c,
        None => match signal {
            Some(s) => 128 + s,
            None => 129,
        },
    }
}

/// Output that is kept up to a limit, as it arrives.
pub struct CappedOutput {
    bytes: Vec<u8>,
    exceeded: bool,
    limit: usize,
    seen: Ghost<Seq<u8>>,
}

impl CappedOutput {
    /// All that has arrived.
    pub closed spec fn seen(self) -> Seq<u8> {
        self.seen@
    }

    /// The limit.
    pub closed spec fn limit(self) -> nat {
        self.limit as nat
    }

    /// What is kept is the start of what has arrived, up to the limit.
    pub closed spec fn wf(self) -> bool {
        &&& self.bytes@.len() <= self.limit
        &&& self.exceeded == (self.seen@.len() > self.limit)
        &&& self.exceeded ==> self.bytes@.len() == self.limit
        &&& self.bytes@ == self.seen@.take(self.bytes@.len() as int)
        &&& !self.exceeded ==> self.bytes@ == self.seen@
        &&& self.bytes@.len() <= self.seen@.len()
    }

    /// Nothing yet.
    pub fn new(limit: usize) -> (r: CappedOutput)
        ensures
            r.wf(),
            r.seen() == Seq::<u8>::empty(),
            r.limit() == limit,
    {
        let bytes: Vec<u8> = Vec::new();
        assert(bytes@ =~= Seq::<u8>::empty());
        assert(Seq::<u8>::empty().take(0) =~= Seq::<u8>::empty());
        CappedOutput { bytes, exceeded: false, limit, seen: Ghost(Seq::empty()) }
    }

    /// Takes in what arrives.
    pub fn take_in(&mut self, chunk: &[u8])
        requires
            old(self).wf(),
        ensures
            final(self).wf(),
            final(self).limit() == old(self).limit(),
            final(self).seen() == old(self).seen() + chunk@,
    {
        let remaining: usize = self.limit - self.bytes.len();
        let count: usize = if chunk.len() > remaining {
            remaining
        } else {
            chunk.len()
        };
        if chunk.len() > remaining {
            self.exceeded = true;
        }
        let ghost start = self.bytes@;
        let ghost all = self.seen@ + chunk@;
        let mut i: usize = 0;
        assert(self.bytes@ =~= start + chunk@.take(0));
        while i < count
            invariant
                i <= count <= chunk@.len(),
                self.bytes@ == start + chunk@.take(i as int),
                self.exceeded == (old(self).exceeded || chunk@.len() > remaining),
                self.limit == old(self).limit,
                self.seen@ == old(self).seen@,
            decreases count - i,
        {
            assert(start + chunk@.take(i as int + 1) =~= (start + chunk@.take(i as int)).push(
                chunk@[i as int],
            ));
            self.bytes.push(chunk[i]);
            i += 1;
        }
        self.seen = Ghost(all);
        proof {
            if old(self).exceeded {
                assert(count == 0);
                assert(self.bytes@ =~= start);
                assert(self.bytes@ =~= all.take(self.bytes@.len() as int));
            } else {
                assert(start == old(self).seen@);
                assert(self.bytes@ =~= all.take(self.bytes@.len() as int));
                if !self.exceeded {
                    assert(self.bytes@ =~= all);
                }
            }
        }
    }

    /// What has arrived, unless it is more than the limit.
    pub fn finish(self) -> (r: Result<Vec<u8>, String>)
        requires
            self.wf(),
        ensures
            match r {
                Ok(v) => v@ == self.seen() && self.seen().len() <= self.limit(),
                Err(e) => self.seen().len() > self.limit() && e@ == "broker child output exceeds "@
                    + decimal(self.limit() as int) + " bytes"@,
            },
    {
        if self.exceeded {
            let limit: String = decimal_text_u64(self.limit as u64);
            Err(cat3("broker child output exceeds ", limit.as_str(), " bytes"))
        } else {
            Ok(self.bytes)
        }
    }
}

/// Four bytes, most significant first, of a number.
pub open spec fn be_bytes(n: int) -> Seq<u8> {
    seq![
        (n / 0x100_0000 % 256) as u8,
        (n / 0x1_0000 % 256) as u8,
        (n / 0x100 % 256) as u8,
        (n % 256) as u8,
    ]
}

/// The number that four bytes stand for, most significant first.
pub open spec fn be_value(b: Seq<u8>) -> int {
    b[0] as int * 0x100_0000 + b[1] as int * 0x1_0000 + b[2] as int * 0x100 + b[3] as int
}

/// Why a frame is refused.
pub open spec fn frame_refusal(limit: int) -> Seq<char> {
    "broker frame exceeds "@ + decimal(limit) + " bytes"@
}

/// A frame: the length of the payload in four bytes, and the payload.
pub open spec fn frame_of(payload: Seq<u8>) -> Seq<u8> {
    be_bytes(payload.len() as int) + payload
}

/// The payload that bytes begin with: nothing where the length they announce is beyond the limit, or
/// not all of it is there.
pub open spec fn frame_read(bytes: Seq<u8>, limit: int) -> Option<Seq<u8>> {
    if bytes.len() < 4 || be_value(bytes.take(4)) > limit || be_value(bytes.take(4))
        > bytes.len() - 4 {
        None
    } else {
        Some(bytes.subrange(4, 4 + be_value(bytes.take(4))))
    }
}

/// Writes a frame; one whose payload is beyond the limit is refused. Of a length that has more than
/// four bytes, the last four are written.
pub fn encode_frame(payload: &Vec<u8>, limit: usize) -> (r: Result<Vec<u8>, String>)
    ensures
        match r {
            Ok(v) => payload@.len() <= limit && v@ == frame_of(payload@),
            Err(e) => payload@.len() > limit && e@ == frame_refusal(limit as int),
        },
{
    if payload.len() > limit {
        let text: String = decimal_text_u64(limit as u64);
        return Err(cat3("broker frame exceeds ", text.as_str(), " bytes"));
    }
    let n: u64 = payload.len() as u64;
    let mut v: Vec<u8> = Vec::new();
    v.push((n / 0x100_0000 % 256) as u8);
    v.push((n / 0x1_0000 % 256) as u8);
    v.push((n / 0x100 % 256) as u8);
    v.push((n % 256) as u8);
    assert(v@ =~= be_bytes(n as int));
    let mut i: usize = 0;
    assert(v@ =~= be_bytes(n as int) + payload@.take(0));
    while i < payload.len()
        invariant
            i <= payload@.len(),
            v@ == be_bytes(n as int) + payload@.take(i as int),
        decreases payload.len() - i,
    {
        v.push(payload[i]);
        assert(v@ =~= be_bytes(n as int) + payload@.take(i as int + 1));
        i += 1;
    }
    assert(payload@.take(payload@.len() as int) =~= payload@);
    Ok(v)
}

/// The length of the payload that the first four bytes of a frame announce; one beyond the limit
/// is refused.
pub fn frame_length(header: &[u8], limit: usize) -> (r: Result<usize, String>)
    requires
        header@.len() == 4,
    ensures
        match r {
            Ok(n) => n == be_value(header@) && n <= limit,
            Err(e) => be_value(header@) > limit && e@ == frame_refusal(limit as int),
        },
{
    let n: u64 = header[0] as u64 * 0x100_0000 + header[1] as u64 * 0x1_0000 + header[2] as u64
        * 0x100 + header[3] as u64;
    if n > limit as u64 {
        let text: String = decimal_text_u64(limit as u64);
        return Err(cat3("broker frame exceeds ", text.as_str(), " bytes"));
    }
    Ok(n as usize)
}

/// What is written as a frame is read back, under every limit that it was written under and with
/// whatever follows it: the frame is the length in four bytes, at most the limit, and that many bytes.
/// A length is told in four bytes only where it fits.
pub proof fn frames_round_trip(payload: Seq<u8>, limit: int, rest: Seq<u8>)
    requires
        payload.len() <= limit,
        payload.len() <= u32::MAX,
    ensures
        frame_of(payload).len() == 4 + payload.len(),
        be_value(frame_of(payload).take(4)) == payload.len(),
        frame_read(frame_of(payload) + rest, limit) == Some(payload),
{
    let n = payload.len() as int;
    let b = be_bytes(n);
    assert(frame_of(payload).take(4) =~= b);
    assert((frame_of(payload) + rest).take(4) =~= b);
    assert((frame_of(payload) + rest).subrange(4, 4 + n) =~= payload);
    assert(n / 0x100_0000 % 256 == n / 0x100_0000);
    assert(n / 0x100_0000 * 0x100_0000 + n / 0x1_0000 % 256 * 0x1_0000 + n / 0x100 % 256 * 0x100 + n
        % 256 == n);
}

/// A frame that announces more than the limit is refused, whatever is in it.
pub proof fn oversized_frames_are_refused(bytes: Seq<u8>, limit: int)
    requires
        bytes.len() >= 4,
        be_value(bytes.take(4)) > limit,
    ensures
        frame_read(bytes, limit) is None,
{
}

/// Reads the payload that bytes begin with.
pub fn decode_frame(bytes: &[u8], limit: usize) -> (r: Result<Vec<u8>, String>)
    ensures
        match r {
            Ok(v) => frame_read(bytes@, limit as int) == Some(v@),
            Err(e) => frame_read(bytes@, limit as int) is None && e@ == if bytes@.len() >= 4
                && be_value(bytes@.take(4)) > limit {
                frame_refusal(limit as int)
            } else {
                "broker frame is incomplete"@
            },
        },
{
    if bytes.len() < 4 {
        return Err("broker frame is incomplete".to_owned());
    }
    let header: Vec<u8> = vec![bytes[0], bytes[1], bytes[2], bytes[3]];
    assert(header@ =~= bytes@.take(4));
    let n: usize = match frame_length(header.as_slice(), limit) {
        Ok(n) => n,
        Err(e) => {
            return Err(e);
        },
    };
    let total: usize = bytes.len();
    if n > total - 4 {
        return Err("broker frame is incomplete".to_owned());
    }
    let mut v: Vec<u8> = Vec::new();
    let mut i: usize = 0;
    assert(v@ =~= bytes@.subrange(4, 4));
    while i < n
        invariant
            i <= n <= total - 4,
            total == bytes@.len(),
            v@ == bytes@.subrange(4, 4 + i),
        decreases n - i,
    {
        v.push(bytes[4 + i]);
        assert(v@ =~= bytes@.subrange(4, 4 + i + 1));
        i += 1;
    }
    Ok(v)
}

/// Why the header of a response is refused.
pub open spec fn header_refusal(version: int, stdout_len: int, stderr_len: int) -> Option<Seq<char>> {
    if version != PROTOCOL_VERSION {
        Some("unsupported broker response version "@ + decimal(version))
    } else if stdout_len > MAX_OUTPUT || stderr_len > MAX_OUTPUT {
        Some("broker response exceeds output limit"@)
    } else {
        None
    }
}

/// Why the header of a response is refused.
pub fn refuse_header(version: u32, stdout_len: u64, stderr_len: u64) -> (r: Option<String>)
    ensures
        crate::text::opt_text(r) == header_refusal(
            version as int,
            stdout_len as int,
            stderr_len as int,
        ),
{
    if version != PROTOCOL_VERSION {
        let text: String = decimal_text_u64(version as u64);
        return Some(cat("unsupported broker response version ", text.as_str()));
    }
    if stdout_len > MAX_OUTPUT as u64 || stderr_len > MAX_OUTPUT as u64 {
        return Some("broker response exceeds output limit".to_owned());
    }
    None
}

/// These commands, and no others, are run for confined clients.
pub proof fn these_commands_are_run_for_clients(argv: Vec<String>, c: Seq<char>, r: bool)
    requires
        call_ensures(authorize, (&argv,), r),
        argv@.len() > 0,
        c == argv@[0]@,
        c != "--go"@,
        c != "--name"@,
    ensures
        r == (c == "pi-start"@ || c == "pi-status"@ || c == "pi-read"@ || c == "pi-beforetool"@ || c == "pi-stop"@ || c == "send"@ || c == "list"@ || c == "events"@ || c == "listen"@ || c == "status"@ || c == "start"@ || c == "stop"@ || c == "transcript"@ || c == "bundle"@ || c == "kill"@ || c == "term"@),
{
    assert(texts(argv@)[0] == argv@[0]@);
}

/// Arguments that begin with the name of a command for clients are run for them.
pub proof fn named_commands_are_authorized(argv: Vec<String>, c: Seq<char>, r: bool)
    requires
        call_ensures(authorize, (&argv,), r),
        argv@.len() > 0,
        c == argv@[0]@,
        (c == "pi-start"@ || c == "pi-status"@ || c == "pi-read"@ || c == "pi-beforetool"@ || c == "pi-stop"@ || c == "send"@ || c == "list"@ || c == "events"@ || c == "listen"@ || c == "status"@ || c == "start"@ || c == "stop"@ || c == "transcript"@ || c == "bundle"@ || c == "kill"@ || c == "term"@),
    ensures
        r,
{
    reveal_strlit("--go");
    reveal_strlit("--name");
    reveal_strlit("pi-start");
    reveal_strlit("pi-status");
    reveal_strlit("pi-read");
    reveal_strlit("pi-beforetool");
    reveal_strlit("pi-stop");
    reveal_strlit("send");
    reveal_strlit("list");
    reveal_strlit("events");
    reveal_strlit("listen");
    reveal_strlit("status");
    reveal_strlit("start");
    reveal_strlit("stop");
    reveal_strlit("transcript");
    reveal_strlit("bundle");
    reveal_strlit("kill");
    reveal_strlit("term");
    assert("--go"@[0] == '-' && "--name"@[0] == '-');
    assert(c[0] != '-');
    these_commands_are_run_for_clients(argv, c, r);
}

/// The options before a command do not change whether it is run for clients; arguments without a
/// command are not.
pub proof fn options_do_not_authorize(argv: Vec<String>, rest: Vec<String>, r: bool, of_rest: bool)
    requires
        call_ensures(authorize, (&argv,), r),
        call_ensures(authorize, (&rest,), of_rest),
    ensures
        argv@.len() == 0 ==> !r,
        argv@.len() > 0 && argv@[0]@ == "--go"@ && rest@ == argv@.skip(1) ==> r == of_rest,
        argv@.len() > 1 && argv@[0]@ == "--name"@ && rest@ == argv@.skip(2) ==> r == of_rest,
        argv@.len() == 1 && argv@[0]@ == "--name"@ ==> !r,
{
    let all = texts(argv@);
    let tail = texts(rest@);
    reveal_strlit("--go");
    reveal_strlit("--name");
    assert("--go"@.len() == 4 && "--name"@.len() == 6);
    if argv@.len() > 0 {
        assert(all[0] == argv@[0]@);
    }
    if argv@.len() == 1 && argv@[0]@ == "--name"@ {
        assert(command_pos(all, 2) == 2);
    }
    if argv@.len() > 0 && argv@[0]@ == "--go"@ && rest@ == argv@.skip(1) {
        assert(tail =~= all.skip(1));
        lemma_command_pos_skipped(all, 1, 0);
        assert(command_in(all) == command_in(tail));
    }
    if argv@.len() > 1 && argv@[0]@ == "--name"@ && rest@ == argv@.skip(2) {
        assert(tail =~= all.skip(2));
        lemma_command_pos_skipped(all, 2, 0);
        assert(command_in(all) == command_in(tail));
    }
}

proof fn lemma_command_pos_skipped(argv: Seq<Seq<char>>, n: int, i: int)
    requires
        0 <= n <= argv.len(),
        0 <= i,
    ensures
        command_pos(argv, n + i) == n + command_pos(argv.skip(n), i),
        command_pos(argv.skip(n), i) >= i,
    decreases
            if n + i < argv.len() {
                argv.len() - n - i
            } else {
                0
            },
{
    if n + i < argv.len() {
        assert(argv.skip(n)[i] == argv[n + i]);
        if argv[n + i] == "--go"@ {
            lemma_command_pos_skipped(argv, n, i + 1);
        } else if argv[n + i] == "--name"@ {
            lemma_command_pos_skipped(argv, n, i + 2);
        }
    }
}

/// What launches something stays with the client: the launching commands, a number, the name of a
/// tool, and arguments without a command. Nothing else does.
pub proof fn launches_stay_with_the_client(argv: Vec<String>, tools: Vec<String>, c: Seq<char>, r: bool)
    requires
        call_ensures(is_local_control_command, (&argv, &tools), r),
        argv@.len() > 0 ==> c == argv@[0]@,
        c != "--go"@,
        c != "--name"@,
    ensures
        argv@.len() == 0 ==> r,
        argv@.len() > 0 ==> r == (c == "pty"@ || c == "launch"@ || c == "resume"@ || c == "fork"@ || c == "r"@ || c == "f"@ || parse_unsigned(c, 4_294_967_295) is Some || texts(tools@).contains(c)),
{
    if argv@.len() > 0 {
        assert(texts(argv@)[0] == c);
    }
}

/// A command is forwarded exactly where it does not stay with the client, a broker is configured in
/// full, and the process was not started by the broker.
pub proof fn the_rest_is_forwarded(
    direct: Option<&str>,
    argv: Vec<String>,
    tools: Vec<String>,
    socket: bool,
    token_file: bool,
    r: bool,
    stays: bool,
)
    requires
        call_ensures(should_forward, (direct, &argv, &tools, socket, token_file), r),
        call_ensures(is_local_control_command, (&argv, &tools), stays),
    ensures
        r == (!stays && socket && token_file && opt_str(direct) != Some("1"@)),
{
}

/// Whether a flag stands first at a position, with a value behind it.
pub open spec fn flag_first_at(argv: Seq<String>, flag: Seq<char>, i: int) -> bool {
    0 <= i < argv.len() - 1 && argv[i]@ == flag && forall|k: int|
        0 <= k < i ==> (#[trigger] argv[k])@ != flag
}

proof fn lemma_flag_first_at(argv: Seq<String>, flag: Seq<char>, i: int)
    requires
        flag_first_at(argv, flag, i),
    ensures
        flag_value(texts(argv), flag) == Some(argv[i + 1]@),
{
    let all = texts(argv);
    assert forall|k: int| 0 <= k < i implies !#[trigger] flag_at(all, flag)(k) by {
        assert(all[k] == argv[k]@);
    }
    assert(flag_at(all, flag)(i));
    crate::search::first_where_found(all.len() as int, flag_at(all, flag), i);
}

/// A broker serves at the paths that stand behind its flags.
pub proof fn brokers_serve_where_the_flags_say(
    argv: Vec<String>,
    r: Result<Option<ServePaths>, String>,
    a: int,
    b: int,
    c: int,
)
    requires
        call_ensures(maybe_serve, (&argv,), r),
        argv@[0]@ == "broker-serve"@,
        flag_first_at(argv@, "--socket"@, a),
        flag_first_at(argv@, "--token-file"@, b),
        flag_first_at(argv@, "--workspace"@, c),
    ensures
        r matches Ok(Some(p)) && p.socket@ == argv@[a + 1]@ && p.token_file@ == argv@[b + 1]@ && p.workspace@ == argv@[c + 1]@,
{
    lemma_flag_first_at(argv@, "--socket"@, a);
    lemma_flag_first_at(argv@, "--token-file"@, b);
    lemma_flag_first_at(argv@, "--workspace"@, c);
    assert(texts(argv@)[0] == argv@[0]@);
}

/// A broker is not started without each of its paths, nor by any other command.
pub proof fn brokers_need_their_paths(argv: Vec<String>, r: Result<Option<ServePaths>, String>, flag: Seq<char>)
    requires
        call_ensures(maybe_serve, (&argv,), r),
    ensures
        (r matches Ok(None)) == (argv@.len() == 0 || argv@[0]@ != "broker-serve"@),
        (r matches Ok(Some(_))) && (flag == "--socket"@ || flag == "--token-file"@ || flag == "--workspace"@) ==> exists|i: int| 0 <= i < argv@.len() - 1 && (#[trigger] argv@[i])@ == flag,
{
    if argv@.len() > 0 {
        assert(texts(argv@)[0] == argv@[0]@);
    }
    let all = texts(argv@);
    crate::search::first_where_is_least(all.len() as int, flag_at(all, flag));
    if (r matches Ok(Some(_))) && (flag == "--socket"@ || flag == "--token-file"@ || flag
        == "--workspace"@) {
        let i = crate::search::first_where(all.len() as int, flag_at(all, flag))->0;
        assert(all[i] == argv@[i]@);
    }
}

/// A token is read back from a file that holds it, with or without line ends behind it, and an empty
/// one is refused.
pub proof fn tokens_are_read_back(contents: &str, token: Seq<char>, ends: Seq<char>, r: Result<String, String>)
    requires
        call_ensures(read_token, (contents,), r),
        contents@ == token + ends,
        forall|i: int| 0 <= i < ends.len() ==> #[trigger] ends[i] == '\n' || ends[i] == '\r',
        token.len() > 0 ==> token.last() != '\n' && token.last() != '\r',
    ensures
        token.len() > 0 ==> (r matches Ok(t) && t@ == token),
        token.len() == 0 ==> (r matches Err(e) && e@ == "broker token is empty"@),
{
    lemma_without_newlines(token, ends);
}

proof fn lemma_without_newlines(token: Seq<char>, ends: Seq<char>)
    requires
        forall|i: int| 0 <= i < ends.len() ==> #[trigger] ends[i] == '\n' || ends[i] == '\r',
        token.len() > 0 ==> token.last() != '\n' && token.last() != '\r',
    ensures
        without_newlines(token + ends) == token,
    decreases ends.len(),
{
    if ends.len() > 0 {
        assert((token + ends).drop_last() =~= token + ends.drop_last());
        lemma_without_newlines(token, ends.drop_last());
    } else {
        assert(token + ends =~= token);
    }
}

/// A request is served where it speaks version one of the protocol, carries the token, asks for a
/// command for clients, and passes on no variable but the three that it may; else it is refused, and
/// told the first of these that fails.
pub proof fn requests_are_served_as_they_deserve(req: Request, token: &str, r: Option<String>, may_run: bool)
    requires
        call_ensures(refuse_request, (&req, token), r),
        call_ensures(authorize, (&req.argv,), may_run),
    ensures
        req.version != 1 ==> opt_text(r) == Some("unsupported broker protocol version "@ + decimal(req.version as int)),
        req.version == 1 && req.token@ != token@ ==> opt_text(r) == Some("broker authentication failed"@),
        req.version == 1 && req.token@ == token@ && !may_run ==> opt_text(r) == Some("broker command is not authorized"@),
        req.version == 1 && req.token@ == token@ && may_run ==> (r is None) == (forall|i: int|
            0 <= i < req.env@.len() ==> ((#[trigger] req.env@[i]).key@ == "HCOM_PROCESS_ID"@ || req.env@[i].key@ == "HCOM_LAUNCHED"@ || req.env@[i].key@ == "HCOM_TAG"@)),
        req.version == 1 && req.token@ == token@ && may_run && r is Some ==> opt_text(r) == Some("request contains a disallowed environment variable"@),
{
    vstd::utf8::encode_utf8_decode_utf8(req.token@);
    vstd::utf8::encode_utf8_decode_utf8(token@);
}

/// A client passes on these three variables of its environment, and no others.
pub proof fn three_variables_are_passed_on(key: &str, r: bool)
    requires
        call_ensures(is_env_allowed, (key,), r),
    ensures
        r == (key@ == "HCOM_PROCESS_ID"@ || key@ == "HCOM_LAUNCHED"@ || key@ == "HCOM_TAG"@),
{
}

/// A client may stand in the workspace or anywhere below it, and nowhere else.
pub proof fn clients_stand_in_the_workspace(cwd: &str, workspace: &str, rest: Seq<char>, r: Option<String>)
    requires
        call_ensures(refuse_cwd, (cwd, workspace), r),
    ensures
        cwd@ == workspace@ ==> r is None,
        cwd@ == workspace@ + "/"@ + rest ==> r is None,
        workspace@ == "/"@ ==> r is None,
        workspace@ != "/"@ && cwd@ != workspace@ && !(workspace@ + "/"@).is_prefix_of(cwd@) ==> opt_text(r) == Some("client cwd is outside broker workspace"@),
{
    if cwd@ == workspace@ + "/"@ + rest {
        assert((workspace@ + "/"@).is_prefix_of(cwd@));
    }
}

/// The process that runs a request gets its arguments as they are, stands in the workspace, and finds
/// every variable that the request passes on.
pub proof fn children_do_what_was_asked(req: Request, workspace: &str, r: ChildPlan, i: int)
    requires
        call_ensures(plan_child, (&req, workspace), r),
    ensures
        texts(r.args@) == texts(req.argv@),
        r.directory@ == workspace@,
        r.env@.len() == req.env@.len() + 1,
        r.env@[0].key@ == "HCOM_BROKER_DIRECT"@ && r.env@[0].value@ == "1"@,
        0 <= i < req.env@.len() ==> r.env@[i + 1].key@ == req.env@[i].key@ && r.env@[i + 1].value@ == req.env@[i].value@,
{
    let have = pairs(r.env@);
    let want = seq![("HCOM_BROKER_DIRECT"@, "1"@)] + pairs(req.env@);
    assert(r@.env == want);
    assert(have.len() == want.len());
    assert(have[0] == want[0]);
    if 0 <= i < req.env@.len() {
        assert(have[i + 1] == want[i + 1]);
    }
}

/// A command that ends by itself gives its own code, and one that a signal ends a code beyond 128.
pub proof fn exit_codes_tell_the_end(code: Option<i32>, signal: Option<i32>, r: i32)
    requires
        call_ensures(exit_code, (code, signal), r),
    ensures
        code matches Some(c) ==> r == c,
        code is None ==> (signal matches Some(s) ==> r == 128 + s),
        code is None && signal is None ==> r == 129,
{
}

/// Output that arrives in two parts is given back whole, up to the limit; beyond it, it is refused.
pub proof fn output_is_kept_whole(
    limit: usize,
    o: &mut CappedOutput,
    p: &mut CappedOutput,
    first: &[u8],
    second: &[u8],
    r: Result<Vec<u8>, String>,
)
    requires
        call_ensures(CappedOutput::new, (limit,), *old(o)),
        call_ensures(CappedOutput::take_in, (o, first), ()),
        *old(p) == *final(o),
        call_ensures(CappedOutput::take_in, (p, second), ()),
        call_ensures(CappedOutput::finish, (*final(p),), r),
    ensures
        first@.len() + second@.len() <= limit ==> (r matches Ok(v) && v@ == first@ + second@),
        first@.len() + second@.len() > limit ==> (r matches Err(e) && e@ == "broker child output exceeds "@ + decimal(limit as int) + " bytes"@),
{
    assert(old(o).seen() + first@ =~= first@);
}

/// What is framed is read back, whatever follows it. The frame begins with the length, the most
/// significant byte first.
pub proof fn framed_payloads_are_read_back(
    payload: Vec<u8>,
    limit: usize,
    bytes: &[u8],
    rest: Seq<u8>,
    framed: Result<Vec<u8>, String>,
    read: Result<Vec<u8>, String>,
)
    requires
        call_ensures(encode_frame, (&payload, limit), framed),
        payload@.len() <= u32::MAX,
        framed is Ok ==> bytes@ == framed->Ok_0@ + rest,
        call_ensures(decode_frame, (bytes, limit), read),
    ensures
        payload@.len() <= limit ==> framed is Ok && (read matches Ok(v) && v@ == payload@),
        payload@.len() <= limit ==> framed->Ok_0@.len() == 4 + payload@.len() && payload@.len() == framed->Ok_0@[0] * 16_777_216 + framed->Ok_0@[1] * 65_536 + framed->Ok_0@[2] * 256 + framed->Ok_0@[3],
        payload@.len() > limit ==> (framed matches Err(e) && e@ == "broker frame exceeds "@ + decimal(limit as int) + " bytes"@),
{
    if payload@.len() <= limit {
        frames_round_trip(payload@, limit as int, rest);
        let f = framed->Ok_0@;
        assert(f.take(4)[0] == f[0] && f.take(4)[1] == f[1] && f.take(4)[2] == f[2] && f.take(4)[3] == f[3]);
    }
}

/// A frame is read exactly as far as its length says: one that says more than the limit is refused,
/// and so is one that is cut short.
pub proof fn frames_are_read_as_far_as_they_say(bytes: &[u8], limit: usize, n: int, r: Result<Vec<u8>, String>)
    requires
        call_ensures(decode_frame, (bytes, limit), r),
        bytes@.len() >= 4,
        n == bytes@[0] * 16_777_216 + bytes@[1] * 65_536 + bytes@[2] * 256 + bytes@[3],
    ensures
        n > limit ==> (r matches Err(e) && e@ == "broker frame exceeds "@ + decimal(limit as int) + " bytes"@),
        n <= limit && n > bytes@.len() - 4 ==> (r matches Err(e) && e@ == "broker frame is incomplete"@),
        n <= limit && n <= bytes@.len() - 4 ==> (r matches Ok(v) && v@ == bytes@.subrange(4, 4 + n)),
{
    let h = bytes@.take(4);
    assert(h[0] == bytes@[0] && h[1] == bytes@[1] && h[2] == bytes@[2] && h[3] == bytes@[3]);
}

/// The length that a frame announces is the number that its first bytes write, up to the limit.
pub proof fn announced_lengths_are_bounded(header: &[u8], limit: usize, n: int, r: Result<usize, String>)
    requires
        call_ensures(frame_length, (header, limit), r),
        n == header@[0] * 16_777_216 + header@[1] * 65_536 + header@[2] * 256 + header@[3],
    ensures
        n <= limit ==> (r matches Ok(m) && m == n),
        n > limit ==> (r matches Err(e) && e@ == "broker frame exceeds "@ + decimal(limit as int) + " bytes"@),
{
}

/// A response is taken where it speaks version one of the protocol and neither output has more than
/// sixteen mebibytes.
pub proof fn responses_are_bounded(version: u32, stdout_len: u64, stderr_len: u64, r: Option<String>)
    requires
        call_ensures(refuse_header, (version, stdout_len, stderr_len), r),
    ensures
        (r is None) == (version == 1 && stdout_len <= 16_777_216 && stderr_len <= 16_777_216),
        version != 1 ==> opt_text(r) == Some("unsupported broker response version "@ + decimal(version as int)),
        version == 1 && r is Some ==> opt_text(r) == Some("broker response exceeds output limit"@),
{
}

/// Requests have at most one mebibyte, headers sixty-four kibibytes, and outputs sixteen mebibytes.
pub proof fn sizes_are_limited()
    ensures
        MAX_REQUEST == 1024 * 1024,
        MAX_HEADER == 64 * 1024,
        MAX_OUTPUT == 16 * 1024 * 1024,
        PROTOCOL_VERSION == 1,
{
}

/// A flag that a broker needs is read, and one that is missing is named in the refusal; secrets are the
/// same where all their bytes are.
pub proof fn needed_flags_are_named(argv: Vec<String>, flag: &str, r: Result<String, String>, left: &[u8], right: &[u8], same_secret: bool, i: int)
    requires
        call_ensures(required_flag, (&argv, flag), r),
        call_ensures(constant_time_eq, (left, right), same_secret),
    ensures
        (forall|k: int| 0 <= k < argv@.len() ==> (#[trigger] argv@[k])@ != flag@) ==> (r matches Err(e) && e@ == "broker-serve requires "@ + flag@ + " PATH"@),
        r matches Ok(s) ==> flag_value(texts(argv@), flag@) == Some(s@),
        same_secret ==> left@.len() == right@.len() && (0 <= i < left@.len() ==> left@[i] == right@[i]),
        left@ == right@ ==> same_secret,
{
    let s = texts(argv@);
    let p = flag_at(s, flag@);
    crate::search::first_where_is_least(s.len() as int, p);
    if let Some(k) = crate::search::first_where(s.len() as int, p) {
        assert(p(k));
        assert(s[k] == argv@[k]@);
    }
}

} // verus!
