//! Workers in a sandbox.

use std::path::Path;

use hcom::paths::under;
use hcom::podman::{
    PathProbe, PodmanReply, PodmanStage, Surroundings, path_name, read_bridges, read_broker,
    read_payload,
};
use hcom::sandbox::{
    MODE_ENV, PODMAN_WORKSPACE_MODE, PodmanPlan, PodmanSettings, ROOT_ENV, SandboxMode,
    WORKSPACE_MODE, bind_mount_arg, bridge_settings, env_nonempty, plan_podman, podman_state_root,
    read_sandbox_mode, refuse_workspace, runs_on_host, setting_or, workspace_id,
};
use hcom::workers::{
    BubblewrapPlan, RpcEnvironment, SyncRule, host_is_newer, is_agent_file, is_credential, needs_copy,
    pi_session_directory_name, rewrite_settings, synchronized_files, validate_pi_rpc_args,
    validate_pi_rpc_environment,
};

fn strings(values: &[&str]) -> Vec<String> {
    values.iter().map(|value| value.to_string()).collect()
}

fn bubblewrap() -> BubblewrapPlan {
    BubblewrapPlan {
        command: "/usr/bin/pi".to_string(),
        args: strings(&["--model", "test"]),
        workspace: "/tmp/t/workspace".to_string(),
        hcom_dir: "/tmp/t/.hcom".to_string(),
        instance: "luna".to_string(),
        pi_agent: "/home/u/.pi/agent".to_string(),
        has_extensions: true,
        has_agents: true,
        flock_fd: "9".to_string(),
    }
}

fn podman(workspace: &str) -> PodmanPlan {
    let id = workspace_id(&workspace.as_bytes().to_vec());
    let root = format!("/home/u/.local/share/hcom-sandbox/workspaces/{id}");
    PodmanPlan {
        workspace: workspace.to_string(),
        id,
        pi_state: format!("{root}/pi-agent"),
        cache_state: format!("{root}/cache"),
        client_state: format!("{root}/hcom-client"),
        image: "localhost/hcom-pi-workspace:live".to_string(),
        pids_limit: "4096".to_string(),
        memory: "8g".to_string(),
        cpus: "4".to_string(),
        bridges: strings(&["/tmp/mmx-bridge", "/tmp/flowus-bridge"]),
        broker: Some("/tmp/broker".to_string()),
        payload: None,
    }
}

fn reply(code: i32, output: &str) -> PodmanReply {
    PodmanReply {
        code: Some(code),
        output: output.to_string(),
        status: format!("exit status: {code}"),
        words: "no such thing".to_string(),
    }
}

fn has_pair(args: &[String], first: &str, second: &str) -> bool {
    args.windows(2).any(|w| w[0] == first && w[1] == second)
}

fn has_triple(args: &[String], triple: [&str; 3]) -> bool {
    args.windows(3).any(|w| w == triple)
}

#[test]
fn workspace_command_wraps_only_worker_and_limits_writable_mounts() {
    let args = bubblewrap().to_args();
    assert!(has_triple(&args, ["--ro-bind", "/", "/"]));
    assert!(has_triple(&args, ["--bind", "/tmp/t/workspace", "/tmp/t/workspace"]));
    for name in ["extensions", "agents"] {
        let host = format!("/home/u/.pi/agent/{name}");
        let inside = format!("/tmp/t/.hcom/sandboxes/luna/pi-agent/{name}");
        assert!(has_triple(&args, ["--ro-bind", &host, &inside]));
    }
    assert!(has_triple(&args, ["--unshare-user", "--uid", "0"]));
    assert!(has_triple(&args, ["--gid", "0", "--ro-bind"]));
    assert!(args.windows(3).any(|w| w[0] == "--file" && w[2] == "/run/flock"));
    assert!(has_triple(&args, ["--setenv", "PI_POSITION_FLOCK_HELPER", "/run/flock"]));
    assert!(!args.iter().any(|arg| arg == "PI_CODING_AGENT_SESSION_DIR"));
    let host = "/home/u/.pi/agent/sessions";
    let inside = "/tmp/t/.hcom/sandboxes/luna/pi-agent/sessions";
    assert!(has_triple(&args, ["--ro-bind", host, inside]));
    let own = pi_session_directory_name("/tmp/t/workspace");
    assert!(has_triple(
        &args,
        ["--bind", &format!("{host}/{own}"), &format!("{inside}/{own}")]
    ));
    assert!(args.ends_with(&strings(&["--", "/usr/bin/pi", "--model", "test"])));
}

#[test]
fn private_runtime_is_outside_workspace() {
    let plan = bubblewrap();
    let inside = format!("{}/sandboxes/luna/pi-agent", plan.hcom_dir);
    assert!(plan.to_args().iter().any(|arg| arg.starts_with(&inside)));
    assert!(!plan.to_args().iter().any(|arg| arg.contains(".hcom-sandbox")));
}

#[test]
fn session_directories_are_named_after_the_path() {
    assert_eq!(pi_session_directory_name("/home/u/project"), "--home-u-project--");
}

#[test]
fn podman_workspace_is_scoped_persistent_and_minimally_mounted() {
    let a = podman("/tmp/workspace-a");
    let b = podman("/tmp/workspace-b");
    assert_ne!(a.id, b.id);
    assert_eq!(a.id, workspace_id(&b"/tmp/workspace-a".to_vec()));
    let first = a.exec_args(true, "pi", &strings(&["--model", "x"]));
    assert!(first.iter().any(|arg| *arg == format!("hcs-{}", a.id)));
    assert!(first.iter().any(|arg| arg == "--interactive"));
    assert!(first.iter().any(|arg| arg == "--tty"));
    assert!(first.iter().any(|arg| arg == "/usr/local/bin/pi-container-entry"));
    assert!(first.ends_with(&strings(&["--model", "x"])));
    let rpc = a.exec_args(false, "pi", &strings(&["--mode", "rpc", "--no-themes"]));
    assert!(rpc.iter().any(|arg| arg == "--interactive"));
    assert!(!rpc.iter().any(|arg| arg == "--tty"));
    assert!(rpc.iter().any(|arg| arg == "--mode"));
    assert!(rpc.iter().any(|arg| arg == "rpc"));
    assert!(has_pair(&first, "--workdir", "/tmp/workspace-a"));
    for env in [
        "HOME=/home/pi".to_string(),
        format!("PI_CODING_AGENT_DIR={}", a.pi_state),
        format!("HCOM_CLIENT_DIR={}", a.client_state),
        format!("HCOM_DIR={}", a.client_state),
        "HCOM_PROCESS_ID".to_string(),
        "HCOM_LAUNCHED".to_string(),
        "HCOM_TAG".to_string(),
        "HCOM_BROKER_SOCKET".to_string(),
        "HCOM_BROKER_TOKEN_FILE".to_string(),
        "MMX_SOCKET".to_string(),
        "FLOWUS_SOCKET".to_string(),
    ] {
        assert!(has_pair(&first, "--env", &env), "missing {env}");
    }
    assert!(!first.iter().any(|arg| arg == "HCOM_DIR"));
    assert!(!first.iter().any(|arg| arg == "PI_CODING_AGENT_SESSION_DIR"));

    let create = a.create_args();
    assert!(has_pair(&create, "--user", "0:0"));
    assert!(!create.iter().any(|arg| arg == "--userns=keep-id"));
    assert!(create.iter().any(|arg| arg == "--cap-drop=ALL"));
    assert!(create.iter().any(|arg| arg == "--security-opt=no-new-privileges"));
    assert!(create.ends_with(&strings(&["/usr/bin/tini", "--", "sleep", "infinity"])));
    for writable in ["/tmp/workspace-a", &a.pi_state, &a.cache_state, &a.client_state] {
        let mount = format!("{writable}:{writable}:rw");
        assert!(create.contains(&mount), "missing {mount}");
    }
    for shown in ["/tmp/broker", "/tmp/mmx-bridge", "/tmp/flowus-bridge"] {
        assert!(create.contains(&format!("{shown}:{shown}:ro")));
        assert!(!create.contains(&format!("{shown}:{shown}:rw")));
    }
    assert!(!create.iter().any(|arg| arg.contains("hcom.db") || arg.contains("control.key")));
}

#[test]
fn podman_workspace_fails_closed_when_not_rootless() {
    let plan = podman("/tmp/workspace");
    assert_eq!(
        plan.args_for(PodmanStage::Rootless),
        strings(&["info", "--format", "{{.Host.Security.Rootless}}"])
    );
    let error = plan.next_stage(PodmanStage::Rootless, &reply(0, "false")).unwrap_err();
    assert!(error.contains("not running rootless"), "{error}");
    assert_eq!(
        plan.next_stage(PodmanStage::Rootless, &reply(0, "true")).unwrap(),
        PodmanStage::Exists
    );
}

#[test]
fn containers_of_another_workspace_are_not_used() {
    let plan = podman("/tmp/workspace");
    let matching = plan.next_stage(PodmanStage::LabelId, &reply(0, &plan.id)).unwrap();
    assert_eq!(matching, PodmanStage::LabelPath { id_matches: true });
    assert_eq!(
        plan.next_stage(matching, &reply(0, "/tmp/workspace")).unwrap(),
        PodmanStage::Running
    );
    assert!(plan.next_stage(matching, &reply(0, "/tmp/other")).is_err());
    let foreign = plan.next_stage(PodmanStage::LabelId, &reply(0, "other")).unwrap();
    assert!(plan.next_stage(foreign, &reply(0, "/tmp/workspace")).is_err());
    assert_eq!(
        plan.next_stage(PodmanStage::Running, &reply(0, "true")).unwrap(),
        PodmanStage::Ready
    );
    assert_eq!(
        plan.next_stage(PodmanStage::Running, &reply(0, "false")).unwrap(),
        PodmanStage::Start
    );
    assert_eq!(plan.next_stage(PodmanStage::Start, &reply(0, "")).unwrap(), PodmanStage::Ready);
    assert_eq!(
        plan.next_stage(PodmanStage::Start, &reply(125, "")).unwrap_err(),
        "Podman container start failed (status exit status: 125): no such thing"
    );
    assert_eq!(plan.next_stage(PodmanStage::Exists, &reply(1, "")).unwrap(), PodmanStage::Resolve);
    assert_eq!(plan.next_stage(PodmanStage::Resolve, &reply(0, "")).unwrap(), PodmanStage::Create);
    assert!(plan.args_for(PodmanStage::Resolve).is_empty());
    assert_eq!(
        plan.next_stage(PodmanStage::Exists, &reply(125, "")).unwrap_err(),
        "Podman container existence check failed (status exit status: 125): no such thing"
    );
}

#[test]
fn sandbox_pi_rpc_environment_is_fail_closed() {
    let mut environment = RpcEnvironment {
        launched: Some("1"),
        process_id: Some("process-id"),
        mode: Some(PODMAN_WORKSPACE_MODE),
        root: Some("/workspace"),
        broker_socket: Some("/broker/socket"),
        broker_token: Some("/broker/token"),
    };
    assert!(validate_pi_rpc_environment(&environment).is_ok());
    environment.mode = Some("off");
    assert!(
        validate_pi_rpc_environment(&environment).unwrap_err().contains("podman-workspace")
    );
    environment.mode = Some(PODMAN_WORKSPACE_MODE);
    environment.broker_token = None;
    assert!(
        validate_pi_rpc_environment(&environment)
            .unwrap_err()
            .contains("authenticated workspace broker")
    );
    environment.broker_token = Some("/broker/token");
    environment.launched = None;
    assert!(validate_pi_rpc_environment(&environment).is_err());
}

#[test]
fn sandbox_pi_rpc_arguments_are_fail_closed() {
    assert!(validate_pi_rpc_args(&strings(&["--mode", "rpc"])).is_ok());
    assert!(
        validate_pi_rpc_args(&strings(&[
            "--mode",
            "rpc",
            "--no-themes",
            "--session",
            "01a0387b-6ec0-7421-afd1-4fe665227c50",
        ]))
        .is_ok()
    );
    assert!(validate_pi_rpc_args(&strings(&["--no-themes"])).is_err());
    assert!(validate_pi_rpc_args(&strings(&["--mode", "rpc", "--model", "unsafe"])).is_err());
    assert!(
        validate_pi_rpc_args(&strings(&[
            "--mode", "rpc", "--session", "one", "--session", "two",
        ]))
        .is_err()
    );
}

#[test]
fn happy_host_runner_must_match_pi_override() {
    let runner = "/tmp/hcom-happy-pi";
    assert!(runs_on_host(Some("1"), runner, Some(runner), Some(runner)));
    assert!(!runs_on_host(Some("1"), runner, Some("/bin/sh"), Some(runner)));
    assert!(!runs_on_host(None, runner, Some(runner), Some(runner)));
    assert!(!runs_on_host(Some("1"), runner, None, None));
}

#[test]
fn modes_are_named_and_others_are_refused() {
    assert_eq!(read_sandbox_mode("").unwrap(), SandboxMode::Off);
    assert_eq!(read_sandbox_mode("off").unwrap(), SandboxMode::Off);
    assert_eq!(read_sandbox_mode(WORKSPACE_MODE).unwrap(), SandboxMode::Workspace);
    assert_eq!(read_sandbox_mode(PODMAN_WORKSPACE_MODE).unwrap(), SandboxMode::PodmanWorkspace);
    assert_eq!(
        read_sandbox_mode("docker").unwrap_err(),
        "Unsupported HCOM worker sandbox mode: docker"
    );
    assert_eq!(MODE_ENV, "HCOM_WORKER_SANDBOX");
    assert_eq!(ROOT_ENV, "HCOM_WORKER_SANDBOX_ROOT");
}

#[test]
fn unsafe_workspaces_are_refused() {
    assert!(refuse_workspace("/", None, "/home/u/.hcom").is_some());
    assert!(refuse_workspace("/home/u", Some("/home/u"), "/var/hcom").is_some());
    assert!(refuse_workspace("/home/u/p", Some("/home/u"), "/home/u/p/.hcom").is_some());
    assert!(refuse_workspace("/home/u/p", Some("/home/u"), "/home/u/p2/.hcom").is_none());
}

#[test]
fn workspaces_are_known_by_the_digest_of_their_path() {
    assert_eq!(workspace_id(&b"abc".to_vec()), "ba7816bf8f01cfea4141");
}

#[test]
fn blank_settings_count_as_absent() {
    assert_eq!(env_nonempty(Some("  ")), None);
    assert_eq!(env_nonempty(Some("x")).as_deref(), Some("x"));
    assert_eq!(setting_or(Some(""), "512"), "512");
    assert_eq!(setting_or(Some("9"), "512"), "9");
    assert_eq!(bind_mount_arg("/a", "/b", true), "/a:/b:ro");
}

fn probe(setting: &str, absolute: bool, exists: bool, parent: &str) -> PathProbe {
    PathProbe { setting: setting.to_string(), absolute, exists, parent: Some(parent.to_string()) }
}

#[test]
fn bridges_and_brokers_need_existing_absolute_paths() {
    let good = vec![probe("MMX_SOCKET", true, true, "/tmp/mmx")];
    assert_eq!(read_bridges(&good).unwrap(), strings(&["/tmp/mmx"]));
    let bad = vec![probe("MMX_SOCKET", false, true, "/tmp/mmx")];
    assert_eq!(
        read_bridges(&bad).unwrap_err(),
        "MMX_SOCKET must be an existing absolute path"
    );
    let socket = probe("HCOM_BROKER_SOCKET", true, true, "/run/b");
    let token = probe("HCOM_BROKER_TOKEN_FILE", true, true, "/run/b");
    let elsewhere = probe("HCOM_BROKER_TOKEN_FILE", true, true, "/run/c");
    assert_eq!(read_broker(Some(&socket), Some(&token)).unwrap().as_deref(), Some("/run/b"));
    assert_eq!(read_broker(None, None).unwrap(), None);
    assert!(read_broker(Some(&socket), None).is_err());
    assert!(read_broker(Some(&socket), Some(&elsewhere)).is_err());
}

#[test]
fn payload_roots_need_a_current_payload() {
    assert_eq!(read_payload(None, None).unwrap(), None);
    assert_eq!(read_payload(Some("/p"), Some("/p/v1")).unwrap().as_deref(), Some("/p/v1"));
    assert!(read_payload(Some("/p"), None).is_err());
    let mut plan = podman("/tmp/workspace");
    assert!(!plan.create_args().iter().any(|arg| arg.contains("/p/v1")));
    plan.payload = Some("/p/v1".to_string());
    assert!(plan.create_args().iter().any(|arg| arg.contains("/p/v1") && arg.ends_with(":ro")));
}

#[test]
fn later_host_files_win() {
    assert!(host_is_newer(Some(2), Some(1)));
    assert!(!host_is_newer(Some(1), Some(1)));
    assert!(host_is_newer(None, Some(1)));
}

#[test]
fn links_and_locks_are_not_copied() {
    assert!(is_credential("provider.md", true));
    assert!(!is_credential("refused-symlink.md", false));
    assert!(!is_credential("provider.txt", true));
    assert!(is_agent_file("auth.json", true));
    assert!(!is_agent_file("auth.json.lock", true));
}

#[test]
fn settings_name_the_extensions_of_the_sandbox() {
    let host = "{\"a\":\"/h/ext/x\",\"b\":\"/h/ext\"}";
    assert_eq!(rewrite_settings(host, "/h/ext", "/s/e"), "{\"a\":\"/s/e/x\",\"b\":\"/s/e\"}");
}

#[test]
fn paths_end_in_their_name() {
    assert_eq!(path_name("/usr/bin/pi"), "pi");
    assert_eq!(path_name("pi"), "pi");
    assert_eq!(path_name("/usr/bin/pi/"), "pi");
}

fn unset() -> PodmanSettings {
    PodmanSettings {
        state_root: None,
        home: Some("/home/u".to_string()),
        image: None,
        pids_limit: Some("  ".to_string()),
        memory: None,
        cpus: Some("8".to_string()),
    }
}

#[test]
fn containers_are_planned_from_settings_and_defaults() {
    let plan = plan_podman("/w", "0a1b", &unset()).unwrap();
    let root = "/home/u/.local/share/hcom-sandbox/workspaces/0a1b";
    assert_eq!(podman_state_root("0a1b", &unset()).unwrap(), root);
    assert_eq!(plan.pi_state, format!("{root}/pi-agent"));
    assert_eq!(plan.cache_state, format!("{root}/cache"));
    assert_eq!(plan.client_state, format!("{root}/hcom-client"));
    assert_eq!(plan.image, "localhost/hcom-pi-workspace:live");
    assert_eq!((plan.pids_limit.as_str(), plan.memory.as_str()), ("512", "4g"));
    assert_eq!(plan.cpus, "8");
    assert!(plan.bridges.is_empty() && plan.broker.is_none() && plan.payload.is_none());

    let mut settings = unset();
    settings.state_root = Some("/state/".to_string());
    assert_eq!(podman_state_root("0a1b", &settings).unwrap(), "/state/0a1b");
    settings.state_root = None;
    settings.home = None;
    assert_eq!(
        plan_podman("/w", "0a1b", &settings).unwrap_err(),
        "Cannot resolve HOME for Podman workspace state"
    );
}

fn found(setting: &str, parent: &str) -> PathProbe {
    PathProbe {
        setting: setting.to_string(),
        absolute: true,
        exists: true,
        parent: Some(parent.to_string()),
    }
}

#[test]
fn new_containers_are_shown_what_is_found() {
    assert_eq!(
        bridge_settings(),
        strings(&["AGENTMEMORY_SOCKET", "ANYSEARCH_SOCKET", "MMX_SOCKET", "FLOWUS_SOCKET"])
    );
    let mut around = Surroundings {
        bridges: vec![found("MMX_SOCKET", "/tmp/mmx")],
        broker_socket: Some(found("HCOM_BROKER_SOCKET", "/tmp/broker")),
        broker_token: Some(found("HCOM_BROKER_TOKEN_FILE", "/tmp/broker")),
        payload_root: Some("/p".to_string()),
        payload_current: Some("/p/versions/1".to_string()),
    };
    let plan = plan_podman("/w", "0a1b", &unset()).unwrap().resolve(&around).unwrap();
    assert_eq!(plan.bridges, strings(&["/tmp/mmx"]));
    assert_eq!(plan.broker.as_deref(), Some("/tmp/broker"));
    assert_eq!(plan.payload.as_deref(), Some("/p/versions/1"));
    assert_eq!(plan.cpus, "8");
    assert_eq!(
        plan.next_stage(PodmanStage::Resolve, &reply(0, "")).unwrap(),
        PodmanStage::ImageMode
    );

    around.payload_current = None;
    assert!(plan_podman("/w", "0a1b", &unset()).unwrap().resolve(&around).is_err());
    around.broker_token = None;
    assert_eq!(
        plan_podman("/w", "0a1b", &unset()).unwrap().resolve(&around).unwrap_err(),
        "broker socket and token must be configured together"
    );
    around.bridges[0].exists = false;
    assert_eq!(
        plan_podman("/w", "0a1b", &unset()).unwrap().resolve(&around).unwrap_err(),
        "MMX_SOCKET must be an existing absolute path"
    );
}

#[test]
fn host_files_are_kept_up_to_date() {
    let files = synchronized_files();
    let names: Vec<&str> = files.iter().map(|file| file.name.as_str()).collect();
    assert_eq!(names, vec!["auth.json", "models.json", "APPEND_SYSTEM.md"]);
    assert_eq!(files[2].rule, SyncRule::Canonical);
    assert!(needs_copy(SyncRule::Newer, true, true, false));
    assert!(!needs_copy(SyncRule::Newer, true, false, true));
    assert!(needs_copy(SyncRule::Canonical, true, false, true));
    assert!(!needs_copy(SyncRule::Canonical, true, true, false));
    assert!(!needs_copy(SyncRule::Canonical, false, true, true));
}

#[test]
fn names_are_put_below_directories() {
    for (dir, name) in [("/a", "b"), ("/a/", "b"), ("", "b"), ("/a", "/b"), ("/", "b"), ("a", "")] {
        assert_eq!(under(dir, name), Path::new(dir).join(name).to_string_lossy(), "{dir:?} {name:?}");
    }
}
