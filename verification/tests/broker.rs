//! The broker: what it serves, who it serves, and how it talks.

use hcom::broker::{
    CappedOutput, EnvVar, MAX_HEADER, MAX_OUTPUT, MAX_REQUEST, PROTOCOL_VERSION, Request, authorize,
    constant_time_eq, decode_frame, encode_frame, exit_code, find_flag, frame_length, is_env_allowed, plan_child,
    is_local_control_command, maybe_serve, read_token, refuse_cwd, refuse_header, refuse_request,
    required_flag, should_forward,
};

fn strings(values: &[&str]) -> Vec<String> {
    values.iter().map(|value| value.to_string()).collect()
}

fn tools() -> Vec<String> {
    strings(&["gemini", "codex", "opencode", "pi"])
}

fn request(cwd: &str) -> Request {
    Request {
        version: PROTOCOL_VERSION,
        token: "secret".to_string(),
        argv: strings(&["status"]),
        env: Vec::new(),
        cwd: cwd.to_string(),
    }
}

#[test]
fn authorization_is_allowlist_only() {
    for argv in [
        strings(&["send", "@a", "--", "hello"]),
        strings(&["pi-beforetool", "--name", "a"]),
        strings(&["--name", "a", "status"]),
    ] {
        assert!(authorize(&argv), "should authorize {argv:?}");
    }
    for argv in [
        vec![],
        strings(&["broker-serve"]),
        strings(&["config"]),
        strings(&["hooks"]),
        strings(&["archive"]),
        strings(&["reset"]),
        strings(&["relay"]),
        strings(&["run"]),
        strings(&["update"]),
        strings(&["pty", "gemini"]),
        strings(&["resume", "a"]),
        strings(&["gemini"]),
        strings(&["3", "pi"]),
        strings(&["unknown"]),
        strings(&["2", "unknown"]),
    ] {
        assert!(!authorize(&argv), "should deny {argv:?}");
    }
}

#[test]
fn launch_and_pty_commands_stay_local() {
    for argv in [
        vec![],
        strings(&["pty", "pi"]),
        strings(&["resume", "a"]),
        strings(&["r", "a"]),
        strings(&["fork", "a"]),
        strings(&["pi"]),
        strings(&["3", "pi"]),
    ] {
        assert!(is_local_control_command(&argv, &tools()), "should stay local {argv:?}");
    }
    assert!(!is_local_control_command(&strings(&["send", "@a", "hi"]), &tools()));
    assert!(!is_local_control_command(&strings(&["status"]), &tools()));
}

#[test]
fn protocol_frames_are_bounded_and_round_trip() {
    let payload: Vec<u8> = b"{\"version\":1,\"argv\":[\"status\",\"--json\"]}".to_vec();
    let wire = encode_frame(&payload, MAX_REQUEST).unwrap();
    assert_eq!(wire[..4], (payload.len() as u32).to_be_bytes());
    let length = frame_length(&wire[..4], MAX_REQUEST).unwrap();
    assert_eq!(&wire[4..4 + length], payload.as_slice());
    assert_eq!(decode_frame(&wire, MAX_REQUEST).unwrap(), payload);
    let mut followed = wire.clone();
    followed.extend([1, 2, 3]);
    assert_eq!(decode_frame(&followed, payload.len()).unwrap(), payload);
    assert!(decode_frame(&wire, payload.len() - 1).unwrap_err().contains("exceeds"));
    assert!(decode_frame(&wire[..5], MAX_REQUEST).unwrap_err().contains("incomplete"));
    assert!(decode_frame(&[0, 0, 0, 5, 0, 0, 0, 0, 0], 4).is_err());
    assert_eq!(encode_frame(&payload, usize::MAX).unwrap(), wire);
    assert!(frame_length(&5_u32.to_be_bytes(), 4).is_err());
    assert!(encode_frame(&vec![0_u8; 5], 4).is_err());
}

#[test]
fn token_comparison_checks_content_and_length() {
    assert!(constant_time_eq(b"secret", b"secret"));
    assert!(!constant_time_eq(b"secret", b"secreu"));
    assert!(!constant_time_eq(b"secret", b"secret-extra"));
}

#[test]
fn authentication_environment_and_workspace_are_enforced() {
    let mut valid = request("/work/child");
    valid.env.push(EnvVar { key: "HCOM_PROCESS_ID".to_string(), value: "agent-1".to_string() });
    assert_eq!(refuse_request(&valid, "secret"), None);
    assert_eq!(refuse_cwd("/work/child", "/work"), None);

    let mut bad_token = request("/work");
    bad_token.token = "wrong".to_string();
    assert!(refuse_request(&bad_token, "secret").unwrap().contains("authentication"));

    assert!(refuse_cwd("/elsewhere", "/work").unwrap().contains("outside broker workspace"));
    assert!(refuse_cwd("/workshop", "/work").unwrap().contains("outside broker workspace"));

    let mut bad_env = request("/work");
    bad_env.env.push(EnvVar { key: "HOME".to_string(), value: "/attacker".to_string() });
    assert!(refuse_request(&bad_env, "secret").unwrap().contains("disallowed environment"));
}

#[test]
fn requests_of_another_version_or_command_are_refused() {
    let mut old = request("/work");
    old.version = PROTOCOL_VERSION + 1;
    assert!(refuse_request(&old, "secret").is_some());
    let mut denied = request("/work");
    denied.argv = strings(&["reset"]);
    assert!(refuse_request(&denied, "secret").is_some());
}

#[test]
fn environment_variables_are_allowlisted() {
    assert!(is_env_allowed("HCOM_PROCESS_ID"));
    assert!(!is_env_allowed("HOME"));
    assert!(!is_env_allowed("PATH"));
}

#[test]
fn oversized_output_is_rejected() {
    let mut small = CappedOutput::new(8);
    small.take_in(b"exact");
    small.take_in(b"ly8");
    assert_eq!(small.finish().unwrap(), b"exactly8".to_vec());
    let mut large = CappedOutput::new(8);
    large.take_in(&[b'x'; 9]);
    assert!(large.finish().is_err());
    assert!(refuse_header(PROTOCOL_VERSION, 3, 4).is_none());
    assert!(refuse_header(PROTOCOL_VERSION, MAX_OUTPUT as u64 + 1, 0).is_some());
    assert!(refuse_header(PROTOCOL_VERSION + 1, 0, 0).is_some());
    assert!(MAX_HEADER > 0);
}

#[test]
fn tokens_are_read_from_their_file() {
    assert_eq!(read_token("secret\n").unwrap(), "secret");
    assert!(read_token("\r\n").is_err());
}

#[test]
fn serving_needs_every_path() {
    assert!(maybe_serve(&strings(&["status"])).unwrap().is_none());
    let full = strings(&[
        "broker-serve", "--socket", "/run/s", "--token-file", "/run/t", "--workspace", "/w",
    ]);
    let paths = maybe_serve(&full).unwrap().unwrap();
    assert_eq!(paths.socket, "/run/s");
    assert_eq!(paths.token_file, "/run/t");
    assert_eq!(paths.workspace, "/w");
    let short = strings(&["broker-serve", "--socket", "/run/s", "--token-file"]);
    assert_eq!(
        maybe_serve(&short).unwrap_err(),
        "broker-serve requires --token-file PATH"
    );
    assert_eq!(find_flag(&full, "--workspace"), Some(5));
    assert_eq!(required_flag(&full, "--workspace").unwrap(), "/w");
}

#[test]
fn commands_are_forwarded_only_to_a_broker() {
    let argv = strings(&["status"]);
    assert!(should_forward(None, &argv, &tools(), true, true));
    assert!(!should_forward(None, &argv, &tools(), false, true));
    assert!(!should_forward(None, &argv, &tools(), true, false));
    assert!(!should_forward(Some("1"), &argv, &tools(), true, true));
    assert!(!should_forward(None, &strings(&["pi"]), &tools(), true, true));
}

#[test]
fn exit_codes_tell_signals_apart() {
    assert_eq!(exit_code(Some(7), None), 7);
    assert_eq!(exit_code(None, Some(9)), 137);
}

#[test]
fn requests_run_in_the_workspace_and_forward_nothing() {
    let mut valid = request("/work/child");
    valid.env.push(EnvVar { key: "HCOM_TAG".to_string(), value: "red".to_string() });
    let plan = plan_child(&valid, "/work");
    assert_eq!(plan.args, valid.argv);
    assert_eq!(plan.directory, "/work");
    let env: Vec<(&str, &str)> =
        plan.env.iter().map(|variable| (variable.key.as_str(), variable.value.as_str())).collect();
    assert_eq!(env, vec![("HCOM_BROKER_DIRECT", "1"), ("HCOM_TAG", "red")]);
}
