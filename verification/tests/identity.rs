//! Who sends a message.

use hcom::identity::{
    SenderIdentity, SenderKind, accept_session, native_session_id_from_transcript,
};
use hcom::json::{Json, Member};

fn sender(kind: SenderKind, name: &str, data: Option<Json>) -> SenderIdentity {
    SenderIdentity { kind, name: name.to_string(), instance_data: data, session_id: None }
}

fn object(members: &[(&str, &str)]) -> Json {
    Json::Object(
        members
            .iter()
            .map(|(key, value)| Member { key: key.to_string(), value: Json::Text(value.to_string()) })
            .collect(),
    )
}

#[test]
fn test_sender_identity_broadcasts() {
    assert!(!sender(SenderKind::Instance, "luna", None).broadcasts());
    assert!(sender(SenderKind::External, "user", None).broadcasts());
    assert!(sender(SenderKind::System, "hcom", None).broadcasts());
}

#[test]
fn test_sender_identity_group_id() {
    let parent = sender(SenderKind::Instance, "luna", Some(object(&[("session_id", "sess-123")])));
    assert_eq!(parent.group_id(), Some("sess-123"));

    let subagent = sender(
        SenderKind::Instance,
        "sub1",
        Some(object(&[("session_id", "sub-sess"), ("parent_session_id", "parent-sess")])),
    );
    assert_eq!(subagent.group_id(), Some("parent-sess"));

    let no_data = sender(SenderKind::Instance, "luna", None);
    assert_eq!(no_data.group_id(), None);

    let empty = sender(SenderKind::Instance, "luna", Some(object(&[])));
    assert_eq!(empty.group_id(), None);
}

#[test]
fn codex_transcript_exposes_native_session_id() {
    let id = "01a04e1f-52e7-7953-85a5-38a16546159e";
    let path =
        format!("/home/test/.codex/sessions/2026/08/29/rollout-2026-08-29T23-24-30-{id}.jsonl");
    assert_eq!(native_session_id_from_transcript("codex", &path).as_deref(), Some(id));
    assert_eq!(native_session_id_from_transcript("gemini", &path), None);
    assert_eq!(native_session_id_from_transcript("codex", "rollout-invalid.jsonl"), None);
}

#[test]
fn transcripts_without_a_session_at_their_end_expose_none() {
    let long = format!("{}.jsonl", "x".repeat(36));
    assert_eq!(native_session_id_from_transcript("codex", &long), None);
    let cut = format!("{}\u{e9}{}.jsonl", "a", "0".repeat(35));
    assert_eq!(native_session_id_from_transcript("codex", &cut), None);
    assert_eq!(accept_session("abc", Some(7)).as_deref(), Some("abc"));
    assert_eq!(accept_session("abc", None), None);
}
