//! Who sends, and how their messages are routed.

use crate::json::{Json, JsonV, member_text};
use crate::text::{opt_str, opt_text, same};
use crate::workers::ends_with;
use vstd::prelude::*;
use vstd::utf8::{decode_utf8, encode_utf8, is_char_boundary};

verus! {

broadcast use vstd::string::group_string_axioms;

/// What a sender is, which decides how its messages are routed.
#[derive(Debug, Clone, Copy, PartialEq, Eq, Structural)]
pub enum SenderKind {
    /// A registered participant.
    Instance,
    /// Someone outside, whose messages go to all.
    External,
    /// The system, whose messages go to all.
    System,
}

/// A sender: what it is, its name, what is known of it where it is a participant, and its session.
#[derive(Debug)]
pub struct SenderIdentity {
    pub kind: SenderKind,
    pub name: String,
    pub instance_data: Option<Json>,
    pub session_id: Option<String>,
}

/// The identity that a command is run with.
#[derive(Debug)]
pub struct CommandContext {
    pub explicit_name: Option<String>,
    pub identity: Option<SenderIdentity>,
    pub go: bool,
}

/// The session that groups a participant: that of its parent where it has one, else its own.
pub open spec fn group_of(data: Option<JsonV>) -> Option<Seq<char>> {
    match data {
        None => None,
        Some(d) => match member_text(d, "parent_session_id"@) {
            Some(s) => if s.len() > 0 {
                Some(s)
            } else {
                own_group(d)
            },
            None => own_group(d),
        },
    }
}

/// The own session of a participant.
pub open spec fn own_group(data: JsonV) -> Option<Seq<char>> {
    match member_text(data, "session_id"@) {
        Some(s) => if s.len() > 0 {
            Some(s)
        } else {
            None
        },
        None => None,
    }
}

impl SenderIdentity {
    /// Whether the messages of the sender go to all.
    pub fn broadcasts(&self) -> (r: bool)
        ensures
            r == (self.kind == SenderKind::External || self.kind == SenderKind::System),
    {
        match self.kind {
            SenderKind::Instance => false,
            SenderKind::External => true,
            SenderKind::System => true,
        }
    }

    /// The session that groups the sender: that of its parent where it has one, else its own.
    pub fn group_id(&self) -> (r: Option<&str>)
        ensures
            opt_str(r) == group_of(
                match self.instance_data {
                    Some(d) => Some(d@),
                    None => None,
                },
            ),
    {
        match &self.instance_data {
            None => None,
            Some(data) => {
                if let Some(s) = data.get_text("parent_session_id") {
                    if s.unicode_len() > 0 {
                        return Some(s);
                    }
                }
                match data.get_text("session_id") {
                    Some(s) => if s.unicode_len() > 0 {
                        Some(s)
                    } else {
                        None
                    },
                    None => None,
                }
            },
        }
    }
}

/// The value of a text that is a UUID in one of its written forms.
pub uninterp spec fn uuid_value(s: Seq<char>) -> Option<u128>;

/// `uuid::Uuid::parse_str` and `uuid::Uuid::as_u128`: the value of a UUID, nothing where the text is
/// none. The result depends on the text alone.
#[verifier::external_body]
pub(crate) fn parse_uuid(s: &str) -> (r: Option<u128>)
    ensures
        r == uuid_value(s@),
{
    match uuid::Uuid::parse_str(s) {
        Ok(u) => Some(u.as_u128()),
        Err(_) => None,
    }
}

/// The last 36 bytes of a text, where they can be cut off.
pub open spec fn last_36_bytes(s: Seq<char>) -> Option<Seq<char>> {
    let b = encode_utf8(s);
    if b.len() < 36 || !is_char_boundary(b, b.len() - 36) {
        None
    } else {
        Some(decode_utf8(b.subrange(b.len() - 36, b.len() as int)))
    }
}

/// The session that an id names, where the id was read as a UUID.
pub open spec fn session_read(id: Seq<char>, parsed: Option<u128>) -> Option<Seq<char>> {
    if parsed is Some {
        Some(id)
    } else {
        None
    }
}

/// The session that an id names, where the id was read as a UUID.
pub fn accept_session(id: &str, parsed: Option<u128>) -> (r: Option<String>)
    ensures
        opt_text(r) == session_read(id@, parsed),
{
    if parsed.is_some() {
        Some(id.to_owned())
    } else {
        None
    }
}

/// The session that a transcript of the tool `codex` belongs to: the UUID that ends its file name.
pub open spec fn native_session(tool: Seq<char>, path: Seq<char>) -> Option<Seq<char>> {
    if tool != "codex"@ || !".jsonl"@.is_suffix_of(path) {
        None
    } else {
        match last_36_bytes(path.take(path.len() - ".jsonl"@.len())) {
            None => None,
            Some(id) => session_read(id, uuid_value(id)),
        }
    }
}

fn cut_last_36_bytes(s: &str) -> (r: Option<&str>)
    ensures
        opt_str(r) == last_36_bytes(s@),
{
    let n: usize = s.as_bytes().len();
    if n < 36 || !s.is_char_boundary(n - 36) {
        return None;
    }
    let tail: &str = s.split_at(n - 36).1;
    proof {
        vstd::utf8::encode_utf8_decode_utf8(tail@);
    }
    Some(tail)
}

/// The session that a transcript of the tool `codex` belongs to, which its file name ends with even
/// where an instance still carries the session it was launched with.
pub fn native_session_id_from_transcript(tool: &str, transcript_path: &str) -> (r: Option<String>)
    ensures
        opt_text(r) == native_session(tool@, transcript_path@),
{
    if !same(tool, "codex") || !ends_with(transcript_path, ".jsonl") {
        return None;
    }
    let n: usize = transcript_path.unicode_len();
    let m: usize = ".jsonl".unicode_len();
    let stem: &str = transcript_path.substring_char(0, n - m);
    assert(transcript_path@.subrange(0, n - m) =~= transcript_path@.take(n - m));
    match cut_last_36_bytes(stem) {
        None => None,
        Some(id) => accept_session(id, parse_uuid(id)),
    }
}

/// The messages of those outside and of the system go to all, and those of participants do not.
pub proof fn outsiders_address_all(sender: SenderIdentity, r: bool)
    requires
        call_ensures(SenderIdentity::broadcasts, (&sender,), r),
    ensures
        sender.kind is External || sender.kind is System ==> r,
        sender.kind is Instance ==> !r,
{
}

/// A participant is grouped with its parent where it names one, else by its own session; a sender of
/// whom nothing is known is in no group.
pub proof fn participants_are_grouped_by_session(sender: SenderIdentity, data: Json, r: Option<&str>, parent: Seq<char>, own: Seq<char>)
    requires
        call_ensures(SenderIdentity::group_id, (&sender,), r),
    ensures
        sender.instance_data is None ==> r is None,
        sender.instance_data == Some(data) && member_text(data@, "parent_session_id"@) == Some(parent) && parent.len() > 0 ==> (r matches Some(s) && s@ == parent),
        sender.instance_data == Some(data) && (member_text(data@, "parent_session_id"@) is None || member_text(data@, "parent_session_id"@)->0.len() == 0) && member_text(data@, "session_id"@) == Some(own) && own.len() > 0 ==> (r matches Some(s) && s@ == own),
        sender.instance_data == Some(data) && (member_text(data@, "parent_session_id"@) is None || member_text(data@, "parent_session_id"@)->0.len() == 0) && (member_text(data@, "session_id"@) is None || member_text(data@, "session_id"@)->0.len() == 0) ==> r is None,
{
}

/// The session of a transcript is the UUID at the end of its name, for the tool `codex` alone and for
/// names that end in `.jsonl`; an id that is no UUID names no session.
pub proof fn transcripts_name_their_session(tool: &str, path: &str, r: Option<String>, id: &str, parsed: Option<u128>, accepted: Option<String>)
    requires
        call_ensures(native_session_id_from_transcript, (tool, path), r),
        parsed == uuid_value(id@),
        call_ensures(accept_session, (id, parsed), accepted),
    ensures
        tool@ != "codex"@ ==> r is None,
        !".jsonl"@.is_suffix_of(path@) ==> r is None,
        accepted is Some <==> parsed is Some,
        accepted matches Some(s) ==> s@ == id@,
        tool@ == "codex"@ && ".jsonl"@.is_suffix_of(path@) && last_36_bytes(path@.take(path@.len() - 6)) == Some(id@) ==> opt_text(r) == opt_text(accepted),
        r matches Some(s) ==> last_36_bytes(path@.take(path@.len() - 6)) == Some(s@) && uuid_value(s@) is Some,
{
    reveal_strlit(".jsonl");
    assert(".jsonl"@.len() == 6);
}

} // verus!
