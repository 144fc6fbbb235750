//! Instants given as texts.

use crate::store::opt_id;
use vstd::prelude::*;

verus! {

/// The seconds since the epoch of an RFC 3339 instant; nothing where the text is none.
pub uninterp spec fn rfc3339_seconds(s: Seq<char>) -> Option<int>;

/// The seconds since the epoch of an instant in a format; nothing where the text is none.
pub uninterp spec fn formatted_seconds(s: Seq<char>, format: Seq<char>) -> Option<int>;

/// `chrono::DateTime::parse_from_rfc3339` and `chrono::DateTime::timestamp`: the seconds since the
/// epoch of an RFC 3339 instant. The result depends on the text alone.
#[verifier::external_body]
fn parse_rfc3339(s: &str) -> (r: Option<i64>)
    ensures
        opt_id(r) == rfc3339_seconds(s@),
{
    match chrono::DateTime::parse_from_rfc3339(s) {
        Ok(t) => Some(t.timestamp()),
        Err(_) => None,
    }
}

/// `chrono::DateTime::parse_from_str` and `chrono::DateTime::timestamp`: the seconds since the
/// epoch of an instant in a format. The result depends on the text and the format alone.
#[verifier::external_body]
fn parse_formatted(s: &str, format: &str) -> (r: Option<i64>)
    ensures
        opt_id(r) == formatted_seconds(s@, format@),
{
    match chrono::DateTime::parse_from_str(s, format) {
        Ok(t) => Some(t.timestamp()),
        Err(_) => None,
    }
}

/// The seconds that a text was read as: in RFC 3339, or else with a bare `Z`; zero where it was read
/// as neither.
pub open spec fn seconds_read(rfc3339: Option<int>, bare: Option<int>) -> int {
    match rfc3339 {
        Some(n) => n,
        None => match bare {
            Some(n) => n,
            None => 0,
        },
    }
}

/// The seconds that a text was read as: in RFC 3339, or else with a bare `Z`; zero where it was read
/// as neither.
pub fn choose_seconds(rfc3339: Option<i64>, bare: Option<i64>) -> (r: i64)
    ensures
        r == seconds_read(opt_id(rfc3339), opt_id(bare)),
{
    match rfc3339 {
        Some(n) => n,
        None => match bare {
            Some(n) => n,
            None => 0,
        },
    }
}

/// The seconds since the epoch of an instant that is written in RFC 3339, or with a bare `Z`; zero
/// where the text is none.
pub open spec fn instant_seconds(s: Seq<char>) -> int {
    seconds_read(rfc3339_seconds(s), formatted_seconds(s, "%Y-%m-%dT%H:%M:%SZ"@))
}

/// The seconds since the epoch of an instant, zero where the text is none.
pub fn parse_instant(s: &str) -> (r: i64)
    ensures
        r == instant_seconds(s@),
{
    choose_seconds(parse_rfc3339(s), parse_formatted(s, "%Y-%m-%dT%H:%M:%SZ"))
}

/// An instant is what RFC 3339 makes of it, else what the form with a bare `Z` makes of it, else zero.
pub proof fn instants_are_read_in_two_forms(rfc3339: Option<i64>, bare: Option<i64>, r: i64, s: &str, read: i64)
    requires
        call_ensures(choose_seconds, (rfc3339, bare), r),
        call_ensures(parse_instant, (s,), read),
    ensures
        rfc3339 is Some ==> r == rfc3339->0,
        rfc3339 is None && bare is Some ==> r == bare->0,
        rfc3339 is None && bare is None ==> r == 0,
        rfc3339_seconds(s@) is Some ==> read == rfc3339_seconds(s@)->0,
        rfc3339_seconds(s@) is None && formatted_seconds(s@, "%Y-%m-%dT%H:%M:%SZ"@) is Some ==> read == formatted_seconds(s@, "%Y-%m-%dT%H:%M:%SZ"@)->0,
        rfc3339_seconds(s@) is None && formatted_seconds(s@, "%Y-%m-%dT%H:%M:%SZ"@) is None ==> read == 0,
{
}

} // verus!
