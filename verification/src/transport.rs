//! Command envelopes and response classification for the remote console.
//!
//! The connection itself is plain I/O and lives outside the library; callers
//! build every outgoing command text here and push every raw reply back
//! through [`classify_response`] before decoding it.

use vstd::prelude::*;

use crate::error::SenseiError;
use crate::json;
use crate::text;

verus! {

// ---------------------------------------------------------------------------
// command envelopes
// ---------------------------------------------------------------------------

/// The console command that runs a snippet remotely and serializes its
/// return value to the structured text form.
pub open spec fn spec_wrap_lua_command(snippet: Seq<char>) -> Seq<char> {
    "/c rcon.print(helpers.table_to_json("@ + snippet + "))"@
}

pub fn wrap_lua_command(snippet: &str) -> (r: String)
    ensures
        r@ == spec_wrap_lua_command(snippet@),
{
    let mut s = String::from_str("/c rcon.print(helpers.table_to_json(");
    s.append(snippet);
    s.append("))");
    s
}

/// The console command that fetches pending in-game messages.
pub fn poll_command() -> (r: &'static str)
    ensures
        r@ == "/sensei_poll"@,
{
    "/sensei_poll"
}

/// The console command that forwards one prepared reply into game chat.
pub open spec fn spec_respond_command(message: Seq<char>) -> Seq<char> {
    "/sensei_respond "@ + message
}

pub fn respond_command(message: &str) -> (r: String)
    ensures
        r@ == spec_respond_command(message@),
{
    let mut s = String::from_str("/sensei_respond ");
    s.append(message);
    s
}

// ---------------------------------------------------------------------------
// response classification
// ---------------------------------------------------------------------------

/// The top-level `error` member of the response, when the response is a
/// structured value carrying a string there.
pub open spec fn sp_error_field(s: Seq<char>) -> Option<Seq<char>> {
    match json::sp_json(s) {
        None => None,
        Some(m) => match json::sp_get(m, "error"@) {
            Some(json::JsonSpec::Str(t)) => Some(t),
            _ => None,
        },
    }
}

/// The embedded error message of a response, with the reserved `no_player`
/// sentinel filtered out (it is classified separately).
pub open spec fn sp_extract_lua_error(s: Seq<char>) -> Option<Seq<char>> {
    match sp_error_field(s) {
        None => None,
        Some(t) => if t == "no_player"@ {
            None
        } else {
            Some(t)
        },
    }
}

/// Extract a generic embedded error message from a structured response.
/// Malformed text and the `no_player` sentinel both yield `None`.
pub fn extract_lua_error(response: &str) -> (r: Option<String>)
    ensures
        match r {
            Some(m) => sp_extract_lua_error(response@) == Some(m@),
            None => sp_extract_lua_error(response@) is None,
        },
{
    match json::parse_json(response) {
        None => None,
        Some(jv) => match jv.get_field("error") {
            None => None,
            Some(f) => match f.as_text() {
                None => None,
                Some(t) => {
                    if text::str_eq(t.as_str(), "no_player") {
                        None
                    } else {
                        Some(t)
                    }
                },
            },
        },
    }
}

/// Classify a raw response by the two-stage decode: first attempt the
/// structured parse — text that does not parse, or parses without a string
/// `error` member, passes through unchanged for decoding.  A parsed reply
/// whose `error` member is the reserved sentinel classifies as `NoPlayer`;
/// any other message classifies as `LuaError`, carried verbatim.  The two
/// error classifications are mutually exclusive by construction.
pub fn classify_response(response: &str) -> (r: Result<String, SenseiError>)
    ensures
        match r {
            Ok(t) => sp_error_field(response@) is None && t@ == response@,
            Err(e) => match e {
                SenseiError::NoPlayer => sp_error_field(response@) == Some("no_player"@),
                SenseiError::LuaError(m) => sp_error_field(response@) == Some(m@) && m@
                    != "no_player"@,
                _ => false,
            },
        },
{
    match json::parse_json(response) {
        None => Ok(response.to_owned()),
        Some(jv) => match jv.get_field("error") {
            None => Ok(response.to_owned()),
            Some(f) => match f.as_text() {
                None => Ok(response.to_owned()),
                Some(t) => {
                    if text::str_eq(t.as_str(), "no_player") {
                        Err(SenseiError::NoPlayer)
                    } else {
                        Err(SenseiError::LuaError(t))
                    }
                },
            },
        },
    }
}

} // verus!
