//! The library's error taxonomy.

use vstd::prelude::*;

verus! {

/// What can go wrong between issuing a query and holding its typed result.
///
/// `Rcon` is a channel-level transport failure (reported by the connection,
/// never retried here).  `JsonParse` means the response text did not match
/// the expected structured shape.  `LuaError` carries verbatim an error the
/// remote runtime embedded in its reply.  `NoPlayer` is the expected outcome
/// of a query whose precondition — a connected player — does not hold.
/// `UnexpectedResponse` covers replies that fit no known form.
#[derive(Debug, PartialEq)]
pub enum SenseiError {
    Rcon(String),
    JsonParse(String),
    LuaError(String),
    NoPlayer,
    UnexpectedResponse(String),
}

impl SenseiError {
    /// A short human-readable description.
    pub fn message(&self) -> (r: String)
        ensures
            match self {
                SenseiError::Rcon(m) => r@ == "RCON error: "@ + m@,
                SenseiError::JsonParse(m) => r@ == "JSON parse error: "@ + m@,
                SenseiError::LuaError(m) => r@ == "Lua error from Factorio: "@ + m@,
                SenseiError::NoPlayer => r@ == "No player connected"@,
                SenseiError::UnexpectedResponse(m) => r@ == "Unexpected response: "@ + m@,
            },
    {
        match self {
            SenseiError::Rcon(m) => {
                let mut s = String::from_str("RCON error: ");
                s.append(m.as_str());
                s
            },
            SenseiError::JsonParse(m) => {
                let mut s = String::from_str("JSON parse error: ");
                s.append(m.as_str());
                s
            },
            SenseiError::LuaError(m) => {
                let mut s = String::from_str("Lua error from Factorio: ");
                s.append(m.as_str());
                s
            },
            SenseiError::NoPlayer => String::from_str("No player connected"),
            SenseiError::UnexpectedResponse(m) => {
                let mut s = String::from_str("Unexpected response: ");
                s.append(m.as_str());
                s
            },
        }
    }
}

} // verus!
