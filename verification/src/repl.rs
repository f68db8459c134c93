//! Decision logic of the interactive session: how one line of user input is
//! classified, and the canned status prompt.

use vstd::prelude::*;

use crate::text;

verus! {

/// What the interactive loop should do with one line of input.
#[derive(Debug, PartialEq)]
pub enum ReplAction {
    /// End the session.
    Quit,
    /// Show the command summary.
    Help,
    /// Forget the conversation so far.
    ClearHistory,
    /// Ask the assistant for the canned status overview.
    Status,
    /// Ask the assistant the given (trimmed) question.
    Ask(String),
}

/// The canned prompt behind the status command.
pub fn status_prompt() -> (r: &'static str)
    ensures
        r@
            == "Give me a quick status overview: check my position, power grid, current research, and production of iron-plate and copper-plate."@,
{
    "Give me a quick status overview: check my position, power grid, current research, and production of iron-plate and copper-plate."
}

/// Classify one line of input: trim it; an empty line does nothing; the
/// four slash commands map to their actions; anything else is a question
/// for the assistant, passed on trimmed.
pub fn classify_input(input: &str) -> (r: Option<ReplAction>)
    ensures
        ({
            let t = text::spec_trim(input@);
            match r {
                None => t.len() == 0,
                Some(a) => t.len() != 0 && match a {
                    ReplAction::Quit => t == "/quit"@,
                    ReplAction::Help => t == "/help"@,
                    ReplAction::ClearHistory => t == "/clear"@,
                    ReplAction::Status => t == "/status"@,
                    ReplAction::Ask(q) => q@ == t && t != "/quit"@ && t != "/help"@ && t
                        != "/clear"@ && t != "/status"@,
                },
            }
        }),
{
    let v = text::to_char_vec(input);
    let tv = text::trim_chars(&v);
    if tv.len() == 0 {
        return None;
    }
    let t = text::chars_to_string(&tv);
    if text::str_eq(t.as_str(), "/quit") {
        Some(ReplAction::Quit)
    } else if text::str_eq(t.as_str(), "/help") {
        Some(ReplAction::Help)
    } else if text::str_eq(t.as_str(), "/clear") {
        Some(ReplAction::ClearHistory)
    } else if text::str_eq(t.as_str(), "/status") {
        Some(ReplAction::Status)
    } else {
        Some(ReplAction::Ask(t))
    }
}

} // verus!
