//! Configuration values for a session, as parsed from the command line.
//! The argument parsing itself is plain I/O and lives outside the library;
//! it fills this struct.

use vstd::prelude::*;

verus! {

/// Session configuration.
#[derive(Debug)]
pub struct Cli {
    /// The chosen subcommand, if any.
    pub command: Option<Command>,
    /// Console server address, `host:port`.
    pub addr: String,
    /// Console password.
    pub password: String,
    /// Assistant model override, if any.
    pub model: Option<String>,
    /// Whether the in-game chat bridge runs.
    pub bridge: bool,
}

/// The subcommands.
#[derive(Debug, Clone, Copy, PartialEq, Eq, Structural)]
pub enum Command {
    /// Install the companion game modification.
    InstallMod,
}

/// Default console address.
pub fn default_addr() -> (r: &'static str)
    ensures
        r@ == "127.0.0.1:27015"@,
{
    "127.0.0.1:27015"
}

/// Default console password.
pub fn default_password() -> (r: &'static str)
    ensures
        r@ == "factorio"@,
{
    "factorio"
}

} // verus!
