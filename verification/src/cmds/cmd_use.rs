//! The `use` subcommand.

use vstd::prelude::*;

use crate::cmds::Commands;
use crate::text::same_text;

verus! {

/// The arguments of `use`: the version to make the global one; without it,
/// the command tells which one is in use.
pub struct CliCommand {
    pub version: Option<String>,
}

/// The arguments of `use` when `commands` is that subcommand, for the
/// caller to run it with; `None` for any other subcommand.
pub fn match_and_run(commands: &Commands) -> (r: Option<&CliCommand>)
    ensures
        match commands {
            Commands::Use(cmd) => r == Some(cmd),
            _ => r is None,
        },
{
    match commands {
        Commands::Use(cmd) => Some(cmd),
        _ => None,
    }
}

/// Whether to warn that the shell has not been set up: the variable
/// `BVM_ACTIVATED` (given as `activated`, `None` where it is not set) is not
/// `1`.
pub fn activation_warning_needed(activated: &Option<String>) -> (r: bool)
    ensures
        r == !(activated matches Some(v) && v@ == "1"@),
{
    match activated {
        Some(v) => !same_text(v.as_str(), "1"),
        None => true,
    }
}

} // verus!
