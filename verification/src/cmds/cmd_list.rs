//! The `list` subcommand.

use vstd::prelude::*;

use crate::cmds::Commands;

verus! {

/// The arguments of `list`: none.
pub struct CliCommand {}

/// The arguments of `list` when `commands` is that subcommand, for the
/// caller to run it with; `None` for any other subcommand.
pub fn match_and_run(commands: &Commands) -> (r: Option<&CliCommand>)
    ensures
        match commands {
            Commands::List(cmd) => r == Some(cmd),
            _ => r is None,
        },
{
    match commands {
        Commands::List(cmd) => Some(cmd),
        _ => None,
    }
}

} // verus!
