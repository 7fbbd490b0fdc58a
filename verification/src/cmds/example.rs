//! A template for a new subcommand.

use vstd::prelude::*;

use crate::cmds::Commands;

verus! {

/// The arguments of the template subcommand: none.
pub struct CliCommand {}

/// The arguments of the template subcommand when `commands` is that
/// subcommand; `None` for any other subcommand.
pub fn match_and_run(commands: &Commands) -> (r: Option<&CliCommand>)
    ensures
        match commands {
            Commands::EXAMPLE(cmd) => r == Some(cmd),
            _ => r is None,
        },
{
    match commands {
        Commands::EXAMPLE(cmd) => Some(cmd),
        _ => None,
    }
}

/// The work of the template subcommand: none yet.
pub fn run(_cmd: &CliCommand) {
}

} // verus!
