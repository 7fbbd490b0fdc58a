//! The subcommands `env`, `install`, `list`, `uninstall` and `use`, and a
//! template for new ones: their arguments and their decisions. Running a
//! command (files, network, terminal) is left to the program around them.

pub mod cmd_env;
pub mod cmd_install;
pub mod cmd_list;
pub mod cmd_uninstall;
pub mod cmd_use;
pub mod example;

use vstd::prelude::*;

verus! {

/// A subcommand with its arguments.
#[allow(non_camel_case_types)]
pub enum Commands {
    Env(cmd_env::CliCommand),
    Install(cmd_install::CliCommand),
    List(cmd_list::CliCommand),
    Uninstall(cmd_uninstall::CliCommand),
    Use(cmd_use::CliCommand),
    EXAMPLE(example::CliCommand),
}

} // verus!
