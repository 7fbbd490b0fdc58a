//! The subcommands of the program: `env` and `install`.

pub mod env;
pub mod install;
