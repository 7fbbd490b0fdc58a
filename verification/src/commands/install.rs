//! The `install` subcommand of the program.

use vstd::prelude::*;

use crate::bun_version::BunVersion;

verus! {

/// The arguments of `install`: the version to install, such as `0.1.6`.
pub struct Command {
    pub bun_version: BunVersion,
}

} // verus!
