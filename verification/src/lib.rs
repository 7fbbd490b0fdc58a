//! The logic of `bvm`, a version manager for the bun runtime: reading version
//! names, choosing installed binaries and releases, and the decisions of its
//! subcommands.

pub mod bun_version;
pub mod cmds;
pub mod commands;
pub mod grammar;
pub mod laws;
pub mod paths;
pub mod precedence;
pub mod precedence_laws;
pub mod text;
pub mod utils;
pub mod version_order;
