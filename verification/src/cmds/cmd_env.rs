//! The `env` subcommand.

use vstd::prelude::*;

use crate::cmds::Commands;
use crate::paths::opt_view;

verus! {

/// The arguments of `env`: none.
pub struct CliCommand {}

/// The arguments of `env` when `commands` is that subcommand, for the
/// caller to run it with; `None` for any other subcommand.
pub fn match_and_run(commands: &Commands) -> (r: Option<&CliCommand>)
    ensures
        match commands {
            Commands::Env(cmd) => r == Some(cmd),
            _ => r is None,
        },
{
    match commands {
        Commands::Env(cmd) => Some(cmd),
        _ => None,
    }
}

/// What `tinytemplate` renders for the template text `template` with a
/// context that maps `key` to `value`; `None` where the template does not
/// compile or does not render.
pub uninterp spec fn tinytemplate_render(template: Seq<char>, key: Seq<char>, value: Seq<char>) -> Option<
    Seq<char>,
>;

/// Calls `TinyTemplate::new`, `TinyTemplate::add_template` and
/// `TinyTemplate::render` with a context of one entry. Trusted: the result
/// is the crate's (named by `tinytemplate_render`); how the crate formats
/// and escapes the value is not stated.
#[verifier::external_body]
fn render_template(template: &str, key: &str, value: &str) -> (r: Option<String>)
    ensures
        opt_view(r) == tinytemplate_render(template@, key@, value@),
{
    let mut tt = tinytemplate::TinyTemplate::new();
    let mut context = std::collections::HashMap::new();
    context.insert(key, value);
    match tt.add_template("template", template) {
        Ok(()) => tt.render("template", &context).ok(),
        Err(_) => None,
    }
}

/// The key under which the shell snippet names the data directory.
pub open spec fn data_dir_key() -> Seq<char> {
    "data_dir"@
}

/// The shell snippet of `env`, rendered by `tinytemplate` with `data_dir`
/// for `{data_dir}`; `None` where the template does not render.
pub fn env_snippet(template: &str, data_dir: &str) -> (r: Option<String>)
    ensures
        opt_view(r) == tinytemplate_render(template@, data_dir_key(), data_dir@),
{
    render_template(template, "data_dir", data_dir)
}

} // verus!
