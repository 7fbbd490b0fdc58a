//! The `env` subcommand: the shell snippet that puts this tool on the path.

use vstd::prelude::*;

use crate::text::{replace_text, replaced};

verus! {

/// The arguments of `env`: none.
pub struct Command {}

/// The placeholder in the shell snippet that stands for the data directory.
pub open spec fn data_dir_placeholder() -> Seq<char> {
    "{data_dir}"@
}

/// The shell snippet with every `{data_dir}` replaced by `data_dir`.
pub fn render_env_snippet(snippet: &str, data_dir: &str) -> (r: String)
    ensures
        r@ == replaced(snippet@, data_dir_placeholder(), data_dir@),
{
    let placeholder = "{data_dir}";
    proof {
        reveal_strlit("{data_dir}");
    }
    replace_text(snippet, placeholder, data_dir)
}

} // verus!
