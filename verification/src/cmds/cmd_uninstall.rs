//! The `uninstall` subcommand.

use vstd::prelude::*;

use crate::cmds::Commands;
use crate::paths::{opt_view, path_file_name, path_parent, std_path_file_name, std_path_parent};
use crate::text::{owned, same_text};
use crate::utils::{semver_sort, texts};
use crate::version_order::{sorted_versions, version_key};

verus! {

/// The arguments of `uninstall`: the version to remove, such as `0.1.6`,
/// or `latest` for the newest one installed.
pub struct CliCommand {
    pub version: String,
}

/// The arguments of `uninstall` when `commands` is that subcommand, for the
/// caller to run it with; `None` for any other subcommand.
pub fn match_and_run(commands: &Commands) -> (r: Option<&CliCommand>)
    ensures
        match commands {
            Commands::Uninstall(cmd) => r == Some(cmd),
            _ => r is None,
        },
{
    match commands {
        Commands::Uninstall(cmd) => Some(cmd),
        _ => None,
    }
}

/// `k` is the last entry of `s` that is a semantic version.
pub open spec fn is_last_with_version(s: Seq<Seq<char>>, k: int) -> bool {
    &&& 0 <= k < s.len()
    &&& version_key(s[k]) is Some
    &&& forall|j: int| k < j < s.len() ==> version_key(#[trigger] s[j]) is None
}

/// The newest of the installed versions: the last semantic version once
/// they are sorted (names that are none sort last); `None` where none is.
pub open spec fn newest_version(installed: Seq<Seq<char>>) -> Option<Seq<char>> {
    let s = sorted_versions(installed);
    if exists|k: int| is_last_with_version(s, k) {
        Some(s[choose|k: int| is_last_with_version(s, k)])
    } else {
        None
    }
}

/// The version that `uninstall` removes: the newest installed one for
/// `latest`, else the one named.
pub open spec fn spec_uninstall_version(version: Seq<char>, installed: Seq<Seq<char>>) -> Option<
    Seq<char>,
> {
    if version == "latest"@ {
        newest_version(installed)
    } else {
        Some(version)
    }
}

/// Resolves the version named on the command line among the installed
/// versions (as `get_available_versions` lists them): `latest` becomes the
/// newest of them, any other name stays as it is.
#[verifier::loop_isolation(false)]
pub fn uninstall_version(version: &str, installed: Vec<String>) -> (r: Option<String>)
    ensures
        opt_view(r) == spec_uninstall_version(version@, texts(installed@)),
{
    if !same_text(version, "latest") {
        return Some(owned(version));
    }
    let ghost original = texts(installed@);
    let sorted = semver_sort(installed);
    let ghost s = texts(sorted@);
    assert(s == sorted_versions(original));
    let n = sorted.len();
    let mut k: usize = n;
    while k > 0
        invariant
            k <= n,
            n == sorted@.len(),
            s == texts(sorted@),
            s.len() == n,
            forall|j: int| k <= j < n ==> version_key(#[trigger] s[j]) is None,
        decreases k,
    {
        let candidate = &sorted[k - 1];
        assert(s[k - 1] == candidate@);
        if crate::precedence::parse_semver(candidate.as_str()).is_some() {
            proof {
                assert(is_last_with_version(s, k - 1));
                let c = choose|c: int| is_last_with_version(s, c);
                if c < k - 1 {
                    assert(version_key(s[k - 1]) is None);
                }
                if c > k - 1 {
                    assert(version_key(s[c]) is None);
                }
            }
            return Some(owned(candidate.as_str()));
        }
        k -= 1;
    }
    proof {
        assert forall|c: int| !is_last_with_version(s, c) by {
            if is_last_with_version(s, c) {
                assert(version_key(s[c]) is None);
            }
        }
    }
    None
}

/// The directory holding an installed binary, and that directory's name:
/// `Path::parent` of the binary, then `Path::file_name` of it; `None` where
/// either is missing.
pub fn installed_dir_of(bin: &str) -> (r: Option<(String, String)>)
    ensures
        match r {
            Some((dir, name)) => std_path_parent(bin@) == Some(dir@) && std_path_file_name(dir@)
                == Some(name@),
            None => match std_path_parent(bin@) {
                Some(dir) => std_path_file_name(dir) is None,
                None => true,
            },
        },
{
    match path_parent(bin) {
        Some(dir) => match path_file_name(dir.as_str()) {
            Some(name) => Some((dir, name)),
            None => None,
        },
        None => None,
    }
}

} // verus!
