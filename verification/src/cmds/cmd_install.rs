//! The `install` subcommand: which release to take, which of its assets fits
//! this system, which file of the archive is the binary, and where it goes.

use vstd::prelude::*;

use crate::cmds::Commands;
use crate::paths::{join_path, path_join};
use crate::text::{contains, ends_with, occurs_in, owned, same_text};
use crate::utils::texts;

verus! {

/// The arguments of `install`: the version to install (such as `0.1.6`, or
/// `latest`) and whether to install it again when it is there.
pub struct CliCommand {
    pub version: String,
    pub reinstall: bool,
}

/// The arguments of `install` when `commands` is that subcommand, for the
/// caller to run it with; `None` for any other subcommand.
pub fn match_and_run(commands: &Commands) -> (r: Option<&CliCommand>)
    ensures
        match commands {
            Commands::Install(cmd) => r == Some(cmd),
            _ => r is None,
        },
{
    match commands {
        Commands::Install(cmd) => Some(cmd),
        _ => None,
    }
}

/// The text a release's tag must contain: `bun-v` for `latest`, else the
/// version asked for.
pub open spec fn release_needle(version: Seq<char>) -> Seq<char> {
    if version == "latest"@ {
        "bun-v"@
    } else {
        version
    }
}

/// `i` is the first entry of `list` that contains `needle`.
pub open spec fn first_containing(list: Seq<Seq<char>>, needle: Seq<char>, i: int) -> bool {
    &&& 0 <= i < list.len()
    &&& occurs_in(list[i], needle)
    &&& forall|j: int| 0 <= j < i ==> !occurs_in(#[trigger] list[j], needle)
}

/// The release to install among the tags of the releases, newest first: the
/// first whose tag contains `bun-v` for `latest`, else the first whose tag
/// contains the version asked for; `None` where no tag does.
pub fn find_release(version: &str, tags: &Vec<String>) -> (r: Option<usize>)
    ensures
        match r {
            Some(i) => first_containing(texts(tags@), release_needle(version@), i as int),
            None => forall|j: int|
                0 <= j < tags@.len() ==> !occurs_in(#[trigger] texts(tags@)[j], release_needle(version@)),
        },
{
    let latest = same_text(version, "latest");
    let needle = if latest {
        "bun-v"
    } else {
        version
    };
    let ghost list = texts(tags@);
    let ghost wanted = release_needle(version@);
    assert(needle@ == wanted);
    let mut i: usize = 0;
    while i < tags.len()
        invariant
            i <= tags@.len(),
            list == texts(tags@),
            needle@ == wanted,
            wanted == release_needle(version@),
            list.len() == tags@.len(),
            forall|j: int| 0 <= j < i ==> !occurs_in(#[trigger] list[j], wanted),
        decreases tags@.len() - i,
    {
        assert(list[i as int] == tags@[i as int]@);
        if contains(tags[i].as_str(), needle) {
            return Some(i);
        }
        i += 1;
    }
    None
}

/// The name bun's releases give the operating system: `linux` for `linux`,
/// `darwin` for `macos`; `None` for a system without releases.
pub open spec fn spec_bun_os_name(os: Seq<char>) -> Option<Seq<char>> {
    if os == "linux"@ {
        Some("linux"@)
    } else if os == "macos"@ {
        Some("darwin"@)
    } else {
        None
    }
}

/// The release name of the operating system `os` (as `std::env::consts::OS`
/// names it).
pub fn bun_os_name(os: &str) -> (r: Option<String>)
    ensures
        match r {
            Some(s) => spec_bun_os_name(os@) == Some(s@),
            None => spec_bun_os_name(os@) is None,
        },
{
    if same_text(os, "linux") {
        Some(owned("linux"))
    } else if same_text(os, "macos") {
        Some(owned("darwin"))
    } else {
        None
    }
}

/// The name bun's releases give the architecture: `x64` for `x86_64`, any
/// other under its own name.
pub open spec fn spec_bun_arch_name(arch: Seq<char>) -> Seq<char> {
    if arch == "x86_64"@ {
        "x64"@
    } else {
        arch
    }
}

/// The release name of the architecture `arch` (as
/// `std::env::consts::ARCH` names it).
pub fn bun_arch_name(arch: &str) -> (r: String)
    ensures
        r@ == spec_bun_arch_name(arch@),
{
    if same_text(arch, "x86_64") {
        owned("x64")
    } else {
        owned(arch)
    }
}

/// The asset of a release for a system: `bun-<os>-<arch>.zip`.
pub open spec fn spec_asset_name(os_name: Seq<char>, arch_name: Seq<char>) -> Seq<char> {
    "bun-"@ + os_name + "-"@ + arch_name + ".zip"@
}

/// The name of the release asset for the system and architecture given by
/// their release names.
pub fn asset_name(os_name: &str, arch_name: &str) -> (r: String)
    ensures
        r@ == spec_asset_name(os_name@, arch_name@),
{
    let mut r = owned("bun-");
    r.append(os_name);
    r.append("-");
    r.append(arch_name);
    r.append(".zip");
    r
}

/// The first asset named `wanted`; `None` where there is none.
pub fn find_asset(names: &Vec<String>, wanted: &str) -> (r: Option<usize>)
    ensures
        match r {
            Some(i) => i < names@.len() && names@[i as int]@ == wanted@ && forall|j: int|
                0 <= j < i ==> (#[trigger] names@[j])@ != wanted@,
            None => forall|j: int| 0 <= j < names@.len() ==> (#[trigger] names@[j])@ != wanted@,
        },
{
    let mut i: usize = 0;
    while i < names.len()
        invariant
            i <= names@.len(),
            forall|j: int| 0 <= j < i ==> (#[trigger] names@[j])@ != wanted@,
        decreases names@.len() - i,
    {
        if same_text(names[i].as_str(), wanted) {
            return Some(i);
        }
        i += 1;
    }
    None
}

/// Whether the archive entry `name` is a bun binary: its name ends in
/// `/bun`.
pub fn is_bun_executable_entry(name: &str) -> (r: bool)
    ensures
        r == "/bun"@.is_suffix_of(name@),
{
    ends_with(name, "/bun")
}

/// What `install` does about a version that may be there already.
pub enum InstallAction {
    /// Not there: install it.
    Install,
    /// There, and no reinstall asked for: say so and stop.
    KeepInstalled,
    /// There, and a reinstall asked for: remove it, then install it.
    Reinstall,
}

/// The action for a version that is there (`installed`) or not, with or
/// without `--reinstall`.
pub fn install_action(installed: bool, reinstall: bool) -> (r: InstallAction)
    ensures
        !installed ==> r is Install,
        installed && !reinstall ==> r is KeepInstalled,
        installed && reinstall ==> r is Reinstall,
{
    if installed && !reinstall {
        InstallAction::KeepInstalled
    } else if installed {
        InstallAction::Reinstall
    } else {
        InstallAction::Install
    }
}

/// The directory of the release tagged `tag` under `data_dir`:
/// `versions/<tag>` there.
pub fn install_dir(data_dir: &str, tag: &str) -> (r: String)
    ensures
        r@ == path_join(data_dir@, "versions/"@ + tag@),
{
    let mut rel = owned("versions/");
    rel.append(tag);
    join_path(data_dir, rel.as_str())
}

} // verus!
