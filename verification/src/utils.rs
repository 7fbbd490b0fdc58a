//! Version names of installed bun binaries, where their binaries are, and the
//! progress of a download.

use vstd::prelude::*;

use crate::grammar::{
    bun_v_prefix, is_dotted_number, is_dotted_number_from, is_short_version_text,
    is_version_digit, split_dots, split_dots_from, version_body, version_body_start,
};
use crate::paths::{
    is_simple_child, join_path, last_segment, lemma_last_segment_after_slash, opt_view, parent_text, path_file_name, path_join,
    path_parent, std_path_file_name, std_path_parent,
};
use crate::text::{chars_of, owned, same_text, starts_with};
use crate::precedence::{
    lemma_semver_key_wf, opt_parts_view, opt_wf, parse_semver, semver_key_less, SemverParts,
};
use crate::version_order::{
    is_sorting_order, key_lt, lemma_key_order, lemma_sorted_versions_is, lemma_sorts_before_order,
    reordered, sorted_versions, sorts_before, version_key,
};

verus! {

/// `k` components `.0` in a row.
pub open spec fn zero_components(k: nat) -> Seq<char>
    decreases k,
{
    if k == 0 {
        Seq::<char>::empty()
    } else {
        zero_components((k - 1) as nat) + seq!['.', '0']
    }
}

/// The version text without its `bun-v` or `v`, and, when `fill_empty`
/// holds, with `.0` components added until it has three.
pub open spec fn normalized_version(s: Seq<char>, fill_empty: bool) -> Seq<char> {
    let v = version_body(s);
    let n = split_dots(v).len();
    if fill_empty && n < 3 {
        v + zero_components((3 - n) as nat)
    } else {
        v
    }
}

/// Whether `parse_version_string` reads `version`: a short version text,
/// `(bun-v|v)?\d(\.\d+)*`.
pub fn is_parsable_version_string(version: &str) -> (r: bool)
    ensures
        r == is_short_version_text(version@),
{
    let cs = chars_of(version);
    let start = version_body_start(&cs);
    if !is_dotted_number_from(&cs, start) {
        return false;
    }
    let n = cs.len();
    let r = n - start == 1 || cs[start + 1] == '.';
    proof {
        let v = version_body(version@);
        if n - start > 1 {
            assert(v[1] == cs@[start + 1]);
        }
    }
    r
}

/// Takes `bun-v1.2`, `v1.12.0` or `6` and gives the version without its
/// prefix; with `fill_empty`, missing components become `0`, so these give
/// `1.2.0`, `1.12.0` and `6.0.0`.
pub fn parse_version_string(version: &str, fill_empty: bool) -> (r: String)
    requires
        is_short_version_text(version@),
    ensures
        r@ == normalized_version(version@, fill_empty),
{
    let cs = chars_of(version);
    let start = version_body_start(&cs);
    let n = cs.len();
    let parts = split_dots_from(&cs, start);
    let body = version.substring_char(start, n);
    assert(body@ =~= version_body(version@));
    let mut out = owned(body);
    if fill_empty && parts.len() < 3 {
        let k: usize = 3 - parts.len();
        let zero = ".0";
        proof {
            reveal_strlit(".0");
        }
        let mut j: usize = 0;
        while j < k
            invariant
                j <= k,
                zero@ == seq!['.', '0'],
                out@ == version_body(version@) + zero_components(j as nat),
            decreases k - j,
        {
            out.append(zero);
            proof {
                assert(version_body(version@) + zero_components(j as nat) + seq!['.', '0']
                    =~= version_body(version@) + zero_components((j + 1) as nat));
            }
            j += 1;
        }
    } else {
        proof {
            assert(out@ =~= version_body(version@));
        }
    }
    out
}

/// Sorts version names by semantic-version precedence: lower versions first
/// (major, minor and patch compared as numbers, a pre-release before its
/// release, pre-release identifiers as Semantic Versioning 2.0.0 compares
/// them, build identifiers not counted); names that are no semantic version
/// (with numbers in `u64`) come after all that are; names of equal
/// precedence, and the names that are none, stay in the order they came.
pub fn semver_sort(version: Vec<String>) -> (r: Vec<String>)
    ensures
        r@.len() == version@.len(),
        texts(r@) == sorted_versions(texts(version@)),
        exists|p: Seq<int>|
            is_sorting_order(texts(version@), p) && texts(r@) == reordered(texts(version@), p),
{
    let n = version.len();
    let ghost list = texts(version@);
    let mut keys: Vec<Option<SemverParts>> = Vec::new();
    let mut i: usize = 0;
    while i < n
        invariant
            n == version@.len(),
            list == texts(version@),
            i <= n,
            keys@.len() == i,
            forall|j: int| 0 <= j < i ==> opt_parts_view(keys@[j]) == version_key(#[trigger] list[j]),
        decreases n - i,
    {
        keys.push(parse_semver(version[i].as_str()));
        i += 1;
    }
    let mut order: Vec<usize> = Vec::new();
    i = 0;
    while i < n
        invariant
            n == version@.len(),
            list == texts(version@),
            list.len() == n,
            i <= n,
            keys@.len() == n,
            forall|j: int| 0 <= j < n ==> opt_parts_view(keys@[j]) == version_key(#[trigger] list[j]),
            order@.len() == i,
            forall|k: int| 0 <= k < i ==> (#[trigger] order@[k]) < i,
            forall|a: int, b: int|
                0 <= a < b < i ==> sorts_before(list, #[trigger] order@[a] as int, #[trigger] order@[b] as int),
        decreases n - i,
    {
        let mut pos: usize = 0;
        proof {
            assert forall|j: int| 0 <= j < n implies opt_wf(#[trigger] opt_parts_view(keys@[j])) by {
                assert(opt_parts_view(keys@[j]) == version_key(list[j]));
                lemma_semver_key_wf(list[j]);
            }
        }
        while pos < order.len() && !semver_key_less(&keys[i], &keys[order[pos]])
            invariant
                order@.len() == i,
                i < n,
                keys@.len() == n,
                forall|j: int| 0 <= j < n ==> opt_wf(#[trigger] opt_parts_view(keys@[j])),
                forall|k: int| 0 <= k < i ==> (#[trigger] order@[k]) < i,
                pos <= i,
                forall|k: int| 0 <= k < pos ==> !key_lt(opt_parts_view(keys@[i as int]), opt_parts_view(keys@[#[trigger] order@[k] as int])),
            decreases i - pos,
        {
            pos += 1;
        }
        let ghost old_order = order@;
        proof {
            assert forall|k: int| 0 <= k < pos implies sorts_before(list, #[trigger] old_order[k] as int, i as int) by {
                assert(opt_parts_view(keys@[old_order[k] as int]) == version_key(list[old_order[k] as int]));
                assert(opt_parts_view(keys@[i as int]) == version_key(list[i as int]));
                lemma_semver_key_wf(list[i as int]);
                lemma_semver_key_wf(list[old_order[k] as int]);
                lemma_key_order(version_key(list[i as int]), version_key(list[old_order[k] as int]), version_key(list[i as int]));
            }
            assert forall|k: int| pos <= k < i implies sorts_before(list, i as int, #[trigger] old_order[k] as int) by {
                assert(key_lt(opt_parts_view(keys@[i as int]), opt_parts_view(keys@[old_order[pos as int] as int])));
                assert(opt_parts_view(keys@[old_order[pos as int] as int]) == version_key(list[old_order[pos as int] as int]));
                assert(opt_parts_view(keys@[i as int]) == version_key(list[i as int]));
                assert(sorts_before(list, i as int, old_order[pos as int] as int));
                if k > pos {
                    assert(sorts_before(list, old_order[pos as int] as int, old_order[k] as int));
                    lemma_sorts_before_order(list, i as int, old_order[pos as int] as int, old_order[k] as int);
                }
            }
        }
        order.insert(pos, i);
        proof {
            assert forall|a: int, b: int|
                0 <= a < b < i + 1 implies sorts_before(list, #[trigger] order@[a] as int, #[trigger] order@[b] as int) by {
                if b < pos {
                    assert(order@[a] == old_order[a] && order@[b] == old_order[b]);
                } else if b == pos {
                    assert(order@[a] == old_order[a]);
                } else if a < pos {
                    assert(order@[a] == old_order[a] && order@[b] == old_order[b - 1]);
                    assert(sorts_before(list, old_order[a] as int, i as int));
                    assert(sorts_before(list, i as int, old_order[b - 1] as int));
                    lemma_sorts_before_order(list, old_order[a] as int, i as int, old_order[b - 1] as int);
                } else if a == pos {
                    assert(order@[b] == old_order[b - 1]);
                } else {
                    assert(order@[a] == old_order[a - 1] && order@[b] == old_order[b - 1]);
                }
            }
            assert forall|k: int| 0 <= k < i + 1 implies (#[trigger] order@[k]) < i + 1 by {
                if k < pos {
                    assert(order@[k] == old_order[k]);
                } else if k > pos {
                    assert(order@[k] == old_order[k - 1]);
                }
            }
        }
        i += 1;
    }
    let mut r: Vec<String> = Vec::new();
    let mut k: usize = 0;
    while k < n
        invariant
            n == version@.len(),
            list == texts(version@),
            order@.len() == n,
            forall|j: int| 0 <= j < n ==> (#[trigger] order@[j]) < n,
            k <= n,
            r@.len() == k,
            forall|j: int| 0 <= j < k ==> (#[trigger] r@[j])@ == list[order@[j] as int],
        decreases n - k,
    {
        let s = version[order[k]].clone();
        r.push(s);
        k += 1;
    }
    proof {
        let p = Seq::new(n as nat, |j: int| order@[j] as int);
        assert(is_sorting_order(list, p)) by {
            assert forall|a: int, b: int| 0 <= a < b < p.len() implies #[trigger] sorts_before(list, #[trigger] p[a], p[b]) by {
                assert(sorts_before(list, order@[a] as int, order@[b] as int));
            }
            assert forall|j: int| 0 <= j < p.len() implies 0 <= #[trigger] p[j] < list.len() by {
                assert(order@[j] < n);
            }
        }
        assert(texts(r@) =~= reordered(list, p));
        lemma_sorted_versions_is(list, p);
    }
    r
}

/// The texts of a list of strings.
pub open spec fn texts(v: Seq<String>) -> Seq<Seq<char>> {
    v.map_values(|s: String| s@)
}

/// `i` is the first entry of `list` that starts with `p`.
pub open spec fn first_with_prefix(list: Seq<Seq<char>>, p: Seq<char>, i: int) -> bool {
    &&& 0 <= i < list.len()
    &&& p.is_prefix_of(list[i])
    &&& forall|j: int| 0 <= j < i ==> !p.is_prefix_of(#[trigger] list[j])
}

/// Only one entry can be the first to start with `p`.
pub proof fn lemma_first_with_prefix_unique(list: Seq<Seq<char>>, p: Seq<char>, i: int, j: int)
    requires
        first_with_prefix(list, p, i),
        first_with_prefix(list, p, j),
    ensures
        i == j,
{
    if i < j {
        assert(!p.is_prefix_of(list[i]));
    }
    if j < i {
        assert(!p.is_prefix_of(list[j]));
    }
}

/// The first entry of `list` that starts with `p`, if any.
pub open spec fn first_prefixed(list: Seq<Seq<char>>, p: Seq<char>) -> Option<int> {
    if exists|i: int| first_with_prefix(list, p, i) {
        Some(choose|i: int| first_with_prefix(list, p, i))
    } else {
        None
    }
}

/// The binary of version `version` installed by this tool under `data_dir`.
pub open spec fn bvm_bin_path(data_dir: Seq<char>, version: Seq<char>) -> Seq<char> {
    path_join(data_dir, "versions/bun-v"@ + version + "/bun"@)
}

/// The binary that the names `package-manager` and `system` stand for.
pub open spec fn fallback_bin_path(version: Seq<char>) -> Option<Seq<char>> {
    if version == "package-manager"@ {
        Some("/usr/bin/bun"@)
    } else if version == "system"@ {
        Some("$HOME/.bun/bin/bun"@)
    } else {
        None
    }
}

/// The binary to look for: that of the first installed version starting
/// with the short form of `version`; where none does, nothing when only
/// versions of this tool count, else the binary that `package-manager` or
/// `system` stands for.
pub open spec fn spec_bin_candidate(
    version: Seq<char>,
    only_bvm: bool,
    installed: Seq<Seq<char>>,
    data_dir: Seq<char>,
) -> Option<Seq<char>> {
    let found = if installed.len() > 0 {
        first_prefixed(installed, normalized_version(version, false))
    } else {
        None
    };
    match found {
        Some(i) => Some(bvm_bin_path(data_dir, installed[i])),
        None => if only_bvm {
            None
        } else {
            fallback_bin_path(version)
        },
    }
}

/// Which binary `version` names, before asking whether it is there: the
/// decision of `get_version_bin`, given the installed versions and the data
/// directory. The installed versions are searched in the order `semver_sort`
/// gives them, lowest first. The version must be readable where some version
/// is installed.
#[verifier::loop_isolation(false)]
pub fn version_bin_candidate(
    version: &str,
    only_bvm: bool,
    installed: Vec<String>,
    data_dir: &str,
) -> (r: Option<String>)
    requires
        installed@.len() == 0 || is_short_version_text(version@),
    ensures
        opt_view(r) == spec_bin_candidate(
            version@,
            only_bvm,
            sorted_versions(texts(installed@)),
            data_dir@,
        ),
{
    let ghost original = texts(installed@);
    let installed = semver_sort(installed);
    let ghost list = texts(installed@);
    assert(list == sorted_versions(original));
    if installed.len() > 0 {
        let wanted = parse_version_string(version, false);
        let ghost p = normalized_version(version@, false);
        let mut i: usize = 0;
        while i < installed.len()
            invariant
                i <= installed@.len(),
                list == texts(installed@),
                wanted@ == p,
                p == normalized_version(version@, false),
                forall|j: int| 0 <= j < i ==> !p.is_prefix_of(#[trigger] list[j]),
            decreases installed@.len() - i,
        {
            let entry = &installed[i];
            assert(list[i as int] == entry@);
            if starts_with(entry.as_str(), wanted.as_str()) {
                let mut rel = owned("versions/bun-v");
                rel.append(entry.as_str());
                rel.append("/bun");
                let r = join_path(data_dir, rel.as_str());
                proof {
                    assert(first_with_prefix(list, p, i as int));
                    let c = choose|k: int| first_with_prefix(list, p, k);
                    lemma_first_with_prefix_unique(list, p, i as int, c);
                    assert(rel@ =~= "versions/bun-v"@ + list[c] + "/bun"@);
                    assert(list.len() == installed@.len());
                }
                return Some(r);
            }
            i += 1;
        }
        proof {
            assert forall|k: int| !first_with_prefix(list, p, k) by {
                if first_with_prefix(list, p, k) {
                    assert(!p.is_prefix_of(list[k]));
                }
            }
        }
    }
    if only_bvm {
        return None;
    }
    if same_text(version, "package-manager") {
        Some(owned("/usr/bin/bun"))
    } else if same_text(version, "system") {
        Some(owned("$HOME/.bun/bin/bun"))
    } else {
        None
    }
}

/// A name under which a bun binary may be installed, and the path where it
/// would be.
pub struct VersionCandidate {
    pub name: String,
    pub path: String,
}

/// The candidates of `get_available_versions`: each directory under
/// `versions_dir` with the `bun` inside it, then, unless only versions of
/// this tool count, `package-manager` at `/usr/bin/bun` and `system` at
/// `$HOME/.bun/bin/bun`.
pub fn bin_candidates(versions_dir: &str, dir_names: &Vec<String>, only_bvm: bool) -> (r: Vec<
    VersionCandidate,
>)
    ensures
        r@.len() == dir_names@.len() + (if only_bvm {
            0int
        } else {
            2int
        }),
        forall|i: int|
            0 <= i < dir_names@.len() ==> (#[trigger] r@[i]).name@ == dir_names@[i]@ && r@[i].path@
                == path_join(path_join(versions_dir@, dir_names@[i]@), "bun"@),
        !only_bvm ==> r@[dir_names@.len() as int].name@ == "package-manager"@ && r@[dir_names@.len() as int].path@
            == "/usr/bin/bun"@,
        !only_bvm ==> r@[dir_names@.len() + 1int].name@ == "system"@ && r@[dir_names@.len() + 1int].path@
            == "$HOME/.bun/bin/bun"@,
        Seq::new(r@.len(), |i: int| r@[i].name@) == candidate_names(texts(dir_names@), only_bvm),
{
    let mut r: Vec<VersionCandidate> = Vec::new();
    let mut i: usize = 0;
    while i < dir_names.len()
        invariant
            i <= dir_names@.len(),
            r@.len() == i,
            forall|k: int|
                0 <= k < i ==> (#[trigger] r@[k]).name@ == dir_names@[k]@ && r@[k].path@
                    == path_join(path_join(versions_dir@, dir_names@[k]@), "bun"@),
        decreases dir_names@.len() - i,
    {
        let name = dir_names[i].clone();
        let dir = join_path(versions_dir, name.as_str());
        let path = join_path(dir.as_str(), "bun");
        r.push(VersionCandidate { name, path });
        i += 1;
    }
    if !only_bvm {
        r.push(VersionCandidate { name: owned("package-manager"), path: owned("/usr/bin/bun") });
        r.push(VersionCandidate { name: owned("system"), path: owned("$HOME/.bun/bin/bun") });
    }
    proof {
        let names = Seq::new(r@.len(), |i: int| r@[i].name@);
        let expected = candidate_names(texts(dir_names@), only_bvm);
        assert(names.len() == expected.len());
        assert forall|i: int| 0 <= i < names.len() implies names[i] == expected[i] by {
            if i < dir_names@.len() {
                assert(r@[i].name@ == dir_names@[i]@);
            }
        }
        assert(names =~= expected);
    }
    r
}

/// The names of the candidates of `bin_candidates`, in order.
pub open spec fn candidate_names(dir_names: Seq<Seq<char>>, only_bvm: bool) -> Seq<Seq<char>> {
    if only_bvm {
        dir_names
    } else {
        dir_names + seq!["package-manager"@, "system"@]
    }
}

/// The names whose flag in `found` is set, in order.
pub open spec fn found_names(names: Seq<Seq<char>>, found: Seq<bool>) -> Seq<Seq<char>>
    decreases names.len(),
{
    if names.len() == 0 || found.len() == 0 {
        Seq::<Seq<char>>::empty()
    } else {
        let rest = found_names(names.drop_last(), found.drop_last());
        if found.last() {
            rest.push(names.last())
        } else {
            rest
        }
    }
}

/// The names of the candidates whose binary was found (`found[i]` for
/// candidate `i`), in order.
pub fn select_found(candidates: &Vec<VersionCandidate>, found: &Vec<bool>) -> (r: Vec<String>)
    requires
        candidates@.len() == found@.len(),
    ensures
        texts(r@) == found_names(
            Seq::new(candidates@.len(), |i: int| candidates@[i].name@),
            found@,
        ),
{
    let ghost names = Seq::new(candidates@.len(), |i: int| candidates@[i].name@);
    let mut r: Vec<String> = Vec::new();
    let mut i: usize = 0;
    proof {
        assert(names.take(0) =~= Seq::<Seq<char>>::empty());
        assert(texts(r@) =~= Seq::<Seq<char>>::empty());
    }
    while i < candidates.len()
        invariant
            candidates@.len() == found@.len(),
            names == Seq::new(candidates@.len(), |i: int| candidates@[i].name@),
            i <= candidates@.len(),
            texts(r@) == found_names(names.take(i as int), found@.take(i as int)),
        decreases candidates@.len() - i,
    {
        proof {
            assert(names.take(i + 1).drop_last() =~= names.take(i as int));
            assert(found@.take(i + 1).drop_last() =~= found@.take(i as int));
            assert(names.take(i + 1).last() == candidates@[i as int].name@);
            assert(found@.take(i + 1).last() == found@[i as int]);
        }
        if found[i] {
            let ghost before = r@;
            r.push(candidates[i].name.clone());
            proof {
                assert(texts(r@) =~= texts(before).push(candidates@[i as int].name@));
            }
        }
        i += 1;
    }
    proof {
        assert(names.take(candidates@.len() as int) =~= names);
        assert(found@.take(candidates@.len() as int) =~= found@);
    }
    r
}

/// A name that `get_available_versions` can list: `package-manager`,
/// `system`, or a short version text.
pub open spec fn is_listable_name(name: Seq<char>) -> bool {
    name == "package-manager"@ || name == "system"@ || is_short_version_text(name)
}

/// How a listed name is shown: `package-manager` and `system` as they are,
/// a version with three components.
pub open spec fn display_name(name: Seq<char>) -> Seq<char> {
    if name == "package-manager"@ || name == "system"@ {
        name
    } else {
        normalized_version(name, true)
    }
}

/// How a list of names is shown, name by name.
pub open spec fn displayed(names: Seq<Seq<char>>) -> Seq<Seq<char>> {
    names.map_values(|n: Seq<char>| display_name(n))
}

/// Whether `display_versions` can show `name`.
pub fn is_listable(name: &str) -> (r: bool)
    ensures
        r == is_listable_name(name@),
{
    same_text(name, "package-manager") || same_text(name, "system") || is_parsable_version_string(
        name,
    )
}

/// The shown names of the installed binaries that were found, in order.
pub fn display_versions(names: &Vec<String>) -> (r: Vec<String>)
    requires
        forall|i: int| 0 <= i < names@.len() ==> is_listable_name(#[trigger] names@[i]@),
    ensures
        r@.len() == names@.len(),
        forall|i: int| 0 <= i < names@.len() ==> (#[trigger] r@[i])@ == display_name(names@[i]@),
        texts(r@) == displayed(texts(names@)),
{
    let mut r: Vec<String> = Vec::new();
    let mut i: usize = 0;
    while i < names.len()
        invariant
            i <= names@.len(),
            r@.len() == i,
            forall|k: int| 0 <= k < names@.len() ==> is_listable_name(#[trigger] names@[k]@),
            forall|k: int| 0 <= k < i ==> (#[trigger] r@[k])@ == display_name(names@[k]@),
        decreases names@.len() - i,
    {
        let name = names[i].as_str();
        assert(is_listable_name(names@[i as int]@));
        if same_text(name, "package-manager") || same_text(name, "system") {
            r.push(owned(name));
        } else {
            r.push(parse_version_string(name, true));
        }
        i += 1;
    }
    assert(texts(r@) =~= displayed(texts(names@)));
    r
}

/// The version that a link to a binary names: the directory holding the
/// binary, read as a version with three components. `None` where the path
/// has no parent or that has no name, or the name is no short version text.
pub open spec fn spec_version_of_link_target(target: Seq<char>) -> Option<Seq<char>> {
    match std_path_parent(target) {
        Some(dir) => match std_path_file_name(dir) {
            Some(name) => if is_short_version_text(name) {
                Some(normalized_version(name, true))
            } else {
                None
            },
            None => None,
        },
        None => None,
    }
}

/// A version in the form `get_available_versions` shows it: its own short
/// form, with three or more components.
pub open spec fn is_displayed_version(v: Seq<char>) -> bool {
    is_short_version_text(v) && version_body(v) == v && split_dots(v).len() >= 3
}

/// The binary of an installed version is a file `bun` in a directory named
/// `bun-v` and the version.
proof fn lemma_bin_path_shape(data_dir: Seq<char>, v: Seq<char>)
    requires
        is_dotted_number(v),
    ensures
        is_simple_child(bvm_bin_path(data_dir, v)),
        last_segment(parent_text(bvm_bin_path(data_dir, v))) == bun_v_prefix() + v,
{
    reveal_strlit("versions/bun-v");
    reveal_strlit("/bun");
    let dir_name = bun_v_prefix() + v;
    let bun = seq!['b', 'u', 'n'];
    let versions = seq!['v', 'e', 'r', 's', 'i', 'o', 'n', 's'];
    assert("versions/bun-v"@ =~= versions + seq!['/'] + bun_v_prefix());
    assert("/bun"@ =~= seq!['/'] + bun);
    assert forall|i: int| 0 <= i < dir_name.len() implies #[trigger] dir_name[i] != '/' by {
        if i >= 5 {
            assert(dir_name[i] == v[i - 5]);
            assert(is_version_digit(v[i - 5]) || v[i - 5] == '.');
            assert(!is_version_digit('/'));
        }
    }
    assert(dir_name.len() > 2);
    assert forall|i: int| 0 <= i < bun.len() implies #[trigger] bun[i] != '/' by {}
    let rel = "versions/bun-v"@ + v + "/bun"@;
    let base = if data_dir.len() == 0 || data_dir.last() == '/' {
        data_dir
    } else {
        data_dir + seq!['/']
    };
    assert(rel[0] == 'v');
    assert(bvm_bin_path(data_dir, v) == base + rel);
    let q = base + versions + seq!['/'] + dir_name;
    assert(base + rel =~= q + seq!['/'] + bun);
    lemma_last_segment_after_slash(q, bun);
    lemma_last_segment_after_slash(base + versions, dir_name);
    assert(dir_name != seq!['.'] && dir_name != seq!['.', '.']) by {
        assert(dir_name.len() != 1 && dir_name.len() != 2);
    }
    assert(bun != seq!['.'] && bun != seq!['.', '.']) by {
        assert(bun[0] == 'b');
    }
}

/// The decision of `get_current_version`, given where the link points. A
/// link made by `use` to the binary of a version installed under a data
/// directory reads back as that version.
pub fn version_of_link_target(target: &str) -> (r: Option<String>)
    ensures
        opt_view(r) == spec_version_of_link_target(target@),
        forall|data_dir: Seq<char>, v: Seq<char>|
            is_displayed_version(v) && target@ == #[trigger] bvm_bin_path(data_dir, v) ==> opt_view(r)
                == Some(v),
{
    match path_parent(target) {
        Some(dir) => match path_file_name(dir.as_str()) {
            Some(name) => {
                let r = if is_parsable_version_string(name.as_str()) {
                    Some(parse_version_string(name.as_str(), true))
                } else {
                    None
                };
                proof {
                    assert forall|data_dir: Seq<char>, v: Seq<char>|
                        is_displayed_version(v) && target@ == #[trigger] bvm_bin_path(
                            data_dir,
                            v,
                        ) implies opt_view(r) == Some(v) by {
                        lemma_bin_path_shape(data_dir, v);
                        crate::laws::law_prefix_forms_agree(v);
                        assert(name@ == bun_v_prefix() + v);
                        assert(normalized_version(v, true) == v);
                    }
                }
                r
            },
            None => {
                proof {
                    assert forall|data_dir: Seq<char>, v: Seq<char>|
                        is_displayed_version(v) && target@ == #[trigger] bvm_bin_path(
                            data_dir,
                            v,
                        ) implies false by {
                        lemma_bin_path_shape(data_dir, v);
                    }
                }
                None
            },
        },
        None => {
            proof {
                assert forall|data_dir: Seq<char>, v: Seq<char>|
                    is_displayed_version(v) && target@ == #[trigger] bvm_bin_path(data_dir, v)
                    implies false by {
                    lemma_bin_path_shape(data_dir, v);
                }
            }
            None
        },
    }
}

/// The bytes counted as downloaded after a chunk: the sum, but never more
/// than the announced total.
pub open spec fn progress_after(downloaded: int, chunk_len: int, total_size: int) -> int {
    if downloaded + chunk_len <= total_size {
        downloaded + chunk_len
    } else {
        total_size
    }
}

/// How far a download has come after a chunk of `chunk_len` bytes.
pub fn next_progress(downloaded: u64, chunk_len: u64, total_size: u64) -> (r: u64)
    requires
        downloaded + chunk_len <= u64::MAX,
    ensures
        r == progress_after(downloaded as int, chunk_len as int, total_size as int),
{
    let sum = downloaded + chunk_len;
    if sum <= total_size {
        sum
    } else {
        total_size
    }
}

} // verus!
