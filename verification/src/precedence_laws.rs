//! What precedence promises of semantic versions, stated over the parts of
//! a version rather than over the comparison that decides it, and what the
//! order of a sorted list of version names keeps.

use vstd::prelude::*;

use crate::grammar::split_dots;
use crate::precedence::{
    IdentKey, SemverKey, ident_lt, idents_lt, is_build_ident, lemma_first_index, semver_key,
    semver_lt, text_lt,
};
use crate::cmds::cmd_uninstall::{is_last_with_version, newest_version};
use crate::version_order::{
    is_sorting_order, lemma_sorted_versions_is, lemma_sorting_order_covers, sorted_versions,
    sorts_before, version_key,
};

verus! {

/// `MAJOR.MINOR.PATCH` of `a` is below that of `b`: the majors compared
/// first, then the minors, then the patches.
pub open spec fn core_below(a: SemverKey, b: SemverKey) -> bool {
    ||| a.0 < b.0
    ||| a.0 == b.0 && a.1 < b.1
    ||| a.0 == b.0 && a.1 == b.1 && a.2 < b.2
}

/// Two versions whose `MAJOR.MINOR.PATCH` differ are ordered by those three
/// numbers alone, whatever their pre-release identifiers: `1.0.0` comes
/// before `1.0.1-rc.1`.
pub proof fn law_core_decides_precedence(a: SemverKey, b: SemverKey)
    requires
        core_below(a, b),
    ensures
        semver_lt(a, b),
        !semver_lt(b, a),
{
}

/// A pre-release has lower precedence than the release of its
/// `MAJOR.MINOR.PATCH`: `1.0.0-alpha` comes before `1.0.0`.
pub proof fn law_prerelease_before_release(a: SemverKey, b: SemverKey)
    requires
        a.0 == b.0,
        a.1 == b.1,
        a.2 == b.2,
        a.3.len() > 0,
        b.3.len() == 0,
    ensures
        semver_lt(a, b),
        !semver_lt(b, a),
{
}

/// Two pre-releases of one `MAJOR.MINOR.PATCH` are ordered by their
/// identifier lists.
pub proof fn law_prereleases_by_identifiers(a: SemverKey, b: SemverKey)
    requires
        a.0 == b.0,
        a.1 == b.1,
        a.2 == b.2,
        a.3.len() > 0,
        b.3.len() > 0,
    ensures
        semver_lt(a, b) == idents_lt(a.3, b.3),
{
}

/// A text comes before every longer text that starts with it: `rc` before
/// `rc2`, and the empty text before any other.
pub proof fn law_proper_prefix_comes_first(a: Seq<char>, b: Seq<char>)
    requires
        a.len() < b.len(),
        forall|i: int| 0 <= i < a.len() ==> a[i] == b[i],
    ensures
        text_lt(a, b),
        !text_lt(b, a),
    decreases a.len(),
{
    if a.len() > 0 {
        assert(a[0] == b[0]);
        let (a1, b1) = (a.drop_first(), b.drop_first());
        assert forall|i: int| 0 <= i < a1.len() implies a1[i] == b1[i] by {
            assert(a[i + 1] == b[i + 1]);
        }
        law_proper_prefix_comes_first(a1, b1);
    }
}

/// Where two texts first differ, the character there decides their ASCII
/// order.
pub proof fn law_first_different_char_decides(a: Seq<char>, b: Seq<char>, k: int)
    requires
        0 <= k < a.len(),
        k < b.len(),
        forall|i: int| 0 <= i < k ==> a[i] == b[i],
        a[k] != b[k],
    ensures
        text_lt(a, b) == (a[k] < b[k]),
        text_lt(b, a) == (b[k] < a[k]),
    decreases k,
{
    if k > 0 {
        assert(a[0] == b[0]);
        let (a1, b1) = (a.drop_first(), b.drop_first());
        assert forall|i: int| 0 <= i < k - 1 implies a1[i] == b1[i] by {
            assert(a[i + 1] == b[i + 1]);
        }
        law_first_different_char_decides(a1, b1, k - 1);
    }
}

/// Numeric identifiers compare by their numbers, a numeric identifier
/// comes before any other, and the others compare in ASCII order.
pub proof fn law_identifier_order(a: IdentKey, b: IdentKey)
    ensures
        a.0 && b.0 ==> (ident_lt(a, b) <==> a.1 < b.1),
        a.0 && !b.0 ==> ident_lt(a, b) && !ident_lt(b, a),
        !a.0 && !b.0 ==> (ident_lt(a, b) <==> text_lt(a.2, b.2)),
{
}

/// An identifier list comes before every longer list that starts with it:
/// `1.0.0-alpha` before `1.0.0-alpha.1`.
pub proof fn law_shorter_identifier_list_first(a: Seq<IdentKey>, b: Seq<IdentKey>)
    requires
        a.len() < b.len(),
        forall|i: int| 0 <= i < a.len() ==> a[i] == b[i],
    ensures
        idents_lt(a, b),
        !idents_lt(b, a),
    decreases a.len(),
{
    if a.len() > 0 {
        assert(a[0] == b[0]);
        let (a1, b1) = (a.drop_first(), b.drop_first());
        assert forall|i: int| 0 <= i < a1.len() implies a1[i] == b1[i] by {
            assert(a[i + 1] == b[i + 1]);
        }
        law_shorter_identifier_list_first(a1, b1);
    }
}

/// Where two identifier lists first differ, the identifiers there decide:
/// `1.0.0-beta.2` before `1.0.0-beta.11`.
pub proof fn law_first_different_identifier_decides(a: Seq<IdentKey>, b: Seq<IdentKey>, k: int)
    requires
        0 <= k < a.len(),
        k < b.len(),
        forall|i: int| 0 <= i < k ==> a[i] == b[i],
        a[k] != b[k],
    ensures
        idents_lt(a, b) == ident_lt(a[k], b[k]),
        idents_lt(b, a) == ident_lt(b[k], a[k]),
    decreases k,
{
    if k > 0 {
        assert(a[0] == b[0]);
        let (a1, b1) = (a.drop_first(), b.drop_first());
        assert forall|i: int| 0 <= i < k - 1 implies a1[i] == b1[i] by {
            assert(a[i + 1] == b[i + 1]);
        }
        law_first_different_identifier_decides(a1, b1, k - 1);
    }
}

/// In a sorted list of version names, no semantic version stands after one
/// whose `MAJOR.MINOR.PATCH` is larger.
pub proof fn law_sorted_by_core(
    list: Seq<Seq<char>>,
    p: Seq<int>,
    a: int,
    b: int,
    x: SemverKey,
    y: SemverKey,
)
    requires
        is_sorting_order(list, p),
        0 <= a < b < p.len(),
        version_key(list[p[a]]) == Some(x),
        version_key(list[p[b]]) == Some(y),
    ensures
        !core_below(y, x),
{
    assert(sorts_before(list, p[a], p[b]));
    if core_below(y, x) {
        law_core_decides_precedence(y, x);
    }
}

/// An ASCII letter, an ASCII digit or a hyphen.
pub open spec fn letter_digit_or_hyphen(c: char) -> bool {
    ||| '0' <= c && c <= '9'
    ||| 'a' <= c && c <= 'z'
    ||| 'A' <= c && c <= 'Z'
    ||| c == '-'
}

/// Every dot-separated piece of `b` is one or more ASCII letters, digits
/// and hyphens; leading zeros are allowed.
pub open spec fn build_identifiers_ok(b: Seq<char>) -> bool {
    forall|i: int|
        0 <= i < split_dots(b).len() ==> (#[trigger] split_dots(b)[i]).len() > 0 && forall|j: int|
            0 <= j < split_dots(b)[i].len() ==> letter_digit_or_hyphen(
                #[trigger] split_dots(b)[i][j],
            )
}

/// Build metadata decides nothing but its own form: for a text `c` without
/// `+`, the text `c+b` reads as `c` does where every dot-separated piece of
/// `b` is one or more ASCII letters, digits and hyphens (so
/// `1.0.0-alpha+001` and `1.0.0+21AF26D3----117B344092BD` are the versions
/// `1.0.0-alpha` and `1.0.0`; a hyphen after the `+` starts no
/// pre-release), and as no version otherwise.
pub proof fn law_build_metadata_ignored(c: Seq<char>, b: Seq<char>)
    requires
        forall|i: int| 0 <= i < c.len() ==> c[i] != '+',
    ensures
        build_identifiers_ok(b) ==> semver_key(c + seq!['+'] + b) == semver_key(c),
        !build_identifiers_ok(b) ==> semver_key(c + seq!['+'] + b) is None,
{
    let t = c + seq!['+'] + b;
    let n = c.len() as int;
    assert forall|k: int| 0 <= k < n implies #[trigger] t[k] != '+' by {
        assert(t[k] == c[k]);
    }
    assert(t[n] == '+');
    lemma_first_index(t, '+', n);
    lemma_first_index(c, '+', n);
    assert(t.take(n) =~= c);
    assert(c.take(n) =~= c);
    assert(t.skip(n + 1) =~= b);
    let parts = split_dots(b);
    assert(build_identifiers_ok(b) == forall|i: int|
        0 <= i < parts.len() ==> is_build_ident(#[trigger] parts[i])) by {
        assert forall|i: int| 0 <= i < parts.len() implies (is_build_ident(#[trigger] parts[i])
            <==> (parts[i].len() > 0 && forall|j: int|
            0 <= j < parts[i].len() ==> letter_digit_or_hyphen(#[trigger] parts[i][j]))) by {
            if parts[i].len() > 0 && forall|j: int|
                0 <= j < parts[i].len() ==> letter_digit_or_hyphen(#[trigger] parts[i][j]) {
                assert forall|j: int| 0 <= j < parts[i].len() implies crate::precedence::is_ident_char(
                    #[trigger] parts[i][j],
                ) by {
                    assert(letter_digit_or_hyphen(parts[i][j]));
                }
            }
        }
    }
}

/// Sorting keeps names of equal precedence in the order they came: of two
/// names with the same key (or two that are no semantic version), the one
/// that stood first in the list stands first in the sorted list.
pub proof fn law_sort_is_stable(list: Seq<Seq<char>>, p: Seq<int>, a: int, b: int)
    requires
        is_sorting_order(list, p),
        0 <= a < b < p.len(),
        version_key(list[p[a]]) == version_key(list[p[b]]),
    ensures
        p[a] < p[b],
{
    assert(sorts_before(list, p[a], p[b]));
    crate::version_order::lemma_sorts_before_order(list, p[a], p[b], p[a]);
}

/// Sorting puts every name that is no semantic version after all that are.
pub proof fn law_non_versions_sort_last(list: Seq<Seq<char>>, p: Seq<int>, a: int, b: int)
    requires
        is_sorting_order(list, p),
        0 <= a < b < p.len(),
        version_key(list[p[a]]) is None,
    ensures
        version_key(list[p[b]]) is None,
{
    assert(sorts_before(list, p[a], p[b]));
}

/// Some entry at or after `j` is the last semantic version of `s` where
/// entry `j` is one.
proof fn lemma_last_version_exists(s: Seq<Seq<char>>, j: int)
    requires
        0 <= j < s.len(),
        version_key(s[j]) is Some,
    ensures
        exists|k: int| j <= k && is_last_with_version(s, k),
    decreases s.len() - j,
{
    if exists|m: int| j < m < s.len() && version_key(#[trigger] s[m]) is Some {
        let m = choose|m: int| j < m < s.len() && version_key(#[trigger] s[m]) is Some;
        lemma_last_version_exists(s, m);
        let k = choose|k: int| m <= k && is_last_with_version(s, k);
        assert(j <= k && is_last_with_version(s, k));
    } else {
        assert(is_last_with_version(s, j));
    }
}

/// The version that `uninstall latest` removes is the newest one
/// installed: where any installed name is a semantic version, there is one
/// to remove, and no installed version has higher precedence than it.
pub proof fn law_latest_is_newest(list: Seq<Seq<char>>, p: Seq<int>, x: int, y: SemverKey)
    requires
        is_sorting_order(list, p),
        0 <= x < list.len(),
        version_key(list[x]) == Some(y),
    ensures
        newest_version(list) is Some,
        version_key(newest_version(list)->0) is Some,
        !semver_lt(version_key(newest_version(list)->0)->0, y),
{
    lemma_sorted_versions_is(list, p);
    let s = sorted_versions(list);
    lemma_sorting_order_covers(list, p, x);
    let j = choose|j: int| 0 <= j < p.len() && p[j] == x;
    assert(s[j] == list[x]);
    lemma_last_version_exists(s, j);
    let k = choose|k: int| is_last_with_version(s, k);
    let z = version_key(s[k])->0;
    assert(newest_version(list) == Some(s[k]));
    if j > k {
        assert(version_key(s[j]) is None);
    }
    crate::precedence::lemma_semver_key_wf(list[x]);
    crate::precedence::lemma_semver_key_wf(s[k]);
    crate::precedence::lemma_semver_order(y, z, y);
    if j < k {
        assert(sorts_before(list, p[j], p[k]));
    }
}

} // verus!
