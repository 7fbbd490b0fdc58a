//! The order of version names that `semver_sort` sorts by: semantic
//! versions by precedence (major, minor and patch as numbers, a pre-release
//! before its release, pre-release identifiers as Semantic Versioning 2.0.0
//! compares them; build identifiers do not count), every text that is no
//! semantic version after all that are, and names of equal precedence in
//! the order they came.

use vstd::prelude::*;
use vstd::set_lib::{lemma_int_range, lemma_subset_equality, set_int_range};

use crate::precedence::{SemverKey, lemma_semver_key_wf, lemma_semver_order, opt_wf, semver_key, semver_lt};

verus! {

/// The precedence key of a name: `None` for a name that is no semantic
/// version.
pub open spec fn version_key(s: Seq<char>) -> Option<SemverKey> {
    semver_key(s)
}

/// Key `a` comes before key `b`: lower precedence first, and any semantic
/// version before a name that is none.
pub open spec fn key_lt(a: Option<SemverKey>, b: Option<SemverKey>) -> bool {
    match (a, b) {
        (Some(x), Some(y)) => semver_lt(x, y),
        (Some(_), None) => true,
        _ => false,
    }
}

/// Entry `i` of `list` comes before entry `j`: its key comes first, or the
/// keys are the same and it stands earlier in `list`.
pub open spec fn sorts_before(list: Seq<Seq<char>>, i: int, j: int) -> bool {
    key_lt(version_key(list[i]), version_key(list[j])) || (version_key(list[i]) == version_key(
        list[j],
    ) && i < j)
}

/// `p` lists the positions of `list` in that order: the entries of `list`
/// read in the order `p` gives are sorted.
pub open spec fn is_sorting_order(list: Seq<Seq<char>>, p: Seq<int>) -> bool {
    &&& p.len() == list.len()
    &&& forall|k: int| 0 <= k < p.len() ==> 0 <= #[trigger] p[k] < list.len()
    &&& forall|a: int, b: int|
        0 <= a < b < p.len() ==> #[trigger] sorts_before(list, #[trigger] p[a], p[b])
}

/// The entries of `list` read in the order `p` gives.
pub open spec fn reordered(list: Seq<Seq<char>>, p: Seq<int>) -> Seq<Seq<char>> {
    Seq::new(p.len(), |k: int| list[p[k]])
}

/// The entries of `list` sorted: lower versions first, texts that name no
/// version last, equal ones in the order they came.
pub open spec fn sorted_versions(list: Seq<Seq<char>>) -> Seq<Seq<char>> {
    reordered(list, choose|p: Seq<int>| is_sorting_order(list, p))
}

/// Keys are ordered: one of two different keys comes first, never both.
pub proof fn lemma_key_order(a: Option<SemverKey>, b: Option<SemverKey>, c: Option<SemverKey>)
    requires
        opt_wf(a),
        opt_wf(b),
        opt_wf(c),
    ensures
        !key_lt(a, a),
        key_lt(a, b) ==> !key_lt(b, a),
        a != b ==> key_lt(a, b) || key_lt(b, a),
        key_lt(a, b) && key_lt(b, c) ==> key_lt(a, c),
{
    match (a, b, c) {
        (Some(x), Some(y), Some(z)) => {
            lemma_semver_order(x, y, z);
        },
        (Some(x), Some(y), None) => {
            lemma_semver_order(x, y, x);
        },
        (Some(x), None, Some(z)) => {
            lemma_semver_order(x, z, x);
        },
        (None, Some(y), Some(z)) => {
            lemma_semver_order(y, z, y);
        },
        (Some(x), None, None) => {
            lemma_semver_order(x, x, x);
        },
        (None, Some(y), None) => {
            lemma_semver_order(y, y, y);
        },
        _ => {},
    }
}

/// `sorts_before` is a strict total order on the positions of `list`.
pub proof fn lemma_sorts_before_order(list: Seq<Seq<char>>, i: int, j: int, k: int)
    ensures
        !sorts_before(list, i, i),
        sorts_before(list, i, j) ==> !sorts_before(list, j, i),
        i != j ==> sorts_before(list, i, j) || sorts_before(list, j, i),
        sorts_before(list, i, j) && sorts_before(list, j, k) ==> sorts_before(list, i, k),
{
    let a = version_key(list[i]);
    let b = version_key(list[j]);
    let c = version_key(list[k]);
    lemma_semver_key_wf(list[i]);
    lemma_semver_key_wf(list[j]);
    lemma_semver_key_wf(list[k]);
    lemma_key_order(a, b, c);
    lemma_key_order(b, a, c);
    lemma_key_order(a, c, b);
}

/// A sorting order names every position of the list.
pub proof fn lemma_sorting_order_covers(list: Seq<Seq<char>>, p: Seq<int>, x: int)
    requires
        is_sorting_order(list, p),
        0 <= x < list.len(),
    ensures
        p.contains(x),
{
    assert(p.no_duplicates()) by {
        assert forall|a: int, b: int| 0 <= a < p.len() && 0 <= b < p.len() && a != b implies p[a]
            != p[b] by {
            lemma_sorts_before_order(list, p[a], p[b], p[a]);
            if a < b {
                assert(sorts_before(list, p[a], p[b]));
            } else {
                assert(sorts_before(list, p[b], p[a]));
            }
        }
    }
    p.unique_seq_to_set();
    let range = set_int_range(0, list.len() as int);
    lemma_int_range(0, list.len() as int);
    assert(p.to_set().subset_of(range)) by {
        assert forall|y: int| p.to_set().contains(y) implies range.contains(y) by {
            let k = choose|k: int| 0 <= k < p.len() && p[k] == y;
            assert(0 <= p[k] < list.len());
        }
    }
    lemma_subset_equality(p.to_set(), range);
    assert(range.contains(x));
}

/// Two sorting orders of a list agree on their first `k` positions.
proof fn lemma_sorting_orders_agree(list: Seq<Seq<char>>, p: Seq<int>, q: Seq<int>, k: int)
    requires
        is_sorting_order(list, p),
        is_sorting_order(list, q),
        0 <= k <= list.len(),
    ensures
        forall|m: int| 0 <= m < k ==> p[m] == q[m],
    decreases k,
{
    if k > 0 {
        lemma_sorting_orders_agree(list, p, q, k - 1);
        let m = k - 1;
        if p[m] != q[m] {
            lemma_sorting_order_covers(list, q, p[m]);
            lemma_sorting_order_covers(list, p, q[m]);
            let t = choose|t: int| 0 <= t < q.len() && q[t] == p[m];
            let u = choose|u: int| 0 <= u < p.len() && p[u] == q[m];
            lemma_sorts_before_order(list, p[m], q[m], p[m]);
            if t < m {
                assert(sorts_before(list, p[t], p[m]));
                lemma_sorts_before_order(list, p[m], p[m], p[m]);
            } else if u < m {
                assert(sorts_before(list, q[u], q[m]));
                lemma_sorts_before_order(list, q[m], q[m], q[m]);
            } else {
                assert(t != m);
                assert(u != m);
                assert(sorts_before(list, q[m], q[t]));
                assert(sorts_before(list, p[m], p[u]));
            }
        }
    }
}

/// A list has one sorting order at most: sorting gives one result.
pub proof fn law_sorting_order_unique(list: Seq<Seq<char>>, p: Seq<int>, q: Seq<int>)
    requires
        is_sorting_order(list, p),
        is_sorting_order(list, q),
    ensures
        p == q,
{
    lemma_sorting_orders_agree(list, p, q, list.len() as int);
    assert(p =~= q);
}

/// Where a sorting order exists, `sorted_versions` reads the list in it.
pub proof fn lemma_sorted_versions_is(list: Seq<Seq<char>>, p: Seq<int>)
    requires
        is_sorting_order(list, p),
    ensures
        sorted_versions(list) == reordered(list, p),
{
    let c = choose|p: Seq<int>| is_sorting_order(list, p);
    law_sorting_order_unique(list, p, c);
}

} // verus!
