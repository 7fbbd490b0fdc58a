//! What holds of the library as a whole: how the forms of a version text
//! relate, what padding a version with `.0` keeps, how semantic version
//! texts read, and what the release assets are named.

use vstd::prelude::*;

use crate::bun_version::{
    component_or_zero, digits_value, is_ascii_digit, parsed_i32, spec_bun_version,
};
use crate::cmds::cmd_install::{spec_asset_name, spec_bun_arch_name, spec_bun_os_name};
use crate::grammar::{
    bun_v_prefix, is_dotted_number, is_short_version_text, is_version_digit, is_version_text,
    no_double_dot_at, split_dots, version_body,
};
use crate::precedence::{IdentKey, lemma_first_index, semver_key};
use crate::precedence_laws::letter_digit_or_hyphen;
use crate::utils::{
    bvm_bin_path, candidate_names, display_name, displayed, found_names, first_prefixed, first_with_prefix, is_listable_name,
    normalized_version, progress_after, spec_bin_candidate, zero_components,
};

verus! {

/// `k` pieces `0` in a row.
spec fn zero_parts(k: nat) -> Seq<Seq<char>>
    decreases k,
{
    if k == 0 {
        Seq::<Seq<char>>::empty()
    } else {
        zero_parts((k - 1) as nat).push(seq!['0'])
    }
}

/// Adding `.0` components adds pieces `0` to the split.
proof fn lemma_split_zero_components(v: Seq<char>, k: nat)
    ensures
        split_dots(v + zero_components(k)) =~= split_dots(v) + zero_parts(k),
    decreases k,
{
    if k == 0 {
        assert(v + zero_components(0) =~= v);
    } else {
        lemma_split_zero_components(v, (k - 1) as nat);
        let w = v + zero_components((k - 1) as nat);
        let wd = w.push('.');
        let wz = wd.push('0');
        assert(v + zero_components(k) =~= wz);
        assert(wz.drop_last() =~= wd);
        assert(wd.drop_last() =~= w);
        assert(split_dots(wd) =~= split_dots(w).push(Seq::<char>::empty()));
        assert(split_dots(wz) =~= split_dots(wd).update(
            split_dots(wd).len() - 1,
            split_dots(wd).last().push('0'),
        ));
        assert(Seq::<char>::empty().push('0') =~= seq!['0']);
    }
}

/// Adding `.0` components keeps a dotted number one, and keeps its first
/// characters.
proof fn lemma_dotted_zero_components(v: Seq<char>, k: nat)
    requires
        is_dotted_number(v),
    ensures
        is_dotted_number(v + zero_components(k)),
        (v + zero_components(k)).len() == v.len() + 2 * k,
        forall|i: int| 0 <= i < v.len() ==> (v + zero_components(k))[i] == v[i],
        k > 0 ==> (v + zero_components(k))[v.len() as int] == '.',
    decreases k,
{
    if k == 0 {
        assert(v + zero_components(0) =~= v);
    } else {
        lemma_dotted_zero_components(v, (k - 1) as nat);
        let w = v + zero_components((k - 1) as nat);
        let w2 = v + zero_components(k);
        assert(w2 =~= w + seq!['.', '0']);
        assert(is_version_digit('0'));
        assert forall|i: int| 0 <= i < w2.len() implies is_version_digit(#[trigger] w2[i])
            || w2[i] == '.' by {
            if i < w.len() {
                assert(w2[i] == w[i]);
            }
        }
        assert forall|i: int| 0 <= i < w2.len() - 1 implies #[trigger] no_double_dot_at(w2, i) by {
            if i < w.len() - 1 {
                assert(no_double_dot_at(w, i));
            } else if i == w.len() - 1 {
                assert(is_version_digit(w[w.len() - 1]));
                assert(w[w.len() - 1] != '.') by {
                    assert(!is_version_digit('.'));
                }
            }
        }
        assert(w2[0] == w[0]);
    }
}

/// A text that starts with a digit has no `bun-v` or `v` in front.
proof fn lemma_body_of_digit_start(w: Seq<char>)
    requires
        w.len() > 0,
        is_version_digit(w[0]),
    ensures
        version_body(w) == w,
{
    assert(!is_version_digit('b'));
    assert(!is_version_digit('v'));
    if bun_v_prefix().is_prefix_of(w) {
        assert(w.subrange(0, 5)[0] == 'b');
    }
    assert(w.skip(0) =~= w);
}

/// A version text without `bun-v` or `v` reads the same with either in
/// front: `v1.0.0`, `bun-v1.0.0` and `1.0.0` give the same version, the same
/// short form, and are accepted alike.
pub proof fn law_prefix_forms_agree(v: Seq<char>)
    requires
        version_body(v) == v,
    ensures
        spec_bun_version(seq!['v'] + v) == spec_bun_version(v),
        spec_bun_version(bun_v_prefix() + v) == spec_bun_version(v),
        is_short_version_text(seq!['v'] + v) == is_short_version_text(v),
        is_short_version_text(bun_v_prefix() + v) == is_short_version_text(v),
        normalized_version(seq!['v'] + v, true) == normalized_version(v, true),
        normalized_version(bun_v_prefix() + v, true) == normalized_version(v, true),
        normalized_version(seq!['v'] + v, false) == normalized_version(v, false),
        normalized_version(bun_v_prefix() + v, false) == normalized_version(v, false),
{
    let a = seq!['v'] + v;
    let b = bun_v_prefix() + v;
    if bun_v_prefix().is_prefix_of(a) {
        assert(a.subrange(0, 5)[0] == 'b');
    }
    assert(a.skip(1) =~= v);
    assert(version_body(a) == v);
    assert(b.subrange(0, 5) =~= bun_v_prefix());
    assert(b.skip(5) =~= v);
    assert(version_body(b) == v);
}

/// Every short version text is a version text: what
/// `parse_version_string` reads, `BunVersion::parse` reads as text.
pub proof fn law_short_is_version_text(s: Seq<char>)
    requires
        is_short_version_text(s),
    ensures
        is_version_text(s),
{
}

/// With `fill_empty`, the short form of a version has at least three
/// components, and starts with the short form without it.
pub proof fn law_fill_gives_three_components(s: Seq<char>)
    requires
        is_short_version_text(s),
    ensures
        split_dots(normalized_version(s, true)).len() >= 3,
        normalized_version(s, false).is_prefix_of(normalized_version(s, true)),
{
    let v = version_body(s);
    let n = split_dots(v).len();
    if n < 3 {
        let k = (3 - n) as nat;
        lemma_split_zero_components(v, k);
        lemma_zero_parts_len(k);
        lemma_dotted_zero_components(v, k);
        assert((v + zero_components(k)).subrange(0, v.len() as int) =~= v);
    } else {
        assert(v.subrange(0, v.len() as int) =~= v);
    }
}

/// The short form is already in short form: reading it again gives it
/// back.
pub proof fn law_normalized_is_fixed_point(s: Seq<char>, fill_empty: bool)
    requires
        is_short_version_text(s),
    ensures
        is_short_version_text(normalized_version(s, fill_empty)),
        normalized_version(normalized_version(s, fill_empty), fill_empty) == normalized_version(
            s,
            fill_empty,
        ),
{
    let v = version_body(s);
    let n = split_dots(v).len();
    let k: nat = if fill_empty && n < 3 {
        (3 - n) as nat
    } else {
        0
    };
    let w = v + zero_components(k);
    assert(normalized_version(s, fill_empty) == w) by {
        if k == 0 {
            assert(w =~= v);
        }
    }
    lemma_dotted_zero_components(v, k);
    lemma_split_zero_components(v, k);
    lemma_zero_parts_len(k);
    lemma_body_of_digit_start(w);
    assert(w.len() == 1 || w[1] == '.') by {
        if v.len() > 1 {
            assert(w[1] == v[1]);
        }
    }
    let n2 = split_dots(w).len();
    assert(n2 == n + k);
    if !(fill_empty && n2 < 3) {
    } else {
        assert(false);
    }
}

/// Padding a version with `.0` does not change the version it gives:
/// `BunVersion::parse` reads the short form as it reads the text itself.
pub proof fn law_parse_ignores_padding(s: Seq<char>, fill_empty: bool)
    requires
        is_short_version_text(s),
    ensures
        spec_bun_version(normalized_version(s, fill_empty)) == spec_bun_version(s),
{
    let v = version_body(s);
    let n = split_dots(v).len();
    let k: nat = if fill_empty && n < 3 {
        (3 - n) as nat
    } else {
        0
    };
    let w = v + zero_components(k);
    assert(normalized_version(s, fill_empty) == w) by {
        if k == 0 {
            assert(w =~= v);
        }
    }
    lemma_dotted_zero_components(v, k);
    lemma_split_zero_components(v, k);
    lemma_zero_parts_len(k);
    lemma_body_of_digit_start(w);
    let pw = split_dots(w);
    let pv = split_dots(v);
    assert forall|j: int| 0 <= j < 3 implies component_or_zero(pw, j) == component_or_zero(
        pv,
        j,
    ) by {
        if j < n {
            assert(pw[j] == pv[j]);
        } else if j < n + k {
            assert(pw[j] == zero_parts(k)[j - n]);
            lemma_zero_parts_are_zero(k, j - n);
        }
    }
}

/// Every version that `get_available_versions` shows has at least three
/// components; only `package-manager` and `system` are shown as they are.
pub proof fn law_displayed_versions_have_three_components(name: Seq<char>)
    requires
        is_listable_name(name),
        name != "package-manager"@,
        name != "system"@,
    ensures
        split_dots(display_name(name)).len() >= 3,
{
    law_fill_gives_three_components(name);
}

/// When only binaries of this tool count, the binary chosen for a version
/// is that of an installed version starting with the version's short form,
/// never one of `package-manager` or `system`.
pub proof fn law_only_bvm_chooses_installed(
    version: Seq<char>,
    installed: Seq<Seq<char>>,
    data_dir: Seq<char>,
)
    ensures
        spec_bin_candidate(version, true, installed, data_dir) matches Some(p) ==> exists|i: int|
            0 <= i < installed.len() && normalized_version(version, false).is_prefix_of(
                installed[i],
            ) && p == bvm_bin_path(data_dir, #[trigger] installed[i]),
{
    let pre = normalized_version(version, false);
    if installed.len() > 0 {
        if let Some(i) = first_prefixed(installed, pre) {
            assert(first_with_prefix(installed, pre, i));
        }
    }
}

/// Found names of a list in two parts are those of each part, in order.
proof fn lemma_found_names_concat(a: Seq<Seq<char>>, fa: Seq<bool>, b: Seq<Seq<char>>, fb: Seq<bool>)
    requires
        a.len() == fa.len(),
        b.len() == fb.len(),
    ensures
        found_names(a + b, fa + fb) == found_names(a, fa) + found_names(b, fb),
    decreases b.len(),
{
    if b.len() == 0 {
        assert(a + b =~= a);
        assert(fa + fb =~= fa);
        assert(found_names(b, fb) =~= Seq::<Seq<char>>::empty());
        assert(found_names(a, fa) + found_names(b, fb) =~= found_names(a, fa));
    } else {
        lemma_found_names_concat(a, fa, b.drop_last(), fb.drop_last());
        assert((a + b).drop_last() =~= a + b.drop_last());
        assert((fa + fb).drop_last() =~= fa + fb.drop_last());
        assert((a + b).last() == b.last());
        assert((fa + fb).last() == fb.last());
        let head = found_names(a, fa);
        let tail = found_names(b.drop_last(), fb.drop_last());
        assert((head + tail).push(b.last()) =~= head + tail.push(b.last()));
    }
}

/// What `get_available_versions` finds when `package-manager` and `system`
/// count is what it finds when only versions of this tool count, followed by
/// `package-manager` where `/usr/bin/bun` was found and `system` where
/// `$HOME/.bun/bin/bun` was found (`found` flags each candidate in turn).
pub proof fn law_available_with_fallbacks(dir_names: Seq<Seq<char>>, found: Seq<bool>)
    requires
        found.len() == dir_names.len() + 2,
    ensures
        found_names(candidate_names(dir_names, false), found) == found_names(
            candidate_names(dir_names, true),
            found.take(dir_names.len() as int),
        ) + found_names(
            seq!["package-manager"@, "system"@],
            found.skip(dir_names.len() as int),
        ),
        found_names(seq!["package-manager"@, "system"@], found.skip(dir_names.len() as int)) == (
        if found[dir_names.len() as int] {
            seq!["package-manager"@]
        } else {
            Seq::<Seq<char>>::empty()
        }) + (if found[dir_names.len() + 1int] {
            seq!["system"@]
        } else {
            Seq::<Seq<char>>::empty()
        }),
{
    let n = dir_names.len() as int;
    let fb = found.skip(n);
    assert(found =~= found.take(n) + fb);
    lemma_found_names_concat(dir_names, found.take(n), seq!["package-manager"@, "system"@], fb);
    let two = seq!["package-manager"@, "system"@];
    assert(two.drop_last() =~= seq!["package-manager"@]);
    assert(fb.drop_last() =~= seq![fb[0]]);
    assert(seq!["package-manager"@].drop_last() =~= Seq::<Seq<char>>::empty());
    assert(seq![fb[0]].drop_last() =~= Seq::<bool>::empty());
    assert(found_names(Seq::<Seq<char>>::empty(), Seq::<bool>::empty()) =~= Seq::<Seq<char>>::empty());
    let one = found_names(seq!["package-manager"@], seq![fb[0]]);
    assert(one =~= (if fb[0] {
        seq!["package-manager"@]
    } else {
        Seq::<Seq<char>>::empty()
    }));
    if fb[1] {
        assert(one.push("system"@) =~= one + seq!["system"@]);
    } else {
        assert(one + Seq::<Seq<char>>::empty() =~= one);
    }
}

/// The character of a decimal digit `d` (`0` to `9`).
pub open spec fn digit_char(d: int) -> char {
    if d == 0 {
        '0'
    } else if d == 1 {
        '1'
    } else if d == 2 {
        '2'
    } else if d == 3 {
        '3'
    } else if d == 4 {
        '4'
    } else if d == 5 {
        '5'
    } else if d == 6 {
        '6'
    } else if d == 7 {
        '7'
    } else if d == 8 {
        '8'
    } else {
        '9'
    }
}

/// `n` written in decimal, without leading zeros.
pub open spec fn decimal(n: nat) -> Seq<char>
    decreases n,
{
    if n < 10 {
        seq![digit_char(n as int)]
    } else {
        decimal(n / 10).push(digit_char((n % 10) as int))
    }
}

/// The character of digit `d` is that ASCII digit.
proof fn lemma_digit_char(d: int)
    requires
        0 <= d < 10,
    ensures
        is_ascii_digit(digit_char(d)),
        digit_char(d) as int - '0' as int == d,
{
}

/// A number written in decimal is a run of ASCII digits that spells it.
proof fn lemma_decimal(n: nat)
    ensures
        decimal(n).len() > 0,
        forall|i: int| 0 <= i < decimal(n).len() ==> is_ascii_digit(#[trigger] decimal(n)[i]),
        digits_value(decimal(n)) == n,
    decreases n,
{
    if n < 10 {
        let s = decimal(n);
        lemma_digit_char(n as int);
        assert(s.drop_last() =~= Seq::<char>::empty());
        assert(digits_value(s) == digits_value(s.drop_last()) * 10 + (s.last() as int - '0' as int));
    } else {
        lemma_decimal(n / 10);
        lemma_digit_char((n % 10) as int);
        let s = decimal(n);
        assert(s.drop_last() =~= decimal(n / 10));
        assert(s.last() == digit_char((n % 10) as int));
        assert(digits_value(s) == digits_value(s.drop_last()) * 10 + (s.last() as int - '0' as int));
        assert(n == (n / 10) * 10 + n % 10);
        assert forall|i: int| 0 <= i < s.len() implies is_ascii_digit(#[trigger] s[i]) by {
            if i < s.len() - 1 {
                assert(s[i] == decimal(n / 10)[i]);
            }
        }
    }
}

/// A run of ASCII digits splits into itself alone.
proof fn lemma_split_no_dot(d: Seq<char>)
    requires
        forall|i: int| 0 <= i < d.len() ==> is_ascii_digit(#[trigger] d[i]),
    ensures
        split_dots(d) == seq![d],
    decreases d.len(),
{
    if d.len() == 0 {
        assert(d =~= Seq::<char>::empty());
        assert(split_dots(d) =~= seq![d]);
    } else {
        let e = d.drop_last();
        assert forall|i: int| 0 <= i < e.len() implies is_ascii_digit(#[trigger] e[i]) by {
            assert(e[i] == d[i]);
        }
        lemma_split_no_dot(e);
        assert(is_ascii_digit(d[d.len() - 1]));
        assert(d.last() != '.');
        assert(split_dots(d) == split_dots(e).update(0, e.push(d.last())));
        assert(e.push(d.last()) =~= d);
        assert(split_dots(d) =~= seq![d]);
    }
}

/// A dot and a run of ASCII digits after a text add that run as a piece.
proof fn lemma_split_dot_digits(u: Seq<char>, d: Seq<char>)
    requires
        forall|i: int| 0 <= i < d.len() ==> is_ascii_digit(#[trigger] d[i]),
    ensures
        split_dots(u.push('.') + d) == split_dots(u).push(d),
    decreases d.len(),
{
    let ud = u.push('.');
    assert(ud.drop_last() =~= u);
    assert(ud.last() == '.');
    assert(split_dots(ud) == split_dots(u).push(Seq::<char>::empty()));
    if d.len() == 0 {
        assert(ud + d =~= ud);
        assert(d =~= Seq::<char>::empty());
    } else {
        let e = d.drop_last();
        assert forall|i: int| 0 <= i < e.len() implies is_ascii_digit(#[trigger] e[i]) by {
            assert(e[i] == d[i]);
        }
        lemma_split_dot_digits(u, e);
        assert(is_ascii_digit(d[d.len() - 1]));
        let w = ud + d;
        assert(w.drop_last() =~= ud + e);
        assert(w.last() == d.last());
        assert(d.last() != '.');
        let parts = split_dots(ud + e);
        assert(split_dots(w) == parts.update(parts.len() - 1, parts.last().push(d.last())));
        assert(e.push(d.last()) =~= d);
        assert(split_dots(w) =~= split_dots(u).push(d));
    }
}

/// A dot and a run of ASCII digits after a dotted number give a dotted
/// number.
proof fn lemma_dotted_dot_digits(u: Seq<char>, d: Seq<char>)
    requires
        is_dotted_number(u),
        d.len() > 0,
        forall|i: int| 0 <= i < d.len() ==> is_ascii_digit(#[trigger] d[i]),
    ensures
        is_dotted_number(u.push('.') + d),
{
    let w = u.push('.') + d;
    assert(w[0] == u[0]);
    assert(w[w.len() - 1] == d[d.len() - 1]);
    assert forall|i: int| 0 <= i < w.len() implies is_version_digit(#[trigger] w[i]) || w[i]
        == '.' by {
        if i < u.len() {
            assert(w[i] == u[i]);
        } else if i > u.len() {
            assert(w[i] == d[i - u.len() - 1]);
        }
    }
    assert forall|i: int| 0 <= i < w.len() - 1 implies #[trigger] no_double_dot_at(w, i) by {
        if i < u.len() - 1 {
            assert(no_double_dot_at(u, i));
        } else if i == u.len() - 1 {
            assert(w[i] == u[u.len() - 1]);
            assert(is_version_digit(u[u.len() - 1]));
            assert(!is_version_digit('.'));
        } else {
            assert(w[i + 1] == d[i - u.len()]);
        }
    }
}

/// A run of ASCII digits is a dotted number.
proof fn lemma_dotted_digits(d: Seq<char>)
    requires
        d.len() > 0,
        forall|i: int| 0 <= i < d.len() ==> is_ascii_digit(#[trigger] d[i]),
    ensures
        is_dotted_number(d),
{
    assert forall|i: int| 0 <= i < d.len() - 1 implies #[trigger] no_double_dot_at(d, i) by {
        assert(is_ascii_digit(d[i]));
    }
}

/// A run of ASCII digits that spells `n` reads as `n` where `n` fits.
proof fn lemma_parsed_decimal(n: i32)
    requires
        0 <= n,
    ensures
        parsed_i32(decimal(n as nat)) == Some(n),
{
    lemma_decimal(n as nat);
}

/// The piece `0` that a missing component stands for reads as `0`.
proof fn lemma_parsed_zero()
    ensures
        parsed_i32(seq!['0']) == Some(0i32),
{
    lemma_parsed_decimal(0);
    assert(decimal(0) =~= seq!['0']);
}

/// `a` alone reads as `a.0.0`.
proof fn lemma_read_one(a: i32)
    requires
        0 <= a,
    ensures
        spec_bun_version(decimal(a as nat)) == Some((a, 0i32, 0i32)),
        version_body(decimal(a as nat)) == decimal(a as nat),
{
    let da = decimal(a as nat);
    lemma_decimal(a as nat);
    lemma_parsed_decimal(a);
    lemma_parsed_zero();
    lemma_dotted_digits(da);
    lemma_split_no_dot(da);
    lemma_body_of_digit_start(da);
}

/// `a.b` reads as `a.b.0`.
proof fn lemma_read_two(a: i32, b: i32)
    requires
        0 <= a,
        0 <= b,
    ensures
        spec_bun_version(decimal(a as nat).push('.') + decimal(b as nat)) == Some((a, b, 0i32)),
        version_body(decimal(a as nat).push('.') + decimal(b as nat)) == decimal(a as nat).push(
            '.',
        ) + decimal(b as nat),
        is_dotted_number(decimal(a as nat).push('.') + decimal(b as nat)),
        split_dots(decimal(a as nat).push('.') + decimal(b as nat)) == seq![
            decimal(a as nat),
            decimal(b as nat),
        ],
{
    let da = decimal(a as nat);
    let db = decimal(b as nat);
    lemma_decimal(a as nat);
    lemma_decimal(b as nat);
    lemma_parsed_decimal(a);
    lemma_parsed_decimal(b);
    lemma_parsed_zero();
    lemma_dotted_digits(da);
    lemma_split_no_dot(da);
    let two = da.push('.') + db;
    lemma_dotted_dot_digits(da, db);
    lemma_split_dot_digits(da, db);
    assert(two[0] == da[0]);
    lemma_body_of_digit_start(two);
    assert(split_dots(two) =~= seq![da, db]);
}

/// `a.b.c` reads as `a.b.c`.
proof fn lemma_read_three(a: i32, b: i32, c: i32)
    requires
        0 <= a,
        0 <= b,
        0 <= c,
    ensures
        spec_bun_version(decimal(a as nat).push('.') + decimal(b as nat) + seq!['.'] + decimal(c as nat))
            == Some((a, b, c)),
        version_body(decimal(a as nat).push('.') + decimal(b as nat) + seq!['.'] + decimal(c as nat))
            == decimal(a as nat).push('.') + decimal(b as nat) + seq!['.'] + decimal(c as nat),
{
    let da = decimal(a as nat);
    let dc = decimal(c as nat);
    lemma_read_two(a, b);
    lemma_decimal(a as nat);
    lemma_decimal(c as nat);
    lemma_parsed_decimal(a);
    lemma_parsed_decimal(b);
    lemma_parsed_decimal(c);
    let two = da.push('.') + decimal(b as nat);
    let three = two.push('.') + dc;
    assert(three =~= da.push('.') + decimal(b as nat) + seq!['.'] + dc);
    lemma_dotted_dot_digits(two, dc);
    lemma_split_dot_digits(two, dc);
    assert(three[0] == da[0]);
    lemma_body_of_digit_start(three);
    assert(split_dots(three) =~= seq![da, decimal(b as nat), dc]);
}

/// Versions written in decimal read back as the same numbers, with or
/// without `v` or `bun-v` in front, with three, two or one component.
pub proof fn law_decimal_versions_read_back(a: i32, b: i32, c: i32)
    requires
        0 <= a,
        0 <= b,
        0 <= c,
    ensures
        ({
            let three = decimal(a as nat).push('.') + decimal(b as nat) + seq!['.'] + decimal(
                c as nat,
            );
            &&& spec_bun_version(three) == Some((a, b, c))
            &&& spec_bun_version(seq!['v'] + three) == Some((a, b, c))
            &&& spec_bun_version(bun_v_prefix() + three) == Some((a, b, c))
        }),
        ({
            let two = decimal(a as nat).push('.') + decimal(b as nat);
            &&& spec_bun_version(two) == Some((a, b, 0i32))
            &&& spec_bun_version(seq!['v'] + two) == Some((a, b, 0i32))
            &&& spec_bun_version(bun_v_prefix() + two) == Some((a, b, 0i32))
        }),
        ({
            let one = decimal(a as nat);
            &&& spec_bun_version(one) == Some((a, 0i32, 0i32))
            &&& spec_bun_version(seq!['v'] + one) == Some((a, 0i32, 0i32))
            &&& spec_bun_version(bun_v_prefix() + one) == Some((a, 0i32, 0i32))
        }),
{
    lemma_read_one(a);
    law_prefix_forms_agree(decimal(a as nat));
    lemma_read_two(a, b);
    law_prefix_forms_agree(decimal(a as nat).push('.') + decimal(b as nat));
    lemma_read_three(a, b, c);
    law_prefix_forms_agree(
        decimal(a as nat).push('.') + decimal(b as nat) + seq!['.'] + decimal(c as nat),
    );
}

/// What `get_available_versions` shows when `package-manager` and `system`
/// count is what it shows when only versions of this tool count, followed
/// by `package-manager` where `/usr/bin/bun` was found and `system` where
/// `$HOME/.bun/bin/bun` was found, each shown as it is.
pub proof fn law_available_display_with_fallbacks(dir_names: Seq<Seq<char>>, found: Seq<bool>)
    requires
        found.len() == dir_names.len() + 2,
    ensures
        displayed(found_names(candidate_names(dir_names, false), found)) == displayed(
            found_names(candidate_names(dir_names, true), found.take(dir_names.len() as int)),
        ) + (if found[dir_names.len() as int] {
            seq!["package-manager"@]
        } else {
            Seq::<Seq<char>>::empty()
        }) + (if found[dir_names.len() + 1int] {
            seq!["system"@]
        } else {
            Seq::<Seq<char>>::empty()
        }),
{
    law_available_with_fallbacks(dir_names, found);
    let a = found_names(candidate_names(dir_names, true), found.take(dir_names.len() as int));
    let pm: Seq<Seq<char>> = if found[dir_names.len() as int] {
        seq!["package-manager"@]
    } else {
        Seq::<Seq<char>>::empty()
    };
    let sy: Seq<Seq<char>> = if found[dir_names.len() + 1int] {
        seq!["system"@]
    } else {
        Seq::<Seq<char>>::empty()
    };
    assert(displayed(pm) =~= pm);
    assert(displayed(sy) =~= sy);
    assert(displayed(a + pm + sy) =~= displayed(a) + displayed(pm) + displayed(sy));
}

/// The progress of a download never passes the announced total, and never
/// goes back while it is within it.
pub proof fn law_progress_bounded(downloaded: int, chunk_len: int, total_size: int)
    requires
        0 <= downloaded,
        0 <= chunk_len,
    ensures
        progress_after(downloaded, chunk_len, total_size) <= total_size,
        downloaded <= total_size ==> downloaded <= progress_after(downloaded, chunk_len, total_size),
{
}

proof fn lemma_zero_parts_are_zero(k: nat, j: int)
    requires
        0 <= j < k,
    ensures
        zero_parts(k).len() == k,
        zero_parts(k)[j] == seq!['0'],
    decreases k,
{
    if k > 0 {
        if j < k - 1 {
            lemma_zero_parts_are_zero((k - 1) as nat, j);
        } else {
            lemma_zero_parts_len((k - 1) as nat);
        }
    }
}

proof fn lemma_zero_parts_len(k: nat)
    ensures
        zero_parts(k).len() == k,
    decreases k,
{
    if k > 0 {
        lemma_zero_parts_len((k - 1) as nat);
    }
}

/// The asset name of a release spells out the system and the architecture
/// it was given: `bun-`, the system, `-`, the architecture, `.zip`.
pub proof fn law_asset_name_carries_system(os: Seq<char>, arch: Seq<char>)
    ensures
        spec_asset_name(os, arch).len() == os.len() + arch.len() + 9,
        spec_asset_name(os, arch).take(4) == seq!['b', 'u', 'n', '-'],
        spec_asset_name(os, arch).subrange(4, os.len() + 4int) == os,
        spec_asset_name(os, arch)[os.len() + 4int] == '-',
        spec_asset_name(os, arch).subrange(os.len() + 5int, os.len() + arch.len() + 5int) == arch,
        spec_asset_name(os, arch).skip(os.len() + arch.len() + 5int) == seq!['.', 'z', 'i', 'p'],
{
    reveal_strlit("bun-");
    reveal_strlit("-");
    reveal_strlit(".zip");
    let r = spec_asset_name(os, arch);
    let (m, k) = (os.len() as int, arch.len() as int);
    assert(r.take(4) =~= seq!['b', 'u', 'n', '-']);
    assert(r.subrange(4, 4 + m) =~= os);
    assert(r.subrange(5 + m, 5 + m + k) =~= arch);
    assert(r.skip(5 + m + k) =~= seq!['.', 'z', 'i', 'p']);
}

/// For one system, two different architectures get different assets.
pub proof fn law_asset_names_differ_by_arch(os: Seq<char>, arch1: Seq<char>, arch2: Seq<char>)
    requires
        arch1 != arch2,
    ensures
        spec_asset_name(os, arch1) != spec_asset_name(os, arch2),
{
    law_asset_name_carries_system(os, arch1);
    law_asset_name_carries_system(os, arch2);
}

/// The release name of an architecture is `x64` for `x86_64` and the
/// architecture's own name for any other (`aarch64` stays `aarch64`), so
/// the asset chosen for a machine carries its architecture.
pub proof fn law_asset_for_architecture(os: Seq<char>, arch: Seq<char>)
    ensures
        arch == seq!['x', '8', '6', '_', '6', '4'] ==> spec_asset_name(os, spec_bun_arch_name(arch))
            == spec_asset_name(os, seq!['x', '6', '4']),
        arch != seq!['x', '8', '6', '_', '6', '4'] ==> spec_asset_name(os, spec_bun_arch_name(arch))
            == spec_asset_name(os, arch),
{
    reveal_strlit("x86_64");
    reveal_strlit("x64");
    assert("x86_64"@ =~= seq!['x', '8', '6', '_', '6', '4']);
    assert("x64"@ =~= seq!['x', '6', '4']);
}

/// A number written in decimal starts with a digit other than `0`, unless
/// it is `0` itself.
proof fn lemma_decimal_first(n: nat)
    ensures
        n > 0 ==> decimal(n)[0] != '0',
        n == 0 ==> decimal(n) == seq!['0'],
    decreases n,
{
    if n >= 10 {
        lemma_decimal_first(n / 10);
        lemma_decimal(n / 10);
        assert(decimal(n)[0] == decimal(n / 10)[0]);
    } else if n == 0 {
        assert(decimal(n) =~= seq!['0']);
    }
}

/// A text without dots splits into itself alone.
proof fn lemma_split_plain(d: Seq<char>)
    requires
        forall|i: int| 0 <= i < d.len() ==> d[i] != '.',
    ensures
        split_dots(d) == seq![d],
    decreases d.len(),
{
    if d.len() == 0 {
        assert(d =~= Seq::<char>::empty());
        assert(split_dots(d) =~= seq![d]);
    } else {
        let e = d.drop_last();
        assert forall|i: int| 0 <= i < e.len() implies e[i] != '.' by {
            assert(e[i] == d[i]);
        }
        lemma_split_plain(e);
        assert(d[d.len() - 1] != '.');
        assert(split_dots(d) == split_dots(e).update(0, e.push(d.last())));
        assert(e.push(d.last()) =~= d);
        assert(split_dots(d) =~= seq![d]);
    }
}

/// `a.b.c`, the numbers written in decimal.
pub open spec fn release_text(a: nat, b: nat, c: nat) -> Seq<char> {
    decimal(a).push('.') + decimal(b) + seq!['.'] + decimal(c)
}

/// What `release_text` is made of: digits and two dots, splitting into the
/// three numbers, each a numeric identifier where it fits in `u64`.
proof fn lemma_release_text(a: nat, b: nat, c: nat)
    ensures
        forall|i: int|
            0 <= i < release_text(a, b, c).len() ==> #[trigger] release_text(a, b, c)[i] != '+'
                && release_text(a, b, c)[i] != '-',
        split_dots(release_text(a, b, c)) == seq![decimal(a), decimal(b), decimal(c)],
        a <= u64::MAX ==> crate::precedence::is_numeric_ident(decimal(a)),
        b <= u64::MAX ==> crate::precedence::is_numeric_ident(decimal(b)),
        c <= u64::MAX ==> crate::precedence::is_numeric_ident(decimal(c)),
        digits_value(decimal(a)) == a,
        digits_value(decimal(b)) == b,
        digits_value(decimal(c)) == c,
{
    let (da, db, dc) = (decimal(a), decimal(b), decimal(c));
    lemma_decimal(a);
    lemma_decimal(b);
    lemma_decimal(c);
    lemma_decimal_first(a);
    lemma_decimal_first(b);
    lemma_decimal_first(c);
    let t = release_text(a, b, c);
    let (m, k) = (da.len() as int, db.len() as int);
    assert forall|i: int| 0 <= i < t.len() implies #[trigger] t[i] != '+' && t[i] != '-' by {
        if i < m {
            assert(t[i] == da[i]);
        } else if m < i < m + 1 + k {
            assert(t[i] == db[i - m - 1]);
        } else if i > m + 1 + k {
            assert(t[i] == dc[i - m - 2 - k]);
        }
    }
    lemma_split_no_dot(da);
    lemma_split_dot_digits(da, db);
    let two = da.push('.') + db;
    lemma_split_dot_digits(two, dc);
    assert(two.push('.') + dc =~= t);
    assert(split_dots(t) =~= seq![da, db, dc]);
}

/// A release written `a.b.c` in decimal, with numbers that fit in `u64`,
/// is the semantic version `a.b.c` with no pre-release identifiers.
pub proof fn law_release_text_key(a: nat, b: nat, c: nat)
    requires
        a <= u64::MAX,
        b <= u64::MAX,
        c <= u64::MAX,
    ensures
        semver_key(release_text(a, b, c)) == Some(
            (a as int, b as int, c as int, Seq::<IdentKey>::empty()),
        ),
{
    let t = release_text(a, b, c);
    lemma_release_text(a, b, c);
    lemma_first_index(t, '+', t.len() as int);
    assert(t.take(t.len() as int) =~= t);
    lemma_first_index(t, '-', t.len() as int);
}

/// A pre-release of `a.b.c` with one identifier made of ASCII letters,
/// digits and hyphens, not digits alone, is that version with that
/// identifier, compared as text: `1.0.0-rc` has the identifier `rc`.
pub proof fn law_alphanumeric_prerelease_key(a: nat, b: nat, c: nat, p: Seq<char>)
    requires
        a <= u64::MAX,
        b <= u64::MAX,
        c <= u64::MAX,
        p.len() > 0,
        forall|i: int| 0 <= i < p.len() ==> letter_digit_or_hyphen(#[trigger] p[i]),
        exists|i: int| 0 <= i < p.len() && !('0' <= #[trigger] p[i] && p[i] <= '9'),
    ensures
        semver_key(release_text(a, b, c) + seq!['-'] + p) == Some(
            (a as int, b as int, c as int, seq![(false, 0int, p)]),
        ),
{
    let r = release_text(a, b, c);
    let t = r + seq!['-'] + p;
    let n = r.len() as int;
    lemma_release_text(a, b, c);
    assert forall|i: int| 0 <= i < t.len() implies #[trigger] t[i] != '+' by {
        if i < n {
            assert(t[i] == r[i]);
        } else if i > n {
            assert(t[i] == p[i - n - 1]);
            assert(letter_digit_or_hyphen(p[i - n - 1]));
        }
    }
    lemma_first_index(t, '+', t.len() as int);
    assert(t.take(t.len() as int) =~= t);
    assert forall|i: int| 0 <= i < n implies #[trigger] t[i] != '-' by {
        assert(t[i] == r[i]);
    }
    lemma_first_index(t, '-', n);
    assert(t.take(n) =~= r);
    assert(t.skip(n + 1) =~= p);
    assert forall|i: int| 0 <= i < p.len() implies p[i] != '.' by {
        assert(letter_digit_or_hyphen(p[i]));
    }
    lemma_split_plain(p);
    let k = choose|i: int| 0 <= i < p.len() && !('0' <= #[trigger] p[i] && p[i] <= '9');
    assert(!is_ascii_digit(p[k]));
    assert(!crate::precedence::all_digits(p));
    assert(crate::precedence::all_ident_chars(p)) by {
        assert forall|i: int| 0 <= i < p.len() implies crate::precedence::is_ident_char(
            #[trigger] p[i],
        ) by {
            assert(letter_digit_or_hyphen(p[i]));
        }
    }
    assert(seq![p].map_values(|s: Seq<char>| crate::precedence::ident_key(s)) =~= seq![
        (false, 0int, p),
    ]);
}

/// A pre-release of `a.b.c` with one numeric identifier `n`, written in
/// decimal, is that version with that identifier, compared as a number:
/// `1.0.0-2` has the identifier 2.
pub proof fn law_numeric_prerelease_key(a: nat, b: nat, c: nat, n: nat)
    requires
        a <= u64::MAX,
        b <= u64::MAX,
        c <= u64::MAX,
        n <= u64::MAX,
    ensures
        semver_key(release_text(a, b, c) + seq!['-'] + decimal(n)) == Some(
            (a as int, b as int, c as int, seq![(true, n as int, Seq::<char>::empty())]),
        ),
{
    let r = release_text(a, b, c);
    let d = decimal(n);
    let t = r + seq!['-'] + d;
    let m = r.len() as int;
    lemma_release_text(a, b, c);
    lemma_decimal(n);
    lemma_decimal_first(n);
    assert forall|i: int| 0 <= i < t.len() implies #[trigger] t[i] != '+' by {
        if i < m {
            assert(t[i] == r[i]);
        } else if i > m {
            assert(t[i] == d[i - m - 1]);
            assert(is_ascii_digit(d[i - m - 1]));
        }
    }
    lemma_first_index(t, '+', t.len() as int);
    assert(t.take(t.len() as int) =~= t);
    assert forall|i: int| 0 <= i < m implies #[trigger] t[i] != '-' by {
        assert(t[i] == r[i]);
    }
    lemma_first_index(t, '-', m);
    assert(t.take(m) =~= r);
    assert(t.skip(m + 1) =~= d);
    lemma_split_no_dot(d);
    assert(crate::precedence::all_digits(d));
    assert(seq![d].map_values(|s: Seq<char>| crate::precedence::ident_key(s)) =~= seq![
        (true, n as int, Seq::<char>::empty()),
    ]);
}

/// A numeric identifier with a leading zero makes a text no semantic
/// version, in the pre-release (`1.0.0-01`) as in `MAJOR` (`01.0.0`).
pub proof fn law_leading_zero_refused(a: nat, b: nat, c: nat, n: nat)
    ensures
        semver_key(release_text(a, b, c) + seq!['-', '0'] + decimal(n)) is None,
        semver_key(seq!['0'] + release_text(a, b, c)) is None,
{
    let r = release_text(a, b, c);
    let d = decimal(n);
    lemma_release_text(a, b, c);
    lemma_decimal(n);
    let zd = seq!['0'] + d;
    assert forall|i: int| 0 <= i < zd.len() implies is_ascii_digit(#[trigger] zd[i]) by {
        if i > 0 {
            assert(zd[i] == d[i - 1]);
        }
    }
    // The pre-release `0` followed by digits.
    let t = r + seq!['-', '0'] + d;
    let m = r.len() as int;
    assert(t =~= r + seq!['-'] + zd);
    assert forall|i: int| 0 <= i < t.len() implies #[trigger] t[i] != '+' by {
        if i < m {
            assert(t[i] == r[i]);
        } else if i > m {
            assert(t[i] == zd[i - m - 1]);
        }
    }
    lemma_first_index(t, '+', t.len() as int);
    assert(t.take(t.len() as int) =~= t);
    assert forall|i: int| 0 <= i < m implies #[trigger] t[i] != '-' by {
        assert(t[i] == r[i]);
    }
    lemma_first_index(t, '-', m);
    assert(t.skip(m + 1) =~= zd);
    lemma_split_no_dot(zd);
    assert(!crate::precedence::is_pre_ident(zd)) by {
        assert(crate::precedence::all_digits(zd));
        assert(zd[0] == '0' && zd.len() > 1);
    }
    assert(t.take(m) =~= r);
    let before = t.take(t.len() as int);
    assert(split_dots(before.skip(m + 1))[0] == zd);
    assert(semver_key(t) is None);
    // `MAJOR` with a leading zero.
    let (da, db, dc) = (decimal(a), decimal(b), decimal(c));
    lemma_decimal(a);
    lemma_decimal(b);
    lemma_decimal(c);
    let u = seq!['0'] + r;
    let zda = seq!['0'] + da;
    assert forall|i: int| 0 <= i < zda.len() implies is_ascii_digit(#[trigger] zda[i]) by {
        if i > 0 {
            assert(zda[i] == da[i - 1]);
        }
    }
    assert forall|i: int| 0 <= i < u.len() implies #[trigger] u[i] != '+' && u[i] != '-' by {
        if i > 0 {
            assert(u[i] == r[i - 1]);
        }
    }
    lemma_first_index(u, '+', u.len() as int);
    assert(u.take(u.len() as int) =~= u);
    lemma_first_index(u, '-', u.len() as int);
    lemma_split_no_dot(zda);
    lemma_split_dot_digits(zda, db);
    let two = zda.push('.') + db;
    lemma_split_dot_digits(two, dc);
    assert(two.push('.') + dc =~= u);
    assert(split_dots(u) =~= seq![zda, db, dc]);
    assert(!crate::precedence::is_numeric_ident(zda)) by {
        assert(zda[0] == '0' && zda.len() > 1);
    }
}

/// Releases name Linux `linux` and macOS `darwin`; for any other system
/// there is no release to pick.
pub proof fn law_os_release_names(os: Seq<char>)
    ensures
        os == seq!['l', 'i', 'n', 'u', 'x'] ==> spec_bun_os_name(os) == Some(
            seq!['l', 'i', 'n', 'u', 'x'],
        ),
        os == seq!['m', 'a', 'c', 'o', 's'] ==> spec_bun_os_name(os) == Some(
            seq!['d', 'a', 'r', 'w', 'i', 'n'],
        ),
        os != seq!['l', 'i', 'n', 'u', 'x'] && os != seq!['m', 'a', 'c', 'o', 's']
            ==> spec_bun_os_name(os) is None,
{
    reveal_strlit("linux");
    reveal_strlit("macos");
    reveal_strlit("darwin");
    assert("linux"@ =~= seq!['l', 'i', 'n', 'u', 'x']);
    assert("macos"@ =~= seq!['m', 'a', 'c', 'o', 's']);
    assert("darwin"@ =~= seq!['d', 'a', 'r', 'w', 'i', 'n']);
}

/// `MAJOR.MINOR.PATCH` has exactly three numbers: `1.0` and `1.0.0.0` are
/// no semantic versions.
pub proof fn law_three_numbers_required(a: nat, b: nat, c: nat, d: nat)
    ensures
        semver_key(decimal(a).push('.') + decimal(b)) is None,
        semver_key(release_text(a, b, c) + seq!['.'] + decimal(d)) is None,
{
    let (da, db, dd) = (decimal(a), decimal(b), decimal(d));
    lemma_decimal(a);
    lemma_decimal(b);
    lemma_decimal(d);
    lemma_release_text(a, b, c);
    let two = da.push('.') + db;
    assert forall|i: int| 0 <= i < two.len() implies #[trigger] two[i] != '+' && two[i] != '-' by {
        if i < da.len() {
            assert(two[i] == da[i]);
        } else if i > da.len() {
            assert(two[i] == db[i - da.len() - 1]);
        }
    }
    lemma_first_index(two, '+', two.len() as int);
    assert(two.take(two.len() as int) =~= two);
    lemma_first_index(two, '-', two.len() as int);
    lemma_split_no_dot(da);
    lemma_split_dot_digits(da, db);
    let r = release_text(a, b, c);
    let four = r.push('.') + dd;
    assert(four =~= r + seq!['.'] + dd);
    assert forall|i: int| 0 <= i < four.len() implies #[trigger] four[i] != '+' && four[i] != '-' by {
        if i < r.len() {
            assert(four[i] == r[i]);
        } else if i > r.len() {
            assert(four[i] == dd[i - r.len() - 1]);
        }
    }
    lemma_first_index(four, '+', four.len() as int);
    assert(four.take(four.len() as int) =~= four);
    lemma_first_index(four, '-', four.len() as int);
    lemma_split_dot_digits(r, dd);
}

} // verus!
