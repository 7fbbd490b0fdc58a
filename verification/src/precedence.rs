//! Semantic versions (`MAJOR.MINOR.PATCH`, an optional `-` and pre-release
//! identifiers, an optional `+` and build identifiers) and their precedence,
//! as the Semantic Versioning 2.0.0 rules give it. Numbers are held as
//! `u64`: a text with a larger number does not count as a semantic version.

use vstd::prelude::*;

use crate::bun_version::{digits_value, is_ascii_digit, lemma_digits_value_prefix};
use crate::grammar::{split_dots, split_dots_from};
use crate::text::chars_of;

verus! {

/// A pre-release identifier as precedence sees it: `(true, value, "")` for
/// a numeric one, `(false, 0, text)` for any other.
pub type IdentKey = (bool, int, Seq<char>);

/// A semantic version as precedence sees it: major, minor, patch, and the
/// pre-release identifiers (none for a release). Build identifiers do not
/// take part in precedence.
pub type SemverKey = (int, int, int, Seq<IdentKey>);

/// A character allowed in an identifier: ASCII letters and digits, and `-`.
pub open spec fn is_ident_char(c: char) -> bool {
    ('0' <= c && c <= '9') || ('a' <= c && c <= 'z') || ('A' <= c && c <= 'Z') || c == '-'
}

/// Every character of `s` is an ASCII digit.
pub open spec fn all_digits(s: Seq<char>) -> bool {
    forall|i: int| 0 <= i < s.len() ==> is_ascii_digit(#[trigger] s[i])
}

/// Every character of `s` is allowed in an identifier.
pub open spec fn all_ident_chars(s: Seq<char>) -> bool {
    forall|i: int| 0 <= i < s.len() ==> is_ident_char(#[trigger] s[i])
}

/// A numeric identifier: digits without a leading zero (but `0` itself),
/// whose number fits in `u64`.
pub open spec fn is_numeric_ident(s: Seq<char>) -> bool {
    &&& s.len() > 0
    &&& all_digits(s)
    &&& (s.len() == 1 || s[0] != '0')
    &&& digits_value(s) <= u64::MAX
}

/// A pre-release identifier: a numeric one, or identifier characters with
/// at least one that is no digit.
pub open spec fn is_pre_ident(s: Seq<char>) -> bool {
    is_numeric_ident(s) || (s.len() > 0 && all_ident_chars(s) && !all_digits(s))
}

/// A build identifier: one or more identifier characters.
pub open spec fn is_build_ident(s: Seq<char>) -> bool {
    s.len() > 0 && all_ident_chars(s)
}

/// How precedence sees a pre-release identifier.
pub open spec fn ident_key(s: Seq<char>) -> IdentKey {
    if all_digits(s) {
        (true, digits_value(s), Seq::<char>::empty())
    } else {
        (false, 0, s)
    }
}

/// `i` is the first position of `c` in `s`.
pub open spec fn is_first_index(s: Seq<char>, c: char, i: int) -> bool {
    &&& 0 <= i < s.len()
    &&& s[i] == c
    &&& forall|k: int| 0 <= k < i ==> #[trigger] s[k] != c
}

/// The first position of `c` in `s`, or the length of `s` where there is
/// none.
pub open spec fn first_index(s: Seq<char>, c: char) -> int {
    if exists|i: int| is_first_index(s, c, i) {
        choose|i: int| is_first_index(s, c, i)
    } else {
        s.len() as int
    }
}

/// A position before which `c` does not occur, and at which it occurs or
/// the text ends, is the first position of `c`.
pub proof fn lemma_first_index(s: Seq<char>, c: char, i: int)
    requires
        0 <= i <= s.len(),
        forall|k: int| 0 <= k < i ==> #[trigger] s[k] != c,
        i == s.len() || s[i] == c,
    ensures
        first_index(s, c) == i,
{
    if i < s.len() {
        assert(is_first_index(s, c, i));
        let j = choose|j: int| is_first_index(s, c, j);
        if j < i {
            assert(s[j] != c);
        }
        if j > i {
            assert(s[i] != c);
        }
    } else {
        assert forall|j: int| !is_first_index(s, c, j) by {
            if is_first_index(s, c, j) {
                assert(s[j] != c);
            }
        }
    }
}

/// The precedence key of a text that is a semantic version, `None` for any
/// other text: the text up to the first `+` is the version, the rest its
/// build identifiers; in the version, the text up to the first `-` is
/// `MAJOR.MINOR.PATCH`, the rest its pre-release identifiers.
pub open spec fn semver_key(t: Seq<char>) -> Option<SemverKey> {
    let plus = first_index(t, '+');
    let before = t.take(plus);
    let dash = first_index(before, '-');
    let core = split_dots(before.take(dash));
    let has_pre = dash < before.len();
    let pre = split_dots(before.skip(dash + 1));
    let has_build = plus < t.len();
    let build = split_dots(t.skip(plus + 1));
    if core.len() == 3 && is_numeric_ident(core[0]) && is_numeric_ident(core[1])
        && is_numeric_ident(core[2]) && (has_pre ==> forall|i: int|
        0 <= i < pre.len() ==> is_pre_ident(#[trigger] pre[i])) && (has_build ==> forall|i: int|
        0 <= i < build.len() ==> is_build_ident(#[trigger] build[i])) {
        Some(
            (
                digits_value(core[0]),
                digits_value(core[1]),
                digits_value(core[2]),
                if has_pre {
                    pre.map_values(|s: Seq<char>| ident_key(s))
                } else {
                    Seq::<IdentKey>::empty()
                },
            ),
        )
    } else {
        None
    }
}

/// `a` comes before `b` in ASCII order, character by character, a text
/// before any longer text that starts with it.
pub open spec fn text_lt(a: Seq<char>, b: Seq<char>) -> bool
    decreases a.len(),
{
    if a.len() == 0 {
        b.len() > 0
    } else if b.len() == 0 {
        false
    } else if a[0] != b[0] {
        a[0] < b[0]
    } else {
        text_lt(a.drop_first(), b.drop_first())
    }
}

/// Identifier `a` has lower precedence than `b`: numeric ones by value,
/// others in ASCII order, and numeric ones before others.
pub open spec fn ident_lt(a: IdentKey, b: IdentKey) -> bool {
    if a.0 && b.0 {
        a.1 < b.1
    } else if a.0 {
        true
    } else if b.0 {
        false
    } else {
        text_lt(a.2, b.2)
    }
}

/// Identifier lists compared from the left; where one list starts with the
/// other, the shorter first.
pub open spec fn idents_lt(a: Seq<IdentKey>, b: Seq<IdentKey>) -> bool
    decreases a.len(),
{
    if a.len() == 0 {
        b.len() > 0
    } else if b.len() == 0 {
        false
    } else if a[0] != b[0] {
        ident_lt(a[0], b[0])
    } else {
        idents_lt(a.drop_first(), b.drop_first())
    }
}

/// Pre-release lists (empty for a release): a release comes after any
/// pre-release of the same version.
pub open spec fn pre_lt(a: Seq<IdentKey>, b: Seq<IdentKey>) -> bool {
    if a.len() == 0 {
        false
    } else if b.len() == 0 {
        true
    } else {
        idents_lt(a, b)
    }
}

/// Version `a` has lower precedence than `b`: major, minor, patch compared
/// as numbers, then the pre-release identifiers.
pub open spec fn semver_lt(a: SemverKey, b: SemverKey) -> bool {
    a.0 < b.0 || (a.0 == b.0 && (a.1 < b.1 || (a.1 == b.1 && (a.2 < b.2 || (a.2 == b.2
        && pre_lt(a.3, b.3))))))
}

/// An identifier key as `ident_key` makes them.
pub open spec fn ident_wf(a: IdentKey) -> bool {
    if a.0 {
        a.2 == Seq::<char>::empty()
    } else {
        a.1 == 0
    }
}

/// A version key as `semver_key` makes them.
pub open spec fn semver_wf(a: SemverKey) -> bool {
    forall|i: int| 0 <= i < a.3.len() ==> ident_wf(#[trigger] a.3[i])
}

/// Every key that `semver_key` gives is well formed.
pub proof fn lemma_semver_key_wf(t: Seq<char>)
    ensures
        semver_key(t) matches Some(k) ==> semver_wf(k),
{
}

/// ASCII order is a strict total order.
pub proof fn lemma_text_order(a: Seq<char>, b: Seq<char>, c: Seq<char>)
    ensures
        !text_lt(a, a),
        text_lt(a, b) ==> !text_lt(b, a),
        a != b ==> text_lt(a, b) || text_lt(b, a),
        text_lt(a, b) && text_lt(b, c) ==> text_lt(a, c),
    decreases a.len(),
{
    if a.len() > 0 {
        lemma_text_order(a.drop_first(), a.drop_first(), a.drop_first());
    }
    if a.len() > 0 && b.len() > 0 && c.len() > 0 {
        lemma_text_order(a.drop_first(), b.drop_first(), c.drop_first());
        if a != b && a[0] == b[0] {
            assert(a.drop_first() != b.drop_first()) by {
                if a.drop_first() == b.drop_first() {
                    assert(a =~= seq![a[0]] + a.drop_first());
                    assert(b =~= seq![b[0]] + b.drop_first());
                }
            }
        }
    } else if a.len() > 0 && b.len() > 0 {
        lemma_text_order(a.drop_first(), b.drop_first(), c);
        if a != b && a[0] == b[0] {
            assert(a.drop_first() != b.drop_first()) by {
                if a.drop_first() == b.drop_first() {
                    assert(a =~= seq![a[0]] + a.drop_first());
                    assert(b =~= seq![b[0]] + b.drop_first());
                }
            }
        }
    } else if a.len() == 0 && b.len() == 0 {
        assert(a =~= b);
    }
}

/// Identifier order is a strict total order on well-formed identifiers.
pub proof fn lemma_ident_order(a: IdentKey, b: IdentKey, c: IdentKey)
    requires
        ident_wf(a),
        ident_wf(b),
        ident_wf(c),
    ensures
        !ident_lt(a, a),
        ident_lt(a, b) ==> !ident_lt(b, a),
        a != b ==> ident_lt(a, b) || ident_lt(b, a),
        ident_lt(a, b) && ident_lt(b, c) ==> ident_lt(a, c),
{
    lemma_text_order(a.2, b.2, c.2);
    lemma_text_order(a.2, a.2, a.2);
    lemma_text_order(b.2, a.2, c.2);
}

/// Identifier lists are strictly totally ordered.
pub proof fn lemma_idents_order(a: Seq<IdentKey>, b: Seq<IdentKey>, c: Seq<IdentKey>)
    requires
        forall|i: int| 0 <= i < a.len() ==> ident_wf(#[trigger] a[i]),
        forall|i: int| 0 <= i < b.len() ==> ident_wf(#[trigger] b[i]),
        forall|i: int| 0 <= i < c.len() ==> ident_wf(#[trigger] c[i]),
    ensures
        !idents_lt(a, a),
        idents_lt(a, b) ==> !idents_lt(b, a),
        a != b ==> idents_lt(a, b) || idents_lt(b, a),
        idents_lt(a, b) && idents_lt(b, c) ==> idents_lt(a, c),
    decreases a.len(),
{
    if a.len() > 0 {
        let a1 = a.drop_first();
        assert forall|i: int| 0 <= i < a1.len() implies ident_wf(#[trigger] a1[i]) by {
            assert(a1[i] == a[i + 1]);
        }
        lemma_idents_order(a1, a1, a1);
    }
    if a.len() > 0 && b.len() > 0 {
        assert(ident_wf(a[0]) && ident_wf(b[0]));
        let (a1, b1) = (a.drop_first(), b.drop_first());
        let c1 = if c.len() > 0 {
            c.drop_first()
        } else {
            c
        };
        assert forall|i: int| 0 <= i < a1.len() implies ident_wf(#[trigger] a1[i]) by {
            assert(a1[i] == a[i + 1]);
        }
        assert forall|i: int| 0 <= i < b1.len() implies ident_wf(#[trigger] b1[i]) by {
            assert(b1[i] == b[i + 1]);
        }
        assert forall|i: int| 0 <= i < c1.len() implies ident_wf(#[trigger] c1[i]) by {
            if c.len() > 0 {
                assert(c1[i] == c[i + 1]);
            }
        }
        lemma_idents_order(a1, b1, c1);
        if c.len() > 0 {
            assert(ident_wf(c[0]));
            lemma_ident_order(a[0], b[0], c[0]);
            lemma_ident_order(b[0], a[0], c[0]);
            lemma_ident_order(a[0], c[0], b[0]);
        } else {
            lemma_ident_order(a[0], b[0], a[0]);
        }
        if a != b && a[0] == b[0] {
            assert(a1 != b1) by {
                if a1 == b1 {
                    assert(a =~= seq![a[0]] + a1);
                    assert(b =~= seq![b[0]] + b1);
                }
            }
        }
    } else if a.len() == 0 && b.len() == 0 {
        assert(a =~= b);
    }
}

/// Precedence is a strict total order on well-formed version keys.
pub proof fn lemma_semver_order(a: SemverKey, b: SemverKey, c: SemverKey)
    requires
        semver_wf(a),
        semver_wf(b),
        semver_wf(c),
    ensures
        !semver_lt(a, a),
        semver_lt(a, b) ==> !semver_lt(b, a),
        a != b ==> semver_lt(a, b) || semver_lt(b, a),
        semver_lt(a, b) && semver_lt(b, c) ==> semver_lt(a, c),
{
    lemma_idents_order(a.3, b.3, c.3);
    lemma_idents_order(b.3, a.3, c.3);
    lemma_idents_order(a.3, c.3, b.3);
    lemma_idents_order(a.3, a.3, a.3);
    if a.0 == b.0 && a.1 == b.1 && a.2 == b.2 && a.3 == b.3 {
        assert(a == b);
    }
}

/// A pre-release identifier: numeric with its value, or its text.
pub struct PreIdent {
    pub numeric: bool,
    pub value: u64,
    pub text: Vec<char>,
}

/// A semantic version with its pre-release identifiers; build identifiers
/// are checked but not kept.
pub struct SemverParts {
    pub major: u64,
    pub minor: u64,
    pub patch: u64,
    pub pre: Vec<PreIdent>,
}

/// The key of a pre-release identifier.
pub open spec fn ident_view(p: PreIdent) -> IdentKey {
    (p.numeric, p.value as int, p.text@)
}

/// The key of a semantic version.
pub open spec fn parts_view(k: SemverParts) -> SemverKey {
    (k.major as int, k.minor as int, k.patch as int, k.pre@.map_values(|p: PreIdent| ident_view(p)))
}

/// The key of an optional semantic version.
pub open spec fn opt_parts_view(o: Option<SemverParts>) -> Option<SemverKey> {
    match o {
        Some(k) => Some(parts_view(k)),
        None => None,
    }
}

/// An optional key as `semver_key` makes them.
pub open spec fn opt_wf(o: Option<SemverKey>) -> bool {
    match o {
        Some(k) => semver_wf(k),
        None => true,
    }
}

/// Characters `from` to `to` of `v`.
fn sub_chars(v: &Vec<char>, from: usize, to: usize) -> (r: Vec<char>)
    requires
        from <= to <= v@.len(),
    ensures
        r@ == v@.subrange(from as int, to as int),
{
    let mut r: Vec<char> = Vec::new();
    let mut i: usize = from;
    while i < to
        invariant
            from <= i <= to,
            to <= v@.len(),
            r@ =~= v@.subrange(from as int, i as int),
        decreases to - i,
    {
        r.push(v[i]);
        i += 1;
    }
    r
}

/// The first position of `c` in `v`, or its length.
fn find_char(v: &Vec<char>, c: char) -> (r: usize)
    ensures
        r == first_index(v@, c),
        r <= v@.len(),
{
    let mut i: usize = 0;
    while i < v.len() && v[i] != c
        invariant
            i <= v@.len(),
            forall|k: int| 0 <= k < i ==> #[trigger] v@[k] != c,
        decreases v@.len() - i,
    {
        i += 1;
    }
    proof {
        lemma_first_index(v@, c, i as int);
    }
    i
}

/// Whether `s` is a numeric identifier, with its number.
fn parse_numeric_ident(s: &Vec<char>) -> (r: Option<u64>)
    ensures
        r is Some <==> is_numeric_ident(s@),
        r matches Some(x) ==> x == digits_value(s@),
{
    let n = s.len();
    if n == 0 {
        return None;
    }
    if n > 1 && s[0] == '0' {
        return None;
    }
    let mut value: u64 = 0;
    let mut i: usize = 0;
    proof {
        assert(s@.take(0) =~= Seq::<char>::empty());
    }
    while i < n
        invariant
            n == s@.len(),
            0 < n,
            i <= n,
            value as int == digits_value(s@.take(i as int)),
            forall|k: int| 0 <= k < i ==> is_ascii_digit(#[trigger] s@[k]),
        decreases n - i,
    {
        let c = s[i];
        if !('0' <= c && c <= '9') {
            assert(!is_ascii_digit(s@[i as int]));
            return None;
        }
        let d: u128 = (c as u32 - '0' as u32) as u128;
        let next: u128 = value as u128 * 10 + d;
        proof {
            assert(s@.take(i + 1).drop_last() =~= s@.take(i as int));
            assert(s@.take(i + 1).last() == c);
        }
        if next > u64::MAX as u128 {
            proof {
                if all_digits(s@) {
                    lemma_digits_value_prefix(s@, i + 1);
                }
            }
            return None;
        }
        value = next as u64;
        i += 1;
    }
    proof {
        assert(s@.take(n as int) =~= s@);
    }
    Some(value)
}

/// Whether every character of `s` is a digit.
fn check_all_digits(s: &Vec<char>) -> (r: bool)
    ensures
        r == all_digits(s@),
{
    let mut i: usize = 0;
    while i < s.len()
        invariant
            i <= s@.len(),
            forall|k: int| 0 <= k < i ==> is_ascii_digit(#[trigger] s@[k]),
        decreases s@.len() - i,
    {
        if !('0' <= s[i] && s[i] <= '9') {
            assert(!is_ascii_digit(s@[i as int]));
            return false;
        }
        i += 1;
    }
    true
}

/// Whether every character of `s` may stand in an identifier.
fn check_ident_chars(s: &Vec<char>) -> (r: bool)
    ensures
        r == all_ident_chars(s@),
{
    let mut i: usize = 0;
    while i < s.len()
        invariant
            i <= s@.len(),
            forall|k: int| 0 <= k < i ==> is_ident_char(#[trigger] s@[k]),
        decreases s@.len() - i,
    {
        let c = s[i];
        if !(('0' <= c && c <= '9') || ('a' <= c && c <= 'z') || ('A' <= c && c <= 'Z') || c
            == '-') {
            assert(!is_ident_char(s@[i as int]));
            return false;
        }
        i += 1;
    }
    true
}

/// The key of a pre-release identifier, or `None` where `s` is none.
fn parse_pre_ident(s: &Vec<char>) -> (r: Option<PreIdent>)
    ensures
        r is Some <==> is_pre_ident(s@),
        r matches Some(p) ==> ident_view(p) == ident_key(s@),
{
    if check_all_digits(s) {
        match parse_numeric_ident(s) {
            Some(v) => {
                let r = PreIdent { numeric: true, value: v, text: Vec::new() };
                assert(r.text@ =~= Seq::<char>::empty());
                Some(r)
            },
            None => None,
        }
    } else if s.len() > 0 && check_ident_chars(s) {
        let mut text: Vec<char> = Vec::new();
        let mut i: usize = 0;
        while i < s.len()
            invariant
                i <= s@.len(),
                text@ =~= s@.take(i as int),
            decreases s@.len() - i,
        {
            text.push(s[i]);
            i += 1;
        }
        assert(s@.take(s@.len() as int) =~= s@);
        Some(PreIdent { numeric: false, value: 0, text })
    } else {
        None
    }
}

/// Whether `t` is a semantic version, with its key.
#[verifier::loop_isolation(false)]
pub fn parse_semver(t: &str) -> (r: Option<SemverParts>)
    ensures
        opt_parts_view(r) == semver_key(t@),
{
    let cs = chars_of(t);
    let plus = find_char(&cs, '+');
    let before = sub_chars(&cs, 0, plus);
    assert(before@ =~= t@.take(plus as int));
    let dash = find_char(&before, '-');
    let core_text = sub_chars(&before, 0, dash);
    assert(core_text@ =~= before@.take(dash as int));
    assert(core_text@.skip(0) =~= core_text@);
    let core = split_dots_from(&core_text, 0);
    if core.len() != 3 {
        return None;
    }
    let major = match parse_numeric_ident(&core[0]) {
        Some(v) => v,
        None => return None,
    };
    let minor = match parse_numeric_ident(&core[1]) {
        Some(v) => v,
        None => return None,
    };
    let patch = match parse_numeric_ident(&core[2]) {
        Some(v) => v,
        None => return None,
    };
    let ghost pre_spec = split_dots(before@.skip(dash + 1));
    let mut pre: Vec<PreIdent> = Vec::new();
    if dash < before.len() {
        let pre_text = sub_chars(&before, dash + 1, before.len());
        assert(pre_text@.skip(0) =~= before@.skip(dash + 1));
        let parts = split_dots_from(&pre_text, 0);
        let mut i: usize = 0;
        while i < parts.len()
            invariant
                i <= parts@.len(),
                parts@.len() == pre_spec.len(),
                forall|k: int| 0 <= k < parts@.len() ==> #[trigger] parts@[k]@ == pre_spec[k],
                pre@.len() == i,
                forall|k: int| 0 <= k < i ==> is_pre_ident(#[trigger] pre_spec[k]),
                forall|k: int| 0 <= k < i ==> ident_view(#[trigger] pre@[k]) == ident_key(pre_spec[k]),
            decreases parts@.len() - i,
        {
            assert(parts@[i as int]@ == pre_spec[i as int]);
            match parse_pre_ident(&parts[i]) {
                Some(p) => pre.push(p),
                None => {
                    assert(!is_pre_ident(pre_spec[i as int]));
                    return None;
                },
            }
            i += 1;
        }
        assert(pre@.map_values(|p: PreIdent| ident_view(p)) =~= pre_spec.map_values(
            |s: Seq<char>| ident_key(s),
        ));
    } else {
        assert(pre@.map_values(|p: PreIdent| ident_view(p)) =~= Seq::<IdentKey>::empty());
    }
    if plus < cs.len() {
        let build_text = sub_chars(&cs, plus + 1, cs.len());
        assert(build_text@.skip(0) =~= t@.skip(plus + 1));
        let parts = split_dots_from(&build_text, 0);
        let ghost build_spec = split_dots(t@.skip(plus + 1));
        let mut i: usize = 0;
        while i < parts.len()
            invariant
                i <= parts@.len(),
                parts@.len() == build_spec.len(),
                forall|k: int| 0 <= k < parts@.len() ==> #[trigger] parts@[k]@ == build_spec[k],
                forall|k: int| 0 <= k < i ==> is_build_ident(#[trigger] build_spec[k]),
            decreases parts@.len() - i,
        {
            assert(parts@[i as int]@ == build_spec[i as int]);
            if !(parts[i].len() > 0 && check_ident_chars(&parts[i])) {
                assert(!is_build_ident(build_spec[i as int]));
                return None;
            }
            i += 1;
        }
    }
    Some(SemverParts { major, minor, patch, pre })
}

/// Whether `a` comes before `b` in ASCII order.
fn text_less(a: &Vec<char>, b: &Vec<char>) -> (r: bool)
    ensures
        r == text_lt(a@, b@),
{
    let mut i: usize = 0;
    proof {
        assert(a@.skip(0) =~= a@);
        assert(b@.skip(0) =~= b@);
    }
    while i < a.len() && i < b.len()
        invariant
            i <= a@.len(),
            i <= b@.len(),
            text_lt(a@, b@) == text_lt(a@.skip(i as int), b@.skip(i as int)),
        decreases a@.len() - i,
    {
        let ghost x = a@.skip(i as int);
        let ghost y = b@.skip(i as int);
        assert(x[0] == a@[i as int] && y[0] == b@[i as int]);
        if a[i] != b[i] {
            return a[i] < b[i];
        }
        assert(x.drop_first() =~= a@.skip(i + 1));
        assert(y.drop_first() =~= b@.skip(i + 1));
        i += 1;
    }
    a.len() == i && b.len() > i
}

/// Whether identifier `a` has lower precedence than `b`.
fn ident_less(a: &PreIdent, b: &PreIdent) -> (r: bool)
    ensures
        r == ident_lt(ident_view(*a), ident_view(*b)),
{
    if a.numeric && b.numeric {
        a.value < b.value
    } else if a.numeric {
        true
    } else if b.numeric {
        false
    } else {
        text_less(&a.text, &b.text)
    }
}

/// Whether identifier list `a` has lower precedence than `b`.
fn idents_less(a: &Vec<PreIdent>, b: &Vec<PreIdent>) -> (r: bool)
    requires
        forall|i: int| 0 <= i < a@.len() ==> ident_wf(#[trigger] ident_view(a@[i])),
        forall|i: int| 0 <= i < b@.len() ==> ident_wf(#[trigger] ident_view(b@[i])),
    ensures
        r == idents_lt(
            a@.map_values(|p: PreIdent| ident_view(p)),
            b@.map_values(|p: PreIdent| ident_view(p)),
        ),
{
    let ghost av = a@.map_values(|p: PreIdent| ident_view(p));
    let ghost bv = b@.map_values(|p: PreIdent| ident_view(p));
    let mut i: usize = 0;
    proof {
        assert(av.skip(0) =~= av);
        assert(bv.skip(0) =~= bv);
    }
    while i < a.len() && i < b.len()
        invariant
            i <= a@.len(),
            i <= b@.len(),
            av == a@.map_values(|p: PreIdent| ident_view(p)),
            bv == b@.map_values(|p: PreIdent| ident_view(p)),
            forall|k: int| 0 <= k < a@.len() ==> ident_wf(#[trigger] ident_view(a@[k])),
            forall|k: int| 0 <= k < b@.len() ==> ident_wf(#[trigger] ident_view(b@[k])),
            idents_lt(av, bv) == idents_lt(av.skip(i as int), bv.skip(i as int)),
        decreases a@.len() - i,
    {
        let ghost x = av.skip(i as int);
        let ghost y = bv.skip(i as int);
        assert(x[0] == ident_view(a@[i as int]) && y[0] == ident_view(b@[i as int]));
        proof {
            lemma_ident_order(x[0], y[0], x[0]);
        }
        if ident_less(&a[i], &b[i]) {
            return true;
        }
        if ident_less(&b[i], &a[i]) {
            return false;
        }
        assert(x.drop_first() =~= av.skip(i + 1));
        assert(y.drop_first() =~= bv.skip(i + 1));
        i += 1;
    }
    proof {
        assert(av.skip(i as int).len() == a@.len() - i);
        assert(bv.skip(i as int).len() == b@.len() - i);
    }
    a.len() == i && b.len() > i
}

/// Whether version `a` has lower precedence than `b`.
fn semver_less(a: &SemverParts, b: &SemverParts) -> (r: bool)
    requires
        semver_wf(parts_view(*a)),
        semver_wf(parts_view(*b)),
    ensures
        r == semver_lt(parts_view(*a), parts_view(*b)),
{
    if a.major != b.major {
        return a.major < b.major;
    }
    if a.minor != b.minor {
        return a.minor < b.minor;
    }
    if a.patch != b.patch {
        return a.patch < b.patch;
    }
    let ghost av = a.pre@.map_values(|p: PreIdent| ident_view(p));
    let ghost bv = b.pre@.map_values(|p: PreIdent| ident_view(p));
    assert(parts_view(*a).3 == av);
    assert(parts_view(*b).3 == bv);
    assert forall|i: int| 0 <= i < a.pre@.len() implies ident_wf(#[trigger] ident_view(a.pre@[i])) by {
        assert(av[i] == ident_view(a.pre@[i]));
        assert(ident_wf(parts_view(*a).3[i]));
    }
    assert forall|i: int| 0 <= i < b.pre@.len() implies ident_wf(#[trigger] ident_view(b.pre@[i])) by {
        assert(bv[i] == ident_view(b.pre@[i]));
        assert(ident_wf(parts_view(*b).3[i]));
    }
    if a.pre.len() == 0 {
        false
    } else if b.pre.len() == 0 {
        true
    } else {
        idents_less(&a.pre, &b.pre)
    }
}

/// Whether optional version `a` comes before `b`: by precedence, and any
/// version before a text that is none.
pub fn semver_key_less(a: &Option<SemverParts>, b: &Option<SemverParts>) -> (r: bool)
    requires
        opt_wf(opt_parts_view(*a)),
        opt_wf(opt_parts_view(*b)),
    ensures
        r == match (opt_parts_view(*a), opt_parts_view(*b)) {
            (Some(x), Some(y)) => semver_lt(x, y),
            (Some(_), None) => true,
            _ => false,
        },
{
    match (a, b) {
        (Some(x), Some(y)) => semver_less(x, y),
        (Some(_), None) => true,
        _ => false,
    }
}

} // verus!
