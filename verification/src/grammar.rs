//! The grammar of version texts: an optional `bun-v` or `v` in front of
//! digit runs joined by single dots, as in `bun-v1.0.0`, `v0.4` or `6`.
//! A digit is what the `regex` crate's `\d` matches (Unicode `Nd`).

use vstd::prelude::*;

verus! {

/// The pattern `\A\d\z`: exactly one character of the class `\d`.
pub open spec fn digit_class_pattern() -> Seq<char> {
    seq!['\\', 'A', '\\', 'd', '\\', 'z']
}

/// What `regex::Regex::new(pattern)` and then `Regex::is_match` on the text
/// made of `c` alone answer; `None` where the pattern does not compile.
pub uninterp spec fn regex_char_match(pattern: Seq<char>, c: char) -> Option<bool>;

/// Calls `regex::Regex::new` on `pattern` and `Regex::is_match` on the
/// one-character text `c`. Trusted: the answer is the crate's (named by
/// `regex_char_match`); for the digit-class pattern the crate documents `\d`
/// as `\p{Nd}`, so the pattern compiles and, among ASCII characters, matches
/// exactly `0` to `9`. Which other characters are in `Nd` is left to the crate.
#[verifier::external_body]
fn regex_matches_char(pattern: &str, c: char) -> (r: Option<bool>)
    ensures
        r == regex_char_match(pattern@, c),
        pattern@ == digit_class_pattern() ==> r is Some,
        pattern@ == digit_class_pattern() && (c as u32) < 128 ==> r == Some(
            '0' <= c && c <= '9',
        ),
{
    let mut buf = [0u8; 4];
    match regex::Regex::new(pattern) {
        Ok(re) => Some(re.is_match(c.encode_utf8(&mut buf))),
        Err(_) => None,
    }
}

/// A character that `\d` matches: among ASCII the digits `0` to `9`, beyond
/// ASCII what the `regex` crate counts as a decimal digit.
pub open spec fn is_version_digit(c: char) -> bool {
    if (c as u32) < 128 {
        '0' <= c && c <= '9'
    } else {
        regex_char_match(digit_class_pattern(), c) == Some(true)
    }
}

/// Whether `\d` matches `c`.
pub fn version_digit(c: char) -> (r: bool)
    ensures
        r == is_version_digit(c),
{
    let pattern = "\\A\\d\\z";
    proof {
        reveal_strlit("\\A\\d\\z");
        assert(pattern@ =~= digit_class_pattern());
    }
    match regex_matches_char(pattern, c) {
        Some(b) => b,
        None => false,
    }
}

/// The characters `bun-v`.
pub open spec fn bun_v_prefix() -> Seq<char> {
    seq!['b', 'u', 'n', '-', 'v']
}

/// The text after the optional `bun-v` or `v` in front.
pub open spec fn version_body(s: Seq<char>) -> Seq<char> {
    if bun_v_prefix().is_prefix_of(s) {
        s.skip(5)
    } else if s.len() > 0 && s[0] == 'v' {
        s.skip(1)
    } else {
        s
    }
}

/// No two dots stand next to each other at position `i`.
pub open spec fn no_double_dot_at(v: Seq<char>, i: int) -> bool {
    !(v[i] == '.' && v[i + 1] == '.')
}

/// `v` is one or more digit runs joined by single dots (`\d+(\.\d+)*`).
pub open spec fn is_dotted_number(v: Seq<char>) -> bool {
    &&& v.len() > 0
    &&& is_version_digit(v[0])
    &&& is_version_digit(v[v.len() - 1])
    &&& forall|i: int| 0 <= i < v.len() ==> is_version_digit(#[trigger] v[i]) || v[i] == '.'
    &&& forall|i: int| 0 <= i < v.len() - 1 ==> #[trigger] no_double_dot_at(v, i)
}

/// A version text as `BunVersion` reads it:
/// `(bun-v|v)?\d+(\.\d+)*`, the whole text.
pub open spec fn is_version_text(s: Seq<char>) -> bool {
    is_dotted_number(version_body(s))
}

/// A version text as the short form reads it, whose first component is a
/// single digit: `(bun-v|v)?\d(\.\d+)*`, the whole text.
pub open spec fn is_short_version_text(s: Seq<char>) -> bool {
    let v = version_body(s);
    is_dotted_number(v) && (v.len() == 1 || v[1] == '.')
}

/// The pieces of `v` between dots, in order (what `str::split('.')` yields):
/// one more piece than there are dots.
pub open spec fn split_dots(v: Seq<char>) -> Seq<Seq<char>>
    decreases v.len(),
{
    if v.len() == 0 {
        seq![Seq::<char>::empty()]
    } else {
        let parts = split_dots(v.drop_last());
        if v.last() == '.' {
            parts.push(Seq::<char>::empty())
        } else {
            parts.update(parts.len() - 1, parts.last().push(v.last()))
        }
    }
}

/// A text always splits into at least one piece.
pub proof fn lemma_split_dots_nonempty(v: Seq<char>)
    ensures
        split_dots(v).len() >= 1,
    decreases v.len(),
{
    if v.len() > 0 {
        lemma_split_dots_nonempty(v.drop_last());
    }
}

/// Where the version body of `s` starts.
pub fn version_body_start(s: &Vec<char>) -> (r: usize)
    ensures
        r <= s@.len(),
        version_body(s@) == s@.skip(r as int),
{
    let n = s.len();
    if n >= 5 && s[0] == 'b' && s[1] == 'u' && s[2] == 'n' && s[3] == '-' && s[4] == 'v' {
        assert(s@.subrange(0, 5) =~= bun_v_prefix());
        5
    } else {
        assert(!bun_v_prefix().is_prefix_of(s@)) by {
            if bun_v_prefix().is_prefix_of(s@) {
                assert(s@.subrange(0, 5)[0] == 'b');
                assert(s@.subrange(0, 5)[1] == 'u');
                assert(s@.subrange(0, 5)[2] == 'n');
                assert(s@.subrange(0, 5)[3] == '-');
                assert(s@.subrange(0, 5)[4] == 'v');
            }
        }
        if n >= 1 && s[0] == 'v' {
            1
        } else {
            assert(s@.skip(0) =~= s@);
            0
        }
    }
}

/// Whether `s` from character `from` on is a dotted number.
pub fn is_dotted_number_from(s: &Vec<char>, from: usize) -> (r: bool)
    requires
        from <= s@.len(),
    ensures
        r == is_dotted_number(s@.skip(from as int)),
{
    let n = s.len();
    let ghost v = s@.skip(from as int);
    if from >= n {
        return false;
    }
    let mut i: usize = from;
    let mut prev_dot = false;
    while i < n
        invariant
            from < n,
            from <= i <= n,
            n == s@.len(),
            v == s@.skip(from as int),
            forall|k: int| 0 <= k < i - from ==> is_version_digit(#[trigger] v[k]) || v[k] == '.',
            forall|k: int| 0 <= k < i - from - 1 ==> #[trigger] no_double_dot_at(v, k),
            i > from ==> prev_dot == (v[i - from - 1] == '.'),
            prev_dot ==> i > from,
        decreases n - i,
    {
        let c = s[i];
        assert(v[i - from] == c);
        let is_dot = c == '.';
        if !is_dot && !version_digit(c) {
            return false;
        }
        if is_dot && prev_dot {
            assert(!no_double_dot_at(v, i - from - 1));
            return false;
        }
        proof {
            if i > from {
                assert(no_double_dot_at(v, i - from - 1));
            }
        }
        prev_dot = is_dot;
        i += 1;
    }
    let first = version_digit(s[from]);
    let last = version_digit(s[n - 1]);
    assert(v[0] == s@[from as int]);
    assert(v[v.len() - 1] == s@[n - 1]);
    first && last
}

/// `split_dots` of `s` from character `from` on.
pub fn split_dots_from(s: &Vec<char>, from: usize) -> (r: Vec<Vec<char>>)
    requires
        from <= s@.len(),
    ensures
        r@.len() == split_dots(s@.skip(from as int)).len(),
        forall|k: int| 0 <= k < r@.len() ==> #[trigger] r@[k]@ == split_dots(s@.skip(from as int))[k],
{
    let n = s.len();
    let ghost v = s@.skip(from as int);
    let mut parts: Vec<Vec<char>> = Vec::new();
    parts.push(Vec::new());
    let mut i: usize = from;
    proof {
        assert(v.take(0) =~= Seq::<char>::empty());
        assert(split_dots(Seq::<char>::empty()) =~= seq![Seq::<char>::empty()]);
    }
    while i < n
        invariant
            from <= i <= n,
            n == s@.len(),
            v == s@.skip(from as int),
            parts@.len() == split_dots(v.take(i - from)).len(),
            forall|k: int| 0 <= k < parts@.len() ==> #[trigger] parts@[k]@ == split_dots(v.take(i - from))[k],
        decreases n - i,
    {
        let c = s[i];
        let ghost before = v.take(i - from);
        proof {
            assert(v.take(i - from + 1).drop_last() =~= before);
            assert(v.take(i - from + 1).last() == c);
            lemma_split_dots_nonempty(before);
        }
        let ghost prev = parts@;
        if c == '.' {
            parts.push(Vec::new());
            proof {
                assert(split_dots(v.take(i - from + 1)) =~= split_dots(before).push(Seq::<char>::empty()));
                assert forall|k: int| 0 <= k < parts@.len() implies #[trigger] parts@[k]@ == split_dots(
                    v.take(i - from + 1),
                )[k] by {
                    if k < parts@.len() - 1 {
                        assert(parts@[k] == prev[k]);
                    }
                }
            }
        } else {
            let mut last = parts.pop().unwrap();
            last.push(c);
            parts.push(last);
            proof {
                let sp = split_dots(before);
                assert(split_dots(v.take(i - from + 1)) =~= sp.update(sp.len() - 1, sp.last().push(c)));
                assert forall|k: int| 0 <= k < parts@.len() implies #[trigger] parts@[k]@ == split_dots(
                    v.take(i - from + 1),
                )[k] by {
                    if k < parts@.len() - 1 {
                        assert(parts@[k] == prev[k]);
                    }
                }
            }
        }
        i += 1;
    }
    proof {
        assert(v.take(n - from) =~= v);
    }
    parts
}

} // verus!
