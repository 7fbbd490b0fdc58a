//! A bun version of three numbers, read from texts such as `bun-v1.0.0`,
//! `v1.0.0`, `v0.4` or `0.0.4`.

use vstd::prelude::*;

use crate::grammar::{
    is_dotted_number, is_dotted_number_from, lemma_split_dots_nonempty, split_dots,
    split_dots_from, version_body, version_body_start,
};
use crate::text::{chars_of, owned};

verus! {

/// A digit from `0` to `9`.
pub open spec fn is_ascii_digit(c: char) -> bool {
    '0' <= c && c <= '9'
}

/// The number that the ASCII digits of `s` spell in base ten.
pub open spec fn digits_value(s: Seq<char>) -> int
    decreases s.len(),
{
    if s.len() == 0 {
        0
    } else {
        digits_value(s.drop_last()) * 10 + (s.last() as int - '0' as int)
    }
}

/// What `str::parse::<i32>` gives for a text without a sign: a value exactly
/// when the text is a non-empty run of ASCII digits whose number fits in
/// `i32`.
pub open spec fn parsed_i32(s: Seq<char>) -> Option<i32> {
    if s.len() > 0 && (forall|i: int| 0 <= i < s.len() ==> is_ascii_digit(#[trigger] s[i]))
        && digits_value(s) <= i32::MAX {
        Some(digits_value(s) as i32)
    } else {
        None
    }
}

/// The number of ASCII digits is never negative, and a longer prefix never
/// spells a smaller number.
pub proof fn lemma_digits_value_prefix(s: Seq<char>, j: int)
    requires
        0 <= j <= s.len(),
        forall|i: int| 0 <= i < s.len() ==> is_ascii_digit(#[trigger] s[i]),
    ensures
        0 <= digits_value(s.take(j)) <= digits_value(s),
    decreases s.len(),
{
    if s.len() > 0 {
        let t = s.drop_last();
        assert forall|i: int| 0 <= i < t.len() implies is_ascii_digit(#[trigger] t[i]) by {
            assert(t[i] == s[i]);
        }
        if j == s.len() {
            assert(s.take(j) =~= s);
            lemma_digits_value_prefix(t, t.len() as int);
            assert(t.take(t.len() as int) =~= t);
            assert(is_ascii_digit(s[s.len() - 1]));
        } else {
            lemma_digits_value_prefix(t, j);
            lemma_digits_value_prefix(t, t.len() as int);
            assert(t.take(j) =~= s.take(j));
            assert(t.take(t.len() as int) =~= t);
            assert(is_ascii_digit(s[s.len() - 1]));
        }
    } else {
        assert(s.take(j) =~= s);
    }
}

/// `str::parse::<i32>` on a version component.
fn parse_component(p: &Vec<char>) -> (r: Option<i32>)
    ensures
        r == parsed_i32(p@),
{
    let n = p.len();
    if n == 0 {
        return None;
    }
    let mut value: i32 = 0;
    let mut i: usize = 0;
    proof {
        assert(p@.take(0) =~= Seq::<char>::empty());
    }
    while i < n
        invariant
            n == p@.len(),
            0 < n,
            i <= n,
            value as int == digits_value(p@.take(i as int)),
            0 <= value,
            forall|k: int| 0 <= k < i ==> is_ascii_digit(#[trigger] p@[k]),
        decreases n - i,
    {
        let c = p[i];
        if !('0' <= c && c <= '9') {
            assert(!is_ascii_digit(p@[i as int]));
            return None;
        }
        let d: i64 = (c as u32 - '0' as u32) as i64;
        let next: i64 = value as i64 * 10 + d;
        proof {
            assert(p@.take(i + 1).drop_last() =~= p@.take(i as int));
            assert(p@.take(i + 1).last() == c);
        }
        if next > i32::MAX as i64 {
            proof {
                if forall|k: int| 0 <= k < p@.len() ==> is_ascii_digit(#[trigger] p@[k]) {
                    lemma_digits_value_prefix(p@, i + 1);
                }
            }
            return None;
        }
        value = next as i32;
        i += 1;
    }
    proof {
        assert(p@.take(n as int) =~= p@);
    }
    Some(value)
}

/// The piece `k` of a split version, or `0` where there is none.
pub open spec fn component_or_zero(parts: Seq<Seq<char>>, k: int) -> Seq<char> {
    if k < parts.len() {
        parts[k]
    } else {
        seq!['0']
    }
}

/// The three numbers that a version text gives: its first three
/// dot-separated pieces, `0` for a missing one, each read as an `i32`.
/// `None` where the text is no version text or a piece does not read.
pub open spec fn spec_bun_version(s: Seq<char>) -> Option<(i32, i32, i32)> {
    let v = version_body(s);
    if !is_dotted_number(v) {
        None
    } else {
        let parts = split_dots(v);
        match (
            parsed_i32(component_or_zero(parts, 0)),
            parsed_i32(component_or_zero(parts, 1)),
            parsed_i32(component_or_zero(parts, 2)),
        ) {
            (Some(a), Some(b), Some(c)) => Some((a, b, c)),
            _ => None,
        }
    }
}

/// A version of bun: major, minor and patch number.
#[derive(Debug, Clone, PartialEq, Eq, Structural)]
pub struct BunVersion {
    major: i32,
    minor: i32,
    patch: i32,
}

/// A text that is no version text (or whose numbers do not fit in `i32`).
#[derive(Debug, Clone, PartialEq, Eq, Structural)]
pub struct VersionParseError;

impl View for BunVersion {
    type V = (i32, i32, i32);

    closed spec fn view(&self) -> (i32, i32, i32) {
        (self.major, self.minor, self.patch)
    }
}

impl BunVersion {
    /// The version `major.minor.patch`.
    pub fn new(major: i32, minor: i32, patch: i32) -> (r: Self)
        ensures
            r@ == (major, minor, patch),
    {
        BunVersion { major, minor, patch }
    }

    /// The major number.
    pub fn major(&self) -> (r: i32)
        ensures
            r == self@.0,
    {
        self.major
    }

    /// The minor number.
    pub fn minor(&self) -> (r: i32)
        ensures
            r == self@.1,
    {
        self.minor
    }

    /// The patch number.
    pub fn patch(&self) -> (r: i32)
        ensures
            r == self@.2,
    {
        self.patch
    }

    /// Reads a version text: `bun-v` or `v` may stand in front of digit runs
    /// joined by dots; the first three runs are the numbers, a missing one is
    /// `0`, runs after the third are not read.
    pub fn parse(s: &str) -> (r: Result<BunVersion, VersionParseError>)
        ensures
            r is Ok <==> spec_bun_version(s@) is Some,
            r matches Ok(v) ==> spec_bun_version(s@) == Some(v@),
    {
        let cs = chars_of(s);
        let start = version_body_start(&cs);
        if !is_dotted_number_from(&cs, start) {
            return Err(VersionParseError);
        }
        let parts = split_dots_from(&cs, start);
        let ghost sp = split_dots(version_body(s@));
        proof {
            lemma_split_dots_nonempty(version_body(s@));
        }
        let zero: Vec<char> = vec!['0'];
        assert(zero@ =~= seq!['0']);
        let major = parse_component(&parts[0]);
        let minor = if parts.len() > 1 {
            parse_component(&parts[1])
        } else {
            parse_component(&zero)
        };
        let patch = if parts.len() > 2 {
            parse_component(&parts[2])
        } else {
            parse_component(&zero)
        };
        assert(parts@[0]@ == component_or_zero(sp, 0));
        proof {
            if parts.len() > 1 {
                assert(parts@[1]@ == component_or_zero(sp, 1));
            }
            if parts.len() > 2 {
                assert(parts@[2]@ == component_or_zero(sp, 2));
            }
        }
        match (major, minor, patch) {
            (Some(a), Some(b), Some(c)) => Ok(BunVersion::new(a, b, c)),
            _ => Err(VersionParseError),
        }
    }
}

impl std::str::FromStr for BunVersion {
    type Err = VersionParseError;

    fn from_str(s: &str) -> (r: Result<Self, Self::Err>)
        ensures
            r is Ok <==> spec_bun_version(s@) is Some,
            r matches Ok(v) ==> spec_bun_version(s@) == Some(v@),
    {
        BunVersion::parse(s)
    }
}

/// The message shown for a version text that does not read.
pub open spec fn parse_error_message() -> Seq<char> {
    "ParseError, Valid versions look like the following. 'bun-v1.0.0', 'v1.0.0', 'v0.4', '0.0.4', etc"@
}

/// The short description of a version text that does not read.
pub open spec fn parse_error_description() -> Seq<char> {
    "Invalid version, couldn't parse"@
}

impl VersionParseError {
    /// The text that the error shows to a user.
    pub fn message(&self) -> (r: String)
        ensures
            r@ == parse_error_message(),
    {
        owned(
            "ParseError, Valid versions look like the following. 'bun-v1.0.0', 'v1.0.0', 'v0.4', '0.0.4', etc",
        )
    }

    /// A short description of the error.
    pub fn description(&self) -> (r: String)
        ensures
            r@ == parse_error_description(),
    {
        owned("Invalid version, couldn't parse")
    }
}

} // verus!
