//! Which version requirements can be handed to the `semver` crate.
//!
//! The crate reads each number of a version as a `u64` and stops where the
//! number does not fit, and it stops again where it has to add one to the
//! largest `u64`: that happens where a requirement is turned into an upper
//! bound. The numbers after a hyphen or a plus sign, which belong to a
//! pre-release or to build metadata, are read without either.

use crate::text::to_chars;
use vstd::prelude::*;

verus! {

/// Whether `c` is one of the digits `0` to `9`.
pub open spec fn is_digit(c: char) -> bool {
    '0' <= c && c <= '9'
}

/// Whether `c` is a space or a tab.
pub open spec fn is_blank(c: char) -> bool {
    c == ' ' || c == '\t'
}

/// Whether a version may begin directly after `c`: after a blank, after an
/// operator, or after the sign that stands between alternatives.
pub open spec fn opens(c: char) -> bool {
    is_blank(c) || c == '|' || c == '<' || c == '>' || c == '=' || c == '~' || c == '^'
}

/// Whether `c` may stand inside a version: a digit, a letter, a dot, a
/// hyphen, a plus sign or a star.
pub open spec fn in_version(c: char) -> bool {
    is_digit(c) || ('a' <= c && c <= 'z') || ('A' <= c && c <= 'Z') || c == '.' || c == '-' || c
        == '+' || c == '*'
}

/// Whether a version that begins with a number begins at `s`.
pub open spec fn starts_version(text: Seq<char>, s: int) -> bool {
    0 <= s < text.len() && is_digit(text[s]) && (s == 0 || opens(text[s - 1]))
}

/// The end of the digits that stand in a row from `i` on.
pub open spec fn run_end(text: Seq<char>, i: int) -> int
    decreases text.len() - i,
{
    if 0 <= i < text.len() && is_digit(text[i]) {
        run_end(text, i + 1)
    } else {
        i
    }
}

/// The end of the blanks that stand in a row from `i` on.
pub open spec fn blanks_end(text: Seq<char>, i: int) -> int
    decreases text.len() - i,
{
    if 0 <= i < text.len() && is_blank(text[i]) {
        blanks_end(text, i + 1)
    } else {
        i
    }
}

/// The end of the version that stands from `i` on.
pub open spec fn version_end(text: Seq<char>, i: int) -> int
    decreases text.len() - i,
{
    if 0 <= i < text.len() && in_version(text[i]) {
        version_end(text, i + 1)
    } else {
        i
    }
}

/// The start of the blanks that stand in a row before `i`.
pub open spec fn blanks_start(text: Seq<char>, i: int) -> int
    decreases i,
{
    if 0 < i <= text.len() && is_blank(text[i - 1]) {
        blanks_start(text, i - 1)
    } else {
        i
    }
}

/// The value of the digit `c`.
pub open spec fn digit_value(c: char) -> nat {
    if is_digit(c) {
        (c as u32 - '0' as u32) as nat
    } else {
        0
    }
}

/// The number that the digits from `i` up to `j` write.
pub open spec fn number(text: Seq<char>, i: int, j: int) -> nat
    decreases j - i,
{
    if j <= i || j > text.len() || i < 0 {
        0
    } else {
        number(text, i, j - 1) * 10 + digit_value(text[j - 1])
    }
}

/// Where the number after the one at `s` begins: behind a dot that follows
/// the number at `s` and is followed by a digit.
pub open spec fn next_number(text: Seq<char>, s: int) -> Option<int> {
    let e = run_end(text, s);
    if e + 1 < text.len() && text[e] == '.' && is_digit(text[e + 1]) {
        Some(e + 1)
    } else {
        None
    }
}

/// What stands before a version and decides which of its numbers is raised
/// by one when the requirement is turned into bounds.
pub enum Sign {
    /// Nothing: the version alone.
    Bare,
    /// `^`.
    Caret,
    /// `~` or `~>`.
    Tilde,
    /// `=`.
    Exactly,
    /// `<=`.
    AtMost,
    /// `<`, `>` or `>=`: no number is raised.
    Other,
    /// The hyphen of a range: the version is the upper end.
    UpTo,
    /// The version is the lower end of a range with a hyphen: no number is
    /// raised.
    From,
}

/// Whether a hyphen with blanks on both sides follows the version at `s`.
pub open spec fn hyphen_follows(text: Seq<char>, s: int) -> bool {
    let e = version_end(text, s);
    let a = blanks_end(text, e);
    a > e && a + 1 < text.len() && text[a] == '-' && is_blank(text[a + 1])
}

/// The sign of a version that has no operator before it.
pub open spec fn plain_sign(text: Seq<char>, s: int) -> Sign {
    if hyphen_follows(text, s) {
        Sign::From
    } else {
        Sign::Bare
    }
}

/// The sign of the version at `s`: what stands before it and the blanks
/// before it.
pub open spec fn sign(text: Seq<char>, s: int) -> Sign {
    let t = blanks_start(text, s);
    if t <= 0 || t > text.len() {
        plain_sign(text, s)
    } else {
        let c = text[t - 1];
        if c == '^' {
            Sign::Caret
        } else if c == '~' {
            Sign::Tilde
        } else if c == '>' {
            if t >= 2 && text[t - 2] == '~' {
                Sign::Tilde
            } else {
                Sign::Other
            }
        } else if c == '<' {
            Sign::Other
        } else if c == '=' {
            if t >= 2 && text[t - 2] == '<' {
                Sign::AtMost
            } else if t >= 2 && text[t - 2] == '>' {
                Sign::Other
            } else {
                Sign::Exactly
            }
        } else if c == '-' && t < s && t >= 2 && is_blank(text[t - 2]) {
            Sign::UpTo
        } else {
            plain_sign(text, s)
        }
    }
}

/// The number that a caret raises, in a version of `count` numbers.
pub open spec fn raised_by_caret(count: int, first: nat, second: nat, third: nat) -> nat {
    if first != 0 || count == 1 {
        first
    } else if count == 2 || second != 0 {
        second
    } else {
        third
    }
}

/// The number that is raised by one when a version of `count` numbers with
/// the sign `sign` is turned into bounds, if one is.
pub open spec fn raised(sign: Sign, count: int, first: nat, second: nat, third: nat) -> Option<
    nat,
> {
    match sign {
        Sign::Other => None,
        Sign::From => None,
        Sign::Exactly | Sign::AtMost | Sign::UpTo => if count == 1 {
            Some(first)
        } else if count == 2 {
            Some(second)
        } else {
            None
        },
        Sign::Tilde => if count == 1 {
            Some(first)
        } else {
            Some(second)
        },
        Sign::Bare => if count == 1 {
            Some(first)
        } else if count == 2 {
            Some(second)
        } else {
            Some(raised_by_caret(count, first, second, third))
        },
        Sign::Caret => Some(raised_by_caret(count, first, second, third)),
    }
}

/// Whether a version of `count` numbers with the sign `sign` has a number
/// that does not fit, or one that cannot be raised.
pub open spec fn exceeds(sign: Sign, count: int, first: nat, second: nat, third: nat) -> bool {
    first > u64::MAX || (count >= 2 && second > u64::MAX) || (count >= 3 && third > u64::MAX)
        || raised(sign, count, first, second, third) == Some(u64::MAX as nat)
}

/// Whether the version at `s` has a number that `semver` cannot take: one
/// of its first three numbers is above the largest `u64`, or the number
/// that is raised by one is the largest `u64`.
pub open spec fn too_large(text: Seq<char>, s: int) -> bool {
    let first = number(text, s, run_end(text, s));
    match next_number(text, s) {
        None => exceeds(sign(text, s), 1, first, 0, 0),
        Some(s2) => {
            let second = number(text, s2, run_end(text, s2));
            match next_number(text, s2) {
                None => exceeds(sign(text, s), 2, first, second, 0),
                Some(s3) => exceeds(
                    sign(text, s),
                    3,
                    first,
                    second,
                    number(text, s3, run_end(text, s3)),
                ),
            }
        },
    }
}

/// Whether every number of `text` that `semver` reads as a `u64` fits, and
/// every one that it raises can be raised.
pub open spec fn numbers_fit(text: Seq<char>) -> bool {
    forall|s: int| #[trigger] starts_version(text, s) ==> !too_large(text, s)
}

/// A text without a digit has no number that is too large.
pub proof fn lemma_no_digit_fits(text: Seq<char>)
    requires
        forall|i: int| 0 <= i < text.len() ==> !is_digit(#[trigger] text[i]),
    ensures
        numbers_fit(text),
{
}

fn digit(c: char) -> (r: bool)
    ensures
        r == is_digit(c),
{
    '0' <= c && c <= '9'
}

fn blank(c: char) -> (r: bool)
    ensures
        r == is_blank(c),
{
    c == ' ' || c == '\t'
}

fn opener(c: char) -> (r: bool)
    ensures
        r == opens(c),
{
    blank(c) || c == '|' || c == '<' || c == '>' || c == '=' || c == '~' || c == '^'
}

fn version_char(c: char) -> (r: bool)
    ensures
        r == in_version(c),
{
    digit(c) || ('a' <= c && c <= 'z') || ('A' <= c && c <= 'Z') || c == '.' || c == '-' || c == '+'
        || c == '*'
}

/// The number that begins at `i` and where it ends; `None` for a number
/// above the largest `u64`.
pub fn read_number(chars: &Vec<char>, i: usize) -> (r: (usize, Option<u64>))
    requires
        i <= chars.len(),
    ensures
        r.0 == run_end(chars@, i as int),
        i <= r.0 <= chars.len(),
        match r.1 {
            Some(v) => v == number(chars@, i as int, r.0 as int),
            None => number(chars@, i as int, r.0 as int) > u64::MAX,
        },
{
    let mut j: usize = i;
    let mut value: Option<u64> = Some(0);
    while j < chars.len() && digit(chars[j])
        invariant
            i <= j <= chars.len(),
            run_end(chars@, i as int) == run_end(chars@, j as int),
            match value {
                Some(v) => v == number(chars@, i as int, j as int),
                None => number(chars@, i as int, j as int) > u64::MAX,
            },
        decreases chars.len() - j,
    {
        let d: u64 = (chars[j] as u32 - '0' as u32) as u64;
        assert(d == digit_value(chars@[j as int]));
        assert(number(chars@, i as int, j + 1) == number(chars@, i as int, j as int) * 10 + d);
        value = match value {
            Some(v) => if v > (u64::MAX - d) / 10 {
                None
            } else {
                Some(v * 10 + d)
            },
            None => None,
        };
        j += 1;
    }
    (j, value)
}

/// Where the number after the one that ends at `e` begins.
fn following(chars: &Vec<char>, s: usize, e: usize) -> (r: Option<usize>)
    requires
        e == run_end(chars@, s as int),
        e <= chars.len(),
    ensures
        match r {
            Some(n) => next_number(chars@, s as int) == Some(n as int) && n < chars.len(),
            None => next_number(chars@, s as int).is_none(),
        },
{
    if e < chars.len() && e + 1 < chars.len() && chars[e] == '.' && digit(chars[e + 1]) {
        Some(e + 1)
    } else {
        None
    }
}

/// Whether a hyphen with blanks on both sides follows the version at `s`.
fn is_followed_by_hyphen(chars: &Vec<char>, s: usize) -> (r: bool)
    requires
        s <= chars.len(),
    ensures
        r == hyphen_follows(chars@, s as int),
{
    let mut e: usize = s;
    while e < chars.len() && version_char(chars[e])
        invariant
            s <= e <= chars.len(),
            version_end(chars@, s as int) == version_end(chars@, e as int),
        decreases chars.len() - e,
    {
        e += 1;
    }
    let mut a: usize = e;
    while a < chars.len() && blank(chars[a])
        invariant
            e <= a <= chars.len(),
            blanks_end(chars@, e as int) == blanks_end(chars@, a as int),
        decreases chars.len() - a,
    {
        a += 1;
    }
    a > e && a < chars.len() && a + 1 < chars.len() && chars[a] == '-' && blank(chars[a + 1])
}

/// The sign of the version at `s`.
pub fn sign_of(chars: &Vec<char>, s: usize) -> (r: Sign)
    requires
        s <= chars.len(),
    ensures
        r == sign(chars@, s as int),
{
    let mut t: usize = s;
    while t > 0 && blank(chars[t - 1])
        invariant
            t <= s <= chars.len(),
            blanks_start(chars@, s as int) == blanks_start(chars@, t as int),
        decreases t,
    {
        t -= 1;
    }
    if t == 0 {
        return if is_followed_by_hyphen(chars, s) {
            Sign::From
        } else {
            Sign::Bare
        };
    }
    let c = chars[t - 1];
    if c == '^' {
        Sign::Caret
    } else if c == '~' {
        Sign::Tilde
    } else if c == '>' {
        if t >= 2 && chars[t - 2] == '~' {
            Sign::Tilde
        } else {
            Sign::Other
        }
    } else if c == '<' {
        Sign::Other
    } else if c == '=' {
        if t >= 2 && chars[t - 2] == '<' {
            Sign::AtMost
        } else if t >= 2 && chars[t - 2] == '>' {
            Sign::Other
        } else {
            Sign::Exactly
        }
    } else if c == '-' && t < s && t >= 2 && blank(chars[t - 2]) {
        Sign::UpTo
    } else if is_followed_by_hyphen(chars, s) {
        Sign::From
    } else {
        Sign::Bare
    }
}

/// Whether a version of `count` numbers with the sign `sign` has a number
/// that cannot be raised: the others fit.
pub fn is_at_limit(sign: Sign, count: usize, first: u64, second: u64, third: u64) -> (r: bool)
    requires
        1 <= count <= 3,
    ensures
        r == exceeds(sign, count as int, first as nat, second as nat, third as nat),
{
    let by_caret = if first != 0 || count == 1 {
        first
    } else if count == 2 || second != 0 {
        second
    } else {
        third
    };
    match sign {
        Sign::Other => false,
        Sign::From => false,
        Sign::Exactly | Sign::AtMost | Sign::UpTo => {
            (count == 1 && first == u64::MAX) || (count == 2 && second == u64::MAX)
        },
        Sign::Tilde => (count == 1 && first == u64::MAX) || (count >= 2 && second == u64::MAX),
        Sign::Bare => if count == 1 {
            first == u64::MAX
        } else if count == 2 {
            second == u64::MAX
        } else {
            by_caret == u64::MAX
        },
        Sign::Caret => by_caret == u64::MAX,
    }
}

/// Whether the version at `s` has a number that `semver` cannot take.
pub fn is_too_large(chars: &Vec<char>, s: usize) -> (r: bool)
    requires
        s < chars.len(),
    ensures
        r == too_large(chars@, s as int),
{
    let (e1, v1) = read_number(chars, s);
    let first = match v1 {
        Some(v) => v,
        None => {
            return true;
        },
    };
    let s2 = match following(chars, s, e1) {
        Some(n) => n,
        None => {
            return is_at_limit(sign_of(chars, s), 1, first, 0, 0);
        },
    };
    let (e2, v2) = read_number(chars, s2);
    let second = match v2 {
        Some(v) => v,
        None => {
            return true;
        },
    };
    let s3 = match following(chars, s2, e2) {
        Some(n) => n,
        None => {
            return is_at_limit(sign_of(chars, s), 2, first, second, 0);
        },
    };
    let (e3, v3) = read_number(chars, s3);
    match v3 {
        Some(third) => is_at_limit(sign_of(chars, s), 3, first, second, third),
        None => true,
    }
}

/// Whether every number of `text` that `semver` reads as a `u64` fits, and
/// every one that it raises can be raised.
pub fn has_fitting_numbers(text: &str) -> (r: bool)
    ensures
        r == numbers_fit(text@),
{
    let chars = to_chars(text);
    let mut s: usize = 0;
    while s < chars.len()
        invariant
            s <= chars.len(),
            chars@ == text@,
            forall|k: int| 0 <= k < s && #[trigger] starts_version(chars@, k) ==> !too_large(chars@, k),
        decreases chars.len() - s,
    {
        if digit(chars[s]) && (s == 0 || opener(chars[s - 1])) {
            if is_too_large(&chars, s) {
                assert(starts_version(chars@, s as int));
                return false;
            }
        }
        s += 1;
    }
    true
}

} // verus!
