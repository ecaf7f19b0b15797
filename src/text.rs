//! Character-level helpers on domain names and configuration strings.
use vstd::prelude::*;

verus! {

/// ASCII lower-casing of one character; other characters are unchanged.
pub open spec fn lower_char(c: char) -> char {
    if 'A' <= c && c <= 'Z' {
        ((c as u8) + 32u8) as char
    } else {
        c
    }
}

/// ASCII upper-casing of one character; other characters are unchanged.
pub open spec fn upper_char(c: char) -> char {
    if 'a' <= c && c <= 'z' {
        ((c as u8) - 32u8) as char
    } else {
        c
    }
}

pub open spec fn ascii_lower(s: Seq<char>) -> Seq<char> {
    Seq::new(s.len(), |i: int| lower_char(s[i]))
}

pub open spec fn ascii_upper(s: Seq<char>) -> Seq<char> {
    Seq::new(s.len(), |i: int| upper_char(s[i]))
}

/// `t` ends with `suffix`.
pub open spec fn has_suffix(t: Seq<char>, suffix: Seq<char>) -> bool {
    suffix.len() <= t.len() && t.subrange(t.len() - suffix.len(), t.len() as int) == suffix
}

/// Index of the first `.` at or after `i`, or -1.
pub open spec fn dot_from(s: Seq<char>, i: int) -> int
    decreases s.len() - i,
{
    if i < 0 || i >= s.len() {
        -1
    } else if s[i] == '.' {
        i
    } else {
        dot_from(s, i + 1)
    }
}

/// The name without its first label, when it has a dot.
pub open spec fn strip_first_label(s: Seq<char>) -> Option<Seq<char>> {
    let d = dot_from(s, 0);
    if d < 0 {
        None
    } else {
        Some(s.subrange(d + 1, s.len() as int))
    }
}

/// `t` is `s` or what remains of `s` after removing leading labels.
pub open spec fn is_label_suffix(t: Seq<char>, s: Seq<char>) -> bool
    decreases s.len(),
{
    t == s || match strip_first_label(s) {
        Some(rest) => rest.len() < s.len() && is_label_suffix(t, rest),
        None => false,
    }
}

/// Relies on std's `str::to_ascii_lowercase`: maps `A`..`Z` to `a`..`z` and
/// leaves every other character as it is.
#[verifier::external_body]
pub(crate) fn to_ascii_lower(s: &str) -> (r: String)
    ensures
        r@ == ascii_lower(s@),
{
    s.to_ascii_lowercase()
}

/// Relies on std's `str::to_ascii_uppercase`: maps `a`..`z` to `A`..`Z` and
/// leaves every other character as it is.
#[verifier::external_body]
pub(crate) fn to_ascii_upper(s: &str) -> (r: String)
    ensures
        r@ == ascii_upper(s@),
{
    s.to_ascii_uppercase()
}

/// Relies on std's `str::ends_with` with a `&str` pattern.
#[verifier::external_body]
pub(crate) fn ends_with(t: &str, suffix: &str) -> (r: bool)
    ensures
        r == has_suffix(t@, suffix@),
{
    t.ends_with(suffix)
}

/// Relies on std's `str::eq_ignore_ascii_case`: equal after ASCII lower-casing.
#[verifier::external_body]
pub(crate) fn eq_ignore_ascii_case(a: &str, b: &str) -> (r: bool)
    ensures
        r == (ascii_lower(a@) == ascii_lower(b@)),
{
    a.eq_ignore_ascii_case(b)
}

/// Relies on std's `str::split_once` with a `'.'` pattern: splits at the
/// first dot; only the part after it is kept.
#[verifier::external_body]
pub(crate) fn after_first_dot(s: &str) -> (r: Option<&str>)
    ensures
        match strip_first_label(s@) {
            Some(rest) => r is Some && r.unwrap()@ == rest,
            None => r is None,
        },
{
    s.split_once('.').map(|(_, rest)| rest)
}

/// Equality of two strings by their characters.
pub fn str_eq(a: &str, b: &str) -> (r: bool)
    ensures
        r == (a@ == b@),
{
    let la = a.unicode_len();
    let lb = b.unicode_len();
    if la != lb {
        return false;
    }
    let mut i: usize = 0;
    while i < la
        invariant
            la == a@.len(),
            lb == b@.len(),
            la == lb,
            i <= la,
            forall|j: int| 0 <= j < i ==> a@[j] == b@[j],
        decreases la - i,
    {
        if a.get_char(i) != b.get_char(i) {
            return false;
        }
        i = i + 1;
    }
    assert(a@ =~= b@);
    true
}

} // verus!
