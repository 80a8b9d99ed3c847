//! Regular-expression matching through the `regex` crate.
//!
//! Each wrapper compiles its pattern with `regex::Regex::new` and runs one
//! `Regex` method on the haystack. What that method returns takes the
//! regex crate's documentation to state, so it is named here: each name is
//! a function of the pattern, the haystack (and the replacement) alone, and
//! is `None` exactly when the pattern does not compile.

use vstd::prelude::*;

verus! {

/// What `Regex::new(pattern)` then `Regex::is_match(haystack)` returns.
pub uninterp spec fn regex_is_match(pattern: Seq<char>, haystack: Seq<char>) -> Option<bool>;

/// What `Regex::new(pattern)` then `Regex::replace_all(haystack, replacement)`
/// returns (`$n` in the replacement expands to capture group `n`).
pub uninterp spec fn regex_replace_all(
    pattern: Seq<char>,
    haystack: Seq<char>,
    replacement: Seq<char>,
) -> Option<Seq<char>>;

/// What `Regex::new(pattern)` then `Regex::replace(haystack, replacement)`
/// (the leftmost match only) returns.
pub uninterp spec fn regex_replace_first(
    pattern: Seq<char>,
    haystack: Seq<char>,
    replacement: Seq<char>,
) -> Option<Seq<char>>;

/// What `Regex::new(pattern)` then `Regex::captures(haystack)` gives for
/// capture group 1 of the leftmost match: the inner `None` when there is no
/// match or group 1 did not take part in it.
pub uninterp spec fn regex_group1(pattern: Seq<char>, haystack: Seq<char>) -> Option<Option<Seq<char>>>;

/// `Regex::new(pattern)?.is_match(haystack)`.
#[verifier::external_body]
pub(crate) fn regex_is_match_exec(pattern: &str, haystack: &str) -> (r: Option<bool>)
    ensures
        r == regex_is_match(pattern@, haystack@),
{
    match regex::Regex::new(pattern) {
        Ok(re) => Some(re.is_match(haystack)),
        Err(_) => None,
    }
}

/// `Regex::new(pattern)?.replace_all(haystack, replacement)`.
#[verifier::external_body]
pub(crate) fn regex_replace_all_exec(pattern: &str, haystack: &str, replacement: &str) -> (r: Option<String>)
    ensures
        r matches Some(s) ==> regex_replace_all(pattern@, haystack@, replacement@) == Some(s@),
        r is None ==> regex_replace_all(pattern@, haystack@, replacement@) is None,
{
    match regex::Regex::new(pattern) {
        Ok(re) => Some(re.replace_all(haystack, replacement).into_owned()),
        Err(_) => None,
    }
}

/// `Regex::new(pattern)?.replace(haystack, replacement)`.
#[verifier::external_body]
pub(crate) fn regex_replace_first_exec(pattern: &str, haystack: &str, replacement: &str) -> (r: Option<String>)
    ensures
        r matches Some(s) ==> regex_replace_first(pattern@, haystack@, replacement@) == Some(s@),
        r is None ==> regex_replace_first(pattern@, haystack@, replacement@) is None,
{
    match regex::Regex::new(pattern) {
        Ok(re) => Some(re.replace(haystack, replacement).into_owned()),
        Err(_) => None,
    }
}

/// Capture group 1 of `Regex::new(pattern)?.captures(haystack)`.
#[verifier::external_body]
pub(crate) fn regex_group1_exec(pattern: &str, haystack: &str) -> (r: Option<Option<String>>)
    ensures
        r matches Some(Some(g)) ==> regex_group1(pattern@, haystack@) == Some(Some(g@)),
        r matches Some(None) ==> regex_group1(pattern@, haystack@) == Some(None::<Seq<char>>),
        r is None ==> regex_group1(pattern@, haystack@) is None,
{
    match regex::Regex::new(pattern) {
        Ok(re) => match re.captures(haystack) {
            Some(caps) => match caps.get(1) {
                Some(m) => Some(Some(m.as_str().to_string())),
                None => Some(None),
            },
            None => Some(None),
        },
        Err(_) => None,
    }
}

// ---------------------------------------------------------------------------
// The forms the parser uses: a pattern that does not compile matches
// nothing and replaces nothing.
// ---------------------------------------------------------------------------

pub open spec fn is_match(pattern: Seq<char>, haystack: Seq<char>) -> bool {
    regex_is_match(pattern, haystack) == Some(true)
}

pub open spec fn replaced_all(pattern: Seq<char>, haystack: Seq<char>, replacement: Seq<char>) -> Seq<char> {
    match regex_replace_all(pattern, haystack, replacement) {
        Some(s) => s,
        None => haystack,
    }
}

pub open spec fn replaced_first(pattern: Seq<char>, haystack: Seq<char>, replacement: Seq<char>) -> Seq<char> {
    match regex_replace_first(pattern, haystack, replacement) {
        Some(s) => s,
        None => haystack,
    }
}

pub open spec fn group1(pattern: Seq<char>, haystack: Seq<char>) -> Option<Seq<char>> {
    match regex_group1(pattern, haystack) {
        Some(g) => g,
        None => None,
    }
}

pub fn is_match_str(pattern: &str, haystack: &str) -> (b: bool)
    ensures
        b == is_match(pattern@, haystack@),
{
    match regex_is_match_exec(pattern, haystack) {
        Some(b) => b,
        None => false,
    }
}

pub fn replace_all_str(pattern: &str, haystack: &str, replacement: &str) -> (r: String)
    ensures
        r@ == replaced_all(pattern@, haystack@, replacement@),
{
    match regex_replace_all_exec(pattern, haystack, replacement) {
        Some(s) => s,
        None => crate::text::string_from(haystack),
    }
}

pub fn replace_first_str(pattern: &str, haystack: &str, replacement: &str) -> (r: String)
    ensures
        r@ == replaced_first(pattern@, haystack@, replacement@),
{
    match regex_replace_first_exec(pattern, haystack, replacement) {
        Some(s) => s,
        None => crate::text::string_from(haystack),
    }
}

pub fn group1_str(pattern: &str, haystack: &str) -> (r: Option<String>)
    ensures
        r matches Some(g) ==> group1(pattern@, haystack@) == Some(g@),
        r is None ==> group1(pattern@, haystack@) is None,
{
    match regex_group1_exec(pattern, haystack) {
        Some(g) => g,
        None => None,
    }
}

} // verus!
