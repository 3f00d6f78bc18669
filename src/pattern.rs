//! Regular-expression matching, through the `regex` crate.

use vstd::prelude::*;

verus! {

/// Whether `pattern` matches somewhere in `haystack` under the `regex`
/// crate's syntax and semantics; `None` when the crate rejects the pattern.
pub uninterp spec fn regex_search(pattern: Seq<char>, haystack: Seq<char>) -> Option<bool>;

/// Relies on `regex::Regex::new`, which compiles `pattern` or returns an
/// error, and on `regex::Regex::is_match`, which tells whether the compiled
/// pattern matches anywhere in `haystack`. Both depend on their arguments alone.
#[verifier::external_body]
pub(crate) fn search(pattern: &str, haystack: &str) -> (r: Option<bool>)
    ensures
        r == regex_search(pattern@, haystack@),
{
    match regex::Regex::new(pattern) {
        Ok(re) => Some(re.is_match(haystack)),
        Err(_) => None,
    }
}

/// Whether `pattern` compiles and matches in `haystack`.
pub open spec fn regex_matches(pattern: Seq<char>, haystack: Seq<char>) -> bool {
    regex_search(pattern, haystack) == Some(true)
}

/// `true` exactly when `pattern` compiles and matches in `haystack`.
pub fn matches_pattern(pattern: &str, haystack: &str) -> (r: bool)
    ensures
        r == regex_matches(pattern@, haystack@),
{
    match search(pattern, haystack) {
        Some(found) => found,
        None => false,
    }
}

} // verus!
