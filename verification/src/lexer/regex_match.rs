//! The lexer's one use of the `regex` crate: where a pattern first matches.
use regex::Regex;
use vstd::prelude::*;

use crate::lexer::source_text::boundary;

verus! {

/// The start and end byte offsets of the first match of `pattern` in
/// `haystack`, as `regex::Regex::new(pattern)` and then `Regex::find(haystack)`
/// report them; none where the pattern does not compile or does not match.
pub uninterp spec fn regex_find(pattern: Seq<char>, haystack: Seq<char>) -> Option<(usize, usize)>;

/// Compiles `pattern` with `regex::Regex::new` and searches `haystack` with
/// `Regex::find`. Claimed: the result is `regex_find` of the two texts (the
/// search depends on nothing else), and, as the documentation of `regex::Match`
/// states, a match has `start <= end` and both offsets fall on character
/// boundaries of the haystack's UTF-8 encoding, so that slicing there never
/// panics. Which spans a pattern matches is left to the name.
#[verifier::external_body]
pub(crate) fn find_match(pattern: &str, haystack: &str) -> (result: Option<(usize, usize)>)
    ensures
        result == regex_find(pattern@, haystack@),
        match result {
            Some((start, end)) => start <= end && boundary(haystack@, start as int) && boundary(
                haystack@,
                end as int,
            ),
            None => true,
        },
{
    match Regex::new(pattern) {
        Ok(re) => match re.find(haystack) {
            Some(m) => Some((m.start(), m.end())),
            None => None,
        },
        Err(_) => None,
    }
}

} // verus!
