//! Regular-expression matching, through the `regex` crate.
//!
//! What a pattern matches is a function of the pattern and the text alone;
//! the two results the engine reads — whether a pattern compiles, and what
//! its first capture group captures — are named here, and everything
//! around the calls is verified against those names.

use vstd::prelude::*;

verus! {

/// Whether `p` is a valid pattern: whether compiling it succeeds.
pub uninterp spec fn regex_valid(p: Seq<char>) -> bool;

/// What the first capture group of `p` captures on `text`: `None` where
/// the pattern does not match `text` or has no first group.
pub uninterp spec fn capture1_of(p: Seq<char>, text: Seq<char>) -> Option<Seq<char>>;

/// Relies on `regex::Regex::new`: compiling a pattern succeeds or fails
/// depending on the pattern text alone.
#[verifier::external_body]
pub fn regex_is_valid(p: &str) -> (r: bool)
    ensures
        r == regex_valid(p@),
{
    regex::Regex::new(p).is_ok()
}

/// Relies on `regex::Regex::new`, `Regex::captures` and `Captures::get`:
/// the leftmost match of a valid pattern, and what its first capture group
/// spans, depend on the pattern and the haystack alone.
#[verifier::external_body]
pub fn regex_capture1(p: &str, text: &str) -> (r: Option<String>)
    requires
        regex_valid(p@),
    ensures
        (match r {
            Some(c) => capture1_of(p@, text@) == Some(c@),
            None => capture1_of(p@, text@) is None,
        }),
{
    regex::Regex::new(p)
        .ok()
        .and_then(|re| re.captures(text))
        .and_then(|cap| cap.get(1))
        .map(|m| m.as_str().to_string())
}

} // verus!
