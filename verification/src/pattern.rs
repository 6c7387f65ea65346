//! Searching a text for a pattern. The search is that of the `regex` crate;
//! this module gives its result a name.

use vstd::prelude::*;

verus! {

/// What the first group of a pattern holds in the first match of the
/// pattern in a text, as the `regex` crate finds it: a function of the
/// pattern and the text alone. There is none where the pattern is no
/// pattern, where it does not match, and where it matches without the
/// group.
pub uninterp spec fn regex_first_group(pattern: Seq<char>, haystack: Seq<char>) -> Option<
    Seq<char>,
>;

/// The characters of a text, if there is one.
pub open spec fn text_view(text: Option<String>) -> Option<Seq<char>> {
    match text {
        Some(t) => Some(t@),
        None => None,
    }
}

/// Calls `regex::Regex::new`, `Regex::captures` and `Captures::get` for the
/// group 1. The contract only names the result: the same pattern and text
/// give the same result.
#[verifier::external_body]
pub(crate) fn first_group(pattern: &str, haystack: &str) -> (r: Option<String>)
    ensures
        text_view(r) == regex_first_group(pattern@, haystack@),
{
    let re = regex::Regex::new(pattern).ok()?;
    let captures = re.captures(haystack)?;
    captures.get(1).map(|m| m.as_str().to_owned())
}

} // verus!
