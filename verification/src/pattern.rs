//! Regular-expression matching, taken from the `regex` crate.
use vstd::prelude::*;
use crate::text::opt_view;

verus! {

/// What `Regex::new(pattern)` followed by `replace_all(text, replacement)`
/// yields; `None` when the pattern does not compile.
pub uninterp spec fn regex_replaced(pattern: Seq<char>, text: Seq<char>, replacement: Seq<char>) -> Option<Seq<char>>;

/// What `Regex::new(pattern)` followed by `captures(text)` and `get(group)`
/// yields; `None` when the pattern does not compile, does not match, or the
/// group took no part in the match.
pub uninterp spec fn regex_captured(pattern: Seq<char>, text: Seq<char>, group: usize) -> Option<Seq<char>>;

/// Compiles `pattern` with `regex::Regex::new` and replaces every match in
/// `text` with `replacement` (`$name` expanded) by `Regex::replace_all`.
/// The contract names the result `regex_replaced` and claims nothing more.
#[verifier::external_body]
pub(crate) fn regex_replace_all(pattern: &str, text: &str, replacement: &str) -> (r: Option<String>)
    ensures
        opt_view(r) == regex_replaced(pattern@, text@, replacement@),
{
    let re = regex::Regex::new(pattern).ok()?;
    Some(re.replace_all(text, replacement).into_owned())
}

/// Compiles `pattern` with `regex::Regex::new` and returns capture group
/// `group` of the leftmost match in `text` (`Regex::captures`,
/// `Captures::get`). The contract names the result `regex_captured` and
/// claims nothing more.
#[verifier::external_body]
pub(crate) fn regex_capture(pattern: &str, text: &str, group: usize) -> (r: Option<String>)
    ensures
        opt_view(r) == regex_captured(pattern@, text@, group),
{
    let re = regex::Regex::new(pattern).ok()?;
    Some(re.captures(text)?.get(group)?.as_str().to_owned())
}

} // verus!
