//! Content extraction with regular expressions: the calls into `regex`.

use vstd::prelude::*;

verus! {

/// The text of the first capture group of the leftmost-first match of
/// `pattern` in `text`; `None` when the pattern does not compile, nothing
/// matches, or the pattern has no first group or it takes no part in the match.
pub uninterp spec fn regex_group(pattern: Seq<char>, text: Seq<char>) -> Option<Seq<char>>;

/// `text` with the leftmost-first match of `pattern` replaced by
/// `replacement`, whose `$` group references are expanded; `text` itself when
/// the pattern does not compile.
pub uninterp spec fn regex_replaced(
    pattern: Seq<char>,
    text: Seq<char>,
    replacement: Seq<char>,
) -> Seq<char>;

/// Relies on `regex::Regex::new`, `Regex::captures` and `Captures::get`: the
/// first capture group of the leftmost-first match, which depends on the
/// pattern and the text alone.
#[verifier::external_body]
pub(crate) fn first_group(pattern: &str, text: &str) -> (r: Option<String>)
    ensures
        r is Some <==> regex_group(pattern@, text@) is Some,
        r is Some ==> r->Some_0@ == regex_group(pattern@, text@)->Some_0,
{
    let re = match regex::Regex::new(pattern) {
        Ok(re) => re,
        Err(_) => return None,
    };
    match re.captures(text) {
        Some(caps) => match caps.get(1) {
            Some(found) => Some(found.as_str().to_owned()),
            None => None,
        },
        None => None,
    }
}

/// Relies on `regex::Regex::new` and `Regex::replace`: the leftmost-first
/// match replaced once, which depends on the pattern, the text and the
/// replacement alone.
#[verifier::external_body]
pub(crate) fn replace_first(pattern: &str, text: &str, replacement: &str) -> (r: String)
    ensures
        r@ == regex_replaced(pattern@, text@, replacement@),
{
    match regex::Regex::new(pattern) {
        Ok(re) => re.replace(text, replacement).into_owned(),
        Err(_) => text.to_owned(),
    }
}

} // verus!
