//! Regular-expression matching, done by the `regex` crate.
//!
//! The analyzers hold their patterns as text and ask these wrappers; what a
//! pattern matches is named below as a function of the pattern and the text.
use vstd::prelude::*;

verus! {

/// What `Regex::new(pattern)` then `is_match(text)` answers; false when the
/// pattern does not compile.
pub uninterp spec fn regex_matches(pattern: Seq<char>, text: Seq<char>) -> bool;

/// The text of capture group `group` of the first match of `pattern` in
/// `text` (`Regex::captures`), when the pattern compiles, matches, and the
/// group took part in the match.
pub uninterp spec fn regex_group(pattern: Seq<char>, text: Seq<char>, group: nat) -> Option<Seq<char>>;

/// What `regex::escape` returns for `text`.
pub uninterp spec fn regex_escaped(text: Seq<char>) -> Seq<char>;

/// Compiles `pattern` with `regex::Regex::new` and asks `is_match(text)`.
#[verifier::external_body]
pub(crate) fn is_match(pattern: &str, text: &str) -> (b: bool)
    ensures
        b == regex_matches(pattern@, text@),
{
    match regex::Regex::new(pattern) {
        Ok(re) => re.is_match(text),
        Err(_) => false,
    }
}

/// Compiles `pattern` with `regex::Regex::new` and takes capture group
/// `group` of `captures(text)`.
#[verifier::external_body]
pub(crate) fn capture(pattern: &str, text: &str, group: usize) -> (r: Option<String>)
    ensures
        match r {
            Some(s) => regex_group(pattern@, text@, group as nat) == Some(s@),
            None => regex_group(pattern@, text@, group as nat) is None,
        },
{
    match regex::Regex::new(pattern) {
        Ok(re) => match re.captures(text) {
            Some(caps) => match caps.get(group) {
                Some(m) => Some(m.as_str().to_string()),
                None => None,
            },
            None => None,
        },
        Err(_) => None,
    }
}

/// Calls `regex::escape`.
#[verifier::external_body]
pub(crate) fn escape(text: &str) -> (r: String)
    ensures
        r@ == regex_escaped(text@),
{
    regex::escape(text)
}

} // verus!
