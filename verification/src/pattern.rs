//! Checkers: regular expressions that the arguments of a template must match.
//!
//! A checker is kept as the text of its pattern. The `regex` crate compiles
//! and applies it.

use vstd::prelude::*;

verus! {

/// What the `regex` crate says of a pattern and a text: `None` where
/// `Regex::new` refuses the pattern, else whether `Regex::is_match` finds a
/// match of it in the text.
pub uninterp spec fn regex_match(pattern: Seq<char>, text: Seq<char>) -> Option<bool>;

/// Whether `pattern` is a regular expression that `Regex::new` accepts.
pub open spec fn pattern_valid(pattern: Seq<char>) -> bool {
    regex_match(pattern, Seq::empty()) is Some
}

/// Compiles `pattern` with `regex::Regex::new` and applies it to `text` with
/// `Regex::is_match`.
///
/// Trusted: the answer is a function of the pattern and the text, and
/// whether the pattern compiles does not depend on the text.
#[verifier::external_body]
fn match_pattern(pattern: &str, text: &str) -> (r: Option<bool>)
    ensures
        r == regex_match(pattern@, text@),
        r is Some <==> pattern_valid(pattern@),
{
    match regex::Regex::new(pattern) {
        Ok(compiled) => Some(compiled.is_match(text)),
        Err(_) => None,
    }
}

/// Whether `text` passes the checker `pattern`: the pattern is valid and
/// matches somewhere in the text.
pub open spec fn passes(pattern: Seq<char>, text: Seq<char>) -> bool {
    regex_match(pattern, text) == Some(true)
}

/// Whether `text` passes the checker `pattern`.
pub fn accepts(pattern: &str, text: &str) -> (r: bool)
    ensures
        r == passes(pattern@, text@),
{
    match match_pattern(pattern, text) {
        Some(found) => found,
        None => false,
    }
}

/// Whether `pattern` is a valid regular expression.
pub fn is_valid(pattern: &str) -> (r: bool)
    ensures
        r == pattern_valid(pattern@),
{
    match_pattern(pattern, "").is_some()
}

} // verus!
