//! Regular expressions, by their source text.
//!
//! A pattern is kept as the string it was written as. Whether that string is
//! a pattern at all, whether a regex can be built from it, and what that
//! regex matches, is decided by the regex engine; the three names below
//! stand for those answers. What follows from the answers is decided here.

use vstd::prelude::*;
use crate::commands::auto::strs;

verus! {

/// What checking a pattern's syntax gives: `Ok`, or the engine's message.
///
/// Names the result of `regex_cache::LazyRegex::new`, which parses the
/// source and reports the first syntax error.
pub uninterp spec fn pattern_syntax(source: Seq<char>) -> Result<(), Seq<char>>;

/// What building the regex gives: `Ok`, or the engine's message.
///
/// Names the result of `regex::Regex::new`, which refuses a source that it
/// cannot parse and one whose regex would be larger than its size limit.
pub uninterp spec fn pattern_build(source: Seq<char>) -> Result<(), Seq<char>>;

/// Whether the regex built from `source` matches somewhere in `text`;
/// `None` where no regex can be built from `source`.
///
/// Names the result of `regex::Regex::is_match` on the regex that
/// `regex::Regex::new` builds from `source`.
pub uninterp spec fn pattern_matches(source: Seq<char>, text: Seq<char>) -> Option<bool>;

/// Calls `regex_cache::LazyRegex::new`, which only checks the syntax, and
/// hands back the error's text where it fails.
#[verifier::external_body]
fn check_syntax(source: &str) -> (r: Result<(), String>)
    ensures
        match r {
            Ok(_) => pattern_syntax(source@) is Ok,
            Err(message) => pattern_syntax(source@) == Err::<(), Seq<char>>(message@),
        },
{
    match regex_cache::LazyRegex::new(source) {
        Ok(_) => Ok(()),
        Err(e) => Err(e.to_string()),
    }
}

/// Calls `regex::Regex::new`, drops the regex, and hands back the error's
/// text where none was built.
#[verifier::external_body]
fn check_build(source: &str) -> (r: Result<(), String>)
    ensures
        match r {
            Ok(_) => pattern_build(source@) is Ok,
            Err(message) => pattern_build(source@) == Err::<(), Seq<char>>(message@),
        },
{
    match regex::Regex::new(source) {
        Ok(_) => Ok(()),
        Err(e) => Err(e.to_string()),
    }
}

/// Builds the regex with `regex::Regex::new` and asks `Regex::is_match`.
/// Both outcomes are handed back: the answer, or that no regex was built.
/// The same source builds or fails to build every time, so a source that
/// builds gives an answer.
#[verifier::external_body]
fn is_match(source: &str, text: &str) -> (r: Option<bool>)
    ensures
        r == pattern_matches(source@, text@),
        pattern_build(source@) is Ok ==> r is Some,
{
    match regex::Regex::new(source) {
        Ok(re) => Some(re.is_match(text)),
        Err(_) => None,
    }
}

/// What checking a pattern gives: the syntax comes first, then the build.
pub open spec fn pattern_check(source: Seq<char>) -> Result<(), Seq<char>> {
    match pattern_syntax(source) {
        Err(message) => Err(message),
        Ok(_) => pattern_build(source),
    }
}

/// A pattern that passes the check: its syntax is right, and a regex can
/// be built from it.
pub open spec fn pattern_valid(source: Seq<char>) -> bool {
    pattern_check(source) is Ok
}

/// Checks a pattern: its syntax, and that a regex can be built from it. The
/// error is the engine's message for what failed first.
pub fn check_pattern(source: &str) -> (r: Result<(), String>)
    ensures
        match r {
            Ok(_) => pattern_check(source@) is Ok,
            Err(message) => pattern_check(source@) == Err::<(), Seq<char>>(message@),
        },
{
    match check_syntax(source) {
        Err(message) => Err(message),
        Ok(_) => check_build(source),
    }
}

/// The pattern matches `text`. A source from which no regex can be built
/// matches nothing.
pub open spec fn pattern_hits(source: Seq<char>, text: Seq<char>) -> bool {
    pattern_matches(source, text) == Some(true)
}

/// At least one of `patterns` matches `text`.
pub open spec fn any_pattern_matches(patterns: Seq<Seq<char>>, text: Seq<char>) -> bool {
    exists|i: int| 0 <= i < patterns.len() && pattern_hits(#[trigger] patterns[i], text)
}

/// Whether at least one of `patterns` matches `text`. A pattern from which
/// no regex can be built matches nothing; a pattern that passed
/// [`check_pattern`] is none of those.
pub fn matches_any(patterns: &Vec<String>, text: &str) -> (r: bool)
    ensures
        r == any_pattern_matches(strs(patterns@), text@),
{
    let ghost all = strs(patterns@);
    let mut i: usize = 0;
    while i < patterns.len()
        invariant
            i <= patterns.len(),
            all == strs(patterns@),
            forall|j: int| 0 <= j < i ==> !pattern_hits(#[trigger] all[j], text@),
        decreases patterns.len() - i,
    {
        assert(all[i as int] == patterns@[i as int]@);
        match is_match(patterns[i].as_str(), text) {
            Some(true) => {
                assert(pattern_hits(all[i as int], text@));
                return true;
            },
            _ => {},
        }
        i += 1;
    }
    false
}

} // verus!
