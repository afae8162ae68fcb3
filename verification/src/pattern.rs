//! Regular expressions, as the `regex` crate runs them.

use vstd::prelude::*;

verus! {

/// The number of non-overlapping matches that `regex::Regex::new(pattern)`
/// finds in `text` with `find_iter`, or `None` when the pattern does not
/// compile.
pub uninterp spec fn regex_match_count(pattern: Seq<char>, text: Seq<char>) -> Option<usize>;

/// The text that `regex::Regex::replace_all` gives when every match of
/// `pattern` in `text` is replaced by `rep`, or `None` when the pattern does
/// not compile.
pub uninterp spec fn regex_replaced(pattern: Seq<char>, text: Seq<char>, rep: Seq<char>) -> Option<
    Seq<char>,
>;

/// Compiles `pattern` with `regex::Regex::new` and counts the matches of
/// `find_iter` in `text`. The count is a function of the two strings alone;
/// `None` stands for a pattern that does not compile.
#[verifier::external_body]
pub(crate) fn count_matches(pattern: &str, text: &str) -> (r: Option<usize>)
    ensures
        r == regex_match_count(pattern@, text@),
{
    match regex::Regex::new(pattern) {
        Ok(re) => Some(re.find_iter(text).count()),
        Err(_) => None,
    }
}

/// Compiles `pattern` with `regex::Regex::new` and replaces every match in
/// `text` by `rep` with `replace_all`. The result is a function of the three
/// strings alone; `None` stands for a pattern that does not compile.
#[verifier::external_body]
pub(crate) fn replace_matches(pattern: &str, text: &str, rep: &str) -> (r: Option<String>)
    ensures
        match r {
            Some(s) => regex_replaced(pattern@, text@, rep@) == Some(s@),
            None => regex_replaced(pattern@, text@, rep@) is None,
        },
{
    match regex::Regex::new(pattern) {
        Ok(re) => Some(re.replace_all(text, rep).into_owned()),
        Err(_) => None,
    }
}

} // verus!
