//! The filter on the names of modules: a regular expression in the syntax
//! of the `regex` crate. A name that the expression matches anywhere is
//! filtered out.
//!
//! What compiles and what matches is for `regex` to say. The library gives
//! both a name and states what it does with the answers.

use vstd::prelude::*;
use regex::Regex;
use crate::error::DocError;

verus! {

/// `regex::Error`: why `regex::Regex::new` made no regular expression of a
/// pattern. The library looks at no such error: it only tells that there is
/// one.
#[verifier::external_type_specification]
#[verifier::external_body]
pub struct ExRegexError(regex::Error);

/// Whether `regex::Regex::new` makes a regular expression of `pattern`.
pub uninterp spec fn regex_compiles(pattern: Seq<char>) -> bool;

/// Whether the regular expression that `regex::Regex::new` makes of
/// `pattern` matches somewhere in `text`, as `regex::Regex::is_match` tells.
pub uninterp spec fn regex_matches(pattern: Seq<char>, text: Seq<char>) -> bool;

/// Compiles `pattern` with `regex::Regex::new` and asks the expression with
/// `regex::Regex::is_match` whether it matches somewhere in `text`. Nothing
/// is proved of the two: the contract gives their answers the names above.
/// It claims that whether a pattern compiles depends on the pattern alone,
/// and whether the expression matches on the pattern and the text alone.
#[verifier::external_body]
fn regex_search(pattern: &str, text: &str) -> (found: Result<bool, regex::Error>)
    ensures
        found is Ok == regex_compiles(pattern@),
        found matches Ok(matched) ==> matched == regex_matches(pattern@, text@),
{
    let expression = Regex::new(pattern)?;
    Ok(expression.is_match(text))
}

/// Whether the filter `pattern` is a regular expression. It is tried on the
/// empty text: whether it compiles does not depend on the text.
pub fn filter_compiles(pattern: &str) -> (compiles: bool)
    ensures
        compiles == regex_compiles(pattern@),
{
    regex_search(pattern, "").is_ok()
}

/// Which of `names` the pattern matches, name by name.
pub open spec fn matches_of(pattern: Seq<char>, names: Seq<Seq<char>>) -> Seq<bool> {
    Seq::new(names.len(), |i: int| regex_matches(pattern, names[i]))
}

/// Whether the filter `pattern` matches `name`; an error where the pattern
/// is no regular expression.
pub fn filter_matches(pattern: &str, name: &str) -> (matched: Result<bool, DocError>)
    ensures
        matched == if regex_compiles(pattern@) {
            Ok::<bool, DocError>(regex_matches(pattern@, name@))
        } else {
            Err::<bool, DocError>(DocError::InvalidFilter)
        },
{
    match regex_search(pattern, name) {
        Ok(matched) => Ok(matched),
        Err(_) => Err(DocError::InvalidFilter),
    }
}

} // verus!
