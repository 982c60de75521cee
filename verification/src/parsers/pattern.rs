//! Regular expressions, as far as the parser needs them. The `regex` crate
//! does the matching; what it returns is taken on trust and given a name,
//! so that the parser can say what it makes of it.

use vstd::prelude::*;
use crate::text::texts;
use regex::Regex;

verus! {

/// A compiled regular expression. Nothing is known of what is inside.
#[verifier::external_type_specification]
#[verifier::external_body]
pub struct ExRegex(regex::Regex);

/// Why a pattern could not be compiled. Nothing is known of what is inside.
#[verifier::external_type_specification]
#[verifier::external_body]
pub struct ExRegexError(regex::Error);

/// The regular expression that `Regex::new` compiles from the pattern, or
/// none where it refuses the pattern.
pub uninterp spec fn compiled(pattern: Seq<char>) -> Option<Regex>;

/// The parts of the text that `Regex::find_iter` finds to match, from left
/// to right.
pub uninterp spec fn matches_of(regex: Regex, text: Seq<char>) -> Seq<Seq<char>>;

/// What `Regex::captures` finds at the first match in the text: for each
/// group of the expression the part that it matched, if it took part in the
/// match, the whole match being group 0. None where nothing matches.
pub uninterp spec fn captures_of(regex: Regex, text: Seq<char>) -> Option<Seq<Option<Seq<char>>>>;

/// The texts as sequences of characters, where there are any.
pub open spec fn group_texts(groups: Seq<Option<String>>) -> Seq<Option<Seq<char>>> {
    Seq::new(
        groups.len(),
        |i: int|
            match groups[i] {
                Some(text) => Some(text@),
                None => None,
            },
    )
}

/// Calls `Regex::new`, which compiles the pattern or refuses it. Whether it
/// refuses depends on the pattern alone: on its syntax and on the size of
/// what it compiles to, for which the crate has a fixed limit. Two
/// expressions compiled from the same pattern match alike.
#[verifier::external_body]
pub(crate) fn compile(pattern: &str) -> (made: Result<Regex, regex::Error>)
    ensures
        match made {
            Ok(regex) => compiled(pattern@) == Some(regex),
            Err(_) => compiled(pattern@) is None,
        },
{
    Regex::new(pattern)
}

/// Calls `Regex::find_iter`, which yields the successive matches in the
/// text, none overlapping another, and hands each out as the part of the
/// text that matched. What it finds depends on the expression and the text
/// alone.
#[verifier::external_body]
pub(crate) fn find_all(regex: &Regex, text: &str) -> (found: Vec<String>)
    ensures
        texts(found@) == matches_of(*regex, text@),
{
    regex.find_iter(text).map(|part| part.as_str().to_string()).collect()
}

/// Calls `Regex::captures`, which looks for the first match in the text
/// and, where there is one, tells for each group what it matched, if
/// anything. What it finds depends on the expression and the text alone.
#[verifier::external_body]
pub(crate) fn captures(regex: &Regex, text: &str) -> (found: Option<Vec<Option<String>>>)
    ensures
        match found {
            Some(groups) => captures_of(*regex, text@) == Some(group_texts(groups@)),
            None => captures_of(*regex, text@) is None,
        },
{
    regex.captures(text).map(
        |groups| groups.iter().map(|group| group.map(|part| part.as_str().to_string())).collect(),
    )
}

} // verus!
