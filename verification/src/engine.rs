//! The regular-expression engine, as far as this library relies on it.
//!
//! Nothing in this file is proved: each item states what the `regex` crate
//! documents of one of its functions.

use vstd::prelude::*;

verus! {

/// A compiled regular expression of the `regex` crate.
#[verifier::external_type_specification]
#[verifier::external_body]
pub struct ExRegex(regex::Regex);

/// The error with which the `regex` crate refuses an expression.
#[verifier::external_type_specification]
#[verifier::external_body]
pub struct ExRegexError(regex::Error);

/// The text that a compiled expression was compiled from, which
/// `Regex::as_str` hands back.
pub uninterp spec fn pattern_text(compiled: regex::Regex) -> Seq<char>;

/// Whether `Regex::new` accepts the text `source`: that it is an expression
/// of the engine's syntax whose compiled form stays within the size that the
/// engine allows by default.
pub uninterp spec fn accepted(source: Seq<char>) -> bool;

/// What `Regex::captures` finds in `haystack` for the compiled expression:
/// nothing where the expression matches nowhere, else the capture groups of
/// the leftmost match, group 0 first, each with the text it matched or
/// nothing where it took no part in the match. Two compiled expressions of
/// one text may have been built with different options and match
/// differently, so the result goes by the compiled expression, not its text.
pub uninterp spec fn captures_of(compiled: regex::Regex, haystack: Seq<char>) -> Option<
    Seq<Option<Seq<char>>>,
>;

/// The texts of capture slots.
pub open spec fn slot_texts(slots: Seq<Option<String>>) -> Seq<Option<Seq<char>>> {
    Seq::new(
        slots.len(),
        |i: int|
            match slots[i] {
                Some(text) => Some(text@),
                None => None,
            },
    )
}

/// The texts of the capture slots of a search's result.
pub open spec fn found_texts(found: Option<Vec<Option<String>>>) -> Option<Seq<Option<Seq<char>>>> {
    match found {
        Some(slots) => Some(slot_texts(slots@)),
        None => None,
    }
}

/// `Regex::new`: compiles `source`. Whether the text is accepted depends on
/// the text alone; a compiled expression remembers the text it was compiled
/// from.
#[verifier::external_body]
pub(crate) fn compile(source: &str) -> (made: Result<regex::Regex, regex::Error>)
    ensures
        made.is_ok() == accepted(source@),
        made matches Ok(compiled) ==> pattern_text(compiled) == source@,
{
    regex::Regex::new(source)
}

/// `Regex::as_str`: the text that the expression was compiled from.
#[verifier::external_body]
pub(crate) fn source_text(compiled: &regex::Regex) -> (text: &str)
    ensures
        text@ == pattern_text(*compiled),
{
    compiled.as_str()
}

/// The message of a `regex::Error`, as its `Display` writes it. Nothing is
/// claimed of the text.
#[verifier::external_body]
pub(crate) fn error_message(error: &regex::Error) -> (message: String) {
    format!("{}", error)
}

/// `Regex::is_match`: true if and only if the expression matches somewhere
/// in `haystack`, which is when `Regex::captures` finds a match.
#[verifier::external_body]
pub(crate) fn is_match(compiled: &regex::Regex, haystack: &str) -> (found: bool)
    ensures
        found == captures_of(*compiled, haystack@).is_some(),
{
    compiled.is_match(haystack)
}

/// `Regex::captures`, with each group that took part handed out as the text
/// it matched. Where there is a match, the groups are at least one, and
/// group 0, the whole match, is always present.
#[verifier::external_body]
pub(crate) fn captures(compiled: &regex::Regex, haystack: &str) -> (found: Option<
    Vec<Option<String>>,
>)
    ensures
        found_texts(found) == captures_of(*compiled, haystack@),
        found matches Some(slots) ==> slots@.len() >= 1 && slots@[0].is_some(),
{
    match compiled.captures(haystack) {
        None => None,
        Some(groups) => Some(
            groups.iter().map(|group| group.map(|m| m.as_str().to_string())).collect(),
        ),
    }
}

} // verus!
