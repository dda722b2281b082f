//! Patterns and the capture slots of a match.

use vstd::prelude::*;
use crate::engine::{
    accepted, captures, captures_of, compile, error_message, is_match, pattern_text, slot_texts,
    source_text,
};

verus! {

/// Why a run cannot start.
#[derive(Debug)]
pub enum ConfigurationError {
    /// The pattern is no regular expression that the engine accepts; the
    /// engine's message is attached.
    InvalidPattern(String),
}

impl ConfigurationError {
    /// The engine's message.
    pub fn message(&self) -> (text: String)
        ensures
            self matches ConfigurationError::InvalidPattern(m) && text@ == m@,
    {
        match self {
            ConfigurationError::InvalidPattern(m) => m.clone(),
        }
    }
}

/// The ordered capture slots of one match. Slot 0 is the whole match and is
/// always present; a later slot is absent where its group took no part.
#[derive(Debug)]
pub struct CaptureSet {
    slots: Vec<Option<String>>,
}

impl View for CaptureSet {
    type V = Seq<Option<Seq<char>>>;

    closed spec fn view(&self) -> Seq<Option<Seq<char>>> {
        slot_texts(self.slots@)
    }
}

/// What every capture set holds: at least slot 0, and slot 0 present.
pub open spec fn valid_slots(slots: Seq<Option<Seq<char>>>) -> bool {
    slots.len() >= 1 && slots[0].is_some()
}

impl CaptureSet {
    /// Whether the set has its whole match.
    pub open spec fn wf(&self) -> bool {
        valid_slots(self@)
    }

    /// The capture set with the given slots, where they hold a whole match.
    pub fn from_slots(slots: Vec<Option<String>>) -> (made: Option<CaptureSet>)
        ensures
            made.is_some() == valid_slots(slot_texts(slots@)),
            made matches Some(set) ==> set@ == slot_texts(slots@) && set.wf(),
    {
        if slots.len() >= 1 && slots[0].is_some() {
            Some(CaptureSet { slots })
        } else {
            None
        }
    }

    /// The number of slots, present or absent.
    pub fn len(&self) -> (n: usize)
        ensures
            n == self@.len(),
    {
        self.slots.len()
    }

    /// The text of slot `index`, where the slot is present.
    pub fn get(&self, index: usize) -> (slot: Option<&str>)
        ensures
            index >= self@.len() ==> slot.is_none(),
            index < self@.len() ==> match self@[index as int] {
                Some(text) => slot.is_some() && slot.unwrap()@ == text,
                None => slot.is_none(),
            },
    {
        if index < self.slots.len() {
            match &self.slots[index] {
                Some(text) => Some(text.as_str()),
                None => None,
            }
        } else {
            None
        }
    }
}

/// A compiled regular expression over entry names.
pub struct Pattern {
    compiled: regex::Regex,
}

impl View for Pattern {
    type V = Seq<char>;

    /// The text of the expression.
    closed spec fn view(&self) -> Seq<char> {
        pattern_text(self.compiled)
    }
}

impl Pattern {
    /// The capture slots that the pattern finds in `name`, if it matches.
    pub closed spec fn captures(&self, name: Seq<char>) -> Option<Seq<Option<Seq<char>>>> {
        captures_of(self.compiled, name)
    }

    /// Whether the pattern matches `name`.
    pub open spec fn matches(&self, name: Seq<char>) -> bool {
        self.captures(name).is_some()
    }

    /// The pattern for what the engine made of an expression's text: the
    /// compiled expression as a pattern of the same text, a refusal as the
    /// error that holds the engine's message.
    pub fn from_compiled(made: Result<regex::Regex, regex::Error>) -> (pattern: Result<
        Pattern,
        ConfigurationError,
    >)
        ensures
            pattern.is_ok() == made.is_ok(),
            pattern matches Ok(p) ==> p@ == pattern_text(made.unwrap()) && forall|name: Seq<char>|
                #[trigger] p.captures(name) == captures_of(made.unwrap(), name),
    {
        match made {
            Ok(compiled) => Ok(Pattern { compiled }),
            Err(error) => Err(ConfigurationError::InvalidPattern(error_message(&error))),
        }
    }

    /// Compiles `source`: a text that the engine accepts gives the pattern
    /// of that text, any other the error that holds the engine's message.
    pub fn new(source: &str) -> (made: Result<Pattern, ConfigurationError>)
        ensures
            made.is_ok() == accepted(source@),
            made matches Ok(pattern) ==> pattern@ == source@,
            made matches Err(error) ==> error is InvalidPattern,
    {
        Pattern::from_compiled(compile(source))
    }

    /// The text of the expression.
    pub fn as_str(&self) -> (text: &str)
        ensures
            text@ == self@,
    {
        source_text(&self.compiled)
    }

    /// Tells whether the pattern matches `name`.
    pub fn is_match(&self, name: &str) -> (found: bool)
        ensures
            found == self.matches(name@),
    {
        is_match(&self.compiled, name)
    }

    /// The capture slots of the pattern's match in `name`.
    pub fn find(&self, name: &str) -> (found: Option<CaptureSet>)
        ensures
            found.is_some() == self.matches(name@),
            found matches Some(set) ==> Some(set@) == self.captures(name@) && set.wf(),
    {
        match captures(&self.compiled, name) {
            Some(slots) => Some(CaptureSet { slots }),
            None => None,
        }
    }
}

} // verus!
