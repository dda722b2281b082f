//! What is to be done with one entry name.

use vstd::prelude::*;
use crate::outcome::{RenameOutcome, RunTotals, counted, error_line, rename_line, unchanged_line};
use crate::pattern::{CaptureSet, Pattern};
use crate::template::{generate_new_name, substitute, substituted};

verus! {

/// What the pattern and the template say of one name, before anything is
/// renamed.
#[derive(Debug)]
pub enum Verdict {
    /// The pattern does not match the name.
    NotMatched,
    /// The pattern matches, and the template gives the same name again.
    Unchanged,
    /// The pattern matches, and the entry is to get the name held here.
    Rename(String),
}

/// A verdict with its name as a sequence of characters, as contracts speak
/// of it.
pub enum VerdictView {
    NotMatched,
    Unchanged,
    Rename(Seq<char>),
}

impl View for Verdict {
    type V = VerdictView;

    open spec fn view(&self) -> VerdictView {
        match self {
            Verdict::NotMatched => VerdictView::NotMatched,
            Verdict::Unchanged => VerdictView::Unchanged,
            Verdict::Rename(name) => VerdictView::Rename(name@),
        }
    }
}

/// The verdict on `name` where the pattern found `captures` in it.
pub open spec fn verdict_for(
    template: Seq<char>,
    name: Seq<char>,
    captures: Option<Seq<Option<Seq<char>>>>,
) -> VerdictView {
    match captures {
        None => VerdictView::NotMatched,
        Some(slots) => verdict_of_names(name, substituted(template, slots)),
    }
}

/// The outcome of an entry with the given verdict, where an attempt to
/// rename it, if one was due, ended as `renamed` says.
pub open spec fn outcome_for(verdict: VerdictView, renamed: bool) -> RenameOutcome {
    match verdict {
        VerdictView::NotMatched => RenameOutcome::NotMatched,
        VerdictView::Unchanged => RenameOutcome::Matched,
        VerdictView::Rename(_) => if renamed {
            RenameOutcome::Changed
        } else {
            RenameOutcome::Failed
        },
    }
}

impl Verdict {
    /// Tells whether the entry is to be renamed.
    pub fn needs_rename(&self) -> (due: bool)
        ensures
            due == (self@ is Rename),
    {
        match self {
            Verdict::Rename(_) => true,
            _ => false,
        }
    }

    /// The name that the entry is to get, where it is to be renamed.
    pub fn new_name(&self) -> (name: Option<&str>)
        ensures
            match self@ {
                VerdictView::Rename(n) => name.is_some() && name.unwrap()@ == n,
                _ => name.is_none(),
            },
    {
        match self {
            Verdict::Rename(name) => Some(name.as_str()),
            _ => None,
        }
    }

    /// The outcome of the entry. `renamed` tells how the attempt to rename it
    /// ended, and counts only where the verdict asked for one.
    pub fn outcome(&self, renamed: bool) -> (outcome: RenameOutcome)
        ensures
            outcome == outcome_for(self@, renamed),
    {
        match self {
            Verdict::NotMatched => RenameOutcome::NotMatched,
            Verdict::Unchanged => RenameOutcome::Matched,
            Verdict::Rename(_) => if renamed {
                RenameOutcome::Changed
            } else {
                RenameOutcome::Failed
            },
        }
    }
}

/// The verdict on `name`, which matched, where the template gave `new_name`
/// for it.
pub open spec fn verdict_of_names(name: Seq<char>, new_name: Seq<char>) -> VerdictView {
    if new_name == name {
        VerdictView::Unchanged
    } else {
        VerdictView::Rename(new_name)
    }
}

/// Holds the new name of a matching entry against the old one: the same name
/// again asks for nothing, another one for a renaming.
pub fn compare_names(name: &str, new_name: String) -> (verdict: Verdict)
    ensures
        verdict@ == verdict_of_names(name@, new_name@),
{
    let old_name = name.to_owned();
    if new_name == old_name {
        Verdict::Unchanged
    } else {
        Verdict::Rename(new_name)
    }
}

/// The verdict on `name` from the capture slots found in it: without slots
/// the name did not match; with them the template is filled, and the name is
/// either given back unchanged or to be replaced by the new one.
pub fn classify_captures(template: &str, name: &str, captures: Option<&CaptureSet>) -> (verdict:
    Verdict)
    ensures
        verdict@ == verdict_for(
            template@,
            name@,
            match captures {
                Some(set) => Some(set@),
                None => None,
            },
        ),
{
    match captures {
        None => Verdict::NotMatched,
        Some(set) => compare_names(name, substitute(template, set)),
    }
}

/// The verdict on `name` under `pattern` and `template`.
pub fn classify(pattern: &Pattern, template: &str, name: &str) -> (verdict: Verdict)
    ensures
        verdict@ == verdict_for(template@, name@, pattern.captures(name@)),
{
    if pattern.is_match(name) {
        compare_names(name, generate_new_name(pattern, template, name))
    } else {
        Verdict::NotMatched
    }
}

/// The line that tells of an entry, if there is one to tell: a failed
/// renaming is always told with its reason; a renaming and a name that stays
/// are told where the run is verbose; an entry that did not match is never
/// told. `failure` holds the reason where an attempt to rename failed.
pub open spec fn report_for(
    verbose: bool,
    name: Seq<char>,
    verdict: VerdictView,
    failure: Option<Seq<char>>,
) -> Option<Seq<char>> {
    match verdict {
        VerdictView::NotMatched => None,
        VerdictView::Unchanged => if verbose {
            Some(name + " unchanged"@)
        } else {
            None
        },
        VerdictView::Rename(new_name) => match failure {
            Some(reason) => Some(name + ": "@ + reason),
            None => if verbose {
                Some(name + " -> "@ + new_name)
            } else {
                None
            },
        },
    }
}

/// The line to print for an entry once its verdict was carried out.
pub fn report_line(verbose: bool, name: &str, verdict: &Verdict, failure: Option<&str>) -> (line:
    Option<String>)
    ensures
        match report_for(
            verbose,
            name@,
            verdict@,
            match failure {
                Some(reason) => Some(reason@),
                None => None,
            },
        ) {
            Some(text) => line.is_some() && line.unwrap()@ == text,
            None => line.is_none(),
        },
{
    match verdict {
        Verdict::NotMatched => None,
        Verdict::Unchanged => if verbose {
            Some(unchanged_line(name))
        } else {
            None
        },
        Verdict::Rename(new_name) => match failure {
            Some(reason) => Some(error_line(name, reason)),
            None => if verbose {
                Some(rename_line(name, new_name.as_str()))
            } else {
                None
            },
        },
    }
}

/// A name that matches and that the template gives back as it is counts as
/// matched, never as changed, and no renaming is asked for.
pub proof fn lemma_same_name_is_matched(
    template: Seq<char>,
    name: Seq<char>,
    slots: Seq<Option<Seq<char>>>,
    renamed: bool,
)
    requires
        substituted(template, slots) == name,
    ensures
        verdict_for(template, name, Some(slots)) == VerdictView::Unchanged,
        outcome_for(verdict_for(template, name, Some(slots)), renamed) == RenameOutcome::Matched,
{
}

/// A name outside the pattern's language is not matched, whatever the
/// template, and counting it leaves the totals as they were: a second run
/// over names that the first run moved out of the pattern's language changes
/// nothing.
pub proof fn lemma_unmatched_name_changes_nothing(
    template: Seq<char>,
    name: Seq<char>,
    renamed: bool,
    totals: RunTotals,
)
    ensures
        verdict_for(template, name, None) == VerdictView::NotMatched,
        outcome_for(verdict_for(template, name, None), renamed) == RenameOutcome::NotMatched,
        counted(totals.counts(), outcome_for(verdict_for(template, name, None), renamed))
            == totals.counts(),
{
}

/// Running twice: an entry that the first run renamed to a name outside the
/// pattern's language is not matched by the second run, which so neither
/// renames nor counts it, however a renaming would end. An entry that keeps
/// its name is counted as matched, whichever run meets it.
pub proof fn lemma_second_run_settles(
    pattern: &Pattern,
    template: Seq<char>,
    name: Seq<char>,
    renamed: bool,
    totals: RunTotals,
)
    ensures
        match verdict_for(template, name, pattern.captures(name)) {
            VerdictView::Rename(new_name) => !pattern.matches(new_name) ==> {
                let again = verdict_for(template, new_name, pattern.captures(new_name));
                &&& again == VerdictView::NotMatched
                &&& outcome_for(again, renamed) == RenameOutcome::NotMatched
                &&& counted(totals.counts(), outcome_for(again, renamed)) == totals.counts()
            },
            VerdictView::Unchanged => outcome_for(
                verdict_for(template, name, pattern.captures(name)),
                renamed,
            ) == RenameOutcome::Matched,
            VerdictView::NotMatched => !pattern.matches(name),
        },
{
}

/// An entry is counted as changed only where its new name differs from the
/// old one, and as failed only where a renaming was attempted.
pub proof fn lemma_outcome_follows_verdict(
    template: Seq<char>,
    name: Seq<char>,
    captures: Option<Seq<Option<Seq<char>>>>,
    renamed: bool,
)
    ensures
        ({
            let outcome = outcome_for(verdict_for(template, name, captures), renamed);
            &&& outcome == RenameOutcome::NotMatched <==> captures.is_none()
            &&& outcome == RenameOutcome::Matched <==> captures.is_some() && substituted(
                template,
                captures.unwrap(),
            ) == name
            &&& outcome == RenameOutcome::Changed <==> captures.is_some() && substituted(
                template,
                captures.unwrap(),
            ) != name && renamed
            &&& outcome == RenameOutcome::Failed <==> captures.is_some() && substituted(
                template,
                captures.unwrap(),
            ) != name && !renamed
        }),
{
}

} // verus!
