//! What is to be done with the entries of one directory.
//!
//! The caller lists a directory and hands the entries over; the library says
//! of each whether to descend into it and what its name is to become. The
//! caller then descends, renames and reports each outcome to the totals.

use vstd::prelude::*;
use crate::classify::{Verdict, VerdictView, classify, outcome_for, verdict_for};
use crate::outcome::RenameOutcome;
use crate::pattern::Pattern;

verus! {

/// How a run treats directories, and how much it tells.
#[derive(Clone, Copy, Debug, PartialEq, Eq, Structural)]
pub struct Settings {
    /// Descend into subdirectories.
    pub recursive: bool,
    /// Treat directories as entries to rename, too.
    pub folders: bool,
    /// Tell of every entry that matched.
    pub verbose: bool,
}

/// One entry of a directory's listing.
#[derive(Debug)]
pub struct Entry {
    pub name: String,
    pub is_dir: bool,
}

/// What is to be done with one entry.
#[derive(Debug)]
pub struct EntryPlan {
    /// The entry's name.
    pub name: String,
    /// Whether the entry's own entries are to be handled, before the entry
    /// itself.
    pub descend: bool,
    /// The verdict on the entry's name, where the entry is one to rename.
    pub verdict: Option<Verdict>,
}

/// Whether a run descends into an entry: into directories, where it is
/// recursive.
pub open spec fn descends(settings: Settings, is_dir: bool) -> bool {
    is_dir && settings.recursive
}

/// Whether an entry is one to rename: every plain file, and a directory
/// where directories are included.
pub open spec fn is_candidate(settings: Settings, is_dir: bool) -> bool {
    !is_dir || settings.folders
}

/// Whether `plan` is what is to be done with `entry`.
pub open spec fn plan_fits(
    plan: EntryPlan,
    settings: Settings,
    pattern: &Pattern,
    template: Seq<char>,
    entry: Entry,
) -> bool {
    &&& plan.name@ == entry.name@
    &&& plan.descend == descends(settings, entry.is_dir)
    &&& match plan.verdict {
        Some(verdict) => is_candidate(settings, entry.is_dir) && verdict@ == verdict_for(
            template,
            entry.name@,
            pattern.captures(entry.name@),
        ),
        None => !is_candidate(settings, entry.is_dir),
    }
}

/// The outcome of an entry with the given plan: an entry that is no
/// candidate has none.
pub open spec fn plan_outcome(plan: EntryPlan, renamed: bool) -> Option<RenameOutcome> {
    match plan.verdict {
        Some(verdict) => Some(outcome_for(verdict@, renamed)),
        None => None,
    }
}

impl Settings {
    /// Tells whether the run descends into an entry.
    pub fn descends_into(&self, is_dir: bool) -> (descend: bool)
        ensures
            descend == descends(*self, is_dir),
    {
        is_dir && self.recursive
    }

    /// Tells whether an entry is one to rename.
    pub fn considers(&self, is_dir: bool) -> (candidate: bool)
        ensures
            candidate == is_candidate(*self, is_dir),
    {
        !is_dir || self.folders
    }
}

/// What is to be done with `entry`.
pub fn plan_entry(settings: &Settings, pattern: &Pattern, template: &str, entry: &Entry) -> (plan:
    EntryPlan)
    ensures
        plan_fits(plan, *settings, pattern, template@, *entry),
{
    let descend = settings.descends_into(entry.is_dir);
    let verdict = if settings.considers(entry.is_dir) {
        Some(classify(pattern, template, entry.name.as_str()))
    } else {
        None
    };
    EntryPlan { name: entry.name.clone(), descend, verdict }
}

/// What is to be done with the entries of one directory: one plan for each
/// entry, in the order of the listing.
pub fn handle_directory(
    settings: &Settings,
    pattern: &Pattern,
    template: &str,
    entries: &Vec<Entry>,
) -> (plans: Vec<EntryPlan>)
    ensures
        plans@.len() == entries@.len(),
        forall|i: int|
            0 <= i < entries@.len() ==> plan_fits(
                #[trigger] plans@[i],
                *settings,
                pattern,
                template@,
                entries@[i],
            ),
{
    let mut plans: Vec<EntryPlan> = Vec::new();
    let mut i: usize = 0;
    while i < entries.len()
        invariant
            i <= entries@.len(),
            plans@.len() == i,
            forall|j: int|
                0 <= j < i ==> plan_fits(
                    #[trigger] plans@[j],
                    *settings,
                    pattern,
                    template@,
                    entries@[j],
                ),
        decreases entries@.len() - i,
    {
        let plan = plan_entry(settings, pattern, template, &entries[i]);
        plans.push(plan);
        i = i + 1;
    }
    plans
}

/// Descending and renaming are independent: a recursive run that leaves
/// directories out descends into every directory and renames none; a run
/// that includes directories without being recursive may rename a directory
/// and never descends into one. A plain file is never descended into and is
/// always a candidate.
pub proof fn lemma_flags_independent(settings: Settings, is_dir: bool)
    ensures
        settings.recursive && !settings.folders && is_dir ==> descends(settings, is_dir)
            && !is_candidate(settings, is_dir),
        !settings.recursive && settings.folders && is_dir ==> !descends(settings, is_dir)
            && is_candidate(settings, is_dir),
        !settings.recursive ==> !descends(settings, is_dir),
        !is_dir ==> !descends(settings, is_dir) && is_candidate(settings, is_dir),
        descends(settings, is_dir) == (is_dir && settings.recursive),
        is_candidate(settings, is_dir) == (!is_dir || settings.folders),
{
}

/// In a directory none of whose names the pattern matches, no entry is to be
/// renamed and none has an outcome other than not matched.
pub proof fn lemma_unmatched_directory_is_left_alone(
    plans: Seq<EntryPlan>,
    settings: Settings,
    pattern: &Pattern,
    template: Seq<char>,
    entries: Seq<Entry>,
)
    requires
        plans.len() == entries.len(),
        forall|i: int|
            0 <= i < entries.len() ==> plan_fits(
                #[trigger] plans[i],
                settings,
                pattern,
                template,
                entries[i],
            ),
        forall|i: int| 0 <= i < entries.len() ==> !pattern.matches(#[trigger] entries[i].name@),
    ensures
        forall|i: int, renamed: bool|
            0 <= i < plans.len() ==> match #[trigger] plan_outcome(plans[i], renamed) {
                Some(outcome) => outcome == RenameOutcome::NotMatched,
                None => true,
            },
        forall|i: int|
            0 <= i < plans.len() ==> match (#[trigger] plans[i]).verdict {
                Some(verdict) => verdict@ == VerdictView::NotMatched,
                None => true,
            },
{
    assert forall|i: int| 0 <= i < plans.len() implies match (#[trigger] plans[i]).verdict {
        Some(verdict) => verdict@ == VerdictView::NotMatched,
        None => true,
    } by {
        assert(plan_fits(plans[i], settings, pattern, template, entries[i]));
        assert(!pattern.matches(entries[i].name@));
    }
}

} // verus!
