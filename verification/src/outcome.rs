//! Outcomes of single entries, the totals of a run, and the lines that
//! report them.

use vstd::prelude::*;
use crate::decimal::{decimal, push_decimal};
use crate::text::{append_str, string_of};

verus! {

/// What became of one entry.
#[derive(Clone, Copy, Debug, PartialEq, Eq, Structural)]
pub enum RenameOutcome {
    /// The name matched and the entry was renamed.
    Changed,
    /// The name matched and the template gave the same name again.
    Matched,
    /// The name did not match the pattern.
    NotMatched,
    /// The name matched, and the attempt to rename the entry failed.
    Failed,
}

/// The counts of one run: entries left as they were though they matched,
/// entries renamed, and entries whose renaming failed.
#[derive(Clone, Copy, Debug, PartialEq, Eq, Structural)]
pub struct RunTotals {
    pub matched: u64,
    pub changed: u64,
    pub failed: u64,
}

/// The totals after `outcome` was counted into `totals`, as numbers without
/// a bound.
pub open spec fn counted(totals: (nat, nat, nat), outcome: RenameOutcome) -> (nat, nat, nat) {
    match outcome {
        RenameOutcome::Matched => (totals.0 + 1, totals.1, totals.2),
        RenameOutcome::Changed => (totals.0, totals.1 + 1, totals.2),
        RenameOutcome::Failed => (totals.0, totals.1, totals.2 + 1),
        RenameOutcome::NotMatched => totals,
    }
}

/// The totals after each of `outcomes` was counted, first to last.
pub open spec fn counted_all(totals: (nat, nat, nat), outcomes: Seq<RenameOutcome>) -> (
    nat,
    nat,
    nat,
)
    decreases outcomes.len(),
{
    if outcomes.len() == 0 {
        totals
    } else {
        counted(counted_all(totals, outcomes.drop_last()), outcomes.last())
    }
}

/// The sum of three counts.
pub open spec fn sum_of(totals: (nat, nat, nat)) -> nat {
    totals.0 + totals.1 + totals.2
}

/// Counting raises the sum of the counts by one for each outcome but those
/// that did not match, which are not counted at all.
pub proof fn lemma_counted_sum(totals: (nat, nat, nat), outcome: RenameOutcome)
    ensures
        sum_of(counted(totals, outcome)) == sum_of(totals) + if outcome
            == RenameOutcome::NotMatched {
            0nat
        } else {
            1nat
        },
        counted(totals, RenameOutcome::NotMatched) == totals,
{
}

/// However many outcomes are counted, the sum of the counts rises by no more
/// than their number, and no count ever falls.
pub proof fn lemma_counted_all_bounds(totals: (nat, nat, nat), outcomes: Seq<RenameOutcome>)
    ensures
        sum_of(totals) <= sum_of(counted_all(totals, outcomes)) <= sum_of(totals) + outcomes.len(),
        totals.0 <= counted_all(totals, outcomes).0,
        totals.1 <= counted_all(totals, outcomes).1,
        totals.2 <= counted_all(totals, outcomes).2,
    decreases outcomes.len(),
{
    if outcomes.len() > 0 {
        lemma_counted_all_bounds(totals, outcomes.drop_last());
        lemma_counted_sum(counted_all(totals, outcomes.drop_last()), outcomes.last());
    }
}

/// The summary line for the given counts.
pub open spec fn summary_text(matched: nat, changed: nat, failed: nat) -> Seq<char> {
    decimal(matched + changed + failed) + " files matched, "@ + decimal(changed)
        + " files renamed, "@ + decimal(failed) + " errors"@
}

impl RunTotals {
    /// The three counts as numbers without a bound.
    pub open spec fn counts(&self) -> (nat, nat, nat) {
        (self.matched as nat, self.changed as nat, self.failed as nat)
    }

    /// The number of entries that matched the pattern, whatever became of
    /// them.
    pub open spec fn spec_total(&self) -> nat {
        (self.matched + self.changed + self.failed) as nat
    }

    /// The counts can be added up in 64 bits.
    pub open spec fn wf(&self) -> bool {
        self.matched + self.changed + self.failed <= u64::MAX
    }

    /// The totals of a run in which nothing has happened yet.
    pub fn new() -> (totals: RunTotals)
        ensures
            totals.wf(),
            totals.counts() == (0nat, 0nat, 0nat),
    {
        RunTotals { matched: 0, changed: 0, failed: 0 }
    }

    /// The number of entries that matched the pattern.
    pub fn total(&self) -> (n: u64)
        requires
            self.wf(),
        ensures
            n == self.spec_total(),
    {
        self.matched + self.changed + self.failed
    }

    /// Whether one more matching entry can be counted.
    pub fn has_room(&self) -> (room: bool)
        requires
            self.wf(),
        ensures
            room == (self.spec_total() < u64::MAX),
    {
        self.total() < u64::MAX
    }

    /// Counts one outcome: an entry that did not match changes nothing, any
    /// other raises its own count by one.
    pub fn record(&mut self, outcome: RenameOutcome)
        requires
            old(self).wf(),
            outcome != RenameOutcome::NotMatched ==> old(self).spec_total() < u64::MAX,
        ensures
            final(self).wf(),
            final(self).counts() == counted(old(self).counts(), outcome),
    {
        match outcome {
            RenameOutcome::Changed => {
                self.changed = self.changed + 1;
            },
            RenameOutcome::Matched => {
                self.matched = self.matched + 1;
            },
            RenameOutcome::Failed => {
                self.failed = self.failed + 1;
            },
            RenameOutcome::NotMatched => {},
        }
    }

    /// Counts one outcome where there is room for it, and tells whether it
    /// did; without room the totals stay as they were.
    pub fn try_record(&mut self, outcome: RenameOutcome) -> (recorded: bool)
        requires
            old(self).wf(),
        ensures
            final(self).wf(),
            recorded == (outcome == RenameOutcome::NotMatched || old(self).spec_total()
                < u64::MAX),
            recorded ==> final(self).counts() == counted(old(self).counts(), outcome),
            !recorded ==> *final(self) == *old(self),
    {
        if outcome == RenameOutcome::NotMatched || self.has_room() {
            self.record(outcome);
            true
        } else {
            false
        }
    }

    /// Counts a run of outcomes, first to last.
    pub fn record_all(&mut self, outcomes: &Vec<RenameOutcome>)
        requires
            old(self).wf(),
            old(self).spec_total() + outcomes@.len() <= u64::MAX,
        ensures
            final(self).wf(),
            final(self).counts() == counted_all(old(self).counts(), outcomes@),
    {
        let mut i: usize = 0;
        while i < outcomes.len()
            invariant
                i <= outcomes@.len(),
                self.wf(),
                old(self).spec_total() + outcomes@.len() <= u64::MAX,
                self.counts() == counted_all(old(self).counts(), outcomes@.take(i as int)),
            decreases outcomes@.len() - i,
        {
            proof {
                lemma_counted_all_bounds(old(self).counts(), outcomes@.take(i as int));
                assert(outcomes@.take(i + 1).drop_last() =~= outcomes@.take(i as int));
            }
            self.record(outcomes[i]);
            i = i + 1;
        }
        assert(outcomes@.take(outcomes@.len() as int) =~= outcomes@);
    }

    /// The one line that ends a run: how many entries matched, how many were
    /// renamed, how many failed.
    pub fn summary_line(&self) -> (line: String)
        requires
            self.wf(),
        ensures
            line@ == summary_text(self.matched as nat, self.changed as nat, self.failed as nat),
    {
        let mut line: Vec<char> = Vec::new();
        push_decimal(&mut line, self.total());
        append_str(&mut line, " files matched, ");
        push_decimal(&mut line, self.changed);
        append_str(&mut line, " files renamed, ");
        push_decimal(&mut line, self.failed);
        append_str(&mut line, " errors");
        assert(line@ =~= summary_text(
            self.matched as nat,
            self.changed as nat,
            self.failed as nat,
        ));
        string_of(&line)
    }
}

/// The line that tells of a renaming: the old name, an arrow, the new name.
pub fn rename_line(old_name: &str, new_name: &str) -> (line: String)
    ensures
        line@ == old_name@ + " -> "@ + new_name@,
{
    let mut line: Vec<char> = Vec::new();
    append_str(&mut line, old_name);
    append_str(&mut line, " -> ");
    append_str(&mut line, new_name);
    assert(line@ =~= old_name@ + " -> "@ + new_name@);
    string_of(&line)
}

/// The line that tells of an entry that matched and keeps its name.
pub fn unchanged_line(name: &str) -> (line: String)
    ensures
        line@ == name@ + " unchanged"@,
{
    let mut line: Vec<char> = Vec::new();
    append_str(&mut line, name);
    append_str(&mut line, " unchanged");
    assert(line@ =~= name@ + " unchanged"@);
    string_of(&line)
}

/// The line that tells of a renaming that failed, with the reason.
pub fn error_line(name: &str, reason: &str) -> (line: String)
    ensures
        line@ == name@ + ": "@ + reason@,
{
    let mut line: Vec<char> = Vec::new();
    append_str(&mut line, name);
    append_str(&mut line, ": ");
    append_str(&mut line, reason);
    assert(line@ =~= name@ + ": "@ + reason@);
    string_of(&line)
}

} // verus!
