use rexmv::outcome::{RenameOutcome, RunTotals};

#[test]
fn new_totals_are_zero() {
    let totals = RunTotals::new();
    assert_eq!((totals.matched, totals.changed, totals.failed), (0, 0, 0));
    assert_eq!(totals.total(), 0);
    assert!(totals.has_room());
    assert_eq!(totals.summary_line(), "0 files matched, 0 files renamed, 0 errors");
}

#[test]
fn each_outcome_raises_its_own_count() {
    let mut totals = RunTotals::new();
    totals.record(RenameOutcome::Matched);
    assert_eq!((totals.matched, totals.changed, totals.failed), (1, 0, 0));
    totals.record(RenameOutcome::Changed);
    assert_eq!((totals.matched, totals.changed, totals.failed), (1, 1, 0));
    totals.record(RenameOutcome::Failed);
    assert_eq!((totals.matched, totals.changed, totals.failed), (1, 1, 1));
    totals.record(RenameOutcome::NotMatched);
    assert_eq!((totals.matched, totals.changed, totals.failed), (1, 1, 1));
    assert_eq!(totals.total(), 3);
}

#[test]
fn summary_adds_the_three_counts() {
    let totals = RunTotals { matched: 4, changed: 11, failed: 2 };
    assert_eq!(totals.total(), 17);
    assert_eq!(totals.summary_line(), "17 files matched, 11 files renamed, 2 errors");
}

#[test]
fn record_all_counts_in_order() {
    let mut totals = RunTotals { matched: 1, changed: 0, failed: 0 };
    totals.record_all(&vec![
        RenameOutcome::Changed,
        RenameOutcome::NotMatched,
        RenameOutcome::Failed,
        RenameOutcome::Changed,
        RenameOutcome::Matched,
        RenameOutcome::NotMatched,
    ]);
    assert_eq!(totals, RunTotals { matched: 2, changed: 2, failed: 1 });
    totals.record_all(&Vec::new());
    assert_eq!(totals, RunTotals { matched: 2, changed: 2, failed: 1 });
}

#[test]
fn full_totals_have_no_room() {
    let totals = RunTotals { matched: u64::MAX - 1, changed: 1, failed: 0 };
    assert!(!totals.has_room());
    assert_eq!(totals.total(), u64::MAX);
    let mut almost = RunTotals { matched: u64::MAX - 2, changed: 1, failed: 0 };
    assert!(almost.has_room());
    almost.record(RenameOutcome::Failed);
    assert_eq!(almost.total(), u64::MAX);
    almost.record(RenameOutcome::NotMatched);
    assert_eq!(almost.total(), u64::MAX);
}

#[test]
fn try_record_counts_where_there_is_room() {
    let mut totals = RunTotals::new();
    assert!(totals.try_record(RenameOutcome::Changed));
    assert!(totals.try_record(RenameOutcome::NotMatched));
    assert_eq!(totals, RunTotals { matched: 0, changed: 1, failed: 0 });
    let mut full = RunTotals { matched: 0, changed: u64::MAX, failed: 0 };
    assert!(!full.try_record(RenameOutcome::Failed));
    assert_eq!(full, RunTotals { matched: 0, changed: u64::MAX, failed: 0 });
    assert!(full.try_record(RenameOutcome::NotMatched));
    assert_eq!(full, RunTotals { matched: 0, changed: u64::MAX, failed: 0 });
}
