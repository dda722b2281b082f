use rexmv::classify::{classify, classify_captures, compare_names, report_line, Verdict};
use rexmv::outcome::{error_line, rename_line, unchanged_line, RenameOutcome, RunTotals};
use rexmv::pattern::{CaptureSet, Pattern};

fn renamed_to(verdict: &Verdict) -> Option<String> {
    verdict.new_name().map(|name| name.to_string())
}

#[test]
fn unmatched_name_is_not_matched() {
    let pattern = Pattern::new(r"^\d+\.txt$").expect("valid pattern");
    let verdict = classify(&pattern, "$(0)", "notes.md");
    assert!(matches!(verdict, Verdict::NotMatched));
    assert!(!verdict.needs_rename());
    assert_eq!(verdict.new_name(), None);
    assert_eq!(verdict.outcome(true), RenameOutcome::NotMatched);
    assert_eq!(verdict.outcome(false), RenameOutcome::NotMatched);
}

#[test]
fn same_name_again_is_matched_not_changed() {
    let pattern = Pattern::new(r"^(\w+)\.txt$").expect("valid pattern");
    let verdict = classify(&pattern, "$(1).txt", "notes.txt");
    assert!(matches!(verdict, Verdict::Unchanged));
    assert!(!verdict.needs_rename());
    assert_eq!(verdict.outcome(true), RenameOutcome::Matched);
    assert_eq!(verdict.outcome(false), RenameOutcome::Matched);
}

#[test]
fn new_name_asks_for_a_renaming() {
    let pattern = Pattern::new(r"^(\w+)\.txt$").expect("valid pattern");
    let verdict = classify(&pattern, "$(1).md", "notes.txt");
    assert!(verdict.needs_rename());
    assert_eq!(renamed_to(&verdict), Some("notes.md".to_string()));
    assert_eq!(verdict.outcome(true), RenameOutcome::Changed);
    assert_eq!(verdict.outcome(false), RenameOutcome::Failed);
}

#[test]
fn classify_captures_follows_the_slots() {
    let set = CaptureSet::from_slots(vec![Some("a.txt".to_string()), Some("a".to_string())])
        .expect("slot 0 is present");
    let same = classify_captures("$(1).txt", "a.txt", Some(&set));
    assert!(matches!(same, Verdict::Unchanged));
    let other = classify_captures("$(1).bak", "a.txt", Some(&set));
    assert_eq!(renamed_to(&other), Some("a.bak".to_string()));
    let none = classify_captures("$(1).bak", "a.txt", None);
    assert!(matches!(none, Verdict::NotMatched));
}

#[test]
fn compare_names_tells_same_from_new() {
    assert!(matches!(compare_names("a", "a".to_string()), Verdict::Unchanged));
    assert_eq!(renamed_to(&compare_names("a", "b".to_string())), Some("b".to_string()));
}

#[test]
fn second_run_finds_nothing_to_change() {
    let pattern = Pattern::new(r"^(\w+)\.txt$").expect("valid pattern");
    let template = "$(1).bak";
    let names = ["a.txt", "b.txt", "c.md"];
    let mut first = RunTotals::new();
    let mut after: Vec<String> = Vec::new();
    for name in names {
        let verdict = classify(&pattern, template, name);
        first.record(verdict.outcome(true));
        after.push(renamed_to(&verdict).unwrap_or(name.to_string()));
    }
    assert_eq!((first.matched, first.changed, first.failed), (0, 2, 0));
    assert_eq!(after, vec!["a.bak", "b.bak", "c.md"]);
    let mut second = RunTotals::new();
    for name in &after {
        let verdict = classify(&pattern, template, name);
        assert!(matches!(verdict, Verdict::NotMatched));
        second.record(verdict.outcome(true));
    }
    assert_eq!(second, RunTotals::new());
    assert_eq!(second.summary_line(), "0 files matched, 0 files renamed, 0 errors");
}

#[test]
fn colliding_names_give_one_change_and_one_error() {
    let pattern = Pattern::new(r"^(\w+)_v\d\.txt$").expect("valid pattern");
    let template = "$(1).txt";
    let mut present: Vec<String> = vec!["doc_v1.txt".to_string(), "doc_v2.txt".to_string()];
    let mut totals = RunTotals::new();
    let mut outcomes: Vec<RenameOutcome> = Vec::new();
    for name in ["doc_v1.txt", "doc_v2.txt"] {
        let verdict = classify(&pattern, template, name);
        assert_eq!(renamed_to(&verdict), Some("doc.txt".to_string()));
        let target = renamed_to(&verdict).expect("a renaming is due");
        let free = !present.contains(&target);
        if free {
            present.retain(|held| held != name);
            present.push(target);
        }
        let outcome = verdict.outcome(free);
        totals.record(outcome);
        outcomes.push(outcome);
    }
    assert_eq!(outcomes, vec![RenameOutcome::Changed, RenameOutcome::Failed]);
    assert_eq!((totals.matched, totals.changed, totals.failed), (0, 1, 1));
    assert_eq!(totals.summary_line(), "2 files matched, 1 files renamed, 1 errors");
}

#[test]
fn report_lines_by_verdict() {
    let pattern = Pattern::new(r"^(\w+)\.txt$").expect("valid pattern");
    let renamed = classify(&pattern, "$(1).md", "a.txt");
    let kept = classify(&pattern, "$(1).txt", "a.txt");
    let skipped = classify(&pattern, "$(1).md", "a.rs");

    assert_eq!(report_line(true, "a.txt", &renamed, None), Some("a.txt -> a.md".to_string()));
    assert_eq!(report_line(false, "a.txt", &renamed, None), None);
    assert_eq!(
        report_line(true, "a.txt", &renamed, Some("File exists")),
        Some("a.txt: File exists".to_string())
    );
    assert_eq!(
        report_line(false, "a.txt", &renamed, Some("File exists")),
        Some("a.txt: File exists".to_string())
    );
    assert_eq!(report_line(true, "a.txt", &kept, None), Some("a.txt unchanged".to_string()));
    assert_eq!(report_line(false, "a.txt", &kept, None), None);
    assert_eq!(
        report_line(true, "a.txt", &kept, Some("ignored")),
        Some("a.txt unchanged".to_string())
    );
    assert_eq!(report_line(true, "a.rs", &skipped, None), None);
    assert_eq!(report_line(true, "a.rs", &skipped, Some("ignored")), None);
}

#[test]
fn single_lines() {
    assert_eq!(rename_line("old", "new"), "old -> new");
    assert_eq!(unchanged_line("same"), "same unchanged");
    assert_eq!(error_line("bad", "Permission denied"), "bad: Permission denied");
}
