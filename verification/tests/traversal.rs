use rexmv::classify::Verdict;
use rexmv::pattern::Pattern;
use rexmv::traverse::{handle_directory, plan_entry, Entry, EntryPlan, Settings};

fn entry(name: &str, is_dir: bool) -> Entry {
    Entry { name: name.to_string(), is_dir }
}

fn settings(recursive: bool, folders: bool) -> Settings {
    Settings { recursive, folders, verbose: false }
}

fn target(plan: &EntryPlan) -> Option<String> {
    match &plan.verdict {
        Some(verdict) => verdict.new_name().map(|name| name.to_string()),
        None => None,
    }
}

#[test]
fn recursive_without_folders_descends_and_leaves_directories() {
    let pattern = Pattern::new(r"^old_(.*)$").expect("valid pattern");
    let listing = vec![entry("old_dir", true), entry("old_file", false)];
    let plans = handle_directory(&settings(true, false), &pattern, "new_$(1)", &listing);
    assert_eq!(plans.len(), 2);
    assert_eq!(plans[0].name, "old_dir");
    assert!(plans[0].descend);
    assert!(plans[0].verdict.is_none());
    assert_eq!(plans[1].name, "old_file");
    assert!(!plans[1].descend);
    assert_eq!(target(&plans[1]), Some("new_file".to_string()));
}

#[test]
fn folders_without_recursive_renames_directories_and_stays_out() {
    let pattern = Pattern::new(r"^old_(.*)$").expect("valid pattern");
    let listing = vec![entry("old_dir", true), entry("old_file", false)];
    let plans = handle_directory(&settings(false, true), &pattern, "new_$(1)", &listing);
    assert_eq!(plans.len(), 2);
    assert!(!plans[0].descend);
    assert_eq!(target(&plans[0]), Some("new_dir".to_string()));
    assert!(!plans[1].descend);
    assert_eq!(target(&plans[1]), Some("new_file".to_string()));
}

#[test]
fn both_flags_descend_and_rename() {
    let pattern = Pattern::new(r"^old_(.*)$").expect("valid pattern");
    let plan = plan_entry(&settings(true, true), &pattern, "new_$(1)", &entry("old_dir", true));
    assert!(plan.descend);
    assert_eq!(target(&plan), Some("new_dir".to_string()));
}

#[test]
fn neither_flag_leaves_directories_alone() {
    let pattern = Pattern::new(r"^old_(.*)$").expect("valid pattern");
    let plan = plan_entry(&settings(false, false), &pattern, "new_$(1)", &entry("old_dir", true));
    assert!(!plan.descend);
    assert!(plan.verdict.is_none());
}

#[test]
fn flags_answer_for_files_and_directories() {
    for recursive in [false, true] {
        for folders in [false, true] {
            let s = settings(recursive, folders);
            assert_eq!(s.descends_into(true), recursive);
            assert!(!s.descends_into(false));
            assert_eq!(s.considers(true), folders);
            assert!(s.considers(false));
        }
    }
}

#[test]
fn plans_keep_the_order_of_the_listing() {
    let pattern = Pattern::new(r"^(\d+)\.jpg$").expect("valid pattern");
    let listing = vec![
        entry("3.jpg", false),
        entry("readme", false),
        entry("1.jpg", false),
        entry("pic_2.jpg", false),
    ];
    let plans = handle_directory(&settings(false, false), &pattern, "pic_$(1).jpg", &listing);
    let names: Vec<&str> = plans.iter().map(|plan| plan.name.as_str()).collect();
    assert_eq!(names, vec!["3.jpg", "readme", "1.jpg", "pic_2.jpg"]);
    assert_eq!(target(&plans[0]), Some("pic_3.jpg".to_string()));
    assert!(matches!(plans[1].verdict, Some(Verdict::NotMatched)));
    assert_eq!(target(&plans[2]), Some("pic_1.jpg".to_string()));
    assert!(matches!(plans[3].verdict, Some(Verdict::NotMatched)));
}

#[test]
fn empty_listing_gives_no_plans() {
    let pattern = Pattern::new(r".*").expect("valid pattern");
    let plans = handle_directory(&settings(true, true), &pattern, "$(0)", &Vec::new());
    assert!(plans.is_empty());
}

#[test]
fn whole_match_template_keeps_every_name() {
    let pattern = Pattern::new(r"^.*$").expect("valid pattern");
    let listing = vec![entry("a", false), entry("b", true)];
    let plans = handle_directory(&settings(false, true), &pattern, "$(0)", &listing);
    assert!(matches!(plans[0].verdict, Some(Verdict::Unchanged)));
    assert!(matches!(plans[1].verdict, Some(Verdict::Unchanged)));
}
