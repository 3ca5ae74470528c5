use dupfinder::report::{
    chosen_duplicates_dir, hash_thread_count, nothing_found, plan_duplicates_dir,
    report_hash_progress, run_report, DuplicatesDirPlan, RunTally,
};
use dupfinder::transfer::MoveOutcome;

#[test]
fn thread_count_follows_the_request_or_the_machine() {
    assert_eq!(hash_thread_count(Some(1), Some(16)), 1);
    assert_eq!(hash_thread_count(Some(12), Some(4)), 12);
    assert_eq!(hash_thread_count(Some(0), Some(4)), 4);
    assert_eq!(hash_thread_count(None, Some(16)), 8);
    assert_eq!(hash_thread_count(None, Some(3)), 3);
    assert_eq!(hash_thread_count(None, None), 1);
}

#[test]
fn progress_every_fiftieth_and_at_the_end() {
    assert!(report_hash_progress(50, 120));
    assert!(report_hash_progress(100, 120));
    assert!(report_hash_progress(120, 120));
    assert!(!report_hash_progress(51, 120));
    assert!(!report_hash_progress(1, 120));
}

#[test]
fn empty_duplicates_dir_means_the_default() {
    assert_eq!(chosen_duplicates_dir(None), None);
    assert_eq!(chosen_duplicates_dir(Some(String::new())), None);
    assert_eq!(
        chosen_duplicates_dir(Some("/mnt/backup/dups".to_string())),
        Some("/mnt/backup/dups".to_string())
    );
}

#[test]
fn dry_run_never_creates_the_duplicates_dir() {
    assert_eq!(plan_duplicates_dir(false, false), DuplicatesDirPlan::Create);
    assert_eq!(plan_duplicates_dir(false, true), DuplicatesDirPlan::Announce);
    assert_eq!(plan_duplicates_dir(true, true), DuplicatesDirPlan::Announce);
    assert_eq!(plan_duplicates_dir(true, false), DuplicatesDirPlan::Nothing);
}

#[test]
fn tally_keeps_three_separate_counts() {
    let mut t = RunTally::new();
    t.record(MoveOutcome::Moved, 100);
    t.record(MoveOutcome::MovedByCopy, 50);
    t.record(MoveOutcome::RenameFailed, 1000);
    t.record(MoveOutcome::CopyFailed, 1000);
    t.record(MoveOutcome::SourceNotRemovable, 1000);
    assert_eq!(t.moved, 2);
    assert_eq!(t.failed, 3);
    assert_eq!(t.planned, 0);
    assert_eq!(t.space_saved, 150);

    let mut d = RunTally::new();
    d.record(MoveOutcome::Planned, 7);
    d.record(MoveOutcome::Planned, 8);
    assert_eq!(d.planned, 2);
    assert_eq!(d.moved, 0);
    assert_eq!(d.space_saved, 15);
}

#[test]
fn tally_refuses_to_overflow() {
    let mut t = RunTally::new();
    t.record(MoveOutcome::Moved, u64::MAX - 1);
    assert!(t.can_record(1));
    assert!(!t.can_record(2));
}

#[test]
fn report_counts_what_was_found_not_what_was_moved() {
    let mut t = RunTally::new();
    t.record(MoveOutcome::Moved, 10);
    t.record(MoveOutcome::RenameFailed, 10);
    let r = run_report(5, &t, "/x/duplikate_log.txt".to_string());
    assert_eq!(r.duplicates_found, 5);
    assert_eq!(r.space_saved, 10);
    assert_eq!(r.log_file, Some("/x/duplikate_log.txt".to_string()));
    let none = nothing_found();
    assert_eq!(none.duplicates_found, 0);
    assert_eq!(none.space_saved, 0);
    assert_eq!(none.log_file, None);
}
