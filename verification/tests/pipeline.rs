use po_llm::pipeline::{
    aggregate_file, should_persist, summarize_run, FileOutcome, FileStats, LanguageOutcome,
    RunSummary, RunVerdict, TaskRun,
};

#[test]
fn preview_without_override_does_not_write() {
    assert!(!should_persist(true, false));
}

#[test]
fn every_other_mode_writes() {
    assert!(should_persist(false, false));
    assert!(should_persist(false, true));
    assert!(should_persist(true, true));
}

#[test]
fn task_without_units_is_done_at_once() {
    let run = TaskRun::new(0, 10, false, false);
    assert_eq!(run.next_batch(), None);
    assert_eq!(run.outcome(), Some((0, 0)));
}

#[test]
fn batches_are_full_but_for_the_last() {
    let mut run = TaskRun::new(7, 3, false, false);
    assert_eq!(run.next_batch(), Some((0, 3)));
    assert!(run.record_batch(3, 0));
    assert_eq!(run.next_batch(), Some((3, 6)));
    assert!(run.record_batch(2, 1));
    assert_eq!(run.next_batch(), Some((6, 7)));
    assert!(!run.record_batch(0, 1));
    assert_eq!(run.next_batch(), None);
    assert_eq!(run.outcome(), Some((5, 2)));
    assert_eq!(run.counts(), (5, 2));
}

#[test]
fn batch_size_above_the_total_gives_one_batch() {
    let mut run = TaskRun::new(2, 50, false, false);
    assert_eq!(run.next_batch(), Some((0, 2)));
    run.record_batch(2, 0);
    assert_eq!(run.next_batch(), None);
}

#[test]
fn exact_multiple_has_no_short_batch() {
    let mut run = TaskRun::new(4, 2, false, false);
    assert_eq!(run.next_batch(), Some((0, 2)));
    run.record_batch(1, 1);
    assert_eq!(run.next_batch(), Some((2, 4)));
    run.record_batch(2, 0);
    assert_eq!(run.next_batch(), None);
    assert_eq!(run.outcome(), Some((3, 1)));
}

#[test]
fn batches_near_the_largest_total_do_not_overflow() {
    let run = TaskRun::new(usize::MAX, usize::MAX - 1, false, false);
    assert_eq!(run.next_batch(), Some((0, usize::MAX - 1)));
}

#[test]
fn preview_run_never_asks_for_a_write() {
    let mut run = TaskRun::new(2, 2, true, false);
    assert!(!run.record_batch(2, 0));
}

#[test]
fn forced_preview_run_writes() {
    let mut run = TaskRun::new(2, 2, true, true);
    assert!(run.record_batch(2, 0));
}

#[test]
fn batch_without_translated_units_is_not_written() {
    let mut run = TaskRun::new(2, 2, false, false);
    assert!(!run.record_batch(0, 2));
}

#[test]
fn abort_ends_the_task_and_keeps_the_counts() {
    let mut run = TaskRun::new(5, 2, false, false);
    run.record_batch(1, 1);
    run.abort();
    assert_eq!(run.next_batch(), None);
    assert_eq!(run.outcome(), None);
    assert_eq!(run.counts(), (1, 1));
}

#[test]
fn outcome_waits_for_the_last_batch() {
    let mut run = TaskRun::new(3, 2, false, false);
    assert_eq!(run.outcome(), None);
    run.record_batch(2, 0);
    assert_eq!(run.outcome(), None);
    run.record_batch(1, 0);
    assert_eq!(run.outcome(), Some((3, 0)));
}

#[test]
fn file_adds_up_the_languages_that_went_through() {
    let outcomes = vec![
        LanguageOutcome::Done { translated: 3, failed: 1 },
        LanguageOutcome::Failed,
        LanguageOutcome::Done { translated: 4, failed: 0 },
    ];
    assert_eq!(
        aggregate_file(&outcomes),
        FileOutcome::Done(FileStats { total_translated: 7, total_failed: 1 })
    );
}

#[test]
fn file_fails_when_every_language_failed() {
    let outcomes = vec![LanguageOutcome::Failed, LanguageOutcome::Failed];
    assert_eq!(aggregate_file(&outcomes), FileOutcome::AllLanguagesFailed);
}

#[test]
fn file_without_languages_is_done() {
    assert_eq!(
        aggregate_file(&vec![]),
        FileOutcome::Done(FileStats { total_translated: 0, total_failed: 0 })
    );
}

#[test]
fn file_with_only_failed_units_is_done() {
    let outcomes = vec![LanguageOutcome::Done { translated: 0, failed: 5 }];
    assert_eq!(
        aggregate_file(&outcomes),
        FileOutcome::Done(FileStats { total_translated: 0, total_failed: 5 })
    );
}

#[test]
fn file_outcome_does_not_depend_on_the_order() {
    let a = vec![LanguageOutcome::Failed, LanguageOutcome::Done { translated: 2, failed: 1 }];
    let b = vec![LanguageOutcome::Done { translated: 2, failed: 1 }, LanguageOutcome::Failed];
    assert_eq!(aggregate_file(&a), aggregate_file(&b));
}

#[test]
fn run_adds_up_its_files() {
    let files = vec![
        FileOutcome::Done(FileStats { total_translated: 7, total_failed: 1 }),
        FileOutcome::AllLanguagesFailed,
        FileOutcome::Done(FileStats { total_translated: 2, total_failed: 0 }),
    ];
    assert_eq!(
        summarize_run(&files),
        RunSummary { files_ok: 2, files_failed: 1, translated: 9, failed: 1 }
    );
}

#[test]
fn run_without_files() {
    let summary = summarize_run(&vec![]);
    assert_eq!(summary, RunSummary { files_ok: 0, files_failed: 0, translated: 0, failed: 0 });
    assert_eq!(summary.verdict(), RunVerdict::NothingTranslated);
    assert_eq!(summary.exit_code(), 0);
}

#[test]
fn run_fails_only_where_a_file_failed() {
    let failed = RunSummary { files_ok: 3, files_failed: 1, translated: 9, failed: 0 };
    assert_eq!(failed.verdict(), RunVerdict::Failed);
    assert_eq!(failed.exit_code(), 1);
}

#[test]
fn failed_units_degrade_a_run() {
    let degraded = RunSummary { files_ok: 3, files_failed: 0, translated: 9, failed: 2 };
    assert_eq!(degraded.verdict(), RunVerdict::Degraded);
    assert_eq!(degraded.exit_code(), 0);
}

#[test]
fn run_with_nothing_to_do_is_no_failure() {
    let idle = RunSummary { files_ok: 3, files_failed: 0, translated: 0, failed: 0 };
    assert_eq!(idle.verdict(), RunVerdict::NothingTranslated);
    assert_eq!(idle.exit_code(), 0);
}

#[test]
fn clean_run_is_a_success() {
    let clean = RunSummary { files_ok: 1, files_failed: 0, translated: 4, failed: 0 };
    assert_eq!(clean.verdict(), RunVerdict::Success);
    assert_eq!(clean.exit_code(), 0);
}
