use std::sync::atomic::{AtomicBool, Ordering};

use translation_fiesta_rust::back_translation::BackTranslationStep;
use translation_fiesta_rust::batch::{
    item_result, BatchOptions, BatchProcessor, BatchProgress, BatchStep, ItemOutcome,
};
use translation_fiesta_rust::error::TranslationError;
use translation_fiesta_rust::memory::TranslationMemory;
use translation_fiesta_rust::models::{BackTranslationResult, BatchItemResult, ProviderId};
use translation_fiesta_rust::translation::{TranslationService, TranslationStep};

fn files(count: usize) -> Vec<String> {
    (1..=count).map(|index| format!("file{}.txt", index)).collect()
}

fn translated(text: &str) -> ItemOutcome {
    ItemOutcome::Translated(Ok(BackTranslationResult::with_identity(
        1,
        2,
        text.to_string(),
        format!("{} (ja)", text),
        format!("{} (back)", text),
        "en".to_string(),
        "ja".to_string(),
        ProviderId::GoogleUnofficial,
        3,
    )))
}

/// Runs a batch in which every file translates, and sets the flag while the
/// file with the given number is being processed.
fn run(count: usize, cancel_during: Option<usize>) -> (Vec<BatchItemResult>, Vec<BatchProgress>) {
    let processor = BatchProcessor::new(TranslationService::new());
    let flag = AtomicBool::new(false);
    let mut reported = Vec::new();
    let mut step = processor.process_files(files(count), &flag);
    loop {
        match step {
            BatchStep::Finished(results) => return (results, reported),
            BatchStep::Process(mut run, progress) => {
                let number = progress.done + 1;
                let name = progress.current_file.clone();
                reported.push(progress);
                if cancel_during == Some(number) {
                    flag.store(true, Ordering::Relaxed);
                }
                let after = run.record(translated(&name), 10 * number as u128).unwrap();
                reported.push(after);
                step = run.next_step(&flag);
            }
        }
    }
}

#[test]
fn an_empty_batch_is_over_at_once() {
    let (results, reported) = run(0, None);
    assert!(results.is_empty());
    assert!(reported.is_empty());
    let processor = BatchProcessor::new(TranslationService::new());
    match processor.process_files_observing(Vec::new(), true) {
        BatchStep::Finished(results) => assert!(results.is_empty()),
        other => panic!("unexpected step {:?}", other),
    }
}

#[test]
fn files_are_processed_in_order() {
    let (results, reported) = run(3, None);
    let paths: Vec<&str> = results.iter().map(|item| item.file_path.as_str()).collect();
    assert_eq!(paths, vec!["file1.txt", "file2.txt", "file3.txt"]);
    assert!(results.iter().all(|item| item.success && item.error.is_none()));
    assert_eq!(results[1].intermediate_text, "file2.txt (ja)");
    assert_eq!(results[1].back_translated_text, "file2.txt (back)");
    assert_eq!(results[1].duration_ms, 20);
    let expected: Vec<BatchProgress> = vec![
        (0, "file1.txt"),
        (1, "file1.txt"),
        (1, "file2.txt"),
        (2, "file2.txt"),
        (2, "file3.txt"),
        (3, "file3.txt"),
    ]
    .into_iter()
    .map(|(done, file)| BatchProgress { done, total: 3, current_file: file.to_string() })
    .collect();
    assert_eq!(reported, expected);
}

#[test]
fn cancelling_during_the_third_of_five_files_keeps_the_first_three() {
    let (results, reported) = run(5, Some(3));
    let paths: Vec<&str> = results.iter().map(|item| item.file_path.as_str()).collect();
    assert_eq!(paths, vec!["file1.txt", "file2.txt", "file3.txt"]);
    assert_eq!(reported.len(), 6);
    assert!(reported.iter().all(|progress| progress.current_file != "file4.txt"
        && progress.current_file != "file5.txt"));
}

#[test]
fn cancelling_before_the_third_of_five_files_keeps_the_first_two() {
    let processor = BatchProcessor::new(TranslationService::new());
    let mut step = processor.process_files_observing(files(5), false);
    let mut processed = 0;
    let results = loop {
        match step {
            BatchStep::Finished(results) => break results,
            BatchStep::Process(mut run, progress) => {
                processed += 1;
                assert_eq!(progress.done + 1, processed);
                run.record(translated(&progress.current_file), 1);
                step = run.next_step_observing(processed == 2);
            }
        }
    };
    let paths: Vec<&str> = results.iter().map(|item| item.file_path.as_str()).collect();
    assert_eq!(paths, vec!["file1.txt", "file2.txt"]);
}

#[test]
fn a_batch_cancelled_at_the_start_has_no_records() {
    let processor = BatchProcessor::new(TranslationService::new());
    let flag = AtomicBool::new(true);
    match processor.process_files(files(5), &flag) {
        BatchStep::Finished(results) => assert!(results.is_empty()),
        other => panic!("unexpected step {:?}", other),
    }
}

#[test]
fn the_last_file_ends_the_batch_even_when_cancelled() {
    let (results, _) = run(2, Some(2));
    assert_eq!(results.len(), 2);
}

#[test]
fn failures_are_recorded_and_do_not_end_the_batch() {
    let processor = BatchProcessor::new(TranslationService::new());
    let mut step = processor.process_files_observing(files(3), false);
    let mut outcomes = vec![
        ItemOutcome::LoadFailed("file does not exist: file1.txt".to_string()),
        ItemOutcome::Translated(Err(TranslationError::RateLimited)),
        ItemOutcome::Translated(Err(TranslationError::Cancelled)),
    ];
    let results = loop {
        match step {
            BatchStep::Finished(results) => break results,
            BatchStep::Process(mut run, _) => {
                assert_eq!(run.total(), 3);
                run.record(outcomes.remove(0), 5);
                assert_eq!(run.done() + outcomes.len(), 3);
                step = run.next_step_observing(false);
            }
        }
    };
    assert_eq!(results.len(), 3);
    let errors: Vec<Option<&str>> = results.iter().map(|item| item.error.as_deref()).collect();
    assert_eq!(
        errors,
        vec![
            Some("file does not exist: file1.txt"),
            Some("provider rate limited"),
            Some("cancelled"),
        ]
    );
    for item in &results {
        assert!(!item.success);
        assert_eq!(item.intermediate_text, "");
        assert_eq!(item.back_translated_text, "");
        assert_eq!(item.duration_ms, 5);
    }
}

#[test]
fn recording_more_than_there_are_files_changes_nothing() {
    let processor = BatchProcessor::new(TranslationService::new());
    match processor.process_files_observing(files(1), false) {
        BatchStep::Process(mut run, _) => {
            assert!(run.record(translated("a"), 1).is_some());
            assert!(run.record(translated("b"), 1).is_none());
            assert_eq!(run.done(), 1);
        }
        other => panic!("unexpected step {:?}", other),
    }
}

#[test]
fn an_item_carries_an_error_exactly_when_it_failed() {
    let success = item_result("a.txt", translated("a"), 9);
    assert_eq!(
        success,
        BatchItemResult {
            file_path: "a.txt".to_string(),
            success: true,
            intermediate_text: "a (ja)".to_string(),
            back_translated_text: "a (back)".to_string(),
            error: None,
            duration_ms: 9,
        }
    );
    let failure = item_result(
        "b.txt",
        ItemOutcome::Translated(Err(TranslationError::InvalidInput(
            "text cannot be empty".to_string(),
        ))),
        4,
    );
    assert_eq!(
        failure,
        BatchItemResult {
            file_path: "b.txt".to_string(),
            success: false,
            intermediate_text: String::new(),
            back_translated_text: String::new(),
            error: Some("text cannot be empty".to_string()),
            duration_ms: 4,
        }
    );
}

#[test]
fn a_file_is_translated_with_the_options_of_the_batch() {
    let processor = BatchProcessor::new(TranslationService::new());
    let mut memory = TranslationMemory::new(10);
    let flag = AtomicBool::new(false);
    let options = BatchOptions {
        source_language: Some("de".to_string()),
        intermediate_language: "fr".to_string(),
        provider_id: ProviderId::GoogleUnofficial,
    };
    match processor.begin_file(&mut memory, " Guten Tag ", &options, &flag) {
        BackTranslationStep::Translate(_, TranslationStep::Send(translation)) => {
            assert_eq!(
                translation.url(),
                "https://translate.googleapis.com/translate_a/single?client=gtx&sl=de&tl=fr&dt=t&q=Guten%20Tag"
            );
        }
        other => panic!("unexpected step {:?}", other),
    }
    flag.store(true, Ordering::Relaxed);
    match processor.begin_file(&mut memory, "Guten Tag", &options, &flag) {
        BackTranslationStep::Translate(_, TranslationStep::Finished(outcome)) => {
            assert_eq!(outcome, Err(TranslationError::Cancelled));
        }
        other => panic!("unexpected step {:?}", other),
    }
    match processor.begin_file(&mut memory, "  ", &options, &flag) {
        BackTranslationStep::Finished(outcome) => {
            assert_eq!(
                outcome,
                Err(TranslationError::InvalidInput("text cannot be empty".to_string()))
            );
        }
        other => panic!("unexpected step {:?}", other),
    }
}
