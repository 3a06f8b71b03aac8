use std::sync::atomic::{AtomicBool, Ordering};

use translation_fiesta_rust::back_translation::{
    check_back_translation_input, language_from_detection, supplied_source_language,
    BackTranslationStep, FALLBACK_LANGUAGE,
};
use translation_fiesta_rust::error::TranslationError;
use translation_fiesta_rust::memory::TranslationMemory;
use translation_fiesta_rust::models::{BackTranslationResult, ProviderId};
use translation_fiesta_rust::translation::{HttpReply, TranslationService, TranslationStep};

const PROVIDER: ProviderId = ProviderId::GoogleUnofficial;

fn ok_reply(text: &str) -> HttpReply {
    HttpReply::Response {
        status: 200,
        body: format!("[[[\"{}\"]]]", text),
    }
}

/// Runs one leg with the given replies and returns its result with the
/// addresses asked.
fn run_leg(
    memory: &mut TranslationMemory,
    mut step: TranslationStep,
    replies: &mut Vec<HttpReply>,
    urls: &mut Vec<String>,
) -> Result<String, TranslationError> {
    loop {
        step = match step {
            TranslationStep::Finished(outcome) => return outcome,
            TranslationStep::Send(translation) => {
                urls.push(translation.url().to_string());
                translation.on_reply(memory, replies.remove(0), None)
            }
            TranslationStep::Sleep(backoff, _) => {
                let delay = backoff.delay_ms();
                backoff.after_sleep(delay, None)
            }
        };
    }
}

fn run(
    memory: &mut TranslationMemory,
    text: &str,
    source: Option<&str>,
    intermediate: &str,
    mut replies: Vec<HttpReply>,
    cancel_after_forward: Option<&AtomicBool>,
) -> (Result<BackTranslationResult, TranslationError>, Vec<String>) {
    let service = TranslationService::new().with_retry_policy(2, 50);
    let mut urls = Vec::new();
    let mut step =
        service.back_translate(memory, text, source, intermediate, PROVIDER, cancel_after_forward);
    loop {
        match step {
            BackTranslationStep::Finished(outcome) => return (outcome, urls),
            BackTranslationStep::Translate(job, inner) => {
                let outcome = run_leg(memory, inner, &mut replies, &mut urls);
                if let Some(flag) = cancel_after_forward {
                    flag.store(true, Ordering::Relaxed);
                }
                step = job.on_leg_finished(memory, outcome, 1_234, cancel_after_forward);
            }
        }
    }
}

fn url(from: &str, to: &str, query: &str) -> String {
    format!(
        "https://translate.googleapis.com/translate_a/single?client=gtx&sl={}&tl={}&dt=t&q={}",
        from, to, query
    )
}

#[test]
fn translates_there_and_back() {
    let mut memory = TranslationMemory::new(10);
    let (result, urls) = run(
        &mut memory,
        "  Hello  ",
        Some(" en "),
        "ja",
        vec![ok_reply("konnichiwa"), ok_reply("Hi")],
        None,
    );
    let result = result.unwrap();
    assert_eq!(result.original_text, "Hello");
    assert_eq!(result.intermediate_text, "konnichiwa");
    assert_eq!(result.back_translated_text, "Hi");
    assert_eq!(result.source_language, "en");
    assert_eq!(result.intermediate_language, "ja");
    assert_eq!(result.provider_id, "google_unofficial");
    assert_eq!(result.duration_ms, 1_234);
    assert_eq!(urls, vec![url("en", "ja", "Hello"), url("ja", "en", "konnichiwa")]);
    assert_eq!(memory.len(), 2);
}

#[test]
fn refuses_an_empty_text_and_a_bad_intermediate_language() {
    let mut memory = TranslationMemory::new(10);
    let (result, urls) = run(&mut memory, " \n ", Some("en"), "ja", Vec::new(), None);
    assert_eq!(
        result,
        Err(TranslationError::InvalidInput("text cannot be empty".to_string()))
    );
    assert!(urls.is_empty());
    let (result, urls) = run(&mut memory, "Hello", Some("en"), "jpn", Vec::new(), None);
    assert_eq!(
        result,
        Err(TranslationError::InvalidInput("invalid language code: jpn".to_string()))
    );
    assert!(urls.is_empty());
    let (result, _) = run(&mut memory, "", Some("en"), "jpn", Vec::new(), None);
    assert_eq!(
        result,
        Err(TranslationError::InvalidInput("text cannot be empty".to_string()))
    );
}

#[test]
fn refuses_a_bad_source_language_in_the_forward_leg() {
    let mut memory = TranslationMemory::new(10);
    let (result, urls) = run(&mut memory, "Hello", Some("english"), "ja", Vec::new(), None);
    assert_eq!(
        result,
        Err(TranslationError::InvalidInput(
            "invalid language code: english".to_string()
        ))
    );
    assert!(urls.is_empty());
}

#[test]
fn a_failed_forward_leg_ends_the_back_translation() {
    let mut memory = TranslationMemory::new(10);
    let (result, urls) = run(
        &mut memory,
        "Hello",
        Some("en"),
        "ja",
        vec![HttpReply::Response { status: 403, body: String::new() }],
        None,
    );
    assert_eq!(result, Err(TranslationError::Blocked));
    assert_eq!(urls.len(), 1);
}

#[test]
fn a_failed_backward_leg_ends_the_back_translation() {
    let mut memory = TranslationMemory::new(10);
    let (result, urls) = run(
        &mut memory,
        "Hello",
        Some("en"),
        "ja",
        vec![
            ok_reply("konnichiwa"),
            HttpReply::Failed { reason: "down".to_string() },
            HttpReply::Failed { reason: "still down".to_string() },
        ],
        None,
    );
    assert_eq!(result, Err(TranslationError::Network("still down".to_string())));
    assert_eq!(urls.len(), 3);
    assert_eq!(memory.len(), 1);
}

#[test]
fn cancellation_between_the_legs_ends_the_back_translation() {
    let mut memory = TranslationMemory::new(10);
    let flag = AtomicBool::new(false);
    let (result, urls) = run(
        &mut memory,
        "Hello",
        Some("en"),
        "ja",
        vec![ok_reply("konnichiwa"), ok_reply("never asked")],
        Some(&flag),
    );
    assert_eq!(result, Err(TranslationError::Cancelled));
    assert_eq!(urls, vec![url("en", "ja", "Hello")]);
}

#[test]
fn an_empty_intermediate_text_comes_back_empty() {
    let mut memory = TranslationMemory::new(10);
    memory.store_at("Hello", "   ", "en", "ja", "google_unofficial", 1);
    let (result, urls) = run(&mut memory, "Hello", Some("en"), "ja", Vec::new(), None);
    let result = result.unwrap();
    assert_eq!(result.intermediate_text, "   ");
    assert_eq!(result.back_translated_text, "");
    assert!(urls.is_empty());
}

#[test]
fn a_missing_source_language_is_detected_or_assumed() {
    let mut memory = TranslationMemory::new(10);
    for source in [None, Some(""), Some("  ")] {
        let (result, _) = run(
            &mut memory,
            "There is no reason not to learn Esperanto.",
            source,
            "ja",
            vec![ok_reply("a"), ok_reply("b")],
            None,
        );
        let language = result.unwrap().source_language;
        assert_eq!(language.chars().count(), 2, "{}", language);
    }
}

#[test]
fn detection_falls_back_for_blank_text_and_long_codes() {
    let service = TranslationService::new();
    assert_eq!(FALLBACK_LANGUAGE, "en");
    assert_eq!(service.detect_language(""), "en");
    assert_eq!(service.detect_language("  \n"), "en");
    let detected = service.detect_language("Ceci est une phrase en bon fran\u{e7}ais.");
    assert!(detected == "en" || detected.chars().count() == 2);
    assert_eq!(language_from_detection(None), "en");
    assert_eq!(language_from_detection(Some("fra".to_string())), "en");
    assert_eq!(language_from_detection(Some("fr".to_string())), "fr");
    assert_eq!(language_from_detection(Some("f".to_string())), "en");
    assert_eq!(language_from_detection(Some(String::new())), "en");
}

#[test]
fn checks_the_input_of_a_back_translation() {
    assert_eq!(check_back_translation_input(" Hi \n", "ja"), Ok("Hi".to_string()));
    assert_eq!(
        check_back_translation_input("Hi", " ja "),
        Err(TranslationError::InvalidInput("invalid language code:  ja ".to_string()))
    );
    assert_eq!(
        check_back_translation_input(" ", "ja"),
        Err(TranslationError::InvalidInput("text cannot be empty".to_string()))
    );
    assert_eq!(
        check_back_translation_input("Hi", "j"),
        Err(TranslationError::InvalidInput("invalid language code: j".to_string()))
    );
}

#[test]
fn reads_the_named_source_language() {
    assert_eq!(supplied_source_language(None), None);
    assert_eq!(supplied_source_language(Some(" ")), None);
    assert_eq!(supplied_source_language(Some(" fr ")), Some("fr".to_string()));
    assert_eq!(supplied_source_language(Some("french")), Some("french".to_string()));
}

#[test]
fn detection_is_what_the_detector_says_of_the_trimmed_text() {
    let service = TranslationService::new();
    for text in [
        "There is no reason not to learn Esperanto.",
        "  Ceci est une phrase en bon fran\u{e7}ais.\n",
        "\u{3053}\u{3093}\u{306b}\u{3061}\u{306f}\u{4e16}\u{754c}",
        "12345",
        "x",
    ] {
        let answer = whatlang::detect(text.trim()).map(|info| info.lang().code().to_owned());
        assert_eq!(service.detect_language(text), language_from_detection(answer), "{:?}", text);
        assert_eq!(service.detect_language(text), service.detect_language(text));
    }
}

fn forward_job(memory: &mut TranslationMemory) -> translation_fiesta_rust::back_translation::BackTranslation {
    let service = TranslationService::new();
    match service.back_translate(memory, "Hello", Some("en"), "ja", PROVIDER, None) {
        BackTranslationStep::Translate(job, _) => job,
        other => panic!("unexpected step {:?}", other),
    }
}

#[test]
fn a_failed_leg_is_handed_on_whatever_is_observed() {
    let mut memory = TranslationMemory::new(10);
    let job = forward_job(&mut memory);
    let before = memory.stats();
    let step = job.on_leg_finished_observing(
        &mut memory,
        Err(TranslationError::RateLimited),
        5,
        true,
        true,
        true,
        1,
        2,
        3,
        4,
    );
    match step {
        BackTranslationStep::Finished(outcome) => {
            assert_eq!(outcome, Err(TranslationError::RateLimited));
        }
        other => panic!("unexpected step {:?}", other),
    }
    assert_eq!(memory.stats(), before);
}

#[test]
fn cancellation_observed_between_the_legs_ends_the_back_translation() {
    let mut memory = TranslationMemory::new(10);
    let job = forward_job(&mut memory);
    let before = memory.stats();
    let step = job.on_leg_finished_observing(
        &mut memory,
        Ok("konnichiwa".to_string()),
        5,
        true,
        false,
        false,
        1,
        2,
        3,
        4,
    );
    match step {
        BackTranslationStep::Finished(outcome) => {
            assert_eq!(outcome, Err(TranslationError::Cancelled));
        }
        other => panic!("unexpected step {:?}", other),
    }
    assert_eq!(memory.stats(), before);
}

#[test]
fn without_cancellation_the_backward_leg_starts_and_then_the_result_is_composed() {
    let mut memory = TranslationMemory::new(10);
    let job = forward_job(&mut memory);
    let lookups = memory.stats().total_lookups;
    let step = job.on_leg_finished_observing(
        &mut memory,
        Ok("konnichiwa".to_string()),
        5,
        false,
        false,
        false,
        1_000,
        20,
        3,
        4,
    );
    let job = match step {
        BackTranslationStep::Translate(job, TranslationStep::Send(translation)) => {
            assert_eq!(translation.url(), url("ja", "en", "konnichiwa"));
            assert_eq!(translation.attempt(), 1);
            job
        }
        other => panic!("unexpected step {:?}", other),
    };
    assert_eq!(memory.stats().total_lookups, lookups + 1);
    let before = memory.stats();
    let step = job.on_leg_finished_observing(
        &mut memory,
        Ok("Hi".to_string()),
        77,
        true,
        true,
        true,
        9,
        9,
        42,
        1_700_000_000_000,
    );
    match step {
        BackTranslationStep::Finished(Ok(result)) => {
            assert_eq!(result.id, 42);
            assert_eq!(result.created_at, 1_700_000_000_000);
            assert_eq!(result.original_text, "Hello");
            assert_eq!(result.intermediate_text, "konnichiwa");
            assert_eq!(result.back_translated_text, "Hi");
            assert_eq!(result.source_language, "en");
            assert_eq!(result.intermediate_language, "ja");
            assert_eq!(result.provider_id, "google_unofficial");
            assert_eq!(result.duration_ms, 77);
        }
        other => panic!("unexpected step {:?}", other),
    }
    assert_eq!(memory.stats(), before);
}

#[test]
fn the_backward_leg_can_be_cancelled_on_entry() {
    let mut memory = TranslationMemory::new(10);
    let job = forward_job(&mut memory);
    let step = job.on_leg_finished_observing(
        &mut memory,
        Ok("konnichiwa".to_string()),
        5,
        false,
        true,
        false,
        1,
        2,
        3,
        4,
    );
    match step {
        BackTranslationStep::Translate(_, TranslationStep::Finished(outcome)) => {
            assert_eq!(outcome, Err(TranslationError::Cancelled));
        }
        other => panic!("unexpected step {:?}", other),
    }
}
