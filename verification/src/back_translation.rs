//! Back-translation: a text is translated into an intermediate language and
//! the result back into the language of the text.
//!
//! Like a single translation, a back-translation is a state machine. Its
//! driver runs the [`TranslationStep`] of each leg to its end and hands the
//! leg's result to [`BackTranslation::on_leg_finished`].

use vstd::prelude::*;
use core::sync::atomic::AtomicBool;
use crate::cancel::is_cancelled;
use crate::error::{outcome_view, Failure, TranslationError};
use crate::memory::{MemoryView, TranslationMemory};
use crate::models::{BackTranslationResult, BackTranslationView, ProviderId};
use crate::request::{invalid_code_message, is_two_letter_code, validate_language_code};
use crate::retry::RetryPolicy;
use crate::text::{
    chars_of, owned_view, present_text, text_view, trim, trimmed, trimmed_if_present,
};
use crate::translation::{begin_memory, begin_step, StepView, TranslationService, TranslationStep};

verus! {

/// The language that is assumed where none is given and none is detected.
pub const FALLBACK_LANGUAGE: &'static str = "en";

/// The code of the language that `whatlang::detect` finds in `sample`, read
/// with `Info::lang` and `Lang::code`; `None` where it finds none.
pub uninterp spec fn detected_code(sample: Seq<char>) -> Option<Seq<char>>;

/// Calls `whatlang::detect` and reads the detected language's code with
/// `Info::lang` and `Lang::code`. The contract only claims that the answer
/// is a function of the sample: the detector weighs statistics of the text
/// and nothing else, and this crate treats whatever it says as a guess.
#[verifier::external_body]
fn detected_language_code(sample: &str) -> (code: Option<String>)
    ensures
        owned_view(code) == detected_code(sample@),
{
    match whatlang::detect(sample) {
        Some(info) => Some(info.lang().code().to_owned()),
        None => None,
    }
}

/// The language taken from a detection: the detected code where it is two
/// characters long, and the fallback otherwise.
pub open spec fn resolved_language(detected: Option<Seq<char>>) -> Seq<char> {
    match detected {
        Some(code) => if code.len() == 2 {
            code
        } else {
            "en"@
        },
        None => "en"@,
    }
}

/// The language taken from a detection.
pub fn language_from_detection(detected: Option<String>) -> (language: String)
    ensures
        language@ == resolved_language(owned_view(detected)),
{
    match detected {
        Some(code) => {
            if chars_of(code.as_str()).len() == 2 {
                code
            } else {
                FALLBACK_LANGUAGE.to_owned()
            }
        },
        None => FALLBACK_LANGUAGE.to_owned(),
    }
}

/// The input of a back-translation: the trimmed text, unless it is empty or
/// the intermediate language is not a two-letter code.
pub open spec fn checked_input(text: Seq<char>, intermediate_language: Seq<char>) -> Result<
    Seq<char>,
    Failure,
> {
    if trim(text).len() == 0 {
        Err(Failure::InvalidInput("text cannot be empty"@))
    } else if !is_two_letter_code(intermediate_language) {
        Err(Failure::InvalidInput(invalid_code_message(intermediate_language)))
    } else {
        Ok(trim(text))
    }
}

/// The source language that the caller named: the trimmed name, unless there
/// is none or it is blank.
pub open spec fn supplied_language(source_language: Option<Seq<char>>) -> Option<Seq<char>> {
    present_text(source_language)
}

/// The language of `text` as far as the detector can tell: the fallback for
/// a blank text, and otherwise what [`resolved_language`] makes of the
/// detector's answer for the trimmed text.
pub open spec fn detected_language(text: Seq<char>) -> Seq<char> {
    if trim(text).len() == 0 {
        "en"@
    } else {
        resolved_language(detected_code(trim(text)))
    }
}

/// The source language of the back-translation of `input`: the one the
/// caller named, and otherwise the one detected in the input.
pub open spec fn source_for(source_language: Option<Seq<char>>, input: Seq<char>) -> Seq<char> {
    match supplied_language(source_language) {
        Some(name) => name,
        None => detected_language(input),
    }
}

/// The input of a back-translation: the trimmed text, unless it is empty or
/// the intermediate language is not a two-letter code.
pub fn check_back_translation_input(text: &str, intermediate_language: &str) -> (input: Result<
    String,
    TranslationError,
>)
    ensures
        outcome_view(input) == checked_input(text@, intermediate_language@),
{
    let input = trimmed(text);
    if input.as_str().is_empty() {
        return Err(TranslationError::InvalidInput("text cannot be empty".to_owned()));
    }
    match validate_language_code(intermediate_language) {
        Err(error) => Err(error),
        Ok(()) => Ok(input),
    }
}

/// The source language that the caller named, if any.
pub fn supplied_source_language(source_language: Option<&str>) -> (named: Option<String>)
    ensures
        owned_view(named) == supplied_language(text_view(source_language)),
{
    trimmed_if_present(source_language)
}

/// A back-translation that is under way.
#[derive(Debug)]
pub struct BackTranslation {
    service: TranslationService,
    input: String,
    source_language: String,
    intermediate_language: String,
    provider_id: ProviderId,
    /// The result of the forward leg, once there is one.
    intermediate_text: Option<String>,
}

/// The mathematical form of a [`BackTranslation`].
pub ghost struct JobView {
    pub policy: RetryPolicy,
    pub input: Seq<char>,
    pub source_language: Seq<char>,
    pub intermediate_language: Seq<char>,
    pub provider_id: ProviderId,
    /// The result of the forward leg; `None` while that leg is under way.
    pub intermediate_text: Option<Seq<char>>,
}

impl View for BackTranslation {
    type V = JobView;

    closed spec fn view(&self) -> JobView {
        JobView {
            policy: self.service.spec_policy(),
            input: self.input@,
            source_language: self.source_language@,
            intermediate_language: self.intermediate_language@,
            provider_id: self.provider_id,
            intermediate_text: match self.intermediate_text {
                Some(text) => Some(text@),
                None => None,
            },
        }
    }
}

/// What the driver of a back-translation does next.
#[derive(Debug)]
pub enum BackTranslationStep {
    /// Nothing: the back-translation is over, with this result.
    Finished(Result<BackTranslationResult, TranslationError>),
    /// Run the translation step to its end, and hand the result and the time
    /// since the back-translation began to
    /// [`BackTranslation::on_leg_finished`].
    Translate(BackTranslation, TranslationStep),
}

/// The mathematical form of a [`BackTranslationStep`].
pub ghost enum BackStepView {
    Finished(Result<BackTranslationView, Failure>),
    Translate(JobView, StepView),
}

impl View for BackTranslationStep {
    type V = BackStepView;

    open spec fn view(&self) -> BackStepView {
        match self {
            BackTranslationStep::Finished(outcome) => BackStepView::Finished(
                match outcome {
                    Ok(result) => Ok(result@),
                    Err(error) => Err(error@),
                },
            ),
            BackTranslationStep::Translate(job, step) => BackStepView::Translate(job@, step@),
        }
    }
}

/// Whether `step` and the cache `after` are a first step of the
/// back-translation of `text`, made with the cache `before`.
///
/// An unusable input ends the back-translation and leaves the cache alone.
/// Otherwise the forward leg starts: from the source language that the caller
/// named or that is detected in the input, into the intermediate language,
/// as a translation starts for some observations of the cancellation signal
/// and of the clocks. Without a flag, no cancellation is observed.
pub open spec fn back_translation_begins(
    policy: RetryPolicy,
    before: MemoryView,
    after: MemoryView,
    text: Seq<char>,
    source_language: Option<Seq<char>>,
    intermediate_language: Seq<char>,
    provider_id: ProviderId,
    may_cancel: bool,
    step: BackStepView,
) -> bool {
    match checked_input(text, intermediate_language) {
        Err(failure) => step == BackStepView::Finished(Err(failure)) && after == before,
        Ok(input) => exists|
            cancelled_on_entry: bool,
            cancelled_before_request: bool,
            now: i64,
            elapsed_micros: u64,
        |
            #![trigger begin_step(policy, before, input, source_for(source_language, input), intermediate_language, provider_id, cancelled_on_entry, cancelled_before_request), begin_memory(before, input, source_for(source_language, input), intermediate_language, provider_id, cancelled_on_entry, now, elapsed_micros)]
            {
                &&& !may_cancel ==> !cancelled_on_entry && !cancelled_before_request
                &&& step == BackStepView::Translate(
                    JobView {
                        policy,
                        input,
                        source_language: source_for(source_language, input),
                        intermediate_language,
                        provider_id,
                        intermediate_text: None,
                    },
                    begin_step(
                        policy,
                        before,
                        input,
                        source_for(source_language, input),
                        intermediate_language,
                        provider_id,
                        cancelled_on_entry,
                        cancelled_before_request,
                    ),
                )
                &&& after == begin_memory(
                    before,
                    input,
                    source_for(source_language, input),
                    intermediate_language,
                    provider_id,
                    cancelled_on_entry,
                    now,
                    elapsed_micros,
                )
            },
    }
}

/// The step after a leg of `job` ended with `outcome`, `elapsed_ms` after
/// the back-translation began.
///
/// A failed leg ends the back-translation with the leg's failure. After the
/// forward leg, the cancellation signal observed between the legs ends the
/// back-translation as cancelled; otherwise the backward leg starts, from
/// the intermediate language into the source language, on the text that the
/// forward leg produced. After the backward leg the result is composed, with
/// the identifier and the time of creation that were drawn for it.
pub open spec fn leg_step(
    job: JobView,
    before: MemoryView,
    outcome: Result<Seq<char>, Failure>,
    elapsed_ms: u128,
    cancelled_between_legs: bool,
    cancelled_on_entry: bool,
    cancelled_before_request: bool,
    id: u128,
    created_at: i64,
) -> BackStepView {
    match outcome {
        Err(failure) => BackStepView::Finished(Err(failure)),
        Ok(text) => match job.intermediate_text {
            None => if cancelled_between_legs {
                BackStepView::Finished(Err(Failure::Cancelled))
            } else {
                BackStepView::Translate(
                    JobView { intermediate_text: Some(text), ..job },
                    begin_step(
                        job.policy,
                        before,
                        text,
                        job.intermediate_language,
                        job.source_language,
                        job.provider_id,
                        cancelled_on_entry,
                        cancelled_before_request,
                    ),
                )
            },
            Some(intermediate_text) => BackStepView::Finished(
                Ok(
                    BackTranslationView {
                        id,
                        original_text: job.input,
                        intermediate_text,
                        back_translated_text: text,
                        source_language: job.source_language,
                        intermediate_language: job.intermediate_language,
                        provider_id: job.provider_id.name(),
                        created_at,
                        duration_ms: elapsed_ms,
                    },
                ),
            ),
        },
    }
}

/// The cache after a leg of `job` ended with `outcome`: it changes only
/// where the backward leg starts, and then as the start of a translation
/// changes it.
pub open spec fn leg_memory(
    job: JobView,
    before: MemoryView,
    outcome: Result<Seq<char>, Failure>,
    cancelled_between_legs: bool,
    cancelled_on_entry: bool,
    now: i64,
    elapsed_micros: u64,
) -> MemoryView {
    match outcome {
        Err(_) => before,
        Ok(text) => if job.intermediate_text is None && !cancelled_between_legs {
            begin_memory(
                before,
                text,
                job.intermediate_language,
                job.source_language,
                job.provider_id,
                cancelled_on_entry,
                now,
                elapsed_micros,
            )
        } else {
            before
        },
    }
}

/// Whether `step` and the cache `after` follow when a leg of `job` ended
/// with `outcome`, `elapsed_ms` after the back-translation began: they are
/// what [`leg_step`] and [`leg_memory`] give for some observations of the
/// cancellation signal and of the clocks and for some identifier. Without a
/// flag, no cancellation is observed.
pub open spec fn leg_finishes(
    job: JobView,
    before: MemoryView,
    after: MemoryView,
    outcome: Result<Seq<char>, Failure>,
    elapsed_ms: u128,
    may_cancel: bool,
    step: BackStepView,
) -> bool {
    exists|
        cancelled_between_legs: bool,
        cancelled_on_entry: bool,
        cancelled_before_request: bool,
        now: i64,
        elapsed_micros: u64,
        id: u128,
        created_at: i64,
    |
        #![trigger leg_step(job, before, outcome, elapsed_ms, cancelled_between_legs, cancelled_on_entry, cancelled_before_request, id, created_at), leg_memory(job, before, outcome, cancelled_between_legs, cancelled_on_entry, now, elapsed_micros)]
        {
            &&& !may_cancel ==> !cancelled_between_legs && !cancelled_on_entry
                && !cancelled_before_request
            &&& step == leg_step(
                job,
                before,
                outcome,
                elapsed_ms,
                cancelled_between_legs,
                cancelled_on_entry,
                cancelled_before_request,
                id,
                created_at,
            )
            &&& after == leg_memory(
                job,
                before,
                outcome,
                cancelled_between_legs,
                cancelled_on_entry,
                now,
                elapsed_micros,
            )
        }
}

impl TranslationService {
    /// The language of `text` as far as the detector can tell: the fallback
    /// for a blank text, and otherwise what [`resolved_language`] makes of
    /// the detector's answer for the trimmed text.
    pub fn detect_language(&self, text: &str) -> (language: String)
        ensures
            language@ == detected_language(text@),
    {
        let sample = trimmed(text);
        if sample.as_str().is_empty() {
            return FALLBACK_LANGUAGE.to_owned();
        }
        let detected = detected_language_code(sample.as_str());
        language_from_detection(detected)
    }

    /// Starts the back-translation of `text` through `intermediate_language`.
    /// Where `source_language` names no language, the language is detected.
    pub fn back_translate(
        &self,
        memory: &mut TranslationMemory,
        text: &str,
        source_language: Option<&str>,
        intermediate_language: &str,
        provider_id: ProviderId,
        cancel_flag: Option<&AtomicBool>,
    ) -> (step: BackTranslationStep)
        ensures
            back_translation_begins(
                self.spec_policy(),
                old(memory)@,
                final(memory)@,
                text@,
                text_view(source_language),
                intermediate_language@,
                provider_id,
                cancel_flag is Some,
                step@,
            ),
    {
        let ghost before = memory@;
        let ghost named = text_view(source_language);
        let input = match check_back_translation_input(text, intermediate_language) {
            Err(error) => {
                return BackTranslationStep::Finished(Err(error));
            },
            Ok(input) => input,
        };
        let source = match supplied_source_language(source_language) {
            Some(name) => name,
            None => self.detect_language(input.as_str()),
        };
        assert(source@ == source_for(named, input@));
        let inner = self.translate_text(
            memory,
            input.as_str(),
            source.as_str(),
            intermediate_language,
            provider_id,
            cancel_flag,
        );
        proof {
            let policy = self.spec_policy();
            let (c1, c2, now, elapsed) = choose|c1: bool, c2: bool, now: i64, elapsed: u64|
                #![trigger begin_step(policy, before, input@, source@, intermediate_language@, provider_id, c1, c2), begin_memory(before, input@, source@, intermediate_language@, provider_id, c1, now, elapsed)]
                {
                    &&& cancel_flag is None ==> !c1 && !c2
                    &&& inner@ == begin_step(
                        policy,
                        before,
                        input@,
                        source@,
                        intermediate_language@,
                        provider_id,
                        c1,
                        c2,
                    )
                    &&& memory@ == begin_memory(
                        before,
                        input@,
                        source@,
                        intermediate_language@,
                        provider_id,
                        c1,
                        now,
                        elapsed,
                    )
                };
            assert(inner@ == begin_step(
                policy,
                before,
                input@,
                source_for(named, input@),
                intermediate_language@,
                provider_id,
                c1,
                c2,
            ));
            assert(memory@ == begin_memory(
                before,
                input@,
                source_for(named, input@),
                intermediate_language@,
                provider_id,
                c1,
                now,
                elapsed,
            ));
        }
        BackTranslationStep::Translate(
            BackTranslation {
                service: *self,
                input,
                source_language: source,
                intermediate_language: intermediate_language.to_owned(),
                provider_id,
                intermediate_text: None,
            },
            inner,
        )
    }
}

impl BackTranslation {
    /// Goes on after a leg has ended with `outcome`, `elapsed_ms` after the
    /// back-translation began, for given observations of the cancellation
    /// signal and of the clocks and for a given identifier of the result.
    pub fn on_leg_finished_observing(
        self,
        memory: &mut TranslationMemory,
        outcome: Result<String, TranslationError>,
        elapsed_ms: u128,
        cancelled_between_legs: bool,
        cancelled_on_entry: bool,
        cancelled_before_request: bool,
        now: i64,
        elapsed_micros: u64,
        id: u128,
        created_at: i64,
    ) -> (step: BackTranslationStep)
        ensures
            step@ == leg_step(
                self@,
                old(memory)@,
                outcome_view(outcome),
                elapsed_ms,
                cancelled_between_legs,
                cancelled_on_entry,
                cancelled_before_request,
                id,
                created_at,
            ),
            final(memory)@ == leg_memory(
                self@,
                old(memory)@,
                outcome_view(outcome),
                cancelled_between_legs,
                cancelled_on_entry,
                now,
                elapsed_micros,
            ),
    {
        let text = match outcome {
            Err(error) => {
                return BackTranslationStep::Finished(Err(error));
            },
            Ok(text) => text,
        };
        match self.intermediate_text {
            Some(intermediate_text) => BackTranslationStep::Finished(
                Ok(
                    BackTranslationResult::with_identity(
                        id,
                        created_at,
                        self.input,
                        intermediate_text,
                        text,
                        self.source_language,
                        self.intermediate_language,
                        self.provider_id,
                        elapsed_ms,
                    ),
                ),
            ),
            None => {
                if cancelled_between_legs {
                    return BackTranslationStep::Finished(Err(TranslationError::Cancelled));
                }
                let inner = self.service.translate_text_observing(
                    memory,
                    text.as_str(),
                    self.intermediate_language.as_str(),
                    self.source_language.as_str(),
                    self.provider_id,
                    cancelled_on_entry,
                    cancelled_before_request,
                    now,
                    elapsed_micros,
                );
                BackTranslationStep::Translate(
                    BackTranslation {
                        service: self.service,
                        input: self.input,
                        source_language: self.source_language,
                        intermediate_language: self.intermediate_language,
                        provider_id: self.provider_id,
                        intermediate_text: Some(text),
                    },
                    inner,
                )
            },
        }
    }

    /// Goes on after a leg has ended with `outcome`, `elapsed_ms` after the
    /// back-translation began. After the forward leg the cancellation signal
    /// is read once here and then as the start of a translation reads it.
    pub fn on_leg_finished(
        self,
        memory: &mut TranslationMemory,
        outcome: Result<String, TranslationError>,
        elapsed_ms: u128,
        cancel_flag: Option<&AtomicBool>,
    ) -> (step: BackTranslationStep)
        ensures
            leg_finishes(
                self@,
                old(memory)@,
                final(memory)@,
                outcome_view(outcome),
                elapsed_ms,
                cancel_flag is Some,
                step@,
            ),
    {
        let ghost before = memory@;
        let ghost job = self@;
        let ghost given = outcome_view(outcome);
        let text = match outcome {
            Err(error) => {
                assert(BackStepView::Finished(Err(error@)) == leg_step(
                    job,
                    before,
                    given,
                    elapsed_ms,
                    false,
                    false,
                    false,
                    0,
                    0,
                ));
                assert(before == leg_memory(job, before, given, false, false, 0, 0));
                return BackTranslationStep::Finished(Err(error));
            },
            Ok(text) => text,
        };
        match self.intermediate_text {
            Some(intermediate_text) => {
                let result = BackTranslationResult::new(
                    self.input,
                    intermediate_text,
                    text,
                    self.source_language,
                    self.intermediate_language,
                    self.provider_id,
                    elapsed_ms,
                );
                assert(BackStepView::Finished(Ok(result@)) == leg_step(
                    job,
                    before,
                    given,
                    elapsed_ms,
                    false,
                    false,
                    false,
                    result.id,
                    result.created_at,
                ));
                assert(before == leg_memory(job, before, given, false, false, 0, 0));
                BackTranslationStep::Finished(Ok(result))
            },
            None => {
                if is_cancelled(cancel_flag) {
                    assert(BackStepView::Finished(Err(Failure::Cancelled)) == leg_step(
                        job,
                        before,
                        given,
                        elapsed_ms,
                        true,
                        false,
                        false,
                        0,
                        0,
                    ));
                    assert(before == leg_memory(job, before, given, true, false, 0, 0));
                    return BackTranslationStep::Finished(Err(TranslationError::Cancelled));
                }
                let inner = self.service.translate_text(
                    memory,
                    text.as_str(),
                    self.intermediate_language.as_str(),
                    self.source_language.as_str(),
                    self.provider_id,
                    cancel_flag,
                );
                let next = BackTranslation {
                    service: self.service,
                    input: self.input,
                    source_language: self.source_language,
                    intermediate_language: self.intermediate_language,
                    provider_id: self.provider_id,
                    intermediate_text: Some(text),
                };
                proof {
                    let (c1, c2, now, elapsed) = choose|c1: bool, c2: bool, now: i64, elapsed: u64|
                        #![trigger begin_step(job.policy, before, text@, job.intermediate_language, job.source_language, job.provider_id, c1, c2), begin_memory(before, text@, job.intermediate_language, job.source_language, job.provider_id, c1, now, elapsed)]
                        {
                            &&& cancel_flag is None ==> !c1 && !c2
                            &&& inner@ == begin_step(
                                job.policy,
                                before,
                                text@,
                                job.intermediate_language,
                                job.source_language,
                                job.provider_id,
                                c1,
                                c2,
                            )
                            &&& memory@ == begin_memory(
                                before,
                                text@,
                                job.intermediate_language,
                                job.source_language,
                                job.provider_id,
                                c1,
                                now,
                                elapsed,
                            )
                        };
                    assert(BackStepView::Translate(next@, inner@) == leg_step(
                        job,
                        before,
                        given,
                        elapsed_ms,
                        false,
                        c1,
                        c2,
                        0,
                        0,
                    ));
                    assert(memory@ == leg_memory(job, before, given, false, c1, now, elapsed));
                }
                BackTranslationStep::Translate(next, inner)
            },
        }
    }
}

} // verus!
