//! The translation client as a state machine.
//!
//! The client itself sends nothing and never sleeps. It says what to do next,
//! one [`TranslationStep`] at a time, and whoever drives it performs the step
//! and reports back: [`TranslationService::translate_text`] starts,
//! [`Translation::on_reply`] takes the endpoint's reply, and
//! [`Translation::after_sleep`] is called after every tick of a wait.

use vstd::prelude::*;
use core::sync::atomic::AtomicBool;
use crate::cancel::is_cancelled;
use crate::error::{outcome_view, Failure};
pub use crate::error::TranslationError;
pub use crate::response::parse_unofficial_google_response;
use crate::memory::{key_of, MemoryView, TranslationMemory};
use crate::models::ProviderId;
use crate::request::{
    invalid_code_message, is_two_letter_code, request_url, request_url_of, validate_language_code,
};
use crate::response::{classified, handle_response, json_parse};
use crate::retry::{
    backoff_delay, Decision, RetryDecision, RetryPolicy, MAX_JITTER_MS, MIN_JITTER_MS,
};
use crate::text::{is_blank, trim};

verus! {

/// How long one tick of a wait lasts. The cancellation signal is read between
/// ticks, so a cancelled wait ends within this time.
pub const SLEEP_TICK_MS: u64 = 40;

/// What came back for one request.
#[derive(Debug)]
pub enum HttpReply {
    /// The endpoint answered.
    Response { status: u16, body: String },
    /// The request did not get through, or the answer could not be read.
    Failed { reason: String },
}

/// The mathematical form of an [`HttpReply`].
pub ghost enum ReplyView {
    Response { status: u16, body: Seq<char> },
    Failed { reason: Seq<char> },
}

impl View for HttpReply {
    type V = ReplyView;

    open spec fn view(&self) -> ReplyView {
        match self {
            HttpReply::Response { status, body } => ReplyView::Response {
                status: *status,
                body: body@,
            },
            HttpReply::Failed { reason } => ReplyView::Failed { reason: reason@ },
        }
    }
}

/// What a reply amounts to: the translated text or the kind of failure.
pub open spec fn reply_outcome(reply: ReplyView) -> Result<Seq<char>, Failure> {
    match reply {
        ReplyView::Response { status, body } => classified(status, body, json_parse(body)),
        ReplyView::Failed { reason } => Err(Failure::Network(reason)),
    }
}

/// Classifies a reply: the translated text or the kind of failure.
pub fn classify_reply(reply: HttpReply) -> (out: Result<String, TranslationError>)
    ensures
        outcome_view(out) == reply_outcome(reply@),
{
    match reply {
        HttpReply::Response { status, body } => handle_response(status, body.as_str()),
        HttpReply::Failed { reason } => Err(TranslationError::Network(reason)),
    }
}

/// A translation whose request is about to be sent or was sent: what is
/// translated, with which address, and which attempt is the current one.
#[derive(Debug)]
pub struct Translation {
    text: String,
    source_language: String,
    target_language: String,
    provider_id: ProviderId,
    url: String,
    attempt: usize,
    policy: RetryPolicy,
}

/// A translation that waits before its next attempt.
#[derive(Debug)]
pub struct Backoff {
    translation: Translation,
    delay_ms: u64,
}

/// The mathematical form of a [`Translation`].
pub ghost struct TranslationView {
    pub text: Seq<char>,
    pub source_language: Seq<char>,
    pub target_language: Seq<char>,
    pub provider_id: ProviderId,
    pub url: Seq<char>,
    /// The number of the current attempt, counted from 1.
    pub attempt: usize,
    pub policy: RetryPolicy,
}

/// The mathematical form of a [`Backoff`].
pub ghost struct BackoffView {
    /// The translation as it was when its last attempt failed.
    pub translation: TranslationView,
    /// The length of the wait in milliseconds.
    pub delay_ms: u64,
}

impl BackoffView {
    /// What holds of every wait: another attempt is allowed after it.
    pub open spec fn well_formed(self) -> bool {
        &&& self.translation.well_formed()
        &&& self.translation.attempt < self.translation.policy.spec_max_retries()
    }
}

impl View for Backoff {
    type V = BackoffView;

    closed spec fn view(&self) -> BackoffView {
        BackoffView { translation: self.translation@, delay_ms: self.delay_ms }
    }
}

impl TranslationView {
    /// What holds of every translation under way: its address is that of its
    /// request, and its attempt is one the policy allows.
    pub open spec fn well_formed(self) -> bool {
        &&& self.url == request_url_of(self.source_language, self.target_language, self.text)
        &&& 1 <= self.attempt <= self.policy.spec_max_retries()
    }

    /// The key under which the translation is cached.
    pub open spec fn key(self) -> crate::models::CacheKey {
        key_of(self.text, self.source_language, self.target_language, self.provider_id.name())
    }
}

impl View for Translation {
    type V = TranslationView;

    closed spec fn view(&self) -> TranslationView {
        TranslationView {
            text: self.text@,
            source_language: self.source_language@,
            target_language: self.target_language@,
            provider_id: self.provider_id,
            url: self.url@,
            attempt: self.attempt,
            policy: self.policy,
        }
    }
}

/// What the driver of a translation does next.
#[derive(Debug)]
pub enum TranslationStep {
    /// Nothing: the translation is over, with this result.
    Finished(Result<String, TranslationError>),
    /// Send the request to the translation's address and hand the reply to
    /// [`Translation::on_reply`].
    Send(Translation),
    /// Sleep for the given number of milliseconds, then hand the time waited
    /// since the wait began to [`Backoff::after_sleep`].
    Sleep(Backoff, u64),
}

/// The mathematical form of a [`TranslationStep`].
pub ghost enum StepView {
    Finished(Result<Seq<char>, Failure>),
    Send(TranslationView),
    Sleep(BackoffView, u64),
}

impl View for TranslationStep {
    type V = StepView;

    open spec fn view(&self) -> StepView {
        match self {
            TranslationStep::Finished(outcome) => StepView::Finished(outcome_view(*outcome)),
            TranslationStep::Send(translation) => StepView::Send(translation@),
            TranslationStep::Sleep(backoff, tick_ms) => StepView::Sleep(backoff@, *tick_ms),
        }
    }
}

/// What is decided before anything is looked up or sent: a blank text
/// translates to the empty text, and a language code that is not two letters
/// is refused, the source code first. `None` where the request goes on.
pub open spec fn precheck(
    text: Seq<char>,
    source_language: Seq<char>,
    target_language: Seq<char>,
) -> Option<Result<Seq<char>, Failure>> {
    if trim(text).len() == 0 {
        Some(Ok(Seq::empty()))
    } else if !is_two_letter_code(source_language) {
        Some(Err(Failure::InvalidInput(invalid_code_message(source_language))))
    } else if !is_two_letter_code(target_language) {
        Some(Err(Failure::InvalidInput(invalid_code_message(target_language))))
    } else {
        None
    }
}

/// The first attempt at a request.
pub open spec fn first_attempt(
    policy: RetryPolicy,
    text: Seq<char>,
    source_language: Seq<char>,
    target_language: Seq<char>,
    provider_id: ProviderId,
) -> TranslationView {
    TranslationView {
        text,
        source_language,
        target_language,
        provider_id,
        url: request_url_of(source_language, target_language, text),
        attempt: 1,
        policy,
    }
}

/// The step at the start of an attempt: the request is sent unless the
/// cancellation signal is observed.
pub open spec fn attempt_step(translation: TranslationView, cancelled: bool) -> StepView {
    if cancelled {
        StepView::Finished(Err(Failure::Cancelled))
    } else {
        StepView::Send(translation)
    }
}

/// The step while a wait is under way and `waited_ms` of it have passed. As
/// long as the wait is not over, the cancellation signal ends the translation
/// and otherwise another tick is slept. Once it is over, the next attempt
/// starts.
pub open spec fn wait_step(backoff: BackoffView, waited_ms: u64, cancelled: bool) -> StepView {
    if waited_ms < backoff.delay_ms {
        if cancelled {
            StepView::Finished(Err(Failure::Cancelled))
        } else {
            StepView::Sleep(backoff, SLEEP_TICK_MS)
        }
    } else {
        attempt_step(
            TranslationView {
                attempt: (backoff.translation.attempt + 1) as usize,
                ..backoff.translation
            },
            cancelled,
        )
    }
}

/// The step after a reply: a translated text and a failure that is not
/// retried end the translation, and a failure that is retried starts a wait.
pub open spec fn reply_step(
    translation: TranslationView,
    reply: ReplyView,
    jitter_ms: u64,
    cancelled: bool,
) -> StepView {
    match translation.policy.decision(translation.attempt, reply_outcome(reply), jitter_ms) {
        Decision::Deliver(text) => StepView::Finished(Ok(text)),
        Decision::GiveUp(failure) => StepView::Finished(Err(failure)),
        Decision::RetryAfter { delay_ms } => wait_step(
            BackoffView { translation, delay_ms: delay_ms as u64 },
            0,
            cancelled,
        ),
    }
}

/// The cache after a reply that came at time `now`: a translated text is
/// stored, and nothing else changes the cache.
pub open spec fn reply_memory(
    memory: MemoryView,
    translation: TranslationView,
    reply: ReplyView,
    now: i64,
) -> MemoryView {
    match reply_outcome(reply) {
        Ok(text) => memory.after_store(translation.key(), text, now),
        Err(_) => memory,
    }
}

/// The first step of a translation. In this order: the cancellation signal
/// observed on entry ends it; a blank text and an unusable language code end
/// it; a cached text ends it; the signal observed before the first request
/// ends it; and otherwise the first request is sent.
pub open spec fn begin_step(
    policy: RetryPolicy,
    memory: MemoryView,
    text: Seq<char>,
    source_language: Seq<char>,
    target_language: Seq<char>,
    provider_id: ProviderId,
    cancelled_on_entry: bool,
    cancelled_before_request: bool,
) -> StepView {
    if cancelled_on_entry {
        StepView::Finished(Err(Failure::Cancelled))
    } else {
        match precheck(text, source_language, target_language) {
            Some(outcome) => StepView::Finished(outcome),
            None => match memory.cached(
                key_of(text, source_language, target_language, provider_id.name()),
            ) {
                Some(cached) => StepView::Finished(Ok(cached)),
                None => attempt_step(
                    first_attempt(policy, text, source_language, target_language, provider_id),
                    cancelled_before_request,
                ),
            },
        }
    }
}

/// The cache after the first step of a translation: the lookup is counted
/// where the request got as far as the cache.
pub open spec fn begin_memory(
    memory: MemoryView,
    text: Seq<char>,
    source_language: Seq<char>,
    target_language: Seq<char>,
    provider_id: ProviderId,
    cancelled_on_entry: bool,
    now: i64,
    elapsed_micros: u64,
) -> MemoryView {
    if cancelled_on_entry || precheck(text, source_language, target_language) is Some {
        memory
    } else {
        memory.after_lookup(
            key_of(text, source_language, target_language, provider_id.name()),
            now,
            elapsed_micros,
        )
    }
}

/// A translation starts within the policy's limit: whatever the first step
/// of a translation is, a request that it sends is attempt number 1 of a
/// well-formed translation, and it never starts with a wait.
pub proof fn lemma_first_step_is_within_limit(
    policy: RetryPolicy,
    memory: MemoryView,
    text: Seq<char>,
    source_language: Seq<char>,
    target_language: Seq<char>,
    provider_id: ProviderId,
    cancelled_on_entry: bool,
    cancelled_before_request: bool,
)
    requires
        policy.spec_max_retries() >= 1,
    ensures
        match begin_step(
            policy,
            memory,
            text,
            source_language,
            target_language,
            provider_id,
            cancelled_on_entry,
            cancelled_before_request,
        ) {
            StepView::Finished(_) => true,
            StepView::Send(translation) => translation.well_formed() && translation.attempt == 1
                && !cancelled_on_entry && !cancelled_before_request && precheck(
                text,
                source_language,
                target_language,
            ) is None,
            StepView::Sleep(_, _) => false,
        },
{
}

/// A failure that is not transient ends the translation at once, with that
/// failure: a block and an unusable reply are never followed by a wait or by
/// another request, and they leave the cache as it is.
pub proof fn lemma_permanent_failure_ends_translation(
    translation: TranslationView,
    memory: MemoryView,
    reply: ReplyView,
    jitter_ms: u64,
    cancelled: bool,
    now: i64,
)
    requires
        reply_outcome(reply) is Err,
        !reply_outcome(reply)->Err_0.is_transient(),
    ensures
        reply_step(translation, reply, jitter_ms, cancelled) == StepView::Finished(
            Err(reply_outcome(reply)->Err_0),
        ),
        reply_memory(memory, translation, reply, now) == memory,
{
}

/// Attempts stay within the policy's limit, and waits within the cap. After a
/// reply to attempt number `n` of a well-formed translation, the machine
/// either ends, or starts a wait that is no longer than the cap and is
/// followed by attempt `n + 1`, which the policy allows. A transient failure
/// of the last allowed attempt ends the translation with that failure.
pub proof fn lemma_attempts_and_waits_bounded(
    translation: TranslationView,
    reply: ReplyView,
    jitter_ms: u64,
    cancelled: bool,
    waited_ms: u64,
    cancelled_later: bool,
)
    requires
        translation.well_formed(),
        MIN_JITTER_MS <= jitter_ms <= MAX_JITTER_MS,
    ensures
        !(reply_step(translation, reply, jitter_ms, cancelled) is Send),
        reply_step(translation, reply, jitter_ms, cancelled) matches StepView::Sleep(backoff, tick_ms)
            ==> {
            &&& backoff.well_formed()
            &&& backoff.translation == translation
            &&& backoff.delay_ms == backoff_delay(
                translation.policy.spec_base_delay_ms(),
                translation.attempt,
                jitter_ms,
            )
            &&& backoff.delay_ms <= crate::retry::MAX_DELAY_MS
            &&& tick_ms == SLEEP_TICK_MS
            &&& reply_outcome(reply) is Err
            &&& reply_outcome(reply)->Err_0.is_transient()
            &&& match wait_step(backoff, waited_ms, cancelled_later) {
                StepView::Finished(outcome) => outcome == Err::<Seq<char>, Failure>(
                    Failure::Cancelled,
                ),
                StepView::Send(next) => next.well_formed() && next.attempt == translation.attempt
                    + 1,
                StepView::Sleep(same, _) => same == backoff,
            }
        },
        translation.attempt == translation.policy.spec_max_retries() ==> reply_step(
            translation,
            reply,
            jitter_ms,
            cancelled,
        ) == StepView::Finished(reply_outcome(reply)),
{
    crate::retry::lemma_backoff_bounded_and_growing(
        translation.policy.spec_base_delay_ms(),
        translation.attempt,
        translation.attempt,
        jitter_ms,
    );
    crate::retry::lemma_backoff_at_least_jitter(
        translation.policy.spec_base_delay_ms(),
        translation.attempt,
        jitter_ms,
    );
}

/// Decides what precedes the cache and the network.
pub fn check_request(text: &str, source_language: &str, target_language: &str) -> (decided: Option<
    Result<String, TranslationError>,
>)
    ensures
        match decided {
            Some(outcome) => Some(outcome_view(outcome)),
            None => None,
        } == precheck(text@, source_language@, target_language@),
{
    if is_blank(text) {
        return Some(Ok(String::new()));
    }
    match validate_language_code(source_language) {
        Err(error) => {
            return Some(Err(error));
        },
        Ok(()) => {},
    }
    match validate_language_code(target_language) {
        Err(error) => {
            return Some(Err(error));
        },
        Ok(()) => {},
    }
    None
}

/// The translation client: the retry policy it applies.
#[derive(Debug, Clone, Copy)]
pub struct TranslationService {
    policy: RetryPolicy,
}

impl TranslationService {
    /// The client's retry policy.
    pub closed spec fn spec_policy(&self) -> RetryPolicy {
        self.policy
    }

    /// A client with the default retry policy.
    pub fn new() -> (service: Self)
        ensures
            service.spec_policy().spec_max_retries() == crate::retry::DEFAULT_MAX_RETRIES,
            service.spec_policy().spec_base_delay_ms() == crate::retry::DEFAULT_BASE_DELAY_MS,
    {
        TranslationService { policy: RetryPolicy::default() }
    }

    /// The client with another retry policy. At least one attempt is always
    /// made, and the base delay is at least 50 milliseconds.
    pub fn with_retry_policy(self, max_retries: usize, base_retry_delay_ms: u64) -> (service: Self)
        ensures
            service.spec_policy().spec_max_retries() == if max_retries >= 1 {
                max_retries
            } else {
                1
            },
            service.spec_policy().spec_base_delay_ms() == if base_retry_delay_ms
                >= crate::retry::MIN_BASE_DELAY_MS {
                base_retry_delay_ms
            } else {
                crate::retry::MIN_BASE_DELAY_MS
            },
    {
        TranslationService { policy: RetryPolicy::new(max_retries, base_retry_delay_ms) }
    }

    /// The client's retry policy.
    #[verifier::when_used_as_spec(spec_policy)]
    pub fn policy(&self) -> (policy: RetryPolicy)
        ensures
            policy == self.spec_policy(),
    {
        self.policy
    }

    /// The wait after attempt number `attempt`, with a freshly drawn jitter.
    pub fn retry_delay(&self, attempt: usize) -> (delay_ms: u64)
        ensures
            exists|jitter_ms: u64|
                MIN_JITTER_MS <= jitter_ms <= MAX_JITTER_MS && delay_ms == #[trigger] backoff_delay(
                    self.spec_policy().spec_base_delay_ms(),
                    attempt,
                    jitter_ms,
                ),
            delay_ms <= crate::retry::MAX_DELAY_MS,
    {
        let delay_ms = self.policy.retry_delay(attempt);
        proof {
            let jitter_ms = choose|jitter_ms: u64|
                MIN_JITTER_MS <= jitter_ms <= MAX_JITTER_MS && delay_ms == #[trigger] backoff_delay(
                    self.policy.spec_base_delay_ms(),
                    attempt,
                    jitter_ms,
                );
            assert(delay_ms == backoff_delay(
                self.spec_policy().spec_base_delay_ms(),
                attempt,
                jitter_ms,
            ));
        }
        delay_ms
    }

    /// Starts a translation, for given observations of the cancellation
    /// signal and of the clocks.
    pub fn translate_text_observing(
        &self,
        memory: &mut TranslationMemory,
        text: &str,
        source_language: &str,
        target_language: &str,
        provider_id: ProviderId,
        cancelled_on_entry: bool,
        cancelled_before_request: bool,
        now: i64,
        elapsed_micros: u64,
    ) -> (step: TranslationStep)
        ensures
            step@ == begin_step(
                self.spec_policy(),
                old(memory)@,
                text@,
                source_language@,
                target_language@,
                provider_id,
                cancelled_on_entry,
                cancelled_before_request,
            ),
            final(memory)@ == begin_memory(
                old(memory)@,
                text@,
                source_language@,
                target_language@,
                provider_id,
                cancelled_on_entry,
                now,
                elapsed_micros,
            ),
    {
        if cancelled_on_entry {
            return TranslationStep::Finished(Err(TranslationError::Cancelled));
        }
        match check_request(text, source_language, target_language) {
            Some(outcome) => {
                return TranslationStep::Finished(outcome);
            },
            None => {},
        }
        let cached = memory.lookup_at(
            text,
            source_language,
            target_language,
            provider_id.as_str(),
            now,
            elapsed_micros,
        );
        match cached {
            Some(cached) => TranslationStep::Finished(Ok(cached)),
            None => self.first_attempt(
                text,
                source_language,
                target_language,
                provider_id,
            ).start_attempt(cancelled_before_request),
        }
    }

    /// Starts a translation. The cancellation signal is read on entry and
    /// again before the first request, and the cache reads the clocks.
    pub fn translate_text(
        &self,
        memory: &mut TranslationMemory,
        text: &str,
        source_language: &str,
        target_language: &str,
        provider_id: ProviderId,
        cancel_flag: Option<&AtomicBool>,
    ) -> (step: TranslationStep)
        ensures
            exists|
                cancelled_on_entry: bool,
                cancelled_before_request: bool,
                now: i64,
                elapsed_micros: u64,
            |
                #![trigger begin_step(self.spec_policy(), old(memory)@, text@, source_language@, target_language@, provider_id, cancelled_on_entry, cancelled_before_request), begin_memory(old(memory)@, text@, source_language@, target_language@, provider_id, cancelled_on_entry, now, elapsed_micros)]
                {
                    &&& cancel_flag is None ==> !cancelled_on_entry && !cancelled_before_request
                    &&& step@ == begin_step(
                        self.spec_policy(),
                        old(memory)@,
                        text@,
                        source_language@,
                        target_language@,
                        provider_id,
                        cancelled_on_entry,
                        cancelled_before_request,
                    )
                    &&& final(memory)@ == begin_memory(
                        old(memory)@,
                        text@,
                        source_language@,
                        target_language@,
                        provider_id,
                        cancelled_on_entry,
                        now,
                        elapsed_micros,
                    )
                },
    {
        let ghost before = memory@;
        let ghost policy = self.spec_policy();
        if is_cancelled(cancel_flag) {
            assert(begin_step(
                policy,
                before,
                text@,
                source_language@,
                target_language@,
                provider_id,
                true,
                false,
            ) == StepView::Finished(Err(Failure::Cancelled)));
            assert(memory@ == begin_memory(
                before,
                text@,
                source_language@,
                target_language@,
                provider_id,
                true,
                0,
                0,
            ));
            return TranslationStep::Finished(Err(TranslationError::Cancelled));
        }
        match check_request(text, source_language, target_language) {
            Some(outcome) => {
                assert(StepView::Finished(outcome_view(outcome)) == begin_step(
                    policy,
                    before,
                    text@,
                    source_language@,
                    target_language@,
                    provider_id,
                    false,
                    false,
                ));
                assert(memory@ == begin_memory(
                    before,
                    text@,
                    source_language@,
                    target_language@,
                    provider_id,
                    false,
                    0,
                    0,
                ));
                return TranslationStep::Finished(outcome);
            },
            None => {},
        }
        let cached = memory.lookup(text, source_language, target_language, provider_id.as_str());
        let ghost key = key_of(text@, source_language@, target_language@, provider_id.name());
        let ghost (now, elapsed_micros) = choose|now: i64, elapsed_micros: u64|
            memory@ == #[trigger] before.after_lookup(key, now, elapsed_micros);
        assert(memory@ == begin_memory(
            before,
            text@,
            source_language@,
            target_language@,
            provider_id,
            false,
            now,
            elapsed_micros,
        ));
        match cached {
            Some(cached) => {
                assert(StepView::Finished(Ok(cached@)) == begin_step(
                    policy,
                    before,
                    text@,
                    source_language@,
                    target_language@,
                    provider_id,
                    false,
                    false,
                ));
                TranslationStep::Finished(Ok(cached))
            },
            None => {
                let cancelled = is_cancelled(cancel_flag);
                let step = self.first_attempt(
                    text,
                    source_language,
                    target_language,
                    provider_id,
                ).start_attempt(cancelled);
                assert(step@ == begin_step(
                    policy,
                    before,
                    text@,
                    source_language@,
                    target_language@,
                    provider_id,
                    false,
                    cancelled,
                ));
                step
            },
        }
    }

    /// The first attempt at a request.
    fn first_attempt(
        &self,
        text: &str,
        source_language: &str,
        target_language: &str,
        provider_id: ProviderId,
    ) -> (translation: Translation)
        ensures
            translation@ == first_attempt(
                self.spec_policy(),
                text@,
                source_language@,
                target_language@,
                provider_id,
            ),
    {
        let allowed = self.policy.max_retries();
        assert(1 <= allowed);
        Translation {
            text: text.to_owned(),
            source_language: source_language.to_owned(),
            target_language: target_language.to_owned(),
            provider_id,
            url: request_url(source_language, target_language, text),
            attempt: 1,
            policy: self.policy,
        }
    }
}

impl Translation {
    #[verifier::type_invariant]
    closed spec fn is_consistent(&self) -> bool {
        self@.well_formed()
    }

    /// The address of the request.
    pub fn url(&self) -> (url: &str)
        ensures
            url@ == self@.url,
            self@.well_formed(),
    {
        proof {
            use_type_invariant(self);
        }
        self.url.as_str()
    }

    /// The number of the current attempt, counted from 1.
    pub fn attempt(&self) -> (attempt: usize)
        ensures
            attempt == self@.attempt,
            1 <= attempt <= self@.policy.spec_max_retries(),
    {
        proof {
            use_type_invariant(self);
        }
        self.attempt
    }

    /// Takes the reply to the current attempt, for given observations of the
    /// jitter, of the cancellation signal and of the clock. A translated text
    /// is stored in the cache and ends the translation; so does a failure
    /// that is not retried; any other failure starts a wait.
    pub fn on_reply_observing(
        self,
        memory: &mut TranslationMemory,
        reply: HttpReply,
        jitter_ms: u64,
        cancelled: bool,
        now: i64,
    ) -> (step: TranslationStep)
        ensures
            step@ == reply_step(self@, reply@, jitter_ms, cancelled),
            final(memory)@ == reply_memory(old(memory)@, self@, reply@, now),
    {
        proof {
            use_type_invariant(&self);
        }
        let outcome = classify_reply(reply);
        match &outcome {
            Ok(text) => {
                memory.store_at(
                    self.text.as_str(),
                    text.as_str(),
                    self.source_language.as_str(),
                    self.target_language.as_str(),
                    self.provider_id.as_str(),
                    now,
                );
            },
            Err(_) => {},
        }
        match self.policy.decide_with_jitter(self.attempt, outcome, jitter_ms) {
            RetryDecision::Deliver(text) => TranslationStep::Finished(Ok(text)),
            RetryDecision::GiveUp(error) => TranslationStep::Finished(Err(error)),
            RetryDecision::RetryAfter { delay_ms } => {
                let backoff = Backoff { translation: self, delay_ms };
                backoff.after_sleep_observing(0, cancelled)
            },
        }
    }

    /// Takes the reply to the current attempt. The jitter of a wait is drawn
    /// here, the cancellation signal is read once where a wait starts, and
    /// the cache reads the clock.
    pub fn on_reply(
        self,
        memory: &mut TranslationMemory,
        reply: HttpReply,
        cancel_flag: Option<&AtomicBool>,
    ) -> (step: TranslationStep)
        ensures
            exists|jitter_ms: u64, cancelled: bool, now: i64|
                #![trigger reply_step(self@, reply@, jitter_ms, cancelled), reply_memory(old(memory)@, self@, reply@, now)]
                {
                    &&& MIN_JITTER_MS <= jitter_ms <= MAX_JITTER_MS
                    &&& cancel_flag is None ==> !cancelled
                    &&& step@ == reply_step(self@, reply@, jitter_ms, cancelled)
                    &&& final(memory)@ == reply_memory(old(memory)@, self@, reply@, now)
                },
    {
        proof {
            use_type_invariant(&self);
        }
        let ghost before = memory@;
        let ghost this = self@;
        let ghost given = reply@;
        let ghost mut now: i64 = 0;
        let outcome = classify_reply(reply);
        match &outcome {
            Ok(text) => {
                memory.store(
                    self.text.as_str(),
                    text.as_str(),
                    self.source_language.as_str(),
                    self.target_language.as_str(),
                    self.provider_id.as_str(),
                );
                proof {
                    now = choose|now: i64|
                        memory@ == #[trigger] before.after_store(this.key(), text@, now);
                }
            },
            Err(_) => {},
        }
        assert(memory@ == reply_memory(before, this, given, now));
        let ghost classified = outcome_view(outcome);
        let decision = self.policy.decide(self.attempt, outcome);
        let ghost jitter_ms = choose|jitter_ms: u64|
            MIN_JITTER_MS <= jitter_ms <= MAX_JITTER_MS && decision@ == #[trigger] this.policy.decision(
                this.attempt,
                classified,
                jitter_ms,
            );
        match decision {
            RetryDecision::Deliver(text) => {
                assert(StepView::Finished(Ok(text@)) == reply_step(this, given, jitter_ms, false));
                TranslationStep::Finished(Ok(text))
            },
            RetryDecision::GiveUp(error) => {
                assert(StepView::Finished(Err(error@)) == reply_step(this, given, jitter_ms, false));
                TranslationStep::Finished(Err(error))
            },
            RetryDecision::RetryAfter { delay_ms } => {
                let backoff = Backoff { translation: self, delay_ms };
                let ghost waiting = backoff@;
                let step = backoff.after_sleep(0, cancel_flag);
                proof {
                    let cancelled = choose|cancelled: bool|
                        (cancel_flag is None ==> !cancelled) && step@ == #[trigger] wait_step(
                            waiting,
                            0,
                            cancelled,
                        );
                    assert(step@ == reply_step(this, given, jitter_ms, cancelled));
                }
                step
            },
        }
    }

    /// The step at the start of an attempt.
    fn start_attempt(self, cancelled: bool) -> (step: TranslationStep)
        ensures
            step@ == attempt_step(self@, cancelled),
    {
        if cancelled {
            TranslationStep::Finished(Err(TranslationError::Cancelled))
        } else {
            TranslationStep::Send(self)
        }
    }

}

impl Backoff {
    #[verifier::type_invariant]
    closed spec fn is_consistent(&self) -> bool {
        self@.well_formed()
    }

    /// The length of the wait in milliseconds.
    pub fn delay_ms(&self) -> (delay_ms: u64)
        ensures
            delay_ms == self@.delay_ms,
    {
        self.delay_ms
    }

    /// Goes on after a tick of the wait, of which `waited_ms` have passed,
    /// for a given observation of the cancellation signal.
    pub fn after_sleep_observing(self, waited_ms: u64, cancelled: bool) -> (step: TranslationStep)
        ensures
            step@ == wait_step(self@, waited_ms, cancelled),
    {
        proof {
            use_type_invariant(&self);
            use_type_invariant(&self.translation);
        }
        if waited_ms < self.delay_ms {
            if cancelled {
                TranslationStep::Finished(Err(TranslationError::Cancelled))
            } else {
                TranslationStep::Sleep(self, SLEEP_TICK_MS)
            }
        } else {
            let next = Translation {
                text: self.translation.text,
                source_language: self.translation.source_language,
                target_language: self.translation.target_language,
                provider_id: self.translation.provider_id,
                url: self.translation.url,
                attempt: self.translation.attempt + 1,
                policy: self.translation.policy,
            };
            next.start_attempt(cancelled)
        }
    }

    /// Goes on after a tick of the wait, of which `waited_ms` have passed.
    /// The cancellation signal is read once.
    pub fn after_sleep(self, waited_ms: u64, cancel_flag: Option<&AtomicBool>) -> (step:
        TranslationStep)
        ensures
            exists|cancelled: bool|
                (cancel_flag is None ==> !cancelled) && step@ == #[trigger] wait_step(
                    self@,
                    waited_ms,
                    cancelled,
                ),
    {
        let cancelled = is_cancelled(cancel_flag);
        let ghost before = self@;
        let step = self.after_sleep_observing(waited_ms, cancelled);
        assert(step@ == wait_step(before, waited_ms, cancelled));
        step
    }
}

} // verus!
