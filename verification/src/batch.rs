//! The batch coordinator: files are processed strictly in the order given,
//! one at a time, and the cancellation signal is read before each of them.
//!
//! The coordinator reads no file and translates nothing itself. Its driver
//! does what a [`BatchStep`] says, hands the outcome of each file to
//! [`BatchRun::record`], reports the progress that comes back, and asks
//! [`BatchRun::next_step`] how to go on.

use vstd::prelude::*;
use core::sync::atomic::AtomicBool;
use crate::back_translation::{back_translation_begins, BackTranslationStep};
use crate::cancel::is_cancelled;
use crate::error::{Failure, TranslationError};
use crate::memory::TranslationMemory;
use crate::models::{
    BackTranslationResult, BackTranslationView, BatchItemResult, BatchItemView, ProviderId,
};
use crate::text::owned_view;
use crate::translation::TranslationService;

verus! {

/// How the files of a batch are translated.
#[derive(Debug)]
pub struct BatchOptions {
    /// The language of the files; detected for each file where `None`.
    pub source_language: Option<String>,
    pub intermediate_language: String,
    pub provider_id: ProviderId,
}

impl Default for BatchOptions {
    fn default() -> (options: Self)
        ensures
            owned_view(options.source_language) == Some("en"@),
            options.intermediate_language@ == "ja"@,
            options.provider_id == ProviderId::GoogleUnofficial,
    {
        BatchOptions {
            source_language: Some("en".to_owned()),
            intermediate_language: "ja".to_owned(),
            provider_id: ProviderId::GoogleUnofficial,
        }
    }
}

/// How far a batch has come.
#[derive(Debug, PartialEq, Eq)]
pub struct BatchProgress {
    /// The number of files that are done.
    pub done: usize,
    /// The number of files in the batch.
    pub total: usize,
    /// The file that is being processed or was just processed.
    pub current_file: String,
}

/// The mathematical form of a [`BatchProgress`].
pub ghost struct ProgressView {
    pub done: usize,
    pub total: usize,
    pub current_file: Seq<char>,
}

impl View for BatchProgress {
    type V = ProgressView;

    open spec fn view(&self) -> ProgressView {
        ProgressView { done: self.done, total: self.total, current_file: self.current_file@ }
    }
}

/// What came of one file.
#[derive(Debug)]
pub enum ItemOutcome {
    /// The file could not be read; the text says why.
    LoadFailed(String),
    /// The file was read, and its back-translation ended like this.
    Translated(Result<BackTranslationResult, TranslationError>),
}

/// The mathematical form of an [`ItemOutcome`].
pub ghost enum OutcomeView {
    LoadFailed(Seq<char>),
    Translated(Result<BackTranslationView, Failure>),
}

impl View for ItemOutcome {
    type V = OutcomeView;

    open spec fn view(&self) -> OutcomeView {
        match self {
            ItemOutcome::LoadFailed(reason) => OutcomeView::LoadFailed(reason@),
            ItemOutcome::Translated(outcome) => OutcomeView::Translated(
                match outcome {
                    Ok(result) => Ok(result@),
                    Err(error) => Err(error@),
                },
            ),
        }
    }
}

/// The record of a file that took `duration_ms` and ended with `outcome`: a
/// success carries both translations and no error, and a failure carries its
/// message and no text.
pub open spec fn item_of(file: Seq<char>, outcome: OutcomeView, duration_ms: u128) -> BatchItemView {
    match outcome {
        OutcomeView::Translated(Ok(result)) => BatchItemView {
            file_path: file,
            success: true,
            intermediate_text: result.intermediate_text,
            back_translated_text: result.back_translated_text,
            error: None,
            duration_ms,
        },
        OutcomeView::Translated(Err(failure)) => BatchItemView {
            file_path: file,
            success: false,
            intermediate_text: Seq::empty(),
            back_translated_text: Seq::empty(),
            error: Some(failure.message()),
            duration_ms,
        },
        OutcomeView::LoadFailed(reason) => BatchItemView {
            file_path: file,
            success: false,
            intermediate_text: Seq::empty(),
            back_translated_text: Seq::empty(),
            error: Some(reason),
            duration_ms,
        },
    }
}

/// The record of a file that took `duration_ms` and ended with `outcome`.
pub fn item_result(file: &str, outcome: ItemOutcome, duration_ms: u128) -> (item: BatchItemResult)
    ensures
        item@ == item_of(file@, outcome@, duration_ms),
        item.success <==> item.error is None,
{
    match outcome {
        ItemOutcome::Translated(Ok(result)) => BatchItemResult {
            file_path: file.to_owned(),
            success: true,
            intermediate_text: result.intermediate_text,
            back_translated_text: result.back_translated_text,
            error: None,
            duration_ms,
        },
        ItemOutcome::Translated(Err(error)) => BatchItemResult {
            file_path: file.to_owned(),
            success: false,
            intermediate_text: String::new(),
            back_translated_text: String::new(),
            error: Some(error.message()),
            duration_ms,
        },
        ItemOutcome::LoadFailed(reason) => BatchItemResult {
            file_path: file.to_owned(),
            success: false,
            intermediate_text: String::new(),
            back_translated_text: String::new(),
            error: Some(reason),
            duration_ms,
        },
    }
}

/// The views of the files' names, in order.
pub open spec fn file_views(files: Seq<String>) -> Seq<Seq<char>> {
    files.map_values(|file: String| file@)
}

/// The views of the records, in order.
pub open spec fn item_views(items: Seq<BatchItemResult>) -> Seq<BatchItemView> {
    items.map_values(|item: BatchItemResult| item@)
}

/// A batch that is under way: its files and the records made so far.
#[derive(Debug)]
pub struct BatchRun {
    files: Vec<String>,
    results: Vec<BatchItemResult>,
}

/// The mathematical form of a [`BatchRun`].
pub ghost struct RunView {
    pub files: Seq<Seq<char>>,
    pub results: Seq<BatchItemView>,
}

impl RunView {
    /// What holds of every batch: there is one record for each file of a
    /// front part of the batch, in the order of the files, and none for any
    /// other file.
    pub open spec fn well_formed(self) -> bool {
        &&& self.results.len() <= self.files.len()
        &&& forall|i: int|
            0 <= i < self.results.len() ==> (#[trigger] self.results[i]).file_path == self.files[i]
    }

    /// The batch after its next file ended with `outcome`.
    pub open spec fn recorded(self, outcome: OutcomeView, duration_ms: u128) -> RunView {
        RunView {
            results: self.results.push(
                item_of(self.files[self.results.len() as int], outcome, duration_ms),
            ),
            ..self
        }
    }

    /// What is reported before the next file is processed.
    pub open spec fn progress_before(self) -> ProgressView {
        ProgressView {
            done: self.results.len() as usize,
            total: self.files.len() as usize,
            current_file: self.files[self.results.len() as int],
        }
    }

    /// What is reported after a file was processed.
    pub open spec fn progress_after(self) -> ProgressView {
        ProgressView {
            done: self.results.len() as usize,
            total: self.files.len() as usize,
            current_file: self.files[self.results.len() - 1],
        }
    }

    /// How the batch goes on: it is over when every file has its record or
    /// the cancellation signal is observed, and otherwise the next file is
    /// processed.
    pub open spec fn next_step(self, cancelled: bool) -> BatchStepView {
        if self.results.len() >= self.files.len() || cancelled {
            BatchStepView::Finished(self.results)
        } else {
            BatchStepView::Process(self, self.progress_before())
        }
    }
}

/// The records of a batch from `run` on, when the file at place `i` ends
/// with `outcomes[i]` after `durations[i]` milliseconds and the cancellation
/// signal reads `cancelled[i]` before that file: the steps of
/// [`RunView::next_step`] and [`RunView::recorded`], taken in turn until the
/// batch is over.
pub open spec fn batch_records(
    run: RunView,
    outcomes: Seq<OutcomeView>,
    durations: Seq<u128>,
    cancelled: Seq<bool>,
) -> Seq<BatchItemView>
    decreases run.files.len() - run.results.len(),
{
    let i = run.results.len() as int;
    if run.results.len() >= run.files.len() || cancelled[i] {
        run.results
    } else {
        batch_records(run.recorded(outcomes[i], durations[i]), outcomes, durations, cancelled)
    }
}

/// Recording a file keeps a batch well-formed.
pub proof fn lemma_record_keeps_well_formed(run: RunView, outcome: OutcomeView, duration_ms: u128)
    requires
        run.well_formed(),
        run.results.len() < run.files.len(),
    ensures
        run.recorded(outcome, duration_ms).well_formed(),
        run.recorded(outcome, duration_ms).results.len() == run.results.len() + 1,
{
    let after = run.recorded(outcome, duration_ms);
    assert forall|i: int| 0 <= i < after.results.len() implies (#[trigger] after.results[i]).file_path
        == after.files[i] by {
        if i < run.results.len() {
            assert(after.results[i] == run.results[i]);
        }
    }
}

/// A cancelled batch keeps the records of the files before the cancellation
/// and has none for any later file. If the cancellation signal is first
/// observed before the file at place `k`, the batch ends with exactly `k`
/// records: those of the first `k` files, in order. A batch that is never
/// cancelled has a record for every file.
pub proof fn lemma_cancelled_batch_keeps_earlier_records(
    run: RunView,
    outcomes: Seq<OutcomeView>,
    durations: Seq<u128>,
    cancelled: Seq<bool>,
    k: int,
)
    requires
        run.well_formed(),
        run.results.len() <= k <= run.files.len(),
        forall|i: int| run.results.len() <= i < k ==> !#[trigger] cancelled[i],
        k < run.files.len() ==> cancelled[k],
    ensures
        batch_records(run, outcomes, durations, cancelled).len() == k,
        forall|i: int|
            0 <= i < run.results.len() ==> #[trigger] batch_records(
                run,
                outcomes,
                durations,
                cancelled,
            )[i] == run.results[i],
        forall|i: int|
            run.results.len() <= i < k ==> #[trigger] batch_records(
                run,
                outcomes,
                durations,
                cancelled,
            )[i] == item_of(run.files[i], outcomes[i], durations[i]),
        forall|i: int|
            0 <= i < k ==> (#[trigger] batch_records(
                run,
                outcomes,
                durations,
                cancelled,
            )[i]).file_path == run.files[i],
    decreases run.files.len() - run.results.len(),
{
    let j = run.results.len() as int;
    if j < k {
        let next = run.recorded(outcomes[j], durations[j]);
        lemma_record_keeps_well_formed(run, outcomes[j], durations[j]);
        lemma_cancelled_batch_keeps_earlier_records(next, outcomes, durations, cancelled, k);
        let records = batch_records(run, outcomes, durations, cancelled);
        assert(records == batch_records(next, outcomes, durations, cancelled));
        assert forall|i: int| 0 <= i < j implies #[trigger] records[i] == run.results[i] by {
            assert(next.results[i] == run.results[i]);
        }
        assert(next.results[j] == item_of(run.files[j], outcomes[j], durations[j]));
    }
}

impl View for BatchRun {
    type V = RunView;

    closed spec fn view(&self) -> RunView {
        RunView { files: file_views(self.files@), results: item_views(self.results@) }
    }
}

/// What the driver of a batch does next.
#[derive(Debug)]
pub enum BatchStep {
    /// Nothing: the batch is over, with these records.
    Finished(Vec<BatchItemResult>),
    /// Report the progress, read the file it names, run the file's
    /// back-translation, and hand what came of it to [`BatchRun::record`].
    Process(BatchRun, BatchProgress),
}

/// The mathematical form of a [`BatchStep`].
pub ghost enum BatchStepView {
    Finished(Seq<BatchItemView>),
    Process(RunView, ProgressView),
}

impl View for BatchStep {
    type V = BatchStepView;

    open spec fn view(&self) -> BatchStepView {
        match self {
            BatchStep::Finished(results) => BatchStepView::Finished(item_views(results@)),
            BatchStep::Process(run, progress) => BatchStepView::Process(run@, progress@),
        }
    }
}

impl BatchRun {
    #[verifier::type_invariant]
    closed spec fn is_consistent(&self) -> bool {
        self@.well_formed()
    }

    /// The number of files that have their record.
    pub fn done(&self) -> (done: usize)
        ensures
            done == self@.results.len(),
            done <= self@.files.len(),
            self@.well_formed(),
    {
        proof {
            use_type_invariant(self);
        }
        self.results.len()
    }

    /// The number of files in the batch.
    pub fn total(&self) -> (total: usize)
        ensures
            total == self@.files.len(),
    {
        self.files.len()
    }

    /// Records what came of the file that was being processed, and says what
    /// to report. Where every file already has its record, nothing is
    /// recorded and nothing is to report.
    pub fn record(&mut self, outcome: ItemOutcome, duration_ms: u128) -> (progress: Option<
        BatchProgress,
    >)
        ensures
            old(self)@.results.len() < old(self)@.files.len() ==> final(self)@ == old(
                self,
            )@.recorded(outcome@, duration_ms) && match progress {
                Some(progress) => progress@ == final(self)@.progress_after(),
                None => false,
            },
            old(self)@.results.len() >= old(self)@.files.len() ==> final(self)@ == old(self)@
                && progress is None,
    {
        proof {
            use_type_invariant(&*self);
        }
        let index = self.results.len();
        if index >= self.files.len() {
            return None;
        }
        let ghost before = self@;
        let item = item_result(self.files[index].as_str(), outcome, duration_ms);
        let mut results: Vec<BatchItemResult> = Vec::new();
        core::mem::swap(&mut self.results, &mut results);
        results.push(item);
        proof {
            assert(item_views(results@) =~= before.results.push(
                item_of(before.files[index as int], outcome@, duration_ms),
            ));
            assert forall|i: int| 0 <= i < results@.len() implies (#[trigger] item_views(
                results@,
            )[i]).file_path == before.files[i] by {
                if i < index {
                    assert(item_views(results@)[i] == before.results[i]);
                }
            }
        }
        self.results = results;
        Some(
            BatchProgress {
                done: index + 1,
                total: self.files.len(),
                current_file: self.files[index].clone(),
            },
        )
    }

    /// Says how the batch goes on, for a given observation of the
    /// cancellation signal.
    pub fn next_step_observing(self, cancelled: bool) -> (step: BatchStep)
        ensures
            step@ == self@.next_step(cancelled),
    {
        proof {
            use_type_invariant(&self);
        }
        let index = self.results.len();
        if index >= self.files.len() || cancelled {
            return BatchStep::Finished(self.results);
        }
        let progress = BatchProgress {
            done: index,
            total: self.files.len(),
            current_file: self.files[index].clone(),
        };
        BatchStep::Process(self, progress)
    }

    /// Says how the batch goes on. The cancellation signal is read once,
    /// unless every file already has its record.
    pub fn next_step(self, cancel_flag: &AtomicBool) -> (step: BatchStep)
        ensures
            exists|cancelled: bool| step@ == #[trigger] self@.next_step(cancelled),
    {
        proof {
            use_type_invariant(&self);
        }
        let ghost before = self@;
        if self.results.len() >= self.files.len() {
            let step = self.next_step_observing(false);
            assert(step@ == before.next_step(false));
            return step;
        }
        let cancelled = is_cancelled(Some(cancel_flag));
        let step = self.next_step_observing(cancelled);
        assert(step@ == before.next_step(cancelled));
        step
    }
}

/// The batch coordinator: the translation client that it runs each file
/// through.
#[derive(Debug, Clone, Copy)]
pub struct BatchProcessor {
    translator: TranslationService,
}

impl BatchProcessor {
    /// The coordinator's translation client.
    pub closed spec fn spec_translator(&self) -> TranslationService {
        self.translator
    }

    /// A coordinator that translates with `translator`.
    pub fn new(translator: TranslationService) -> (processor: Self)
        ensures
            processor.spec_translator() == translator,
    {
        BatchProcessor { translator }
    }

    /// The coordinator's translation client.
    #[verifier::when_used_as_spec(spec_translator)]
    pub fn translator(&self) -> (translator: TranslationService)
        ensures
            translator == self.spec_translator(),
    {
        self.translator
    }

    /// The first step of a batch over `files`, for a given observation of
    /// the cancellation signal. A batch without files is over at once.
    pub fn process_files_observing(&self, files: Vec<String>, cancelled: bool) -> (step: BatchStep)
        ensures
            step@ == (RunView { files: file_views(files@), results: Seq::empty() }).next_step(
                cancelled,
            ),
    {
        let run = BatchRun { files, results: Vec::new() };
        assert(run@.results =~= Seq::empty());
        run.next_step_observing(cancelled)
    }

    /// The first step of a batch over `files`. The cancellation signal is
    /// read once, unless there are no files.
    pub fn process_files(&self, files: Vec<String>, cancel_flag: &AtomicBool) -> (step: BatchStep)
        ensures
            exists|cancelled: bool|
                step@ == #[trigger] (RunView {
                    files: file_views(files@),
                    results: Seq::empty(),
                }).next_step(cancelled),
    {
        let run = BatchRun { files, results: Vec::new() };
        assert(run@.results =~= Seq::empty());
        let ghost before = run@;
        let step = run.next_step(cancel_flag);
        proof {
            let cancelled = choose|cancelled: bool| step@ == #[trigger] before.next_step(cancelled);
            assert(step@ == (RunView {
                files: file_views(files@),
                results: Seq::empty(),
            }).next_step(cancelled));
        }
        step
    }

    /// Starts the back-translation of one file's content with the batch's
    /// options and under the batch's cancellation signal.
    pub fn begin_file(
        &self,
        memory: &mut TranslationMemory,
        content: &str,
        options: &BatchOptions,
        cancel_flag: &AtomicBool,
    ) -> (step: BackTranslationStep)
        ensures
            back_translation_begins(
                self.spec_translator().spec_policy(),
                old(memory)@,
                final(memory)@,
                content@,
                owned_view(options.source_language),
                options.intermediate_language@,
                options.provider_id,
                true,
                step@,
            ),
    {
        let source_language: Option<&str> = match &options.source_language {
            Some(name) => Some(name.as_str()),
            None => None,
        };
        self.translator.back_translate(
            memory,
            content,
            source_language,
            options.intermediate_language.as_str(),
            options.provider_id,
            Some(cancel_flag),
        )
    }
}

} // verus!
