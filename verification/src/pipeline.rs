//! The decisions of processing one file, between the calls that the
//! processing makes: which stages a pipeline definition runs and which
//! overrides it sets, how often the language model is asked, what follows a
//! verification, when a file goes to quarantine or stays in the inbox, which
//! thresholds a verification uses, and when a document joins the
//! cross-reference queue. The caller performs each action and reports its
//! outcome as an event.

use vstd::prelude::*;
use crate::config_models::{PipelineDefinition, PipelineStep};
use crate::text::{opt_str, owned, same_text, strs};

verus! {

/// The kind of a stage that the processing runs for a pipeline step.
#[derive(Debug, Clone, Copy, PartialEq, Eq, Structural)]
pub enum StageKind {
    /// Text extraction.
    Preprocess,
    /// Classification and processing by the language model.
    Llm,
    /// Verification of the processed text.
    Verify,
}

/// The stage that a step runs: none for a disabled verification, for the
/// embedding step and for the storage step, which only set overrides.
pub open spec fn stage_of(s: PipelineStep) -> Option<StageKind> {
    match s {
        PipelineStep::Preprocess { .. } => Some(StageKind::Preprocess),
        PipelineStep::Llm { .. } => Some(StageKind::Llm),
        PipelineStep::Verify { enabled, .. } => if enabled {
            Some(StageKind::Verify)
        } else {
            None
        },
        _ => None,
    }
}

/// The stages of the steps, in order, each with the index of its step.
pub open spec fn plan_stages(steps: Seq<PipelineStep>) -> Seq<(StageKind, int)>
    decreases steps.len(),
{
    if steps.len() == 0 {
        seq![]
    } else {
        let rest = plan_stages(steps.drop_last());
        match stage_of(steps.last()) {
            Some(k) => rest.push((k, steps.len() - 1)),
            None => rest,
        }
    }
}

/// The embedding model that the steps set: that of the last embedding step
/// that names one (an embedding step without a model changes nothing).
pub open spec fn embedding_override(steps: Seq<PipelineStep>) -> Option<Seq<char>>
    decreases steps.len(),
{
    if steps.len() == 0 {
        None
    } else {
        match steps.last() {
            PipelineStep::Embedding { model: Some(m) } => Some(m@),
            _ => embedding_override(steps.drop_last()),
        }
    }
}

/// The compression level that the steps set: that of the last storage step.
pub open spec fn zstd_override(steps: Seq<PipelineStep>) -> Option<i32>
    decreases steps.len(),
{
    if steps.len() == 0 {
        None
    } else {
        match steps.last() {
            PipelineStep::Storage { zstd_level } => Some(zstd_level),
            _ => zstd_override(steps.drop_last()),
        }
    }
}

/// What a pipeline definition asks of the processing: its stages in order
/// (`kinds`, with the index of each one's step in `steps`), and the embedding
/// model and compression level that it sets.
#[derive(Debug, Clone)]
pub struct PipelinePlan {
    pub kinds: Vec<StageKind>,
    pub steps: Vec<usize>,
    pub embedding_model: Option<String>,
    pub zstd_level: Option<i32>,
}

/// The plan of a pipeline definition: preprocessing, model and enabled
/// verification steps become stages in their order; the last embedding step
/// with a model and the last storage step set the overrides.
pub fn plan_pipeline(def: &PipelineDefinition) -> (r: PipelinePlan)
    ensures
        r.kinds@.len() == plan_stages(def.steps@).len(),
        r.steps@.len() == plan_stages(def.steps@).len(),
        forall|i: int|
            0 <= i < r.kinds@.len() ==> (#[trigger] r.kinds@[i], r.steps@[i] as int) == plan_stages(def.steps@)[i],
        opt_str(r.embedding_model) == embedding_override(def.steps@),
        r.zstd_level == zstd_override(def.steps@),
{
    let mut kinds: Vec<StageKind> = Vec::new();
    let mut idx: Vec<usize> = Vec::new();
    let mut model: Option<String> = None;
    let mut level: Option<i32> = None;
    let mut i: usize = 0;
    while i < def.steps.len()
        invariant
            i <= def.steps@.len(),
            kinds@.len() == plan_stages(def.steps@.take(i as int)).len(),
            idx@.len() == kinds@.len(),
            forall|k: int|
                0 <= k < kinds@.len() ==> (#[trigger] kinds@[k], idx@[k] as int) == plan_stages(def.steps@.take(i as int))[k],
            opt_str(model) == embedding_override(def.steps@.take(i as int)),
            level == zstd_override(def.steps@.take(i as int)),
        decreases def.steps@.len() - i,
    {
        let ghost prev = def.steps@.take(i as int);
        proof {
            assert(def.steps@.take(i + 1).drop_last() =~= prev);
            assert(def.steps@.take(i + 1).last() == def.steps@[i as int]);
        }
        let ghost before = plan_stages(prev);
        match &def.steps[i] {
            PipelineStep::Preprocess { .. } => {
                kinds.push(StageKind::Preprocess);
                idx.push(i);
            },
            PipelineStep::Llm { .. } => {
                kinds.push(StageKind::Llm);
                idx.push(i);
            },
            PipelineStep::Verify { enabled, .. } => {
                if *enabled {
                    kinds.push(StageKind::Verify);
                    idx.push(i);
                }
            },
            PipelineStep::Embedding { model: m } => {
                match m {
                    Some(name) => {
                        model = Some(owned(name.as_str()));
                    },
                    None => {},
                }
            },
            PipelineStep::Storage { zstd_level } => {
                level = Some(*zstd_level);
            },
        }
        proof {
            let now = plan_stages(def.steps@.take(i + 1));
            assert forall|k: int| 0 <= k < kinds@.len() implies (#[trigger] kinds@[k], idx@[k] as int) == now[k] by {
                if k < before.len() {
                    assert(now[k] == before[k]);
                }
            }
        }
        i = i + 1;
    }
    proof {
        assert(def.steps@.take(i as int) =~= def.steps@);
    }
    PipelinePlan { kinds, steps: idx, embedding_model: model, zstd_level: level }
}

/// Where the processing of a file stands.
#[derive(Debug, Clone, Copy, PartialEq, Eq, Structural)]
pub enum Phase {
    /// Extracting the text (a preprocessing stage).
    Preprocess,
    /// The extraction failed; reading the file as text instead.
    ReadText,
    /// Asking the language model to classify and process the file.
    Classify,
    /// Verifying the processed text.
    Verify,
    /// Asking for a second pass with the verification's feedback.
    Reprocess,
    /// Verifying the second pass.
    VerifyRetry,
    /// All stages done: indexing the result (the rest of the processing).
    Index,
    /// Moved or copied to quarantine; nothing more happens.
    Quarantined,
    /// Neither extracted nor readable: the file stays in the inbox.
    KeptInInbox,
    /// All stages done without a result of the language model.
    NoResult,
}

/// The outcome of a verification.
#[derive(Debug, Clone, Copy, PartialEq, Eq, Structural)]
pub enum VerifyOutcome {
    Pass,
    Warning,
    Fail,
}

/// What the caller reports.
#[derive(Debug, Clone, Copy, PartialEq, Eq, Structural)]
pub enum PipelineEvent {
    /// The text was extracted.
    Preprocessed,
    /// The extraction failed.
    PreprocessFailed,
    /// The file was read as text.
    TextRead,
    /// The file could not be read as text.
    TextUnreadable,
    /// The language model call succeeded.
    LlmOk,
    /// The language model call failed.
    LlmFailed,
    /// A verification ended with this outcome.
    Verified(VerifyOutcome),
    /// The second pass succeeded.
    ReprocessOk,
    /// The second pass failed.
    ReprocessFailed,
}

/// What the caller does next. The stage that an action belongs to is the
/// state's `stage`.
#[derive(Debug, Clone, Copy, PartialEq, Eq, Structural)]
pub enum PipelineAction {
    /// Extract the text with the stage's tools.
    Preprocess,
    /// Read the file as text.
    ReadText,
    /// Call the language model (again).
    CallLlm,
    /// Verify the processed text.
    Verify,
    /// Ask for a second pass with the verification's feedback.
    Reprocess,
    /// Verify the second pass (it replaces the result when it passes).
    VerifyAgain,
    /// Move the file to quarantine (copy, then remove) and record the error.
    Quarantine,
    /// Copy the file to quarantine and record the error.
    QuarantineCopy,
    /// Record the error and leave the file in the inbox.
    KeepInInbox,
    /// Fail: no stage gave a result of the language model.
    FailNoResult,
    /// Go on with embedding and indexing.
    Index,
    /// Nothing: the event does not apply in this phase.
    Nothing,
}

/// The state of one file's processing: its phase, the stage it is in, the
/// language model calls of this stage that failed so far, the retries
/// allowed, and whether a model result is at hand.
#[derive(Debug, Clone, Copy, PartialEq, Eq, Structural)]
pub struct PipelineState {
    pub phase: Phase,
    pub stage: usize,
    pub failed_calls: u32,
    pub max_retry: u32,
    pub has_result: bool,
}

/// The processing from stage `i` on: a preprocessing stage extracts, a model
/// stage asks the model (with no failed call yet), a verification stage
/// verifies when a model result is at hand and is passed over otherwise;
/// after the last stage the result is indexed, or the processing fails
/// without one.
pub open spec fn advance(kinds: Seq<StageKind>, i: int, st: PipelineState) -> (PipelineState, PipelineAction)
    decreases kinds.len() - i,
{
    if i >= kinds.len() {
        if st.has_result {
            (PipelineState { phase: Phase::Index, stage: kinds.len() as usize, ..st }, PipelineAction::Index)
        } else {
            (PipelineState { phase: Phase::NoResult, stage: kinds.len() as usize, ..st }, PipelineAction::FailNoResult)
        }
    } else {
        match kinds[i] {
            StageKind::Preprocess => (PipelineState { phase: Phase::Preprocess, stage: i as usize, ..st }, PipelineAction::Preprocess),
            StageKind::Llm => (
                PipelineState { phase: Phase::Classify, stage: i as usize, failed_calls: 0, ..st },
                PipelineAction::CallLlm,
            ),
            StageKind::Verify => if st.has_result {
                (PipelineState { phase: Phase::Verify, stage: i as usize, ..st }, PipelineAction::Verify)
            } else {
                advance(kinds, i + 1, st)
            },
        }
    }
}

/// The first state and action of a file's processing.
pub open spec fn start_spec(kinds: Seq<StageKind>, max_retry: u32) -> (PipelineState, PipelineAction) {
    advance(
        kinds,
        0,
        PipelineState { phase: Phase::Preprocess, stage: 0, failed_calls: 0, max_retry, has_result: false },
    )
}

/// One step of the processing. A finished stage goes on to the next one. A
/// failed extraction falls back to reading the file as text, and when that
/// fails too the file stays in the inbox. A failed model call is tried again
/// while fewer than `max_retry` calls of the stage failed before it (so at
/// most `max_retry + 1` calls), and else the file moves to quarantine. A
/// passed verification (or one with warnings) goes on; a failed one asks for
/// one second pass. A second pass that fails keeps the result and goes on;
/// one that succeeds is verified again, and failing that copies the file to
/// quarantine. Any other event leaves the state as it is.
pub open spec fn pipeline_step_spec(kinds: Seq<StageKind>, st: PipelineState, ev: PipelineEvent) -> (
    PipelineState,
    PipelineAction,
) {
    let next = st.stage + 1;
    match (st.phase, ev) {
        (Phase::Preprocess, PipelineEvent::Preprocessed) => advance(kinds, next, st),
        (Phase::Preprocess, PipelineEvent::PreprocessFailed) => (
            PipelineState { phase: Phase::ReadText, ..st },
            PipelineAction::ReadText,
        ),
        (Phase::ReadText, PipelineEvent::TextRead) => advance(kinds, next, st),
        (Phase::ReadText, PipelineEvent::TextUnreadable) => (
            PipelineState { phase: Phase::KeptInInbox, ..st },
            PipelineAction::KeepInInbox,
        ),
        (Phase::Classify, PipelineEvent::LlmOk) => advance(kinds, next, PipelineState { has_result: true, ..st }),
        (Phase::Classify, PipelineEvent::LlmFailed) => if st.failed_calls < st.max_retry {
            (PipelineState { failed_calls: (st.failed_calls + 1) as u32, ..st }, PipelineAction::CallLlm)
        } else {
            (PipelineState { phase: Phase::Quarantined, ..st }, PipelineAction::Quarantine)
        },
        (Phase::Verify, PipelineEvent::Verified(VerifyOutcome::Fail)) => (
            PipelineState { phase: Phase::Reprocess, ..st },
            PipelineAction::Reprocess,
        ),
        (Phase::Verify, PipelineEvent::Verified(_)) => advance(kinds, next, st),
        (Phase::Reprocess, PipelineEvent::ReprocessOk) => (
            PipelineState { phase: Phase::VerifyRetry, ..st },
            PipelineAction::VerifyAgain,
        ),
        (Phase::Reprocess, PipelineEvent::ReprocessFailed) => advance(kinds, next, st),
        (Phase::VerifyRetry, PipelineEvent::Verified(VerifyOutcome::Fail)) => (
            PipelineState { phase: Phase::Quarantined, ..st },
            PipelineAction::QuarantineCopy,
        ),
        (Phase::VerifyRetry, PipelineEvent::Verified(_)) => advance(kinds, next, st),
        _ => (st, PipelineAction::Nothing),
    }
}

fn advance_exec(kinds: &Vec<StageKind>, i: usize, st: PipelineState) -> (r: (PipelineState, PipelineAction))
    requires
        i <= kinds@.len(),
    ensures
        r == advance(kinds@, i as int, st),
    decreases kinds@.len() - i,
{
    if i >= kinds.len() {
        if st.has_result {
            (PipelineState { phase: Phase::Index, stage: kinds.len(), ..st }, PipelineAction::Index)
        } else {
            (PipelineState { phase: Phase::NoResult, stage: kinds.len(), ..st }, PipelineAction::FailNoResult)
        }
    } else {
        match kinds[i] {
            StageKind::Preprocess => (PipelineState { phase: Phase::Preprocess, stage: i, ..st }, PipelineAction::Preprocess),
            StageKind::Llm => (
                PipelineState { phase: Phase::Classify, stage: i, failed_calls: 0, ..st },
                PipelineAction::CallLlm,
            ),
            StageKind::Verify => if st.has_result {
                (PipelineState { phase: Phase::Verify, stage: i, ..st }, PipelineAction::Verify)
            } else {
                advance_exec(kinds, i + 1, st)
            },
        }
    }
}

/// The first state of a file's processing and the first action, for the
/// stages `kinds` of a plan.
pub fn pipeline_start(kinds: &Vec<StageKind>, max_retry: u32) -> (r: (PipelineState, PipelineAction))
    ensures
        r == start_spec(kinds@, max_retry),
        r.0.stage <= kinds@.len(),
{
    let _n = kinds.len();
    proof {
        lemma_advance_shape(
            kinds@,
            0,
            PipelineState { phase: Phase::Preprocess, stage: 0, failed_calls: 0, max_retry, has_result: false },
        );
    }
    advance_exec(
        kinds,
        0,
        PipelineState { phase: Phase::Preprocess, stage: 0, failed_calls: 0, max_retry, has_result: false },
    )
}

/// The next state and action after the event `ev`. A state that
/// `pipeline_start` or this function gave for the same `kinds` has its stage
/// within them.
pub fn pipeline_step(kinds: &Vec<StageKind>, state: &PipelineState, ev: PipelineEvent) -> (r: (PipelineState, PipelineAction))
    requires
        state.stage <= kinds@.len(),
    ensures
        r == pipeline_step_spec(kinds@, *state, ev),
        r.0.stage <= kinds@.len(),
{
    let st = *state;
    let _n = kinds.len();
    proof {
        lemma_advance_shape(kinds@, st.stage + 1, st);
        lemma_advance_shape(kinds@, st.stage + 1, PipelineState { has_result: true, ..st });
    }
    let next = if st.stage < kinds.len() { st.stage + 1 } else { kinds.len() };
    proof {
        if st.stage == kinds@.len() {
            assert(advance(kinds@, next as int, st) == advance(kinds@, st.stage + 1, st));
        }
    }
    match (st.phase, ev) {
        (Phase::Preprocess, PipelineEvent::Preprocessed) => advance_exec(kinds, next, st),
        (Phase::Preprocess, PipelineEvent::PreprocessFailed) => (
            PipelineState { phase: Phase::ReadText, ..st },
            PipelineAction::ReadText,
        ),
        (Phase::ReadText, PipelineEvent::TextRead) => advance_exec(kinds, next, st),
        (Phase::ReadText, PipelineEvent::TextUnreadable) => (
            PipelineState { phase: Phase::KeptInInbox, ..st },
            PipelineAction::KeepInInbox,
        ),
        (Phase::Classify, PipelineEvent::LlmOk) => advance_exec(kinds, next, PipelineState { has_result: true, ..st }),
        (Phase::Classify, PipelineEvent::LlmFailed) => if st.failed_calls < st.max_retry {
            (PipelineState { failed_calls: st.failed_calls + 1, ..st }, PipelineAction::CallLlm)
        } else {
            (PipelineState { phase: Phase::Quarantined, ..st }, PipelineAction::Quarantine)
        },
        (Phase::Verify, PipelineEvent::Verified(VerifyOutcome::Fail)) => (
            PipelineState { phase: Phase::Reprocess, ..st },
            PipelineAction::Reprocess,
        ),
        (Phase::Verify, PipelineEvent::Verified(_)) => advance_exec(kinds, next, st),
        (Phase::Reprocess, PipelineEvent::ReprocessOk) => (
            PipelineState { phase: Phase::VerifyRetry, ..st },
            PipelineAction::VerifyAgain,
        ),
        (Phase::Reprocess, PipelineEvent::ReprocessFailed) => advance_exec(kinds, next, st),
        (Phase::VerifyRetry, PipelineEvent::Verified(VerifyOutcome::Fail)) => (
            PipelineState { phase: Phase::Quarantined, ..st },
            PipelineAction::QuarantineCopy,
        ),
        (Phase::VerifyRetry, PipelineEvent::Verified(_)) => advance_exec(kinds, next, st),
        _ => (st, PipelineAction::Nothing),
    }
}

/// Where `advance` stops: it passes over verification stages only, and only
/// without a model result, and lands on the first other stage (in the phase
/// of its kind, a verification only with a result) or after the last one
/// (indexing with a result, failing without). It keeps the retries and
/// whether a result is at hand.
pub proof fn lemma_advance_shape(kinds: Seq<StageKind>, i: int, st: PipelineState)
    requires
        0 <= i,
        kinds.len() <= usize::MAX,
    ensures
        ({
            let (s, a) = advance(kinds, i, st);
            &&& s.has_result == st.has_result && s.max_retry == st.max_retry
            &&& s.stage <= kinds.len()
            &&& i <= kinds.len() ==> i <= s.stage
            &&& forall|j: int| i <= j < s.stage ==> kinds[j] == StageKind::Verify && !st.has_result
            &&& s.stage < kinds.len() ==> match kinds[s.stage as int] {
                StageKind::Preprocess => s.phase == Phase::Preprocess && a == PipelineAction::Preprocess,
                StageKind::Llm => s.phase == Phase::Classify && s.failed_calls == 0 && a == PipelineAction::CallLlm,
                StageKind::Verify => st.has_result && s.phase == Phase::Verify && a == PipelineAction::Verify,
            }
            &&& s.stage == kinds.len() ==> if st.has_result {
                s.phase == Phase::Index && a == PipelineAction::Index
            } else {
                s.phase == Phase::NoResult && a == PipelineAction::FailNoResult
            }
        }),
    decreases kinds.len() - i,
{
    if i < kinds.len() && kinds[i] == StageKind::Verify && !st.has_result {
        lemma_advance_shape(kinds, i + 1, st);
    }
}

/// A model result is at hand after a step exactly when one was before, or
/// the step is the success of a model call.
pub proof fn lemma_result_only_from_model(kinds: Seq<StageKind>, st: PipelineState, ev: PipelineEvent)
    requires
        kinds.len() <= usize::MAX,
    ensures
        pipeline_step_spec(kinds, st, ev).0.has_result == (st.has_result || (st.phase == Phase::Classify
            && ev == PipelineEvent::LlmOk)),
{
    lemma_advance_shape(kinds, st.stage + 1, st);
    lemma_advance_shape(kinds, st.stage + 1, PipelineState { has_result: true, ..st });
}

/// A file is indexed only with a model result: a step that asks for
/// indexing has a result at hand.
pub proof fn lemma_index_needs_result(kinds: Seq<StageKind>, st: PipelineState, ev: PipelineEvent)
    requires
        kinds.len() <= usize::MAX,
    ensures
        pipeline_step_spec(kinds, st, ev).1 == PipelineAction::Index ==> pipeline_step_spec(kinds, st, ev).0.has_result,
{
    lemma_advance_shape(kinds, st.stage + 1, st);
    lemma_advance_shape(kinds, st.stage + 1, PipelineState { has_result: true, ..st });
}

/// The state after the events `evs`, one after the other.
pub open spec fn run_spec(kinds: Seq<StageKind>, st: PipelineState, evs: Seq<PipelineEvent>) -> PipelineState
    decreases evs.len(),
{
    if evs.len() == 0 {
        st
    } else {
        pipeline_step_spec(kinds, run_spec(kinds, st, evs.drop_last()), evs.last()).0
    }
}

/// `k` failed model calls in a row.
pub open spec fn failures(k: nat) -> Seq<PipelineEvent> {
    Seq::new(k, |i: int| PipelineEvent::LlmFailed)
}

/// A model stage asks the model at most `max_retry + 1` times: from its
/// start, after `k <= max_retry` failed calls the stage is still asking, and
/// the next failure moves the file to quarantine.
pub proof fn lemma_llm_retry_bound(kinds: Seq<StageKind>, st: PipelineState, k: nat)
    requires
        st.phase == Phase::Classify,
        st.failed_calls == 0,
        k <= st.max_retry,
    ensures
        run_spec(kinds, st, failures(k)) == (PipelineState { failed_calls: k as u32, ..st }),
        pipeline_step_spec(kinds, run_spec(kinds, st, failures(st.max_retry as nat)), PipelineEvent::LlmFailed)
            == (PipelineState { phase: Phase::Quarantined, failed_calls: st.max_retry, ..st }, PipelineAction::Quarantine),
{
    lemma_failures_prefix(kinds, st, k);
    lemma_failures_prefix(kinds, st, st.max_retry as nat);
}

proof fn lemma_failures_prefix(kinds: Seq<StageKind>, st: PipelineState, k: nat)
    requires
        st.phase == Phase::Classify,
        st.failed_calls == 0,
        k <= st.max_retry,
    ensures
        run_spec(kinds, st, failures(k)) == (PipelineState { failed_calls: k as u32, ..st }),
    decreases k,
{
    if k > 0 {
        lemma_failures_prefix(kinds, st, (k - 1) as nat);
        assert(failures(k).drop_last() =~= failures((k - 1) as nat));
    } else {
        assert(failures(0) =~= Seq::<PipelineEvent>::empty());
    }
}

/// A failed verification is followed by one second pass, and a second
/// failure copies the file to quarantine: from verification, the events
/// failed, second pass done, failed again give the actions second pass,
/// verify again, quarantine.
pub proof fn lemma_second_failure_quarantines(kinds: Seq<StageKind>, st: PipelineState)
    requires
        st.phase == Phase::Verify,
    ensures
        ({
            let (s1, a1) = pipeline_step_spec(kinds, st, PipelineEvent::Verified(VerifyOutcome::Fail));
            let (s2, a2) = pipeline_step_spec(kinds, s1, PipelineEvent::ReprocessOk);
            let (s3, a3) = pipeline_step_spec(kinds, s2, PipelineEvent::Verified(VerifyOutcome::Fail));
            a1 == PipelineAction::Reprocess && a2 == PipelineAction::VerifyAgain && a3 == PipelineAction::QuarantineCopy
                && s3.phase == Phase::Quarantined
        }),
{
}

/// The ends are final: from quarantine, the inbox, indexing or a failure
/// without a result no event leads anywhere.
pub proof fn lemma_ends_are_final(kinds: Seq<StageKind>, st: PipelineState, ev: PipelineEvent)
    requires
        st.phase == Phase::Quarantined || st.phase == Phase::KeptInInbox || st.phase == Phase::Index
            || st.phase == Phase::NoResult,
    ensures
        pipeline_step_spec(kinds, st, ev) == (st, PipelineAction::Nothing),
{
}

/// The thresholds a verification uses: those of the pipeline step, else
/// those of the document types in the registry, else the global ones, else
/// the defaults. (The verification of a second pass gives no step
/// thresholds.)
pub fn pick_thresholds<T>(step: Option<T>, registry: Option<T>, global: Option<T>, default: T) -> (r: T)
    ensures
        r == (match step {
            Some(t) => t,
            None => match registry {
                Some(t) => t,
                None => match global {
                    Some(t) => t,
                    None => default,
                },
            },
        }),
{
    match step {
        Some(t) => t,
        None => match registry {
            Some(t) => t,
            None => match global {
                Some(t) => t,
                None => default,
            },
        },
    }
}

/// Puts a processed document on the cross-reference queue (the ids of the
/// queued documents): nothing when cross references are `off` or the
/// document is queued already, else appended. Gives whether it was queued.
pub fn enqueue_crossref(queue: &mut Vec<String>, crossref_mode: &str, doc_id: &str) -> (r: bool)
    ensures
        r == (crossref_mode@ != "off"@ && !strs(old(queue)@).contains(doc_id@)),
        r ==> strs(final(queue)@) == strs(old(queue)@).push(doc_id@),
        !r ==> strs(final(queue)@) == strs(old(queue)@),
{
    proof {
        reveal_strlit("off");
    }
    if same_text(crossref_mode, "off") {
        return false;
    }
    let mut i: usize = 0;
    while i < queue.len()
        invariant
            i <= queue@.len(),
            forall|k: int| 0 <= k < i ==> strs(queue@)[k] != doc_id@,
        decreases queue@.len() - i,
    {
        if same_text(queue[i].as_str(), doc_id) {
            proof {
                assert(strs(queue@)[i as int] == doc_id@);
            }
            return false;
        }
        i = i + 1;
    }
    let ghost before = strs(queue@);
    queue.push(owned(doc_id));
    proof {
        assert(strs(queue@) =~= before.push(doc_id@));
    }
    true
}

/// The queue keeps each document once: queuing never adds an id that is
/// there already.
pub proof fn lemma_queue_stays_unique(q: Seq<Seq<char>>, id: Seq<char>)
    requires
        q.no_duplicates(),
    ensures
        !q.contains(id) ==> q.push(id).no_duplicates(),
{
    if !q.contains(id) {
        assert forall|i: int, j: int| 0 <= i < j < q.push(id).len() implies q.push(id)[i] != q.push(id)[j] by {
            if j == q.len() {
                assert(q.contains(q[i]));
            }
        }
    }
}

} // verus!
