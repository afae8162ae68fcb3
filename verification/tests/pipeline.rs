use file_pipeline_core::config_models::{default_pipeline, PipelineDefinition, PipelineStep};
use file_pipeline_core::pipeline::{
    enqueue_crossref, pick_thresholds, pipeline_start, pipeline_step, plan_pipeline, Phase, PipelineAction,
    PipelineEvent, StageKind, VerifyOutcome,
};

fn default_kinds() -> Vec<StageKind> {
    plan_pipeline(&default_pipeline()).kinds
}

#[test]
fn default_plan_preprocesses_asks_and_verifies() {
    let plan = plan_pipeline(&default_pipeline());
    assert_eq!(plan.kinds, vec![StageKind::Preprocess, StageKind::Llm, StageKind::Verify]);
    assert_eq!(plan.steps, vec![0, 1, 2]);
    assert_eq!(plan.embedding_model, None);
    assert_eq!(plan.zstd_level, None);
}

#[test]
fn plan_skips_disabled_verification_and_takes_last_overrides() {
    let def = PipelineDefinition {
        steps: vec![
            PipelineStep::Verify { enabled: true, credential: None },
            PipelineStep::Embedding { model: Some("a".to_string()) },
            PipelineStep::Llm { credential: None },
            PipelineStep::Storage { zstd_level: 5 },
            PipelineStep::Verify { enabled: false, credential: None },
            PipelineStep::Embedding { model: None },
            PipelineStep::Storage { zstd_level: 9 },
            PipelineStep::Verify { enabled: true, credential: None },
        ],
        postprocess_credential: None,
    };
    let plan = plan_pipeline(&def);
    assert_eq!(plan.kinds, vec![StageKind::Verify, StageKind::Llm, StageKind::Verify]);
    assert_eq!(plan.steps, vec![0, 2, 7]);
    assert_eq!(plan.embedding_model, Some("a".to_string()));
    assert_eq!(plan.zstd_level, Some(9));
    // the first verification has no result yet and is passed over
    let (st, a) = pipeline_start(&plan.kinds, 0);
    assert_eq!(a, PipelineAction::CallLlm);
    assert_eq!(st.stage, 1);
    let (st, a) = pipeline_step(&plan.kinds, &st, PipelineEvent::LlmOk);
    assert_eq!(a, PipelineAction::Verify);
    assert_eq!(st.stage, 2);
    let (st, a) = pipeline_step(&plan.kinds, &st, PipelineEvent::Verified(VerifyOutcome::Pass));
    assert_eq!(a, PipelineAction::Index);
    assert_eq!(st.phase, Phase::Index);
}

#[test]
fn model_is_asked_max_retry_plus_one_times() {
    let kinds = default_kinds();
    let (st, a) = pipeline_start(&kinds, 1);
    assert_eq!(a, PipelineAction::Preprocess);
    let (mut st, a) = pipeline_step(&kinds, &st, PipelineEvent::Preprocessed);
    assert_eq!(a, PipelineAction::CallLlm);
    let (s, a) = pipeline_step(&kinds, &st, PipelineEvent::LlmFailed);
    assert_eq!(a, PipelineAction::CallLlm);
    st = s;
    let (s, a) = pipeline_step(&kinds, &st, PipelineEvent::LlmFailed);
    assert_eq!(a, PipelineAction::Quarantine);
    assert_eq!(s.phase, Phase::Quarantined);
    assert_eq!(pipeline_step(&kinds, &s, PipelineEvent::LlmOk).1, PipelineAction::Nothing);
}

#[test]
fn failed_verification_gets_one_second_pass() {
    let kinds = default_kinds();
    let (st, _) = pipeline_start(&kinds, 0);
    let (st, _) = pipeline_step(&kinds, &st, PipelineEvent::Preprocessed);
    let (st, a) = pipeline_step(&kinds, &st, PipelineEvent::LlmOk);
    assert_eq!(a, PipelineAction::Verify);
    let (st, a) = pipeline_step(&kinds, &st, PipelineEvent::Verified(VerifyOutcome::Fail));
    assert_eq!(a, PipelineAction::Reprocess);
    let (st2, a) = pipeline_step(&kinds, &st, PipelineEvent::ReprocessOk);
    assert_eq!(a, PipelineAction::VerifyAgain);
    let (_, a) = pipeline_step(&kinds, &st2, PipelineEvent::Verified(VerifyOutcome::Fail));
    assert_eq!(a, PipelineAction::QuarantineCopy);
    let (_, a) = pipeline_step(&kinds, &st2, PipelineEvent::Verified(VerifyOutcome::Warning));
    assert_eq!(a, PipelineAction::Index);
    // a failed second pass keeps the first result
    assert_eq!(pipeline_step(&kinds, &st, PipelineEvent::ReprocessFailed).1, PipelineAction::Index);
}

#[test]
fn unreadable_file_stays_in_the_inbox() {
    let kinds = default_kinds();
    let (st, _) = pipeline_start(&kinds, 0);
    let (st, a) = pipeline_step(&kinds, &st, PipelineEvent::PreprocessFailed);
    assert_eq!(a, PipelineAction::ReadText);
    assert_eq!(pipeline_step(&kinds, &st, PipelineEvent::TextRead).1, PipelineAction::CallLlm);
    let (st, a) = pipeline_step(&kinds, &st, PipelineEvent::TextUnreadable);
    assert_eq!(a, PipelineAction::KeepInInbox);
    assert_eq!(st.phase, Phase::KeptInInbox);
}

#[test]
fn pipeline_without_model_step_fails() {
    let kinds = vec![StageKind::Preprocess, StageKind::Verify];
    let (st, _) = pipeline_start(&kinds, 0);
    let (st, a) = pipeline_step(&kinds, &st, PipelineEvent::Preprocessed);
    assert_eq!(a, PipelineAction::FailNoResult);
    assert_eq!(st.phase, Phase::NoResult);
}

#[test]
fn verification_off_goes_straight_to_indexing() {
    let kinds = vec![StageKind::Llm];
    let (st, _) = pipeline_start(&kinds, 2);
    assert_eq!(pipeline_step(&kinds, &st, PipelineEvent::LlmOk).1, PipelineAction::Index);
}

#[test]
fn thresholds_come_from_step_registry_global_default() {
    assert_eq!(pick_thresholds(Some(1), Some(2), Some(3), 4), 1);
    assert_eq!(pick_thresholds(None, Some(2), Some(3), 4), 2);
    assert_eq!(pick_thresholds(None, None, Some(3), 4), 3);
    assert_eq!(pick_thresholds::<i32>(None, None, None, 4), 4);
}

#[test]
fn crossref_queue_takes_each_document_once() {
    let mut q: Vec<String> = vec![];
    assert!(enqueue_crossref(&mut q, "auto", "h1"));
    assert!(!enqueue_crossref(&mut q, "auto", "h1"));
    assert!(enqueue_crossref(&mut q, "auto", "h2"));
    assert!(!enqueue_crossref(&mut q, "off", "h3"));
    assert_eq!(q, vec!["h1".to_string(), "h2".to_string()]);
}
