use kce::error::KceError;
use kce::pipeline::{
    choose_intent, run_stage_error, top_k_exceeds_dataset, validate_input, DegradationDecision,
    Stage, record_skip, skipped_encoding, execute_stage, check_search_input, advance, finish,
};
use kce::types::MrnaIntent;
use kce::resilience::PipelineMetrics;
use kce::mce::{Dispatch, MceEngine};

#[test]
fn all_ten_stages_in_order() {
    let mut names = Vec::new();
    let mut s = Some(Stage::first());
    while let Some(st) = s {
        names.push(st.name());
        s = st.next();
    }
    assert_eq!(
        names,
        vec![
            "validate",
            "rate_limit",
            "plan",
            "retrieve",
            "expand",
            "ecma_update",
            "mce_encode",
            "execute",
            "persist",
            "metrics"
        ]
    );
}

#[test]
fn only_optional_stages_skip() {
    let all = DegradationDecision { skipped_graph: true, skipped_ecma: true, skipped_mce: true, skipped_ot: true };
    let mut skipped = Vec::new();
    let mut s = Some(Stage::first());
    while let Some(st) = s {
        if st.skipped_by(&all) {
            skipped.push(st.name());
        }
        s = st.next();
    }
    assert_eq!(skipped, vec!["expand", "ecma_update", "mce_encode"]);
    let none = DegradationDecision::default();
    assert!(!Stage::Expand.skipped_by(&none));
}

#[test]
fn pipeline_failure_wraps_stage_name() {
    let e = run_stage_error(Stage::Validate, KceError::Validation("query vector is empty".to_string()));
    let msg = e.message();
    assert!(msg.contains("validate"), "error should mention stage name: {}", msg);
    assert!(msg.contains("pipeline failed"));
}

#[test]
fn input_validation_order() {
    let msg = |r: Result<(), KceError>| match r {
        Err(KceError::Validation(s)) => s,
        other => panic!("unexpected {:?}", other),
    };
    assert_eq!(msg(validate_input(0, 0, false)), "query vector is empty");
    assert_eq!(msg(validate_input(2, 0, false)), "top_k must be > 0");
    assert_eq!(msg(validate_input(2, 1, false)), "vector contains NaN or Inf");
    assert!(validate_input(2, 1, true).is_ok());
}

#[test]
fn intent_choice() {
    assert_eq!(choose_intent(true, true), MrnaIntent::Alert);
    assert_eq!(choose_intent(false, true), MrnaIntent::RiskEval);
    assert_eq!(choose_intent(false, false), MrnaIntent::Classify);
    assert!(top_k_exceeds_dataset(21, 2));
    assert!(!top_k_exceeds_dataset(20, 2));
    assert!(!top_k_exceeds_dataset(usize::MAX, usize::MAX));
}

#[test]
fn skipped_stages_are_counted() {
    let mut m = PipelineMetrics::new();
    record_skip(&mut m, Stage::Expand);
    record_skip(&mut m, Stage::EcmaUpdate);
    record_skip(&mut m, Stage::EcmaUpdate);
    record_skip(&mut m, Stage::MceEncode);
    record_skip(&mut m, Stage::Retrieve);
    assert_eq!(m.degraded_graph_skips, 1);
    assert_eq!(m.degraded_ecma_skips, 2);
    assert_eq!(m.degraded_mce_skips, 1);
    assert_eq!(m.total_count, 0);
}

#[test]
fn skipped_encoding_is_empty_classify() {
    let m = skipped_encoding();
    assert_eq!(m.intent, MrnaIntent::Classify);
    assert_eq!(m.priority, 0);
    assert_eq!(m.ttl_ms, 1000);
    assert!(m.payload.is_empty());
    assert_eq!(m.payload_size_bytes, 0);
    assert_eq!(m.original_size_bytes, 0);
}

#[test]
fn degraded_run_executes_stand_in() {
    let engine = MceEngine::with_defaults();
    let r = execute_stage(&engine, None, 0);
    assert!(matches!(r, Ok(Dispatch::Classify { is_self: false, confidence_pct: 0, nodes: 0 })));
    // The stand-in itself would be refused by the engine's payload check.
    assert!(engine.execute(&skipped_encoding(), 0).is_err());
}

#[test]
fn search_input_checks_in_order() {
    assert!(matches!(check_search_input(0, 3, 0, false), Err(KceError::EmptyVector)));
    assert!(matches!(
        check_search_input(2, 3, 1, true),
        Err(KceError::DimensionMismatch { query: 2, dataset: 3 })
    ));
    assert!(matches!(check_search_input(3, 3, 0, false), Err(KceError::Validation(s)) if s == "top_k must be > 0"));
    assert!(matches!(check_search_input(3, 3, 1, false), Err(KceError::Validation(s)) if s == "query contains NaN/Inf"));
    assert!(check_search_input(3, 3, 1, true).is_ok());
}

#[test]
fn stage_loop_steps() {
    assert!(matches!(advance(Stage::Validate, Ok(())), Ok(Some(Stage::RateLimit))));
    assert!(matches!(advance(Stage::Metrics, Ok(())), Ok(None)));
    let e = advance(Stage::Retrieve, Err(KceError::EmptyVector)).unwrap_err();
    assert!(matches!(e, KceError::PipelineFailure { stage: "retrieve", .. }));
    assert!(matches!(finish(Some(3u8)), Ok(3)));
    assert!(matches!(finish::<u8>(None), Err(KceError::Validation(s)) if s == "no action executed"));
}
