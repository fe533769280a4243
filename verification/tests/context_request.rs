use memory_engine::contextrequest::{
    empty_core_note, plan_core_context, plan_core_context_request, validate_core_context_request,
    CoreContextRequest, CORE_CONTEXT_REQUEST_SCHEMA_VERSION,
};
use memory_engine::error::MemoryEngineError;
use memory_engine::types::{ContextPackageConfig, CoreContextTokenBudget};

fn budget(total: usize) -> CoreContextTokenBudget {
    CoreContextTokenBudget {
        total_tokens: total,
        current_memory_tokens: 100,
        compressed_memory_tokens: 200,
        core_tokens: 300,
    }
}

fn config() -> ContextPackageConfig {
    ContextPackageConfig {
        default_session_recent_limit: 12,
        default_session_trace_event_limit: 40,
        core_categories: Vec::new(),
        token_budget: budget(4000),
    }
}

fn request(domain_state: &str) -> CoreContextRequest {
    CoreContextRequest {
        schema_version: CORE_CONTEXT_REQUEST_SCHEMA_VERSION.to_string(),
        session_id: "s1".to_string(),
        domain_state: serde_json::from_str(domain_state).unwrap(),
        core_scope: None,
        query_text: None,
        recall_limit: 0,
        session_recent_limit: 0,
        session_trace_event_limit: 5,
        include_core: true,
        utc_offset_minutes: 540,
        clock_untrusted: false,
        token_budget: None,
    }
}

#[test]
fn core_context_request_checks_schema_session_and_offset() {
    let mut r = request("{}");
    assert!(validate_core_context_request(&r).is_ok());
    r.utc_offset_minutes = -1080;
    assert!(validate_core_context_request(&r).is_ok());
    r.utc_offset_minutes = 1081;
    assert!(matches!(
        validate_core_context_request(&r),
        Err(MemoryEngineError::Validation(m)) if m == "core context request utc_offset_minutes must be within +/-18 hours"
    ));
    r.utc_offset_minutes = i32::MIN;
    assert!(matches!(validate_core_context_request(&r), Err(MemoryEngineError::Validation(_))));
    r.utc_offset_minutes = 0;
    r.session_id = "  ".to_string();
    assert!(matches!(
        validate_core_context_request(&r),
        Err(MemoryEngineError::Validation(m)) if m == "core context request session_id must not be empty"
    ));
    r.schema_version = "core_context_request.v0".to_string();
    assert!(matches!(
        validate_core_context_request(&r),
        Err(MemoryEngineError::IncompatibleSchema { expected, actual })
            if expected == CORE_CONTEXT_REQUEST_SCHEMA_VERSION && actual == "core_context_request.v0"
    ));
}

#[test]
fn core_context_plan_fills_defaults() {
    let r = request("{}");
    let plan = plan_core_context(&r, &config(), 8, None, Some("now".to_string()));
    assert_eq!(plan.session_recent_limit, 12);
    assert_eq!(plan.session_trace_limit, 5);
    assert_eq!(plan.recall_limit, 8);
    assert_eq!(plan.query_text.as_deref(), Some("now"));
    assert_eq!(plan.token_budget, budget(4000));

    let mut r = request("{}");
    r.query_text = Some("asked".to_string());
    r.token_budget = Some(budget(900));
    r.recall_limit = 3;
    let plan = plan_core_context(&r, &config(), 8, Some("recent".to_string()), Some("now".to_string()));
    assert_eq!(plan.query_text.as_deref(), Some("asked"));
    assert_eq!(plan.token_budget, budget(900));
    assert_eq!(plan.recall_limit, 3);
}

#[test]
fn core_context_plan_reads_domain_state_texts() {
    let r = request("{\"recent_text\":\"the lighthouse\",\"current_text\":\"harbor\"}");
    let plan = plan_core_context_request(&r, &config(), 8);
    assert_eq!(plan.query_text.as_deref(), Some("the lighthouse"));

    let r = request("{\"current_text\":\"harbor\"}");
    let plan = plan_core_context_request(&r, &config(), 8);
    assert_eq!(plan.query_text.as_deref(), Some("harbor"));

    let r = request("{\"recent_text\":7}");
    let plan = plan_core_context_request(&r, &config(), 8);
    assert_eq!(plan.query_text, None);
}

#[test]
fn empty_core_note_only_when_core_was_asked_for() {
    assert_eq!(
        empty_core_note(true, 0).as_deref(),
        Some("core_facts are empty; no stable Core Store facts have been saved yet.")
    );
    assert_eq!(empty_core_note(true, 2), None);
    assert_eq!(empty_core_note(false, 0), None);
}
