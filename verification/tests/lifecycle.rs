use memory_engine::budget::{
    budget_context_layers, estimate_text_tokens, keep_front_within_budget,
    keep_recent_within_budget,
};
use memory_engine::error::MemoryEngineError;
use memory_engine::forgetting::{
    apply_forget_recommendation, list_forgotten_units, normalize_recommendation_reason,
    remember_back_unit, render_compact_memory_from_units, replace_or_push_unit, ForgetApplyAction,
    ForgetTally,
};
use memory_engine::records::{
    check_forget_review_result, default_manifest, validate_ingest_event, IngestEvent,
    ENGINE_VERSION,
};
use memory_engine::status::{is_forgotten, memory_unit_is_vector_eligible};
use memory_engine::types::{
    CoreContextEvent, CoreContextTokenBudget, F64Bits, FidelityStatus, ForgetDecision,
    ForgetRecommendation, ForgetReviewResult, ImportanceHint, MemoryUnit, MemoryUnitStatus,
    ProcessingMode, RecallStage,
};

fn unit(id: &str, status: MemoryUnitStatus, thesis: &str, updated_at: &str) -> MemoryUnit {
    MemoryUnit {
        schema_version: "memory_unit.v1".to_string(),
        memory_unit_id: id.to_string(),
        archive_id: "archive_1".to_string(),
        source_session_id: "session_1".to_string(),
        created_at: "2026-01-01T00:00:00Z".to_string(),
        updated_at: updated_at.to_string(),
        thesis: thesis.to_string(),
        source_event_ids: vec!["e1".to_string()],
        evidence: None,
        tags: vec!["topic".to_string()],
        weight: F64Bits { bits: 0.2f64.to_bits() },
        status,
        fidelity_status: FidelityStatus::Valid,
        fidelity_review: None,
        forget_review: None,
    }
}

fn recommendation(id: &str, decision: ForgetDecision, reason: &str) -> ForgetRecommendation {
    ForgetRecommendation {
        memory_unit_id: id.to_string(),
        decision,
        reason: reason.to_string(),
    }
}

#[test]
fn keep_front_admits_items_that_still_fit() {
    let (kept, used, dropped) = keep_front_within_budget(vec!['a', 'b', 'c', 'd'], &vec![4, 7, 3, 2], 9);
    assert_eq!(kept, vec!['a', 'c', 'd']);
    assert_eq!(used, 9);
    assert_eq!(dropped, 1);
}

#[test]
fn keep_recent_prefers_newest_and_keeps_order() {
    let (kept, used, dropped) =
        keep_recent_within_budget(vec![1, 2, 3, 4], &vec![5, 5, 6, 3], 9);
    assert_eq!(kept, vec![3, 4]);
    assert_eq!(used, 9);
    assert_eq!(dropped, 2);
    let (all, used_all, none_dropped) = keep_recent_within_budget(vec![1, 2], &vec![1, 1], 5);
    assert_eq!(all, vec![1, 2]);
    assert_eq!(used_all, 2);
    assert_eq!(none_dropped, 0);
}

#[test]
fn estimate_text_tokens_rounds_half_up() {
    assert_eq!(estimate_text_tokens(""), 0);
    assert_eq!(estimate_text_tokens("abc"), 2);
    assert_eq!(estimate_text_tokens("абвг"), 2);
}

fn context_event(id: &str, text: &str) -> CoreContextEvent {
    CoreContextEvent {
        event_id: id.to_string(),
        timestamp: "2026-01-01T00:00:00Z".to_string(),
        event_type: "user_message".to_string(),
        source: "user".to_string(),
        speaker: None,
        text: Some(text.to_string()),
        tags: vec![],
        theme: None,
    }
}

#[test]
fn context_budget_trims_layers_and_explains_drops() {
    let budget = CoreContextTokenBudget {
        total_tokens: 40,
        current_memory_tokens: 20,
        compressed_memory_tokens: 10,
        core_tokens: 5,
    };
    // "user: " + 20 chars = 26 chars = 13 tokens each
    let recent = vec![
        context_event("r1", "aaaaaaaaaaaaaaaaaaaa"),
        context_event("r2", "bbbbbbbbbbbbbbbbbbbb"),
    ];
    let archive = vec!["a1", "a2", "a3", "a4", "a5", "a6", "a7"];
    let result = budget_context_layers(
        vec!["f1", "f2"],
        &vec![3, 3],
        recent,
        vec![],
        archive,
        &vec![4, 4, 4, 1, 1, 1, 1],
        2,
        budget,
    );
    assert_eq!(result.core_facts, vec!["f1"]);
    assert_eq!(result.session_recent.len(), 1);
    assert_eq!(result.session_recent[0].event_id, "r2");
    assert_eq!(result.archive_relevant, vec!["a1", "a2", "a4", "a5"]);
    assert_eq!(result.report.estimated_core_tokens, 3);
    assert_eq!(result.report.estimated_compressed_memory_tokens, 10);
    assert_eq!(result.report.estimated_current_memory_tokens, 15);
    assert_eq!(result.report.estimated_total_tokens, 28);
    assert_eq!(result.report.dropped_archive_relevant, 3);
    assert!(!result.report.budget_exceeded);
    assert_eq!(result.report.estimator, "unicode_chars_div_2_ceil_json_v1");
    assert_eq!(
        result.notes,
        vec![
            "token budget dropped 1 session_recent event(s); newest events were kept.",
            "token budget dropped 3 archive_relevant item(s); highest-ranked recall items were kept.",
            "token budget dropped 1 core fact(s); highest-confidence facts were kept.",
        ]
    );
}

#[test]
fn context_budget_reports_oversized_domain_state() {
    let budget = CoreContextTokenBudget {
        total_tokens: 10,
        current_memory_tokens: 5,
        compressed_memory_tokens: 5,
        core_tokens: 5,
    };
    let result = budget_context_layers::<&str, &str>(
        vec![],
        &vec![],
        vec![context_event("r1", "x")],
        vec![],
        vec![],
        &vec![],
        12,
        budget,
    );
    assert!(result.session_recent.is_empty());
    assert!(result.report.budget_exceeded);
    assert_eq!(
        result.notes,
        vec![
            "domain_state alone exceeds current-memory budget: estimated 12 tokens > budget 5.",
            "token budget dropped 1 session_recent event(s); newest events were kept.",
            "token budget is still exceeded after trimming; inspect domain_state/current turn size.",
        ]
    );
}

#[test]
fn forget_decision_forgets_unprotected_unit() {
    let action = apply_forget_recommendation(
        Some(unit("m1", MemoryUnitStatus::ActiveArchive, "Old detail", "t1")),
        &recommendation("m1", ForgetDecision::Forget, "Low signal."),
        &vec![],
        "task_1",
        "2026-02-01T00:00:00Z",
    );
    match action {
        ForgetApplyAction::Forgotten(u) => {
            assert_eq!(u.status, MemoryUnitStatus::Forgotten);
            assert_eq!(u.updated_at, "2026-02-01T00:00:00Z");
            assert_eq!(u.tags, vec!["topic", "forget_reviewed", "forgotten"]);
            let review = u.forget_review.clone().unwrap();
            assert_eq!(review.decision, ForgetDecision::Forget);
            assert_eq!(review.reason, "Low signal.");
            assert_eq!(review.task_id.as_deref(), Some("task_1"));
            assert!(is_forgotten(&u));
            assert!(!memory_unit_is_vector_eligible(&u));
        }
        other => panic!("unexpected {other:?}"),
    }
}

#[test]
fn forget_decision_respects_protection_gates() {
    let action = apply_forget_recommendation(
        Some(unit("m1", MemoryUnitStatus::ActiveArchive, "Key fact", "t1")),
        &recommendation("m1", ForgetDecision::Forget, "Seems old."),
        &vec!["core_link".to_string(), "emotional".to_string()],
        "task_1",
        "now",
    );
    match action {
        ForgetApplyAction::Protected(u) => {
            assert_eq!(u.status, MemoryUnitStatus::ActiveArchive);
            assert_eq!(u.tags, vec!["topic", "forget_reviewed", "forget_protected"]);
            assert_eq!(
                u.forget_review.unwrap().reason,
                "Seems old. Protected by engine gate: core_link, emotional"
            );
        }
        other => panic!("unexpected {other:?}"),
    }
}

#[test]
fn forget_decision_ignores_missing_or_inactive_units() {
    let rec = recommendation("m1", ForgetDecision::Keep, "fine");
    assert!(matches!(
        apply_forget_recommendation(None, &rec, &vec![], "t", "now"),
        ForgetApplyAction::Ignored
    ));
    assert!(matches!(
        apply_forget_recommendation(
            Some(unit("m1", MemoryUnitStatus::Rejected, "x", "t")),
            &rec,
            &vec![],
            "t",
            "now"
        ),
        ForgetApplyAction::Ignored
    ));
    match apply_forget_recommendation(
        Some(unit("m1", MemoryUnitStatus::ActiveArchive, "x", "t")),
        &rec,
        &vec![],
        "t",
        "now",
    ) {
        ForgetApplyAction::Kept(u) => assert_eq!(u.tags, vec!["topic", "forget_reviewed"]),
        other => panic!("unexpected {other:?}"),
    }
}

#[test]
fn remember_back_undoes_forget() {
    let forgotten = match apply_forget_recommendation(
        Some(unit("m1", MemoryUnitStatus::ActiveArchive, "Detail", "t1")),
        &recommendation("m1", ForgetDecision::Forget, "old"),
        &vec![],
        "task",
        "t2",
    ) {
        ForgetApplyAction::Forgotten(u) => u,
        other => panic!("unexpected {other:?}"),
    };
    let back = remember_back_unit(forgotten, "t3").unwrap();
    assert_eq!(back.status, MemoryUnitStatus::ActiveArchive);
    assert_eq!(back.updated_at, "t3");
    assert_eq!(back.tags, vec!["topic", "forget_reviewed", "remembered_back"]);
    assert!(memory_unit_is_vector_eligible(&back));

    match remember_back_unit(back, "t4") {
        Err(MemoryEngineError::Validation(message)) => {
            assert_eq!(message, "memory unit is not forgotten: m1")
        }
        other => panic!("unexpected {other:?}"),
    }
}

#[test]
fn forget_tally_balances() {
    let mut tally = ForgetTally::new();
    tally.record(&ForgetApplyAction::Ignored);
    tally.record(&ForgetApplyAction::Kept(unit("m", MemoryUnitStatus::ActiveArchive, "x", "t")));
    tally.record(&ForgetApplyAction::Forgotten(unit("m", MemoryUnitStatus::Forgotten, "x", "t")));
    assert_eq!(tally.reviewed, 3);
    assert_eq!(tally.ignored + tally.kept + tally.forgotten + tally.protected, 3);
    assert_eq!(normalize_recommendation_reason("  too\n  old "), "too old");
    assert_eq!(normalize_recommendation_reason("   "), "No reason provided.");
}

#[test]
fn compact_memory_lists_active_theses_only() {
    let units = vec![
        unit("m1", MemoryUnitStatus::ActiveArchive, "  First thesis. ", "t"),
        unit("m2", MemoryUnitStatus::Forgotten, "Forgotten thesis.", "t"),
        unit("m3", MemoryUnitStatus::ActiveArchive, "   ", "t"),
        unit("m4", MemoryUnitStatus::ActiveArchive, "Second thesis.", "t"),
    ];
    assert_eq!(
        render_compact_memory_from_units(&units).as_deref(),
        Some("First thesis.\nSecond thesis.")
    );
    assert_eq!(
        render_compact_memory_from_units(&vec![unit("m2", MemoryUnitStatus::Forgotten, "x", "t")]),
        None
    );
}

#[test]
fn replace_or_push_updates_by_identifier() {
    let mut units = vec![
        unit("m1", MemoryUnitStatus::ActiveArchive, "a", "t"),
        unit("m2", MemoryUnitStatus::ActiveArchive, "b", "t"),
    ];
    replace_or_push_unit(&mut units, unit("m2", MemoryUnitStatus::Forgotten, "b2", "t2"));
    assert_eq!(units.len(), 2);
    assert_eq!(units[1].thesis, "b2");
    replace_or_push_unit(&mut units, unit("m3", MemoryUnitStatus::ActiveArchive, "c", "t"));
    assert_eq!(units.len(), 3);
    assert_eq!(units[2].memory_unit_id, "m3");
}

#[test]
fn forgotten_units_are_listed_newest_first() {
    let listed = list_forgotten_units(vec![
        unit("m2", MemoryUnitStatus::Forgotten, "x", "2026-01-02"),
        unit("m9", MemoryUnitStatus::ActiveArchive, "x", "2026-01-09"),
        unit("m3", MemoryUnitStatus::Forgotten, "x", "2026-01-05"),
        unit("m1", MemoryUnitStatus::Forgotten, "x", "2026-01-02"),
    ]);
    let ids = listed.iter().map(|u| u.memory_unit_id.as_str()).collect::<Vec<_>>();
    assert_eq!(ids, vec!["m3", "m1", "m2"]);
}

#[test]
fn manifest_defaults_describe_a_fresh_store() {
    let manifest = default_manifest("2026-01-01T00:00:00Z");
    assert_eq!(manifest.schema_version, "manifest.v1");
    assert_eq!(manifest.engine_version, ENGINE_VERSION);
    assert_eq!(manifest.storage_id, "default");
    assert_eq!(manifest.schema_versions.event, "event.v1");
    assert_eq!(manifest.schema_versions.journal_operation, "journal_operation.v1");
    assert_eq!(manifest.features.recall_stage, RecallStage::Stage1);
    assert!(!manifest.features.embeddings_enabled);
}

fn ingest(schema: &str, event_type: &str, session_id: &str) -> IngestEvent {
    IngestEvent {
        schema_version: schema.to_string(),
        event_type: event_type.to_string(),
        source: "telegram_user_42".to_string(),
        timestamp: "2026-05-17T16:32:11.420Z".to_string(),
        session_id: session_id.to_string(),
        payload: serde_json::Value::Null,
        tags: vec![],
        theme: None,
        emotional_tone: None,
        links: vec![],
        importance_hint: ImportanceHint::default(),
        processing_mode: ProcessingMode::default(),
    }
}

#[test]
fn ingest_validation_reports_first_problem() {
    assert!(validate_ingest_event(&ingest("event.v1", "user_message", "s1")).is_ok());
    match validate_ingest_event(&ingest("event.v0", "user_message", "s1")) {
        Err(MemoryEngineError::IncompatibleSchema { expected, actual }) => {
            assert_eq!(expected, "event.v1");
            assert_eq!(actual, "event.v0");
        }
        other => panic!("unexpected {other:?}"),
    }
    match validate_ingest_event(&ingest("event.v1", "  ", "s1")) {
        Err(MemoryEngineError::Validation(m)) => assert_eq!(m, "event type must not be empty"),
        other => panic!("unexpected {other:?}"),
    }
    match validate_ingest_event(&ingest("event.v1", "user_message", "")) {
        Err(MemoryEngineError::Validation(m)) => {
            assert_eq!(m, "event session_id must not be empty")
        }
        other => panic!("unexpected {other:?}"),
    }
}

#[test]
fn forget_review_answers_are_normalized_and_checked() {
    let mut result = ForgetReviewResult {
        schema_version: "  ".to_string(),
        source_session_id: "session_1".to_string(),
        recommendations: vec![],
    };
    result.normalize_schema();
    assert_eq!(result.schema_version, "forget_review_result.v1");
    assert!(check_forget_review_result(&result, "session_1").is_ok());
    match check_forget_review_result(&result, "session_2") {
        Err(MemoryEngineError::Validation(m)) => assert_eq!(
            m,
            "forget review source_session_id mismatch: task=session_2 result=session_1"
        ),
        other => panic!("unexpected {other:?}"),
    }
    let mut custom = ForgetReviewResult {
        schema_version: "custom.v9".to_string(),
        source_session_id: " ".to_string(),
        recommendations: vec![],
    };
    custom.normalize_schema();
    assert_eq!(custom.schema_version, "custom.v9");
    assert!(matches!(
        check_forget_review_result(&custom, "x"),
        Err(MemoryEngineError::IncompatibleSchema { .. })
    ));
}

#[test]
fn domain_state_is_counted_by_its_json_text() {
    let budget = CoreContextTokenBudget {
        total_tokens: 1000,
        current_memory_tokens: 500,
        compressed_memory_tokens: 100,
        core_tokens: 100,
    };
    // {"mood":"calm","turn":7} is 24 characters: 12 tokens.
    let state: serde_json::Value = serde_json::from_str("{ \"mood\": \"calm\", \"turn\": 7 }").unwrap();
    let result = memory_engine::budget::apply_context_token_budget::<&str, &str>(
        vec![], &vec![], vec![], vec![], vec![], &vec![], &state, budget,
    );
    assert_eq!(result.report.estimated_domain_state_tokens, 12);
    // "null" is 4 characters: 2 tokens.
    let result = memory_engine::budget::apply_context_token_budget::<&str, &str>(
        vec![], &vec![], vec![], vec![], vec![], &vec![], &serde_json::Value::Null, budget,
    );
    assert_eq!(result.report.estimated_domain_state_tokens, 2);
}
