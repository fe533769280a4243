use memory_engine::budget::estimate_text_tokens;
use memory_engine::error::MemoryEngineError;
use memory_engine::package::assemble_core_context;
use memory_engine::recall::{recall_reads_archive, select_recall_entries, ScoredEntry};
use memory_engine::reflection::{check_reflection_result, ReflectionAnalyzeResult, REFLECTION_RESULT_SCHEMA_VERSION};
use memory_engine::sleeprun::PendingTask;
use memory_engine::types::{
    ArchiveStatus, CoreContextEvent, CoreContextTokenBudget, EmbedBatchInputs, F64Bits, FidelityStatus,
    MemoryUnit, MemoryUnitStatus, ModelRole, RecallSourceLayer, TaskState, TaskType, VectorRow,
    VectorScopeStatus, VectorTombstone,
};
use memory_engine::vector::{default_vector_manifest, EMBED_BATCH_RESULT_SCHEMA_VERSION};
use memory_engine::vectorplan::{
    backfill_gate, check_embed_batch_result, check_vector_scope_writable, deep_recall_candidates,
    deep_recall_gate, deep_recall_top_k, record_appended_rows, settle_vector_state,
};
use serde_json::Value;

fn bits(v: f64) -> F64Bits {
    F64Bits { bits: v.to_bits() }
}

fn task(task_type: TaskType, inputs: &str) -> PendingTask {
    PendingTask {
        schema_version: "pending_task.v1".to_string(),
        task_id: "task_1".to_string(),
        task_type,
        state: TaskState::Pending,
        created_at: "2026-05-17T10:00:00Z".to_string(),
        updated_at: "2026-05-17T10:00:00Z".to_string(),
        prompt_id: "p".to_string(),
        prompt_version: 1,
        role_hint: ModelRole::Reasoning,
        expected_output_schema: "x".to_string(),
        inputs: serde_json::from_str(inputs).unwrap(),
        attempts: vec![],
        last_error: None,
    }
}

fn reflection(session: &str, scope: Option<&str>) -> ReflectionAnalyzeResult {
    ReflectionAnalyzeResult {
        schema_version: REFLECTION_RESULT_SCHEMA_VERSION.to_string(),
        source_session_id: session.to_string(),
        core_scope: scope.map(str::to_string),
        candidates: vec![],
    }
}

#[test]
fn reflection_result_is_checked_against_its_task() {
    let t = task(TaskType::ReflectionAnalyze, "{\"source_session_id\":\"s1\",\"core_scope\":\"  chat  a \"}");
    let scope = check_reflection_result(&reflection("s1", Some("other")), "task_1", &t).unwrap();
    assert_eq!(scope.as_deref(), Some("chat a"));
    let no_scope = task(TaskType::ReflectionAnalyze, "{\"source_session_id\":\"s1\"}");
    assert_eq!(check_reflection_result(&reflection("s1", Some("x")), "task_1", &no_scope).unwrap(), None);
    assert!(matches!(
        check_reflection_result(&reflection("s2", None), "task_1", &t),
        Err(MemoryEngineError::Validation(m)) if m == "reflection source_session_id mismatch: task=s1 result=s2"
    ));
    assert!(matches!(
        check_reflection_result(&reflection("  ", None), "task_1", &t),
        Err(MemoryEngineError::Validation(m)) if m == "reflection result source_session_id must not be empty"
    ));
    let wrong = task(TaskType::ForgetReview, "{}");
    assert!(matches!(
        check_reflection_result(&reflection("s1", None), "task_1", &wrong),
        Err(MemoryEngineError::Validation(m)) if m == "task is not reflection_analyze: task_1"
    ));
    let bare = task(TaskType::ReflectionAnalyze, "{}");
    assert!(matches!(
        check_reflection_result(&reflection("s1", None), "task_1", &bare),
        Err(MemoryEngineError::Validation(m)) if m == "reflection_analyze task has no source_session_id: task_1"
    ));
    let mut old = reflection("s1", None);
    old.schema_version = "reflection_result.v0".to_string();
    assert!(matches!(check_reflection_result(&old, "task_1", &t), Err(MemoryEngineError::IncompatibleSchema { .. })));
}

fn manifest(state: VectorScopeStatus) -> memory_engine::types::VectorIndexManifest {
    let mut m = default_vector_manifest("model-a", 4, "2026-01-01T00:00:00Z");
    m.state = state;
    m
}

#[test]
fn deep_recall_gate_reports_why_it_is_empty() {
    let ready = manifest(VectorScopeStatus::Ready);
    assert_eq!(deep_recall_gate(false, Some(&ready), "model-a", 4).unwrap().as_deref(), Some("disabled"));
    assert_eq!(deep_recall_gate(true, None, "model-a", 4).unwrap().as_deref(), Some("disabled"));
    assert_eq!(deep_recall_gate(true, Some(&ready), "model-a", 4).unwrap(), None);
    let corrupt = manifest(VectorScopeStatus::Corrupt);
    assert_eq!(deep_recall_gate(true, Some(&corrupt), "model-a", 4).unwrap().as_deref(), Some("corrupt"));
    let building = manifest(VectorScopeStatus::Building);
    assert_eq!(deep_recall_gate(true, Some(&building), "model-a", 4).unwrap().as_deref(), Some("building"));
    assert!(matches!(
        deep_recall_gate(true, Some(&corrupt), "model-b", 4),
        Err(MemoryEngineError::Validation(m)) if m == "vector model/dim mismatch: index=model-a 4d requested=model-b 4d"
    ));
    assert_eq!(deep_recall_top_k(0, 8), 8);
    assert_eq!(deep_recall_top_k(0, 0), 1);
    assert_eq!(deep_recall_top_k(3, 8), 3);
}

fn unit(id: &str, session: &str, status: MemoryUnitStatus) -> MemoryUnit {
    MemoryUnit {
        schema_version: "memory_unit.v1".to_string(),
        memory_unit_id: id.to_string(),
        archive_id: "a1".to_string(),
        source_session_id: session.to_string(),
        created_at: "2026-01-01T00:00:00Z".to_string(),
        updated_at: "2026-01-01T00:00:00Z".to_string(),
        thesis: "t".to_string(),
        source_event_ids: vec![],
        evidence: None,
        tags: vec![],
        weight: bits(0.5),
        status,
        fidelity_status: FidelityStatus::Valid,
        fidelity_review: None,
        forget_review: None,
    }
}

fn row(n: usize, id: &str) -> VectorRow {
    VectorRow {
        row: n,
        memory_unit_id: id.to_string(),
        archive_id: "a1".to_string(),
        created_at: format!("2026-01-0{}T00:00:00Z", n + 1),
        thesis_hash: "h".to_string(),
    }
}

#[test]
fn deep_recall_candidates_filter_rows() {
    let rows = vec![row(0, "u1"), row(1, "u2"), row(2, "u3"), row(3, "u4"), row(4, "u5"), row(5, "u6")];
    let ts = vec![VectorTombstone { memory_unit_id: "u2".to_string() }];
    let units = vec![
        Some(unit("u1", "s1", MemoryUnitStatus::ActiveArchive)),
        Some(unit("u2", "s1", MemoryUnitStatus::ActiveArchive)),
        Some(unit("u3", "s2", MemoryUnitStatus::ActiveArchive)),
        Some(unit("u4", "s1", MemoryUnitStatus::Forgotten)),
        None,
        Some(unit("u6", "s1", MemoryUnitStatus::ActiveArchive)),
    ];
    let close = vec![true, true, true, true, true, true];
    assert_eq!(deep_recall_candidates(&rows, &ts, &units, &close, "s1"), vec![0, 5]);
    let far = vec![true, true, true, true, true, false];
    assert_eq!(deep_recall_candidates(&rows, &ts, &units, &far, "s1"), vec![0]);
}

#[test]
fn recall_selects_complete_entries_of_the_session() {
    assert!(recall_reads_archive(&vec![]));
    assert!(recall_reads_archive(&vec![RecallSourceLayer::Core, RecallSourceLayer::Archive]));
    assert!(!recall_reads_archive(&vec![RecallSourceLayer::Session]));

    let statuses = vec![
        ArchiveStatus::Complete,
        ArchiveStatus::Complete,
        ArchiveStatus::Preliminary,
        ArchiveStatus::Complete,
        ArchiveStatus::Complete,
    ];
    let sessions: Vec<String> = ["s1", "s2", "s1", "s1", "s1"].iter().map(|s| s.to_string()).collect();
    let below = vec![false, false, false, true, false];
    let entries = vec![
        ScoredEntry { archive_id: "a".to_string(), score: bits(0.2), weight: bits(0.1) },
        ScoredEntry { archive_id: "b".to_string(), score: bits(0.9), weight: bits(0.1) },
        ScoredEntry { archive_id: "c".to_string(), score: bits(0.8), weight: bits(0.1) },
        ScoredEntry { archive_id: "d".to_string(), score: bits(0.7), weight: bits(0.1) },
        ScoredEntry { archive_id: "e".to_string(), score: bits(0.5), weight: bits(0.1) },
    ];
    let session = Some("s1".to_string());
    assert_eq!(select_recall_entries(&statuses, &sessions, &session, &below, &entries, 0, 10), vec![4, 0]);
    assert_eq!(select_recall_entries(&statuses, &sessions, &session, &below, &entries, 1, 10), vec![4]);
    assert_eq!(select_recall_entries(&statuses, &sessions, &None, &below, &entries, 0, 2), vec![1, 4]);
}

fn event(id: &str, ts: &str) -> CoreContextEvent {
    CoreContextEvent {
        event_id: id.to_string(),
        timestamp: ts.to_string(),
        event_type: "user_message".to_string(),
        source: "chat".to_string(),
        speaker: None,
        text: Some("hi".to_string()),
        tags: vec![],
        theme: None,
    }
}

#[test]
fn package_assembly_orders_items_and_notes() {
    let budget = CoreContextTokenBudget {
        total_tokens: 10_000,
        current_memory_tokens: 5_000,
        compressed_memory_tokens: 5_000,
        core_tokens: 5_000,
    };
    let (pkg, notes) = assemble_core_context::<&str, &str>(
        true,
        vec![],
        &vec![],
        vec![event("e1", "2030-01-01T00:00:00Z")],
        vec![],
        vec![("x1", Some("2020-01-01T00:00:00Z".to_string()))],
        &vec![1],
        vec![("r1", Some("2031-01-01T00:00:00Z".to_string())), ("r2", None)],
        &vec![1, 1],
        vec!["recall note".to_string()],
        vec!["read warning".to_string()],
        vec!["expansion note".to_string()],
        &Value::Null,
        budget,
        "2026-05-17T10:00:00Z",
    );
    let ids: Vec<&str> = pkg.archive_relevant.iter().map(|(x, _)| *x).collect();
    assert_eq!(ids, vec!["x1", "r1", "r2"]);
    assert_eq!(pkg.report.estimated_domain_state_tokens, estimate_text_tokens("null"));
    assert_eq!(
        notes,
        vec![
            "core_facts are empty; no stable Core Store facts have been saved yet.",
            "recall note",
            "read warning",
            "expansion note",
            "2 memory timestamp(s) are in the future relative to now; their time labels are omitted.",
        ]
    );
    let (pkg, notes) = assemble_core_context::<&str, &str>(
        false,
        vec!["f1"],
        &vec![1],
        vec![],
        vec![],
        vec![],
        &vec![],
        vec![],
        &vec![],
        vec![],
        vec![],
        vec![],
        &Value::Null,
        budget,
        "2026-05-17T10:00:00Z",
    );
    assert!(pkg.core_facts.is_empty());
    assert!(notes.is_empty());
}

fn inputs(kind: &str) -> EmbedBatchInputs {
    EmbedBatchInputs {
        kind: kind.to_string(),
        scope: "s1".to_string(),
        model_id: "model-a".to_string(),
        dim: 4,
        items: vec![],
    }
}

#[test]
fn embedding_results_and_scopes_are_checked() {
    let t = task(TaskType::ComputeEmbedding, "{}");
    assert!(check_embed_batch_result(EMBED_BATCH_RESULT_SCHEMA_VERSION, "model-a", 4, "task_1", &t, &inputs("embed_batch")).is_ok());
    assert!(matches!(
        check_embed_batch_result(EMBED_BATCH_RESULT_SCHEMA_VERSION, "model-a", 8, "task_1", &t, &inputs("embed_batch")),
        Err(MemoryEngineError::Validation(m)) if m == "embedding result model/dim mismatch: task=model-a 4d result=model-a 8d"
    ));
    assert!(matches!(
        check_embed_batch_result(EMBED_BATCH_RESULT_SCHEMA_VERSION, "model-a", 4, "task_1", &t, &inputs("other")),
        Err(MemoryEngineError::Validation(m)) if m == "compute_embedding task has unsupported kind: other"
    ));
    let wrong = task(TaskType::ScoreEvent, "{}");
    assert!(matches!(
        check_embed_batch_result(EMBED_BATCH_RESULT_SCHEMA_VERSION, "model-a", 4, "task_1", &wrong, &inputs("embed_batch")),
        Err(MemoryEngineError::Validation(m)) if m == "task is not compute_embedding: task_1"
    ));
    assert!(matches!(
        check_embed_batch_result("embed_batch_result.v0", "model-a", 4, "task_1", &t, &inputs("embed_batch")),
        Err(MemoryEngineError::IncompatibleSchema { .. })
    ));

    assert!(matches!(
        check_vector_scope_writable(None, "s1", "model-a", 4),
        Err(MemoryEngineError::Validation(m)) if m == "vector scope is disabled: s1"
    ));
    let corrupt = manifest(VectorScopeStatus::Corrupt);
    assert!(matches!(
        check_vector_scope_writable(Some(&corrupt), "s1", "model-a", 4),
        Err(MemoryEngineError::Validation(m)) if m == "vector scope is corrupt: s1"
    ));
    let building = manifest(VectorScopeStatus::Building);
    assert!(check_vector_scope_writable(Some(&building), "s1", "model-a", 4).is_ok());
    assert_eq!(backfill_gate(false, Some(&building), "s1", "model-a", 4).unwrap(), false);
    assert_eq!(backfill_gate(true, None, "s1", "model-a", 4).unwrap(), false);
    assert_eq!(backfill_gate(true, Some(&building), "s1", "model-a", 4).unwrap(), true);
    assert!(backfill_gate(true, Some(&corrupt), "s1", "model-a", 4).is_err());
}

#[test]
fn manifest_follows_appends_and_settles() {
    let mut m = manifest(VectorScopeStatus::Ready);
    record_appended_rows(&mut m, 3, &vec![row(3, "u1"), row(4, "u2")], "2026-05-17T10:00:00Z");
    assert_eq!(m.rows, 5);
    assert_eq!(m.state, VectorScopeStatus::Building);
    assert_eq!(m.backfill_cursor.as_deref(), Some("2026-01-05T00:00:00Z"));
    assert_eq!(m.updated_at, "2026-05-17T10:00:00Z");
    record_appended_rows(&mut m, 5, &vec![], "2026-05-17T11:00:00Z");
    assert_eq!(m.backfill_cursor, None);
    settle_vector_state(&mut m, true, false, "2026-05-17T12:00:00Z");
    assert_eq!(m.state, VectorScopeStatus::Building);
    assert_eq!(m.updated_at, "2026-05-17T11:00:00Z");
    settle_vector_state(&mut m, false, true, "2026-05-17T12:00:00Z");
    assert_eq!(m.state, VectorScopeStatus::Building);
    settle_vector_state(&mut m, false, false, "2026-05-17T13:00:00Z");
    assert_eq!(m.state, VectorScopeStatus::Ready);
    assert_eq!(m.updated_at, "2026-05-17T13:00:00Z");
}

#[test]
fn json_error_message_is_labelled() {
    let err: serde_json::Error = serde_json::from_str::<Value>("{").unwrap_err();
    let text = err.to_string();
    assert_eq!(MemoryEngineError::Json(err).message(), format!("json error: {text}"));
}
