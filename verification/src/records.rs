//! Stored records and their checks: the store manifest, incoming events and
//! model answers to forget reviews.
use vstd::prelude::*;
use crate::text::{is_blank, trim_seq};
use crate::strset::str_eq;
use crate::types::{
    FeatureFlags, ForgetReviewResult, ImportanceHint, Link, Manifest, ProcessingMode, RecallStage,
    SchemaVersions, ARCHIVE_ENTRY_SCHEMA_VERSION, CANDIDATE_BELIEF_SCHEMA_VERSION,
    CORE_FACT_SCHEMA_VERSION, CORE_STORE_SCHEMA_VERSION, EVENT_SCHEMA_VERSION,
    FORGET_REVIEW_RESULT_SCHEMA_VERSION, JOURNAL_OPERATION_SCHEMA_VERSION, MANIFEST_SCHEMA_VERSION,
    PENDING_TASK_SCHEMA_VERSION, SESSION_SCHEMA_VERSION,
};
use crate::error::MemoryEngineError;

verus! {

/// Version of this engine, recorded in every manifest it creates.
pub const ENGINE_VERSION: &'static str = "0.1.0";

// ---------------------------------------------------------------- manifest

/// The manifest of a new store: current schema versions, stage-1 recall,
/// every optional feature off.
pub fn default_manifest(now: &str) -> (r: Manifest)
    ensures
        r.schema_version@ == MANIFEST_SCHEMA_VERSION@,
        r.engine_version@ == ENGINE_VERSION@,
        r.storage_id@ == "default"@,
        r.created_at@ == now@,
        r.updated_at@ == now@,
        r.schema_versions.event@ == EVENT_SCHEMA_VERSION@,
        r.schema_versions.session@ == SESSION_SCHEMA_VERSION@,
        r.schema_versions.archive_entry@ == ARCHIVE_ENTRY_SCHEMA_VERSION@,
        r.schema_versions.core_store@ == CORE_STORE_SCHEMA_VERSION@,
        r.schema_versions.core_fact@ == CORE_FACT_SCHEMA_VERSION@,
        r.schema_versions.candidate_belief@ == CANDIDATE_BELIEF_SCHEMA_VERSION@,
        r.schema_versions.pending_task@ == PENDING_TASK_SCHEMA_VERSION@,
        r.schema_versions.journal_operation@ == JOURNAL_OPERATION_SCHEMA_VERSION@,
        r.active_embedding_model_id is None,
        r.last_migration_at is None,
        r.features == (FeatureFlags {
            recall_stage: RecallStage::Stage1,
            embeddings_enabled: false,
            llm_recall_rerank_enabled: false,
            reflection_enabled: false,
        }),
{
    Manifest {
        schema_version: MANIFEST_SCHEMA_VERSION.to_string(),
        engine_version: ENGINE_VERSION.to_string(),
        storage_id: "default".to_string(),
        created_at: now.to_string(),
        updated_at: now.to_string(),
        schema_versions: SchemaVersions {
            event: EVENT_SCHEMA_VERSION.to_string(),
            session: SESSION_SCHEMA_VERSION.to_string(),
            archive_entry: ARCHIVE_ENTRY_SCHEMA_VERSION.to_string(),
            core_store: CORE_STORE_SCHEMA_VERSION.to_string(),
            core_fact: CORE_FACT_SCHEMA_VERSION.to_string(),
            candidate_belief: CANDIDATE_BELIEF_SCHEMA_VERSION.to_string(),
            pending_task: PENDING_TASK_SCHEMA_VERSION.to_string(),
            journal_operation: JOURNAL_OPERATION_SCHEMA_VERSION.to_string(),
        },
        active_embedding_model_id: None,
        last_migration_at: None,
        features: FeatureFlags {
            recall_stage: RecallStage::Stage1,
            embeddings_enabled: false,
            llm_recall_rerank_enabled: false,
            reflection_enabled: false,
        },
    }
}

// ---------------------------------------------------------------- ingest

/// An event as a host hands it to the engine.
#[derive(Debug)]
pub struct IngestEvent {
    pub schema_version: String,
    pub event_type: String,
    pub source: String,
    pub timestamp: String,
    pub session_id: String,
    pub payload: serde_json::Value,
    pub tags: Vec<String>,
    pub theme: Option<String>,
    pub emotional_tone: Option<String>,
    pub links: Vec<Link>,
    pub importance_hint: ImportanceHint,
    pub processing_mode: ProcessingMode,
}

/// The first problem of an incoming event, if any: a foreign schema, or a
/// blank type, source, timestamp or session, checked in that order.
pub open spec fn ingest_problem(event: IngestEvent) -> Option<Seq<char>> {
    if event.schema_version@ != EVENT_SCHEMA_VERSION@ {
        Some(event.schema_version@)
    } else if trim_seq(event.event_type@).len() == 0 {
        Some("event type must not be empty"@)
    } else if trim_seq(event.source@).len() == 0 {
        Some("event source must not be empty"@)
    } else if trim_seq(event.timestamp@).len() == 0 {
        Some("event timestamp must not be empty"@)
    } else if trim_seq(event.session_id@).len() == 0 {
        Some("event session_id must not be empty"@)
    } else {
        None
    }
}

/// Checks an incoming event: the current event schema and a non-blank type,
/// source, timestamp and session.
pub fn validate_ingest_event(event: &IngestEvent) -> (r: Result<(), MemoryEngineError>)
    ensures
        ingest_problem(*event) is None <==> r is Ok,
        event.schema_version@ != EVENT_SCHEMA_VERSION@ ==> (r matches Err(
            MemoryEngineError::IncompatibleSchema { expected, actual },
        ) && expected@ == EVENT_SCHEMA_VERSION@ && actual@ == event.schema_version@),
        event.schema_version@ == EVENT_SCHEMA_VERSION@ && ingest_problem(*event) is Some ==> (
        r matches Err(MemoryEngineError::Validation(m)) && m@ == ingest_problem(*event).unwrap()),
{
    if !str_eq(event.schema_version.as_str(), EVENT_SCHEMA_VERSION) {
        return Err(
            MemoryEngineError::IncompatibleSchema {
                expected: EVENT_SCHEMA_VERSION.to_string(),
                actual: event.schema_version.clone(),
            },
        );
    }
    if is_blank(event.event_type.as_str()) {
        return Err(MemoryEngineError::Validation("event type must not be empty".to_string()));
    }
    if is_blank(event.source.as_str()) {
        return Err(MemoryEngineError::Validation("event source must not be empty".to_string()));
    }
    if is_blank(event.timestamp.as_str()) {
        return Err(MemoryEngineError::Validation("event timestamp must not be empty".to_string()));
    }
    if is_blank(event.session_id.as_str()) {
        return Err(MemoryEngineError::Validation("event session_id must not be empty".to_string()));
    }
    Ok(())
}

// ---------------------------------------------------------------- forget review answers

/// The schema version of an answer after normalization: the current one
/// when the model left it blank.
pub open spec fn normalized_version(version: Seq<char>) -> Seq<char> {
    if trim_seq(version).len() == 0 {
        FORGET_REVIEW_RESULT_SCHEMA_VERSION@
    } else {
        version
    }
}

impl ForgetReviewResult {
    /// Fills in the current schema version when the model left it blank.
    pub fn normalize_schema(&mut self)
        ensures
            final(self).schema_version@ == normalized_version(old(self).schema_version@),
            trim_seq(old(self).schema_version@).len() > 0 ==> final(self).schema_version
                == old(self).schema_version,
            final(self).source_session_id == old(self).source_session_id,
            final(self).recommendations == old(self).recommendations,
    {
        if is_blank(self.schema_version.as_str()) {
            self.schema_version = FORGET_REVIEW_RESULT_SCHEMA_VERSION.to_string();
        }
    }
}

/// Normalizing an answer's schema version a second time changes nothing.
pub proof fn lemma_normalize_schema_idempotent(version: Seq<char>)
    ensures
        normalized_version(normalized_version(version)) == normalized_version(version),
{
    reveal_strlit("forget_review_result.v1");
    let c = FORGET_REVIEW_RESULT_SCHEMA_VERSION@;
    assert(!crate::text::is_ws(c[0]));
    assert(!crate::text::is_ws(c.last()));
    crate::text::lemma_trim_start_shape(c);
    crate::text::lemma_trim_end_shape(crate::text::trim_start_seq(c));
}

/// The first problem of a forget-review answer for the review of
/// `task_session_id`, if any: a foreign schema, no session, another session.
pub open spec fn forget_result_problem(result: ForgetReviewResult, task_session_id: Seq<char>) -> Option<
    Seq<char>,
> {
    if result.schema_version@ != FORGET_REVIEW_RESULT_SCHEMA_VERSION@ {
        Some(result.schema_version@)
    } else if trim_seq(result.source_session_id@).len() == 0 {
        Some("forget review result source_session_id must not be empty"@)
    } else if task_session_id != result.source_session_id@ {
        Some(
            "forget review source_session_id mismatch: task="@ + task_session_id + " result="@
                + result.source_session_id@,
        )
    } else {
        None
    }
}

/// Checks a normalized forget-review answer against the review task's session.
pub fn check_forget_review_result(result: &ForgetReviewResult, task_session_id: &str) -> (r: Result<
    (),
    MemoryEngineError,
>)
    ensures
        forget_result_problem(*result, task_session_id@) is None <==> r is Ok,
        result.schema_version@ != FORGET_REVIEW_RESULT_SCHEMA_VERSION@ ==> (r matches Err(
            MemoryEngineError::IncompatibleSchema { expected, actual },
        ) && expected@ == FORGET_REVIEW_RESULT_SCHEMA_VERSION@ && actual@ == result.schema_version@),
        result.schema_version@ == FORGET_REVIEW_RESULT_SCHEMA_VERSION@ && forget_result_problem(
            *result,
            task_session_id@,
        ) is Some ==> (r matches Err(MemoryEngineError::Validation(m)) && m@
            == forget_result_problem(*result, task_session_id@).unwrap()),
{
    if !str_eq(result.schema_version.as_str(), FORGET_REVIEW_RESULT_SCHEMA_VERSION) {
        return Err(
            MemoryEngineError::IncompatibleSchema {
                expected: FORGET_REVIEW_RESULT_SCHEMA_VERSION.to_string(),
                actual: result.schema_version.clone(),
            },
        );
    }
    if is_blank(result.source_session_id.as_str()) {
        return Err(
            MemoryEngineError::Validation(
                "forget review result source_session_id must not be empty".to_string(),
            ),
        );
    }
    if !str_eq(task_session_id, result.source_session_id.as_str()) {
        let mut m = String::new();
        m.append("forget review source_session_id mismatch: task=");
        m.append(task_session_id);
        m.append(" result=");
        m.append(result.source_session_id.as_str());
        return Err(MemoryEngineError::Validation(m));
    }
    Ok(())
}

} // verus!
