//! The memory engine's records: links, time ranges, statuses and the plain
//! records of sessions, archives, tasks, Core Store and sleep runs.
//!
//! Real-valued weights, confidences and strengths are held as the bit
//! pattern `f64::to_bits` gives (`F64Bits`), so a record passes through the
//! library unchanged.
use vstd::prelude::*;

verus! {

pub const EVENT_SCHEMA_VERSION: &'static str = "event.v1";
pub const SESSION_SCHEMA_VERSION: &'static str = "session.v1";
pub const ARCHIVE_ENTRY_SCHEMA_VERSION: &'static str = "archive_entry.v1";
pub const CORE_STORE_SCHEMA_VERSION: &'static str = "core_store.v1";
pub const CORE_FACT_SCHEMA_VERSION: &'static str = "core_fact.v1";
pub const CANDIDATE_BELIEF_SCHEMA_VERSION: &'static str = "candidate_belief.v1";
pub const RECALL_QUERY_SCHEMA_VERSION: &'static str = "recall_query.v1";
pub const RECALL_RESULT_SCHEMA_VERSION: &'static str = "recall_result.v1";
pub const PENDING_TASK_SCHEMA_VERSION: &'static str = "pending_task.v1";
pub const SLEEP_COMPRESSION_RESULT_SCHEMA_VERSION: &'static str = "sleep_compression_result.v1";
pub const MANIFEST_SCHEMA_VERSION: &'static str = "manifest.v1";
pub const JOURNAL_OPERATION_SCHEMA_VERSION: &'static str = "journal_operation.v1";
pub const EVIDENCE_PACK_SCHEMA_VERSION: &'static str = "evidence_pack.v1";
pub const FORGET_REVIEW_INPUT_SCHEMA_VERSION: &'static str = "forget_review_input.v1";
pub const FORGET_REVIEW_RESULT_SCHEMA_VERSION: &'static str = "forget_review_result.v1";
pub const MEMORY_UNIT_SCHEMA_VERSION: &'static str = "memory_unit.v1";
pub const MEMORY_UNITS_RESULT_SCHEMA_VERSION: &'static str = "memory_units_result.v1";
pub const CONSOLIDATOR_TEXT_SCHEMA_VERSION: &'static str = "sleep_consolidator_text.v1";

/// An `f64` held as its IEEE-754 bit pattern (`f64::to_bits`).
#[derive(Debug, Clone, Copy, PartialEq, Eq, Structural)]
pub struct F64Bits {
    pub bits: u64,
}

#[derive(Debug, Clone, PartialEq)]
pub struct Link {
    pub kind: String,
    pub target: String,
    pub note: Option<String>,
}

#[derive(Debug, Clone, PartialEq)]
pub struct TimeRange {
    pub start: String,
    pub end: String,
}

#[derive(Debug, Clone, PartialEq)]
pub struct Quote {
    pub text: String,
    pub source_event_id: Option<String>,
}

/// Who said a user-side message in a multi-speaker chat.
#[derive(Debug, Clone, PartialEq)]
pub struct Speaker {
    pub id: String,
    pub name: String,
}

#[derive(Debug, Clone, Copy, PartialEq, Eq, Structural)]
pub enum ImportanceHint {
    Low,
    Normal,
    Medium,
    High,
    Critical,
}

impl Default for ImportanceHint {
    fn default() -> (r: Self)
        ensures
            r == ImportanceHint::Normal,
    {
        ImportanceHint::Normal
    }
}

#[derive(Debug, Clone, Copy, PartialEq, Eq, Structural)]
pub enum ProcessingMode {
    Immediate,
    DeferToSleep,
}

impl Default for ProcessingMode {
    fn default() -> (r: Self)
        ensures
            r == ProcessingMode::DeferToSleep,
    {
        ProcessingMode::DeferToSleep
    }
}

#[derive(Debug, Clone, Copy, PartialEq, Eq, Structural)]
pub enum ModelRole {
    Reasoning,
    Balanced,
    Fast,
}

#[derive(Debug, Clone, Copy, PartialEq, Eq, Structural)]
pub enum RecallStage {
    Stage1,
    Stage2Embeddings,
    Stage3Llm,
}

// ---------------------------------------------------------------- archive

#[derive(Debug, Clone, Copy, PartialEq, Eq, Structural)]
pub enum ArchiveStatus {
    Preliminary,
    Complete,
    Superseded,
    NeedsReview,
}

#[derive(Debug, Clone, PartialEq)]
pub struct TopicThreadItem {
    pub topic: String,
    pub subtopics: Vec<String>,
    pub energy: Option<String>,
    pub source_event_ids: Vec<String>,
    pub summary: Option<String>,
}

#[derive(Debug, Clone, Copy, PartialEq, Eq, Structural)]
pub enum MemoryUnitStatus {
    ActiveArchive,
    NeedsRevision,
    Rejected,
    Forgotten,
}

#[derive(Debug, Clone, Copy, PartialEq, Eq, Structural)]
pub enum FidelityStatus {
    Unchecked,
    Valid,
    SelfChecked,
    TooBroad,
    MissingKeyDetail,
    NeedsRevision,
    Unsupported,
    Distorted,
}

#[derive(Debug, Clone, Copy, PartialEq, Eq, Structural)]
pub enum ForgetDecision {
    Forget,
    Keep,
    Protect,
}

/// A model's check of a memory unit against its source events.
#[derive(Debug, Clone, PartialEq)]
pub struct FidelityReview {
    pub schema_version: String,
    pub memory_unit_id: String,
    pub archive_id: String,
    pub status: FidelityStatus,
    pub explanation: String,
    pub revised_thesis: Option<String>,
    pub missing_detail: Option<String>,
}

/// The outcome of a forget review for one memory unit.
#[derive(Debug, Clone, PartialEq)]
pub struct ForgetReviewRecord {
    pub reviewed_at: String,
    pub task_id: Option<String>,
    pub decision: ForgetDecision,
    pub reason: String,
}

/// One atomic memory thesis of an archive entry.
#[derive(Debug, Clone, PartialEq)]
pub struct MemoryUnit {
    pub schema_version: String,
    pub memory_unit_id: String,
    pub archive_id: String,
    pub source_session_id: String,
    pub created_at: String,
    pub updated_at: String,
    pub thesis: String,
    pub source_event_ids: Vec<String>,
    pub evidence: Option<String>,
    pub tags: Vec<String>,
    pub weight: F64Bits,
    pub status: MemoryUnitStatus,
    pub fidelity_status: FidelityStatus,
    pub fidelity_review: Option<FidelityReview>,
    pub forget_review: Option<ForgetReviewRecord>,
}

// ---------------------------------------------------------------- core store

#[derive(Debug, Clone, Copy, PartialEq, Eq, Structural)]
pub enum CoreFactStatus {
    Active,
    Contested,
    Deprecated,
    Contradicted,
    NeedsReview,
}

#[derive(Debug, Clone, Copy, PartialEq, Eq, Structural)]
pub enum ReviewDecision {
    Approved,
    Rejected,
    NeedsChanges,
}

#[derive(Debug, Clone, PartialEq)]
pub struct ReviewRecord {
    pub reviewed_by: String,
    pub reviewed_at: String,
    pub decision: ReviewDecision,
    pub note: Option<String>,
}

/// A session event as the context package shows it.
#[derive(Debug, Clone, PartialEq)]
pub struct CoreContextEvent {
    pub event_id: String,
    pub timestamp: String,
    pub event_type: String,
    pub source: String,
    pub speaker: Option<Speaker>,
    pub text: Option<String>,
    pub tags: Vec<String>,
    pub theme: Option<String>,
}

#[derive(Debug, Clone, Copy, PartialEq, Eq, Structural)]
pub struct PromotionChecks {
    pub min_sources_met: bool,
    pub weight_threshold_met: bool,
    pub no_recent_contradiction: bool,
    pub manual_review_required: bool,
}

#[derive(Debug, Clone, Copy, PartialEq, Eq, Structural)]
pub enum CandidateStatus {
    Draft,
    ReadyForReview,
    Approved,
    Rejected,
    Promoted,
    Superseded,
}

/// Token budget of a core context package, by layer.
#[derive(Debug, Clone, Copy, PartialEq, Eq, Structural)]
pub struct CoreContextTokenBudget {
    pub total_tokens: usize,
    pub current_memory_tokens: usize,
    pub compressed_memory_tokens: usize,
    pub core_tokens: usize,
}

#[derive(Debug, Clone, PartialEq)]
pub struct ContextPackageConfig {
    pub default_session_recent_limit: usize,
    pub default_session_trace_event_limit: usize,
    /// Legacy seed list kept for compatibility with older host configs.
    /// Core context reads every category file in Core Store.
    pub core_categories: Vec<String>,
    pub token_budget: CoreContextTokenBudget,
}

// ---------------------------------------------------------------- fidelity

#[derive(Debug, Clone, Copy, PartialEq, Eq, Structural)]
pub enum EvidenceEventRole {
    Source,
    Neighbor,
}

#[derive(Debug, Clone, PartialEq)]
pub struct EvidenceEvent {
    pub event_id: String,
    pub timestamp: String,
    pub event_type: String,
    pub source: String,
    pub role: EvidenceEventRole,
    pub text: String,
    pub tags: Vec<String>,
}

/// The source and neighbouring events a fidelity check reads, within a
/// token budget.
#[derive(Debug, Clone, PartialEq)]
pub struct EvidencePack {
    pub schema_version: String,
    pub evidence_pack_id: String,
    pub created_at: String,
    pub memory_unit_id: String,
    pub archive_id: String,
    pub source_session_id: String,
    pub target_thesis: String,
    pub unit_evidence: Option<String>,
    pub events: Vec<EvidenceEvent>,
    pub max_estimated_tokens: usize,
    pub estimated_tokens: usize,
    pub truncated: bool,
}

// ---------------------------------------------------------------- forgetting

#[derive(Debug, Clone, PartialEq)]
pub struct ForgetRecommendation {
    pub memory_unit_id: String,
    pub decision: ForgetDecision,
    pub reason: String,
}

#[derive(Debug, Clone, PartialEq)]
pub struct ForgetReviewResult {
    pub schema_version: String,
    pub source_session_id: String,
    pub recommendations: Vec<ForgetRecommendation>,
}

#[derive(Debug, Clone, PartialEq)]
pub struct ForgetReviewApplyResult {
    pub schema_version: String,
    pub source_session_id: String,
    pub reviewed: usize,
    pub forgotten: usize,
    pub kept: usize,
    pub protected: usize,
    pub ignored: usize,
    pub changed_units: Vec<MemoryUnit>,
}

#[derive(Debug, Clone, PartialEq)]
pub struct ForgottenMemoryUnits {
    pub schema_version: String,
    pub source_session_id: String,
    pub units: Vec<MemoryUnit>,
}

// ---------------------------------------------------------------- journal

#[derive(Debug, Clone, Copy, PartialEq, Eq, Structural)]
pub enum JournalOperationType {
    Sleep,
    Migration,
    CorePromotion,
}

#[derive(Debug, Clone, Copy, PartialEq, Eq, Structural)]
pub enum JournalState {
    Started,
    Completed,
    Failed,
    NeedsManualReview,
}

#[derive(Debug, Clone, Copy, PartialEq, Eq, Structural)]
pub enum RecoveryPolicy {
    Retry,
    Rollback,
    ManualReview,
    RetryOrManualReview,
}

// ---------------------------------------------------------------- language-model traffic

#[derive(Debug, Clone, Copy, PartialEq, Eq, Structural)]
pub enum LlmErrorKind {
    ProviderBlocked,
    Transport,
    Other,
}

/// A host's answer to one language-model request.
#[derive(Debug, Clone, PartialEq)]
pub enum LlmResponse {
    Success { request_id: String, text: String },
    Failure { request_id: String, kind: LlmErrorKind, detail: String },
}

#[derive(Debug, Clone, Copy, PartialEq, Eq, Structural)]
pub enum SleepRunStage {
    Extraction,
    Consolidation,
    ReadyToFinish,
    Finished,
}

#[derive(Debug, Clone, Copy, PartialEq, Eq, Structural)]
pub enum SleepTrack {
    MemoryUnit,
    Emotional,
    TopicThread,
    PersonalSignal,
    Relational,
    Consolidator,
}

#[derive(Debug, Clone, Copy, Default, PartialEq, Eq, Structural)]
pub struct CoreSignalSummary {
    pub created: usize,
    pub updated: usize,
    pub skipped: usize,
}

#[derive(Debug, Clone, Copy, Default, PartialEq, Eq, Structural)]
pub struct CoreArchiveSeedSummary {
    pub archives: usize,
    pub created: usize,
    pub updated: usize,
    pub skipped: usize,
}

// ---------------------------------------------------------------- recall

#[derive(Debug, Clone, Copy, PartialEq, Eq, Structural)]
pub enum RecallSourceLayer {
    Session,
    Archive,
    Core,
}

#[derive(Debug, Clone, PartialEq)]
pub struct RecallDebug {
    pub candidate_count: usize,
    pub filtered_count: usize,
    pub notes: Vec<String>,
}

// ---------------------------------------------------------------- tasks

#[derive(Debug, Clone, Copy, PartialEq, Eq, Structural)]
pub enum TaskType {
    SleepCompression,
    CompactMemoryPass,
    MemoryUnitPass,
    MemoryFidelityPass,
    ForgetReview,
    ScoreEvent,
    ReflectionAnalyze,
    RecallRerank,
    ComputeEmbedding,
    FactCheck,
    TagProposal,
}

#[derive(Debug, Clone, Copy, PartialEq, Eq, Structural)]
pub enum TaskState {
    Pending,
    Submitted,
    Completed,
    Failed,
    Cancelled,
}

#[derive(Debug, Clone, Copy, PartialEq, Eq, Structural)]
pub enum AttemptStatus {
    Completed,
    Failed,
    Cancelled,
}

#[derive(Debug, Clone, PartialEq)]
pub struct TaskAttempt {
    pub attempt_id: String,
    pub started_at: String,
    pub finished_at: Option<String>,
    pub provider: Option<String>,
    pub model: Option<String>,
    pub status: AttemptStatus,
    pub error: Option<String>,
}

// ---------------------------------------------------------------- sessions and manifest

#[derive(Debug, Clone, Copy, PartialEq, Eq, Structural)]
pub enum SessionStatus {
    Active,
    SleepPending,
    Archived,
    Failed,
}

#[derive(Debug, Clone, PartialEq)]
pub struct SessionMetadata {
    pub schema_version: String,
    pub session_id: String,
    pub host_id: String,
    pub status: SessionStatus,
    pub created_at: String,
    pub updated_at: String,
    pub closed_at: Option<String>,
    pub event_count: u64,
    pub summary: Option<String>,
    pub active_theme: Option<String>,
    pub tags: Vec<String>,
    pub archived_to: Vec<String>,
    pub archived_event_ids: Vec<String>,
    pub archived_event_index_complete: bool,
    pub notes: Vec<String>,
}

#[derive(Debug, Clone, PartialEq)]
pub struct SchemaVersions {
    pub event: String,
    pub session: String,
    pub archive_entry: String,
    pub core_store: String,
    pub core_fact: String,
    pub candidate_belief: String,
    pub pending_task: String,
    pub journal_operation: String,
}

#[derive(Debug, Clone, Copy, PartialEq, Eq, Structural)]
pub struct FeatureFlags {
    pub recall_stage: RecallStage,
    pub embeddings_enabled: bool,
    pub llm_recall_rerank_enabled: bool,
    pub reflection_enabled: bool,
}

#[derive(Debug, Clone, PartialEq)]
pub struct Manifest {
    pub schema_version: String,
    pub engine_version: String,
    pub storage_id: String,
    pub created_at: String,
    pub updated_at: String,
    pub schema_versions: SchemaVersions,
    pub active_embedding_model_id: Option<String>,
    pub last_migration_at: Option<String>,
    pub features: FeatureFlags,
}

// ---------------------------------------------------------------- vectors

#[derive(Debug, Clone, Copy, PartialEq, Eq, Structural)]
pub enum VectorScopeStatus {
    Disabled,
    Building,
    Ready,
    Corrupt,
}

#[derive(Debug, Clone, Copy, PartialEq, Eq, Structural)]
pub enum VectorMetric {
    Cosine,
}

#[derive(Debug, Clone, PartialEq)]
pub struct VectorIndexManifest {
    pub schema_version: String,
    pub model_id: String,
    pub dim: usize,
    pub metric: VectorMetric,
    pub normalized: bool,
    pub rows: usize,
    pub state: VectorScopeStatus,
    pub built_at: String,
    pub updated_at: String,
    pub backfill_cursor: Option<String>,
}

#[derive(Debug, Clone, PartialEq)]
pub struct VectorRow {
    pub row: usize,
    pub memory_unit_id: String,
    pub archive_id: String,
    pub created_at: String,
    pub thesis_hash: String,
}

#[derive(Debug, Clone, PartialEq, Eq)]
pub struct VectorTombstone {
    pub memory_unit_id: String,
}

#[derive(Debug, Clone, PartialEq)]
pub struct VectorScopeState {
    pub schema_version: String,
    pub scope: String,
    pub status: VectorScopeStatus,
    pub rows: usize,
    pub model_id: Option<String>,
    pub dim: Option<usize>,
    pub updated_at: Option<String>,
    pub reason: Option<String>,
}

#[derive(Debug, Clone, PartialEq, Eq)]
pub struct EmbedBatchItem {
    pub memory_unit_id: String,
    pub text: String,
}

#[derive(Debug, Clone, PartialEq)]
pub struct EmbedBatchInputs {
    pub kind: String,
    pub scope: String,
    pub model_id: String,
    pub dim: usize,
    pub items: Vec<EmbedBatchItem>,
}

} // verus!
