//! Decisions that depend on a record's status alone.
use vstd::prelude::*;
use crate::types::{
    CoreFactStatus, FidelityStatus, LlmResponse, MemoryUnit, MemoryUnitStatus, SleepRunStage,
    SleepTrack, TaskState,
};

verus! {

/// Core facts that the context package shows: active and contested ones.
pub open spec fn visible_in_context(status: CoreFactStatus) -> bool {
    status == CoreFactStatus::Active || status == CoreFactStatus::Contested
}

/// Whether a core fact with `status` may appear in a context package.
pub fn core_fact_visible_in_context(status: CoreFactStatus) -> (r: bool)
    ensures
        r == visible_in_context(status),
{
    match status {
        CoreFactStatus::Active | CoreFactStatus::Contested => true,
        _ => false,
    }
}

/// The order in which core facts are listed: active, contested, needs
/// review, contradicted, deprecated.
pub open spec fn status_rank(status: CoreFactStatus) -> u8 {
    match status {
        CoreFactStatus::Active => 0,
        CoreFactStatus::Contested => 1,
        CoreFactStatus::NeedsReview => 2,
        CoreFactStatus::Contradicted => 3,
        CoreFactStatus::Deprecated => 4,
    }
}

/// Rank of a core fact status in the context ordering.
pub fn core_context_status_rank(status: CoreFactStatus) -> (r: u8)
    ensures
        r == status_rank(status),
{
    match status {
        CoreFactStatus::Active => 0,
        CoreFactStatus::Contested => 1,
        CoreFactStatus::NeedsReview => 2,
        CoreFactStatus::Contradicted => 3,
        CoreFactStatus::Deprecated => 4,
    }
}

/// The visible statuses are exactly the two first in rank.
pub proof fn lemma_visible_iff_rank_low(status: CoreFactStatus)
    ensures
        visible_in_context(status) <==> status_rank(status) < 2,
{
}

/// Where a memory unit goes after a fidelity check: confirmed units stay
/// active, unsupported or distorted ones are rejected, the rest need work.
pub open spec fn status_after_fidelity(status: FidelityStatus) -> MemoryUnitStatus {
    match status {
        FidelityStatus::Valid | FidelityStatus::SelfChecked => MemoryUnitStatus::ActiveArchive,
        FidelityStatus::Unsupported | FidelityStatus::Distorted => MemoryUnitStatus::Rejected,
        _ => MemoryUnitStatus::NeedsRevision,
    }
}

/// A fidelity check rejects a memory unit exactly when its verdict says the
/// source does not back the memory, unsupported or distorted alike; it
/// keeps the unit active exactly when the memory is confirmed. A verdict
/// that bars an active unit from the vector index, other than a request for
/// revision, is a rejection.
pub proof fn lemma_unbacked_memory_is_rejected(f: FidelityStatus, unit: MemoryUnit)
    ensures
        status_after_fidelity(FidelityStatus::Unsupported) == status_after_fidelity(
            FidelityStatus::Distorted,
        ),
        (status_after_fidelity(f) == MemoryUnitStatus::Rejected) <==> (f == FidelityStatus::Unsupported
            || f == FidelityStatus::Distorted),
        (status_after_fidelity(f) == MemoryUnitStatus::ActiveArchive) <==> (f == FidelityStatus::Valid
            || f == FidelityStatus::SelfChecked),
        !vector_eligible((MemoryUnit { status: MemoryUnitStatus::ActiveArchive, fidelity_status: f, ..unit }))
            && f != FidelityStatus::NeedsRevision ==> status_after_fidelity(f) == MemoryUnitStatus::Rejected,
{
}

/// The memory-unit status a fidelity verdict leads to.
pub fn memory_unit_status_after_fidelity(status: FidelityStatus) -> (r: MemoryUnitStatus)
    ensures
        r == status_after_fidelity(status),
{
    match status {
        FidelityStatus::Valid | FidelityStatus::SelfChecked => MemoryUnitStatus::ActiveArchive,
        FidelityStatus::Unsupported | FidelityStatus::Distorted => MemoryUnitStatus::Rejected,
        FidelityStatus::Unchecked
        | FidelityStatus::TooBroad
        | FidelityStatus::MissingKeyDetail
        | FidelityStatus::NeedsRevision => MemoryUnitStatus::NeedsRevision,
    }
}

/// The stage a sleep track's request belongs to.
pub open spec fn stage_of(track: SleepTrack) -> SleepRunStage {
    match track {
        SleepTrack::Consolidator => SleepRunStage::Consolidation,
        _ => SleepRunStage::Extraction,
    }
}

/// The stage in which requests of `track` run: the consolidator runs in
/// consolidation, every extraction track before it.
pub fn state_stage(track: SleepTrack) -> (r: SleepRunStage)
    ensures
        r == stage_of(track),
{
    match track {
        SleepTrack::Consolidator => SleepRunStage::Consolidation,
        SleepTrack::MemoryUnit
        | SleepTrack::Emotional
        | SleepTrack::TopicThread
        | SleepTrack::PersonalSignal
        | SleepTrack::Relational => SleepRunStage::Extraction,
    }
}

pub open spec fn terminal(state: TaskState) -> bool {
    state == TaskState::Completed || state == TaskState::Failed || state == TaskState::Cancelled
}

/// Whether a task is finished: completed, failed or cancelled.
pub fn task_state_is_terminal(state: &TaskState) -> (r: bool)
    ensures
        r == terminal(*state),
{
    match state {
        TaskState::Completed | TaskState::Failed | TaskState::Cancelled => true,
        _ => false,
    }
}

/// Whether a task still awaits work: pending or submitted.
pub fn task_state_is_open(state: &TaskState) -> (r: bool)
    ensures
        r == (*state == TaskState::Pending || *state == TaskState::Submitted),
        r == !terminal(*state),
{
    match state {
        TaskState::Pending | TaskState::Submitted => true,
        _ => false,
    }
}

/// Whether the unit was forgotten by a forget review.
pub fn is_forgotten(unit: &MemoryUnit) -> (r: bool)
    ensures
        r == (unit.status == MemoryUnitStatus::Forgotten),
{
    unit.status == MemoryUnitStatus::Forgotten
}

pub open spec fn vector_eligible(unit: MemoryUnit) -> bool {
    unit.status == MemoryUnitStatus::ActiveArchive && !(unit.fidelity_status
        == FidelityStatus::Distorted || unit.fidelity_status == FidelityStatus::Unsupported
        || unit.fidelity_status == FidelityStatus::NeedsRevision)
}

/// Whether a unit belongs in the vector index: active and not found
/// distorted, unsupported or in need of revision.
pub fn memory_unit_is_vector_eligible(unit: &MemoryUnit) -> (r: bool)
    ensures
        r == vector_eligible(*unit),
{
    unit.status == MemoryUnitStatus::ActiveArchive && !(unit.fidelity_status
        == FidelityStatus::Distorted || unit.fidelity_status == FidelityStatus::Unsupported
        || unit.fidelity_status == FidelityStatus::NeedsRevision)
}

/// A forgotten unit is never vector-eligible.
pub proof fn lemma_forgotten_not_vector_eligible(unit: MemoryUnit)
    requires
        unit.status == MemoryUnitStatus::Forgotten,
    ensures
        !vector_eligible(unit),
{
}

pub open spec fn response_request_id(response: LlmResponse) -> Seq<char> {
    match response {
        LlmResponse::Success { request_id, .. } => request_id@,
        LlmResponse::Failure { request_id, .. } => request_id@,
    }
}

/// The id of the request a response answers.
pub fn llm_response_request_id(response: &LlmResponse) -> (r: &str)
    ensures
        r@ == response_request_id(*response),
{
    match response {
        LlmResponse::Success { request_id, .. } => request_id.as_str(),
        LlmResponse::Failure { request_id, .. } => request_id.as_str(),
    }
}

} // verus!
