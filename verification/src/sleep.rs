//! The multi-pass sleep run: which requests are due, how the run moves
//! from extraction to consolidation to finishing, how failed passes are
//! retried and given up, and how the result is tagged.
//!
//! The JSON payloads of requests and pass results are carried through
//! unchanged; the host builds them and the run's control decisions live here.
use vstd::prelude::*;
use crate::text::{concat_str, opt_view, strs};
use crate::strset::str_eq;
use crate::tokens::{contains_substring, has_sub, normalized_upto, push_unique, unique_strings};
use crate::strset::sorted_set;
use crate::status::{stage_of, state_stage};
use crate::types::{ModelRole, SleepRunStage, SleepTrack};
use crate::error::MemoryEngineError;

verus! {

pub const SLEEP_RUN_SCHEMA_VERSION: &'static str = "sleep_run.v1";

pub const DEFAULT_SLEEP_PASS_MAX_ATTEMPTS: u32 = 3;

pub const CONSOLIDATOR_GIST_REJECTED_MARKER: &'static str = "consolidator_gist_rejected";

/// One request to a language model on behalf of a pending task.
#[derive(Debug)]
pub struct LlmRequest {
    pub request_id: String,
    pub task_id: String,
    pub role_hint: ModelRole,
    pub prompt_id: String,
    pub prompt_version: u32,
    pub prompt_inputs: serde_json::Value,
    pub expected_output_schema: String,
}

/// The state of one pass of a sleep run.
#[derive(Debug)]
pub struct SleepRequestState {
    pub track: SleepTrack,
    pub request: LlmRequest,
    pub attempts: u32,
    pub completed: bool,
    pub last_error: Option<String>,
}

/// A sleep run in progress: its passes and what they produced.
#[derive(Debug)]
pub struct SleepRun {
    pub schema_version: String,
    pub session_id: String,
    pub archive_id: String,
    pub sleep_task_id: String,
    pub memory_unit_task_id: Option<String>,
    pub stage: SleepRunStage,
    pub max_pass_attempts: u32,
    pub requests: Vec<SleepRequestState>,
    pub failed_passes: Vec<String>,
    pub memory_unit_result: Option<serde_json::Value>,
    pub emotional_pass: Option<serde_json::Value>,
    pub topic_thread_pass: Option<serde_json::Value>,
    pub personal_signal_pass: Option<serde_json::Value>,
    pub relational_pass: Option<serde_json::Value>,
    pub consolidator_gist: Option<String>,
    pub consolidator_narrative: Option<String>,
    pub completion_mode: Option<String>,
}

// ---------------------------------------------------------------- validation

/// Why a stored run is refused, if it is.
pub open spec fn sleep_run_problem(run: SleepRun) -> Option<Seq<char>> {
    if run.schema_version@ != SLEEP_RUN_SCHEMA_VERSION@ {
        Some(run.schema_version@)
    } else if crate::text::trim_seq(run.session_id@).len() == 0 || crate::text::trim_seq(
        run.archive_id@,
    ).len() == 0 || crate::text::trim_seq(run.sleep_task_id@).len() == 0 {
        Some("sleep run must include session_id, archive_id, and sleep_task_id"@)
    } else {
        None
    }
}

/// Checks that a run has the current schema and names its session, its
/// archive and its sleep task.
pub fn validate_sleep_run(run: &SleepRun) -> (r: Result<(), MemoryEngineError>)
    ensures
        run.schema_version@ != SLEEP_RUN_SCHEMA_VERSION@ ==> (r matches Err(
            MemoryEngineError::IncompatibleSchema { expected, actual },
        ) && expected@ == SLEEP_RUN_SCHEMA_VERSION@ && actual@ == run.schema_version@),
        run.schema_version@ == SLEEP_RUN_SCHEMA_VERSION@ && sleep_run_problem(*run) is Some ==> (
        r matches Err(MemoryEngineError::Validation(m)) && m@ == sleep_run_problem(*run).unwrap()),
        sleep_run_problem(*run) is None <==> r is Ok,
{
    if !str_eq(run.schema_version.as_str(), SLEEP_RUN_SCHEMA_VERSION) {
        return Err(
            MemoryEngineError::IncompatibleSchema {
                expected: SLEEP_RUN_SCHEMA_VERSION.to_string(),
                actual: run.schema_version.clone(),
            },
        );
    }
    if crate::text::is_blank(run.session_id.as_str()) || crate::text::is_blank(
        run.archive_id.as_str(),
    ) || crate::text::is_blank(run.sleep_task_id.as_str()) {
        return Err(
            MemoryEngineError::Validation(
                "sleep run must include session_id, archive_id, and sleep_task_id".to_string(),
            ),
        );
    }
    Ok(())
}

// ---------------------------------------------------------------- stages

/// Order of the stages of a run.
pub open spec fn stage_rank(stage: SleepRunStage) -> int {
    match stage {
        SleepRunStage::Extraction => 0,
        SleepRunStage::Consolidation => 1,
        SleepRunStage::ReadyToFinish => 2,
        SleepRunStage::Finished => 3,
    }
}

/// Every request that belongs to `stage` is completed.
pub open spec fn stage_done(requests: Seq<SleepRequestState>, stage: SleepRunStage) -> bool {
    forall|i: int|
        0 <= i < requests.len() && stage_of(#[trigger] requests[i].track) == stage
            ==> requests[i].completed
}

/// The stage a run moves to: on from extraction or consolidation once all
/// of that stage's requests are completed; otherwise where it is.
pub open spec fn advanced_stage(stage: SleepRunStage, requests: Seq<SleepRequestState>) -> SleepRunStage {
    match stage {
        SleepRunStage::Extraction => if stage_done(requests, SleepRunStage::Extraction) {
            SleepRunStage::Consolidation
        } else {
            SleepRunStage::Extraction
        },
        SleepRunStage::Consolidation => if stage_done(requests, SleepRunStage::Consolidation) {
            SleepRunStage::ReadyToFinish
        } else {
            SleepRunStage::Consolidation
        },
        _ => stage,
    }
}

/// The run has a consolidator request.
pub open spec fn has_consolidator(requests: Seq<SleepRequestState>) -> bool {
    exists|i: int| 0 <= i < requests.len() && #[trigger] requests[i].track == SleepTrack::Consolidator
}

/// The run fell back to its tracks after the consolidator gave up.
pub open spec fn fell_back(completion_mode: Option<String>) -> bool {
    opt_view(completion_mode) == Some("fallback_from_tracks"@)
}

fn stage_is_done(requests: &Vec<SleepRequestState>, stage: SleepRunStage) -> (r: bool)
    ensures
        r == stage_done(requests@, stage),
{
    let mut i: usize = 0;
    while i < requests.len()
        invariant
            i <= requests@.len(),
            forall|k: int|
                0 <= k < i && stage_of(#[trigger] requests@[k].track) == stage
                    ==> requests@[k].completed,
        decreases requests@.len() - i,
    {
        if state_stage(requests[i].track) == stage && !requests[i].completed {
            return false;
        }
        i = i + 1;
    }
    true
}

fn has_consolidator_request(requests: &Vec<SleepRequestState>) -> (r: bool)
    ensures
        r == has_consolidator(requests@),
{
    let mut i: usize = 0;
    while i < requests.len()
        invariant
            i <= requests@.len(),
            forall|k: int| 0 <= k < i ==> #[trigger] requests@[k].track != SleepTrack::Consolidator,
        decreases requests@.len() - i,
    {
        if requests[i].track == SleepTrack::Consolidator {
            return true;
        }
        i = i + 1;
    }
    false
}

/// Moves the run to its next stage when the current one is done. Returns
/// whether the run has just entered consolidation without a consolidator
/// request, which the host then adds.
pub fn advance_sleep_run_stage(run: &mut SleepRun) -> (needs_consolidator: bool)
    ensures
        final(run).stage == advanced_stage(old(run).stage, old(run).requests@),
        *final(run) == (SleepRun { stage: final(run).stage, ..*old(run) }),
        final(run).requests@ == old(run).requests@,
        final(run).failed_passes@ == old(run).failed_passes@,
        final(run).completion_mode == old(run).completion_mode,
        final(run).max_pass_attempts == old(run).max_pass_attempts,
        needs_consolidator == (old(run).stage == SleepRunStage::Extraction && final(run).stage
            == SleepRunStage::Consolidation && !has_consolidator(old(run).requests@) && !fell_back(
            old(run).completion_mode,
        )),
{
    match run.stage {
        SleepRunStage::Extraction => {
            if stage_is_done(&run.requests, SleepRunStage::Extraction) {
                run.stage = SleepRunStage::Consolidation;
                let fallback = match &run.completion_mode {
                    Some(mode) => str_eq(mode.as_str(), "fallback_from_tracks"),
                    None => false,
                };
                return !has_consolidator_request(&run.requests) && !fallback;
            }
            false
        },
        SleepRunStage::Consolidation => {
            if stage_is_done(&run.requests, SleepRunStage::Consolidation) {
                run.stage = SleepRunStage::ReadyToFinish;
            }
            false
        },
        _ => false,
    }
}

/// A run never moves back: advancing keeps or raises its stage by one.
pub proof fn lemma_advance_is_monotone(stage: SleepRunStage, requests: Seq<SleepRequestState>)
    ensures
        stage_rank(advanced_stage(stage, requests)) >= stage_rank(stage),
        stage_rank(advanced_stage(stage, requests)) <= stage_rank(stage) + 1,
        stage != SleepRunStage::Finished ==> advanced_stage(stage, requests)
            != SleepRunStage::Finished,
{
}

/// The requests that are due: not completed and of the run's stage, by
/// index in order.
pub open spec fn due_request(run: SleepRun, i: int) -> bool {
    !run.requests@[i].completed && stage_of(run.requests@[i].track) == run.stage
}

/// Indices of the requests that are due in the run's current stage.
pub fn due_request_indices(run: &SleepRun) -> (r: Vec<usize>)
    ensures
        forall|k: int| 0 <= k < r@.len() ==> r@[k] < run.requests@.len() && due_request(*run, #[trigger] r@[k] as int),
        forall|i: int| 0 <= i < run.requests@.len() && due_request(*run, i) ==> r@.contains(i as usize),
        forall|a: int, b: int| 0 <= a < b < r@.len() ==> r@[a] < r@[b],
{
    let mut out: Vec<usize> = Vec::new();
    let mut i: usize = 0;
    while i < run.requests.len()
        invariant
            i <= run.requests@.len(),
            forall|k: int| 0 <= k < out@.len() ==> out@[k] < i && due_request(*run, #[trigger] out@[k] as int),
            forall|j: int| 0 <= j < i && due_request(*run, j) ==> out@.contains(j as usize),
            forall|a: int, b: int| 0 <= a < b < out@.len() ==> out@[a] < out@[b],
        decreases run.requests@.len() - i,
    {
        let state = &run.requests[i];
        if !state.completed && state_stage(state.track) == run.stage {
            let ghost prev = out@;
            out.push(i);
            assert forall|j: int| 0 <= j < i + 1 && due_request(*run, j) implies out@.contains(
                j as usize,
            ) by {
                if j < i {
                    let k = choose|k: int| 0 <= k < prev.len() && prev[k] == j as usize;
                    assert(out@[k] == j as usize);
                } else {
                    assert(out@[out@.len() - 1] == i);
                }
            }
        }
        i = i + 1;
    }
    out
}

/// Index of the first request with `request_id`.
pub fn find_request_index(run: &SleepRun, request_id: &str) -> (r: Option<usize>)
    ensures
        match r {
            Some(i) => i < run.requests@.len() && run.requests@[i as int].request.request_id@
                == request_id@ && forall|k: int|
                0 <= k < i ==> #[trigger] run.requests@[k].request.request_id@ != request_id@,
            None => forall|k: int|
                0 <= k < run.requests@.len() ==> #[trigger] run.requests@[k].request.request_id@
                    != request_id@,
        },
{
    let mut i: usize = 0;
    while i < run.requests.len()
        invariant
            i <= run.requests@.len(),
            forall|k: int| 0 <= k < i ==> #[trigger] run.requests@[k].request.request_id@ != request_id@,
        decreases run.requests@.len() - i,
    {
        if str_eq(run.requests[i].request.request_id.as_str(), request_id) {
            return Some(i);
        }
        i = i + 1;
    }
    None
}

// ---------------------------------------------------------------- attempts

/// Counts a new attempt of a pass. A completed pass takes no more
/// attempts: `false` and nothing changes.
pub fn begin_pass_attempt(state: &mut SleepRequestState) -> (counted: bool)
    ensures
        counted == !old(state).completed,
        counted ==> final(state).attempts == (if old(state).attempts < u32::MAX {
            old(state).attempts + 1
        } else {
            old(state).attempts as int
        }),
        !counted ==> final(state).attempts == old(state).attempts,
        final(state).completed == old(state).completed,
        final(state).track == old(state).track,
        final(state).last_error == old(state).last_error,
        final(state).request == old(state).request,
{
    if state.completed {
        return false;
    }
    if state.attempts < u32::MAX {
        state.attempts = state.attempts + 1;
    }
    true
}

/// Marks a pass whose answer was accepted.
pub fn complete_pass(state: &mut SleepRequestState)
    ensures
        final(state).completed,
        final(state).last_error is None,
        final(state).attempts == old(state).attempts,
        final(state).track == old(state).track,
        final(state).request == old(state).request,
{
    state.completed = true;
    state.last_error = None;
}

/// Records the consolidator's accepted gist and narrative.
pub fn accept_consolidation(run: &mut SleepRun, gist: String, narrative: String)
    ensures
        opt_view(final(run).consolidator_gist) == Some(gist@),
        opt_view(final(run).consolidator_narrative) == Some(narrative@),
        opt_view(final(run).completion_mode) == Some("consolidated"@),
        final(run).stage == old(run).stage,
        final(run).requests@ == old(run).requests@,
        final(run).failed_passes@ == old(run).failed_passes@,
{
    run.consolidator_gist = Some(gist);
    run.consolidator_narrative = Some(narrative);
    run.completion_mode = Some("consolidated".to_string());
}

/// What becomes of a pass whose answer was refused.
#[derive(Debug, Clone, Copy, PartialEq, Eq, Structural)]
pub enum PassErrorOutcome {
    /// Attempts are left: the host asks again, with a retry instruction.
    Retry,
    /// No attempts are left: the pass is given up and completed; the host
    /// records the track's fallback result unless it is the consolidator.
    GivenUp,
}

/// Handles a refused answer of a pass: the error is kept; while attempts
/// are left the pass is retried (the memory-unit pass switches to the
/// reasoning model for its last attempt); otherwise its prompt is recorded
/// once among the failed passes, a consolidator failure makes the run fall
/// back to its tracks, and the pass is completed.
pub fn handle_sleep_pass_error(run: &mut SleepRun, state: &mut SleepRequestState, error: String) -> (r:
    PassErrorOutcome)
    ensures
        opt_view(final(state).last_error) == Some(error@),
        final(state).attempts == old(state).attempts,
        final(state).track == old(state).track,
        final(state).request.prompt_id == old(state).request.prompt_id,
        final(state).request.request_id == old(state).request.request_id,
        final(run).stage == old(run).stage,
        final(run).requests@ == old(run).requests@,
        final(run).max_pass_attempts == old(run).max_pass_attempts,
        old(state).attempts < old(run).max_pass_attempts ==> {
            &&& r == PassErrorOutcome::Retry
            &&& final(state).completed == old(state).completed
            &&& final(run).failed_passes@ == old(run).failed_passes@
            &&& final(run).completion_mode == old(run).completion_mode
            &&& final(state).request.role_hint == (if old(state).track == SleepTrack::MemoryUnit
                && old(state).attempts + 1 >= old(run).max_pass_attempts {
                ModelRole::Reasoning
            } else {
                old(state).request.role_hint
            })
        },
        old(state).attempts >= old(run).max_pass_attempts ==> {
            &&& r == PassErrorOutcome::GivenUp
            &&& final(state).completed
            &&& final(state).request.role_hint == old(state).request.role_hint
            &&& strs(final(run).failed_passes@) == (if strs(old(run).failed_passes@).contains(
                old(state).request.prompt_id@,
            ) {
                strs(old(run).failed_passes@)
            } else {
                strs(old(run).failed_passes@).push(old(state).request.prompt_id@)
            })
            &&& old(state).track != SleepTrack::Consolidator ==> final(run).completion_mode
                == old(run).completion_mode
            &&& old(state).track == SleepTrack::Consolidator ==> fell_back(final(run).completion_mode)
        },
{
    state.last_error = Some(error);
    if state.attempts < run.max_pass_attempts {
        if state.track == SleepTrack::MemoryUnit && state.attempts as u64 + 1 >= run.max_pass_attempts as u64 {
            state.request.role_hint = ModelRole::Reasoning;
        }
        return PassErrorOutcome::Retry;
    }
    let prompt_id = state.request.prompt_id.clone();
    push_unique(&mut run.failed_passes, prompt_id);
    if state.track == SleepTrack::Consolidator {
        run.completion_mode = Some("fallback_from_tracks".to_string());
    }
    state.completed = true;
    PassErrorOutcome::GivenUp
}

// ---------------------------------------------------------------- result tags

/// Whether the consolidator gave up because its gist was refused.
pub open spec fn gist_rejected(run: SleepRun) -> bool {
    strs(run.failed_passes@).contains("sleep_consolidator"@) && exists|i: int|
        0 <= i < run.requests@.len() && (#[trigger] run.requests@[i]).track == SleepTrack::Consolidator
            && run.requests@[i].last_error is Some && has_sub(
            run.requests@[i].last_error.unwrap()@,
            CONSOLIDATOR_GIST_REJECTED_MARKER@,
        )
}

/// The tags a finished run adds to its result, before deduplication.
pub open spec fn run_tags(run: SleepRun) -> Seq<Seq<char>> {
    (match run.completion_mode {
        Some(mode) => seq!["completion_mode:"@ + mode@],
        None => Seq::empty(),
    }) + (if gist_rejected(run) {
        seq![CONSOLIDATOR_GIST_REJECTED_MARKER@]
    } else {
        Seq::empty()
    }) + strs(run.failed_passes@).map_values(|p: Seq<char>| "pass_failed:"@ + p)
}

fn consolidator_gist_was_rejected(run: &SleepRun) -> (r: bool)
    ensures
        r == gist_rejected(*run),
{
    if !crate::strset::contains_str(&run.failed_passes, "sleep_consolidator") {
        return false;
    }
    let mut i: usize = 0;
    while i < run.requests.len()
        invariant
            i <= run.requests@.len(),
            strs(run.failed_passes@).contains("sleep_consolidator"@),
            forall|k: int|
                0 <= k < i ==> !((#[trigger] run.requests@[k]).track == SleepTrack::Consolidator
                    && run.requests@[k].last_error is Some && has_sub(
                    run.requests@[k].last_error.unwrap()@,
                    CONSOLIDATOR_GIST_REJECTED_MARKER@,
                )),
        decreases run.requests@.len() - i,
    {
        let state = &run.requests[i];
        if state.track == SleepTrack::Consolidator {
            match &state.last_error {
                Some(e) => {
                    if contains_substring(e.as_str(), CONSOLIDATOR_GIST_REJECTED_MARKER) {
                        return true;
                    }
                },
                None => {},
            }
        }
        i = i + 1;
    }
    false
}

/// Tags a sleep result with how its run completed, a refused consolidator
/// gist and each failed pass, then normalizes, deduplicates and sorts them.
pub fn apply_sleep_run_tags(tags: Vec<String>, run: &SleepRun) -> (r: Vec<String>)
    ensures
        sorted_set(strs(r@)),
        strs(r@).to_set() == normalized_upto(strs(tags@) + run_tags(*run), (tags@.len() + run_tags(*run).len()) as int),
{
    let mut tags = tags;
    let ghost t0 = strs(tags@);
    match &run.completion_mode {
        Some(mode) => {
            let t = concat_str("completion_mode:", mode.as_str());
            tags.push(t);
        },
        None => {},
    }
    let ghost t1 = strs(tags@);
    if consolidator_gist_was_rejected(run) {
        tags.push(CONSOLIDATOR_GIST_REJECTED_MARKER.to_string());
    }
    let ghost t2 = strs(tags@);
    let mut i: usize = 0;
    while i < run.failed_passes.len()
        invariant
            i <= run.failed_passes@.len(),
            strs(tags@) == t2 + strs(run.failed_passes@).take(i as int).map_values(
                |p: Seq<char>| "pass_failed:"@ + p,
            ),
        decreases run.failed_passes@.len() - i,
    {
        let t = concat_str("pass_failed:", run.failed_passes[i].as_str());
        let ghost prev = strs(tags@);
        tags.push(t);
        assert(strs(tags@) =~= prev.push(t@));
        assert(strs(run.failed_passes@).take(i + 1).map_values(|p: Seq<char>| "pass_failed:"@ + p)
            =~= strs(run.failed_passes@).take(i as int).map_values(|p: Seq<char>| "pass_failed:"@ + p).push(t@));
        i = i + 1;
    }
    assert(strs(run.failed_passes@).take(run.failed_passes@.len() as int) =~= strs(run.failed_passes@));
    assert(strs(tags@) =~= t0 + run_tags(*run));
    unique_strings(tags)
}

} // verus!
