//! Pending tasks for a language model, the request each one becomes, and
//! the sleep run that stage one of a sleep starts: a memory unit pass when
//! there is one, then the four extraction passes.
use vstd::prelude::*;
use crate::sleep::{
    accept_consolidation, advance_sleep_run_stage, advanced_stage, complete_pass, fell_back,
    handle_sleep_pass_error, has_consolidator, LlmRequest, PassErrorOutcome, SleepRequestState,
    SleepRun, DEFAULT_SLEEP_PASS_MAX_ATTEMPTS, SLEEP_RUN_SCHEMA_VERSION,
};
use crate::text::opt_view;
use crate::types::{ModelRole, SleepRunStage, SleepTrack, TaskAttempt, TaskState, TaskType};

verus! {

/// Work that waits for a language model.
#[derive(Debug)]
pub struct PendingTask {
    pub schema_version: String,
    pub task_id: String,
    pub task_type: TaskType,
    pub state: TaskState,
    pub created_at: String,
    pub updated_at: String,
    pub prompt_id: String,
    pub prompt_version: u32,
    pub role_hint: ModelRole,
    pub expected_output_schema: String,
    pub inputs: serde_json::Value,
    pub attempts: Vec<TaskAttempt>,
    pub last_error: Option<String>,
}

/// `r` asks for `task` with prompt `prompt_id`, inputs `prompt_inputs` and
/// answer schema `schema`, under identifier `request_id`.
pub open spec fn request_for(
    r: LlmRequest,
    request_id: Seq<char>,
    task: PendingTask,
    prompt_id: Seq<char>,
    prompt_inputs: serde_json::Value,
    schema: Seq<char>,
) -> bool {
    &&& r.request_id@ == request_id
    &&& r.task_id@ == task.task_id@
    &&& r.role_hint == task.role_hint
    &&& r.prompt_id@ == prompt_id
    &&& r.prompt_version == task.prompt_version
    &&& r.prompt_inputs == prompt_inputs
    &&& r.expected_output_schema@ == schema
}

/// The request for a task under a given prompt: the task's identifier, role,
/// prompt version and answer schema, with the given inputs.
pub fn llm_request_from_task(
    task: &PendingTask,
    prompt_id: &str,
    prompt_inputs: serde_json::Value,
    request_id: String,
) -> (r: LlmRequest)
    ensures
        request_for(
            r,
            request_id@,
            *task,
            prompt_id@,
            prompt_inputs,
            task.expected_output_schema@,
        ),
{
    LlmRequest {
        request_id,
        task_id: task.task_id.clone(),
        role_hint: task.role_hint,
        prompt_id: prompt_id.to_string(),
        prompt_version: task.prompt_version,
        prompt_inputs,
        expected_output_schema: task.expected_output_schema.clone(),
    }
}

/// The identifier and prompt inputs of one request of a new run.
pub struct TrackRequestSeed {
    pub request_id: String,
    pub prompt_inputs: serde_json::Value,
}

/// The prompt of each pass of a sleep.
pub open spec fn extraction_prompt_id(track: SleepTrack) -> Seq<char> {
    match track {
        SleepTrack::Emotional => "sleep_emotional_pass"@,
        SleepTrack::TopicThread => "sleep_topic_thread_pass"@,
        SleepTrack::PersonalSignal => "sleep_personal_signal_pass"@,
        SleepTrack::Relational => "sleep_relational_pass"@,
        SleepTrack::MemoryUnit => "memory_unit_pass"@,
        SleepTrack::Consolidator => "sleep_consolidator"@,
    }
}

/// The answer schema of each extraction pass: its prompt, version one.
pub open spec fn extraction_schema(track: SleepTrack) -> Seq<char> {
    extraction_prompt_id(track) + ".v1"@
}

/// A request state that no attempt has touched yet.
pub open spec fn fresh_state(s: SleepRequestState) -> bool {
    s.attempts == 0 && !s.completed && s.last_error is None
}

/// `s` is the fresh extraction pass of `track` for the sleep task.
pub open spec fn extraction_state(
    s: SleepRequestState,
    track: SleepTrack,
    seed: TrackRequestSeed,
    sleep_task: PendingTask,
) -> bool {
    &&& s.track == track
    &&& fresh_state(s)
    &&& request_for(
        s.request,
        seed.request_id@,
        sleep_task,
        extraction_prompt_id(track),
        seed.prompt_inputs,
        extraction_schema(track),
    )
}

fn extraction_request(
    track: SleepTrack,
    prompt_id: &str,
    schema: &str,
    seed: TrackRequestSeed,
    sleep_task: &PendingTask,
) -> (r: SleepRequestState)
    requires
        prompt_id@ == extraction_prompt_id(track),
        schema@ == extraction_schema(track),
    ensures
        extraction_state(r, track, seed, *sleep_task),
{
    SleepRequestState {
        track,
        request: LlmRequest {
            request_id: seed.request_id,
            task_id: sleep_task.task_id.clone(),
            role_hint: sleep_task.role_hint,
            prompt_id: prompt_id.to_string(),
            prompt_version: sleep_task.prompt_version,
            prompt_inputs: seed.prompt_inputs,
            expected_output_schema: schema.to_string(),
        },
        attempts: 0,
        completed: false,
        last_error: None,
    }
}

/// The run that stage one starts for archive `archive_id` of session
/// `session_id`: in extraction, with a fresh memory unit pass first when
/// stage one made a memory unit task, then the emotional, topic thread,
/// personal signal and relational passes of the sleep task, no results yet.
pub fn sleep_run_from_stage1(
    session_id: String,
    archive_id: String,
    sleep_task: &PendingTask,
    memory_unit: Option<(&PendingTask, TrackRequestSeed)>,
    emotional: TrackRequestSeed,
    topic_thread: TrackRequestSeed,
    personal_signal: TrackRequestSeed,
    relational: TrackRequestSeed,
) -> (r: SleepRun)
    ensures
        r.schema_version@ == SLEEP_RUN_SCHEMA_VERSION@,
        r.session_id == session_id,
        r.archive_id == archive_id,
        r.sleep_task_id@ == sleep_task.task_id@,
        r.stage == SleepRunStage::Extraction,
        r.max_pass_attempts == DEFAULT_SLEEP_PASS_MAX_ATTEMPTS,
        r.failed_passes@.len() == 0,
        r.memory_unit_result is None,
        r.emotional_pass is None,
        r.topic_thread_pass is None,
        r.personal_signal_pass is None,
        r.relational_pass is None,
        r.consolidator_gist is None,
        r.consolidator_narrative is None,
        r.completion_mode is None,
        match memory_unit {
            Some((task, seed)) => {
                &&& r.memory_unit_task_id matches Some(id) && id@ == task.task_id@
                &&& r.requests@.len() == 5
                &&& r.requests@[0].track == SleepTrack::MemoryUnit
                &&& fresh_state(r.requests@[0])
                &&& request_for(
                    r.requests@[0].request,
                    seed.request_id@,
                    *task,
                    "memory_unit_pass"@,
                    seed.prompt_inputs,
                    task.expected_output_schema@,
                )
            },
            None => r.memory_unit_task_id is None && r.requests@.len() == 4,
        },
        extraction_state(
            r.requests@[r.requests@.len() - 4],
            SleepTrack::Emotional,
            emotional,
            *sleep_task,
        ),
        extraction_state(
            r.requests@[r.requests@.len() - 3],
            SleepTrack::TopicThread,
            topic_thread,
            *sleep_task,
        ),
        extraction_state(
            r.requests@[r.requests@.len() - 2],
            SleepTrack::PersonalSignal,
            personal_signal,
            *sleep_task,
        ),
        extraction_state(
            r.requests@[r.requests@.len() - 1],
            SleepTrack::Relational,
            relational,
            *sleep_task,
        ),
{
    let mut requests: Vec<SleepRequestState> = Vec::new();
    let memory_unit_task_id = match memory_unit {
        Some((task, seed)) => {
            let request = llm_request_from_task(task, "memory_unit_pass", seed.prompt_inputs, seed.request_id);
            requests.push(
                SleepRequestState {
                    track: SleepTrack::MemoryUnit,
                    request,
                    attempts: 0,
                    completed: false,
                    last_error: None,
                },
            );
            Some(task.task_id.clone())
        },
        None => None,
    };
    proof {
        reveal_strlit("sleep_emotional_pass");
        reveal_strlit("sleep_emotional_pass.v1");
        reveal_strlit("sleep_topic_thread_pass");
        reveal_strlit("sleep_topic_thread_pass.v1");
        reveal_strlit("sleep_personal_signal_pass");
        reveal_strlit("sleep_personal_signal_pass.v1");
        reveal_strlit("sleep_relational_pass");
        reveal_strlit("sleep_relational_pass.v1");
        reveal_strlit(".v1");
        assert("sleep_emotional_pass.v1"@ =~= "sleep_emotional_pass"@ + ".v1"@);
        assert("sleep_topic_thread_pass.v1"@ =~= "sleep_topic_thread_pass"@ + ".v1"@);
        assert("sleep_personal_signal_pass.v1"@ =~= "sleep_personal_signal_pass"@ + ".v1"@);
        assert("sleep_relational_pass.v1"@ =~= "sleep_relational_pass"@ + ".v1"@);
    }
    requests.push(
        extraction_request(
            SleepTrack::Emotional,
            "sleep_emotional_pass",
            "sleep_emotional_pass.v1",
            emotional,
            sleep_task,
        ),
    );
    requests.push(
        extraction_request(
            SleepTrack::TopicThread,
            "sleep_topic_thread_pass",
            "sleep_topic_thread_pass.v1",
            topic_thread,
            sleep_task,
        ),
    );
    requests.push(
        extraction_request(
            SleepTrack::PersonalSignal,
            "sleep_personal_signal_pass",
            "sleep_personal_signal_pass.v1",
            personal_signal,
            sleep_task,
        ),
    );
    requests.push(
        extraction_request(
            SleepTrack::Relational,
            "sleep_relational_pass",
            "sleep_relational_pass.v1",
            relational,
            sleep_task,
        ),
    );
    SleepRun {
        schema_version: SLEEP_RUN_SCHEMA_VERSION.to_string(),
        session_id,
        archive_id,
        sleep_task_id: sleep_task.task_id.clone(),
        memory_unit_task_id,
        stage: SleepRunStage::Extraction,
        max_pass_attempts: DEFAULT_SLEEP_PASS_MAX_ATTEMPTS,
        requests,
        failed_passes: Vec::new(),
        memory_unit_result: None,
        emotional_pass: None,
        topic_thread_pass: None,
        personal_signal_pass: None,
        relational_pass: None,
        consolidator_gist: None,
        consolidator_narrative: None,
        completion_mode: None,
    }
}

/// Whether `run` is `before` with the result of the pass of `track` set to
/// `value` and nothing else changed; the consolidator's result is taken
/// apart elsewhere and leaves the run as it was.
pub open spec fn track_result_recorded(
    run: SleepRun,
    before: SleepRun,
    track: SleepTrack,
    value: serde_json::Value,
) -> bool {
    match track {
        SleepTrack::MemoryUnit => run == SleepRun { memory_unit_result: Some(value), ..before },
        SleepTrack::Emotional => run == SleepRun { emotional_pass: Some(value), ..before },
        SleepTrack::TopicThread => run == SleepRun { topic_thread_pass: Some(value), ..before },
        SleepTrack::PersonalSignal => run == SleepRun { personal_signal_pass: Some(value), ..before },
        SleepTrack::Relational => run == SleepRun { relational_pass: Some(value), ..before },
        SleepTrack::Consolidator => run == before,
    }
}

/// Records the result of an extraction pass in the run.
pub fn record_track_result(run: &mut SleepRun, track: SleepTrack, value: serde_json::Value)
    ensures
        track_result_recorded(*final(run), *old(run), track, value),
{
    match track {
        SleepTrack::MemoryUnit => run.memory_unit_result = Some(value),
        SleepTrack::Emotional => run.emotional_pass = Some(value),
        SleepTrack::TopicThread => run.topic_thread_pass = Some(value),
        SleepTrack::PersonalSignal => run.personal_signal_pass = Some(value),
        SleepTrack::Relational => run.relational_pass = Some(value),
        SleepTrack::Consolidator => {},
    }
}

// ---------------------------------------------------------------- replies

/// A host's answer to one pass, as read: the document of an extraction
/// pass, the gist and narrative of the consolidator, or why the answer was
/// refused.
pub enum SleepReply {
    Accepted(serde_json::Value),
    Consolidated { gist: String, narrative: String },
    Refused(String),
}

/// What became of the pass that was answered.
#[derive(Debug, Clone, Copy, PartialEq, Eq, Structural)]
pub enum SleepReplyOutcome {
    /// The answer was taken and the pass completed.
    Completed,
    /// The answer was refused and attempts are left: the host asks again.
    Retry,
    /// The answer was refused with no attempts left: the pass is given up.
    GivenUp,
}

/// The result a run holds for an extraction track.
pub open spec fn track_result(run: SleepRun, track: SleepTrack) -> Option<serde_json::Value> {
    match track {
        SleepTrack::MemoryUnit => run.memory_unit_result,
        SleepTrack::Emotional => run.emotional_pass,
        SleepTrack::TopicThread => run.topic_thread_pass,
        SleepTrack::PersonalSignal => run.personal_signal_pass,
        SleepTrack::Relational => run.relational_pass,
        SleepTrack::Consolidator => None,
    }
}

/// Takes the answer to the pass at `index`: an accepted document becomes
/// the track's result, an accepted consolidation the run's gist and
/// narrative, and either completes the pass; a refused answer is retried
/// while attempts are left, and otherwise the pass is given up and an
/// extraction track takes `fallback` as its result. The run then moves on
/// when its stage is done; the returned flag says whether it has just
/// entered consolidation without a consolidator request.
pub fn apply_sleep_reply(
    run: &mut SleepRun,
    index: usize,
    reply: SleepReply,
    fallback: serde_json::Value,
) -> (r: (SleepReplyOutcome, bool))
    requires
        index < old(run).requests@.len(),
        old(run).requests@[index as int].track == SleepTrack::Consolidator ==> !(reply is Accepted),
        old(run).requests@[index as int].track != SleepTrack::Consolidator ==> !(reply is Consolidated),
    ensures
        ({
            let before = old(run).requests@[index as int];
            let after = final(run).requests@[index as int];
            &&& final(run).requests@.len() == old(run).requests@.len()
            &&& forall|k: int|
                0 <= k < old(run).requests@.len() && k != index ==> #[trigger] final(run).requests@[k]
                    == old(run).requests@[k]
            &&& after.track == before.track
            &&& after.attempts == before.attempts
            &&& after.request.request_id == before.request.request_id
            &&& match reply {
                SleepReply::Accepted(v) => {
                    &&& r.0 == SleepReplyOutcome::Completed
                    &&& after.completed && after.last_error is None
                    &&& track_result(*final(run), before.track) == Some(v)
                },
                SleepReply::Consolidated { gist, narrative } => {
                    &&& r.0 == SleepReplyOutcome::Completed
                    &&& after.completed && after.last_error is None
                    &&& opt_view(final(run).consolidator_gist) == Some(gist@)
                    &&& opt_view(final(run).consolidator_narrative) == Some(narrative@)
                    &&& opt_view(final(run).completion_mode) == Some("consolidated"@)
                },
                SleepReply::Refused(e) => {
                    &&& opt_view(after.last_error) == Some(e@)
                    &&& (before.attempts < old(run).max_pass_attempts ==> r.0 == SleepReplyOutcome::Retry
                        && after.completed == before.completed)
                    &&& (before.attempts >= old(run).max_pass_attempts ==> {
                        &&& r.0 == SleepReplyOutcome::GivenUp
                        &&& after.completed
                        &&& before.track != SleepTrack::Consolidator ==> track_result(
                            *final(run),
                            before.track,
                        ) == Some(fallback)
                        &&& before.track == SleepTrack::Consolidator ==> fell_back(
                            final(run).completion_mode,
                        )
                    })
                },
            }
            &&& final(run).stage == advanced_stage(old(run).stage, final(run).requests@)
            &&& r.1 == (old(run).stage == SleepRunStage::Extraction && final(run).stage
                == SleepRunStage::Consolidation && !has_consolidator(final(run).requests@)
                && !fell_back(final(run).completion_mode))
        }),
{
    let mut state = run.requests.remove(index);
    let outcome = match reply {
        SleepReply::Accepted(v) => {
            record_track_result(run, state.track, v);
            complete_pass(&mut state);
            SleepReplyOutcome::Completed
        },
        SleepReply::Consolidated { gist, narrative } => {
            accept_consolidation(run, gist, narrative);
            complete_pass(&mut state);
            SleepReplyOutcome::Completed
        },
        SleepReply::Refused(e) => {
            let handled = handle_sleep_pass_error(run, &mut state, e);
            match handled {
                PassErrorOutcome::Retry => SleepReplyOutcome::Retry,
                PassErrorOutcome::GivenUp => {
                    let is_consolidator = match state.track {
                        SleepTrack::Consolidator => true,
                        _ => false,
                    };
                    if !is_consolidator {
                        record_track_result(run, state.track, fallback);
                    }
                    SleepReplyOutcome::GivenUp
                },
            }
        },
    };
    run.requests.insert(index, state);
    let needs = advance_sleep_run_stage(run);
    (outcome, needs)
}

} // verus!
