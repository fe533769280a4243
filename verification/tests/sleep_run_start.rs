use memory_engine::sleep::{validate_sleep_run, DEFAULT_SLEEP_PASS_MAX_ATTEMPTS, SLEEP_RUN_SCHEMA_VERSION};
use memory_engine::sleeprun::{llm_request_from_task, sleep_run_from_stage1, PendingTask, TrackRequestSeed};
use memory_engine::types::{ModelRole, SleepRunStage, SleepTrack, TaskState, TaskType};
use serde_json::Value;

fn task(id: &str, task_type: TaskType, schema: &str) -> PendingTask {
    PendingTask {
        schema_version: "pending_task.v1".to_string(),
        task_id: id.to_string(),
        task_type,
        state: TaskState::Pending,
        created_at: "2026-05-17T10:00:00Z".to_string(),
        updated_at: "2026-05-17T10:00:00Z".to_string(),
        prompt_id: "prompt".to_string(),
        prompt_version: 3,
        role_hint: ModelRole::Balanced,
        expected_output_schema: schema.to_string(),
        inputs: Value::Null,
        attempts: vec![],
        last_error: None,
    }
}

fn seed(id: &str, n: u64) -> TrackRequestSeed {
    TrackRequestSeed { request_id: id.to_string(), prompt_inputs: Value::from(n) }
}

#[test]
fn llm_request_takes_task_fields() {
    let t = task("task_1", TaskType::MemoryFidelityPass, "memory_fidelity_review.v1");
    let r = llm_request_from_task(&t, "memory_fidelity_pass", Value::from(7u64), "llm_req_1".to_string());
    assert_eq!(r.request_id, "llm_req_1");
    assert_eq!(r.task_id, "task_1");
    assert_eq!(r.role_hint, ModelRole::Balanced);
    assert_eq!(r.prompt_id, "memory_fidelity_pass");
    assert_eq!(r.prompt_version, 3);
    assert_eq!(r.prompt_inputs, Value::from(7u64));
    assert_eq!(r.expected_output_schema, "memory_fidelity_review.v1");
}

#[test]
fn stage1_run_lists_memory_unit_then_extraction_passes() {
    let sleep_task = task("sleep_1", TaskType::SleepCompression, "sleep_compression_result.v1");
    let unit_task = task("units_1", TaskType::MemoryUnitPass, "memory_units_result.v1");
    let run = sleep_run_from_stage1(
        "session_1".to_string(),
        "archive_1".to_string(),
        &sleep_task,
        Some((&unit_task, seed("r0", 0))),
        seed("r1", 1),
        seed("r2", 2),
        seed("r3", 3),
        seed("r4", 4),
    );
    assert!(validate_sleep_run(&run).is_ok());
    assert_eq!(run.schema_version, SLEEP_RUN_SCHEMA_VERSION);
    assert_eq!(run.stage, SleepRunStage::Extraction);
    assert_eq!(run.max_pass_attempts, DEFAULT_SLEEP_PASS_MAX_ATTEMPTS);
    assert_eq!(run.memory_unit_task_id.as_deref(), Some("units_1"));
    let tracks: Vec<SleepTrack> = run.requests.iter().map(|r| r.track).collect();
    assert_eq!(
        tracks,
        vec![SleepTrack::MemoryUnit, SleepTrack::Emotional, SleepTrack::TopicThread, SleepTrack::PersonalSignal, SleepTrack::Relational]
    );
    let prompts: Vec<&str> = run.requests.iter().map(|r| r.request.prompt_id.as_str()).collect();
    assert_eq!(
        prompts,
        vec!["memory_unit_pass", "sleep_emotional_pass", "sleep_topic_thread_pass", "sleep_personal_signal_pass", "sleep_relational_pass"]
    );
    assert_eq!(run.requests[0].request.expected_output_schema, "memory_units_result.v1");
    assert_eq!(run.requests[0].request.task_id, "units_1");
    assert_eq!(run.requests[2].request.expected_output_schema, "sleep_topic_thread_pass.v1");
    assert_eq!(run.requests[2].request.task_id, "sleep_1");
    assert_eq!(run.requests[4].request.prompt_inputs, Value::from(4u64));
    assert!(run.requests.iter().all(|r| r.attempts == 0 && !r.completed && r.last_error.is_none()));
    assert!(run.failed_passes.is_empty() && run.completion_mode.is_none());

    let plain = sleep_run_from_stage1(
        "session_1".to_string(),
        "archive_1".to_string(),
        &sleep_task,
        None,
        seed("r1", 1),
        seed("r2", 2),
        seed("r3", 3),
        seed("r4", 4),
    );
    assert_eq!(plain.requests.len(), 4);
    assert!(plain.memory_unit_task_id.is_none());
    assert_eq!(plain.requests[0].request.request_id, "r1");
}

#[test]
fn track_results_land_in_their_fields() {
    let sleep_task = task("sleep_1", TaskType::SleepCompression, "sleep_compression_result.v1");
    let mut run = sleep_run_from_stage1(
        "session_1".to_string(),
        "archive_1".to_string(),
        &sleep_task,
        None,
        seed("r1", 1),
        seed("r2", 2),
        seed("r3", 3),
        seed("r4", 4),
    );
    memory_engine::sleeprun::record_track_result(&mut run, SleepTrack::TopicThread, Value::from(9u64));
    assert_eq!(run.topic_thread_pass, Some(Value::from(9u64)));
    assert!(run.emotional_pass.is_none() && run.personal_signal_pass.is_none());
    memory_engine::sleeprun::record_track_result(&mut run, SleepTrack::Relational, Value::Null);
    assert_eq!(run.relational_pass, Some(Value::Null));
    memory_engine::sleeprun::record_track_result(&mut run, SleepTrack::Consolidator, Value::from(1u64));
    assert!(run.consolidator_gist.is_none() && run.completion_mode.is_none());
    assert_eq!(run.topic_thread_pass, Some(Value::from(9u64)));
}
