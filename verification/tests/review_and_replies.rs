use memory_engine::compression::EmotionalMarker;
use memory_engine::corecontext::{try_rank_core_facts_for_query, CoreContextFact};
use memory_engine::forgetting::{forget_review_step, ForgetApplyAction, ForgetTally};
use memory_engine::reply::{parse_json_value_from_llm_text, parse_llm_json_reply};
use memory_engine::signals::unit_protection_reasons;
use memory_engine::sleeprun::{apply_sleep_reply, sleep_run_from_stage1, PendingTask, SleepReply, SleepReplyOutcome, TrackRequestSeed};
use memory_engine::types::{
    CoreFactStatus, F64Bits, FidelityStatus, ForgetDecision, ForgetRecommendation, MemoryUnit,
    MemoryUnitStatus, ModelRole, SleepRunStage, SleepTrack, TaskState, TaskType,
};
use memory_engine::vectorplan::{rank_deep_hits, DeepHitKey};
use serde_json::Value;

fn bits(v: f64) -> F64Bits {
    F64Bits { bits: v.to_bits() }
}

#[test]
fn reply_document_is_the_whole_candidate_when_it_parses() {
    let arr = parse_json_value_from_llm_text("[{\"a\":1}]").unwrap();
    assert!(arr.is_array());
    let spanned = parse_json_value_from_llm_text("Here it is: {\"a\": 1} done").unwrap();
    assert_eq!(spanned, serde_json::from_str::<Value>("{\"a\":1}").unwrap());
    assert_eq!(parse_llm_json_reply("[1, 2]").unwrap().unwrap(), serde_json::from_str::<Value>("[1,2]").unwrap());
}

fn unit(id: &str, archive: &str) -> MemoryUnit {
    MemoryUnit {
        schema_version: "memory_unit.v1".to_string(),
        memory_unit_id: id.to_string(),
        archive_id: archive.to_string(),
        source_session_id: "s1".to_string(),
        created_at: "2026-01-01T00:00:00Z".to_string(),
        updated_at: "2026-01-01T00:00:00Z".to_string(),
        thesis: "t".to_string(),
        source_event_ids: vec!["e1".to_string()],
        evidence: None,
        tags: vec![],
        weight: bits(0.2),
        status: MemoryUnitStatus::ActiveArchive,
        fidelity_status: FidelityStatus::Valid,
        fidelity_review: None,
        forget_review: None,
    }
}

#[test]
fn forget_review_steps_tally_and_note_archives() {
    let mut tally = ForgetTally::new();
    let mut archives: Vec<String> = vec![];
    let candidates = vec!["u1".to_string(), "u2".to_string()];
    let mut rec = ForgetRecommendation { memory_unit_id: "u1".to_string(), decision: ForgetDecision::Forget, reason: "  old   noise ".to_string() };
    let action = forget_review_step(&mut tally, &mut archives, &candidates, &mut rec, Some(unit("u1", "a1")), &vec![], "task_1", "now");
    assert!(matches!(action, ForgetApplyAction::Forgotten(_)));
    assert_eq!(rec.reason, "old noise");
    assert_eq!(archives, vec!["a1".to_string()]);
    let mut rec2 = ForgetRecommendation { memory_unit_id: "u2".to_string(), decision: ForgetDecision::Forget, reason: "x".to_string() };
    let action = forget_review_step(&mut tally, &mut archives, &candidates, &mut rec2, Some(unit("u2", "a1")), &vec!["core_link".to_string()], "task_1", "now");
    assert!(matches!(action, ForgetApplyAction::Protected(_)));
    let mut rec3 = ForgetRecommendation { memory_unit_id: "u9".to_string(), decision: ForgetDecision::Forget, reason: "x".to_string() };
    let action = forget_review_step(&mut tally, &mut archives, &candidates, &mut rec3, Some(unit("u9", "a2")), &vec![], "task_1", "now");
    assert!(matches!(action, ForgetApplyAction::Ignored));
    assert_eq!(archives, vec!["a1".to_string()]);
    assert_eq!((tally.reviewed, tally.forgotten, tally.protected, tally.ignored), (3, 1, 1, 1));
}

#[test]
fn protection_reasons_gather_every_gate() {
    let u = unit("u1", "a1");
    let marker = EmotionalMarker {
        target: "sea".to_string(),
        affect: "joy".to_string(),
        strength: bits(0.9),
        source_event_ids: vec!["e1".to_string()],
        quote: None,
        evidence: None,
    };
    let r = unit_protection_reasons(&u, true, false, &vec![], &vec![], &vec![], &vec![marker], &vec![true]);
    assert_eq!(r, vec!["high_weight".to_string(), "emotional".to_string()]);
    let r = unit_protection_reasons(&u, false, true, &vec![], &vec![], &vec![], &vec![], &vec![]);
    assert_eq!(r, vec!["recent_recall".to_string()]);
}

#[test]
fn checked_rank_refuses_nothing_ordinary() {
    let fact = |id: &str, text: &str| CoreContextFact {
        category: "c".to_string(),
        core_fact_id: id.to_string(),
        scope: None,
        text: text.to_string(),
        status: CoreFactStatus::Active,
        confidence: bits(0.5),
        tags: vec![],
    };
    let ranked = try_rank_core_facts_for_query(vec![fact("1", "likes coffee"), fact("2", "likes green tea")], Some("green tea")).unwrap();
    assert_eq!(ranked[0].core_fact_id, "2");
    let same = try_rank_core_facts_for_query(vec![fact("1", "a"), fact("2", "b")], None).unwrap();
    assert_eq!(same[0].core_fact_id, "1");
}

#[test]
fn deep_hits_rank_by_score_then_sim_then_age() {
    let hit = |id: &str, at: &str, score: f32, sim: f32| DeepHitKey {
        memory_unit_id: id.to_string(),
        created_at: at.to_string(),
        score_bits: score.to_bits(),
        sim_bits: sim.to_bits(),
    };
    let hits = vec![
        hit("u1", "2026-01-02", 0.5, 0.5),
        hit("u2", "2026-01-01", 0.9, 0.1),
        hit("u3", "2026-01-01", 0.5, 0.5),
        hit("u4", "2026-01-01", 0.5, 0.7),
        hit("u5", "2026-01-01", -1.0, 0.9),
    ];
    assert_eq!(rank_deep_hits(&hits, 4), vec![1, 3, 2, 0]);
    assert_eq!(rank_deep_hits(&hits, 10).len(), 5);
}

fn task() -> PendingTask {
    PendingTask {
        schema_version: "pending_task.v1".to_string(),
        task_id: "sleep_1".to_string(),
        task_type: TaskType::SleepCompression,
        state: TaskState::Pending,
        created_at: "now".to_string(),
        updated_at: "now".to_string(),
        prompt_id: "sleep_compression".to_string(),
        prompt_version: 1,
        role_hint: ModelRole::Balanced,
        expected_output_schema: "x".to_string(),
        inputs: Value::Null,
        attempts: vec![],
        last_error: None,
    }
}

#[test]
fn sleep_replies_complete_retry_or_fall_back() {
    let seed = |id: &str| TrackRequestSeed { request_id: id.to_string(), prompt_inputs: Value::Null };
    let t = task();
    let mut run = sleep_run_from_stage1("s1".to_string(), "a1".to_string(), &t, None, seed("r1"), seed("r2"), seed("r3"), seed("r4"));
    let (o, needs) = apply_sleep_reply(&mut run, 0, SleepReply::Accepted(Value::from(1u64)), Value::Null);
    assert_eq!(o, SleepReplyOutcome::Completed);
    assert!(!needs);
    assert_eq!(run.emotional_pass, Some(Value::from(1u64)));
    let (o, _) = apply_sleep_reply(&mut run, 1, SleepReply::Refused("bad".to_string()), Value::from(7u64));
    assert_eq!(o, SleepReplyOutcome::Retry);
    assert_eq!(run.requests[1].last_error.as_deref(), Some("bad"));
    run.requests[1].attempts = run.max_pass_attempts;
    let (o, _) = apply_sleep_reply(&mut run, 1, SleepReply::Refused("bad".to_string()), Value::from(7u64));
    assert_eq!(o, SleepReplyOutcome::GivenUp);
    assert_eq!(run.topic_thread_pass, Some(Value::from(7u64)));
    apply_sleep_reply(&mut run, 2, SleepReply::Accepted(Value::Null), Value::Null);
    let (o, needs) = apply_sleep_reply(&mut run, 3, SleepReply::Accepted(Value::Null), Value::Null);
    assert_eq!(o, SleepReplyOutcome::Completed);
    assert!(needs);
    assert_eq!(run.stage, SleepRunStage::Consolidation);
    assert_eq!(run.requests[3].track, SleepTrack::Relational);
}
