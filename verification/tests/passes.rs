use memory_engine::reply::{parse_json_value_from_llm_text, parse_llm_json_reply};
use memory_engine::tokens::normalize_category_name;
use memory_engine::compression::{
    fallback_gist_and_theme, neutral_narrative_from_tracks, overlay_consolidated_text,
    EmotionalMarker, PersonalSignal, RelationalTone, SleepCompressionResult,
};
use memory_engine::context::{
    future_timestamps_note, newest_timestamp, session_context_events, timestamp_is_future,
};
use memory_engine::error::MemoryEngineError;
use memory_engine::evidence::{
    add_evidence_event, estimate_evidence_pack_tokens, evidence_neighbor_indices,
    evidence_source_indices,
};
use memory_engine::preliminary::{
    collect_tags, preliminary_gist, preliminary_narrative, preliminary_quotes,
    time_range_from_events, EventDigest,
};
use memory_engine::sleep::{
    advance_sleep_run_stage, apply_sleep_run_tags, begin_pass_attempt, due_request_indices,
    find_request_index, handle_sleep_pass_error, validate_sleep_run, LlmRequest, PassErrorOutcome,
    SleepRequestState, SleepRun, DEFAULT_SLEEP_PASS_MAX_ATTEMPTS, SLEEP_RUN_SCHEMA_VERSION,
};
use memory_engine::storage::{session_lock_key, StorageReadWarning};
use memory_engine::types::{
    CoreContextEvent, EvidenceEvent, EvidenceEventRole, EvidencePack, F64Bits, ModelRole,
    SleepRunStage, SleepTrack, TopicThreadItem, VectorMetric, VectorScopeStatus,
};
use memory_engine::vector::{
    default_vector_manifest, disabled_vector_state, ensure_vector_manifest_matches,
    split_vector_rows, thesis_hash, validate_scope_component, validate_vector_scope,
};

fn bits(x: f64) -> F64Bits {
    F64Bits { bits: x.to_bits() }
}

fn request(track: SleepTrack, id: &str, prompt_id: &str, completed: bool) -> SleepRequestState {
    SleepRequestState {
        track,
        request: LlmRequest {
            request_id: id.to_string(),
            task_id: "task_sleep".to_string(),
            role_hint: ModelRole::Balanced,
            prompt_id: prompt_id.to_string(),
            prompt_version: 1,
            prompt_inputs: serde_json::Value::Null,
            expected_output_schema: "x.v1".to_string(),
        },
        attempts: 0,
        completed,
        last_error: None,
    }
}

fn run(requests: Vec<SleepRequestState>) -> SleepRun {
    SleepRun {
        schema_version: SLEEP_RUN_SCHEMA_VERSION.to_string(),
        session_id: "session_1".to_string(),
        archive_id: "archive_1".to_string(),
        sleep_task_id: "task_sleep".to_string(),
        memory_unit_task_id: None,
        stage: SleepRunStage::Extraction,
        max_pass_attempts: DEFAULT_SLEEP_PASS_MAX_ATTEMPTS,
        requests,
        failed_passes: vec![],
        memory_unit_result: None,
        emotional_pass: None,
        topic_thread_pass: None,
        personal_signal_pass: None,
        relational_pass: None,
        consolidator_gist: None,
        consolidator_narrative: None,
        completion_mode: None,
    }
}

#[test]
fn sleep_run_moves_through_stages_once_passes_complete() {
    let mut r = run(vec![
        request(SleepTrack::Emotional, "r1", "sleep_emotional_pass", false),
        request(SleepTrack::TopicThread, "r2", "sleep_topic_thread_pass", true),
    ]);
    assert_eq!(due_request_indices(&r), vec![0]);
    assert!(!advance_sleep_run_stage(&mut r));
    assert_eq!(r.stage, SleepRunStage::Extraction);

    r.requests[0].completed = true;
    assert!(advance_sleep_run_stage(&mut r));
    assert_eq!(r.stage, SleepRunStage::Consolidation);
    r.requests.push(request(SleepTrack::Consolidator, "r3", "sleep_consolidator", false));
    assert_eq!(due_request_indices(&r), vec![2]);
    assert!(!advance_sleep_run_stage(&mut r));
    assert_eq!(r.stage, SleepRunStage::Consolidation);

    r.requests[2].completed = true;
    assert!(!advance_sleep_run_stage(&mut r));
    assert_eq!(r.stage, SleepRunStage::ReadyToFinish);
    assert!(!advance_sleep_run_stage(&mut r));
    assert_eq!(r.stage, SleepRunStage::ReadyToFinish);
    assert_eq!(find_request_index(&r, "r3"), Some(2));
    assert_eq!(find_request_index(&r, "nope"), None);
}

#[test]
fn refused_pass_is_retried_then_given_up() {
    let mut r = run(vec![]);
    let mut state = request(SleepTrack::MemoryUnit, "r1", "memory_unit_pass", false);
    assert!(begin_pass_attempt(&mut state));
    assert_eq!(
        handle_sleep_pass_error(&mut r, &mut state, "bad json".to_string()),
        PassErrorOutcome::Retry
    );
    assert_eq!(state.request.role_hint, ModelRole::Balanced);
    assert!(begin_pass_attempt(&mut state));
    assert_eq!(
        handle_sleep_pass_error(&mut r, &mut state, "bad json".to_string()),
        PassErrorOutcome::Retry
    );
    assert_eq!(state.request.role_hint, ModelRole::Reasoning);
    assert!(begin_pass_attempt(&mut state));
    assert_eq!(
        handle_sleep_pass_error(&mut r, &mut state, "still bad".to_string()),
        PassErrorOutcome::GivenUp
    );
    assert!(state.completed);
    assert_eq!(state.last_error.as_deref(), Some("still bad"));
    assert_eq!(r.failed_passes, vec!["memory_unit_pass"]);
    assert!(!begin_pass_attempt(&mut state));
    assert_eq!(state.attempts, 3);
}

#[test]
fn consolidator_give_up_falls_back_and_tags_result() {
    let mut r = run(vec![]);
    let mut state = request(SleepTrack::Consolidator, "c1", "sleep_consolidator", false);
    state.attempts = 3;
    let outcome = handle_sleep_pass_error(
        &mut r,
        &mut state,
        "validation error: consolidator_gist_rejected: too long".to_string(),
    );
    assert_eq!(outcome, PassErrorOutcome::GivenUp);
    assert_eq!(r.completion_mode.as_deref(), Some("fallback_from_tracks"));
    r.requests.push(state);
    let tags = apply_sleep_run_tags(vec!["multi_pass_sleep".to_string()], &r);
    assert_eq!(
        tags,
        vec![
            "completion_mode:fallback_from_tracks",
            "consolidator_gist_rejected",
            "multi_pass_sleep",
            "pass_failed:sleep_consolidator",
        ]
    );
}

#[test]
fn sleep_run_validation() {
    let mut r = run(vec![]);
    assert!(validate_sleep_run(&r).is_ok());
    r.archive_id = " ".to_string();
    match validate_sleep_run(&r) {
        Err(MemoryEngineError::Validation(m)) => {
            assert_eq!(m, "sleep run must include session_id, archive_id, and sleep_task_id")
        }
        other => panic!("unexpected {other:?}"),
    }
    r.schema_version = "sleep_run.v0".to_string();
    assert!(matches!(
        validate_sleep_run(&r),
        Err(MemoryEngineError::IncompatibleSchema { .. })
    ));
}

#[test]
fn vector_manifest_and_scope_checks() {
    let manifest = default_vector_manifest("model-a", 384, "2026-01-01T00:00:00Z");
    assert_eq!(manifest.schema_version, "vector_index.v1");
    assert_eq!(manifest.metric, VectorMetric::Cosine);
    assert_eq!(manifest.state, VectorScopeStatus::Building);
    assert_eq!(manifest.rows, 0);
    assert!(manifest.normalized);
    assert!(ensure_vector_manifest_matches(&manifest, "model-a", 384).is_ok());
    match ensure_vector_manifest_matches(&manifest, "model-b", 768) {
        Err(MemoryEngineError::Validation(m)) => assert_eq!(
            m,
            "vector model/dim mismatch: index=model-a 384d requested=model-b 768d"
        ),
        other => panic!("unexpected {other:?}"),
    }
    assert!(validate_vector_scope("chat_1").is_ok());
    for bad in ["", "  ", "a/b", "a\\b", ".", "..", "a..b"] {
        match validate_vector_scope(bad) {
            Err(MemoryEngineError::Validation(m)) => {
                assert_eq!(m, format!("invalid vector scope: {bad}"))
            }
            other => panic!("unexpected {other:?}"),
        }
        assert!(validate_scope_component(bad).is_err());
    }
    let state = disabled_vector_state("chat_1", "multi_speaker");
    assert_eq!(state.status, VectorScopeStatus::Disabled);
    assert_eq!(state.reason.as_deref(), Some("multi_speaker"));
    assert_eq!(state.schema_version, "vector_scope_state.v1");
}

#[test]
fn thesis_hash_is_sha256_hex() {
    assert_eq!(
        thesis_hash(""),
        "sha256:e3b0c44298fc1c149afbf4c8996fb92427ae41e4649b934ca495991b7852b855"
    );
    assert_eq!(
        thesis_hash("abc"),
        "sha256:ba7816bf8f01cfea414140de5dae2223b00361a396177a9cb410ff61f20015ad"
    );
}

#[test]
fn vector_rows_split_little_endian_words() {
    let bytes = vec![1, 0, 0, 0, 0, 0, 128, 63, 2, 0, 0, 0, 255, 255, 255, 255];
    let rows = split_vector_rows(&bytes, 2).unwrap();
    assert_eq!(rows, vec![vec![1, 1.0f32.to_bits()], vec![2, u32::MAX]]);
    match split_vector_rows(&vec![0; 6], 1) {
        Err(MemoryEngineError::Storage(m)) => {
            assert_eq!(m, "vector byte length 6 is not divisible by row size 4")
        }
        other => panic!("unexpected {other:?}"),
    }
    assert!(split_vector_rows(&vec![], 0).unwrap().is_empty());
    assert!(matches!(split_vector_rows(&vec![1], 0), Err(MemoryEngineError::Storage(_))));
}

fn evidence_event(id: &str, text: &str) -> EvidenceEvent {
    EvidenceEvent {
        event_id: id.to_string(),
        timestamp: "t".to_string(),
        event_type: "user_message".to_string(),
        source: "user".to_string(),
        role: EvidenceEventRole::Source,
        text: text.to_string(),
        tags: vec!["x".to_string()],
    }
}

#[test]
fn evidence_pack_gathers_within_budget() {
    let mut pack = EvidencePack::empty_for(
        "pack_1".to_string(),
        "now".to_string(),
        "m1".to_string(),
        "a1".to_string(),
        "s1".to_string(),
        "thesis".to_string(),
        30,
    );
    assert_eq!(pack.schema_version, "evidence_pack.v1");
    assert_eq!(estimate_evidence_pack_tokens(&pack), 3);
    let mut selected = Vec::new();
    // 2 + 1 + 12 + 4 + 4 + 1 + 32 = 56 chars per event with the thesis: (6 + 56) / 2 = 31
    add_evidence_event(&mut pack, evidence_event("e1", "abcd"), &mut selected, true);
    assert_eq!(pack.events.len(), 1);
    assert_eq!(pack.estimated_tokens, 31);
    add_evidence_event(&mut pack, evidence_event("e1", "abcd"), &mut selected, true);
    assert_eq!(pack.events.len(), 1);
    add_evidence_event(&mut pack, evidence_event("e2", "abcd"), &mut selected, false);
    assert_eq!(pack.events.len(), 1);
    assert!(pack.truncated);
    assert_eq!(selected, vec!["e1", "e2"]);
}

#[test]
fn evidence_indices_pick_sources_and_neighbours() {
    let ids = ["a", "b", "c", "d", "e", "f"].iter().map(|s| s.to_string()).collect::<Vec<_>>();
    let sources = evidence_source_indices(&ids, &vec!["c".to_string(), "f".to_string()]);
    assert_eq!(sources, vec![2, 5]);
    assert_eq!(evidence_neighbor_indices(&sources, 1, 6), vec![1, 3, 4]);
    assert_eq!(evidence_neighbor_indices(&sources, 0, 6), Vec::<usize>::new());
    assert_eq!(evidence_neighbor_indices(&vec![0, 1], 1, 2), vec![0, 1]);
}

fn compression(weight: f64) -> SleepCompressionResult {
    SleepCompressionResult {
        schema_version: "sleep_compression_result.v1".to_string(),
        archive_id: "archive_01".to_string(),
        gist: "Короткий зміст.".to_string(),
        narrative: "Людський наратив спогаду.".to_string(),
        compact_memory: Some("Подія → короткий людський висновок.".to_string()),
        facts: vec![],
        quotes: vec![],
        tags: vec!["test".to_string()],
        theme: None,
        weight: bits(weight),
        links: vec![],
        emotional_markers: vec![],
        topic_thread: vec![],
        personal_signals: vec![],
        relational_tone: None,
    }
}

#[test]
fn sleep_compression_result_validates_basic_shape() {
    let result = compression(0.7);
    result.validate_basic().unwrap();
}

#[test]
fn sleep_compression_result_rejects_out_of_range_values() {
    for (weight, ok) in [(0.0, true), (-0.0, true), (1.0, true), (1.0000001, false), (-0.1, false), (f64::NAN, false)] {
        assert_eq!(compression(weight).validate_basic().is_ok(), ok, "weight {weight}");
    }
    let mut blank = compression(0.5);
    blank.compact_memory = Some("  ".to_string());
    match blank.validate_basic() {
        Err(MemoryEngineError::Validation(m)) => {
            assert_eq!(m, "sleep compression compact_memory must not be empty when provided")
        }
        other => panic!("unexpected {other:?}"),
    }
    let mut toned = compression(0.5);
    toned.relational_tone = Some(RelationalTone {
        warmth: Some(bits(0.5)),
        intellectual_engagement: None,
        intimacy: None,
        trust: Some(bits(2.0)),
        playfulness: None,
        tension: None,
        summary: None,
        source_event_ids: vec![],
    });
    match toned.validate_basic() {
        Err(MemoryEngineError::Validation(m)) => {
            assert_eq!(m, "relational tone values must be between 0.0 and 1.0")
        }
        other => panic!("unexpected {other:?}"),
    }
}

fn marker(target: &str, affect: &str) -> EmotionalMarker {
    EmotionalMarker {
        target: target.to_string(),
        affect: affect.to_string(),
        strength: bits(0.8),
        source_event_ids: vec![],
        quote: None,
        evidence: None,
    }
}

fn topic(name: &str, summary: Option<&str>) -> TopicThreadItem {
    TopicThreadItem {
        topic: name.to_string(),
        subtopics: vec![],
        energy: None,
        source_event_ids: vec![],
        summary: summary.map(str::to_string),
    }
}

fn signal(text: &str) -> PersonalSignal {
    PersonalSignal {
        text: text.to_string(),
        category: "profile".to_string(),
        confidence: bits(0.9),
        source_event_ids: vec![],
        evidence: None,
    }
}

#[test]
fn fallback_ukrainian_literals_are_valid_text() {
    let gist = preliminary_gist(&vec![]);
    let narrative = preliminary_narrative("session_a", &vec![]);
    let neutral = neutral_narrative_from_tracks(&vec![], &vec![], &vec![]);

    assert_eq!(gist, "Попередній спогад із 0 події(й).");
    assert!(narrative.contains("Попередній архівний спогад"));
    assert!(neutral.contains("Сесія була стиснута"));
    assert!(!gist.contains('Р'));
    assert!(!narrative.contains('Р'));
    assert!(!neutral.contains('Р'));
}

#[test]
fn neutral_narrative_lists_tracks() {
    let text = neutral_narrative_from_tracks(
        &vec![marker("кіт", "радість")],
        &vec![topic("мотоцикл", Some("  ")), topic("риболовля", Some("ранковий клювання"))],
        &vec![signal("a"), signal("b"), signal("c"), signal("d")],
    );
    assert_eq!(
        text,
        "Особисті сигнали: a; b; c. Емоційно помітні моменти: кіт (радість). Теми розмови: мотоцикл; ранковий клювання."
    );
    let (gist, theme) = fallback_gist_and_theme(&vec![marker("кіт", "радість")], &vec![], &vec![]);
    assert_eq!(gist, "кіт: радість");
    assert_eq!(theme, None);
    let (gist, theme) =
        fallback_gist_and_theme(&vec![], &vec![topic("мотоцикл", None)], &vec![]);
    assert_eq!(gist, "мотоцикл");
    assert_eq!(theme.as_deref(), Some("мотоцикл"));
    assert_eq!(
        overlay_consolidated_text("draft".to_string(), &Some("  final  ".to_string())),
        "final"
    );
    assert_eq!(overlay_consolidated_text("draft".to_string(), &Some(" ".to_string())), "draft");
}

fn digest(id: &str, timestamp: &str, text: Option<&str>, tags: &[&str]) -> EventDigest {
    EventDigest {
        event_id: id.to_string(),
        timestamp: timestamp.to_string(),
        event_type: "user_message".to_string(),
        text: text.map(str::to_string),
        tags: tags.iter().map(|t| t.to_string()).collect(),
    }
}

#[test]
fn preliminary_draft_reads_selected_events() {
    let events = vec![
        digest("e1", "2026-01-02T10:00:00Z", Some("Перший"), &["b", "a"]),
        digest("e2", "2026-01-01T09:00:00Z", None, &["a"]),
        digest("e3", "2026-01-03T08:00:00Z", Some("Третій"), &["c"]),
    ];
    assert_eq!(preliminary_gist(&events), "Попередній спогад: Перший / Третій.");
    assert_eq!(
        preliminary_narrative("s1", &events),
        "Попередній архівний спогад із сесії s1. Ключові події: 2026-01-02T10:00:00Z user_message: Перший | 2026-01-03T08:00:00Z user_message: Третій"
    );
    let range = time_range_from_events(&events);
    assert_eq!(range.start, "2026-01-01T09:00:00Z");
    assert_eq!(range.end, "2026-01-03T08:00:00Z");
    assert_eq!(time_range_from_events(&vec![]).start, "unknown");
    assert_eq!(collect_tags(&events), vec!["a", "b", "c"]);
    let quotes = preliminary_quotes(&events);
    assert_eq!(quotes.len(), 2);
    assert_eq!(quotes[1].source_event_id.as_deref(), Some("e3"));
}

fn ctx_event(id: &str) -> CoreContextEvent {
    CoreContextEvent {
        event_id: id.to_string(),
        timestamp: "t".to_string(),
        event_type: "user_message".to_string(),
        source: "user".to_string(),
        speaker: None,
        text: Some(id.to_string()),
        tags: vec![],
        theme: None,
    }
}

#[test]
fn live_dialogue_skips_archived_events() {
    let events = vec![ctx_event("e1"), ctx_event("e2"), ctx_event("e3"), ctx_event("e4")];
    let live = session_context_events(events, 2, &vec!["e4".to_string()]);
    let ids = live.iter().map(|e| e.event_id.as_str()).collect::<Vec<_>>();
    assert_eq!(ids, vec!["e2", "e3"]);
    assert!(session_context_events(vec![ctx_event("e1")], 0, &vec![]).is_empty());
}

#[test]
fn timestamps_compare_by_instant() {
    assert!(timestamp_is_future("2026-01-02T00:00:00Z", "2026-01-01T00:00:00Z"));
    assert!(!timestamp_is_future("2026-01-01T02:00:00+03:00", "2026-01-01T00:00:00Z"));
    assert!(!timestamp_is_future("garbage", "2026-01-01T00:00:00Z"));
    assert_eq!(
        future_timestamps_note(
            &vec!["2030-01-01T00:00:00Z".to_string(), "2020-01-01T00:00:00Z".to_string()],
            "2026-01-01T00:00:00Z"
        )
        .as_deref(),
        Some("1 memory timestamp(s) are in the future relative to now; their time labels are omitted.")
    );
    assert_eq!(
        newest_timestamp(Some("2026-01-01T05:00:00+03:00"), Some("2026-01-01T03:00:00Z")).as_deref(),
        Some("2026-01-01T03:00:00Z")
    );
    assert_eq!(newest_timestamp(Some("b"), Some("a")).as_deref(), Some("b"));
    assert_eq!(newest_timestamp(Some("x"), Some("2026-01-01T00:00:00Z")).as_deref(), Some("2026-01-01T00:00:00Z"));
    assert_eq!(newest_timestamp(None, None), None);
}

#[test]
fn storage_notes_and_lock_keys() {
    let warning = StorageReadWarning {
        collection: "archive".to_string(),
        path: "/x/a.json".to_string(),
        error: "bad json".to_string(),
    };
    assert_eq!(warning.note(), "skipped unreadable archive file: /x/a.json (bad json)");
    assert_eq!(session_lock_key("s1"), "session:s1");
}

#[test]
fn json_replies_are_read_from_fences_and_braces() {
    let plain = parse_json_value_from_llm_text("  {\"a\": 1}  ").unwrap();
    assert_eq!(plain["a"], serde_json::Value::from(1));
    let fenced = parse_json_value_from_llm_text("```json\n{\"b\": [1, 2]}\n```").unwrap();
    assert_eq!(fenced["b"][1], serde_json::Value::from(2));
    let chatty = parse_json_value_from_llm_text("Sure! Here it is: {\"c\": true} Thanks.").unwrap();
    assert_eq!(chatty["c"], serde_json::Value::from(true));
    assert!(matches!(
        parse_json_value_from_llm_text("no json here"),
        Err(MemoryEngineError::Json(_))
    ));
    assert!(parse_llm_json_reply("} then {").is_none());
    assert!(matches!(parse_llm_json_reply("\"} then {\""), Some(Ok(_))));
}

#[test]
fn category_names_are_file_safe() {
    assert_eq!(normalize_category_name("  Personal Info!!  "), "personal_info");
    assert_eq!(normalize_category_name("__a__b"), "a__b");
    assert_eq!(normalize_category_name("Профіль"), "");
    assert_eq!(normalize_category_name(&"ab".repeat(40)).len(), 64);
}
