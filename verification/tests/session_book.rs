use memory_engine::session::{
    archived_events_file_name, new_session_metadata, record_archive_in_session,
    record_session_event, session_event_line, session_markdown_header, split_covered_events,
};
use memory_engine::types::SessionStatus;

fn strings(items: &[&str]) -> Vec<String> {
    items.iter().map(|s| s.to_string()).collect()
}

#[test]
fn session_metadata_counts_events_and_keeps_first_theme() {
    let mut metadata = new_session_metadata("live_session", "terminal", "2026-05-17T16:00:00Z", &None);
    assert_eq!(metadata.status, SessionStatus::Active);
    assert_eq!(metadata.event_count, 0);
    assert!(metadata.archived_event_index_complete);
    record_session_event(&mut metadata, "2026-05-17T16:00:00Z", &None, &strings(&["a", "b"]));
    record_session_event(&mut metadata, "2026-05-17T16:01:00Z", &Some("pets".to_string()), &strings(&["b", "c", "c"]));
    record_session_event(&mut metadata, "2026-05-17T16:02:00Z", &Some("space".to_string()), &vec![]);
    assert_eq!(metadata.event_count, 3);
    assert_eq!(metadata.updated_at, "2026-05-17T16:02:00Z");
    assert_eq!(metadata.created_at, "2026-05-17T16:00:00Z");
    assert_eq!(metadata.active_theme.as_deref(), Some("pets"));
    assert_eq!(metadata.tags, strings(&["a", "b", "c"]));
}

#[test]
fn archived_index_is_kept_as_sorted_sets() {
    let mut metadata = new_session_metadata("s", "h", "t", &Some("theme".to_string()));
    metadata.archived_to = strings(&["archive_b"]);
    metadata.archived_event_ids = strings(&["e3", "e1"]);
    record_archive_in_session(&mut metadata, "archive_a", &strings(&["e2", "e3"]));
    assert_eq!(metadata.archived_to, strings(&["archive_a", "archive_b"]));
    assert_eq!(metadata.archived_event_ids, strings(&["e1", "e2", "e3"]));
}

#[test]
fn session_view_and_archive_files_are_named() {
    let header = session_markdown_header("live_session");
    assert_eq!(header, "---\nschema_version: session_view.v1\nsession_id: live_session\nstatus: active\n---\n\n# Сесія live_session\n\n## Події\n\n");
    assert_eq!(session_event_line("2026-05-17T16:00:00Z", "user_message", "Привіт"), "- 2026-05-17T16:00:00Z user_message: Привіт\n");
    assert_eq!(archived_events_file_name(1), "events-000001.jsonl");
    assert_eq!(archived_events_file_name(1234567), "events-1234567.jsonl");
}

#[test]
fn covered_events_leave_the_active_log_in_order() {
    let ids = strings(&["e1", "e2", "e3", "e4"]);
    let (archived, active) = split_covered_events(&ids, &strings(&["e3", "e1", "x"]));
    assert_eq!(archived, vec![0, 2]);
    assert_eq!(active, vec![1, 3]);
}

use memory_engine::error::MemoryEngineError;
use memory_engine::memorypass::{
    compact_memory_result, memory_unit_pass_applies, units_from_drafts, MemoryUnitDraft,
};
use memory_engine::types::{F64Bits, FidelityStatus, MemoryUnitStatus};

fn draft(thesis: &str, evidence: Option<&str>) -> MemoryUnitDraft {
    MemoryUnitDraft {
        thesis: thesis.to_string(),
        source_event_ids: strings(&["e1"]),
        evidence: evidence.map(str::to_string),
        tags: strings(&["pets"]),
        weight: F64Bits { bits: 0.7f64.to_bits() },
    }
}

#[test]
fn memory_unit_pass_keeps_drafts_with_a_thesis() {
    let drafts = vec![
        draft("  Має   кішечку Іржу. ", Some("  пряма  заява ")),
        draft("   ", None),
        draft("Любить каву.", Some("  ")),
    ];
    let units = units_from_drafts(drafts, strings(&["mu_1", "mu_2", "mu_3"]), "archive_1", "session_1", "2026-05-17T10:00:00Z");
    assert_eq!(units.len(), 2);
    assert_eq!(units[0].memory_unit_id, "mu_1");
    assert_eq!(units[0].thesis, "Має кішечку Іржу.");
    assert_eq!(units[0].evidence.as_deref(), Some("пряма заява"));
    assert_eq!(units[1].memory_unit_id, "mu_3");
    assert!(units[1].evidence.is_none());
    assert_eq!(units[1].status, MemoryUnitStatus::ActiveArchive);
    assert_eq!(units[1].fidelity_status, FidelityStatus::Unchecked);
    assert_eq!(units[1].archive_id, "archive_1");
    assert!(memory_unit_pass_applies(false, 0));
    assert!(!memory_unit_pass_applies(true, 0));
    assert!(!memory_unit_pass_applies(false, 2));
}

#[test]
fn compact_memory_answer_must_not_be_blank() {
    assert_eq!(compact_memory_result("  Тепла   згадка. ").ok().as_deref(), Some("Тепла згадка."));
    match compact_memory_result("  \n ") {
        Err(MemoryEngineError::Validation(m)) => assert_eq!(m, "compact memory pass result must not be empty"),
        other => panic!("unexpected: {other:?}"),
    }
}
