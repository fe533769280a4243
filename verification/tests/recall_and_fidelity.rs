use memory_engine::compression::PersonalSignal;
use memory_engine::corestore::{
    contest_facts_in_category, push_link_once, upsert_core_fact, CoreFactInput, CoreStoreCategory,
    CORE_FACT_INPUT_SCHEMA_VERSION,
};
use memory_engine::error::MemoryEngineError;
use memory_engine::fidelity::{
    apply_fidelity_review, core_path_signal_event_ids, normalize_fidelity_review,
    should_auto_validate_memory_unit,
};
use memory_engine::recall::{
    archive_matches_filters, archive_tokens, overlap_count_of, query_tokens, rank_recall_entries,
    recall_memory, ArchiveFilters, ScoredEntry,
};
use memory_engine::types::{
    CoreFactStatus, EmbedBatchItem, F64Bits, FidelityReview, FidelityStatus, Link, MemoryUnit,
    MemoryUnitStatus, TimeRange, VectorRow, VectorTombstone,
};
use memory_engine::vector::thesis_hash;
use memory_engine::vectorplan::{
    compact_vector_rows, eligible_units_in_embed_order, embed_batch_ranges,
    has_missing_vector_units, live_row_hash, plan_embedding_append, plan_embedding_backfill,
};

fn bits(value: f64) -> F64Bits {
    F64Bits { bits: value.to_bits() }
}

fn strings(items: &[&str]) -> Vec<String> {
    items.iter().map(|s| s.to_string()).collect()
}

fn range(start: &str, end: &str) -> TimeRange {
    TimeRange { start: start.to_string(), end: end.to_string() }
}

#[test]
fn archive_filters_check_theme_tags_time_and_floors() {
    let tags = strings(&["pets", "family"]);
    let entry_range = range("2026-05-10T00:00:00Z", "2026-05-12T00:00:00Z");
    let none = ArchiveFilters { time_range: None, tags: vec![], theme: None };
    assert!(archive_matches_filters(&None, &tags, &entry_range, &none, false, false));
    assert!(!archive_matches_filters(&None, &tags, &entry_range, &none, true, false));
    assert!(!archive_matches_filters(&None, &tags, &entry_range, &none, false, true));

    let themed = ArchiveFilters { time_range: None, tags: vec![], theme: Some("pets".to_string()) };
    assert!(archive_matches_filters(&Some("pets".to_string()), &tags, &entry_range, &themed, false, false));
    assert!(!archive_matches_filters(&Some("work".to_string()), &tags, &entry_range, &themed, false, false));
    assert!(!archive_matches_filters(&None, &tags, &entry_range, &themed, false, false));

    let tagged = ArchiveFilters { time_range: None, tags: strings(&["family", "pets"]), theme: None };
    assert!(archive_matches_filters(&None, &tags, &entry_range, &tagged, false, false));
    let missing = ArchiveFilters { time_range: None, tags: strings(&["family", "work"]), theme: None };
    assert!(!archive_matches_filters(&None, &tags, &entry_range, &missing, false, false));

    let overlapping = ArchiveFilters { time_range: Some(range("2026-05-12T00:00:00Z", "2026-05-20T00:00:00Z")), tags: vec![], theme: None };
    assert!(archive_matches_filters(&None, &tags, &entry_range, &overlapping, false, false));
    let later = ArchiveFilters { time_range: Some(range("2026-05-13T00:00:00Z", "2026-05-20T00:00:00Z")), tags: vec![], theme: None };
    assert!(!archive_matches_filters(&None, &tags, &entry_range, &later, false, false));
    let earlier = ArchiveFilters { time_range: Some(range("2026-05-01T00:00:00Z", "2026-05-09T23:59:59Z")), tags: vec![], theme: None };
    assert!(!archive_matches_filters(&None, &tags, &entry_range, &earlier, false, false));
}

#[test]
fn query_and_archive_tokens_meet() {
    let query = query_tokens(&Some("Кішечка Іржа".to_string()), &Some("як справи, Іржа?".to_string()));
    assert_eq!(query, strings(&["кішечка", "справи", "як", "іржа"]));
    let entry = archive_tokens(
        &Some("Розмова про кішечку Іржу.".to_string()),
        "Тепла згадка",
        "Користувач згадав Іржу.",
        &strings(&["Іржа любить сонце"]),
        &strings(&["моя Іржа"]),
        &strings(&["personal_pet"]),
        &Some("pets".to_string()),
    );
    assert!(entry.contains(&"іржа".to_string()));
    assert!(entry.contains(&"personal".to_string()) && entry.contains(&"pet".to_string()));
    assert!(entry.contains(&"pets".to_string()));
    assert!(!entry.contains(&"кішечка".to_string()));
    assert_eq!(overlap_count_of(&query, &entry), 1);
    assert_eq!(overlap_count_of(&strings(&["pets", "work", "pets"]), &strings(&["pets"])), 2);
    assert_eq!(query_tokens(&None, &None), Vec::<String>::new());
}

#[test]
fn recall_ranking_takes_the_best_scored_entries() {
    let entry = |id: &str, score: f64, weight: f64| ScoredEntry { archive_id: id.to_string(), score: bits(score), weight: bits(weight) };
    let entries = vec![
        entry("a3", 0.4, 0.9),
        entry("a1", 0.8, 0.5),
        entry("a2", 0.8, 0.7),
        entry("a0", 0.4, 0.9),
    ];
    assert_eq!(rank_recall_entries(&entries, 3), vec![2, 1, 3]);
    assert_eq!(rank_recall_entries(&entries, 10), vec![2, 1, 3, 0]);
    assert_eq!(rank_recall_entries(&entries, 0), Vec::<usize>::new());
}

#[test]
fn recalled_entry_shows_compact_memory_in_place_of_details() {
    let shown = recall_memory(
        Some("  Розмова про   Іржу. ".to_string()),
        "gist".to_string(),
        "narrative".to_string(),
        strings(&["fact"]),
        strings(&["quote"]),
    );
    assert_eq!(shown.gist, "Розмова про Іржу.");
    assert_eq!(shown.compact_memory.as_deref(), Some("Розмова про Іржу."));
    assert!(shown.narrative.is_none());
    assert!(shown.facts.is_empty() && shown.quotes.is_empty());

    let shown = recall_memory(Some("   ".to_string()), "gist".to_string(), "narrative".to_string(), strings(&["fact"]), vec![]);
    assert_eq!(shown.gist, "gist");
    assert!(shown.compact_memory.is_none());
    assert_eq!(shown.narrative.as_deref(), Some("narrative"));
    assert_eq!(shown.facts, strings(&["fact"]));
}

fn unit(tags: &[&str], sources: &[&str], fidelity: FidelityStatus) -> MemoryUnit {
    MemoryUnit {
        schema_version: "memory_unit.v1".to_string(),
        memory_unit_id: "unit_1".to_string(),
        archive_id: "archive_1".to_string(),
        source_session_id: "session_1".to_string(),
        created_at: "2026-01-01T00:00:00Z".to_string(),
        updated_at: "2026-01-01T00:00:00Z".to_string(),
        thesis: "Користувач має кішечку Іржу.".to_string(),
        source_event_ids: strings(sources),
        evidence: None,
        tags: strings(tags),
        weight: bits(0.4),
        status: MemoryUnitStatus::ActiveArchive,
        fidelity_status: fidelity,
        fidelity_review: None,
        forget_review: None,
    }
}

#[test]
fn auto_validation_picks_heavy_core_path_or_tagged_units() {
    let configured = strings(&["identity", "relationships_with_pets"]);
    let plain = unit(&["topic"], &["e1"], FidelityStatus::Unchecked);
    assert!(!should_auto_validate_memory_unit(&plain, false, &vec![], &configured));
    assert!(should_auto_validate_memory_unit(&plain, true, &vec![], &configured));
    assert!(should_auto_validate_memory_unit(&plain, false, &strings(&["e1"]), &configured));
    let tagged = unit(&["Relationships With  Pets"], &["e1"], FidelityStatus::Unchecked);
    assert!(should_auto_validate_memory_unit(&tagged, false, &vec![], &configured));
    let checked = unit(&["identity"], &["e1"], FidelityStatus::Valid);
    assert!(!should_auto_validate_memory_unit(&checked, true, &vec![], &configured));
}

fn signal(text: &str, category: &str, sources: &[&str]) -> PersonalSignal {
    PersonalSignal {
        text: text.to_string(),
        category: category.to_string(),
        confidence: bits(0.95),
        source_event_ids: strings(sources),
        evidence: None,
    }
}

#[test]
fn core_path_collects_events_of_confident_user_signals() {
    let signals = vec![
        signal("Має кішечку Іржу.", "pets", &["e1", "e2"]),
        signal("  ", "pets", &["e3"]),
        signal("Любить каву.", "food", &["e4"]),
        signal("Живе у Києві.", "home", &["e5", "e1"]),
        signal("Не від користувача.", "misc", &["a1"]),
    ];
    let low = vec![false, false, true, false, false];
    let users = strings(&["e1", "e2", "e3", "e4", "e5"]);
    let mut ids = core_path_signal_event_ids(&signals, &low, &users);
    ids.sort();
    assert_eq!(ids, strings(&["e1", "e2", "e5"]));
    assert!(core_path_signal_event_ids(&signals, &low, &vec![]).is_empty());
}

#[test]
fn fidelity_verdict_updates_unit_or_is_refused() {
    let review = FidelityReview {
        schema_version: "memory_fidelity_review.v1".to_string(),
        memory_unit_id: "unit_1".to_string(),
        archive_id: "archive_1".to_string(),
        status: FidelityStatus::Distorted,
        explanation: "  The   thesis   overstates. ".to_string(),
        revised_thesis: Some("   ".to_string()),
        missing_detail: Some(" the  cat's name ".to_string()),
    };
    let review = normalize_fidelity_review(review);
    assert_eq!(review.explanation, "The thesis overstates.");
    assert!(review.revised_thesis.is_none());
    assert_eq!(review.missing_detail.as_deref(), Some("the cat's name"));

    let checked = apply_fidelity_review(unit(&[], &[], FidelityStatus::Unchecked), review.clone(), "2026-05-17T10:00:00Z").expect("same archive");
    assert_eq!(checked.status, MemoryUnitStatus::Rejected);
    assert_eq!(checked.fidelity_status, FidelityStatus::Distorted);
    assert_eq!(checked.updated_at, "2026-05-17T10:00:00Z");
    assert_eq!(checked.fidelity_review, Some(review.clone()));

    let mut other = review;
    other.archive_id = "archive_2".to_string();
    other.status = FidelityStatus::Valid;
    match apply_fidelity_review(unit(&[], &[], FidelityStatus::Unchecked), other, "now") {
        Err(MemoryEngineError::Validation(m)) => {
            assert_eq!(m, "fidelity review archive_id mismatch: unit=archive_1 review=archive_2")
        }
        other => panic!("unexpected: {other:?}"),
    }
}

#[test]
fn links_are_added_once() {
    let mut links = vec![Link { kind: "supports".to_string(), target: "c1".to_string(), note: None }];
    push_link_once(&mut links, Link { kind: "supports".to_string(), target: "c1".to_string(), note: Some("again".to_string()) });
    assert_eq!(links.len(), 1);
    push_link_once(&mut links, Link { kind: "supports".to_string(), target: "c2".to_string(), note: None });
    assert_eq!(links.len(), 2);
}

#[test]
fn approved_candidate_contests_active_facts_of_its_scope() {
    let mut category = CoreStoreCategory { schema_version: String::new(), category: String::new(), updated_at: String::new(), facts: vec![] };
    for (id, scope, text) in [("f1", Some("chat"), "Живе у Львові."), ("f2", None, "Живе у Львові."), ("f3", Some("chat"), "Любить чай.")] {
        let input = CoreFactInput {
            schema_version: CORE_FACT_INPUT_SCHEMA_VERSION.to_string(),
            category: "home".to_string(),
            scope: scope.map(str::to_string),
            text: text.to_string(),
            confidence: bits(0.9),
            tags: vec!["home".to_string()],
            source_archive_ids: vec![],
            source_candidate_id: None,
        };
        upsert_core_fact(&mut category, "home".to_string(), input, bits(0.9), id.to_string(), "2026-05-01T00:00:00Z");
    }
    let targets = strings(&["f1", "f2"]);
    let contested = contest_facts_in_category(&mut category, &targets, &Some("chat".to_string()), "cand_1", "Живе у Києві.", "2026-05-17T00:00:00Z");
    assert_eq!(contested, vec![0]);
    assert_eq!(category.facts[0].status, CoreFactStatus::Contested);
    assert_eq!(category.facts[0].tags, strings(&["home", "contested", "contested_by_reflection_candidate"]));
    assert_eq!(category.facts[0].links.len(), 1);
    assert_eq!(category.facts[0].links[0].target, "cand_1");
    assert_eq!(category.facts[1].status, CoreFactStatus::Active);
    assert_eq!(category.facts[2].status, CoreFactStatus::Active);
    assert_eq!(category.updated_at, "2026-05-17T00:00:00Z");

    let again = contest_facts_in_category(&mut category, &targets, &Some("chat".to_string()), "cand_1", "Живе у Києві.", "2026-05-18T00:00:00Z");
    assert!(again.is_empty());
    assert_eq!(category.updated_at, "2026-05-17T00:00:00Z");
}

fn vrow(row: usize, id: &str, hash: &str) -> VectorRow {
    VectorRow {
        row,
        memory_unit_id: id.to_string(),
        archive_id: "archive_1".to_string(),
        created_at: "2026-01-01T00:00:00Z".to_string(),
        thesis_hash: hash.to_string(),
    }
}

fn vunit(id: &str, thesis: &str, created_at: &str, status: MemoryUnitStatus) -> MemoryUnit {
    let mut u = unit(&[], &[], FidelityStatus::Valid);
    u.memory_unit_id = id.to_string();
    u.thesis = thesis.to_string();
    u.created_at = created_at.to_string();
    u.status = status;
    u
}

#[test]
fn backfill_plans_missing_and_stale_units() {
    let a = vunit("a", "thesis a", "2026-01-01T00:00:00Z", MemoryUnitStatus::ActiveArchive);
    let b = vunit("b", "thesis b changed", "2026-01-02T00:00:00Z", MemoryUnitStatus::ActiveArchive);
    let c = vunit("c", "thesis c", "2026-01-03T00:00:00Z", MemoryUnitStatus::ActiveArchive);
    let d = vunit("d", "thesis d", "2026-01-04T00:00:00Z", MemoryUnitStatus::ActiveArchive);
    let rows = vec![
        vrow(0, "a", &thesis_hash("thesis a")),
        vrow(1, "b", &thesis_hash("thesis b")),
        vrow(2, "d", &thesis_hash("thesis d")),
    ];
    let tombstones = vec![VectorTombstone { memory_unit_id: "d".to_string() }];
    assert_eq!(live_row_hash(&rows, &tombstones, "a"), Some(thesis_hash("thesis a")));
    assert_eq!(live_row_hash(&rows, &tombstones, "d"), None);
    let units = vec![a, b, c, d];
    let plan = plan_embedding_backfill(&units, &rows, &tombstones, &strings(&["c"]));
    assert_eq!(plan.missing, vec![1, 3]);
    assert_eq!(plan.new_tombstones, strings(&["b"]));
    assert!(has_missing_vector_units(&units, &rows, &tombstones));
    assert!(!has_missing_vector_units(&units[..1].to_vec(), &rows, &tombstones));
}

#[test]
fn batches_split_evenly_with_a_short_tail() {
    assert_eq!(embed_batch_ranges(5, 2), vec![(0, 2), (2, 4), (4, 5)]);
    assert_eq!(embed_batch_ranges(4, 2), vec![(0, 2), (2, 4)]);
    assert_eq!(embed_batch_ranges(3, 0), vec![(0, 1), (1, 2), (2, 3)]);
    assert!(embed_batch_ranges(0, 8).is_empty());
}

#[test]
fn embedding_results_append_rows_for_current_theses() {
    let items = vec![
        EmbedBatchItem { memory_unit_id: "a".to_string(), text: "thesis a".to_string() },
        EmbedBatchItem { memory_unit_id: "b".to_string(), text: "old thesis b".to_string() },
        EmbedBatchItem { memory_unit_id: "c".to_string(), text: "thesis c".to_string() },
        EmbedBatchItem { memory_unit_id: "e".to_string(), text: "thesis e".to_string() },
    ];
    let units = vec![
        vunit("a", "thesis a", "2026-01-01T00:00:00Z", MemoryUnitStatus::ActiveArchive),
        vunit("b", "new thesis b", "2026-01-02T00:00:00Z", MemoryUnitStatus::ActiveArchive),
        vunit("c", "thesis c", "2026-01-03T00:00:00Z", MemoryUnitStatus::ActiveArchive),
        vunit("e", "thesis e", "2026-01-05T00:00:00Z", MemoryUnitStatus::Forgotten),
    ];
    let rows = vec![vrow(0, "c", &thesis_hash("thesis c"))];
    let results = strings(&["a", "b", "c", "e"]);
    let plan = plan_embedding_append(&items, &results, &units, &rows, &vec![]).expect("all answered");
    assert_eq!(plan.items, vec![0]);
    assert_eq!(plan.rows.len(), 1);
    assert_eq!(plan.rows[0].row, 1);
    assert_eq!(plan.rows[0].memory_unit_id, "a");
    assert_eq!(plan.rows[0].thesis_hash, thesis_hash("thesis a"));

    match plan_embedding_append(&items, &strings(&["a", "c"]), &units, &rows, &vec![]) {
        Err(MemoryEngineError::Validation(m)) => assert_eq!(m, "embedding result missing memory_unit_id: b"),
        other => panic!("unexpected: {other:?}"),
    }
}

#[test]
fn compaction_drops_tombstoned_rows_and_renumbers() {
    let rows = vec![vrow(0, "a", "h1"), vrow(1, "b", "h2"), vrow(2, "a", "h3"), vrow(3, "c", "h4")];
    let tombstones = vec![VectorTombstone { memory_unit_id: "a".to_string() }];
    let compacted = compact_vector_rows(&rows, &tombstones);
    assert_eq!(compacted.kept, vec![1, 3]);
    assert_eq!(compacted.rows.iter().map(|r| r.row).collect::<Vec<_>>(), vec![0, 1]);
    assert_eq!(compacted.rows[1].memory_unit_id, "c");
    assert_eq!(live_row_hash(&rows, &vec![], "a"), Some("h3".to_string()));
}

#[test]
fn eligible_units_are_embedded_oldest_first() {
    let units = vec![
        vunit("b", "t", "2026-01-02T00:00:00Z", MemoryUnitStatus::ActiveArchive),
        vunit("x", "t", "2026-01-01T00:00:00Z", MemoryUnitStatus::Rejected),
        vunit("a", "t", "2026-01-02T00:00:00Z", MemoryUnitStatus::ActiveArchive),
        vunit("c", "t", "2026-01-01T00:00:00Z", MemoryUnitStatus::ActiveArchive),
    ];
    assert_eq!(eligible_units_in_embed_order(&units), vec![3, 2, 0]);
}

use memory_engine::expansion::{
    expansion_note_text, expansion_skipped_note, select_expansion_hits, visible_memory_texts,
};
use memory_engine::types::CoreContextEvent;

fn context_event(text: Option<&str>) -> CoreContextEvent {
    CoreContextEvent {
        event_id: "e".to_string(),
        timestamp: "2026-05-17T10:00:00Z".to_string(),
        event_type: "user_message".to_string(),
        source: "user".to_string(),
        speaker: None,
        text: text.map(str::to_string),
        tags: vec![],
        theme: None,
    }
}

#[test]
fn expansion_skips_detail_already_visible() {
    let archive = vec![recall_memory(None, "Кішечка Іржа".to_string(), "Тепла  розповідь.".to_string(), strings(&["Іржа руда."]), vec![])];
    let visible = visible_memory_texts(
        &strings(&["Користувача звати Микита.", "   "]),
        &vec![context_event(Some("Привіт!")), context_event(None)],
        &vec![context_event(Some(""))],
        &archive,
    );
    assert_eq!(visible, strings(&["користувача звати микита.", "привіт!", "кішечка іржа", "тепла розповідь.", "іржа руда."]));

    let ids = strings(&["u1", "u2", "u3", "u2", "u4"]);
    let theses = strings(&["Іржа руда", "Любить   каву.", "  ", "Інше про каву.", "любить каву"]);
    assert_eq!(select_expansion_hits(visible, &ids, &theses), vec![1]);
    assert_eq!(expansion_note_text(0), "contextual memory expansion found only already-visible detail.");
    assert_eq!(expansion_note_text(2), "contextual memory expansion added 2 detail memory item(s).");
    assert_eq!(expansion_skipped_note("below_threshold"), "contextual memory expansion skipped: below_threshold.");
}

fn recall_query(schema: &str) -> memory_engine::recall::RecallQuery {
    memory_engine::recall::RecallQuery {
        schema_version: schema.to_string(),
        query_id: None,
        created_at: None,
        session_id: Some("s1".to_string()),
        context: serde_json::Value::Null,
        query_text: Some("tea".to_string()),
        filters: memory_engine::recall::RecallFilters {
            time_range: Some(memory_engine::types::TimeRange {
                start: "2026-05-01T00:00:00Z".to_string(),
                end: "2026-05-02T00:00:00Z".to_string(),
            }),
            tags: vec!["tea".to_string(), "morning".to_string()],
            theme: Some("habits".to_string()),
            min_weight: None,
            min_freshness: None,
            source_layers: vec![memory_engine::types::RecallSourceLayer::Archive],
        },
        limit: 5,
        include_core: false,
        explain: false,
    }
}

#[test]
fn recall_query_schema_is_checked() {
    assert!(memory_engine::recall::validate_recall_query(&recall_query("recall_query.v1")).is_ok());
    assert!(matches!(
        memory_engine::recall::validate_recall_query(&recall_query("recall_query.v2")),
        Err(memory_engine::error::MemoryEngineError::IncompatibleSchema { expected, actual })
            if expected == "recall_query.v1" && actual == "recall_query.v2"
    ));
}

#[test]
fn archive_filters_copy_range_tags_and_theme() {
    let query = recall_query("recall_query.v1");
    let filters = memory_engine::recall::archive_filters_from_recall(&query.filters);
    assert_eq!(filters.tags, vec!["tea".to_string(), "morning".to_string()]);
    assert_eq!(filters.theme.as_deref(), Some("habits"));
    assert_eq!(filters.time_range.as_ref().map(|r| r.end.as_str()), Some("2026-05-02T00:00:00Z"));
}
