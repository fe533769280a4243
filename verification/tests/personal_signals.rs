use memory_engine::corestore::{upsert_core_fact, CoreStoreCategory, CORE_FACT_INPUT_SCHEMA_VERSION};
use memory_engine::reflection::{candidate_from_reflection_draft, ReflectionCandidateDraft};
use memory_engine::signals::{
    is_near_duplicate_core_fact, signal_core_input, unit_has_core_link, user_message_ids,
};
use memory_engine::compression::PersonalSignal;
use memory_engine::types::{CandidateStatus, CoreContextEvent, CoreFactStatus, F64Bits};

fn bits(value: f64) -> F64Bits {
    F64Bits { bits: value.to_bits() }
}

fn strings(items: &[&str]) -> Vec<String> {
    items.iter().map(|s| s.to_string()).collect()
}

fn event(id: &str, event_type: &str) -> CoreContextEvent {
    CoreContextEvent {
        event_id: id.to_string(),
        timestamp: "2026-05-17T10:00:00Z".to_string(),
        event_type: event_type.to_string(),
        source: "chat".to_string(),
        speaker: None,
        text: None,
        tags: vec![],
        theme: None,
    }
}

fn signal(text: &str, category: &str, sources: &[&str]) -> PersonalSignal {
    PersonalSignal {
        text: text.to_string(),
        category: category.to_string(),
        confidence: bits(0.9),
        source_event_ids: strings(sources),
        evidence: None,
    }
}

fn category_with(texts: &[(&str, Option<&str>)]) -> CoreStoreCategory {
    let mut category = CoreStoreCategory {
        schema_version: String::new(),
        category: String::new(),
        updated_at: String::new(),
        facts: vec![],
    };
    for (n, (text, scope)) in texts.iter().enumerate() {
        let input = memory_engine::corestore::CoreFactInput {
            schema_version: CORE_FACT_INPUT_SCHEMA_VERSION.to_string(),
            category: "preferences".to_string(),
            scope: scope.map(str::to_string),
            text: text.to_string(),
            confidence: bits(0.9),
            tags: vec![],
            source_archive_ids: strings(&["archive_1"]),
            source_candidate_id: None,
        };
        upsert_core_fact(&mut category, "preferences".to_string(), input, bits(0.9), format!("f{n}"), "2026-05-17T10:00:00Z");
    }
    category
}

#[test]
fn user_message_ids_keep_only_user_messages() {
    let events = vec![event("e1", "user_message"), event("e2", "assistant_message"), event("e3", "user_message")];
    assert_eq!(user_message_ids(&events), strings(&["e1", "e3"]));
    assert!(user_message_ids(&vec![]).is_empty());
}

#[test]
fn qualifying_signal_becomes_core_input() {
    let users = strings(&["e1", "e3"]);
    let s = signal("  Loves   green tea ", " Food Preferences ", &["e9", "e3"]);
    let input = signal_core_input(&s, true, &users, "archive_7", "session_2").expect("qualifies");
    assert_eq!(input.schema_version, CORE_FACT_INPUT_SCHEMA_VERSION);
    assert_eq!(input.category, "food_preferences");
    assert_eq!(input.scope.as_deref(), Some("session_2"));
    assert_eq!(input.text, "Loves green tea");
    assert_eq!(input.confidence, bits(0.9));
    assert_eq!(input.tags, strings(&["archive_signal", "signal_category", "signal_category:food_preferences"]));
    assert_eq!(input.source_archive_ids, strings(&["archive_7"]));
    assert!(input.source_candidate_id.is_none());
}

#[test]
fn weak_or_unsourced_signals_are_skipped() {
    let users = strings(&["e1"]);
    assert!(signal_core_input(&signal("Loves tea", "food", &["e1"]), false, &users, "a", "s").is_none());
    assert!(signal_core_input(&signal("Loves tea", "food", &["e2"]), true, &users, "a", "s").is_none());
    assert!(signal_core_input(&signal("Loves tea", "food", &["e1"]), true, &vec![], "a", "s").is_none());
    assert!(signal_core_input(&signal("   ", "food", &["e1"]), true, &users, "a", "s").is_none());
    assert!(signal_core_input(&signal("Loves tea", " !! ", &["e1"]), true, &users, "a", "s").is_none());
    assert!(signal_core_input(&signal("Loves tea", "food", &["e1"]), true, &users, "a", "s").is_some());
}

#[test]
fn near_duplicate_facts_are_found_in_scope() {
    let category = category_with(&[
        ("Loves green tea in the morning", Some("s1")),
        ("Plays chess on weekends", None),
    ]);
    let scope = Some("s1".to_string());
    assert!(is_near_duplicate_core_fact(&category, &scope, "Loves green tea every morning"));
    assert!(!is_near_duplicate_core_fact(&category, &scope, "loves   GREEN tea in the morning"));
    assert!(!is_near_duplicate_core_fact(&category, &scope, "Collects old maps"));
    assert!(!is_near_duplicate_core_fact(&category, &None, "Loves green tea every morning"));
    assert!(is_near_duplicate_core_fact(&category, &None, "Plays chess most weekends"));

    let mut retired = category_with(&[("Loves green tea in the morning", Some("s1"))]);
    retired.facts[0].status = CoreFactStatus::Deprecated;
    assert!(!is_near_duplicate_core_fact(&retired, &scope, "Loves green tea every morning"));
}

fn candidate(id: &str, units: &[&str], status: CandidateStatus) -> memory_engine::reflection::CandidateBelief {
    let draft = ReflectionCandidateDraft {
        text: "Lives in Kyiv".to_string(),
        category: "home".to_string(),
        confidence: bits(0.9),
        evidence_summary: "Said so".to_string(),
        source_memory_unit_ids: strings(units),
        supporting_archive_ids: vec![],
        contradicting_archive_ids: vec![],
        contradicted_core_fact_ids: vec![],
        tags: vec![],
    };
    let mut c = candidate_from_reflection_draft("session_1", None, draft, &strings(units), &vec![], id.to_string(), bits(0.9), true, "now").expect("usable draft");
    c.status = status;
    c
}

#[test]
fn core_links_protect_units() {
    let mut category = category_with(&[("Lives in Kyiv", None)]);
    let categories = vec![category_with(&[("Plays chess", None)])];
    assert!(unit_has_core_link(&categories, &vec![], "archive_1", "u1"));
    assert!(!unit_has_core_link(&categories, &vec![], "archive_2", "u1"));

    category.facts[0].source_archive_ids = vec![];
    category.facts[0].source_candidate_id = Some("c1".to_string());
    let categories = vec![category];
    let candidates = vec![candidate("c1", &["u1"], CandidateStatus::Approved)];
    assert!(unit_has_core_link(&categories, &candidates, "archive_9", "u1"));
    assert!(!unit_has_core_link(&categories, &candidates, "archive_9", "u2"));

    let promoted = vec![candidate("c5", &["u2"], CandidateStatus::Promoted)];
    assert!(unit_has_core_link(&vec![], &promoted, "archive_9", "u2"));
    let rejected = vec![candidate("c5", &["u2"], CandidateStatus::Rejected)];
    assert!(!unit_has_core_link(&vec![], &rejected, "archive_9", "u2"));

    let mut hidden = categories;
    hidden[0].facts[0].status = CoreFactStatus::Deprecated;
    assert!(!unit_has_core_link(&hidden, &candidates, "archive_9", "u1"));
}
