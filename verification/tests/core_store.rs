use memory_engine::corecontext::{core_context_facts, rank_core_facts_for_query, CoreContextFact};
use memory_engine::corestore::{
    find_category_with_fact, find_core_fact_match, patch_core_fact_in_category, upsert_core_fact,
    validate_core_fact_input, validate_core_fact_patch_input, CoreFactInput, CoreFactPatchInput,
    CoreStoreCategory, CORE_FACT_INPUT_SCHEMA_VERSION, CORE_FACT_PATCH_INPUT_SCHEMA_VERSION,
};
use memory_engine::error::MemoryEngineError;
use memory_engine::ordering::{float_order_key, key_less, stable_order, KeyPart};
use memory_engine::selection::{select_sleep_events, SleepEventCandidate};
use memory_engine::types::{CoreFactStatus, F64Bits, ImportanceHint};

fn bits(value: f64) -> F64Bits {
    F64Bits { bits: value.to_bits() }
}

fn fact_input(category: &str, scope: Option<&str>, text: &str, confidence: f64, tags: &[&str]) -> CoreFactInput {
    CoreFactInput {
        schema_version: CORE_FACT_INPUT_SCHEMA_VERSION.to_string(),
        category: category.to_string(),
        scope: scope.map(str::to_string),
        text: text.to_string(),
        confidence: bits(confidence),
        tags: tags.iter().map(|t| t.to_string()).collect(),
        source_archive_ids: vec![],
        source_candidate_id: None,
    }
}

fn empty_category() -> CoreStoreCategory {
    CoreStoreCategory {
        schema_version: String::new(),
        category: String::new(),
        updated_at: String::new(),
        facts: vec![],
    }
}

fn patch(id: &str, scope: Option<&str>) -> CoreFactPatchInput {
    CoreFactPatchInput {
        schema_version: CORE_FACT_PATCH_INPUT_SCHEMA_VERSION.to_string(),
        core_fact_id: id.to_string(),
        scope: scope.map(str::to_string),
        text: None,
        status: None,
        confidence: None,
        tags: None,
    }
}

#[test]
fn total_order_key_follows_total_cmp() {
    let values = [f64::NEG_INFINITY, -2.5, -0.0, 0.0, 1e-300, 0.5, 1.0, f64::INFINITY];
    for pair in values.windows(2) {
        assert!(float_order_key(pair[0].to_bits()) < float_order_key(pair[1].to_bits()));
        assert_eq!(pair[0].total_cmp(&pair[1]), std::cmp::Ordering::Less);
    }
    assert_eq!(float_order_key(0.0f64.to_bits()), 0x8000_0000_0000_0000);
    assert_eq!(float_order_key((-0.0f64).to_bits()), 0x7fff_ffff_ffff_ffff);
}

#[test]
fn stable_order_sorts_by_parts_and_keeps_ties() {
    let keys = vec![
        vec![KeyPart::Descending(5), KeyPart::TextAscending("b".to_string())],
        vec![KeyPart::Descending(9), KeyPart::TextAscending("z".to_string())],
        vec![KeyPart::Descending(5), KeyPart::TextAscending("a".to_string())],
        vec![KeyPart::Descending(5), KeyPart::TextAscending("b".to_string())],
        vec![KeyPart::Ascending(1)],
    ];
    assert_eq!(stable_order(&keys), vec![4, 1, 2, 0, 3]);
    assert!(key_less(&keys[2], &keys[0]));
    assert!(!key_less(&keys[0], &keys[3]));
    let texts = vec![
        vec![KeyPart::TextDescending("a".to_string())],
        vec![KeyPart::TextDescending("c".to_string())],
        vec![KeyPart::TextDescending("b".to_string())],
    ];
    assert_eq!(stable_order(&texts), vec![1, 2, 0]);
}

fn event(id: &str, timestamp: &str, weight: f64, min_weight: f64, importance: ImportanceHint) -> SleepEventCandidate {
    SleepEventCandidate {
        event_id: id.to_string(),
        timestamp: timestamp.to_string(),
        weight: bits(weight),
        meets_min_weight: weight >= min_weight,
        importance,
    }
}

#[test]
fn select_sleep_events_keeps_heaviest_eligible_in_time_order() {
    let events = vec![
        event("e1", "2026-05-17T10:00:00Z", 0.9, 0.55, ImportanceHint::Normal),
        event("e2", "2026-05-17T10:01:00Z", 0.2, 0.55, ImportanceHint::Normal),
        event("e3", "2026-05-17T10:02:00Z", 0.6, 0.55, ImportanceHint::Normal),
        event("e4", "2026-05-17T10:03:00Z", 0.1, 0.55, ImportanceHint::Critical),
        event("e5", "2026-05-17T10:04:00Z", 0.95, 0.55, ImportanceHint::Normal),
    ];
    // eligible: e1, e3, e4, e5; best two by weight: e5, e1; listed by time
    assert_eq!(select_sleep_events(&events, 2), vec![0, 4]);
    assert_eq!(select_sleep_events(&events, 80), vec![0, 2, 3, 4]);
    assert_eq!(select_sleep_events(&events, 0), Vec::<usize>::new());
}

#[test]
fn select_sleep_events_falls_back_to_all_events() {
    let events = vec![
        event("b", "2026-05-17T10:00:00Z", 0.3, 0.55, ImportanceHint::Low),
        event("a", "2026-05-17T10:00:00Z", 0.3, 0.55, ImportanceHint::Normal),
        event("c", "2026-05-17T09:00:00Z", 0.1, 0.55, ImportanceHint::Medium),
    ];
    // none is eligible: all are ranked; equal weight and time go by identifier
    assert_eq!(select_sleep_events(&events, 2), vec![1, 0]);
    assert_eq!(select_sleep_events(&events, 3), vec![2, 1, 0]);
}

#[test]
fn upsert_creates_then_merges_the_same_fact() {
    let mut category = empty_category();
    let first = fact_input("name", Some(" telegram_chat_a "), "Користувача   звати Микита.", 0.95, &["telegram", "name"]);
    assert!(validate_core_fact_input(&first).is_ok());
    assert_eq!(find_core_fact_match(&category, &first.text, &first.scope), None);
    let (created, index) = upsert_core_fact(&mut category, "name".to_string(), first, bits(0.95), "core_fact_1".to_string(), "2026-05-17T16:00:00Z");
    assert!(created);
    assert_eq!(index, 0);
    assert_eq!(category.schema_version, "core_store.v1");
    assert_eq!(category.category, "name");
    let fact = &category.facts[0];
    assert_eq!(fact.text, "Користувача звати Микита.");
    assert_eq!(fact.scope.as_deref(), Some("telegram_chat_a"));
    assert_eq!(fact.tags, vec!["name".to_string(), "telegram".to_string()]);
    assert_eq!(fact.core_fact_id, "core_fact_1");
    assert_eq!(fact.status, CoreFactStatus::Active);

    let again = fact_input("name", Some("telegram_chat_a"), "користувача звати микита.", 0.5, &["profile"]);
    assert_eq!(find_core_fact_match(&category, &again.text, &again.scope), Some(0));
    let (created, index) = upsert_core_fact(&mut category, "name".to_string(), again, bits(0.95), "core_fact_2".to_string(), "2026-05-17T17:00:00Z");
    assert!(!created);
    assert_eq!(index, 0);
    assert_eq!(category.facts.len(), 1);
    let fact = &category.facts[0];
    assert_eq!(fact.core_fact_id, "core_fact_1");
    assert_eq!(fact.text, "користувача звати микита.");
    assert_eq!(fact.updated_at, "2026-05-17T17:00:00Z");
    assert_eq!(fact.created_at, "2026-05-17T16:00:00Z");
    assert_eq!(fact.tags, vec!["name".to_string(), "telegram".to_string(), "profile".to_string()]);

    let other_scope = fact_input("name", Some("telegram_chat_b"), "Користувача звати Микита.", 0.5, &[]);
    let (created, index) = upsert_core_fact(&mut category, "name".to_string(), other_scope, bits(0.5), "core_fact_3".to_string(), "2026-05-17T18:00:00Z");
    assert!(created);
    assert_eq!(index, 1);
}

#[test]
fn core_fact_inputs_are_checked() {
    let mut input = fact_input("name", None, "text", 0.5, &[]);
    input.schema_version = "core_fact_input.v0".to_string();
    assert!(matches!(validate_core_fact_input(&input), Err(MemoryEngineError::IncompatibleSchema { .. })));
    let input = fact_input("  ", None, "text", 0.5, &[]);
    assert!(matches!(validate_core_fact_input(&input), Err(MemoryEngineError::Validation(m)) if m == "core fact category must not be empty"));
    let input = fact_input("name", None, " ", 0.5, &[]);
    assert!(matches!(validate_core_fact_input(&input), Err(MemoryEngineError::Validation(m)) if m == "core fact text must not be empty"));
    let input = fact_input("name", None, "text", f64::NAN, &[]);
    assert!(matches!(validate_core_fact_input(&input), Err(MemoryEngineError::Validation(m)) if m == "core fact confidence must be finite"));
    let input = fact_input("name", None, "text", f64::INFINITY, &[]);
    assert!(validate_core_fact_input(&input).is_err());

    let empty_patch = patch("core_fact_1", None);
    assert!(matches!(validate_core_fact_patch_input(&empty_patch), Err(MemoryEngineError::Validation(m)) if m == "core fact patch must change at least one field"));
    let mut blank_text = patch("core_fact_1", None);
    blank_text.text = Some("   ".to_string());
    assert!(matches!(validate_core_fact_patch_input(&blank_text), Err(MemoryEngineError::Validation(m)) if m == "core fact patch text must not be empty"));
    let mut no_id = patch(" ", None);
    no_id.status = Some(CoreFactStatus::Deprecated);
    assert!(matches!(validate_core_fact_patch_input(&no_id), Err(MemoryEngineError::Validation(m)) if m == "core fact patch core_fact_id must not be empty"));
    let mut bad_confidence = patch("core_fact_1", None);
    bad_confidence.confidence = Some(bits(f64::NAN));
    assert!(matches!(validate_core_fact_patch_input(&bad_confidence), Err(MemoryEngineError::Validation(m)) if m == "core fact patch confidence must be finite"));
    let mut fine = patch("core_fact_1", None);
    fine.tags = Some(vec![]);
    assert!(validate_core_fact_patch_input(&fine).is_ok());
}

#[test]
fn patch_updates_text_and_deprecates_fact() {
    let mut category = empty_category();
    let input = fact_input("pet", Some("telegram_1"), "Користувача звати Микита.", 0.95, &["name"]);
    upsert_core_fact(&mut category, "pet".to_string(), input, bits(0.95), "core_fact_1".to_string(), "2026-05-17T16:00:00Z");
    let categories = vec![empty_category(), category];
    assert_eq!(find_category_with_fact(&categories, "core_fact_1", &Some("telegram_1".to_string())), Some(1));
    assert_eq!(find_category_with_fact(&categories, "core_fact_1", &Some("telegram_2".to_string())), None);
    let mut category = categories.into_iter().nth(1).unwrap();

    let mut update = patch("core_fact_1", Some("telegram_1"));
    update.text = Some("Користувача  звати Микита Загамула.".to_string());
    update.status = Some(CoreFactStatus::Active);
    assert_eq!(patch_core_fact_in_category(&mut category, update, None, "2026-05-17T17:00:00Z").ok(), Some(0));
    assert_eq!(category.facts[0].text, "Користувача звати Микита Загамула.");
    assert_eq!(category.facts[0].status, CoreFactStatus::Active);
    assert_eq!(category.updated_at, "2026-05-17T17:00:00Z");

    let mut deprecate = patch("core_fact_1", Some("telegram_1"));
    deprecate.status = Some(CoreFactStatus::Deprecated);
    deprecate.tags = Some(vec!["b".to_string(), " a ".to_string(), "b".to_string()]);
    assert!(patch_core_fact_in_category(&mut category, deprecate, Some(bits(0.4)), "2026-05-17T18:00:00Z").is_ok());
    assert_eq!(category.facts[0].status, CoreFactStatus::Deprecated);
    assert_eq!(category.facts[0].tags, vec!["a".to_string(), "b".to_string()]);
    assert_eq!(category.facts[0].confidence, bits(0.4));

    let categories = vec![category];
    assert!(core_context_facts(&categories, Some("telegram_1")).is_empty());

    let mut category = categories.into_iter().next().unwrap();
    let mut missing = patch("core_fact_1", Some("telegram_2"));
    missing.status = Some(CoreFactStatus::Active);
    match patch_core_fact_in_category(&mut category, missing, None, "2026-05-17T19:00:00Z") {
        Err(MemoryEngineError::Validation(m)) => {
            assert_eq!(m, "core fact not found for requested scope: core_fact_1")
        }
        other => panic!("unexpected result: {other:?}"),
    }
    assert_eq!(category.updated_at, "2026-05-17T18:00:00Z");
}

fn store(name: &str, facts: &[(&str, Option<&str>, &str, f64)]) -> CoreStoreCategory {
    let mut category = empty_category();
    for (index, (id, scope, text, confidence)) in facts.iter().enumerate() {
        let input = fact_input(name, *scope, text, *confidence, &[]);
        upsert_core_fact(&mut category, name.to_string(), input, bits(*confidence), id.to_string(), &format!("2026-05-17T16:0{index}:00Z"));
    }
    category
}

#[test]
fn context_facts_filter_by_scope_and_sort() {
    let mut profile = store("profile", &[("p1", Some("telegram_1"), "Користувача звати Микита.", 0.7), ("p2", Some("telegram_2"), "Користувача звати Аліса.", 0.95), ("p3", Some("telegram_1"), "Любить каву.", 0.9)]);
    let mut contested = patch("p3", Some("telegram_1"));
    contested.status = Some(CoreFactStatus::Contested);
    patch_core_fact_in_category(&mut profile, contested, None, "2026-05-17T17:00:00Z").ok();
    let pets = store("pets", &[("a1", Some("telegram_1"), "Кішечка Іржа.", 0.8), ("a2", None, "Без області.", 0.99)]);
    let categories = vec![profile, pets];

    let facts = core_context_facts(&categories, Some("telegram_1"));
    let ids: Vec<&str> = facts.iter().map(|f| f.core_fact_id.as_str()).collect();
    assert_eq!(ids, vec!["a1", "p1", "p3"]);
    assert_eq!(facts[0].category, "pets");

    let unscoped = core_context_facts(&categories, Some("  "));
    assert_eq!(unscoped.len(), 1);
    assert_eq!(unscoped[0].core_fact_id, "a2");

    let ranked = rank_core_facts_for_query(facts, Some("Як звати користувача?"));
    let ids: Vec<&str> = ranked.iter().map(|f| f.core_fact_id.as_str()).collect();
    assert_eq!(ids, vec!["p1", "p3", "a1"]);

    let unchanged = rank_core_facts_for_query(ranked, Some("so"));
    let ids: Vec<&str> = unchanged.iter().map(|f| f.core_fact_id.as_str()).collect();
    assert_eq!(ids, vec!["p1", "p3", "a1"]);
}

#[test]
fn ranking_breaks_ties_by_confidence_category_and_id() {
    let fact = |category: &str, id: &str, confidence: f64| CoreContextFact {
        category: category.to_string(),
        core_fact_id: id.to_string(),
        scope: None,
        text: "Любить чай.".to_string(),
        status: CoreFactStatus::Active,
        confidence: bits(confidence),
        tags: vec![],
    };
    let facts = vec![fact("b", "2", 0.5), fact("a", "9", 0.5), fact("b", "1", 0.5), fact("c", "0", 0.9)];
    let ranked = rank_core_facts_for_query(facts, Some("чай"));
    let ids: Vec<&str> = ranked.iter().map(|f| f.core_fact_id.as_str()).collect();
    assert_eq!(ids, vec!["0", "9", "1", "2"]);
}
