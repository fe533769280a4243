use memory_engine::error::MemoryEngineError;
use memory_engine::reflection::{
    candidate_from_reflection_draft, finish_review, promotion_input, review_record,
    validate_candidate_review_input, CandidateReviewInput, ReflectionCandidateDraft,
    CANDIDATE_REVIEW_INPUT_SCHEMA_VERSION,
};
use memory_engine::types::{CandidateStatus, F64Bits, ReviewDecision};

fn bits(value: f64) -> F64Bits {
    F64Bits { bits: value.to_bits() }
}

fn strings(items: &[&str]) -> Vec<String> {
    items.iter().map(|s| s.to_string()).collect()
}

fn draft() -> ReflectionCandidateDraft {
    ReflectionCandidateDraft {
        text: "  Користувач  живе у Києві. ".to_string(),
        category: "Home City".to_string(),
        confidence: bits(0.9),
        evidence_summary: "Кілька прямих заяв.".to_string(),
        source_memory_unit_ids: strings(&["u2", "ghost", "u1", "u2"]),
        supporting_archive_ids: strings(&["a2", " a1 "]),
        contradicting_archive_ids: vec![],
        contradicted_core_fact_ids: strings(&["f9", "f1"]),
        tags: strings(&["home", "city", "home"]),
    }
}

#[test]
fn reflection_draft_becomes_reviewable_candidate() {
    let known_units = strings(&["u1", "u2"]);
    let known_facts = strings(&["f1"]);
    let candidate = candidate_from_reflection_draft("session_1", Some("chat".to_string()), draft(), &known_units, &known_facts, "candidate_1".to_string(), bits(0.9), true, "2026-05-17T10:00:00Z").expect("usable draft");
    assert_eq!(candidate.status, CandidateStatus::ReadyForReview);
    assert_eq!(candidate.text, "Користувач живе у Києві.");
    assert_eq!(candidate.category, "home_city");
    assert_eq!(candidate.source_memory_unit_ids, strings(&["u1", "u2"]));
    assert_eq!(candidate.supporting_archive_ids, strings(&["a1", "a2"]));
    assert_eq!(candidate.contradicted_core_fact_ids, strings(&["f1"]));
    assert_eq!(candidate.tags, strings(&["city", "home"]));
    assert!(candidate.promotion_checks.weight_threshold_met);
    assert!(!candidate.promotion_checks.no_recent_contradiction);
    assert!(candidate.promotion_checks.manual_review_required);
    assert!(candidate.promoted_core_fact_id.is_none());

    let mut unknown = draft();
    unknown.source_memory_unit_ids = strings(&["ghost"]);
    assert!(candidate_from_reflection_draft("session_1", None, unknown, &known_units, &known_facts, "c2".to_string(), bits(0.5), false, "now").is_none());
    let mut blank = draft();
    blank.evidence_summary = "   ".to_string();
    assert!(candidate_from_reflection_draft("session_1", None, blank, &known_units, &known_facts, "c3".to_string(), bits(0.5), false, "now").is_none());
}

fn review(decision: ReviewDecision, scope: Option<&str>) -> CandidateReviewInput {
    CandidateReviewInput {
        schema_version: CANDIDATE_REVIEW_INPUT_SCHEMA_VERSION.to_string(),
        candidate_id: "candidate_1".to_string(),
        reviewed_by: " owner ".to_string(),
        decision,
        note: Some("  Stable and   supported. ".to_string()),
        core_scope: scope.map(str::to_string),
    }
}

#[test]
fn approved_candidate_is_promoted_with_review_marks() {
    let known_units = strings(&["u1", "u2"]);
    let mut candidate = candidate_from_reflection_draft("session_1", Some("chat".to_string()), draft(), &known_units, &vec![], "candidate_1".to_string(), bits(0.9), true, "2026-05-17T10:00:00Z").unwrap();
    assert!(candidate.promotion_checks.no_recent_contradiction);
    let input = review(ReviewDecision::Approved, Some("  "));
    assert!(validate_candidate_review_input(&input).is_ok());
    let record = review_record(&input, "2026-05-18T10:00:00Z");
    assert_eq!(record.reviewed_by, "owner");
    assert_eq!(record.note.as_deref(), Some("Stable and supported."));

    let fact_input = promotion_input(&candidate, &input.core_scope);
    assert_eq!(fact_input.category, "home_city");
    assert_eq!(fact_input.scope.as_deref(), Some("chat"));
    assert_eq!(fact_input.tags, strings(&["city", "home", "manual_review", "reflection_candidate"]));
    assert_eq!(fact_input.source_archive_ids, strings(&["a1", "a2"]));
    assert_eq!(fact_input.source_candidate_id.as_deref(), Some("candidate_1"));

    finish_review(&mut candidate, record, Some("core_fact_7".to_string()), "2026-05-18T10:00:00Z");
    assert_eq!(candidate.status, CandidateStatus::Promoted);
    assert_eq!(candidate.promoted_core_fact_id.as_deref(), Some("core_fact_7"));
    assert_eq!(candidate.updated_at, "2026-05-18T10:00:00Z");
}

#[test]
fn rejected_or_sent_back_candidates_are_not_promoted() {
    let known_units = strings(&["u1"]);
    let mut candidate = candidate_from_reflection_draft("s", None, draft(), &known_units, &vec![], "c".to_string(), bits(0.2), false, "t0").unwrap();
    let record = review_record(&review(ReviewDecision::NeedsChanges, None), "t1");
    finish_review(&mut candidate, record, None, "t1");
    assert_eq!(candidate.status, CandidateStatus::Draft);
    let record = review_record(&review(ReviewDecision::Rejected, None), "t2");
    finish_review(&mut candidate, record, None, "t2");
    assert_eq!(candidate.status, CandidateStatus::Rejected);
    assert!(candidate.promoted_core_fact_id.is_none());

    let mut bad = review(ReviewDecision::Approved, None);
    bad.reviewed_by = "  ".to_string();
    assert!(matches!(validate_candidate_review_input(&bad), Err(MemoryEngineError::Validation(m)) if m == "candidate review reviewed_by must not be empty"));
    bad.schema_version = "other".to_string();
    assert!(matches!(validate_candidate_review_input(&bad), Err(MemoryEngineError::IncompatibleSchema { .. })));
}
