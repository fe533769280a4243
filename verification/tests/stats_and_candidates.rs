use memory_engine::compression::EmotionalMarker;
use memory_engine::forgetting::{
    candidate_label, rank_forget_candidates, unit_has_emotional_marker, ForgetCandidateRank,
};
use memory_engine::recallstats::{apply_recall_delta, recall_flush_due, RecallStatDelta, RecallStats};
use memory_engine::types::F64Bits;

fn bits(value: f64) -> F64Bits {
    F64Bits { bits: value.to_bits() }
}

fn strings(items: &[&str]) -> Vec<String> {
    items.iter().map(|s| s.to_string()).collect()
}

fn candidate(id: &str, age_days: f64, weight: f64, recalls: u64) -> ForgetCandidateRank {
    ForgetCandidateRank {
        memory_unit_id: id.to_string(),
        age_days: bits(age_days),
        weight: bits(weight),
        archive_recall_count: recalls,
    }
}

#[test]
fn forget_candidates_oldest_lightest_least_recalled_first() {
    let candidates = vec![
        candidate("u1", 10.0, 0.3, 0),
        candidate("u2", 40.0, 0.3, 2),
        candidate("u3", 40.0, 0.1, 5),
        candidate("u4", 40.0, 0.3, 1),
        candidate("u5", 40.0, 0.3, 1),
    ];
    assert_eq!(rank_forget_candidates(&candidates, 10), vec![2, 3, 4, 1, 0]);
    assert_eq!(rank_forget_candidates(&candidates, 2), vec![2, 3]);
    assert_eq!(candidate_label(0), "m1");
    assert_eq!(candidate_label(11), "m12");
}

fn marker(sources: &[&str]) -> EmotionalMarker {
    EmotionalMarker {
        target: "cat".to_string(),
        affect: "warmth".to_string(),
        strength: bits(0.9),
        source_event_ids: strings(sources),
        quote: None,
        evidence: None,
    }
}

#[test]
fn strong_marker_on_shared_events_protects_unit() {
    let markers = vec![marker(&["e9"]), marker(&["e2", "e3"])];
    assert!(unit_has_emotional_marker(&strings(&["e3"]), &strings(&["e1"]), &markers, &vec![true, true]));
    assert!(!unit_has_emotional_marker(&strings(&["e3"]), &strings(&["e1"]), &markers, &vec![true, false]));
    // a unit without its own sources is judged by its archive's
    assert!(unit_has_emotional_marker(&vec![], &strings(&["e9"]), &markers, &vec![true, false]));
    // without any sources, any strong marker protects
    assert!(unit_has_emotional_marker(&vec![], &vec![], &markers, &vec![false, true]));
    assert!(!unit_has_emotional_marker(&vec![], &vec![], &markers, &vec![false, false]));
}

#[test]
fn recall_stats_count_recalls_and_survive_a_failed_flush() {
    let mut stats = RecallStats::new();
    stats.record(&strings(&["a1", "a2", "a1"]), "2026-05-17T10:00:00Z");
    stats.record(&strings(&["a1"]), "2026-05-17T09:00:00Z");
    assert_eq!(stats.deltas.len(), 2);
    let a1 = stats.deltas.iter().find(|d| d.archive_id == "a1").unwrap();
    assert_eq!(a1.added_count, 3);
    assert_eq!(a1.last_recalled_at.as_deref(), Some("2026-05-17T10:00:00Z"));

    let taken = stats.take_all();
    assert!(stats.deltas.is_empty());
    let (count, last) = apply_recall_delta(7, Some("2026-05-01T00:00:00Z".to_string()), &taken[0]);
    assert_eq!(count, 10);
    assert_eq!(last.as_deref(), Some("2026-05-17T10:00:00Z"));
    let (count, _) = apply_recall_delta(u64::MAX - 1, None, &taken[0]);
    assert_eq!(count, u64::MAX);

    stats.restore(taken);
    assert_eq!(stats.deltas.len(), 2);
    let a2 = stats.deltas.iter().find(|d| d.archive_id == "a2").unwrap();
    assert_eq!(a2.added_count, 1);

    stats.restore(vec![RecallStatDelta { archive_id: "a2".to_string(), added_count: 4, last_recalled_at: None }]);
    let a2 = stats.deltas.iter().find(|d| d.archive_id == "a2").unwrap();
    assert_eq!(a2.added_count, 5);
    assert_eq!(a2.last_recalled_at.as_deref(), Some("2026-05-17T10:00:00Z"));

    assert!(recall_flush_due(3, 3));
    assert!(!recall_flush_due(3, 2));
    assert!(!recall_flush_due(0, 100));
}
