//! Reflection candidates: beliefs a model proposes from validated memory
//! units, which a person reviews before they reach the Core Store.

use vstd::prelude::*;

use crate::corestore::{CoreFactInput, CORE_FACT_INPUT_SCHEMA_VERSION};
use crate::contextrequest::{json_str_field, value_str_field};
use crate::sleeprun::PendingTask;
use crate::types::TaskType;
use crate::error::MemoryEngineError;
use crate::strset::{contains_str, sorted_set, str_eq};
use crate::text::{
    is_blank, is_empty_str, normalize_opt_seq, normalize_optional_string, normalize_whitespace,
    normalize_ws_seq, opt_view, strs, trim_seq,
};
use crate::tokens::{category_name, normalize_category_name, normalized_upto, unique_strings};
use crate::types::{
    CandidateStatus, F64Bits, Link, PromotionChecks, ReviewDecision, ReviewRecord,
    CANDIDATE_BELIEF_SCHEMA_VERSION,
};

verus! {

/// The schema of a review of a candidate.
pub const CANDIDATE_REVIEW_INPUT_SCHEMA_VERSION: &'static str = "candidate_review_input.v1";

/// A belief as a reflection model proposes it.
#[derive(Debug)]
pub struct ReflectionCandidateDraft {
    pub text: String,
    pub category: String,
    pub confidence: F64Bits,
    pub evidence_summary: String,
    pub source_memory_unit_ids: Vec<String>,
    pub supporting_archive_ids: Vec<String>,
    pub contradicting_archive_ids: Vec<String>,
    pub contradicted_core_fact_ids: Vec<String>,
    pub tags: Vec<String>,
}

/// A proposed belief waiting for, or past, a person's review.
#[derive(Debug)]
pub struct CandidateBelief {
    pub schema_version: String,
    pub candidate_id: String,
    pub source_session_id: Option<String>,
    pub core_scope: Option<String>,
    pub created_at: String,
    pub updated_at: String,
    pub text: String,
    pub category: String,
    pub status: CandidateStatus,
    pub confidence: F64Bits,
    pub supporting_archive_ids: Vec<String>,
    pub contradicting_archive_ids: Vec<String>,
    pub contradicted_core_fact_ids: Vec<String>,
    pub evidence_summary: String,
    pub promotion_checks: PromotionChecks,
    pub source_memory_unit_ids: Vec<String>,
    pub tags: Vec<String>,
    pub promoted_core_fact_id: Option<String>,
    pub review: Option<ReviewRecord>,
    pub links: Vec<Link>,
}

/// A person's review of a candidate.
#[derive(Debug)]
pub struct CandidateReviewInput {
    pub schema_version: String,
    pub candidate_id: String,
    pub reviewed_by: String,
    pub decision: ReviewDecision,
    pub note: Option<String>,
    pub core_scope: Option<String>,
}

/// The non-blank items with white space collapsed, as a set.
pub open spec fn cleaned_set(items: Seq<Seq<char>>) -> Set<Seq<char>> {
    normalized_upto(items, items.len() as int)
}

/// The items of `ids` that `known` holds, in order.
pub open spec fn known_only(ids: Seq<Seq<char>>, known: Seq<Seq<char>>) -> Seq<Seq<char>>
    decreases ids.len(),
{
    if ids.len() == 0 {
        Seq::empty()
    } else {
        let prev = known_only(ids.drop_last(), known);
        if known.contains(ids.last()) {
            prev.push(ids.last())
        } else {
            prev
        }
    }
}

fn keep_known(ids: Vec<String>, known: &Vec<String>) -> (r: Vec<String>)
    ensures
        strs(r@) == known_only(strs(ids@), strs(known@)),
{
    let mut out: Vec<String> = Vec::new();
    let mut i: usize = 0;
    while i < ids.len()
        invariant
            i <= ids@.len(),
            strs(out@) == known_only(strs(ids@).take(i as int), strs(known@)),
        decreases ids@.len() - i,
    {
        assert(strs(ids@).take(i + 1).drop_last() =~= strs(ids@).take(i as int));
        if contains_str(known, ids[i].as_str()) {
            let ghost prev = strs(out@);
            out.push(ids[i].clone());
            assert(strs(out@) =~= prev.push(ids@[i as int]@));
        }
        i = i + 1;
    }
    assert(strs(ids@).take(ids@.len() as int) =~= strs(ids@));
    out
}

proof fn lemma_empty_iff_no_items(s: Seq<Seq<char>>)
    ensures
        (s.len() == 0) == (s.to_set() == Set::<Seq<char>>::empty()),
{
    if s.len() > 0 {
        assert(s.to_set().contains(s[0]));
    } else {
        assert(s.to_set() =~= Set::<Seq<char>>::empty());
    }
}

/// Whether a draft yields a candidate: its text, category and evidence are
/// not blank (after normalizing), and it cites a known memory unit.
pub open spec fn draft_accepted(d: ReflectionCandidateDraft, known_units: Seq<Seq<char>>) -> bool {
    &&& normalize_ws_seq(d.text@).len() > 0
    &&& category_name(d.category@).len() > 0
    &&& normalize_ws_seq(d.evidence_summary@).len() > 0
    &&& cleaned_set(known_only(strs(d.source_memory_unit_ids@), known_units)) != Set::<Seq<char>>::empty()
}

/// Turns a reflection draft into a candidate ready for review, or nothing
/// when the draft is not usable (see `draft_accepted`). Cited memory units
/// and contradicted facts are kept only when known; every list is cleaned
/// and sorted. `confidence` is the draft's confidence clamped to `[0, 1]`
/// and `confident` whether it reaches the promotion threshold, both
/// computed by the caller.
pub fn candidate_from_reflection_draft(
    source_session_id: &str,
    core_scope: Option<String>,
    draft: ReflectionCandidateDraft,
    known_units: &Vec<String>,
    known_core_facts: &Vec<String>,
    candidate_id: String,
    confidence: F64Bits,
    confident: bool,
    now: &str,
) -> (r: Option<CandidateBelief>)
    ensures
        r is Some <==> draft_accepted(draft, strs(known_units@)),
        r matches Some(c) ==> {
            &&& c.schema_version@ == CANDIDATE_BELIEF_SCHEMA_VERSION@
            &&& c.candidate_id == candidate_id
            &&& opt_view(c.source_session_id) == Some(source_session_id@)
            &&& c.core_scope == core_scope
            &&& c.created_at@ == now@
            &&& c.updated_at@ == now@
            &&& c.text@ == normalize_ws_seq(draft.text@)
            &&& c.category@ == category_name(draft.category@)
            &&& c.evidence_summary@ == normalize_ws_seq(draft.evidence_summary@)
            &&& c.status == CandidateStatus::ReadyForReview
            &&& c.confidence == confidence
            &&& sorted_set(strs(c.source_memory_unit_ids@))
            &&& strs(c.source_memory_unit_ids@).to_set() == cleaned_set(known_only(strs(draft.source_memory_unit_ids@), strs(known_units@)))
            &&& sorted_set(strs(c.supporting_archive_ids@))
            &&& strs(c.supporting_archive_ids@).to_set() == cleaned_set(strs(draft.supporting_archive_ids@))
            &&& sorted_set(strs(c.contradicting_archive_ids@))
            &&& strs(c.contradicting_archive_ids@).to_set() == cleaned_set(strs(draft.contradicting_archive_ids@))
            &&& sorted_set(strs(c.contradicted_core_fact_ids@))
            &&& strs(c.contradicted_core_fact_ids@).to_set() == cleaned_set(known_only(strs(draft.contradicted_core_fact_ids@), strs(known_core_facts@)))
            &&& sorted_set(strs(c.tags@))
            &&& strs(c.tags@).to_set() == cleaned_set(strs(draft.tags@))
            &&& c.promotion_checks == (PromotionChecks {
                min_sources_met: true,
                weight_threshold_met: confident,
                no_recent_contradiction: c.contradicting_archive_ids@.len() == 0 && c.contradicted_core_fact_ids@.len() == 0,
                manual_review_required: true,
            })
            &&& c.promoted_core_fact_id is None
            &&& c.review is None
            &&& c.links@.len() == 0
        },
{
    let text = normalize_whitespace(draft.text.as_str());
    let category = normalize_category_name(draft.category.as_str());
    let evidence_summary = normalize_whitespace(draft.evidence_summary.as_str());
    if is_empty_str(text.as_str()) || is_empty_str(category.as_str()) || is_empty_str(evidence_summary.as_str()) {
        return None;
    }
    let units = unique_strings(keep_known(draft.source_memory_unit_ids, known_units));
    proof {
        lemma_empty_iff_no_items(strs(units@));
    }
    if units.len() == 0 {
        return None;
    }
    let supporting = unique_strings(draft.supporting_archive_ids);
    let contradicting = unique_strings(draft.contradicting_archive_ids);
    let contradicted = unique_strings(keep_known(draft.contradicted_core_fact_ids, known_core_facts));
    let tags = unique_strings(draft.tags);
    let no_contradiction = contradicting.len() == 0 && contradicted.len() == 0;
    Some(
        CandidateBelief {
            schema_version: CANDIDATE_BELIEF_SCHEMA_VERSION.to_string(),
            candidate_id,
            source_session_id: Some(source_session_id.to_string()),
            core_scope,
            created_at: now.to_string(),
            updated_at: now.to_string(),
            text,
            category,
            status: CandidateStatus::ReadyForReview,
            confidence,
            supporting_archive_ids: supporting,
            contradicting_archive_ids: contradicting,
            contradicted_core_fact_ids: contradicted,
            evidence_summary,
            promotion_checks: PromotionChecks {
                min_sources_met: true,
                weight_threshold_met: confident,
                no_recent_contradiction: no_contradiction,
                manual_review_required: true,
            },
            source_memory_unit_ids: units,
            tags,
            promoted_core_fact_id: None,
            review: None,
            links: Vec::new(),
        },
    )
}

// ---------------------------------------------------------------- review

/// The first problem of a review, if any.
pub open spec fn review_input_problem(input: CandidateReviewInput) -> Option<Seq<char>> {
    if input.schema_version@ != CANDIDATE_REVIEW_INPUT_SCHEMA_VERSION@ {
        Some(input.schema_version@)
    } else if trim_seq(input.candidate_id@).len() == 0 {
        Some("candidate review candidate_id must not be empty"@)
    } else if trim_seq(input.reviewed_by@).len() == 0 {
        Some("candidate review reviewed_by must not be empty"@)
    } else {
        None
    }
}

/// Checks a decision on a candidate: the current schema, the candidate and
/// the person deciding.
pub fn validate_candidate_review_input(request: &CandidateReviewInput) -> (r: Result<(), MemoryEngineError>)
    ensures
        review_input_problem(*request) is None <==> r is Ok,
        request.schema_version@ != CANDIDATE_REVIEW_INPUT_SCHEMA_VERSION@ ==> (r matches Err(
            MemoryEngineError::IncompatibleSchema { expected, actual },
        ) && expected@ == CANDIDATE_REVIEW_INPUT_SCHEMA_VERSION@ && actual@ == request.schema_version@),
        request.schema_version@ == CANDIDATE_REVIEW_INPUT_SCHEMA_VERSION@ && review_input_problem(*request) is Some
            ==> (r matches Err(MemoryEngineError::Validation(m)) && m@ == review_input_problem(*request).unwrap()),
{
    if !str_eq(request.schema_version.as_str(), CANDIDATE_REVIEW_INPUT_SCHEMA_VERSION) {
        return Err(
            MemoryEngineError::IncompatibleSchema {
                expected: CANDIDATE_REVIEW_INPUT_SCHEMA_VERSION.to_string(),
                actual: request.schema_version.clone(),
            },
        );
    }
    if is_blank(request.candidate_id.as_str()) {
        return Err(MemoryEngineError::Validation("candidate review candidate_id must not be empty".to_string()));
    }
    if is_blank(request.reviewed_by.as_str()) {
        return Err(MemoryEngineError::Validation("candidate review reviewed_by must not be empty".to_string()));
    }
    Ok(())
}

/// What a decision records on its candidate: who decided and the note, with
/// white space collapsed (a blank note meaning none), the decision, the time.
pub fn review_record(request: &CandidateReviewInput, now: &str) -> (r: ReviewRecord)
    ensures
        r.reviewed_by@ == normalize_ws_seq(request.reviewed_by@),
        r.reviewed_at@ == now@,
        r.decision == request.decision,
        opt_view(r.note) == normalize_opt_seq(opt_view(request.note)),
{
    ReviewRecord {
        reviewed_by: normalize_whitespace(request.reviewed_by.as_str()),
        reviewed_at: now.to_string(),
        decision: request.decision,
        note: match &request.note {
            Some(n) => normalize_optional_string(Some(n.as_str())),
            None => normalize_optional_string(None),
        },
    }
}

/// The core fact an approved candidate becomes: its category (white space
/// collapsed), the review's scope or else the candidate's, its text and
/// confidence, its tags with the review marks, its supporting archives, and
/// itself as the source.
pub fn promotion_input(candidate: &CandidateBelief, review_scope: &Option<String>) -> (r: CoreFactInput)
    ensures
        r.schema_version@ == CORE_FACT_INPUT_SCHEMA_VERSION@,
        r.category@ == normalize_ws_seq(candidate.category@),
        opt_view(r.scope) == (match normalize_opt_seq(opt_view(*review_scope)) {
            Some(s) => Some(s),
            None => opt_view(candidate.core_scope),
        }),
        r.text == candidate.text,
        r.confidence == candidate.confidence,
        sorted_set(strs(r.tags@)),
        strs(r.tags@).to_set() == cleaned_set(strs(candidate.tags@) + seq!["reflection_candidate"@, "manual_review"@]),
        sorted_set(strs(r.source_archive_ids@)),
        strs(r.source_archive_ids@).to_set() == cleaned_set(strs(candidate.supporting_archive_ids@)),
        opt_view(r.source_candidate_id) == Some(candidate.candidate_id@),
{
    let scope = match review_scope {
        Some(s) => normalize_optional_string(Some(s.as_str())),
        None => normalize_optional_string(None),
    };
    let scope = match scope {
        Some(s) => Some(s),
        None => match &candidate.core_scope {
            Some(s) => Some(s.clone()),
            None => None,
        },
    };
    let mut tags: Vec<String> = Vec::new();
    let mut i: usize = 0;
    while i < candidate.tags.len()
        invariant
            i <= candidate.tags@.len(),
            strs(tags@) == strs(candidate.tags@).take(i as int),
        decreases candidate.tags@.len() - i,
    {
        tags.push(candidate.tags[i].clone());
        assert(strs(candidate.tags@).take(i + 1) =~= strs(candidate.tags@).take(i as int).push(candidate.tags@[i as int]@));
        i = i + 1;
    }
    assert(strs(candidate.tags@).take(candidate.tags@.len() as int) =~= strs(candidate.tags@));
    let ghost base = strs(tags@);
    tags.push("reflection_candidate".to_string());
    tags.push("manual_review".to_string());
    assert(strs(tags@) =~= base + seq!["reflection_candidate"@, "manual_review"@]);
    let mut supporting: Vec<String> = Vec::new();
    let mut j: usize = 0;
    while j < candidate.supporting_archive_ids.len()
        invariant
            j <= candidate.supporting_archive_ids@.len(),
            strs(supporting@) == strs(candidate.supporting_archive_ids@).take(j as int),
        decreases candidate.supporting_archive_ids@.len() - j,
    {
        supporting.push(candidate.supporting_archive_ids[j].clone());
        assert(strs(candidate.supporting_archive_ids@).take(j + 1) =~= strs(candidate.supporting_archive_ids@).take(
            j as int,
        ).push(candidate.supporting_archive_ids@[j as int]@));
        j = j + 1;
    }
    assert(strs(candidate.supporting_archive_ids@).take(candidate.supporting_archive_ids@.len() as int) =~= strs(
        candidate.supporting_archive_ids@,
    ));
    CoreFactInput {
        schema_version: CORE_FACT_INPUT_SCHEMA_VERSION.to_string(),
        category: normalize_whitespace(candidate.category.as_str()),
        scope,
        text: candidate.text.clone(),
        confidence: candidate.confidence,
        tags: unique_strings(tags),
        source_archive_ids: unique_strings(supporting),
        source_candidate_id: Some(candidate.candidate_id.clone()),
    }
}

/// The status a review leaves a candidate in: promoted when approved (its
/// fact is then in the Core Store), rejected, or back to draft.
pub open spec fn status_after_review(decision: ReviewDecision) -> CandidateStatus {
    match decision {
        ReviewDecision::Approved => CandidateStatus::Promoted,
        ReviewDecision::Rejected => CandidateStatus::Rejected,
        ReviewDecision::NeedsChanges => CandidateStatus::Draft,
    }
}

/// Records a review on its candidate: the new status, the promoted fact's
/// identifier for an approval (`promoted_fact_id`), the time and the record.
pub fn finish_review(candidate: &mut CandidateBelief, review: ReviewRecord, promoted_fact_id: Option<String>, now: &str)
    requires
        (review.decision == ReviewDecision::Approved) == (promoted_fact_id is Some),
    ensures
        final(candidate).status == status_after_review(review.decision),
        review.decision == ReviewDecision::Approved ==> final(candidate).promoted_core_fact_id == promoted_fact_id,
        review.decision != ReviewDecision::Approved ==> final(candidate).promoted_core_fact_id == old(candidate).promoted_core_fact_id,
        final(candidate).updated_at@ == now@,
        final(candidate).review == Some(review),
        final(candidate).candidate_id == old(candidate).candidate_id,
        final(candidate).text == old(candidate).text,
        final(candidate).category == old(candidate).category,
        final(candidate).confidence == old(candidate).confidence,
        final(candidate).created_at == old(candidate).created_at,
        final(candidate).tags == old(candidate).tags,
{
    match review.decision {
        ReviewDecision::Approved => {
            candidate.status = CandidateStatus::Promoted;
            candidate.promoted_core_fact_id = promoted_fact_id;
        },
        ReviewDecision::Rejected => {
            candidate.status = CandidateStatus::Rejected;
        },
        ReviewDecision::NeedsChanges => {
            candidate.status = CandidateStatus::Draft;
        },
    }
    candidate.updated_at = now.to_string();
    candidate.review = Some(review);
}

// ---------------------------------------------------------------- analysis results

/// The schema of a reflection model's answer.
pub const REFLECTION_RESULT_SCHEMA_VERSION: &'static str = "reflection_result.v1";

/// What a reflection model answers for a session: candidate beliefs.
#[derive(Debug)]
pub struct ReflectionAnalyzeResult {
    pub schema_version: String,
    pub source_session_id: String,
    pub core_scope: Option<String>,
    pub candidates: Vec<ReflectionCandidateDraft>,
}

/// Why a reflection answer with the current schema is refused for `task`,
/// if it is: a blank session, a task of another type, a task without a
/// session, or a task for another session.
pub open spec fn reflection_result_problem(
    session_id: Seq<char>,
    task_type: TaskType,
    task_id: Seq<char>,
    task_session: Option<Seq<char>>,
) -> Option<Seq<char>> {
    if trim_seq(session_id).len() == 0 {
        Some("reflection result source_session_id must not be empty"@)
    } else if task_type != TaskType::ReflectionAnalyze {
        Some("task is not reflection_analyze: "@ + task_id)
    } else {
        match task_session {
            None => Some("reflection_analyze task has no source_session_id: "@ + task_id),
            Some(t) => if t != session_id {
                Some("reflection source_session_id mismatch: task="@ + t + " result="@ + session_id)
            } else {
                None
            },
        }
    }
}

/// Checks a reflection answer against the task it answers and gives the
/// Core Store scope its candidates take: the task's own scope, normalized,
/// which overrides any scope in the answer.
pub fn check_reflection_result(
    result: &ReflectionAnalyzeResult,
    task_id: &str,
    task: &PendingTask,
) -> (r: Result<Option<String>, MemoryEngineError>)
    ensures
        result.schema_version@ != REFLECTION_RESULT_SCHEMA_VERSION@ ==> (r matches Err(
            MemoryEngineError::IncompatibleSchema { expected, actual },
        ) && expected@ == REFLECTION_RESULT_SCHEMA_VERSION@ && actual@ == result.schema_version@),
        result.schema_version@ == REFLECTION_RESULT_SCHEMA_VERSION@ ==> match reflection_result_problem(
            result.source_session_id@,
            task.task_type,
            task_id@,
            json_str_field(task.inputs, "source_session_id"@),
        ) {
            Some(m) => r matches Err(MemoryEngineError::Validation(v)) && v@ == m,
            None => r matches Ok(scope) && opt_view(scope) == normalize_opt_seq(
                json_str_field(task.inputs, "core_scope"@),
            ),
        },
{
    if !str_eq(result.schema_version.as_str(), REFLECTION_RESULT_SCHEMA_VERSION) {
        return Err(
            MemoryEngineError::IncompatibleSchema {
                expected: REFLECTION_RESULT_SCHEMA_VERSION.to_string(),
                actual: result.schema_version.clone(),
            },
        );
    }
    if is_blank(result.source_session_id.as_str()) {
        return Err(
            MemoryEngineError::Validation(
                "reflection result source_session_id must not be empty".to_string(),
            ),
        );
    }
    let is_reflection = match task.task_type {
        TaskType::ReflectionAnalyze => true,
        _ => false,
    };
    if !is_reflection {
        let mut m = "task is not reflection_analyze: ".to_string();
        m.append(task_id);
        return Err(MemoryEngineError::Validation(m));
    }
    let task_session = value_str_field(&task.inputs, "source_session_id");
    match task_session {
        None => {
            let mut m = "reflection_analyze task has no source_session_id: ".to_string();
            m.append(task_id);
            Err(MemoryEngineError::Validation(m))
        },
        Some(t) => {
            if !str_eq(t.as_str(), result.source_session_id.as_str()) {
                let mut m = "reflection source_session_id mismatch: task=".to_string();
                m.append(t.as_str());
                m.append(" result=");
                m.append(result.source_session_id.as_str());
                return Err(MemoryEngineError::Validation(m));
            }
            let scope = value_str_field(&task.inputs, "core_scope");
            match scope {
                Some(s) => Ok(normalize_optional_string(Some(s.as_str()))),
                None => Ok(normalize_optional_string(None)),
            }
        },
    }
}

} // verus!
