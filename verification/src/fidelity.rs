//! Fidelity checks of memory units: which units are checked after a sleep
//! run, and what a model's verdict does to a unit.

use vstd::prelude::*;

use crate::compression::PersonalSignal;
use crate::error::MemoryEngineError;
use crate::status::{memory_unit_status_after_fidelity, status_after_fidelity};
use crate::strset::{contains_str, str_eq};
use crate::text::{
    is_empty_str, normalize_opt_seq, normalize_optional_string, normalize_whitespace, normalize_ws_seq, opt_view,
    strs,
};
use crate::tokens::{category_name, normalize_category_name, push_unique};
use crate::types::{FidelityReview, FidelityStatus, MemoryUnit, MemoryUnitStatus};

verus! {

// ---------------------------------------------------------------- routing

/// Whether a unit is checked right after its sleep run: an active unit not
/// checked yet, whose weight reaches the threshold (`weight_reaches`, a
/// comparison of `f64` values), or that draws on an event of the core path,
/// or that carries a configured tag (category-normalized).
pub open spec fn auto_validates(
    unit: MemoryUnit,
    weight_reaches: bool,
    core_path_event_ids: Seq<Seq<char>>,
    auto_validate_tags: Seq<Seq<char>>,
) -> bool {
    &&& unit.status == MemoryUnitStatus::ActiveArchive
    &&& unit.fidelity_status == FidelityStatus::Unchecked
    &&& {
        ||| weight_reaches
        ||| exists|i: int|
            0 <= i < unit.source_event_ids@.len() && core_path_event_ids.contains(
                (#[trigger] unit.source_event_ids@[i])@,
            )
        ||| exists|i: int|
            0 <= i < unit.tags@.len() && auto_validate_tags.contains(category_name((#[trigger] unit.tags@[i])@))
    }
}

fn any_contained(items: &Vec<String>, set: &Vec<String>) -> (r: bool)
    ensures
        r == exists|i: int| 0 <= i < items@.len() && strs(set@).contains((#[trigger] items@[i])@),
{
    let mut i: usize = 0;
    while i < items.len()
        invariant
            i <= items@.len(),
            forall|k: int| 0 <= k < i ==> !strs(set@).contains((#[trigger] items@[k])@),
        decreases items@.len() - i,
    {
        if contains_str(set, items[i].as_str()) {
            return true;
        }
        i = i + 1;
    }
    false
}

/// Decides whether a unit is checked for fidelity right after its sleep run
/// (see `auto_validates`).
pub fn should_auto_validate_memory_unit(
    unit: &MemoryUnit,
    weight_reaches: bool,
    core_path_event_ids: &Vec<String>,
    auto_validate_tags: &Vec<String>,
) -> (r: bool)
    ensures
        r == auto_validates(*unit, weight_reaches, strs(core_path_event_ids@), strs(auto_validate_tags@)),
{
    if unit.status != MemoryUnitStatus::ActiveArchive || unit.fidelity_status != FidelityStatus::Unchecked {
        return false;
    }
    if weight_reaches {
        return true;
    }
    if any_contained(&unit.source_event_ids, core_path_event_ids) {
        return true;
    }
    let mut i: usize = 0;
    while i < unit.tags.len()
        invariant
            i <= unit.tags@.len(),
            unit.status == MemoryUnitStatus::ActiveArchive,
            unit.fidelity_status == FidelityStatus::Unchecked,
            !weight_reaches,
            !exists|i: int|
                0 <= i < unit.source_event_ids@.len() && strs(core_path_event_ids@).contains(
                    (#[trigger] unit.source_event_ids@[i])@,
                ),
            forall|k: int| 0 <= k < i ==> !strs(auto_validate_tags@).contains(category_name((#[trigger] unit.tags@[k])@)),
        decreases unit.tags@.len() - i,
    {
        let tag = normalize_category_name(unit.tags[i].as_str());
        if contains_str(auto_validate_tags, tag.as_str()) {
            assert(strs(auto_validate_tags@).contains(category_name((unit.tags@[i as int])@)));
            return true;
        }
        i = i + 1;
    }
    false
}

/// Whether a personal signal puts its events on the core path: it has a
/// text and a category (after normalizing), is confident enough
/// (`low_confidence` tells whether its confidence is under the bar, an
/// `f64` comparison) and cites at least one user message.
pub open spec fn signal_on_core_path(s: PersonalSignal, low_confidence: bool, user_event_ids: Seq<Seq<char>>) -> bool {
    &&& normalize_ws_seq(s.text@).len() > 0
    &&& category_name(s.category@).len() > 0
    &&& !low_confidence
    &&& exists|i: int| 0 <= i < s.source_event_ids@.len() && user_event_ids.contains((#[trigger] s.source_event_ids@[i])@)
}

/// The events that the qualifying signals cite.
pub open spec fn core_path_ids(
    signals: Seq<PersonalSignal>,
    low_confidence: Seq<bool>,
    user_event_ids: Seq<Seq<char>>,
) -> Set<Seq<char>> {
    Set::new(
        |id: Seq<char>|
            exists|k: int, j: int|
                0 <= k < signals.len() && signal_on_core_path(#[trigger] signals[k], low_confidence[k], user_event_ids) && 0 <= j
                    < signals[k].source_event_ids@.len() && (#[trigger] signals[k].source_event_ids@[j])@ == id,
    )
}

/// The events on the core path of an archive: every event cited by a
/// personal signal that qualifies (see `signal_on_core_path`), each once.
pub fn core_path_signal_event_ids(
    signals: &Vec<PersonalSignal>,
    low_confidence: &Vec<bool>,
    user_event_ids: &Vec<String>,
) -> (r: Vec<String>)
    requires
        low_confidence@.len() == signals@.len(),
    ensures
        strs(r@).no_duplicates(),
        strs(r@).to_set() == core_path_ids(signals@, low_confidence@, strs(user_event_ids@)),
{
    let ghost uv = strs(user_event_ids@);
    let mut out: Vec<String> = Vec::new();
    let mut k: usize = 0;
    while k < signals.len()
        invariant
            k <= signals@.len(),
            low_confidence@.len() == signals@.len(),
            uv == strs(user_event_ids@),
            strs(out@).no_duplicates(),
            forall|id: Seq<char>| #[trigger] strs(out@).contains(id) <==> exists|k2: int, j: int|
                0 <= k2 < k && signal_on_core_path(#[trigger] signals@[k2], low_confidence@[k2], uv) && 0 <= j
                    < signals@[k2].source_event_ids@.len() && (#[trigger] signals@[k2].source_event_ids@[j])@ == id,
        decreases signals@.len() - k,
    {
        let s = &signals[k];
        let text = normalize_whitespace(s.text.as_str());
        let category = normalize_category_name(s.category.as_str());
        let qualifies = !is_empty_str(text.as_str()) && !is_empty_str(category.as_str()) && !low_confidence[k] && any_contained(
            &s.source_event_ids,
            user_event_ids,
        );
        assert(qualifies == signal_on_core_path(signals@[k as int], low_confidence@[k as int], uv));
        if qualifies {
            let ghost before = strs(out@);
            let mut j: usize = 0;
            while j < s.source_event_ids.len()
                invariant
                    k < signals@.len(),
                    *s == signals@[k as int],
                    j <= s.source_event_ids@.len(),
                    strs(out@).no_duplicates(),
                    forall|id: Seq<char>| #[trigger] strs(out@).contains(id) <==> (before.contains(id) || exists|j2: int|
                        0 <= j2 < j && (#[trigger] s.source_event_ids@[j2])@ == id),
                decreases s.source_event_ids@.len() - j,
            {
                let ghost prev = strs(out@);
                let ghost idv = s.source_event_ids@[j as int]@;
                let id = s.source_event_ids[j].clone();
                assert(id@ == idv);
                push_unique(&mut out, id);
                assert(strs(out@).contains(idv)) by {
                    if !prev.contains(idv) {
                        assert(strs(out@)[prev.len() as int] == idv);
                    }
                }
                assert forall|x: Seq<char>| prev.contains(x) implies #[trigger] strs(out@).contains(x) by {
                    if !prev.contains(idv) {
                        let q = choose|q: int| 0 <= q < prev.len() && prev[q] == x;
                        assert(strs(out@)[q] == prev[q]);
                    }
                }
                assert forall|x: Seq<char>| #[trigger] strs(out@).contains(x) <==> (before.contains(x) || exists|j2: int|
                    0 <= j2 < j + 1 && (#[trigger] s.source_event_ids@[j2])@ == x) by {
                    if strs(out@).contains(x) && !prev.contains(x) {
                        assert(x == s.source_event_ids@[j as int]@);
                    }
                    if exists|j2: int| 0 <= j2 < j + 1 && (#[trigger] s.source_event_ids@[j2])@ == x {
                        let j2 = choose|j2: int| 0 <= j2 < j + 1 && (#[trigger] s.source_event_ids@[j2])@ == x;
                        if j2 == j {
                            assert(strs(out@).contains(x));
                        }
                    }
                }
                proof {
                    if !prev.contains(s.source_event_ids@[j as int]@) {
                        assert(strs(out@) =~= prev.push(s.source_event_ids@[j as int]@));
                        assert forall|a: int, b: int| 0 <= a < b < strs(out@).len() implies strs(out@)[a] != strs(out@)[b] by {
                            if b == strs(out@).len() - 1 {
                                assert(prev.contains(prev[a]));
                            }
                        }
                    }
                }
                j = j + 1;
            }
        }
        k = k + 1;
    }
    assert(strs(out@).to_set() =~= core_path_ids(signals@, low_confidence@, uv));
    out
}

// ---------------------------------------------------------------- verdicts

/// A review with its explanation white space collapsed and its revised
/// thesis and missing detail collapsed, blank meaning none.
pub fn normalize_fidelity_review(review: FidelityReview) -> (r: FidelityReview)
    ensures
        r.schema_version == review.schema_version,
        r.memory_unit_id == review.memory_unit_id,
        r.archive_id == review.archive_id,
        r.status == review.status,
        r.explanation@ == normalize_ws_seq(review.explanation@),
        opt_view(r.revised_thesis) == normalize_opt_seq(opt_view(review.revised_thesis)),
        opt_view(r.missing_detail) == normalize_opt_seq(opt_view(review.missing_detail)),
{
    let explanation = normalize_whitespace(review.explanation.as_str());
    let revised_thesis = match &review.revised_thesis {
        Some(t) => normalize_optional_string(Some(t.as_str())),
        None => normalize_optional_string(None),
    };
    let missing_detail = match &review.missing_detail {
        Some(t) => normalize_optional_string(Some(t.as_str())),
        None => normalize_optional_string(None),
    };
    FidelityReview {
        schema_version: review.schema_version,
        memory_unit_id: review.memory_unit_id,
        archive_id: review.archive_id,
        status: review.status,
        explanation,
        revised_thesis,
        missing_detail,
    }
}

/// The message for a review of a unit of another archive.
pub open spec fn archive_mismatch_message(unit_archive: Seq<char>, review_archive: Seq<char>) -> Seq<char> {
    "fidelity review archive_id mismatch: unit="@ + unit_archive + " review="@ + review_archive
}

/// Records a fidelity verdict on a unit: its fidelity status, the status the
/// verdict leads to (see `status_after_fidelity`), the review itself and the
/// time. A review of a unit of another archive is refused.
pub fn apply_fidelity_review(unit: MemoryUnit, review: FidelityReview, now: &str) -> (r: Result<
    MemoryUnit,
    MemoryEngineError,
>)
    ensures
        unit.archive_id@ != review.archive_id@ ==> (r matches Err(MemoryEngineError::Validation(m)) && m@
            == archive_mismatch_message(unit.archive_id@, review.archive_id@)),
        unit.archive_id@ == review.archive_id@ ==> (r matches Ok(u) && {
            &&& u.updated_at@ == now@
            &&& u.fidelity_status == review.status
            &&& u.status == status_after_fidelity(review.status)
            &&& u.fidelity_review == Some(review)
            &&& u.schema_version == unit.schema_version
            &&& u.memory_unit_id == unit.memory_unit_id
            &&& u.archive_id == unit.archive_id
            &&& u.source_session_id == unit.source_session_id
            &&& u.created_at == unit.created_at
            &&& u.thesis == unit.thesis
            &&& u.source_event_ids == unit.source_event_ids
            &&& u.evidence == unit.evidence
            &&& u.tags == unit.tags
            &&& u.weight == unit.weight
            &&& u.forget_review == unit.forget_review
        }),
{
    if !str_eq(unit.archive_id.as_str(), review.archive_id.as_str()) {
        let mut m = "fidelity review archive_id mismatch: unit=".to_string();
        m.append(unit.archive_id.as_str());
        m.append(" review=");
        m.append(review.archive_id.as_str());
        proof {
            reveal_strlit("fidelity review archive_id mismatch: unit=");
            reveal_strlit(" review=");
        }
        return Err(MemoryEngineError::Validation(m));
    }
    let mut unit = unit;
    unit.updated_at = now.to_string();
    unit.fidelity_status = review.status;
    unit.status = memory_unit_status_after_fidelity(review.status);
    unit.fidelity_review = Some(review);
    Ok(unit)
}

} // verus!
