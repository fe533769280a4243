//! The memory-unit and compact-memory passes of a sleep run: what their
//! answers add to an archive.

use vstd::prelude::*;

use crate::error::MemoryEngineError;
use crate::text::{
    is_empty_str, normalize_opt_seq, normalize_optional_string, normalize_whitespace,
    normalize_ws_seq, opt_view,
};
use crate::types::{F64Bits, FidelityStatus, MemoryUnit, MemoryUnitStatus, MEMORY_UNIT_SCHEMA_VERSION};

verus! {

/// A memory unit as the memory-unit pass proposes it.
#[derive(Debug)]
pub struct MemoryUnitDraft {
    pub thesis: String,
    pub source_event_ids: Vec<String>,
    pub evidence: Option<String>,
    pub tags: Vec<String>,
    pub weight: F64Bits,
}

/// Whether a pass answer still changes its archive: its task is not done
/// and the archive has no memory units yet. A repeated answer changes
/// nothing.
pub fn memory_unit_pass_applies(task_completed: bool, existing_units: usize) -> (r: bool)
    ensures
        r == (!task_completed && existing_units == 0),
{
    !task_completed && existing_units == 0
}

/// Whether draft `d` yields a unit: its thesis is not blank.
pub open spec fn draft_kept(d: MemoryUnitDraft) -> bool {
    normalize_ws_seq(d.thesis@).len() > 0
}

/// The positions of the drafts that yield units, in order.
pub open spec fn kept_drafts(ds: Seq<MemoryUnitDraft>) -> Seq<int>
    decreases ds.len(),
{
    if ds.len() == 0 {
        Seq::empty()
    } else {
        let prev = kept_drafts(ds.drop_last());
        if draft_kept(ds.last()) {
            prev.push(ds.len() - 1)
        } else {
            prev
        }
    }
}

/// Whether `u` is the unit that draft `d` becomes in archive `archive_id`
/// of session `session_id`, with identifier `id`, at `now`: the thesis and
/// evidence with white space collapsed (blank evidence meaning none), active
/// and not yet checked.
pub open spec fn unit_from_draft(
    u: MemoryUnit,
    d: MemoryUnitDraft,
    archive_id: Seq<char>,
    session_id: Seq<char>,
    id: Seq<char>,
    now: Seq<char>,
) -> bool {
    &&& u.schema_version@ == MEMORY_UNIT_SCHEMA_VERSION@
    &&& u.memory_unit_id@ == id
    &&& u.archive_id@ == archive_id
    &&& u.source_session_id@ == session_id
    &&& u.created_at@ == now
    &&& u.updated_at@ == now
    &&& u.thesis@ == normalize_ws_seq(d.thesis@)
    &&& u.source_event_ids == d.source_event_ids
    &&& opt_view(u.evidence) == normalize_opt_seq(opt_view(d.evidence))
    &&& u.tags == d.tags
    &&& u.weight == d.weight
    &&& u.status == MemoryUnitStatus::ActiveArchive
    &&& u.fidelity_status == FidelityStatus::Unchecked
    &&& u.fidelity_review is None
    &&& u.forget_review is None
}

/// The memory units a pass answer adds to an archive: one per draft with a
/// thesis, in order; draft `i` gets identifier `ids[i]`.
pub fn units_from_drafts(
    drafts: Vec<MemoryUnitDraft>,
    ids: Vec<String>,
    archive_id: &str,
    session_id: &str,
    now: &str,
) -> (r: Vec<MemoryUnit>)
    requires
        ids@.len() == drafts@.len(),
    ensures
        r@.len() == kept_drafts(drafts@).len(),
        forall|k: int| 0 <= k < r@.len() ==> unit_from_draft(
            #[trigger] r@[k],
            drafts@[kept_drafts(drafts@)[k]],
            archive_id@,
            session_id@,
            ids@[kept_drafts(drafts@)[k]]@,
            now@,
        ),
{
    let ghost dv = drafts@;
    let ghost iv = ids@;
    let mut drafts = drafts;
    let mut ids = ids;
    let n = drafts.len();
    let mut rev_d: Vec<MemoryUnitDraft> = Vec::new();
    let mut rev_i: Vec<String> = Vec::new();
    while drafts.len() > 0
        invariant
            drafts@.len() == ids@.len(),
            drafts@.len() + rev_d@.len() == n,
            rev_d@.len() == rev_i@.len(),
            n == dv.len(),
            n == iv.len(),
            drafts@ == dv.take(drafts@.len() as int),
            ids@ == iv.take(ids@.len() as int),
            forall|k: int| 0 <= k < rev_d@.len() ==> #[trigger] rev_d@[k] == dv[n - 1 - k],
            forall|k: int| 0 <= k < rev_i@.len() ==> #[trigger] rev_i@[k] == iv[n - 1 - k],
        decreases drafts@.len(),
    {
        let d = drafts.pop().unwrap();
        let i = ids.pop().unwrap();
        rev_d.push(d);
        rev_i.push(i);
        assert(drafts@ =~= dv.take(drafts@.len() as int));
        assert(ids@ =~= iv.take(ids@.len() as int));
    }
    let mut units: Vec<MemoryUnit> = Vec::new();
    let mut j: usize = 0;
    while j < n
        invariant
            n == dv.len(),
            n == iv.len(),
            rev_d@.len() + j == n,
            rev_i@.len() + j == n,
            forall|k: int| 0 <= k < rev_d@.len() ==> #[trigger] rev_d@[k] == dv[n - 1 - k],
            forall|k: int| 0 <= k < rev_i@.len() ==> #[trigger] rev_i@[k] == iv[n - 1 - k],
            j <= n,
            units@.len() == kept_drafts(dv.take(j as int)).len(),
            forall|k: int| 0 <= k < units@.len() ==> unit_from_draft(
                #[trigger] units@[k],
                dv[kept_drafts(dv.take(j as int))[k]],
                archive_id@,
                session_id@,
                iv[kept_drafts(dv.take(j as int))[k]]@,
                now@,
            ),
            forall|k: int| 0 <= k < kept_drafts(dv.take(j as int)).len() ==> 0 <= #[trigger] kept_drafts(dv.take(j as int))[k] < j,
        decreases n - j,
    {
        let d = rev_d.pop().unwrap();
        let id = rev_i.pop().unwrap();
        assert(d == dv[j as int]);
        assert(id == iv[j as int]);
        let ghost prev_kept = kept_drafts(dv.take(j as int));
        assert(dv.take(j + 1).drop_last() =~= dv.take(j as int));
        assert(dv.take(j + 1).last() == dv[j as int]);
        let thesis = normalize_whitespace(d.thesis.as_str());
        if !is_empty_str(thesis.as_str()) {
            let evidence = match &d.evidence {
                Some(e) => normalize_optional_string(Some(e.as_str())),
                None => normalize_optional_string(None),
            };
            let unit = MemoryUnit {
                schema_version: MEMORY_UNIT_SCHEMA_VERSION.to_string(),
                memory_unit_id: id,
                archive_id: archive_id.to_string(),
                source_session_id: session_id.to_string(),
                created_at: now.to_string(),
                updated_at: now.to_string(),
                thesis,
                source_event_ids: d.source_event_ids,
                evidence,
                tags: d.tags,
                weight: d.weight,
                status: MemoryUnitStatus::ActiveArchive,
                fidelity_status: FidelityStatus::Unchecked,
                fidelity_review: None,
                forget_review: None,
            };
            units.push(unit);
            assert(kept_drafts(dv.take(j + 1)) == prev_kept.push(j as int));
        } else {
            assert(kept_drafts(dv.take(j + 1)) == prev_kept);
        }
        j = j + 1;
    }
    assert(dv.take(n as int) =~= dv);
    units
}

/// The compact memory a compact-memory pass answer gives: its text with
/// white space collapsed; a blank answer is refused.
pub fn compact_memory_result(text: &str) -> (r: Result<String, MemoryEngineError>)
    ensures
        normalize_ws_seq(text@).len() == 0 ==> (r matches Err(MemoryEngineError::Validation(m)) && m@
            == "compact memory pass result must not be empty"@),
        normalize_ws_seq(text@).len() > 0 ==> (r matches Ok(s) && s@ == normalize_ws_seq(text@)),
{
    match normalize_optional_string(Some(text)) {
        Some(s) => Ok(s),
        None => Err(MemoryEngineError::Validation("compact memory pass result must not be empty".to_string())),
    }
}

} // verus!
