//! Forgetting decisions: how a reviewed recommendation changes a memory
//! unit, how a forgotten unit is remembered back, how a review is tallied,
//! and how an archive's compact memory follows its units.
use vstd::prelude::*;
use crate::text::{char_count, join, join_strings, normalize_whitespace, normalize_ws_seq, strs, trim_seq, trim_str};
use crate::tokens::{merge_spec, merge_unique};
use crate::strset::{
    lemma_lex_asym, lemma_lex_irrefl, lemma_lex_total, lemma_lex_trans, lex_less, lex_lt, str_eq,
};
use crate::types::{
    F64Bits, ForgetDecision, ForgetRecommendation, ForgetReviewRecord, MemoryUnit, MemoryUnitStatus,
};
use crate::error::MemoryEngineError;
use crate::ordering::{float_order_key, index_before, key_before, key_view, stable_order, total_order_key, KeyPart};
use crate::compression::EmotionalMarker;
use crate::text::{decimal, usize_to_decimal};
use crate::strset::contains_str;

verus! {

/// What applying one recommendation did.
#[derive(Debug)]
pub enum ForgetApplyAction {
    Forgotten(MemoryUnit),
    Kept(MemoryUnit),
    Protected(MemoryUnit),
    Ignored,
}

/// The decision that is recorded: any protection reason overrides the model.
pub open spec fn applied_decision(decision: ForgetDecision, protected: bool) -> ForgetDecision {
    if protected {
        ForgetDecision::Protect
    } else {
        decision
    }
}

/// The tags a review adds to a unit.
pub open spec fn review_tags(decision: ForgetDecision) -> Seq<Seq<char>> {
    match decision {
        ForgetDecision::Forget => seq!["forget_reviewed"@, "forgotten"@],
        ForgetDecision::Keep => seq!["forget_reviewed"@],
        ForgetDecision::Protect => seq!["forget_reviewed"@, "forget_protected"@],
    }
}

/// The reason recorded for a review; a protected unit names its gates.
pub open spec fn review_reason(reason: Seq<char>, protection: Seq<Seq<char>>) -> Seq<char> {
    if protection.len() > 0 {
        reason + " Protected by engine gate: "@ + join(protection, ", "@)
    } else {
        reason
    }
}

/// The status a unit has after a review with the recorded decision.
pub open spec fn reviewed_status(status: MemoryUnitStatus, decision: ForgetDecision) -> MemoryUnitStatus {
    if decision == ForgetDecision::Forget {
        MemoryUnitStatus::Forgotten
    } else {
        status
    }
}

/// Everything but status, time of update, tags and reviews is unchanged.
pub open spec fn same_unit_content(a: MemoryUnit, b: MemoryUnit) -> bool {
    &&& a.schema_version == b.schema_version
    &&& a.memory_unit_id == b.memory_unit_id
    &&& a.archive_id == b.archive_id
    &&& a.source_session_id == b.source_session_id
    &&& a.created_at == b.created_at
    &&& a.thesis == b.thesis
    &&& a.source_event_ids == b.source_event_ids
    &&& a.evidence == b.evidence
    &&& a.weight == b.weight
    &&& a.fidelity_status == b.fidelity_status
    &&& a.fidelity_review == b.fidelity_review
}

/// `u` is `before` after a review with `decision` and `protection` at `now`.
pub open spec fn reviewed_unit(
    u: MemoryUnit,
    before: MemoryUnit,
    recommendation: ForgetRecommendation,
    protection: Seq<Seq<char>>,
    task_id: Seq<char>,
    now: Seq<char>,
) -> bool {
    let decision = applied_decision(recommendation.decision, protection.len() > 0);
    &&& same_unit_content(u, before)
    &&& u.status == reviewed_status(before.status, decision)
    &&& u.updated_at@ == now
    &&& strs(u.tags@) == merge_spec(strs(before.tags@), review_tags(decision))
    &&& u.forget_review is Some
    &&& u.forget_review.unwrap().reviewed_at@ == now
    &&& u.forget_review.unwrap().task_id is Some
    &&& u.forget_review.unwrap().task_id.unwrap()@ == task_id
    &&& u.forget_review.unwrap().decision == decision
    &&& u.forget_review.unwrap().reason@ == review_reason(recommendation.reason@, protection)
}

fn tags_of(decision: ForgetDecision) -> (r: Vec<String>)
    ensures
        strs(r@) == review_tags(decision),
{
    let mut v: Vec<String> = Vec::new();
    v.push("forget_reviewed".to_string());
    match decision {
        ForgetDecision::Forget => v.push("forgotten".to_string()),
        ForgetDecision::Keep => {},
        ForgetDecision::Protect => v.push("forget_protected".to_string()),
    }
    assert(strs(v@) =~= review_tags(decision));
    v
}

/// What applying a reviewed recommendation to a unit gives: an unread or
/// inactive unit is ignored; otherwise the unit as reviewed with the
/// recorded decision, under the matching outcome.
pub open spec fn forget_applied(
    r: ForgetApplyAction,
    unit: Option<MemoryUnit>,
    recommendation: ForgetRecommendation,
    protection: Seq<Seq<char>>,
    task_id: Seq<char>,
    now: Seq<char>,
) -> bool {
    match unit {
        None => r is Ignored,
        Some(before) => if before.status != MemoryUnitStatus::ActiveArchive {
            r is Ignored
        } else {
            let decision = applied_decision(recommendation.decision, protection.len() > 0);
            match r {
                ForgetApplyAction::Forgotten(u) => decision == ForgetDecision::Forget
                    && reviewed_unit(u, before, recommendation, protection, task_id, now),
                ForgetApplyAction::Kept(u) => decision == ForgetDecision::Keep
                    && reviewed_unit(u, before, recommendation, protection, task_id, now),
                ForgetApplyAction::Protected(u) => decision == ForgetDecision::Protect
                    && reviewed_unit(u, before, recommendation, protection, task_id, now),
                ForgetApplyAction::Ignored => false,
            }
        },
    }
}

/// Applies a reviewed recommendation to a memory unit. A unit that could
/// not be read, or is not active, is ignored; any protection reason turns
/// the decision into `Protect`; otherwise the model's decision is recorded.
pub fn apply_forget_recommendation(
    unit: Option<MemoryUnit>,
    recommendation: &ForgetRecommendation,
    protection: &Vec<String>,
    task_id: &str,
    now: &str,
) -> (r: ForgetApplyAction)
    ensures
        forget_applied(r, unit, *recommendation, strs(protection@), task_id@, now@),
{
    let mut unit = match unit {
        Some(u) => u,
        None => {
            return ForgetApplyAction::Ignored;
        },
    };
    if unit.status != MemoryUnitStatus::ActiveArchive {
        return ForgetApplyAction::Ignored;
    }
    let ghost before = unit;
    let protected = protection.len() > 0;
    let decision = if protected {
        ForgetDecision::Protect
    } else {
        recommendation.decision
    };
    let mut reason = recommendation.reason.clone();
    if protected {
        reason.append(" Protected by engine gate: ");
        let gates = join_strings(protection, ", ");
        reason.append(gates.as_str());
    }
    if decision == ForgetDecision::Forget {
        unit.status = MemoryUnitStatus::Forgotten;
    }
    unit.updated_at = now.to_string();
    unit.forget_review = Some(
        ForgetReviewRecord {
            reviewed_at: now.to_string(),
            task_id: Some(task_id.to_string()),
            decision,
            reason,
        },
    );
    let tags = tags_of(decision);
    merge_unique(&mut unit.tags, tags.as_slice());
    match decision {
        ForgetDecision::Forget => ForgetApplyAction::Forgotten(unit),
        ForgetDecision::Keep => ForgetApplyAction::Kept(unit),
        ForgetDecision::Protect => ForgetApplyAction::Protected(unit),
    }
}

/// The reason of a recommendation, white space collapsed; a blank reason
/// becomes `No reason provided.`.
pub open spec fn recommendation_reason(reason: Seq<char>) -> Seq<char> {
    if normalize_ws_seq(reason).len() == 0 {
        "No reason provided."@
    } else {
        normalize_ws_seq(reason)
    }
}

/// Normalizes the reason a model gave for a recommendation.
pub fn normalize_recommendation_reason(reason: &str) -> (r: String)
    ensures
        r@ == recommendation_reason(reason@),
{
    let n = normalize_whitespace(reason);
    if char_count(n.as_str()) == 0 {
        "No reason provided.".to_string()
    } else {
        n
    }
}

// ---------------------------------------------------------------- tally

/// Counts of a forget review: every reviewed recommendation is counted
/// exactly once as forgotten, kept, protected or ignored.
#[derive(Debug, Clone, Copy, PartialEq, Eq)]
pub struct ForgetTally {
    pub reviewed: usize,
    pub forgotten: usize,
    pub kept: usize,
    pub protected: usize,
    pub ignored: usize,
}

impl ForgetTally {
    /// The tally's law: the outcomes add up to what was reviewed.
    pub open spec fn balanced(self) -> bool {
        self.reviewed == self.forgotten + self.kept + self.protected + self.ignored
    }

    /// A tally with nothing reviewed.
    pub fn new() -> (r: Self)
        ensures
            r.balanced(),
            r.reviewed == 0,
    {
        ForgetTally { reviewed: 0, forgotten: 0, kept: 0, protected: 0, ignored: 0 }
    }

    /// Counts one reviewed recommendation and what applying it did.
    pub fn record(&mut self, action: &ForgetApplyAction)
        requires
            old(self).balanced(),
            old(self).reviewed < usize::MAX,
        ensures
            final(self).balanced(),
            final(self).reviewed == old(self).reviewed + 1,
            final(self).forgotten == old(self).forgotten + (if action is Forgotten { 1int } else { 0 }),
            final(self).kept == old(self).kept + (if action is Kept { 1int } else { 0 }),
            final(self).protected == old(self).protected + (if action is Protected { 1int } else { 0 }),
            final(self).ignored == old(self).ignored + (if action is Ignored { 1int } else { 0 }),
    {
        self.reviewed = self.reviewed + 1;
        match action {
            ForgetApplyAction::Forgotten(_) => self.forgotten = self.forgotten + 1,
            ForgetApplyAction::Kept(_) => self.kept = self.kept + 1,
            ForgetApplyAction::Protected(_) => self.protected = self.protected + 1,
            ForgetApplyAction::Ignored => self.ignored = self.ignored + 1,
        }
    }
}

/// One step of applying a forget review: the recommendation's reason is
/// normalized; a recommendation for a unit outside the review's candidates
/// is ignored, any other is applied to `unit` (the stored unit it names,
/// `None` when it could not be read) with its `protection` reasons; the
/// outcome is counted, and the archive of a forgotten unit is noted once
/// for its compact memory to be rebuilt.
pub fn forget_review_step(
    tally: &mut ForgetTally,
    forgotten_archives: &mut Vec<String>,
    candidate_ids: &Vec<String>,
    recommendation: &mut ForgetRecommendation,
    unit: Option<MemoryUnit>,
    protection: &Vec<String>,
    task_id: &str,
    now: &str,
) -> (r: ForgetApplyAction)
    requires
        old(tally).balanced(),
        old(tally).reviewed < usize::MAX,
    ensures
        final(tally).balanced(),
        final(tally).reviewed == old(tally).reviewed + 1,
        final(tally).forgotten == old(tally).forgotten + (if r is Forgotten { 1int } else { 0 }),
        final(tally).kept == old(tally).kept + (if r is Kept { 1int } else { 0 }),
        final(tally).protected == old(tally).protected + (if r is Protected { 1int } else { 0 }),
        final(tally).ignored == old(tally).ignored + (if r is Ignored { 1int } else { 0 }),
        final(recommendation).reason@ == recommendation_reason(old(recommendation).reason@),
        final(recommendation).memory_unit_id == old(recommendation).memory_unit_id,
        final(recommendation).decision == old(recommendation).decision,
        !strs(candidate_ids@).contains(old(recommendation).memory_unit_id@) ==> r is Ignored,
        strs(candidate_ids@).contains(old(recommendation).memory_unit_id@) ==> forget_applied(
            r,
            unit,
            *final(recommendation),
            strs(protection@),
            task_id@,
            now@,
        ),
        match r {
            ForgetApplyAction::Forgotten(u) => if strs(old(forgotten_archives)@).contains(u.archive_id@) {
                strs(final(forgotten_archives)@) == strs(old(forgotten_archives)@)
            } else {
                strs(final(forgotten_archives)@) == strs(old(forgotten_archives)@).push(u.archive_id@)
            },
            _ => strs(final(forgotten_archives)@) == strs(old(forgotten_archives)@),
        },
{
    recommendation.reason = normalize_recommendation_reason(recommendation.reason.as_str());
    let action = if !contains_str(candidate_ids, recommendation.memory_unit_id.as_str()) {
        ForgetApplyAction::Ignored
    } else {
        apply_forget_recommendation(unit, recommendation, protection, task_id, now)
    };
    tally.record(&action);
    match &action {
        ForgetApplyAction::Forgotten(u) => {
            if !contains_str(forgotten_archives, u.archive_id.as_str()) {
                let ghost before = forgotten_archives@;
                forgotten_archives.push(u.archive_id.clone());
                assert(strs(forgotten_archives@) =~= strs(before).push(u.archive_id@));
            }
        },
        _ => {},
    }
    action
}

// ---------------------------------------------------------------- remember back

/// `tags` without every copy of `tag`.
pub open spec fn without_tag(tags: Seq<Seq<char>>, tag: Seq<char>) -> Seq<Seq<char>>
    decreases tags.len(),
{
    if tags.len() == 0 {
        Seq::empty()
    } else {
        let prev = without_tag(tags.drop_last(), tag);
        if tags.last() == tag {
            prev
        } else {
            prev.push(tags.last())
        }
    }
}

/// The tags of a unit remembered back.
pub open spec fn remembered_tags(tags: Seq<Seq<char>>) -> Seq<Seq<char>> {
    merge_spec(without_tag(tags, "forgotten"@), seq!["remembered_back"@])
}

/// The message of the error for a unit that is not forgotten.
pub open spec fn not_forgotten_message(id: Seq<char>) -> Seq<char> {
    "memory unit is not forgotten: "@ + id
}

/// Brings a forgotten unit back into the active archive: its status becomes
/// active again, its `forgotten` tag goes and `remembered_back` is added.
/// A unit that is not forgotten is refused.
pub fn remember_back_unit(unit: MemoryUnit, now: &str) -> (r: Result<MemoryUnit, MemoryEngineError>)
    ensures
        unit.status != MemoryUnitStatus::Forgotten ==> (r matches Err(
            MemoryEngineError::Validation(m),
        ) && m@ == not_forgotten_message(unit.memory_unit_id@)),
        unit.status == MemoryUnitStatus::Forgotten ==> (r matches Ok(u) && same_unit_content(u, unit)
            && u.status == MemoryUnitStatus::ActiveArchive && u.updated_at@ == now@
            && u.forget_review == unit.forget_review && strs(u.tags@) == remembered_tags(
            strs(unit.tags@),
        )),
{
    if unit.status != MemoryUnitStatus::Forgotten {
        let mut m = String::new();
        m.append("memory unit is not forgotten: ");
        m.append(unit.memory_unit_id.as_str());
        return Err(MemoryEngineError::Validation(m));
    }
    let mut unit = unit;
    unit.status = MemoryUnitStatus::ActiveArchive;
    unit.updated_at = now.to_string();
    let old_tags = unit.tags;
    let mut kept: Vec<String> = Vec::new();
    let mut i: usize = 0;
    while i < old_tags.len()
        invariant
            i <= old_tags@.len(),
            strs(kept@) == without_tag(strs(old_tags@).take(i as int), "forgotten"@),
        decreases old_tags@.len() - i,
    {
        assert(strs(old_tags@).take(i + 1).drop_last() =~= strs(old_tags@).take(i as int));
        assert(strs(old_tags@).take(i + 1).last() == old_tags@[i as int]@);
        if !str_eq(old_tags[i].as_str(), "forgotten") {
            let ghost prev = kept@;
            let t = old_tags[i].clone();
            kept.push(t);
            assert(strs(kept@) =~= strs(prev).push(old_tags@[i as int]@));
        }
        i = i + 1;
    }
    assert(strs(old_tags@).take(old_tags@.len() as int) =~= strs(old_tags@));
    let mut extra: Vec<String> = Vec::new();
    extra.push("remembered_back".to_string());
    assert(strs(extra@) =~= seq!["remembered_back"@]);
    merge_unique(&mut kept, extra.as_slice());
    unit.tags = kept;
    Ok(unit)
}

/// `without_tag` leaves no copy of the tag.
pub proof fn lemma_without_tag_removes(tags: Seq<Seq<char>>, tag: Seq<char>)
    ensures
        !without_tag(tags, tag).contains(tag),
        forall|t: Seq<char>| tags.contains(t) && t != tag ==> without_tag(tags, tag).contains(t),
    decreases tags.len(),
{
    if tags.len() > 0 {
        lemma_without_tag_removes(tags.drop_last(), tag);
        let prev = without_tag(tags.drop_last(), tag);
        assert forall|t: Seq<char>| tags.contains(t) && t != tag implies without_tag(
            tags,
            tag,
        ).contains(t) by {
            let j = choose|j: int| 0 <= j < tags.len() && tags[j] == t;
            if j < tags.len() - 1 {
                assert(tags.drop_last()[j] == t);
                assert(tags.drop_last().contains(t));
                assert(prev.contains(t));
                if tags.last() != tag {
                    let k = choose|k: int| 0 <= k < prev.len() && prev[k] == t;
                    assert(prev.push(tags.last())[k] == t);
                }
            } else {
                assert(prev.push(tags.last())[prev.len() as int] == t);
            }
        }
        if tags.last() != tag {
            assert forall|k: int| 0 <= k < prev.push(tags.last()).len() implies prev.push(
                tags.last(),
            )[k] != tag by {
                if k < prev.len() {
                    assert(prev.push(tags.last())[k] == prev[k]);
                }
            }
        }
    }
}

/// `merge_spec` keeps what was there and adds each normalized source item
/// that is not blank.
pub proof fn lemma_merge_spec_contains(target: Seq<Seq<char>>, source: Seq<Seq<char>>)
    ensures
        forall|t: Seq<char>| target.contains(t) ==> merge_spec(target, source).contains(t),
        forall|k: int|
            0 <= k < source.len() && normalize_ws_seq(#[trigger] source[k]).len() > 0
                ==> merge_spec(target, source).contains(normalize_ws_seq(source[k])),
    decreases source.len(),
{
    if source.len() > 0 {
        lemma_merge_spec_contains(target, source.drop_last());
        let prev = merge_spec(target, source.drop_last());
        let n = normalize_ws_seq(source.last());
        assert forall|t: Seq<char>| prev.contains(t) implies merge_spec(target, source).contains(t) by {
            if !(n.len() == 0 || prev.contains(n)) {
                let k = choose|k: int| 0 <= k < prev.len() && prev[k] == t;
                assert(prev.push(n)[k] == t);
            }
        }
        assert forall|k: int|
            0 <= k < source.len() && normalize_ws_seq(#[trigger] source[k]).len() > 0 implies merge_spec(
            target,
            source,
        ).contains(normalize_ws_seq(source[k])) by {
            if k < source.len() - 1 {
                assert(source.drop_last()[k] == source[k]);
            } else if !(n.len() == 0 || prev.contains(n)) {
                assert(prev.push(n)[prev.len() as int] == n);
            }
        }
    }
}

/// Forgetting a unit and remembering it back leaves it active again, marked
/// `remembered_back` and reviewed, with no `forgotten` tag.
pub proof fn lemma_remember_back_undoes_forget(tags: Seq<Seq<char>>)
    ensures
        reviewed_status(MemoryUnitStatus::ActiveArchive, ForgetDecision::Forget)
            == MemoryUnitStatus::Forgotten,
        remembered_tags(merge_spec(tags, review_tags(ForgetDecision::Forget))).contains(
            "remembered_back"@,
        ),
        remembered_tags(merge_spec(tags, review_tags(ForgetDecision::Forget))).contains(
            "forget_reviewed"@,
        ),
        !without_tag(merge_spec(tags, review_tags(ForgetDecision::Forget)), "forgotten"@).contains(
            "forgotten"@,
        ),
{
    reveal_strlit("forget_reviewed");
    reveal_strlit("forgotten");
    reveal_strlit("remembered_back");
    let added = review_tags(ForgetDecision::Forget);
    let forgotten = merge_spec(tags, added);
    crate::text::lemma_clean_word("forget_reviewed"@);
    crate::text::lemma_clean_word("remembered_back"@);
    lemma_merge_spec_contains(tags, added);
    assert(normalize_ws_seq(added[0]) == "forget_reviewed"@);
    assert(forgotten.contains("forget_reviewed"@));
    lemma_without_tag_removes(forgotten, "forgotten"@);
    let stripped = without_tag(forgotten, "forgotten"@);
    assert(stripped.contains("forget_reviewed"@));
    lemma_merge_spec_contains(stripped, seq!["remembered_back"@]);
    assert(normalize_ws_seq(seq!["remembered_back"@][0]) == "remembered_back"@);
}

// ---------------------------------------------------------------- archive units

/// Index of the first unit with identifier `id`.
pub open spec fn first_unit_with_id(units: Seq<MemoryUnit>, id: Seq<char>) -> Option<int>
    decreases units.len(),
{
    if units.len() == 0 {
        None
    } else {
        match first_unit_with_id(units.drop_last(), id) {
            Some(i) => Some(i),
            None => if units.last().memory_unit_id@ == id {
                Some(units.len() - 1)
            } else {
                None
            },
        }
    }
}

/// Puts `updated` in place of the first unit with its identifier, or at the
/// end when there is none.
pub fn replace_or_push_unit(units: &mut Vec<MemoryUnit>, updated: MemoryUnit)
    ensures
        match first_unit_with_id(old(units)@, updated.memory_unit_id@) {
            Some(i) => final(units)@ == old(units)@.update(i, updated),
            None => final(units)@ == old(units)@.push(updated),
        },
{
    let mut i: usize = 0;
    while i < units.len()
        invariant
            i <= units@.len(),
            units@ == old(units)@,
            first_unit_with_id(units@.take(i as int), updated.memory_unit_id@) is None,
        decreases units@.len() - i,
    {
        assert(units@.take(i + 1).drop_last() =~= units@.take(i as int));
        if str_eq(units[i].memory_unit_id.as_str(), updated.memory_unit_id.as_str()) {
            assert(first_unit_with_id(units@.take(i + 1), updated.memory_unit_id@) == Some(i as int));
            proof {
                lemma_first_unit_prefix(units@, updated.memory_unit_id@, i as int + 1);
            }
            units.set(i, updated);
            return;
        }
        i = i + 1;
    }
    assert(units@.take(units@.len() as int) =~= units@);
    units.push(updated);
}

proof fn lemma_first_unit_prefix(units: Seq<MemoryUnit>, id: Seq<char>, n: int)
    requires
        0 <= n <= units.len(),
        first_unit_with_id(units.take(n), id) is Some,
    ensures
        first_unit_with_id(units, id) == first_unit_with_id(units.take(n), id),
    decreases units.len() - n,
{
    if n < units.len() {
        assert(units.take(n + 1).drop_last() =~= units.take(n));
        lemma_first_unit_prefix(units, id, n + 1);
    } else {
        assert(units.take(n) =~= units);
    }
}

/// The theses an archive's compact memory shows: those of active units,
/// trimmed, blank ones left out.
pub open spec fn compact_lines(units: Seq<MemoryUnit>) -> Seq<Seq<char>>
    decreases units.len(),
{
    if units.len() == 0 {
        Seq::empty()
    } else {
        let prev = compact_lines(units.drop_last());
        let u = units.last();
        if u.status == MemoryUnitStatus::ActiveArchive && trim_seq(u.thesis@).len() > 0 {
            prev.push(trim_seq(u.thesis@))
        } else {
            prev
        }
    }
}

proof fn lemma_compact_lines_same_shape(a: Seq<MemoryUnit>, b: Seq<MemoryUnit>)
    requires
        a.len() == b.len(),
        forall|i: int|
            0 <= i < a.len() ==> (#[trigger] a[i]).status == b[i].status && a[i].thesis@ == b[i].thesis@,
    ensures
        compact_lines(a) == compact_lines(b),
    decreases a.len(),
{
    if a.len() > 0 {
        lemma_compact_lines_same_shape(a.drop_last(), b.drop_last());
        assert(a.last() == a[a.len() - 1]);
    }
}

proof fn lemma_compact_lines_has_active(units: Seq<MemoryUnit>, k: int)
    requires
        0 <= k < units.len(),
        units[k].status == MemoryUnitStatus::ActiveArchive,
        trim_seq(units[k].thesis@).len() > 0,
    ensures
        compact_lines(units).contains(trim_seq(units[k].thesis@)),
    decreases units.len(),
{
    let prev = compact_lines(units.drop_last());
    if k == units.len() - 1 {
        assert(compact_lines(units) == prev.push(trim_seq(units[k].thesis@)));
        assert(compact_lines(units)[prev.len() as int] == trim_seq(units[k].thesis@));
    } else {
        assert(units.drop_last()[k] == units[k]);
        lemma_compact_lines_has_active(units.drop_last(), k);
        let j = choose|j: int| 0 <= j < prev.len() && prev[j] == trim_seq(units[k].thesis@);
        if units.last().status == MemoryUnitStatus::ActiveArchive && trim_seq(units.last().thesis@).len()
            > 0 {
            assert(compact_lines(units)[j] == prev[j]);
        }
    }
}

/// Forgetting an active unit of an archive and then remembering it back
/// undoes the forgetting: the unit is forgotten and tagged `forgotten` in
/// between, and afterwards it is active again, tagged `remembered_back` and
/// not `forgotten`, with the same thesis; the archive's compact memory is
/// exactly what it was before, so it holds the unit's thesis again.
pub proof fn lemma_forget_then_remember_back(
    units: Seq<MemoryUnit>,
    k: int,
    recommendation: ForgetRecommendation,
    task_id: Seq<char>,
    now: Seq<char>,
    forgotten: MemoryUnit,
    back: MemoryUnit,
)
    requires
        0 <= k < units.len(),
        units[k].status == MemoryUnitStatus::ActiveArchive,
        recommendation.decision == ForgetDecision::Forget,
        reviewed_unit(forgotten, units[k], recommendation, Seq::empty(), task_id, now),
        same_unit_content(back, forgotten),
        back.status == MemoryUnitStatus::ActiveArchive,
        strs(back.tags@) == remembered_tags(strs(forgotten.tags@)),
    ensures
        forgotten.status == MemoryUnitStatus::Forgotten,
        strs(forgotten.tags@).contains("forgotten"@),
        strs(back.tags@).contains("remembered_back"@),
        !strs(back.tags@).contains("forgotten"@),
        back.thesis == units[k].thesis,
        compact_lines(units.update(k, back)) == compact_lines(units),
        trim_seq(units[k].thesis@).len() > 0 ==> compact_lines(units.update(k, back)).contains(
            trim_seq(units[k].thesis@),
        ),
{
    reveal_strlit("forgotten");
    reveal_strlit("forget_reviewed");
    reveal_strlit("remembered_back");
    let added = review_tags(ForgetDecision::Forget);
    crate::text::lemma_clean_word("forgotten"@);
    crate::text::lemma_clean_word("remembered_back"@);
    lemma_merge_spec_contains(strs(units[k].tags@), added);
    assert(normalize_ws_seq(added[1]) == "forgotten"@);
    assert(strs(forgotten.tags@).contains("forgotten"@));
    let stripped = without_tag(strs(forgotten.tags@), "forgotten"@);
    lemma_without_tag_removes(strs(forgotten.tags@), "forgotten"@);
    lemma_merge_spec_contains(stripped, seq!["remembered_back"@]);
    assert(normalize_ws_seq(seq!["remembered_back"@][0]) == "remembered_back"@);
    let single = seq!["remembered_back"@];
    assert(single.drop_last() =~= Seq::<Seq<char>>::empty());
    assert(merge_spec(stripped, single.drop_last()) == stripped);
    assert("remembered_back"@ != "forgotten"@) by {
        assert("remembered_back"@.len() != "forgotten"@.len());
    }
    assert(!merge_spec(stripped, single).contains("forgotten"@)) by {
        if merge_spec(stripped, single).contains("forgotten"@) {
            let j = choose|j: int| 0 <= j < merge_spec(stripped, single).len() && merge_spec(stripped, single)[j] == "forgotten"@;
            if j < stripped.len() {
                assert(stripped.contains(stripped[j]));
            }
        }
    }
    let after = units.update(k, back);
    assert forall|i: int| 0 <= i < after.len() implies (#[trigger] after[i]).status == units[i].status
        && after[i].thesis@ == units[i].thesis@ by {
        if i == k {
            assert(after[i] == back);
        }
    }
    lemma_compact_lines_same_shape(after, units);
    if trim_seq(units[k].thesis@).len() > 0 {
        lemma_compact_lines_has_active(units, k);
    }
}

/// The compact memory of an archive: one line per active unit's thesis;
/// `None` when no active unit has one.
pub fn render_compact_memory_from_units(units: &Vec<MemoryUnit>) -> (r: Option<String>)
    ensures
        compact_lines(units@).len() == 0 ==> r is None,
        compact_lines(units@).len() > 0 ==> (r matches Some(s) && s@ == join(
            compact_lines(units@),
            "\n"@,
        )),
{
    let mut lines: Vec<String> = Vec::new();
    let mut i: usize = 0;
    while i < units.len()
        invariant
            i <= units@.len(),
            strs(lines@) == compact_lines(units@.take(i as int)),
        decreases units@.len() - i,
    {
        assert(units@.take(i + 1).drop_last() =~= units@.take(i as int));
        assert(units@.take(i + 1).last() == units@[i as int]);
        let u = &units[i];
        if u.status == MemoryUnitStatus::ActiveArchive {
            let t = trim_str(u.thesis.as_str());
            if char_count(t.as_str()) > 0 {
                let ghost prev = lines@;
                let ghost tv = t@;
                lines.push(t);
                assert(strs(lines@) =~= strs(prev).push(tv));
            }
        }
        i = i + 1;
    }
    assert(units@.take(units@.len() as int) =~= units@);
    if lines.len() == 0 {
        None
    } else {
        Some(join_strings(&lines, "\n"))
    }
}

/// A unit that is not active adds nothing to the compact memory.
pub proof fn lemma_inactive_unit_not_in_compact_memory(units: Seq<MemoryUnit>, unit: MemoryUnit)
    requires
        unit.status != MemoryUnitStatus::ActiveArchive,
    ensures
        compact_lines(units.push(unit)) == compact_lines(units),
{
    assert(units.push(unit).drop_last() =~= units);
}

// ---------------------------------------------------------------- forgotten list

/// `a` is listed before `b`: more recently updated first, then by identifier.
pub open spec fn listed_before(a: MemoryUnit, b: MemoryUnit) -> bool {
    lex_lt(b.updated_at@, a.updated_at@) || (a.updated_at@ == b.updated_at@ && lex_lt(
        a.memory_unit_id@,
        b.memory_unit_id@,
    ))
}

/// No unit of the list is listed before one that precedes it.
pub open spec fn listed_in_order(units: Seq<MemoryUnit>) -> bool {
    forall|i: int, j: int| 0 <= i < j < units.len() ==> !listed_before(#[trigger] units[j], #[trigger] units[i])
}

proof fn lemma_lex_cases(a: Seq<char>, b: Seq<char>)
    ensures
        lex_lt(a, b) || a == b || lex_lt(b, a),
        !(lex_lt(a, b) && lex_lt(b, a)),
        a == b ==> !lex_lt(a, b),
{
    if a != b {
        lemma_lex_total(a, b);
    }
    if lex_lt(a, b) {
        lemma_lex_asym(a, b);
    }
    lemma_lex_irrefl(a);
}

proof fn lemma_listed_before_asym(a: MemoryUnit, b: MemoryUnit)
    ensures
        listed_before(a, b) ==> !listed_before(b, a),
{
    lemma_lex_cases(a.updated_at@, b.updated_at@);
    lemma_lex_cases(a.memory_unit_id@, b.memory_unit_id@);
}

proof fn lemma_not_listed_before_trans(a: MemoryUnit, b: MemoryUnit, c: MemoryUnit)
    requires
        !listed_before(b, a),
        !listed_before(c, b),
    ensures
        !listed_before(c, a),
{
    let (ta, tb, tc) = (a.updated_at@, b.updated_at@, c.updated_at@);
    let (ia, ib, ic) = (a.memory_unit_id@, b.memory_unit_id@, c.memory_unit_id@);
    lemma_lex_cases(ta, tb);
    lemma_lex_cases(tb, tc);
    lemma_lex_cases(ta, tc);
    lemma_lex_cases(ia, ib);
    lemma_lex_cases(ib, ic);
    lemma_lex_cases(ia, ic);
    // !before(b, a): ta >= tb (as "not lex_lt(ta, tb)") with ids ordered on ties
    if lex_lt(ta, tc) {
        // c is newer than a; b sits between them
        if lex_lt(tb, tc) {
            if lex_lt(tb, ta) {
                lemma_lex_trans(tb, ta, tc);
            }
        }
        if lex_lt(ta, tb) {
            assert(listed_before(b, a));
        }
        if lex_lt(tb, ta) && lex_lt(tc, tb) {
            lemma_lex_trans(tc, tb, ta);
        }
        if tb == ta {
            assert(lex_lt(tb, tc));
            assert(listed_before(c, b));
        }
        if tb == tc {
            assert(lex_lt(ta, tb));
        }
    }
    if ta == tc && lex_lt(ic, ia) {
        if lex_lt(ta, tb) {
            assert(listed_before(b, a));
        } else if ta == tb {
            if lex_lt(ib, ia) {
                assert(listed_before(b, a));
            }
            if lex_lt(ic, ib) {
                assert(listed_before(c, b));
            }
            if ib == ic {
                assert(lex_lt(ib, ia));
            }
            if lex_lt(ia, ib) && lex_lt(ib, ic) {
                lemma_lex_trans(ia, ib, ic);
            }
        } else {
            assert(lex_lt(tb, ta));
            assert(lex_lt(tb, tc));
            assert(listed_before(c, b));
        }
    }
}

fn listed_before_exec(a: &MemoryUnit, b: &MemoryUnit) -> (r: bool)
    ensures
        r == listed_before(*a, *b),
{
    lex_less(b.updated_at.as_str(), a.updated_at.as_str()) || (str_eq(
        a.updated_at.as_str(),
        b.updated_at.as_str(),
    ) && lex_less(a.memory_unit_id.as_str(), b.memory_unit_id.as_str()))
}

/// The forgotten units among `units`.
pub open spec fn forgotten_only(units: Seq<MemoryUnit>) -> Seq<MemoryUnit>
    decreases units.len(),
{
    if units.len() == 0 {
        Seq::empty()
    } else {
        let prev = forgotten_only(units.drop_last());
        if units.last().status == MemoryUnitStatus::Forgotten {
            prev.push(units.last())
        } else {
            prev
        }
    }
}

fn insert_listed(out: &mut Vec<MemoryUnit>, unit: MemoryUnit)
    requires
        listed_in_order(old(out)@),
    ensures
        listed_in_order(final(out)@),
        final(out)@.to_multiset() == old(out)@.to_multiset().insert(unit),
{
    let mut p: usize = out.len();
    while p > 0 && listed_before_exec(&unit, &out[p - 1])
        invariant
            p <= out@.len(),
            out@ == old(out)@,
            listed_in_order(out@),
            forall|k: int| p <= k < out@.len() ==> listed_before(unit, #[trigger] out@[k]),
        decreases p,
    {
        p = p - 1;
    }
    let ghost before = out@;
    proof {
        assert forall|k: int| 0 <= k < p implies !listed_before(unit, #[trigger] before[k]) by {
            let last = (p - 1) as int;
            assert(!listed_before(unit, before[last]));
            if k < last {
                assert(!listed_before(before[last], before[k]));
                lemma_not_listed_before_trans(before[k], before[last], unit);
            }
        }
    }
    out.insert(p, unit);
    proof {
        broadcast use vstd::seq_lib::group_to_multiset_ensures;
        assert(out@ =~= before.insert(p as int, unit));
        assert forall|i: int, j: int| 0 <= i < j < out@.len() implies !listed_before(
            #[trigger] out@[j],
            #[trigger] out@[i],
        ) by {
            if j < p {
                assert(out@[i] == before[i] && out@[j] == before[j]);
            } else if j == p {
                assert(out@[j] == unit && out@[i] == before[i]);
            } else if i == p {
                assert(out@[i] == unit && out@[j] == before[j - 1]);
                lemma_listed_before_asym(unit, before[j - 1]);
            } else if i < p {
                assert(out@[i] == before[i] && out@[j] == before[j - 1]);
            } else {
                assert(out@[i] == before[i - 1] && out@[j] == before[j - 1]);
            }
        }
    }
}

/// The forgotten units, most recently updated first and then by
/// identifier: the listing a host shows to offer remembering them back.
pub fn list_forgotten_units(units: Vec<MemoryUnit>) -> (r: Vec<MemoryUnit>)
    ensures
        r@.to_multiset() == forgotten_only(units@).to_multiset(),
        listed_in_order(r@),
        forall|k: int| 0 <= k < r@.len() ==> (#[trigger] r@[k]).status == MemoryUnitStatus::Forgotten,
{
    let ghost orig = units@;
    let n = units.len();
    let mut rest = crate::budget::reversed(units);
    let mut out: Vec<MemoryUnit> = Vec::new();
    let mut i: usize = 0;
    proof {
        broadcast use vstd::seq_lib::group_to_multiset_ensures;
        assert(forgotten_only(orig.take(0)) =~= Seq::<MemoryUnit>::empty());
    }
    while i < n
        invariant
            n == orig.len(),
            i <= n,
            rest@ =~= orig.subrange(i as int, n as int).reverse(),
            out@.to_multiset() == forgotten_only(orig.take(i as int)).to_multiset(),
            listed_in_order(out@),
            forall|k: int| 0 <= k < out@.len() ==> (#[trigger] out@[k]).status == MemoryUnitStatus::Forgotten,
        decreases n - i,
    {
        proof {
            broadcast use vstd::seq_lib::group_to_multiset_ensures;
        }
        assert(orig.take(i + 1).drop_last() =~= orig.take(i as int));
        let next = rest.pop();
        match next {
            Some(unit) => {
                assert(unit == orig[i as int]);
                if unit.status == MemoryUnitStatus::Forgotten {
                    let ghost before = out@;
                    insert_listed(&mut out, unit);
                    assert forall|k: int| 0 <= k < out@.len() implies (#[trigger] out@[k]).status
                        == MemoryUnitStatus::Forgotten by {
                        broadcast use vstd::seq_lib::group_to_multiset_ensures;
                        assert(out@.to_multiset().count(out@[k]) > 0);
                        assert(before.to_multiset().insert(unit).count(out@[k]) > 0);
                        if out@[k] != unit {
                            assert(before.to_multiset().count(out@[k]) > 0);
                            assert(before.contains(out@[k]));
                        }
                    }
                }
            },
            None => {
                assert(false);
            },
        }
        i = i + 1;
        assert(rest@ =~= orig.subrange(i as int, n as int).reverse());
    }
    assert(orig.take(n as int) =~= orig);
    out
}

// ---------------------------------------------------------------- protection gates

/// The gates that keep a unit from being forgotten, in the order they are
/// checked: high weight, a recent recall, a link from the Core Store, a
/// strong emotional marker.
pub open spec fn protection_reasons(high_weight: bool, recent_recall: bool, core_link: bool, emotional: bool) -> Seq<Seq<char>> {
    (if high_weight { seq!["high_weight"@] } else { Seq::empty() })
        + (if recent_recall { seq!["recent_recall"@] } else { Seq::empty() })
        + (if core_link { seq!["core_link"@] } else { Seq::empty() })
        + (if emotional { seq!["emotional"@] } else { Seq::empty() })
}

/// Names the protection gates a unit passes.
pub fn forget_protection_reasons(high_weight: bool, recent_recall: bool, core_link: bool, emotional: bool) -> (r: Vec<String>)
    ensures
        strs(r@) == protection_reasons(high_weight, recent_recall, core_link, emotional),
        (r@.len() == 0) == !(high_weight || recent_recall || core_link || emotional),
{
    let mut reasons: Vec<String> = Vec::new();
    if high_weight {
        reasons.push("high_weight".to_string());
    }
    let ghost r1 = strs(reasons@);
    if recent_recall {
        reasons.push("recent_recall".to_string());
    }
    let ghost r2 = strs(reasons@);
    if core_link {
        reasons.push("core_link".to_string());
    }
    let ghost r3 = strs(reasons@);
    if emotional {
        reasons.push("emotional".to_string());
    }
    assert(strs(reasons@) =~= protection_reasons(high_weight, recent_recall, core_link, emotional));
    reasons
}

// ---------------------------------------------------------------- review candidates

/// What the ordering of forget-review candidates reads: the age in days and
/// the weight of each unit, as `f64` bits, how often its archive was
/// recalled, and its identifier.
#[derive(Debug)]
pub struct ForgetCandidateRank {
    pub memory_unit_id: String,
    pub age_days: F64Bits,
    pub weight: F64Bits,
    pub archive_recall_count: u64,
}

/// The review order: older first, then lighter, then less recalled, then by
/// identifier (ages and weights in `f64::total_cmp` order).
pub open spec fn candidate_key(c: ForgetCandidateRank) -> Seq<(int, int, Seq<char>)> {
    seq![
        (1int, total_order_key(c.age_days.bits) as int, Seq::<char>::empty()),
        (0int, total_order_key(c.weight.bits) as int, Seq::<char>::empty()),
        (0int, c.archive_recall_count as int, Seq::<char>::empty()),
        (2int, 0int, c.memory_unit_id@),
    ]
}

/// Whether candidate `i` is reviewed before candidate `j`; candidates of
/// equal rank keep their order.
pub open spec fn candidate_before(cs: Seq<ForgetCandidateRank>, i: int, j: int) -> bool {
    key_before(candidate_key(cs[i]), candidate_key(cs[j])) || (candidate_key(cs[i]) == candidate_key(cs[j]) && i < j)
}

/// The candidates one review batch holds: the first `max_batch` in review
/// order, in that order (their positions).
pub fn rank_forget_candidates(candidates: &Vec<ForgetCandidateRank>, max_batch: usize) -> (r: Vec<usize>)
    ensures
        r@.len() == (if max_batch < candidates@.len() { max_batch as int } else { candidates@.len() as int }),
        r@.no_duplicates(),
        forall|k: int| 0 <= k < r@.len() ==> #[trigger] r@[k] < candidates@.len(),
        forall|a: int, b: int| 0 <= a < b < r@.len() ==> candidate_before(candidates@, #[trigger] r@[a] as int, #[trigger] r@[b] as int),
        forall|k: int, i: int|
            0 <= k < r@.len() && 0 <= i < candidates@.len() && !r@.contains(i as usize) ==> #[trigger] candidate_before(
                candidates@,
                r@[k] as int,
                i,
            ),
{
    let mut keys: Vec<Vec<KeyPart>> = Vec::new();
    let mut i: usize = 0;
    while i < candidates.len()
        invariant
            i <= candidates@.len(),
            keys@.len() == i,
            forall|t: int| 0 <= t < i ==> key_view(#[trigger] keys@[t]@) == candidate_key(candidates@[t]),
        decreases candidates@.len() - i,
    {
        let c = &candidates[i];
        let mut parts: Vec<KeyPart> = Vec::new();
        parts.push(KeyPart::Descending(float_order_key(c.age_days.bits)));
        parts.push(KeyPart::Ascending(float_order_key(c.weight.bits)));
        parts.push(KeyPart::Ascending(c.archive_recall_count));
        parts.push(KeyPart::TextAscending(c.memory_unit_id.clone()));
        assert(key_view(parts@) =~= candidate_key(*c));
        keys.push(parts);
        i = i + 1;
    }
    let order = stable_order(&keys);
    let m: usize = if max_batch < candidates.len() {
        max_batch
    } else {
        candidates.len()
    };
    let mut out: Vec<usize> = Vec::new();
    let mut t: usize = 0;
    while t < m
        invariant
            m <= order@.len(),
            t <= m,
            out@ == order@.take(t as int),
        decreases m - t,
    {
        out.push(order[t]);
        assert(order@.take(t + 1) =~= order@.take(t as int).push(order@[t as int]));
        t = t + 1;
    }
    proof {
        let ov = order@;
        assert(out@ =~= ov.take(m as int));
        assert forall|a: int, b: int| 0 <= a < b < out@.len() implies candidate_before(
            candidates@,
            #[trigger] out@[a] as int,
            #[trigger] out@[b] as int,
        ) by {
            assert(index_before(keys@, ov[a] as int, ov[b] as int));
        }
        assert forall|k: int, x: int|
            0 <= k < out@.len() && 0 <= x < candidates@.len() && !out@.contains(x as usize) implies #[trigger] candidate_before(
            candidates@,
            out@[k] as int,
            x,
        ) by {
            assert(ov.contains(x as usize));
            let q = choose|q: int| 0 <= q < ov.len() && ov[q] == x as usize;
            if q < m {
                assert(out@[q] == ov[q]);
            }
            assert(index_before(keys@, ov[k] as int, ov[q] as int));
        }
        assert forall|a: int, b: int| 0 <= a < out@.len() && 0 <= b < out@.len() && a != b implies out@[a] != out@[b] by {
            assert(ov[a] != ov[b]);
        }
    }
    out
}

/// The label of the candidate at `position` in a review batch: `m1`, `m2`, ...
pub fn candidate_label(position: usize) -> (r: String)
    requires
        position < usize::MAX,
    ensures
        r@ == "m"@ + decimal((position + 1) as nat),
{
    let n = usize_to_decimal(position + 1);
    let mut label = "m".to_string();
    label.append(n.as_str());
    proof {
        reveal_strlit("m");
    }
    label
}

// ---------------------------------------------------------------- emotional protection

/// Whether an emotional marker protects a unit: it is strong enough
/// (`strong`, an `f64` comparison) and, unless the unit has no source
/// events at all, shares one with the unit. A unit without its own source
/// events is judged by its archive's.
pub open spec fn marker_protects(
    marker: EmotionalMarker,
    strong: bool,
    source_ids: Seq<Seq<char>>,
) -> bool {
    strong && (source_ids.len() == 0 || exists|i: int|
        0 <= i < marker.source_event_ids@.len() && source_ids.contains((#[trigger] marker.source_event_ids@[i])@))
}

/// The source events a unit is judged by: its own, or its archive's when
/// it has none.
pub open spec fn judged_sources(unit_sources: Seq<Seq<char>>, archive_sources: Seq<Seq<char>>) -> Seq<Seq<char>> {
    if unit_sources.len() == 0 {
        archive_sources
    } else {
        unit_sources
    }
}

/// Whether some emotional marker of a unit's archive protects it from
/// forgetting (see `marker_protects`); `strong[k]` says whether marker `k`
/// reaches the protecting strength.
pub fn unit_has_emotional_marker(
    unit_sources: &Vec<String>,
    archive_sources: &Vec<String>,
    markers: &Vec<EmotionalMarker>,
    strong: &Vec<bool>,
) -> (r: bool)
    requires
        strong@.len() == markers@.len(),
    ensures
        r == exists|k: int| 0 <= k < markers@.len() && marker_protects(
            #[trigger] markers@[k],
            strong@[k],
            judged_sources(strs(unit_sources@), strs(archive_sources@)),
        ),
{
    let sources = if unit_sources.len() == 0 {
        archive_sources
    } else {
        unit_sources
    };
    let ghost sv = judged_sources(strs(unit_sources@), strs(archive_sources@));
    assert(strs(sources@) == sv);
    let mut k: usize = 0;
    while k < markers.len()
        invariant
            k <= markers@.len(),
            strong@.len() == markers@.len(),
            strs(sources@) == sv,
            sv == judged_sources(strs(unit_sources@), strs(archive_sources@)),
            forall|j: int| 0 <= j < k ==> !marker_protects(#[trigger] markers@[j], strong@[j], sv),
        decreases markers@.len() - k,
    {
        let marker = &markers[k];
        if strong[k] {
            if sources.len() == 0 {
                assert(marker_protects(markers@[k as int], strong@[k as int], sv));
                return true;
            }
            let mut j: usize = 0;
            while j < marker.source_event_ids.len()
                invariant
                    k < markers@.len(),
                    strong@.len() == markers@.len(),
                    strong@[k as int],
                    *marker == markers@[k as int],
                    strs(sources@) == sv,
                    sv == judged_sources(strs(unit_sources@), strs(archive_sources@)),
                    sv.len() > 0,
                    j <= marker.source_event_ids@.len(),
                    forall|i: int| 0 <= i < j ==> !sv.contains((#[trigger] marker.source_event_ids@[i])@),
                decreases marker.source_event_ids@.len() - j,
            {
                if contains_str(sources, marker.source_event_ids[j].as_str()) {
                    assert(sv.contains((marker.source_event_ids@[j as int])@));
                    assert(marker_protects(markers@[k as int], strong@[k as int], sv));
                    return true;
                }
                j = j + 1;
            }
        }
        k = k + 1;
    }
    false
}

} // verus!
