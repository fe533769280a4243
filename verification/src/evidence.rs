//! Evidence packs for fidelity checks: the source events of a memory unit
//! and their neighbours, gathered within a token budget.
use vstd::prelude::*;
use crate::text::{char_count, strs};
use crate::strset::{contains_str, str_eq};
use crate::budget::text_tokens;
use crate::types::{EvidenceEvent, EvidencePack, EVIDENCE_PACK_SCHEMA_VERSION};

verus! {

impl EvidencePack {
    /// A pack for one memory unit with no events yet.
    pub fn empty_for(
        evidence_pack_id: String,
        created_at: String,
        memory_unit_id: String,
        archive_id: String,
        source_session_id: String,
        target_thesis: String,
        max_estimated_tokens: usize,
    ) -> (r: Self)
        ensures
            r.schema_version@ == EVIDENCE_PACK_SCHEMA_VERSION@,
            r.evidence_pack_id == evidence_pack_id,
            r.created_at == created_at,
            r.memory_unit_id == memory_unit_id,
            r.archive_id == archive_id,
            r.source_session_id == source_session_id,
            r.target_thesis == target_thesis,
            r.unit_evidence is None,
            r.events@.len() == 0,
            r.max_estimated_tokens == max_estimated_tokens,
            r.estimated_tokens == 0,
            !r.truncated,
    {
        EvidencePack {
            schema_version: EVIDENCE_PACK_SCHEMA_VERSION.to_string(),
            evidence_pack_id,
            created_at,
            memory_unit_id,
            archive_id,
            source_session_id,
            target_thesis,
            unit_evidence: None,
            events: Vec::new(),
            max_estimated_tokens,
            estimated_tokens: 0,
            truncated: false,
        }
    }
}

// ---------------------------------------------------------------- estimates

/// Total characters of a list of tags.
pub open spec fn tags_chars(tags: Seq<String>) -> nat
    decreases tags.len(),
{
    if tags.len() == 0 {
        0
    } else {
        tags_chars(tags.drop_last()) + tags.last()@.len()
    }
}

/// Characters an event adds to a pack: its fields, its tags and a fixed
/// allowance of 32 for the framing.
pub open spec fn event_chars(e: EvidenceEvent) -> nat {
    e.event_id@.len() + e.timestamp@.len() + e.event_type@.len() + e.source@.len() + e.text@.len()
        + tags_chars(e.tags@) + 32
}

/// Characters of a list of events.
pub open spec fn events_chars(events: Seq<EvidenceEvent>) -> nat
    decreases events.len(),
{
    if events.len() == 0 {
        0
    } else {
        events_chars(events.drop_last()) + event_chars(events.last())
    }
}

/// Characters of a pack: the target thesis, the unit's own evidence and
/// every event.
pub open spec fn pack_chars(pack: EvidencePack) -> nat {
    head_chars(pack) + events_chars(pack.events@)
}

/// Characters of a pack before its events: the target thesis and the
/// unit's own evidence.
pub open spec fn head_chars(pack: EvidencePack) -> nat {
    pack.target_thesis@.len() + (match pack.unit_evidence {
        Some(e) => e@.len(),
        None => 0,
    })
}

fn add_capped(a: usize, b: usize) -> (r: usize)
    ensures
        a + b <= usize::MAX ==> r == a + b,
        a + b > usize::MAX ==> r == usize::MAX,
{
    if a <= usize::MAX - b {
        a + b
    } else {
        usize::MAX
    }
}

fn estimate_tags_chars(tags: &Vec<String>) -> (r: usize)
    ensures
        tags_chars(tags@) <= usize::MAX ==> r == tags_chars(tags@),
        tags_chars(tags@) > usize::MAX ==> r == usize::MAX,
{
    let mut total: usize = 0;
    let mut i: usize = 0;
    while i < tags.len()
        invariant
            i <= tags@.len(),
            tags_chars(tags@.take(i as int)) <= usize::MAX ==> total == tags_chars(tags@.take(i as int)),
            tags_chars(tags@.take(i as int)) > usize::MAX ==> total == usize::MAX,
        decreases tags@.len() - i,
    {
        assert(tags@.take(i + 1).drop_last() =~= tags@.take(i as int));
        total = add_capped(total, char_count(tags[i].as_str()));
        i = i + 1;
    }
    assert(tags@.take(tags@.len() as int) =~= tags@);
    total
}

fn estimate_event_chars(e: &EvidenceEvent) -> (r: usize)
    ensures
        event_chars(*e) <= usize::MAX ==> r == event_chars(*e),
        event_chars(*e) > usize::MAX ==> r == usize::MAX,
{
    let mut total = char_count(e.event_id.as_str());
    total = add_capped(total, char_count(e.timestamp.as_str()));
    total = add_capped(total, char_count(e.event_type.as_str()));
    total = add_capped(total, char_count(e.source.as_str()));
    total = add_capped(total, char_count(e.text.as_str()));
    total = add_capped(total, estimate_tags_chars(&e.tags));
    add_capped(total, 32)
}

/// Estimated tokens of a pack: its characters halved, rounded up (the
/// characters are counted up to the largest `usize`).
pub fn estimate_evidence_pack_tokens(pack: &EvidencePack) -> (r: usize)
    ensures
        pack_chars(*pack) <= usize::MAX ==> r == text_tokens(pack_chars(*pack)),
{
    let mut chars = char_count(pack.target_thesis.as_str());
    match &pack.unit_evidence {
        Some(e) => {
            chars = add_capped(chars, char_count(e.as_str()));
        },
        None => {},
    }
    let ghost head: nat = head_chars(*pack);
    let mut i: usize = 0;
    while i < pack.events.len()
        invariant
            i <= pack.events@.len(),
            head + events_chars(pack.events@.take(i as int)) <= usize::MAX ==> chars == head
                + events_chars(pack.events@.take(i as int)),
            head + events_chars(pack.events@.take(i as int)) > usize::MAX ==> chars == usize::MAX,
            head == head_chars(*pack),
        decreases pack.events@.len() - i,
    {
        assert(pack.events@.take(i + 1).drop_last() =~= pack.events@.take(i as int));
        chars = add_capped(chars, estimate_event_chars(&pack.events[i]));
        i = i + 1;
    }
    assert(pack.events@.take(pack.events@.len() as int) =~= pack.events@);
    chars / 2 + chars % 2
}

// ---------------------------------------------------------------- gathering

/// Adds an event to a pack once: an event already selected is skipped; a
/// forced event (a source of the unit) always enters; another enters only
/// when the pack's estimate stays within its maximum, and the pack is marked
/// truncated otherwise.
pub fn add_evidence_event(
    pack: &mut EvidencePack,
    event: EvidenceEvent,
    selected: &mut Vec<String>,
    force: bool,
)
    requires
        pack_chars(*old(pack)) + event_chars(event) <= usize::MAX,
    ensures
        strs(old(selected)@).contains(event.event_id@) ==> (*final(pack) == *old(pack)
            && final(selected)@ == old(selected)@),
        !strs(old(selected)@).contains(event.event_id@) ==> {
            let tokens = text_tokens(pack_chars(*old(pack)) + event_chars(event));
            let accepted = force || tokens <= old(pack).max_estimated_tokens;
            &&& strs(final(selected)@) == strs(old(selected)@).push(event.event_id@)
            &&& !force && accepted ==> final(pack).estimated_tokens <= final(pack).max_estimated_tokens
            &&& accepted ==> final(pack).events@ == old(pack).events@.push(event)
                && final(pack).estimated_tokens == tokens && final(pack).truncated
                == old(pack).truncated
            &&& !accepted ==> final(pack).events@ == old(pack).events@
                && final(pack).estimated_tokens == old(pack).estimated_tokens && final(pack).truncated
            &&& final(pack).target_thesis == old(pack).target_thesis
            &&& final(pack).unit_evidence == old(pack).unit_evidence
            &&& final(pack).max_estimated_tokens == old(pack).max_estimated_tokens
            &&& final(pack).memory_unit_id == old(pack).memory_unit_id
        },
{
    if contains_str(selected, event.event_id.as_str()) {
        return;
    }
    let ghost before = strs(selected@);
    let id = event.event_id.clone();
    selected.push(id);
    assert(strs(selected@) =~= before.push(event.event_id@));
    let ghost old_events = pack.events@;
    pack.events.push(event);
    assert(pack.events@.drop_last() =~= old_events);
    let tokens = estimate_evidence_pack_tokens(pack);
    if force || tokens <= pack.max_estimated_tokens {
        pack.estimated_tokens = tokens;
    } else {
        let _ = pack.events.pop();
        pack.truncated = true;
    }
}

/// Indices of the events whose identifier is one of `source_ids`, in order.
pub fn evidence_source_indices(event_ids: &Vec<String>, source_ids: &Vec<String>) -> (r: Vec<usize>)
    ensures
        forall|k: int| 0 <= k < r@.len() ==> r@[k] < event_ids@.len() && strs(source_ids@).contains(
            event_ids@[#[trigger] r@[k] as int]@,
        ),
        forall|i: int|
            0 <= i < event_ids@.len() && strs(source_ids@).contains(#[trigger] event_ids@[i]@)
                ==> r@.contains(i as usize),
        forall|a: int, b: int| 0 <= a < b < r@.len() ==> r@[a] < r@[b],
{
    let mut out: Vec<usize> = Vec::new();
    let mut i: usize = 0;
    while i < event_ids.len()
        invariant
            i <= event_ids@.len(),
            forall|k: int| 0 <= k < out@.len() ==> out@[k] < i && strs(source_ids@).contains(
                event_ids@[#[trigger] out@[k] as int]@,
            ),
            forall|j: int|
                0 <= j < i && strs(source_ids@).contains(#[trigger] event_ids@[j]@) ==> out@.contains(
                    j as usize,
                ),
            forall|a: int, b: int| 0 <= a < b < out@.len() ==> out@[a] < out@[b],
        decreases event_ids@.len() - i,
    {
        if contains_str(source_ids, event_ids[i].as_str()) {
            let ghost prev = out@;
            out.push(i);
            assert forall|j: int|
                0 <= j < i + 1 && strs(source_ids@).contains(#[trigger] event_ids@[j]@) implies out@.contains(
                j as usize,
            ) by {
                if j < i {
                    let k = choose|k: int| 0 <= k < prev.len() && prev[k] == j as usize;
                    assert(out@[k] == j as usize);
                } else {
                    assert(out@[out@.len() - 1] == i);
                }
            }
        }
        i = i + 1;
    }
    out
}

/// Whether index `j` lies within `radius` positions of a source, without
/// being that source.
pub open spec fn is_neighbor(sources: Seq<usize>, radius: nat, j: int) -> bool {
    exists|k: int|
        0 <= k < sources.len() && (#[trigger] sources[k] != j) && (if sources[k] < j {
            j - sources[k] <= radius
        } else {
            sources[k] - j <= radius
        })
}

fn near_a_source(sources: &Vec<usize>, radius: usize, j: usize) -> (r: bool)
    ensures
        r == is_neighbor(sources@, radius as nat, j as int),
{
    let mut k: usize = 0;
    while k < sources.len()
        invariant
            k <= sources@.len(),
            forall|m: int|
                0 <= m < k ==> !((#[trigger] sources@[m] != j) && (if sources@[m] < j {
                    j - sources@[m] <= radius
                } else {
                    sources@[m] - j <= radius
                })),
        decreases sources@.len() - k,
    {
        let s = sources[k];
        let close = if s < j {
            j - s <= radius
        } else {
            s - j <= radius
        };
        if s != j && close {
            return true;
        }
        k = k + 1;
    }
    false
}

/// The indices, in increasing order and each once, of the events within
/// `radius` positions of a source event (sources themselves excepted unless
/// they neighbour another source), among `n_events` events.
pub fn evidence_neighbor_indices(sources: &Vec<usize>, radius: usize, n_events: usize) -> (r: Vec<usize>)
    ensures
        forall|k: int| 0 <= k < r@.len() ==> r@[k] < n_events && is_neighbor(sources@, radius as nat, #[trigger] r@[k] as int),
        forall|j: int| 0 <= j < n_events && is_neighbor(sources@, radius as nat, j) ==> r@.contains(j as usize),
        forall|a: int, b: int| 0 <= a < b < r@.len() ==> r@[a] < r@[b],
{
    let mut out: Vec<usize> = Vec::new();
    let mut j: usize = 0;
    while j < n_events
        invariant
            j <= n_events,
            forall|k: int| 0 <= k < out@.len() ==> out@[k] < j && is_neighbor(sources@, radius as nat, #[trigger] out@[k] as int),
            forall|i: int| 0 <= i < j && is_neighbor(sources@, radius as nat, i) ==> out@.contains(i as usize),
            forall|a: int, b: int| 0 <= a < b < out@.len() ==> out@[a] < out@[b],
        decreases n_events - j,
    {
        if radius > 0 && near_a_source(sources, radius, j) {
            let ghost prev = out@;
            out.push(j);
            assert forall|i: int| 0 <= i < j + 1 && is_neighbor(sources@, radius as nat, i) implies out@.contains(
                i as usize,
            ) by {
                if i < j {
                    let k = choose|k: int| 0 <= k < prev.len() && prev[k] == i as usize;
                    assert(out@[k] == i as usize);
                } else {
                    assert(out@[out@.len() - 1] == j);
                }
            }
        } else {
            assert(!is_neighbor(sources@, radius as nat, j as int));
        }
        j = j + 1;
    }
    out
}

} // verus!
