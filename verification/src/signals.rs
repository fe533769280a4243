//! Personal signals of an archive that reach the Core Store: which signals
//! qualify, the fact input each one becomes, which stored facts already say
//! the same, and whether a memory unit feeds a core fact.
use vstd::prelude::*;
use crate::compression::{EmotionalMarker, PersonalSignal};
use crate::forgetting::{
    forget_protection_reasons, judged_sources, marker_protects, protection_reasons, unit_has_emotional_marker,
};
use crate::types::MemoryUnit;
use crate::corestore::{
    normalized_scope, same_opt, CoreFact, CoreFactInput, CoreStoreCategory,
    CORE_FACT_INPUT_SCHEMA_VERSION,
};
use crate::recall::{overlap_count, overlap_count_of};
use crate::reflection::CandidateBelief;
use crate::status::{core_fact_visible_in_context, visible_in_context};
use crate::strset::{contains_str, lex_lt, lemma_lex_irrefl, sorted_set, str_eq};
use crate::text::{
    match_text, normalize_match_text, normalize_opt_seq, normalize_whitespace, normalize_ws_seq,
    opt_view, strs,
};
use crate::tokens::{category_name, meaningful_set, meaningful_tokens, normalize_category_name};
use crate::types::{CandidateStatus, CoreContextEvent, CoreFactStatus};

verus! {

// ---------------------------------------------------------------- user sources

/// The identifiers of the user's own messages among `events`, in order.
pub open spec fn user_message_ids_spec(events: Seq<CoreContextEvent>) -> Seq<Seq<char>>
    decreases events.len(),
{
    if events.len() == 0 {
        Seq::empty()
    } else {
        let prev = user_message_ids_spec(events.drop_last());
        if events.last().event_type@ == "user_message"@ {
            prev.push(events.last().event_id@)
        } else {
            prev
        }
    }
}

/// The identifiers of the events of type `user_message`.
pub fn user_message_ids(events: &Vec<CoreContextEvent>) -> (r: Vec<String>)
    ensures
        strs(r@) == user_message_ids_spec(events@),
{
    let mut out: Vec<String> = Vec::new();
    let mut i: usize = 0;
    while i < events.len()
        invariant
            i <= events@.len(),
            strs(out@) == user_message_ids_spec(events@.take(i as int)),
        decreases events@.len() - i,
    {
        assert(events@.take(i + 1).drop_last() =~= events@.take(i as int));
        if str_eq(events[i].event_type.as_str(), "user_message") {
            out.push(events[i].event_id.clone());
            assert(strs(out@) =~= user_message_ids_spec(events@.take(i as int)).push(
                events@[i as int].event_id@,
            ));
        }
        i = i + 1;
    }
    assert(events@.take(events@.len() as int) =~= events@);
    out
}

// ---------------------------------------------------------------- signal to fact

/// Whether some of `sources` is among the user's message identifiers, of
/// which there is at least one.
pub open spec fn has_user_source(sources: Seq<Seq<char>>, user_ids: Seq<Seq<char>>) -> bool {
    user_ids.len() > 0 && exists|i: int| 0 <= i < sources.len() && user_ids.contains(#[trigger] sources[i])
}

/// A signal that may reach the Core Store: a text and a category that are
/// not empty once normalized, a confidence of at least 0.85 (`confident`),
/// and a source among the user's own messages.
pub open spec fn signal_qualifies(
    signal: PersonalSignal,
    confident: bool,
    user_ids: Seq<Seq<char>>,
) -> bool {
    &&& normalize_ws_seq(signal.text@).len() > 0
    &&& category_name(signal.category@).len() > 0
    &&& confident
    &&& has_user_source(strs(signal.source_event_ids@), user_ids)
}

/// The tags of a fact that came from an archive signal of `category`.
pub open spec fn signal_tags(category: Seq<char>) -> Seq<Seq<char>> {
    seq!["archive_signal"@, "signal_category"@, "signal_category:"@ + category]
}

/// The fact input a qualifying signal becomes: its normalized text in the
/// normalized category, scoped to the archive's session, with its
/// confidence, the signal tags and the archive as source.
pub open spec fn signal_input_is(
    input: CoreFactInput,
    signal: PersonalSignal,
    archive_id: Seq<char>,
    session_id: Seq<char>,
) -> bool {
    &&& input.schema_version@ == CORE_FACT_INPUT_SCHEMA_VERSION@
    &&& input.category@ == category_name(signal.category@)
    &&& opt_view(input.scope) == Some(session_id)
    &&& input.text@ == normalize_ws_seq(signal.text@)
    &&& input.confidence == signal.confidence
    &&& strs(input.tags@) == signal_tags(category_name(signal.category@))
    &&& strs(input.source_archive_ids@) == seq![archive_id]
    &&& input.source_candidate_id is None
}

fn any_listed(sources: &Vec<String>, user_ids: &Vec<String>) -> (r: bool)
    ensures
        r == exists|i: int| 0 <= i < sources@.len() && strs(user_ids@).contains(#[trigger] strs(sources@)[i]),
{
    let mut i: usize = 0;
    while i < sources.len()
        invariant
            i <= sources@.len(),
            forall|k: int| 0 <= k < i ==> !strs(user_ids@).contains(#[trigger] strs(sources@)[k]),
        decreases sources@.len() - i,
    {
        if contains_str(user_ids, sources[i].as_str()) {
            assert(strs(user_ids@).contains(strs(sources@)[i as int]));
            return true;
        }
        i = i + 1;
    }
    false
}

/// The Core Store input for a personal signal of archive `archive_id` from
/// session `session_id`, or `None` when the signal does not qualify.
/// `confident` is whether the signal's confidence is at least 0.85.
pub fn signal_core_input(
    signal: &PersonalSignal,
    confident: bool,
    user_event_ids: &Vec<String>,
    archive_id: &str,
    session_id: &str,
) -> (r: Option<CoreFactInput>)
    ensures
        r is Some <==> signal_qualifies(*signal, confident, strs(user_event_ids@)),
        r matches Some(input) ==> signal_input_is(input, *signal, archive_id@, session_id@),
{
    let text = normalize_whitespace(signal.text.as_str());
    let category = normalize_category_name(signal.category.as_str());
    let has_source = user_event_ids.len() > 0 && any_listed(&signal.source_event_ids, user_event_ids);
    if text.as_str().is_empty() || category.as_str().is_empty() || !confident || !has_source {
        return None;
    }
    let mut labelled = "signal_category:".to_string();
    labelled.append(category.as_str());
    let mut tags: Vec<String> = Vec::new();
    tags.push("archive_signal".to_string());
    tags.push("signal_category".to_string());
    tags.push(labelled);
    let mut sources: Vec<String> = Vec::new();
    sources.push(archive_id.to_string());
    assert(strs(tags@) =~= signal_tags(category_name(signal.category@)));
    assert(strs(sources@) =~= seq![archive_id@]);
    Some(
        CoreFactInput {
            schema_version: CORE_FACT_INPUT_SCHEMA_VERSION.to_string(),
            category,
            scope: Some(session_id.to_string()),
            text,
            confidence: signal.confidence,
            tags,
            source_archive_ids: sources,
            source_candidate_id: None,
        },
    )
}

// ---------------------------------------------------------------- near duplicates

/// Whether two token sets overlap enough to call their texts the same
/// fact: both are non-empty and the shared tokens are at least 55 in a
/// hundred of the smaller set.
pub open spec fn overlap_reaches(a: Set<Seq<char>>, b: Set<Seq<char>>) -> bool {
    let smaller = if a.len() <= b.len() {
        a.len()
    } else {
        b.len()
    };
    a.len() > 0 && b.len() > 0 && 100 * a.intersect(b).len() >= 55 * smaller
}

/// Whether, scanning the facts in order, an active fact in `scope` says
/// nearly the same as the text with match form `needle` and tokens `tokens`
/// before one says exactly the same. An exact match ends the scan with
/// `false`: the fact input will merge into it.
pub open spec fn near_duplicate(
    facts: Seq<CoreFact>,
    scope: Option<Seq<char>>,
    needle: Seq<char>,
    tokens: Set<Seq<char>>,
) -> bool
    decreases facts.len(),
{
    if facts.len() == 0 {
        false
    } else {
        let f = facts[0];
        if f.status == CoreFactStatus::Active && opt_view(f.scope) == scope {
            if match_text(f.text@) == needle {
                false
            } else if overlap_reaches(tokens, meaningful_set(f.text@)) {
                true
            } else {
                near_duplicate(facts.drop_first(), scope, needle, tokens)
            }
        } else {
            near_duplicate(facts.drop_first(), scope, needle, tokens)
        }
    }
}

proof fn lemma_sorted_no_duplicates(s: Seq<Seq<char>>)
    requires
        sorted_set(s),
    ensures
        s.no_duplicates(),
{
    assert forall|i: int, j: int| 0 <= i < s.len() && 0 <= j < s.len() && i != j implies s[i] != s[j] by {
        if i < j {
            lemma_lex_irrefl(s[i]);
            assert(lex_lt(s[i], s[j]));
        } else {
            lemma_lex_irrefl(s[j]);
            assert(lex_lt(s[j], s[i]));
        }
    }
}

proof fn lemma_overlap_is_intersection(w: Seq<Seq<char>>, h: Seq<Seq<char>>)
    requires
        w.no_duplicates(),
    ensures
        overlap_count(w, h) == w.to_set().intersect(h.to_set()).len(),
    decreases w.len(),
{
    broadcast use vstd::seq_lib::seq_to_set_is_finite;
    if w.len() == 0 {
        assert(w.to_set().intersect(h.to_set()) =~= Set::empty());
    } else {
        let p = w.drop_last();
        let x = w.last();
        assert(p.no_duplicates()) by {
            assert forall|i: int, j: int| 0 <= i < p.len() && 0 <= j < p.len() && i != j implies p[i] != p[j] by {
                assert(p[i] == w[i] && p[j] == w[j]);
            }
        }
        lemma_overlap_is_intersection(p, h);
        assert(w =~= p.push(x));
        p.lemma_push_to_set_commute(x);
        assert(w.to_set() =~= p.to_set().insert(x));
        assert(!p.to_set().contains(x)) by {
            if p.to_set().contains(x) {
                let k = choose|k: int| 0 <= k < p.len() && p[k] == x;
                assert(w[k] == w[w.len() - 1]);
            }
        }
        let pi = p.to_set().intersect(h.to_set());
        assert(pi.finite());
        if h.contains(x) {
            assert(w.to_set().intersect(h.to_set()) =~= pi.insert(x));
            assert(!pi.contains(x));
        } else {
            assert(w.to_set().intersect(h.to_set()) =~= pi);
        }
    }
}

/// Whether the token sets of `needle_tokens` and `fact_tokens`, each sorted
/// and free of repeats, overlap enough.
fn tokens_overlap_enough(needle_tokens: &Vec<String>, fact_tokens: &Vec<String>) -> (r: bool)
    requires
        sorted_set(strs(needle_tokens@)),
        sorted_set(strs(fact_tokens@)),
    ensures
        r == overlap_reaches(strs(needle_tokens@).to_set(), strs(fact_tokens@).to_set()),
{
    let a = needle_tokens.len();
    let b = fact_tokens.len();
    let shared = overlap_count_of(needle_tokens, fact_tokens);
    proof {
        lemma_sorted_no_duplicates(strs(needle_tokens@));
        lemma_sorted_no_duplicates(strs(fact_tokens@));
        strs(needle_tokens@).unique_seq_to_set();
        strs(fact_tokens@).unique_seq_to_set();
        lemma_overlap_is_intersection(strs(needle_tokens@), strs(fact_tokens@));
    }
    if a == 0 || b == 0 {
        return false;
    }
    let smaller: usize = if a <= b {
        a
    } else {
        b
    };
    let left: u128 = shared as u128 * 100;
    let right: u128 = smaller as u128 * 55;
    left >= right
}

/// Whether an active fact of `category` in the normalized `scope` says
/// nearly the same as `text`, before any fact says exactly the same: such
/// a signal is not stored again.
pub fn is_near_duplicate_core_fact(
    category: &CoreStoreCategory,
    scope: &Option<String>,
    text: &str,
) -> (r: bool)
    ensures
        r == near_duplicate(
            category.facts@,
            normalize_opt_seq(opt_view(*scope)),
            match_text(text@),
            meaningful_set(text@),
        ),
{
    let sc = normalized_scope(scope);
    let needle = normalize_match_text(text);
    let needle_tokens = meaningful_tokens(text);
    let ghost facts = category.facts@;
    let ghost sv = normalize_opt_seq(opt_view(*scope));
    let ghost ms = meaningful_set(text@);
    assert(facts.subrange(0, facts.len() as int) =~= facts);
    let mut i: usize = 0;
    while i < category.facts.len()
        invariant
            facts == category.facts@,
            i <= facts.len(),
            opt_view(sc) == sv,
            sv == normalize_opt_seq(opt_view(*scope)),
            ms == meaningful_set(text@),
            needle@ == match_text(text@),
            sorted_set(strs(needle_tokens@)),
            strs(needle_tokens@).to_set() == meaningful_set(text@),
            near_duplicate(facts, sv, needle@, meaningful_set(text@)) == near_duplicate(
                facts.subrange(i as int, facts.len() as int),
                sv,
                needle@,
                meaningful_set(text@),
            ),
        decreases facts.len() - i,
    {
        let ghost rest = facts.subrange(i as int, facts.len() as int);
        assert(rest[0] == facts[i as int]);
        assert(rest.drop_first() =~= facts.subrange(i + 1, facts.len() as int));
        let f = &category.facts[i];
        let relevant = match f.status {
            CoreFactStatus::Active => same_opt(&f.scope, &sc),
            _ => false,
        };
        if relevant {
            let t = normalize_match_text(f.text.as_str());
            if str_eq(t.as_str(), needle.as_str()) {
                assert(rest.len() > 0 && rest[0].status == CoreFactStatus::Active);
                assert(near_duplicate(rest, sv, needle@, ms) == false);
                return false;
            }
            let fact_tokens = meaningful_tokens(f.text.as_str());
            if tokens_overlap_enough(&needle_tokens, &fact_tokens) {
                assert(overlap_reaches(ms, meaningful_set(rest[0].text@)));
                assert(near_duplicate(rest, sv, needle@, ms));
                return true;
            }
        }
        i = i + 1;
    }
    false
}

// ---------------------------------------------------------------- core links

/// Whether a candidate with identifier `candidate_id` among `candidates`
/// was drawn from the memory unit `unit_id`.
pub open spec fn candidate_draws_on(
    candidates: Seq<CandidateBelief>,
    candidate_id: Seq<char>,
    unit_id: Seq<char>,
) -> bool {
    exists|k: int|
        0 <= k < candidates.len() && (#[trigger] candidates[k]).candidate_id@ == candidate_id
            && strs(candidates[k].source_memory_unit_ids@).contains(unit_id)
}

/// Whether a fact that a context package shows rests on the archive
/// `archive_id`, or on a candidate drawn from the unit `unit_id`.
pub open spec fn fact_links_unit(
    f: CoreFact,
    candidates: Seq<CandidateBelief>,
    archive_id: Seq<char>,
    unit_id: Seq<char>,
) -> bool {
    &&& visible_in_context(f.status)
    &&& (strs(f.source_archive_ids@).contains(archive_id) || match f.source_candidate_id {
        Some(c) => candidate_draws_on(candidates, c@, unit_id),
        None => false,
    })
}

/// Whether a memory unit feeds the Core Store: a shown fact rests on its
/// archive or on a candidate drawn from it, or a promoted candidate was
/// drawn from it.
pub open spec fn unit_has_core_link_spec(
    categories: Seq<CoreStoreCategory>,
    candidates: Seq<CandidateBelief>,
    archive_id: Seq<char>,
    unit_id: Seq<char>,
) -> bool {
    ||| exists|c: int, j: int|
        0 <= c < categories.len() && 0 <= j < categories[c].facts@.len() && fact_links_unit(
            #[trigger] categories[c].facts@[j],
            candidates,
            archive_id,
            unit_id,
        )
    ||| exists|k: int|
        0 <= k < candidates.len() && (#[trigger] candidates[k]).status == CandidateStatus::Promoted
            && strs(candidates[k].source_memory_unit_ids@).contains(unit_id)
}

fn candidate_draws_on_exec(candidates: &Vec<CandidateBelief>, candidate_id: &str, unit_id: &str) -> (r: bool)
    ensures
        r == candidate_draws_on(candidates@, candidate_id@, unit_id@),
{
    let mut k: usize = 0;
    while k < candidates.len()
        invariant
            k <= candidates@.len(),
            forall|m: int|
                0 <= m < k ==> !((#[trigger] candidates@[m]).candidate_id@ == candidate_id@
                    && strs(candidates@[m].source_memory_unit_ids@).contains(unit_id@)),
        decreases candidates@.len() - k,
    {
        let c = &candidates[k];
        if str_eq(c.candidate_id.as_str(), candidate_id) && contains_str(&c.source_memory_unit_ids, unit_id) {
            assert(candidates@[k as int] == *c);
            return true;
        }
        k = k + 1;
    }
    false
}

fn fact_links_unit_exec(
    f: &CoreFact,
    candidates: &Vec<CandidateBelief>,
    archive_id: &str,
    unit_id: &str,
) -> (r: bool)
    ensures
        r == fact_links_unit(*f, candidates@, archive_id@, unit_id@),
{
    if !core_fact_visible_in_context(f.status) {
        return false;
    }
    if contains_str(&f.source_archive_ids, archive_id) {
        return true;
    }
    match &f.source_candidate_id {
        Some(c) => candidate_draws_on_exec(candidates, c.as_str(), unit_id),
        None => false,
    }
}

/// Whether the memory unit `unit_id` of archive `archive_id` feeds the Core
/// Store, which protects it from being forgotten.
pub fn unit_has_core_link(
    categories: &Vec<CoreStoreCategory>,
    candidates: &Vec<CandidateBelief>,
    archive_id: &str,
    unit_id: &str,
) -> (r: bool)
    ensures
        r == unit_has_core_link_spec(categories@, candidates@, archive_id@, unit_id@),
{
    let mut c: usize = 0;
    while c < categories.len()
        invariant
            c <= categories@.len(),
            forall|a: int, j: int|
                0 <= a < c && 0 <= j < categories@[a].facts@.len() ==> !fact_links_unit(
                    #[trigger] categories@[a].facts@[j],
                    candidates@,
                    archive_id@,
                    unit_id@,
                ),
        decreases categories@.len() - c,
    {
        let cat = &categories[c];
        let mut j: usize = 0;
        while j < cat.facts.len()
            invariant
                c < categories@.len(),
                *cat == categories@[c as int],
                j <= cat.facts@.len(),
                forall|a: int, jj: int|
                    0 <= a < c && 0 <= jj < categories@[a].facts@.len() ==> !fact_links_unit(
                        #[trigger] categories@[a].facts@[jj],
                        candidates@,
                        archive_id@,
                        unit_id@,
                    ),
                forall|jj: int|
                    0 <= jj < j ==> !fact_links_unit(
                        #[trigger] cat.facts@[jj],
                        candidates@,
                        archive_id@,
                        unit_id@,
                    ),
            decreases cat.facts@.len() - j,
        {
            if fact_links_unit_exec(&cat.facts[j], candidates, archive_id, unit_id) {
                assert(fact_links_unit(categories@[c as int].facts@[j as int], candidates@, archive_id@, unit_id@));
                return true;
            }
            j = j + 1;
        }
        c = c + 1;
    }
    let mut k: usize = 0;
    while k < candidates.len()
        invariant
            k <= candidates@.len(),
            forall|a: int, j: int|
                0 <= a < categories@.len() && 0 <= j < categories@[a].facts@.len() ==> !fact_links_unit(
                    #[trigger] categories@[a].facts@[j],
                    candidates@,
                    archive_id@,
                    unit_id@,
                ),
            forall|m: int|
                0 <= m < k ==> !((#[trigger] candidates@[m]).status == CandidateStatus::Promoted
                    && strs(candidates@[m].source_memory_unit_ids@).contains(unit_id@)),
        decreases candidates@.len() - k,
    {
        let cand = &candidates[k];
        let promoted = match cand.status {
            CandidateStatus::Promoted => true,
            _ => false,
        };
        if promoted && contains_str(&cand.source_memory_unit_ids, unit_id) {
            assert(candidates@[k as int] == *cand);
            return true;
        }
        k = k + 1;
    }
    false
}

// ---------------------------------------------------------------- protection

/// The reasons that protect a unit from forgetting, in order: a high
/// weight (`heavy`, the caller's comparison with the protecting weight), a
/// recall of its archive within the protecting window (`recalled`, the
/// caller's comparison of ages in days), a link to the Core Store, and an
/// emotional marker of its archive (`strong[k]`, whether marker `k` reaches
/// the protecting strength).
pub fn unit_protection_reasons(
    unit: &MemoryUnit,
    heavy: bool,
    recalled: bool,
    categories: &Vec<CoreStoreCategory>,
    candidates: &Vec<CandidateBelief>,
    archive_sources: &Vec<String>,
    markers: &Vec<EmotionalMarker>,
    strong: &Vec<bool>,
) -> (r: Vec<String>)
    requires
        strong@.len() == markers@.len(),
    ensures
        strs(r@) == protection_reasons(
            heavy,
            recalled,
            unit_has_core_link_spec(categories@, candidates@, unit.archive_id@, unit.memory_unit_id@),
            exists|k: int|
                0 <= k < markers@.len() && marker_protects(
                    #[trigger] markers@[k],
                    strong@[k],
                    judged_sources(strs(unit.source_event_ids@), strs(archive_sources@)),
                ),
        ),
{
    let linked = unit_has_core_link(categories, candidates, unit.archive_id.as_str(), unit.memory_unit_id.as_str());
    let emotional = unit_has_emotional_marker(&unit.source_event_ids, archive_sources, markers, strong);
    forget_protection_reasons(heavy, recalled, linked, emotional)
}

} // verus!
