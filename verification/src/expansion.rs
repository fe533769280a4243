//! Contextual expansion of a context package: which vector-recalled memory
//! units add detail that the package does not show yet.

use vstd::prelude::*;

use crate::recall::RecallMemory;
use crate::strset::contains_str;
use crate::text::{decimal, is_empty_str, match_text, normalize_match_text, strs, usize_to_decimal};
use crate::tokens::{contains_substring, has_sub};
use crate::types::CoreContextEvent;

verus! {

/// The match forms of the texts of some events, for those that have one.
pub open spec fn event_texts(events: Seq<CoreContextEvent>) -> Seq<Seq<char>>
    decreases events.len(),
{
    if events.len() == 0 {
        Seq::empty()
    } else {
        let prev = event_texts(events.drop_last());
        match events.last().text {
            Some(t) => prev.push(match_text(t@)),
            None => prev,
        }
    }
}

/// The match forms of what one recalled archive entry shows: its gist,
/// compact memory, narrative and facts.
pub open spec fn item_texts(m: RecallMemory) -> Seq<Seq<char>> {
    seq![match_text(m.gist@)] + (match m.compact_memory {
        Some(c) => seq![match_text(c@)],
        None => Seq::empty(),
    }) + (match m.narrative {
        Some(n) => seq![match_text(n@)],
        None => Seq::empty(),
    }) + strs(m.facts@).map_values(|f: Seq<char>| match_text(f))
}

/// The match forms of what recalled archive entries show, entry after entry.
pub open spec fn memory_texts(items: Seq<RecallMemory>) -> Seq<Seq<char>>
    decreases items.len(),
{
    if items.len() == 0 {
        Seq::empty()
    } else {
        memory_texts(items.drop_last()) + item_texts(items.last())
    }
}

/// The non-empty items of `s`, in order.
pub open spec fn non_empty(s: Seq<Seq<char>>) -> Seq<Seq<char>>
    decreases s.len(),
{
    if s.len() == 0 {
        Seq::empty()
    } else if s.last().len() == 0 {
        non_empty(s.drop_last())
    } else {
        non_empty(s.drop_last()).push(s.last())
    }
}

proof fn lemma_non_empty_append(a: Seq<Seq<char>>, b: Seq<Seq<char>>)
    ensures
        non_empty(a + b) == non_empty(a) + non_empty(b),
    decreases b.len(),
{
    if b.len() == 0 {
        assert(a + b =~= a);
        assert(non_empty(a) + non_empty(b) =~= non_empty(a));
    } else {
        assert((a + b).drop_last() =~= a + b.drop_last());
        lemma_non_empty_append(a, b.drop_last());
        if b.last().len() != 0 {
            assert(non_empty(a) + non_empty(b.drop_last()).push(b.last()) =~= (non_empty(a) + non_empty(
                b.drop_last(),
            )).push(b.last()));
        }
    }
}

/// Appends the match form of `text` unless it is empty.
fn push_match(out: &mut Vec<String>, text: &str)
    ensures
        strs(final(out)@) == strs(old(out)@) + non_empty(seq![match_text(text@)]),
{
    let t = normalize_match_text(text);
    let ghost prev = strs(out@);
    let ghost one = seq![match_text(text@)];
    assert(one.drop_last() =~= Seq::<Seq<char>>::empty());
    assert(non_empty(Seq::<Seq<char>>::empty()) == Seq::<Seq<char>>::empty());
    assert(one.last() == t@);
    if !is_empty_str(t.as_str()) {
        out.push(t);
        assert(strs(out@) =~= prev + non_empty(one));
    } else {
        assert(prev + non_empty(one) =~= prev);
    }
}

fn push_all_matches(out: &mut Vec<String>, texts: &Vec<String>)
    ensures
        strs(final(out)@) == strs(old(out)@) + non_empty(strs(texts@).map_values(|t: Seq<char>| match_text(t))),
{
    let ghost base = strs(out@);
    let ghost mapped = strs(texts@).map_values(|t: Seq<char>| match_text(t));
    let mut i: usize = 0;
    while i < texts.len()
        invariant
            i <= texts@.len(),
            mapped == strs(texts@).map_values(|t: Seq<char>| match_text(t)),
            strs(out@) == base + non_empty(mapped.take(i as int)),
        decreases texts@.len() - i,
    {
        let ghost before = strs(out@);
        push_match(out, texts[i].as_str());
        proof {
            assert(mapped.take(i + 1) =~= mapped.take(i as int) + seq![match_text(texts@[i as int]@)]);
            lemma_non_empty_append(mapped.take(i as int), seq![match_text(texts@[i as int]@)]);
            assert(strs(out@) =~= base + non_empty(mapped.take(i + 1)));
        }
        i = i + 1;
    }
    assert(mapped.take(texts@.len() as int) =~= mapped);
}

fn push_event_texts(out: &mut Vec<String>, events: &Vec<CoreContextEvent>)
    ensures
        strs(final(out)@) == strs(old(out)@) + non_empty(event_texts(events@)),
{
    let ghost base = strs(out@);
    let mut i: usize = 0;
    while i < events.len()
        invariant
            i <= events@.len(),
            strs(out@) == base + non_empty(event_texts(events@.take(i as int))),
        decreases events@.len() - i,
    {
        assert(events@.take(i + 1).drop_last() =~= events@.take(i as int));
        assert(events@.take(i + 1).last() == events@[i as int]);
        if let Some(t) = &events[i].text {
            push_match(out, t.as_str());
            proof {
                let prev = event_texts(events@.take(i as int));
                lemma_non_empty_append(prev, seq![match_text(t@)]);
                assert(prev.push(match_text(t@)) =~= prev + seq![match_text(t@)]);
            }
        }
        i = i + 1;
    }
    assert(events@.take(events@.len() as int) =~= events@);
}

fn push_item_texts(out: &mut Vec<String>, m: &RecallMemory)
    ensures
        strs(final(out)@) == strs(old(out)@) + non_empty(item_texts(*m)),
{
    let ghost base = strs(out@);
    let ghost g = seq![match_text(m.gist@)];
    let ghost c = match &m.compact_memory {
        Some(c) => seq![match_text(c@)],
        None => Seq::<Seq<char>>::empty(),
    };
    let ghost n = match &m.narrative {
        Some(n) => seq![match_text(n@)],
        None => Seq::<Seq<char>>::empty(),
    };
    let ghost f = strs(m.facts@).map_values(|t: Seq<char>| match_text(t));
    push_match(out, m.gist.as_str());
    if let Some(cm) = &m.compact_memory {
        push_match(out, cm.as_str());
    }
    assert(strs(out@) == base + non_empty(g) + non_empty(c));
    if let Some(nv) = &m.narrative {
        push_match(out, nv.as_str());
    }
    assert(strs(out@) == base + non_empty(g) + non_empty(c) + non_empty(n));
    push_all_matches(out, &m.facts);
    proof {
        lemma_non_empty_append(g, c);
        lemma_non_empty_append(g + c, n);
        lemma_non_empty_append(g + c + n, f);
        assert(item_texts(*m) == g + c + n + f);
        assert(strs(out@) =~= base + non_empty(item_texts(*m)));
    }
}

/// The texts a context package already shows, in match form and without
/// empty ones: the core facts' texts, the recent and older session events'
/// texts, and what each recalled archive entry shows.
pub fn visible_memory_texts(
    core_texts: &Vec<String>,
    recent: &Vec<CoreContextEvent>,
    trace: &Vec<CoreContextEvent>,
    archive: &Vec<RecallMemory>,
) -> (r: Vec<String>)
    ensures
        strs(r@) == non_empty(
            strs(core_texts@).map_values(|t: Seq<char>| match_text(t)) + event_texts(recent@) + event_texts(trace@)
                + memory_texts(archive@),
        ),
{
    let mut out: Vec<String> = Vec::new();
    push_all_matches(&mut out, core_texts);
    push_event_texts(&mut out, recent);
    push_event_texts(&mut out, trace);
    let ghost before_items = strs(out@);
    let mut i: usize = 0;
    while i < archive.len()
        invariant
            i <= archive@.len(),
            strs(out@) == before_items + non_empty(memory_texts(archive@.take(i as int))),
        decreases archive@.len() - i,
    {
        push_item_texts(&mut out, &archive[i]);
        proof {
            assert(archive@.take(i + 1).drop_last() =~= archive@.take(i as int));
            assert(archive@.take(i + 1).last() == archive@[i as int]);
            lemma_non_empty_append(memory_texts(archive@.take(i as int)), item_texts(archive@[i as int]));
        }
        i = i + 1;
    }
    proof {
        assert(archive@.take(archive@.len() as int) =~= archive@);
        let a = strs(core_texts@).map_values(|t: Seq<char>| match_text(t));
        let b = event_texts(recent@);
        let c = event_texts(trace@);
        let d = memory_texts(archive@);
        lemma_non_empty_append(a, b);
        lemma_non_empty_append(a + b, c);
        lemma_non_empty_append(a + b + c, d);
        assert(strs(out@) =~= non_empty(a + b + c + d));
    }
    out
}

// ---------------------------------------------------------------- selection

/// The expansion after the first `n` hits: the visible texts, the units
/// taken, and the positions of the hits taken. A hit is taken when its
/// thesis (match form) is not empty, no visible text holds it, and its unit
/// was not taken before; its thesis then becomes visible.
pub open spec fn expansion_upto(
    visible: Seq<Seq<char>>,
    ids: Seq<Seq<char>>,
    theses: Seq<Seq<char>>,
    n: int,
) -> (Seq<Seq<char>>, Seq<Seq<char>>, Seq<int>)
    decreases n,
{
    if n <= 0 {
        (visible, Seq::empty(), Seq::empty())
    } else {
        let (v, seen, picked) = expansion_upto(visible, ids, theses, n - 1);
        let t = match_text(theses[n - 1]);
        if t.len() == 0 || (exists|k: int| 0 <= k < v.len() && has_sub(#[trigger] v[k], t)) || seen.contains(ids[n - 1]) {
            (v, seen, picked)
        } else {
            (v.push(t), seen.push(ids[n - 1]), picked.push(n - 1))
        }
    }
}

fn any_holds(visible: &Vec<String>, t: &str) -> (r: bool)
    ensures
        r == exists|k: int| 0 <= k < visible@.len() && has_sub(#[trigger] strs(visible@)[k], t@),
{
    let mut k: usize = 0;
    while k < visible.len()
        invariant
            k <= visible@.len(),
            forall|j: int| 0 <= j < k ==> !has_sub(#[trigger] strs(visible@)[j], t@),
        decreases visible@.len() - k,
    {
        if contains_substring(visible[k].as_str(), t) {
            assert(has_sub(strs(visible@)[k as int], t@));
            return true;
        }
        k = k + 1;
    }
    false
}

/// Chooses the vector-recalled units that add detail to a context package
/// (see `expansion_upto`), given the texts it already shows: the positions
/// of the hits taken, in order.
pub fn select_expansion_hits(visible: Vec<String>, hit_ids: &Vec<String>, hit_theses: &Vec<String>) -> (r: Vec<usize>)
    requires
        hit_ids@.len() == hit_theses@.len(),
    ensures
        r@.map_values(|p: usize| p as int) == expansion_upto(strs(visible@), strs(hit_ids@), strs(hit_theses@), hit_ids@.len() as int).2,
{
    let ghost v0 = strs(visible@);
    let mut visible = visible;
    let mut seen: Vec<String> = Vec::new();
    let mut picked: Vec<usize> = Vec::new();
    let mut i: usize = 0;
    while i < hit_ids.len()
        invariant
            i <= hit_ids@.len(),
            hit_ids@.len() == hit_theses@.len(),
            (strs(visible@), strs(seen@), picked@.map_values(|p: usize| p as int)) == expansion_upto(
                v0,
                strs(hit_ids@),
                strs(hit_theses@),
                i as int,
            ),
        decreases hit_ids@.len() - i,
    {
        let t = normalize_match_text(hit_theses[i].as_str());
        let skip = is_empty_str(t.as_str()) || any_holds(&visible, t.as_str()) || contains_str(&seen, hit_ids[i].as_str());
        let ghost pv = picked@;
        if !skip {
            let ghost sv = strs(visible@);
            let ghost ss = strs(seen@);
            visible.push(t);
            seen.push(hit_ids[i].clone());
            picked.push(i);
            assert(strs(visible@) =~= sv.push(match_text(strs(hit_theses@)[i as int])));
            assert(strs(seen@) =~= ss.push(strs(hit_ids@)[i as int]));
            assert(picked@.map_values(|p: usize| p as int) =~= pv.map_values(|p: usize| p as int).push(i as int));
        }
        i = i + 1;
    }
    picked
}

/// The note on an expansion that took `added` units.
pub open spec fn expansion_note(added: nat) -> Seq<char> {
    if added == 0 {
        "contextual memory expansion found only already-visible detail."@
    } else {
        "contextual memory expansion added "@ + decimal(added) + " detail memory item(s)."@
    }
}

/// Writes the note on an expansion that took `added` units.
pub fn expansion_note_text(added: usize) -> (r: String)
    ensures
        r@ == expansion_note(added as nat),
{
    proof {
        reveal_strlit("contextual memory expansion found only already-visible detail.");
        reveal_strlit("contextual memory expansion added ");
        reveal_strlit(" detail memory item(s).");
    }
    if added == 0 {
        "contextual memory expansion found only already-visible detail.".to_string()
    } else {
        let mut s = "contextual memory expansion added ".to_string();
        let n = usize_to_decimal(added);
        s.append(n.as_str());
        s.append(" detail memory item(s).");
        s
    }
}

/// Writes the note on an expansion that was skipped for `reason`.
pub fn expansion_skipped_note(reason: &str) -> (r: String)
    ensures
        r@ == "contextual memory expansion skipped: "@ + reason@ + "."@,
{
    let mut s = "contextual memory expansion skipped: ".to_string();
    s.append(reason);
    s.append(".");
    proof {
        reveal_strlit("contextual memory expansion skipped: ");
        reveal_strlit(".");
    }
    s
}

} // verus!
