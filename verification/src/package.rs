//! The assembly of a core context package from its read parts: the Core
//! Store facts when they were asked for, the contextual expansion ahead of
//! the recalled archive items, the token budget, and the notes in the
//! order the package gives them.
use vstd::prelude::*;
use crate::budget::{apply_context_token_budget, budget_outcome, json_text, text_tokens, BudgetedContextPackage};
use crate::context::{future_count, future_note, future_timestamps_note};
use crate::contextrequest::{empty_core_note, empty_core_note_spec};
use crate::text::{opt_view, strs};
use crate::types::{CoreContextEvent, CoreContextTokenBudget};

verus! {

/// The timestamps of an archive item's end, when it has one, in order.
pub open spec fn item_ends<X>(items: Seq<(X, Option<String>)>) -> Seq<Seq<char>>
    decreases items.len(),
{
    if items.len() == 0 {
        Seq::empty()
    } else {
        let prev = item_ends(items.drop_last());
        match items.last().1 {
            Some(e) => prev.push(e@),
            None => prev,
        }
    }
}

/// The timestamps of events, in order.
pub open spec fn event_times(events: Seq<CoreContextEvent>) -> Seq<Seq<char>> {
    events.map_values(|e: CoreContextEvent| e.timestamp@)
}

/// The timestamps a package shows: the ends of its archive items, then the
/// times of its recent and of its older dialogue.
pub open spec fn shown_times<X>(
    archive: Seq<(X, Option<String>)>,
    recent: Seq<CoreContextEvent>,
    trace: Seq<CoreContextEvent>,
) -> Seq<Seq<char>> {
    item_ends(archive) + event_times(recent) + event_times(trace)
}

/// The notes of a package, in order: the empty Core Store note, the notes
/// of recall, of reading the Core Store and of the expansion, those of the
/// budget, and the note on timestamps in the future.
pub open spec fn package_notes(
    include_core: bool,
    core_fact_count: nat,
    recall_notes: Seq<Seq<char>>,
    core_read_notes: Seq<Seq<char>>,
    expansion_notes: Seq<Seq<char>>,
    budget_notes: Seq<Seq<char>>,
    future: Option<Seq<char>>,
) -> Seq<Seq<char>> {
    (match empty_core_note_spec(include_core, core_fact_count) {
        Some(n) => seq![n],
        None => Seq::empty(),
    }) + recall_notes + core_read_notes + expansion_notes + budget_notes + (match future {
        Some(n) => seq![n],
        None => Seq::empty(),
    })
}

fn append_all(target: &mut Vec<String>, more: Vec<String>)
    ensures
        strs(final(target)@) == strs(old(target)@) + strs(more@),
{
    let ghost start = strs(target@);
    let ghost added = strs(more@);
    let mut i: usize = 0;
    while i < more.len()
        invariant
            added == strs(more@),
            i <= more@.len(),
            strs(target@) == start + added.take(i as int),
        decreases more@.len() - i,
    {
        let ghost before = strs(target@);
        let t = more[i].clone();
        target.push(t);
        assert(strs(target@) =~= before.push(added[i as int]));
        assert(added.take(i + 1) =~= added.take(i as int).push(added[i as int]));
        i = i + 1;
    }
    assert(added.take(more@.len() as int) =~= added);
}

fn collect_shown_times<X>(
    archive: &Vec<(X, Option<String>)>,
    recent: &Vec<CoreContextEvent>,
    trace: &Vec<CoreContextEvent>,
) -> (r: Vec<String>)
    ensures
        strs(r@) == shown_times(archive@, recent@, trace@),
{
    let mut out: Vec<String> = Vec::new();
    let mut i: usize = 0;
    while i < archive.len()
        invariant
            i <= archive@.len(),
            strs(out@) == item_ends(archive@.take(i as int)),
        decreases archive@.len() - i,
    {
        assert(archive@.take(i + 1).drop_last() =~= archive@.take(i as int));
        let ghost before = strs(out@);
        match &archive[i].1 {
            Some(e) => {
                out.push(e.clone());
                assert(strs(out@) =~= before.push(e@));
            },
            None => {},
        }
        i = i + 1;
    }
    assert(archive@.take(archive@.len() as int) =~= archive@);
    let ghost ends = strs(out@);
    let mut j: usize = 0;
    while j < recent.len()
        invariant
            j <= recent@.len(),
            strs(out@) == ends + event_times(recent@.take(j as int)),
        decreases recent@.len() - j,
    {
        let ghost before = strs(out@);
        out.push(recent[j].timestamp.clone());
        assert(strs(out@) =~= before.push(recent@[j as int].timestamp@));
        assert(event_times(recent@.take(j + 1)) =~= event_times(recent@.take(j as int)).push(
            recent@[j as int].timestamp@,
        ));
        j = j + 1;
    }
    assert(recent@.take(recent@.len() as int) =~= recent@);
    let ghost with_recent = strs(out@);
    let mut k: usize = 0;
    while k < trace.len()
        invariant
            k <= trace@.len(),
            strs(out@) == with_recent + event_times(trace@.take(k as int)),
        decreases trace@.len() - k,
    {
        let ghost before = strs(out@);
        out.push(trace[k].timestamp.clone());
        assert(strs(out@) =~= before.push(trace@[k as int].timestamp@));
        assert(event_times(trace@.take(k + 1)) =~= event_times(trace@.take(k as int)).push(
            trace@[k as int].timestamp@,
        ));
        k = k + 1;
    }
    assert(trace@.take(trace@.len() as int) =~= trace@);
    assert(strs(out@) =~= shown_times(archive@, recent@, trace@));
    out
}

/// Assembles a core context package from its parts: the Core Store facts
/// only when `include_core`, the expansion items ahead of the recalled
/// archive items (each item with the end of its time range), trimmed to the
/// token budget. Returns the budgeted layers, whose own notes are those of
/// the budget, and the notes of the whole package in order.
pub fn assemble_core_context<F, X>(
    include_core: bool,
    core_facts: Vec<F>,
    core_costs: &Vec<usize>,
    session_recent: Vec<CoreContextEvent>,
    session_trace: Vec<CoreContextEvent>,
    expansion: Vec<(X, Option<String>)>,
    expansion_costs: &Vec<usize>,
    archive: Vec<(X, Option<String>)>,
    archive_costs: &Vec<usize>,
    recall_notes: Vec<String>,
    core_read_notes: Vec<String>,
    expansion_notes: Vec<String>,
    domain_state: &serde_json::Value,
    budget: CoreContextTokenBudget,
    created_at: &str,
) -> (r: (BudgetedContextPackage<F, (X, Option<String>)>, Vec<String>))
    requires
        core_facts@.len() == core_costs@.len(),
        expansion@.len() == expansion_costs@.len(),
        archive@.len() == archive_costs@.len(),
    ensures
        budget_outcome(
            r.0,
            if include_core { core_facts@ } else { Seq::empty() },
            if include_core { core_costs@ } else { Seq::empty() },
            session_recent@,
            session_trace@,
            expansion@ + archive@,
            expansion_costs@ + archive_costs@,
            text_tokens(json_text(*domain_state).len()),
            budget,
        ),
        strs(r.1@) == package_notes(
            include_core,
            (if include_core { core_facts@.len() } else { 0 }) as nat,
            strs(recall_notes@),
            strs(core_read_notes@),
            strs(expansion_notes@),
            strs(r.0.notes@),
            future_note(
                future_count(
                    shown_times(r.0.archive_relevant@, r.0.session_recent@, r.0.session_trace@),
                    created_at@,
                ),
            ),
        ),
{
    let (facts, costs) = if include_core {
        let mut c: Vec<usize> = Vec::new();
        let mut i: usize = 0;
        while i < core_costs.len()
            invariant
                i <= core_costs@.len(),
                c@ == core_costs@.take(i as int),
            decreases core_costs@.len() - i,
        {
            c.push(core_costs[i]);
            assert(core_costs@.take(i + 1) =~= core_costs@.take(i as int).push(core_costs@[i as int]));
            i = i + 1;
        }
        assert(core_costs@.take(core_costs@.len() as int) =~= core_costs@);
        (core_facts, c)
    } else {
        (Vec::new(), Vec::new())
    };
    let fact_count = facts.len();
    let mut notes: Vec<String> = Vec::new();
    let empty_note = empty_core_note(include_core, fact_count);
    match empty_note {
        Some(n) => {
            notes.push(n);
        },
        None => {},
    }
    let ghost first = strs(notes@);
    assert(first =~= (match empty_core_note_spec(include_core, fact_count as nat) {
        Some(n) => seq![n],
        None => Seq::<Seq<char>>::empty(),
    }));
    append_all(&mut notes, recall_notes);
    append_all(&mut notes, core_read_notes);
    append_all(&mut notes, expansion_notes);
    let mut items = expansion;
    let mut rest = archive;
    items.append(&mut rest);
    let mut item_costs: Vec<usize> = Vec::new();
    let mut i: usize = 0;
    while i < expansion_costs.len()
        invariant
            i <= expansion_costs@.len(),
            item_costs@ == expansion_costs@.take(i as int),
        decreases expansion_costs@.len() - i,
    {
        item_costs.push(expansion_costs[i]);
        assert(expansion_costs@.take(i + 1) =~= expansion_costs@.take(i as int).push(expansion_costs@[i as int]));
        i = i + 1;
    }
    assert(expansion_costs@.take(expansion_costs@.len() as int) =~= expansion_costs@);
    let mut j: usize = 0;
    while j < archive_costs.len()
        invariant
            j <= archive_costs@.len(),
            item_costs@ == expansion_costs@ + archive_costs@.take(j as int),
        decreases archive_costs@.len() - j,
    {
        item_costs.push(archive_costs[j]);
        assert(archive_costs@.take(j + 1) =~= archive_costs@.take(j as int).push(archive_costs@[j as int]));
        j = j + 1;
    }
    assert(archive_costs@.take(archive_costs@.len() as int) =~= archive_costs@);
    let budgeted = apply_context_token_budget(
        facts,
        &costs,
        session_recent,
        session_trace,
        items,
        &item_costs,
        domain_state,
        budget,
    );
    let copied = copy_strings(&budgeted.notes);
    append_all(&mut notes, copied);
    let times = collect_shown_times(&budgeted.archive_relevant, &budgeted.session_recent, &budgeted.session_trace);
    let future = future_timestamps_note(&times, created_at);
    match future {
        Some(n) => {
            let ghost before = strs(notes@);
            notes.push(n);
            assert(strs(notes@) =~= before.push(n@));
        },
        None => {},
    }
    (budgeted, notes)
}

fn copy_strings(v: &Vec<String>) -> (r: Vec<String>)
    ensures
        strs(r@) == strs(v@),
{
    let mut out: Vec<String> = Vec::new();
    let mut i: usize = 0;
    while i < v.len()
        invariant
            i <= v@.len(),
            strs(out@) == strs(v@).take(i as int),
        decreases v@.len() - i,
    {
        let t = v[i].clone();
        let ghost before = strs(out@);
        out.push(t);
        assert(strs(out@) =~= before.push(strs(v@)[i as int]));
        assert(strs(v@).take(i + 1) =~= strs(v@).take(i as int).push(strs(v@)[i as int]));
        i = i + 1;
    }
    assert(strs(v@).take(v@.len() as int) =~= strs(v@));
    out
}

} // verus!
