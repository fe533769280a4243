//! Greedy token budgeting of the layers of a core context package.
//!
//! Each layer is trimmed by walking its items in order of preference and
//! admitting every item whose estimated cost still fits in what is left of
//! the layer's budget.
use vstd::prelude::*;
use crate::text::{char_count, decimal, strs, usize_to_decimal};
use crate::types::{CoreContextEvent, CoreContextTokenBudget};
use crate::prompt::{
    context_event_line, render_context_event_prompt_line, ARCHIVE_MEMORY_PROMPT_LIMIT,
    OLDER_TRACE_MAX_TEXT_CHARS, RECENT_MAX_TEXT_CHARS,
};

verus! {

/// Tokens used once every item of `costs` has been offered, front to back,
/// and admitted when it still fits in `budget`.
pub open spec fn greedy_used(costs: Seq<usize>, budget: nat) -> nat
    decreases costs.len(),
{
    if costs.len() == 0 {
        0
    } else {
        let used = greedy_used(costs.drop_last(), budget);
        if used + costs.last() <= budget {
            (used + costs.last()) as nat
        } else {
            used
        }
    }
}

/// The items admitted by that walk, in their input order.
pub open spec fn greedy_kept<T>(items: Seq<T>, costs: Seq<usize>, budget: nat) -> Seq<T>
    decreases items.len(),
{
    if items.len() == 0 || costs.len() == 0 {
        Seq::empty()
    } else {
        let kept = greedy_kept(items.drop_last(), costs.drop_last(), budget);
        if greedy_used(costs.drop_last(), budget) + costs.last() <= budget {
            kept.push(items.last())
        } else {
            kept
        }
    }
}

/// Sum of the costs.
pub open spec fn cost_sum(costs: Seq<usize>) -> nat
    decreases costs.len(),
{
    if costs.len() == 0 {
        0
    } else {
        cost_sum(costs.drop_last()) + costs.last() as nat
    }
}

/// The greedy walk never spends more than its budget.
pub proof fn lemma_greedy_within_budget(costs: Seq<usize>, budget: nat)
    ensures
        greedy_used(costs, budget) <= budget,
    decreases costs.len(),
{
    if costs.len() > 0 {
        lemma_greedy_within_budget(costs.drop_last(), budget);
    }
}

/// The greedy walk keeps a subsequence of its input: never more items than
/// it was offered, each of them one of the offered items.
pub proof fn lemma_greedy_kept_from_items<T>(items: Seq<T>, costs: Seq<usize>, budget: nat)
    requires
        items.len() == costs.len(),
    ensures
        greedy_kept(items, costs, budget).len() <= items.len(),
        forall|k: int|
            0 <= k < greedy_kept(items, costs, budget).len() ==> items.contains(
                #[trigger] greedy_kept(items, costs, budget)[k],
            ),
    decreases items.len(),
{
    if items.len() > 0 {
        let prev = items.drop_last();
        lemma_greedy_kept_from_items(prev, costs.drop_last(), budget);
        let kept = greedy_kept(items, costs, budget);
        assert forall|k: int| 0 <= k < kept.len() implies items.contains(#[trigger] kept[k]) by {
            let pk = greedy_kept(prev, costs.drop_last(), budget);
            if k < pk.len() {
                assert(prev.contains(pk[k]));
                let j = choose|j: int| 0 <= j < prev.len() && prev[j] == pk[k];
                assert(items[j] == pk[k]);
            } else {
                assert(items[items.len() - 1] == kept[k]);
            }
        }
    }
}

/// When everything fits, nothing is dropped and the whole cost is spent.
pub proof fn lemma_greedy_all_fit<T>(items: Seq<T>, costs: Seq<usize>, budget: nat)
    requires
        items.len() == costs.len(),
        cost_sum(costs) <= budget,
    ensures
        greedy_kept(items, costs, budget) == items,
        greedy_used(costs, budget) == cost_sum(costs),
    decreases items.len(),
{
    if items.len() > 0 {
        lemma_greedy_all_fit(items.drop_last(), costs.drop_last(), budget);
        assert(items.drop_last().push(items.last()) =~= items);
    }
}

/// The positions of the items that the greedy walk admits, in order.
pub open spec fn greedy_positions(costs: Seq<usize>, budget: nat) -> Seq<int>
    decreases costs.len(),
{
    if costs.len() == 0 {
        Seq::empty()
    } else {
        let kept = greedy_positions(costs.drop_last(), budget);
        if greedy_used(costs.drop_last(), budget) + costs.last() <= budget {
            kept.push(costs.len() - 1)
        } else {
            kept
        }
    }
}

/// The greedy walk keeps an order-preserving subsequence of its items, at
/// the positions `greedy_positions`, and the tokens it uses are exactly the
/// sum of the costs of what it keeps.
pub proof fn lemma_greedy_keeps_subsequence<T>(items: Seq<T>, costs: Seq<usize>, budget: nat)
    requires
        items.len() == costs.len(),
    ensures
        greedy_kept(items, costs, budget).len() == greedy_positions(costs, budget).len(),
        forall|a: int|
            0 <= a < greedy_positions(costs, budget).len() ==> 0 <= #[trigger] greedy_positions(
                costs,
                budget,
            )[a] < items.len() && greedy_kept(items, costs, budget)[a] == items[greedy_positions(
                costs,
                budget,
            )[a]],
        forall|a: int, b: int|
            0 <= a < b < greedy_positions(costs, budget).len() ==> #[trigger] greedy_positions(
                costs,
                budget,
            )[a] < #[trigger] greedy_positions(costs, budget)[b],
        greedy_used(costs, budget) == cost_sum(greedy_kept(costs, costs, budget)),
    decreases items.len(),
{
    if items.len() > 0 {
        lemma_greedy_keeps_subsequence(items.drop_last(), costs.drop_last(), budget);
        let pp = greedy_positions(costs.drop_last(), budget);
        let kc = greedy_kept(costs.drop_last(), costs.drop_last(), budget);
        assert forall|a: int| 0 <= a < pp.len() implies pp[a] < items.len() - 1 by {
            assert(0 <= #[trigger] pp[a] < items.drop_last().len());
        }
        if greedy_used(costs.drop_last(), budget) + costs.last() <= budget {
            assert(kc.push(costs.last()).drop_last() =~= kc);
        }
    }
}

/// Keeping the most recent items within a budget keeps an order-preserving
/// subsequence of them, and the tokens it uses are the sum of the kept
/// items' costs: the walk goes from the newest item back.
pub proof fn lemma_recent_keeps_subsequence<T>(items: Seq<T>, costs: Seq<usize>, budget: nat)
    requires
        items.len() == costs.len(),
    ensures
        ({
            let kept = greedy_kept(items.reverse(), costs.reverse(), budget).reverse();
            exists|pos: Seq<int>|
                #![trigger pos.len()]
                pos.len() == kept.len() && (forall|a: int|
                    0 <= a < pos.len() ==> 0 <= #[trigger] pos[a] < items.len() && kept[a]
                        == items[pos[a]]) && (forall|a: int, b: int|
                    0 <= a < b < pos.len() ==> #[trigger] pos[a] < #[trigger] pos[b])
        }),
        greedy_used(costs.reverse(), budget) == cost_sum(
            greedy_kept(costs.reverse(), costs.reverse(), budget),
        ),
{
    let ri = items.reverse();
    let rc = costs.reverse();
    lemma_greedy_keeps_subsequence(ri, rc, budget);
    let p = greedy_positions(rc, budget);
    let k = greedy_kept(ri, rc, budget);
    let kept = k.reverse();
    let pos = Seq::new(p.len(), |a: int| items.len() - 1 - p[p.len() - 1 - a]);
    assert forall|a: int| 0 <= a < pos.len() implies 0 <= #[trigger] pos[a] < items.len() && kept[a]
        == items[pos[a]] by {
        let b = p.len() - 1 - a;
        assert(0 <= p[b] < items.len());
        assert(k[b] == ri[p[b]]);
    }
    assert forall|a: int, b: int| 0 <= a < b < pos.len() implies #[trigger] pos[a] < #[trigger] pos[b] by {
        let x = p.len() - 1 - b;
        let y = p.len() - 1 - a;
        assert(p[x] < p[y]);
    }
    assert(pos.len() == kept.len());
}

proof fn lemma_greedy_step<T>(items: Seq<T>, costs: Seq<usize>, budget: nat, i: int)
    requires
        items.len() == costs.len(),
        0 <= i < items.len(),
    ensures
        greedy_used(costs.take(i + 1), budget) == (if greedy_used(costs.take(i), budget) + costs[i]
            <= budget {
            greedy_used(costs.take(i), budget) + costs[i]
        } else {
            greedy_used(costs.take(i), budget) as int
        }),
        greedy_kept(items.take(i + 1), costs.take(i + 1), budget) == (if greedy_used(
            costs.take(i),
            budget,
        ) + costs[i] <= budget {
            greedy_kept(items.take(i), costs.take(i), budget).push(items[i])
        } else {
            greedy_kept(items.take(i), costs.take(i), budget)
        }),
{
    assert(costs.take(i + 1).drop_last() =~= costs.take(i));
    assert(items.take(i + 1).drop_last() =~= items.take(i));
}

/// The items of `v` in reverse order.
pub fn reversed<T>(v: Vec<T>) -> (r: Vec<T>)
    ensures
        r@ == v@.reverse(),
{
    let ghost orig = v@;
    let mut rest = v;
    let mut out: Vec<T> = Vec::new();
    while rest.len() > 0
        invariant
            rest@ == orig.take(rest@.len() as int),
            rest@.len() <= orig.len(),
            out@ =~= Seq::new(
                (orig.len() - rest@.len()) as nat,
                |k: int| orig[orig.len() - 1 - k],
            ),
        decreases rest.len(),
    {
        let ghost before = rest@;
        let x = rest.pop();
        match x {
            Some(item) => {
                out.push(item);
            },
            None => {},
        }
        assert(rest@ =~= orig.take(rest@.len() as int));
    }
    assert(out@ =~= orig.reverse());
    out
}

/// Walks `items` front to back and keeps each one whose cost still fits in
/// what is left of `budget`. Returns the kept items, the tokens they use and
/// how many items were dropped.
pub fn keep_front_within_budget<T>(items: Vec<T>, costs: &Vec<usize>, budget: usize) -> (r: (
    Vec<T>,
    usize,
    usize,
))
    requires
        items@.len() == costs@.len(),
    ensures
        r.0@ == greedy_kept(items@, costs@, budget as nat),
        r.1 == greedy_used(costs@, budget as nat),
        r.1 <= budget,
        r.2 == items@.len() - r.0@.len(),
{
    let ghost orig = items@;
    let n = items.len();
    let mut rest = reversed(items);
    let mut kept: Vec<T> = Vec::new();
    let mut used: usize = 0;
    let mut i: usize = 0;
    proof {
        assert(orig.take(0) =~= Seq::<T>::empty());
        assert(costs@.take(0) =~= Seq::<usize>::empty());
    }
    while i < n
        invariant
            n == orig.len() == costs@.len(),
            i <= n,
            rest@ =~= orig.subrange(i as int, n as int).reverse(),
            kept@ == greedy_kept(orig.take(i as int), costs@.take(i as int), budget as nat),
            used == greedy_used(costs@.take(i as int), budget as nat),
            used <= budget,
        decreases n - i,
    {
        proof {
            lemma_greedy_step(orig, costs@, budget as nat, i as int);
        }
        let x = rest.pop();
        let cost = costs[i];
        match x {
            Some(item) => {
                assert(item == orig[i as int]);
                if cost <= budget - used {
                    used = used + cost;
                    kept.push(item);
                }
            },
            None => {
                assert(false);
            },
        }
        i = i + 1;
        assert(rest@ =~= orig.subrange(i as int, n as int).reverse());
    }
    proof {
        assert(orig.take(n as int) =~= orig);
        assert(costs@.take(n as int) =~= costs@);
        lemma_greedy_kept_from_items(orig, costs@, budget as nat);
    }
    let dropped = n - kept.len();
    (kept, used, dropped)
}

/// Walks `items` newest (last) first and keeps each one whose cost still
/// fits; the kept items come back in their input order.
pub fn keep_recent_within_budget<T>(items: Vec<T>, costs: &Vec<usize>, budget: usize) -> (r: (
    Vec<T>,
    usize,
    usize,
))
    requires
        items@.len() == costs@.len(),
    ensures
        r.0@ == greedy_kept(items@.reverse(), costs@.reverse(), budget as nat).reverse(),
        r.1 == greedy_used(costs@.reverse(), budget as nat),
        r.1 <= budget,
        r.2 == items@.len() - r.0@.len(),
{
    let ghost orig = items@;
    let mut rcosts: Vec<usize> = Vec::new();
    let mut j: usize = costs.len();
    while j > 0
        invariant
            j <= costs@.len(),
            rcosts@ =~= Seq::new(
                (costs@.len() - j) as nat,
                |k: int| costs@[costs@.len() - 1 - k],
            ),
        decreases j,
    {
        j = j - 1;
        rcosts.push(costs[j]);
    }
    assert(rcosts@ =~= costs@.reverse());
    let ritems = reversed(items);
    let (kept_rev, used, dropped) = keep_front_within_budget(ritems, &rcosts, budget);
    let kept = reversed(kept_rev);
    (kept, used, dropped)
}

// ---------------------------------------------------------------- token estimates

/// Estimated tokens of a text: half its characters, rounded up.
pub open spec fn text_tokens(len: nat) -> nat {
    (len + 1) / 2
}

/// Estimated tokens of a text: its characters divided by two, rounded up.
pub fn estimate_text_tokens(text: &str) -> (r: usize)
    ensures
        r == text_tokens(text@.len()),
{
    let n = char_count(text);
    n / 2 + n % 2
}

/// Estimated tokens of an event's prompt line at a text limit: nothing for
/// an event without a line.
pub open spec fn event_tokens(event: CoreContextEvent, max: nat) -> nat {
    match context_event_line(event, max) {
        Some(line) => text_tokens(line.len()),
        None => 0,
    }
}

/// Estimated tokens of each event's prompt line.
pub open spec fn event_costs(events: Seq<CoreContextEvent>, max: nat) -> Seq<usize> {
    Seq::new(events.len(), |i: int| event_tokens(events[i], max) as usize)
}

fn estimate_event_costs(events: &Vec<CoreContextEvent>, max_text_chars: usize) -> (r: Vec<usize>)
    ensures
        r@ == event_costs(events@, max_text_chars as nat),
        forall|i: int| 0 <= i < r@.len() ==> r@[i] == event_tokens(events@[i], max_text_chars as nat),
{
    let mut out: Vec<usize> = Vec::new();
    let mut i: usize = 0;
    while i < events.len()
        invariant
            i <= events@.len(),
            out@.len() == i,
            forall|k: int| 0 <= k < i ==> out@[k] == event_tokens(events@[k], max_text_chars as nat),
        decreases events@.len() - i,
    {
        let cost = match render_context_event_prompt_line(&events[i], max_text_chars) {
            Some(line) => estimate_text_tokens(line.as_str()),
            None => 0,
        };
        out.push(cost);
        i = i + 1;
    }
    assert(out@ =~= event_costs(events@, max_text_chars as nat));
    out
}

// ---------------------------------------------------------------- layered budget

/// How a context package was trimmed to its token budget.
#[derive(Debug, Clone, PartialEq)]
pub struct CoreContextBudgetReport {
    pub estimator: String,
    pub total_budget_tokens: usize,
    pub current_memory_budget_tokens: usize,
    pub compressed_memory_budget_tokens: usize,
    pub core_budget_tokens: usize,
    pub estimated_total_tokens: usize,
    pub estimated_current_memory_tokens: usize,
    pub estimated_compressed_memory_tokens: usize,
    pub estimated_core_tokens: usize,
    pub estimated_domain_state_tokens: usize,
    pub dropped_session_recent: usize,
    pub dropped_session_trace: usize,
    pub dropped_archive_relevant: usize,
    pub dropped_core_facts: usize,
    pub budget_exceeded: bool,
}

/// The layers of a context package after trimming, with the report and the
/// notes that explain what was dropped.
#[derive(Debug)]
pub struct BudgetedContextPackage<F, R> {
    pub core_facts: Vec<F>,
    pub session_recent: Vec<CoreContextEvent>,
    pub session_trace: Vec<CoreContextEvent>,
    pub archive_relevant: Vec<R>,
    pub report: CoreContextBudgetReport,
    pub notes: Vec<String>,
}

/// `a + b`, or the largest `usize` when that does not fit.
pub open spec fn sat_add(a: nat, b: nat) -> nat {
    if a + b <= usize::MAX {
        a + b
    } else {
        usize::MAX as nat
    }
}

/// `a - b`, or zero when `b` exceeds `a`.
pub open spec fn sat_sub(a: nat, b: nat) -> nat {
    if a >= b {
        (a - b) as nat
    } else {
        0
    }
}

fn saturating_add(a: usize, b: usize) -> (r: usize)
    ensures
        r == sat_add(a as nat, b as nat),
{
    if a <= usize::MAX - b {
        a + b
    } else {
        usize::MAX
    }
}

/// The notes that explain a trimming, in order.
pub open spec fn budget_notes(
    domain_tokens: nat,
    current_budget: nat,
    dropped_recent: nat,
    dropped_trace: nat,
    dropped_archive: nat,
    dropped_core: nat,
    exceeded: bool,
) -> Seq<Seq<char>> {
    (if domain_tokens > current_budget {
        seq![
            "domain_state alone exceeds current-memory budget: estimated "@ + decimal(domain_tokens)
                + " tokens > budget "@ + decimal(current_budget) + "."@,
        ]
    } else {
        Seq::empty()
    }) + (if dropped_recent > 0 {
        seq![
            "token budget dropped "@ + decimal(dropped_recent)
                + " session_recent event(s); newest events were kept."@,
        ]
    } else {
        Seq::empty()
    }) + (if dropped_trace > 0 {
        seq![
            "token budget dropped "@ + decimal(dropped_trace)
                + " session_trace event(s); newest events were kept."@,
        ]
    } else {
        Seq::empty()
    }) + (if dropped_archive > 0 {
        seq![
            "token budget dropped "@ + decimal(dropped_archive)
                + " archive_relevant item(s); highest-ranked recall items were kept."@,
        ]
    } else {
        Seq::empty()
    }) + (if dropped_core > 0 {
        seq![
            "token budget dropped "@ + decimal(dropped_core)
                + " core fact(s); highest-confidence facts were kept."@,
        ]
    } else {
        Seq::empty()
    }) + (if exceeded {
        seq![
            "token budget is still exceeded after trimming; inspect domain_state/current turn size."@,
        ]
    } else {
        Seq::empty()
    })
}

fn push_count_note(notes: &mut Vec<String>, head: &str, n: usize, rest: &str)
    ensures
        strs(final(notes)@) == strs(old(notes)@).push(head@ + decimal(n as nat) + rest@),
{
    let mut note = String::new();
    note.append(head);
    let digits = usize_to_decimal(n);
    note.append(digits.as_str());
    note.append(rest);
    let ghost before = notes@;
    notes.push(note);
    assert(strs(notes@) =~= strs(before).push(note@));
}


/// Long-memory items that fit: the first ones up to the prompt limit, then
/// front to back within the compressed-memory budget.
pub open spec fn shown_count(n: nat) -> nat {
    if n <= ARCHIVE_MEMORY_PROMPT_LIMIT {
        n
    } else {
        ARCHIVE_MEMORY_PROMPT_LIMIT as nat
    }
}

fn trim_long_memory<R>(items: Vec<R>, costs: &Vec<usize>, budget: usize) -> (r: (Vec<R>, usize))
    requires
        items@.len() == costs@.len(),
    ensures
        r.0@ == greedy_kept(
            items@.take(shown_count(items@.len()) as int),
            costs@.take(shown_count(items@.len()) as int),
            budget as nat,
        ),
        r.1 == greedy_used(costs@.take(shown_count(items@.len()) as int), budget as nat),
        r.1 <= budget,
        r.0@.len() <= shown_count(items@.len()),
{
    let ghost orig = items@;
    let n = items.len();
    let mut shown = items;
    if n > ARCHIVE_MEMORY_PROMPT_LIMIT {
        shown.truncate(ARCHIVE_MEMORY_PROMPT_LIMIT);
    }
    assert(shown@ =~= orig.take(shown_count(n as nat) as int));
    let mut shown_costs: Vec<usize> = Vec::new();
    let mut k: usize = 0;
    while k < shown.len()
        invariant
            k <= shown@.len() <= costs@.len(),
            shown_costs@ =~= costs@.take(k as int),
        decreases shown@.len() - k,
    {
        shown_costs.push(costs[k]);
        k = k + 1;
    }
    let (kept, used, _dropped) = keep_front_within_budget(shown, &shown_costs, budget);
    (kept, used)
}

fn render_budget_notes(
    domain_tokens: usize,
    current_budget: usize,
    dropped_recent: usize,
    dropped_trace: usize,
    dropped_archive: usize,
    dropped_core: usize,
    exceeded: bool,
) -> (r: Vec<String>)
    ensures
        strs(r@) == budget_notes(
            domain_tokens as nat,
            current_budget as nat,
            dropped_recent as nat,
            dropped_trace as nat,
            dropped_archive as nat,
            dropped_core as nat,
            exceeded,
        ),
{
    let mut notes: Vec<String> = Vec::new();
    if domain_tokens > current_budget {
        let mut note = String::new();
        note.append("domain_state alone exceeds current-memory budget: estimated ");
        let d = usize_to_decimal(domain_tokens);
        note.append(d.as_str());
        note.append(" tokens > budget ");
        let b = usize_to_decimal(current_budget);
        note.append(b.as_str());
        note.append(".");
        notes.push(note);
        assert(strs(notes@) =~= seq![note@]);
    }
    let ghost n1 = strs(notes@);
    if dropped_recent > 0 {
        push_count_note(
            &mut notes,
            "token budget dropped ",
            dropped_recent,
            " session_recent event(s); newest events were kept.",
        );
    }
    let ghost n2 = strs(notes@);
    if dropped_trace > 0 {
        push_count_note(
            &mut notes,
            "token budget dropped ",
            dropped_trace,
            " session_trace event(s); newest events were kept.",
        );
    }
    let ghost n3 = strs(notes@);
    if dropped_archive > 0 {
        push_count_note(
            &mut notes,
            "token budget dropped ",
            dropped_archive,
            " archive_relevant item(s); highest-ranked recall items were kept.",
        );
    }
    let ghost n4 = strs(notes@);
    if dropped_core > 0 {
        push_count_note(
            &mut notes,
            "token budget dropped ",
            dropped_core,
            " core fact(s); highest-confidence facts were kept.",
        );
    }
    let ghost n5 = strs(notes@);
    if exceeded {
        let ghost before = notes@;
        let note = "token budget is still exceeded after trimming; inspect domain_state/current turn size.".to_string();
        notes.push(note);
        assert(strs(notes@) =~= strs(before).push(note@));
    }
    assert(strs(notes@) =~= budget_notes(
        domain_tokens as nat,
        current_budget as nat,
        dropped_recent as nat,
        dropped_trace as nat,
        dropped_archive as nat,
        dropped_core as nat,
        exceeded,
    ));
    notes
}

/// The current-memory budget left for dialogue once the domain state is
/// counted.
pub open spec fn dialogue_budget(budget: CoreContextTokenBudget, domain_tokens: nat) -> nat {
    sat_sub(budget.current_memory_tokens as nat, domain_tokens)
}

/// What trimming a package's layers to `budget` gives, the domain state
/// counting `domain_state_tokens`.
pub open spec fn budget_outcome<F, R>(
    r: BudgetedContextPackage<F, R>,
    core_facts: Seq<F>,
    core_costs: Seq<usize>,
    session_recent: Seq<CoreContextEvent>,
    session_trace: Seq<CoreContextEvent>,
    archive_relevant: Seq<R>,
    archive_costs: Seq<usize>,
    domain_state_tokens: nat,
    budget: CoreContextTokenBudget,
) -> bool {
    let recent_costs = event_costs(session_recent, RECENT_MAX_TEXT_CHARS as nat);
    let trace_costs = event_costs(session_trace, OLDER_TRACE_MAX_TEXT_CHARS as nat);
    let dialogue = dialogue_budget(budget, domain_state_tokens);
    let recent_used = greedy_used(recent_costs.reverse(), dialogue);
    let trace_budget = sat_sub(dialogue, recent_used);
    let n_archive = archive_relevant.len();
    let shown = shown_count(n_archive);
    let archive_shown = archive_relevant.take(shown as int);
    let archive_shown_costs = archive_costs.take(shown as int);
    &&& r.core_facts@ == greedy_kept(core_facts, core_costs, budget.core_tokens as nat)
    &&& r.report.estimated_core_tokens == greedy_used(core_costs, budget.core_tokens as nat)
    &&& r.session_recent@ == greedy_kept(session_recent.reverse(), recent_costs.reverse(), dialogue).reverse()
    &&& r.session_trace@ == greedy_kept(session_trace.reverse(), trace_costs.reverse(), trace_budget).reverse()
    &&& r.archive_relevant@ == greedy_kept(archive_shown, archive_shown_costs, budget.compressed_memory_tokens as nat)
    &&& r.report.estimated_compressed_memory_tokens == greedy_used(archive_shown_costs, budget.compressed_memory_tokens as nat)
    &&& r.report.estimated_current_memory_tokens == sat_add(
        domain_state_tokens,
        (recent_used + greedy_used(trace_costs.reverse(), trace_budget)) as nat,
    )
    &&& r.report.estimated_total_tokens == sat_add(
        sat_add(
            r.report.estimated_current_memory_tokens as nat,
            r.report.estimated_compressed_memory_tokens as nat,
        ),
        r.report.estimated_core_tokens as nat,
    )
    &&& r.report.estimated_domain_state_tokens == domain_state_tokens
    &&& r.report.dropped_core_facts == core_facts.len() - r.core_facts@.len()
    &&& r.report.dropped_session_recent == session_recent.len() - r.session_recent@.len()
    &&& r.report.dropped_session_trace == session_trace.len() - r.session_trace@.len()
    &&& r.report.dropped_archive_relevant == n_archive - r.archive_relevant@.len()
    &&& r.report.budget_exceeded == (r.report.estimated_total_tokens > budget.total_tokens
        || r.report.estimated_current_memory_tokens > budget.current_memory_tokens
        || r.report.estimated_compressed_memory_tokens > budget.compressed_memory_tokens
        || r.report.estimated_core_tokens > budget.core_tokens)
    &&& r.report.estimator@ == "unicode_chars_div_2_ceil_json_v1"@
    &&& r.report.total_budget_tokens == budget.total_tokens
    &&& r.report.current_memory_budget_tokens == budget.current_memory_tokens
    &&& r.report.compressed_memory_budget_tokens == budget.compressed_memory_tokens
    &&& r.report.core_budget_tokens == budget.core_tokens
    &&& strs(r.notes@) == budget_notes(
        domain_state_tokens,
        budget.current_memory_tokens as nat,
        r.report.dropped_session_recent as nat,
        r.report.dropped_session_trace as nat,
        r.report.dropped_archive_relevant as nat,
        r.report.dropped_core_facts as nat,
        r.report.budget_exceeded,
    )
}

/// Trims each layer of a context package to its share of the budget:
/// core facts and long-memory items front to back (most important first),
/// dialogue newest first, long memory cut to its prompt limit before that.
/// `core_costs` and `archive_costs` give each item's estimated tokens;
/// dialogue costs are the estimated tokens of each event's prompt line.
pub fn budget_context_layers<F, R>(
    core_facts: Vec<F>,
    core_costs: &Vec<usize>,
    session_recent: Vec<CoreContextEvent>,
    session_trace: Vec<CoreContextEvent>,
    archive_relevant: Vec<R>,
    archive_costs: &Vec<usize>,
    domain_state_tokens: usize,
    budget: CoreContextTokenBudget,
) -> (r: BudgetedContextPackage<F, R>)
    requires
        core_facts@.len() == core_costs@.len(),
        archive_relevant@.len() == archive_costs@.len(),
    ensures
        budget_outcome(
            r,
            core_facts@,
            core_costs@,
            session_recent@,
            session_trace@,
            archive_relevant@,
            archive_costs@,
            domain_state_tokens as nat,
            budget,
        ),
{
    let (core_kept, core_used, dropped_core) = keep_front_within_budget(
        core_facts,
        core_costs,
        budget.core_tokens,
    );

    let dialogue: usize = if budget.current_memory_tokens >= domain_state_tokens {
        budget.current_memory_tokens - domain_state_tokens
    } else {
        0
    };
    let recent_costs = estimate_event_costs(&session_recent, RECENT_MAX_TEXT_CHARS);
    let (recent_kept, recent_used, dropped_recent) = keep_recent_within_budget(
        session_recent,
        &recent_costs,
        dialogue,
    );
    let trace_budget: usize = dialogue - recent_used;
    let trace_costs = estimate_event_costs(&session_trace, OLDER_TRACE_MAX_TEXT_CHARS);
    let (trace_kept, trace_used, dropped_trace) = keep_recent_within_budget(
        session_trace,
        &trace_costs,
        trace_budget,
    );

    let n_archive = archive_relevant.len();
    let (archive_kept, archive_used) = trim_long_memory(
        archive_relevant,
        archive_costs,
        budget.compressed_memory_tokens,
    );
    let dropped_archive = n_archive - archive_kept.len();

    let current_used = saturating_add(domain_state_tokens, recent_used + trace_used);
    let total = saturating_add(saturating_add(current_used, archive_used), core_used);
    let exceeded = total > budget.total_tokens || current_used > budget.current_memory_tokens
        || archive_used > budget.compressed_memory_tokens || core_used > budget.core_tokens;

    let notes = render_budget_notes(
        domain_state_tokens,
        budget.current_memory_tokens,
        dropped_recent,
        dropped_trace,
        dropped_archive,
        dropped_core,
        exceeded,
    );

    BudgetedContextPackage {
        core_facts: core_kept,
        session_recent: recent_kept,
        session_trace: trace_kept,
        archive_relevant: archive_kept,
        report: CoreContextBudgetReport {
            estimator: "unicode_chars_div_2_ceil_json_v1".to_string(),
            total_budget_tokens: budget.total_tokens,
            current_memory_budget_tokens: budget.current_memory_tokens,
            compressed_memory_budget_tokens: budget.compressed_memory_tokens,
            core_budget_tokens: budget.core_tokens,
            estimated_total_tokens: total,
            estimated_current_memory_tokens: current_used,
            estimated_compressed_memory_tokens: archive_used,
            estimated_core_tokens: core_used,
            estimated_domain_state_tokens: domain_state_tokens,
            dropped_session_recent: dropped_recent,
            dropped_session_trace: dropped_trace,
            dropped_archive_relevant: dropped_archive,
            dropped_core_facts: dropped_core,
            budget_exceeded: exceeded,
        },
        notes,
    }
}

// ---------------------------------------------------------------- domain state

#[verifier::external_type_specification]
#[verifier::external_body]
pub struct ExJsonValue(serde_json::Value);

/// What `serde_json::to_string` writes for a JSON value when it succeeds:
/// its compact JSON text. It depends on the value alone.
pub uninterp spec fn json_text(value: serde_json::Value) -> Seq<char>;

/// `serde_json::to_string` of a JSON value: its compact text. For a `Value`
/// it does not fail: the `Serialize` impl of `Value` raises no error of its
/// own, its map keys are strings, non-finite numbers are written as `null`,
/// and the only other errors are those of writing into a `Vec<u8>`, which
/// has none.
#[verifier::external_body]
fn json_to_string(value: &serde_json::Value) -> (r: Option<String>)
    ensures
        r is Some,
        r matches Some(text) ==> text@ == json_text(*value),
{
    serde_json::to_string(value).ok()
}

/// Estimated tokens of a JSON value's compact text.
fn estimate_json_tokens(value: &serde_json::Value) -> (r: usize)
    ensures
        r == text_tokens(json_text(*value).len()),
{
    match json_to_string(value) {
        Some(text) => estimate_text_tokens(text.as_str()),
        None => 0,
    }
}

/// Trims a context package to its token budget, counting the host's domain
/// state by the estimated tokens of its JSON text; everything else follows
/// `budget_context_layers` with that count.
pub fn apply_context_token_budget<F, R>(
    core_facts: Vec<F>,
    core_costs: &Vec<usize>,
    session_recent: Vec<CoreContextEvent>,
    session_trace: Vec<CoreContextEvent>,
    archive_relevant: Vec<R>,
    archive_costs: &Vec<usize>,
    domain_state: &serde_json::Value,
    budget: CoreContextTokenBudget,
) -> (r: BudgetedContextPackage<F, R>)
    requires
        core_facts@.len() == core_costs@.len(),
        archive_relevant@.len() == archive_costs@.len(),
    ensures
        budget_outcome(
            r,
            core_facts@,
            core_costs@,
            session_recent@,
            session_trace@,
            archive_relevant@,
            archive_costs@,
            r.report.estimated_domain_state_tokens as nat,
            budget,
        ),
        r.report.estimated_domain_state_tokens == text_tokens(json_text(*domain_state).len()),
{
    let domain_tokens = estimate_json_tokens(domain_state);
    budget_context_layers(
        core_facts,
        core_costs,
        session_recent,
        session_trace,
        archive_relevant,
        archive_costs,
        domain_tokens,
        budget,
    )
}

/// The long memory of a budgeted package holds at most five items, all of
/// them among the five best ranked recalled items: whatever the budget, any
/// item past the fifth is dropped and counted as dropped.
pub proof fn lemma_long_memory_holds_at_most_five<F, R>(
    r: BudgetedContextPackage<F, R>,
    core_facts: Seq<F>,
    core_costs: Seq<usize>,
    session_recent: Seq<CoreContextEvent>,
    session_trace: Seq<CoreContextEvent>,
    archive_relevant: Seq<R>,
    archive_costs: Seq<usize>,
    domain_state_tokens: nat,
    budget: CoreContextTokenBudget,
)
    requires
        archive_relevant.len() == archive_costs.len(),
        budget_outcome(
            r,
            core_facts,
            core_costs,
            session_recent,
            session_trace,
            archive_relevant,
            archive_costs,
            domain_state_tokens,
            budget,
        ),
    ensures
        r.archive_relevant@.len() <= 5,
        forall|k: int|
            0 <= k < r.archive_relevant@.len() ==> archive_relevant.take(
                if archive_relevant.len() < 5 { archive_relevant.len() as int } else { 5 },
            ).contains(#[trigger] r.archive_relevant@[k]),
        r.report.dropped_archive_relevant == archive_relevant.len() - r.archive_relevant@.len(),
        archive_relevant.len() > 5 ==> r.report.dropped_archive_relevant >= archive_relevant.len() - 5,
{
    let n = archive_relevant.len();
    let shown = shown_count(n);
    let items = archive_relevant.take(shown as int);
    let costs = archive_costs.take(shown as int);
    lemma_greedy_kept_from_items(items, costs, budget.compressed_memory_tokens as nat);
}

} // verus!
