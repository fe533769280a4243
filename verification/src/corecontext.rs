//! The core facts a context package shows: the visible facts of a scope,
//! listed by status, confidence, category and identifier, and reordered by
//! their relevance to a query.

use vstd::prelude::*;

use crate::corestore::{CoreFact, CoreStoreCategory};
use crate::ordering::{
    float_order_key, index_before, key_before, key_view, lists_positions, sorted_by_keys,
    stable_order, total_order_key, KeyPart,
};
use crate::status::{core_context_status_rank, core_fact_visible_in_context, status_rank, visible_in_context};
use crate::strset::str_eq;
use crate::text::{match_text, normalize_opt_seq, normalize_optional_string, opt_view, strs};
use crate::tokens::{
    core_fact_query_score, core_query_tokens, core_tokens_seq, lemma_core_tokens_within_chars, query_points,
    lemma_tag_match_scores_higher, tag_holds,
};
use crate::text::char_count;
use crate::types::{CoreFactStatus, F64Bits};

verus! {

/// A core fact as a context package lists it.
#[derive(Debug)]
pub struct CoreContextFact {
    pub category: String,
    pub core_fact_id: String,
    pub scope: Option<String>,
    pub text: String,
    pub status: CoreFactStatus,
    pub confidence: F64Bits,
    pub tags: Vec<String>,
}

/// `(category, id, scope, text, status, confidence bits, tags)` of a listed
/// fact.
pub type ContextFactView = (
    Seq<char>,
    Seq<char>,
    Option<Seq<char>>,
    Seq<char>,
    CoreFactStatus,
    u64,
    Seq<Seq<char>>,
);

pub open spec fn context_fact_view(c: CoreContextFact) -> ContextFactView {
    (c.category@, c.core_fact_id@, opt_view(c.scope), c.text@, c.status, c.confidence.bits, strs(c.tags@))
}

pub open spec fn context_fact_views(v: Seq<CoreContextFact>) -> Seq<ContextFactView> {
    v.map_values(|c: CoreContextFact| context_fact_view(c))
}

/// A stored fact of `category` as a context package lists it.
pub open spec fn fact_in_context(category: Seq<char>, f: CoreFact) -> ContextFactView {
    (category, f.core_fact_id@, opt_view(f.scope), f.text@, f.status, f.confidence.bits, strs(f.tags@))
}

/// The facts of one category that a context for `scope` shows: visible
/// status and exactly that scope.
pub open spec fn visible_in(category: Seq<char>, facts: Seq<CoreFact>, scope: Option<Seq<char>>) -> Seq<ContextFactView>
    decreases facts.len(),
{
    if facts.len() == 0 {
        Seq::empty()
    } else {
        let prev = visible_in(category, facts.drop_last(), scope);
        let f = facts.last();
        if visible_in_context(f.status) && opt_view(f.scope) == scope {
            prev.push(fact_in_context(category, f))
        } else {
            prev
        }
    }
}

/// The facts of every category that a context for `scope` shows, category
/// after category.
pub open spec fn visible_facts(categories: Seq<CoreStoreCategory>, scope: Option<Seq<char>>) -> Seq<ContextFactView>
    decreases categories.len(),
{
    if categories.len() == 0 {
        Seq::empty()
    } else {
        visible_facts(categories.drop_last(), scope) + visible_in(
            categories.last().category@,
            categories.last().facts@,
            scope,
        )
    }
}

/// Every fact a context shows has a visible status and the requested scope:
/// facts that are deprecated, contradicted or waiting for review, and facts
/// of other scopes, never reach a context package.
pub proof fn lemma_context_shows_only_visible(categories: Seq<CoreStoreCategory>, scope: Option<Seq<char>>)
    ensures
        forall|k: int| 0 <= k < visible_facts(categories, scope).len() ==> visible_in_context(
            (#[trigger] visible_facts(categories, scope)[k]).4,
        ) && visible_facts(categories, scope)[k].2 == scope,
    decreases categories.len(),
{
    if categories.len() > 0 {
        lemma_context_shows_only_visible(categories.drop_last(), scope);
        lemma_visible_in_shows_only_visible(categories.last().category@, categories.last().facts@, scope);
        let prev = visible_facts(categories.drop_last(), scope);
        let tail = visible_in(categories.last().category@, categories.last().facts@, scope);
        assert forall|k: int| 0 <= k < visible_facts(categories, scope).len() implies visible_in_context(
            (#[trigger] visible_facts(categories, scope)[k]).4,
        ) && visible_facts(categories, scope)[k].2 == scope by {
            if k < prev.len() {
                assert(visible_facts(categories, scope)[k] == prev[k]);
            } else {
                assert(visible_facts(categories, scope)[k] == tail[k - prev.len()]);
            }
        }
    }
}

proof fn lemma_visible_in_shows_only_visible(category: Seq<char>, facts: Seq<CoreFact>, scope: Option<Seq<char>>)
    ensures
        forall|k: int| 0 <= k < visible_in(category, facts, scope).len() ==> visible_in_context(
            (#[trigger] visible_in(category, facts, scope)[k]).4,
        ) && visible_in(category, facts, scope)[k].2 == scope,
    decreases facts.len(),
{
    if facts.len() > 0 {
        lemma_visible_in_shows_only_visible(category, facts.drop_last(), scope);
    }
}

/// The context order: status (active, contested, ...), higher confidence (in
/// `f64::total_cmp` order), category, identifier.
pub open spec fn context_key(v: ContextFactView) -> Seq<(int, int, Seq<char>)> {
    seq![
        (0int, status_rank(v.4) as int, Seq::<char>::empty()),
        (1int, total_order_key(v.5) as int, Seq::<char>::empty()),
        (2int, 0int, v.0),
        (2int, 0int, v.1),
    ]
}

/// Whether `r` lists the items `vs` in the order `order`, which sorts them
/// by `key` and keeps items with equal keys in their order.
pub open spec fn listed_in_order(
    r: Seq<CoreContextFact>,
    vs: Seq<ContextFactView>,
    order: Seq<usize>,
    key: spec_fn(ContextFactView) -> Seq<(int, int, Seq<char>)>,
) -> bool {
    &&& order.len() == vs.len()
    &&& r.len() == vs.len()
    &&& order.no_duplicates()
    &&& forall|t: int| 0 <= t < order.len() ==> #[trigger] order[t] < vs.len()
    &&& forall|a: int, b: int|
        0 <= a < b < order.len() ==> key_before(key(vs[#[trigger] order[a] as int]), key(vs[#[trigger] order[b] as int]))
            || (key(vs[order[a] as int]) == key(vs[order[b] as int]) && order[a] < order[b])
    &&& forall|t: int| 0 <= t < r.len() ==> context_fact_view(#[trigger] r[t]) == vs[order[t] as int]
}

/// Whether `r` is `vs` sorted stably by `key`.
pub open spec fn stably_sorted(
    r: Seq<CoreContextFact>,
    vs: Seq<ContextFactView>,
    key: spec_fn(ContextFactView) -> Seq<(int, int, Seq<char>)>,
) -> bool {
    exists|order: Seq<usize>| #[trigger] listed_in_order(r, vs, order, key)
}

fn copy_strings(v: &Vec<String>) -> (r: Vec<String>)
    ensures
        r@ == v@,
{
    let mut out: Vec<String> = Vec::new();
    let mut i: usize = 0;
    while i < v.len()
        invariant
            i <= v@.len(),
            out@ == v@.take(i as int),
        decreases v@.len() - i,
    {
        out.push(v[i].clone());
        assert(v@.take(i + 1) =~= v@.take(i as int).push(v@[i as int]));
        i = i + 1;
    }
    assert(v@.take(v@.len() as int) =~= v@);
    out
}

fn same_opt(a: &Option<String>, b: &Option<String>) -> (r: bool)
    ensures
        r == (opt_view(*a) == opt_view(*b)),
{
    match a {
        Some(x) => match b {
            Some(y) => str_eq(x.as_str(), y.as_str()),
            None => false,
        },
        None => b.is_none(),
    }
}

fn copy_opt(v: &Option<String>) -> (r: Option<String>)
    ensures
        r == *v,
{
    match v {
        Some(s) => Some(s.clone()),
        None => None,
    }
}

fn copy_context_fact(c: &CoreContextFact) -> (r: CoreContextFact)
    ensures
        context_fact_view(r) == context_fact_view(*c),
{
    CoreContextFact {
        category: c.category.clone(),
        core_fact_id: c.core_fact_id.clone(),
        scope: copy_opt(&c.scope),
        text: c.text.clone(),
        status: c.status,
        confidence: c.confidence,
        tags: copy_strings(&c.tags),
    }
}

fn context_parts(c: &CoreContextFact) -> (r: Vec<KeyPart>)
    ensures
        key_view(r@) == context_key(context_fact_view(*c)),
{
    let mut parts: Vec<KeyPart> = Vec::new();
    parts.push(KeyPart::Ascending(core_context_status_rank(c.status) as u64));
    parts.push(KeyPart::Descending(float_order_key(c.confidence.bits)));
    parts.push(KeyPart::TextAscending(c.category.clone()));
    parts.push(KeyPart::TextAscending(c.core_fact_id.clone()));
    assert(key_view(parts@) =~= context_key(context_fact_view(*c)));
    parts
}

/// Lists `items` in the order `order`, copying them.
fn permuted(items: &Vec<CoreContextFact>, order: &Vec<usize>) -> (r: Vec<CoreContextFact>)
    requires
        forall|t: int| 0 <= t < order@.len() ==> #[trigger] order@[t] < items@.len(),
    ensures
        r@.len() == order@.len(),
        forall|t: int| 0 <= t < r@.len() ==> context_fact_view(#[trigger] r@[t]) == context_fact_view(
            items@[order@[t] as int],
        ),
{
    let mut out: Vec<CoreContextFact> = Vec::new();
    let mut t: usize = 0;
    while t < order.len()
        invariant
            t <= order@.len(),
            forall|k: int| 0 <= k < order@.len() ==> #[trigger] order@[k] < items@.len(),
            out@.len() == t,
            forall|k: int| 0 <= k < t ==> context_fact_view(#[trigger] out@[k]) == context_fact_view(
                items@[order@[k] as int],
            ),
        decreases order@.len() - t,
    {
        out.push(copy_context_fact(&items[order[t]]));
        t = t + 1;
    }
    out
}

/// The core facts a context for `scope` shows (white space collapsed, blank
/// meaning none): the facts of every category with a visible status and
/// exactly that scope, listed by status, then higher confidence, then
/// category, then identifier, facts with equal keys in store order.
pub fn core_context_facts(categories: &Vec<CoreStoreCategory>, scope: Option<&str>) -> (r: Vec<CoreContextFact>)
    ensures
        stably_sorted(
            r@,
            visible_facts(
                categories@,
                normalize_opt_seq(
                    match scope {
                        Some(s) => Some(s@),
                        None => None,
                    },
                ),
            ),
            |v: ContextFactView| context_key(v),
        ),
{
    let sc = normalize_optional_string(scope);
    let ghost scv = opt_view(sc);
    let ghost cats = categories@;
    let mut flat: Vec<CoreContextFact> = Vec::new();
    let mut keys: Vec<Vec<KeyPart>> = Vec::new();
    let mut k: usize = 0;
    while k < categories.len()
        invariant
            cats == categories@,
            scv == opt_view(sc),
            k <= cats.len(),
            context_fact_views(flat@) == visible_facts(cats.take(k as int), scv),
            keys@.len() == flat@.len(),
            forall|t: int| 0 <= t < keys@.len() ==> key_view(#[trigger] keys@[t]@) == context_key(context_fact_view(flat@[t])),
        decreases cats.len() - k,
    {
        let cat = &categories[k];
        let ghost base = context_fact_views(flat@);
        let mut j: usize = 0;
        while j < cat.facts.len()
            invariant
                k < cats.len(),
                scv == opt_view(sc),
                *cat == cats[k as int],
                j <= cat.facts@.len(),
                context_fact_views(flat@) == base + visible_in(cat.category@, cat.facts@.take(j as int), scv),
                keys@.len() == flat@.len(),
                forall|t: int| 0 <= t < keys@.len() ==> key_view(#[trigger] keys@[t]@) == context_key(context_fact_view(flat@[t])),
            decreases cat.facts@.len() - j,
        {
            let f = &cat.facts[j];
            assert(cat.facts@.take(j + 1).drop_last() =~= cat.facts@.take(j as int));
            let same_scope = same_opt(&f.scope, &sc);
            assert(same_scope == (opt_view(f.scope) == scv));
            let ghost tj1 = cat.facts@.take(j + 1);
            assert(tj1.last() == *f);
            let ghost before_views = context_fact_views(flat@);
            if core_fact_visible_in_context(f.status) && same_scope {
                let c = CoreContextFact {
                    category: cat.category.clone(),
                    core_fact_id: f.core_fact_id.clone(),
                    scope: copy_opt(&f.scope),
                    text: f.text.clone(),
                    status: f.status,
                    confidence: f.confidence,
                    tags: copy_strings(&f.tags),
                };
                keys.push(context_parts(&c));
                let ghost prev = flat@;
                flat.push(c);
                assert(context_fact_views(flat@) =~= context_fact_views(prev).push(context_fact_view(c)));
                assert(context_fact_view(c) == fact_in_context(cat.category@, *f));
                assert(base + visible_in(cat.category@, tj1, scv) =~= (base + visible_in(
                    cat.category@,
                    cat.facts@.take(j as int),
                    scv,
                )).push(fact_in_context(cat.category@, *f)));
            } else {
                assert(visible_in(cat.category@, tj1, scv) == visible_in(cat.category@, cat.facts@.take(j as int), scv));
            }
            j = j + 1;
        }
        assert(cat.facts@.take(cat.facts@.len() as int) =~= cat.facts@);
        assert(cats.take(k + 1).drop_last() =~= cats.take(k as int));
        k = k + 1;
    }
    assert(cats.take(cats.len() as int) =~= cats);
    let ghost vs = context_fact_views(flat@);
    let order = stable_order(&keys);
    let out = permuted(&flat, &order);
    proof {
        let key = |v: ContextFactView| context_key(v);
        assert forall|a: int, b: int| 0 <= a < b < order@.len() implies key_before(
            key(vs[#[trigger] order@[a] as int]),
            key(vs[#[trigger] order@[b] as int]),
        ) || (key(vs[order@[a] as int]) == key(vs[order@[b] as int]) && order@[a] < order@[b]) by {
            assert(index_before(keys@, order@[a] as int, order@[b] as int));
        }
        assert(listed_in_order(out@, vs, order@, key));
    }
    out
}

// ---------------------------------------------------------------- query ranking

/// The relevance of a listed fact (its text, category and tags) to the
/// query tokens.
pub open spec fn fact_relevance(v: ContextFactView, tokens: Seq<Seq<char>>) -> nat {
    query_points(
        core_tokens_seq(v.3),
        match_text(v.3),
        match_text(v.0),
        v.6.map_values(|t: Seq<char>| match_text(t)),
        tokens,
    )
}

/// The query order: more relevant, then higher confidence, then category,
/// then identifier.
pub open spec fn relevance_key(v: ContextFactView, tokens: Seq<Seq<char>>) -> Seq<(int, int, Seq<char>)> {
    seq![
        (1int, fact_relevance(v, tokens) as int, Seq::<char>::empty()),
        (1int, total_order_key(v.5) as int, Seq::<char>::empty()),
        (2int, 0int, v.0),
        (2int, 0int, v.1),
    ]
}

/// The text of an optional query, empty when there is none.
pub open spec fn query_seq(query_text: Option<&str>) -> Seq<char> {
    match query_text {
        Some(s) => s@,
        None => Seq::empty(),
    }
}

/// Orders context facts by their relevance to a query: when the query has
/// tokens, facts go by relevance, then confidence, then category, then
/// identifier, facts with equal keys keeping their order; a query without
/// tokens leaves the facts as they are.
pub fn rank_core_facts_for_query(facts: Vec<CoreContextFact>, query_text: Option<&str>) -> (r: Vec<CoreContextFact>)
    requires
        core_tokens_seq(query_seq(query_text)).len() <= usize::MAX / 18,
    ensures
        core_tokens_seq(query_seq(query_text)).len() == 0 ==> r@ == facts@,
        core_tokens_seq(query_seq(query_text)).len() > 0 ==> stably_sorted(
            r@,
            context_fact_views(facts@),
            |v: ContextFactView| relevance_key(v, core_tokens_seq(query_seq(query_text))),
        ),
{
    let text = match query_text {
        Some(s) => s,
        None => {
            proof {
                reveal_strlit("");
            }
            ""
        },
    };
    assert(text@ == query_seq(query_text));
    let tokens = core_query_tokens(text);
    if tokens.len() == 0 {
        return facts;
    }
    let ghost tv = strs(tokens@);
    let mut keys: Vec<Vec<KeyPart>> = Vec::new();
    let mut i: usize = 0;
    while i < facts.len()
        invariant
            i <= facts@.len(),
            tv == strs(tokens@),
            tokens@.len() <= usize::MAX / 18,
            keys@.len() == i,
            forall|t: int| 0 <= t < i ==> key_view(#[trigger] keys@[t]@) == relevance_key(context_fact_view(facts@[t]), tv),
        decreases facts@.len() - i,
    {
        let f = &facts[i];
        let score = core_fact_query_score(f.text.as_str(), f.category.as_str(), &f.tags, &tokens);
        let mut parts: Vec<KeyPart> = Vec::new();
        parts.push(KeyPart::Descending(score as u64));
        parts.push(KeyPart::Descending(float_order_key(f.confidence.bits)));
        parts.push(KeyPart::TextAscending(f.category.clone()));
        parts.push(KeyPart::TextAscending(f.core_fact_id.clone()));
        assert(key_view(parts@) =~= relevance_key(context_fact_view(*f), tv));
        keys.push(parts);
        i = i + 1;
    }
    let ghost vs = context_fact_views(facts@);
    let order = stable_order(&keys);
    let out = permuted(&facts, &order);
    proof {
        let key = |v: ContextFactView| relevance_key(v, tv);
        assert forall|a: int, b: int| 0 <= a < b < order@.len() implies key_before(
            key(vs[#[trigger] order@[a] as int]),
            key(vs[#[trigger] order@[b] as int]),
        ) || (key(vs[order@[a] as int]) == key(vs[order@[b] as int]) && order@[a] < order@[b]) by {
            assert(index_before(keys@, order@[a] as int, order@[b] as int));
        }
        assert(listed_in_order(out@, vs, order@, key));
    }
    out
}

/// Orders context facts by their relevance to a query, as
/// `rank_core_facts_for_query` does, for a query of at most
/// `usize::MAX / 18` characters; a longer query gives `None`.
pub fn try_rank_core_facts_for_query(facts: Vec<CoreContextFact>, query_text: Option<&str>) -> (r: Option<
    Vec<CoreContextFact>,
>)
    ensures
        r is None <==> query_seq(query_text).len() > usize::MAX / 18,
        r matches Some(ranked) ==> {
            &&& core_tokens_seq(query_seq(query_text)).len() == 0 ==> ranked@ == facts@
            &&& core_tokens_seq(query_seq(query_text)).len() > 0 ==> stably_sorted(
                ranked@,
                context_fact_views(facts@),
                |v: ContextFactView| relevance_key(v, core_tokens_seq(query_seq(query_text))),
            )
        },
{
    let n = match query_text {
        Some(s) => char_count(s),
        None => 0,
    };
    if n > usize::MAX / 18 {
        return None;
    }
    proof {
        lemma_core_tokens_within_chars(query_seq(query_text));
    }
    Some(rank_core_facts_for_query(facts, query_text))
}

/// Ranking for a query puts a fact whose tag matches the query ahead of one
/// that matches nowhere by tag, whatever their confidences: of two facts
/// of a ranking with the same text and category, where a tag of the one
/// at `p` holds a query token and no tag of the one at `q` holds any, the
/// first comes first.
pub proof fn lemma_tag_match_ranks_first(
    r: Seq<CoreContextFact>,
    vs: Seq<ContextFactView>,
    tokens: Seq<Seq<char>>,
    p: int,
    q: int,
    j: int,
)
    requires
        stably_sorted(r, vs, |v: ContextFactView| relevance_key(v, tokens)),
        0 <= p < r.len(),
        0 <= q < r.len(),
        r[p].text@ == r[q].text@,
        r[p].category@ == r[q].category@,
        0 <= j < tokens.len(),
        tag_holds(strs(r[p].tags@).map_values(|t: Seq<char>| match_text(t)), tokens[j]),
        forall|k: int|
            0 <= k < tokens.len() ==> !tag_holds(
                strs(r[q].tags@).map_values(|t: Seq<char>| match_text(t)),
                #[trigger] tokens[k],
            ),
    ensures
        p < q,
{
    let key = |v: ContextFactView| relevance_key(v, tokens);
    let order = choose|order: Seq<usize>| #[trigger] listed_in_order(r, vs, order, key);
    let vp = context_fact_view(r[p]);
    let vq = context_fact_view(r[q]);
    assert(vp == vs[order[p] as int]);
    assert(vq == vs[order[q] as int]);
    let more = vp.6.map_values(|t: Seq<char>| match_text(t));
    let fewer = vq.6.map_values(|t: Seq<char>| match_text(t));
    lemma_tag_match_scores_higher(
        core_tokens_seq(vp.3),
        match_text(vp.3),
        match_text(vp.0),
        more,
        fewer,
        tokens,
        j,
    );
    assert(fact_relevance(vp, tokens) >= fact_relevance(vq, tokens) + 2);
    if q <= p {
        if q == p {
            assert(tag_holds(fewer, tokens[j]));
        } else {
            assert(key_before(key(vs[order[q] as int]), key(vs[order[p] as int])) || (key(
                vs[order[q] as int],
            ) == key(vs[order[p] as int]) && order[q] < order[p]));
            assert(key(vq)[0] != key(vp)[0]);
        }
    }
}

} // verus!
