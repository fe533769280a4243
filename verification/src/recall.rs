//! The parts of stage-one recall that are not scores: which archive entries
//! a filter lets through, the words a query and an entry share, the ranking
//! of scored entries and what a recalled entry shows.

use vstd::prelude::*;

use crate::ordering::{
    float_order_key, index_before, key_before, key_view, lists_positions, sorted_by_keys,
    stable_order, total_order_key, KeyPart,
};
use crate::strset::{contains_str, lex_less, lex_lt, str_eq};
use crate::text::{normalize_opt_seq, normalize_optional_string, opt_view, strs};
use crate::tokens::{token_set, tokenize};
use crate::types::{ArchiveStatus, F64Bits, RecallSourceLayer, TimeRange, RECALL_QUERY_SCHEMA_VERSION};
use crate::error::MemoryEngineError;

verus! {

// ---------------------------------------------------------------- filters

/// What an archive read is filtered by, besides the weight and freshness
/// floors, which compare `f64` values and are decided by the caller.
#[derive(Debug)]
pub struct ArchiveFilters {
    pub time_range: Option<TimeRange>,
    pub tags: Vec<String>,
    pub theme: Option<String>,
}

/// Whether an entry passes the filters: the same theme when one is asked
/// for, every asked tag, a time range that meets the asked one (compared as
/// texts), and neither floor failed.
pub open spec fn archive_passes(
    theme: Option<Seq<char>>,
    tags: Seq<Seq<char>>,
    range: (Seq<char>, Seq<char>),
    filter_theme: Option<Seq<char>>,
    filter_tags: Seq<Seq<char>>,
    filter_range: Option<(Seq<char>, Seq<char>)>,
    below_min_weight: bool,
    below_min_freshness: bool,
) -> bool {
    &&& (filter_theme matches Some(t) ==> theme == Some(t))
    &&& !below_min_weight
    &&& !below_min_freshness
    &&& forall|i: int| 0 <= i < filter_tags.len() ==> tags.contains(#[trigger] filter_tags[i])
    &&& (filter_range matches Some((start, end)) ==> !lex_lt(range.1, start) && !lex_lt(end, range.0))
}

fn all_present(wanted: &Vec<String>, have: &Vec<String>) -> (r: bool)
    ensures
        r == forall|i: int| 0 <= i < wanted@.len() ==> strs(have@).contains(#[trigger] strs(wanted@)[i]),
{
    let mut i: usize = 0;
    while i < wanted.len()
        invariant
            i <= wanted@.len(),
            forall|k: int| 0 <= k < i ==> strs(have@).contains(#[trigger] strs(wanted@)[k]),
        decreases wanted@.len() - i,
    {
        if !contains_str(have, wanted[i].as_str()) {
            assert(!strs(have@).contains(strs(wanted@)[i as int]));
            return false;
        }
        i = i + 1;
    }
    true
}

/// Whether an archive entry with this theme, these tags and this time range
/// passes `filters`; `below_min_weight` and `below_min_freshness` say
/// whether the entry falls under the filters' floors.
pub fn archive_matches_filters(
    theme: &Option<String>,
    tags: &Vec<String>,
    time_range: &TimeRange,
    filters: &ArchiveFilters,
    below_min_weight: bool,
    below_min_freshness: bool,
) -> (r: bool)
    ensures
        r == archive_passes(
            opt_view(*theme),
            strs(tags@),
            (time_range.start@, time_range.end@),
            opt_view(filters.theme),
            strs(filters.tags@),
            match filters.time_range {
                Some(tr) => Some((tr.start@, tr.end@)),
                None => None,
            },
            below_min_weight,
            below_min_freshness,
        ),
{
    if let Some(t) = &filters.theme {
        let same = match theme {
            Some(own) => str_eq(own.as_str(), t.as_str()),
            None => false,
        };
        if !same {
            return false;
        }
    }
    if below_min_weight || below_min_freshness {
        return false;
    }
    if !all_present(&filters.tags, tags) {
        return false;
    }
    if let Some(tr) = &filters.time_range {
        if lex_less(time_range.end.as_str(), tr.start.as_str()) || lex_less(
            tr.end.as_str(),
            time_range.start.as_str(),
        ) {
            return false;
        }
    }
    true
}

// ---------------------------------------------------------------- overlap

/// How many of `wanted` (counting repeats) occur in `have`.
pub open spec fn overlap_count(wanted: Seq<Seq<char>>, have: Seq<Seq<char>>) -> nat
    decreases wanted.len(),
{
    if wanted.len() == 0 {
        0
    } else {
        overlap_count(wanted.drop_last(), have) + (if have.contains(wanted.last()) {
            1nat
        } else {
            0nat
        })
    }
}

proof fn lemma_overlap_bounded(wanted: Seq<Seq<char>>, have: Seq<Seq<char>>)
    ensures
        overlap_count(wanted, have) <= wanted.len(),
    decreases wanted.len(),
{
    if wanted.len() > 0 {
        lemma_overlap_bounded(wanted.drop_last(), have);
    }
}

/// How many of the query's tags (or tokens) the entry has: the overlap that
/// the recall score rewards.
pub fn overlap_count_of(wanted: &Vec<String>, have: &Vec<String>) -> (r: usize)
    ensures
        r == overlap_count(strs(wanted@), strs(have@)),
{
    let mut n: usize = 0;
    let mut i: usize = 0;
    while i < wanted.len()
        invariant
            i <= wanted@.len(),
            n == overlap_count(strs(wanted@).take(i as int), strs(have@)),
        decreases wanted@.len() - i,
    {
        proof {
            assert(strs(wanted@).take(i + 1).drop_last() =~= strs(wanted@).take(i as int));
            lemma_overlap_bounded(strs(wanted@).take(i as int), strs(have@));
        }
        if contains_str(have, wanted[i].as_str()) {
            n = n + 1;
        }
        i = i + 1;
    }
    assert(strs(wanted@).take(wanted@.len() as int) =~= strs(wanted@));
    n
}

// ---------------------------------------------------------------- tokens

/// Each item followed by a space.
pub open spec fn spaced(items: Seq<Seq<char>>) -> Seq<char>
    decreases items.len(),
{
    if items.len() == 0 {
        Seq::empty()
    } else {
        spaced(items.drop_last()) + items.last() + seq![' ']
    }
}

/// The text searched in an archive entry: its compact memory, gist,
/// narrative, fact texts, quote texts and tags, each followed by a space,
/// and its theme.
pub open spec fn archive_search_text(
    compact_memory: Option<Seq<char>>,
    gist: Seq<char>,
    narrative: Seq<char>,
    facts: Seq<Seq<char>>,
    quotes: Seq<Seq<char>>,
    tags: Seq<Seq<char>>,
    theme: Option<Seq<char>>,
) -> Seq<char> {
    (match compact_memory {
        Some(c) => c + seq![' '],
        None => Seq::empty(),
    }) + gist + seq![' '] + narrative + seq![' '] + spaced(facts) + spaced(quotes) + spaced(tags) + (
    match theme {
        Some(t) => t,
        None => Seq::empty(),
    })
}

/// `piece` stands in `text` between spaces, or at an end of it.
pub open spec fn spaced_piece(text: Seq<char>, piece: Seq<char>) -> bool {
    exists|x: Seq<char>, y: Seq<char>|
        text == x + piece + y && (x.len() == 0 || x.last() == ' ') && (y.len() == 0 || y[0] == ' ')
}

proof fn lemma_spaced_ends(items: Seq<Seq<char>>)
    ensures
        spaced(items).len() == 0 || spaced(items).last() == ' ',
        items.len() > 0 ==> spaced(items).len() > 0,
{
}

proof fn lemma_spaced_split(items: Seq<Seq<char>>, k: int)
    requires
        0 <= k < items.len(),
    ensures
        spaced(items) == spaced(items.take(k)) + items[k] + seq![' '] + spaced(items.skip(k + 1)),
    decreases items.len(),
{
    let dl = items.drop_last();
    if k == items.len() - 1 {
        assert(items.take(k) =~= dl);
        assert(items.skip(k + 1) =~= Seq::<Seq<char>>::empty());
        assert(spaced(items) =~= spaced(items.take(k)) + items[k] + seq![' '] + spaced(items.skip(k + 1)));
    } else {
        lemma_spaced_split(dl, k);
        assert(dl.take(k) =~= items.take(k));
        assert(dl[k] == items[k]);
        let s2 = items.skip(k + 1);
        assert(s2.drop_last() =~= dl.skip(k + 1));
        assert(s2.last() == items.last());
        assert(spaced(s2) == spaced(s2.drop_last()) + s2.last() + seq![' ']);
        assert(spaced(items) =~= spaced(items.take(k)) + items[k] + seq![' '] + spaced(items.skip(k + 1)));
    }
}

proof fn lemma_item_piece(pre: Seq<char>, items: Seq<Seq<char>>, post: Seq<char>, k: int)
    requires
        0 <= k < items.len(),
        pre.len() > 0 && pre.last() == ' ',
    ensures
        spaced_piece(pre + spaced(items) + post, items[k]),
{
    lemma_spaced_split(items, k);
    lemma_spaced_ends(items.take(k));
    let x = pre + spaced(items.take(k));
    let y = seq![' '] + spaced(items.skip(k + 1)) + post;
    assert(pre + spaced(items) + post =~= x + items[k] + y);
    assert(x.last() == ' ');
    assert(y[0] == ' ');
}

proof fn lemma_piece_at(text: Seq<char>, x: Seq<char>, piece: Seq<char>, y: Seq<char>)
    requires
        text =~= x + piece + y,
        x.len() == 0 || x.last() == ' ',
        y.len() == 0 || y[0] == ' ',
    ensures
        spaced_piece(text, piece),
{
}

proof fn lemma_head_pieces(cm: Seq<char>, gist: Seq<char>, narrative: Seq<char>, lists: Seq<char>)
    requires
        cm.len() == 0 || cm.last() == ' ',
    ensures
        spaced_piece(cm + gist + seq![' '] + narrative + seq![' '] + lists, gist),
        spaced_piece(cm + gist + seq![' '] + narrative + seq![' '] + lists, narrative),
{
    let sp = seq![' '];
    let text = cm + gist + sp + narrative + sp + lists;
    lemma_piece_at(text, cm, gist, sp + narrative + sp + lists);
    lemma_piece_at(text, cm + gist + sp, narrative, sp + lists);
}

proof fn lemma_list_pieces(head: Seq<char>, items: Seq<Seq<char>>, post: Seq<char>)
    requires
        head.len() > 0 && head.last() == ' ',
    ensures
        forall|k: int| 0 <= k < items.len() ==> spaced_piece(head + spaced(items) + post, #[trigger] items[k]),
        (head + spaced(items)).last() == ' ',
{
    assert forall|k: int| 0 <= k < items.len() implies spaced_piece(head + spaced(items) + post, #[trigger] items[k]) by {
        lemma_item_piece(head, items, post, k);
    }
    lemma_spaced_ends(items);
}

/// Every part of an archive entry stands in its searched text between
/// spaces: its compact memory, gist, narrative, each fact, quote and tag,
/// and its theme. None is left out.
pub proof fn lemma_search_text_holds_every_part(
    compact_memory: Option<Seq<char>>,
    gist: Seq<char>,
    narrative: Seq<char>,
    facts: Seq<Seq<char>>,
    quotes: Seq<Seq<char>>,
    tags: Seq<Seq<char>>,
    theme: Option<Seq<char>>,
)
    ensures
        ({
            let text = archive_search_text(compact_memory, gist, narrative, facts, quotes, tags, theme);
            &&& spaced_piece(text, gist)
            &&& spaced_piece(text, narrative)
            &&& compact_memory matches Some(c) ==> spaced_piece(text, c)
            &&& theme matches Some(t) ==> spaced_piece(text, t)
            &&& forall|k: int| 0 <= k < facts.len() ==> spaced_piece(text, #[trigger] facts[k])
            &&& forall|k: int| 0 <= k < quotes.len() ==> spaced_piece(text, #[trigger] quotes[k])
            &&& forall|k: int| 0 <= k < tags.len() ==> spaced_piece(text, #[trigger] tags[k])
        }),
{
    let sp = seq![' '];
    let cm = match compact_memory {
        Some(c) => c + sp,
        None => Seq::<char>::empty(),
    };
    let th = match theme {
        Some(t) => t,
        None => Seq::<char>::empty(),
    };
    let text = archive_search_text(compact_memory, gist, narrative, facts, quotes, tags, theme);
    let sf = spaced(facts);
    let sq = spaced(quotes);
    let st = spaced(tags);
    let head = cm + gist + sp + narrative + sp;
    assert(text == head + sf + sq + st + th);
    let lists = sf + sq + st + th;
    assert(text =~= cm + gist + sp + narrative + sp + lists);
    lemma_head_pieces(cm, gist, narrative, lists);
    if let Some(c) = compact_memory {
        assert(text =~= Seq::<char>::empty() + c + (sp + gist + sp + narrative + sp + lists));
        lemma_piece_at(text, Seq::<char>::empty(), c, sp + gist + sp + narrative + sp + lists);
    }
    assert(text =~= head + sf + (sq + st + th));
    lemma_list_pieces(head, facts, sq + st + th);
    let head2 = head + sf;
    assert(text =~= head2 + sq + (st + th));
    lemma_list_pieces(head2, quotes, st + th);
    let head3 = head2 + sq;
    assert(text =~= head3 + st + th);
    lemma_list_pieces(head3, tags, th);
    if let Some(t) = theme {
        let tx = head3 + st;
        assert(text =~= tx + t + Seq::<char>::empty());
        lemma_piece_at(text, tx, t, Seq::<char>::empty());
    }
}

/// The searched tokens of an archive entry include every token of each of
/// its parts (a space being no letter or digit, as `char::is_alphanumeric`
/// has it): a query word found in the narrative, gist, a fact, a quote, a
/// tag, the theme or the compact memory always meets the entry.
pub proof fn lemma_search_tokens_cover_every_part(
    compact_memory: Option<Seq<char>>,
    gist: Seq<char>,
    narrative: Seq<char>,
    facts: Seq<Seq<char>>,
    quotes: Seq<Seq<char>>,
    tags: Seq<Seq<char>>,
    theme: Option<Seq<char>>,
    part: Seq<char>,
)
    requires
        !crate::text::is_alnum(' '),
        part == gist || part == narrative || compact_memory == Some(part) || theme == Some(part)
            || facts.contains(part) || quotes.contains(part) || tags.contains(part),
    ensures
        token_set(part).subset_of(
            token_set(archive_search_text(compact_memory, gist, narrative, facts, quotes, tags, theme)),
        ),
{
    let text = archive_search_text(compact_memory, gist, narrative, facts, quotes, tags, theme);
    lemma_search_text_holds_every_part(compact_memory, gist, narrative, facts, quotes, tags, theme);
    assert(spaced_piece(text, part)) by {
        if facts.contains(part) && part != gist && part != narrative {
            let k = choose|k: int| 0 <= k < facts.len() && facts[k] == part;
            assert(spaced_piece(text, facts[k]));
        }
        if quotes.contains(part) && part != gist && part != narrative {
            let k = choose|k: int| 0 <= k < quotes.len() && quotes[k] == part;
            assert(spaced_piece(text, quotes[k]));
        }
        if tags.contains(part) && part != gist && part != narrative {
            let k = choose|k: int| 0 <= k < tags.len() && tags[k] == part;
            assert(spaced_piece(text, tags[k]));
        }
    }
    let (x, y) = choose|x: Seq<char>, y: Seq<char>|
        text == x + part + y && (x.len() == 0 || x.last() == ' ') && (y.len() == 0 || y[0] == ' ');
    crate::tokens::lemma_piece_tokens(text, x, part, y);
}

fn append_spaced(text: &mut String, items: &Vec<String>)
    ensures
        final(text)@ == old(text)@ + spaced(strs(items@)),
{
    let mut i: usize = 0;
    while i < items.len()
        invariant
            i <= items@.len(),
            text@ == old(text)@ + spaced(strs(items@).take(i as int)),
        decreases items@.len() - i,
    {
        text.append(items[i].as_str());
        text.append(" ");
        proof {
            reveal_strlit(" ");
            assert(strs(items@).take(i + 1).drop_last() =~= strs(items@).take(i as int));
            assert(text@ =~= old(text)@ + spaced(strs(items@).take(i + 1)));
        }
        i = i + 1;
    }
    assert(strs(items@).take(items@.len() as int) =~= strs(items@));
}

/// The words of an archive entry that a query can meet: the tokens of its
/// searched text, as a sorted set.
pub fn archive_tokens(
    compact_memory: &Option<String>,
    gist: &str,
    narrative: &str,
    facts: &Vec<String>,
    quotes: &Vec<String>,
    tags: &Vec<String>,
    theme: &Option<String>,
) -> (r: Vec<String>)
    ensures
        crate::strset::sorted_set(strs(r@)),
        strs(r@).to_set() == token_set(
            archive_search_text(
                opt_view(*compact_memory),
                gist@,
                narrative@,
                strs(facts@),
                strs(quotes@),
                strs(tags@),
                opt_view(*theme),
            ),
        ),
{
    let mut text = String::new();
    proof {
        reveal_strlit(" ");
    }
    if let Some(c) = compact_memory {
        text.append(c.as_str());
        text.append(" ");
    }
    text.append(gist);
    text.append(" ");
    text.append(narrative);
    text.append(" ");
    append_spaced(&mut text, facts);
    append_spaced(&mut text, quotes);
    append_spaced(&mut text, tags);
    if let Some(t) = theme {
        text.append(t.as_str());
    }
    assert(text@ =~= archive_search_text(
        opt_view(*compact_memory),
        gist@,
        narrative@,
        strs(facts@),
        strs(quotes@),
        strs(tags@),
        opt_view(*theme),
    ));
    tokenize(text.as_str())
}

/// The text a query is matched by: its query text followed by a space, when
/// it has one, then the recent text of its context.
pub open spec fn query_search_text(query_text: Option<Seq<char>>, recent_text: Option<Seq<char>>) -> Seq<char> {
    (match query_text {
        Some(q) => q + seq![' '],
        None => Seq::empty(),
    }) + (match recent_text {
        Some(r) => r,
        None => Seq::empty(),
    })
}

/// The words of a recall query: the tokens of its query text and of the
/// `recent_text` of its context, as a sorted set.
pub fn query_tokens(query_text: &Option<String>, recent_text: &Option<String>) -> (r: Vec<String>)
    ensures
        crate::strset::sorted_set(strs(r@)),
        strs(r@).to_set() == token_set(query_search_text(opt_view(*query_text), opt_view(*recent_text))),
{
    let mut text = String::new();
    proof {
        reveal_strlit(" ");
    }
    if let Some(q) = query_text {
        text.append(q.as_str());
        text.append(" ");
    }
    if let Some(r) = recent_text {
        text.append(r.as_str());
    }
    assert(text@ =~= query_search_text(opt_view(*query_text), opt_view(*recent_text)));
    tokenize(text.as_str())
}

// ---------------------------------------------------------------- ranking

/// What the ranking of scored archive entries reads: each entry's score and
/// weight, as `f64` bits, and its identifier.
#[derive(Debug)]
pub struct ScoredEntry {
    pub archive_id: String,
    pub score: F64Bits,
    pub weight: F64Bits,
}

/// The recall order: higher score, then higher weight (both in
/// `f64::total_cmp` order), then identifier.
pub open spec fn recall_key(e: ScoredEntry) -> Seq<(int, int, Seq<char>)> {
    seq![
        (1int, total_order_key(e.score.bits) as int, Seq::<char>::empty()),
        (1int, total_order_key(e.weight.bits) as int, Seq::<char>::empty()),
        (2int, 0int, e.archive_id@),
    ]
}

/// Whether entry `i` ranks before entry `j`; entries of equal rank keep
/// their order.
pub open spec fn recall_before(es: Seq<ScoredEntry>, i: int, j: int) -> bool {
    key_before(recall_key(es[i]), recall_key(es[j])) || (recall_key(es[i]) == recall_key(es[j]) && i < j)
}

/// The best ranked `limit` entries, best first: their positions.
pub fn rank_recall_entries(entries: &Vec<ScoredEntry>, limit: usize) -> (r: Vec<usize>)
    ensures
        r@.len() == (if limit < entries@.len() { limit as int } else { entries@.len() as int }),
        r@.no_duplicates(),
        forall|k: int| 0 <= k < r@.len() ==> #[trigger] r@[k] < entries@.len(),
        forall|a: int, b: int| 0 <= a < b < r@.len() ==> recall_before(entries@, #[trigger] r@[a] as int, #[trigger] r@[b] as int),
        forall|k: int, i: int|
            0 <= k < r@.len() && 0 <= i < entries@.len() && !r@.contains(i as usize) ==> #[trigger] recall_before(
                entries@,
                r@[k] as int,
                i,
            ),
{
    let mut keys: Vec<Vec<KeyPart>> = Vec::new();
    let mut i: usize = 0;
    while i < entries.len()
        invariant
            i <= entries@.len(),
            keys@.len() == i,
            forall|t: int| 0 <= t < i ==> key_view(#[trigger] keys@[t]@) == recall_key(entries@[t]),
        decreases entries@.len() - i,
    {
        let e = &entries[i];
        let mut parts: Vec<KeyPart> = Vec::new();
        parts.push(KeyPart::Descending(float_order_key(e.score.bits)));
        parts.push(KeyPart::Descending(float_order_key(e.weight.bits)));
        parts.push(KeyPart::TextAscending(e.archive_id.clone()));
        assert(key_view(parts@) =~= recall_key(*e));
        keys.push(parts);
        i = i + 1;
    }
    let order = stable_order(&keys);
    let m: usize = if limit < entries.len() {
        limit
    } else {
        entries.len()
    };
    let mut out: Vec<usize> = Vec::new();
    let mut t: usize = 0;
    while t < m
        invariant
            m <= order@.len(),
            t <= m,
            out@ == order@.take(t as int),
        decreases m - t,
    {
        out.push(order[t]);
        assert(order@.take(t + 1) =~= order@.take(t as int).push(order@[t as int]));
        t = t + 1;
    }
    proof {
        let ov = order@;
        assert(out@ =~= ov.take(m as int));
        assert forall|a: int, b: int| 0 <= a < b < out@.len() implies recall_before(
            entries@,
            #[trigger] out@[a] as int,
            #[trigger] out@[b] as int,
        ) by {
            assert(index_before(keys@, ov[a] as int, ov[b] as int));
        }
        assert forall|k: int, x: int|
            0 <= k < out@.len() && 0 <= x < entries@.len() && !out@.contains(x as usize) implies #[trigger] recall_before(
            entries@,
            out@[k] as int,
            x,
        ) by {
            assert(ov.contains(x as usize));
            let q = choose|q: int| 0 <= q < ov.len() && ov[q] == x as usize;
            if q < m {
                assert(out@[q] == ov[q]);
            }
            assert(index_before(keys@, ov[k] as int, ov[q] as int));
        }
        assert forall|a: int, b: int| 0 <= a < out@.len() && 0 <= b < out@.len() && a != b implies out@[a] != out@[b] by {
            assert(ov[a] != ov[b]);
        }
    }
    out
}

// ---------------------------------------------------------------- shown memory

/// What a recalled archive entry shows.
#[derive(Debug)]
pub struct RecallMemory {
    pub gist: String,
    pub compact_memory: Option<String>,
    pub narrative: Option<String>,
    pub facts: Vec<String>,
    pub quotes: Vec<String>,
}

/// What a recalled entry shows: its compact memory (white space collapsed,
/// blank meaning none) both as the compact memory and as the gist, and then
/// neither narrative, facts nor quotes; without one, its gist, narrative,
/// fact texts and quote texts.
pub fn recall_memory(
    compact_memory: Option<String>,
    gist: String,
    narrative: String,
    facts: Vec<String>,
    quotes: Vec<String>,
) -> (r: RecallMemory)
    ensures
        opt_view(r.compact_memory) == normalize_opt_seq(opt_view(compact_memory)),
        normalize_opt_seq(opt_view(compact_memory)) matches Some(c) ==> {
            &&& r.gist@ == c
            &&& r.narrative is None
            &&& r.facts@.len() == 0
            &&& r.quotes@.len() == 0
        },
        normalize_opt_seq(opt_view(compact_memory)) is None ==> {
            &&& r.gist == gist
            &&& r.narrative == Some(narrative)
            &&& r.facts == facts
            &&& r.quotes == quotes
        },
{
    let compact = match &compact_memory {
        Some(c) => normalize_optional_string(Some(c.as_str())),
        None => normalize_optional_string(None),
    };
    match compact {
        Some(c) => RecallMemory {
            gist: c.clone(),
            compact_memory: Some(c),
            narrative: None,
            facts: Vec::new(),
            quotes: Vec::new(),
        },
        None => RecallMemory { gist, compact_memory: None, narrative: Some(narrative), facts, quotes },
    }
}

// ---------------------------------------------------------------- queries

/// What a recall is narrowed to.
#[derive(Debug)]
pub struct RecallFilters {
    pub time_range: Option<TimeRange>,
    pub tags: Vec<String>,
    pub theme: Option<String>,
    pub min_weight: Option<F64Bits>,
    pub min_freshness: Option<F64Bits>,
    pub source_layers: Vec<RecallSourceLayer>,
}

/// A request to recall memories.
#[derive(Debug)]
pub struct RecallQuery {
    pub schema_version: String,
    pub query_id: Option<String>,
    pub created_at: Option<String>,
    pub session_id: Option<String>,
    pub context: serde_json::Value,
    pub query_text: Option<String>,
    pub filters: RecallFilters,
    pub limit: usize,
    pub include_core: bool,
    pub explain: bool,
}

/// Checks that a query has the current recall schema.
pub fn validate_recall_query(query: &RecallQuery) -> (r: Result<(), MemoryEngineError>)
    ensures
        query.schema_version@ == RECALL_QUERY_SCHEMA_VERSION@ <==> r is Ok,
        r matches Err(e) ==> (e matches MemoryEngineError::IncompatibleSchema { expected, actual }
            && expected@ == RECALL_QUERY_SCHEMA_VERSION@ && actual@ == query.schema_version@),
{
    if !str_eq(query.schema_version.as_str(), RECALL_QUERY_SCHEMA_VERSION) {
        return Err(
            MemoryEngineError::IncompatibleSchema {
                expected: RECALL_QUERY_SCHEMA_VERSION.to_string(),
                actual: query.schema_version.clone(),
            },
        );
    }
    Ok(())
}

/// The archive filters of a recall: its time range, tags and theme; its
/// weight and freshness floors are compared by the caller.
pub fn archive_filters_from_recall(filters: &RecallFilters) -> (r: ArchiveFilters)
    ensures
        r.time_range == filters.time_range,
        strs(r.tags@) == strs(filters.tags@),
        opt_view(r.theme) == opt_view(filters.theme),
{
    let time_range = match &filters.time_range {
        Some(range) => Some(TimeRange { start: range.start.clone(), end: range.end.clone() }),
        None => None,
    };
    let mut tags: Vec<String> = Vec::new();
    let mut i: usize = 0;
    while i < filters.tags.len()
        invariant
            i <= filters.tags@.len(),
            strs(tags@) == strs(filters.tags@).take(i as int),
        decreases filters.tags@.len() - i,
    {
        let t = filters.tags[i].clone();
        assert(t@ == filters.tags@[i as int]@);
        let ghost before = strs(tags@);
        tags.push(t);
        assert(strs(tags@) =~= before.push(filters.tags@[i as int]@));
        assert(strs(filters.tags@).take(i + 1) =~= strs(filters.tags@).take(i as int).push(
            filters.tags@[i as int]@,
        ));
        i = i + 1;
    }
    assert(strs(filters.tags@).take(filters.tags@.len() as int) =~= strs(filters.tags@));
    let theme = match &filters.theme {
        Some(t) => Some(t.clone()),
        None => None,
    };
    ArchiveFilters { time_range, tags, theme }
}

// ---------------------------------------------------------------- recall composition

/// Whether a recall reads the archive: no layers asked for, or the archive
/// among them.
pub open spec fn reads_archive(layers: Seq<RecallSourceLayer>) -> bool {
    layers.len() == 0 || layers.contains(RecallSourceLayer::Archive)
}

/// Whether a recall reads the archive.
pub fn recall_reads_archive(layers: &Vec<RecallSourceLayer>) -> (r: bool)
    ensures
        r == reads_archive(layers@),
{
    if layers.len() == 0 {
        return true;
    }
    let mut i: usize = 0;
    while i < layers.len()
        invariant
            i <= layers@.len(),
            forall|k: int| 0 <= k < i ==> layers@[k] != RecallSourceLayer::Archive,
        decreases layers@.len() - i,
    {
        let is_archive = match layers[i] {
            RecallSourceLayer::Archive => true,
            _ => false,
        };
        if is_archive {
            assert(layers@[i as int] == RecallSourceLayer::Archive);
            return true;
        }
        i = i + 1;
    }
    false
}

/// How many entries a recall returns: the asked limit, or the default when
/// it asked for none.
pub open spec fn recall_limit_of(limit: usize, default: usize) -> usize {
    if limit == 0 {
        default
    } else {
        limit
    }
}

/// Whether archive entry `i` competes in a recall: complete, of the asked
/// session when one was asked, and not below the freshness floor
/// (`below[i]`, the caller's comparison of its effective freshness).
pub open spec fn in_recall_pool(
    statuses: Seq<ArchiveStatus>,
    sessions: Seq<Seq<char>>,
    session: Option<Seq<char>>,
    below: Seq<bool>,
    i: int,
) -> bool {
    &&& statuses[i] == ArchiveStatus::Complete
    &&& (match session {
        Some(s) => sessions[i] == s,
        None => true,
    })
    &&& !below[i]
}

fn pool_indices(
    statuses: &Vec<ArchiveStatus>,
    sessions: &Vec<String>,
    session: &Option<String>,
    below: &Vec<bool>,
) -> (p: Vec<usize>)
    requires
        sessions@.len() == statuses@.len(),
        below@.len() == statuses@.len(),
    ensures
        forall|k: int| 0 <= k < p@.len() ==> #[trigger] p@[k] < statuses@.len() && in_recall_pool(
            statuses@,
            strs(sessions@),
            opt_view(*session),
            below@,
            p@[k] as int,
        ),
        forall|a: int, b: int| 0 <= a < b < p@.len() ==> #[trigger] p@[a] < #[trigger] p@[b],
        forall|i: int|
            0 <= i < statuses@.len() && in_recall_pool(statuses@, strs(sessions@), opt_view(*session), below@, i)
                ==> p@.contains(i as usize),
{
    let mut out: Vec<usize> = Vec::new();
    let mut i: usize = 0;
    while i < statuses.len()
        invariant
            i <= statuses@.len(),
            sessions@.len() == statuses@.len(),
            below@.len() == statuses@.len(),
            forall|k: int| 0 <= k < out@.len() ==> #[trigger] out@[k] < i && in_recall_pool(
                statuses@,
                strs(sessions@),
                opt_view(*session),
                below@,
                out@[k] as int,
            ),
            forall|a: int, b: int| 0 <= a < b < out@.len() ==> #[trigger] out@[a] < #[trigger] out@[b],
            forall|j: int|
                0 <= j < i && in_recall_pool(statuses@, strs(sessions@), opt_view(*session), below@, j)
                    ==> out@.contains(j as usize),
        decreases statuses@.len() - i,
    {
        let complete = match statuses[i] {
            ArchiveStatus::Complete => true,
            _ => false,
        };
        let of_session = match session {
            Some(s) => str_eq(sessions[i].as_str(), s.as_str()),
            None => true,
        };
        if complete && of_session && !below[i] {
            let ghost before = out@;
            out.push(i);
            assert forall|j: int|
                0 <= j < i && in_recall_pool(statuses@, strs(sessions@), opt_view(*session), below@, j)
                    implies out@.contains(j as usize) by {
                let k = choose|k: int| 0 <= k < before.len() && before[k] == j as usize;
                assert(out@[k] == j as usize);
            }
            assert(out@[out@.len() - 1] == i);
        }
        i = i + 1;
    }
    out
}

pub(crate) proof fn lemma_distinct_below_bound(s: Seq<usize>, n: nat)
    requires
        s.no_duplicates(),
        forall|k: int| 0 <= k < s.len() ==> #[trigger] s[k] < n,
    ensures
        s.len() <= n,
    decreases n,
{
    if n == 0 {
        if s.len() > 0 {
            assert(s[0] < n);
        }
    } else if s.contains((n - 1) as usize) {
        let j = choose|j: int| 0 <= j < s.len() && s[j] == (n - 1) as usize;
        let t = s.remove(j);
        assert forall|k: int| 0 <= k < t.len() implies #[trigger] t[k] < (n - 1) as nat by {
            if k < j {
                assert(t[k] == s[k] && k != j);
            } else {
                assert(t[k] == s[k + 1] && k + 1 != j);
            }
        }
        assert(t.no_duplicates()) by {
            assert forall|a: int, b: int| 0 <= a < t.len() && 0 <= b < t.len() && a != b implies t[a] != t[b] by {
                let sa = if a < j { a } else { a + 1 };
                let sb = if b < j { b } else { b + 1 };
                assert(t[a] == s[sa] && t[b] == s[sb] && sa != sb);
            }
        }
        lemma_distinct_below_bound(t, (n - 1) as nat);
    } else {
        assert forall|k: int| 0 <= k < s.len() implies #[trigger] s[k] < (n - 1) as nat by {
            assert(s[k] != (n - 1) as usize);
        }
        lemma_distinct_below_bound(s, (n - 1) as nat);
    }
}

pub(crate) proof fn lemma_distinct_below_covers(s: Seq<usize>, n: nat, q: int)
    requires
        s.no_duplicates(),
        s.len() == n,
        forall|k: int| 0 <= k < s.len() ==> #[trigger] s[k] < n,
        0 <= q < n,
    ensures
        s.contains(q as usize),
{
    if !s.contains(q as usize) {
        let t = Seq::new(s.len(), |k: int| if s[k] > q as usize { (s[k] - 1) as usize } else { s[k] });
        assert forall|k: int| 0 <= k < t.len() implies #[trigger] t[k] < (n - 1) as nat by {
            assert(s[k] != q as usize);
        }
        assert(t.no_duplicates()) by {
            assert forall|a: int, b: int| 0 <= a < t.len() && 0 <= b < t.len() && a != b implies t[a] != t[b] by {
                assert(s[a] != s[b]);
                assert(s[a] != q as usize && s[b] != q as usize);
            }
        }
        lemma_distinct_below_bound(t, (n - 1) as nat);
    }
}

/// The archive entries a recall returns, best first: of the entries in the
/// recall pool, the `limit` (or default) best ranked by score, then
/// weight, then identifier.
pub fn select_recall_entries(
    statuses: &Vec<ArchiveStatus>,
    sessions: &Vec<String>,
    session: &Option<String>,
    below_min_freshness: &Vec<bool>,
    entries: &Vec<ScoredEntry>,
    limit: usize,
    default_limit: usize,
) -> (r: Vec<usize>)
    requires
        sessions@.len() == statuses@.len(),
        below_min_freshness@.len() == statuses@.len(),
        entries@.len() == statuses@.len(),
    ensures
        r@.no_duplicates(),
        r@.len() <= recall_limit_of(limit, default_limit),
        forall|k: int| 0 <= k < r@.len() ==> #[trigger] r@[k] < entries@.len() && in_recall_pool(
            statuses@,
            strs(sessions@),
            opt_view(*session),
            below_min_freshness@,
            r@[k] as int,
        ),
        r@.len() < recall_limit_of(limit, default_limit) ==> forall|i: int|
            0 <= i < entries@.len() && in_recall_pool(
                statuses@,
                strs(sessions@),
                opt_view(*session),
                below_min_freshness@,
                i,
            ) ==> r@.contains(i as usize),
        forall|a: int, b: int|
            0 <= a < b < r@.len() ==> recall_before(entries@, #[trigger] r@[a] as int, #[trigger] r@[b] as int),
        forall|k: int, i: int|
            0 <= k < r@.len() && 0 <= i < entries@.len() && in_recall_pool(
                statuses@,
                strs(sessions@),
                opt_view(*session),
                below_min_freshness@,
                i,
            ) && !r@.contains(i as usize) ==> #[trigger] recall_before(entries@, r@[k] as int, i),
{
    let n_entries = entries.len();
    let p = pool_indices(statuses, sessions, session, below_min_freshness);
    let mut sub: Vec<ScoredEntry> = Vec::new();
    let mut t: usize = 0;
    while t < p.len()
        invariant
            t <= p@.len(),
            sub@.len() == t,
            entries@.len() == statuses@.len(),
            forall|k: int| 0 <= k < p@.len() ==> #[trigger] p@[k] < statuses@.len(),
            forall|k: int|
                0 <= k < t ==> recall_key(#[trigger] sub@[k]) == recall_key(entries@[p@[k] as int]),
        decreases p@.len() - t,
    {
        let e = &entries[p[t]];
        let copy = ScoredEntry { archive_id: e.archive_id.clone(), score: e.score, weight: e.weight };
        assert(recall_key(copy) =~= recall_key(*e));
        sub.push(copy);
        t = t + 1;
    }
    let lim = if limit == 0 {
        default_limit
    } else {
        limit
    };
    let picked = rank_recall_entries(&sub, lim);
    let mut out: Vec<usize> = Vec::new();
    let mut u: usize = 0;
    while u < picked.len()
        invariant
            u <= picked@.len(),
            out@.len() == u,
            forall|k: int| 0 <= k < picked@.len() ==> #[trigger] picked@[k] < sub@.len(),
            sub@.len() == p@.len(),
            forall|k: int| 0 <= k < u ==> out@[k] == p@[#[trigger] picked@[k] as int],
        decreases picked@.len() - u,
    {
        out.push(p[picked[u]]);
        u = u + 1;
    }
    proof {
        assert(entries@.len() == n_entries);
        let pv = p@;
        let kv = picked@;
        assert forall|a: int, b: int| 0 <= a < pv.len() && 0 <= b < pv.len() implies recall_before(
            sub@,
            a,
            b,
        ) == recall_before(entries@, #[trigger] pv[a] as int, #[trigger] pv[b] as int) by {
            assert(recall_key(sub@[a]) == recall_key(entries@[pv[a] as int]));
            assert(recall_key(sub@[b]) == recall_key(entries@[pv[b] as int]));
            if a < b {
                assert(pv[a] < pv[b]);
            } else if b < a {
                assert(pv[b] < pv[a]);
            }
        }
        assert forall|x: int, y: int| 0 <= x < out@.len() && 0 <= y < out@.len() && x != y implies out@[x]
            != out@[y] by {
            assert(out@[x] == pv[kv[x] as int]);
            assert(out@[y] == pv[kv[y] as int]);
            assert(kv[x] != kv[y]);
            if kv[x] < kv[y] {
                assert(pv[kv[x] as int] < pv[kv[y] as int]);
            } else {
                assert(pv[kv[y] as int] < pv[kv[x] as int]);
            }
        }
        assert forall|a: int, b: int| 0 <= a < b < out@.len() implies recall_before(
            entries@,
            #[trigger] out@[a] as int,
            #[trigger] out@[b] as int,
        ) by {
            assert(recall_before(sub@, kv[a] as int, kv[b] as int));
            assert(out@[a] == pv[kv[a] as int]);
            assert(out@[b] == pv[kv[b] as int]);
        }
        assert forall|k: int| 0 <= k < out@.len() implies #[trigger] out@[k] < entries@.len() && in_recall_pool(
            statuses@,
            strs(sessions@),
            opt_view(*session),
            below_min_freshness@,
            out@[k] as int,
        ) by {
            assert(out@[k] == pv[kv[k] as int]);
        }
        assert forall|k: int, i: int|
            0 <= k < out@.len() && 0 <= i < entries@.len() && in_recall_pool(
                statuses@,
                strs(sessions@),
                opt_view(*session),
                below_min_freshness@,
                i,
            ) && !out@.contains(i as usize) implies #[trigger] recall_before(entries@, out@[k] as int, i) by {
            assert(pv.contains(i as usize));
            let q = choose|q: int| 0 <= q < pv.len() && pv[q] == i as usize;
            if kv.contains(q as usize) {
                let z = choose|z: int| 0 <= z < kv.len() && kv[z] == q as usize;
                assert(out@[z] == i as usize);
                assert(out@.contains(i as usize));
            }
            assert(recall_before(sub@, kv[k] as int, q));
            assert(out@[k] == pv[kv[k] as int]);
            assert(recall_before(sub@, kv[k] as int, q) == recall_before(
                entries@,
                pv[kv[k] as int] as int,
                pv[q] as int,
            ));
            assert(pv[q] as int == i);
            assert(out@[k] as int == pv[kv[k] as int] as int);
        }
        if out@.len() < lim {
            assert forall|i: int|
                0 <= i < entries@.len() && in_recall_pool(
                    statuses@,
                    strs(sessions@),
                    opt_view(*session),
                    below_min_freshness@,
                    i,
                ) implies out@.contains(i as usize) by {
                assert(pv.contains(i as usize));
                let q = choose|q: int| 0 <= q < pv.len() && pv[q] == i as usize;
                assert(kv.len() == sub@.len());
                lemma_distinct_below_covers(kv, sub@.len(), q);
                let z = choose|z: int| 0 <= z < kv.len() && kv[z] == q as usize;
                assert(out@[z] == i as usize);
            }
        }
    }
    out
}

} // verus!
