//! Which events of a session a sleep run compresses: the heaviest eligible
//! events, up to a limit, listed in time order.

use vstd::prelude::*;

use crate::ordering::{
    float_order_key, index_before, key_before, key_view, lemma_index_before_asym,
    lemma_index_before_trans, lemma_key_irrefl, lemma_key_total, lemma_key_trans, lists_positions,
    part_before, sorted_by_keys, stable_order, total_order_key, KeyPart,
};
use crate::strset::{lemma_lex_irrefl, lex_lt};
use crate::types::{F64Bits, ImportanceHint};

verus! {

/// What the selection reads of a stored event. `meets_min_weight` says
/// whether the event's weight reaches the configured minimum (`>=` on the
/// `f64` values).
#[derive(Debug)]
pub struct SleepEventCandidate {
    pub event_id: String,
    pub timestamp: String,
    pub weight: F64Bits,
    pub meets_min_weight: bool,
    pub importance: ImportanceHint,
}

/// An event is eligible when its weight reaches the minimum or its
/// importance is high or critical.
pub open spec fn sleep_event_eligible(c: SleepEventCandidate) -> bool {
    c.meets_min_weight || c.importance == ImportanceHint::High || c.importance
        == ImportanceHint::Critical
}

/// Whether any event is eligible.
pub open spec fn any_eligible(cs: Seq<SleepEventCandidate>) -> bool {
    exists|j: int| 0 <= j < cs.len() && sleep_event_eligible(#[trigger] cs[j])
}

/// The events the selection draws from: the eligible ones, or every event
/// when none is eligible.
pub open spec fn in_sleep_pool(cs: Seq<SleepEventCandidate>, i: int) -> bool {
    0 <= i < cs.len() && (sleep_event_eligible(cs[i]) || !any_eligible(cs))
}

/// The rank of an event: heavier first (in `f64::total_cmp` order), then
/// later, then by identifier.
pub open spec fn sleep_rank_key(c: SleepEventCandidate) -> Seq<(int, int, Seq<char>)> {
    seq![
        (1int, total_order_key(c.weight.bits) as int, Seq::<char>::empty()),
        (3int, 0int, c.timestamp@),
        (2int, 0int, c.event_id@),
    ]
}

/// Whether event `a` ranks before event `b`; events of equal rank keep
/// their order.
pub open spec fn sleep_rank_before(cs: Seq<SleepEventCandidate>, a: int, b: int) -> bool {
    key_before(sleep_rank_key(cs[a]), sleep_rank_key(cs[b])) || (sleep_rank_key(cs[a])
        == sleep_rank_key(cs[b]) && a < b)
}

proof fn lemma_rank_trans(cs: Seq<SleepEventCandidate>, a: int, b: int, c: int)
    requires
        sleep_rank_before(cs, a, b),
        sleep_rank_before(cs, b, c),
    ensures
        sleep_rank_before(cs, a, c),
{
    let (ka, kb, kc) = (sleep_rank_key(cs[a]), sleep_rank_key(cs[b]), sleep_rank_key(cs[c]));
    if key_before(ka, kb) && key_before(kb, kc) {
        lemma_key_trans(ka, kb, kc);
    }
}

proof fn lemma_rank_asym(cs: Seq<SleepEventCandidate>, a: int, b: int)
    ensures
        !sleep_rank_before(cs, a, a),
        sleep_rank_before(cs, a, b) ==> !sleep_rank_before(cs, b, a),
{
    lemma_key_irrefl(sleep_rank_key(cs[a]));
    if sleep_rank_before(cs, a, b) && sleep_rank_before(cs, b, a) {
        lemma_rank_trans(cs, a, b, a);
    }
}

/// A single text key compares as its text does.
proof fn lemma_text_key(a: Seq<char>, b: Seq<char>)
    ensures
        key_before(seq![(2int, 0int, a)], seq![(2int, 0int, b)]) == lex_lt(a, b),
        (seq![(2int, 0int, a)] == seq![(2int, 0int, b)]) == (a == b),
{
    let ka = seq![(2int, 0int, a)];
    let kb = seq![(2int, 0int, b)];
    assert(ka.drop_first() =~= Seq::<(int, int, Seq<char>)>::empty());
    assert(kb.drop_first() =~= Seq::<(int, int, Seq<char>)>::empty());
    assert(ka[0] == (2int, 0int, a));
    assert(kb[0] == (2int, 0int, b));
    if a == b {
        lemma_lex_irrefl(a);
        assert(!key_before(ka.drop_first(), kb.drop_first()));
    } else {
        assert(ka[0] != kb[0]);
    }
    if ka == kb {
        assert(ka[0] == kb[0]);
    }
}

fn eligible(c: &SleepEventCandidate) -> (r: bool)
    ensures
        r == sleep_event_eligible(*c),
{
    c.meets_min_weight || c.importance == ImportanceHint::High || c.importance
        == ImportanceHint::Critical
}

fn rank_parts(c: &SleepEventCandidate) -> (r: Vec<KeyPart>)
    ensures
        key_view(r@) == sleep_rank_key(*c),
{
    let mut parts: Vec<KeyPart> = Vec::new();
    parts.push(KeyPart::Descending(float_order_key(c.weight.bits)));
    parts.push(KeyPart::TextDescending(c.timestamp.clone()));
    parts.push(KeyPart::TextAscending(c.event_id.clone()));
    assert(key_view(parts@) =~= sleep_rank_key(*c));
    parts
}

fn time_parts(c: &SleepEventCandidate) -> (r: Vec<KeyPart>)
    ensures
        key_view(r@) == seq![(2int, 0int, c.timestamp@)],
{
    let mut parts: Vec<KeyPart> = Vec::new();
    parts.push(KeyPart::TextAscending(c.timestamp.clone()));
    assert(key_view(parts@) =~= seq![(2int, 0int, c.timestamp@)]);
    parts
}

/// Chooses the events a sleep run compresses: among the eligible events (or
/// all of them when none is eligible), the `max_events` best ranked ones
/// (heavier, then later, then by identifier), listed by timestamp, events
/// with the same timestamp in rank order. Returns their positions.
pub fn select_sleep_events(candidates: &Vec<SleepEventCandidate>, max_events: usize) -> (r: Vec<usize>)
    ensures
        r@.no_duplicates(),
        r@.len() <= max_events,
        forall|k: int| 0 <= k < r@.len() ==> in_sleep_pool(candidates@, #[trigger] r@[k] as int),
        r@.len() < max_events ==> forall|i: int| #[trigger] in_sleep_pool(candidates@, i) ==> r@.contains(
            i as usize,
        ),
        forall|k: int, i: int|
            0 <= k < r@.len() && #[trigger] in_sleep_pool(candidates@, i) && !r@.contains(i as usize)
                ==> sleep_rank_before(candidates@, #[trigger] r@[k] as int, i),
        forall|a: int, b: int|
            0 <= a < b < r@.len() ==> {
                let ta = candidates@[#[trigger] r@[a] as int].timestamp@;
                let tb = candidates@[#[trigger] r@[b] as int].timestamp@;
                lex_lt(ta, tb) || (ta == tb && sleep_rank_before(candidates@, r@[a] as int, r@[b] as int))
            },
{
    let ghost cs = candidates@;
    let n = candidates.len();
    let mut any = false;
    let mut i: usize = 0;
    while i < n
        invariant
            n == cs.len(),
            cs == candidates@,
            i <= n,
            any == exists|j: int| 0 <= j < i && sleep_event_eligible(#[trigger] cs[j]),
        decreases n - i,
    {
        if eligible(&candidates[i]) {
            any = true;
        }
        i = i + 1;
    }
    assert(any == any_eligible(cs));

    // the pool, in event order, with the rank key of each member
    let mut pool: Vec<usize> = Vec::new();
    let mut keys: Vec<Vec<KeyPart>> = Vec::new();
    i = 0;
    while i < n
        invariant
            n == cs.len(),
            cs == candidates@,
            any == any_eligible(cs),
            i <= n,
            pool@.len() == keys@.len(),
            forall|k: int| 0 <= k < pool@.len() ==> #[trigger] pool@[k] < i && in_sleep_pool(cs, pool@[k] as int),
            forall|a: int, b: int| 0 <= a < b < pool@.len() ==> #[trigger] pool@[a] < #[trigger] pool@[b],
            forall|j: int| 0 <= j < i && #[trigger] in_sleep_pool(cs, j) ==> pool@.contains(j as usize),
            forall|k: int| 0 <= k < keys@.len() ==> key_view(#[trigger] keys@[k]@) == sleep_rank_key(cs[pool@[k] as int]),
        decreases n - i,
    {
        if !any || eligible(&candidates[i]) {
            let ghost before = pool@;
            pool.push(i);
            keys.push(rank_parts(&candidates[i]));
            assert forall|j: int| 0 <= j < i + 1 && #[trigger] in_sleep_pool(cs, j) implies pool@.contains(j as usize) by {
                if j == i {
                    assert(pool@[pool@.len() - 1] == i);
                } else {
                    let k = choose|k: int| 0 <= k < before.len() && before[k] == j as usize;
                    assert(pool@[k] == before[k]);
                }
            }
        } else {
            assert forall|j: int| 0 <= j < i + 1 && #[trigger] in_sleep_pool(cs, j) implies pool@.contains(j as usize) by {
                if j == i {
                    assert(sleep_event_eligible(cs[j]));
                }
            }
        }
        i = i + 1;
    }
    let ghost pv = pool@;
    let ghost kv = keys@;
    assert forall|p: int, q: int| 0 <= p < pv.len() && 0 <= q < pv.len() implies index_before(kv, p, q)
        == sleep_rank_before(cs, #[trigger] pv[p] as int, #[trigger] pv[q] as int) by {
        assert(key_view(kv[p]@) == sleep_rank_key(cs[pv[p] as int]));
        assert(key_view(kv[q]@) == sleep_rank_key(cs[pv[q] as int]));
        if p < q {
            assert(pv[p] < pv[q]);
        } else if q < p {
            assert(pv[q] < pv[p]);
        }
    }

    let order = stable_order(&keys);
    let m: usize = if max_events < pool.len() {
        max_events
    } else {
        pool.len()
    };

    // the best ranked `m` events, in rank order, with their time keys
    let mut top: Vec<usize> = Vec::new();
    let mut keys2: Vec<Vec<KeyPart>> = Vec::new();
    let mut t: usize = 0;
    while t < m
        invariant
            m <= pv.len(),
            pv == pool@,
            kv == keys@,
            cs == candidates@,
            lists_positions(order@, pv.len()),
            t <= m,
            top@.len() == t,
            keys2@.len() == t,
            forall|k: int| 0 <= k < t ==> #[trigger] top@[k] == pv[order@[k] as int],
            forall|k: int| 0 <= k < t ==> key_view(#[trigger] keys2@[k]@) == seq![(2int, 0int, cs[top@[k] as int].timestamp@)],
            forall|k: int| 0 <= k < pv.len() ==> (#[trigger] pv[k] as int) < cs.len(),
        decreases m - t,
    {
        let e = pool[order[t]];
        top.push(e);
        keys2.push(time_parts(&candidates[e]));
        t = t + 1;
    }
    let ghost tv = top@;
    let ghost k2 = keys2@;
    // top is in strict rank order
    assert forall|a: int, b: int| 0 <= a < b < tv.len() implies sleep_rank_before(cs, #[trigger] tv[a] as int, #[trigger] tv[b] as int) by {
        assert(index_before(kv, order@[a] as int, order@[b] as int));
        assert(tv[a] == pv[order@[a] as int] && tv[b] == pv[order@[b] as int]);
    }
    assert forall|p: int, q: int| 0 <= p < q < tv.len() && index_before(k2, p, q) implies {
        let ta = cs[#[trigger] tv[p] as int].timestamp@;
        let tb = cs[#[trigger] tv[q] as int].timestamp@;
        lex_lt(ta, tb) || (ta == tb && sleep_rank_before(cs, tv[p] as int, tv[q] as int))
    } by {
        lemma_text_key(cs[tv[p] as int].timestamp@, cs[tv[q] as int].timestamp@);
    }
    assert forall|p: int, q: int| 0 <= q < p < tv.len() && index_before(k2, p, q) implies {
        let ta = cs[#[trigger] tv[p] as int].timestamp@;
        let tb = cs[#[trigger] tv[q] as int].timestamp@;
        lex_lt(ta, tb)
    } by {
        lemma_text_key(cs[tv[p] as int].timestamp@, cs[tv[q] as int].timestamp@);
    }

    let order2 = stable_order(&keys2);
    let mut out: Vec<usize> = Vec::new();
    let mut k: usize = 0;
    while k < m
        invariant
            m == tv.len(),
            tv == top@,
            k2 == keys2@,
            lists_positions(order2@, m as nat),
            k <= m,
            out@.len() == k,
            forall|j: int| 0 <= j < k ==> #[trigger] out@[j] == tv[order2@[j] as int],
        decreases m - k,
    {
        out.push(top[order2[k]]);
        k = k + 1;
    }
    proof {
        let ov = out@;
        let o2 = order2@;
        // members of the result are pool members
        assert forall|j: int| 0 <= j < ov.len() implies in_sleep_pool(cs, #[trigger] ov[j] as int) by {
            assert(ov[j] == tv[o2[j] as int]);
            assert(tv[o2[j] as int] == pv[order@[o2[j] as int] as int]);
            assert(order@[o2[j] as int] < pv.len());
        }
        // every top member is in the result
        assert forall|t2: int| 0 <= t2 < tv.len() implies ov.contains(#[trigger] tv[t2]) by {
            assert(o2.contains(t2 as usize));
            let j = choose|j: int| 0 <= j < o2.len() && o2[j] == t2 as usize;
            assert(ov[j] == tv[t2]);
        }
        // no duplicates: distinct top positions hold distinct events
        assert forall|a: int, b: int| 0 <= a < ov.len() && 0 <= b < ov.len() && a != b implies ov[a] != ov[b] by {
            let pa = o2[a] as int;
            let pb = o2[b] as int;
            assert(o2[a] != o2[b]);
            assert(ov[a] == tv[pa] && ov[b] == tv[pb]);
            if pa < pb {
                lemma_rank_asym(cs, tv[pa] as int, tv[pb] as int);
            } else {
                lemma_rank_asym(cs, tv[pb] as int, tv[pa] as int);
            }
        }
        // time order of the result
        assert forall|a: int, b: int| 0 <= a < b < ov.len() implies {
            let ta = cs[#[trigger] ov[a] as int].timestamp@;
            let tb = cs[#[trigger] ov[b] as int].timestamp@;
            lex_lt(ta, tb) || (ta == tb && sleep_rank_before(cs, ov[a] as int, ov[b] as int))
        } by {
            let pa = o2[a] as int;
            let pb = o2[b] as int;
            assert(index_before(k2, pa, pb));
            assert(ov[a] == tv[pa] && ov[b] == tv[pb]);
            if pb < pa {
                lemma_index_before_asym(k2, pa, pb);
            }
        }
        // the best ranked: a pool member left out ranks after every member
        assert forall|j: int, x: int|
            0 <= j < ov.len() && #[trigger] in_sleep_pool(cs, x) && !ov.contains(x as usize) implies sleep_rank_before(
            cs,
            #[trigger] ov[j] as int,
            x,
        ) by {
            assert(pv.contains(x as usize));
            let p = choose|p: int| 0 <= p < pv.len() && pv[p] == x as usize;
            assert(order@.contains(p as usize));
            let q = choose|q: int| 0 <= q < order@.len() && order@[q] == p as usize;
            if q < m {
                assert(tv[q] == pv[p]);
                assert(ov.contains(tv[q]));
            }
            let t2 = o2[j] as int;
            assert(ov[j] == tv[t2]);
            assert(tv[t2] == pv[order@[t2] as int]);
            assert(index_before(kv, order@[t2] as int, order@[q] as int));
        }
        if ov.len() < max_events {
            assert forall|x: int| #[trigger] in_sleep_pool(cs, x) implies ov.contains(x as usize) by {
                assert(pv.contains(x as usize));
                let p = choose|p: int| 0 <= p < pv.len() && pv[p] == x as usize;
                assert(order@.contains(p as usize));
                let q = choose|q: int| 0 <= q < order@.len() && order@[q] == p as usize;
                assert(tv[q] == pv[p]);
            }
        }
    }
    out
}

/// A sleep keeps every important event: when the limit leaves room for
/// all events, every event whose importance is high or critical, or whose
/// weight reaches the minimum, is selected, whatever the other events.
/// `r` is any selection that meets the contract of `select_sleep_events`.
pub proof fn lemma_important_events_are_selected(
    cs: Seq<SleepEventCandidate>,
    max_events: usize,
    r: Seq<usize>,
)
    requires
        max_events >= cs.len(),
        r.no_duplicates(),
        r.len() <= max_events,
        forall|k: int| 0 <= k < r.len() ==> in_sleep_pool(cs, #[trigger] r[k] as int),
        r.len() < max_events ==> forall|i: int| #[trigger] in_sleep_pool(cs, i) ==> r.contains(i as usize),
    ensures
        forall|i: int|
            0 <= i < cs.len() && ((#[trigger] cs[i]).importance == ImportanceHint::High
                || cs[i].importance == ImportanceHint::Critical || cs[i].meets_min_weight)
                ==> r.contains(i as usize),
{
    assert forall|i: int|
        0 <= i < cs.len() && ((#[trigger] cs[i]).importance == ImportanceHint::High
            || cs[i].importance == ImportanceHint::Critical || cs[i].meets_min_weight)
            implies r.contains(i as usize) by {
        assert(sleep_event_eligible(cs[i]));
        assert(in_sleep_pool(cs, i));
        if r.len() >= max_events {
            assert forall|k: int| 0 <= k < r.len() implies #[trigger] r[k] < cs.len() by {
                assert(in_sleep_pool(cs, r[k] as int));
            }
            crate::recall::lemma_distinct_below_bound(r, cs.len());
            crate::recall::lemma_distinct_below_covers(r, cs.len(), i);
        }
    }
}

} // verus!
