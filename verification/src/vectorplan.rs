//! How the vector index of a scope is kept in step with its memory units:
//! which rows are live, which units still need an embedding, which results
//! become rows, and how tombstoned rows are compacted away.

use vstd::prelude::*;

use crate::error::MemoryEngineError;
use crate::ordering::{
    float32_order_key, index_before, key_before, key_view, stable_order, total_order_key32, KeyPart,
};
use crate::status::{memory_unit_is_vector_eligible, vector_eligible};
use crate::strset::{contains_str, str_eq};
use crate::text::{decimal, opt_view, strs};
use crate::types::{
    EmbedBatchItem, MemoryUnit, VectorIndexManifest, VectorRow, VectorScopeStatus, VectorTombstone,
};
use crate::vector::{ensure_vector_manifest_matches, EMBED_BATCH_RESULT_SCHEMA_VERSION};
use crate::sleeprun::PendingTask;
use crate::types::{EmbedBatchInputs, TaskType};
use crate::vector::{lower_hex, sha256_of_text, thesis_hash};

verus! {

/// The thesis hash a unit's thesis has: `sha256:` and its hex digest.
pub open spec fn hash_of(thesis: Seq<char>) -> Seq<char> {
    "sha256:"@ + lower_hex(sha256_of_text(thesis))
}

/// Whether the index holds a tombstone for unit `id`.
pub open spec fn tombstoned(ts: Seq<VectorTombstone>, id: Seq<char>) -> bool {
    exists|i: int| 0 <= i < ts.len() && (#[trigger] ts[i]).memory_unit_id@ == id
}

/// The thesis hash of the live row of unit `id`: its last row, unless the
/// unit is tombstoned.
pub open spec fn live_hash(rows: Seq<VectorRow>, ts: Seq<VectorTombstone>, id: Seq<char>) -> Option<Seq<char>>
    decreases rows.len(),
{
    if rows.len() == 0 || tombstoned(ts, id) {
        None
    } else if rows.last().memory_unit_id@ == id {
        Some(rows.last().thesis_hash@)
    } else {
        live_hash(rows.drop_last(), ts, id)
    }
}

fn is_tombstoned(ts: &Vec<VectorTombstone>, id: &str) -> (r: bool)
    ensures
        r == tombstoned(ts@, id@),
{
    let mut i: usize = 0;
    while i < ts.len()
        invariant
            i <= ts@.len(),
            forall|k: int| 0 <= k < i ==> (#[trigger] ts@[k]).memory_unit_id@ != id@,
        decreases ts@.len() - i,
    {
        if str_eq(ts[i].memory_unit_id.as_str(), id) {
            assert(ts@[i as int].memory_unit_id@ == id@);
            return true;
        }
        i = i + 1;
    }
    false
}

/// The thesis hash of the live row of unit `id`, if it has one.
pub fn live_row_hash(rows: &Vec<VectorRow>, ts: &Vec<VectorTombstone>, id: &str) -> (r: Option<String>)
    ensures
        match r {
            Some(h) => live_hash(rows@, ts@, id@) == Some(h@),
            None => live_hash(rows@, ts@, id@) is None,
        },
{
    if is_tombstoned(ts, id) {
        return None;
    }
    let mut i: usize = rows.len();
    assert(rows@.take(i as int) =~= rows@);
    while i > 0
        invariant
            i <= rows@.len(),
            !tombstoned(ts@, id@),
            live_hash(rows@, ts@, id@) == live_hash(rows@.take(i as int), ts@, id@),
        decreases i,
    {
        assert(rows@.take(i as int).drop_last() =~= rows@.take(i - 1));
        assert(rows@.take(i as int).last() == rows@[i - 1]);
        if str_eq(rows[i - 1].memory_unit_id.as_str(), id) {
            return Some(rows[i - 1].thesis_hash.clone());
        }
        i = i - 1;
    }
    None
}

// ---------------------------------------------------------------- backfill

/// What a backfill does with an eligible unit: nothing when an embedding is
/// pending for it or its live row has its current thesis hash (0); ask for an
/// embedding when it has no live row (1); tombstone its stale row and ask
/// for an embedding (2).
pub open spec fn backfill_action(
    u: MemoryUnit,
    rows: Seq<VectorRow>,
    ts: Seq<VectorTombstone>,
    pending: Seq<Seq<char>>,
) -> int {
    if pending.contains(u.memory_unit_id@) {
        0
    } else {
        match live_hash(rows, ts, u.memory_unit_id@) {
            Some(h) => if h == hash_of(u.thesis@) {
                0
            } else {
                2
            },
            None => 1,
        }
    }
}

/// The positions of the units that need an embedding, in order.
pub open spec fn backfill_missing(
    units: Seq<MemoryUnit>,
    rows: Seq<VectorRow>,
    ts: Seq<VectorTombstone>,
    pending: Seq<Seq<char>>,
) -> Seq<usize>
    decreases units.len(),
{
    if units.len() == 0 {
        Seq::empty()
    } else {
        let prev = backfill_missing(units.drop_last(), rows, ts, pending);
        if backfill_action(units.last(), rows, ts, pending) != 0 {
            prev.push((units.len() - 1) as usize)
        } else {
            prev
        }
    }
}

/// The units whose stale rows get a tombstone, in order.
pub open spec fn backfill_tombstones(
    units: Seq<MemoryUnit>,
    rows: Seq<VectorRow>,
    ts: Seq<VectorTombstone>,
    pending: Seq<Seq<char>>,
) -> Seq<Seq<char>>
    decreases units.len(),
{
    if units.len() == 0 {
        Seq::empty()
    } else {
        let prev = backfill_tombstones(units.drop_last(), rows, ts, pending);
        if backfill_action(units.last(), rows, ts, pending) == 2 {
            prev.push(units.last().memory_unit_id@)
        } else {
            prev
        }
    }
}

/// What a backfill of a scope asks for.
#[derive(Debug)]
pub struct BackfillPlan {
    /// Positions of the units to embed, in order.
    pub missing: Vec<usize>,
    /// Units whose stale rows are tombstoned.
    pub new_tombstones: Vec<String>,
}

/// Plans a backfill over the eligible units of a scope: see
/// `backfill_action`.
pub fn plan_embedding_backfill(
    units: &Vec<MemoryUnit>,
    rows: &Vec<VectorRow>,
    ts: &Vec<VectorTombstone>,
    pending: &Vec<String>,
) -> (r: BackfillPlan)
    ensures
        r.missing@ == backfill_missing(units@, rows@, ts@, strs(pending@)),
        strs(r.new_tombstones@) == backfill_tombstones(units@, rows@, ts@, strs(pending@)),
{
    let ghost pv = strs(pending@);
    let mut missing: Vec<usize> = Vec::new();
    let mut stale: Vec<String> = Vec::new();
    let mut i: usize = 0;
    while i < units.len()
        invariant
            i <= units@.len(),
            pv == strs(pending@),
            missing@ == backfill_missing(units@.take(i as int), rows@, ts@, pv),
            strs(stale@) == backfill_tombstones(units@.take(i as int), rows@, ts@, pv),
        decreases units@.len() - i,
    {
        let u = &units[i];
        assert(units@.take(i + 1).drop_last() =~= units@.take(i as int));
        assert(units@.take(i + 1).last() == *u);
        if !contains_str(pending, u.memory_unit_id.as_str()) {
            let hash = thesis_hash(u.thesis.as_str());
            match live_row_hash(rows, ts, u.memory_unit_id.as_str()) {
                Some(h) => {
                    if !str_eq(h.as_str(), hash.as_str()) {
                        missing.push(i);
                        let ghost prev = strs(stale@);
                        stale.push(u.memory_unit_id.clone());
                        assert(strs(stale@) =~= prev.push(u.memory_unit_id@));
                    }
                },
                None => {
                    missing.push(i);
                },
            }
        }
        i = i + 1;
    }
    assert(units@.take(units@.len() as int) =~= units@);
    BackfillPlan { missing, new_tombstones: stale }
}

proof fn lemma_live_hash_same_tombstones(
    rows: Seq<VectorRow>,
    ts: Seq<VectorTombstone>,
    ts2: Seq<VectorTombstone>,
    id: Seq<char>,
)
    requires
        tombstoned(ts, id) == tombstoned(ts2, id),
    ensures
        live_hash(rows, ts, id) == live_hash(rows, ts2, id),
    decreases rows.len(),
{
    if rows.len() > 0 {
        lemma_live_hash_same_tombstones(rows.drop_last(), ts, ts2, id);
    }
}

/// A backfill is not asked for twice: once every unit it planned to embed
/// is pending (with everything pending before), and its stale rows are
/// tombstoned (no other tombstone being added), a second plan over the
/// same units and rows finds nothing to embed.
pub proof fn lemma_backfill_not_repeated(
    units: Seq<MemoryUnit>,
    rows: Seq<VectorRow>,
    ts: Seq<VectorTombstone>,
    pending: Seq<Seq<char>>,
    ts2: Seq<VectorTombstone>,
    pending2: Seq<Seq<char>>,
)
    requires
        units.len() <= usize::MAX,
        forall|t: Seq<char>| pending.contains(t) ==> pending2.contains(t),
        forall|k: int|
            0 <= k < backfill_missing(units, rows, ts, pending).len() ==> pending2.contains(
                units[#[trigger] backfill_missing(units, rows, ts, pending)[k] as int].memory_unit_id@,
            ),
        forall|t: Seq<char>| tombstoned(ts2, t) ==> tombstoned(ts, t) || pending2.contains(t),
        forall|t: Seq<char>| tombstoned(ts, t) ==> tombstoned(ts2, t),
    ensures
        backfill_missing(units, rows, ts2, pending2).len() == 0,
    decreases units.len(),
{
    if units.len() > 0 {
        let prev = units.drop_last();
        let m = backfill_missing(units, rows, ts, pending);
        let pm = backfill_missing(prev, rows, ts, pending);
        assert forall|k: int| 0 <= k < pm.len() implies pending2.contains(
            prev[#[trigger] pm[k] as int].memory_unit_id@,
        ) by {
            lemma_backfill_missing_below(prev, rows, ts, pending);
            assert(m[k] == pm[k]);
            assert(prev[pm[k] as int] == units[pm[k] as int]);
        }
        lemma_backfill_not_repeated(prev, rows, ts, pending, ts2, pending2);
        let u = units.last();
        let id = u.memory_unit_id@;
        if !pending2.contains(id) {
            if backfill_action(u, rows, ts, pending) != 0 {
                assert(m[pm.len() as int] == (units.len() - 1) as usize);
                assert(pending2.contains(units[m[pm.len() as int] as int].memory_unit_id@));
                assert(false);
            }
            assert(tombstoned(ts, id) == tombstoned(ts2, id));
            lemma_live_hash_same_tombstones(rows, ts, ts2, id);
        }
    }
}

proof fn lemma_backfill_missing_below(
    units: Seq<MemoryUnit>,
    rows: Seq<VectorRow>,
    ts: Seq<VectorTombstone>,
    pending: Seq<Seq<char>>,
)
    requires
        units.len() <= usize::MAX,
    ensures
        forall|k: int|
            0 <= k < backfill_missing(units, rows, ts, pending).len() ==> #[trigger] backfill_missing(
                units,
                rows,
                ts,
                pending,
            )[k] < units.len(),
    decreases units.len(),
{
    if units.len() > 0 {
        lemma_backfill_missing_below(units.drop_last(), rows, ts, pending);
        let prev = backfill_missing(units.drop_last(), rows, ts, pending);
        let m = backfill_missing(units, rows, ts, pending);
        assert forall|k: int| 0 <= k < m.len() implies #[trigger] m[k] < units.len() by {
            if k < prev.len() {
                assert(m[k] == prev[k]);
            } else {
                assert(m[k] == (units.len() - 1) as usize);
            }
        }
    }
}

/// Whether some eligible unit has no live row with its current thesis hash.
pub open spec fn index_missing_units(units: Seq<MemoryUnit>, rows: Seq<VectorRow>, ts: Seq<VectorTombstone>) -> bool {
    exists|i: int| 0 <= i < units.len() && live_hash(rows, ts, (#[trigger] units[i]).memory_unit_id@) != Some(
        hash_of(units[i].thesis@),
    )
}

/// Whether the index still lacks an embedding for some eligible unit: the
/// scope is ready only when this is false.
pub fn has_missing_vector_units(units: &Vec<MemoryUnit>, rows: &Vec<VectorRow>, ts: &Vec<VectorTombstone>) -> (r: bool)
    ensures
        r == index_missing_units(units@, rows@, ts@),
{
    let mut i: usize = 0;
    while i < units.len()
        invariant
            i <= units@.len(),
            forall|k: int| 0 <= k < i ==> live_hash(rows@, ts@, (#[trigger] units@[k]).memory_unit_id@) == Some(
                hash_of(units@[k].thesis@),
            ),
        decreases units@.len() - i,
    {
        let u = &units[i];
        let hash = thesis_hash(u.thesis.as_str());
        let same = match live_row_hash(rows, ts, u.memory_unit_id.as_str()) {
            Some(h) => str_eq(h.as_str(), hash.as_str()),
            None => false,
        };
        if !same {
            assert(live_hash(rows@, ts@, units@[i as int].memory_unit_id@) != Some(hash_of(units@[i as int].thesis@)));
            return true;
        }
        i = i + 1;
    }
    false
}

// ---------------------------------------------------------------- batches

/// Splits `count` items into consecutive batches of `batch_size` (at least
/// one) items, the last possibly shorter: their `(start, end)` bounds.
pub fn embed_batch_ranges(count: usize, batch_size: usize) -> (r: Vec<(usize, usize)>)
    ensures
        count == 0 ==> r@.len() == 0,
        count > 0 ==> r@.len() > 0 && r@[0].0 == 0 && r@.last().1 == count,
        forall|k: int| 0 <= k < r@.len() ==> #[trigger] r@[k].0 < r@[k].1 && r@[k].1 - r@[k].0 <= (if batch_size == 0 { 1 } else { batch_size as int }),
        forall|k: int| 0 <= k < r@.len() - 1 ==> #[trigger] r@[k].1 == r@[k + 1].0 && r@[k].1 - r@[k].0 == (if batch_size == 0 { 1 } else { batch_size as int }),
{
    let size: usize = if batch_size == 0 {
        1
    } else {
        batch_size
    };
    let mut out: Vec<(usize, usize)> = Vec::new();
    let mut start: usize = 0;
    while start < count
        invariant
            size >= 1,
            size == (if batch_size == 0 { 1 } else { batch_size as int }),
            start <= count,
            out@.len() == 0 ==> start == 0,
            count == 0 ==> out@.len() == 0,
            out@.len() > 0 && out@.last().1 - out@.last().0 < size ==> out@.last().1 == count,
            out@.len() > 0 ==> out@[0].0 == 0 && out@.last().1 == start,
            forall|k: int| 0 <= k < out@.len() ==> #[trigger] out@[k].0 < out@[k].1 && out@[k].1 - out@[k].0 <= size,
            forall|k: int| 0 <= k < out@.len() - 1 ==> #[trigger] out@[k].1 == out@[k + 1].0 && out@[k].1 - out@[k].0 == size,
        decreases count - start,
    {
        let end: usize = if count - start > size {
            start + size
        } else {
            count
        };
        let ghost prev = out@;
        out.push((start, end));
        proof {
            if prev.len() > 0 {
                let last = prev.len() - 1;
                assert(out@[last] == prev[last]);
                assert(prev[last].1 == start);
                // a short batch ends at `count`, which would have stopped
                // the loop: the batch before the new one is full
                assert(prev[last].1 - prev[last].0 == size);
            }
        }
        start = end;
    }
    out
}

// ---------------------------------------------------------------- results

/// Whether the row of an embedded batch item is appended: its unit is still
/// eligible, its thesis is the one that was embedded, and the unit has no
/// live row with that thesis hash already.
pub open spec fn appends_row(
    item: EmbedBatchItem,
    unit: MemoryUnit,
    rows: Seq<VectorRow>,
    ts: Seq<VectorTombstone>,
) -> bool {
    &&& vector_eligible(unit)
    &&& hash_of(unit.thesis@) == hash_of(item.text@)
    &&& live_hash(rows, ts, item.memory_unit_id@) != Some(hash_of(unit.thesis@))
}

/// The positions of the batch items whose rows are appended, in order.
pub open spec fn appended_items(
    items: Seq<EmbedBatchItem>,
    units: Seq<MemoryUnit>,
    rows: Seq<VectorRow>,
    ts: Seq<VectorTombstone>,
) -> Seq<usize>
    decreases items.len(),
{
    if items.len() == 0 {
        Seq::empty()
    } else {
        let prev = appended_items(items.drop_last(), units, rows, ts);
        let i = items.len() - 1;
        if appends_row(items[i], units[i], rows, ts) {
            prev.push(i as usize)
        } else {
            prev
        }
    }
}

/// The position of the first batch item without a result.
pub open spec fn first_unanswered(items: Seq<EmbedBatchItem>, answered: Seq<Seq<char>>) -> Option<int>
    decreases items.len(),
{
    if items.len() == 0 {
        None
    } else {
        match first_unanswered(items.drop_last(), answered) {
            Some(i) => Some(i),
            None => if answered.contains(items.last().memory_unit_id@) {
                None
            } else {
                Some(items.len() - 1)
            },
        }
    }
}

/// The message for a batch item without a result.
pub open spec fn missing_result_message(id: Seq<char>) -> Seq<char> {
    "embedding result missing memory_unit_id: "@ + id
}

/// What an embedding result adds to the index.
#[derive(Debug)]
pub struct EmbeddingAppend {
    /// Positions of the batch items whose vectors are appended, in order.
    pub items: Vec<usize>,
    /// The rows appended for them, numbered after the existing rows.
    pub rows: Vec<VectorRow>,
}

/// Decides which results of an embedding batch become rows of the index:
/// every item must have a result (the first one without is refused);
/// an item's row is appended when `appends_row` holds for it and its unit
/// (`units[i]` is the stored unit of `items[i]`), numbered after the `rows`
/// already there.
pub fn plan_embedding_append(
    items: &Vec<EmbedBatchItem>,
    result_ids: &Vec<String>,
    units: &Vec<MemoryUnit>,
    rows: &Vec<VectorRow>,
    ts: &Vec<VectorTombstone>,
) -> (r: Result<EmbeddingAppend, MemoryEngineError>)
    requires
        units@.len() == items@.len(),
        rows@.len() + items@.len() <= usize::MAX,
    ensures
        first_unanswered(items@, strs(result_ids@)) matches Some(i) ==> (r matches Err(
            MemoryEngineError::Validation(m),
        ) && m@ == missing_result_message(items@[i].memory_unit_id@)),
        first_unanswered(items@, strs(result_ids@)) is None ==> (r matches Ok(plan) && {
            &&& plan.items@ == appended_items(items@, units@, rows@, ts@)
            &&& plan.rows@.len() == plan.items@.len()
            &&& forall|k: int| 0 <= k < plan.rows@.len() ==> {
                let u = units@[plan.items@[k] as int];
                &&& (#[trigger] plan.rows@[k]).row == rows@.len() + k
                &&& plan.rows@[k].memory_unit_id == u.memory_unit_id
                &&& plan.rows@[k].archive_id == u.archive_id
                &&& plan.rows@[k].created_at == u.created_at
                &&& plan.rows@[k].thesis_hash@ == hash_of(u.thesis@)
            }
        }),
{
    let ghost answered = strs(result_ids@);
    let mut i: usize = 0;
    while i < items.len()
        invariant
            i <= items@.len(),
            answered == strs(result_ids@),
            first_unanswered(items@.take(i as int), answered) is None,
        decreases items@.len() - i,
    {
        assert(items@.take(i + 1).drop_last() =~= items@.take(i as int));
        if !contains_str(result_ids, items[i].memory_unit_id.as_str()) {
            let mut m = "embedding result missing memory_unit_id: ".to_string();
            m.append(items[i].memory_unit_id.as_str());
            proof {
                reveal_strlit("embedding result missing memory_unit_id: ");
                lemma_first_unanswered_prefix(items@, answered, i as int);
            }
            return Err(MemoryEngineError::Validation(m));
        }
        i = i + 1;
    }
    assert(items@.take(items@.len() as int) =~= items@);
    let mut picked: Vec<usize> = Vec::new();
    let mut new_rows: Vec<VectorRow> = Vec::new();
    let mut j: usize = 0;
    while j < items.len()
        invariant
            units@.len() == items@.len(),
            rows@.len() + items@.len() <= usize::MAX,
            j <= items@.len(),
            picked@ == appended_items(items@.take(j as int), units@, rows@, ts@),
            new_rows@.len() == picked@.len(),
            picked@.len() <= j,
            forall|k: int| 0 <= k < new_rows@.len() ==> {
                let u = units@[picked@[k] as int];
                &&& (#[trigger] new_rows@[k]).row == rows@.len() + k
                &&& new_rows@[k].memory_unit_id == u.memory_unit_id
                &&& new_rows@[k].archive_id == u.archive_id
                &&& new_rows@[k].created_at == u.created_at
                &&& new_rows@[k].thesis_hash@ == hash_of(u.thesis@)
            },
        decreases items@.len() - j,
    {
        let item = &items[j];
        let unit = &units[j];
        assert(items@.take(j + 1).drop_last() =~= items@.take(j as int));
        assert(items@.take(j + 1)[j as int] == *item);
        if memory_unit_is_vector_eligible(unit) {
            let hash = thesis_hash(unit.thesis.as_str());
            let item_hash = thesis_hash(item.text.as_str());
            if str_eq(hash.as_str(), item_hash.as_str()) {
                let live_same = match live_row_hash(rows, ts, item.memory_unit_id.as_str()) {
                    Some(h) => str_eq(h.as_str(), hash.as_str()),
                    None => false,
                };
                if !live_same {
                    let row = VectorRow {
                        row: rows.len() + new_rows.len(),
                        memory_unit_id: unit.memory_unit_id.clone(),
                        archive_id: unit.archive_id.clone(),
                        created_at: unit.created_at.clone(),
                        thesis_hash: hash,
                    };
                    picked.push(j);
                    new_rows.push(row);
                }
            }
        }
        j = j + 1;
    }
    assert(items@.take(items@.len() as int) =~= items@);
    Ok(EmbeddingAppend { items: picked, rows: new_rows })
}

proof fn lemma_first_unanswered_prefix(items: Seq<EmbedBatchItem>, answered: Seq<Seq<char>>, i: int)
    requires
        0 <= i < items.len(),
        first_unanswered(items.take(i), answered) is None,
        !answered.contains(items[i].memory_unit_id@),
    ensures
        first_unanswered(items, answered) == Some(i),
    decreases items.len() - i,
{
    if i + 1 < items.len() {
        assert(items.drop_last().take(i) =~= items.take(i));
        assert(items.drop_last()[i] == items[i]);
        lemma_first_unanswered_prefix(items.drop_last(), answered, i);
    } else {
        assert(items.drop_last() =~= items.take(i));
    }
}

// ---------------------------------------------------------------- compaction

/// The positions of the rows that survive a compaction: those of units
/// without a tombstone, in order.
pub open spec fn surviving_rows(rows: Seq<VectorRow>, ts: Seq<VectorTombstone>) -> Seq<usize>
    decreases rows.len(),
{
    if rows.len() == 0 {
        Seq::empty()
    } else {
        let prev = surviving_rows(rows.drop_last(), ts);
        if tombstoned(ts, rows.last().memory_unit_id@) {
            prev
        } else {
            prev.push((rows.len() - 1) as usize)
        }
    }
}

proof fn lemma_surviving_bounds(rows: Seq<VectorRow>, ts: Seq<VectorTombstone>)
    requires
        rows.len() <= usize::MAX,
    ensures
        surviving_rows(rows, ts).len() <= rows.len(),
        forall|k: int| 0 <= k < surviving_rows(rows, ts).len() ==> #[trigger] surviving_rows(rows, ts)[k] < rows.len()
            && !tombstoned(ts, rows[surviving_rows(rows, ts)[k] as int].memory_unit_id@),
    decreases rows.len(),
{
    if rows.len() > 0 {
        lemma_surviving_bounds(rows.drop_last(), ts);
        let prev = surviving_rows(rows.drop_last(), ts);
        let surv = surviving_rows(rows, ts);
        let n = rows.len() - 1;
        assert forall|k: int| 0 <= k < surv.len() implies #[trigger] surv[k] < rows.len() && !tombstoned(
            ts,
            rows[surv[k] as int].memory_unit_id@,
        ) by {
            if k < prev.len() {
                assert(surv[k] == prev[k]);
                assert(rows[prev[k] as int] == rows.drop_last()[prev[k] as int]);
            } else {
                assert(surv == prev.push(n as usize));
                assert(surv[k] == n as usize);
            }
        }
    }
}

/// Compaction changes nothing that is live: every unit's live row has the
/// same thesis hash in the compacted rows, which carry no tombstones, as in
/// the rows before.
pub proof fn lemma_compaction_keeps_live_rows(rows: Seq<VectorRow>, ts: Seq<VectorTombstone>, compacted: Seq<VectorRow>)
    requires
        rows.len() <= usize::MAX,
        compacted.len() == surviving_rows(rows, ts).len(),
        forall|k: int| 0 <= k < compacted.len() ==> (#[trigger] compacted[k]).memory_unit_id@ == rows[surviving_rows(rows, ts)[k] as int].memory_unit_id@
            && compacted[k].thesis_hash@ == rows[surviving_rows(rows, ts)[k] as int].thesis_hash@,
    ensures
        forall|id: Seq<char>| #[trigger] live_hash(compacted, Seq::empty(), id) == live_hash(rows, ts, id),
    decreases rows.len(),
{
    lemma_surviving_bounds(rows, ts);
    if rows.len() == 0 {
        assert forall|id: Seq<char>| #[trigger] live_hash(compacted, Seq::empty(), id) == live_hash(rows, ts, id) by {}
    } else {
        let n = rows.len() - 1;
        let last = rows[n];
        let prev_rows = rows.drop_last();
        let surv = surviving_rows(rows, ts);
        let prev = surviving_rows(prev_rows, ts);
        lemma_surviving_bounds(prev_rows, ts);
        if tombstoned(ts, last.memory_unit_id@) {
            assert(surv == prev);
            assert forall|k: int| 0 <= k < compacted.len() implies (#[trigger] compacted[k]).memory_unit_id@
                == prev_rows[prev[k] as int].memory_unit_id@ && compacted[k].thesis_hash@ == prev_rows[prev[k] as int].thesis_hash@ by {
                assert(prev_rows[prev[k] as int] == rows[prev[k] as int]);
            }
            lemma_compaction_keeps_live_rows(prev_rows, ts, compacted);
            assert forall|id: Seq<char>| #[trigger] live_hash(compacted, Seq::empty(), id) == live_hash(rows, ts, id) by {
                assert(live_hash(compacted, Seq::empty(), id) == live_hash(prev_rows, ts, id));
                if !tombstoned(ts, id) {
                    assert(last.memory_unit_id@ != id);
                }
            }
        } else {
            assert(surv == prev.push(n as usize));
            let c = compacted.drop_last();
            assert forall|k: int| 0 <= k < c.len() implies (#[trigger] c[k]).memory_unit_id@
                == prev_rows[prev[k] as int].memory_unit_id@ && c[k].thesis_hash@ == prev_rows[prev[k] as int].thesis_hash@ by {
                assert(c[k] == compacted[k]);
                assert(surv[k] == prev[k]);
                assert(prev_rows[prev[k] as int] == rows[prev[k] as int]);
            }
            lemma_compaction_keeps_live_rows(prev_rows, ts, c);
            assert(surv[prev.len() as int] == n as usize);
            assert(compacted[compacted.len() - 1].memory_unit_id@ == rows[surv[prev.len() as int] as int].memory_unit_id@);
            assert(compacted[compacted.len() - 1].memory_unit_id@ == last.memory_unit_id@);
            assert(compacted[compacted.len() - 1].thesis_hash@ == last.thesis_hash@);
            assert forall|id: Seq<char>| #[trigger] live_hash(compacted, Seq::empty(), id) == live_hash(rows, ts, id) by {
                assert(!tombstoned(Seq::<VectorTombstone>::empty(), id));
                assert(compacted.drop_last() == c);
                assert(live_hash(c, Seq::empty(), id) == live_hash(prev_rows, ts, id));
            }
        }
    }
}

/// A compacted index: the rows kept and their new numbering.
#[derive(Debug)]
pub struct Compaction {
    /// Positions of the kept rows (and vectors), in order.
    pub kept: Vec<usize>,
    /// The kept rows, numbered from zero.
    pub rows: Vec<VectorRow>,
}

/// Drops the rows of tombstoned units and numbers the others from zero; the
/// caller keeps the vectors at the same positions and clears the
/// tombstones.
pub fn compact_vector_rows(rows: &Vec<VectorRow>, ts: &Vec<VectorTombstone>) -> (r: Compaction)
    ensures
        r.kept@ == surviving_rows(rows@, ts@),
        r.rows@.len() == r.kept@.len(),
        forall|k: int| 0 <= k < r.rows@.len() ==> {
            let old = rows@[r.kept@[k] as int];
            &&& (#[trigger] r.rows@[k]).row == k
            &&& r.rows@[k].memory_unit_id == old.memory_unit_id
            &&& r.rows@[k].archive_id == old.archive_id
            &&& r.rows@[k].created_at == old.created_at
            &&& r.rows@[k].thesis_hash == old.thesis_hash
            &&& !tombstoned(ts@, old.memory_unit_id@)
        },
{
    let mut kept: Vec<usize> = Vec::new();
    let mut out: Vec<VectorRow> = Vec::new();
    let mut i: usize = 0;
    while i < rows.len()
        invariant
            i <= rows@.len(),
            kept@ == surviving_rows(rows@.take(i as int), ts@),
            out@.len() == kept@.len(),
            forall|k: int| 0 <= k < kept@.len() ==> #[trigger] kept@[k] < i,
            forall|k: int| 0 <= k < out@.len() ==> {
                let old = rows@[kept@[k] as int];
                &&& (#[trigger] out@[k]).row == k
                &&& out@[k].memory_unit_id == old.memory_unit_id
                &&& out@[k].archive_id == old.archive_id
                &&& out@[k].created_at == old.created_at
                &&& out@[k].thesis_hash == old.thesis_hash
                &&& !tombstoned(ts@, old.memory_unit_id@)
            },
        decreases rows@.len() - i,
    {
        let row = &rows[i];
        assert(rows@.take(i + 1).drop_last() =~= rows@.take(i as int));
        assert(rows@.take(i + 1).last() == *row);
        if !is_tombstoned(ts, row.memory_unit_id.as_str()) {
            let renumbered = VectorRow {
                row: out.len(),
                memory_unit_id: row.memory_unit_id.clone(),
                archive_id: row.archive_id.clone(),
                created_at: row.created_at.clone(),
                thesis_hash: row.thesis_hash.clone(),
            };
            kept.push(i);
            out.push(renumbered);
        }
        i = i + 1;
    }
    assert(rows@.take(rows@.len() as int) =~= rows@);
    Compaction { kept, rows: out }
}

// ---------------------------------------------------------------- eligible units

/// The order in which a scope's units are embedded: by creation time, then
/// by identifier; units with equal keys keep their order.
pub open spec fn unit_embed_before(units: Seq<MemoryUnit>, a: int, b: int) -> bool {
    key_before(embed_key(units[a]), embed_key(units[b])) || (embed_key(units[a]) == embed_key(units[b]) && a < b)
}

pub open spec fn embed_key(u: MemoryUnit) -> Seq<(int, int, Seq<char>)> {
    seq![(2int, 0int, u.created_at@), (2int, 0int, u.memory_unit_id@)]
}

/// The positions of the units a scope embeds: every vector-eligible unit,
/// in embedding order.
pub fn eligible_units_in_embed_order(units: &Vec<MemoryUnit>) -> (r: Vec<usize>)
    ensures
        r@.no_duplicates(),
        forall|k: int| 0 <= k < r@.len() ==> #[trigger] r@[k] < units@.len() && vector_eligible(units@[r@[k] as int]),
        forall|i: int| 0 <= i < units@.len() && vector_eligible(#[trigger] units@[i]) ==> r@.contains(i as usize),
        forall|a: int, b: int| 0 <= a < b < r@.len() ==> unit_embed_before(units@, #[trigger] r@[a] as int, #[trigger] r@[b] as int),
{
    let mut pool: Vec<usize> = Vec::new();
    let mut keys: Vec<Vec<KeyPart>> = Vec::new();
    let mut i: usize = 0;
    while i < units.len()
        invariant
            i <= units@.len(),
            pool@.len() == keys@.len(),
            forall|k: int| 0 <= k < pool@.len() ==> #[trigger] pool@[k] < i && vector_eligible(units@[pool@[k] as int]),
            forall|a: int, b: int| 0 <= a < b < pool@.len() ==> #[trigger] pool@[a] < #[trigger] pool@[b],
            forall|x: int| 0 <= x < i && vector_eligible(#[trigger] units@[x]) ==> pool@.contains(x as usize),
            forall|k: int| 0 <= k < keys@.len() ==> key_view(#[trigger] keys@[k]@) == embed_key(units@[pool@[k] as int]),
        decreases units@.len() - i,
    {
        if memory_unit_is_vector_eligible(&units[i]) {
            let ghost before = pool@;
            let mut parts: Vec<KeyPart> = Vec::new();
            parts.push(KeyPart::TextAscending(units[i].created_at.clone()));
            parts.push(KeyPart::TextAscending(units[i].memory_unit_id.clone()));
            assert(key_view(parts@) =~= embed_key(units@[i as int]));
            pool.push(i);
            keys.push(parts);
            assert forall|x: int| 0 <= x < i + 1 && vector_eligible(#[trigger] units@[x]) implies pool@.contains(x as usize) by {
                if x == i {
                    assert(pool@[pool@.len() - 1] == i);
                } else {
                    let q = choose|q: int| 0 <= q < before.len() && before[q] == x as usize;
                    assert(pool@[q] == before[q]);
                }
            }
        }
        i = i + 1;
    }
    let order = stable_order(&keys);
    let ghost pv = pool@;
    let mut out: Vec<usize> = Vec::new();
    let mut t: usize = 0;
    while t < order.len()
        invariant
            pv == pool@,
            order@.len() == pv.len(),
            forall|k: int| 0 <= k < order@.len() ==> #[trigger] order@[k] < pv.len(),
            t <= order@.len(),
            out@.len() == t,
            forall|k: int| 0 <= k < t ==> #[trigger] out@[k] == pv[order@[k] as int],
        decreases order@.len() - t,
    {
        out.push(pool[order[t]]);
        t = t + 1;
    }
    proof {
        assert forall|a: int, b: int| 0 <= a < b < out@.len() implies unit_embed_before(
            units@,
            #[trigger] out@[a] as int,
            #[trigger] out@[b] as int,
        ) by {
            let (pa, pb) = (order@[a] as int, order@[b] as int);
            assert(index_before(keys@, pa, pb));
            if pa < pb {
                assert(pv[pa] < pv[pb]);
            } else if pb < pa {
                assert(pv[pb] < pv[pa]);
            }
        }
        assert forall|a: int, b: int| 0 <= a < out@.len() && 0 <= b < out@.len() && a != b implies out@[a] != out@[b] by {
            let (pa, pb) = (order@[a] as int, order@[b] as int);
            assert(order@[a] != order@[b]);
            if pa < pb {
                assert(pv[pa] < pv[pb]);
            } else {
                assert(pv[pb] < pv[pa]);
            }
        }
        assert forall|x: int| 0 <= x < units@.len() && vector_eligible(#[trigger] units@[x]) implies out@.contains(x as usize) by {
            assert(pv.contains(x as usize));
            let p = choose|p: int| 0 <= p < pv.len() && pv[p] == x as usize;
            assert(order@.contains(p as usize));
            let q = choose|q: int| 0 <= q < order@.len() && order@[q] == p as usize;
            assert(out@[q] == pv[p]);
        }
    }
    out
}

// ---------------------------------------------------------------- deep recall

/// Why a deep recall answers with no hits before any vector is read, if it
/// does: embeddings off or no index (`disabled`), a corrupt index
/// (`corrupt`), or an index that is not ready yet (`building`).
pub open spec fn deep_recall_gate_reason(
    embeddings_enabled: bool,
    manifest: Option<VectorIndexManifest>,
) -> Option<Seq<char>> {
    if !embeddings_enabled {
        Some("disabled"@)
    } else {
        match manifest {
            None => Some("disabled"@),
            Some(m) => if m.state == VectorScopeStatus::Corrupt {
                Some("corrupt"@)
            } else if m.state != VectorScopeStatus::Ready {
                Some("building"@)
            } else {
                None
            },
        }
    }
}

/// Decides whether a deep recall scores rows at all. It gives the reason
/// for an empty result, or nothing when rows are to be scored; an index
/// for another model or dimension is refused before its state is looked
/// at.
pub fn deep_recall_gate(
    embeddings_enabled: bool,
    manifest: Option<&VectorIndexManifest>,
    model_id: &str,
    dim: usize,
) -> (r: Result<Option<String>, MemoryEngineError>)
    ensures
        match manifest {
            None => r matches Ok(Some(t)) && t@ == "disabled"@,
            Some(m) => if !embeddings_enabled {
                r matches Ok(Some(t)) && t@ == "disabled"@
            } else if m.model_id@ == model_id@ && m.dim == dim {
                r matches Ok(reason) && opt_view(reason) == deep_recall_gate_reason(true, Some(*m))
            } else {
                r matches Err(MemoryEngineError::Validation(msg)) && msg@
                    == "vector model/dim mismatch: index="@ + m.model_id@ + " "@ + decimal(
                    m.dim as nat,
                ) + "d requested="@ + model_id@ + " "@ + decimal(dim as nat) + "d"@
            },
        },
{
    if !embeddings_enabled {
        return Ok(Some("disabled".to_string()));
    }
    match manifest {
        None => Ok(Some("disabled".to_string())),
        Some(m) => {
            let checked = ensure_vector_manifest_matches(m, model_id, dim);
            match checked {
                Err(e) => Err(e),
                Ok(()) => {
                    match m.state {
                        VectorScopeStatus::Corrupt => Ok(Some("corrupt".to_string())),
                        VectorScopeStatus::Ready => Ok(None),
                        _ => Ok(Some("building".to_string())),
                    }
                },
            }
        },
    }
}

/// The number of hits a deep recall keeps: the requested number, or the
/// default when none was requested, and at least one.
pub open spec fn deep_top_k(requested: usize, default: usize) -> usize {
    let k = if requested == 0 {
        default
    } else {
        requested
    };
    if k < 1 {
        1
    } else {
        k
    }
}

/// How many hits a deep recall keeps.
pub fn deep_recall_top_k(requested: usize, default: usize) -> (r: usize)
    ensures
        r == deep_top_k(requested, default),
        r >= 1,
{
    let k = if requested == 0 {
        default
    } else {
        requested
    };
    if k < 1 {
        1
    } else {
        k
    }
}

/// Whether row `i` is a deep recall candidate: not tombstoned, close enough
/// to the query (`close[i]`, the caller's similarity test), its unit
/// readable, of the recalled scope and vector-eligible.
pub open spec fn deep_candidate(
    rows: Seq<VectorRow>,
    ts: Seq<VectorTombstone>,
    units: Seq<Option<MemoryUnit>>,
    close: Seq<bool>,
    scope: Seq<char>,
    i: int,
) -> bool {
    &&& !tombstoned(ts, rows[i].memory_unit_id@)
    &&& close[i]
    &&& units[i] matches Some(u) && u.source_session_id@ == scope && vector_eligible(u)
}

/// The rows of the index that a deep recall scores, in row order. `units[i]`
/// is the unit of row `i` as read from storage, `None` when it could not be
/// read; `close[i]` is whether row `i` reaches the minimum similarity.
pub fn deep_recall_candidates(
    rows: &Vec<VectorRow>,
    ts: &Vec<VectorTombstone>,
    units: &Vec<Option<MemoryUnit>>,
    close: &Vec<bool>,
    scope: &str,
) -> (r: Vec<usize>)
    requires
        units@.len() == rows@.len(),
        close@.len() == rows@.len(),
    ensures
        forall|k: int| 0 <= k < r@.len() ==> #[trigger] r@[k] < rows@.len() && deep_candidate(
            rows@,
            ts@,
            units@,
            close@,
            scope@,
            r@[k] as int,
        ),
        forall|a: int, b: int| 0 <= a < b < r@.len() ==> #[trigger] r@[a] < #[trigger] r@[b],
        forall|i: int|
            0 <= i < rows@.len() && deep_candidate(rows@, ts@, units@, close@, scope@, i)
                ==> r@.contains(i as usize),
{
    let mut out: Vec<usize> = Vec::new();
    let mut i: usize = 0;
    while i < rows.len()
        invariant
            i <= rows@.len(),
            units@.len() == rows@.len(),
            close@.len() == rows@.len(),
            forall|k: int| 0 <= k < out@.len() ==> #[trigger] out@[k] < i && deep_candidate(
                rows@,
                ts@,
                units@,
                close@,
                scope@,
                out@[k] as int,
            ),
            forall|a: int, b: int| 0 <= a < b < out@.len() ==> #[trigger] out@[a] < #[trigger] out@[b],
            forall|j: int|
                0 <= j < i && deep_candidate(rows@, ts@, units@, close@, scope@, j) ==> out@.contains(
                    j as usize,
                ),
        decreases rows@.len() - i,
    {
        let dead = is_tombstoned(ts, rows[i].memory_unit_id.as_str());
        let keep = if dead || !close[i] {
            false
        } else {
            match &units[i] {
                Some(u) => str_eq(u.source_session_id.as_str(), scope) && memory_unit_is_vector_eligible(u),
                None => false,
            }
        };
        if keep {
            let ghost before = out@;
            out.push(i);
            assert forall|j: int|
                0 <= j < i && deep_candidate(rows@, ts@, units@, close@, scope@, j) implies out@.contains(
                j as usize,
            ) by {
                let k = choose|k: int| 0 <= k < before.len() && before[k] == j as usize;
                assert(out@[k] == j as usize);
            }
            assert(out@[out@.len() - 1] == i);
        }
        i = i + 1;
    }
    out
}

// ---------------------------------------------------------------- embedding flows

/// The mismatch message of an index built for another model or dimension.
pub open spec fn model_dim_mismatch(index_model: Seq<char>, index_dim: nat, model: Seq<char>, dim: nat) -> Seq<char> {
    "vector model/dim mismatch: index="@ + index_model + " "@ + decimal(index_dim) + "d requested="@
        + model + " "@ + decimal(dim) + "d"@
}

/// Why an embedding result with the current schema is refused for its task,
/// if it is: a task of another type, a batch of another kind, or a result
/// for another model or dimension than the batch asked for.
pub open spec fn embed_result_problem(
    task_type: TaskType,
    task_id: Seq<char>,
    inputs: EmbedBatchInputs,
    result_model: Seq<char>,
    result_dim: nat,
) -> Option<Seq<char>> {
    if task_type != TaskType::ComputeEmbedding {
        Some("task is not compute_embedding: "@ + task_id)
    } else if inputs.kind@ != "embed_batch"@ {
        Some("compute_embedding task has unsupported kind: "@ + inputs.kind@)
    } else if !(result_model == inputs.model_id@ && result_dim == inputs.dim) {
        Some(
            "embedding result model/dim mismatch: task="@ + inputs.model_id@ + " "@ + decimal(
                inputs.dim as nat,
            ) + "d result="@ + result_model + " "@ + decimal(result_dim) + "d"@,
        )
    } else {
        None
    }
}

/// Checks an embedding result against its task: the current result
/// schema, a compute-embedding task, an `embed_batch` batch, and the
/// batch's model and dimension. `inputs` are the task's decoded inputs.
pub fn check_embed_batch_result(
    result_schema: &str,
    result_model_id: &str,
    result_dim: usize,
    task_id: &str,
    task: &PendingTask,
    inputs: &EmbedBatchInputs,
) -> (r: Result<(), MemoryEngineError>)
    ensures
        result_schema@ != EMBED_BATCH_RESULT_SCHEMA_VERSION@ ==> (r matches Err(
            MemoryEngineError::IncompatibleSchema { expected, actual },
        ) && expected@ == EMBED_BATCH_RESULT_SCHEMA_VERSION@ && actual@ == result_schema@),
        result_schema@ == EMBED_BATCH_RESULT_SCHEMA_VERSION@ ==> match embed_result_problem(
            task.task_type,
            task_id@,
            *inputs,
            result_model_id@,
            result_dim as nat,
        ) {
            Some(m) => r matches Err(MemoryEngineError::Validation(v)) && v@ == m,
            None => r is Ok,
        },
{
    if !str_eq(result_schema, EMBED_BATCH_RESULT_SCHEMA_VERSION) {
        return Err(
            MemoryEngineError::IncompatibleSchema {
                expected: EMBED_BATCH_RESULT_SCHEMA_VERSION.to_string(),
                actual: result_schema.to_string(),
            },
        );
    }
    let is_embedding = match task.task_type {
        TaskType::ComputeEmbedding => true,
        _ => false,
    };
    if !is_embedding {
        let mut m = "task is not compute_embedding: ".to_string();
        m.append(task_id);
        return Err(MemoryEngineError::Validation(m));
    }
    if !str_eq(inputs.kind.as_str(), "embed_batch") {
        let mut m = "compute_embedding task has unsupported kind: ".to_string();
        m.append(inputs.kind.as_str());
        return Err(MemoryEngineError::Validation(m));
    }
    if !str_eq(result_model_id, inputs.model_id.as_str()) || result_dim != inputs.dim {
        let mut m = "embedding result model/dim mismatch: task=".to_string();
        m.append(inputs.model_id.as_str());
        m.append(" ");
        let d1 = crate::text::usize_to_decimal(inputs.dim);
        m.append(d1.as_str());
        m.append("d result=");
        m.append(result_model_id);
        m.append(" ");
        let d2 = crate::text::usize_to_decimal(result_dim);
        m.append(d2.as_str());
        m.append("d");
        return Err(MemoryEngineError::Validation(m));
    }
    Ok(())
}

/// Checks that the index of `scope` can take embeddings: it exists, was
/// built for `model_id` at `dim`, and is not corrupt.
pub fn check_vector_scope_writable(
    manifest: Option<&VectorIndexManifest>,
    scope: &str,
    model_id: &str,
    dim: usize,
) -> (r: Result<(), MemoryEngineError>)
    ensures
        match manifest {
            None => r matches Err(MemoryEngineError::Validation(m)) && m@ == "vector scope is disabled: "@
                + scope@,
            Some(x) => if !(x.model_id@ == model_id@ && x.dim == dim) {
                r matches Err(MemoryEngineError::Validation(m)) && m@ == model_dim_mismatch(
                    x.model_id@,
                    x.dim as nat,
                    model_id@,
                    dim as nat,
                )
            } else if x.state == VectorScopeStatus::Corrupt {
                r matches Err(MemoryEngineError::Validation(m)) && m@ == "vector scope is corrupt: "@
                    + scope@
            } else {
                r is Ok
            },
        },
{
    match manifest {
        None => {
            let mut m = "vector scope is disabled: ".to_string();
            m.append(scope);
            Err(MemoryEngineError::Validation(m))
        },
        Some(x) => {
            let checked = ensure_vector_manifest_matches(x, model_id, dim);
            match checked {
                Err(e) => Err(e),
                Ok(()) => match x.state {
                    VectorScopeStatus::Corrupt => {
                        let mut m = "vector scope is corrupt: ".to_string();
                        m.append(scope);
                        Err(MemoryEngineError::Validation(m))
                    },
                    _ => Ok(()),
                },
            }
        },
    }
}

/// Records appended rows in an index manifest: the row count becomes the
/// existing rows plus the appended ones, the backfill cursor the creation
/// time of the last appended row (none when nothing was appended), and the
/// index is building until no eligible unit lacks a row.
pub fn record_appended_rows(
    manifest: &mut VectorIndexManifest,
    existing_rows: usize,
    appended: &Vec<VectorRow>,
    now: &str,
)
    requires
        existing_rows + appended@.len() <= usize::MAX,
    ensures
        final(manifest).rows == existing_rows + appended@.len(),
        final(manifest).updated_at@ == now@,
        opt_view(final(manifest).backfill_cursor) == (if appended@.len() == 0 {
            None::<Seq<char>>
        } else {
            Some(appended@.last().created_at@)
        }),
        final(manifest).state == VectorScopeStatus::Building,
        final(manifest).schema_version == old(manifest).schema_version,
        final(manifest).model_id == old(manifest).model_id,
        final(manifest).dim == old(manifest).dim,
        final(manifest).metric == old(manifest).metric,
        final(manifest).normalized == old(manifest).normalized,
        final(manifest).built_at == old(manifest).built_at,
{
    manifest.rows = existing_rows + appended.len();
    manifest.updated_at = now.to_string();
    manifest.backfill_cursor = if appended.len() == 0 {
        None
    } else {
        Some(appended[appended.len() - 1].created_at.clone())
    };
    manifest.state = VectorScopeStatus::Building;
}

/// The state an index settles in once a step of embedding is done: ready
/// when no eligible unit lacks a row and none waits for an embedding,
/// otherwise building.
pub open spec fn settled_state(missing: bool, pending: bool) -> VectorScopeStatus {
    if !missing && !pending {
        VectorScopeStatus::Ready
    } else {
        VectorScopeStatus::Building
    }
}

/// Settles an index manifest after an embedding step: `missing` is whether
/// an eligible unit still lacks a live row with its thesis, `pending`
/// whether an embedding task is still waiting. The time of update is set
/// when the manifest is written, that is when it becomes ready or when a
/// backfill found nothing missing.
pub fn settle_vector_state(manifest: &mut VectorIndexManifest, missing: bool, pending: bool, now: &str)
    ensures
        final(manifest).state == (if missing {
            old(manifest).state
        } else {
            settled_state(missing, pending)
        }),
        !missing ==> final(manifest).updated_at@ == now@,
        missing ==> final(manifest).updated_at == old(manifest).updated_at,
        final(manifest).rows == old(manifest).rows,
        final(manifest).backfill_cursor == old(manifest).backfill_cursor,
        final(manifest).model_id == old(manifest).model_id,
        final(manifest).dim == old(manifest).dim,
{
    if !missing {
        manifest.state = if pending {
            VectorScopeStatus::Building
        } else {
            VectorScopeStatus::Ready
        };
        manifest.updated_at = now.to_string();
    }
}

/// Whether a backfill of `scope` goes on: embeddings on and an index there
/// go on (`Ok(true)`), embeddings off or no index give no work
/// (`Ok(false)`), and an index for another model or dimension, or a corrupt
/// one, is refused.
pub fn backfill_gate(
    embeddings_enabled: bool,
    manifest: Option<&VectorIndexManifest>,
    scope: &str,
    model_id: &str,
    dim: usize,
) -> (r: Result<bool, MemoryEngineError>)
    ensures
        !embeddings_enabled ==> r == Ok::<bool, MemoryEngineError>(false),
        embeddings_enabled ==> match manifest {
            None => r == Ok::<bool, MemoryEngineError>(false),
            Some(x) => if !(x.model_id@ == model_id@ && x.dim == dim) {
                r matches Err(MemoryEngineError::Validation(m)) && m@ == model_dim_mismatch(
                    x.model_id@,
                    x.dim as nat,
                    model_id@,
                    dim as nat,
                )
            } else if x.state == VectorScopeStatus::Corrupt {
                r matches Err(MemoryEngineError::Validation(m)) && m@ == "vector scope is corrupt: "@
                    + scope@
            } else {
                r == Ok::<bool, MemoryEngineError>(true)
            },
        },
{
    if !embeddings_enabled {
        return Ok(false);
    }
    match manifest {
        None => Ok(false),
        Some(_) => match check_vector_scope_writable(manifest, scope, model_id, dim) {
            Ok(()) => Ok(true),
            Err(e) => Err(e),
        },
    }
}

/// What the ordering of deep recall hits reads: each hit's score and
/// similarity, as `f32` bits, its creation time and its unit.
#[derive(Debug)]
pub struct DeepHitKey {
    pub memory_unit_id: String,
    pub created_at: String,
    pub score_bits: u32,
    pub sim_bits: u32,
}

/// The deep recall order: higher score, then higher similarity (both in
/// `f32::total_cmp` order), then older, then by unit identifier.
pub open spec fn deep_hit_key(e: DeepHitKey) -> Seq<(int, int, Seq<char>)> {
    seq![
        (1int, total_order_key32(e.score_bits) as int, Seq::<char>::empty()),
        (1int, total_order_key32(e.sim_bits) as int, Seq::<char>::empty()),
        (2int, 0int, e.created_at@),
        (2int, 0int, e.memory_unit_id@),
    ]
}

/// Whether hit `i` ranks before hit `j`; hits of equal rank keep their
/// order.
pub open spec fn deep_hit_before(es: Seq<DeepHitKey>, i: int, j: int) -> bool {
    key_before(deep_hit_key(es[i]), deep_hit_key(es[j])) || (deep_hit_key(es[i]) == deep_hit_key(es[j]) && i < j)
}

/// The best ranked `limit` deep recall hits, best first: their positions.
pub fn rank_deep_hits(entries: &Vec<DeepHitKey>, limit: usize) -> (r: Vec<usize>)
    ensures
        r@.len() == (if limit < entries@.len() { limit as int } else { entries@.len() as int }),
        r@.no_duplicates(),
        forall|k: int| 0 <= k < r@.len() ==> #[trigger] r@[k] < entries@.len(),
        forall|a: int, b: int| 0 <= a < b < r@.len() ==> deep_hit_before(entries@, #[trigger] r@[a] as int, #[trigger] r@[b] as int),
        forall|k: int, i: int|
            0 <= k < r@.len() && 0 <= i < entries@.len() && !r@.contains(i as usize) ==> #[trigger] deep_hit_before(
                entries@,
                r@[k] as int,
                i,
            ),
{
    let mut keys: Vec<Vec<KeyPart>> = Vec::new();
    let mut i: usize = 0;
    while i < entries.len()
        invariant
            i <= entries@.len(),
            keys@.len() == i,
            forall|t: int| 0 <= t < i ==> key_view(#[trigger] keys@[t]@) == deep_hit_key(entries@[t]),
        decreases entries@.len() - i,
    {
        let e = &entries[i];
        let mut parts: Vec<KeyPart> = Vec::new();
        parts.push(KeyPart::Descending(float32_order_key(e.score_bits)));
        parts.push(KeyPart::Descending(float32_order_key(e.sim_bits)));
        parts.push(KeyPart::TextAscending(e.created_at.clone()));
        parts.push(KeyPart::TextAscending(e.memory_unit_id.clone()));
        assert(key_view(parts@) =~= deep_hit_key(*e));
        keys.push(parts);
        i = i + 1;
    }
    let order = stable_order(&keys);
    let m: usize = if limit < entries.len() {
        limit
    } else {
        entries.len()
    };
    let mut out: Vec<usize> = Vec::new();
    let mut t: usize = 0;
    while t < m
        invariant
            m <= order@.len(),
            t <= m,
            out@ == order@.take(t as int),
        decreases m - t,
    {
        out.push(order[t]);
        assert(order@.take(t + 1) =~= order@.take(t as int).push(order@[t as int]));
        t = t + 1;
    }
    proof {
        let ov = order@;
        assert(out@ =~= ov.take(m as int));
        assert forall|a: int, b: int| 0 <= a < b < out@.len() implies deep_hit_before(
            entries@,
            #[trigger] out@[a] as int,
            #[trigger] out@[b] as int,
        ) by {
            assert(index_before(keys@, ov[a] as int, ov[b] as int));
        }
        assert forall|k: int, x: int|
            0 <= k < out@.len() && 0 <= x < entries@.len() && !out@.contains(x as usize) implies #[trigger] deep_hit_before(
            entries@,
            out@[k] as int,
            x,
        ) by {
            assert(ov.contains(x as usize));
            let q = choose|q: int| 0 <= q < ov.len() && ov[q] == x as usize;
            if q < m {
                assert(out@[q] == ov[q]);
            }
            assert(index_before(keys@, ov[k] as int, ov[q] as int));
        }
        assert forall|a: int, b: int| 0 <= a < out@.len() && 0 <= b < out@.len() && a != b implies out@[a] != out@[b] by {
            assert(ov[a] != ov[b]);
        }
    }
    out
}

} // verus!
