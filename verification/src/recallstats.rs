//! Recall statistics kept in memory between flushes: how often each archive
//! entry was recalled since the last flush, and when last.

use vstd::prelude::*;

use crate::context::{newest, newest_timestamp};
use crate::strset::str_eq;
use crate::text::opt_view;

verus! {

/// What recalls added to one archive entry since the last flush.
#[derive(Debug)]
pub struct RecallStatDelta {
    pub archive_id: String,
    pub added_count: u64,
    pub last_recalled_at: Option<String>,
}

/// `count + added`, or the largest `u64` when that overflows.
pub open spec fn sat_add(count: int, added: int) -> int {
    if count + added > u64::MAX {
        u64::MAX as int
    } else {
        count + added
    }
}

/// The statistics as a map from archive identifier to the added count and
/// the last recall time.
pub open spec fn stats_map(ds: Seq<RecallStatDelta>) -> Map<Seq<char>, (int, Option<Seq<char>>)>
    decreases ds.len(),
{
    if ds.len() == 0 {
        Map::empty()
    } else {
        stats_map(ds.drop_last()).insert(
            ds.last().archive_id@,
            (ds.last().added_count as int, opt_view(ds.last().last_recalled_at)),
        )
    }
}

/// Whether no archive appears twice.
pub open spec fn distinct_archives(ds: Seq<RecallStatDelta>) -> bool {
    forall|i: int, j: int| 0 <= i < j < ds.len() ==> (#[trigger] ds[i]).archive_id@ != (#[trigger] ds[j]).archive_id@
}

/// Adds `count` recalls, the last at `last`, to the statistics of `id`.
pub open spec fn add_delta(
    m: Map<Seq<char>, (int, Option<Seq<char>>)>,
    id: Seq<char>,
    count: int,
    last: Option<Seq<char>>,
) -> Map<Seq<char>, (int, Option<Seq<char>>)> {
    let (c, l) = if m.contains_key(id) {
        m[id]
    } else {
        (0int, None::<Seq<char>>)
    };
    m.insert(id, (sat_add(c, count), newest(l, last)))
}

/// The statistics after one recall of each of `ids` at `at`.
pub open spec fn recorded(
    m: Map<Seq<char>, (int, Option<Seq<char>>)>,
    ids: Seq<Seq<char>>,
    at: Seq<char>,
) -> Map<Seq<char>, (int, Option<Seq<char>>)>
    decreases ids.len(),
{
    if ids.len() == 0 {
        m
    } else {
        add_delta(recorded(m, ids.drop_last(), at), ids.last(), 1, Some(at))
    }
}

/// The statistics after the deltas `ds` are merged back in.
pub open spec fn merged(
    m: Map<Seq<char>, (int, Option<Seq<char>>)>,
    ds: Seq<RecallStatDelta>,
) -> Map<Seq<char>, (int, Option<Seq<char>>)>
    decreases ds.len(),
{
    if ds.len() == 0 {
        m
    } else {
        add_delta(
            merged(m, ds.drop_last()),
            ds.last().archive_id@,
            ds.last().added_count as int,
            opt_view(ds.last().last_recalled_at),
        )
    }
}

proof fn lemma_stats_map_keys(ds: Seq<RecallStatDelta>, id: Seq<char>)
    ensures
        stats_map(ds).contains_key(id) <==> exists|i: int| 0 <= i < ds.len() && (#[trigger] ds[i]).archive_id@ == id,
    decreases ds.len(),
{
    if ds.len() > 0 {
        lemma_stats_map_keys(ds.drop_last(), id);
        if exists|i: int| 0 <= i < ds.len() && (#[trigger] ds[i]).archive_id@ == id {
            let i = choose|i: int| 0 <= i < ds.len() && (#[trigger] ds[i]).archive_id@ == id;
            if i < ds.len() - 1 {
                assert(ds.drop_last()[i] == ds[i]);
            }
        }
        if exists|i: int| 0 <= i < ds.len() - 1 && (#[trigger] ds.drop_last()[i]).archive_id@ == id {
            let i = choose|i: int| 0 <= i < ds.len() - 1 && (#[trigger] ds.drop_last()[i]).archive_id@ == id;
            assert(ds[i] == ds.drop_last()[i]);
        }
    }
}

/// Taking the statistics out for a flush and merging them back after a
/// failed flush restores them exactly: deltas merged into empty statistics
/// are the deltas themselves.
pub proof fn lemma_restore_undoes_take(ds: Seq<RecallStatDelta>)
    requires
        distinct_archives(ds),
    ensures
        merged(Map::empty(), ds) == stats_map(ds),
    decreases ds.len(),
{
    if ds.len() > 0 {
        let prev = ds.drop_last();
        assert(distinct_archives(prev)) by {
            assert forall|i: int, j: int| 0 <= i < j < prev.len() implies (#[trigger] prev[i]).archive_id@
                != (#[trigger] prev[j]).archive_id@ by {
                assert(prev[i] == ds[i] && prev[j] == ds[j]);
            }
        }
        lemma_restore_undoes_take(prev);
        let id = ds.last().archive_id@;
        lemma_stats_map_keys(prev, id);
        assert(!stats_map(prev).contains_key(id)) by {
            if exists|i: int| 0 <= i < prev.len() && (#[trigger] prev[i]).archive_id@ == id {
                let i = choose|i: int| 0 <= i < prev.len() && (#[trigger] prev[i]).archive_id@ == id;
                assert(ds[i] == prev[i]);
                assert(ds[i].archive_id@ != ds[ds.len() - 1].archive_id@);
            }
        }
        assert(newest(None, opt_view(ds.last().last_recalled_at)) == opt_view(ds.last().last_recalled_at));
    }
}

/// The statistics kept between flushes.
#[derive(Debug)]
pub struct RecallStats {
    pub deltas: Vec<RecallStatDelta>,
}

impl RecallStats {
    /// No recall recorded.
    pub fn new() -> (r: Self)
        ensures
            r.deltas@.len() == 0,
            stats_map(r.deltas@) == Map::<Seq<char>, (int, Option<Seq<char>>)>::empty(),
    {
        RecallStats { deltas: Vec::new() }
    }

    fn position(&self, id: &str) -> (r: Option<usize>)
        ensures
            match r {
                Some(i) => i < self.deltas@.len() && self.deltas@[i as int].archive_id@ == id@,
                None => forall|i: int| 0 <= i < self.deltas@.len() ==> (#[trigger] self.deltas@[i]).archive_id@ != id@,
            },
    {
        let mut i: usize = 0;
        while i < self.deltas.len()
            invariant
                i <= self.deltas@.len(),
                forall|k: int| 0 <= k < i ==> (#[trigger] self.deltas@[k]).archive_id@ != id@,
            decreases self.deltas@.len() - i,
        {
            if str_eq(self.deltas[i].archive_id.as_str(), id) {
                return Some(i);
            }
            i = i + 1;
        }
        None
    }

    /// Adds `count` recalls, the last at `last`, to the statistics of `id`.
    fn add(&mut self, id: &str, count: u64, last: Option<&str>)
        requires
            distinct_archives(old(self).deltas@),
        ensures
            distinct_archives(final(self).deltas@),
            stats_map(final(self).deltas@) == add_delta(
                stats_map(old(self).deltas@),
                id@,
                count as int,
                match last {
                    Some(t) => Some(t@),
                    None => None,
                },
            ),
    {
        let ghost before = self.deltas@;
        let ghost lv = match last {
            Some(t) => Some(t@),
            None => None::<Seq<char>>,
        };
        proof {
            lemma_stats_map_keys(before, id@);
        }
        match self.position(id) {
            Some(i) => {
                let d = self.deltas.remove(i);
                let added = d.added_count.saturating_add(count);
                let newest_at = newest_timestamp(
                    match &d.last_recalled_at {
                        Some(t) => Some(t.as_str()),
                        None => None,
                    },
                    last,
                );
                let updated = RecallStatDelta { archive_id: d.archive_id, added_count: added, last_recalled_at: newest_at };
                let ghost u = updated;
                self.deltas.insert(i, updated);
                proof {
                    assert(self.deltas@ =~= before.update(i as int, u));
                    lemma_stats_map_update(before, i as int, u);
                    lemma_stats_map_value(before, i as int);
                    assert forall|a: int, b: int| 0 <= a < b < self.deltas@.len() implies (#[trigger] self.deltas@[a]).archive_id@
                        != (#[trigger] self.deltas@[b]).archive_id@ by {
                        if a == i {
                            assert(before[a].archive_id@ == u.archive_id@);
                        }
                        if b == i {
                            assert(before[b].archive_id@ == u.archive_id@);
                        }
                    }
                }
            },
            None => {
                let last_at = match last {
                    Some(t) => Some(t.to_string()),
                    None => None,
                };
                let added = 0u64.saturating_add(count);
                let d = RecallStatDelta { archive_id: id.to_string(), added_count: added, last_recalled_at: last_at };
                proof {
                    assert(newest(None, lv) == lv);
                }
                self.deltas.push(d);
                proof {
                    assert(self.deltas@.drop_last() =~= before);
                }
            },
        }
    }

    /// Records one recall of each of `archive_ids` at `recalled_at`.
    pub fn record(&mut self, archive_ids: &Vec<String>, recalled_at: &str)
        requires
            distinct_archives(old(self).deltas@),
        ensures
            distinct_archives(final(self).deltas@),
            stats_map(final(self).deltas@) == recorded(stats_map(old(self).deltas@), archive_ids@.map_values(|s: String| s@), recalled_at@),
    {
        let ghost start = stats_map(self.deltas@);
        let ghost ids = archive_ids@.map_values(|s: String| s@);
        let mut i: usize = 0;
        while i < archive_ids.len()
            invariant
                i <= archive_ids@.len(),
                ids == archive_ids@.map_values(|s: String| s@),
                distinct_archives(self.deltas@),
                stats_map(self.deltas@) == recorded(start, ids.take(i as int), recalled_at@),
            decreases archive_ids@.len() - i,
        {
            self.add(archive_ids[i].as_str(), 1, Some(recalled_at));
            assert(ids.take(i + 1).drop_last() =~= ids.take(i as int));
            assert(ids.take(i + 1).last() == archive_ids@[i as int]@);
            i = i + 1;
        }
        assert(ids.take(archive_ids@.len() as int) =~= ids);
    }

    /// Merges deltas back, as after a flush that failed.
    pub fn restore(&mut self, pending: Vec<RecallStatDelta>)
        requires
            distinct_archives(old(self).deltas@),
        ensures
            distinct_archives(final(self).deltas@),
            stats_map(final(self).deltas@) == merged(stats_map(old(self).deltas@), pending@),
    {
        let ghost start = stats_map(self.deltas@);
        let mut i: usize = 0;
        while i < pending.len()
            invariant
                i <= pending@.len(),
                distinct_archives(self.deltas@),
                stats_map(self.deltas@) == merged(start, pending@.take(i as int)),
            decreases pending@.len() - i,
        {
            let d = &pending[i];
            let last = match &d.last_recalled_at {
                Some(t) => Some(t.as_str()),
                None => None,
            };
            self.add(d.archive_id.as_str(), d.added_count, last);
            assert(pending@.take(i + 1).drop_last() =~= pending@.take(i as int));
            assert(pending@.take(i + 1).last() == pending@[i as int]);
            i = i + 1;
        }
        assert(pending@.take(pending@.len() as int) =~= pending@);
    }

    /// Takes every delta out for a flush, leaving no statistics.
    pub fn take_all(&mut self) -> (r: Vec<RecallStatDelta>)
        ensures
            r@ == old(self).deltas@,
            final(self).deltas@.len() == 0,
    {
        let mut taken: Vec<RecallStatDelta> = Vec::new();
        std::mem::swap(&mut taken, &mut self.deltas);
        taken
    }
}

proof fn lemma_stats_map_value(ds: Seq<RecallStatDelta>, i: int)
    requires
        distinct_archives(ds),
        0 <= i < ds.len(),
    ensures
        stats_map(ds).contains_key(ds[i].archive_id@),
        stats_map(ds)[ds[i].archive_id@] == (ds[i].added_count as int, opt_view(ds[i].last_recalled_at)),
    decreases ds.len(),
{
    let prev = ds.drop_last();
    if i < ds.len() - 1 {
        assert(distinct_archives(prev)) by {
            assert forall|a: int, b: int| 0 <= a < b < prev.len() implies (#[trigger] prev[a]).archive_id@
                != (#[trigger] prev[b]).archive_id@ by {
                assert(prev[a] == ds[a] && prev[b] == ds[b]);
            }
        }
        assert(prev[i] == ds[i]);
        lemma_stats_map_value(prev, i);
        assert(ds[i].archive_id@ != ds[ds.len() - 1].archive_id@);
    }
}

proof fn lemma_stats_map_update(ds: Seq<RecallStatDelta>, i: int, u: RecallStatDelta)
    requires
        distinct_archives(ds),
        0 <= i < ds.len(),
        u.archive_id@ == ds[i].archive_id@,
    ensures
        stats_map(ds.update(i, u)) == stats_map(ds).insert(
            u.archive_id@,
            (u.added_count as int, opt_view(u.last_recalled_at)),
        ),
    decreases ds.len(),
{
    let prev = ds.drop_last();
    let n = ds.len() - 1;
    assert(distinct_archives(prev)) by {
        assert forall|a: int, b: int| 0 <= a < b < prev.len() implies (#[trigger] prev[a]).archive_id@
            != (#[trigger] prev[b]).archive_id@ by {
            assert(prev[a] == ds[a] && prev[b] == ds[b]);
        }
    }
    if i == n {
        assert(ds.update(i, u).drop_last() =~= prev);
        assert(stats_map(ds.update(i, u)) =~= stats_map(ds).insert(
            u.archive_id@,
            (u.added_count as int, opt_view(u.last_recalled_at)),
        ));
    } else {
        assert(ds.update(i, u).drop_last() =~= prev.update(i, u));
        assert(prev[i] == ds[i]);
        lemma_stats_map_update(prev, i, u);
        assert(ds[i].archive_id@ != ds[n].archive_id@);
        assert(stats_map(ds.update(i, u)) =~= stats_map(ds).insert(
            u.archive_id@,
            (u.added_count as int, opt_view(u.last_recalled_at)),
        ));
    }
}

/// What a flushed delta makes of an archive's recall count and last recall
/// time: the count grows by the delta (saturating), the time is the newer.
pub fn apply_recall_delta(recall_count: u64, last_recalled_at: Option<String>, delta: &RecallStatDelta) -> (r: (
    u64,
    Option<String>,
))
    ensures
        r.0 == sat_add(recall_count as int, delta.added_count as int),
        opt_view(r.1) == newest(opt_view(last_recalled_at), opt_view(delta.last_recalled_at)),
{
    let count = recall_count.saturating_add(delta.added_count);
    let last = newest_timestamp(
        match &last_recalled_at {
            Some(t) => Some(t.as_str()),
            None => None,
        },
        match &delta.last_recalled_at {
            Some(t) => Some(t.as_str()),
            None => None,
        },
    );
    (count, last)
}

/// Whether the recall statistics are due for a flush: a flush interval is
/// set and that many recalls happened since the last flush.
pub fn recall_flush_due(interval: u64, calls_since_flush: u64) -> (r: bool)
    ensures
        r == (interval > 0 && calls_since_flush >= interval),
{
    interval > 0 && calls_since_flush >= interval
}

} // verus!
