//! Session bookkeeping: the metadata a session file keeps as events arrive
//! and archives complete, the readable session view, and the split of
//! archived events out of the active log.

use vstd::prelude::*;

use crate::strset::{contains_str, insert_sorted, sorted_set};
use crate::text::{decimal, opt_view, strs};
use crate::timelabel::{zero_pad, zero_padded};
use crate::types::{SessionMetadata, SessionStatus, SESSION_SCHEMA_VERSION};

verus! {

/// The metadata of a session that its first event opens.
pub fn new_session_metadata(session_id: &str, host_id: &str, received_at: &str, theme: &Option<String>) -> (r: SessionMetadata)
    ensures
        r.schema_version@ == SESSION_SCHEMA_VERSION@,
        r.session_id@ == session_id@,
        r.host_id@ == host_id@,
        r.status == SessionStatus::Active,
        r.created_at@ == received_at@,
        r.updated_at@ == received_at@,
        r.closed_at is None,
        r.event_count == 0,
        r.summary is None,
        opt_view(r.active_theme) == opt_view(*theme),
        r.tags@.len() == 0,
        r.archived_to@.len() == 0,
        r.archived_event_ids@.len() == 0,
        r.archived_event_index_complete,
        r.notes@.len() == 0,
{
    SessionMetadata {
        schema_version: SESSION_SCHEMA_VERSION.to_string(),
        session_id: session_id.to_string(),
        host_id: host_id.to_string(),
        status: SessionStatus::Active,
        created_at: received_at.to_string(),
        updated_at: received_at.to_string(),
        closed_at: None,
        event_count: 0,
        summary: None,
        active_theme: match theme {
            Some(t) => Some(t.clone()),
            None => None,
        },
        tags: Vec::new(),
        archived_to: Vec::new(),
        archived_event_ids: Vec::new(),
        archived_event_index_complete: true,
        notes: Vec::new(),
    }
}

/// `tags` followed by each of `new_tags` that it does not hold yet.
pub open spec fn with_new_tags(tags: Seq<Seq<char>>, new_tags: Seq<Seq<char>>) -> Seq<Seq<char>>
    decreases new_tags.len(),
{
    if new_tags.len() == 0 {
        tags
    } else {
        let prev = with_new_tags(tags, new_tags.drop_last());
        if prev.contains(new_tags.last()) {
            prev
        } else {
            prev.push(new_tags.last())
        }
    }
}

/// Counts an arrived event in its session: the session is updated at the
/// event's arrival, counts one more event, takes the event's theme when it
/// has none, and gains the event's new tags in order.
pub fn record_session_event(metadata: &mut SessionMetadata, received_at: &str, theme: &Option<String>, tags: &Vec<String>)
    requires
        old(metadata).event_count < u64::MAX,
    ensures
        final(metadata).updated_at@ == received_at@,
        final(metadata).event_count == old(metadata).event_count + 1,
        opt_view(final(metadata).active_theme) == (if old(metadata).active_theme is None {
            opt_view(*theme)
        } else {
            opt_view(old(metadata).active_theme)
        }),
        strs(final(metadata).tags@) == with_new_tags(strs(old(metadata).tags@), strs(tags@)),
        final(metadata).schema_version == old(metadata).schema_version,
        final(metadata).session_id == old(metadata).session_id,
        final(metadata).host_id == old(metadata).host_id,
        final(metadata).status == old(metadata).status,
        final(metadata).created_at == old(metadata).created_at,
        final(metadata).closed_at == old(metadata).closed_at,
        final(metadata).summary == old(metadata).summary,
        final(metadata).archived_to == old(metadata).archived_to,
        final(metadata).archived_event_ids == old(metadata).archived_event_ids,
        final(metadata).archived_event_index_complete == old(metadata).archived_event_index_complete,
        final(metadata).notes == old(metadata).notes,
{
    metadata.updated_at = received_at.to_string();
    metadata.event_count = metadata.event_count + 1;
    if metadata.active_theme.is_none() {
        metadata.active_theme = match theme {
            Some(t) => Some(t.clone()),
            None => None,
        };
    }
    let ghost start = strs(metadata.tags@);
    let ghost mid = *metadata;
    let mut i: usize = 0;
    while i < tags.len()
        invariant
            i <= tags@.len(),
            strs(metadata.tags@) == with_new_tags(start, strs(tags@).take(i as int)),
            metadata.updated_at == mid.updated_at,
            metadata.event_count == mid.event_count,
            metadata.active_theme == mid.active_theme,
            metadata.schema_version == mid.schema_version,
            metadata.session_id == mid.session_id,
            metadata.host_id == mid.host_id,
            metadata.status == mid.status,
            metadata.created_at == mid.created_at,
            metadata.closed_at == mid.closed_at,
            metadata.summary == mid.summary,
            metadata.archived_to == mid.archived_to,
            metadata.archived_event_ids == mid.archived_event_ids,
            metadata.archived_event_index_complete == mid.archived_event_index_complete,
            metadata.notes == mid.notes,
        decreases tags@.len() - i,
    {
        assert(strs(tags@).take(i + 1).drop_last() =~= strs(tags@).take(i as int));
        if !contains_str(&metadata.tags, tags[i].as_str()) {
            let ghost prev = strs(metadata.tags@);
            metadata.tags.push(tags[i].clone());
            assert(strs(metadata.tags@) =~= prev.push(tags@[i as int]@));
        }
        i = i + 1;
    }
    assert(strs(tags@).take(tags@.len() as int) =~= strs(tags@));
}

/// `v` as a sorted set of its items.
fn sorted_from(v: &Vec<String>) -> (r: Vec<String>)
    ensures
        sorted_set(strs(r@)),
        strs(r@).to_set() == strs(v@).to_set(),
{
    let mut out: Vec<String> = Vec::new();
    let mut i: usize = 0;
    while i < v.len()
        invariant
            i <= v@.len(),
            sorted_set(strs(out@)),
            strs(out@).to_set() == strs(v@).take(i as int).to_set(),
        decreases v@.len() - i,
    {
        insert_sorted(&mut out, v[i].clone());
        assert(strs(v@).take(i + 1) =~= strs(v@).take(i as int).push(v@[i as int]@));
        proof {
            broadcast use vstd::seq_lib::group_seq_properties;
            assert(strs(v@).take(i + 1).to_set() =~= strs(v@).take(i as int).to_set().insert(v@[i as int]@));
        }
        i = i + 1;
    }
    assert(strs(v@).take(v@.len() as int) =~= strs(v@));
    out
}

/// Records a completed archive of the session in its metadata index: the
/// archive joins the session's archives and its source events join the
/// archived events, both kept as sorted sets.
pub fn record_archive_in_session(metadata: &mut SessionMetadata, archive_id: &str, source_event_ids: &Vec<String>)
    ensures
        sorted_set(strs(final(metadata).archived_to@)),
        strs(final(metadata).archived_to@).to_set() == strs(old(metadata).archived_to@).to_set().insert(archive_id@),
        sorted_set(strs(final(metadata).archived_event_ids@)),
        strs(final(metadata).archived_event_ids@).to_set() == strs(old(metadata).archived_event_ids@).to_set().union(
            strs(source_event_ids@).to_set(),
        ),
        final(metadata).event_count == old(metadata).event_count,
        final(metadata).tags == old(metadata).tags,
        final(metadata).updated_at == old(metadata).updated_at,
        final(metadata).archived_event_index_complete == old(metadata).archived_event_index_complete,
{
    let mut archives = sorted_from(&metadata.archived_to);
    insert_sorted(&mut archives, archive_id.to_string());
    let mut events = sorted_from(&metadata.archived_event_ids);
    let ghost base = strs(events@).to_set();
    let mut i: usize = 0;
    while i < source_event_ids.len()
        invariant
            i <= source_event_ids@.len(),
            sorted_set(strs(events@)),
            strs(events@).to_set() == base.union(strs(source_event_ids@).take(i as int).to_set()),
        decreases source_event_ids@.len() - i,
    {
        insert_sorted(&mut events, source_event_ids[i].clone());
        proof {
            broadcast use vstd::seq_lib::group_seq_properties;
            assert(strs(source_event_ids@).take(i + 1) =~= strs(source_event_ids@).take(i as int).push(
                source_event_ids@[i as int]@,
            ));
            assert(strs(source_event_ids@).take(i + 1).to_set() =~= strs(source_event_ids@).take(i as int).to_set().insert(
                source_event_ids@[i as int]@,
            ));
            assert(strs(events@).to_set() =~= base.union(strs(source_event_ids@).take(i + 1).to_set()));
        }
        i = i + 1;
    }
    assert(strs(source_event_ids@).take(source_event_ids@.len() as int) =~= strs(source_event_ids@));
    metadata.archived_to = archives;
    metadata.archived_event_ids = events;
}

/// The header of a session's readable view.
pub open spec fn session_view_header(session_id: Seq<char>) -> Seq<char> {
    "---\nschema_version: session_view.v1\nsession_id: "@ + session_id + "\nstatus: active\n---\n\n# Сесія "@
        + session_id + "\n\n## Події\n\n"@
}

/// Writes the header of a session's readable view.
pub fn session_markdown_header(session_id: &str) -> (r: String)
    ensures
        r@ == session_view_header(session_id@),
{
    let mut s = "---\nschema_version: session_view.v1\nsession_id: ".to_string();
    s.append(session_id);
    s.append("\nstatus: active\n---\n\n# Сесія ");
    s.append(session_id);
    s.append("\n\n## Події\n\n");
    proof {
        reveal_strlit("---\nschema_version: session_view.v1\nsession_id: ");
        reveal_strlit("\nstatus: active\n---\n\n# Сесія ");
        reveal_strlit("\n\n## Події\n\n");
    }
    s
}

/// The line of one event in a session's readable view.
pub fn session_event_line(timestamp: &str, event_type: &str, summary: &str) -> (r: String)
    ensures
        r@ == "- "@ + timestamp@ + " "@ + event_type@ + ": "@ + summary@ + "\n"@,
{
    let mut s = "- ".to_string();
    s.append(timestamp);
    s.append(" ");
    s.append(event_type);
    s.append(": ");
    s.append(summary);
    s.append("\n");
    proof {
        reveal_strlit("- ");
        reveal_strlit(" ");
        reveal_strlit(": ");
        reveal_strlit("\n");
    }
    s
}

/// The file name of the `index`-th archived event batch of a session:
/// `events-` and the index padded to six digits.
pub fn archived_events_file_name(index: u64) -> (r: String)
    ensures
        r@ == "events-"@ + zero_padded(decimal(index as nat), 6) + ".jsonl"@,
{
    let mut s = "events-".to_string();
    let n = zero_pad(index, 6);
    s.append(n.as_str());
    s.append(".jsonl");
    proof {
        reveal_strlit("events-");
        reveal_strlit(".jsonl");
    }
    s
}

/// Splits a session's active events (by identifier) into those an archive
/// covers and those that stay active, keeping their order: the positions of
/// each.
pub fn split_covered_events(event_ids: &Vec<String>, covered: &Vec<String>) -> (r: (Vec<usize>, Vec<usize>))
    ensures
        forall|k: int| 0 <= k < r.0@.len() ==> #[trigger] r.0@[k] < event_ids@.len() && strs(covered@).contains(
            event_ids@[r.0@[k] as int]@,
        ),
        forall|k: int| 0 <= k < r.1@.len() ==> #[trigger] r.1@[k] < event_ids@.len() && !strs(covered@).contains(
            event_ids@[r.1@[k] as int]@,
        ),
        forall|a: int, b: int| 0 <= a < b < r.0@.len() ==> #[trigger] r.0@[a] < #[trigger] r.0@[b],
        forall|a: int, b: int| 0 <= a < b < r.1@.len() ==> #[trigger] r.1@[a] < #[trigger] r.1@[b],
        r.0@.len() + r.1@.len() == event_ids@.len(),
{
    let mut archived: Vec<usize> = Vec::new();
    let mut active: Vec<usize> = Vec::new();
    let mut i: usize = 0;
    while i < event_ids.len()
        invariant
            i <= event_ids@.len(),
            archived@.len() + active@.len() == i,
            forall|k: int| 0 <= k < archived@.len() ==> #[trigger] archived@[k] < i && strs(covered@).contains(
                event_ids@[archived@[k] as int]@,
            ),
            forall|k: int| 0 <= k < active@.len() ==> #[trigger] active@[k] < i && !strs(covered@).contains(
                event_ids@[active@[k] as int]@,
            ),
            forall|a: int, b: int| 0 <= a < b < archived@.len() ==> #[trigger] archived@[a] < #[trigger] archived@[b],
            forall|a: int, b: int| 0 <= a < b < active@.len() ==> #[trigger] active@[a] < #[trigger] active@[b],
        decreases event_ids@.len() - i,
    {
        if contains_str(covered, event_ids[i].as_str()) {
            archived.push(i);
        } else {
            active.push(i);
        }
        i = i + 1;
    }
    (archived, active)
}

} // verus!
