//! Pieces of a core context package that depend on time and on what has
//! already been archived: the dialogue that is still live, timestamps that
//! lie in the future, and the newest of two recall times.
use vstd::prelude::*;
use crate::text::{decimal, strs, usize_to_decimal};
use crate::strset::{contains_str, lex_less, lex_lt};
use crate::types::CoreContextEvent;
use crate::budget::reversed;
use crate::prompt::{tail, tail_spec};

verus! {

// ---------------------------------------------------------------- live dialogue

/// The events whose identifier is not among the archived ones, in order.
pub open spec fn unarchived(events: Seq<CoreContextEvent>, archived: Seq<Seq<char>>) -> Seq<
    CoreContextEvent,
>
    decreases events.len(),
{
    if events.len() == 0 {
        Seq::empty()
    } else {
        let prev = unarchived(events.drop_last(), archived);
        if archived.contains(events.last().event_id@) {
            prev
        } else {
            prev.push(events.last())
        }
    }
}

/// The last `limit` session events that have not been archived yet, oldest
/// first.
pub fn session_context_events(
    events: Vec<CoreContextEvent>,
    limit: usize,
    archived_event_ids: &Vec<String>,
) -> (r: Vec<CoreContextEvent>)
    ensures
        r@ == tail_spec(unarchived(events@, strs(archived_event_ids@)), limit as nat),
{
    let ghost orig = events@;
    let n = events.len();
    let mut rest = reversed(events);
    let mut live: Vec<CoreContextEvent> = Vec::new();
    let mut i: usize = 0;
    while i < n
        invariant
            n == orig.len(),
            i <= n,
            rest@ =~= orig.subrange(i as int, n as int).reverse(),
            live@ == unarchived(orig.take(i as int), strs(archived_event_ids@)),
        decreases n - i,
    {
        assert(orig.take(i + 1).drop_last() =~= orig.take(i as int));
        let next = rest.pop();
        match next {
            Some(event) => {
                assert(event == orig[i as int]);
                if !contains_str(archived_event_ids, event.event_id.as_str()) {
                    live.push(event);
                }
            },
            None => {
                assert(false);
            },
        }
        i = i + 1;
        assert(rest@ =~= orig.subrange(i as int, n as int).reverse());
    }
    assert(orig.take(n as int) =~= orig);
    tail(live, limit)
}

// ---------------------------------------------------------------- instants

/// The instant an RFC 3339 text names, in nanoseconds since the Unix epoch,
/// as `time` parses it; `None` when it does not parse.
pub uninterp spec fn rfc3339_unix_nanos(text: Seq<char>) -> Option<int>;

/// `time::OffsetDateTime::parse(text, &Rfc3339)` read as nanoseconds since
/// the Unix epoch.
#[verifier::external_body]
fn parse_rfc3339_nanos(text: &str) -> (r: Option<i128>)
    ensures
        match r {
            Some(n) => rfc3339_unix_nanos(text@) == Some(n as int),
            None => rfc3339_unix_nanos(text@) is None,
        },
{
    match time::OffsetDateTime::parse(text, &time::format_description::well_known::Rfc3339) {
        Ok(t) => Some(t.unix_timestamp_nanos()),
        Err(_) => None,
    }
}

/// `timestamp` names a later instant than `reference_at`; false when either
/// does not parse.
pub open spec fn is_future(timestamp: Seq<char>, reference_at: Seq<char>) -> bool {
    match (rfc3339_unix_nanos(timestamp), rfc3339_unix_nanos(reference_at)) {
        (Some(t), Some(now)) => t > now,
        _ => false,
    }
}

/// Whether a stored timestamp lies after the reference time.
pub fn timestamp_is_future(timestamp: &str, reference_at: &str) -> (r: bool)
    ensures
        r == is_future(timestamp@, reference_at@),
{
    match (parse_rfc3339_nanos(timestamp), parse_rfc3339_nanos(reference_at)) {
        (Some(then), Some(now)) => then > now,
        _ => false,
    }
}

/// How many of the timestamps lie after the reference time.
pub open spec fn future_count(timestamps: Seq<Seq<char>>, reference_at: Seq<char>) -> nat
    decreases timestamps.len(),
{
    if timestamps.len() == 0 {
        0
    } else {
        future_count(timestamps.drop_last(), reference_at) + (if is_future(
            timestamps.last(),
            reference_at,
        ) {
            1nat
        } else {
            0nat
        })
    }
}

/// The note a package carries about timestamps in its future, if any.
pub open spec fn future_note(count: nat) -> Option<Seq<char>> {
    if count > 0 {
        Some(
            decimal(count)
                + " memory timestamp(s) are in the future relative to now; their time labels are omitted."@,
        )
    } else {
        None
    }
}

/// Counts the shown timestamps that lie after the package's creation time
/// and words the note about them.
pub fn future_timestamps_note(timestamps: &Vec<String>, created_at: &str) -> (r: Option<String>)
    ensures
        crate::text::opt_view(r) == future_note(future_count(strs(timestamps@), created_at@)),
{
    let mut count: usize = 0;
    let mut i: usize = 0;
    while i < timestamps.len()
        invariant
            i <= timestamps@.len(),
            count == future_count(strs(timestamps@).take(i as int), created_at@),
            count <= i,
        decreases timestamps@.len() - i,
    {
        assert(strs(timestamps@).take(i + 1).drop_last() =~= strs(timestamps@).take(i as int));
        if timestamp_is_future(timestamps[i].as_str(), created_at) {
            count = count + 1;
        }
        i = i + 1;
    }
    assert(strs(timestamps@).take(timestamps@.len() as int) =~= strs(timestamps@));
    if count == 0 {
        return None;
    }
    let mut s = usize_to_decimal(count);
    s.append(" memory timestamp(s) are in the future relative to now; their time labels are omitted.");
    Some(s)
}

// ---------------------------------------------------------------- newest time

/// The later of two recall times: by instant when both parse, the one that
/// parses when only one does, by text order when neither does; a missing
/// time gives way to a present one.
pub open spec fn newest(left: Option<Seq<char>>, right: Option<Seq<char>>) -> Option<Seq<char>> {
    match (left, right) {
        (Some(l), Some(r)) => match (rfc3339_unix_nanos(l), rfc3339_unix_nanos(r)) {
            (Some(lt), Some(rt)) => if rt > lt {
                Some(r)
            } else {
                Some(l)
            },
            (None, Some(_)) => Some(r),
            (Some(_), None) => Some(l),
            (None, None) => if lex_lt(l, r) {
                Some(r)
            } else {
                Some(l)
            },
        },
        (Some(l), None) => Some(l),
        (None, Some(r)) => Some(r),
        (None, None) => None,
    }
}

/// The newest of two optional recall timestamps.
pub fn newest_timestamp(left: Option<&str>, right: Option<&str>) -> (r: Option<String>)
    ensures
        crate::text::opt_view(r) == newest(
            match left {
                Some(l) => Some(l@),
                None => None,
            },
            match right {
                Some(x) => Some(x@),
                None => None,
            },
        ),
{
    match (left, right) {
        (Some(l), Some(r)) => {
            let lt = parse_rfc3339_nanos(l);
            let rt = parse_rfc3339_nanos(r);
            match (lt, rt) {
                (Some(a), Some(b)) => if b > a {
                    Some(r.to_string())
                } else {
                    Some(l.to_string())
                },
                (None, Some(_)) => Some(r.to_string()),
                (Some(_), None) => Some(l.to_string()),
                (None, None) => if lex_less(l, r) {
                    Some(r.to_string())
                } else {
                    Some(l.to_string())
                },
            }
        },
        (Some(l), None) => Some(l.to_string()),
        (None, Some(r)) => Some(r.to_string()),
        (None, None) => None,
    }
}

/// The newest time is always one of the two given, and present whenever
/// either is.
pub proof fn lemma_newest_is_an_input(left: Option<Seq<char>>, right: Option<Seq<char>>)
    ensures
        newest(left, right) is Some <==> (left is Some || right is Some),
        newest(left, right) is Some ==> (newest(left, right) == left || newest(left, right)
            == right),
        newest(left, left) == left,
{
    match left {
        Some(l) => {
            crate::strset::lemma_lex_irrefl(l);
        },
        None => {},
    }
}

} // verus!
