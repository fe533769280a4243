//! The algorithmic first draft of an archive entry written at the start of
//! sleep, before any model pass: gist, narrative, quotes, time range and
//! tags, taken from the selected events.
use vstd::prelude::*;
use crate::text::{decimal, join, join_strings, strs, truncate_chars, truncate_seq, usize_to_decimal};
use crate::strset::{insert_sorted, lex_less, lex_lt, sorted_set};
use crate::types::{Quote, TimeRange};

verus! {

/// What the draft reads of a stored event: its identifier, time, type,
/// text (trimmed, absent when blank) and tags.
#[derive(Debug, Clone, PartialEq)]
pub struct EventDigest {
    pub event_id: String,
    pub timestamp: String,
    pub event_type: String,
    pub text: Option<String>,
    pub tags: Vec<String>,
}

/// The texts of the events that have one, in order.
pub open spec fn event_texts(events: Seq<EventDigest>) -> Seq<Seq<char>>
    decreases events.len(),
{
    if events.len() == 0 {
        Seq::empty()
    } else {
        let prev = event_texts(events.drop_last());
        match events.last().text {
            Some(t) => prev.push(t@),
            None => prev,
        }
    }
}

/// The first `n` items, or all of them.
pub open spec fn leading<T>(s: Seq<T>, n: nat) -> Seq<T> {
    if s.len() <= n {
        s
    } else {
        s.take(n as int)
    }
}

/// The draft gist: up to three texts cut to 120 characters, or the number
/// of events when none has text.
pub open spec fn preliminary_gist_text(events: Seq<EventDigest>) -> Seq<char> {
    let texts = leading(event_texts(events), 3).map_values(|t: Seq<char>| truncate_seq(t, 120));
    if texts.len() == 0 {
        "Попередній спогад із "@ + decimal(events.len()) + " події(й)."@
    } else {
        "Попередній спогад: "@ + join(texts, " / "@) + "."@
    }
}

fn collect_texts(events: &Vec<EventDigest>) -> (r: Vec<String>)
    ensures
        strs(r@) == event_texts(events@),
{
    let mut out: Vec<String> = Vec::new();
    let mut i: usize = 0;
    while i < events.len()
        invariant
            i <= events@.len(),
            strs(out@) == event_texts(events@.take(i as int)),
        decreases events@.len() - i,
    {
        assert(events@.take(i + 1).drop_last() =~= events@.take(i as int));
        assert(events@.take(i + 1).last() == events@[i as int]);
        match &events[i].text {
            Some(t) => {
                let ghost prev = strs(out@);
                out.push(t.clone());
                assert(strs(out@) =~= prev.push(t@));
            },
            None => {},
        }
        i = i + 1;
    }
    assert(events@.take(events@.len() as int) =~= events@);
    out
}

/// The gist of the draft archive entry.
pub fn preliminary_gist(events: &Vec<EventDigest>) -> (r: String)
    ensures
        r@ == preliminary_gist_text(events@),
{
    let texts = collect_texts(events);
    let n = if texts.len() < 3 { texts.len() } else { 3 };
    let mut cut: Vec<String> = Vec::new();
    let mut i: usize = 0;
    while i < n
        invariant
            i <= n <= texts@.len(),
            n == leading(strs(texts@), 3).len(),
            strs(cut@) =~= leading(strs(texts@), 3).take(i as int).map_values(
                |t: Seq<char>| truncate_seq(t, 120),
            ),
        decreases n - i,
    {
        let c = truncate_chars(texts[i].as_str(), 120);
        let ghost prev = strs(cut@);
        let ghost cv = c@;
        cut.push(c);
        assert(strs(cut@) =~= prev.push(cv));
        assert(leading(strs(texts@), 3)[i as int] == texts@[i as int]@);
        assert(leading(strs(texts@), 3).take(i + 1) =~= leading(strs(texts@), 3).take(i as int).push(
            texts@[i as int]@,
        ));
        i = i + 1;
    }
    assert(leading(strs(texts@), 3).take(n as int) =~= leading(strs(texts@), 3));
    if cut.len() == 0 {
        let mut s = String::new();
        s.append("Попередній спогад із ");
        let d = usize_to_decimal(events.len());
        s.append(d.as_str());
        s.append(" події(й).");
        s
    } else {
        let mut s = String::new();
        s.append("Попередній спогад: ");
        let body = join_strings(&cut, " / ");
        s.append(body.as_str());
        s.append(".");
        s
    }
}

/// `timestamp type: text` for each event with text, the text cut to 180.
pub open spec fn narrative_lines(events: Seq<EventDigest>) -> Seq<Seq<char>>
    decreases events.len(),
{
    if events.len() == 0 {
        Seq::empty()
    } else {
        let prev = narrative_lines(events.drop_last());
        let e = events.last();
        match e.text {
            Some(t) => prev.push(e.timestamp@ + " "@ + e.event_type@ + ": "@ + truncate_seq(t@, 180)),
            None => prev,
        }
    }
}

/// The draft narrative of a session's events.
pub open spec fn preliminary_narrative_text(session_id: Seq<char>, events: Seq<EventDigest>) -> Seq<char> {
    let lines = narrative_lines(events);
    if lines.len() == 0 {
        "Попередній архівний спогад із сесії "@ + session_id + ", створений алгоритмічно з "@
            + decimal(events.len()) + " події(й)."@
    } else {
        "Попередній архівний спогад із сесії "@ + session_id + ". Ключові події: "@ + join(
            lines,
            " | "@,
        )
    }
}

/// The narrative of the draft archive entry.
pub fn preliminary_narrative(session_id: &str, events: &Vec<EventDigest>) -> (r: String)
    ensures
        r@ == preliminary_narrative_text(session_id@, events@),
{
    let mut lines: Vec<String> = Vec::new();
    let mut i: usize = 0;
    while i < events.len()
        invariant
            i <= events@.len(),
            strs(lines@) == narrative_lines(events@.take(i as int)),
        decreases events@.len() - i,
    {
        assert(events@.take(i + 1).drop_last() =~= events@.take(i as int));
        assert(events@.take(i + 1).last() == events@[i as int]);
        let e = &events[i];
        match &e.text {
            Some(t) => {
                let mut line = String::new();
                line.append(e.timestamp.as_str());
                line.append(" ");
                line.append(e.event_type.as_str());
                line.append(": ");
                let cut = truncate_chars(t.as_str(), 180);
                line.append(cut.as_str());
                let ghost prev = strs(lines@);
                let ghost lv = line@;
                lines.push(line);
                assert(strs(lines@) =~= prev.push(lv));
            },
            None => {},
        }
        i = i + 1;
    }
    assert(events@.take(events@.len() as int) =~= events@);
    let mut s = String::new();
    s.append("Попередній архівний спогад із сесії ");
    s.append(session_id);
    if lines.len() == 0 {
        s.append(", створений алгоритмічно з ");
        let d = usize_to_decimal(events.len());
        s.append(d.as_str());
        s.append(" події(й).");
    } else {
        s.append(". Ключові події: ");
        let body = join_strings(&lines, " | ");
        s.append(body.as_str());
    }
    s
}

/// One quote per event with text: the text cut to 240, with its source.
pub open spec fn quote_of(e: EventDigest) -> (Seq<char>, Seq<char>) {
    (truncate_seq(e.text.unwrap()@, 240), e.event_id@)
}

/// The quotes of the events with text, in order.
pub open spec fn quotes_spec(events: Seq<EventDigest>) -> Seq<(Seq<char>, Seq<char>)>
    decreases events.len(),
{
    if events.len() == 0 {
        Seq::empty()
    } else {
        let prev = quotes_spec(events.drop_last());
        if events.last().text is Some {
            prev.push(quote_of(events.last()))
        } else {
            prev
        }
    }
}

/// `(text, source)` of each quote, the source being present.
pub open spec fn quote_views(quotes: Seq<Quote>) -> Seq<(Seq<char>, Seq<char>)> {
    quotes.map_values(|q: Quote| (q.text@, q.source_event_id.unwrap()@))
}

/// The draft's quotes: each event text cut to 240, citing its event.
pub fn preliminary_quotes(events: &Vec<EventDigest>) -> (r: Vec<Quote>)
    ensures
        quote_views(r@) == quotes_spec(events@),
        forall|k: int| 0 <= k < r@.len() ==> (#[trigger] r@[k]).source_event_id is Some,
{
    let mut out: Vec<Quote> = Vec::new();
    let mut i: usize = 0;
    while i < events.len()
        invariant
            i <= events@.len(),
            quote_views(out@) == quotes_spec(events@.take(i as int)),
            forall|k: int| 0 <= k < out@.len() ==> (#[trigger] out@[k]).source_event_id is Some,
        decreases events@.len() - i,
    {
        assert(events@.take(i + 1).drop_last() =~= events@.take(i as int));
        assert(events@.take(i + 1).last() == events@[i as int]);
        let e = &events[i];
        match &e.text {
            Some(t) => {
                let q = Quote {
                    text: truncate_chars(t.as_str(), 240),
                    source_event_id: Some(e.event_id.clone()),
                };
                let ghost prev = out@;
                out.push(q);
                assert(quote_views(out@) =~= quote_views(prev).push((q.text@, e.event_id@)));
            },
            None => {},
        }
        i = i + 1;
    }
    assert(events@.take(events@.len() as int) =~= events@);
    out
}

// ---------------------------------------------------------------- time range

/// The earliest timestamp text of the events by `String` order.
pub open spec fn earliest(events: Seq<EventDigest>) -> Seq<char>
    recommends
        events.len() > 0,
    decreases events.len(),
{
    if events.len() <= 1 {
        events[0].timestamp@
    } else {
        let prev = earliest(events.drop_last());
        if lex_lt(events.last().timestamp@, prev) {
            events.last().timestamp@
        } else {
            prev
        }
    }
}

/// The latest timestamp text of the events by `String` order.
pub open spec fn latest(events: Seq<EventDigest>) -> Seq<char>
    recommends
        events.len() > 0,
    decreases events.len(),
{
    if events.len() <= 1 {
        events[0].timestamp@
    } else {
        let prev = latest(events.drop_last());
        if lex_lt(prev, events.last().timestamp@) {
            events.last().timestamp@
        } else {
            prev
        }
    }
}

/// The span of the events' timestamps, or `unknown` to `unknown` without
/// events.
pub fn time_range_from_events(events: &Vec<EventDigest>) -> (r: TimeRange)
    ensures
        events@.len() == 0 ==> r.start@ == "unknown"@ && r.end@ == "unknown"@,
        events@.len() > 0 ==> r.start@ == earliest(events@) && r.end@ == latest(events@),
{
    if events.len() == 0 {
        return TimeRange { start: "unknown".to_string(), end: "unknown".to_string() };
    }
    let mut lo: usize = 0;
    let mut hi: usize = 0;
    let mut i: usize = 1;
    while i < events.len()
        invariant
            1 <= i <= events@.len(),
            lo < i,
            hi < i,
            events@[lo as int].timestamp@ == earliest(events@.take(i as int)),
            events@[hi as int].timestamp@ == latest(events@.take(i as int)),
        decreases events@.len() - i,
    {
        assert(events@.take(i + 1).drop_last() =~= events@.take(i as int));
        assert(events@.take(i + 1).last() == events@[i as int]);
        if lex_less(events[i].timestamp.as_str(), events[lo].timestamp.as_str()) {
            lo = i;
        }
        if lex_less(events[hi].timestamp.as_str(), events[i].timestamp.as_str()) {
            hi = i;
        }
        i = i + 1;
    }
    assert(events@.take(events@.len() as int) =~= events@);
    TimeRange { start: events[lo].timestamp.clone(), end: events[hi].timestamp.clone() }
}

// ---------------------------------------------------------------- tags

/// Every tag of the events, in order of appearance.
pub open spec fn all_tags(events: Seq<EventDigest>) -> Seq<Seq<char>>
    decreases events.len(),
{
    if events.len() == 0 {
        Seq::empty()
    } else {
        all_tags(events.drop_last()) + strs(events.last().tags@)
    }
}

/// The distinct tags of the events, sorted.
pub fn collect_tags(events: &Vec<EventDigest>) -> (r: Vec<String>)
    ensures
        sorted_set(strs(r@)),
        strs(r@).to_set() == all_tags(events@).to_set(),
{
    let mut out: Vec<String> = Vec::new();
    let mut i: usize = 0;
    assert(strs(out@).to_set() =~= all_tags(events@.take(0)).to_set());
    while i < events.len()
        invariant
            i <= events@.len(),
            sorted_set(strs(out@)),
            strs(out@).to_set() == all_tags(events@.take(i as int)).to_set(),
        decreases events@.len() - i,
    {
        assert(events@.take(i + 1).drop_last() =~= events@.take(i as int));
        assert(events@.take(i + 1).last() == events@[i as int]);
        let tags = &events[i].tags;
        let ghost base = all_tags(events@.take(i as int));
        let mut k: usize = 0;
        while k < tags.len()
            invariant
                k <= tags@.len(),
                sorted_set(strs(out@)),
                strs(out@).to_set() == (base + strs(tags@).take(k as int)).to_set(),
            decreases tags@.len() - k,
        {
            let ghost before = strs(out@).to_set();
            insert_sorted(&mut out, tags[k].clone());
            proof {
                (base + strs(tags@).take(k as int)).lemma_push_to_set_commute(tags@[k as int]@);
                assert(base + strs(tags@).take(k + 1) =~= (base + strs(tags@).take(k as int)).push(
                    tags@[k as int]@,
                ));
                assert((base + strs(tags@).take(k as int)).push(tags@[k as int]@).to_set()
                    =~= (base + strs(tags@).take(k as int)).to_set().insert(tags@[k as int]@));
            }
            k = k + 1;
        }
        assert(strs(tags@).take(tags@.len() as int) =~= strs(tags@));
        i = i + 1;
    }
    assert(events@.take(events@.len() as int) =~= events@);
    out
}

} // verus!
