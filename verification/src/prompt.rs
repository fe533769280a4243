//! Rendering of the memory context a host places in front of the model:
//! dialogue lines, core-fact lines, long-memory lines and the whole view.
use vstd::prelude::*;
use crate::text::{
    char_count, chars_of, join, join_strings, opt_view, string_from_chars, strs, trim_end_len,
    trim_end_seq, trim_seq, trim_str,
};
use crate::strset::str_eq;
use crate::tokens::has_sub;
use crate::types::{CoreContextEvent, CoreFactStatus};
use crate::consolidator::{lines_of, lines_seq};
use crate::timelabel::{age_text, current_time_text, LocalStamp, TimeLabelContext};

verus! {

pub const ARCHIVE_MEMORY_PROMPT_LIMIT: usize = 5;

pub const OLDER_TRACE_LIMIT: usize = 20;

pub const OLDER_TRACE_MAX_TEXT_CHARS: usize = 180;

pub const RECENT_MAX_TEXT_CHARS: usize = 900;

pub const CORE_FACT_MAX_TEXT_CHARS: usize = 260;

// ---------------------------------------------------------------- escaping

/// What one character becomes inside the XML-like prompt blocks.
pub open spec fn escaped_char(c: char) -> Seq<char> {
    if c == '&' {
        "&amp;"@
    } else if c == '<' {
        "&lt;"@
    } else if c == '>' {
        "&gt;"@
    } else {
        seq![c]
    }
}

/// `s` with `&`, `<` and `>` escaped.
pub open spec fn escaped(s: Seq<char>) -> Seq<char>
    decreases s.len(),
{
    if s.len() == 0 {
        Seq::empty()
    } else {
        escaped(s.drop_last()) + escaped_char(s.last())
    }
}

/// Escapes `&`, `<` and `>` so that text cannot open or close a block.
pub fn xml_escape(value: &str) -> (r: String)
    ensures
        r@ == escaped(value@),
{
    let v = chars_of(value);
    let mut out = String::new();
    let mut i: usize = 0;
    while i < v.len()
        invariant
            i <= v@.len(),
            v@ == value@,
            out@ == escaped(v@.take(i as int)),
        decreases v@.len() - i,
    {
        let c = v[i];
        assert(v@.take(i + 1).drop_last() =~= v@.take(i as int));
        assert(v@.take(i + 1).last() == c);
        if c == '&' {
            out.append("&amp;");
        } else if c == '<' {
            out.append("&lt;");
        } else if c == '>' {
            out.append("&gt;");
        } else {
            let single = string_from_chars(&[c]);
            assert(single@ =~= seq![c]);
            out.append(single.as_str());
        }
        i = i + 1;
    }
    assert(v@.take(v@.len() as int) =~= v@);
    out
}

/// Escaped text holds no angle bracket, so it can never open or close a
/// block of the view.
pub proof fn lemma_escaped_has_no_angle_brackets(s: Seq<char>)
    ensures
        forall|k: int| 0 <= k < escaped(s).len() ==> #[trigger] escaped(s)[k] != '<' && escaped(s)[k] != '>',
    decreases s.len(),
{
    reveal_strlit("&amp;");
    reveal_strlit("&lt;");
    reveal_strlit("&gt;");
    if s.len() > 0 {
        lemma_escaped_has_no_angle_brackets(s.drop_last());
        let prev = escaped(s.drop_last());
        let tail = escaped_char(s.last());
        assert forall|k: int| 0 <= k < escaped(s).len() implies #[trigger] escaped(s)[k] != '<'
            && escaped(s)[k] != '>' by {
            if k < prev.len() {
                assert(escaped(s)[k] == prev[k]);
            } else {
                assert(escaped(s)[k] == tail[k - prev.len()]);
            }
        }
    }
}

// ---------------------------------------------------------------- truncation

/// Trimmed text cut to `max` characters: when too long, its first
/// `max - 3` characters, trailing white space dropped, then `...`.
pub open spec fn truncated_text(s: Seq<char>, max: nat) -> Seq<char> {
    let cleaned = trim_seq(s);
    if cleaned.len() <= max {
        cleaned
    } else {
        let keep: int = if max >= 3 {
            max - 3
        } else {
            0
        };
        trim_end_seq(cleaned.take(keep)) + "..."@
    }
}

/// The trimmed text, cut with `...` when longer than `max_chars`.
pub fn truncate_text(text: &str, max_chars: usize) -> (r: String)
    ensures
        r@ == truncated_text(text@, max_chars as nat),
{
    let cleaned = trim_str(text);
    let v = chars_of(cleaned.as_str());
    if v.len() <= max_chars {
        return cleaned;
    }
    let keep: usize = if max_chars >= 3 {
        max_chars - 3
    } else {
        0
    };
    let head = &v.as_slice()[0..keep];
    assert(head@ =~= cleaned@.take(keep as int));
    let j = trim_end_len(head);
    let mut out = string_from_chars(&head[0..j]);
    out.append("...");
    out
}

/// A truncated line never exceeds its limit once the limit has room for
/// the `...` marker.
pub proof fn lemma_truncated_text_fits(s: Seq<char>, max: nat)
    requires
        max >= 3,
    ensures
        truncated_text(s, max).len() <= max,
{
    reveal_strlit("...");
    let cleaned = trim_seq(s);
    if cleaned.len() > max {
        crate::text::lemma_trim_end_shape(cleaned.take(max - 3));
    }
}

// ---------------------------------------------------------------- dialogue events

/// The role a dialogue line is attributed to: `assistant` for assistant
/// events, the speaker's name for a named user-side speaker, `user` otherwise.
pub open spec fn role_of(event: CoreContextEvent) -> Seq<char> {
    if event.event_type@ == "assistant_message"@ {
        "assistant"@
    } else {
        match event.speaker {
            Some(speaker) => if trim_seq(speaker.name@).len() > 0 {
                trim_seq(speaker.name@)
            } else {
                "user"@
            },
            None => "user"@,
        }
    }
}

/// Attributed transcript role of an event.
pub fn dialogue_role(event: &CoreContextEvent) -> (r: String)
    ensures
        r@ == role_of(*event),
{
    if str_eq(event.event_type.as_str(), "assistant_message") {
        return "assistant".to_string();
    }
    match &event.speaker {
        Some(speaker) => {
            let name = trim_str(speaker.name.as_str());
            if char_count(name.as_str()) > 0 {
                name
            } else {
                "user".to_string()
            }
        },
        None => "user".to_string(),
    }
}

/// One dialogue turn, cleaned for rendering.
#[derive(Debug, Clone, PartialEq, Eq)]
pub struct DialogueEvent {
    pub event_id: String,
    pub timestamp: String,
    pub role: String,
    pub text: String,
}

/// `(event_id, timestamp, role, text)` of a dialogue turn.
pub open spec fn dview(e: DialogueEvent) -> (Seq<char>, Seq<char>, Seq<char>, Seq<char>) {
    (e.event_id@, e.timestamp@, e.role@, e.text@)
}

pub open spec fn dviews(v: Seq<DialogueEvent>) -> Seq<(Seq<char>, Seq<char>, Seq<char>, Seq<char>)> {
    v.map_values(|e: DialogueEvent| dview(e))
}

fn copy_dialogue_event(e: &DialogueEvent) -> (r: DialogueEvent)
    ensures
        dview(r) == dview(*e),
{
    DialogueEvent {
        event_id: e.event_id.clone(),
        timestamp: e.timestamp.clone(),
        role: e.role.clone(),
        text: e.text.clone(),
    }
}

/// The dialogue turns of context events: events without text, or with only
/// white space, are skipped; identifiers, timestamps and texts are trimmed.
pub open spec fn normalized_spec(events: Seq<CoreContextEvent>) -> Seq<
    (Seq<char>, Seq<char>, Seq<char>, Seq<char>),
>
    decreases events.len(),
{
    if events.len() == 0 {
        Seq::empty()
    } else {
        let prev = normalized_spec(events.drop_last());
        let e = events.last();
        match e.text {
            Some(t) => if trim_seq(t@).len() > 0 {
                prev.push((trim_seq(e.event_id@), trim_seq(e.timestamp@), role_of(e), trim_seq(t@)))
            } else {
                prev
            },
            None => prev,
        }
    }
}

/// The dialogue turns of context events, in order.
pub fn normalized_context_events(events: &Vec<CoreContextEvent>) -> (r: Vec<DialogueEvent>)
    ensures
        dviews(r@) == normalized_spec(events@),
{
    let mut out: Vec<DialogueEvent> = Vec::new();
    let mut i: usize = 0;
    while i < events.len()
        invariant
            i <= events@.len(),
            dviews(out@) == normalized_spec(events@.take(i as int)),
        decreases events@.len() - i,
    {
        let event = &events[i];
        assert(events@.take(i + 1).drop_last() =~= events@.take(i as int));
        assert(events@.take(i + 1).last() == *event);
        match &event.text {
            Some(t) => {
                let text = trim_str(t.as_str());
                if char_count(text.as_str()) > 0 {
                    let turn = DialogueEvent {
                        event_id: trim_str(event.event_id.as_str()),
                        timestamp: trim_str(event.timestamp.as_str()),
                        role: dialogue_role(event),
                        text,
                    };
                    let ghost prev = out@;
                    out.push(turn);
                    assert(dviews(out@) =~= dviews(prev).push(dview(turn)));
                }
            },
            None => {},
        }
        i = i + 1;
    }
    assert(events@.take(events@.len() as int) =~= events@);
    out
}

/// The turns without a last one that repeats the current user message.
pub open spec fn drop_current_spec(
    v: Seq<(Seq<char>, Seq<char>, Seq<char>, Seq<char>)>,
    current: Seq<char>,
) -> Seq<(Seq<char>, Seq<char>, Seq<char>, Seq<char>)> {
    if v.len() > 0 && v.last().2 != "assistant"@ && v.last().3 == trim_seq(current) {
        v.drop_last()
    } else {
        v
    }
}

/// Drops the last turn when it is a user-side turn with the same text as
/// the current user message, which the view shows in its own block.
pub fn drop_current_user_message(events: Vec<DialogueEvent>, current_user_message: &str) -> (r: Vec<
    DialogueEvent,
>)
    ensures
        dviews(r@) == drop_current_spec(dviews(events@), current_user_message@),
{
    let current = trim_str(current_user_message);
    let mut events = events;
    let n = events.len();
    if n > 0 {
        let is_repeat = !str_eq(events[n - 1].role.as_str(), "assistant") && str_eq(
            events[n - 1].text.as_str(),
            current.as_str(),
        );
        if is_repeat {
            let ghost before = events@;
            let _ = events.pop();
            assert(dviews(events@) =~= dviews(before).drop_last());
        }
    }
    events
}

/// The last `limit` items, or all of them when there are no more.
pub open spec fn tail_spec<T>(v: Seq<T>, limit: nat) -> Seq<T> {
    if v.len() <= limit {
        v
    } else {
        v.subrange(v.len() - limit, v.len() as int)
    }
}

/// Keeps the last `limit` items.
pub fn tail<T>(items: Vec<T>, limit: usize) -> (r: Vec<T>)
    ensures
        r@ == tail_spec(items@, limit as nat),
{
    if items.len() <= limit {
        return items;
    }
    let start = items.len() - limit;
    let mut items = items;
    let rest = items.split_off(start);
    rest
}

/// Whether a turn with identifier `id` is among `turns`.
pub open spec fn has_turn_id(turns: Seq<(Seq<char>, Seq<char>, Seq<char>, Seq<char>)>, id: Seq<char>) -> bool {
    exists|j: int| 0 <= j < turns.len() && #[trigger] turns[j].0 == id
}

fn has_dialogue_id(turns: &Vec<DialogueEvent>, id: &str) -> (r: bool)
    ensures
        r == has_turn_id(dviews(turns@), id@),
{
    let mut i: usize = 0;
    while i < turns.len()
        invariant
            i <= turns@.len(),
            forall|j: int| 0 <= j < i ==> #[trigger] dviews(turns@)[j].0 != id@,
        decreases turns@.len() - i,
    {
        if str_eq(turns[i].event_id.as_str(), id) {
            assert(dviews(turns@)[i as int].0 == id@);
            return true;
        }
        i = i + 1;
    }
    false
}

/// Trace turns that have an identifier and are not already among the
/// recent turns, in order.
pub open spec fn older_trace_spec(
    trace: Seq<(Seq<char>, Seq<char>, Seq<char>, Seq<char>)>,
    recent: Seq<(Seq<char>, Seq<char>, Seq<char>, Seq<char>)>,
) -> Seq<(Seq<char>, Seq<char>, Seq<char>, Seq<char>)>
    decreases trace.len(),
{
    if trace.len() == 0 {
        Seq::empty()
    } else {
        let prev = older_trace_spec(trace.drop_last(), recent);
        let e = trace.last();
        if e.0.len() > 0 && !has_turn_id(recent, e.0) {
            prev.push(e)
        } else {
            prev
        }
    }
}

fn older_trace(trace: &Vec<DialogueEvent>, recent: &Vec<DialogueEvent>) -> (r: Vec<DialogueEvent>)
    ensures
        dviews(r@) == older_trace_spec(dviews(trace@), dviews(recent@)),
{
    let mut out: Vec<DialogueEvent> = Vec::new();
    let mut i: usize = 0;
    while i < trace.len()
        invariant
            i <= trace@.len(),
            dviews(out@) == older_trace_spec(dviews(trace@).take(i as int), dviews(recent@)),
        decreases trace@.len() - i,
    {
        assert(dviews(trace@).take(i + 1).drop_last() =~= dviews(trace@).take(i as int));
        assert(dviews(trace@).take(i + 1).last() == dview(trace@[i as int]));
        let e = &trace[i];
        if char_count(e.event_id.as_str()) > 0 && !has_dialogue_id(recent, e.event_id.as_str()) {
            let copy = copy_dialogue_event(e);
            let ghost prev = out@;
            out.push(copy);
            assert(dviews(out@) =~= dviews(prev).push(dview(copy)));
        }
        i = i + 1;
    }
    assert(dviews(trace@).take(trace@.len() as int) =~= dviews(trace@));
    out
}

// ---------------------------------------------------------------- dialogue lines

/// `role: text` for each turn whose truncated text is not empty.
pub open spec fn dialogue_lines(v: Seq<(Seq<char>, Seq<char>, Seq<char>, Seq<char>)>, max: nat) -> Seq<
    Seq<char>,
>
    decreases v.len(),
{
    if v.len() == 0 {
        Seq::empty()
    } else {
        let prev = dialogue_lines(v.drop_last(), max);
        let e = v.last();
        let t = truncated_text(e.3, max);
        if t.len() > 0 {
            prev.push(e.2 + ": "@ + escaped(t))
        } else {
            prev
        }
    }
}

fn dialogue_line(role: &str, text: &str) -> (r: String)
    ensures
        r@ == role@ + ": "@ + escaped(text@),
{
    let mut line = String::new();
    line.append(role);
    line.append(": ");
    let esc = xml_escape(text);
    line.append(esc.as_str());
    line
}

/// The transcript lines of dialogue turns, texts cut to `max_text_chars`.
pub fn render_dialogue_lines(events: &Vec<DialogueEvent>, max_text_chars: usize) -> (r: Vec<String>)
    ensures
        strs(r@) == dialogue_lines(dviews(events@), max_text_chars as nat),
{
    let mut out: Vec<String> = Vec::new();
    let mut i: usize = 0;
    while i < events.len()
        invariant
            i <= events@.len(),
            strs(out@) == dialogue_lines(dviews(events@).take(i as int), max_text_chars as nat),
        decreases events@.len() - i,
    {
        assert(dviews(events@).take(i + 1).drop_last() =~= dviews(events@).take(i as int));
        assert(dviews(events@).take(i + 1).last() == dview(events@[i as int]));
        let e = &events[i];
        let text = truncate_text(e.text.as_str(), max_text_chars);
        if char_count(text.as_str()) > 0 {
            let line = dialogue_line(e.role.as_str(), text.as_str());
            let ghost prev = out@;
            out.push(line);
            assert(strs(out@) =~= strs(prev).push(line@));
        }
        i = i + 1;
    }
    assert(dviews(events@).take(events@.len() as int) =~= dviews(events@));
    out
}

/// Transcript lines with a `[label]` line before each run of turns of the
/// same calendar bucket; the lines so far and the bucket of the last marker.
pub open spec fn marked_lines(
    v: Seq<(Seq<char>, Seq<char>, Seq<char>, Seq<char>)>,
    max: nat,
    now: Option<LocalStamp>,
    offset_minutes: int,
) -> (Seq<Seq<char>>, Option<Seq<char>>)
    decreases v.len(),
{
    if v.len() == 0 {
        (Seq::empty(), None)
    } else {
        let (lines, marker) = marked_lines(v.drop_last(), max, now, offset_minutes);
        let e = v.last();
        let t = truncated_text(e.3, max);
        if t.len() == 0 {
            (lines, marker)
        } else {
            let line = e.2 + ": "@ + escaped(t);
            match age_text(now, offset_minutes, e.1) {
                Some(label) => if marker != Some(label) {
                    (lines.push("["@ + label + "]"@).push(line), Some(label))
                } else {
                    (lines.push(line), marker)
                },
                None => (lines.push(line), marker),
            }
        }
    }
}

/// Older-trace lines with one day marker per calendar-day group. Without a
/// trusted clock they are the plain transcript lines.
pub fn render_dialogue_lines_with_day_markers(
    events: &Vec<DialogueEvent>,
    max_text_chars: usize,
    time: &TimeLabelContext,
) -> (r: Vec<String>)
    ensures
        strs(r@) == marked_lines(
            dviews(events@),
            max_text_chars as nat,
            time.now_spec(),
            time.offset_spec(),
        ).0,
{
    let ghost now = time.now_spec();
    let ghost off = time.offset_spec();
    let mut out: Vec<String> = Vec::new();
    let mut marker: Option<String> = None;
    let mut i: usize = 0;
    while i < events.len()
        invariant
            i <= events@.len(),
            now == time.now_spec(),
            off == time.offset_spec(),
            strs(out@) == marked_lines(dviews(events@).take(i as int), max_text_chars as nat, now, off).0,
            opt_view(marker) == marked_lines(
                dviews(events@).take(i as int),
                max_text_chars as nat,
                now,
                off,
            ).1,
        decreases events@.len() - i,
    {
        assert(dviews(events@).take(i + 1).drop_last() =~= dviews(events@).take(i as int));
        assert(dviews(events@).take(i + 1).last() == dview(events@[i as int]));
        let e = &events[i];
        let text = truncate_text(e.text.as_str(), max_text_chars);
        if char_count(text.as_str()) > 0 {
            let label = time.age_label(e.timestamp.as_str());
            match label {
                Some(l) => {
                    let same = match &marker {
                        Some(m) => str_eq(m.as_str(), l.as_str()),
                        None => false,
                    };
                    if !same {
                        let mut mark = String::new();
                        mark.append("[");
                        mark.append(l.as_str());
                        mark.append("]");
                        let ghost prev = out@;
                        out.push(mark);
                        assert(strs(out@) =~= strs(prev).push(mark@));
                        marker = Some(l);
                    }
                },
                None => {},
            }
            let line = dialogue_line(e.role.as_str(), text.as_str());
            let ghost prev = out@;
            out.push(line);
            assert(strs(out@) =~= strs(prev).push(line@));
        }
        i = i + 1;
    }
    assert(dviews(events@).take(events@.len() as int) =~= dviews(events@));
    out
}

/// The prompt line of a context event: `role: text`, the text trimmed,
/// escaped and cut to `max_text_chars`; `None` without text.
pub open spec fn context_event_line(event: CoreContextEvent, max: nat) -> Option<Seq<char>> {
    match event.text {
        None => None,
        Some(t) => if trim_seq(t@).len() == 0 {
            None
        } else {
            Some(role_of(event) + ": "@ + escaped(truncated_text(trim_seq(t@), max)))
        },
    }
}

/// The prompt line of one context event.
pub fn render_context_event_prompt_line(event: &CoreContextEvent, max_text_chars: usize) -> (r: Option<
    String,
>)
    ensures
        opt_view(r) == context_event_line(*event, max_text_chars as nat),
{
    match &event.text {
        None => None,
        Some(t) => {
            let text = trim_str(t.as_str());
            if char_count(text.as_str()) == 0 {
                return None;
            }
            let role = dialogue_role(event);
            let cut = truncate_text(text.as_str(), max_text_chars);
            Some(dialogue_line(role.as_str(), cut.as_str()))
        },
    }
}

// ---------------------------------------------------------------- core facts

/// The marker a non-active fact carries in the prompt.
pub open spec fn status_marker(status: CoreFactStatus) -> Seq<char> {
    match status {
        CoreFactStatus::Active => ""@,
        CoreFactStatus::Contested => " [contested]"@,
        CoreFactStatus::Deprecated => " [deprecated]"@,
        CoreFactStatus::Contradicted => " [contradicted]"@,
        CoreFactStatus::NeedsReview => " [needs_review]"@,
    }
}

/// `- category [marker] (confidence): text`, the text trimmed, cut to the
/// core-fact limit and escaped; `None` when no text is left.
pub open spec fn core_fact_line(
    category: Seq<char>,
    text: Seq<char>,
    status: CoreFactStatus,
    confidence_text: Seq<char>,
) -> Option<Seq<char>> {
    let t = truncated_text(trim_seq(text), CORE_FACT_MAX_TEXT_CHARS as nat);
    if t.len() == 0 {
        None
    } else {
        let cat = if trim_seq(category).len() == 0 {
            "core"@
        } else {
            trim_seq(category)
        };
        Some("- "@ + cat + status_marker(status) + " ("@ + confidence_text + "): "@ + escaped(t))
    }
}

fn status_marker_text(status: CoreFactStatus) -> (r: &'static str)
    ensures
        r@ == status_marker(status),
{
    match status {
        CoreFactStatus::Active => "",
        CoreFactStatus::Contested => " [contested]",
        CoreFactStatus::Deprecated => " [deprecated]",
        CoreFactStatus::Contradicted => " [contradicted]",
        CoreFactStatus::NeedsReview => " [needs_review]",
    }
}

/// The prompt line of a core fact whose confidence is already written out.
pub fn render_core_fact_prompt_line(
    category: &str,
    text: &str,
    status: CoreFactStatus,
    confidence_text: &str,
) -> (r: Option<String>)
    ensures
        opt_view(r) == core_fact_line(category@, text@, status, confidence_text@),
{
    let trimmed = trim_str(text);
    let t = truncate_text(trimmed.as_str(), CORE_FACT_MAX_TEXT_CHARS);
    if char_count(t.as_str()) == 0 {
        return None;
    }
    let cat_trimmed = trim_str(category);
    let cat = if char_count(cat_trimmed.as_str()) == 0 {
        "core".to_string()
    } else {
        cat_trimmed
    };
    let mut line = String::new();
    line.append("- ");
    line.append(cat.as_str());
    line.append(status_marker_text(status));
    line.append(" (");
    line.append(confidence_text);
    line.append("): ");
    let esc = xml_escape(t.as_str());
    line.append(esc.as_str());
    Some(line)
}

// ---------------------------------------------------------------- long memory

/// The text a long-memory item shows: its compact memory when that has
/// text, its gist otherwise, trimmed.
pub open spec fn archive_memory_text(compact_memory: Option<Seq<char>>, gist: Seq<char>) -> Seq<char> {
    match compact_memory {
        Some(c) => if trim_seq(c).len() > 0 {
            trim_seq(c)
        } else {
            trim_seq(gist)
        },
        None => trim_seq(gist),
    }
}

/// `- [age | score] ` with an age label, `- [score] ` without.
pub open spec fn archive_prefix(age: Option<Seq<char>>, score_text: Seq<char>) -> Seq<char> {
    match age {
        Some(a) => "- ["@ + a + " | "@ + score_text + "] "@,
        None => "- ["@ + score_text + "] "@,
    }
}

/// One line per non-blank line of the memory, trimmed and escaped; the
/// first line of the memory carries the prefix, the others an indent.
pub open spec fn archive_body(lines: Seq<Seq<char>>, prefix: Seq<char>) -> Seq<Seq<char>>
    decreases lines.len(),
{
    if lines.len() == 0 {
        Seq::empty()
    } else {
        let prev = archive_body(lines.drop_last(), prefix);
        let t = trim_seq(lines.last());
        if t.len() > 0 {
            prev.push(
                (if lines.len() == 1 {
                    prefix
                } else {
                    "  "@
                }) + escaped(t),
            )
        } else {
            prev
        }
    }
}

/// The prompt lines of one long-memory item.
pub open spec fn archive_lines(
    compact_memory: Option<Seq<char>>,
    gist: Seq<char>,
    age: Option<Seq<char>>,
    score_text: Seq<char>,
) -> Seq<Seq<char>> {
    let memory = archive_memory_text(compact_memory, gist);
    if memory.len() == 0 {
        Seq::empty()
    } else {
        archive_body(lines_seq(memory), archive_prefix(age, score_text))
    }
}

/// The prompt lines of a long-memory item whose relevance score is already
/// written out; its age comes from the end of its time range.
pub fn render_archive_memory_prompt_lines(
    compact_memory: &Option<String>,
    gist: &str,
    end_timestamp: &Option<String>,
    time: &TimeLabelContext,
    score_text: &str,
) -> (r: Vec<String>)
    ensures
        strs(r@) == archive_lines(
            opt_view(*compact_memory),
            gist@,
            match *end_timestamp {
                Some(e) => age_text(time.now_spec(), time.offset_spec(), e@),
                None => None,
            },
            score_text@,
        ),
{
    let memory = match compact_memory {
        Some(c) => {
            let t = trim_str(c.as_str());
            if char_count(t.as_str()) > 0 {
                t
            } else {
                trim_str(gist)
            }
        },
        None => trim_str(gist),
    };
    let mut out: Vec<String> = Vec::new();
    if char_count(memory.as_str()) == 0 {
        return out;
    }
    let age = match end_timestamp {
        Some(e) => time.age_label(e.as_str()),
        None => None,
    };
    let mut prefix = String::new();
    prefix.append("- [");
    match &age {
        Some(a) => {
            prefix.append(a.as_str());
            prefix.append(" | ");
        },
        None => {},
    }
    prefix.append(score_text);
    prefix.append("] ");
    let ghost pre = archive_prefix(opt_view(age), score_text@);
    assert(prefix@ =~= pre);
    let lines = lines_of(memory.as_str());
    let mut k: usize = 0;
    while k < lines.len()
        invariant
            k <= lines@.len(),
            prefix@ == pre,
            strs(out@) == archive_body(strs(lines@).take(k as int), pre),
        decreases lines@.len() - k,
    {
        assert(strs(lines@).take(k + 1).drop_last() =~= strs(lines@).take(k as int));
        assert(strs(lines@).take(k + 1).last() == lines@[k as int]@);
        let t = trim_str(lines[k].as_str());
        if char_count(t.as_str()) > 0 {
            let mut line = String::new();
            if k == 0 {
                line.append(prefix.as_str());
            } else {
                line.append("  ");
            }
            let esc = xml_escape(t.as_str());
            line.append(esc.as_str());
            let ghost prev = out@;
            out.push(line);
            assert(strs(out@) =~= strs(prev).push(line@));
        }
        k = k + 1;
    }
    assert(strs(lines@).take(lines@.len() as int) =~= strs(lines@));
    out
}

// ---------------------------------------------------------------- the view

/// The instruction shown when no earlier dialogue is visible.
pub open spec fn fresh_instruction() -> Seq<char> {
    "instruction: No prior active dialogue is visible; a short greeting is allowed if natural."@
}

/// The instruction shown in an ongoing dialogue.
pub open spec fn ongoing_instruction() -> Seq<char> {
    "instruction: Continue the dialogue from the latest turn. Do not greet unless the current user message is a greeting."@
}

/// The `<state>` block.
pub open spec fn state_block(prior_is_empty: bool, now: Option<LocalStamp>, offset_minutes: int) -> Seq<
    Seq<char>,
> {
    seq![
        "<memory_context>"@,
        "<state>"@,
        if prior_is_empty {
            "conversation_state: new_or_no_recent_context"@
        } else {
            "conversation_state: ongoing"@
        },
        if prior_is_empty {
            fresh_instruction()
        } else {
            ongoing_instruction()
        },
    ] + (match now {
        Some(n) => seq![current_time_text(n, offset_minutes)],
        None => Seq::empty(),
    }) + seq!["</state>"@]
}

/// A layer block: its tag, its lines or `(empty)`, its closing tag, after a
/// blank separator line.
pub open spec fn layer_block(open: Seq<char>, lines: Seq<Seq<char>>, close: Seq<char>) -> Seq<Seq<char>> {
    seq![""@, open] + (if lines.len() == 0 {
        seq!["(empty)"@]
    } else {
        lines
    }) + seq![close]
}

/// The `<short_memory>` block: older trace with day markers, then the
/// recent dialogue before the current message.
pub open spec fn short_block(older: Seq<Seq<char>>, older_present: bool, recent: Seq<Seq<char>>, recent_present: bool) -> Seq<Seq<char>> {
    seq![""@, "<short_memory>"@] + (if older_present {
        seq!["<older_active_dialogue>"@] + older + seq!["</older_active_dialogue>"@]
    } else {
        Seq::empty()
    }) + (if recent_present {
        seq!["<recent_dialogue>"@] + recent + seq!["</recent_dialogue>"@]
    } else {
        seq!["(empty)"@]
    }) + seq!["</short_memory>"@]
}

/// The closing blocks: the current message and the response slot.
pub open spec fn closing_block(current: Seq<char>) -> Seq<Seq<char>> {
    seq![
        ""@,
        "<current_user_message>"@,
        escaped(trim_seq(current)),
        "</current_user_message>"@,
        ""@,
        "<assistant_response_slot>"@,
        "Write only the assistant reply for the current user message."@,
        "</assistant_response_slot>"@,
        "</memory_context>"@,
    ]
}

/// The lines of the memory view.
pub open spec fn memory_view_lines(
    recent: Seq<CoreContextEvent>,
    trace: Seq<CoreContextEvent>,
    core_lines: Seq<Seq<char>>,
    archive_lines: Seq<Seq<char>>,
    now: Option<LocalStamp>,
    offset_minutes: int,
    current: Seq<char>,
) -> Seq<Seq<char>> {
    let recent_turns = normalized_spec(recent);
    let prior = drop_current_spec(recent_turns, current);
    let older = tail_spec(
        older_trace_spec(normalized_spec(trace), recent_turns),
        OLDER_TRACE_LIMIT as nat,
    );
    state_block(prior.len() == 0, now, offset_minutes) + layer_block(
        "<core_memory>"@,
        core_lines,
        "</core_memory>"@,
    ) + layer_block("<long_memory>"@, archive_lines, "</long_memory>"@) + short_block(
        marked_lines(older, OLDER_TRACE_MAX_TEXT_CHARS as nat, now, offset_minutes).0,
        older.len() > 0,
        dialogue_lines(prior, RECENT_MAX_TEXT_CHARS as nat),
        prior.len() > 0,
    ) + closing_block(current)
}

fn push_text(lines: &mut Vec<String>, text: &str)
    ensures
        strs(final(lines)@) == strs(old(lines)@).push(text@),
{
    let ghost before = lines@;
    lines.push(text.to_string());
    assert(strs(lines@) =~= strs(before).push(text@));
}

fn append_lines(lines: &mut Vec<String>, more: Vec<String>)
    ensures
        strs(final(lines)@) == strs(old(lines)@) + strs(more@),
{
    let ghost before = lines@;
    let ghost added = more@;
    let mut more = more;
    lines.append(&mut more);
    assert(strs(lines@) =~= strs(before) + strs(added));
}

fn render_layer_block(open: &str, body: Vec<String>, close: &str) -> (r: Vec<String>)
    ensures
        strs(r@) == layer_block(open@, strs(body@), close@),
{
    let mut out: Vec<String> = Vec::new();
    push_text(&mut out, "");
    push_text(&mut out, open);
    if body.len() == 0 {
        push_text(&mut out, "(empty)");
    } else {
        append_lines(&mut out, body);
    }
    push_text(&mut out, close);
    out
}

fn copy_dialogue_events(v: &Vec<DialogueEvent>) -> (r: Vec<DialogueEvent>)
    ensures
        dviews(r@) == dviews(v@),
{
    let mut out: Vec<DialogueEvent> = Vec::new();
    let mut i: usize = 0;
    while i < v.len()
        invariant
            i <= v@.len(),
            dviews(out@) == dviews(v@).take(i as int),
        decreases v@.len() - i,
    {
        let copy = copy_dialogue_event(&v[i]);
        let ghost before = out@;
        out.push(copy);
        assert(dviews(out@) =~= dviews(before).push(dview(copy)));
        assert(dviews(out@) =~= dviews(v@).take(i + 1));
        i = i + 1;
    }
    assert(dviews(v@).take(v@.len() as int) =~= dviews(v@));
    out
}

fn render_state_block(prior_is_empty: bool, time: &TimeLabelContext) -> (r: Vec<String>)
    ensures
        strs(r@) == state_block(prior_is_empty, time.now_spec(), time.offset_spec()),
{
    let mut lines: Vec<String> = Vec::new();
    push_text(&mut lines, "<memory_context>");
    push_text(&mut lines, "<state>");
    if prior_is_empty {
        push_text(&mut lines, "conversation_state: new_or_no_recent_context");
        push_text(
            &mut lines,
            "instruction: No prior active dialogue is visible; a short greeting is allowed if natural.",
        );
    } else {
        push_text(&mut lines, "conversation_state: ongoing");
        push_text(
            &mut lines,
            "instruction: Continue the dialogue from the latest turn. Do not greet unless the current user message is a greeting.",
        );
    }
    let ghost head = strs(lines@);
    match time.current_time_line() {
        Some(line) => push_text(&mut lines, line.as_str()),
        None => {},
    }
    push_text(&mut lines, "</state>");
    assert(strs(lines@) =~= state_block(prior_is_empty, time.now_spec(), time.offset_spec()));
    lines
}

fn render_short_block(
    older: &Vec<DialogueEvent>,
    prior: &Vec<DialogueEvent>,
    time: &TimeLabelContext,
) -> (r: Vec<String>)
    ensures
        strs(r@) == short_block(
            marked_lines(
                dviews(older@),
                OLDER_TRACE_MAX_TEXT_CHARS as nat,
                time.now_spec(),
                time.offset_spec(),
            ).0,
            older@.len() > 0,
            dialogue_lines(dviews(prior@), RECENT_MAX_TEXT_CHARS as nat),
            prior@.len() > 0,
        ),
{
    let mut lines: Vec<String> = Vec::new();
    push_text(&mut lines, "");
    push_text(&mut lines, "<short_memory>");
    let ghost head = strs(lines@);
    if older.len() > 0 {
        push_text(&mut lines, "<older_active_dialogue>");
        let marked = render_dialogue_lines_with_day_markers(older, OLDER_TRACE_MAX_TEXT_CHARS, time);
        append_lines(&mut lines, marked);
        push_text(&mut lines, "</older_active_dialogue>");
    }
    let ghost mid = strs(lines@);
    if prior.len() == 0 {
        push_text(&mut lines, "(empty)");
    } else {
        push_text(&mut lines, "<recent_dialogue>");
        let recent_lines = render_dialogue_lines(prior, RECENT_MAX_TEXT_CHARS);
        append_lines(&mut lines, recent_lines);
        push_text(&mut lines, "</recent_dialogue>");
    }
    push_text(&mut lines, "</short_memory>");
    lines
}

fn render_closing_block(current_user_message: &str) -> (r: Vec<String>)
    ensures
        strs(r@) == closing_block(current_user_message@),
{
    let mut lines: Vec<String> = Vec::new();
    push_text(&mut lines, "");
    push_text(&mut lines, "<current_user_message>");
    let current = trim_str(current_user_message);
    let escaped_current = xml_escape(current.as_str());
    push_text(&mut lines, escaped_current.as_str());
    push_text(&mut lines, "</current_user_message>");
    push_text(&mut lines, "");
    push_text(&mut lines, "<assistant_response_slot>");
    push_text(&mut lines, "Write only the assistant reply for the current user message.");
    push_text(&mut lines, "</assistant_response_slot>");
    push_text(&mut lines, "</memory_context>");
    assert(strs(lines@) =~= closing_block(current_user_message@));
    lines
}

proof fn lemma_join_concat(a: Seq<Seq<char>>, b: Seq<Seq<char>>, sep: Seq<char>)
    requires
        a.len() > 0,
        b.len() > 0,
    ensures
        join(a + b, sep) == join(a, sep) + sep + join(b, sep),
    decreases b.len(),
{
    if b.len() == 1 {
        assert((a + b).drop_last() =~= a);
    } else {
        lemma_join_concat(a, b.drop_last(), sep);
        assert((a + b).drop_last() =~= a + b.drop_last());
        assert(join(a + b, sep) =~= join(a, sep) + sep + join(b, sep));
    }
}

proof fn lemma_join_pair(x: Seq<char>, y: Seq<char>, sep: Seq<char>)
    ensures
        join(seq![x, y], sep) == x + sep + y,
{
    reveal_with_fuel(join, 2);
    assert(seq![x, y].drop_last() =~= seq![x]);
}

proof fn lemma_join_opens(lines: Seq<Seq<char>>, sep: Seq<char>)
    requires
        lines.len() >= 3,
    ensures
        (lines[0] + sep + lines[1]).is_prefix_of(join(lines, sep)),
{
    let head = seq![lines[0], lines[1]];
    let rest = lines.skip(2);
    assert(lines =~= head + rest);
    lemma_join_concat(head, rest, sep);
    lemma_join_pair(lines[0], lines[1], sep);
    let open = lines[0] + sep + lines[1];
    assert(join(lines, sep) =~= open + (sep + join(rest, sep)));
    assert(join(lines, sep).subrange(0, open.len() as int) =~= open);
}

proof fn lemma_join_closes(lines: Seq<Seq<char>>, sep: Seq<char>)
    requires
        lines.len() >= 3,
    ensures
        (lines[lines.len() - 2] + sep + lines[lines.len() - 1]).is_suffix_of(join(lines, sep)),
{
    let n = lines.len() as int;
    let tail2 = seq![lines[n - 2], lines[n - 1]];
    let init = lines.take(n - 2);
    assert(lines =~= init + tail2);
    lemma_join_concat(init, tail2, sep);
    lemma_join_pair(lines[n - 2], lines[n - 1], sep);
    let close = lines[n - 2] + sep + lines[n - 1];
    let text = join(lines, sep);
    assert(text =~= (join(init, sep) + sep) + close);
    assert(text.subrange(text.len() - close.len(), text.len() as int) =~= close);
}

proof fn lemma_join_block(
    before: Seq<Seq<char>>,
    x: Seq<char>,
    y: Seq<char>,
    z: Seq<char>,
    after: Seq<Seq<char>>,
    sep: Seq<char>,
)
    requires
        before.len() > 0,
        after.len() > 0,
    ensures
        has_sub(join(before + seq![""@, x, y, z] + after, sep), x + sep + y + sep + z),
{
    let blk = seq![""@, x, y, z];
    let lines = before + blk + after;
    assert(lines =~= before + (blk + after));
    lemma_join_concat(before, blk + after, sep);
    lemma_join_concat(blk, after, sep);
    let needle = x + sep + y + sep + z;
    assert(join(blk, sep) =~= ""@ + sep + needle) by {
        reveal_with_fuel(join, 5);
        assert(blk.drop_last() =~= seq![""@, x, y]);
        assert(blk.drop_last().drop_last() =~= seq![""@, x]);
        assert(blk.drop_last().drop_last().drop_last() =~= seq![""@]);
    }
    let text = join(lines, sep);
    let p = join(before, sep) + sep + (""@ + sep);
    let q = sep + join(after, sep);
    assert(text =~= p + needle + q);
    let i: int = p.len() as int;
    assert forall|k: int| 0 <= k < needle.len() implies #[trigger] text[i + k] == needle[k] by {
        assert((p + needle + q)[i + k] == needle[k]);
    }
    assert(text.subrange(i, i + needle.len() as int) =~= needle);
}

/// The frame of every memory view: it opens with `<memory_context>` and
/// `<state>`, closes with the response slot and `</memory_context>`, and an
/// empty core or long memory shows as its block holding `(empty)`.
pub proof fn lemma_memory_view_frame(
    recent: Seq<CoreContextEvent>,
    trace: Seq<CoreContextEvent>,
    core_lines: Seq<Seq<char>>,
    archive_lines: Seq<Seq<char>>,
    now: Option<LocalStamp>,
    offset_minutes: int,
    current: Seq<char>,
)
    ensures
        ({
            let text = join(
                memory_view_lines(recent, trace, core_lines, archive_lines, now, offset_minutes, current),
                "\n"@,
            );
            &&& "<memory_context>\n<state>"@.is_prefix_of(text)
            &&& "</assistant_response_slot>\n</memory_context>"@.is_suffix_of(text)
            &&& core_lines.len() == 0 ==> has_sub(text, "<core_memory>\n(empty)\n</core_memory>"@)
            &&& archive_lines.len() == 0 ==> has_sub(text, "<long_memory>\n(empty)\n</long_memory>"@)
        }),
{
    let nl = "\n"@;
    let recent_turns = normalized_spec(recent);
    let prior = drop_current_spec(recent_turns, current);
    let older = tail_spec(
        older_trace_spec(normalized_spec(trace), recent_turns),
        OLDER_TRACE_LIMIT as nat,
    );
    let st = state_block(prior.len() == 0, now, offset_minutes);
    let kb = layer_block("<core_memory>"@, core_lines, "</core_memory>"@);
    let lb = layer_block("<long_memory>"@, archive_lines, "</long_memory>"@);
    let sh = short_block(
        marked_lines(older, OLDER_TRACE_MAX_TEXT_CHARS as nat, now, offset_minutes).0,
        older.len() > 0,
        dialogue_lines(prior, RECENT_MAX_TEXT_CHARS as nat),
        prior.len() > 0,
    );
    let cb = closing_block(current);
    let lines = memory_view_lines(recent, trace, core_lines, archive_lines, now, offset_minutes, current);
    assert(lines == st + kb + lb + sh + cb);
    assert(lines[0] == "<memory_context>"@ && lines[1] == "<state>"@);
    assert(lines[lines.len() - 2] == "</assistant_response_slot>"@);
    assert(lines[lines.len() - 1] == "</memory_context>"@);
    lemma_join_opens(lines, nl);
    lemma_join_closes(lines, nl);
    reveal_strlit("<memory_context>\n<state>");
    reveal_strlit("</assistant_response_slot>\n</memory_context>");
    reveal_strlit("<memory_context>");
    reveal_strlit("<state>");
    reveal_strlit("</assistant_response_slot>");
    reveal_strlit("</memory_context>");
    reveal_strlit("\n");
    assert("<memory_context>\n<state>"@ =~= "<memory_context>"@ + nl + "<state>"@);
    assert("</assistant_response_slot>\n</memory_context>"@ =~= "</assistant_response_slot>"@ + nl
        + "</memory_context>"@);
    if core_lines.len() == 0 {
        assert(kb =~= seq![""@, "<core_memory>"@, "(empty)"@, "</core_memory>"@]);
        assert(lines =~= st + kb + (lb + sh + cb));
        lemma_join_block(st, "<core_memory>"@, "(empty)"@, "</core_memory>"@, lb + sh + cb, nl);
        reveal_strlit("<core_memory>\n(empty)\n</core_memory>");
        reveal_strlit("<core_memory>");
        reveal_strlit("</core_memory>");
        reveal_strlit("(empty)");
        assert("<core_memory>\n(empty)\n</core_memory>"@ =~= "<core_memory>"@ + nl + "(empty)"@ + nl
            + "</core_memory>"@);
    }
    if archive_lines.len() == 0 {
        assert(lb =~= seq![""@, "<long_memory>"@, "(empty)"@, "</long_memory>"@]);
        assert(lines =~= (st + kb) + lb + (sh + cb));
        lemma_join_block(st + kb, "<long_memory>"@, "(empty)"@, "</long_memory>"@, sh + cb, nl);
        reveal_strlit("<long_memory>\n(empty)\n</long_memory>");
        reveal_strlit("<long_memory>");
        reveal_strlit("</long_memory>");
        reveal_strlit("(empty)");
        assert("<long_memory>\n(empty)\n</long_memory>"@ =~= "<long_memory>"@ + nl + "(empty)"@ + nl
            + "</long_memory>"@);
    }
}

/// The memory context shown to the model: state, core memory, long memory,
/// short memory and the current message, each in its own block. Core-fact
/// and long-memory lines come rendered; the dialogue is rendered here.
pub fn render_memory_view(
    session_recent: &Vec<CoreContextEvent>,
    session_trace: &Vec<CoreContextEvent>,
    core_lines: Vec<String>,
    archive_lines: Vec<String>,
    time: &TimeLabelContext,
    current_user_message: &str,
) -> (r: String)
    ensures
        r@ == join(
            memory_view_lines(
                session_recent@,
                session_trace@,
                strs(core_lines@),
                strs(archive_lines@),
                time.now_spec(),
                time.offset_spec(),
                current_user_message@,
            ),
            "\n"@,
        ),
{
    let ghost core_view = strs(core_lines@);
    let ghost archive_view = strs(archive_lines@);
    let recent_events = normalized_context_events(session_recent);
    let trace_events = normalized_context_events(session_trace);
    let older_all = older_trace(&trace_events, &recent_events);
    let older = tail(older_all, OLDER_TRACE_LIMIT);
    assert(dviews(older@) =~= tail_spec(dviews(older_all@), OLDER_TRACE_LIMIT as nat));
    let prior_all = copy_dialogue_events(&recent_events);
    let prior = drop_current_user_message(prior_all, current_user_message);
    let ghost b1 = state_block(prior@.len() == 0, time.now_spec(), time.offset_spec());
    let ghost b2 = layer_block("<core_memory>"@, core_view, "</core_memory>"@);
    let ghost b3 = layer_block("<long_memory>"@, archive_view, "</long_memory>"@);
    let ghost b4 = short_block(
        marked_lines(
            dviews(older@),
            OLDER_TRACE_MAX_TEXT_CHARS as nat,
            time.now_spec(),
            time.offset_spec(),
        ).0,
        older@.len() > 0,
        dialogue_lines(dviews(prior@), RECENT_MAX_TEXT_CHARS as nat),
        prior@.len() > 0,
    );
    let ghost b5 = closing_block(current_user_message@);

    let mut lines = render_state_block(prior.len() == 0, time);
    let core_block = render_layer_block("<core_memory>", core_lines, "</core_memory>");
    append_lines(&mut lines, core_block);
    let long_block = render_layer_block("<long_memory>", archive_lines, "</long_memory>");
    append_lines(&mut lines, long_block);
    let short = render_short_block(&older, &prior, time);
    append_lines(&mut lines, short);
    let closing = render_closing_block(current_user_message);
    append_lines(&mut lines, closing);
    assert(strs(lines@) == b1 + b2 + b3 + b4 + b5);
    assert(b1 + b2 + b3 + b4 + b5 == memory_view_lines(
        session_recent@,
        session_trace@,
        core_view,
        archive_view,
        time.now_spec(),
        time.offset_spec(),
        current_user_message@,
    ));
    join_strings(&lines, "\n")
}

} // verus!
