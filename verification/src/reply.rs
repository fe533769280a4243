//! Reading a JSON document out of a model's reply: the reply is trimmed,
//! a Markdown code fence is taken off, and when the text does not parse the
//! span from its first `{` to its last `}` is tried.
use vstd::prelude::*;
use crate::consolidator::{ends_with, find_char, has_prefix, has_suffix, json_parses, lemma_find_char, starts_with};
use crate::text::{chars_of, string_from_chars, trim_seq, trim_str};
use crate::error::MemoryEngineError;

verus! {

/// The document `serde_json::from_str::<serde_json::Value>` reads from a
/// text when it parses; it depends on the text alone.
pub uninterp spec fn json_document(text: Seq<char>) -> serde_json::Value;

/// `serde_json::from_str::<serde_json::Value>`: parses a JSON document. It
/// succeeds on exactly the texts on which the same parser succeeds in the
/// consolidator's field lookup, and gives the document of the text.
#[verifier::external_body]
fn parse_json_value(text: &str) -> (r: Result<serde_json::Value, serde_json::Error>)
    ensures
        r is Ok == json_parses(text@),
        r matches Ok(v) ==> v == json_document(text@),
{
    serde_json::from_str::<serde_json::Value>(text)
}

/// `s` with every leading copy of `p` removed (`str::trim_start_matches`).
pub open spec fn strip_all_prefix(s: Seq<char>, p: Seq<char>) -> Seq<char>
    decreases s.len(),
{
    if p.len() > 0 && starts_with(s, p) {
        strip_all_prefix(s.skip(p.len() as int), p)
    } else {
        s
    }
}

/// The text a reply offers as JSON: trimmed; when fenced, without the
/// opening fence (with or without a `json` tag) and the closing one.
pub open spec fn reply_candidate(text: Seq<char>) -> Seq<char> {
    let c = trim_seq(text);
    if starts_with(c, "```"@) {
        let d = trim_seq(strip_all_prefix(strip_all_prefix(c, "```json"@), "```"@));
        if ends_with(d, "```"@) {
            d.take(d.len() - 3)
        } else {
            d
        }
    } else {
        c
    }
}

/// Index of the last `c` in `s`, or `-1`.
pub open spec fn rfind_char(s: Seq<char>, c: char) -> int
    decreases s.len(),
{
    if s.len() == 0 {
        -1
    } else if s.last() == c {
        s.len() - 1
    } else {
        rfind_char(s.drop_last(), c)
    }
}

proof fn lemma_rfind_char(s: Seq<char>, c: char)
    ensures
        -1 <= rfind_char(s, c) < s.len(),
        rfind_char(s, c) >= 0 ==> s[rfind_char(s, c)] == c,
    decreases s.len(),
{
    if s.len() > 0 && s.last() != c {
        lemma_rfind_char(s.drop_last(), c);
    }
}

/// The braces span tried when the candidate does not parse: from the first
/// `{` to the last `}`, both included.
pub open spec fn brace_span(c: Seq<char>) -> Option<(int, int)> {
    let start = find_char(c, '{');
    let end = rfind_char(c, '}');
    if start < 0 || end < 0 {
        None
    } else {
        Some((start, end))
    }
}

/// Where slicing the braces span would fail: the first `{` lies more than
/// one place after the last `}`.
pub open spec fn reply_span_is_reversed(text: Seq<char>) -> bool {
    let c = reply_candidate(text);
    !json_parses(trim_seq(c)) && (brace_span(c) matches Some((s, e)) && s > e + 1)
}

/// Whether a reply yields a JSON document: the trimmed candidate parses, or
/// its braces span does.
pub open spec fn reply_parses(text: Seq<char>) -> bool {
    let c = reply_candidate(text);
    json_parses(trim_seq(c)) || (brace_span(c) matches Some((s, e)) && json_parses(
        c.subrange(s, e + 1),
    ))
}

/// The text whose document a reply yields: the trimmed candidate when it
/// parses, else its braces span.
pub open spec fn reply_document_text(text: Seq<char>) -> Seq<char> {
    let c = reply_candidate(text);
    if json_parses(trim_seq(c)) {
        trim_seq(c)
    } else {
        match brace_span(c) {
            Some((s, e)) => c.subrange(s, e + 1),
            None => trim_seq(c),
        }
    }
}

fn strip_all_prefix_exec(v: &[char], p: &str) -> (r: usize)
    requires
        p@.len() > 0,
    ensures
        r <= v@.len(),
        strip_all_prefix(v@, p@) == v@.skip(r as int),
{
    let pv = chars_of(p);
    let mut i: usize = 0;
    assert(v@.skip(0) =~= v@);
    while i <= v.len() && has_prefix(&v[i..v.len()], p)
        invariant
            i <= v@.len(),
            pv@ == p@,
            p@.len() > 0,
            strip_all_prefix(v@, p@) == strip_all_prefix(v@.skip(i as int), p@),
        decreases v@.len() - i,
    {
        assert(v@.subrange(i as int, v@.len() as int) =~= v@.skip(i as int));
        assert(v@.skip(i as int).skip(p@.len() as int) =~= v@.skip(i + p@.len()));
        i = i + pv.len();
    }
    proof {
        if i <= v@.len() {
            assert(v@.subrange(i as int, v@.len() as int) =~= v@.skip(i as int));
        }
    }
    i
}

/// The candidate text of a reply.
fn reply_candidate_exec(text: &str) -> (r: Vec<char>)
    ensures
        r@ == reply_candidate(text@),
{
    let c = trim_str(text);
    let v = chars_of(c.as_str());
    if !has_prefix(v.as_slice(), "```") {
        return v;
    }
    proof {
        reveal_strlit("```json");
        reveal_strlit("```");
    }
    let a = strip_all_prefix_exec(v.as_slice(), "```json");
    let rest_a = &v.as_slice()[a..v.len()];
    assert(rest_a@ =~= v@.skip(a as int));
    let b = strip_all_prefix_exec(rest_a, "```");
    let rest_b = &rest_a[b..rest_a.len()];
    assert(rest_b@ =~= rest_a@.skip(b as int));
    let d_str = string_from_chars(rest_b);
    let d = trim_str(d_str.as_str());
    let dv = chars_of(d.as_str());
    if has_suffix(dv.as_slice(), "```") {
        let cut = &dv.as_slice()[0..dv.len() - 3];
        let mut out: Vec<char> = Vec::new();
        let mut k: usize = 0;
        while k < cut.len()
            invariant
                k <= cut@.len(),
                out@ =~= cut@.take(k as int),
            decreases cut@.len() - k,
        {
            out.push(cut[k]);
            k = k + 1;
        }
        assert(out@ =~= cut@);
        assert(cut@ =~= dv@.take(dv@.len() - 3));
        out
    } else {
        dv
    }
}

fn rfind_char_exec(v: &[char], c: char) -> (r: Option<usize>)
    ensures
        match r {
            Some(i) => i as int == rfind_char(v@, c),
            None => rfind_char(v@, c) == -1,
        },
{
    let mut j: usize = v.len();
    assert(v@.take(j as int) =~= v@);
    while j > 0
        invariant
            j <= v@.len(),
            rfind_char(v@, c) == rfind_char(v@.take(j as int), c),
        decreases j,
    {
        assert(v@.take(j as int).drop_last() =~= v@.take(j - 1));
        if v[j - 1] == c {
            return Some(j - 1);
        }
        j = j - 1;
    }
    None
}

fn find_char_in(v: &[char], c: char) -> (r: Option<usize>)
    ensures
        match r {
            Some(i) => i as int == find_char(v@, c),
            None => find_char(v@, c) == -1,
        },
{
    proof {
        lemma_find_char(v@, c);
    }
    let mut i: usize = 0;
    while i < v.len()
        invariant
            i <= v@.len(),
            forall|k: int| 0 <= k < i ==> v@[k] != c,
            -1 <= find_char(v@, c) < v@.len(),
            find_char(v@, c) >= 0 ==> v@[find_char(v@, c)] == c,
            forall|k: int|
                0 <= k < v@.len() && (find_char(v@, c) < 0 || k < find_char(v@, c)) ==> v@[k] != c,
        decreases v@.len() - i,
    {
        if v[i] == c {
            return Some(i);
        }
        i = i + 1;
    }
    None
}

/// Parses the JSON document of a model's reply: the candidate text, or
/// failing that its span from the first `{` to the last `}`; the error of
/// the first attempt is returned when there is no such span.
pub fn parse_json_value_from_llm_text(text: &str) -> (r: Result<serde_json::Value, MemoryEngineError>)
    requires
        !reply_span_is_reversed(text@),
    ensures
        r is Ok == reply_parses(text@),
        r matches Ok(v) ==> v == json_document(reply_document_text(text@)),
        r matches Err(e) ==> e is Json,
{
    let c = reply_candidate_exec(text);
    let cs = string_from_chars(c.as_slice());
    let t = trim_str(cs.as_str());
    match parse_json_value(t.as_str()) {
        Ok(value) => Ok(value),
        Err(first) => {
            let start = match find_char_in(c.as_slice(), '{') {
                Some(s) => s,
                None => {
                    return Err(MemoryEngineError::Json(first));
                },
            };
            let end = match rfind_char_exec(c.as_slice(), '}') {
                Some(e) => e,
                None => {
                    return Err(MemoryEngineError::Json(first));
                },
            };
            proof {
                lemma_rfind_char(c@, '}');
            }
            let span = string_from_chars(&c.as_slice()[start..end + 1]);
            match parse_json_value(span.as_str()) {
                Ok(value) => Ok(value),
                Err(second) => Err(MemoryEngineError::Json(second)),
            }
        },
    }
}

/// Parses a model's JSON reply wherever slicing its braces span is
/// defined: `None` exactly for a reply whose braces span is reversed.
pub fn parse_llm_json_reply(text: &str) -> (r: Option<Result<serde_json::Value, MemoryEngineError>>)
    ensures
        r is None == reply_span_is_reversed(text@),
        r is Some ==> (r.unwrap() is Ok == reply_parses(text@)),
        r matches Some(Ok(v)) ==> v == json_document(reply_document_text(text@)),
{
    let c = reply_candidate_exec(text);
    let cs = string_from_chars(c.as_slice());
    let t = trim_str(cs.as_str());
    let parses = parse_json_value(t.as_str()).is_ok();
    if !parses {
        match (find_char_in(c.as_slice(), '{'), rfind_char_exec(c.as_slice(), '}')) {
            (Some(s), Some(e)) => {
                if s > e && s - e > 1 {
                    return None;
                }
            },
            _ => {},
        }
    }
    Some(parse_json_value_from_llm_text(text))
}

} // verus!
