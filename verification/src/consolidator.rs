//! Parsing of the sleep consolidator's reply: a compact one-line gist and a
//! readable narrative, whether the model answered in plain text, in a
//! fenced block, as a quoted JSON string or as a JSON object.
use vstd::prelude::*;
use crate::error::MemoryEngineError;
use crate::text::{chars_of, is_ws, join, string_from_chars, strs, trim_bounds, trim_seq, trim_str};

verus! {

// ---------------------------------------------------------------- JSON calls

/// What `serde_json::from_str::<String>` gives for `text`: the decoded
/// string, or the parser's error message.
pub uninterp spec fn json_decode_str(text: Seq<char>) -> Result<Seq<char>, Seq<char>>;

/// `serde_json::from_str::<String>`: decodes one JSON string literal. The
/// decoded text is shorter than the literal by at least its two quotes.
#[verifier::external_body]
fn decode_json_string(text: &str) -> (r: Result<String, String>)
    ensures
        match r {
            Ok(s) => json_decode_str(text@) == Ok::<Seq<char>, Seq<char>>(s@) && s@.len() + 2
                <= text@.len(),
            Err(e) => json_decode_str(text@) == Err::<Seq<char>, Seq<char>>(e@),
        },
{
    match serde_json::from_str::<String>(text) {
        Ok(s) => Ok(s),
        Err(e) => Err(e.to_string()),
    }
}

/// What parsing `text` with `serde_json::from_str::<serde_json::Value>` and
/// reading the string field `key` gives: the parser's error message, or the
/// field's text when the value is an object whose `key` holds a string.
pub uninterp spec fn json_field_str(text: Seq<char>, key: Seq<char>) -> Result<
    Option<Seq<char>>,
    Seq<char>,
>;

/// `serde_json::from_str::<serde_json::Value>(text)` followed by
/// `value.get(key).and_then(Value::as_str)`. Whether parsing succeeds does
/// not depend on `key`.
#[verifier::external_body]
fn json_string_field(text: &str, key: &str) -> (r: Result<Option<String>, String>)
    ensures
        match r {
            Ok(v) => json_field_str(text@, key@) == Ok::<Option<Seq<char>>, Seq<char>>(
                match v {
                    Some(s) => Some(s@),
                    None => None,
                },
            ),
            Err(e) => json_field_str(text@, key@) == Err::<Option<Seq<char>>, Seq<char>>(e@),
        },
        forall|k: Seq<char>| #[trigger] json_field_str(text@, k) is Ok == r is Ok,
{
    match serde_json::from_str::<serde_json::Value>(text) {
        Ok(value) => Ok(value.get(key).and_then(serde_json::Value::as_str).map(str::to_string)),
        Err(e) => Err(e.to_string()),
    }
}

/// Whether `text` parses as a JSON value.
pub open spec fn json_parses(text: Seq<char>) -> bool {
    json_field_str(text, Seq::empty()) is Ok
}

// ---------------------------------------------------------------- prefixes and fences

pub open spec fn starts_with(s: Seq<char>, p: Seq<char>) -> bool {
    p.len() <= s.len() && s.take(p.len() as int) == p
}

pub open spec fn ends_with(s: Seq<char>, p: Seq<char>) -> bool {
    p.len() <= s.len() && s.skip(s.len() - p.len()) == p
}

/// Whether the characters `s` start with `p`.
pub fn has_prefix(s: &[char], p: &str) -> (r: bool)
    ensures
        r == starts_with(s@, p@),
{
    let pv = chars_of(p);
    if pv.len() > s.len() {
        return false;
    }
    let mut i: usize = 0;
    while i < pv.len()
        invariant
            i <= pv@.len() <= s@.len(),
            pv@ == p@,
            forall|k: int| 0 <= k < i ==> s@[k] == pv@[k],
        decreases pv@.len() - i,
    {
        if s[i] != pv[i] {
            assert(s@.take(pv@.len() as int)[i as int] != p@[i as int]);
            return false;
        }
        i = i + 1;
    }
    assert(s@.take(pv@.len() as int) =~= p@);
    true
}

/// Whether the characters `s` end with `p`.
pub fn has_suffix(s: &[char], p: &str) -> (r: bool)
    ensures
        r == ends_with(s@, p@),
{
    let pv = chars_of(p);
    if pv.len() > s.len() {
        return false;
    }
    let sl = s.len();
    let off = sl - pv.len();
    let mut i: usize = 0;
    while i < pv.len()
        invariant
            sl == s@.len(),
            i <= pv@.len() <= s@.len(),
            off == s@.len() - pv@.len(),
            pv@ == p@,
            forall|k: int| 0 <= k < i ==> s@[off + k] == pv@[k],
        decreases pv@.len() - i,
    {
        if s[off + i] != pv[i] {
            assert(s@.skip(off as int)[i as int] != p@[i as int]);
            return false;
        }
        i = i + 1;
    }
    assert(s@.skip(off as int) =~= p@);
    true
}

/// Index of the first `c` in `s`, or `-1`.
pub open spec fn find_char(s: Seq<char>, c: char) -> int
    decreases s.len(),
{
    if s.len() == 0 {
        -1
    } else if s[0] == c {
        0
    } else {
        let r = find_char(s.drop_first(), c);
        if r < 0 {
            -1
        } else {
            r + 1
        }
    }
}

pub proof fn lemma_find_char(s: Seq<char>, c: char)
    ensures
        -1 <= find_char(s, c) < s.len(),
        find_char(s, c) >= 0 ==> s[find_char(s, c)] == c,
        forall|k: int| 0 <= k < s.len() && (find_char(s, c) < 0 || k < find_char(s, c)) ==> s[k] != c,
    decreases s.len(),
{
    if s.len() > 0 && s[0] != c {
        lemma_find_char(s.drop_first(), c);
        assert forall|k: int| 0 <= k < s.len() && (find_char(s, c) < 0 || k < find_char(s, c)) implies s[k] != c by {
            if k > 0 {
                assert(s[k] == s.drop_first()[k - 1]);
            }
        }
    }
}

/// Index of the first `c` in `v`, if any.
fn find_char_exec(v: &[char], c: char) -> (r: Option<usize>)
    ensures
        match r {
            Some(i) => i as int == find_char(v@, c),
            None => find_char(v@, c) == -1,
        },
{
    let mut i: usize = 0;
    proof {
        lemma_find_char(v@, c);
    }
    while i < v.len()
        invariant
            i <= v@.len(),
            forall|k: int| 0 <= k < i ==> v@[k] != c,
            -1 <= find_char(v@, c) < v@.len(),
            find_char(v@, c) >= 0 ==> v@[find_char(v@, c)] == c,
            forall|k: int|
                0 <= k < v@.len() && (find_char(v@, c) < 0 || k < find_char(v@, c)) ==> v@[k] != c,
        decreases v@.len() - i,
    {
        if v[i] == c {
            return Some(i);
        }
        i = i + 1;
    }
    None
}

/// The body of a fenced block: text after the opening fence line, without
/// the closing fence, trimmed; text that does not open with a fence stays.
pub open spec fn fence_body(s: Seq<char>) -> Seq<char> {
    if starts_with(s, "```"@) {
        let rest = s.skip(3);
        let nl = find_char(rest, '\n');
        let body = if nl >= 0 {
            rest.skip(nl + 1)
        } else {
            Seq::empty()
        };
        let inner = if ends_with(body, "```"@) {
            body.take(body.len() - 3)
        } else {
            body
        };
        trim_seq(inner)
    } else {
        s
    }
}

pub proof fn lemma_trim_len(s: Seq<char>)
    ensures
        trim_seq(s).len() <= s.len(),
{
    crate::text::lemma_trim_start_shape(s);
    crate::text::lemma_trim_end_shape(crate::text::trim_start_seq(s));
}

/// `strip_markdown_fence`: the contents of a fenced block.
pub fn strip_markdown_fence(text: &str) -> (r: String)
    ensures
        r@ == fence_body(text@),
{
    let v = chars_of(text);
    if !has_prefix(v.as_slice(), "```") {
        return text.to_owned();
    }
    proof {
        reveal_strlit("```");
    }
    let rest = &v.as_slice()[3..v.len()];
    assert(rest@ =~= v@.skip(3));
    let nl = find_char_exec(rest, '\n');
    proof {
        lemma_find_char(rest@, '\n');
    }
    let body: &[char] = match nl {
        Some(k) => &rest[(k + 1)..rest.len()],
        None => &rest[0..0],
    };
    assert(nl is Some ==> body@ =~= rest@.skip(find_char(rest@, '\n') + 1));
    assert(nl is None ==> body@ =~= Seq::<char>::empty());
    let inner: &[char] = if has_suffix(body, "```") {
        &body[0..(body.len() - 3)]
    } else {
        body
    };
    assert(ends_with(body@, "```"@) ==> inner@ =~= body@.take(body@.len() - 3));
    let (i, j) = trim_bounds(inner);
    string_from_chars(&inner[i..j])
}

/// The gist without a leading `GIST:`/`gist:` label, trimmed; the trimmed
/// text when the label has nothing after it.
pub open spec fn gist_prefix_stripped(s: Seq<char>) -> Seq<char> {
    let t = trim_seq(s);
    if starts_with(t, "GIST:"@) && trim_seq(t.skip(5)).len() > 0 {
        trim_seq(t.skip(5))
    } else if !starts_with(t, "GIST:"@) && starts_with(t, "gist:"@) && trim_seq(t.skip(5)).len()
        > 0 {
        trim_seq(t.skip(5))
    } else {
        t
    }
}

/// `strip_consolidator_gist_prefix`.
pub fn strip_consolidator_gist_prefix(text: &str) -> (r: String)
    ensures
        r@ == gist_prefix_stripped(text@),
{
    proof {
        reveal_strlit("GIST:");
        reveal_strlit("gist:");
    }
    let t = trim_str(text);
    let v = chars_of(t.as_str());
    let upper = has_prefix(v.as_slice(), "GIST:");
    let lower = !upper && has_prefix(v.as_slice(), "gist:");
    if upper || lower {
        let rest = &v.as_slice()[5..v.len()];
        assert(rest@ =~= t@.skip(5));
        let (i, j) = trim_bounds(rest);
        if i < j {
            return string_from_chars(&rest[i..j]);
        }
    }
    t
}

// ---------------------------------------------------------------- lines

/// Pieces of `s` between `c` characters, empty pieces included.
pub open spec fn split_keep(s: Seq<char>, c: char) -> Seq<Seq<char>>
    decreases s.len(),
{
    if s.len() == 0 {
        seq![Seq::<char>::empty()]
    } else {
        let p = split_keep(s.drop_last(), c);
        if s.last() == c {
            p.push(Seq::empty())
        } else {
            p.update(p.len() - 1, p.last().push(s.last()))
        }
    }
}

pub proof fn lemma_split_keep_nonempty(s: Seq<char>, c: char)
    ensures
        split_keep(s, c).len() >= 1,
    decreases s.len(),
{
    if s.len() > 0 {
        lemma_split_keep_nonempty(s.drop_last(), c);
    }
}

pub open spec fn strip_cr(l: Seq<char>) -> Seq<char> {
    if l.len() > 0 && l.last() == '\r' {
        l.drop_last()
    } else {
        l
    }
}

/// `str::lines`: pieces ended by `\n` lose it and a `\r` before it; a last
/// piece without `\n` stays as it is when non-empty.
pub open spec fn lines_seq(s: Seq<char>) -> Seq<Seq<char>> {
    let p = split_keep(s, '\n');
    let init = p.drop_last().map_values(|l: Seq<char>| strip_cr(l));
    if p.last().len() > 0 {
        init.push(p.last())
    } else {
        init
    }
}

/// `text.lines()`, collected.
pub fn lines_of(text: &str) -> (r: Vec<String>)
    ensures
        strs(r@) == lines_seq(text@),
{
    let v = chars_of(text);
    let mut done: Vec<String> = Vec::new();
    let mut cur: Vec<char> = Vec::new();
    let mut i: usize = 0;
    while i < v.len()
        invariant
            i <= v@.len(),
            v@ == text@,
            split_keep(v@.take(i as int), '\n').len() == done@.len() + 1,
            split_keep(v@.take(i as int), '\n').last() == cur@,
            split_keep(v@.take(i as int), '\n').drop_last().map_values(|l: Seq<char>| strip_cr(l))
                == strs(done@),
        decreases v@.len() - i,
    {
        let c = v[i];
        let ghost p = split_keep(v@.take(i as int), '\n');
        assert(v@.take(i + 1).drop_last() =~= v@.take(i as int));
        assert(v@.take(i + 1).last() == c);
        proof {
            lemma_split_keep_nonempty(v@.take(i as int), '\n');
        }
        if c == '\n' {
            let line: &[char] = if cur.len() > 0 && cur[cur.len() - 1] == '\r' {
                &cur.as_slice()[0..(cur.len() - 1)]
            } else {
                cur.as_slice()
            };
            assert(line@ =~= strip_cr(cur@));
            let w = string_from_chars(line);
            let ghost prev = done@;
            done.push(w);
            let ghost np = split_keep(v@.take(i + 1), '\n');
            assert(np == p.push(Seq::empty()));
            assert(np.drop_last() =~= p);
            assert(p =~= p.drop_last().push(p.last()));
            assert(strs(done@) =~= strs(prev).push(strip_cr(cur@)));
            assert(p.map_values(|l: Seq<char>| strip_cr(l)) =~= p.drop_last().map_values(
                |l: Seq<char>| strip_cr(l),
            ).push(strip_cr(p.last())));
            assert(np.drop_last().map_values(|l: Seq<char>| strip_cr(l)) =~= strs(done@));
            cur = Vec::new();
        } else {
            cur.push(c);
            let ghost np = split_keep(v@.take(i + 1), '\n');
            assert(np.drop_last() =~= p.drop_last());
        }
        i = i + 1;
    }
    assert(v@.take(v@.len() as int) =~= v@);
    if cur.len() > 0 {
        let w = string_from_chars(cur.as_slice());
        let ghost prev = done@;
        done.push(w);
        assert(strs(done@) =~= strs(prev).push(w@));
    }
    done
}

// ---------------------------------------------------------------- validity checks

/// A gist is one compact line of at most 200 characters that is not
/// structured data.
pub open spec fn gist_ok(g: Seq<char>) -> bool {
    let t = trim_seq(g);
    &&& t.len() > 0
    &&& t.len() <= 200
    &&& !t.contains('\n')
    &&& !t.contains('\r')
    &&& !(t[0] == '{' || t[0] == '[' || t[0] == '"' || t[0] == '`')
    &&& !json_parses(t)
}

/// A narrative is non-empty readable text, not a structured blob.
pub open spec fn narrative_ok(n: Seq<char>) -> bool {
    let t = trim_seq(n);
    &&& t.len() > 0
    &&& !(t[0] == '{' || t[0] == '[' || t[0] == '`')
    &&& !(t[0] == '"' && json_decode_str(t) is Ok)
}

/// Whether the text starts with a character that opens structured output.
pub fn starts_with_structural_wrapper(value: &str) -> (r: bool)
    ensures
        r == (value@.len() > 0 && (value@[0] == '{' || value@[0] == '[' || value@[0] == '"'
            || value@[0] == '`')),
{
    let v = chars_of(value);
    if v.len() == 0 {
        return false;
    }
    let c = v[0];
    c == '{' || c == '[' || c == '"' || c == '`'
}

fn contains_char(v: &[char], c: char) -> (r: bool)
    ensures
        r == v@.contains(c),
{
    let mut i: usize = 0;
    while i < v.len()
        invariant
            i <= v@.len(),
            forall|k: int| 0 <= k < i ==> v@[k] != c,
        decreases v@.len() - i,
    {
        if v[i] == c {
            assert(v@[i as int] == c);
            return true;
        }
        i = i + 1;
    }
    false
}

/// `gist_looks_valid`.
pub fn gist_looks_valid(value: &str) -> (r: bool)
    ensures
        r == gist_ok(value@),
{
    let t = trim_str(value);
    let v = chars_of(t.as_str());
    if v.len() == 0 || v.len() > 200 {
        return false;
    }
    if contains_char(v.as_slice(), '\n') || contains_char(v.as_slice(), '\r') {
        return false;
    }
    if starts_with_structural_wrapper(t.as_str()) {
        return false;
    }
    let parsed = json_string_field(t.as_str(), "");
    proof {
        reveal_strlit("");
        assert(""@ =~= Seq::<char>::empty());
    }
    parsed.is_err()
}

/// `narrative_looks_valid`.
pub fn narrative_looks_valid(value: &str) -> (r: bool)
    ensures
        r == narrative_ok(value@),
{
    let t = trim_str(value);
    let v = chars_of(t.as_str());
    if v.len() == 0 {
        return false;
    }
    let c = v[0];
    if c == '{' || c == '[' || c == '`' {
        return false;
    }
    if c == '"' && decode_json_string(t.as_str()).is_ok() {
        return false;
    }
    true
}

pub open spec fn gist_rejected_msg() -> Seq<char> {
    "consolidator_gist_rejected: consolidator gist is not a compact single-line summary"@
}

pub open spec fn narrative_rejected_msg() -> Seq<char> {
    "consolidator_narrative_rejected: consolidator narrative looks like a raw structured blob"@
}

/// The accepted pair, or the message of the first check that fails.
pub open spec fn overlay_spec(g: Seq<char>, n: Seq<char>) -> Result<(Seq<char>, Seq<char>), Seq<char>> {
    if !gist_ok(g) {
        Err(gist_rejected_msg())
    } else if !narrative_ok(n) {
        Err(narrative_rejected_msg())
    } else {
        Ok((g, n))
    }
}

/// How an exec result stands for a spec result whose errors are
/// validation messages.
pub open spec fn pair_result_matches(
    r: Result<(String, String), MemoryEngineError>,
    s: Result<(Seq<char>, Seq<char>), Seq<char>>,
) -> bool {
    match r {
        Ok((g, n)) => s == Ok::<(Seq<char>, Seq<char>), Seq<char>>((g@, n@)),
        Err(MemoryEngineError::Validation(m)) => s == Err::<(Seq<char>, Seq<char>), Seq<char>>(m@),
        Err(_) => false,
    }
}

/// `validate_consolidator_overlay`.
pub fn validate_consolidator_overlay(gist: String, narrative: String) -> (r: Result<
    (String, String),
    MemoryEngineError,
>)
    ensures
        pair_result_matches(r, overlay_spec(gist@, narrative@)),
{
    if !gist_looks_valid(gist.as_str()) {
        return Err(
            MemoryEngineError::Validation(
                "consolidator_gist_rejected: consolidator gist is not a compact single-line summary".to_owned(),
            ),
        );
    }
    if !narrative_looks_valid(narrative.as_str()) {
        return Err(
            MemoryEngineError::Validation(
                "consolidator_narrative_rejected: consolidator narrative looks like a raw structured blob".to_owned(),
            ),
        );
    }
    Ok((gist, narrative))
}

// ---------------------------------------------------------------- the parser

pub open spec fn empty_text_msg() -> Seq<char> {
    "consolidator returned empty text"@
}

pub open spec fn quoted_msg(e: Seq<char>) -> Seq<char> {
    "consolidator returned quoted text that could not be decoded: "@ + e
}

pub open spec fn json_shaped_msg(e: Seq<char>) -> Seq<char> {
    "consolidator returned JSON-shaped text that could not be parsed: "@ + e
}

pub open spec fn json_no_fields_msg() -> Seq<char> {
    "consolidator returned JSON without gist or narrative strings"@
}

/// Index of the first line that is not blank, or `-1`.
pub open spec fn first_nonblank(ls: Seq<Seq<char>>) -> int
    decreases ls.len(),
{
    if ls.len() == 0 {
        -1
    } else if trim_seq(ls[0]).len() > 0 {
        0
    } else {
        let r = first_nonblank(ls.drop_first());
        if r < 0 {
            -1
        } else {
            r + 1
        }
    }
}

pub proof fn lemma_first_nonblank(ls: Seq<Seq<char>>, i: int)
    requires
        0 <= i <= ls.len(),
        forall|k: int| 0 <= k < i ==> trim_seq(#[trigger] ls[k]).len() == 0,
        i == ls.len() || trim_seq(ls[i]).len() > 0,
    ensures
        first_nonblank(ls) == if i == ls.len() {
            -1
        } else {
            i
        },
    decreases i,
{
    if i > 0 {
        let t = ls.drop_first();
        assert forall|k: int| 0 <= k < i - 1 implies trim_seq(#[trigger] t[k]).len() == 0 by {
            assert(t[k] == ls[k + 1]);
        }
        if i < ls.len() {
            assert(t[i - 1] == ls[i]);
        }
        lemma_first_nonblank(t, i - 1);
        assert(trim_seq(ls[0]).len() == 0);
    }
}

/// Plain-text reply: the first non-blank line is the gist (label removed),
/// the lines after it form the narrative (the gist again when they are blank).
pub open spec fn plain_text_spec(c: Seq<char>) -> Result<(Seq<char>, Seq<char>), Seq<char>> {
    let ls = lines_seq(c);
    let f = first_nonblank(ls);
    if f < 0 {
        Err(empty_text_msg())
    } else {
        let g = gist_prefix_stripped(trim_seq(ls[f]));
        let n0 = trim_seq(join(ls.skip(f + 1), "\n"@));
        let n = if n0.len() == 0 {
            g
        } else {
            n0
        };
        overlay_spec(g, n)
    }
}

/// A JSON-object reply: its `gist` and `narrative` strings, each standing
/// in for the other when missing.
pub open spec fn json_object_spec(c: Seq<char>) -> Result<(Seq<char>, Seq<char>), Seq<char>> {
    match json_field_str(c, "gist"@) {
        Err(e) => Err(json_shaped_msg(e)),
        Ok(gf) => match json_field_str(c, "narrative"@) {
            Err(e) => Err(json_shaped_msg(e)),
            Ok(nf) => {
                let g = match gf {
                    Some(s) => if gist_prefix_stripped(s).len() > 0 {
                        Some(gist_prefix_stripped(s))
                    } else {
                        None
                    },
                    None => None,
                };
                let n = match nf {
                    Some(s) => if trim_seq(s).len() > 0 {
                        Some(trim_seq(s))
                    } else {
                        None
                    },
                    None => None,
                };
                match (g, n) {
                    (Some(g), Some(n)) => overlay_spec(g, n),
                    (Some(g), None) => overlay_spec(g, g),
                    (None, Some(n)) => overlay_spec(n, n),
                    (None, None) => Err(json_no_fields_msg()),
                }
            },
        },
    }
}

/// The reply text the parser works on: trimmed, unfenced, trimmed again.
pub open spec fn candidate_of(text: Seq<char>) -> Seq<char> {
    trim_seq(fence_body(trim_seq(text)))
}

/// What `parse_consolidator_text` returns for `text`.
pub open spec fn consolidator_spec(text: Seq<char>) -> Result<(Seq<char>, Seq<char>), Seq<char>>
    decreases text.len(),
{
    let c = candidate_of(text);
    if c.len() == 0 {
        Err(empty_text_msg())
    } else if c[0] == '"' {
        match json_decode_str(c) {
            Err(e) => Err(quoted_msg(e)),
            Ok(d) => if d.len() < text.len() {
                consolidator_spec(d)
            } else {
                Err(Seq::empty())
            },
        }
    } else if c[0] == '{' {
        json_object_spec(c)
    } else {
        plain_text_spec(c)
    }
}

pub proof fn lemma_candidate_len(text: Seq<char>)
    ensures
        candidate_of(text).len() <= text.len(),
{
    reveal_strlit("```");
    lemma_trim_len(text);
    let t = trim_seq(text);
    if starts_with(t, "```"@) {
        let rest = t.skip(3);
        lemma_find_char(rest, '\n');
        let nl = find_char(rest, '\n');
        let body = if nl >= 0 {
            rest.skip(nl + 1)
        } else {
            Seq::empty()
        };
        assert(body.len() <= rest.len());
        let inner = if ends_with(body, "```"@) {
            body.take(body.len() - 3)
        } else {
            body
        };
        assert(inner.len() <= body.len());
        lemma_trim_len(inner);
        assert(fence_body(t) == trim_seq(inner));
        assert(fence_body(t).len() <= t.len());
    }
    assert(fence_body(t).len() <= t.len());
    lemma_trim_len(fence_body(t));
}

fn concat(a: &str, b: &str) -> (r: String)
    ensures
        r@ == a@ + b@,
{
    let mut s = String::new();
    s.append(a);
    s.append(b);
    s
}

fn json_object_reply(c: &str) -> (r: Result<(String, String), MemoryEngineError>)
    ensures
        pair_result_matches(r, json_object_spec(c@)),
{
    let gf = json_string_field(c, "gist");
    let gf = match gf {
        Err(e) => {
            return Err(
                MemoryEngineError::Validation(
                    concat("consolidator returned JSON-shaped text that could not be parsed: ", e.as_str()),
                ),
            );
        },
        Ok(v) => v,
    };
    let nf = json_string_field(c, "narrative");
    let nf = match nf {
        Err(e) => {
            return Err(
                MemoryEngineError::Validation(
                    concat("consolidator returned JSON-shaped text that could not be parsed: ", e.as_str()),
                ),
            );
        },
        Ok(v) => v,
    };
    let g: Option<String> = match gf {
        Some(s) => {
            let stripped = strip_consolidator_gist_prefix(s.as_str());
            if stripped.as_str().is_empty() {
                None
            } else {
                Some(stripped)
            }
        },
        None => None,
    };
    let n: Option<String> = match nf {
        Some(s) => {
            let t = trim_str(s.as_str());
            if t.as_str().is_empty() {
                None
            } else {
                Some(t)
            }
        },
        None => None,
    };
    match (g, n) {
        (Some(g), Some(n)) => validate_consolidator_overlay(g, n),
        (Some(g), None) => {
            let g2 = g.clone();
            validate_consolidator_overlay(g, g2)
        },
        (None, Some(n)) => {
            let n2 = n.clone();
            validate_consolidator_overlay(n, n2)
        },
        (None, None) => Err(
            MemoryEngineError::Validation(
                "consolidator returned JSON without gist or narrative strings".to_owned(),
            ),
        ),
    }
}

fn plain_text_reply(c: &str) -> (r: Result<(String, String), MemoryEngineError>)
    ensures
        pair_result_matches(r, plain_text_spec(c@)),
{
    let ls = lines_of(c);
    let ghost lv = strs(ls@);
    let mut i: usize = 0;
    while i < ls.len() && crate::text::is_blank(ls[i].as_str())
        invariant
            i <= ls@.len(),
            lv == strs(ls@),
            forall|k: int| 0 <= k < i ==> trim_seq(#[trigger] lv[k]).len() == 0,
        decreases ls@.len() - i,
    {
        i = i + 1;
    }
    proof {
        lemma_first_nonblank(lv, i as int);
    }
    if i == ls.len() {
        return Err(MemoryEngineError::Validation("consolidator returned empty text".to_owned()));
    }
    let first = trim_str(ls[i].as_str());
    let gist = strip_consolidator_gist_prefix(first.as_str());
    let mut rest: Vec<String> = Vec::new();
    let mut k: usize = i + 1;
    while k < ls.len()
        invariant
            i < k <= ls@.len(),
            lv == strs(ls@),
            strs(rest@) == lv.subrange(i + 1, k as int),
        decreases ls@.len() - k,
    {
        let ghost prev = rest@;
        let item = ls[k].clone();
        assert(item@ == lv[k as int]);
        rest.push(item);
        assert(strs(rest@) =~= strs(prev).push(lv[k as int]));
        assert(lv.subrange(i + 1, k + 1) =~= lv.subrange(i + 1, k as int).push(lv[k as int]));
        assert(strs(rest@) =~= lv.subrange(i + 1, k + 1));
        k = k + 1;
    }
    assert(lv.subrange(i + 1, lv.len() as int) =~= lv.skip(i + 1));
    let nl = string_from_chars(&['\n']);
    assert(nl@ =~= "\n"@) by {
        reveal_strlit("\n");
    }
    let joined = crate::text::join_strings(&rest, nl.as_str());
    let n0 = trim_str(joined.as_str());
    let narrative = if n0.as_str().is_empty() {
        gist.clone()
    } else {
        n0
    };
    validate_consolidator_overlay(gist, narrative)
}

/// Reads the consolidator's reply into `(gist, narrative)`.
pub fn parse_consolidator_text(text: &str) -> (r: Result<(String, String), MemoryEngineError>)
    ensures
        pair_result_matches(r, consolidator_spec(text@)),
    decreases text@.len(),
{
    proof {
        lemma_candidate_len(text@);
    }
    let t0 = trim_str(text);
    proof {
        lemma_trim_len(text@);
    }
    let unfenced = strip_markdown_fence(t0.as_str());
    let candidate = trim_str(unfenced.as_str());
    let v = chars_of(candidate.as_str());
    if v.len() == 0 {
        return Err(MemoryEngineError::Validation("consolidator returned empty text".to_owned()));
    }
    if v[0] == '"' {
        match decode_json_string(candidate.as_str()) {
            Err(e) => {
                return Err(
                    MemoryEngineError::Validation(
                        concat("consolidator returned quoted text that could not be decoded: ", e.as_str()),
                    ),
                );
            },
            Ok(decoded) => {
                return parse_consolidator_text(decoded.as_str());
            },
        }
    }
    if v[0] == '{' {
        return json_object_reply(candidate.as_str());
    }
    plain_text_reply(candidate.as_str())
}

} // verus!
