//! Token sets used for text matching: recall tokens, meaningful tokens with
//! stop words removed, core-query tokens, and normalized string sets.
use vstd::prelude::*;
use crate::strset::{contains_str, insert_sorted, sorted_set, str_eq};
use crate::text::{
    alnum_sep, chars_of, is_alnum, lowercase, normalize_whitespace, normalize_ws_seq,
    split_runs_of, string_from_chars, strs, to_lowercase_str, trim_seq, trim_str, runs,
    sep_for, is_alphanumeric_char,
};

verus! {

// ---------------------------------------------------------------- tokenize

/// A run of alphanumeric characters as a recall token: trimmed, lowercased.
pub open spec fn token_of(run: Seq<char>) -> Seq<char> {
    lowercase(trim_seq(run))
}

/// The tokens of `text` that `tokenize` keeps: lowercased alphanumeric runs
/// of at least two characters.
pub open spec fn token_set(text: Seq<char>) -> Set<Seq<char>> {
    Set::new(
        |t: Seq<char>|
            exists|i: int|
                0 <= i < runs(text, alnum_sep()).len() && token_of(#[trigger] runs(
                    text,
                    alnum_sep(),
                )[i]) == t && t.len() >= 2,
    )
}

pub open spec fn tokens_upto(rs: Seq<Seq<char>>, n: int) -> Set<Seq<char>> {
    Set::new(
        |t: Seq<char>| exists|i: int| 0 <= i < n && token_of(#[trigger] rs[i]) == t && t.len() >= 2,
    )
}

/// `text.split(|ch| !ch.is_alphanumeric())` → trimmed, lowercased tokens
/// of at least two characters, as a sorted set.
pub fn tokenize(text: &str) -> (r: Vec<String>)
    ensures
        sorted_set(strs(r@)),
        strs(r@).to_set() == token_set(text@),
{
    let rs = split_runs_of(text, false);
    let ghost rv = strs(rs@);
    assert(sep_for(false) == alnum_sep());
    let mut out: Vec<String> = Vec::new();
    let mut i: usize = 0;
    assert(strs(out@).to_set() =~= tokens_upto(rv, 0));
    while i < rs.len()
        invariant
            i <= rs@.len(),
            rv == strs(rs@),
            sorted_set(strs(out@)),
            strs(out@).to_set() == tokens_upto(rv, i as int),
        decreases rs@.len() - i,
    {
        let trimmed = trim_str(rs[i].as_str());
        let tok = to_lowercase_str(trimmed.as_str());
        let n = chars_of(tok.as_str()).len();
        let ghost before = strs(out@).to_set();
        let ghost tv = tok@;
        assert(tv == token_of(rv[i as int]));
        if n >= 2 {
            insert_sorted(&mut out, tok);
            assert(tokens_upto(rv, i + 1) =~= before.insert(tv)) by {
                assert forall|t: Seq<char>| tokens_upto(rv, i + 1).contains(t) implies before.insert(
                    tv,
                ).contains(t) by {
                    let k = choose|k: int| 0 <= k < i + 1 && token_of(#[trigger] rv[k]) == t && t.len() >= 2;
                    if k < i {
                        assert(tokens_upto(rv, i as int).contains(t));
                    }
                }
                assert forall|t: Seq<char>| before.insert(tv).contains(t) implies tokens_upto(
                    rv,
                    i + 1,
                ).contains(t) by {
                    if t == tv {
                        assert(token_of(rv[i as int]) == t);
                    } else {
                        assert(tokens_upto(rv, i as int).contains(t));
                        let k = choose|k: int| 0 <= k < i && token_of(#[trigger] rv[k]) == t && t.len() >= 2;
                        assert(0 <= k < i + 1);
                    }
                }
            }
        } else {
            assert(tokens_upto(rv, i + 1) =~= before) by {
                assert forall|t: Seq<char>| tokens_upto(rv, i + 1).contains(t) implies before.contains(
                    t,
                ) by {
                    let k = choose|k: int| 0 <= k < i + 1 && token_of(#[trigger] rv[k]) == t && t.len() >= 2;
                    if k < i {
                        assert(tokens_upto(rv, i as int).contains(t));
                    }
                }
                assert forall|t: Seq<char>| before.contains(t) implies tokens_upto(rv, i + 1).contains(
                    t,
                ) by {
                    assert(tokens_upto(rv, i as int).contains(t));
                    let k = choose|k: int| 0 <= k < i && token_of(#[trigger] rv[k]) == t && t.len() >= 2;
                    assert(0 <= k < i + 1);
                }
            }
        }
        i = i + 1;
    }
    assert(tokens_upto(rv, rv.len() as int) =~= token_set(text@));
    out
}

// ---------------------------------------------------------------- stop words

/// Words that carry no meaning for duplicate detection.
pub open spec fn is_stop_word(t: Seq<char>) -> bool {
    t == "the"@ || t == "and"@ || t == "this"@ || t == "that"@ || t == "користувач"@ || t
        == "користувача"@ || t == "користувачу"@ || t == "дуже"@ || t == "любить"@ || t
        == "цікавиться"@
}

/// Whether `t` is a stop word.
pub fn stop_word(t: &str) -> (r: bool)
    ensures
        r == is_stop_word(t@),
{
    str_eq(t, "the") || str_eq(t, "and") || str_eq(t, "this") || str_eq(t, "that") || str_eq(
        t,
        "користувач",
    ) || str_eq(t, "користувача") || str_eq(t, "користувачу") || str_eq(t, "дуже") || str_eq(
        t,
        "любить",
    ) || str_eq(t, "цікавиться")
}

/// The tokens of `text` without stop words.
pub open spec fn meaningful_set(text: Seq<char>) -> Set<Seq<char>> {
    token_set(text).filter(|t: Seq<char>| !is_stop_word(t))
}

/// `tokenize(text)` without stop words, as a sorted set.
pub fn meaningful_tokens(text: &str) -> (r: Vec<String>)
    ensures
        sorted_set(strs(r@)),
        strs(r@).to_set() == meaningful_set(text@),
        forall|i: int| 0 <= i < r@.len() ==> !is_stop_word(#[trigger] strs(r@)[i]),
{
    let all = tokenize(text);
    let ghost av = strs(all@);
    let mut out: Vec<String> = Vec::new();
    let mut i: usize = 0;
    while i < all.len()
        invariant
            i <= all@.len(),
            av == strs(all@),
            sorted_set(strs(out@)),
            strs(out@).to_set() == av.take(i as int).to_set().filter(
                |t: Seq<char>| !is_stop_word(t),
            ),
        decreases all@.len() - i,
    {
        let ghost before = strs(out@).to_set();
        let ghost tv = all[i as int]@;
        assert(av.take(i + 1) =~= av.take(i as int).push(tv));
        assert(av.take(i + 1).to_set() =~= av.take(i as int).to_set().insert(tv)) by {
            assert forall|y: Seq<char>| av.take(i + 1).to_set().contains(y) implies av.take(
                i as int,
            ).to_set().insert(tv).contains(y) by {
                let k = choose|k: int| 0 <= k < av.take(i + 1).len() && #[trigger] av.take(i + 1)[k] == y;
                if k < i {
                    assert(av.take(i as int)[k] == y);
                }
            }
            assert forall|y: Seq<char>| av.take(i as int).to_set().insert(tv).contains(y) implies av.take(
                i + 1,
            ).to_set().contains(y) by {
                if y == tv {
                    assert(av.take(i + 1)[i as int] == y);
                } else {
                    let k = choose|k: int| 0 <= k < av.take(i as int).len() && #[trigger] av.take(i as int)[k] == y;
                    assert(av.take(i + 1)[k] == y);
                }
            }
        }
        if !stop_word(all[i].as_str()) {
            insert_sorted(&mut out, all[i].clone());
            assert(av.take(i + 1).to_set().filter(|t: Seq<char>| !is_stop_word(t)) =~= before.insert(
                tv,
            ));
        } else {
            assert(av.take(i + 1).to_set().filter(|t: Seq<char>| !is_stop_word(t)) =~= before);
        }
        i = i + 1;
    }
    assert(av.take(av.len() as int) =~= av);
    assert(strs(out@).to_set() =~= meaningful_set(text@));
    assert forall|i: int| 0 <= i < out@.len() implies !is_stop_word(#[trigger] strs(out@)[i]) by {
        assert(strs(out@).to_set().contains(strs(out@)[i]));
    }
    out
}

// ---------------------------------------------------------------- string sets

/// The non-blank normalized forms of `items[..n]`.
pub open spec fn normalized_upto(items: Seq<Seq<char>>, n: int) -> Set<Seq<char>> {
    Set::new(
        |t: Seq<char>|
            exists|i: int| 0 <= i < n && normalize_ws_seq(#[trigger] items[i]) == t && t.len() > 0,
    )
}

/// White-space-normalized, non-blank, deduplicated and sorted strings.
pub fn unique_strings(items: Vec<String>) -> (r: Vec<String>)
    ensures
        sorted_set(strs(r@)),
        strs(r@).to_set() == normalized_upto(strs(items@), items@.len() as int),
{
    let ghost iv = strs(items@);
    let mut out: Vec<String> = Vec::new();
    let mut i: usize = 0;
    assert(strs(out@).to_set() =~= normalized_upto(iv, 0));
    while i < items.len()
        invariant
            i <= items@.len(),
            iv == strs(items@),
            sorted_set(strs(out@)),
            strs(out@).to_set() == normalized_upto(iv, i as int),
        decreases items@.len() - i,
    {
        let n = normalize_whitespace(items[i].as_str());
        let ghost before = strs(out@).to_set();
        let ghost nv = n@;
        assert(nv == normalize_ws_seq(iv[i as int]));
        if !n.as_str().is_empty() {
            insert_sorted(&mut out, n);
            assert(normalized_upto(iv, i + 1) =~= before.insert(nv)) by {
                assert forall|t: Seq<char>| normalized_upto(iv, i + 1).contains(t) implies before.insert(
                    nv,
                ).contains(t) by {
                    let k = choose|k: int|
                        0 <= k < i + 1 && normalize_ws_seq(#[trigger] iv[k]) == t && t.len() > 0;
                    if k < i {
                        assert(normalized_upto(iv, i as int).contains(t));
                    }
                }
                assert forall|t: Seq<char>| before.insert(nv).contains(t) implies normalized_upto(
                    iv,
                    i + 1,
                ).contains(t) by {
                    if t == nv {
                        assert(normalize_ws_seq(iv[i as int]) == t);
                    } else {
                        assert(normalized_upto(iv, i as int).contains(t));
                        let k = choose|k: int|
                            0 <= k < i && normalize_ws_seq(#[trigger] iv[k]) == t && t.len() > 0;
                        assert(0 <= k < i + 1);
                    }
                }
            }
        } else {
            assert(normalized_upto(iv, i + 1) =~= before) by {
                assert forall|t: Seq<char>| normalized_upto(iv, i + 1).contains(t) implies before.contains(
                    t,
                ) by {
                    let k = choose|k: int|
                        0 <= k < i + 1 && normalize_ws_seq(#[trigger] iv[k]) == t && t.len() > 0;
                    if k < i {
                        assert(normalized_upto(iv, i as int).contains(t));
                    }
                }
                assert forall|t: Seq<char>| before.contains(t) implies normalized_upto(iv, i + 1).contains(
                    t,
                ) by {
                    assert(normalized_upto(iv, i as int).contains(t));
                    let k = choose|k: int|
                        0 <= k < i && normalize_ws_seq(#[trigger] iv[k]) == t && t.len() > 0;
                    assert(0 <= k < i + 1);
                }
            }
        }
        i = i + 1;
    }
    out
}

/// `target` extended with the normalized, non-blank items of `source` that
/// it does not hold yet, in source order.
pub open spec fn merge_spec(target: Seq<Seq<char>>, source: Seq<Seq<char>>) -> Seq<Seq<char>>
    decreases source.len(),
{
    if source.len() == 0 {
        target
    } else {
        let prev = merge_spec(target, source.drop_last());
        let n = normalize_ws_seq(source.last());
        if n.len() == 0 || prev.contains(n) {
            prev
        } else {
            prev.push(n)
        }
    }
}

/// Appends the normalized, non-blank items of `source` that `target` does
/// not already hold.
pub fn merge_unique(target: &mut Vec<String>, source: &[String])
    ensures
        strs(final(target)@) == merge_spec(strs(old(target)@), strs(source@)),
{
    let ghost t0 = strs(target@);
    let mut i: usize = 0;
    while i < source.len()
        invariant
            i <= source@.len(),
            strs(target@) == merge_spec(t0, strs(source@).take(i as int)),
        decreases source@.len() - i,
    {
        assert(strs(source@).take(i + 1).drop_last() =~= strs(source@).take(i as int));
        assert(strs(source@).take(i + 1).last() == source@[i as int]@);
        let n = normalize_whitespace(source[i].as_str());
        if !n.as_str().is_empty() && !contains_str(target, n.as_str()) {
            let ghost prev = target@;
            target.push(n);
            assert(strs(target@) =~= strs(prev).push(target@.last()@));
        }
        i = i + 1;
    }
    assert(strs(source@).take(source@.len() as int) =~= strs(source@));
}

/// Appends `value` unless `target` already holds it.
pub fn push_unique(target: &mut Vec<String>, value: String)
    ensures
        strs(final(target)@) == if strs(old(target)@).contains(value@) {
            strs(old(target)@)
        } else {
            strs(old(target)@).push(value@)
        },
{
    if !contains_str(target, value.as_str()) {
        let ghost prev = target@;
        let ghost vv = value@;
        target.push(value);
        assert(strs(target@) =~= strs(prev).push(vv));
    }
}

// ---------------------------------------------------------------- core query tokens

/// What `char::to_lowercase` yields for one character.
pub uninterp spec fn char_lower(c: char) -> Seq<char>;

/// `char::to_lowercase`, collected.
#[verifier::external_body]
pub(crate) fn char_to_lowercase(c: char) -> (r: Vec<char>)
    ensures
        r@ == char_lower(c),
{
    c.to_lowercase().collect()
}

/// Each character of `s` lowercased on its own, concatenated.
pub open spec fn lower_chars(s: Seq<char>) -> Seq<char>
    decreases s.len(),
{
    if s.len() == 0 {
        Seq::empty()
    } else {
        lower_chars(s.drop_last()) + char_lower(s.last())
    }
}

/// The items of `ts` that have at least `min` characters, each kept at its
/// first occurrence only.
pub open spec fn first_unique_long(ts: Seq<Seq<char>>, min: nat) -> Seq<Seq<char>>
    decreases ts.len(),
{
    if ts.len() == 0 {
        Seq::empty()
    } else {
        let prev = first_unique_long(ts.drop_last(), min);
        let t = ts.last();
        if t.len() >= min && !prev.contains(t) {
            prev.push(t)
        } else {
            prev
        }
    }
}

/// Core-fact query tokens: alphanumeric runs lowercased character by
/// character, at least three characters long, unique, in text order.
pub open spec fn core_tokens_seq(text: Seq<char>) -> Seq<Seq<char>> {
    first_unique_long(runs(text, alnum_sep()).map_values(|r: Seq<char>| lower_chars(r)), 3)
}

proof fn lemma_split_runs_count(s: Seq<char>, sep: spec_fn(char) -> bool)
    ensures
        crate::text::split_runs(s, sep).0.len() + crate::text::split_runs(s, sep).1.len() <= s.len(),
    decreases s.len(),
{
    if s.len() > 0 {
        lemma_split_runs_count(s.drop_last(), sep);
    }
}

proof fn lemma_first_unique_long_len(ts: Seq<Seq<char>>, min: nat)
    ensures
        first_unique_long(ts, min).len() <= ts.len(),
    decreases ts.len(),
{
    if ts.len() > 0 {
        lemma_first_unique_long_len(ts.drop_last(), min);
    }
}

/// A text has no more core query tokens than characters.
pub proof fn lemma_core_tokens_within_chars(text: Seq<char>)
    ensures
        core_tokens_seq(text).len() <= text.len(),
{
    lemma_split_runs_count(text, alnum_sep());
    let rs = crate::text::runs(text, alnum_sep());
    lemma_first_unique_long_len(rs.map_values(|r: Seq<char>| lower_chars(r)), 3);
}

/// The tokens of a piece of a text that stands between separators (or at
/// an end of the text) are tokens of the whole text.
pub proof fn lemma_piece_tokens(text: Seq<char>, x: Seq<char>, piece: Seq<char>, y: Seq<char>)
    requires
        text == x + piece + y,
        x.len() == 0 || !is_alnum(x.last()),
        y.len() == 0 || !is_alnum(y[0]),
    ensures
        token_set(piece).subset_of(token_set(text)),
{
    let sep = alnum_sep();
    let rest = piece + y;
    assert(text =~= x + rest);
    crate::text::lemma_runs_concat(x, rest, sep);
    if y.len() == 0 {
        assert(rest =~= piece);
    } else {
        let c = y[0];
        let tail = y.skip(1);
        assert(rest =~= piece.push(c) + tail);
        crate::text::lemma_runs_concat(piece.push(c), tail, sep);
        crate::text::lemma_runs_close(piece, c, sep);
    }
    let before = crate::text::runs(x, sep);
    let whole = crate::text::runs(text, sep);
    let prs = crate::text::runs(piece, sep);
    assert forall|i: int| 0 <= i < prs.len() implies #[trigger] whole[before.len() + i] == prs[i] by {
        if y.len() == 0 {
            assert(whole == before + prs);
        } else {
            let tail = y.skip(1);
            assert(whole == before + (prs + crate::text::runs(tail, sep)));
        }
    }
    assert forall|t: Seq<char>| token_set(piece).contains(t) implies token_set(text).contains(t) by {
        let i = choose|i: int|
            0 <= i < prs.len() && token_of(#[trigger] crate::text::runs(piece, sep)[i]) == t && t.len() >= 2;
        assert(whole[before.len() + i] == prs[i]);
        assert(0 <= before.len() + i < whole.len()) by {
            if y.len() == 0 {
                assert(whole == before + prs);
            } else {
                let tail = y.skip(1);
                assert(whole == before + (prs + crate::text::runs(tail, sep)));
            }
        }
    }
}

/// Lowercases every character of `s` on its own.
pub fn lower_each_char(s: &str) -> (r: String)
    ensures
        r@ == lower_chars(s@),
{
    let v = chars_of(s);
    let mut out: Vec<char> = Vec::new();
    let mut i: usize = 0;
    while i < v.len()
        invariant
            i <= v@.len(),
            v@ == s@,
            out@ == lower_chars(v@.take(i as int)),
        decreases v@.len() - i,
    {
        assert(v@.take(i + 1).drop_last() =~= v@.take(i as int));
        let low = char_to_lowercase(v[i]);
        let mut k: usize = 0;
        let ghost base = out@;
        while k < low.len()
            invariant
                k <= low@.len(),
                out@ == base + low@.take(k as int),
            decreases low@.len() - k,
        {
            out.push(low[k]);
            assert(out@ =~= base + low@.take(k + 1));
            k = k + 1;
        }
        assert(low@.take(low@.len() as int) =~= low@);
        i = i + 1;
    }
    assert(v@.take(v@.len() as int) =~= v@);
    string_from_chars(out.as_slice())
}

/// The distinct lowercased alphanumeric words of `text` with at least three
/// characters, in first-occurrence order.
pub fn core_query_tokens(text: &str) -> (r: Vec<String>)
    ensures
        strs(r@) == core_tokens_seq(text@),
{
    let rs = split_runs_of(text, false);
    assert(sep_for(false) == alnum_sep());
    let ghost lowered = strs(rs@).map_values(|r: Seq<char>| lower_chars(r));
    let mut out: Vec<String> = Vec::new();
    let mut i: usize = 0;
    while i < rs.len()
        invariant
            i <= rs@.len(),
            lowered == strs(rs@).map_values(|r: Seq<char>| lower_chars(r)),
            strs(out@) == first_unique_long(lowered.take(i as int), 3),
        decreases rs@.len() - i,
    {
        assert(lowered.take(i + 1).drop_last() =~= lowered.take(i as int));
        let tok = lower_each_char(rs[i].as_str());
        assert(lowered.take(i + 1).last() == tok@);
        let n = chars_of(tok.as_str()).len();
        if n >= 3 && !contains_str(&out, tok.as_str()) {
            let ghost prev = out@;
            let ghost tv = tok@;
            out.push(tok);
            assert(strs(out@) =~= strs(prev).push(tv));
        }
        i = i + 1;
    }
    assert(lowered.take(lowered.len() as int) =~= lowered);
    out
}

// ---------------------------------------------------------------- substring

/// `needle` occurs in `hay` as a contiguous substring.
pub open spec fn has_sub(hay: Seq<char>, needle: Seq<char>) -> bool {
    exists|i: int|
        0 <= i && i + needle.len() <= hay.len() && #[trigger] hay.subrange(i, i + needle.len())
            == needle
}

/// `hay.contains(needle)` for string patterns.
pub fn contains_substring(hay: &str, needle: &str) -> (r: bool)
    ensures
        r == has_sub(hay@, needle@),
{
    let h = chars_of(hay);
    let n = chars_of(needle);
    if n.len() > h.len() {
        return false;
    }
    if n.len() == 0 {
        assert(h@.subrange(0, 0) =~= n@);
        assert(hay@.subrange(0int, 0int + needle@.len()) == needle@);
        return true;
    }
    let hl = h.len();
    let last = hl - n.len();
    let mut i: usize = 0;
    while i <= last
        invariant
            hl == h@.len(),
            h@ == hay@,
            n@ == needle@,
            0 < n@.len() <= h@.len(),
            last == h@.len() - n@.len(),
            i <= last + 1,
            forall|k: int| 0 <= k < i ==> #[trigger] h@.subrange(k, k + n@.len()) != n@,
        decreases last + 1 - i,
    {
        let mut j: usize = 0;
        let mut same = true;
        while j < n.len()
            invariant
                j <= n@.len(),
                i <= last,
                hl == h@.len(),
                last == h@.len() - n@.len(),
                0 < n@.len() <= h@.len(),
                same == (forall|m: int| 0 <= m < j ==> h@[i + m] == n@[m]),
            decreases n@.len() - j,
        {
            assert(i + j < h@.len());
            if h[i + j] != n[j] {
                same = false;
            }
            j = j + 1;
        }
        if same {
            assert(h@.subrange(i as int, i + n@.len()) =~= n@);
            return true;
        }
        assert(h@.subrange(i as int, i + n@.len()) != n@) by {
            let m = choose|m: int| 0 <= m < n@.len() && h@[i + m] != n@[m];
            assert(h@.subrange(i as int, i + n@.len())[m] == h@[i + m]);
        }
        i = i + 1;
    }
    assert forall|k: int| 0 <= k && k + n@.len() <= h@.len() implies #[trigger] h@.subrange(
        k,
        k + n@.len(),
    ) != n@ by {
        assert(k < i);
    }
    false
}

// ---------------------------------------------------------------- scoring

/// Points one query token earns against a fact.
pub open spec fn token_points(
    fact_tokens: Seq<Seq<char>>,
    fact_text: Seq<char>,
    fact_category: Seq<char>,
    fact_tags: Seq<Seq<char>>,
    token: Seq<char>,
) -> nat {
    (if fact_tokens.contains(token) {
        12nat
    } else if has_sub(fact_text, token) {
        6nat
    } else {
        0nat
    }) + (if has_sub(fact_category, token) {
        4nat
    } else {
        0nat
    }) + (if exists|k: int| 0 <= k < fact_tags.len() && has_sub(#[trigger] fact_tags[k], token) {
        2nat
    } else {
        0nat
    })
}

/// Sum of the points of every query token.
pub open spec fn query_points(
    fact_tokens: Seq<Seq<char>>,
    fact_text: Seq<char>,
    fact_category: Seq<char>,
    fact_tags: Seq<Seq<char>>,
    tokens: Seq<Seq<char>>,
) -> nat
    decreases tokens.len(),
{
    if tokens.len() == 0 {
        0
    } else {
        query_points(fact_tokens, fact_text, fact_category, fact_tags, tokens.drop_last())
            + token_points(fact_tokens, fact_text, fact_category, fact_tags, tokens.last())
    }
}

/// Whether some tag holds `token`.
pub open spec fn tag_holds(tags: Seq<Seq<char>>, token: Seq<char>) -> bool {
    exists|k: int| 0 <= k < tags.len() && has_sub(#[trigger] tags[k], token)
}

proof fn lemma_tag_points_monotone(
    fact_tokens: Seq<Seq<char>>,
    text: Seq<char>,
    category: Seq<char>,
    more: Seq<Seq<char>>,
    fewer: Seq<Seq<char>>,
    tokens: Seq<Seq<char>>,
)
    requires
        forall|k: int| 0 <= k < tokens.len() && tag_holds(fewer, #[trigger] tokens[k]) ==> tag_holds(more, tokens[k]),
    ensures
        query_points(fact_tokens, text, category, more, tokens) >= query_points(
            fact_tokens,
            text,
            category,
            fewer,
            tokens,
        ),
    decreases tokens.len(),
{
    if tokens.len() > 0 {
        let prev = tokens.drop_last();
        assert forall|k: int| 0 <= k < prev.len() && tag_holds(fewer, #[trigger] prev[k]) implies tag_holds(more, prev[k]) by {
            assert(prev[k] == tokens[k]);
        }
        lemma_tag_points_monotone(fact_tokens, text, category, more, fewer, prev);
        let t = tokens.last();
        assert(tokens[tokens.len() - 1] == t);
        assert(tag_holds(fewer, t) ==> tag_holds(more, t));
    }
}

/// A tag match is worth points: of two facts with the same text and
/// category, one whose tags hold every query token that the other's tags
/// hold, and also a query token that none of the other's tags holds, scores
/// at least 2 more against the query.
pub proof fn lemma_tag_match_scores_higher(
    fact_tokens: Seq<Seq<char>>,
    text: Seq<char>,
    category: Seq<char>,
    more: Seq<Seq<char>>,
    fewer: Seq<Seq<char>>,
    tokens: Seq<Seq<char>>,
    j: int,
)
    requires
        0 <= j < tokens.len(),
        tag_holds(more, tokens[j]),
        !tag_holds(fewer, tokens[j]),
        forall|k: int| 0 <= k < tokens.len() && tag_holds(fewer, #[trigger] tokens[k]) ==> tag_holds(more, tokens[k]),
    ensures
        query_points(fact_tokens, text, category, more, tokens) >= query_points(
            fact_tokens,
            text,
            category,
            fewer,
            tokens,
        ) + 2,
    decreases tokens.len(),
{
    let prev = tokens.drop_last();
    assert forall|k: int| 0 <= k < prev.len() && tag_holds(fewer, #[trigger] prev[k]) implies tag_holds(more, prev[k]) by {
        assert(prev[k] == tokens[k]);
    }
    let t = tokens.last();
    assert(tokens[tokens.len() - 1] == t);
    if j == tokens.len() - 1 {
        lemma_tag_points_monotone(fact_tokens, text, category, more, fewer, prev);
    } else {
        assert(prev[j] == tokens[j]);
        lemma_tag_match_scores_higher(fact_tokens, text, category, more, fewer, prev, j);
        assert(tag_holds(fewer, t) ==> tag_holds(more, t));
    }
}

/// The relevance of a core fact (its text, category and tags) to the query
/// tokens: 12 for a whole-word match, else 6 for a substring of the text, plus
/// 4 when the category holds the token and 2 when a tag does.
pub fn core_fact_query_score(
    text: &str,
    category: &str,
    tags: &Vec<String>,
    query_tokens: &Vec<String>,
) -> (r: usize)
    requires
        query_tokens@.len() <= usize::MAX / 18,
    ensures
        r == query_points(
            core_tokens_seq(text@),
            crate::text::match_text(text@),
            crate::text::match_text(category@),
            strs(tags@).map_values(|t: Seq<char>| crate::text::match_text(t)),
            strs(query_tokens@),
        ),
{
    let fact_text = crate::text::normalize_match_text(text);
    let fact_category = crate::text::normalize_match_text(category);
    let mut fact_tags: Vec<String> = Vec::new();
    let mut t: usize = 0;
    while t < tags.len()
        invariant
            t <= tags@.len(),
            strs(fact_tags@) == strs(tags@).take(t as int).map_values(
                |x: Seq<char>| crate::text::match_text(x),
            ),
        decreases tags@.len() - t,
    {
        let m = crate::text::normalize_match_text(tags[t].as_str());
        let ghost prev = fact_tags@;
        let ghost mv = m@;
        fact_tags.push(m);
        assert(strs(fact_tags@) =~= strs(prev).push(mv));
        assert(strs(tags@).take(t + 1) =~= strs(tags@).take(t as int).push(tags@[t as int]@));
        assert(strs(tags@).take(t + 1).map_values(|x: Seq<char>| crate::text::match_text(x))
            =~= strs(tags@).take(t as int).map_values(|x: Seq<char>| crate::text::match_text(x)).push(
            mv,
        ));
        t = t + 1;
    }
    assert(strs(tags@).take(tags@.len() as int) =~= strs(tags@));
    let fact_tokens = core_query_tokens(text);
    let ghost ft = strs(fact_tokens@);
    let ghost tg = strs(fact_tags@);
    let mut total: usize = 0;
    let mut i: usize = 0;
    while i < query_tokens.len()
        invariant
            i <= query_tokens@.len() <= usize::MAX / 18,
            ft == strs(fact_tokens@),
            tg == strs(fact_tags@),
            total == query_points(ft, fact_text@, fact_category@, tg, strs(query_tokens@).take(i as int)),
            total <= 18 * i,
        decreases query_tokens@.len() - i,
    {
        let token = query_tokens[i].as_str();
        assert(strs(query_tokens@).take(i + 1).drop_last() =~= strs(query_tokens@).take(i as int));
        assert(strs(query_tokens@).take(i + 1).last() == token@);
        let mut score: usize = 0;
        if contains_str(&fact_tokens, token) {
            score = 12;
        } else if contains_substring(fact_text.as_str(), token) {
            score = 6;
        }
        if contains_substring(fact_category.as_str(), token) {
            score = score + 4;
        }
        let mut k: usize = 0;
        let mut any_tag = false;
        while k < fact_tags.len()
            invariant
                k <= fact_tags@.len(),
                tg == strs(fact_tags@),
                any_tag == (exists|m: int| 0 <= m < k && has_sub(#[trigger] tg[m], token@)),
            decreases fact_tags@.len() - k,
        {
            assert(tg[k as int] == fact_tags@[k as int]@);
            if contains_substring(fact_tags[k].as_str(), token) {
                any_tag = true;
            }
            assert(any_tag == (exists|m: int| 0 <= m < k + 1 && has_sub(#[trigger] tg[m], token@))) by {
                if exists|m: int| 0 <= m < k + 1 && has_sub(#[trigger] tg[m], token@) {
                    let m = choose|m: int| 0 <= m < k + 1 && has_sub(#[trigger] tg[m], token@);
                    if m < k {
                        assert(exists|m2: int| 0 <= m2 < k && has_sub(#[trigger] tg[m2], token@));
                    }
                }
            }
            k = k + 1;
        }
        if any_tag {
            score = score + 2;
        }
        total = total + score;
        i = i + 1;
    }
    assert(strs(query_tokens@).take(query_tokens@.len() as int) =~= strs(query_tokens@));
    total
}

// ---------------------------------------------------------------- category names

/// An ASCII letter or digit.
pub open spec fn ascii_alnum(c: char) -> bool {
    ('0' <= c && c <= '9') || ('a' <= c && c <= 'z') || ('A' <= c && c <= 'Z')
}

/// Letters, digits and underscores kept; every other run of characters
/// becomes one underscore. Also says whether the last character written was
/// such a replacement.
pub open spec fn category_chars(s: Seq<char>) -> (Seq<char>, bool)
    decreases s.len(),
{
    if s.len() == 0 {
        (Seq::empty(), false)
    } else {
        let (out, replaced) = category_chars(s.drop_last());
        let c = s.last();
        if ascii_alnum(c) || c == '_' {
            (out.push(c), false)
        } else if !replaced {
            (out.push('_'), true)
        } else {
            (out, true)
        }
    }
}

/// `s` without leading underscores.
pub open spec fn strip_leading_underscores(s: Seq<char>) -> Seq<char>
    decreases s.len(),
{
    if s.len() > 0 && s[0] == '_' {
        strip_leading_underscores(s.drop_first())
    } else {
        s
    }
}

/// `s` without trailing underscores.
pub open spec fn strip_trailing_underscores(s: Seq<char>) -> Seq<char>
    decreases s.len(),
{
    if s.len() > 0 && s.last() == '_' {
        strip_trailing_underscores(s.drop_last())
    } else {
        s
    }
}

/// The file-safe name of a Core Store category: white space collapsed,
/// lowercased, reduced to ASCII letters, digits and single underscores,
/// underscores trimmed, at most 64 characters.
pub open spec fn category_name(value: Seq<char>) -> Seq<char> {
    let reduced = category_chars(lowercase(normalize_ws_seq(value))).0;
    let trimmed = strip_trailing_underscores(strip_leading_underscores(reduced));
    if trimmed.len() <= 64 {
        trimmed
    } else {
        trimmed.take(64)
    }
}

/// Normalizes a Core Store category name.
pub fn normalize_category_name(value: &str) -> (r: String)
    ensures
        r@ == category_name(value@),
{
    let lowered = crate::text::normalize_match_text(value);
    let v = chars_of(lowered.as_str());
    let mut out: Vec<char> = Vec::new();
    let mut replaced = false;
    let mut i: usize = 0;
    while i < v.len()
        invariant
            i <= v@.len(),
            v@ == lowered@,
            (out@, replaced) == category_chars(v@.take(i as int)),
        decreases v@.len() - i,
    {
        assert(v@.take(i + 1).drop_last() =~= v@.take(i as int));
        let c = v[i];
        if ('0' <= c && c <= '9') || ('a' <= c && c <= 'z') || ('A' <= c && c <= 'Z') || c == '_' {
            out.push(c);
            replaced = false;
        } else if !replaced {
            out.push('_');
            replaced = true;
        }
        i = i + 1;
    }
    assert(v@.take(v@.len() as int) =~= v@);
    let mut start: usize = 0;
    assert(out@.subrange(0, out@.len() as int) =~= out@);
    while start < out.len() && out[start] == '_'
        invariant
            start <= out@.len(),
            strip_leading_underscores(out@) == strip_leading_underscores(
                out@.subrange(start as int, out@.len() as int),
            ),
        decreases out@.len() - start,
    {
        assert(out@.subrange(start as int, out@.len() as int).drop_first() =~= out@.subrange(
            start + 1,
            out@.len() as int,
        ));
        start = start + 1;
    }
    assert(strip_leading_underscores(out@) == out@.subrange(start as int, out@.len() as int));
    let mut end: usize = out.len();
    while end > start && out[end - 1] == '_'
        invariant
            start <= end <= out@.len(),
            strip_trailing_underscores(strip_leading_underscores(out@))
                == strip_trailing_underscores(out@.subrange(start as int, end as int)),
        decreases end,
    {
        assert(out@.subrange(start as int, end as int).drop_last() =~= out@.subrange(
            start as int,
            end - 1,
        ));
        end = end - 1;
    }
    let stop = if end - start <= 64 {
        end
    } else {
        start + 64
    };
    proof {
        let t = out@.subrange(start as int, end as int);
        if end > start {
            assert(t.last() != '_');
        }
        assert(strip_trailing_underscores(t) == t);
        assert(out@.subrange(start as int, stop as int) =~= (if t.len() <= 64 {
            t
        } else {
            t.take(64)
        }));
    }
    string_from_chars(&out.as_slice()[start..stop])
}

} // verus!
