//! Character-level text handling: white space, trimming, word splitting,
//! joining, normalization and truncation, stated over `Seq<char>`.
use vstd::prelude::*;

verus! {

/// Unicode `White_Space` property, the set `char::is_whitespace` tests.
pub open spec fn is_ws(c: char) -> bool {
    let u = c as u32;
    (0x9 <= u && u <= 0xd) || u == 0x20 || u == 0x85 || u == 0xa0 || u == 0x1680 || (0x2000 <= u
        && u <= 0x200a) || u == 0x2028 || u == 0x2029 || u == 0x202f || u == 0x205f || u == 0x3000
}

/// Whether `c` is Unicode white space.
pub fn is_whitespace_char(c: char) -> (r: bool)
    ensures
        r == is_ws(c),
{
    let u = c as u32;
    (0x9 <= u && u <= 0xd) || u == 0x20 || u == 0x85 || u == 0xa0 || u == 0x1680 || (0x2000 <= u
        && u <= 0x200a) || u == 0x2028 || u == 0x2029 || u == 0x202f || u == 0x205f || u == 0x3000
}

/// The characters of `s`, in order.
#[verifier::external_body]
pub(crate) fn chars_of(s: &str) -> (r: Vec<char>)
    ensures
        r@ == s@,
{
    s.chars().collect()
}

/// The string made of the characters of `v`, in order.
#[verifier::external_body]
pub(crate) fn string_from_chars(v: &[char]) -> (r: String)
    ensures
        r@ == v@,
{
    v.iter().collect()
}

/// What `str::to_lowercase` returns for a string: full Unicode case mapping,
/// which may change the number of characters.
pub uninterp spec fn lowercase(s: Seq<char>) -> Seq<char>;

/// `str::to_lowercase`: the lowercase form of `s` under Unicode case mapping.
#[verifier::external_body]
pub(crate) fn to_lowercase_str(s: &str) -> (r: String)
    ensures
        r@ == lowercase(s@),
{
    s.to_lowercase()
}

/// The views of a sequence of strings.
pub open spec fn strs(v: Seq<String>) -> Seq<Seq<char>> {
    v.map_values(|s: String| s@)
}

// ---------------------------------------------------------------- trimming

pub open spec fn trim_start_seq(s: Seq<char>) -> Seq<char>
    decreases s.len(),
{
    if s.len() > 0 && is_ws(s[0]) {
        trim_start_seq(s.drop_first())
    } else {
        s
    }
}

pub open spec fn trim_end_seq(s: Seq<char>) -> Seq<char>
    decreases s.len(),
{
    if s.len() > 0 && is_ws(s.last()) {
        trim_end_seq(s.drop_last())
    } else {
        s
    }
}

/// `str::trim`: `s` without leading and trailing white space.
pub open spec fn trim_seq(s: Seq<char>) -> Seq<char> {
    trim_end_seq(trim_start_seq(s))
}

/// Index bounds `(i, j)` such that `trim_seq(v) == v[i..j]`.
pub fn trim_bounds(v: &[char]) -> (r: (usize, usize))
    ensures
        r.0 <= r.1 <= v@.len(),
        trim_seq(v@) == v@.subrange(r.0 as int, r.1 as int),
        r.0 < r.1 ==> !is_ws(v@[r.0 as int]) && !is_ws(v@[r.1 - 1]),
        forall|k: int| 0 <= k < r.0 ==> is_ws(#[trigger] v@[k]),
        forall|k: int| r.1 <= k < v@.len() ==> is_ws(#[trigger] v@[k]),
{
    let n = v.len();
    let mut i: usize = 0;
    assert(v@.subrange(0, n as int) =~= v@);
    while i < n && is_whitespace_char(v[i])
        invariant
            i <= n,
            n == v@.len(),
            trim_start_seq(v@) == trim_start_seq(v@.subrange(i as int, n as int)),
            forall|k: int| 0 <= k < i ==> is_ws(#[trigger] v@[k]),
        decreases n - i,
    {
        assert(v@.subrange(i as int, n as int).drop_first() =~= v@.subrange(i + 1, n as int));
        i = i + 1;
    }
    assert(trim_start_seq(v@) == v@.subrange(i as int, n as int));
    let mut j: usize = n;
    while j > i && is_whitespace_char(v[j - 1])
        invariant
            i <= j <= n,
            n == v@.len(),
            trim_seq(v@) == trim_end_seq(v@.subrange(i as int, j as int)),
            forall|k: int| j <= k < n ==> is_ws(#[trigger] v@[k]),
        decreases j,
    {
        assert(v@.subrange(i as int, j as int).drop_last() =~= v@.subrange(i as int, j - 1));
        j = j - 1;
    }
    (i, j)
}

/// Length of `v` without its trailing white space.
pub fn trim_end_len(v: &[char]) -> (j: usize)
    ensures
        j <= v@.len(),
        trim_end_seq(v@) == v@.subrange(0, j as int),
{
    let mut j: usize = v.len();
    assert(v@.subrange(0, j as int) =~= v@);
    while j > 0 && is_whitespace_char(v[j - 1])
        invariant
            j <= v@.len(),
            trim_end_seq(v@) == trim_end_seq(v@.subrange(0, j as int)),
        decreases j,
    {
        assert(v@.subrange(0, j as int).drop_last() =~= v@.subrange(0, j - 1));
        j = j - 1;
    }
    j
}

/// `str::trim`, returning an owned string.
pub fn trim_str(s: &str) -> (r: String)
    ensures
        r@ == trim_seq(s@),
{
    let v = chars_of(s);
    let (i, j) = trim_bounds(v.as_slice());
    string_from_chars(&v.as_slice()[i..j])
}

/// `str::trim(s).is_empty()`: `s` holds only white space.
pub fn is_blank(s: &str) -> (r: bool)
    ensures
        r == (trim_seq(s@).len() == 0),
        r == (forall|k: int| 0 <= k < s@.len() ==> is_ws(#[trigger] s@[k])),
{
    let v = chars_of(s);
    let (i, j) = trim_bounds(v.as_slice());
    if i < j {
        assert(!is_ws(v@[i as int]));
    }
    i == j
}

pub proof fn lemma_trim_idempotent(s: Seq<char>)
    ensures
        trim_seq(trim_seq(s)) == trim_seq(s),
{
    lemma_trim_start_shape(s);
    lemma_trim_end_shape(trim_start_seq(s));
    let t = trim_seq(s);
    if t.len() > 0 {
        assert(!is_ws(t[0]));
        assert(!is_ws(t.last()));
    }
    assert(trim_start_seq(t) == t);
    assert(trim_end_seq(t) == t);
}

/// `trim_start_seq(s)` is a suffix of `s` that does not start with white space.
pub proof fn lemma_trim_start_shape(s: Seq<char>)
    ensures
        trim_start_seq(s).len() <= s.len(),
        trim_start_seq(s) == s.subrange(s.len() - trim_start_seq(s).len(), s.len() as int),
        trim_start_seq(s).len() > 0 ==> !is_ws(trim_start_seq(s)[0]),
        trim_start_seq(trim_start_seq(s)) == trim_start_seq(s),
    decreases s.len(),
{
    if s.len() > 0 && is_ws(s[0]) {
        lemma_trim_start_shape(s.drop_first());
        assert(s.drop_first().subrange(
            s.drop_first().len() - trim_start_seq(s).len(),
            s.drop_first().len() as int,
        ) =~= s.subrange(s.len() - trim_start_seq(s).len(), s.len() as int));
    } else {
        assert(s.subrange(0, s.len() as int) =~= s);
    }
}

/// `trim_end_seq(s)` is a prefix of `s` that does not end with white space,
/// and trimming the end keeps a clean start clean.
pub proof fn lemma_trim_end_shape(s: Seq<char>)
    ensures
        trim_end_seq(s).len() <= s.len(),
        trim_end_seq(s) == s.subrange(0, trim_end_seq(s).len() as int),
        trim_end_seq(s).len() > 0 ==> !is_ws(trim_end_seq(s).last()),
        trim_end_seq(s).len() > 0 && s.len() > 0 ==> trim_end_seq(s)[0] == s[0],
    decreases s.len(),
{
    if s.len() > 0 && is_ws(s.last()) {
        lemma_trim_end_shape(s.drop_last());
        assert(s.drop_last().subrange(0, trim_end_seq(s).len() as int) =~= s.subrange(
            0,
            trim_end_seq(s).len() as int,
        ));
    } else {
        assert(s.subrange(0, s.len() as int) =~= s);
    }
}

// ---------------------------------------------------------------- splitting

/// Left-to-right split of `s` into maximal runs of characters for which
/// `sep` is false: the runs completed so far and the run in progress.
pub open spec fn split_runs(s: Seq<char>, sep: spec_fn(char) -> bool) -> (Seq<Seq<char>>, Seq<char>)
    decreases s.len(),
{
    if s.len() == 0 {
        (Seq::empty(), Seq::empty())
    } else {
        let (done, cur) = split_runs(s.drop_last(), sep);
        if sep(s.last()) {
            if cur.len() > 0 {
                (done.push(cur), Seq::empty())
            } else {
                (done, Seq::empty())
            }
        } else {
            (done, cur.push(s.last()))
        }
    }
}

/// The maximal non-empty runs of `s` that contain no separator, in order.
pub open spec fn runs(s: Seq<char>, sep: spec_fn(char) -> bool) -> Seq<Seq<char>> {
    let (done, cur) = split_runs(s, sep);
    if cur.len() > 0 {
        done.push(cur)
    } else {
        done
    }
}

/// Splitting continued from `state` over `b`.
pub open spec fn split_from(
    state: (Seq<Seq<char>>, Seq<char>),
    b: Seq<char>,
    sep: spec_fn(char) -> bool,
) -> (Seq<Seq<char>>, Seq<char>)
    decreases b.len(),
{
    if b.len() == 0 {
        state
    } else {
        let (done, cur) = split_from(state, b.drop_last(), sep);
        if sep(b.last()) {
            if cur.len() > 0 {
                (done.push(cur), Seq::empty())
            } else {
                (done, Seq::empty())
            }
        } else {
            (done, cur.push(b.last()))
        }
    }
}

proof fn lemma_split_concat(a: Seq<char>, b: Seq<char>, sep: spec_fn(char) -> bool)
    ensures
        split_runs(a + b, sep) == split_from(split_runs(a, sep), b, sep),
    decreases b.len(),
{
    if b.len() == 0 {
        assert(a + b =~= a);
    } else {
        lemma_split_concat(a, b.drop_last(), sep);
        assert((a + b).drop_last() =~= a + b.drop_last());
        assert((a + b).last() == b.last());
    }
}

proof fn lemma_split_from_fresh(done: Seq<Seq<char>>, b: Seq<char>, sep: spec_fn(char) -> bool)
    ensures
        split_from((done, Seq::empty()), b, sep) == (done + split_runs(b, sep).0, split_runs(b, sep).1),
    decreases b.len(),
{
    if b.len() == 0 {
        assert(done + Seq::<Seq<char>>::empty() =~= done);
    } else {
        lemma_split_from_fresh(done, b.drop_last(), sep);
        let (d, c) = split_runs(b.drop_last(), sep);
        assert((done + d).push(c) =~= done + d.push(c));
    }
}

/// When `a` is empty or ends with a separator, the runs of `a + b` are the
/// runs of `a` followed by those of `b`.
pub proof fn lemma_runs_concat(a: Seq<char>, b: Seq<char>, sep: spec_fn(char) -> bool)
    requires
        a.len() == 0 || sep(a.last()),
    ensures
        runs(a + b, sep) == runs(a, sep) + runs(b, sep),
{
    lemma_split_concat(a, b, sep);
    if a.len() > 0 {
        assert(split_runs(a, sep).1.len() == 0);
    } else {
        assert(split_runs(a, sep).0.len() == 0);
    }
    lemma_split_from_fresh(split_runs(a, sep).0, b, sep);
    let (d, c) = split_runs(b, sep);
    if c.len() > 0 {
        assert((split_runs(a, sep).0 + d).push(c) =~= split_runs(a, sep).0 + d.push(c));
    }
}

/// Ending a text with a separator leaves its runs as they are.
pub proof fn lemma_runs_close(p: Seq<char>, c: char, sep: spec_fn(char) -> bool)
    requires
        sep(c),
    ensures
        runs(p.push(c), sep) == runs(p, sep),
{
    assert(p.push(c).drop_last() =~= p);
}

pub open spec fn ws_sep() -> spec_fn(char) -> bool {
    |c: char| is_ws(c)
}

/// `str::split_whitespace`: the white-space-separated words of `s`.
pub open spec fn words(s: Seq<char>) -> Seq<Seq<char>> {
    runs(s, ws_sep())
}

/// Every run is non-empty and holds no separator.
pub proof fn lemma_runs_shape(s: Seq<char>, sep: spec_fn(char) -> bool)
    ensures
        forall|i: int|
            0 <= i < split_runs(s, sep).0.len() ==> #[trigger] split_runs(s, sep).0[i].len() > 0,
        forall|i: int, k: int|
            0 <= i < split_runs(s, sep).0.len() && 0 <= k < split_runs(s, sep).0[i].len()
                ==> !sep(#[trigger] split_runs(s, sep).0[i][k]),
        forall|k: int| 0 <= k < split_runs(s, sep).1.len() ==> !sep(#[trigger] split_runs(s, sep).1[k]),
        forall|i: int| 0 <= i < runs(s, sep).len() ==> #[trigger] runs(s, sep)[i].len() > 0,
        forall|i: int, k: int|
            0 <= i < runs(s, sep).len() && 0 <= k < runs(s, sep)[i].len() ==> !sep(
                #[trigger] runs(s, sep)[i][k],
            ),
    decreases s.len(),
{
    if s.len() > 0 {
        lemma_runs_shape(s.drop_last(), sep);
        let (done, cur) = split_runs(s.drop_last(), sep);
        let c = s.last();
        if sep(c) {
            if cur.len() > 0 {
                let d2 = done.push(cur);
                assert forall|i: int| 0 <= i < d2.len() implies #[trigger] d2[i].len() > 0 by {
                    if i < done.len() {
                        assert(d2[i] == done[i]);
                    }
                }
                assert forall|i: int, k: int| 0 <= i < d2.len() && 0 <= k < d2[i].len() implies !sep(
                    #[trigger] d2[i][k],
                ) by {
                    if i < done.len() {
                        assert(d2[i] == done[i]);
                    }
                }
            }
        } else {
            let c2 = cur.push(c);
            assert forall|k: int| 0 <= k < c2.len() implies !sep(#[trigger] c2[k]) by {
                if k < cur.len() {
                    assert(c2[k] == cur[k]);
                }
            }
        }
    }
    let (done, cur) = split_runs(s, sep);
    if cur.len() > 0 {
        let d2 = done.push(cur);
        assert forall|i: int| 0 <= i < d2.len() implies #[trigger] d2[i].len() > 0 by {
            if i < done.len() {
                assert(d2[i] == done[i]);
            }
        }
        assert forall|i: int, k: int| 0 <= i < d2.len() && 0 <= k < d2[i].len() implies !sep(
            #[trigger] d2[i][k],
        ) by {
            if i < done.len() {
                assert(d2[i] == done[i]);
            }
        }
    }
}

/// What `char::is_alphanumeric` returns: the Unicode `Alphabetic` or
/// `Numeric` property of `c`.
pub uninterp spec fn is_alnum(c: char) -> bool;

/// `char::is_alphanumeric`.
#[verifier::external_body]
pub(crate) fn is_alphanumeric_char(c: char) -> (r: bool)
    ensures
        r == is_alnum(c),
{
    c.is_alphanumeric()
}

/// Separator of the runs that `text.split(|ch| !ch.is_alphanumeric())` keeps.
proof fn lemma_split_without_separator(w: Seq<char>)
    requires
        forall|k: int| 0 <= k < w.len() ==> !is_ws(#[trigger] w[k]),
    ensures
        split_runs(w, ws_sep()) == (Seq::<Seq<char>>::empty(), w),
    decreases w.len(),
{
    if w.len() > 0 {
        assert forall|k: int| 0 <= k < w.drop_last().len() implies !is_ws(#[trigger] w.drop_last()[k]) by {
            assert(w.drop_last()[k] == w[k]);
        }
        lemma_split_without_separator(w.drop_last());
        assert(w.drop_last().push(w.last()) =~= w);
    }
}

/// A non-empty text without white space is one word, which white-space
/// normalization leaves as it is.
pub proof fn lemma_clean_word(w: Seq<char>)
    requires
        w.len() > 0,
        forall|k: int| 0 <= k < w.len() ==> !is_ws(#[trigger] w[k]),
    ensures
        words(w) == seq![w],
        normalize_ws_seq(w) == w,
{
    lemma_split_without_separator(w);
    assert(words(w) =~= seq![w]);
}

pub open spec fn alnum_sep() -> spec_fn(char) -> bool {
    |c: char| !is_alnum(c)
}

pub open spec fn sep_for(ws_mode: bool) -> spec_fn(char) -> bool {
    if ws_mode {
        ws_sep()
    } else {
        alnum_sep()
    }
}

/// The maximal runs of `s` free of separators: white space when `ws_mode`,
/// otherwise every non-alphanumeric character.
pub fn split_runs_of(s: &str, ws_mode: bool) -> (r: Vec<String>)
    ensures
        strs(r@) == runs(s@, sep_for(ws_mode)),
{
    let v = chars_of(s);
    let mut done: Vec<String> = Vec::new();
    let mut cur: Vec<char> = Vec::new();
    let mut i: usize = 0;
    while i < v.len()
        invariant
            0 <= i <= v@.len(),
            v@ == s@,
            (strs(done@), cur@) == split_runs(v@.take(i as int), sep_for(ws_mode)),
        decreases v@.len() - i,
    {
        let c = v[i];
        assert(v@.take(i + 1).drop_last() =~= v@.take(i as int));
        assert(v@.take(i + 1).last() == c);
        let is_sep = if ws_mode {
            is_whitespace_char(c)
        } else {
            !is_alphanumeric_char(c)
        };
        assert(is_sep == (sep_for(ws_mode))(c));
        if is_sep {
            if cur.len() > 0 {
                let w = string_from_chars(cur.as_slice());
                let ghost prev = done@;
                done.push(w);
                assert(strs(done@) =~= strs(prev).push(w@));
            }
            cur = Vec::new();
        } else {
            cur.push(c);
        }
        i = i + 1;
    }
    assert(v@.take(v@.len() as int) =~= v@);
    if cur.len() > 0 {
        let w = string_from_chars(cur.as_slice());
        let ghost prev = done@;
        done.push(w);
        assert(strs(done@) =~= strs(prev).push(w@));
    }
    done
}

/// `str::split_whitespace`, collected.
pub fn split_whitespace(s: &str) -> (r: Vec<String>)
    ensures
        strs(r@) == words(s@),
{
    split_runs_of(s, true)
}

// ---------------------------------------------------------------- joining

/// The parts, in order, with `sep` between neighbours.
pub open spec fn join(parts: Seq<Seq<char>>, sep: Seq<char>) -> Seq<char>
    decreases parts.len(),
{
    if parts.len() == 0 {
        Seq::empty()
    } else if parts.len() == 1 {
        parts[0]
    } else {
        join(parts.drop_last(), sep) + sep + parts.last()
    }
}

/// `parts.join(sep)`.
pub fn join_strings(parts: &Vec<String>, sep: &str) -> (r: String)
    ensures
        r@ == join(strs(parts@), sep@),
{
    let mut out = String::new();
    let mut i: usize = 0;
    while i < parts.len()
        invariant
            0 <= i <= parts@.len(),
            out@ == join(strs(parts@).take(i as int), sep@),
        decreases parts@.len() - i,
    {
        assert(strs(parts@).take(i + 1).drop_last() =~= strs(parts@).take(i as int));
        assert(strs(parts@).take(i + 1).last() == parts@[i as int]@);
        if i > 0 {
            out.append(sep);
        }
        out.append(parts[i].as_str());
        if i == 0 {
            assert(out@ =~= strs(parts@).take(1)[0]);
        }
        i = i + 1;
    }
    assert(strs(parts@).take(parts@.len() as int) =~= strs(parts@));
    out
}

// ---------------------------------------------------------------- normalization

/// White space collapsed: the words of `s` joined by single spaces.
pub open spec fn normalize_ws_seq(s: Seq<char>) -> Seq<char> {
    join(words(s), seq![' '])
}

/// `text.split_whitespace().join(" ")`.
pub fn normalize_whitespace(text: &str) -> (r: String)
    ensures
        r@ == normalize_ws_seq(text@),
{
    let parts = split_whitespace(text);
    let sep = string_from_chars(&[' ']);
    assert(sep@ =~= seq![' ']);
    join_strings(&parts, sep.as_str())
}

/// Lowercased, white-space-normalized text used for matching.
pub open spec fn match_text(s: Seq<char>) -> Seq<char> {
    lowercase(normalize_ws_seq(s))
}

/// `normalize_whitespace(text).to_lowercase()`.
pub fn normalize_match_text(text: &str) -> (r: String)
    ensures
        r@ == match_text(text@),
{
    let n = normalize_whitespace(text);
    to_lowercase_str(n.as_str())
}

/// A normalized optional string: `None` when absent or blank.
pub open spec fn normalize_opt_seq(value: Option<Seq<char>>) -> Option<Seq<char>> {
    match value {
        Some(s) => if normalize_ws_seq(s).len() > 0 {
            Some(normalize_ws_seq(s))
        } else {
            None
        },
        None => None,
    }
}

pub open spec fn opt_view(value: Option<String>) -> Option<Seq<char>> {
    match value {
        Some(s) => Some(s@),
        None => None,
    }
}

/// `value.map(normalize_whitespace).filter(|v| !v.is_empty())`.
pub fn normalize_optional_string(value: Option<&str>) -> (r: Option<String>)
    ensures
        opt_view(r) == normalize_opt_seq(
            match value {
                Some(s) => Some(s@),
                None => None,
            },
        ),
{
    match value {
        Some(s) => {
            let n = normalize_whitespace(s);
            if n.as_str().is_empty() {
                None
            } else {
                Some(n)
            }
        },
        None => None,
    }
}

// ---------------------------------------------------------------- truncation

/// At most `max` characters of `s`, marked with `...` when cut.
pub open spec fn truncate_seq(s: Seq<char>, max: nat) -> Seq<char> {
    if s.len() <= max {
        s
    } else {
        s.take(max as int) + seq!['.', '.', '.']
    }
}

/// The first `max_chars` characters of `text`, followed by `...` when
/// `text` is longer.
pub fn truncate_chars(text: &str, max_chars: usize) -> (r: String)
    ensures
        r@ == truncate_seq(text@, max_chars as nat),
{
    let v = chars_of(text);
    if v.len() <= max_chars {
        return string_from_chars(v.as_slice());
    }
    let mut out: Vec<char> = Vec::new();
    let mut i: usize = 0;
    while i < max_chars
        invariant
            i <= max_chars < v@.len(),
            out@ == v@.take(i as int),
        decreases max_chars - i,
    {
        out.push(v[i]);
        assert(out@ =~= v@.take(i + 1));
        i = i + 1;
    }
    out.push('.');
    out.push('.');
    out.push('.');
    assert(out@ =~= v@.take(max_chars as int) + seq!['.', '.', '.']);
    string_from_chars(out.as_slice())
}

/// A truncated text never exceeds its limit by more than the marker.
pub proof fn lemma_truncate_len(s: Seq<char>, max: nat)
    ensures
        truncate_seq(s, max).len() <= max + 3,
        s.len() <= max ==> truncate_seq(s, max) == s,
        s.len() > max ==> truncate_seq(s, max).take(max as int) == s.take(max as int),
{
    if s.len() > max {
        assert(truncate_seq(s, max).take(max as int) =~= s.take(max as int));
    }
}

} // verus!

verus! {

// ---------------------------------------------------------------- numbers

/// The decimal digit for `d < 10`.
pub open spec fn digit_char(d: nat) -> char {
    if d == 0 { '0' } else if d == 1 { '1' } else if d == 2 { '2' } else if d == 3 { '3' }
    else if d == 4 { '4' } else if d == 5 { '5' } else if d == 6 { '6' } else if d == 7 { '7' }
    else if d == 8 { '8' } else { '9' }
}

/// The decimal notation of `n`, as `format!("{n}")` writes it.
pub open spec fn decimal(n: nat) -> Seq<char>
    decreases n,
{
    if n < 10 {
        seq![digit_char(n)]
    } else {
        decimal(n / 10).push(digit_char(n % 10))
    }
}

fn digit_of(d: u64) -> (c: char)
    requires
        d < 10,
    ensures
        c == digit_char(d as nat),
{
    if d == 0 { '0' } else if d == 1 { '1' } else if d == 2 { '2' } else if d == 3 { '3' }
    else if d == 4 { '4' } else if d == 5 { '5' } else if d == 6 { '6' } else if d == 7 { '7' }
    else if d == 8 { '8' } else { '9' }
}

/// `format!("{n}")` for an unsigned integer.
pub fn u64_to_decimal(n: u64) -> (r: String)
    ensures
        r@ == decimal(n as nat),
    decreases n,
{
    if n < 10 {
        let c = digit_of(n);
        string_from_chars(&[c])
    } else {
        let mut s = u64_to_decimal(n / 10);
        let c = digit_of(n % 10);
        let tail = string_from_chars(&[c]);
        s.append(tail.as_str());
        assert(tail@ =~= seq![c]);
        assert(s@ =~= decimal(n as nat / 10).push(c));
        s
    }
}

/// `format!("{n}")` for a `usize`.
pub fn usize_to_decimal(n: usize) -> (r: String)
    ensures
        r@ == decimal(n as nat),
{
    u64_to_decimal(n as u64)
}

/// `a + b` on strings.
pub fn concat_str(a: &str, b: &str) -> (r: String)
    ensures
        r@ == a@ + b@,
{
    let mut s = String::new();
    s.append(a);
    s.append(b);
    s
}

/// Whether a text has characters.
pub fn is_empty_str(s: &str) -> (r: bool)
    ensures
        r == (s@.len() == 0),
{
    chars_of(s).len() == 0
}

/// Number of characters of `s`: `s.chars().count()`.
pub fn char_count(s: &str) -> (r: usize)
    ensures
        r == s@.len(),
{
    chars_of(s).len()
}

} // verus!
