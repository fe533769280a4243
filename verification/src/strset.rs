//! Ordered sets of strings held in a `Vec<String>` kept strictly sorted by
//! the code-point order that `String`'s `Ord` uses (byte order of UTF-8).
use vstd::prelude::*;
use crate::text::{chars_of, strs};

verus! {

/// Lexicographic order on character sequences by code point.
pub open spec fn lex_lt(a: Seq<char>, b: Seq<char>) -> bool
    decreases a.len(),
{
    if a.len() == 0 {
        b.len() > 0
    } else if b.len() == 0 {
        false
    } else if a[0] != b[0] {
        a[0] < b[0]
    } else {
        lex_lt(a.drop_first(), b.drop_first())
    }
}

/// Strictly increasing: sorted and free of duplicates.
pub open spec fn sorted_set(s: Seq<Seq<char>>) -> bool {
    forall|i: int, j: int| 0 <= i < j < s.len() ==> lex_lt(#[trigger] s[i], #[trigger] s[j])
}

pub proof fn lemma_lex_irrefl(a: Seq<char>)
    ensures
        !lex_lt(a, a),
    decreases a.len(),
{
    if a.len() > 0 {
        lemma_lex_irrefl(a.drop_first());
    }
}

pub proof fn lemma_lex_trans(a: Seq<char>, b: Seq<char>, c: Seq<char>)
    requires
        lex_lt(a, b),
        lex_lt(b, c),
    ensures
        lex_lt(a, c),
    decreases a.len(),
{
    if a.len() > 0 && b.len() > 0 && c.len() > 0 && a[0] == b[0] && b[0] == c[0] {
        lemma_lex_trans(a.drop_first(), b.drop_first(), c.drop_first());
    }
}

pub proof fn lemma_lex_total(a: Seq<char>, b: Seq<char>)
    requires
        a != b,
    ensures
        lex_lt(a, b) || lex_lt(b, a),
    decreases a.len(),
{
    if a.len() > 0 && b.len() > 0 && a[0] == b[0] {
        if a.drop_first() == b.drop_first() {
            assert(a =~= seq![a[0]] + a.drop_first());
            assert(b =~= seq![b[0]] + b.drop_first());
        }
        lemma_lex_total(a.drop_first(), b.drop_first());
    } else if a.len() == 0 && b.len() == 0 {
        assert(a =~= b);
    } else if a.len() > 0 && b.len() > 0 {
        assert(a[0] < b[0] || b[0] < a[0]);
    }
}

pub proof fn lemma_lex_asym(a: Seq<char>, b: Seq<char>)
    requires
        lex_lt(a, b),
    ensures
        !lex_lt(b, a),
{
    if lex_lt(b, a) {
        lemma_lex_trans(a, b, a);
        lemma_lex_irrefl(a);
    }
}

/// Whether `a` sorts strictly before `b` in `String`'s order.
pub fn lex_less(a: &str, b: &str) -> (r: bool)
    ensures
        r == lex_lt(a@, b@),
{
    let va = chars_of(a);
    let vb = chars_of(b);
    let mut i: usize = 0;
    assert(va@.skip(0) =~= va@);
    assert(vb@.skip(0) =~= vb@);
    while i < va.len() && i < vb.len()
        invariant
            i <= va@.len(),
            i <= vb@.len(),
            va@ == a@,
            vb@ == b@,
            lex_lt(va@, vb@) == lex_lt(va@.skip(i as int), vb@.skip(i as int)),
        decreases va@.len() - i,
    {
        let ca = va[i];
        let cb = vb[i];
        assert(va@.skip(i as int)[0] == ca);
        assert(vb@.skip(i as int)[0] == cb);
        if ca != cb {
            assert(va@.skip(i as int).len() > 0 && vb@.skip(i as int).len() > 0);
            assert(lex_lt(va@.skip(i as int), vb@.skip(i as int)) == (ca < cb));
            return ca < cb;
        }
        assert(va@.skip(i as int).drop_first() =~= va@.skip(i + 1));
        assert(vb@.skip(i as int).drop_first() =~= vb@.skip(i + 1));
        i = i + 1;
    }
    i == va.len() && i < vb.len()
}

/// `a == b` on string contents.
pub fn str_eq(a: &str, b: &str) -> (r: bool)
    ensures
        r == (a@ == b@),
{
    let va = chars_of(a);
    let vb = chars_of(b);
    if va.len() != vb.len() {
        return false;
    }
    let mut i: usize = 0;
    while i < va.len()
        invariant
            i <= va@.len(),
            va@.len() == vb@.len(),
            va@ == a@,
            vb@ == b@,
            forall|k: int| 0 <= k < i ==> va@[k] == vb@[k],
        decreases va@.len() - i,
    {
        if va[i] != vb[i] {
            return false;
        }
        i = i + 1;
    }
    assert(va@ =~= vb@);
    true
}

/// Whether `v` holds a string equal to `x`.
pub fn contains_str(v: &Vec<String>, x: &str) -> (r: bool)
    ensures
        r == strs(v@).contains(x@),
{
    let mut i: usize = 0;
    while i < v.len()
        invariant
            i <= v@.len(),
            forall|k: int| 0 <= k < i ==> strs(v@)[k] != x@,
        decreases v@.len() - i,
    {
        if str_eq(v[i].as_str(), x) {
            assert(strs(v@)[i as int] == x@);
            return true;
        }
        i = i + 1;
    }
    false
}

/// Adds `x` to the sorted set `v`: `BTreeSet::insert` on a sorted vector.
pub fn insert_sorted(v: &mut Vec<String>, x: String)
    requires
        sorted_set(strs(old(v)@)),
    ensures
        sorted_set(strs(final(v)@)),
        strs(final(v)@).to_set() == strs(old(v)@).to_set().insert(x@),
{
    let ghost old_s = strs(v@);
    let mut p: usize = 0;
    while p < v.len() && lex_less(v[p].as_str(), x.as_str())
        invariant
            p <= v@.len(),
            strs(v@) == old_s,
            sorted_set(old_s),
            forall|k: int| 0 <= k < p ==> lex_lt(#[trigger] old_s[k], x@),
        decreases v@.len() - p,
    {
        p = p + 1;
    }
    if p < v.len() && str_eq(v[p].as_str(), x.as_str()) {
        assert(old_s.to_set().insert(x@) =~= old_s.to_set()) by {
            assert(old_s[p as int] == x@);
        }
        return;
    }
    proof {
        if p < old_s.len() {
            lemma_lex_total(old_s[p as int], x@);
            assert(lex_lt(x@, old_s[p as int]));
        }
    }
    let ghost xv = x@;
    v.insert(p, x);
    let ghost new_s = strs(v@);
    assert(new_s =~= old_s.take(p as int).push(xv) + old_s.skip(p as int)) by {
        assert forall|k: int| 0 <= k < new_s.len() implies new_s[k] == (old_s.take(p as int).push(xv)
            + old_s.skip(p as int))[k] by {
            if k < p {
            } else if k == p {
            } else {
            }
        }
    }
    assert forall|i: int, j: int| 0 <= i < j < new_s.len() implies lex_lt(
        #[trigger] new_s[i],
        #[trigger] new_s[j],
    ) by {
        if j < p {
            assert(new_s[i] == old_s[i] && new_s[j] == old_s[j]);
        } else if j == p {
            assert(new_s[i] == old_s[i]);
        } else if i < p {
            assert(new_s[i] == old_s[i] && new_s[j] == old_s[j - 1]);
            assert(lex_lt(old_s[i], xv));
            assert(lex_lt(xv, old_s[p as int]));
            if j - 1 > p {
                assert(lex_lt(old_s[p as int], old_s[j - 1]));
                lemma_lex_trans(xv, old_s[p as int], old_s[j - 1]);
            }
            lemma_lex_trans(old_s[i], xv, old_s[j - 1]);
        } else if i == p {
            assert(new_s[j] == old_s[j - 1]);
            if j - 1 > p {
                assert(lex_lt(old_s[p as int], old_s[j - 1]));
                lemma_lex_trans(xv, old_s[p as int], old_s[j - 1]);
            }
        } else {
            assert(new_s[i] == old_s[i - 1] && new_s[j] == old_s[j - 1]);
        }
    }
    assert(new_s.to_set() =~= old_s.to_set().insert(xv)) by {
        assert forall|y: Seq<char>| new_s.to_set().contains(y) implies old_s.to_set().insert(
            xv,
        ).contains(y) by {
            let k = choose|k: int| 0 <= k < new_s.len() && new_s[k] == y;
            if k < p {
                assert(old_s[k] == y);
            } else if k > p {
                assert(old_s[k - 1] == y);
            }
        }
        assert forall|y: Seq<char>| old_s.to_set().insert(xv).contains(y) implies new_s.to_set().contains(
            y,
        ) by {
            if y == xv {
                assert(new_s[p as int] == y);
            } else {
                let k = choose|k: int| 0 <= k < old_s.len() && old_s[k] == y;
                if k < p {
                    assert(new_s[k] == y);
                } else {
                    assert(new_s[k + 1] == y);
                }
            }
        }
    }
}

/// Two strictly sorted sequences with the same elements are equal: a sorted
/// set is determined by its contents.
pub proof fn lemma_sorted_set_unique(a: Seq<Seq<char>>, b: Seq<Seq<char>>)
    requires
        sorted_set(a),
        sorted_set(b),
        a.to_set() == b.to_set(),
    ensures
        a == b,
    decreases a.len(),
{
    if a.len() == 0 {
        if b.len() > 0 {
            assert(b.to_set().contains(b[0]));
        }
        assert(a =~= b);
    } else if b.len() == 0 {
        assert(a.to_set().contains(a[0]));
    } else {
        // The smallest elements agree.
        assert(a.to_set().contains(a[0]));
        let kb = choose|k: int| 0 <= k < b.len() && b[k] == a[0];
        assert(b.to_set().contains(b[0]));
        let ka = choose|k: int| 0 <= k < a.len() && a[k] == b[0];
        if kb > 0 {
            assert(lex_lt(b[0], b[kb]));
            if ka > 0 {
                assert(lex_lt(a[0], a[ka]));
                lemma_lex_asym(a[0], b[0]);
            } else {
                lemma_lex_irrefl(a[0]);
            }
        }
        assert(a[0] == b[0]);
        let ta = a.drop_first();
        let tb = b.drop_first();
        assert forall|i: int, j: int| 0 <= i < j < ta.len() implies lex_lt(#[trigger] ta[i], #[trigger] ta[j]) by {
            assert(ta[i] == a[i + 1] && ta[j] == a[j + 1]);
        }
        assert forall|i: int, j: int| 0 <= i < j < tb.len() implies lex_lt(#[trigger] tb[i], #[trigger] tb[j]) by {
            assert(tb[i] == b[i + 1] && tb[j] == b[j + 1]);
        }
        assert(ta.to_set() =~= tb.to_set()) by {
            assert forall|y: Seq<char>| ta.to_set().contains(y) implies tb.to_set().contains(y) by {
                let k = choose|k: int| 0 <= k < ta.len() && ta[k] == y;
                assert(a[k + 1] == y);
                assert(lex_lt(a[0], a[k + 1]));
                assert(b.to_set().contains(y));
                let m = choose|m: int| 0 <= m < b.len() && b[m] == y;
                if m == 0 {
                    lemma_lex_irrefl(y);
                }
                assert(tb[m - 1] == y);
            }
            assert forall|y: Seq<char>| tb.to_set().contains(y) implies ta.to_set().contains(y) by {
                let k = choose|k: int| 0 <= k < tb.len() && tb[k] == y;
                assert(b[k + 1] == y);
                assert(lex_lt(b[0], b[k + 1]));
                assert(a.to_set().contains(y));
                let m = choose|m: int| 0 <= m < a.len() && a[m] == y;
                if m == 0 {
                    lemma_lex_irrefl(y);
                }
                assert(ta[m - 1] == y);
            }
        }
        lemma_sorted_set_unique(ta, tb);
        assert(a =~= seq![a[0]] + ta);
        assert(b =~= seq![b[0]] + tb);
    }
}

} // verus!
