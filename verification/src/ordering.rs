//! Ordering keys made of numbers and texts, the order `f64::total_cmp`
//! gives a value, and a stable sort of item positions by their keys.

use vstd::prelude::*;

use crate::strset::{lemma_lex_irrefl, lemma_lex_total, lemma_lex_trans, lex_less, lex_lt, str_eq};

verus! {

/// One component of an ordering key.
#[derive(Debug)]
pub enum KeyPart {
    /// A number, smaller first.
    Ascending(u64),
    /// A number, larger first.
    Descending(u64),
    /// A text in `String` order, smaller first.
    TextAscending(String),
    /// A text in `String` order, larger first.
    TextDescending(String),
}

/// A key part as a value: its kind, its number and its text.
pub open spec fn part_view(p: KeyPart) -> (int, int, Seq<char>) {
    match p {
        KeyPart::Ascending(n) => (0, n as int, Seq::empty()),
        KeyPart::Descending(n) => (1, n as int, Seq::empty()),
        KeyPart::TextAscending(s) => (2, 0, s@),
        KeyPart::TextDescending(s) => (3, 0, s@),
    }
}

/// A key as a sequence of part values.
pub open spec fn key_view(k: Seq<KeyPart>) -> Seq<(int, int, Seq<char>)> {
    k.map_values(|p: KeyPart| part_view(p))
}

/// Whether part `a` comes strictly before part `b`: parts of different kinds
/// go by kind; numbers go up, or down for `Descending`; texts go in `String`
/// order, reversed for `TextDescending`.
pub open spec fn part_before(a: (int, int, Seq<char>), b: (int, int, Seq<char>)) -> bool {
    if a.0 != b.0 {
        a.0 < b.0
    } else if a.1 != b.1 {
        if a.0 == 1 {
            a.1 > b.1
        } else {
            a.1 < b.1
        }
    } else if a.0 == 3 {
        lex_lt(b.2, a.2)
    } else {
        lex_lt(a.2, b.2)
    }
}

/// Whether key `a` comes strictly before key `b`: the first part where they
/// differ decides, and a key that is a prefix of the other comes first.
pub open spec fn key_before(a: Seq<(int, int, Seq<char>)>, b: Seq<(int, int, Seq<char>)>) -> bool
    decreases a.len(),
{
    if a.len() == 0 {
        b.len() > 0
    } else if b.len() == 0 {
        false
    } else if a[0] != b[0] {
        part_before(a[0], b[0])
    } else {
        key_before(a.drop_first(), b.drop_first())
    }
}

proof fn lemma_part_irrefl(a: (int, int, Seq<char>))
    ensures
        !part_before(a, a),
{
    lemma_lex_irrefl(a.2);
}

proof fn lemma_part_trans(a: (int, int, Seq<char>), b: (int, int, Seq<char>), c: (int, int, Seq<char>))
    requires
        part_before(a, b),
        part_before(b, c),
    ensures
        part_before(a, c),
{
    if a.0 == b.0 && b.0 == c.0 && a.1 == b.1 && b.1 == c.1 {
        if a.0 == 3 {
            lemma_lex_trans(c.2, b.2, a.2);
        } else {
            lemma_lex_trans(a.2, b.2, c.2);
        }
    }
}

proof fn lemma_part_total(a: (int, int, Seq<char>), b: (int, int, Seq<char>))
    requires
        a != b,
    ensures
        part_before(a, b) || part_before(b, a),
{
    if a.0 == b.0 && a.1 == b.1 {
        assert(a.2 != b.2);
        lemma_lex_total(a.2, b.2);
    }
}

/// No key comes before itself.
pub proof fn lemma_key_irrefl(a: Seq<(int, int, Seq<char>)>)
    ensures
        !key_before(a, a),
    decreases a.len(),
{
    if a.len() > 0 {
        lemma_key_irrefl(a.drop_first());
    }
}

/// Coming before is transitive.
pub proof fn lemma_key_trans(a: Seq<(int, int, Seq<char>)>, b: Seq<(int, int, Seq<char>)>, c: Seq<(int, int, Seq<char>)>)
    requires
        key_before(a, b),
        key_before(b, c),
    ensures
        key_before(a, c),
    decreases a.len(),
{
    if a.len() > 0 && b.len() > 0 && c.len() > 0 {
        if a[0] == b[0] && b[0] == c[0] {
            lemma_key_trans(a.drop_first(), b.drop_first(), c.drop_first());
        } else if a[0] == b[0] {
        } else if b[0] == c[0] {
        } else {
            lemma_part_trans(a[0], b[0], c[0]);
            if a[0] == c[0] {
                lemma_part_irrefl(a[0]);
            }
        }
    }
}

/// Of two different keys, one comes before the other.
pub proof fn lemma_key_total(a: Seq<(int, int, Seq<char>)>, b: Seq<(int, int, Seq<char>)>)
    requires
        a != b,
    ensures
        key_before(a, b) || key_before(b, a),
    decreases a.len(),
{
    if a.len() > 0 && b.len() > 0 {
        if a[0] == b[0] {
            if a.drop_first() == b.drop_first() {
                assert(a =~= seq![a[0]] + a.drop_first());
                assert(b =~= seq![b[0]] + b.drop_first());
            }
            lemma_key_total(a.drop_first(), b.drop_first());
        } else {
            lemma_part_total(a[0], b[0]);
        }
    } else if a.len() == 0 && b.len() == 0 {
        assert(a =~= b);
    }
}

/// A key never comes both before and after another.
pub proof fn lemma_key_asym(a: Seq<(int, int, Seq<char>)>, b: Seq<(int, int, Seq<char>)>)
    requires
        key_before(a, b),
    ensures
        !key_before(b, a),
{
    if key_before(b, a) {
        lemma_key_trans(a, b, a);
        lemma_key_irrefl(a);
    }
}

// ---------------------------------------------------------------- float order

/// The place of an `f64`, given by its bits, in the order of
/// `f64::total_cmp`, as an unsigned number: negative values (sign bit set)
/// have all their bits flipped, the others gain the sign bit.
pub open spec fn total_order_key(bits: u64) -> u64 {
    if bits >= 0x8000_0000_0000_0000 {
        (0xffff_ffff_ffff_ffff - bits) as u64
    } else {
        (bits + 0x8000_0000_0000_0000) as u64
    }
}

/// The `f64::total_cmp` order key of a value given by its bits.
pub fn float_order_key(bits: u64) -> (r: u64)
    ensures
        r == total_order_key(bits),
{
    if bits >= 0x8000_0000_0000_0000 {
        0xffff_ffff_ffff_ffff - bits
    } else {
        bits + 0x8000_0000_0000_0000
    }
}

/// The `f32::total_cmp` order key of a value given by its bits: negative
/// values with all bits flipped, others with the sign bit set.
pub open spec fn total_order_key32(bits: u32) -> u64 {
    if bits >= 0x8000_0000 {
        (0xffff_ffff - bits) as u64
    } else {
        (bits + 0x8000_0000) as u64
    }
}

/// The `f32::total_cmp` order key of a value given by its bits.
pub fn float32_order_key(bits: u32) -> (r: u64)
    ensures
        r == total_order_key32(bits),
{
    if bits >= 0x8000_0000 {
        (0xffff_ffff - bits) as u64
    } else {
        bits as u64 + 0x8000_0000
    }
}

// ---------------------------------------------------------------- comparing

fn part_view_of(p: &KeyPart) -> (r: (u8, u64))
    ensures
        r.0 as int == part_view(*p).0,
        r.1 as int == part_view(*p).1,
{
    match p {
        KeyPart::Ascending(n) => (0, *n),
        KeyPart::Descending(n) => (1, *n),
        KeyPart::TextAscending(_) => (2, 0),
        KeyPart::TextDescending(_) => (3, 0),
    }
}

fn part_text(p: &KeyPart) -> (r: &str)
    ensures
        r@ == part_view(*p).2,
{
    match p {
        KeyPart::TextAscending(s) => s.as_str(),
        KeyPart::TextDescending(s) => s.as_str(),
        _ => {
            proof {
                reveal_strlit("");
            }
            ""
        },
    }
}

fn part_less(a: &KeyPart, b: &KeyPart) -> (r: bool)
    ensures
        r == part_before(part_view(*a), part_view(*b)),
{
    let (ka, na) = part_view_of(a);
    let (kb, nb) = part_view_of(b);
    if ka != kb {
        ka < kb
    } else if na != nb {
        if ka == 1 {
            na > nb
        } else {
            na < nb
        }
    } else {
        let ta = part_text(a);
        let tb = part_text(b);
        if ka == 3 {
            lex_less(tb, ta)
        } else {
            lex_less(ta, tb)
        }
    }
}

fn part_same(a: &KeyPart, b: &KeyPart) -> (r: bool)
    ensures
        r == (part_view(*a) == part_view(*b)),
{
    let (ka, na) = part_view_of(a);
    let (kb, nb) = part_view_of(b);
    if ka != kb || na != nb {
        false
    } else {
        str_eq(part_text(a), part_text(b))
    }
}

/// Whether key `a` comes strictly before key `b`.
pub fn key_less(a: &Vec<KeyPart>, b: &Vec<KeyPart>) -> (r: bool)
    ensures
        r == key_before(key_view(a@), key_view(b@)),
{
    let ghost ka = key_view(a@);
    let ghost kb = key_view(b@);
    let mut i: usize = 0;
    assert(ka.skip(0) =~= ka);
    assert(kb.skip(0) =~= kb);
    while i < a.len() && i < b.len()
        invariant
            i <= a@.len(),
            i <= b@.len(),
            ka == key_view(a@),
            kb == key_view(b@),
            key_before(ka, kb) == key_before(ka.skip(i as int), kb.skip(i as int)),
        decreases a@.len() - i,
    {
        assert(ka.skip(i as int)[0] == part_view(a@[i as int]));
        assert(kb.skip(i as int)[0] == part_view(b@[i as int]));
        if !part_same(&a[i], &b[i]) {
            return part_less(&a[i], &b[i]);
        }
        assert(ka.skip(i as int).drop_first() =~= ka.skip(i + 1));
        assert(kb.skip(i as int).drop_first() =~= kb.skip(i + 1));
        i = i + 1;
    }
    i < b.len()
}

// ---------------------------------------------------------------- sorting

/// Whether item `i` goes before item `j` when items are ordered by their
/// keys, and items with equal keys keep their positions.
pub open spec fn index_before(keys: Seq<Vec<KeyPart>>, i: int, j: int) -> bool {
    key_before(key_view(keys[i]@), key_view(keys[j]@)) || (key_view(keys[i]@) == key_view(keys[j]@)
        && i < j)
}

/// Whether the positions in `order` are listed by their keys, stably.
pub open spec fn sorted_by_keys(keys: Seq<Vec<KeyPart>>, order: Seq<usize>) -> bool {
    forall|a: int, b: int|
        0 <= a < b < order.len() ==> index_before(keys, #[trigger] order[a] as int, #[trigger] order[b] as int)
}

/// Whether `order` lists each position below `n` exactly once.
pub open spec fn lists_positions(order: Seq<usize>, n: nat) -> bool {
    &&& order.len() == n
    &&& forall|k: int| 0 <= k < order.len() ==> #[trigger] order[k] < n
    &&& forall|i: usize| i < n ==> #[trigger] order.contains(i)
    &&& order.no_duplicates()
}

/// Placing items by their keys is transitive.
pub proof fn lemma_index_before_trans(keys: Seq<Vec<KeyPart>>, a: int, b: int, c: int)
    requires
        index_before(keys, a, b),
        index_before(keys, b, c),
    ensures
        index_before(keys, a, c),
{
    let ka = key_view(keys[a]@);
    let kb = key_view(keys[b]@);
    let kc = key_view(keys[c]@);
    if key_before(ka, kb) && key_before(kb, kc) {
        lemma_key_trans(ka, kb, kc);
    }
}

/// Two different positions are always placed one before the other.
pub proof fn lemma_index_before_total(keys: Seq<Vec<KeyPart>>, a: int, b: int)
    requires
        a != b,
    ensures
        index_before(keys, a, b) || index_before(keys, b, a),
{
    let ka = key_view(keys[a]@);
    let kb = key_view(keys[b]@);
    if ka != kb {
        lemma_key_total(ka, kb);
    }
}

/// No position is placed before itself, nor both before and after another.
pub proof fn lemma_index_before_asym(keys: Seq<Vec<KeyPart>>, a: int, b: int)
    ensures
        !index_before(keys, a, a),
        index_before(keys, a, b) ==> !index_before(keys, b, a),
{
    lemma_key_irrefl(key_view(keys[a]@));
    if index_before(keys, a, b) && index_before(keys, b, a) {
        lemma_index_before_trans(keys, a, b, a);
    }
}

/// The positions of `keys` listed by key, items with equal keys in their
/// input order: a stable sort.
pub fn stable_order(keys: &Vec<Vec<KeyPart>>) -> (r: Vec<usize>)
    ensures
        lists_positions(r@, keys@.len()),
        sorted_by_keys(keys@, r@),
{
    let n = keys.len();
    let mut out: Vec<usize> = Vec::new();
    let mut i: usize = 0;
    while i < n
        invariant
            n == keys@.len(),
            i <= n,
            out@.len() == i,
            forall|k: int| 0 <= k < out@.len() ==> #[trigger] out@[k] < i,
            forall|x: usize| x < i ==> #[trigger] out@.contains(x),
            sorted_by_keys(keys@, out@),
        decreases n - i,
    {
        let mut p: usize = out.len();
        while p > 0 && key_less(&keys[i], &keys[out[p - 1]])
            invariant
                n == keys@.len(),
                i < n,
                p <= out@.len(),
                out@.len() == i,
                forall|k: int| 0 <= k < out@.len() ==> #[trigger] out@[k] < i,
                forall|k: int| p <= k < out@.len() ==> index_before(keys@, i as int, #[trigger] out@[k] as int),
            decreases p,
        {
            p = p - 1;
        }
        let ghost before = out@;
        proof {
            assert forall|k: int| 0 <= k < p implies index_before(keys@, #[trigger] before[k] as int, i as int) by {
                let last = (p - 1) as int;
                let kl = key_view(keys@[before[last] as int]@);
                let ki = key_view(keys@[i as int]@);
                assert(!key_before(ki, kl));
                if ki != kl {
                    lemma_key_total(ki, kl);
                }
                assert(index_before(keys@, before[last] as int, i as int));
                if k < last {
                    assert(index_before(keys@, before[k] as int, before[last] as int));
                    lemma_index_before_trans(keys@, before[k] as int, before[last] as int, i as int);
                }
            }
        }
        out.insert(p, i);
        proof {
            assert(out@ =~= before.insert(p as int, i));
            assert forall|a: int, b: int| 0 <= a < b < out@.len() implies index_before(
                keys@,
                #[trigger] out@[a] as int,
                #[trigger] out@[b] as int,
            ) by {
                if b < p {
                    assert(out@[a] == before[a] && out@[b] == before[b]);
                } else if b == p {
                    assert(out@[b] == i && out@[a] == before[a]);
                } else if a == p {
                    assert(out@[a] == i && out@[b] == before[b - 1]);
                } else if a < p {
                    assert(out@[a] == before[a] && out@[b] == before[b - 1]);
                } else {
                    assert(out@[a] == before[a - 1] && out@[b] == before[b - 1]);
                }
            }
            assert forall|x: usize| x < i + 1 implies #[trigger] out@.contains(x) by {
                if x == i {
                    assert(out@[p as int] == i);
                } else {
                    assert(before.contains(x));
                    let k = choose|k: int| 0 <= k < before.len() && before[k] == x;
                    if k < p {
                        assert(out@[k] == before[k]);
                    } else {
                        assert(out@[k + 1] == before[k]);
                    }
                }
            }
        }
        i = i + 1;
    }
    proof {
        assert forall|a: int, b: int| 0 <= a < out@.len() && 0 <= b < out@.len() && a != b implies out@[a]
            != out@[b] by {
            if a < b {
                lemma_index_before_asym(keys@, out@[a] as int, out@[b] as int);
            } else {
                lemma_index_before_asym(keys@, out@[b] as int, out@[a] as int);
            }
        }
    }
    out
}

} // verus!
