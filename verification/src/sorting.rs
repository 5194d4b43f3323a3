//! Stable sorting by composite keys.
//!
//! A key is a list of parts, each a number or a text; keys are ordered
//! lexicographically, part by part, numbers by value and texts by
//! `seq_less`. Sorting yields the order of the original positions in which
//! keys ascend (or descend) and equal keys keep their original order.
use vstd::prelude::*;
use crate::text::{lemma_less_irreflexive, lemma_less_total, lemma_less_transitive, seq_less, text_less};

verus! {

/// One part of a sort key.
#[derive(Clone, Debug)]
pub enum KeyPart {
    Num(u64),
    Text(String),
}

/// A key part as a value: (is a text, number, text).
pub type PartV = (bool, int, Seq<char>);

pub open spec fn part_view(p: KeyPart) -> PartV {
    match p {
        KeyPart::Num(n) => (false, n as int, Seq::empty()),
        KeyPart::Text(t) => (true, 0, t@),
    }
}

pub open spec fn key_view(k: Seq<KeyPart>) -> Seq<PartV> {
    k.map_values(|p: KeyPart| part_view(p))
}

pub open spec fn keys_view(ks: Seq<Vec<KeyPart>>) -> Seq<Seq<PartV>> {
    ks.map_values(|k: Vec<KeyPart>| key_view(k@))
}

/// Numbers before texts, numbers by value, texts by `seq_less`.
pub open spec fn part_less(a: PartV, b: PartV) -> bool {
    ||| (!a.0 && b.0)
    ||| (a.0 == b.0 && a.1 < b.1)
    ||| (a.0 == b.0 && a.1 == b.1 && seq_less(a.2, b.2))
}

/// Lexicographic order on keys; a proper prefix comes first.
pub open spec fn key_less(a: Seq<PartV>, b: Seq<PartV>) -> bool
    decreases a.len(),
{
    if a.len() == 0 {
        b.len() > 0
    } else if b.len() == 0 {
        false
    } else if a[0] != b[0] {
        part_less(a[0], b[0])
    } else {
        key_less(a.drop_first(), b.drop_first())
    }
}

/// Whether position `i` comes before position `j` when sorting by the keys
/// `ks`: by key (descending when `desc`), and by position for equal keys.
pub open spec fn comes_before(ks: Seq<Seq<PartV>>, i: int, j: int, desc: bool) -> bool {
    if ks[i] == ks[j] {
        i < j
    } else if desc {
        key_less(ks[j], ks[i])
    } else {
        key_less(ks[i], ks[j])
    }
}

/// `p` lists each position of `ks` once, in sorted order.
pub open spec fn is_sorted_order(p: Seq<usize>, ks: Seq<Seq<PartV>>, desc: bool) -> bool {
    &&& p.len() == ks.len()
    &&& p.no_duplicates()
    &&& forall|k: int| 0 <= k < p.len() ==> p[k] < ks.len()
    &&& forall|a: int, b: int|
        0 <= a < b < p.len() ==> comes_before(ks, #[trigger] p[a] as int, #[trigger] p[b] as int, desc)
}

pub proof fn lemma_part_order(a: PartV, b: PartV, c: PartV)
    ensures
        !part_less(a, a),
        a != b ==> (part_less(a, b) || part_less(b, a)),
        !(part_less(a, b) && part_less(b, a)),
        part_less(a, b) && part_less(b, c) ==> part_less(a, c),
{
    lemma_less_irreflexive(a.2);
    lemma_less_total(a.2, b.2);
    if part_less(a, b) && part_less(b, c) && a.0 == b.0 && b.0 == c.0 && a.1 == b.1 && b.1 == c.1 {
        lemma_less_transitive(a.2, b.2, c.2);
    }
}

proof fn lemma_key_irreflexive(a: Seq<PartV>)
    ensures
        !key_less(a, a),
    decreases a.len(),
{
    if a.len() > 0 {
        lemma_key_irreflexive(a.drop_first());
    }
}

pub proof fn lemma_key_order(a: Seq<PartV>, b: Seq<PartV>, c: Seq<PartV>)
    ensures
        !key_less(a, a),
        a != b ==> (key_less(a, b) || key_less(b, a)),
        !(key_less(a, b) && key_less(b, a)),
        key_less(a, b) && key_less(b, c) ==> key_less(a, c),
    decreases a.len(),
{
    lemma_key_irreflexive(a);
    if a.len() > 0 && b.len() > 0 && c.len() > 0 {
        lemma_part_order(a[0], b[0], c[0]);
        lemma_key_order(a.drop_first(), b.drop_first(), c.drop_first());
        if a[0] == b[0] && a.drop_first() == b.drop_first() {
            assert(a =~= seq![a[0]] + a.drop_first());
            assert(b =~= seq![b[0]] + b.drop_first());
        }
    } else if a.len() > 0 && b.len() > 0 {
        lemma_part_order(a[0], b[0], a[0]);
        lemma_key_order(a.drop_first(), b.drop_first(), a.drop_first());
        if a[0] == b[0] && a.drop_first() == b.drop_first() {
            assert(a =~= seq![a[0]] + a.drop_first());
            assert(b =~= seq![b[0]] + b.drop_first());
        }
    } else if a.len() == 0 && b.len() == 0 {
        assert(a =~= b);
    }
}

/// `comes_before` is a strict total order on distinct positions.
pub proof fn lemma_before_order(ks: Seq<Seq<PartV>>, i: int, j: int, k: int, desc: bool)
    ensures
        !comes_before(ks, i, i, desc),
        i != j ==> (comes_before(ks, i, j, desc) || comes_before(ks, j, i, desc)),
        !(comes_before(ks, i, j, desc) && comes_before(ks, j, i, desc)),
        comes_before(ks, i, j, desc) && comes_before(ks, j, k, desc) ==> comes_before(ks, i, k, desc),
{
    lemma_key_order(ks[i], ks[j], ks[k]);
    lemma_key_order(ks[k], ks[j], ks[i]);
    lemma_key_order(ks[i], ks[k], ks[j]);
    lemma_key_order(ks[j], ks[i], ks[k]);
}

fn part_equal(a: &KeyPart, b: &KeyPart) -> (r: bool)
    ensures
        r == (part_view(*a) == part_view(*b)),
{
    match (a, b) {
        (KeyPart::Num(x), KeyPart::Num(y)) => *x == *y,
        (KeyPart::Text(x), KeyPart::Text(y)) => *x == *y,
        _ => false,
    }
}

fn part_before(a: &KeyPart, b: &KeyPart) -> (r: bool)
    ensures
        r == part_less(part_view(*a), part_view(*b)),
{
    match (a, b) {
        (KeyPart::Num(x), KeyPart::Num(y)) => *x < *y,
        (KeyPart::Text(x), KeyPart::Text(y)) => {
            proof {
                lemma_less_irreflexive(x@);
            }
            text_less(x.as_str(), y.as_str())
        },
        (KeyPart::Num(_), KeyPart::Text(_)) => true,
        _ => false,
    }
}

proof fn lemma_key_less_skip(a: Seq<PartV>, b: Seq<PartV>, i: int)
    requires
        0 <= i <= a.len(),
        i <= b.len(),
        a.take(i) == b.take(i),
    ensures
        key_less(a, b) == key_less(a.skip(i), b.skip(i)),
    decreases i,
{
    if i > 0 {
        assert(a[0] == a.take(i)[0]);
        assert(b[0] == b.take(i)[0]);
        assert(a.drop_first().take(i - 1) =~= a.take(i).drop_first());
        assert(b.drop_first().take(i - 1) =~= b.take(i).drop_first());
        lemma_key_less_skip(a.drop_first(), b.drop_first(), i - 1);
        assert(a.drop_first().skip(i - 1) =~= a.skip(i));
        assert(b.drop_first().skip(i - 1) =~= b.skip(i));
    } else {
        assert(a.skip(0) =~= a);
        assert(b.skip(0) =~= b);
    }
}

/// Whether the key `a` comes before the key `b`, and whether they are equal.
pub fn key_compare(a: &Vec<KeyPart>, b: &Vec<KeyPart>) -> (r: (bool, bool))
    ensures
        r.0 == key_less(key_view(a@), key_view(b@)),
        r.1 == (key_view(a@) == key_view(b@)),
{
    let ghost ka = key_view(a@);
    let ghost kb = key_view(b@);
    let mut i: usize = 0;
    while i < a.len() && i < b.len()
        invariant
            i <= a.len(),
            i <= b.len(),
            ka == key_view(a@),
            kb == key_view(b@),
            ka.take(i as int) == kb.take(i as int),
        decreases a.len() - i,
    {
        if !part_equal(&a[i], &b[i]) {
            proof {
                lemma_key_less_skip(ka, kb, i as int);
                assert(ka.skip(i as int)[0] == ka[i as int]);
                assert(kb.skip(i as int)[0] == kb[i as int]);
            }
            let less = part_before(&a[i], &b[i]);
            return (less, false);
        }
        proof {
            assert(ka.take(i + 1) =~= ka.take(i as int).push(ka[i as int]));
            assert(kb.take(i + 1) =~= kb.take(i as int).push(kb[i as int]));
        }
        i = i + 1;
    }
    proof {
        lemma_key_less_skip(ka, kb, i as int);
        if a.len() == b.len() {
            assert(ka =~= ka.take(i as int));
            assert(kb =~= kb.take(i as int));
        }
    }
    (a.len() == i && i < b.len(), a.len() == b.len())
}

fn position_before(keys: &Vec<Vec<KeyPart>>, i: usize, j: usize, desc: bool) -> (r: bool)
    requires
        i < keys.len(),
        j < keys.len(),
    ensures
        r == comes_before(keys_view(keys@), i as int, j as int, desc),
{
    let (less, equal) = key_compare(&keys[i], &keys[j]);
    if equal {
        i < j
    } else if desc {
        let (greater, _) = key_compare(&keys[j], &keys[i]);
        greater
    } else {
        less
    }
}

/// The positions of `keys` in sorted order: by key, ascending or (when
/// `desc`) descending, and by position among equal keys.
pub fn sort_order(keys: &Vec<Vec<KeyPart>>, desc: bool) -> (r: Vec<usize>)
    ensures
        is_sorted_order(r@, keys_view(keys@), desc),
{
    let ghost ks = keys_view(keys@);
    let mut out: Vec<usize> = Vec::new();
    let mut k: usize = 0;
    while k < keys.len()
        invariant
            k <= keys.len(),
            ks == keys_view(keys@),
            ks.len() == keys.len(),
            out.len() == k,
            out@.no_duplicates(),
            forall|q: int| 0 <= q < out.len() ==> out@[q] < k,
            forall|a: int, b: int|
                0 <= a < b < out.len() ==> comes_before(ks, #[trigger] out@[a] as int, #[trigger] out@[b] as int, desc),
        decreases keys.len() - k,
    {
        let mut p: usize = out.len();
        while p > 0 && position_before(keys, k, out[p - 1], desc)
            invariant
                p <= out.len(),
                k < keys.len(),
                ks == keys_view(keys@),
                ks.len() == keys.len(),
                forall|q: int| 0 <= q < out.len() ==> out@[q] < k,
                forall|q: int| p <= q < out.len() ==> comes_before(ks, k as int, #[trigger] out@[q] as int, desc),
            decreases p,
        {
            p = p - 1;
        }
        proof {
            if p > 0 {
                lemma_before_order(ks, k as int, out@[p - 1] as int, k as int, desc);
            }
        }
        let ghost before = out@;
        out.insert(p, k);
        proof {
            assert(out@ =~= before.insert(p as int, k));
            assert forall|a: int, b: int|
                0 <= a < b < out.len() implies comes_before(ks, #[trigger] out@[a] as int, #[trigger] out@[b] as int, desc) by {
                if b == p {
                    if a < p - 1 {
                        lemma_before_order(ks, before[a] as int, before[p - 1] as int, k as int, desc);
                    }
                } else if a == p {
                    assert(out@[b] == before[b - 1]);
                } else if a < p && b > p {
                    assert(out@[b] == before[b - 1]);
                    lemma_before_order(ks, before[a] as int, k as int, before[b - 1] as int, desc);
                    if a < p - 1 {
                        lemma_before_order(ks, before[a] as int, before[p - 1] as int, k as int, desc);
                    }
                } else if a > p {
                    assert(out@[a] == before[a - 1]);
                    assert(out@[b] == before[b - 1]);
                }
            }
            assert forall|x: int, y: int| 0 <= x < y < out.len() implies out@[x] != out@[y] by {
                if x == p {
                    assert(out@[y] == before[y - 1]);
                } else if y == p {
                } else if x < p && y > p {
                    assert(out@[y] == before[y - 1]);
                } else if x > p {
                    assert(out@[x] == before[x - 1]);
                    assert(out@[y] == before[y - 1]);
                }
            }
        }
        k = k + 1;
    }
    out
}


/// The elements of `s` at the positions `p`, in that order.
pub open spec fn pick<A>(s: Seq<A>, p: Seq<usize>) -> Seq<A> {
    p.map_values(|i: usize| s[i as int])
}

/// The positions `p` list each of `0..n` once.
pub open spec fn is_permutation(p: Seq<usize>, n: int) -> bool {
    &&& p.len() == n
    &&& p.no_duplicates()
    &&& forall|k: int| 0 <= k < p.len() ==> p[k] < n
}

/// Rearranging a sequence keeps its elements.
pub proof fn lemma_pick_multiset<A>(s: Seq<A>, p: Seq<usize>)
    requires
        is_permutation(p, s.len() as int),
    ensures
        pick(s, p).to_multiset() == s.to_multiset(),
    decreases s.len(),
{
    broadcast use vstd::seq_lib::group_to_multiset_ensures;
    broadcast use vstd::multiset::group_multiset_axioms;

    let n = s.len() as int;
    if n == 0 {
        assert(pick(s, p) =~= s);
    } else {
        let v = p[n - 1];
        let rest = s.remove(v as int);
        let q = p.drop_last().map_values(|i: usize| if i > v { (i - 1) as usize } else { i });
        assert forall|k: int| 0 <= k < n - 1 implies #[trigger] q[k] < n - 1 && rest[q[k] as int] == s[p[k] as int] by {
            assert(p[k] != p[n - 1]);
            assert(q[k] == if p[k] > v { (p[k] - 1) as usize } else { p[k] });
        }
        assert forall|a: int, b: int| 0 <= a < b < q.len() implies q[a] != q[b] by {
            assert(p[a] != p[b]);
            assert(p[a] != p[n - 1] && p[b] != p[n - 1]);
            assert(q[a] == if p[a] > v { (p[a] - 1) as usize } else { p[a] });
            assert(q[b] == if p[b] > v { (p[b] - 1) as usize } else { p[b] });
        }
        lemma_pick_multiset(rest, q);
        assert(pick(s, p) =~= pick(rest, q).push(s[v as int]));
        assert(rest.to_multiset() == s.to_multiset().remove(s[v as int]));
        assert(s.to_multiset().count(s[v as int]) > 0) by {
            assert(s.contains(s[v as int]));
        }
        assert(pick(s, p).to_multiset() =~= s.to_multiset());
    }
}

/// Positions ordered by `comes_before`, each equal to itself.
pub open spec fn position_leq(ks: Seq<Seq<PartV>>, desc: bool, i: usize, j: usize) -> bool {
    i == j || comes_before(ks, i as int, j as int, desc)
}

/// A listing's order is determined by its keys: there is one sorted order
/// of the positions (equal keys keep their original order), so sorting the
/// same keys always lists the same positions in the same order.
pub proof fn lemma_sorted_order_unique(p1: Seq<usize>, p2: Seq<usize>, ks: Seq<Seq<PartV>>, desc: bool)
    requires
        is_sorted_order(p1, ks, desc),
        is_sorted_order(p2, ks, desc),
    ensures
        p1 == p2,
{
    let leq = |i: usize, j: usize| position_leq(ks, desc, i, j);
    assert forall|x: usize| #[trigger] leq(x, x) by {}
    assert forall|x: usize, y: usize| #[trigger] leq(x, y) && #[trigger] leq(y, x) implies x == y by {
        lemma_before_order(ks, x as int, y as int, x as int, desc);
    }
    assert forall|x: usize, y: usize, z: usize| #[trigger] leq(x, y) && #[trigger] leq(y, z) implies leq(x, z) by {
        lemma_before_order(ks, x as int, y as int, z as int, desc);
        lemma_before_order(ks, x as int, z as int, x as int, desc);
    }
    assert forall|x: usize, y: usize| #[trigger] leq(x, y) || #[trigger] leq(y, x) by {
        lemma_before_order(ks, x as int, y as int, x as int, desc);
    }
    assert forall|a: int, b: int| 0 <= a < b < p1.len() implies #[trigger] leq(p1[a], p1[b]) by {}
    assert forall|a: int, b: int| 0 <= a < b < p2.len() implies #[trigger] leq(p2[a], p2[b]) by {}
    let n = ks.len() as int;
    let ids = Seq::new(n as nat, |i: int| i as usize);
    lemma_pick_multiset(ids, p1);
    lemma_pick_multiset(ids, p2);
    assert(pick(ids, p1) =~= p1);
    assert(pick(ids, p2) =~= p2);
    vstd::seq_lib::lemma_sorted_unique(p1, p2, leq);
}

} // verus!
