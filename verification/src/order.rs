//! The order of `String`s (`Ord` on `str`: lexicographic by character), and a
//! stable sort by such keys.
use vstd::prelude::*;

verus! {

/// `a <= b` in the lexicographic order of characters.
pub open spec fn lex_le(a: Seq<char>, b: Seq<char>) -> bool
    decreases a.len(),
{
    if a.len() == 0 {
        true
    } else if b.len() == 0 {
        false
    } else if a[0] != b[0] {
        a[0] < b[0]
    } else {
        lex_le(a.drop_first(), b.drop_first())
    }
}

/// `a < b` in the lexicographic order of characters.
pub open spec fn lex_lt(a: Seq<char>, b: Seq<char>) -> bool {
    !lex_le(b, a)
}

/// Any two sequences compare one way or the other.
pub proof fn lemma_lex_total(a: Seq<char>, b: Seq<char>)
    ensures
        lex_le(a, b) || lex_le(b, a),
    decreases a.len(),
{
    if a.len() > 0 && b.len() > 0 && a[0] == b[0] {
        lemma_lex_total(a.drop_first(), b.drop_first());
    }
}

/// Sequences that compare both ways are equal.
pub proof fn lemma_lex_antisymmetric(a: Seq<char>, b: Seq<char>)
    requires
        lex_le(a, b),
        lex_le(b, a),
    ensures
        a == b,
    decreases a.len(),
{
    if a.len() > 0 && b.len() > 0 {
        lemma_lex_antisymmetric(a.drop_first(), b.drop_first());
        assert(a =~= seq![a[0]] + a.drop_first());
        assert(b =~= seq![b[0]] + b.drop_first());
    }
}

/// The order is transitive.
pub proof fn lemma_lex_transitive(a: Seq<char>, b: Seq<char>, c: Seq<char>)
    requires
        lex_le(a, b),
        lex_le(b, c),
    ensures
        lex_le(a, c),
    decreases a.len(),
{
    if a.len() > 0 && b.len() > 0 && c.len() > 0 && a[0] == b[0] && b[0] == c[0] {
        lemma_lex_transitive(a.drop_first(), b.drop_first(), c.drop_first());
    }
}

/// Every sequence is at most itself.
pub proof fn lemma_lex_reflexive(a: Seq<char>)
    ensures
        lex_le(a, a),
    decreases a.len(),
{
    if a.len() > 0 {
        lemma_lex_reflexive(a.drop_first());
    }
}

/// `lex_le(a, b)`, computed.
pub fn lex_le_exec(a: &[char], b: &[char]) -> (r: bool)
    ensures
        r == lex_le(a@, b@),
{
    let mut i: usize = 0;
    assert(a@.skip(0) =~= a@);
    assert(b@.skip(0) =~= b@);
    while i < a.len() && i < b.len()
        invariant
            i <= a@.len(),
            i <= b@.len(),
            lex_le(a@, b@) == lex_le(a@.skip(i as int), b@.skip(i as int)),
        decreases a.len() - i,
    {
        if a[i] != b[i] {
            return a[i] < b[i];
        }
        assert(a@.skip(i as int).drop_first() =~= a@.skip(i + 1));
        assert(b@.skip(i as int).drop_first() =~= b@.skip(i + 1));
        i += 1;
    }
    i == a.len()
}

/// Index `i` comes before index `j` when sorting stably by `keys`: its key is
/// smaller, or the keys are equal and `i` is the earlier index.
pub open spec fn precedes(keys: Seq<Seq<char>>, i: int, j: int) -> bool {
    lex_lt(keys[i], keys[j]) || (keys[i] == keys[j] && i < j)
}

/// `order` lists each index of `keys` exactly once, in the order of a stable
/// sort by key.
pub open spec fn stably_sorted(keys: Seq<Seq<char>>, order: Seq<usize>) -> bool {
    &&& order.len() == keys.len()
    &&& forall|a: int| 0 <= a < order.len() ==> #[trigger] order[a] < keys.len()
    &&& forall|x: usize| x < keys.len() ==> #[trigger] order.contains(x)
    &&& order.no_duplicates()
    &&& forall|a: int, b: int|
        0 <= a < b < order.len() ==> precedes(keys, #[trigger] order[a] as int, #[trigger] order[b] as int)
}

/// `precedes` never holds both ways.
proof fn lemma_precedes_asymmetric(keys: Seq<Seq<char>>, i: int, j: int)
    requires
        precedes(keys, i, j),
    ensures
        !precedes(keys, j, i),
{
    lemma_lex_total(keys[i], keys[j]);
    lemma_lex_reflexive(keys[i]);
}

/// Two sequences of distinct indices with the same elements, both in the order
/// of a stable sort by `keys`, are the same sequence.
proof fn lemma_sorted_unique(keys: Seq<Seq<char>>, o1: Seq<usize>, o2: Seq<usize>)
    requires
        o1.no_duplicates(),
        o2.no_duplicates(),
        o1.to_set() == o2.to_set(),
        forall|a: int, b: int| 0 <= a < b < o1.len() ==> precedes(keys, #[trigger] o1[a] as int, #[trigger] o1[b] as int),
        forall|a: int, b: int| 0 <= a < b < o2.len() ==> precedes(keys, #[trigger] o2[a] as int, #[trigger] o2[b] as int),
    ensures
        o1 == o2,
    decreases o1.len(),
{
    if o1.len() == 0 {
        if o2.len() > 0 {
            assert(o2.to_set().contains(o2[0]));
        }
        assert(o1 =~= o2);
    } else {
        assert(o1.to_set().contains(o1[0]));
        assert(o2.len() > 0);
        let x1 = o1[0];
        let x2 = o2[0];
        assert(o2.to_set().contains(x2));
        assert(o1.to_set().contains(x2));
        assert(o2.to_set().contains(x1));
        let a = choose|a: int| 0 <= a < o1.len() && o1[a] == x2;
        let b = choose|b: int| 0 <= b < o2.len() && o2[b] == x1;
        if x1 != x2 {
            assert(a > 0 && b > 0);
            assert(precedes(keys, o1[0] as int, o1[a] as int));
            assert(precedes(keys, o2[0] as int, o2[b] as int));
            lemma_precedes_asymmetric(keys, x1 as int, x2 as int);
        }
        let t1 = o1.drop_first();
        let t2 = o2.drop_first();
        assert(t1.to_set() =~= t2.to_set()) by {
            assert forall|x: usize| t1.to_set().contains(x) implies t2.to_set().contains(x) by {
                let k = choose|k: int| 0 <= k < t1.len() && t1[k] == x;
                assert(o1[k + 1] == x);
                assert(o1.to_set().contains(x));
                let m = choose|m: int| 0 <= m < o2.len() && o2[m] == x;
                assert(m != 0);
                assert(t2[m - 1] == x);
            }
            assert forall|x: usize| t2.to_set().contains(x) implies t1.to_set().contains(x) by {
                let k = choose|k: int| 0 <= k < t2.len() && t2[k] == x;
                assert(o2[k + 1] == x);
                assert(o2.to_set().contains(x));
                let m = choose|m: int| 0 <= m < o1.len() && o1[m] == x;
                assert(m != 0);
                assert(t1[m - 1] == x);
            }
        }
        assert forall|c: int, d: int| 0 <= c < d < t1.len() implies precedes(keys, #[trigger] t1[c] as int, #[trigger] t1[d] as int) by {
            assert(t1[c] == o1[c + 1] && t1[d] == o1[d + 1]);
        }
        assert forall|c: int, d: int| 0 <= c < d < t2.len() implies precedes(keys, #[trigger] t2[c] as int, #[trigger] t2[d] as int) by {
            assert(t2[c] == o2[c + 1] && t2[d] == o2[d + 1]);
        }
        lemma_sorted_unique(keys, t1, t2);
        assert(o1 =~= seq![x1] + t1);
        assert(o2 =~= seq![x2] + t2);
    }
}

/// The order of a stable sort of the indices of `keys` by key.
pub open spec fn sorted_order(keys: Seq<Seq<char>>) -> Seq<usize> {
    choose|o: Seq<usize>| stably_sorted(keys, o)
}

/// There is one order of a stable sort, and `sorted_order` is it.
pub proof fn lemma_stably_sorted_is_sorted_order(keys: Seq<Seq<char>>, o: Seq<usize>)
    requires
        stably_sorted(keys, o),
    ensures
        sorted_order(keys) == o,
{
    let c = sorted_order(keys);
    assert(stably_sorted(keys, c));
    assert(c.to_set() =~= o.to_set()) by {
        assert forall|x: usize| c.to_set().contains(x) implies o.to_set().contains(x) by {
            let k = choose|k: int| 0 <= k < c.len() && c[k] == x;
            assert(c[k] < keys.len());
            assert(o.contains(x));
        }
        assert forall|x: usize| o.to_set().contains(x) implies c.to_set().contains(x) by {
            let k = choose|k: int| 0 <= k < o.len() && o[k] == x;
            assert(o[k] < keys.len());
            assert(c.contains(x));
        }
    }
    lemma_sorted_unique(keys, c, o);
}

/// The order in which a stable sort by `keys` puts the indices of `keys`.
pub fn stable_order(keys: &Vec<Vec<char>>) -> (order: Vec<usize>)
    ensures
        stably_sorted(keys@.map_values(|k: Vec<char>| k@), order@),
        order@ == sorted_order(keys@.map_values(|k: Vec<char>| k@)),
{
    let ghost ks = keys@.map_values(|k: Vec<char>| k@);
    let mut order: Vec<usize> = Vec::new();
    let mut i: usize = 0;
    while i < keys.len()
        invariant
            i <= keys@.len(),
            ks == keys@.map_values(|k: Vec<char>| k@),
            order@.len() == i,
            forall|a: int| 0 <= a < order@.len() ==> #[trigger] order@[a] < i,
            forall|x: usize| x < i ==> #[trigger] order@.contains(x),
            order@.no_duplicates(),
            forall|a: int, b: int|
                0 <= a < b < order@.len() ==> precedes(ks, #[trigger] order@[a] as int, #[trigger] order@[b] as int),
        decreases keys.len() - i,
    {
        let mut p: usize = order.len();
        while p > 0
            invariant
                p <= order@.len(),
                i < keys@.len(),
                ks == keys@.map_values(|k: Vec<char>| k@),
                forall|a: int| 0 <= a < order@.len() ==> #[trigger] order@[a] < i,
                forall|q: int| p <= q < order@.len() ==> lex_lt(ks[i as int], #[trigger] ks[order@[q] as int]),
            ensures
                p > 0 ==> lex_le(ks[order@[p - 1] as int], ks[i as int]),
            decreases p,
        {
            let j = order[p - 1];
            if lex_le_exec(keys[j].as_slice(), keys[i].as_slice()) {
                break;
            }
            p -= 1;
        }
        let ghost old_order = order@;
        assert(forall|x: usize| x < i ==> #[trigger] old_order.contains(x));
        proof {
            if p > 0 {
                let j = old_order[p - 1];
                assert(lex_le(ks[j as int], ks[i as int]));
                assert forall|q: int| 0 <= q < p implies precedes(ks, #[trigger] old_order[q] as int, i as int) by {
                    if q < p - 1 {
                        assert(precedes(ks, old_order[q] as int, old_order[p - 1] as int));
                        if lex_le(ks[old_order[q] as int], ks[j as int]) {
                            lemma_lex_transitive(ks[old_order[q] as int], ks[j as int], ks[i as int]);
                        } else {
                            lemma_lex_total(ks[old_order[q] as int], ks[j as int]);
                        }
                    }
                    lemma_lex_total(ks[i as int], ks[old_order[q] as int]);
                    if lex_le(ks[i as int], ks[old_order[q] as int]) {
                        lemma_lex_antisymmetric(ks[i as int], ks[old_order[q] as int]);
                    }
                }
            }
        }
        order.insert(p, i);
        assert forall|a: int, b: int| 0 <= a < b < order@.len() implies precedes(
            ks,
            #[trigger] order@[a] as int,
            #[trigger] order@[b] as int,
        ) by {
            if b < p {
                assert(order@[a] == old_order[a] && order@[b] == old_order[b]);
            } else if b == p {
                assert(order@[a] == old_order[a]);
            } else if a == p {
                assert(order@[b] == old_order[b - 1]);
            } else if a < p {
                assert(order@[a] == old_order[a] && order@[b] == old_order[b - 1]);
            } else {
                assert(order@[a] == old_order[a - 1] && order@[b] == old_order[b - 1]);
            }
        }
        assert(order@.no_duplicates()) by {
            assert forall|a: int, b: int| 0 <= a < order@.len() && 0 <= b < order@.len() && a != b implies order@[a]
                != order@[b] by {
                if a != p && b != p {
                    let oa = if a < p { a } else { a - 1 };
                    let ob = if b < p { b } else { b - 1 };
                    assert(order@[a] == old_order[oa] && order@[b] == old_order[ob]);
                } else if a == p {
                    let ob = if b < p { b } else { b - 1 };
                    assert(order@[b] == old_order[ob]);
                } else {
                    let oa = if a < p { a } else { a - 1 };
                    assert(order@[a] == old_order[oa]);
                }
            }
        }
        assert forall|x: usize| x < i + 1 implies #[trigger] order@.contains(x) by {
            if x < i {
                assert(old_order.contains(x));
                let a = choose|a: int| 0 <= a < old_order.len() && old_order[a] == x;
                if a < p {
                    assert(order@[a] == x);
                } else {
                    assert(order@[a + 1] == x);
                }
            } else {
                assert(order@[p as int] == x);
            }
        }
        assert forall|a: int| 0 <= a < order@.len() implies #[trigger] order@[a] < i + 1 by {
            if a < p {
                assert(order@[a] == old_order[a]);
            } else if a > p {
                assert(order@[a] == old_order[a - 1]);
            }
        }
        i += 1;
    }
    proof {
        lemma_stably_sorted_is_sorted_order(ks, order@);
    }
    order
}

} // verus!
