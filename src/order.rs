//! A stable ordering of positions by integer keys.
use vstd::prelude::*;

verus! {

/// Whether position `a` comes before position `b` when ordering by `keys`
/// ascending, ties kept in position order.
pub open spec fn before(keys: Seq<i64>, a: usize, b: usize) -> bool {
    keys[a as int] < keys[b as int] || (keys[a as int] == keys[b as int] && a < b)
}

/// Whether `order` holds position `p`.
pub open spec fn lists(order: Seq<usize>, p: int) -> bool {
    exists|i: int| 0 <= i < order.len() && order[i] == p
}

/// Whether `order` lists positions of `keys` strictly in `before` order.
pub open spec fn strictly_ordered(keys: Seq<i64>, order: Seq<usize>) -> bool {
    &&& forall|i: int| 0 <= i < order.len() ==> (#[trigger] order[i]) < keys.len()
    &&& forall|i: int, j: int| 0 <= i < j < order.len() ==> before(keys, #[trigger] order[i], #[trigger] order[j])
}

/// The positions of `keys` ordered by key ascending; positions with equal
/// keys keep their order. Every position appears exactly once.
pub fn stable_order(keys: &Vec<i64>) -> (r: Vec<usize>)
    ensures
        r@.len() == keys@.len(),
        strictly_ordered(keys@, r@),
        forall|p: int| 0 <= p < keys@.len() ==> #[trigger] lists(r@, p),
{
    let n = keys.len();
    let mut out: Vec<usize> = Vec::new();
    let mut i: usize = 0;
    while i < n
        invariant
            n == keys@.len(),
            i <= n,
            out@.len() == i,
            strictly_ordered(keys@, out@),
            forall|k: int| 0 <= k < out@.len() ==> (#[trigger] out@[k]) < i,
            forall|p: int| 0 <= p < i ==> #[trigger] lists(out@, p),
        decreases n - i,
    {
        // first slot whose key is larger than the new one
        let mut p: usize = 0;
        while p < out.len() && keys[out[p]] <= keys[i]
            invariant
                n == keys@.len(),
                i < n,
                p <= out@.len(),
                strictly_ordered(keys@, out@),
                forall|k: int| 0 <= k < out@.len() ==> (#[trigger] out@[k]) < i,
                forall|k: int| 0 <= k < p ==> keys@[(#[trigger] out@[k]) as int] <= keys@[i as int],
            decreases out@.len() - p,
        {
            p = p + 1;
        }
        let ghost old_out = out@;
        out.insert(p, i);
        proof {
            assert(out@ == old_out.insert(p as int, i));
            assert forall|a: int, b: int| 0 <= a < b < out@.len() implies before(keys@, #[trigger] out@[a], #[trigger] out@[b]) by {
                if a < p && b < p {
                    assert(out@[a] == old_out[a] && out@[b] == old_out[b]);
                } else if a < p && b == p {
                    assert(keys@[old_out[a] as int] <= keys@[i as int]);
                } else if a < p && b > p {
                    assert(out@[a] == old_out[a] && out@[b] == old_out[b - 1]);
                } else if a == p {
                    assert(out@[b] == old_out[b - 1]);
                    if b - 1 > p {
                        assert(before(keys@, old_out[p as int], old_out[b - 1]));
                    }
                } else {
                    assert(out@[a] == old_out[a - 1] && out@[b] == old_out[b - 1]);
                }
            }
            assert forall|q: int| 0 <= q < i + 1 implies #[trigger] lists(out@, q) by {
                if q == i {
                    assert(out@[p as int] == q);
                } else {
                    assert(lists(old_out, q));
                    let k = choose|k: int| 0 <= k < old_out.len() && old_out[k] == q;
                    if k < p {
                        assert(out@[k] == q);
                    } else {
                        assert(out@[k + 1] == q);
                    }
                }
            }
        }
        i = i + 1;
    }
    out
}

/// One more element of a prefix through a filter.
pub proof fn lemma_filter_step<A>(s: Seq<A>, i: int, f: spec_fn(A) -> bool)
    requires
        0 <= i < s.len(),
    ensures
        s.subrange(0, i + 1).filter(f) == if f(s[i]) {
            s.subrange(0, i).filter(f).push(s[i])
        } else {
            s.subrange(0, i).filter(f)
        },
{
    reveal(Seq::filter);
    let t = s.subrange(0, i + 1);
    assert(t.drop_last() =~= s.subrange(0, i));
    assert(t.last() == s[i]);
}

/// `s` taken in the order of the positions `order`.
pub open spec fn permuted<A>(s: Seq<A>, order: Seq<usize>) -> Seq<A> {
    Seq::new(order.len(), |i: int| s[order[i] as int])
}

/// Taking every position of `s` exactly once, in any order, keeps the
/// multiset of its elements.
pub proof fn lemma_permuted_multiset<A>(s: Seq<A>, order: Seq<usize>)
    requires
        order.len() == s.len(),
        forall|i: int| 0 <= i < order.len() ==> (#[trigger] order[i]) < s.len(),
        forall|i: int, j: int| 0 <= i < j < order.len() ==> #[trigger] order[i] != #[trigger] order[j],
        forall|p: int| 0 <= p < s.len() ==> #[trigger] lists(order, p),
    ensures
        permuted(s, order).to_multiset() == s.to_multiset(),
    decreases s.len(),
{
    broadcast use vstd::seq_lib::group_to_multiset_ensures;
    if s.len() == 0 {
        assert(permuted(s, order) =~= s);
    } else {
        let n = (s.len() - 1) as int;
        assert(lists(order, n));
        let k = choose|i: int| 0 <= i < order.len() && order[i] == n;
        let s2 = s.drop_last();
        let o2 = order.remove(k);
        assert forall|i: int| 0 <= i < o2.len() implies (#[trigger] o2[i]) < s2.len() by {
            let i2 = if i < k { i } else { i + 1 };
            assert(o2[i] == order[i2]);
            assert(order[i2] != order[k]);
        }
        assert forall|i: int, j: int| 0 <= i < j < o2.len() implies #[trigger] o2[i] != #[trigger] o2[j] by {
            let i2 = if i < k { i } else { i + 1 };
            let j2 = if j < k { j } else { j + 1 };
            assert(o2[i] == order[i2] && o2[j] == order[j2]);
        }
        assert forall|p: int| 0 <= p < s2.len() implies #[trigger] lists(o2, p) by {
            assert(lists(order, p));
            let w = choose|i: int| 0 <= i < order.len() && order[i] == p;
            assert(w != k);
            let w2 = if w < k { w } else { w - 1 };
            assert(o2[w2] == p);
        }
        lemma_permuted_multiset(s2, o2);
        let ps = permuted(s, order);
        assert(ps.remove(k) =~= permuted(s2, o2)) by {
            assert forall|i: int| 0 <= i < ps.remove(k).len() implies ps.remove(k)[i] == permuted(s2, o2)[i] by {
                let i2 = if i < k { i } else { i + 1 };
                assert(o2[i] == order[i2]);
                assert((order[i2] as int) < n) by {
                    assert(order[i2] != order[k]);
                }
                assert(s2[order[i2] as int] == s[order[i2] as int]);
            }
        }
        assert(ps[k] == s[n]);
        assert(s.remove(n) =~= s2);
        assert(ps.remove(k).to_multiset() == ps.to_multiset().remove(ps[k]));
        assert(s2.to_multiset() == s.to_multiset().remove(s[n]));
        assert(ps.contains(ps[k]));
        assert(s.contains(s[n]));
        assert(ps.to_multiset() =~= ps.to_multiset().remove(ps[k]).insert(ps[k]));
        assert(s.to_multiset() =~= s.to_multiset().remove(s[n]).insert(s[n]));
    }
}

/// Two lists of the same positions, each strictly in `before` order, are
/// the same list: the stable order of a key list is unique, so anything
/// ranked by it comes out the same every time.
pub proof fn lemma_stable_order_unique(keys: Seq<i64>, o1: Seq<usize>, o2: Seq<usize>)
    requires
        strictly_ordered(keys, o1),
        strictly_ordered(keys, o2),
        o1.len() == o2.len(),
        forall|p: int| #[trigger] lists(o1, p) <==> lists(o2, p),
    ensures
        o1 == o2,
    decreases o1.len(),
{
    if o1.len() == 0 {
        assert(o1 =~= o2);
    } else {
        let n = o1.len() - 1;
        let m1 = o1[n];
        let m2 = o2[n];
        assert(lists(o1, m1 as int));
        assert(lists(o2, m1 as int));
        assert(lists(o2, m2 as int));
        assert(lists(o1, m2 as int));
        let k = choose|i: int| 0 <= i < o2.len() && o2[i] == m1;
        let k2 = choose|i: int| 0 <= i < o1.len() && o1[i] == m2;
        if k < n {
            assert(before(keys, o2[k], o2[n]));
            if k2 < n {
                assert(before(keys, o1[k2], o1[n]));
            }
        }
        if k2 < n {
            assert(before(keys, o1[k2], o1[n]));
        }
        assert(m1 == m2);
        let d1 = o1.drop_last();
        let d2 = o2.drop_last();
        assert forall|p: int| #[trigger] lists(d1, p) <==> lists(d2, p) by {
            if lists(d1, p) {
                let i = choose|i: int| 0 <= i < d1.len() && d1[i] == p;
                assert(o1[i] == p);
                assert(lists(o1, p));
                assert(lists(o2, p));
                let j = choose|j: int| 0 <= j < o2.len() && o2[j] == p;
                if j == n {
                    assert(before(keys, o1[i], o1[n]));
                }
                assert(d2[j] == p);
            }
            if lists(d2, p) {
                let i = choose|i: int| 0 <= i < d2.len() && d2[i] == p;
                assert(o2[i] == p);
                assert(lists(o2, p));
                assert(lists(o1, p));
                let j = choose|j: int| 0 <= j < o1.len() && o1[j] == p;
                if j == n {
                    assert(before(keys, o2[i], o2[n]));
                }
                assert(d1[j] == p);
            }
        }
        assert forall|i: int, j: int| 0 <= i < j < d1.len() implies before(keys, #[trigger] d1[i], #[trigger] d1[j]) by {
            assert(d1[i] == o1[i] && d1[j] == o1[j]);
        }
        assert forall|i: int, j: int| 0 <= i < j < d2.len() implies before(keys, #[trigger] d2[i], #[trigger] d2[j]) by {
            assert(d2[i] == o2[i] && d2[j] == o2[j]);
        }
        assert forall|i: int| 0 <= i < d1.len() implies (#[trigger] d1[i]) < keys.len() by {
            assert(d1[i] == o1[i]);
        }
        assert forall|i: int| 0 <= i < d2.len() implies (#[trigger] d2[i]) < keys.len() by {
            assert(d2[i] == o2[i]);
        }
        lemma_stable_order_unique(keys, d1, d2);
        assert(o1 =~= d1.push(m1));
        assert(o2 =~= d2.push(m2));
    }
}

/// Whether key pair `x` is at most `y`: by the first component, then the second.
pub open spec fn pair_le(x: (i64, u128), y: (i64, u128)) -> bool {
    x.0 < y.0 || (x.0 == y.0 && x.1 <= y.1)
}

/// Whether position `a` comes before position `b` when ordering by the key
/// pairs `keys` ascending, equal pairs kept in position order.
pub open spec fn before_pair(keys: Seq<(i64, u128)>, a: usize, b: usize) -> bool {
    (pair_le(keys[a as int], keys[b as int]) && keys[a as int] != keys[b as int]) || (keys[a as int] == keys[b as int] && a < b)
}

/// Whether `order` lists positions of `keys` strictly in `before_pair` order.
pub open spec fn strictly_ordered_pairs(keys: Seq<(i64, u128)>, order: Seq<usize>) -> bool {
    &&& forall|i: int| 0 <= i < order.len() ==> (#[trigger] order[i]) < keys.len()
    &&& forall|i: int, j: int| 0 <= i < j < order.len() ==> before_pair(keys, #[trigger] order[i], #[trigger] order[j])
}

fn pair_le_exec(x: (i64, u128), y: (i64, u128)) -> (r: bool)
    ensures
        r == pair_le(x, y),
{
    x.0 < y.0 || (x.0 == y.0 && x.1 <= y.1)
}

/// The positions of `keys` ordered by key pair ascending; positions with
/// equal pairs keep their order. Every position appears exactly once.
pub fn stable_order_pairs(keys: &Vec<(i64, u128)>) -> (r: Vec<usize>)
    ensures
        r@.len() == keys@.len(),
        strictly_ordered_pairs(keys@, r@),
        forall|p: int| 0 <= p < keys@.len() ==> #[trigger] lists(r@, p),
{
    let n = keys.len();
    let mut out: Vec<usize> = Vec::new();
    let mut i: usize = 0;
    while i < n
        invariant
            n == keys@.len(),
            i <= n,
            out@.len() == i,
            strictly_ordered_pairs(keys@, out@),
            forall|k: int| 0 <= k < out@.len() ==> (#[trigger] out@[k]) < i,
            forall|p: int| 0 <= p < i ==> #[trigger] lists(out@, p),
        decreases n - i,
    {
        let mut p: usize = 0;
        while p < out.len() && pair_le_exec(keys[out[p]], keys[i])
            invariant
                n == keys@.len(),
                i < n,
                p <= out@.len(),
                strictly_ordered_pairs(keys@, out@),
                forall|k: int| 0 <= k < out@.len() ==> (#[trigger] out@[k]) < i,
                forall|k: int| 0 <= k < p ==> pair_le(keys@[(#[trigger] out@[k]) as int], keys@[i as int]),
            decreases out@.len() - p,
        {
            p = p + 1;
        }
        let ghost old_out = out@;
        out.insert(p, i);
        proof {
            assert(out@ == old_out.insert(p as int, i));
            assert forall|a: int, b: int| 0 <= a < b < out@.len() implies before_pair(keys@, #[trigger] out@[a], #[trigger] out@[b]) by {
                if a < p && b < p {
                    assert(out@[a] == old_out[a] && out@[b] == old_out[b]);
                } else if a < p && b == p {
                    assert(pair_le(keys@[old_out[a] as int], keys@[i as int]));
                } else if a < p && b > p {
                    assert(out@[a] == old_out[a] && out@[b] == old_out[b - 1]);
                } else if a == p {
                    assert(out@[b] == old_out[b - 1]);
                    if b - 1 > p {
                        assert(before_pair(keys@, old_out[p as int], old_out[b - 1]));
                    }
                } else {
                    assert(out@[a] == old_out[a - 1] && out@[b] == old_out[b - 1]);
                }
            }
            assert forall|q: int| 0 <= q < i + 1 implies #[trigger] lists(out@, q) by {
                if q == i {
                    assert(out@[p as int] == q);
                } else {
                    assert(lists(old_out, q));
                    let k = choose|k: int| 0 <= k < old_out.len() && old_out[k] == q;
                    if k < p {
                        assert(out@[k] == q);
                    } else {
                        assert(out@[k + 1] == q);
                    }
                }
            }
        }
        i = i + 1;
    }
    out
}

} // verus!
