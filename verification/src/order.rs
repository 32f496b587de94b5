//! Stable ordering of records by their creation instant.

use vstd::prelude::*;
use crate::time::Timestamp;

verus! {

/// The sort key of an instant: ascending order follows the time line,
/// descending order runs against it.
pub open spec fn order_key(t: Timestamp, descending: bool) -> int {
    if descending {
        -t.key()
    } else {
        t.key()
    }
}

/// The sort keys of a list of instants.
pub open spec fn order_keys(ts: Seq<Timestamp>, descending: bool) -> Seq<int> {
    Seq::new(ts.len(), |i: int| order_key(ts[i], descending))
}

/// Position `i` with key `ki` comes before position `j` with key `kj` in a
/// stable sort: smaller key first, and the earlier position among equal keys.
pub open spec fn stable_before(ki: int, i: int, kj: int, j: int) -> bool {
    ki < kj || (ki == kj && i < j)
}

/// `p` lists the positions `0..keys.len()` in the order of a stable sort by
/// `keys`: by key, and among equal keys in the order they were given.
pub open spec fn is_stable_order(keys: Seq<int>, p: Seq<usize>) -> bool {
    &&& p.len() == keys.len()
    &&& forall|i: int| 0 <= i < p.len() ==> (#[trigger] p[i]) < keys.len()
    &&& forall|i: int, j: int|
        0 <= i < j < p.len() ==> stable_before(
            keys[p[i] as int],
            p[i] as int,
            keys[p[j] as int],
            p[j] as int,
        )
}

/// The positions of `ts` in the order in which a stable sort by creation
/// instant (ascending, or descending) puts them; `sort_by` on the instants
/// gives this order.
pub fn stable_order(ts: &Vec<Timestamp>, descending: bool) -> (p: Vec<usize>)
    ensures
        is_stable_order(order_keys(ts@, descending), p@),
{
    let ghost keys = order_keys(ts@, descending);
    let mut p: Vec<usize> = Vec::new();
    let n = ts.len();
    for i in 0..n
        invariant
            n == ts.len(),
            keys == order_keys(ts@, descending),
            p.len() == i,
            forall|k: int| 0 <= k < p.len() ==> (#[trigger] p[k]) < i,
            forall|a: int, b: int|
                0 <= a < b < p.len() ==> stable_before(
                    keys[p[a] as int],
                    p[a] as int,
                    keys[p[b] as int],
                    p[b] as int,
                ),
    {
        let mut pos = p.len();
        while pos > 0 && comes_after(&ts[p[pos - 1]], &ts[i], descending)
            invariant
                n == ts.len(),
                keys == order_keys(ts@, descending),
                i < n,
                p.len() == i,
                pos <= p.len(),
                forall|k: int| 0 <= k < p.len() ==> (#[trigger] p[k]) < i,
                forall|k: int| pos <= k < p.len() ==> keys[p[k] as int] > keys[i as int],
            decreases pos,
        {
            pos = pos - 1;
        }
        proof {
            if pos > 0 {
                assert(keys[p[pos - 1] as int] <= keys[i as int]);
                assert forall|k: int| 0 <= k < pos implies keys[p[k] as int] <= keys[i as int] by {
                    if k < pos - 1 {
                        assert(stable_before(
                            keys[p[k] as int],
                            p[k] as int,
                            keys[p[pos - 1] as int],
                            p[pos - 1] as int,
                        ));
                    }
                }
            }
        }
        let ghost old_p = p@;
        p.insert(pos, i);
        proof {
            assert(p@ == old_p.insert(pos as int, i));
            assert forall|k: int| 0 <= k < p.len() implies (#[trigger] p[k]) < i + 1 by {
                if k < pos {
                    assert(p[k] == old_p[k]);
                } else if k > pos {
                    assert(p[k] == old_p[k - 1]);
                }
            }
            assert forall|a: int, b: int| 0 <= a < b < p.len() implies stable_before(
                keys[p[a] as int],
                p[a] as int,
                keys[p[b] as int],
                p[b] as int,
            ) by {
                if b < pos {
                    assert(p[a] == old_p[a] && p[b] == old_p[b]);
                } else if b == pos {
                    assert(p[a] == old_p[a]);
                } else if a == pos {
                    assert(p[b] == old_p[b - 1]);
                } else if a < pos {
                    assert(p[a] == old_p[a] && p[b] == old_p[b - 1]);
                } else {
                    assert(p[a] == old_p[a - 1] && p[b] == old_p[b - 1]);
                }
            }
        }
    }
    p
}

/// Whether `a` sorts strictly after `b` by creation instant.
fn comes_after(a: &Timestamp, b: &Timestamp, descending: bool) -> (r: bool)
    ensures
        r == (order_key(*a, descending) > order_key(*b, descending)),
{
    if descending {
        b.is_after(a)
    } else {
        a.is_after(b)
    }
}

/// Position `k` occurs in the list `p`.
pub open spec fn holds_position(p: Seq<usize>, k: int) -> bool {
    exists|i: int| 0 <= i < p.len() && p[i] == k
}

/// Two entries of a stable order hold different positions.
proof fn lemma_stable_order_distinct(keys: Seq<int>, p: Seq<usize>)
    requires
        is_stable_order(keys, p),
    ensures
        forall|i: int, j: int| 0 <= i < j < p.len() ==> p[i] != p[j],
{
    assert forall|i: int, j: int| 0 <= i < j < p.len() implies p[i] != p[j] by {
        assert(stable_before(keys[p[i] as int], p[i] as int, keys[p[j] as int], p[j] as int));
    }
}

/// Every position `0..keys.len()` occurs in a stable order.
proof fn lemma_stable_order_covers(keys: Seq<int>, p: Seq<usize>, k: int)
    requires
        is_stable_order(keys, p),
        0 <= k < keys.len(),
    ensures
        exists|i: int| 0 <= i < p.len() && p[i] == k,
{
    lemma_stable_order_distinct(keys, p);
    let n = keys.len() as int;
    let s = Seq::new(p.len(), |i: int| p[i] as int);
    assert(s.no_duplicates()) by {
        assert forall|i: int, j: int| 0 <= i < s.len() && 0 <= j < s.len() && i != j implies s[i]
            != s[j] by {
            if i < j {
                assert(p[i] != p[j]);
            } else {
                assert(p[j] != p[i]);
            }
        }
    }
    s.unique_seq_to_set();
    vstd::set_lib::lemma_int_range(0, n);
    let range = vstd::set_lib::set_int_range(0, n);
    assert(s.to_set().subset_of(range)) by {
        assert forall|x: int| s.to_set().contains(x) implies range.contains(x) by {
            let t = choose|t: int| 0 <= t < s.len() && s[t] == x;
            assert(p[t] < n);
        }
    }
    vstd::set_lib::lemma_subset_equality(s.to_set(), range);
    assert(range.contains(k));
    assert(s.to_set().contains(k));
    let t = choose|t: int| 0 <= t < s.len() && s[t] == k;
    assert(p[t] == k);
}

/// Two stable orders of the same keys agree on their first `i` entries.
proof fn lemma_stable_orders_agree(keys: Seq<int>, p: Seq<usize>, q: Seq<usize>, i: int)
    requires
        is_stable_order(keys, p),
        is_stable_order(keys, q),
        0 <= i <= keys.len(),
    ensures
        forall|t: int| 0 <= t < i ==> p[t] == q[t],
    decreases i,
{
    if i > 0 {
        lemma_stable_orders_agree(keys, p, q, i - 1);
        let a = p[i - 1];
        let b = q[i - 1];
        if a != b {
            lemma_stable_order_distinct(keys, p);
            lemma_stable_order_distinct(keys, q);
            lemma_stable_order_covers(keys, q, a as int);
            lemma_stable_order_covers(keys, p, b as int);
            let j = choose|j: int| 0 <= j < q.len() && q[j] == a as int;
            let m = choose|m: int| 0 <= m < p.len() && p[m] == b as int;
            if j < i - 1 {
                assert(p[j] == q[j]);
                assert(false);
            }
            if m < i - 1 {
                assert(q[m] == p[m]);
                assert(false);
            }
            assert(stable_before(keys[b as int], b as int, keys[a as int], a as int));
            assert(stable_before(keys[a as int], a as int, keys[b as int], b as int));
        }
    }
}

/// A stable order by `keys` holds every position `0..keys.len()` exactly
/// once, and it is the only one: two stable orders of the same keys are
/// equal.
pub proof fn law_stable_order_is_a_unique_permutation(keys: Seq<int>, p: Seq<usize>, q: Seq<usize>)
    requires
        is_stable_order(keys, p),
        is_stable_order(keys, q),
    ensures
        forall|i: int, j: int| 0 <= i < j < p.len() ==> p[i] != p[j],
        forall|k: int| 0 <= k < keys.len() ==> #[trigger] holds_position(p, k),
        p == q,
{
    lemma_stable_order_distinct(keys, p);
    assert forall|k: int| 0 <= k < keys.len() implies #[trigger] holds_position(p, k) by {
        lemma_stable_order_covers(keys, p, k);
    }
    lemma_stable_orders_agree(keys, p, q, keys.len() as int);
    assert(p =~= q);
}

/// A list of distinct positions below `n` has at most `n` entries.
pub proof fn lemma_distinct_positions_bounded(p: Seq<usize>, n: int)
    requires
        0 <= n,
        forall|i: int, j: int| 0 <= i < j < p.len() ==> p[i] != p[j],
        forall|i: int| 0 <= i < p.len() ==> (#[trigger] p[i]) < n,
    ensures
        p.len() <= n,
{
    let s = Seq::new(p.len(), |i: int| p[i] as int);
    assert(s.no_duplicates()) by {
        assert forall|i: int, j: int| 0 <= i < s.len() && 0 <= j < s.len() && i != j implies s[i]
            != s[j] by {
            if i < j {
                assert(p[i] != p[j]);
            } else {
                assert(p[j] != p[i]);
            }
        }
    }
    s.unique_seq_to_set();
    vstd::set_lib::lemma_int_range(0, n);
    assert(s.to_set().subset_of(vstd::set_lib::set_int_range(0, n))) by {
        assert forall|x: int| s.to_set().contains(x) implies vstd::set_lib::set_int_range(0, n).contains(x) by {
            let k = choose|k: int| 0 <= k < s.len() && s[k] == x;
            assert(p[k] < n);
        }
    }
    vstd::set_lib::lemma_len_subset(s.to_set(), vstd::set_lib::set_int_range(0, n));
}

} // verus!
