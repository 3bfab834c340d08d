//! Walking maps and ordering lists.
use std::collections::HashMap;

use vstd::prelude::*;
use vstd::std_specs::iter::IteratorSpec;

verus! {

broadcast use vstd::std_specs::hash::group_hash_axioms;

/// `items` are the values of `m` that satisfy `keep`, one for each key, in the
/// order of `keys`.
pub open spec fn lists_keys<K, V>(
    items: Seq<V>,
    m: Map<K, V>,
    keep: spec_fn(V) -> bool,
    keys: Seq<K>,
) -> bool {
    &&& keys.no_duplicates()
    &&& items.len() == keys.len()
    &&& forall|i: int|
        0 <= i < keys.len() ==> m.contains_key(#[trigger] keys[i]) && keep(m[keys[i]]) && items[i]
            == m[keys[i]]
    &&& forall|k: K| #[trigger] m.contains_key(k) && keep(m[k]) ==> keys.contains(k)
}

/// `items` are the values of `m` that satisfy `keep`, one for each key, in some
/// order.
pub open spec fn lists_where<K, V>(items: Seq<V>, m: Map<K, V>, keep: spec_fn(V) -> bool) -> bool {
    exists|keys: Seq<K>| lists_keys(items, m, keep, keys)
}

/// `items` are the values of `m`, one for each key, in some order.
pub open spec fn lists_all<K, V>(items: Seq<V>, m: Map<K, V>) -> bool {
    lists_where(items, m, |v: V| true)
}

/// The entries of a map, in the order in which it is walked.
pub fn entries_of<V>(m: &HashMap<u64, V>) -> (r: Vec<(u64, &V)>)
    ensures
        r@.len() == m@.len(),
        m@.dom().finite(),
        r@.map_values(|e: (u64, &V)| e.0).no_duplicates(),
        forall|i: int|
            0 <= i < r@.len() ==> m@.contains_key((#[trigger] r@[i]).0) && m@[r@[i].0] == *r@[i].1,
        forall|k: u64| #[trigger]
            m@.contains_key(k) ==> r@.map_values(|e: (u64, &V)| e.0).contains(k),
{
    let mut r: Vec<(u64, &V)> = Vec::new();
    let entries = m.iter();
    let ghost all = entries.remaining();
    for (k, v) in it: entries
        invariant
            it.seq() == all,
            r@.len() == it.index(),
            forall|i: int|
                0 <= i < r@.len() ==> (#[trigger] r@[i]).0 == *all[i].0 && r@[i].1 == all[i].1,
    {
        r.push((*k, v));
    }
    proof {
        let keys = r@.map_values(|e: (u64, &V)| e.0);
        assert forall|i: int| 0 <= i < r@.len() implies m@.contains_key((#[trigger] r@[i]).0)
            && m@[r@[i].0] == *r@[i].1 by {
            assert(m@.contains_key(*all[i].0));
        }
        assert forall|i: int, j: int| 0 <= i < j < keys.len() implies keys[i] != keys[j] by {
            assert(m@.contains_key(*all[i].0) && m@.contains_key(*all[j].0));
            if keys[i] == keys[j] {
                assert(all[i] == all[j]);
            }
        }
        assert forall|k: u64| #[trigger] m@.contains_key(k) implies keys.contains(k) by {
            let i = choose|i: int| 0 <= i < all.len() && all[i] == (&k, &m@[k]);
            assert(keys[i] == k);
        }
    }
    r
}

/// `order` names the positions of `counts` by ascending count; positions with
/// the same count stay in order.
pub open spec fn is_stable_order(counts: Seq<usize>, order: Seq<usize>) -> bool {
    &&& order.len() == counts.len()
    &&& forall|i: int| 0 <= i < order.len() ==> #[trigger] order[i] < counts.len()
    &&& forall|i: int, j: int|
        0 <= i < j < order.len() ==> counts[#[trigger] order[i] as int]
            < counts[#[trigger] order[j] as int] || (counts[order[i] as int]
            == counts[order[j] as int] && order[i] < order[j])
    &&& forall|p: usize| p < counts.len() ==> #[trigger] order.contains(p)
}

/// The positions of `counts` by ascending count, ties in order.
pub fn stable_order(counts: &Vec<usize>) -> (order: Vec<usize>)
    ensures
        is_stable_order(counts@, order@),
{
    let mut order: Vec<usize> = Vec::new();
    let mut k: usize = 0;
    while k < counts.len()
        invariant
            k <= counts@.len(),
            is_stable_order(counts@.take(k as int), order@),
        decreases counts@.len() - k,
    {
        let ghost before = order@;
        let ghost seen = counts@.take(k as int);
        let mut at: usize = order.len();
        while at > 0 && counts[order[at - 1]] > counts[k]
            invariant
                k < counts@.len(),
                seen == counts@.take(k as int),
                order@ == before,
                is_stable_order(seen, before),
                at <= before.len(),
                forall|j: int|
                    at <= j < before.len() ==> counts@[#[trigger] before[j] as int] > counts@[k as int],
            decreases at,
        {
            at = at - 1;
        }
        order.insert(at, k);
        proof {
            let now = counts@.take(k + 1);
            let after = order@;
            assert(after =~= before.insert(at as int, k));
            assert forall|j: int| 0 <= j < before.len() implies counts@[#[trigger] before[j] as int]
                == seen[before[j] as int] && now[before[j] as int] == seen[before[j] as int] by {}
            assert forall|j: int| 0 <= j < at implies counts@[#[trigger] before[j] as int]
                <= counts@[k as int] by {
                if j < at - 1 {
                    assert(seen[before[j] as int] <= seen[before[at - 1] as int]);
                }
            }
            assert forall|i: int| 0 <= i < after.len() implies #[trigger] after[i] < now.len() by {
                if i < at {
                    assert(after[i] == before[i]);
                } else if i > at {
                    assert(after[i] == before[i - 1]);
                }
            }
            assert forall|i: int, j: int| 0 <= i < j < after.len() implies now[#[trigger] after[i] as int]
                < now[#[trigger] after[j] as int] || (now[after[i] as int] == now[after[j] as int]
                && after[i] < after[j]) by {
                let bi = if i < at { i } else { i - 1 };
                let bj = if j < at { j } else { j - 1 };
                if i == at {
                    assert(after[j] == before[bj]);
                } else if j == at {
                    assert(after[i] == before[bi]);
                } else {
                    assert(after[i] == before[bi] && after[j] == before[bj]);
                }
            }
            assert forall|p: usize| p < now.len() implies #[trigger] after.contains(p) by {
                if p == k {
                    assert(after[at as int] == k);
                } else {
                    assert(before.contains(p));
                    let j = choose|j: int| 0 <= j < before.len() && before[j] == p;
                    assert(after[if j < at { j } else { j + 1 }] == p);
                }
            }
        }
        k = k + 1;
    }
    assert(counts@.take(counts@.len() as int) =~= counts@);
    order
}

/// There is only one stable order.
pub proof fn stable_order_unique(counts: Seq<usize>, a: Seq<usize>, b: Seq<usize>)
    requires
        is_stable_order(counts, a),
        is_stable_order(counts, b),
    ensures
        a == b,
{
    assert forall|i: int| 0 <= i < a.len() implies a[i] == b[i] by {
        stable_order_agrees(counts, a, b, i);
    }
    assert(a =~= b);
}

proof fn stable_order_agrees(counts: Seq<usize>, a: Seq<usize>, b: Seq<usize>, i: int)
    requires
        is_stable_order(counts, a),
        is_stable_order(counts, b),
        0 <= i < a.len(),
    ensures
        a[i] == b[i],
    decreases i,
{
    assert forall|j: int| 0 <= j < i implies a[j] == b[j] by {
        stable_order_agrees(counts, a, b, j);
    }
    assert(b.contains(a[i]));
    assert(a.contains(b[i]));
    let ia = choose|j: int| 0 <= j < b.len() && b[j] == a[i];
    let ib = choose|j: int| 0 <= j < a.len() && a[j] == b[i];
    if ia < i {
        assert(a[ia] == b[ia]);
    }
    if ib < i {
        assert(a[ib] == b[ib]);
    }
    if ia > i && ib > i {
        assert(counts[b[i] as int] <= counts[b[ia] as int]);
        assert(counts[a[i] as int] <= counts[a[ib] as int]);
    }
}

} // verus!
