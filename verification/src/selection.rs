//! What it means to pick some of the entries of a list: every entry that is
//! wanted, each once, in the order of the list, and no other.
use vstd::prelude::*;

verus! {

/// `at` are the positions below `n` that are wanted, ascending.
pub open spec fn are_positions(at: Seq<int>, n: int, wanted: spec_fn(int) -> bool) -> bool {
    &&& forall|i: int| 0 <= i < at.len() ==> 0 <= #[trigger] at[i] < n && wanted(at[i])
    &&& forall|i: int, j: int| 0 <= i < j < at.len() ==> #[trigger] at[i] < #[trigger] at[j]
    &&& forall|k: int| 0 <= k < n && #[trigger] wanted(k) ==> at.contains(k)
}

/// `r` holds the values at the positions `at`, in that order.
pub open spec fn holds_at<T>(r: Seq<T>, at: Seq<int>, value: spec_fn(int) -> T) -> bool {
    &&& r.len() == at.len()
    &&& forall|i: int| 0 <= i < at.len() ==> #[trigger] r[i] == value(at[i])
}

/// `at` are the wanted positions, and `r` holds their values.
pub open spec fn picks_at<T>(
    r: Seq<T>,
    at: Seq<int>,
    n: int,
    wanted: spec_fn(int) -> bool,
    value: spec_fn(int) -> T,
) -> bool {
    are_positions(at, n, wanted) && holds_at(r, at, value)
}

/// `r` holds the values at the wanted positions below `n`: each once, in
/// ascending order of the positions, and nothing else.
pub open spec fn picks<T>(
    r: Seq<T>,
    n: int,
    wanted: spec_fn(int) -> bool,
    value: spec_fn(int) -> T,
) -> bool {
    exists|at: Seq<int>| #[trigger] picks_at(r, at, n, wanted, value)
}

/// Among no positions nothing is picked.
pub proof fn picks_none<T>(wanted: spec_fn(int) -> bool, value: spec_fn(int) -> T)
    ensures
        picks(Seq::<T>::empty(), 0, wanted, value),
{
    assert(picks_at(Seq::<T>::empty(), Seq::<int>::empty(), 0, wanted, value));
}

/// One more position adds its value at the end, if it is wanted.
pub proof fn picks_next<T>(
    r: Seq<T>,
    n: int,
    wanted: spec_fn(int) -> bool,
    value: spec_fn(int) -> T,
)
    requires
        n >= 0,
        picks(r, n, wanted, value),
    ensures
        picks(
            if wanted(n) {
                r.push(value(n))
            } else {
                r
            },
            n + 1,
            wanted,
            value,
        ),
{
    let at = choose|at: Seq<int>| #[trigger] picks_at(r, at, n, wanted, value);
    if wanted(n) {
        let more = at.push(n);
        assert forall|k: int| 0 <= k < n + 1 && #[trigger] wanted(k) implies more.contains(k) by {
            if k == n {
                assert(more[at.len() as int] == k);
            } else {
                let i = choose|i: int| 0 <= i < at.len() && at[i] == k;
                assert(more[i] == k);
            }
        }
        assert(picks_at(r.push(value(n)), more, n + 1, wanted, value));
    } else {
        assert(picks_at(r, at, n + 1, wanted, value));
    }
}

/// What is picked depends only on which of the positions are wanted and on
/// their values.
pub proof fn picks_alike<T>(
    r: Seq<T>,
    n: int,
    wanted: spec_fn(int) -> bool,
    value: spec_fn(int) -> T,
    wanted2: spec_fn(int) -> bool,
    value2: spec_fn(int) -> T,
)
    requires
        picks(r, n, wanted, value),
        forall|k: int| 0 <= k < n ==> #[trigger] wanted(k) == wanted2(k),
        forall|k: int| 0 <= k < n ==> #[trigger] value(k) == value2(k),
    ensures
        picks(r, n, wanted2, value2),
{
    let at = choose|at: Seq<int>| #[trigger] picks_at(r, at, n, wanted, value);
    assert forall|k: int| 0 <= k < n && #[trigger] wanted2(k) implies at.contains(k) by {
        assert(wanted(k));
    }
    assert(picks_at(r, at, n, wanted2, value2));
}

proof fn ascending_positions(at: Seq<int>, n: int, wanted: spec_fn(int) -> bool, i: int)
    requires
        are_positions(at, n, wanted),
        forall|k: int| 0 <= k < n ==> #[trigger] wanted(k),
        0 <= i < at.len(),
    ensures
        at[i] == i,
    decreases i,
{
    if i > 0 {
        ascending_positions(at, n, wanted, i - 1);
    }
    assert(0 <= at[i] < n);
    if at[i] > i {
        assert(wanted(i));
        let j = choose|j: int| 0 <= j < at.len() && at[j] == i;
        if j < i {
            assert(at[j] <= at[i - 1]);
        } else {
            assert(at[i] <= at[j]);
        }
    }
}

/// Where every position is wanted, every value stands in its own place.
pub proof fn picks_all<T>(
    r: Seq<T>,
    n: int,
    wanted: spec_fn(int) -> bool,
    value: spec_fn(int) -> T,
)
    requires
        n >= 0,
        picks(r, n, wanted, value),
        forall|k: int| 0 <= k < n ==> #[trigger] wanted(k),
    ensures
        r.len() == n,
        forall|k: int| 0 <= k < n ==> #[trigger] r[k] == value(k),
{
    let at = choose|at: Seq<int>| #[trigger] picks_at(r, at, n, wanted, value);
    assert forall|i: int| 0 <= i < at.len() implies #[trigger] at[i] == i by {
        ascending_positions(at, n, wanted, i);
    }
    if at.len() > n {
        assert(at[n] == n);
    }
    if at.len() < n {
        assert(wanted(n - 1));
        let j = choose|j: int| 0 <= j < at.len() && at[j] == n - 1;
        assert(at[j] == j);
    }
}

/// Every wanted value is picked, and whatever is picked is a wanted value.
pub proof fn picks_those<T>(
    r: Seq<T>,
    n: int,
    wanted: spec_fn(int) -> bool,
    value: spec_fn(int) -> T,
)
    requires
        n >= 0,
        picks(r, n, wanted, value),
    ensures
        forall|k: int| 0 <= k < n && #[trigger] wanted(k) ==> r.contains(value(k)),
        forall|i: int|
            0 <= i < r.len() ==> exists|k: int|
                0 <= k < n && #[trigger] wanted(k) && #[trigger] r[i] == value(k),
        r.len() <= n,
{
    let at = choose|at: Seq<int>| #[trigger] picks_at(r, at, n, wanted, value);
    assert forall|k: int| 0 <= k < n && #[trigger] wanted(k) implies r.contains(value(k)) by {
        let i = choose|i: int| 0 <= i < at.len() && at[i] == k;
        assert(r[i] == value(k));
    }
    assert forall|i: int| 0 <= i < r.len() implies exists|k: int|
        0 <= k < n && #[trigger] wanted(k) && #[trigger] r[i] == value(k) by {
        assert(wanted(at[i]));
    }
    positions_bounded(at, n, wanted, at.len() as int);
}

proof fn positions_bounded(at: Seq<int>, n: int, wanted: spec_fn(int) -> bool, i: int)
    requires
        n >= 0,
        are_positions(at, n, wanted),
        0 <= i <= at.len(),
    ensures
        i <= n,
        i > 0 ==> at[i - 1] >= i - 1,
    decreases i,
{
    if i > 0 {
        positions_bounded(at, n, wanted, i - 1);
        assert(0 <= at[i - 1] < n);
        if i > 1 {
            assert(at[i - 2] < at[i - 1]);
        }
    }
}

} // verus!
