//! Randomness: identifiers and choices. Nothing is known of what comes back
//! beyond the set it is taken from.
use rand::seq::IndexedRandom;
use vstd::prelude::*;

verus! {

/// `rand::random::<u64>` gives some number.
#[verifier::external_body]
pub(crate) fn random_u64() -> u64 {
    rand::random::<u64>()
}

/// `rand::seq::IndexedRandom::choose` gives some element of the slice, and
/// none where the slice is empty.
#[verifier::external_body]
pub(crate) fn choose_one<T>(items: &[T]) -> (r: Option<&T>)
    ensures
        match r {
            Some(item) => items@.contains(*item),
            None => items@.len() == 0,
        },
{
    items.choose(&mut rand::rng())
}

/// How many random draws are made before free identifiers are searched in
/// order.
pub const MAX_DRAWS: u32 = 1000;

/// The identifier `steps` after `start`, going round at the top.
pub open spec fn id_after(start: u64, steps: nat) -> u64 {
    ((start + steps) % 0x1_0000_0000_0000_0000) as u64
}

/// Some identifier that is not a key of `taken`: the first free one of a
/// number of random draws or, if all of those are taken, the next free one
/// after the last draw.
pub fn unused_id<T>(taken: &std::collections::HashMap<u64, T>) -> (id: u64)
    ensures
        !taken@.contains_key(id),
{
    broadcast use vstd::std_specs::hash::group_hash_axioms;

    let mut id: u64 = random_u64();
    let mut draws: u32 = 1;
    while draws < MAX_DRAWS && taken.contains_key(&id)
        invariant
            draws <= MAX_DRAWS,
        decreases MAX_DRAWS - draws,
    {
        id = random_u64();
        draws = draws + 1;
    }
    let len: usize = taken.len();
    let ghost start = id;
    let ghost mut steps: nat = 0;
    while taken.contains_key(&id)
        invariant
            taken@.dom().finite(),
            len == taken@.len(),
            id == id_after(start, steps),
            steps <= len,
            forall|k: nat| k < steps ==> taken@.contains_key(#[trigger] id_after(start, k)),
        decreases len - steps,
    {
        proof {
            distinct_ids_fit(taken@.dom(), start, steps + 1);
        }
        id = id.wrapping_add(1);
        proof {
            steps = steps + 1;
        }
    }
    id
}

/// A set that holds `count` consecutive identifiers has at least that many
/// elements.
proof fn distinct_ids_fit(ids: Set<u64>, start: u64, count: nat)
    requires
        ids.finite(),
        count <= 0x1_0000_0000_0000_0000,
        forall|k: nat| k < count ==> ids.contains(#[trigger] id_after(start, k)),
    ensures
        count <= ids.len(),
    decreases count,
{
    if count > 0 {
        let last = id_after(start, (count - 1) as nat);
        let rest = ids.remove(last);
        assert forall|k: nat| k < count - 1 implies rest.contains(#[trigger] id_after(start, k)) by {
            assert(id_after(start, k) != last);
        }
        distinct_ids_fit(rest, start, (count - 1) as nat);
    }
}

} // verus!
