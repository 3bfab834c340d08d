//! Consistent hashing: which node owns which key.
use std::collections::BTreeMap;

use vstd::prelude::*;
use vstd::std_specs::cmp::OrdSpec;
use vstd::std_specs::iter::IteratorSpec;
use vstd::utf8::encode_utf8;

use crate::text::{
    decimal, decimal_text, insert_ascending, join3, same_text, text_less_total, texts,
    texts_ascending,
};

verus! {

broadcast use {
    vstd::std_specs::btree::group_btree_axioms,
    vstd::laws_cmp::group_laws_cmp,
};

/// The number of positions that each node takes on the ring.
pub const VNODES_PER_NODE: u32 = 150;

/// The 64-bit XXH3 hash of `data`.
pub uninterp spec fn xxh3_hash(data: Seq<u8>) -> u64;

/// `xxhash_rust::xxh3::xxh3_64` is a function of the bytes that it is given.
pub assume_specification[ xxhash_rust::xxh3::xxh3_64 ](input: &[u8]) -> (r: u64)
    ensures
        r == xxh3_hash(input@),
;

/// The position of a key on the ring.
pub open spec fn key_position(key: Seq<char>) -> u64 {
    xxh3_hash(encode_utf8(key))
}

/// The position of the virtual node `i` of `node`.
pub open spec fn vnode_position(node: Seq<char>, i: nat) -> u64 {
    key_position(node + "-vnode-"@ + decimal_text(i))
}

/// The ring `ring` after `node` has taken its first `count` positions.
pub open spec fn with_vnodes(
    ring: Map<u64, Seq<char>>,
    node: Seq<char>,
    count: nat,
) -> Map<u64, Seq<char>>
    decreases count,
{
    if count == 0 {
        ring
    } else {
        with_vnodes(ring, node, (count - 1) as nat).insert(
            vnode_position(node, (count - 1) as nat),
            node,
        )
    }
}

/// The ring after `node` has taken `positions`.
pub open spec fn with_positions(
    ring: Map<u64, Seq<char>>,
    node: Seq<char>,
    positions: Seq<u64>,
) -> Map<u64, Seq<char>>
    decreases positions.len(),
{
    if positions.len() == 0 {
        ring
    } else {
        with_positions(ring, node, positions.drop_last()).insert(positions.last(), node)
    }
}

/// The first `count` positions of `node`.
pub open spec fn vnode_positions(node: Seq<char>, count: nat) -> Seq<u64> {
    Seq::new(count, |i: int| vnode_position(node, i as nat))
}

proof fn vnodes_are_positions(ring: Map<u64, Seq<char>>, node: Seq<char>, count: nat)
    ensures
        with_positions(ring, node, vnode_positions(node, count)) == with_vnodes(ring, node, count),
    decreases count,
{
    if count > 0 {
        vnodes_are_positions(ring, node, (count - 1) as nat);
        let all = vnode_positions(node, count);
        assert(all.drop_last() =~= vnode_positions(node, (count - 1) as nat));
    }
}

/// The ring after `node` has joined.
pub open spec fn ring_with(ring: Map<u64, Seq<char>>, node: Seq<char>) -> Map<u64, Seq<char>> {
    with_vnodes(ring, node, VNODES_PER_NODE as nat)
}

/// The ring after `node` has left.
pub open spec fn ring_without(ring: Map<u64, Seq<char>>, node: Seq<char>) -> Map<u64, Seq<char>> {
    Map::new(|p: u64| ring.contains_key(p) && ring[p] != node, |p: u64| ring[p])
}

/// How far it is, going clockwise, from one position to another.
pub open spec fn clockwise(from: u64, to: u64) -> int {
    if from <= to {
        to - from
    } else {
        to - from + 0x1_0000_0000_0000_0000
    }
}

/// `p` is the first position on the ring at or after `hash`, going clockwise.
pub open spec fn is_next_position(ring: Map<u64, Seq<char>>, hash: u64, p: u64) -> bool {
    &&& ring.contains_key(p)
    &&& forall|q: u64| #[trigger] ring.contains_key(q) ==> clockwise(hash, p) <= clockwise(hash, q)
}

/// `node` owns the ring position `hash`.
pub open spec fn owns(ring: Map<u64, Seq<char>>, node: Seq<char>, hash: u64) -> bool {
    exists|p: u64| #[trigger] is_next_position(ring, hash, p) && ring[p] == node
}

/// The node that owns the ring position `hash`, if any does.
pub open spec fn owner_of(ring: Map<u64, Seq<char>>, hash: u64) -> Option<Seq<char>> {
    if exists|node: Seq<char>| owns(ring, node, hash) {
        Some(choose|node: Seq<char>| owns(ring, node, hash))
    } else {
        None
    }
}

/// `range` covers `hash`: the start is inclusive, the end exclusive, and a
/// range whose end lies before its start runs over the top of the ring.
pub open spec fn in_range(hash: u64, range: (u64, u64)) -> bool {
    if range.0 <= range.1 {
        range.0 <= hash < range.1
    } else {
        hash >= range.0 || hash < range.1
    }
}

pub open spec fn in_ranges(hash: u64, ranges: Seq<(u64, u64)>) -> bool {
    exists|i: int| 0 <= i < ranges.len() && in_range(hash, #[trigger] ranges[i])
}

/// The positions in `order` are those of `ring`, ascending.
pub open spec fn is_ring_order(order: Seq<u64>, ring: Map<u64, Seq<char>>) -> bool {
    &&& forall|i: int, j: int| 0 <= i < j < order.len() ==> order[i] < order[j]
    &&& forall|i: int| 0 <= i < order.len() ==> ring.contains_key(#[trigger] order[i])
    &&& forall|p: u64| #[trigger] ring.contains_key(p) ==> order.contains(p)
}

/// The ranges of the positions after `prev`, up to and with `pos`.
pub open spec fn arc(prev: u64, pos: u64) -> Seq<(u64, u64)> {
    if prev < pos {
        seq![((prev + 1) as u64, if pos == u64::MAX { 0 } else { (pos + 1) as u64 })]
    } else {
        let top = if prev == u64::MAX {
            Seq::<(u64, u64)>::empty()
        } else {
            seq![((prev + 1) as u64, 0u64)]
        };
        let bottom = if pos == u64::MAX {
            seq![(0u64, u64::MAX), (u64::MAX, 0u64)]
        } else {
            seq![(0u64, (pos + 1) as u64)]
        };
        top + bottom
    }
}

/// The position before the one at index `i`, around the ring.
pub open spec fn position_before(order: Seq<u64>, i: int) -> u64 {
    if i == 0 {
        order[order.len() - 1]
    } else {
        order[i - 1]
    }
}

/// The ranges that `node` owns through its positions among the first `count`.
pub open spec fn owned_ranges(
    order: Seq<u64>,
    ring: Map<u64, Seq<char>>,
    node: Seq<char>,
    count: int,
) -> Seq<(u64, u64)>
    decreases count,
{
    if count <= 0 {
        Seq::<(u64, u64)>::empty()
    } else {
        let before = owned_ranges(order, ring, node, count - 1);
        if ring[order[count - 1]] == node {
            before + arc(position_before(order, count - 1), order[count - 1])
        } else {
            before
        }
    }
}

/// A ring of virtual nodes: each node takes `VNODES_PER_NODE` positions, and a
/// key belongs to the first position clockwise from its hash.
pub struct HashRing {
    ring: BTreeMap<u64, String>,
}

impl View for HashRing {
    type V = Map<u64, Seq<char>>;

    closed spec fn view(&self) -> Map<u64, Seq<char>> {
        self.ring@.map_values(|s: String| s@)
    }
}

impl HashRing {
    /// An empty ring.
    pub fn new() -> (r: Self)
        ensures
            r@ == Map::<u64, Seq<char>>::empty(),
    {
        let r = HashRing { ring: BTreeMap::new() };
        assert(r@ =~= Map::<u64, Seq<char>>::empty());
        r
    }

    /// The position of a key on the ring.
    pub fn hash_key(key: &str) -> (r: u64)
        ensures
            r == key_position(key@),
    {
        xxhash_rust::xxh3::xxh3_64(key.as_bytes())
    }

    /// Gives `node_id` its positions on the ring.
    pub fn add_node(&mut self, node_id: &str)
        ensures
            final(self)@ == ring_with(old(self)@, node_id@),
    {
        let mut positions: Vec<u64> = Vec::new();
        let mut i: u32 = 0;
        while i < VNODES_PER_NODE
            invariant
                i <= VNODES_PER_NODE,
                positions@ == vnode_positions(node_id@, i as nat),
            decreases VNODES_PER_NODE - i,
        {
            let vnode_key: String = join3(node_id, "-vnode-", decimal(i as u64).as_str());
            positions.push(Self::hash_key(vnode_key.as_str()));
            i = i + 1;
            assert(positions@ =~= vnode_positions(node_id@, i as nat));
        }
        proof {
            vnodes_are_positions(self@, node_id@, VNODES_PER_NODE as nat);
        }
        self.add_positions(node_id, &positions);
    }

    /// Gives `node_id` these positions on the ring, whoever had them.
    pub fn add_positions(&mut self, node_id: &str, positions: &Vec<u64>)
        ensures
            final(self)@ == with_positions(old(self)@, node_id@, positions@),
    {
        let mut i: usize = 0;
        assert(positions@.take(0) =~= Seq::<u64>::empty());
        while i < positions.len()
            invariant
                i <= positions@.len(),
                self@ == with_positions(old(self)@, node_id@, positions@.take(i as int)),
            decreases positions@.len() - i,
        {
            let ghost before = self@;
            self.ring.insert(positions[i], node_id.to_owned());
            assert(self@ =~= before.insert(positions@[i as int], node_id@));
            assert(positions@.take(i + 1).drop_last() =~= positions@.take(i as int));
            i = i + 1;
        }
        assert(positions@.take(positions@.len() as int) =~= positions@);
    }

    /// The positions on the ring, ascending, each with its node.
    fn vnodes(&self) -> (r: Vec<(u64, &String)>)
        ensures
            r@.len() == self@.len(),
            is_ring_order(r@.map_values(|v: (u64, &String)| v.0), self@),
            forall|i: int| 0 <= i < r@.len() ==> self@[(#[trigger] r@[i]).0] == r@[i].1@,
    {
        let mut r: Vec<(u64, &String)> = Vec::new();
        let entries = self.ring.iter();
        let ghost all = entries.remaining();
        for (p, node) in it: entries
            invariant
                it.seq() == all,
                r@.len() == it.index(),
                forall|i: int| 0 <= i < r@.len() ==> (#[trigger] r@[i]).0 == *all[i].0,
                forall|i: int| 0 <= i < r@.len() ==> (#[trigger] r@[i]).1 == all[i].1,
        {
            r.push((*p, node));
        }
        proof {
            let order = r@.map_values(|v: (u64, &String)| v.0);
            assert(order =~= all.map_values(|kv: (&u64, &String)| *kv.0));
            assert(self@.dom() =~= self.ring@.dom());
            assert forall|i: int, j: int| 0 <= i < j < order.len() implies order[i] < order[j] by {
                assert(order[i].cmp_spec(&order[j]) is Less);
            }
            assert forall|p: u64| #[trigger] self@.contains_key(p) implies order.contains(p) by {
                assert(self.ring@.contains_key(p));
                let i = choose|i: int| 0 <= i < all.len() && all[i] == (&p, &self.ring@[p]);
                assert(order[i] == p);
            }
            assert forall|i: int| 0 <= i < order.len() implies self@.contains_key(#[trigger] order[i]) by {
                assert(self.ring@.contains_key(*all[i].0));
            }
            assert forall|i: int| 0 <= i < r@.len() implies self@[(#[trigger] r@[i]).0] == r@[i].1@ by {
                assert(self.ring@.contains_key(*all[i].0));
            }
        }
        r
    }

    /// Takes all positions of `node_id` off the ring.
    pub fn remove_node(&mut self, node_id: &str)
        ensures
            final(self)@ == ring_without(old(self)@, node_id@),
    {
        let ghost before = self@;
        let mut gone: Vec<u64> = Vec::new();
        let vnodes: Vec<(u64, &String)> = self.vnodes();
        let ghost order = vnodes@.map_values(|v: (u64, &String)| v.0);
        let mut i: usize = 0;
        while i < vnodes.len()
            invariant
                i <= vnodes@.len(),
                self@ == before,
                order == vnodes@.map_values(|v: (u64, &String)| v.0),
                is_ring_order(order, before),
                forall|j: int|
                    0 <= j < vnodes@.len() ==> before[(#[trigger] vnodes@[j]).0] == vnodes@[j].1@,
                forall|j: int|
                    0 <= j < gone@.len() ==> before.contains_key(#[trigger] gone@[j])
                        && before[gone@[j]] == node_id@,
                forall|j: int|
                    0 <= j < i && before[#[trigger] order[j]] == node_id@ ==> gone@.contains(order[j]),
            decreases vnodes@.len() - i,
        {
            let ghost collected = gone@;
            assert(order[i as int] == vnodes@[i as int].0);
            if same_text(vnodes[i].1.as_str(), node_id) {
                gone.push(vnodes[i].0);
                assert(gone@[collected.len() as int] == order[i as int]);
                assert forall|j: int|
                    0 <= j < i && before[#[trigger] order[j]] == node_id@ implies gone@.contains(order[j]) by {
                    let k = choose|k: int| 0 <= k < collected.len() && collected[k] == order[j];
                    assert(gone@[k] == order[j]);
                }
            }
            i = i + 1;
        }
        let mut k: usize = 0;
        while k < gone.len()
            invariant
                k <= gone@.len(),
                forall|p: u64| #[trigger]
                    self@.contains_key(p) <==> before.contains_key(p) && !gone@.take(k as int).contains(p),
                forall|p: u64| #[trigger] self@.contains_key(p) ==> self@[p] == before[p],
            decreases gone@.len() - k,
        {
            let ghost was = *self;
            self.ring.remove(&gone[k]);
            proof {
                let a = gone@.take(k as int);
                let b = gone@.take(k + 1);
                assert(b =~= a.push(gone@[k as int]));
                assert forall|p: u64| b.contains(p) <==> a.contains(p) || p == gone@[k as int] by {
                    if a.contains(p) {
                        let j = choose|j: int| 0 <= j < a.len() && a[j] == p;
                        assert(b[j] == p);
                    }
                    if p == gone@[k as int] {
                        assert(b[k as int] == p);
                    }
                }
                assert forall|p: u64| #[trigger]
                    self@.contains_key(p) <==> before.contains_key(p) && !b.contains(p) by {
                    assert(self@.contains_key(p) <==> was@.contains_key(p) && p != gone@[k as int]);
                }
                assert forall|p: u64| #[trigger] self@.contains_key(p) implies self@[p] == before[p] by {
                    assert(was@.contains_key(p));
                }
            }
            k = k + 1;
        }
        proof {
            assert(gone@.take(gone@.len() as int) =~= gone@);
            let after = ring_without(before, node_id@);
            assert forall|p: u64| self@.contains_key(p) <==> after.contains_key(p) by {
                if before.contains_key(p) {
                    assert(order.contains(p));
                    let j = choose|j: int| 0 <= j < order.len() && order[j] == p;
                    assert(order[j] == p);
                }
            }
            assert(self@ =~= after);
        }
    }

    /// The node that owns `key`: the one at the first position clockwise from
    /// the key's hash. An empty ring has no owner.
    pub fn get_owner(&self, key: &str) -> (r: Option<&str>)
        ensures
            match r {
                Some(node) => owns(self@, node@, key_position(key@)) && owner_of(
                    self@,
                    key_position(key@),
                ) == Some(node@),
                None => self@.len() == 0 && owner_of(self@, key_position(key@)) is None,
            },
            self@.dom().finite(),
    {
        self.owner_at(Self::hash_key(key))
    }

    /// The node that owns the ring position `hash`: the one at the first
    /// position clockwise from it.
    pub fn owner_at(&self, hash: u64) -> (r: Option<&str>)
        ensures
            match r {
                Some(node) => owns(self@, node@, hash) && owner_of(self@, hash) == Some(node@),
                None => self@.len() == 0 && owner_of(self@, hash) is None,
            },
            self@.dom().finite(),
    {
        assert(self@.dom() =~= self.ring@.dom());
        let vnodes: Vec<(u64, &String)> = self.vnodes();
        if vnodes.len() == 0 {
            assert forall|p: u64| !self@.contains_key(p) by {
                if self@.contains_key(p) {
                    assert(self@.dom().contains(p));
                }
            }
            return None;
        }
        let ghost order = vnodes@.map_values(|v: (u64, &String)| v.0);
        let mut i: usize = 0;
        while i < vnodes.len() && vnodes[i].0 < hash
            invariant
                i <= vnodes@.len(),
                order == vnodes@.map_values(|v: (u64, &String)| v.0),
                forall|j: int| 0 <= j < i ==> #[trigger] order[j] < hash,
            decreases vnodes@.len() - i,
        {
            assert(order[i as int] == vnodes@[i as int].0);
            i = i + 1;
        }
        let at: usize = if i < vnodes.len() { i } else { 0 };
        proof {
            let p = order[at as int];
            assert(p == vnodes@[at as int].0);
            assert forall|q: u64| #[trigger] self@.contains_key(q) implies clockwise(hash, p)
                <= clockwise(hash, q) by {
                let j = choose|j: int| 0 <= j < order.len() && order[j] == q;
                assert(order[j] == q);
                if j < at {
                    assert(order[j] < hash);
                } else if j > at {
                    assert(order[at as int] < order[j]);
                }
            }
            assert(is_next_position(self@, hash, p));
            assert(owns(self@, self@[p], hash));
            exactly_one_owner(self@, hash);
        }
        Some(vnodes[at].1.as_str())
    }

    /// The ranges of hashes that `node_id` owns: those whose next position
    /// clockwise is one of its own.
    pub fn get_owned_ranges(&self, node_id: &str) -> (r: Vec<(u64, u64)>)
        ensures
            exists|order: Seq<u64>| #[trigger]
                is_ring_order(order, self@) && r@ == owned_ranges(
                    order,
                    self@,
                    node_id@,
                    order.len() as int,
                ),
            forall|hash: u64| #[trigger] in_ranges(hash, r@) <==> owns(self@, node_id@, hash),
    {
        let vnodes: Vec<(u64, &String)> = self.vnodes();
        let ghost order = vnodes@.map_values(|v: (u64, &String)| v.0);
        let len: usize = vnodes.len();
        let mut ranges: Vec<(u64, u64)> = Vec::new();
        let mut i: usize = 0;
        while i < len
            invariant
                i <= len,
                len == vnodes@.len(),
                order == vnodes@.map_values(|v: (u64, &String)| v.0),
                is_ring_order(order, self@),
                forall|j: int|
                    0 <= j < vnodes@.len() ==> self@[(#[trigger] vnodes@[j]).0] == vnodes@[j].1@,
                ranges@ == owned_ranges(order, self@, node_id@, i as int),
            decreases len - i,
        {
            assert(order[i as int] == vnodes@[i as int].0);
            if same_text(vnodes[i].1.as_str(), node_id) {
                let pos: u64 = vnodes[i].0;
                let prev: u64 = if i == 0 {
                    vnodes[len - 1].0
                } else {
                    vnodes[i - 1].0
                };
                assert(prev == position_before(order, i as int));
                let ghost before = ranges@;
                if prev < pos {
                    ranges.push((prev + 1, pos.wrapping_add(1)));
                } else {
                    if prev < u64::MAX {
                        ranges.push((prev + 1, 0));
                    }
                    if pos < u64::MAX {
                        ranges.push((0, pos + 1));
                    } else {
                        ranges.push((0, u64::MAX));
                        ranges.push((u64::MAX, 0));
                    }
                }
                assert(ranges@ =~= before + arc(prev, pos));
            }
            i = i + 1;
        }
        proof {
            assert forall|hash: u64| #[trigger] in_ranges(hash, ranges@) <==> owns(
                self@,
                node_id@,
                hash,
            ) by {
                owned_ranges_cover(order, self@, node_id@, hash);
            }
        }
        ranges
    }

    /// Whether `hash` falls into any of `ranges`.
    pub fn hash_in_ranges(hash: u64, ranges: &[(u64, u64)]) -> (r: bool)
        ensures
            r == in_ranges(hash, ranges@),
    {
        let mut i: usize = 0;
        while i < ranges.len()
            invariant
                i <= ranges@.len(),
                forall|j: int| 0 <= j < i ==> !in_range(hash, #[trigger] ranges@[j]),
            decreases ranges@.len() - i,
        {
            let (start, end): (u64, u64) = ranges[i];
            if start <= end {
                if hash >= start && hash < end {
                    assert(in_range(hash, ranges@[i as int]));
                    return true;
                }
            } else {
                if hash >= start || hash < end {
                    assert(in_range(hash, ranges@[i as int]));
                    return true;
                }
            }
            i = i + 1;
        }
        false
    }

    /// The nodes on the ring, in ascending order, each once.
    pub fn nodes(&self) -> (r: Vec<String>)
        ensures
            texts_ascending(texts(r@)),
            texts(r@).to_set() == self@.values(),
    {
        let vnodes: Vec<(u64, &String)> = self.vnodes();
        let ghost order = vnodes@.map_values(|v: (u64, &String)| v.0);
        let mut r: Vec<String> = Vec::new();
        let mut i: usize = 0;
        assert(texts(r@).to_set() =~= Set::<Seq<char>>::empty());
        while i < vnodes.len()
            invariant
                i <= vnodes@.len(),
                texts_ascending(texts(r@)),
                forall|t: Seq<char>| #[trigger]
                    texts(r@).to_set().contains(t) <==> exists|j: int|
                        0 <= j < i && (#[trigger] vnodes@[j]).1@ == t,
            decreases vnodes@.len() - i,
        {
            let ghost was = texts(r@).to_set();
            insert_ascending(&mut r, vnodes[i].1.as_str());
            proof {
                let now = texts(r@).to_set();
                assert forall|t: Seq<char>| #[trigger] now.contains(t) <==> exists|j: int|
                    0 <= j < i + 1 && (#[trigger] vnodes@[j]).1@ == t by {
                    assert(now.contains(t) <==> was.contains(t) || t == vnodes@[i as int].1@);
                }
            }
            i = i + 1;
        }
        proof {
            assert forall|t: Seq<char>| texts(r@).to_set().contains(t) <==> self@.values().contains(t) by {
                if self@.values().contains(t) {
                    let p = choose|p: u64| self@.contains_key(p) && self@[p] == t;
                    assert(order.contains(p));
                    let j = choose|j: int| 0 <= j < order.len() && order[j] == p;
                    assert(vnodes@[j].1@ == t);
                }
                if texts(r@).to_set().contains(t) {
                    let j = choose|j: int| 0 <= j < vnodes@.len() && (#[trigger] vnodes@[j]).1@ == t;
                    assert(self@.contains_key(order[j]));
                    assert(order[j] == vnodes@[j].0);
                }
            }
            assert(texts(r@).to_set() =~= self@.values());
        }
        r
    }

    /// The number of nodes on the ring.
    pub fn node_count(&self) -> (r: usize)
        ensures
            r == self@.values().len(),
            self@.dom().finite(),
    {
        assert(self@.dom() =~= self.ring@.dom());
        let nodes: Vec<String> = self.nodes();
        proof {
            let items = texts(nodes@);
            assert forall|i: int, j: int|
                0 <= i < items.len() && 0 <= j < items.len() && i != j implies items[i] != items[j] by {
                text_less_total(items[i], items[j]);
            }
            items.unique_seq_to_set();
        }
        nodes.len()
    }

    /// Whether no node is on the ring.
    pub fn is_empty(&self) -> (r: bool)
        ensures
            r == (self@.len() == 0),
    {
        assert(self@.dom() =~= self.ring@.dom());
        self.ring.len() == 0
    }
}

proof fn in_ranges_concat(hash: u64, a: Seq<(u64, u64)>, b: Seq<(u64, u64)>)
    ensures
        in_ranges(hash, a + b) <==> in_ranges(hash, a) || in_ranges(hash, b),
{
    let all = a + b;
    if in_ranges(hash, a) {
        let i = choose|i: int| 0 <= i < a.len() && in_range(hash, #[trigger] a[i]);
        assert(all[i] == a[i]);
    }
    if in_ranges(hash, b) {
        let i = choose|i: int| 0 <= i < b.len() && in_range(hash, #[trigger] b[i]);
        assert(all[a.len() + i] == b[i]);
    }
    if in_ranges(hash, all) {
        let i = choose|i: int| 0 <= i < all.len() && in_range(hash, #[trigger] all[i]);
        if i < a.len() {
            assert(in_range(hash, a[i]));
        } else {
            assert(in_range(hash, b[i - a.len()]));
        }
    }
}

/// An arc covers the hashes behind its first position, up to its second.
pub proof fn arc_covers(hash: u64, prev: u64, pos: u64)
    ensures
        in_ranges(hash, arc(prev, pos)) <==> if prev < pos {
            prev < hash <= pos
        } else {
            hash > prev || hash <= pos
        },
{
    let ranges = arc(prev, pos);
    if prev < pos {
        assert(in_range(hash, ranges[0]) <==> prev < hash <= pos);
    } else {
        let top = if prev == u64::MAX {
            Seq::<(u64, u64)>::empty()
        } else {
            seq![((prev + 1) as u64, 0u64)]
        };
        let bottom = if pos == u64::MAX {
            seq![(0u64, u64::MAX), (u64::MAX, 0u64)]
        } else {
            seq![(0u64, (pos + 1) as u64)]
        };
        in_ranges_concat(hash, top, bottom);
        if prev < u64::MAX {
            assert(in_range(hash, top[0]) <==> hash > prev);
        }
        if pos < u64::MAX {
            assert(in_range(hash, bottom[0]) <==> hash <= pos);
        } else if hash < u64::MAX {
            assert(in_range(hash, bottom[0]));
        } else {
            assert(in_range(hash, bottom[1]));
        }
    }
}

proof fn arc_is_next(order: Seq<u64>, ring: Map<u64, Seq<char>>, i: int, hash: u64)
    requires
        is_ring_order(order, ring),
        0 <= i < order.len(),
    ensures
        in_ranges(hash, arc(position_before(order, i), order[i])) <==> is_next_position(
            ring,
            hash,
            order[i],
        ),
{
    let prev = position_before(order, i);
    let pos = order[i];
    arc_covers(hash, prev, pos);
    assert(ring.contains_key(prev));
    if in_ranges(hash, arc(prev, pos)) {
        assert forall|q: u64| #[trigger] ring.contains_key(q) implies clockwise(hash, pos)
            <= clockwise(hash, q) by {
            let j = choose|j: int| 0 <= j < order.len() && order[j] == q;
            assert(order[j] == q);
            if j < i {
                assert(j == i - 1 || order[j] < order[i - 1]);
            } else if i == 0 && j < order.len() - 1 {
                assert(order[j] < order[order.len() - 1]);
            }
        }
    }
}

proof fn owned_ranges_count(
    order: Seq<u64>,
    ring: Map<u64, Seq<char>>,
    node: Seq<char>,
    hash: u64,
    count: int,
)
    requires
        is_ring_order(order, ring),
        0 <= count <= order.len(),
    ensures
        in_ranges(hash, owned_ranges(order, ring, node, count)) <==> exists|i: int|
            0 <= i < count && ring[#[trigger] order[i]] == node && is_next_position(
                ring,
                hash,
                order[i],
            ),
    decreases count,
{
    if count > 0 {
        owned_ranges_count(order, ring, node, hash, count - 1);
        arc_is_next(order, ring, count - 1, hash);
        let before = owned_ranges(order, ring, node, count - 1);
        if ring[order[count - 1]] == node {
            in_ranges_concat(
                hash,
                before,
                arc(position_before(order, count - 1), order[count - 1]),
            );
        }
    }
}

proof fn owned_ranges_cover(
    order: Seq<u64>,
    ring: Map<u64, Seq<char>>,
    node: Seq<char>,
    hash: u64,
)
    requires
        is_ring_order(order, ring),
    ensures
        in_ranges(hash, owned_ranges(order, ring, node, order.len() as int)) <==> owns(
            ring,
            node,
            hash,
        ),
{
    owned_ranges_count(order, ring, node, hash, order.len() as int);
    if owns(ring, node, hash) {
        let p = choose|p: u64| #[trigger] is_next_position(ring, hash, p) && ring[p] == node;
        assert(order.contains(p));
        let j = choose|j: int| 0 <= j < order.len() && order[j] == p;
        assert(ring[order[j]] == node && is_next_position(ring, hash, order[j]));
    }
}

proof fn next_position_exists(ring: Map<u64, Seq<char>>, hash: u64) -> (p: u64)
    requires
        ring.dom().finite(),
        ring.len() > 0,
    ensures
        is_next_position(ring, hash, p),
    decreases ring.len(),
{
    let first = ring.dom().choose();
    let rest = ring.remove(first);
    if rest.len() == 0 {
        assert forall|q: u64| #[trigger] ring.contains_key(q) implies q == first by {
            if q != first {
                assert(rest.dom().contains(q));
            }
        }
        first
    } else {
        let p = next_position_exists(rest, hash);
        assert(ring.contains_key(p));
        let best = if clockwise(hash, first) <= clockwise(hash, p) { first } else { p };
        assert forall|q: u64| #[trigger] ring.contains_key(q) implies clockwise(hash, best)
            <= clockwise(hash, q) by {
            if q != first {
                assert(rest.contains_key(q));
            }
        }
        best
    }
}

/// Every position of a ring with nodes has an owner, and only one.
pub proof fn exactly_one_owner(ring: Map<u64, Seq<char>>, hash: u64)
    requires
        ring.dom().finite(),
        ring.len() > 0,
    ensures
        exists|node: Seq<char>| owns(ring, node, hash),
        forall|a: Seq<char>, b: Seq<char>|
            #![trigger owns(ring, a, hash), owns(ring, b, hash)]
            owns(ring, a, hash) && owns(ring, b, hash) ==> a == b,
{
    let p = next_position_exists(ring, hash);
    assert(owns(ring, ring[p], hash));
    assert forall|a: Seq<char>, b: Seq<char>|
        #![trigger owns(ring, a, hash), owns(ring, b, hash)]
        owns(ring, a, hash) && owns(ring, b, hash) implies a == b by {
        let pa = choose|q: u64| #[trigger] is_next_position(ring, hash, q) && ring[q] == a;
        let pb = choose|q: u64| #[trigger] is_next_position(ring, hash, q) && ring[q] == b;
        assert(ring.contains_key(pa) && ring.contains_key(pb));
        assert(pa == pb);
    }
}

/// The owned ranges of the nodes divide the ring: every hash lies in the
/// ranges of one node, and of no other.
pub proof fn ranges_divide_the_ring(order: Seq<u64>, ring: Map<u64, Seq<char>>, hash: u64)
    requires
        is_ring_order(order, ring),
        ring.dom().finite(),
        ring.len() > 0,
    ensures
        exists|node: Seq<char>|
            in_ranges(hash, #[trigger] owned_ranges(order, ring, node, order.len() as int)),
        forall|a: Seq<char>, b: Seq<char>|
            in_ranges(hash, #[trigger] owned_ranges(order, ring, a, order.len() as int))
                && in_ranges(hash, #[trigger] owned_ranges(order, ring, b, order.len() as int))
                ==> a == b,
{
    exactly_one_owner(ring, hash);
    let node = choose|node: Seq<char>| owns(ring, node, hash);
    owned_ranges_cover(order, ring, node, hash);
    assert forall|a: Seq<char>, b: Seq<char>|
        in_ranges(hash, #[trigger] owned_ranges(order, ring, a, order.len() as int)) && in_ranges(
            hash,
            #[trigger] owned_ranges(order, ring, b, order.len() as int),
        ) implies a == b by {
        owned_ranges_cover(order, ring, a, hash);
        owned_ranges_cover(order, ring, b, hash);
    }
}

/// What joining does to single positions.
pub(crate) proof fn with_vnodes_values(
    ring: Map<u64, Seq<char>>,
    node: Seq<char>,
    count: nat,
)
    ensures
        forall|p: u64| #[trigger]
            ring.contains_key(p) ==> with_vnodes(ring, node, count).contains_key(p),
        forall|p: u64| #[trigger]
            with_vnodes(ring, node, count).contains_key(p) ==> with_vnodes(ring, node, count)[p]
                == node || (ring.contains_key(p) && with_vnodes(ring, node, count)[p] == ring[p]),
        forall|p: u64| #[trigger]
            with_vnodes(ring, node, count).contains_key(p) && !ring.contains_key(p) ==> exists|
                i: nat,
            |
                i < count && p == #[trigger] vnode_position(node, i),
        forall|i: nat|
            i < count ==> with_vnodes(ring, node, count).contains_key(
                #[trigger] vnode_position(node, i),
            ) && with_vnodes(ring, node, count)[vnode_position(node, i)] == node,
        forall|p: u64|
            ring.contains_key(p) && (forall|i: nat|
                i < count ==> p != #[trigger] vnode_position(node, i)) ==> #[trigger] with_vnodes(
                ring,
                node,
                count,
            )[p] == ring[p],
        ring.dom().finite() ==> with_vnodes(ring, node, count).dom().finite(),
    decreases count,
{
    if count > 0 {
        let last = (count - 1) as nat;
        with_vnodes_values(ring, node, last);
        let before = with_vnodes(ring, node, last);
        let after = with_vnodes(ring, node, count);
        let at = vnode_position(node, last);
        assert(after == before.insert(at, node));
        assert forall|p: u64| #[trigger] after.contains_key(p) && !ring.contains_key(p) implies exists|
            i: nat,
        |
            i < count && p == #[trigger] vnode_position(node, i) by {
            if p != at {
                assert(before.contains_key(p));
                let i = choose|i: nat| i < last && p == #[trigger] vnode_position(node, i);
                assert(i < count && p == vnode_position(node, i));
            }
        }
        assert forall|i: nat| i < count implies after.contains_key(#[trigger] vnode_position(node, i))
            && after[vnode_position(node, i)] == node by {
            if i < last {
                assert(before.contains_key(vnode_position(node, i)));
            }
        }
        assert forall|p: u64|
            ring.contains_key(p) && (forall|i: nat|
                i < count ==> p != #[trigger] vnode_position(node, i)) implies #[trigger] after[p]
            == ring[p] by {
            assert(p != at);
            assert(before[p] == ring[p]);
        }
    }
}

/// A node that joins takes keys over, and nothing else moves: each key then
/// belongs to the newcomer or to the node that owned it before.
pub proof fn joining_moves_keys_only_to_the_newcomer(
    ring: Map<u64, Seq<char>>,
    node: Seq<char>,
    owner: Seq<char>,
    hash: u64,
)
    requires
        owns(ring_with(ring, node), owner, hash),
    ensures
        owner == node || owns(ring, owner, hash),
{
    let after = ring_with(ring, node);
    with_vnodes_values(ring, node, VNODES_PER_NODE as nat);
    let p = choose|p: u64| #[trigger] is_next_position(after, hash, p) && after[p] == owner;
    assert(after.contains_key(p));
    if owner != node {
        assert forall|q: u64| #[trigger] ring.contains_key(q) implies clockwise(hash, p)
            <= clockwise(hash, q) by {
            assert(after.contains_key(q));
        }
        assert(is_next_position(ring, hash, p));
    }
}

/// A node that leaves gives its keys up, and no other key moves.
pub proof fn leaving_moves_no_other_key(
    ring: Map<u64, Seq<char>>,
    node: Seq<char>,
    owner: Seq<char>,
    hash: u64,
)
    requires
        owner != node,
        owns(ring, owner, hash),
    ensures
        owns(ring_without(ring, node), owner, hash),
{
    let after = ring_without(ring, node);
    let p = choose|p: u64| #[trigger] is_next_position(ring, hash, p) && ring[p] == owner;
    assert(after.contains_key(p));
    assert forall|q: u64| #[trigger] after.contains_key(q) implies clockwise(hash, p) <= clockwise(
        hash,
        q,
    ) by {
        assert(ring.contains_key(q));
    }
    assert(is_next_position(after, hash, p));
}

/// A node that has left owns nothing.
pub proof fn a_node_that_left_owns_nothing(
    ring: Map<u64, Seq<char>>,
    node: Seq<char>,
    hash: u64,
)
    ensures
        !ring_without(ring, node).values().contains(node),
        !owns(ring_without(ring, node), node, hash),
{
}

/// The only node of a ring owns every position.
pub proof fn a_single_node_owns_everything(node: Seq<char>, hash: u64)
    ensures
        owns(ring_with(Map::<u64, Seq<char>>::empty(), node), node, hash),
{
    let none = Map::<u64, Seq<char>>::empty();
    let ring = ring_with(none, node);
    with_vnodes_values(none, node, VNODES_PER_NODE as nat);
    assert(ring.contains_key(vnode_position(node, 0)));
    assert(ring.dom().contains(vnode_position(node, 0)));
    assert(ring.len() > 0);
    let p = next_position_exists(ring, hash);
    assert(ring.contains_key(p));
    assert(ring[p] == node);
}

/// Joining again changes nothing.
pub proof fn joining_twice_is_joining_once(ring: Map<u64, Seq<char>>, node: Seq<char>)
    ensures
        ring_with(ring_with(ring, node), node) == ring_with(ring, node),
{
    let once = ring_with(ring, node);
    let twice = ring_with(once, node);
    let count = VNODES_PER_NODE as nat;
    with_vnodes_values(ring, node, count);
    with_vnodes_values(once, node, count);
    assert forall|p: u64| #[trigger] twice.contains_key(p) implies once.contains_key(p) && once[p]
        == twice[p] by {
        if exists|i: nat| i < count && p == #[trigger] vnode_position(node, i) {
            let i = choose|i: nat| i < count && p == #[trigger] vnode_position(node, i);
            assert(once.contains_key(vnode_position(node, i)));
            assert(twice[vnode_position(node, i)] == node);
        } else {
            assert(once.contains_key(p));
        }
    }
    assert(twice =~= once);
}

/// A node that joined without taking a position from anyone leaves the ring as
/// it found it.
pub proof fn leaving_undoes_joining(ring: Map<u64, Seq<char>>, node: Seq<char>)
    requires
        !ring.values().contains(node),
        forall|i: nat|
            i < VNODES_PER_NODE ==> !ring.contains_key(#[trigger] vnode_position(node, i)),
    ensures
        ring_without(ring_with(ring, node), node) == ring,
{
    let after = ring_with(ring, node);
    with_vnodes_values(ring, node, VNODES_PER_NODE as nat);
    let back = ring_without(after, node);
    assert forall|p: u64| ring.contains_key(p) implies #[trigger] back.contains_key(p) && back[p]
        == ring[p] by {
        assert(ring.values().contains(ring[p]));
        assert(after.contains_key(p));
        assert(after[p] == ring[p]);
    }
    assert forall|p: u64| #[trigger] back.contains_key(p) implies ring.contains_key(p) by {
        assert(after.contains_key(p));
    }
    assert(back =~= ring);
}

} // verus!
