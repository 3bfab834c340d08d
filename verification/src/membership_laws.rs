//! Who is on the ring and where, who owns a key, and how the owner is reached.
use vstd::prelude::*;
use vstd::utf8::encode_utf8;

use crate::cluster::{
    addresses_of, endpoint_text, membership_updated, owner_address, ring_joined, Membership,
};
use crate::forwarding::{route_address, RouteAction};
use crate::hash_ring::{
    exactly_one_owner, in_range, in_ranges, is_next_position, key_position, owner_of, owns,
    ring_with, ring_without, vnode_position, with_positions, with_vnodes_values, xxh3_hash,
};
use crate::text::decimal_text;

verus! {

/// A key lies at the hash of its text, and the positions of a node at the hashes
/// of its name with its numbers.
pub proof fn positions_are_hashes(key: Seq<char>, node: Seq<char>, i: nat)
    ensures
        key_position(key) == xxh3_hash(encode_utf8(key)),
        vnode_position(node, i) == xxh3_hash(
            encode_utf8(node + "-vnode-"@ + decimal_text(i)),
        ),
{
}

/// A node that joins holds the 150 positions of its name, whoever had them
/// before. No other position changes hands, and none is added.
pub proof fn a_joining_node_takes_its_positions(ring: Map<u64, Seq<char>>, node: Seq<char>)
    ensures
        forall|i: nat|
            i < 150 ==> ring_with(ring, node).contains_key(#[trigger] vnode_position(node, i))
                && ring_with(ring, node)[vnode_position(node, i)] == node,
        forall|p: u64|
            (forall|i: nat| i < 150 ==> p != #[trigger] vnode_position(node, i)) ==> (
            #[trigger] ring_with(ring, node).contains_key(p) <==> ring.contains_key(p)) && (
            ring.contains_key(p) ==> ring_with(ring, node)[p] == ring[p]),
{
    with_vnodes_values(ring, node, 150);
}

/// A node that is given positions holds these, whoever had them before. No other
/// position changes hands, and none is added.
pub proof fn a_node_holds_the_positions_it_is_given(
    ring: Map<u64, Seq<char>>,
    node: Seq<char>,
    positions: Seq<u64>,
)
    ensures
        forall|p: u64| #[trigger]
            with_positions(ring, node, positions).contains_key(p) <==> ring.contains_key(p)
                || positions.contains(p),
        forall|p: u64| #[trigger]
            with_positions(ring, node, positions).contains_key(p) ==> with_positions(
                ring,
                node,
                positions,
            )[p] == if positions.contains(p) {
                node
            } else {
                ring[p]
            },
    decreases positions.len(),
{
    if positions.len() > 0 {
        let rest = positions.drop_last();
        a_node_holds_the_positions_it_is_given(ring, node, rest);
        assert forall|p: u64| #[trigger] positions.contains(p) <==> rest.contains(p) || p
            == positions.last() by {
            if rest.contains(p) {
                let i = choose|i: int| 0 <= i < rest.len() && rest[i] == p;
                assert(positions[i] == p);
            }
            if p == positions.last() {
                assert(positions[positions.len() - 1] == p);
            }
            if positions.contains(p) && p != positions.last() {
                let i = choose|i: int| 0 <= i < positions.len() && positions[i] == p;
                assert(rest[i] == p);
            }
        }
        let before = with_positions(ring, node, rest);
        let after = with_positions(ring, node, positions);
        assert forall|p: u64| #[trigger] after.contains_key(p) implies before.contains_key(p) || p
            == positions.last() by {}
        assert forall|p: u64| ring.contains_key(p) || positions.contains(p) implies #[trigger] after.contains_key(
            p,
        ) by {
            assert(before.contains_key(p) || p == positions.last());
        }
        assert forall|p: u64| #[trigger] after.contains_key(p) implies after[p]
            == if positions.contains(p) {
            node
        } else {
            ring[p]
        } by {
            if p != positions.last() {
                assert(before.contains_key(p));
            }
        }
        assert forall|p: u64| #[trigger] after.contains_key(p) implies ring.contains_key(p)
            || positions.contains(p) by {
            assert(before.contains_key(p) || p == positions.last());
        }
    }
}

/// A node that leaves gives up all its positions, and every other node keeps its
/// own.
pub proof fn a_leaving_node_gives_up_its_positions(ring: Map<u64, Seq<char>>, node: Seq<char>)
    ensures
        forall|p: u64| #[trigger]
            ring_without(ring, node).contains_key(p) <==> ring.contains_key(p) && ring[p] != node,
        forall|p: u64| #[trigger]
            ring_without(ring, node).contains_key(p) ==> ring_without(ring, node)[p] == ring[p],
{
}

/// Whether `p` is the lowest position of a ring that is not below `hash`, or,
/// where all are below it, the lowest of all.
pub open spec fn is_first_at_or_after(ring: Map<u64, Seq<char>>, hash: u64, p: u64) -> bool {
    &&& ring.contains_key(p)
    &&& if p >= hash {
        forall|q: u64| #[trigger] ring.contains_key(q) && q >= hash ==> p <= q
    } else {
        forall|q: u64| #[trigger] ring.contains_key(q) ==> q < hash && p <= q
    }
}

/// A key belongs to the node at the lowest position that is not below its hash,
/// and, where all positions are below it, to the node at the lowest of all.
pub proof fn a_key_belongs_to_the_next_position(
    ring: Map<u64, Seq<char>>,
    node: Seq<char>,
    hash: u64,
)
    ensures
        owns(ring, node, hash) <==> exists|p: u64| #[trigger]
            is_first_at_or_after(ring, hash, p) && ring[p] == node,
{
    assert forall|p: u64| #[trigger] is_next_position(ring, hash, p) <==> is_first_at_or_after(
        ring,
        hash,
        p,
    ) by {
        if is_next_position(ring, hash, p) {
            if p >= hash {
                assert forall|q: u64| #[trigger] ring.contains_key(q) && q >= hash implies p <= q by {}
            } else {
                assert forall|q: u64| #[trigger] ring.contains_key(q) implies q < hash && p <= q by {}
            }
        }
        if is_first_at_or_after(ring, hash, p) {
            assert forall|q: u64| #[trigger] ring.contains_key(q) implies crate::hash_ring::clockwise(
                hash,
                p,
            ) <= crate::hash_ring::clockwise(hash, q) by {}
        }
    }
    if owns(ring, node, hash) {
        let p = choose|p: u64| #[trigger] is_next_position(ring, hash, p) && ring[p] == node;
        assert(is_first_at_or_after(ring, hash, p));
    }
    if exists|p: u64| #[trigger] is_first_at_or_after(ring, hash, p) && ring[p] == node {
        let p = choose|p: u64| #[trigger] is_first_at_or_after(ring, hash, p) && ring[p] == node;
        assert(is_next_position(ring, hash, p));
    }
}

/// The owner of a position is the node that owns it; only a ring without
/// positions has none.
pub proof fn the_owner_is_the_one_that_owns(ring: Map<u64, Seq<char>>, hash: u64)
    requires
        ring.dom().finite(),
    ensures
        forall|node: Seq<char>| #[trigger]
            owns(ring, node, hash) <==> owner_of(ring, hash) == Some(node),
        owner_of(ring, hash) is None <==> ring.len() == 0,
{
    if ring.len() > 0 {
        exactly_one_owner(ring, hash);
    } else {
        assert forall|node: Seq<char>| !#[trigger] owns(ring, node, hash) by {
            if owns(ring, node, hash) {
                let p = choose|p: u64| #[trigger] is_next_position(ring, hash, p) && ring[p] == node;
                assert(ring.dom().contains(p));
                assert(ring.dom().len() == 0);
            }
        }
    }
}

/// A range covers a hash where the way round the ring from its start to the hash
/// is shorter than that to its end.
pub proof fn a_range_covers_what_comes_before_its_end(hash: u64, range: (u64, u64))
    ensures
        in_range(hash, range) <==> (hash - range.0) % 0x1_0000_0000_0000_0000 < (range.1 - range.0)
            % 0x1_0000_0000_0000_0000,
{
}

/// A hash falls into ranges where one of them covers it; so none falls into no
/// ranges, and a further range only adds what it covers.
pub proof fn ranges_cover_what_one_of_them_does(
    hash: u64,
    ranges: Seq<(u64, u64)>,
    range: (u64, u64),
)
    ensures
        !in_ranges(hash, Seq::<(u64, u64)>::empty()),
        in_ranges(hash, ranges.push(range)) <==> in_ranges(hash, ranges) || in_range(hash, range),
{
    let more = ranges.push(range);
    if in_ranges(hash, ranges) {
        let i = choose|i: int| 0 <= i < ranges.len() && in_range(hash, #[trigger] ranges[i]);
        assert(in_range(hash, more[i]));
    }
    if in_range(hash, range) {
        assert(in_range(hash, more[ranges.len() as int]));
    }
    if in_ranges(hash, more) {
        let i = choose|i: int| 0 <= i < more.len() && in_range(hash, #[trigger] more[i]);
        if i < ranges.len() {
            assert(in_range(hash, ranges[i]));
        }
    }
}

/// Whether no later one of `items` is for the server of that at `i`.
pub open spec fn last_of_its_server(items: Seq<(Seq<char>, Seq<char>)>, i: int) -> bool {
    forall|j: int| i < j < items.len() ==> (#[trigger] items[j]).0 != items[i].0
}

/// Whether one of `items` is for the server `id`.
pub open spec fn one_is_of_server(items: Seq<(Seq<char>, Seq<char>)>, id: Seq<char>) -> bool {
    exists|j: int| 0 <= j < items.len() && (#[trigger] items[j]).0 == id
}

/// The address of every server that is told is known, the last one that is
/// told of it; no other address is.
pub proof fn the_last_address_of_a_server_counts(items: Seq<(Seq<char>, Seq<char>)>)
    ensures
        forall|i: int|
            0 <= i < items.len() && #[trigger] last_of_its_server(items, i) ==> addresses_of(
                items,
            ).contains_key(items[i].0) && addresses_of(items)[items[i].0] == items[i].1,
        forall|id: Seq<char>| #[trigger]
            addresses_of(items).contains_key(id) <==> one_is_of_server(items, id),
    decreases items.len(),
{
    if items.len() > 0 {
        let rest = items.drop_last();
        the_last_address_of_a_server_counts(rest);
        let after = addresses_of(items);
        assert forall|i: int|
            0 <= i < items.len() && #[trigger] last_of_its_server(
                items,
                i,
            ) implies after.contains_key(items[i].0) && after[items[i].0] == items[i].1 by {
            if i < rest.len() {
                assert(items[items.len() - 1].0 != items[i].0);
                assert(last_of_its_server(rest, i));
            }
        }
        assert forall|id: Seq<char>| #[trigger] after.contains_key(id) <==> one_is_of_server(
            items,
            id,
        ) by {
            if one_is_of_server(rest, id) {
                let j = choose|j: int| 0 <= j < rest.len() && (#[trigger] rest[j]).0 == id;
                assert(items[j].0 == id);
            }
            if id == items.last().0 {
                assert(items[items.len() - 1].0 == id);
            }
            if one_is_of_server(items, id) && id != items.last().0 {
                let j = choose|j: int| 0 <= j < items.len() && (#[trigger] items[j]).0 == id;
                assert(rest[j].0 == id);
            }
            assert(addresses_of(rest).contains_key(id) <==> one_is_of_server(rest, id));
        }
    }
}

proof fn joined_positions(
    ring: Map<u64, Seq<char>>,
    me: Seq<char>,
    members: Set<Seq<char>>,
    live: Seq<Seq<char>>,
)
    ensures
        ({
            let after = ring_joined(ring, me, members, live);
            &&& forall|p: u64| #[trigger] ring.contains_key(p) ==> after.contains_key(p)
            &&& forall|p: u64| #[trigger]
                after.contains_key(p) ==> live.contains(after[p]) || (ring.contains_key(p)
                    && after[p] == ring[p])
            &&& forall|k: int, i: nat|
                #![trigger live[k], vnode_position(live[k], i)]
                0 <= k < live.len() && live[k] != me && !members.contains(live[k]) && i < 150 ==> {
                    let p = vnode_position(live[k], i);
                    after.contains_key(p) && live.contains(after[p])
                }
            &&& forall|p: u64| #[trigger]
                after.contains_key(p) && !ring.contains_key(p) ==> is_position_of_a_newcomer(
                    p,
                    me,
                    members,
                    live,
                )
        }),
    decreases live.len(),
{
    if live.len() > 0 {
        let rest = live.drop_last();
        let last = live.last();
        joined_positions(ring, me, members, rest);
        let before = ring_joined(ring, me, members, rest);
        let after = ring_joined(ring, me, members, live);
        with_vnodes_values(before, last, 150);
        assert(live[live.len() - 1] == last);
        assert forall|id: Seq<char>| #[trigger] rest.contains(id) implies live.contains(id) by {
            let k = choose|k: int| 0 <= k < rest.len() && rest[k] == id;
            assert(live[k] == id);
        }
        assert forall|k: int, i: nat|
            #![trigger live[k], vnode_position(live[k], i)]
            0 <= k < live.len() && live[k] != me && !members.contains(live[k]) && i < 150 implies {
            let p = vnode_position(live[k], i);
            after.contains_key(p) && live.contains(after[p])
        } by {
            let p = vnode_position(live[k], i);
            if k < rest.len() {
                assert(rest[k] == live[k]);
                assert(before.contains_key(p) && rest.contains(before[p]));
            }
        }
        assert forall|p: u64| #[trigger]
            after.contains_key(p) && !ring.contains_key(p) implies is_position_of_a_newcomer(
            p,
            me,
            members,
            live,
        ) by {
            if before.contains_key(p) {
                assert(is_position_of_a_newcomer(p, me, members, rest));
                let (k, i) = choose|k: int, i: nat|
                    #![trigger rest[k], vnode_position(rest[k], i)]
                    0 <= k < rest.len() && rest[k] != me && !members.contains(rest[k]) && i < 150
                        && p == vnode_position(rest[k], i);
                assert(live[k] == rest[k]);
                assert(p == vnode_position(live[k], i));
            } else {
                let i = choose|i: nat| i < 150 && p == #[trigger] vnode_position(last, i);
                assert(p == vnode_position(live[live.len() - 1], i));
            }
        }
    }
}

/// Whether `p` is a position of a live server that is new: neither this one nor
/// one of `members`.
pub open spec fn is_position_of_a_newcomer(
    p: u64,
    me: Seq<char>,
    members: Set<Seq<char>>,
    live: Seq<Seq<char>>,
) -> bool {
    exists|k: int, i: nat|
        #![trigger live[k], vnode_position(live[k], i)]
        0 <= k < live.len() && live[k] != me && !members.contains(live[k]) && i < 150 && p
            == vnode_position(live[k], i)
}

/// After an update of the cluster the ring is that of the live servers. Every
/// position of a live server that is new is on it, held by a live server. The
/// positions of this server and of live servers stay on it, with their holder or
/// a live one. A position that was not on it belongs to a newcomer. Nothing is
/// held by a server that is neither live nor this one.
pub proof fn the_ring_is_that_of_the_live_servers(
    c: Membership,
    live: Seq<Seq<char>>,
    addresses: Seq<(Seq<char>, Seq<char>)>,
)
    ensures
        ({
            let after = membership_updated(c, live, addresses);
            &&& forall|k: int, i: nat|
                #![trigger live[k], vnode_position(live[k], i)]
                0 <= k < live.len() && live[k] != c.node_id && !c.ring.values().contains(live[k])
                    && i < 150 ==> {
                    let p = vnode_position(live[k], i);
                    after.ring.contains_key(p) && live.contains(after.ring[p])
                }
            &&& forall|p: u64| #[trigger]
                c.ring.contains_key(p) && (c.ring[p] == c.node_id || live.contains(c.ring[p])) ==> {
                    &&& after.ring.contains_key(p)
                    &&& after.ring[p] == c.ring[p] || live.contains(after.ring[p])
                }
            &&& forall|p: u64| #[trigger]
                after.ring.contains_key(p) && !c.ring.contains_key(p) ==> is_position_of_a_newcomer(
                    p,
                    c.node_id,
                    c.ring.values(),
                    live,
                )
            &&& forall|p: u64| #[trigger]
                after.ring.contains_key(p) ==> after.ring[p] == c.node_id || live.contains(
                    after.ring[p],
                )
        }),
{
    let members = c.ring.values();
    joined_positions(c.ring, c.node_id, members, live);
    let joined = ring_joined(c.ring, c.node_id, members, live);
    let after = membership_updated(c, live, addresses);
    assert forall|p: u64| #[trigger] after.ring.contains_key(p) implies after.ring[p] == c.node_id
        || live.contains(after.ring[p]) by {
        if c.ring.contains_key(p) && joined[p] == c.ring[p] {
            assert(members.contains(c.ring[p]));
        }
    }
}

/// An update of the cluster keeps who this server is and where, takes over the
/// addresses that are told and no others, and keeps exactly the connections to
/// live servers.
pub proof fn an_update_keeps_connections_to_live_servers(
    c: Membership,
    live: Seq<Seq<char>>,
    addresses: Seq<(Seq<char>, Seq<char>)>,
)
    ensures
        ({
            let after = membership_updated(c, live, addresses);
            &&& after.node_id == c.node_id && after.grpc_addr == c.grpc_addr
            &&& forall|id: Seq<char>| #[trigger]
                after.connections.contains_key(id) <==> c.connections.contains_key(id)
                    && live.contains(id)
            &&& forall|id: Seq<char>| #[trigger]
                after.connections.contains_key(id) ==> after.connections[id] == c.connections[id]
            &&& forall|id: Seq<char>| #[trigger]
                after.addresses.contains_key(id) <==> one_is_of_server(addresses, id)
            &&& forall|i: int|
                0 <= i < addresses.len() && #[trigger] last_of_its_server(addresses, i)
                    ==> after.addresses[addresses[i].0] == addresses[i].1
        }),
{
    the_last_address_of_a_server_counts(addresses);
}

/// A request goes to another server exactly where that server owns the key and
/// its address is known, and then to this address; what this server owns stays
/// here.
pub proof fn a_request_goes_to_the_owner(c: Membership, key: Seq<char>, owner: Seq<char>)
    requires
        c.ring.dom().finite(),
        owns(c.ring, owner, key_position(key)),
    ensures
        owner == c.node_id || !c.addresses.contains_key(owner) ==> owner_address(c, key) is None,
        owner != c.node_id && c.addresses.contains_key(owner) ==> owner_address(c, key) == Some(
            c.addresses[owner],
        ),
{
    the_owner_is_the_one_that_owns(c.ring, key_position(key));
}

/// A route that forwards has the address it forwards to; a local one has none.
pub proof fn a_route_has_an_address_where_it_forwards(action: RouteAction)
    ensures
        route_address(action) is Some <==> action is Forward,
        action matches RouteAction::Forward(address) ==> route_address(action) == Some(address@),
{
}

/// An endpoint has a scheme: an address that has one is kept, and any other gets
/// `http`.
pub proof fn an_endpoint_has_a_scheme(address: Seq<char>)
    ensures
        ({
            let schemed = "http://"@.is_prefix_of(address) || "https://"@.is_prefix_of(address);
            let r = endpoint_text(address);
            &&& "http://"@.is_prefix_of(r) || "https://"@.is_prefix_of(r)
            &&& schemed ==> r == address
            &&& !schemed ==> r.len() == address.len() + 7 && r.skip(7) == address
                && "http://"@.is_prefix_of(r)
        }),
{
    reveal_strlit("http://");
    let added = "http://"@ + address;
    assert(added.subrange(0, 7) =~= "http://"@);
    assert(added.skip(7) =~= address);
}

} // verus!
