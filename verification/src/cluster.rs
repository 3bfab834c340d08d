//! The servers of a cluster: who is there, who owns which key, and how to reach
//! them.
use vstd::prelude::*;

use crate::chunk_index::contains_name;
use crate::hash_ring::{
    key_position, owner_of, owns, ring_with, with_vnodes_values, HashRing, VNODES_PER_NODE,
};
use crate::name_map::NameMap;
use crate::text::{decimal, decimal_text, join2, same_text, starts_with, texts};

verus! {

/// A server and its address.
#[derive(Debug)]
pub struct PeerAddress {
    pub node_id: String,
    pub address: String,
}

/// The views of a list of addresses.
pub open spec fn peer_views(items: Seq<PeerAddress>) -> Seq<(Seq<char>, Seq<char>)> {
    items.map_values(|p: PeerAddress| (p.node_id@, p.address@))
}

/// The addresses by server; of two for one server the later counts.
pub open spec fn addresses_of(items: Seq<(Seq<char>, Seq<char>)>) -> Map<Seq<char>, Seq<char>>
    decreases items.len(),
{
    if items.len() == 0 {
        Map::<Seq<char>, Seq<char>>::empty()
    } else {
        addresses_of(items.drop_last()).insert(items.last().0, items.last().1)
    }
}

/// What a [`ClusterManager`] stands for.
pub struct Membership {
    pub node_id: Seq<char>,
    pub grpc_addr: Seq<char>,
    pub ring: Map<u64, Seq<char>>,
    /// The addresses of the servers.
    pub addresses: Map<Seq<char>, Seq<char>>,
    /// The open connections, by server.
    pub connections: Map<Seq<char>, u64>,
}

/// The ring after those of `live` have joined that are new: neither this server
/// nor one of `members`.
pub open spec fn ring_joined(
    ring: Map<u64, Seq<char>>,
    me: Seq<char>,
    members: Set<Seq<char>>,
    live: Seq<Seq<char>>,
) -> Map<u64, Seq<char>>
    decreases live.len(),
{
    if live.len() == 0 {
        ring
    } else {
        let before = ring_joined(ring, me, members, live.drop_last());
        if live.last() != me && !members.contains(live.last()) {
            ring_with(before, live.last())
        } else {
            before
        }
    }
}

/// The ring without the servers that are gone: those of `members` that are
/// neither this server nor live.
pub open spec fn ring_left(
    ring: Map<u64, Seq<char>>,
    me: Seq<char>,
    members: Set<Seq<char>>,
    live: Seq<Seq<char>>,
) -> Map<u64, Seq<char>> {
    Map::new(
        |p: u64|
            ring.contains_key(p) && !(members.contains(ring[p]) && ring[p] != me && !live.contains(
                ring[p],
            )),
        |p: u64| ring[p],
    )
}

/// The cluster once it is known who is live and where.
pub open spec fn membership_updated(
    c: Membership,
    live: Seq<Seq<char>>,
    addresses: Seq<(Seq<char>, Seq<char>)>,
) -> Membership {
    let members = c.ring.values();
    Membership {
        ring: ring_left(ring_joined(c.ring, c.node_id, members, live), c.node_id, members, live),
        addresses: addresses_of(addresses),
        connections: Map::new(
            |id: Seq<char>| c.connections.contains_key(id) && live.contains(id),
            |id: Seq<char>| c.connections[id],
        ),
        ..c
    }
}

/// The address of the owner of a key, if that is another server whose address
/// is known.
pub open spec fn owner_address(c: Membership, key: Seq<char>) -> Option<Seq<char>> {
    match owner_of(c.ring, key_position(key)) {
        Some(owner) => if owner != c.node_id && c.addresses.contains_key(owner) {
            Some(c.addresses[owner])
        } else {
            None
        },
        None => None,
    }
}

/// The address of a server as an endpoint, with a scheme.
pub open spec fn endpoint_text(address: Seq<char>) -> Seq<char> {
    if "http://"@.is_prefix_of(address) || "https://"@.is_prefix_of(address) {
        address
    } else {
        "http://"@ + address
    }
}

/// The address of a server as an endpoint, with a scheme.
pub fn endpoint(address: &str) -> (r: String)
    ensures
        r@ == endpoint_text(address@),
{
    if starts_with(address, "http://") || starts_with(address, "https://") {
        address.to_owned()
    } else {
        join2("http://", address)
    }
}

/// The view of a cluster's servers, as one of them has it.
pub struct ClusterManager {
    node_id: String,
    grpc_addr: String,
    ring: HashRing,
    addresses: NameMap<String>,
    connections: NameMap<u64>,
}

impl View for ClusterManager {
    type V = Membership;

    closed spec fn view(&self) -> Membership {
        Membership {
            node_id: self.node_id@,
            grpc_addr: self.grpc_addr@,
            ring: self.ring@,
            addresses: self.addresses@.map_values(|s: String| s@),
            connections: self.connections@,
        }
    }
}

impl ClusterManager {
    /// A cluster of which only this server is known.
    pub fn new(node_id: String, grpc_port: u16) -> (r: Self)
        ensures
            r@ == (Membership {
                node_id: node_id@,
                grpc_addr: "0.0.0.0:"@ + decimal_text(grpc_port as nat),
                ring: ring_with(Map::<u64, Seq<char>>::empty(), node_id@),
                addresses: Map::<Seq<char>, Seq<char>>::empty(),
                connections: Map::<Seq<char>, u64>::empty(),
            }),
    {
        let mut ring: HashRing = HashRing::new();
        ring.add_node(node_id.as_str());
        let r = ClusterManager {
            node_id,
            grpc_addr: join2("0.0.0.0:", decimal(grpc_port as u64).as_str()),
            ring,
            addresses: NameMap::new(),
            connections: NameMap::new(),
        };
        assert(r@.addresses =~= Map::<Seq<char>, Seq<char>>::empty());
        r
    }

    /// Takes note of who is live, and of the addresses: new servers join the
    /// ring, servers that are gone leave it, and their connections are dropped.
    pub fn update_membership(&mut self, live: &Vec<String>, addresses: &Vec<PeerAddress>)
        ensures
            final(self)@ == membership_updated(
                old(self)@,
                texts(live@),
                peer_views(addresses@),
            ),
    {
        let ghost before = self@;
        let members: Vec<String> = self.ring.nodes();
        assert(texts(members@).to_set() == before.ring.values());
        self.join(live, &members);
        self.leave(live, &members);
        let ghost ring = self@.ring;
        self.set_addresses(addresses);
        self.drop_connections(live);
        assert(self@.ring == ring);
    }

    fn join(&mut self, live: &Vec<String>, members: &Vec<String>)
        ensures
            final(self)@ == (Membership {
                ring: ring_joined(
                    old(self)@.ring,
                    old(self)@.node_id,
                    texts(members@).to_set(),
                    texts(live@),
                ),
                ..old(self)@
            }),
    {
        let ghost before = self@;
        let ghost alive = texts(live@);
        let ghost set = texts(members@).to_set();
        let mut i: usize = 0;
        assert(alive.take(0) =~= Seq::<Seq<char>>::empty());
        while i < live.len()
            invariant
                i <= live@.len(),
                alive == texts(live@),
                set == texts(members@).to_set(),
                self@ == (Membership {
                    ring: ring_joined(before.ring, before.node_id, set, alive.take(i as int)),
                    ..before
                }),
            decreases live@.len() - i,
        {
            assert(alive.take(i + 1).drop_last() =~= alive.take(i as int));
            assert(alive.take(i + 1).last() == live@[i as int]@);
            if !same_text(live[i].as_str(), self.node_id.as_str()) && !contains_name(
                members.as_slice(),
                live[i].as_str(),
            ) {
                self.ring.add_node(live[i].as_str());
            }
            i = i + 1;
        }
        assert(alive.take(alive.len() as int) =~= alive);
    }

    fn leave(&mut self, live: &Vec<String>, members: &Vec<String>)
        ensures
            final(self)@ == (Membership {
                ring: ring_left(
                    old(self)@.ring,
                    old(self)@.node_id,
                    texts(members@).to_set(),
                    texts(live@),
                ),
                ..old(self)@
            }),
    {
        let ghost before = self@;
        let ghost alive = texts(live@);
        let ghost names = texts(members@);
        let mut i: usize = 0;
        assert(ring_left(before.ring, before.node_id, names.take(0).to_set(), alive)
            =~= before.ring);
        while i < members.len()
            invariant
                i <= members@.len(),
                alive == texts(live@),
                names == texts(members@),
                self@ == (Membership {
                    ring: ring_left(
                        before.ring,
                        before.node_id,
                        names.take(i as int).to_set(),
                        alive,
                    ),
                    ..before
                }),
            decreases members@.len() - i,
        {
            let ghost name = names[i as int];
            if !same_text(members[i].as_str(), self.node_id.as_str()) && !contains_name(
                live.as_slice(),
                members[i].as_str(),
            ) {
                self.ring.remove_node(members[i].as_str());
            }
            proof {
                let upto = names.take(i as int);
                let now = names.take(i + 1);
                assert(now =~= upto.push(name));
                assert forall|x: Seq<char>| now.to_set().contains(x) <==> upto.to_set().contains(x)
                    || x == name by {
                    if upto.contains(x) {
                        let k = choose|k: int| 0 <= k < upto.len() && upto[k] == x;
                        assert(now[k] == x);
                    }
                    assert(now[i as int] == name);
                }
                assert(self@.ring =~= ring_left(
                    before.ring,
                    before.node_id,
                    now.to_set(),
                    alive,
                ));
            }
            i = i + 1;
        }
        assert(names.take(names.len() as int) =~= names);
    }

    fn set_addresses(&mut self, addresses: &Vec<PeerAddress>)
        ensures
            final(self)@ == (Membership {
                addresses: addresses_of(peer_views(addresses@)),
                ..old(self)@
            }),
    {
        let ghost all = peer_views(addresses@);
        let mut table: NameMap<String> = NameMap::new();
        let ghost view = |m: Map<Seq<char>, String>| m.map_values(|s: String| s@);
        let mut i: usize = 0;
        assert(all.take(0) =~= Seq::<(Seq<char>, Seq<char>)>::empty());
        assert(view(table@) =~= addresses_of(all.take(0)));
        while i < addresses.len()
            invariant
                i <= addresses@.len(),
                all == peer_views(addresses@),
                view == (|m: Map<Seq<char>, String>| m.map_values(|s: String| s@)),
                view(table@) == addresses_of(all.take(i as int)),
            decreases addresses@.len() - i,
        {
            let ghost was = view(table@);
            table.insert(addresses[i].node_id.clone(), addresses[i].address.clone());
            proof {
                assert(all.take(i + 1).drop_last() =~= all.take(i as int));
                assert(all.take(i + 1).last() == (
                    addresses@[i as int].node_id@,
                    addresses@[i as int].address@,
                ));
                assert(view(table@) =~= was.insert(
                    addresses@[i as int].node_id@,
                    addresses@[i as int].address@,
                ));
            }
            i = i + 1;
        }
        assert(all.take(all.len() as int) =~= all);
        self.addresses = table;
    }

    fn drop_connections(&mut self, live: &Vec<String>)
        ensures
            final(self)@ == (Membership {
                connections: Map::new(
                    |id: Seq<char>|
                        old(self)@.connections.contains_key(id) && texts(live@).contains(id),
                    |id: Seq<char>| old(self)@.connections[id],
                ),
                ..old(self)@
            }),
    {
        let ghost before = self@.connections;
        let ghost alive = texts(live@);
        let len: usize = self.connections.len();
        let ghost order = self.connections.order();
        let mut kept: NameMap<u64> = NameMap::new();
        let mut i: usize = 0;
        while i < len
            invariant
                i <= len,
                len == order.len(),
                alive == texts(live@),
                order == self.connections.order(),
                before == self.connections@,
                forall|k: int| 0 <= k < order.len() ==> before.contains_key(#[trigger] order[k]),
                forall|id: Seq<char>| #[trigger]
                    kept@.contains_key(id) <==> order.take(i as int).contains(id) && alive.contains(
                        id,
                    ),
                forall|id: Seq<char>| #[trigger] kept@.contains_key(id) ==> kept@[id] == before[id],
                self@ == old(self)@,
            decreases len - i,
        {
            let ghost was = kept@;
            let ghost upto = order.take(i as int);
            let ghost now = order.take(i + 1);
            let ghost name = order[i as int];
            assert(now =~= upto.push(name));
            assert forall|x: Seq<char>| now.contains(x) <==> upto.contains(x) || x == name by {
                if upto.contains(x) {
                    let k = choose|k: int| 0 <= k < upto.len() && upto[k] == x;
                    assert(now[k] == x);
                }
                assert(now[i as int] == name);
            }
            if contains_name(live.as_slice(), self.connections.name_at(i).as_str()) {
                kept.insert(self.connections.name_at(i).clone(), *self.connections.value_at(i));
            }
            proof {
                assert forall|id: Seq<char>| #[trigger]
                    kept@.contains_key(id) <==> now.contains(id) && alive.contains(id) by {
                    assert(was.contains_key(id) <==> upto.contains(id) && alive.contains(id));
                    assert(now.contains(id) <==> upto.contains(id) || id == name);
                }
                assert forall|id: Seq<char>| #[trigger] kept@.contains_key(id) implies kept@[id]
                    == before[id] by {
                    if id != name {
                        assert(was.contains_key(id));
                    }
                }
            }
            i = i + 1;
        }
        proof {
            assert(order.take(order.len() as int) =~= order);
            assert forall|id: Seq<char>| order.contains(id) <==> before.contains_key(id) by {
                assert(order.to_set().contains(id) <==> before.dom().contains(id));
            }
            let after = Map::new(
                |id: Seq<char>| before.contains_key(id) && alive.contains(id),
                |id: Seq<char>| before[id],
            );
            assert(kept@ =~= after);
        }
        self.connections = kept;
    }

    /// Whether this server owns a key. Where nobody does, it takes it on.
    pub fn is_local(&self, key: &str) -> (r: bool)
        ensures
            r == match owner_of(self@.ring, key_position(key@)) {
                Some(owner) => owner == self@.node_id,
                None => true,
            },
    {
        match self.ring.get_owner(key) {
            Some(owner) => same_text(owner, self.node_id.as_str()),
            None => true,
        }
    }

    /// The address of the owner of a key; none where this server owns it, or
    /// the owner's address is not known.
    pub fn get_owner_addr(&self, key: &str) -> (r: Option<String>)
        ensures
            match r {
                Some(address) => owner_address(self@, key@) == Some(address@),
                None => owner_address(self@, key@) is None,
            },
    {
        match self.ring.get_owner(key) {
            Some(owner) => {
                if same_text(owner, self.node_id.as_str()) {
                    None
                } else {
                    match self.addresses.get(owner) {
                        Some(address) => Some(address.clone()),
                        None => None,
                    }
                }
            },
            None => None,
        }
    }

    /// The addresses of all other servers.
    pub fn get_all_peer_addrs(&self) -> (r: Vec<String>)
        ensures
            exists|ids: Seq<Seq<char>>|
                {
                    &&& ids.no_duplicates()
                    &&& ids.len() == r@.len()
                    &&& forall|i: int|
                        0 <= i < ids.len() ==> self@.addresses.contains_key(#[trigger] ids[i])
                            && ids[i] != self@.node_id && r@[i]@ == self@.addresses[ids[i]]
                    &&& forall|id: Seq<char>| #[trigger]
                        self@.addresses.contains_key(id) && id != self@.node_id ==> ids.contains(id)
                },
    {
        let len: usize = self.addresses.len();
        let ghost order = self.addresses.order();
        let ghost mut ids: Seq<Seq<char>> = Seq::empty();
        let mut r: Vec<String> = Vec::new();
        let mut i: usize = 0;
        while i < len
            invariant
                i <= len,
                len == order.len(),
                order == self.addresses.order(),
                order.no_duplicates(),
                forall|k: int|
                    0 <= k < order.len() ==> self.addresses@.contains_key(#[trigger] order[k]),
                ids.no_duplicates(),
                ids.len() == r@.len(),
                forall|k: int|
                    0 <= k < ids.len() ==> self@.addresses.contains_key(#[trigger] ids[k]) && ids[k]
                        != self@.node_id && r@[k]@ == self@.addresses[ids[k]] && order.take(
                        i as int,
                    ).contains(ids[k]),
                forall|k: int|
                    0 <= k < i && #[trigger] order[k] != self@.node_id ==> ids.contains(order[k]),
            decreases len - i,
        {
            let ghost was = ids;
            let ghost name = order[i as int];
            assert(order.take(i + 1) =~= order.take(i as int).push(name));
            assert forall|k: int| 0 <= k < was.len() implies order.take(i + 1).contains(
                #[trigger] was[k],
            ) && was[k] != name by {
                let j = choose|j: int| 0 <= j < i && order.take(i as int)[j] == was[k];
                assert(order.take(i + 1)[j] == was[k]);
                assert(order[j] == was[k]);
            }
            if !same_text(self.addresses.name_at(i).as_str(), self.node_id.as_str()) {
                r.push(self.addresses.value_at(i).clone());
                proof {
                    ids = ids.push(name);
                    assert(order.take(i + 1)[i as int] == name);
                    assert(ids[was.len() as int] == name);
                    assert forall|k: int|
                        0 <= k < i + 1 && #[trigger] order[k] != self@.node_id implies ids.contains(
                        order[k],
                    ) by {
                        if k < i {
                            let j = choose|j: int| 0 <= j < was.len() && was[j] == order[k];
                            assert(ids[j] == order[k]);
                        }
                    }
                }
            }
            i = i + 1;
        }
        proof {
            assert forall|id: Seq<char>| #[trigger]
                self@.addresses.contains_key(id) && id != self@.node_id implies ids.contains(id) by {
                assert(order.to_set().contains(id));
                let k = choose|k: int| 0 <= k < order.len() && order[k] == id;
                assert(ids.contains(order[k]));
            }
        }
        r
    }

    /// An open connection to the server at `address`, if there is one.
    pub fn find_connection(&self, address: &str) -> (r: Option<u64>)
        ensures
            match r {
                Some(connection) => exists|id: Seq<char>| #[trigger]
                    self@.connections.contains_key(id) && self@.addresses.contains_key(id)
                        && self@.addresses[id] == address@ && self@.connections[id] == connection,
                None => forall|id: Seq<char>| #[trigger]
                    self@.addresses.contains_key(id) && self@.addresses[id] == address@
                        ==> !self@.connections.contains_key(id),
            },
    {
        let len: usize = self.addresses.len();
        let ghost order = self.addresses.order();
        let mut i: usize = 0;
        while i < len
            invariant
                i <= len,
                len == order.len(),
                order == self.addresses.order(),
                forall|k: int|
                    0 <= k < order.len() ==> self.addresses@.contains_key(#[trigger] order[k]),
                forall|k: int|
                    0 <= k < i && self@.addresses[#[trigger] order[k]] == address@
                        ==> !self@.connections.contains_key(order[k]),
            decreases len - i,
        {
            if same_text(self.addresses.value_at(i).as_str(), address) {
                match self.connections.get(self.addresses.name_at(i).as_str()) {
                    Some(connection) => {
                        assert(self@.connections.contains_key(order[i as int]));
                        return Some(*connection);
                    },
                    None => {},
                }
            }
            i = i + 1;
        }
        proof {
            assert forall|id: Seq<char>| #[trigger]
                self@.addresses.contains_key(id) && self@.addresses[id]
                    == address@ implies !self@.connections.contains_key(id) by {
                assert(order.to_set().contains(id));
                let k = choose|k: int| 0 <= k < order.len() && order[k] == id;
                assert(order[k] == id);
            }
        }
        None
    }

    /// Keeps an open connection to the server at `address`, if that is the
    /// address of a known server.
    pub fn keep_connection(&mut self, address: &str, connection: u64)
        ensures
            if exists|id: Seq<char>| #[trigger]
                old(self)@.addresses.contains_key(id) && old(self)@.addresses[id] == address@ {
                exists|id: Seq<char>| #[trigger]
                    old(self)@.addresses.contains_key(id) && old(self)@.addresses[id] == address@
                        && final(self)@ == (Membership {
                        connections: old(self)@.connections.insert(id, connection),
                        ..old(self)@
                    })
            } else {
                final(self)@ == old(self)@
            },
    {
        let len: usize = self.addresses.len();
        let ghost order = self.addresses.order();
        let mut i: usize = 0;
        while i < len
            invariant
                i <= len,
                len == order.len(),
                order == self.addresses.order(),
                self@ == old(self)@,
                forall|k: int|
                    0 <= k < order.len() ==> self.addresses@.contains_key(#[trigger] order[k]),
                order.to_set() == self.addresses@.dom(),
                forall|k: int|
                    0 <= k < i ==> self@.addresses[#[trigger] order[k]] != address@,
            decreases len - i,
        {
            if same_text(self.addresses.value_at(i).as_str(), address) {
                let name: String = self.addresses.name_at(i).clone();
                assert(old(self)@.addresses.contains_key(order[i as int]));
                self.connections.insert(name, connection);
                return ;
            }
            i = i + 1;
        }
        proof {
            assert forall|id: Seq<char>| #[trigger]
                old(self)@.addresses.contains_key(id) implies old(self)@.addresses[id] != address@ by {
                assert(order.to_set().contains(id));
                let k = choose|k: int| 0 <= k < order.len() && order[k] == id;
                assert(order[k] == id);
            }
        }
    }

    /// The ring.
    pub fn ring(&self) -> (r: &HashRing)
        ensures
            r@ == self@.ring,
    {
        &self.ring
    }

    /// This server's id.
    pub fn node_id(&self) -> (r: &str)
        ensures
            r@ == self@.node_id,
    {
        self.node_id.as_str()
    }

    /// This server's address.
    pub fn grpc_addr(&self) -> (r: &str)
        ensures
            r@ == self@.grpc_addr,
    {
        self.grpc_addr.as_str()
    }

    /// The server that owns a key.
    pub fn get_owner_id(&self, key: &str) -> (r: Option<String>)
        ensures
            match r {
                Some(owner) => owner_of(self@.ring, key_position(key@)) == Some(owner@),
                None => owner_of(self@.ring, key_position(key@)) is None,
            },
    {
        match self.ring.get_owner(key) {
            Some(owner) => Some(owner.to_owned()),
            None => None,
        }
    }

    /// Whether there is more than one server.
    pub fn is_clustered(&self) -> (r: bool)
        ensures
            r == (self@.ring.values().len() > 1),
    {
        self.ring.node_count() > 1
    }
}

proof fn joined_values(
    ring: Map<u64, Seq<char>>,
    me: Seq<char>,
    members: Set<Seq<char>>,
    live: Seq<Seq<char>>,
)
    ensures
        forall|p: u64| #[trigger]
            ring_joined(ring, me, members, live).contains_key(p) ==> live.contains(
                ring_joined(ring, me, members, live)[p],
            ) || (ring.contains_key(p) && ring_joined(ring, me, members, live)[p] == ring[p]),
    decreases live.len(),
{
    if live.len() > 0 {
        let rest = live.drop_last();
        joined_values(ring, me, members, rest);
        let before = ring_joined(ring, me, members, rest);
        let after = ring_joined(ring, me, members, live);
        let last = live.last();
        with_vnodes_values(before, last, VNODES_PER_NODE as nat);
        assert forall|p: u64| #[trigger] after.contains_key(p) implies live.contains(after[p]) || (
        ring.contains_key(p) && after[p] == ring[p]) by {
            if before.contains_key(p) && after[p] == before[p] {
                if rest.contains(before[p]) {
                    let k = choose|k: int| 0 <= k < rest.len() && rest[k] == before[p];
                    assert(live[k] == after[p]);
                }
            } else {
                assert(live[live.len() - 1] == after[p]);
            }
        }
    }
}

/// After an update only this server and live servers own keys.
pub proof fn only_live_servers_own_keys(
    c: Membership,
    live: Seq<Seq<char>>,
    addresses: Seq<(Seq<char>, Seq<char>)>,
    owner: Seq<char>,
    hash: u64,
)
    requires
        owns(membership_updated(c, live, addresses).ring, owner, hash),
    ensures
        owner == c.node_id || live.contains(owner),
{
    let members = c.ring.values();
    let ring = ring_joined(c.ring, c.node_id, members, live);
    let after = membership_updated(c, live, addresses).ring;
    joined_values(c.ring, c.node_id, members, live);
    let p = choose|p: u64| #[trigger]
        crate::hash_ring::is_next_position(after, hash, p) && after[p] == owner;
    assert(after.contains_key(p));
    assert(ring.contains_key(p));
    if ring[p] == c.ring[p] && c.ring.contains_key(p) {
        assert(members.contains(c.ring[p]));
    }
}

/// An update that finds the same servers live leaves the ring as it is.
pub proof fn an_update_without_news_keeps_the_ring(
    c: Membership,
    live: Seq<Seq<char>>,
    addresses: Seq<(Seq<char>, Seq<char>)>,
)
    requires
        forall|id: Seq<char>| #[trigger] live.contains(id) ==> c.ring.values().contains(id),
        forall|id: Seq<char>| #[trigger]
            c.ring.values().contains(id) && id != c.node_id ==> live.contains(id),
    ensures
        membership_updated(c, live, addresses).ring == c.ring,
{
    let members = c.ring.values();
    assert(forall|k: int| 0 <= k < live.len() ==> live.contains(#[trigger] live[k]));
    nothing_joins(c.ring, c.node_id, members, live);
    assert forall|p: u64| c.ring.contains_key(p) implies members.contains(#[trigger] c.ring[p]) by {}
    assert(ring_left(c.ring, c.node_id, members, live) =~= c.ring);
}

proof fn nothing_joins(
    ring: Map<u64, Seq<char>>,
    me: Seq<char>,
    members: Set<Seq<char>>,
    live: Seq<Seq<char>>,
)
    requires
        forall|k: int| 0 <= k < live.len() ==> members.contains(#[trigger] live[k]),
    ensures
        ring_joined(ring, me, members, live) == ring,
    decreases live.len(),
{
    if live.len() > 0 {
        nothing_joins(ring, me, members, live.drop_last());
        assert(members.contains(live[live.len() - 1]));
    }
}

} // verus!
