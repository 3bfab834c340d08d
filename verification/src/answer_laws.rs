//! What the answers of a metadata server hold: which chunks and storage nodes,
//! in which places, and what is reported where something is missing.
use vstd::prelude::*;

use crate::cluster::{owner_address, ClusterManager};
use crate::cluster_service::{owned_chunks, owned_object_outcome};
use crate::messages::{ChunkInfo, ChunkPlaces, GetChunkResponse, GetObjectResponse, ObjectPlaces};
use crate::metadata_service::{
    all_chunks, all_nodes, answers_kind, confirm_code, get_chunk_outcome, get_object_outcome,
    is_sorted_by_replicas, known_chunks, known_nodes, known_places, lists_objects, lists_wanting,
    missing_text, object_route, passes_on, places_of, replica_code, replica_counts, unhealthy_ids,
    Health, Missing,
};
use crate::metadata_store::{
    fewest_replicas_first, present_chunks, ChunkRecord, ChunkStatus, NodeRecord, ObjectRecord,
    StoreState,
};
use crate::node_service::{read_status, write_status};
use crate::replication::WantingChunk;
use crate::selection::{picks, picks_alike, picks_all, picks_next, picks_none, picks_those};
use crate::status::{Code, ErrorKind, Status, StoreError};
use crate::tables::{is_stable_order, lists_all, lists_keys, lists_where};
use crate::text::{decimal_text, occurs_in};
use crate::text_laws::a_text_occurs_where_it_stands;

verus! {

/// Of the storage nodes `ids`, an answer holds every one that is registered,
/// under its id and at its registered address, in the order of the ids, and no
/// other.
pub proof fn every_registered_node_is_known(ids: Seq<u64>, nodes: Map<u64, NodeRecord>)
    ensures
        picks(
            known_nodes(ids, nodes),
            ids.len() as int,
            |k: int| nodes.contains_key(ids[k]),
            |k: int| NodeRecord { id: ids[k], address: nodes[ids[k]].address },
        ),
        forall|k: int|
            0 <= k < ids.len() && nodes.contains_key(#[trigger] ids[k]) ==> known_nodes(
                ids,
                nodes,
            ).contains(NodeRecord { id: ids[k], address: nodes[ids[k]].address }),
        (forall|k: int| 0 <= k < ids.len() ==> nodes.contains_key(#[trigger] ids[k])) ==> {
            &&& known_nodes(ids, nodes).len() == ids.len()
            &&& forall|k: int|
                0 <= k < ids.len() ==> (#[trigger] known_nodes(ids, nodes)[k]).id == ids[k]
                    && known_nodes(ids, nodes)[k].address == nodes[ids[k]].address
        },
    decreases ids.len(),
{
    let wanted = |k: int| nodes.contains_key(ids[k]);
    let value = |k: int| NodeRecord { id: ids[k], address: nodes[ids[k]].address };
    let n = ids.len() as int;
    if n == 0 {
        picks_none(wanted, value);
    } else {
        let rest = ids.drop_last();
        every_registered_node_is_known(rest, nodes);
        picks_alike(
            known_nodes(rest, nodes),
            n - 1,
            |k: int| nodes.contains_key(rest[k]),
            |k: int| NodeRecord { id: rest[k], address: nodes[rest[k]].address },
            wanted,
            value,
        );
        picks_next(known_nodes(rest, nodes), n - 1, wanted, value);
    }
    picks_those(known_nodes(ids, nodes), n, wanted, value);
    assert forall|k: int| 0 <= k < n && nodes.contains_key(#[trigger] ids[k]) implies known_nodes(
        ids,
        nodes,
    ).contains(NodeRecord { id: ids[k], address: nodes[ids[k]].address }) by {
        assert(wanted(k));
    }
    if forall|k: int| 0 <= k < n ==> nodes.contains_key(#[trigger] ids[k]) {
        picks_all(known_nodes(ids, nodes), n, wanted, value);
    }
}

/// The storage nodes `ids` are handed out only if all of them are registered:
/// each in its place, with its id and its registered address. Otherwise the
/// first that is not registered is named.
pub proof fn nodes_come_all_or_the_first_missing_is_named(
    ids: Seq<u64>,
    nodes: Map<u64, NodeRecord>,
)
    ensures
        match all_nodes(ids, nodes) {
            Ok(r) => {
                &&& r.len() == ids.len()
                &&& forall|k: int|
                    0 <= k < ids.len() ==> nodes.contains_key(ids[k]) && (#[trigger] r[k]).id
                        == ids[k] && r[k].address == nodes[ids[k]].address
            },
            Err(id) => exists|k: int|
                {
                    &&& 0 <= k < ids.len()
                    &&& #[trigger] ids[k] == id
                    &&& !nodes.contains_key(id)
                    &&& forall|j: int| 0 <= j < k ==> nodes.contains_key(#[trigger] ids[j])
                },
        },
        all_nodes(ids, nodes) is Ok <==> forall|k: int|
            0 <= k < ids.len() ==> nodes.contains_key(#[trigger] ids[k]),
    decreases ids.len(),
{
    if ids.len() > 0 {
        let rest = ids.drop_last();
        nodes_come_all_or_the_first_missing_is_named(rest, nodes);
        let n = rest.len() as int;
        match all_nodes(rest, nodes) {
            Ok(before) => {
                assert forall|k: int| 0 <= k < n implies nodes.contains_key(#[trigger] ids[k]) by {
                    assert(rest[k] == ids[k]);
                    assert(before[k].id == rest[k]);
                }
                match all_nodes(ids, nodes) {
                    Ok(r) => {
                        assert forall|k: int| 0 <= k < ids.len() implies nodes.contains_key(ids[k])
                            && (#[trigger] r[k]).id == ids[k] && r[k].address
                            == nodes[ids[k]].address by {
                            if k < n {
                                assert(r[k] == before[k]);
                                assert(rest[k] == ids[k]);
                            }
                        }
                    },
                    Err(id) => {
                        assert(ids[n] == id);
                    },
                }
            },
            Err(id) => {
                let k = choose|k: int|
                    {
                        &&& 0 <= k < rest.len()
                        &&& #[trigger] rest[k] == id
                        &&& !nodes.contains_key(id)
                        &&& forall|j: int| 0 <= j < k ==> nodes.contains_key(#[trigger] rest[j])
                    };
                assert(ids[k] == id);
                assert forall|j: int| 0 <= j < k implies nodes.contains_key(#[trigger] ids[j]) by {
                    assert(rest[j] == ids[j]);
                }
            },
        }
    }
}

/// A chunk is answered under its own id and with its own checksum, and with
/// every storage node of it that is registered.
pub proof fn a_chunk_is_answered_with_its_places(chunk: ChunkRecord, s: StoreState)
    ensures
        known_places(chunk, s).id == chunk.id,
        known_places(chunk, s).checksum == chunk.checksum,
        picks(
            known_places(chunk, s).nodes,
            chunk.storage_nodes.len() as int,
            |k: int| s.storage_nodes.contains_key(chunk.storage_nodes[k]),
            |k: int|
                NodeRecord {
                    id: chunk.storage_nodes[k],
                    address: s.storage_nodes[chunk.storage_nodes[k]].address,
                },
        ),
{
    every_registered_node_is_known(chunk.storage_nodes, s.storage_nodes);
}

/// Of the chunks `ids`, an answer holds every one that is recorded, in the
/// order of the ids, and no other; where all are recorded, the chunk in each
/// place has the id and the checksum of the chunk with the id in that place.
pub proof fn every_recorded_chunk_is_known(ids: Seq<u64>, s: StoreState)
    ensures
        picks(
            known_chunks(ids, s),
            ids.len() as int,
            |k: int| s.chunks.contains_key(ids[k]),
            |k: int|
                ChunkPlaces {
                    id: s.chunks[ids[k]].id,
                    checksum: s.chunks[ids[k]].checksum,
                    nodes: known_nodes(s.chunks[ids[k]].storage_nodes, s.storage_nodes),
                },
        ),
        (forall|k: int| 0 <= k < ids.len() ==> s.chunks.contains_key(#[trigger] ids[k])) ==> {
            &&& known_chunks(ids, s).len() == ids.len()
            &&& forall|k: int|
                0 <= k < ids.len() ==> {
                    &&& (#[trigger] known_chunks(ids, s)[k]).id == s.chunks[ids[k]].id
                    &&& known_chunks(ids, s)[k].checksum == s.chunks[ids[k]].checksum
                    &&& known_chunks(ids, s)[k].nodes == known_nodes(
                        s.chunks[ids[k]].storage_nodes,
                        s.storage_nodes,
                    )
                }
        },
    decreases ids.len(),
{
    let wanted = |k: int| s.chunks.contains_key(ids[k]);
    let value = |k: int|
        ChunkPlaces {
            id: s.chunks[ids[k]].id,
            checksum: s.chunks[ids[k]].checksum,
            nodes: known_nodes(s.chunks[ids[k]].storage_nodes, s.storage_nodes),
        };
    let n = ids.len() as int;
    if n == 0 {
        picks_none(wanted, value);
    } else {
        let rest = ids.drop_last();
        every_recorded_chunk_is_known(rest, s);
        picks_alike(
            known_chunks(rest, s),
            n - 1,
            |k: int| s.chunks.contains_key(rest[k]),
            |k: int|
                ChunkPlaces {
                    id: s.chunks[rest[k]].id,
                    checksum: s.chunks[rest[k]].checksum,
                    nodes: known_nodes(s.chunks[rest[k]].storage_nodes, s.storage_nodes),
                },
            wanted,
            value,
        );
        picks_next(known_chunks(rest, s), n - 1, wanted, value);
    }
    if forall|k: int| 0 <= k < n ==> s.chunks.contains_key(#[trigger] ids[k]) {
        picks_all(known_chunks(ids, s), n, wanted, value);
    }
}

/// The chunks of a record that are there are handed over, every one of them, in
/// the order of the ids; where all are there, each stands in its own place.
pub proof fn every_recorded_chunk_is_present(ids: Seq<u64>, chunks: Map<u64, ChunkRecord>)
    ensures
        picks(
            present_chunks(ids, chunks),
            ids.len() as int,
            |k: int| chunks.contains_key(ids[k]),
            |k: int| chunks[ids[k]],
        ),
        forall|k: int|
            0 <= k < ids.len() && chunks.contains_key(#[trigger] ids[k]) ==> present_chunks(
                ids,
                chunks,
            ).contains(chunks[ids[k]]),
        (forall|k: int| 0 <= k < ids.len() ==> chunks.contains_key(#[trigger] ids[k])) ==> {
            &&& present_chunks(ids, chunks).len() == ids.len()
            &&& forall|k: int|
                0 <= k < ids.len() ==> #[trigger] present_chunks(ids, chunks)[k] == chunks[ids[k]]
        },
    decreases ids.len(),
{
    let wanted = |k: int| chunks.contains_key(ids[k]);
    let value = |k: int| chunks[ids[k]];
    let n = ids.len() as int;
    if n == 0 {
        picks_none(wanted, value);
    } else {
        let rest = ids.drop_last();
        every_recorded_chunk_is_present(rest, chunks);
        picks_alike(
            present_chunks(rest, chunks),
            n - 1,
            |k: int| chunks.contains_key(rest[k]),
            |k: int| chunks[rest[k]],
            wanted,
            value,
        );
        picks_next(present_chunks(rest, chunks), n - 1, wanted, value);
    }
    picks_those(present_chunks(ids, chunks), n, wanted, value);
    assert forall|k: int|
        0 <= k < n && chunks.contains_key(#[trigger] ids[k]) implies present_chunks(
        ids,
        chunks,
    ).contains(chunks[ids[k]]) by {
        assert(wanted(k));
    }
    if forall|k: int| 0 <= k < n ==> chunks.contains_key(#[trigger] ids[k]) {
        picks_all(present_chunks(ids, chunks), n, wanted, value);
    }
}

/// What the owner of an object answers a peer: where every chunk is recorded,
/// as many chunks as the object has, each in its place, with the id, the
/// checksum and the registered storage nodes of the chunk with the id in that
/// place. Otherwise the first chunk that is not recorded is named.
pub proof fn an_owner_answers_every_chunk_in_its_place(ids: Seq<u64>, s: StoreState)
    ensures
        match owned_chunks(ids, s) {
            Ok(r) => {
                &&& r.len() == ids.len()
                &&& forall|k: int|
                    0 <= k < ids.len() ==> {
                        &&& s.chunks.contains_key(ids[k])
                        &&& (#[trigger] r[k]).id == s.chunks[ids[k]].id
                        &&& r[k].checksum == s.chunks[ids[k]].checksum
                        &&& picks(
                            r[k].nodes,
                            s.chunks[ids[k]].storage_nodes.len() as int,
                            |j: int|
                                s.storage_nodes.contains_key(s.chunks[ids[k]].storage_nodes[j]),
                            |j: int|
                                NodeRecord {
                                    id: s.chunks[ids[k]].storage_nodes[j],
                                    address: s.storage_nodes[s.chunks[ids[k]].storage_nodes[j]].address,
                                },
                        )
                    }
            },
            Err(id) => exists|k: int|
                {
                    &&& 0 <= k < ids.len()
                    &&& #[trigger] ids[k] == id
                    &&& !s.chunks.contains_key(id)
                    &&& forall|j: int| 0 <= j < k ==> s.chunks.contains_key(#[trigger] ids[j])
                },
        },
        owned_chunks(ids, s) is Ok <==> forall|k: int|
            0 <= k < ids.len() ==> s.chunks.contains_key(#[trigger] ids[k]),
    decreases ids.len(),
{
    if ids.len() > 0 {
        let rest = ids.drop_last();
        an_owner_answers_every_chunk_in_its_place(rest, s);
        let n = rest.len() as int;
        match owned_chunks(rest, s) {
            Ok(before) => {
                assert forall|k: int| 0 <= k < n implies s.chunks.contains_key(#[trigger] ids[k]) by {
                    assert(rest[k] == ids[k]);
                    assert(before[k].id == s.chunks[rest[k]].id);
                }
                match owned_chunks(ids, s) {
                    Ok(r) => {
                        assert forall|k: int| 0 <= k < ids.len() implies {
                            &&& s.chunks.contains_key(ids[k])
                            &&& (#[trigger] r[k]).id == s.chunks[ids[k]].id
                            &&& r[k].checksum == s.chunks[ids[k]].checksum
                            &&& picks(
                                r[k].nodes,
                                s.chunks[ids[k]].storage_nodes.len() as int,
                                |j: int|
                                    s.storage_nodes.contains_key(s.chunks[ids[k]].storage_nodes[j]),
                                |j: int|
                                    NodeRecord {
                                        id: s.chunks[ids[k]].storage_nodes[j],
                                        address: s.storage_nodes[s.chunks[ids[k]].storage_nodes[j]].address,
                                    },
                            )
                        } by {
                            if k < n {
                                assert(r[k] == before[k]);
                                assert(rest[k] == ids[k]);
                            } else {
                                a_chunk_is_answered_with_its_places(s.chunks[ids[k]], s);
                            }
                        }
                    },
                    Err(id) => {
                        assert(ids[n] == id);
                    },
                }
            },
            Err(id) => {
                let k = choose|k: int|
                    {
                        &&& 0 <= k < rest.len()
                        &&& #[trigger] rest[k] == id
                        &&& !s.chunks.contains_key(id)
                        &&& forall|j: int| 0 <= j < k ==> s.chunks.contains_key(#[trigger] rest[j])
                    };
                assert(ids[k] == id);
                assert forall|j: int| 0 <= j < k implies s.chunks.contains_key(#[trigger] ids[j]) by {
                    assert(rest[j] == ids[j]);
                }
            },
        }
    }
}

/// Chunk `k` of `ids` is recorded, and all its storage nodes are registered.
pub open spec fn is_complete(ids: Seq<u64>, s: StoreState, k: int) -> bool {
    &&& s.chunks.contains_key(ids[k])
    &&& forall|j: int|
        0 <= j < s.chunks[ids[k]].storage_nodes.len() ==> s.storage_nodes.contains_key(
            #[trigger] s.chunks[ids[k]].storage_nodes[j],
        )
}

/// An object is answered only if all its chunks are recorded and all their
/// storage nodes registered: each chunk in its place, with its id, its checksum
/// and every one of its storage nodes, each in its place with its address.
/// Otherwise the first thing missing is named: the first chunk that is not
/// complete, or the first of its storage nodes that is not registered.
pub proof fn an_answer_is_complete_or_names_what_is_missing(ids: Seq<u64>, s: StoreState)
    ensures
        match all_chunks(ids, s) {
            Ok(r) => {
                &&& r.len() == ids.len()
                &&& forall|k: int|
                    0 <= k < ids.len() ==> {
                        &&& is_complete(ids, s, k)
                        &&& (#[trigger] r[k]).id == s.chunks[ids[k]].id
                        &&& r[k].checksum == s.chunks[ids[k]].checksum
                        &&& r[k].nodes.len() == s.chunks[ids[k]].storage_nodes.len()
                        &&& forall|j: int|
                            0 <= j < r[k].nodes.len() ==> (#[trigger] r[k].nodes[j]).id
                                == s.chunks[ids[k]].storage_nodes[j] && r[k].nodes[j].address
                                == s.storage_nodes[s.chunks[ids[k]].storage_nodes[j]].address
                    }
            },
            Err(missing) => exists|k: int|
                {
                    &&& 0 <= k < ids.len()
                    &&& !#[trigger] is_complete(ids, s, k)
                    &&& forall|j: int| 0 <= j < k ==> #[trigger] is_complete(ids, s, j)
                    &&& match missing {
                        Missing::Chunk(id) => id == ids[k] && !s.chunks.contains_key(id),
                        Missing::Node(id) => {
                            &&& s.chunks.contains_key(ids[k])
                            &&& s.chunks[ids[k]].storage_nodes.contains(id)
                            &&& !s.storage_nodes.contains_key(id)
                        },
                    }
                },
        },
        all_chunks(ids, s) is Ok <==> forall|k: int|
            0 <= k < ids.len() ==> #[trigger] is_complete(ids, s, k),
    decreases ids.len(),
{
    if ids.len() > 0 {
        let rest = ids.drop_last();
        an_answer_is_complete_or_names_what_is_missing(rest, s);
        let n = rest.len() as int;
        assert forall|k: int| 0 <= k < n implies #[trigger] is_complete(rest, s, k) == is_complete(
            ids,
            s,
            k,
        ) by {
            assert(rest[k] == ids[k]);
        }
        match all_chunks(rest, s) {
            Ok(before) => {
                if s.chunks.contains_key(ids[n]) {
                    let chunk = s.chunks[ids[n]];
                    nodes_come_all_or_the_first_missing_is_named(
                        chunk.storage_nodes,
                        s.storage_nodes,
                    );
                }
                match all_chunks(ids, s) {
                    Ok(r) => {
                        assert forall|k: int| 0 <= k < ids.len() implies {
                            &&& is_complete(ids, s, k)
                            &&& (#[trigger] r[k]).id == s.chunks[ids[k]].id
                            &&& r[k].checksum == s.chunks[ids[k]].checksum
                            &&& r[k].nodes.len() == s.chunks[ids[k]].storage_nodes.len()
                            &&& forall|j: int|
                                0 <= j < r[k].nodes.len() ==> (#[trigger] r[k].nodes[j]).id
                                    == s.chunks[ids[k]].storage_nodes[j] && r[k].nodes[j].address
                                    == s.storage_nodes[s.chunks[ids[k]].storage_nodes[j]].address
                        } by {
                            if k < n {
                                assert(r[k] == before[k]);
                                assert(rest[k] == ids[k]);
                                assert(is_complete(rest, s, k));
                            } else {
                                let nodes = r[k].nodes;
                                assert forall|j: int|
                                    0 <= j < s.chunks[ids[k]].storage_nodes.len() implies s.storage_nodes.contains_key(
                                #[trigger] s.chunks[ids[k]].storage_nodes[j]) by {
                                    assert(nodes[j].id == s.chunks[ids[k]].storage_nodes[j]);
                                }
                            }
                        }
                        assert forall|k: int| 0 <= k < ids.len() implies #[trigger] is_complete(
                            ids,
                            s,
                            k,
                        ) by {
                            assert(r[k].id == s.chunks[ids[k]].id);
                        }
                    },
                    Err(missing) => {
                        assert(!is_complete(ids, s, n)) by {
                            match missing {
                                Missing::Chunk(_) => {},
                                Missing::Node(id) => {
                                    let held = s.chunks[ids[n]].storage_nodes;
                                    let j = choose|j: int|
                                        0 <= j < held.len() && #[trigger] held[j] == id;
                                    assert(!s.storage_nodes.contains_key(
                                        s.chunks[ids[n]].storage_nodes[j],
                                    ));
                                },
                            }
                        }
                        assert forall|j: int| 0 <= j < n implies #[trigger] is_complete(
                            ids,
                            s,
                            j,
                        ) by {
                            assert(before[j].id == s.chunks[rest[j]].id);
                            assert(is_complete(rest, s, j));
                        }
                    },
                }
            },
            Err(missing) => {
                let k = choose|k: int|
                    {
                        &&& 0 <= k < rest.len()
                        &&& !#[trigger] is_complete(rest, s, k)
                        &&& forall|j: int| 0 <= j < k ==> #[trigger] is_complete(rest, s, j)
                        &&& match missing {
                            Missing::Chunk(id) => id == rest[k] && !s.chunks.contains_key(id),
                            Missing::Node(id) => {
                                &&& s.chunks.contains_key(rest[k])
                                &&& s.chunks[rest[k]].storage_nodes.contains(id)
                                &&& !s.storage_nodes.contains_key(id)
                            },
                        }
                    };
                assert(!is_complete(ids, s, k));
                assert forall|j: int| 0 <= j < k implies #[trigger] is_complete(ids, s, j) by {
                    assert(is_complete(rest, s, j));
                }
                assert(rest[k] == ids[k]);
            },
        }
    }
}

/// Whether a wanted key of a map has the value `v`.
pub open spec fn is_wanted_value<K, V>(v: V, m: Map<K, V>, keep: spec_fn(V) -> bool) -> bool {
    exists|k: K| #[trigger] m.contains_key(k) && keep(m[k]) && v == m[k]
}

/// A list of a map's values holds every value that is wanted and no other, as
/// many as there are keys with such a value.
pub proof fn a_list_holds_every_wanted_value<K, V>(
    items: Seq<V>,
    m: Map<K, V>,
    keep: spec_fn(V) -> bool,
)
    requires
        lists_where(items, m, keep),
    ensures
        forall|k: K| #[trigger] m.contains_key(k) && keep(m[k]) ==> items.contains(m[k]),
        forall|i: int| 0 <= i < items.len() ==> is_wanted_value(#[trigger] items[i], m, keep),
        items.len() == Set::new(|k: K| m.contains_key(k) && keep(m[k])).len(),
{
    let keys = choose|keys: Seq<K>| lists_keys(items, m, keep, keys);
    assert(lists_keys(items, m, keep, keys));
    assert forall|k: K| #[trigger] m.contains_key(k) && keep(m[k]) implies items.contains(m[k]) by {
        let i = choose|i: int| 0 <= i < keys.len() && keys[i] == k;
        assert(items[i] == m[keys[i]]);
    }
    assert forall|i: int| 0 <= i < items.len() implies is_wanted_value(
        #[trigger] items[i],
        m,
        keep,
    ) by {
        assert(m.contains_key(keys[i]));
    }
    keys.unique_seq_to_set();
    assert(keys.to_set() =~= Set::new(|k: K| m.contains_key(k) && keep(m[k])));
}

/// Whether an answer shows an object: its own name, checksum and size, and its
/// chunks as far as they are recorded.
pub open spec fn shows(item: ObjectPlaces, object: ObjectRecord, s: StoreState) -> bool {
    &&& item.name == object.name
    &&& item.checksum == object.checksum
    &&& item.total_size == object.total_size
    &&& picks(
        item.chunks,
        object.chunks.len() as int,
        |k: int| s.chunks.contains_key(object.chunks[k]),
        |k: int|
            ChunkPlaces {
                id: s.chunks[object.chunks[k]].id,
                checksum: s.chunks[object.chunks[k]].checksum,
                nodes: known_nodes(s.chunks[object.chunks[k]].storage_nodes, s.storage_nodes),
            },
    )
}

/// Whether an answer shows some object of a store.
pub open spec fn shows_one(item: ObjectPlaces, s: StoreState) -> bool {
    exists|name: Seq<char>| #[trigger]
        s.objects.contains_key(name) && shows(item, s.objects[name], s)
}

/// A listing shows every object of the server, and nothing but its objects.
pub proof fn a_listing_shows_every_object(items: Seq<ObjectPlaces>, s: StoreState)
    requires
        lists_objects(items, s),
    ensures
        items.len() == s.objects.dom().len(),
        forall|name: Seq<char>| #[trigger]
            s.objects.contains_key(name) ==> exists|i: int|
                0 <= i < items.len() && shows(#[trigger] items[i], s.objects[name], s),
        forall|i: int| 0 <= i < items.len() ==> shows_one(#[trigger] items[i], s),
{
    let names = choose|names: Seq<Seq<char>>|
        {
            &&& #[trigger] names.no_duplicates()
            &&& names.len() == items.len()
            &&& forall|i: int|
                0 <= i < names.len() ==> s.objects.contains_key(#[trigger] names[i]) && items[i]
                    == places_of(s.objects[names[i]], s)
            &&& forall|name: Seq<char>| #[trigger]
                s.objects.contains_key(name) ==> names.contains(name)
        };
    assert forall|i: int| 0 <= i < items.len() implies shows(
        #[trigger] items[i],
        s.objects[names[i]],
        s,
    ) by {
        assert(s.objects.contains_key(names[i]));
        every_recorded_chunk_is_known(s.objects[names[i]].chunks, s);
    }
    assert forall|name: Seq<char>| #[trigger] s.objects.contains_key(name) implies exists|i: int|
        0 <= i < items.len() && shows(#[trigger] items[i], s.objects[name], s) by {
        let i = choose|i: int| 0 <= i < names.len() && names[i] == name;
        assert(shows(items[i], s.objects[names[i]], s));
    }
    assert forall|i: int| 0 <= i < items.len() implies shows_one(#[trigger] items[i], s) by {
        assert(s.objects.contains_key(names[i]));
    }
    names.unique_seq_to_set();
    assert(names.to_set() =~= s.objects.dom());
}

/// Whether a chunk is confirmed and has fewer storage nodes than it should: as
/// many as are asked for, or three where that is left open.
pub open spec fn is_short(chunk: ChunkRecord, max_replicas: u32) -> bool {
    &&& chunk.status == ChunkStatus::Confirmed
    &&& max_replicas == 0 ==> chunk.storage_nodes.len() < 3
    &&& max_replicas > 0 ==> chunk.storage_nodes.len() < max_replicas
}

/// Whether a report is that of a chunk: its id, its checksum and all its storage
/// nodes.
pub open spec fn reports(item: WantingChunk, chunk: ChunkRecord) -> bool {
    item.id == chunk.id && item.checksum == chunk.checksum && item.nodes == chunk.storage_nodes
}

/// Whether a report is that of some chunk with too few replicas.
pub open spec fn reports_one(item: WantingChunk, s: StoreState, max_replicas: u32) -> bool {
    exists|id: u64| #[trigger]
        s.chunks.contains_key(id) && is_short(s.chunks[id], max_replicas) && reports(
            item,
            s.chunks[id],
        )
}

/// The chunks with too few replicas are all reported, and no others, those with
/// the fewest first.
pub proof fn every_short_chunk_is_reported(
    items: Seq<WantingChunk>,
    s: StoreState,
    max_replicas: u32,
)
    requires
        lists_wanting(items, s, max_replicas),
    ensures
        items.len() == Set::new(
            |id: u64| s.chunks.contains_key(id) && is_short(s.chunks[id], max_replicas),
        ).len(),
        forall|id: u64| #[trigger]
            s.chunks.contains_key(id) && is_short(s.chunks[id], max_replicas) ==> exists|i: int|
                0 <= i < items.len() && reports(#[trigger] items[i], s.chunks[id]),
        forall|i: int|
            0 <= i < items.len() ==> reports_one(#[trigger] items[i], s, max_replicas),
        forall|i: int, j: int|
            0 <= i < j < items.len() ==> (#[trigger] items[i]).nodes.len() <= (
            #[trigger] items[j]).nodes.len(),
{
    let ids = choose|ids: Seq<u64>|
        {
            &&& #[trigger] ids.no_duplicates()
            &&& ids.len() == items.len()
            &&& forall|i: int|
                0 <= i < ids.len() ==> s.chunks.contains_key(#[trigger] ids[i]) && is_short(
                    s.chunks[ids[i]],
                    max_replicas,
                ) && reports(items[i], s.chunks[ids[i]])
            &&& forall|id: u64| #[trigger]
                s.chunks.contains_key(id) && is_short(s.chunks[id], max_replicas) ==> ids.contains(
                    id,
                )
        };
    assert forall|id: u64| #[trigger]
        s.chunks.contains_key(id) && is_short(s.chunks[id], max_replicas) implies exists|i: int|
        0 <= i < items.len() && reports(#[trigger] items[i], s.chunks[id]) by {
        let i = choose|i: int| 0 <= i < ids.len() && ids[i] == id;
        assert(reports(items[i], s.chunks[ids[i]]));
    }
    assert forall|i: int| 0 <= i < items.len() implies reports_one(
        #[trigger] items[i],
        s,
        max_replicas,
    ) by {
        assert(s.chunks.contains_key(ids[i]));
    }
    ids.unique_seq_to_set();
    assert(ids.to_set() =~= Set::new(
        |id: u64| s.chunks.contains_key(id) && is_short(s.chunks[id], max_replicas),
    ));
}

/// Whether `sorted` holds the same as `chunks`, each entry once, in the order of
/// the positions `order`.
pub open spec fn rearranges(
    sorted: Seq<WantingChunk>,
    chunks: Seq<WantingChunk>,
    order: Seq<int>,
) -> bool {
    &&& order.len() == chunks.len()
    &&& sorted.len() == chunks.len()
    &&& order.no_duplicates()
    &&& forall|j: int|
        0 <= j < order.len() ==> 0 <= #[trigger] order[j] < chunks.len() && sorted[j]
            == chunks[order[j]]
    &&& forall|p: int| 0 <= p < chunks.len() ==> #[trigger] order.contains(p)
}

/// Putting chunks in order loses none and adds none: the sorted list is a
/// rearrangement, by ascending number of replicas, in which chunks with equally
/// many stay in order.
pub proof fn sorting_rearranges(chunks: Seq<WantingChunk>, sorted: Seq<WantingChunk>) -> (order: Seq<
    int,
>)
    requires
        is_sorted_by_replicas(chunks, sorted),
        chunks.len() <= usize::MAX,
        forall|i: int| 0 <= i < chunks.len() ==> (#[trigger] chunks[i]).nodes.len() <= usize::MAX,
    ensures
        rearranges(sorted, chunks, order),
        forall|i: int, j: int|
            0 <= i < j < sorted.len() ==> (#[trigger] sorted[i]).nodes.len() <= (
            #[trigger] sorted[j]).nodes.len(),
        forall|i: int, j: int|
            0 <= i < j < order.len() && sorted[i].nodes.len() == sorted[j].nodes.len()
                ==> #[trigger] order[i] < #[trigger] order[j],
{
    let counts = replica_counts(chunks);
    let by = choose|by: Seq<usize>| #[trigger]
        is_stable_order(counts, by) && sorted == Seq::new(by.len(), |j: int| chunks[by[j] as int]);
    let order = by.map_values(|p: usize| p as int);
    assert forall|i: int| 0 <= i < chunks.len() implies #[trigger] counts[i]
        == chunks[i].nodes.len() by {
        assert(chunks[i].nodes.len() <= usize::MAX);
    }
    assert forall|p: int| 0 <= p < chunks.len() implies #[trigger] order.contains(p) by {
        assert(by.contains(p as usize));
        let j = choose|j: int| 0 <= j < by.len() && by[j] == p as usize;
        assert(order[j] == p);
    }
    assert forall|i: int, j: int| 0 <= i < j < order.len() implies #[trigger] order[i]
        != #[trigger] order[j] by {
        assert(counts[by[i] as int] < counts[by[j] as int] || by[i] < by[j]);
    }
    assert forall|i: int, j: int| 0 <= i < j < sorted.len() implies (#[trigger] sorted[i]).nodes.len()
        <= (#[trigger] sorted[j]).nodes.len() by {
        assert(counts[by[i] as int] <= counts[by[j] as int]);
    }
    assert forall|i: int, j: int|
        0 <= i < j < order.len() && sorted[i].nodes.len() == sorted[j].nodes.len() implies #[trigger] order[i]
        < #[trigger] order[j] by {
        assert(counts[by[i] as int] == counts[by[j] as int]);
    }
    order
}

/// The storage nodes to be forgotten are, in order, exactly those that could not
/// be reached or said that they are not healthy; one that was not asked stays.
pub proof fn every_unhealthy_node_is_forgotten(reports: Seq<(u64, Health)>)
    ensures
        picks(
            unhealthy_ids(reports),
            reports.len() as int,
            |k: int| reports[k].1 == Health::Failed || reports[k].1 == Health::Answered(false),
            |k: int| reports[k].0,
        ),
    decreases reports.len(),
{
    let wanted = |k: int|
        reports[k].1 == Health::Failed || reports[k].1 == Health::Answered(false);
    let value = |k: int| reports[k].0;
    let n = reports.len() as int;
    if n == 0 {
        picks_none(wanted, value);
    } else {
        let rest = reports.drop_last();
        every_unhealthy_node_is_forgotten(rest);
        picks_alike(
            unhealthy_ids(rest),
            n - 1,
            |k: int| rest[k].1 == Health::Failed || rest[k].1 == Health::Answered(false),
            |k: int| rest[k].0,
            wanted,
            value,
        );
        picks_next(unhealthy_ids(rest), n - 1, wanted, value);
    }
}

/// Whether the chunk at `k` of an answer is the chunk with the id `ids[k]`, with
/// the storage nodes that hold it, each in its place with its address.
pub open spec fn answers_chunk(
    chunks: Seq<ChunkInfo>,
    ids: Seq<u64>,
    s: StoreState,
    k: int,
) -> bool {
    let info = chunks[k];
    let chunk = s.chunks[ids[k]];
    &&& info.id == chunk.id
    &&& info.checksum == chunk.checksum
    &&& info.storage_nodes@.len() == chunk.storage_nodes.len()
    &&& forall|j: int|
        0 <= j < chunk.storage_nodes.len() ==> (#[trigger] info.storage_nodes@[j]).id
            == chunk.storage_nodes[j] && info.storage_nodes@[j].address@
            == s.storage_nodes[chunk.storage_nodes[j]].address
}

/// A question for an object is answered exactly where the object is there and
/// nothing of it is missing: with its checksum, and with all its chunks, each in
/// its place. An object that is not there is not found; anything else is an
/// internal error.
pub proof fn an_object_is_answered_whole(
    s: StoreState,
    name: Seq<char>,
    r: Result<GetObjectResponse, Status>,
)
    requires
        get_object_outcome(s, name, r),
    ensures
        r is Ok <==> s.objects.contains_key(name) && forall|k: int|
            0 <= k < s.objects[name].chunks.len() ==> #[trigger] is_complete(
                s.objects[name].chunks,
                s,
                k,
            ),
        r matches Ok(response) ==> {
            &&& response.checksum == s.objects[name].checksum
            &&& response.chunks@.len() == s.objects[name].chunks.len()
            &&& forall|k: int|
                0 <= k < response.chunks@.len() ==> #[trigger] answers_chunk(
                    response.chunks@,
                    s.objects[name].chunks,
                    s,
                    k,
                )
        },
        r matches Err(status) ==> status.code == if s.objects.contains_key(name) {
            Code::Internal
        } else {
            Code::NotFound
        },
{
    if s.objects.contains_key(name) {
        let ids = s.objects[name].chunks;
        an_answer_is_complete_or_names_what_is_missing(ids, s);
        if let Ok(response) = r {
            let places = all_chunks(ids, s)->Ok_0;
            assert forall|k: int| 0 <= k < response.chunks@.len() implies #[trigger] answers_chunk(
                response.chunks@,
                ids,
                s,
                k,
            ) by {
                let info = response.chunks@[k];
                assert(places[k] == info@);
                assert forall|j: int| 0 <= j < s.chunks[ids[k]].storage_nodes.len() implies (
                #[trigger] info.storage_nodes@[j]).id == s.chunks[ids[k]].storage_nodes[j]
                    && info.storage_nodes@[j].address@
                    == s.storage_nodes[s.chunks[ids[k]].storage_nodes[j]].address by {
                    assert(places[k].nodes[j] == info.storage_nodes@[j]@);
                }
            }
        }
    }
}

/// A question of a peer for an object is answered exactly where the object is
/// there and all its chunks are recorded: with its checksum, and with all its
/// chunks, each in its place with its own id and checksum.
pub proof fn a_peer_is_answered_every_chunk(
    s: StoreState,
    name: Seq<char>,
    r: Result<GetObjectResponse, Status>,
)
    requires
        owned_object_outcome(s, name, r),
    ensures
        r is Ok <==> s.objects.contains_key(name) && forall|k: int|
            0 <= k < s.objects[name].chunks.len() ==> s.chunks.contains_key(
                #[trigger] s.objects[name].chunks[k],
            ),
        r matches Ok(response) ==> {
            let ids = s.objects[name].chunks;
            &&& response.checksum == s.objects[name].checksum
            &&& response.chunks@.len() == ids.len()
            &&& forall|k: int|
                0 <= k < ids.len() ==> (#[trigger] response.chunks@[k]).id == s.chunks[ids[k]].id
                    && response.chunks@[k].checksum == s.chunks[ids[k]].checksum
        },
        r matches Err(status) ==> status.code == if s.objects.contains_key(name) {
            Code::Internal
        } else {
            Code::NotFound
        },
{
    if s.objects.contains_key(name) {
        let ids = s.objects[name].chunks;
        an_owner_answers_every_chunk_in_its_place(ids, s);
        if let Ok(response) = r {
            let places = owned_chunks(ids, s)->Ok_0;
            assert forall|k: int| 0 <= k < ids.len() implies (#[trigger] response.chunks@[k]).id
                == s.chunks[ids[k]].id && response.chunks@[k].checksum
                == s.chunks[ids[k]].checksum by {
                assert(places[k] == response.chunks@[k]@);
            }
        }
    }
}

/// A question for a chunk is answered exactly where the chunk is there and all
/// its storage nodes are registered: with the name of its object, its checksum
/// and all its storage nodes, each in its place with its address.
pub proof fn a_chunk_is_answered_whole(
    s: StoreState,
    id: u64,
    r: Result<GetChunkResponse, Status>,
)
    requires
        get_chunk_outcome(s, id, r),
    ensures
        r is Ok <==> s.chunks.contains_key(id) && forall|j: int|
            0 <= j < s.chunks[id].storage_nodes.len() ==> s.storage_nodes.contains_key(
                #[trigger] s.chunks[id].storage_nodes[j],
            ),
        r matches Ok(response) ==> {
            let ids = s.chunks[id].storage_nodes;
            &&& response.object_name@ == s.chunks[id].object_name
            &&& response.checksum == s.chunks[id].checksum
            &&& response.storage_nodes@.len() == ids.len()
            &&& forall|j: int|
                0 <= j < ids.len() ==> (#[trigger] response.storage_nodes@[j]).id == ids[j]
                    && response.storage_nodes@[j].address@ == s.storage_nodes[ids[j]].address
        },
        r matches Err(status) ==> status.code == if s.chunks.contains_key(id) {
            Code::Internal
        } else {
            Code::NotFound
        },
{
    if s.chunks.contains_key(id) {
        let ids = s.chunks[id].storage_nodes;
        nodes_come_all_or_the_first_missing_is_named(ids, s.storage_nodes);
        if let Ok(response) = r {
            let nodes = all_nodes(ids, s.storage_nodes)->Ok_0;
            assert forall|j: int| 0 <= j < ids.len() implies (
            #[trigger] response.storage_nodes@[j]).id == ids[j]
                && response.storage_nodes@[j].address@ == s.storage_nodes[ids[j]].address by {
                assert(nodes[j] == response.storage_nodes@[j]@);
            }
        }
    }
}

/// How errors of the store are passed on. An error of the expected kind gets its
/// own code and message; in adding a replica and in confirming a chunk the
/// store's message is kept with the code of the same meaning; everything else is
/// an internal error, and only that.
pub proof fn errors_are_passed_on_by_kind(
    e: StoreError,
    status: Status,
    kind: ErrorKind,
    code: Code,
    message: Seq<char>,
    other: Seq<char>,
)
    ensures
        answers_kind(e, status, kind, code, message, other) && e.kind == kind ==> status.code
            == code && status.message@ == message,
        answers_kind(e, status, kind, code, message, other) && e.kind != kind ==> status.code
            == Code::Internal && status.message@ == other,
        passes_on(e, status, replica_code(e.kind), other) ==> {
            &&& status.code == Code::NotFound <==> e.kind == ErrorKind::NotFound
            &&& status.code == Code::AlreadyExists <==> e.kind == ErrorKind::AlreadyExists
            &&& status.code == Code::FailedPrecondition <==> e.kind == ErrorKind::InvalidInput
            &&& status.code != Code::Internal ==> status.message@ == e.message@
            &&& status.code == Code::Internal ==> status.message@ == other
            &&& status.code == Code::Internal || status.code == Code::NotFound || status.code
                == Code::AlreadyExists || status.code == Code::FailedPrecondition
        },
        passes_on(e, status, confirm_code(e.kind), other) ==> {
            &&& status.code == Code::NotFound <==> e.kind == ErrorKind::NotFound
            &&& status.code == Code::AlreadyExists <==> e.kind == ErrorKind::AlreadyExists
            &&& status.code != Code::Internal ==> status.message@ == e.message@
            &&& status.code == Code::Internal ==> status.message@ == other
            &&& status.code == Code::Internal || status.code == Code::NotFound || status.code
                == Code::AlreadyExists
        },
{
}

/// A list of all values of a map holds every value, one for each key.
pub proof fn a_list_of_all_holds_every_value<K, V>(items: Seq<V>, m: Map<K, V>)
    requires
        lists_all(items, m),
    ensures
        forall|k: K| #[trigger] m.contains_key(k) ==> items.contains(m[k]),
        items.len() == m.dom().len(),
{
    let keep = |v: V| true;
    a_list_holds_every_wanted_value(items, m, keep);
    assert forall|k: K| #[trigger] m.contains_key(k) implies items.contains(m[k]) by {
        assert(keep(m[k]));
    }
    assert(Set::new(|k: K| m.contains_key(k) && keep(m[k])) =~= m.dom());
}

/// Of two chunks in such a list the one with more replicas does not come first.
pub proof fn chunks_with_fewer_replicas_come_first(chunks: Seq<ChunkRecord>, i: int, j: int)
    requires
        fewest_replicas_first(chunks),
        0 <= i < chunks.len(),
        0 <= j < chunks.len(),
        chunks[i].storage_nodes.len() > chunks[j].storage_nodes.len(),
    ensures
        i > j,
{
}

/// A server on its own handles every object; in a cluster a request goes where
/// the cluster's owner of the object is.
pub proof fn a_server_alone_forwards_nothing(cluster: ClusterManager, name: Seq<char>)
    ensures
        object_route(None, name) is None,
        object_route(Some(cluster), name) == owner_address(cluster@, name),
{
}

/// What is missing is named by its id.
pub proof fn what_is_missing_is_named(id: u64)
    ensures
        occurs_in(decimal_text(id as nat), missing_text(Missing::Chunk(id))),
        occurs_in(decimal_text(id as nat), missing_text(Missing::Node(id))),
        missing_text(Missing::Chunk(id)) == "chunk "@ + decimal_text(id as nat)
            + " referenced by object but not found"@,
        missing_text(Missing::Node(id)) == "storage node "@ + decimal_text(id as nat)
            + " referenced by chunk but not found"@,
{
    a_text_occurs_where_it_stands(
        decimal_text(id as nat),
        "chunk "@,
        " referenced by object but not found"@,
    );
    a_text_occurs_where_it_stands(
        decimal_text(id as nat),
        "storage node "@,
        " referenced by chunk but not found"@,
    );
}

/// What a storage node answers where a chunk cannot be written or read: an error
/// that has a code of its own gets it, and any other is an internal error.
pub proof fn a_storage_node_answers_by_kind(kind: ErrorKind)
    ensures
        write_status(kind).0 == Code::AlreadyExists <==> kind == ErrorKind::AlreadyExists,
        write_status(kind).0 == Code::ResourceExhausted <==> kind == ErrorKind::StorageFull,
        kind != ErrorKind::AlreadyExists && kind != ErrorKind::StorageFull ==> write_status(kind)
            == (Code::Internal, "failed to write chunk"@),
        kind == ErrorKind::AlreadyExists ==> write_status(kind).1 == "chunk id already exists"@,
        kind == ErrorKind::StorageFull ==> write_status(kind).1 == "chunk store is full"@,
        read_status(kind).0 == Code::NotFound <==> kind == ErrorKind::NotFound,
        kind == ErrorKind::NotFound ==> read_status(kind).1 == "chunk not found"@,
        kind != ErrorKind::NotFound ==> read_status(kind) == (
            Code::Internal,
            "failed to read chunk"@,
        ),
{
}

} // verus!
