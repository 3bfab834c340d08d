//! What holds of a metadata store whatever is done to it.
use vstd::prelude::*;

use crate::metadata_store::{
    confirm_outcome, delete_chunk_outcome, fresh_object, ids_without, is_snapshot, needs_replicas,
    pending_chunk, replica_outcome, restored_state, stored_chunk, ChunkRecord, ChunkStatus,
    NodeRecord, ObjectRecord, PersistentState, StoreState, MAX_REPLICAS,
};
use crate::status::StoreError;

verus! {

/// Every chunk that an object lists is recorded, confirmed, and belongs to that
/// object; no object lists a chunk twice; no chunk names a storage node twice
/// or has more than the allowed number of replicas; and every entry stands
/// under its own key.
pub open spec fn consistent(s: StoreState) -> bool {
    &&& s.keyed()
    &&& forall|name: Seq<char>, i: int|
        #![trigger s.objects[name].chunks[i]]
        s.objects.contains_key(name) && 0 <= i < s.objects[name].chunks.len() ==> {
            let id = s.objects[name].chunks[i];
            &&& s.chunks.contains_key(id)
            &&& s.chunks[id].object_name == name
            &&& s.chunks[id].status == ChunkStatus::Confirmed
        }
    &&& forall|name: Seq<char>| #[trigger]
        s.objects.contains_key(name) ==> s.objects[name].chunks.no_duplicates()
    &&& forall|id: u64| #[trigger] s.chunks.contains_key(id) ==> well_replicated(s.chunks[id])
}

/// A chunk has few enough replicas, on different storage nodes.
pub open spec fn well_replicated(chunk: ChunkRecord) -> bool {
    chunk.storage_nodes.no_duplicates() && chunk.storage_nodes.len() <= MAX_REPLICAS
}

/// A store that starts empty is consistent.
pub proof fn an_empty_store_is_consistent(path: Seq<char>)
    ensures
        consistent(restored_state(path, None)),
{
}

/// What a store keeps survives a restart; only the storage nodes have to
/// register again.
pub proof fn a_restart_keeps_objects_and_chunks(stored: PersistentState, s: StoreState)
    requires
        is_snapshot(stored, s),
    ensures
        restored_state(s.path, Some(stored)) == (StoreState {
            storage_nodes: Map::<u64, NodeRecord>::empty(),
            ..s
        }),
        consistent(s) ==> consistent(restored_state(s.path, Some(stored))),
{
}

/// Creating an object keeps a store consistent.
pub proof fn put_object_keeps_consistent(s: StoreState, name: Seq<char>, checksum: u32)
    requires
        consistent(s),
    ensures
        consistent(
            StoreState { objects: s.objects.insert(name, fresh_object(name, checksum)), ..s },
        ),
{
}

/// Registering and forgetting storage nodes keeps a store consistent.
pub proof fn storage_nodes_keep_consistent(s: StoreState, id: u64, address: Seq<char>)
    requires
        consistent(s),
    ensures
        consistent(
            StoreState {
                storage_nodes: s.storage_nodes.insert(id, NodeRecord { id, address }),
                ..s
            },
        ),
        consistent(StoreState { storage_nodes: s.storage_nodes.remove(id), ..s }),
{
}

/// Setting checksum and size of an object keeps a store consistent.
pub proof fn update_checksum_keeps_consistent(
    s: StoreState,
    name: Seq<char>,
    checksum: u32,
    total_size: u64,
)
    requires
        consistent(s),
        s.objects.contains_key(name),
    ensures
        consistent(
            StoreState {
                objects: s.objects.insert(
                    name,
                    ObjectRecord { checksum, total_size, ..s.objects[name] },
                ),
                ..s
            },
        ),
{
    let after = StoreState {
        objects: s.objects.insert(name, ObjectRecord { checksum, total_size, ..s.objects[name] }),
        ..s
    };
    assert forall|n: Seq<char>, i: int|
        #![trigger after.objects[n].chunks[i]]
        after.objects.contains_key(n) && 0 <= i < after.objects[n].chunks.len() implies {
        let id = after.objects[n].chunks[i];
        &&& after.chunks.contains_key(id)
        &&& after.chunks[id].object_name == n
        &&& after.chunks[id].status == ChunkStatus::Confirmed
    } by {
        assert(s.objects.contains_key(n));
        assert(after.objects[n].chunks[i] == s.objects[n].chunks[i]);
    }
}

/// Reserving an unused chunk id keeps a store consistent.
pub proof fn reserve_keeps_consistent(s: StoreState, id: u64, name: Seq<char>)
    requires
        consistent(s),
        !s.chunks.contains_key(id),
    ensures
        consistent(StoreState { chunks: s.chunks.insert(id, pending_chunk(id, name)), ..s }),
{
    let after = StoreState { chunks: s.chunks.insert(id, pending_chunk(id, name)), ..s };
    assert forall|n: Seq<char>, i: int|
        #![trigger after.objects[n].chunks[i]]
        after.objects.contains_key(n) && 0 <= i < after.objects[n].chunks.len() implies {
        let c = after.objects[n].chunks[i];
        &&& after.chunks.contains_key(c)
        &&& after.chunks[c].object_name == n
        &&& after.chunks[c].status == ChunkStatus::Confirmed
    } by {
        assert(s.objects[n].chunks[i] != id);
    }
}

/// Recording the data of a chunk that is new or only reserved keeps a store
/// consistent, whether its object is there or not.
pub proof fn storing_a_chunk_keeps_consistent(
    s: StoreState,
    id: u64,
    name: Seq<char>,
    checksum: u32,
    node: u64,
)
    requires
        consistent(s),
        s.chunks.contains_key(id) ==> s.chunks[id].status == ChunkStatus::Pending,
    ensures
        consistent(s.with_chunk(id, name, stored_chunk(id, name, checksum, node))),
{
    let after = s.with_chunk(id, name, stored_chunk(id, name, checksum, node));
    assert forall|n: Seq<char>, i: int|
        #![trigger after.objects[n].chunks[i]]
        after.objects.contains_key(n) && 0 <= i < after.objects[n].chunks.len() implies {
        let c = after.objects[n].chunks[i];
        &&& after.chunks.contains_key(c)
        &&& after.chunks[c].object_name == n
        &&& after.chunks[c].status == ChunkStatus::Confirmed
    } by {
        assert(s.objects.contains_key(n));
        if i < s.objects[n].chunks.len() {
            assert(s.objects[n].chunks[i] != id);
            assert(after.objects[n].chunks[i] == s.objects[n].chunks[i]);
        }
    }
    assert forall|n: Seq<char>| #[trigger] after.objects.contains_key(n) implies after.objects[n].chunks.no_duplicates() by {
        assert(s.objects.contains_key(n));
        let before = s.objects[n].chunks;
        if n == name {
            assert forall|i: int| 0 <= i < before.len() implies before[i] != id by {
                assert(s.objects[n].chunks[i] != id);
            }
        }
    }
}

/// A confirmed chunk stands at the end of its object's chunks, and confirming
/// it again is refused, for whatever object and storage node.
pub proof fn a_chunk_is_confirmed_once(
    s: StoreState,
    id: u64,
    name: Seq<char>,
    checksum: u32,
    node: u64,
    r: Result<(), StoreError>,
    again_name: Seq<char>,
    again_node: u64,
    again: Result<(), StoreError>,
)
    requires
        confirm_outcome(s, id, name, node, r),
        r is Ok,
        confirm_outcome(
            s.with_chunk(id, name, stored_chunk(id, name, checksum, node)),
            id,
            again_name,
            again_node,
            again,
        ),
    ensures
        again is Err,
        s.with_chunk(id, name, stored_chunk(id, name, checksum, node)).objects[name].chunks
            == s.objects[name].chunks.push(id),
        s.with_chunk(id, name, stored_chunk(id, name, checksum, node)).chunks[id] == stored_chunk(
            id,
            name,
            checksum,
            node,
        ),
{
}

/// A reserved chunk can be confirmed, by way of any registered storage node and
/// for any object that exists.
pub proof fn a_reserved_chunk_can_be_confirmed(
    s: StoreState,
    id: u64,
    reserved_for: Seq<char>,
    name: Seq<char>,
    node: u64,
    r: Result<(), StoreError>,
)
    requires
        s.storage_nodes.contains_key(node),
        s.objects.contains_key(name),
        confirm_outcome(
            StoreState { chunks: s.chunks.insert(id, pending_chunk(id, reserved_for)), ..s },
            id,
            name,
            node,
            r,
        ),
    ensures
        r is Ok,
{
}

/// Deleting an object keeps a store consistent, takes all chunks of the object
/// along, and leaves every other object with its chunks.
pub proof fn deleting_an_object(s: StoreState, name: Seq<char>)
    requires
        consistent(s),
        s.objects.contains_key(name),
    ensures
        consistent(s.without_object(name)),
        !s.without_object(name).objects.contains_key(name),
        forall|i: int|
            0 <= i < s.objects[name].chunks.len() ==> !s.without_object(name).chunks.contains_key(
                #[trigger] s.objects[name].chunks[i],
            ),
        forall|other: Seq<char>|
            other != name && #[trigger] s.objects.contains_key(other) ==> s.without_object(
                name,
            ).objects.contains_key(other) && s.without_object(name).objects[other]
                == s.objects[other],
        forall|id: u64|
            s.chunks.contains_key(id) && s.chunks[id].object_name != name
                ==> #[trigger] s.without_object(name).chunks.contains_key(id) && s.without_object(
                name,
            ).chunks[id] == s.chunks[id],
{
    let after = s.without_object(name);
    let gone = s.objects[name].chunks;
    assert forall|i: int| 0 <= i < gone.len() implies !after.chunks.contains_key(#[trigger] gone[i]) by {
        assert(gone.to_set().contains(gone[i]));
    }
    assert forall|id: u64|
        s.chunks.contains_key(id) && s.chunks[id].object_name != name implies #[trigger] after.chunks.contains_key(
        id,
    ) && after.chunks[id] == s.chunks[id] by {
        if gone.to_set().contains(id) {
            let i = choose|i: int| 0 <= i < gone.len() && gone[i] == id;
            assert(s.objects[name].chunks[i] == id);
        }
    }
    assert forall|n: Seq<char>, i: int|
        #![trigger after.objects[n].chunks[i]]
        after.objects.contains_key(n) && 0 <= i < after.objects[n].chunks.len() implies {
        let c = after.objects[n].chunks[i];
        &&& after.chunks.contains_key(c)
        &&& after.chunks[c].object_name == n
        &&& after.chunks[c].status == ChunkStatus::Confirmed
    } by {
        let c = s.objects[n].chunks[i];
        assert(s.objects.contains_key(n));
        assert(s.chunks[c].object_name == n);
        assert(after.chunks.contains_key(c));
    }
    assert forall|n: Seq<char>| #[trigger] after.objects.contains_key(n) implies after.objects[n].chunks.no_duplicates()
        && after.objects[n].name == n by {
        assert(s.objects.contains_key(n));
    }
}

/// Removing objects in bulk keeps a store consistent and leaves none of the
/// names behind.
pub proof fn removing_objects(s: StoreState, names: Seq<Seq<char>>)
    requires
        consistent(s),
    ensures
        consistent(s.without_objects(names)),
        forall|name: Seq<char>| #[trigger]
            s.without_objects(names).objects.contains_key(name) <==> s.objects.contains_key(name)
                && !names.contains(name),
    decreases names.len(),
{
    if names.len() > 0 {
        let rest = names.drop_last();
        removing_objects(s, rest);
        let before = s.without_objects(rest);
        if before.objects.contains_key(names.last()) {
            deleting_an_object(before, names.last());
        }
        assert forall|name: Seq<char>| #[trigger]
            s.without_objects(names).objects.contains_key(name) <==> s.objects.contains_key(name)
                && !names.contains(name) by {
            assert(before.objects.contains_key(name) <==> s.objects.contains_key(name)
                && !rest.contains(name));
            if rest.contains(name) {
                let i = choose|i: int| 0 <= i < rest.len() && rest[i] == name;
                assert(names[i] == name);
            }
            if names.contains(name) && name != names.last() {
                let i = choose|i: int| 0 <= i < names.len() && names[i] == name;
                assert(rest[i] == name);
            }
            if name == names.last() {
                assert(names[names.len() - 1] == name);
            }
        }
    }
}

/// Deleting a chunk keeps a store consistent, whatever comes of it.
pub proof fn deleting_a_chunk_keeps_consistent(
    s: StoreState,
    id: u64,
    after: StoreState,
    r: Result<(), StoreError>,
)
    requires
        consistent(s),
        delete_chunk_outcome(s, id, after, r),
    ensures
        consistent(after),
        !after.chunks.contains_key(id),
{
    if s.chunks.contains_key(id) {
        let name = s.chunks[id].object_name;
        if s.objects.contains_key(name) {
            let ids = s.objects[name].chunks;
            filter_keeps_distinct(ids, id);
        }
        assert forall|n: Seq<char>, i: int|
            #![trigger after.objects[n].chunks[i]]
            after.objects.contains_key(n) && 0 <= i < after.objects[n].chunks.len() implies {
            let c = after.objects[n].chunks[i];
            &&& after.chunks.contains_key(c)
            &&& after.chunks[c].object_name == n
            &&& after.chunks[c].status == ChunkStatus::Confirmed
        } by {
            assert(s.objects.contains_key(n));
            let c = after.objects[n].chunks[i];
            if n == name {
                let ids = s.objects[name].chunks;
                assert(ids_without(ids, id)[i] == c);
                assert(ids_without(ids, id).contains(c));
                let j = choose|j: int| 0 <= j < ids.len() && ids[j] == c;
                assert(s.objects[n].chunks[j] == c);
            } else {
                assert(s.objects[n].chunks[i] == c);
                assert(s.chunks[c].object_name == n);
            }
        }
        assert forall|n: Seq<char>| #[trigger] after.objects.contains_key(n) implies after.objects[n].chunks.no_duplicates()
            && after.objects[n].name == n by {
            assert(s.objects.contains_key(n));
        }
    }
}

proof fn filter_keeps_distinct(ids: Seq<u64>, id: u64)
    requires
        ids.no_duplicates(),
    ensures
        ids_without(ids, id).no_duplicates(),
        forall|x: u64| #[trigger] ids_without(ids, id).contains(x) <==> ids.contains(x) && x != id,
    decreases ids.len(),
{
    reveal(Seq::filter);
    if ids.len() > 0 {
        let rest = ids.drop_last();
        filter_keeps_distinct(rest, id);
        let kept = ids_without(rest, id);
        let all = ids_without(ids, id);
        assert(!rest.contains(ids.last()));
        if ids.last() != id {
            assert(all == kept.push(ids.last()));
            assert(!kept.contains(ids.last()));
            assert forall|i: int| 0 <= i < kept.len() implies kept[i] != ids.last() by {
                assert(kept.contains(kept[i]));
            }
        } else {
            assert(all == kept);
        }
        assert forall|x: u64| #[trigger] all.contains(x) <==> ids.contains(x) && x != id by {
            assert(kept.contains(x) <==> rest.contains(x) && x != id);
            if kept.contains(x) {
                let j = choose|j: int| 0 <= j < kept.len() && kept[j] == x;
                assert(all[j] == x);
                let k = choose|k: int| 0 <= k < rest.len() && rest[k] == x;
                assert(ids[k] == x);
            }
            if ids.contains(x) && x != ids.last() {
                let k = choose|k: int| 0 <= k < ids.len() && ids[k] == x;
                assert(rest[k] == x);
            }
            if x == ids.last() && x != id {
                assert(all[kept.len() as int] == x);
                assert(ids[ids.len() - 1] == x);
            }
            if all.contains(x) && !kept.contains(x) {
                let j = choose|j: int| 0 <= j < all.len() && all[j] == x;
                assert(j == kept.len());
            }
        }
    }
}

/// Adding a replica keeps a store consistent: a chunk is never said to be twice
/// on one storage node nor to have too many replicas.
pub proof fn adding_a_replica_keeps_consistent(
    s: StoreState,
    id: u64,
    node: u64,
    r: Result<(), StoreError>,
)
    requires
        consistent(s),
        replica_outcome(s, id, node, r),
        r is Ok,
    ensures
        consistent(
            StoreState {
                chunks: s.chunks.insert(
                    id,
                    ChunkRecord {
                        storage_nodes: s.chunks[id].storage_nodes.push(node),
                        ..s.chunks[id]
                    },
                ),
                ..s
            },
        ),
{
    let after = StoreState {
        chunks: s.chunks.insert(
            id,
            ChunkRecord { storage_nodes: s.chunks[id].storage_nodes.push(node), ..s.chunks[id] },
        ),
        ..s
    };
    assert forall|n: Seq<char>, i: int|
        #![trigger after.objects[n].chunks[i]]
        after.objects.contains_key(n) && 0 <= i < after.objects[n].chunks.len() implies {
        let c = after.objects[n].chunks[i];
        &&& after.chunks.contains_key(c)
        &&& after.chunks[c].object_name == n
        &&& after.chunks[c].status == ChunkStatus::Confirmed
    } by {
        let c = s.objects[n].chunks[i];
        assert(s.chunks.contains_key(c));
    }
}

/// A chunk needs replicas until it has the wanted number, and a replica brings
/// it one closer.
pub proof fn a_replica_brings_a_chunk_closer(chunk: ChunkRecord, node: u64, max_replicas: u32)
    requires
        needs_replicas(chunk, max_replicas),
    ensures
        needs_replicas(
            ChunkRecord { storage_nodes: chunk.storage_nodes.push(node), ..chunk },
            max_replicas,
        ) <==> chunk.storage_nodes.len() + 1 < max_replicas,
{
}

} // verus!
