//! What each change of the metadata does to single objects and chunks, and what
//! it leaves alone.
use vstd::prelude::*;

use crate::metadata_store::{
    confirm_outcome, delete_chunk_outcome, fresh_object, ids_without, is_snapshot,
    metadata_path_text, needs_replicas, pending_chunk, replica_outcome, restored_state,
    stored_chunk, ChunkRecord, ChunkStatus, ObjectRecord, PersistentState, StoreState,
};
use crate::selection::{picks, picks_alike, picks_next, picks_none, picks_those};
use crate::status::{ErrorKind, StoreError};

verus! {

/// A new object has its name and checksum, and neither chunks nor size.
pub proof fn a_new_object_is_empty(name: Seq<char>, checksum: u32)
    ensures
        fresh_object(name, checksum).name == name,
        fresh_object(name, checksum).checksum == checksum,
        fresh_object(name, checksum).chunks.len() == 0,
        fresh_object(name, checksum).total_size == 0,
{
}

/// A reserved chunk is nowhere and pending; one that is stored lies on exactly
/// its one storage node, under its own id and checksum, and is confirmed. Both
/// belong to the object they are for.
pub proof fn a_chunk_is_pending_until_it_is_stored(
    id: u64,
    name: Seq<char>,
    checksum: u32,
    node: u64,
)
    ensures
        pending_chunk(id, name).id == id,
        pending_chunk(id, name).object_name == name,
        pending_chunk(id, name).storage_nodes.len() == 0,
        pending_chunk(id, name).status == ChunkStatus::Pending,
        stored_chunk(id, name, checksum, node).id == id,
        stored_chunk(id, name, checksum, node).object_name == name,
        stored_chunk(id, name, checksum, node).checksum == checksum,
        stored_chunk(id, name, checksum, node).storage_nodes.len() == 1,
        stored_chunk(id, name, checksum, node).storage_nodes[0] == node,
        stored_chunk(id, name, checksum, node).status == ChunkStatus::Confirmed,
{
}

/// Adding a chunk records it under its id and puts the id at the end of the
/// object's list. No other chunk changes, no other object, and nothing else of
/// the object.
pub proof fn adding_a_chunk_changes_one_object(
    s: StoreState,
    id: u64,
    name: Seq<char>,
    chunk: ChunkRecord,
)
    ensures
        ({
            let after = s.with_chunk(id, name, chunk);
            &&& after.chunks.contains_key(id) && after.chunks[id] == chunk
            &&& forall|other: u64|
                other != id ==> after.chunks.contains_key(other) == s.chunks.contains_key(other)
                    && #[trigger] after.chunks[other] == s.chunks[other]
            &&& forall|n: Seq<char>| #[trigger]
                after.objects.contains_key(n) <==> s.objects.contains_key(n)
            &&& forall|n: Seq<char>|
                n != name && s.objects.contains_key(n) ==> #[trigger] after.objects[n]
                    == s.objects[n]
            &&& s.objects.contains_key(name) ==> {
                &&& after.objects[name].chunks.len() == s.objects[name].chunks.len() + 1
                &&& after.objects[name].chunks.last() == id
                &&& after.objects[name].chunks.drop_last() == s.objects[name].chunks
                &&& after.objects[name].name == s.objects[name].name
                &&& after.objects[name].checksum == s.objects[name].checksum
                &&& after.objects[name].total_size == s.objects[name].total_size
            }
            &&& after.storage_nodes == s.storage_nodes && after.path == s.path
        }),
{
    if s.objects.contains_key(name) {
        assert(s.with_chunk(id, name, chunk).objects[name].chunks.drop_last()
            =~= s.objects[name].chunks);
    }
}

/// Removing an object takes away the object and every chunk in its list, and
/// nothing else.
pub proof fn removing_an_object_takes_its_chunks(s: StoreState, name: Seq<char>)
    ensures
        ({
            let after = s.without_object(name);
            &&& !after.objects.contains_key(name)
            &&& forall|n: Seq<char>|
                n != name ==> #[trigger] after.objects.contains_key(n) == s.objects.contains_key(n)
                    && after.objects[n] == s.objects[n]
            &&& forall|id: u64| #[trigger]
                after.chunks.contains_key(id) <==> s.chunks.contains_key(id)
                    && !s.objects[name].chunks.contains(id)
            &&& forall|id: u64| #[trigger]
                after.chunks.contains_key(id) ==> after.chunks[id] == s.chunks[id]
            &&& after.storage_nodes == s.storage_nodes && after.path == s.path
        }),
{
}

/// Whether a chunk is in the list of one of the objects `names` of a store.
pub open spec fn of_one_of(s: StoreState, names: Seq<Seq<char>>, id: u64) -> bool {
    exists|i: int|
        0 <= i < names.len() && s.objects.contains_key(#[trigger] names[i])
            && s.objects[names[i]].chunks.contains(id)
}

/// Removing objects takes away exactly the named objects and the chunks in
/// their lists; every other object and chunk stays as it is.
pub proof fn removing_objects_takes_their_chunks(s: StoreState, names: Seq<Seq<char>>)
    ensures
        ({
            let after = s.without_objects(names);
            &&& forall|n: Seq<char>| #[trigger]
                after.objects.contains_key(n) <==> s.objects.contains_key(n) && !names.contains(n)
            &&& forall|n: Seq<char>| #[trigger]
                after.objects.contains_key(n) ==> after.objects[n] == s.objects[n]
            &&& forall|id: u64| #[trigger]
                after.chunks.contains_key(id) <==> s.chunks.contains_key(id) && !of_one_of(
                    s,
                    names,
                    id,
                )
            &&& forall|id: u64| #[trigger]
                after.chunks.contains_key(id) ==> after.chunks[id] == s.chunks[id]
            &&& after.storage_nodes == s.storage_nodes && after.path == s.path
        }),
    decreases names.len(),
{
    let after = s.without_objects(names);
    if names.len() > 0 {
        let rest = names.drop_last();
        let last = names.last();
        removing_objects_takes_their_chunks(s, rest);
        let before = s.without_objects(rest);
        assert(names =~= rest.push(last));
        assert forall|n: Seq<char>| #[trigger] names.contains(n) <==> rest.contains(n) || n == last by {
            if rest.contains(n) {
                let i = choose|i: int| 0 <= i < rest.len() && rest[i] == n;
                assert(names[i] == n);
            }
            if n == last {
                assert(names[names.len() - 1] == n);
            }
            if names.contains(n) && n != last {
                let i = choose|i: int| 0 <= i < names.len() && names[i] == n;
                assert(rest[i] == n);
            }
        }
        assert forall|id: u64| #[trigger] of_one_of(s, names, id) <==> of_one_of(s, rest, id) || (
        s.objects.contains_key(last) && s.objects[last].chunks.contains(id)) by {
            if of_one_of(s, rest, id) {
                let i = choose|i: int|
                    0 <= i < rest.len() && s.objects.contains_key(#[trigger] rest[i])
                        && s.objects[rest[i]].chunks.contains(id);
                assert(names[i] == rest[i]);
                assert(s.objects.contains_key(names[i]));
            }
            if s.objects.contains_key(last) && s.objects[last].chunks.contains(id) {
                assert(s.objects.contains_key(names[names.len() - 1]));
            }
            if of_one_of(s, names, id) && !(s.objects.contains_key(last)
                && s.objects[last].chunks.contains(id)) {
                let i = choose|i: int|
                    0 <= i < names.len() && s.objects.contains_key(#[trigger] names[i])
                        && s.objects[names[i]].chunks.contains(id);
                assert(rest[i] == names[i]);
                assert(s.objects.contains_key(rest[i]));
            }
        }
        removing_an_object_takes_its_chunks(before, last);
        if !before.objects.contains_key(last) && s.objects.contains_key(last) {
            assert(rest.contains(last));
            let i = choose|i: int| 0 <= i < rest.len() && rest[i] == last;
            assert forall|id: u64| s.objects[last].chunks.contains(id) implies #[trigger] of_one_of(
                s,
                rest,
                id,
            ) by {
                assert(s.objects.contains_key(rest[i]));
            }
        }
        assert forall|id: u64| #[trigger] after.chunks.contains_key(id) <==> s.chunks.contains_key(
            id,
        ) && !of_one_of(s, names, id) by {
            assert(of_one_of(s, names, id) <==> of_one_of(s, rest, id) || (s.objects.contains_key(
                last,
            ) && s.objects[last].chunks.contains(id)));
            assert(before.chunks.contains_key(id) <==> s.chunks.contains_key(id) && !of_one_of(
                s,
                rest,
                id,
            ));
        }
    }
}

/// Whether no later one of `objects` has the name of that at `i`.
pub open spec fn last_of_its_name(objects: Seq<ObjectRecord>, i: int) -> bool {
    forall|j: int| i < j < objects.len() ==> (#[trigger] objects[j]).name != objects[i].name
}

/// Whether one of `objects` has the name `name`.
pub open spec fn one_has_name(objects: Seq<ObjectRecord>, name: Seq<char>) -> bool {
    exists|j: int| 0 <= j < objects.len() && (#[trigger] objects[j]).name == name
}

/// Objects that are taken over stand under their names; of several with one
/// name the last counts. Every other object, and every chunk, stays as it is.
pub proof fn objects_taken_over_stand_under_their_names(s: StoreState, objects: Seq<ObjectRecord>)
    ensures
        ({
            let after = s.with_objects(objects);
            &&& forall|i: int|
                0 <= i < objects.len() && #[trigger] last_of_its_name(objects, i)
                    ==> after.objects.contains_key(objects[i].name) && after.objects[objects[i].name]
                    == objects[i]
            &&& forall|name: Seq<char>|
                !#[trigger] one_has_name(objects, name) ==> (after.objects.contains_key(name)
                    <==> s.objects.contains_key(name)) && after.objects[name] == s.objects[name]
            &&& after.chunks == s.chunks && after.storage_nodes == s.storage_nodes && after.path
                == s.path
        }),
    decreases objects.len(),
{
    if objects.len() > 0 {
        let rest = objects.drop_last();
        objects_taken_over_stand_under_their_names(s, rest);
        let after = s.with_objects(objects);
        assert forall|i: int|
            0 <= i < objects.len() && #[trigger] last_of_its_name(
                objects,
                i,
            ) implies after.objects.contains_key(objects[i].name) && after.objects[objects[i].name]
            == objects[i] by {
            if i < rest.len() {
                assert(objects[objects.len() - 1].name != objects[i].name);
                assert(last_of_its_name(rest, i));
            }
        }
        assert forall|name: Seq<char>| !#[trigger] one_has_name(objects, name) implies (
        after.objects.contains_key(name) <==> s.objects.contains_key(name)) && after.objects[name]
            == s.objects[name] by {
            assert(objects[objects.len() - 1].name != name);
            assert(!one_has_name(rest, name)) by {
                if one_has_name(rest, name) {
                    let j = choose|j: int| 0 <= j < rest.len() && (#[trigger] rest[j]).name == name;
                    assert(objects[j].name == name);
                }
            }
        }
    }
}

/// Whether no later one of `chunks` has the id of that at `i`.
pub open spec fn last_of_its_id(chunks: Seq<ChunkRecord>, i: int) -> bool {
    forall|j: int| i < j < chunks.len() ==> (#[trigger] chunks[j]).id != chunks[i].id
}

/// Whether one of `chunks` has the id `id`.
pub open spec fn one_has_id(chunks: Seq<ChunkRecord>, id: u64) -> bool {
    exists|j: int| 0 <= j < chunks.len() && (#[trigger] chunks[j]).id == id
}

/// Chunks that are taken over stand under their ids; of several with one id the
/// last counts. Every other chunk, and every object, stays as it is.
pub proof fn chunks_taken_over_stand_under_their_ids(s: StoreState, chunks: Seq<ChunkRecord>)
    ensures
        ({
            let after = s.with_chunks(chunks);
            &&& forall|i: int|
                0 <= i < chunks.len() && #[trigger] last_of_its_id(chunks, i)
                    ==> after.chunks.contains_key(chunks[i].id) && after.chunks[chunks[i].id]
                    == chunks[i]
            &&& forall|id: u64|
                !#[trigger] one_has_id(chunks, id) ==> (after.chunks.contains_key(id)
                    <==> s.chunks.contains_key(id)) && after.chunks[id] == s.chunks[id]
            &&& after.objects == s.objects && after.storage_nodes == s.storage_nodes && after.path
                == s.path
        }),
    decreases chunks.len(),
{
    if chunks.len() > 0 {
        let rest = chunks.drop_last();
        chunks_taken_over_stand_under_their_ids(s, rest);
        let after = s.with_chunks(chunks);
        assert forall|i: int|
            0 <= i < chunks.len() && #[trigger] last_of_its_id(
                chunks,
                i,
            ) implies after.chunks.contains_key(chunks[i].id) && after.chunks[chunks[i].id]
            == chunks[i] by {
            if i < rest.len() {
                assert(chunks[chunks.len() - 1].id != chunks[i].id);
                assert(last_of_its_id(rest, i));
            }
        }
        assert forall|id: u64| !#[trigger] one_has_id(chunks, id) implies (
        after.chunks.contains_key(id) <==> s.chunks.contains_key(id)) && after.chunks[id]
            == s.chunks[id] by {
            assert(chunks[chunks.len() - 1].id != id);
            assert(!one_has_id(rest, id)) by {
                if one_has_id(rest, id) {
                    let j = choose|j: int| 0 <= j < rest.len() && (#[trigger] rest[j]).id == id;
                    assert(chunks[j].id == id);
                }
            }
        }
    }
}

/// Taking an id out of a list takes out all its occurrences and keeps every
/// other entry, in order.
pub proof fn taking_an_id_out_keeps_the_others(ids: Seq<u64>, id: u64)
    ensures
        picks(
            ids_without(ids, id),
            ids.len() as int,
            |k: int| ids[k] != id,
            |k: int| ids[k],
        ),
        !ids_without(ids, id).contains(id),
        forall|other: u64|
            other != id ==> (#[trigger] ids_without(ids, id).contains(other) <==> ids.contains(
                other,
            )),
    decreases ids.len(),
{
    reveal(Seq::filter);
    let wanted = |k: int| ids[k] != id;
    let value = |k: int| ids[k];
    let all = ids_without(ids, id);
    let n = ids.len() as int;
    if n == 0 {
        picks_none(wanted, value);
        assert(all =~= Seq::<u64>::empty());
    } else {
        let rest = ids.drop_last();
        taking_an_id_out_keeps_the_others(rest, id);
        picks_alike(
            ids_without(rest, id),
            n - 1,
            |k: int| rest[k] != id,
            |k: int| rest[k],
            wanted,
            value,
        );
        picks_next(ids_without(rest, id), n - 1, wanted, value);
    }
    picks_those(all, n, wanted, value);
    assert forall|other: u64| other != id implies (#[trigger] all.contains(other)
        <==> ids.contains(other)) by {
        if all.contains(other) {
            let i = choose|i: int| 0 <= i < all.len() && all[i] == other;
            let k = choose|k: int| 0 <= k < n && #[trigger] wanted(k) && all[i] == value(k);
            assert(ids[k] == other);
        }
        if ids.contains(other) {
            let k = choose|k: int| 0 <= k < n && ids[k] == other;
            assert(wanted(k));
        }
    }
    if all.contains(id) {
        let i = choose|i: int| 0 <= i < all.len() && all[i] == id;
        let k = choose|k: int| 0 <= k < n && #[trigger] wanted(k) && all[i] == value(k);
        assert(ids[k] != id);
    }
}

/// Deleting a chunk succeeds exactly where the chunk and its object are
/// recorded. The chunk is then gone, also from the object's list, which keeps
/// all other ids in order; no other chunk changes, no other object, and nothing
/// else of the object. A chunk without an object goes all the same.
pub proof fn deleting_a_chunk_takes_it_off_its_object(
    before: StoreState,
    id: u64,
    after: StoreState,
    r: Result<(), StoreError>,
)
    requires
        delete_chunk_outcome(before, id, after, r),
    ensures
        r is Ok <==> before.chunks.contains_key(id) && before.objects.contains_key(
            before.chunks[id].object_name,
        ),
        r matches Err(e) ==> e.kind == ErrorKind::NotFound,
        !after.chunks.contains_key(id),
        forall|other: u64|
            other != id ==> #[trigger] after.chunks.contains_key(other)
                == before.chunks.contains_key(other) && after.chunks[other] == before.chunks[other],
        forall|n: Seq<char>| #[trigger]
            after.objects.contains_key(n) <==> before.objects.contains_key(n),
        forall|n: Seq<char>|
            before.objects.contains_key(n) && !(before.chunks.contains_key(id) && n
                == before.chunks[id].object_name) ==> #[trigger] after.objects[n]
                == before.objects[n],
        r is Ok ==> {
            let name = before.chunks[id].object_name;
            &&& !after.objects[name].chunks.contains(id)
            &&& picks(
                after.objects[name].chunks,
                before.objects[name].chunks.len() as int,
                |k: int| before.objects[name].chunks[k] != id,
                |k: int| before.objects[name].chunks[k],
            )
            &&& after.objects[name].name == before.objects[name].name
            &&& after.objects[name].checksum == before.objects[name].checksum
            &&& after.objects[name].total_size == before.objects[name].total_size
        },
        after.storage_nodes == before.storage_nodes,
        after.path == before.path,
{
    if r is Ok {
        taking_an_id_out_keeps_the_others(
            before.objects[before.chunks[id].object_name].chunks,
            id,
        );
    }
}

/// Confirming a chunk succeeds exactly where its storage node is registered, no
/// chunk is confirmed under its id and its object is there. Otherwise the error
/// says what is wrong: a node or an object that is not there, or a chunk that
/// is confirmed already.
pub proof fn a_chunk_is_confirmed_where_it_can_be(
    s: StoreState,
    id: u64,
    name: Seq<char>,
    node: u64,
    r: Result<(), StoreError>,
)
    requires
        confirm_outcome(s, id, name, node, r),
    ensures
        r is Ok <==> {
            &&& s.storage_nodes.contains_key(node)
            &&& s.objects.contains_key(name)
            &&& s.chunks.contains_key(id) ==> s.chunks[id].status == ChunkStatus::Pending
        },
        r matches Err(e) ==> {
            &&& e.kind == ErrorKind::AlreadyExists || e.kind == ErrorKind::NotFound
            &&& e.kind == ErrorKind::AlreadyExists <==> s.storage_nodes.contains_key(node)
                && s.chunks.contains_key(id) && s.chunks[id].status == ChunkStatus::Confirmed
        },
{
}

/// A replica is added exactly where its storage node is registered and does not
/// hold the chunk yet, and the chunk is there and has fewer than three
/// replicas. Otherwise the error says what is wrong.
pub proof fn a_replica_is_added_where_it_can_be(
    s: StoreState,
    id: u64,
    node: u64,
    r: Result<(), StoreError>,
)
    requires
        replica_outcome(s, id, node, r),
    ensures
        r is Ok <==> {
            &&& s.storage_nodes.contains_key(node)
            &&& s.chunks.contains_key(id)
            &&& !s.chunks[id].storage_nodes.contains(node)
            &&& s.chunks[id].storage_nodes.len() < 3
        },
        r matches Err(e) ==> {
            &&& e.kind == ErrorKind::NotFound <==> !s.storage_nodes.contains_key(node)
                || !s.chunks.contains_key(id)
            &&& e.kind == ErrorKind::AlreadyExists <==> s.storage_nodes.contains_key(node)
                && s.chunks.contains_key(id) && s.chunks[id].storage_nodes.contains(node)
            &&& e.kind == ErrorKind::InvalidInput <==> s.storage_nodes.contains_key(node)
                && s.chunks.contains_key(id) && !s.chunks[id].storage_nodes.contains(node)
                && s.chunks[id].storage_nodes.len() >= 3
        },
{
}

/// A chunk wants replicas where it is confirmed and has fewer than it may have:
/// a pending chunk never does, and one that wants replicas for some number
/// wants them for every larger one.
pub proof fn a_chunk_wants_replicas_until_it_has_them(chunk: ChunkRecord, few: u32, many: u32)
    requires
        few <= many,
    ensures
        chunk.status == ChunkStatus::Pending ==> !needs_replicas(chunk, many),
        needs_replicas(chunk, few) ==> needs_replicas(chunk, many),
        chunk.status == ChunkStatus::Confirmed && few > 0 && chunk.storage_nodes.len() == few - 1
            ==> needs_replicas(chunk, few),
        chunk.storage_nodes.len() == few ==> !needs_replicas(chunk, few),
{
}

/// A store that starts from what was stored has the objects and the chunks that
/// were stored, entry by entry, and no storage nodes; one that starts from
/// nothing has nothing.
pub proof fn a_store_starts_with_what_was_stored(
    path: Seq<char>,
    stored: Option<PersistentState>,
)
    ensures
        ({
            let s = restored_state(path, stored);
            &&& s.path == path
            &&& s.storage_nodes.dom().is_empty()
            &&& stored is None ==> s.objects.dom().is_empty() && s.chunks.dom().is_empty()
            &&& stored matches Some(state) ==> {
                &&& forall|n: Seq<char>| #[trigger]
                    s.objects.contains_key(n) <==> state.objects@.contains_key(n)
                &&& forall|n: Seq<char>| #[trigger]
                    s.objects.contains_key(n) ==> {
                        &&& s.objects[n].name == state.objects@[n].name@
                        &&& s.objects[n].checksum == state.objects@[n].checksum
                        &&& s.objects[n].chunks == state.objects@[n].chunks@
                        &&& s.objects[n].total_size == state.objects@[n].total_size
                    }
                &&& forall|id: u64| #[trigger]
                    s.chunks.contains_key(id) <==> state.chunks@.contains_key(id)
                &&& forall|id: u64| #[trigger]
                    s.chunks.contains_key(id) ==> {
                        &&& s.chunks[id].id == state.chunks@[id].id
                        &&& s.chunks[id].object_name == state.chunks@[id].object_name@
                        &&& s.chunks[id].checksum == state.chunks@[id].checksum
                        &&& s.chunks[id].storage_nodes == state.chunks@[id].storage_nodes@
                        &&& s.chunks[id].status == state.chunks@[id].status
                    }
            }
        }),
{
}

/// What is stored of a store holds every object and every chunk of it, entry by
/// entry, under version 1.
pub proof fn what_is_stored_is_the_whole_store(stored: PersistentState, s: StoreState)
    requires
        is_snapshot(stored, s),
    ensures
        stored.version == 1,
        forall|n: Seq<char>| #[trigger]
            s.objects.contains_key(n) ==> {
                &&& stored.objects@.contains_key(n)
                &&& stored.objects@[n].name@ == s.objects[n].name
                &&& stored.objects@[n].checksum == s.objects[n].checksum
                &&& stored.objects@[n].chunks@ == s.objects[n].chunks
                &&& stored.objects@[n].total_size == s.objects[n].total_size
            },
        forall|id: u64| #[trigger]
            s.chunks.contains_key(id) ==> {
                &&& stored.chunks@.contains_key(id)
                &&& stored.chunks@[id].id == s.chunks[id].id
                &&& stored.chunks@[id].object_name@ == s.chunks[id].object_name
                &&& stored.chunks@[id].checksum == s.chunks[id].checksum
                &&& stored.chunks@[id].storage_nodes@ == s.chunks[id].storage_nodes
                &&& stored.chunks@[id].status == s.chunks[id].status
            },
{
}

/// Servers that share a directory keep their metadata in different files.
pub proof fn every_server_has_its_own_file(dir: Seq<char>, a: Seq<char>, b: Seq<char>)
    ensures
        metadata_path_text(dir, a) == metadata_path_text(dir, b) ==> a == b,
        dir.is_prefix_of(metadata_path_text(dir, a)),
{
    let x = metadata_path_text(dir, a);
    let y = metadata_path_text(dir, b);
    let from = dir.len() + "/metadata-"@.len();
    assert(x.subrange(0, dir.len() as int) =~= dir);
    assert(x.subrange(from as int, x.len() - ".dat"@.len()) =~= a);
    assert(y.subrange(from as int, y.len() - ".dat"@.len()) =~= b);
}

} // verus!
