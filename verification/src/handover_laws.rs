//! What a server that joins has after another has handed over to it.
use vstd::prelude::*;

use crate::chunk_index::with_entries;
use crate::cluster_service::{
    chunk_transfer, is_partition, object_transfer, transfer_of, Transfer,
};
use crate::hash_ring::{in_ranges, key_position};
use crate::metadata_store::{present_chunks, ChunkRecord, ChunkStatus, ObjectRecord, StoreState};
use crate::migration::{
    a_transfer_arrives, index_of, moved_chunk, moved_chunks, moved_object, moved_objects, present,
    taken_chunks, taken_objects,
};
use crate::answer_laws::every_recorded_chunk_is_present;
use crate::record_laws::{
    chunks_taken_over_stand_under_their_ids, last_of_its_id, last_of_its_name,
    objects_taken_over_stand_under_their_names, one_has_id, one_has_name,
};
use crate::selection::{picks, picks_alike, picks_next, picks_none};
use crate::store_laws::consistent;
use crate::tables::lists_keys;

verus! {

/// Whether an entry tells everything that is handed over of an object.
pub open spec fn tells_object(entry: Transfer, object: ObjectRecord) -> bool {
    match entry {
        Transfer::Object { name, checksum, chunk_ids } => name == object.name && checksum
            == object.checksum && chunk_ids == object.chunks,
        Transfer::Chunk { .. } => false,
    }
}

/// Whether an entry tells everything that is handed over of a chunk.
pub open spec fn tells_chunk(entry: Transfer, chunk: ChunkRecord) -> bool {
    match entry {
        Transfer::Object { .. } => false,
        Transfer::Chunk { id, object_name, checksum, storage_node_ids } => id == chunk.id
            && object_name == chunk.object_name && checksum == chunk.checksum && storage_node_ids
            == chunk.storage_nodes,
    }
}

/// Objects are handed over one after another, each followed by its own chunks,
/// all of them and in order.
pub proof fn an_object_is_followed_by_its_chunks(
    items: Seq<(ObjectRecord, Seq<ChunkRecord>)>,
    object: ObjectRecord,
    chunks: Seq<ChunkRecord>,
)
    ensures
        ({
            let before = transfer_of(items);
            let added = transfer_of(items.push((object, chunks))).skip(before.len() as int);
            &&& transfer_of(items.push((object, chunks))) == before + added
            &&& added.len() == 1 + chunks.len()
            &&& tells_object(added[0], object)
            &&& forall|j: int|
                0 <= j < chunks.len() ==> tells_chunk(added.skip(1)[j], #[trigger] chunks[j])
        }),
        transfer_of(Seq::<(ObjectRecord, Seq<ChunkRecord>)>::empty()).len() == 0,
{
    let more = items.push((object, chunks));
    assert(more.drop_last() =~= items);
    let before = transfer_of(items);
    let added = transfer_of(more).skip(before.len() as int);
    assert(transfer_of(more) =~= before + added);
    assert(added =~= seq![object_transfer(object)] + chunks.map_values(
        |c: ChunkRecord| chunk_transfer(c),
    ));
}

/// What is taken over as objects are, in order, exactly the entries that are
/// objects: each with its name, checksum and chunks, and without a size.
pub proof fn every_object_entry_is_taken(entries: Seq<Option<Transfer>>)
    ensures
        picks(
            taken_objects(entries),
            entries.len() as int,
            |k: int| entries[k] matches Some(Transfer::Object { .. }),
            |k: int|
                ObjectRecord {
                    name: entries[k]->Some_0->Object_name,
                    checksum: entries[k]->Some_0->Object_checksum,
                    chunks: entries[k]->Some_0->chunk_ids,
                    total_size: 0,
                },
        ),
    decreases entries.len(),
{
    let wanted = |k: int| entries[k] matches Some(Transfer::Object { .. });
    let value = |k: int|
        ObjectRecord {
            name: entries[k]->Some_0->Object_name,
            checksum: entries[k]->Some_0->Object_checksum,
            chunks: entries[k]->Some_0->chunk_ids,
            total_size: 0,
        };
    let n = entries.len() as int;
    if n == 0 {
        picks_none(wanted, value);
    } else {
        let rest = entries.drop_last();
        every_object_entry_is_taken(rest);
        picks_alike(
            taken_objects(rest),
            n - 1,
            |k: int| rest[k] matches Some(Transfer::Object { .. }),
            |k: int|
                ObjectRecord {
                    name: rest[k]->Some_0->Object_name,
                    checksum: rest[k]->Some_0->Object_checksum,
                    chunks: rest[k]->Some_0->chunk_ids,
                    total_size: 0,
                },
            wanted,
            value,
        );
        picks_next(taken_objects(rest), n - 1, wanted, value);
    }
}

/// What is taken over as chunks are, in order, exactly the entries that are
/// chunks: each with its id, object, checksum and storage nodes, and confirmed.
pub proof fn every_chunk_entry_is_taken(entries: Seq<Option<Transfer>>)
    ensures
        picks(
            taken_chunks(entries),
            entries.len() as int,
            |k: int| entries[k] matches Some(Transfer::Chunk { .. }),
            |k: int|
                ChunkRecord {
                    id: entries[k]->Some_0->id,
                    object_name: entries[k]->Some_0->object_name,
                    checksum: entries[k]->Some_0->Chunk_checksum,
                    storage_nodes: entries[k]->Some_0->storage_node_ids,
                    status: ChunkStatus::Confirmed,
                },
        ),
    decreases entries.len(),
{
    let wanted = |k: int| entries[k] matches Some(Transfer::Chunk { .. });
    let value = |k: int|
        ChunkRecord {
            id: entries[k]->Some_0->id,
            object_name: entries[k]->Some_0->object_name,
            checksum: entries[k]->Some_0->Chunk_checksum,
            storage_nodes: entries[k]->Some_0->storage_node_ids,
            status: ChunkStatus::Confirmed,
        };
    let n = entries.len() as int;
    if n == 0 {
        picks_none(wanted, value);
    } else {
        let rest = entries.drop_last();
        every_chunk_entry_is_taken(rest);
        picks_alike(
            taken_chunks(rest),
            n - 1,
            |k: int| rest[k] matches Some(Transfer::Chunk { .. }),
            |k: int|
                ChunkRecord {
                    id: rest[k]->Some_0->id,
                    object_name: rest[k]->Some_0->object_name,
                    checksum: rest[k]->Some_0->Chunk_checksum,
                    storage_nodes: rest[k]->Some_0->storage_node_ids,
                    status: ChunkStatus::Confirmed,
                },
            wanted,
            value,
        );
        picks_next(taken_chunks(rest), n - 1, wanted, value);
    }
}

/// The index gets one entry for every chunk, in order: its id and its object.
pub proof fn the_index_names_every_chunk(chunks: Seq<ChunkRecord>)
    ensures
        index_of(chunks).len() == chunks.len(),
        forall|k: int|
            0 <= k < chunks.len() ==> (#[trigger] index_of(chunks)[k]).0 == chunks[k].id
                && index_of(chunks)[k].1 == chunks[k].object_name,
{
}

/// Whether no later one of `entries` is for the chunk of that at `i`.
pub open spec fn last_entry_of_its_id(entries: Seq<(u64, Seq<char>)>, i: int) -> bool {
    forall|j: int| i < j < entries.len() ==> (#[trigger] entries[j]).0 != entries[i].0
}

/// Whether one of `entries` is for the chunk `id`.
pub open spec fn one_entry_has_id(entries: Seq<(u64, Seq<char>)>, id: u64) -> bool {
    exists|j: int| 0 <= j < entries.len() && (#[trigger] entries[j]).0 == id
}

/// Entries that are put into an index stand under their chunks; of several for
/// one chunk the last counts. Every other entry of the index stays as it is.
pub proof fn entries_stand_under_their_chunks(
    m: Map<u64, Seq<char>>,
    entries: Seq<(u64, Seq<char>)>,
)
    ensures
        forall|i: int|
            0 <= i < entries.len() && #[trigger] last_entry_of_its_id(entries, i) ==> with_entries(
                m,
                entries,
            ).contains_key(entries[i].0) && with_entries(m, entries)[entries[i].0] == entries[i].1,
        forall|id: u64|
            !#[trigger] one_entry_has_id(entries, id) ==> (with_entries(m, entries).contains_key(id)
                <==> m.contains_key(id)) && with_entries(m, entries)[id] == m[id],
    decreases entries.len(),
{
    if entries.len() > 0 {
        let rest = entries.drop_last();
        entries_stand_under_their_chunks(m, rest);
        let after = with_entries(m, entries);
        assert forall|i: int|
            0 <= i < entries.len() && #[trigger] last_entry_of_its_id(
                entries,
                i,
            ) implies after.contains_key(entries[i].0) && after[entries[i].0] == entries[i].1 by {
            if i < rest.len() {
                assert(entries[entries.len() - 1].0 != entries[i].0);
                assert(last_entry_of_its_id(rest, i));
            }
        }
        assert forall|id: u64| !#[trigger] one_entry_has_id(entries, id) implies (
        after.contains_key(id) <==> m.contains_key(id)) && after[id] == m[id] by {
            assert(entries[entries.len() - 1].0 != id);
            assert(!one_entry_has_id(rest, id)) by {
                if one_entry_has_id(rest, id) {
                    let j = choose|j: int| 0 <= j < rest.len() && (#[trigger] rest[j]).0 == id;
                    assert(entries[j].0 == id);
                }
            }
        }
    }
}

proof fn last_with_id(chunks: Seq<ChunkRecord>, id: u64) -> (i: int)
    requires
        one_has_id(chunks, id),
    ensures
        0 <= i < chunks.len(),
        chunks[i].id == id,
        last_of_its_id(chunks, i),
    decreases chunks.len(),
{
    let n = chunks.len() as int;
    if chunks[n - 1].id == id {
        n - 1
    } else {
        let rest = chunks.drop_last();
        let j = choose|j: int| 0 <= j < chunks.len() && (#[trigger] chunks[j]).id == id;
        assert(rest[j].id == id);
        let i = last_with_id(rest, id);
        assert forall|k: int| i < k < chunks.len() implies (#[trigger] chunks[k]).id
            != chunks[i].id by {
            if k < rest.len() {
                assert(rest[k] == chunks[k]);
            }
        }
        i
    }
}

proof fn every_moved_chunk(items: Seq<(ObjectRecord, Seq<ChunkRecord>)>)
    ensures
        forall|i: int, j: int|
            0 <= i < items.len() && 0 <= j < items[i].1.len() ==> moved_chunks(items).contains(
                moved_chunk(#[trigger] items[i].1[j]),
            ),
        forall|k: int|
            0 <= k < moved_chunks(items).len() ==> came_with(
                #[trigger] moved_chunks(items)[k],
                items,
            ),
    decreases items.len(),
{
    if items.len() > 0 {
        let rest = items.drop_last();
        every_moved_chunk(rest);
        let before = moved_chunks(rest);
        let all = moved_chunks(items);
        let last = items.last().1;
        assert forall|i: int, j: int|
            0 <= i < items.len() && 0 <= j < items[i].1.len() implies all.contains(
            moved_chunk(#[trigger] items[i].1[j]),
        ) by {
            if i < rest.len() {
                assert(rest[i] == items[i]);
                assert(before.contains(moved_chunk(rest[i].1[j])));
                let k = choose|k: int|
                    0 <= k < before.len() && before[k] == moved_chunk(rest[i].1[j]);
                assert(all[k] == before[k]);
            } else {
                assert(all[before.len() + j] == moved_chunk(last[j]));
            }
        }
        assert forall|k: int| 0 <= k < all.len() implies came_with(#[trigger] all[k], items) by {
            if k < before.len() {
                assert(all[k] == before[k]);
                assert(came_with(before[k], rest));
                let (i, j) = choose|i: int, j: int|
                    0 <= i < rest.len() && 0 <= j < rest[i].1.len() && before[k] == moved_chunk(
                        #[trigger] rest[i].1[j],
                    );
                assert(items[i].1[j] == rest[i].1[j]);
            } else {
                let j = k - before.len();
                assert(all[k] == moved_chunk(items[items.len() - 1].1[j]));
            }
        }
    }
}

spec fn came_with(c: ChunkRecord, items: Seq<(ObjectRecord, Seq<ChunkRecord>)>) -> bool {
    exists|i: int, j: int|
        0 <= i < items.len() && 0 <= j < items[i].1.len() && c == moved_chunk(
            #[trigger] items[i].1[j],
        )
}

/// The state of a server after it took over what another handed over.
pub open spec fn after_handover(
    t: StoreState,
    items: Seq<(ObjectRecord, Seq<ChunkRecord>)>,
) -> StoreState {
    t.with_objects(taken_objects(present(transfer_of(items)))).with_chunks(
        taken_chunks(present(transfer_of(items))),
    )
}

/// A server that takes over the ranges it owns has, afterwards, every object of
/// the other server in these ranges, with its checksum and all its chunks in
/// order, and of each chunk its object, its checksum and all its storage nodes.
/// Objects that are not among them stay as they were.
pub proof fn a_joining_server_has_what_it_owns(
    s: StoreState,
    t: StoreState,
    ranges: Seq<(u64, u64)>,
    items: Seq<(ObjectRecord, Seq<ChunkRecord>)>,
)
    requires
        consistent(s),
        is_partition(items, s, ranges),
    ensures
        ({
            let after = after_handover(t, items);
            &&& forall|name: Seq<char>| #[trigger]
                s.objects.contains_key(name) && in_ranges(key_position(name), ranges) ==> {
                    &&& after.objects.contains_key(name)
                    &&& after.objects[name].name == name
                    &&& after.objects[name].checksum == s.objects[name].checksum
                    &&& after.objects[name].chunks == s.objects[name].chunks
                }
            &&& forall|name: Seq<char>|
                !(s.objects.contains_key(name) && in_ranges(key_position(name), ranges)) ==> (
                #[trigger] after.objects.contains_key(name) <==> t.objects.contains_key(name))
                    && after.objects[name] == t.objects[name]
            &&& forall|name: Seq<char>, k: int|
                s.objects.contains_key(name) && in_ranges(key_position(name), ranges) && 0 <= k
                    < s.objects[name].chunks.len() ==> {
                    let id = #[trigger] s.objects[name].chunks[k];
                    &&& after.chunks.contains_key(id)
                    &&& after.chunks[id].id == id
                    &&& after.chunks[id].object_name == name
                    &&& after.chunks[id].checksum == s.chunks[id].checksum
                    &&& after.chunks[id].storage_nodes == s.chunks[id].storage_nodes
                    &&& after.chunks[id].status == ChunkStatus::Confirmed
                }
            &&& after.storage_nodes == t.storage_nodes
        }),
{
    let keep = |o: ObjectRecord| in_ranges(key_position(o.name), ranges);
    let firsts = items.map_values(|e: (ObjectRecord, Seq<ChunkRecord>)| e.0);
    let names = choose|names: Seq<Seq<char>>| lists_keys(firsts, s.objects, keep, names);
    assert(lists_keys(firsts, s.objects, keep, names));
    a_transfer_arrives(items);
    let objects = moved_objects(items);
    let chunks = moved_chunks(items);
    let with = t.with_objects(objects);
    let after = after_handover(t, items);
    objects_taken_over_stand_under_their_names(t, objects);
    chunks_taken_over_stand_under_their_ids(with, chunks);
    every_moved_chunk(items);
    assert forall|i: int| 0 <= i < objects.len() implies (#[trigger] objects[i]).name == names[i]
        && objects[i] == moved_object(s.objects[names[i]]) && s.objects.contains_key(names[i])
        && keep(s.objects[names[i]]) by {
        assert(firsts[i] == items[i].0);
        assert(s.objects.contains_key(names[i]));
    }
    assert forall|name: Seq<char>| #[trigger]
        s.objects.contains_key(name) && in_ranges(key_position(name), ranges) implies {
        &&& after.objects.contains_key(name)
        &&& after.objects[name].name == name
        &&& after.objects[name].checksum == s.objects[name].checksum
        &&& after.objects[name].chunks == s.objects[name].chunks
    } by {
        assert(keep(s.objects[name]));
        let i = choose|i: int| 0 <= i < names.len() && names[i] == name;
        assert(last_of_its_name(objects, i)) by {
            assert forall|j: int| i < j < objects.len() implies (#[trigger] objects[j]).name
                != objects[i].name by {
                assert(names[i] != names[j]);
            }
        }
        assert(objects[i].name == name);
    }
    assert forall|name: Seq<char>|
        !(s.objects.contains_key(name) && in_ranges(key_position(name), ranges)) implies (
    #[trigger] after.objects.contains_key(name) <==> t.objects.contains_key(name))
        && after.objects[name] == t.objects[name] by {
        assert(!one_has_name(objects, name)) by {
            if one_has_name(objects, name) {
                let j = choose|j: int|
                    0 <= j < objects.len() && (#[trigger] objects[j]).name == name;
                assert(names[j] == name);
            }
        }
    }
    assert forall|name: Seq<char>, k: int|
        s.objects.contains_key(name) && in_ranges(key_position(name), ranges) && 0 <= k
            < s.objects[name].chunks.len() implies {
        let id = #[trigger] s.objects[name].chunks[k];
        &&& after.chunks.contains_key(id)
        &&& after.chunks[id].id == id
        &&& after.chunks[id].object_name == name
        &&& after.chunks[id].checksum == s.chunks[id].checksum
        &&& after.chunks[id].storage_nodes == s.chunks[id].storage_nodes
        &&& after.chunks[id].status == ChunkStatus::Confirmed
    } by {
        let id = s.objects[name].chunks[k];
        let ids = s.objects[name].chunks;
        assert(keep(s.objects[name]));
        let i = choose|i: int| 0 <= i < names.len() && names[i] == name;
        assert(firsts[i] == items[i].0);
        every_recorded_chunk_is_present(ids, s.chunks);
        assert(items[i].1 == present_chunks(ids, s.chunks));
        assert(s.chunks.contains_key(ids[k]));
        let list = items[i].1;
        let j = choose|j: int| 0 <= j < list.len() && list[j] == s.chunks[id];
        assert(items[i].1[j] == s.chunks[id]);
        assert(chunks.contains(moved_chunk(items[i].1[j])));
        let p = choose|p: int| 0 <= p < chunks.len() && chunks[p] == moved_chunk(s.chunks[id]);
        assert(chunks[p].id == id);
        let q = last_with_id(chunks, id);
        assert(came_with(chunks[q], items));
        let (a, b) = choose|a: int, b: int|
            0 <= a < items.len() && 0 <= b < items[a].1.len() && chunks[q] == moved_chunk(
                #[trigger] items[a].1[b],
            );
        handed_over_is_recorded(s, items, a, b);
    }
}

proof fn handed_over_is_recorded(
    s: StoreState,
    items: Seq<(ObjectRecord, Seq<ChunkRecord>)>,
    a: int,
    b: int,
)
    requires
        consistent(s),
        0 <= a < items.len(),
        0 <= b < items[a].1.len(),
        items[a].1 == present_chunks(items[a].0.chunks, s.chunks),
    ensures
        s.chunks.contains_key(items[a].1[b].id),
        items[a].1[b] == s.chunks[items[a].1[b].id],
{
    let ids = items[a].0.chunks;
    every_recorded_chunk_is_present(ids, s.chunks);
    let wanted = |k: int| s.chunks.contains_key(ids[k]);
    let value = |k: int| s.chunks[ids[k]];
    crate::selection::picks_those(present_chunks(ids, s.chunks), ids.len() as int, wanted, value);
    let k = choose|k: int|
        0 <= k < ids.len() && #[trigger] wanted(k) && present_chunks(ids, s.chunks)[b] == value(k);
    assert(s.chunks.contains_key(ids[k]));
}

} // verus!
