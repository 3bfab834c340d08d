//! How a metadata server answers the other servers of its cluster.
use vstd::prelude::*;

use crate::chunk_index::{entry_views, with_entries, ChunkIndex};
use crate::hash_ring::{in_ranges, key_position};
use crate::messages::{
    places_views, ChunkInfo, ChunkPlaces, GetChunkResponse, GetObjectResponse, PutChunkResponse,
};
use crate::metadata_service::{known_nodes, known_places, nodes_known};
use crate::metadata_store::{
    chunk_views, node_views, present_chunks, ChunkRecord, MetaChunk, MetaObject, MetadataStore,
    ObjectRecord, StoreState,
};
use crate::status::{Code, Status, StoreError};
use crate::tables::lists_where;
use crate::text::{decimal, decimal_text, join2, join3};

verus! {

/// The chunks `ids`, each with those of its storage nodes that are registered,
/// or the first chunk that is not recorded.
pub open spec fn owned_chunks(ids: Seq<u64>, s: StoreState) -> Result<Seq<ChunkPlaces>, u64>
    decreases ids.len(),
{
    if ids.len() == 0 {
        Ok(Seq::<ChunkPlaces>::empty())
    } else {
        match owned_chunks(ids.drop_last(), s) {
            Err(id) => Err(id),
            Ok(before) => if s.chunks.contains_key(ids.last()) {
                Ok(before.push(known_places(s.chunks[ids.last()], s)))
            } else {
                Err(ids.last())
            },
        }
    }
}

proof fn missing_stays(ids: Seq<u64>, s: StoreState, k: int)
    requires
        0 <= k <= ids.len(),
        owned_chunks(ids.take(k), s) is Err,
    ensures
        owned_chunks(ids, s) == owned_chunks(ids.take(k), s),
    decreases ids.len(),
{
    if k == ids.len() {
        assert(ids.take(k) =~= ids);
    } else {
        assert(ids.drop_last().take(k) =~= ids.take(k));
        missing_stays(ids.drop_last(), s, k);
    }
}

/// What asking the owner for an object comes to.
pub open spec fn owned_object_outcome(
    s: StoreState,
    name: Seq<char>,
    r: Result<GetObjectResponse, Status>,
) -> bool {
    if !s.objects.contains_key(name) {
        r matches Err(status) && status.is(Code::NotFound, "object not found"@)
    } else {
        match owned_chunks(s.objects[name].chunks, s) {
            Err(id) => r matches Err(status) && status.is(
                Code::Internal,
                "chunk "@ + decimal_text(id as nat) + " referenced but not found"@,
            ),
            Ok(chunks) => r matches Ok(response) && response.checksum == s.objects[name].checksum
                && places_views(response.chunks@) == chunks,
        }
    }
}

/// A piece of what one server hands over to another.
#[derive(Debug)]
pub enum TransferEntry {
    Object { name: String, checksum: u32, chunk_ids: Vec<u64> },
    Chunk { id: u64, object_name: String, checksum: u32, storage_node_ids: Vec<u64> },
}

/// What a [`TransferEntry`] stands for.
pub enum Transfer {
    Object { name: Seq<char>, checksum: u32, chunk_ids: Seq<u64> },
    Chunk { id: u64, object_name: Seq<char>, checksum: u32, storage_node_ids: Seq<u64> },
}

impl View for TransferEntry {
    type V = Transfer;

    open spec fn view(&self) -> Transfer {
        match *self {
            TransferEntry::Object { name, checksum, chunk_ids } => Transfer::Object {
                name: name@,
                checksum,
                chunk_ids: chunk_ids@,
            },
            TransferEntry::Chunk { id, object_name, checksum, storage_node_ids } => Transfer::Chunk {
                id,
                object_name: object_name@,
                checksum,
                storage_node_ids: storage_node_ids@,
            },
        }
    }
}

/// The views of a list of entries.
pub open spec fn transfer_views(items: Seq<TransferEntry>) -> Seq<Transfer> {
    items.map_values(|e: TransferEntry| e@)
}

/// How an object is handed over.
pub open spec fn object_transfer(object: ObjectRecord) -> Transfer {
    Transfer::Object {
        name: object.name,
        checksum: object.checksum,
        chunk_ids: object.chunks,
    }
}

/// How a chunk is handed over.
pub open spec fn chunk_transfer(chunk: ChunkRecord) -> Transfer {
    Transfer::Chunk {
        id: chunk.id,
        object_name: chunk.object_name,
        checksum: chunk.checksum,
        storage_node_ids: chunk.storage_nodes,
    }
}

/// How objects with their chunks are handed over: each object, then its chunks.
pub open spec fn transfer_of(items: Seq<(ObjectRecord, Seq<ChunkRecord>)>) -> Seq<Transfer>
    decreases items.len(),
{
    if items.len() == 0 {
        Seq::<Transfer>::empty()
    } else {
        transfer_of(items.drop_last()).push(object_transfer(items.last().0))
            + items.last().1.map_values(|c: ChunkRecord| chunk_transfer(c))
    }
}

/// The views of objects with their chunks.
pub open spec fn partition_views(items: Seq<(MetaObject, Vec<MetaChunk>)>) -> Seq<
    (ObjectRecord, Seq<ChunkRecord>),
> {
    items.map_values(|e: (MetaObject, Vec<MetaChunk>)| (e.0@, chunk_views(e.1@)))
}

/// `items` are the objects of a store whose names hash into `ranges`, in some
/// order, each with its recorded chunks.
pub open spec fn is_partition(
    items: Seq<(ObjectRecord, Seq<ChunkRecord>)>,
    s: StoreState,
    ranges: Seq<(u64, u64)>,
) -> bool {
    &&& lists_where(
        items.map_values(|e: (ObjectRecord, Seq<ChunkRecord>)| e.0),
        s.objects,
        |o: ObjectRecord| in_ranges(key_position(o.name), ranges),
    )
    &&& forall|i: int|
        0 <= i < items.len() ==> (#[trigger] items[i]).1 == present_chunks(
            items[i].0.chunks,
            s.chunks,
        )
}

/// What a metadata server does for the other servers: it acts on its own part
/// of the metadata and asks nobody else.
pub struct MetadataClusterServiceImpl;

impl MetadataClusterServiceImpl {
    /// The answer once an object was created, or could not be.
    pub fn forward_put_object_answer(outcome: Result<(), StoreError>) -> (r: Result<(), Status>)
        ensures
            match r {
                Ok(()) => outcome is Ok,
                Err(status) => outcome matches Err(e) && status.is(
                    Code::Internal,
                    "put_object failed: "@ + e.message@,
                ),
            },
    {
        match outcome {
            Ok(()) => Ok(()),
            Err(e) => Err(
                Status::new(Code::Internal, join2("put_object failed: ", e.message.as_str())),
            ),
        }
    }

    /// An object and the places of its chunks. Every chunk has to be recorded;
    /// storage nodes that are not registered are left out.
    pub fn forward_get_object(store: &MetadataStore, object_name: String) -> (r: Result<
        GetObjectResponse,
        Status,
    >)
        ensures
            owned_object_outcome(store@, object_name@, r),
    {
        let object: &MetaObject = match store.get_object(object_name) {
            Ok(object) => object,
            Err(_) => {
                return Err(Status::new(Code::NotFound, "object not found".to_owned()));
            },
        };
        let ids: &Vec<u64> = &object.chunks;
        let mut chunks: Vec<ChunkInfo> = Vec::new();
        let mut i: usize = 0;
        assert(places_views(chunks@) =~= Seq::<ChunkPlaces>::empty());
        while i < ids.len()
            invariant
                i <= ids@.len(),
                store@.objects.contains_key(object_name@),
                ids@ == store@.objects[object_name@].chunks,
                owned_chunks(ids@.take(i as int), store@) == Ok::<Seq<ChunkPlaces>, u64>(
                    places_views(chunks@),
                ),
            decreases ids@.len() - i,
        {
            let ghost before = places_views(chunks@);
            assert(ids@.take(i + 1).drop_last() =~= ids@.take(i as int));
            match store.get_chunk(ids[i]) {
                Ok((_, chunk)) => {
                    let info = ChunkInfo {
                        id: chunk.id,
                        checksum: chunk.checksum,
                        storage_nodes: nodes_known(store, &chunk.storage_nodes),
                    };
                    chunks.push(info);
                    assert(places_views(chunks@) =~= before.push(info@));
                },
                Err(_) => {
                    proof {
                        missing_stays(ids@, store@, i + 1);
                    }
                    return Err(
                        Status::new(
                            Code::Internal,
                            join3(
                                "chunk ",
                                decimal(ids[i]).as_str(),
                                " referenced but not found",
                            ),
                        ),
                    );
                },
            }
            i = i + 1;
        }
        assert(ids@.take(ids@.len() as int) =~= ids@);
        Ok(GetObjectResponse { checksum: object.checksum, chunks })
    }

    /// A chunk and those of its storage nodes that are registered.
    pub fn forward_get_chunk(store: &MetadataStore, chunk_id: u64) -> (r: Result<
        GetChunkResponse,
        Status,
    >)
        ensures
            match r {
                Ok(response) => {
                    &&& store@.chunks.contains_key(chunk_id)
                    &&& response.object_name@ == store@.chunks[chunk_id].object_name
                    &&& response.checksum == store@.chunks[chunk_id].checksum
                    &&& node_views(response.storage_nodes@) == known_nodes(
                        store@.chunks[chunk_id].storage_nodes,
                        store@.storage_nodes,
                    )
                },
                Err(status) => !store@.chunks.contains_key(chunk_id) && status.is(
                    Code::NotFound,
                    "chunk not found"@,
                ),
            },
    {
        match store.get_chunk(chunk_id) {
            Ok((object_name, chunk)) => Ok(
                GetChunkResponse {
                    object_name,
                    checksum: chunk.checksum,
                    storage_nodes: nodes_known(store, &chunk.storage_nodes),
                },
            ),
            Err(_) => Err(Status::new(Code::NotFound, "chunk not found".to_owned())),
        }
    }

    /// The answer once a chunk was added, or could not be. A chunk that was
    /// added goes into the index.
    pub fn forward_put_chunk_answer(
        chunk_index: &mut ChunkIndex,
        object_name: String,
        outcome: Result<(u64, String), StoreError>,
    ) -> (r: Result<PutChunkResponse, Status>)
        ensures
            match r {
                Ok(response) => outcome matches Ok((id, address)) && response.chunk_id == id
                    && response.storage_node_address@ == address@ && final(chunk_index)@ == old(
                    chunk_index,
                )@.insert(id, object_name@),
                Err(status) => outcome matches Err(e) && status.is(
                    Code::Internal,
                    "put_chunk failed: "@ + e.message@,
                ) && final(chunk_index)@ == old(chunk_index)@,
            },
    {
        match outcome {
            Ok((chunk_id, storage_node_address)) => {
                chunk_index.insert(chunk_id, object_name);
                Ok(PutChunkResponse { chunk_id, storage_node_address })
            },
            Err(e) => Err(
                Status::new(Code::Internal, join2("put_chunk failed: ", e.message.as_str())),
            ),
        }
    }

    /// The answer once a storage node was registered, or could not be.
    pub fn broadcast_put_storage_node_answer(outcome: Result<u64, StoreError>) -> (r: Result<
        u64,
        Status,
    >)
        ensures
            match r {
                Ok(id) => outcome matches Ok(given) && given == id,
                Err(status) => outcome matches Err(e) && status.is(
                    Code::Internal,
                    "put_storage_node failed: "@ + e.message@,
                ),
            },
    {
        match outcome {
            Ok(id) => Ok(id),
            Err(e) => Err(
                Status::new(
                    Code::Internal,
                    join2("put_storage_node failed: ", e.message.as_str()),
                ),
            ),
        }
    }

    /// The answer once a storage node was forgotten, or could not be.
    pub fn broadcast_delete_storage_node_answer(outcome: Result<(), StoreError>) -> (r: Result<
        (),
        Status,
    >)
        ensures
            match r {
                Ok(()) => outcome is Ok,
                Err(status) => outcome matches Err(e) && status.is(
                    Code::Internal,
                    "delete_storage_node failed: "@ + e.message@,
                ),
            },
    {
        match outcome {
            Ok(()) => Ok(()),
            Err(e) => Err(
                Status::new(
                    Code::Internal,
                    join2("delete_storage_node failed: ", e.message.as_str()),
                ),
            ),
        }
    }

    /// What is handed over for some ranges of hashes: the objects whose names
    /// hash into them, each followed by its chunks.
    pub fn transfer_partition(store: &MetadataStore, ranges: &[(u64, u64)]) -> (r: Vec<
        TransferEntry,
    >)
        ensures
            exists|items: Seq<(ObjectRecord, Seq<ChunkRecord>)>| #[trigger]
                is_partition(items, store@, ranges@) && transfer_views(r@) == transfer_of(items),
    {
        let objects: Vec<(MetaObject, Vec<MetaChunk>)> = store.objects_in_hash_ranges(ranges);
        let ghost items = partition_views(objects@);
        let mut r: Vec<TransferEntry> = Vec::new();
        let mut i: usize = 0;
        assert(transfer_views(r@) =~= transfer_of(items.take(0)));
        while i < objects.len()
            invariant
                i <= objects@.len(),
                items == partition_views(objects@),
                transfer_views(r@) == transfer_of(items.take(i as int)),
            decreases objects@.len() - i,
        {
            let ghost before = transfer_views(r@);
            let object: &MetaObject = &objects[i].0;
            let chunks: &Vec<MetaChunk> = &objects[i].1;
            assert(items[i as int] == (object@, chunk_views(chunks@)));
            let entry: TransferEntry = object_entry(object);
            r.push(entry);
            let ghost start = transfer_views(r@);
            assert(start =~= before.push(object_transfer(object@)));
            let ghost sent = chunk_views(chunks@).map_values(|c: ChunkRecord| chunk_transfer(c));
            let mut j: usize = 0;
            assert(start =~= start + sent.take(0));
            while j < chunks.len()
                invariant
                    j <= chunks@.len(),
                    sent == chunk_views(chunks@).map_values(|c: ChunkRecord| chunk_transfer(c)),
                    transfer_views(r@) == start + sent.take(j as int),
                decreases chunks@.len() - j,
            {
                let ghost was = transfer_views(r@);
                let entry: TransferEntry = chunk_entry(&chunks[j]);
                r.push(entry);
                assert(transfer_views(r@) =~= was.push(entry@));
                assert(sent[j as int] == chunk_transfer(chunk_views(chunks@)[j as int]));
                assert(chunk_views(chunks@)[j as int] == chunks@[j as int]@);
                assert(transfer_views(r@) =~= start + sent.take(j + 1));
                j = j + 1;
            }
            assert(sent.take(sent.len() as int) =~= sent);
            assert(items.take(i + 1).drop_last() =~= items.take(i as int));
            assert(items.take(i + 1).last() == items[i as int]);
            i = i + 1;
        }
        proof {
            assert(items.take(items.len() as int) =~= items);
            assert(items.map_values(|e: (ObjectRecord, Seq<ChunkRecord>)| e.0)
                =~= objects@.map_values(|e: (MetaObject, Vec<MetaChunk>)| e.0@));
            assert forall|k: int| 0 <= k < items.len() implies (#[trigger] items[k]).1
                == present_chunks(items[k].0.chunks, store@.chunks) by {
                assert(items[k] == (objects@[k].0@, chunk_views(objects@[k].1@)));
            }
            assert(is_partition(items, store@, ranges@));
        }
        r
    }

    /// Takes note of chunks that another server told of.
    pub fn broadcast_chunk_index(chunk_index: &mut ChunkIndex, entries: Vec<(u64, String)>)
        ensures
            final(chunk_index)@ == with_entries(old(chunk_index)@, entry_views(entries@)),
    {
        chunk_index.bulk_insert(entries);
    }
}

fn object_entry(object: &MetaObject) -> (r: TransferEntry)
    ensures
        r@ == object_transfer(object@),
{
    let chunk_ids: Vec<u64> = object.chunks.clone();
    assert(chunk_ids@ =~= object.chunks@);
    TransferEntry::Object { name: object.name.clone(), checksum: object.checksum, chunk_ids }
}

fn chunk_entry(chunk: &MetaChunk) -> (r: TransferEntry)
    ensures
        r@ == chunk_transfer(chunk@),
{
    let storage_node_ids: Vec<u64> = chunk.storage_nodes.clone();
    assert(storage_node_ids@ =~= chunk.storage_nodes@);
    TransferEntry::Chunk {
        id: chunk.id,
        object_name: chunk.object_name.clone(),
        checksum: chunk.checksum,
        storage_node_ids,
    }
}

} // verus!
