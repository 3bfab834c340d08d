//! What stands for the values that are handed around: every field stands for
//! itself, and lists stand for their entries in order.
use vstd::prelude::*;

use crate::chunk_index::entry_views;
use crate::chunking::parts;
use crate::cluster::{peer_views, PeerAddress};
use crate::cluster_service::{partition_views, transfer_views, Transfer, TransferEntry};
use crate::delete_object::copy_views;
use crate::encoding::{decoding_gave, decoding_view};
use crate::get_object::result_views;
use crate::http_reply::HttpFailure;
use crate::list_objects::{
    listed_chunks, listed_objects, ListObjectsResponseChunk, ListObjectsResponsePayload,
};
use crate::messages::{object_places, places_views, ChunkInfo, ObjectInfo};
use crate::metadata_store::{
    chunk_records, chunk_views, node_records, node_views, object_records, object_views, MetaChunk,
    MetaObject, MetaStorageNode,
};
use crate::migration::{optional_views, present};
use crate::node_config::StorageNodeConfig;
use crate::put_object::{stored_bytes, StoredChunk};
use crate::read_chunk::node_addresses;
use crate::metadata_store::NodeRecord;
use crate::replication::{wanting_views, UnderReplicatedChunk};
use crate::status::{Code, ErrorKind, Status, StoreError};
use crate::text::texts;

verus! {

/// Records of the metadata keep every field.
pub proof fn records_keep_every_field(
    node: MetaStorageNode,
    chunk: MetaChunk,
    object: MetaObject,
    wanting: UnderReplicatedChunk,
)
    ensures
        node@.id == node.id,
        node@.address == node.address@,
        chunk@.id == chunk.id,
        chunk@.object_name == chunk.object_name@,
        chunk@.checksum == chunk.checksum,
        chunk@.storage_nodes == chunk.storage_nodes@,
        chunk@.status == chunk.status,
        object@.name == object.name@,
        object@.checksum == object.checksum,
        object@.chunks == object.chunks@,
        object@.total_size == object.total_size,
        wanting@.id == wanting.chunk_id,
        wanting@.checksum == wanting.checksum,
        wanting@.nodes == wanting.current_storage_node_ids@,
{
}

/// Answers and failures keep every field.
pub proof fn answers_keep_every_field(
    chunk: ChunkInfo,
    object: ObjectInfo,
    failure: HttpFailure,
    config: StorageNodeConfig,
)
    ensures
        chunk@.id == chunk.id,
        chunk@.checksum == chunk.checksum,
        chunk@.nodes == node_views(chunk.storage_nodes@),
        object@.name == object.name@,
        object@.checksum == object.checksum,
        object@.chunks == places_views(object.chunks@),
        object@.total_size == object.total_size,
        failure@.status == failure.status,
        failure@.message == failure.message@,
        failure@.counted == failure.counted,
        config@.metadata_addresses == texts(config.metadata_addresses@),
        config@.port == config.port,
        config@.metrics_port == config.metrics_port,
        config@.chunk_store_path == config.chunk_store_path@,
        config@.allocated_slots == config.allocated_slots,
        config@.fsync_every_n_writes == config.fsync_every_n_writes,
        config@.fsync_on_delete == config.fsync_on_delete,
        config@.fast_recover == config.fast_recover,
{
}

/// What is handed over keeps every field.
pub proof fn entries_keep_every_field(entry: TransferEntry)
    ensures
        match entry {
            TransferEntry::Object { name, checksum, chunk_ids } => entry@ == (Transfer::Object {
                name: name@,
                checksum,
                chunk_ids: chunk_ids@,
            }),
            TransferEntry::Chunk { id, object_name, checksum, storage_node_ids } => entry@ == (
            Transfer::Chunk {
                id,
                object_name: object_name@,
                checksum,
                storage_node_ids: storage_node_ids@,
            }),
        },
{
}

/// Errors and statuses are told apart by their kind and by their message.
pub proof fn errors_are_told_apart(
    e: StoreError,
    kind: ErrorKind,
    status: Status,
    code: Code,
    message: Seq<char>,
)
    ensures
        e.is(kind, message) <==> e.kind == kind && e.message@ == message,
        status.is(code, message) <==> status.code == code && status.message@ == message,
{
}

/// A list of texts stands for the texts in order.
pub proof fn texts_stand_in_order(items: Seq<String>)
    ensures
        texts(items).len() == items.len(),
        forall|k: int| 0 <= k < items.len() ==> #[trigger] texts(items)[k] == items[k]@,
{
}

/// Lists of records stand for their entries in order.
pub proof fn record_lists_stand_in_order(
    nodes: Seq<MetaStorageNode>,
    chunks: Seq<MetaChunk>,
    objects: Seq<MetaObject>,
    wanting: Seq<UnderReplicatedChunk>,
)
    ensures
        node_views(nodes).len() == nodes.len(),
        forall|k: int| 0 <= k < nodes.len() ==> #[trigger] node_views(nodes)[k] == nodes[k]@,
        chunk_views(chunks).len() == chunks.len(),
        forall|k: int| 0 <= k < chunks.len() ==> #[trigger] chunk_views(chunks)[k] == chunks[k]@,
        object_views(objects).len() == objects.len(),
        forall|k: int|
            0 <= k < objects.len() ==> #[trigger] object_views(objects)[k] == objects[k]@,
        wanting_views(wanting).len() == wanting.len(),
        forall|k: int|
            0 <= k < wanting.len() ==> #[trigger] wanting_views(wanting)[k] == wanting[k]@,
{
}

/// Lists in answers stand for their entries in order.
pub proof fn answer_lists_stand_in_order(
    chunks: Seq<ChunkInfo>,
    objects: Seq<ObjectInfo>,
    listed: Seq<ListObjectsResponseChunk>,
    payloads: Seq<ListObjectsResponsePayload>,
    copies: Seq<(u64, String)>,
    data: Seq<Vec<u8>>,
)
    ensures
        places_views(chunks).len() == chunks.len(),
        forall|k: int| 0 <= k < chunks.len() ==> #[trigger] places_views(chunks)[k] == chunks[k]@,
        object_places(objects).len() == objects.len(),
        forall|k: int|
            0 <= k < objects.len() ==> #[trigger] object_places(objects)[k] == objects[k]@,
        listed_chunks(listed).len() == listed.len(),
        forall|k: int|
            0 <= k < listed.len() ==> (#[trigger] listed_chunks(listed)[k]).id == listed[k].id
                && listed_chunks(listed)[k].bytes == listed[k].bytes@ && listed_chunks(
                listed,
            )[k].node_address == listed[k].node_address@,
        listed_objects(payloads).len() == payloads.len(),
        forall|k: int|
            0 <= k < payloads.len() ==> (#[trigger] listed_objects(payloads)[k]).name
                == payloads[k].name@ && listed_objects(payloads)[k].chunks == listed_chunks(
                payloads[k].chunks@,
            ),
        copy_views(copies).len() == copies.len(),
        forall|k: int|
            0 <= k < copies.len() ==> (#[trigger] copy_views(copies)[k]).0 == copies[k].0
                && copy_views(copies)[k].1 == copies[k].1@,
        parts(data).len() == data.len(),
        forall|k: int| 0 <= k < data.len() ==> #[trigger] parts(data)[k] == data[k]@,
{
}

/// Lists between servers stand for their entries in order.
pub proof fn server_lists_stand_in_order(
    entries: Seq<TransferEntry>,
    optional: Seq<Option<TransferEntry>>,
    told: Seq<Transfer>,
    partition: Seq<(MetaObject, Vec<MetaChunk>)>,
    index: Seq<(u64, String)>,
    peers: Seq<PeerAddress>,
)
    ensures
        transfer_views(entries).len() == entries.len(),
        forall|k: int|
            0 <= k < entries.len() ==> #[trigger] transfer_views(entries)[k] == entries[k]@,
        optional_views(optional).len() == optional.len(),
        forall|k: int|
            0 <= k < optional.len() ==> match optional[k] {
                Some(entry) => #[trigger] optional_views(optional)[k] == Some(entry@),
                None => optional_views(optional)[k] is None,
            },
        present(told).len() == told.len(),
        forall|k: int| 0 <= k < told.len() ==> #[trigger] present(told)[k] == Some(told[k]),
        partition_views(partition).len() == partition.len(),
        forall|k: int|
            0 <= k < partition.len() ==> (#[trigger] partition_views(partition)[k]).0
                == partition[k].0@ && partition_views(partition)[k].1 == chunk_views(
                partition[k].1@,
            ),
        entry_views(index).len() == index.len(),
        forall|k: int|
            0 <= k < index.len() ==> (#[trigger] entry_views(index)[k]).0 == index[k].0
                && entry_views(index)[k].1 == index[k].1@,
        peer_views(peers).len() == peers.len(),
        forall|k: int|
            0 <= k < peers.len() ==> (#[trigger] peer_views(peers)[k]).0 == peers[k].node_id@
                && peer_views(peers)[k].1 == peers[k].address@,
{
}

/// Stored chunks, storage nodes and the results of reads stand in order.
pub proof fn results_stand_in_order(
    stored: Seq<StoredChunk>,
    nodes: Seq<NodeRecord>,
    results: Seq<Result<Vec<u8>, u64>>,
    decoded: Result<Vec<u8>, String>,
    data: Seq<u8>,
)
    ensures
        stored_bytes(stored).len() == stored.len(),
        forall|k: int|
            0 <= k < stored.len() ==> #[trigger] stored_bytes(stored)[k] == stored[k].bytes,
        node_addresses(nodes).len() == nodes.len(),
        forall|k: int|
            0 <= k < nodes.len() ==> #[trigger] node_addresses(nodes)[k] == nodes[k].address,
        result_views(results).len() == results.len(),
        forall|k: int|
            0 <= k < results.len() ==> match results[k] {
                Ok(bytes) => #[trigger] result_views(results)[k] == Ok::<Seq<u8>, u64>(bytes@),
                Err(id) => result_views(results)[k] == Err::<Seq<u8>, u64>(id),
            },
        match decoded {
            Ok(bytes) => decoding_view(decoded) == decoding_gave(bytes@),
            Err(message) => decoding_view(decoded) == Err::<Seq<u8>, Seq<char>>(message@),
        },
        decoding_gave(data) == Ok::<Seq<u8>, Seq<char>>(data),
{
}

/// Tables of records keep their keys, and every entry stands for itself.
pub proof fn tables_keep_their_entries(
    objects: Map<Seq<char>, MetaObject>,
    chunks: Map<u64, MetaChunk>,
    nodes: Map<u64, MetaStorageNode>,
)
    ensures
        object_records(objects).dom() == objects.dom(),
        forall|n: Seq<char>| #[trigger]
            objects.contains_key(n) ==> object_records(objects)[n] == objects[n]@,
        chunk_records(chunks).dom() == chunks.dom(),
        forall|id: u64| #[trigger]
            chunks.contains_key(id) ==> chunk_records(chunks)[id] == chunks[id]@,
        node_records(nodes).dom() == nodes.dom(),
        forall|id: u64| #[trigger]
            nodes.contains_key(id) ==> node_records(nodes)[id] == nodes[id]@,
{
    assert(object_records(objects).dom() =~= objects.dom());
    assert(chunk_records(chunks).dom() =~= chunks.dom());
    assert(node_records(nodes).dom() =~= nodes.dom());
}

} // verus!
