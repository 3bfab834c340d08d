//! What metadata servers tell of objects and chunks.
use vstd::prelude::*;

use crate::metadata_store::{node_views, MetaStorageNode, NodeRecord};

verus! {

/// A chunk and the storage nodes that hold it.
#[derive(Debug)]
pub struct ChunkInfo {
    pub id: u64,
    pub checksum: u32,
    pub storage_nodes: Vec<MetaStorageNode>,
}

/// What a [`ChunkInfo`] stands for.
pub struct ChunkPlaces {
    pub id: u64,
    pub checksum: u32,
    pub nodes: Seq<NodeRecord>,
}

impl View for ChunkInfo {
    type V = ChunkPlaces;

    open spec fn view(&self) -> ChunkPlaces {
        ChunkPlaces {
            id: self.id,
            checksum: self.checksum,
            nodes: node_views(self.storage_nodes@),
        }
    }
}

/// The views of a list of chunks.
pub open spec fn places_views(items: Seq<ChunkInfo>) -> Seq<ChunkPlaces> {
    items.map_values(|c: ChunkInfo| c@)
}

/// An object and the places of its chunks.
#[derive(Debug)]
pub struct ObjectInfo {
    pub name: String,
    pub checksum: u32,
    pub chunks: Vec<ChunkInfo>,
    pub total_size: u64,
}

/// What an [`ObjectInfo`] stands for.
pub struct ObjectPlaces {
    pub name: Seq<char>,
    pub checksum: u32,
    pub chunks: Seq<ChunkPlaces>,
    pub total_size: u64,
}

impl View for ObjectInfo {
    type V = ObjectPlaces;

    open spec fn view(&self) -> ObjectPlaces {
        ObjectPlaces {
            name: self.name@,
            checksum: self.checksum,
            chunks: places_views(self.chunks@),
            total_size: self.total_size,
        }
    }
}

/// The views of a list of objects.
pub open spec fn object_places(items: Seq<ObjectInfo>) -> Seq<ObjectPlaces> {
    items.map_values(|o: ObjectInfo| o@)
}

/// The answer to a question for an object.
#[derive(Debug)]
pub struct GetObjectResponse {
    pub checksum: u32,
    pub chunks: Vec<ChunkInfo>,
}

/// The answer to a question for a chunk.
#[derive(Debug)]
pub struct GetChunkResponse {
    pub object_name: String,
    pub checksum: u32,
    pub storage_nodes: Vec<MetaStorageNode>,
}

/// The answer when a chunk was stored.
#[derive(Debug)]
pub struct PutChunkResponse {
    pub chunk_id: u64,
    pub storage_node_address: String,
}

/// The answer when a place for a chunk was found.
#[derive(Debug)]
pub struct AllocateChunkResponse {
    pub chunk_id: u64,
    pub storage_node_address: String,
    pub storage_node_id: u64,
}

} // verus!
