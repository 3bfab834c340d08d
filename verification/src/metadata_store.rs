//! The metadata of objects and chunks on one server.
use std::collections::hash_map::Entry;
use std::collections::HashMap;

use vstd::prelude::*;

use crate::hash_ring::{in_ranges, key_position, HashRing};
use crate::name_map::NameMap;
use crate::random::{choose_one, unused_id};
use crate::status::{ErrorKind, StoreError};
use crate::tables::{
    entries_of, is_stable_order, lists_all, lists_keys, lists_where, stable_order,
};
use crate::text::{decimal, decimal_text, join2, join3, texts};

verus! {

broadcast use vstd::std_specs::hash::group_hash_axioms;

/// Whether `http::Uri` can parse the text.
pub uninterp spec fn uri_parses(text: Seq<char>) -> bool;

/// `http::Uri::from_str` accepts or refuses a text by the text alone. The
/// empty text is refused.
#[verifier::external_body]
fn is_uri(text: &str) -> (r: bool)
    ensures
        r == uri_parses(text@),
        text@.len() == 0 ==> !r,
{
    text.parse::<http::Uri>().is_ok()
}

/// A storage node that registered with the metadata server.
#[derive(Debug)]
pub struct MetaStorageNode {
    pub id: u64,
    pub address: String,
}

/// What a [`MetaStorageNode`] stands for.
pub struct NodeRecord {
    pub id: u64,
    pub address: Seq<char>,
}

impl View for MetaStorageNode {
    type V = NodeRecord;

    open spec fn view(&self) -> NodeRecord {
        NodeRecord { id: self.id, address: self.address@ }
    }
}

impl Clone for MetaStorageNode {
    fn clone(&self) -> (r: Self)
        ensures
            r@ == self@,
    {
        MetaStorageNode { id: self.id, address: self.address.clone() }
    }
}

impl MetaStorageNode {
    /// A storage node, if its address is a URI.
    pub fn new(id: u64, address: String) -> (r: Result<Self, StoreError>)
        ensures
            match r {
                Ok(node) => uri_parses(address@) && node@ == (NodeRecord { id, address: address@ }),
                Err(e) => !uri_parses(address@) && e.is(ErrorKind::InvalidInput, "invalid address"@),
            },
            address@.len() == 0 ==> r is Err,
    {
        let valid: bool = is_uri(address.as_str());
        Self::checked(id, address, valid)
    }

    /// A storage node, if its address was found to be valid.
    pub fn checked(id: u64, address: String, valid: bool) -> (r: Result<Self, StoreError>)
        ensures
            match r {
                Ok(node) => valid && node@ == (NodeRecord { id, address: address@ }),
                Err(e) => !valid && e.is(ErrorKind::InvalidInput, "invalid address"@),
            },
    {
        if valid {
            Ok(MetaStorageNode { id, address })
        } else {
            Err(StoreError::new(ErrorKind::InvalidInput, "invalid address".to_owned()))
        }
    }
}

/// Whether a chunk's data is known to be stored.
#[derive(Clone, Copy, Debug, PartialEq, Eq, Structural)]
pub enum ChunkStatus {
    Pending,
    Confirmed,
}

impl Default for ChunkStatus {
    fn default() -> (r: Self)
        ensures
            r == ChunkStatus::Confirmed,
    {
        ChunkStatus::Confirmed
    }
}

/// A chunk of an object and the storage nodes that hold it.
#[derive(Debug)]
pub struct MetaChunk {
    pub id: u64,
    pub object_name: String,
    pub checksum: u32,
    /// The ids of the storage nodes.
    pub storage_nodes: Vec<u64>,
    pub status: ChunkStatus,
}

/// What a [`MetaChunk`] stands for.
pub struct ChunkRecord {
    pub id: u64,
    pub object_name: Seq<char>,
    pub checksum: u32,
    pub storage_nodes: Seq<u64>,
    pub status: ChunkStatus,
}

impl View for MetaChunk {
    type V = ChunkRecord;

    open spec fn view(&self) -> ChunkRecord {
        ChunkRecord {
            id: self.id,
            object_name: self.object_name@,
            checksum: self.checksum,
            storage_nodes: self.storage_nodes@,
            status: self.status,
        }
    }
}

impl Clone for MetaChunk {
    fn clone(&self) -> (r: Self)
        ensures
            r@ == self@,
    {
        let r = MetaChunk {
            id: self.id,
            object_name: self.object_name.clone(),
            checksum: self.checksum,
            storage_nodes: self.storage_nodes.clone(),
            status: self.status,
        };
        assert(r.storage_nodes@ =~= self.storage_nodes@);
        r
    }
}

impl MetaChunk {
    /// A confirmed chunk that no storage node holds yet.
    pub fn new(id: u64, checksum: u32, object_name: String) -> (r: Self)
        ensures
            r@ == (ChunkRecord {
                id,
                object_name: object_name@,
                checksum,
                storage_nodes: Seq::<u64>::empty(),
                status: ChunkStatus::Confirmed,
            }),
    {
        MetaChunk {
            id,
            object_name,
            checksum,
            storage_nodes: Vec::new(),
            status: ChunkStatus::Confirmed,
        }
    }

    /// A placeholder for a chunk whose data is still to be written.
    pub fn new_pending(id: u64, object_name: String) -> (r: Self)
        ensures
            r@ == (ChunkRecord {
                id,
                object_name: object_name@,
                checksum: 0,
                storage_nodes: Seq::<u64>::empty(),
                status: ChunkStatus::Pending,
            }),
    {
        MetaChunk {
            id,
            object_name,
            checksum: 0,
            storage_nodes: Vec::new(),
            status: ChunkStatus::Pending,
        }
    }

    /// Adds a storage node that holds the chunk.
    pub fn add_storage_node(&mut self, storage_node_id: u64)
        ensures
            final(self)@ == (ChunkRecord {
                storage_nodes: old(self)@.storage_nodes.push(storage_node_id),
                ..old(self)@
            }),
    {
        self.storage_nodes.push(storage_node_id);
    }
}

/// An object and its chunks in order.
#[derive(Debug)]
pub struct MetaObject {
    pub name: String,
    pub checksum: u32,
    /// The ids of the chunks, in the order of the object's bytes.
    pub chunks: Vec<u64>,
    pub total_size: u64,
}

/// What a [`MetaObject`] stands for.
pub struct ObjectRecord {
    pub name: Seq<char>,
    pub checksum: u32,
    pub chunks: Seq<u64>,
    pub total_size: u64,
}

impl View for MetaObject {
    type V = ObjectRecord;

    open spec fn view(&self) -> ObjectRecord {
        ObjectRecord {
            name: self.name@,
            checksum: self.checksum,
            chunks: self.chunks@,
            total_size: self.total_size,
        }
    }
}

impl Clone for MetaObject {
    fn clone(&self) -> (r: Self)
        ensures
            r@ == self@,
    {
        let r = MetaObject {
            name: self.name.clone(),
            checksum: self.checksum,
            chunks: self.chunks.clone(),
            total_size: self.total_size,
        };
        assert(r.chunks@ =~= self.chunks@);
        r
    }
}

impl MetaObject {
    /// An object without chunks.
    pub fn new(name: String, checksum: u32) -> (r: Self)
        ensures
            r@ == (ObjectRecord {
                name: name@,
                checksum,
                chunks: Seq::<u64>::empty(),
                total_size: 0,
            }),
    {
        MetaObject { name, checksum, chunks: Vec::new(), total_size: 0 }
    }

    /// Adds a chunk at the end.
    pub fn add_chunk(&mut self, chunk_id: u64)
        ensures
            final(self)@ == (ObjectRecord {
                chunks: old(self)@.chunks.push(chunk_id),
                ..old(self)@
            }),
    {
        self.chunks.push(chunk_id);
    }
}

/// The version under which a store's state is written.
pub const PERSISTENT_STATE_VERSION: u32 = 1;

/// The most replicas that a chunk may have.
pub const MAX_REPLICAS: usize = 3;

/// The part of a store that outlives the process. Storage nodes are not in it:
/// they register again.
pub struct PersistentState {
    pub version: u32,
    pub objects: NameMap<MetaObject>,
    pub chunks: HashMap<u64, MetaChunk>,
}

/// What a [`MetadataStore`] stands for.
pub struct StoreState {
    pub path: Seq<char>,
    pub objects: Map<Seq<char>, ObjectRecord>,
    pub chunks: Map<u64, ChunkRecord>,
    pub storage_nodes: Map<u64, NodeRecord>,
}

pub open spec fn object_records(m: Map<Seq<char>, MetaObject>) -> Map<Seq<char>, ObjectRecord> {
    m.map_values(|o: MetaObject| o@)
}

pub open spec fn chunk_records(m: Map<u64, MetaChunk>) -> Map<u64, ChunkRecord> {
    m.map_values(|c: MetaChunk| c@)
}

pub open spec fn node_records(m: Map<u64, MetaStorageNode>) -> Map<u64, NodeRecord> {
    m.map_values(|n: MetaStorageNode| n@)
}

/// The metadata of one server: objects by name, chunks and storage nodes by
/// id.
pub struct MetadataStore {
    path: String,
    pub objects: NameMap<MetaObject>,
    pub chunks: HashMap<u64, MetaChunk>,
    pub storage_nodes: HashMap<u64, MetaStorageNode>,
}

impl View for MetadataStore {
    type V = StoreState;

    closed spec fn view(&self) -> StoreState {
        StoreState {
            path: self.path@,
            objects: object_records(self.objects@),
            chunks: chunk_records(self.chunks@),
            storage_nodes: node_records(self.storage_nodes@),
        }
    }
}

/// The file in which the server `node_id` keeps its metadata.
pub open spec fn metadata_path_text(data_dir: Seq<char>, node_id: Seq<char>) -> Seq<char> {
    data_dir + "/metadata-"@ + node_id + ".dat"@
}

/// The file in which the server `node_id` keeps its metadata.
pub fn metadata_path(data_dir: &str, node_id: &str) -> (r: String)
    ensures
        r@ == metadata_path_text(data_dir@, node_id@),
{
    let mut r: String = join3(data_dir, "/metadata-", node_id);
    r.append(".dat");
    r
}

/// The state of a store at `path` that starts from what was stored there.
pub open spec fn restored_state(path: Seq<char>, stored: Option<PersistentState>) -> StoreState {
    StoreState {
        path,
        objects: match stored {
            Some(state) => object_records(state.objects@),
            None => Map::<Seq<char>, ObjectRecord>::empty(),
        },
        chunks: match stored {
            Some(state) => chunk_records(state.chunks@),
            None => Map::<u64, ChunkRecord>::empty(),
        },
        storage_nodes: Map::<u64, NodeRecord>::empty(),
    }
}

/// `stored` holds all that is to be kept of `store`.
pub open spec fn is_snapshot(stored: PersistentState, store: StoreState) -> bool {
    &&& stored.version == PERSISTENT_STATE_VERSION
    &&& object_records(stored.objects@) == store.objects
    &&& chunk_records(stored.chunks@) == store.chunks
}

/// An object as [`MetadataStore::put_object`] creates it.
pub open spec fn fresh_object(name: Seq<char>, checksum: u32) -> ObjectRecord {
    ObjectRecord { name, checksum, chunks: Seq::<u64>::empty(), total_size: 0 }
}

/// A chunk whose data lies on one storage node.
pub open spec fn stored_chunk(id: u64, name: Seq<char>, checksum: u32, node: u64) -> ChunkRecord {
    ChunkRecord {
        id,
        object_name: name,
        checksum,
        storage_nodes: seq![node],
        status: ChunkStatus::Confirmed,
    }
}

/// The placeholder of a chunk that is to be written.
pub open spec fn pending_chunk(id: u64, name: Seq<char>) -> ChunkRecord {
    ChunkRecord {
        id,
        object_name: name,
        checksum: 0,
        storage_nodes: Seq::<u64>::empty(),
        status: ChunkStatus::Pending,
    }
}

impl StoreState {
    /// The state in which `id` is a chunk at the end of the object `name`, if
    /// there is such an object; the chunk is recorded either way.
    pub open spec fn with_chunk(self, id: u64, name: Seq<char>, chunk: ChunkRecord) -> StoreState {
        StoreState {
            chunks: self.chunks.insert(id, chunk),
            objects: if self.objects.contains_key(name) {
                self.objects.insert(
                    name,
                    ObjectRecord {
                        chunks: self.objects[name].chunks.push(id),
                        ..self.objects[name]
                    },
                )
            } else {
                self.objects
            },
            ..self
        }
    }

    /// The state without the object `name` and without its chunks.
    pub open spec fn without_object(self, name: Seq<char>) -> StoreState {
        StoreState {
            objects: self.objects.remove(name),
            chunks: self.chunks.remove_keys(self.objects[name].chunks.to_set()),
            ..self
        }
    }

    /// The state without the objects `names` (those that are there) and
    /// without their chunks.
    pub open spec fn without_objects(self, names: Seq<Seq<char>>) -> StoreState
        decreases names.len(),
    {
        if names.len() == 0 {
            self
        } else {
            let before = self.without_objects(names.drop_last());
            if before.objects.contains_key(names.last()) {
                before.without_object(names.last())
            } else {
                before
            }
        }
    }

    /// The state with `objects` put under their names, in order.
    pub open spec fn with_objects(self, objects: Seq<ObjectRecord>) -> StoreState
        decreases objects.len(),
    {
        if objects.len() == 0 {
            self
        } else {
            let before = self.with_objects(objects.drop_last());
            StoreState {
                objects: before.objects.insert(objects.last().name, objects.last()),
                ..before
            }
        }
    }

    /// The state with `chunks` put under their ids, in order.
    pub open spec fn with_chunks(self, chunks: Seq<ChunkRecord>) -> StoreState
        decreases chunks.len(),
    {
        if chunks.len() == 0 {
            self
        } else {
            let before = self.with_chunks(chunks.drop_last());
            StoreState { chunks: before.chunks.insert(chunks.last().id, chunks.last()), ..before }
        }
    }

    /// Every entry stands under its own name or id.
    pub open spec fn keyed(self) -> bool {
        &&& forall|name: Seq<char>| #[trigger]
            self.objects.contains_key(name) ==> self.objects[name].name == name
        &&& forall|id: u64| #[trigger] self.chunks.contains_key(id) ==> self.chunks[id].id == id
        &&& forall|id: u64| #[trigger]
            self.storage_nodes.contains_key(id) ==> self.storage_nodes[id].id == id
    }
}

/// Those of `ids` that are chunks of `chunks`, in order.
pub open spec fn present_chunks(ids: Seq<u64>, chunks: Map<u64, ChunkRecord>) -> Seq<ChunkRecord>
    decreases ids.len(),
{
    if ids.len() == 0 {
        Seq::<ChunkRecord>::empty()
    } else {
        let before = present_chunks(ids.drop_last(), chunks);
        if chunks.contains_key(ids.last()) {
            before.push(chunks[ids.last()])
        } else {
            before
        }
    }
}

/// `ids` without `id`.
pub open spec fn ids_without(ids: Seq<u64>, id: u64) -> Seq<u64> {
    ids.filter(|x: u64| x != id)
}

/// The views of a list of objects.
pub open spec fn object_views(items: Seq<MetaObject>) -> Seq<ObjectRecord> {
    items.map_values(|o: MetaObject| o@)
}

/// The views of a list of chunks.
pub open spec fn chunk_views(items: Seq<MetaChunk>) -> Seq<ChunkRecord> {
    items.map_values(|c: MetaChunk| c@)
}

/// The views of a list of storage nodes.
pub open spec fn node_views(items: Seq<MetaStorageNode>) -> Seq<NodeRecord> {
    items.map_values(|n: MetaStorageNode| n@)
}

/// Whether a chunk is stored on too few nodes.
pub open spec fn needs_replicas(chunk: ChunkRecord, max_replicas: u32) -> bool {
    chunk.status == ChunkStatus::Confirmed && chunk.storage_nodes.len() < max_replicas
}

/// Chunks with fewer replicas come first.
pub open spec fn fewest_replicas_first(chunks: Seq<ChunkRecord>) -> bool {
    forall|i: int, j: int|
        0 <= i < j < chunks.len() ==> (#[trigger] chunks[i]).storage_nodes.len() <= (
        #[trigger] chunks[j]).storage_nodes.len()
}

/// `ids` without `id`.
fn without_id(ids: &Vec<u64>, id: u64) -> (r: Vec<u64>)
    ensures
        r@ == ids_without(ids@, id),
{
    let mut r: Vec<u64> = Vec::new();
    let mut i: usize = 0;
    proof {
        reveal(Seq::filter);
    }
    assert(r@ =~= ids_without(ids@.take(0), id));
    while i < ids.len()
        invariant
            i <= ids@.len(),
            r@ == ids_without(ids@.take(i as int), id),
        decreases ids@.len() - i,
    {
        reveal(Seq::filter);
        assert(ids@.take(i + 1).drop_last() =~= ids@.take(i as int));
        if ids[i] != id {
            r.push(ids[i]);
        }
        i = i + 1;
    }
    assert(ids@.take(ids@.len() as int) =~= ids@);
    r
}

fn not_found(message: &str) -> (r: StoreError)
    ensures
        r.is(ErrorKind::NotFound, message@),
{
    StoreError::new(ErrorKind::NotFound, message.to_owned())
}

impl MetadataStore {
    /// A store at `path` with what was stored there, if anything was. It knows
    /// no storage nodes.
    pub fn new(path: &str, stored: Option<PersistentState>) -> (r: Self)
        ensures
            r@ == restored_state(path@, stored),
    {
        let ghost known = stored;
        let r: MetadataStore = match stored {
            Some(state) => MetadataStore {
                path: path.to_owned(),
                objects: state.objects,
                chunks: state.chunks,
                storage_nodes: HashMap::new(),
            },
            None => MetadataStore {
                path: path.to_owned(),
                objects: NameMap::new(),
                chunks: HashMap::new(),
                storage_nodes: HashMap::new(),
            },
        };
        proof {
            assert(r@.storage_nodes =~= Map::<u64, NodeRecord>::empty());
            if known is None {
                assert(r@.objects =~= Map::<Seq<char>, ObjectRecord>::empty());
                assert(r@.chunks =~= Map::<u64, ChunkRecord>::empty());
            }
        }
        r
    }

    /// The store of the server `node_id`, with what was stored in its file.
    pub fn new_with_node(
        data_dir: &str,
        node_id: &str,
        stored: Option<PersistentState>,
    ) -> (r: Self)
        ensures
            r@ == restored_state(metadata_path_text(data_dir@, node_id@), stored),
    {
        let path: String = metadata_path(data_dir, node_id);
        Self::new(path.as_str(), stored)
    }

    /// The file in which the store is kept.
    pub fn path(&self) -> (r: &str)
        ensures
            r@ == self@.path,
    {
        self.path.as_str()
    }

    /// The chunks by id.
    pub fn chunk_table(&self) -> (r: &HashMap<u64, MetaChunk>)
        ensures
            chunk_records(r@) == self@.chunks,
    {
        &self.chunks
    }

    /// The state to be written to the store's file.
    pub fn persistent_state(&self) -> (r: PersistentState)
        ensures
            is_snapshot(r, self@),
    {
        let mut objects: NameMap<MetaObject> = NameMap::new();
        let len: usize = self.objects.len();
        let ghost order = self.objects.order();
        let mut i: usize = 0;
        while i < len
            invariant
                i <= len,
                len == order.len(),
                order == self.objects.order(),
                forall|k: int|
                    0 <= k < order.len() ==> self.objects@.contains_key(#[trigger] order[k]),
                forall|name: Seq<char>| #[trigger]
                    objects@.contains_key(name) <==> order.take(i as int).contains(name),
                forall|name: Seq<char>| #[trigger]
                    objects@.contains_key(name) ==> objects@[name]@ == self.objects@[name]@,
            decreases len - i,
        {
            let ghost upto = order.take(i as int);
            let ghost was = objects@;
            let name: String = self.objects.name_at(i).clone();
            objects.insert(name, self.objects.value_at(i).clone());
            proof {
                let now = order.take(i + 1);
                assert(now =~= upto.push(order[i as int]));
                assert forall|n: Seq<char>| #[trigger] objects@.contains_key(n) <==> now.contains(n) by {
                    if upto.contains(n) {
                        let k = choose|k: int| 0 <= k < upto.len() && upto[k] == n;
                        assert(now[k] == n);
                    }
                    if n == order[i as int] {
                        assert(now[i as int] == n);
                    }
                    assert(was.contains_key(n) <==> upto.contains(n));
                }
                assert forall|n: Seq<char>| #[trigger] objects@.contains_key(n) implies objects@[n]@
                    == self.objects@[n]@ by {
                    if n != order[i as int] {
                        assert(was.contains_key(n));
                    }
                }
            }
            i = i + 1;
        }
        let mut chunks: HashMap<u64, MetaChunk> = HashMap::new();
        let entries: Vec<(u64, &MetaChunk)> = entries_of(&self.chunks);
        let ghost ids = entries@.map_values(|e: (u64, &MetaChunk)| e.0);
        let mut j: usize = 0;
        while j < entries.len()
            invariant
                j <= entries@.len(),
                ids == entries@.map_values(|e: (u64, &MetaChunk)| e.0),
                forall|k: int|
                    0 <= k < entries@.len() ==> self.chunks@.contains_key((#[trigger] entries@[k]).0)
                        && self.chunks@[entries@[k].0] == *entries@[k].1,
                forall|id: u64| #[trigger]
                    chunks@.contains_key(id) <==> ids.take(j as int).contains(id),
                forall|id: u64| #[trigger]
                    chunks@.contains_key(id) ==> chunks@[id]@ == self.chunks@[id]@,
            decreases entries@.len() - j,
        {
            let ghost upto = ids.take(j as int);
            let ghost was = chunks@;
            chunks.insert(entries[j].0, entries[j].1.clone());
            proof {
                let now = ids.take(j + 1);
                assert(now =~= upto.push(ids[j as int]));
                assert forall|id: u64| #[trigger] chunks@.contains_key(id) <==> now.contains(id) by {
                    if upto.contains(id) {
                        let k = choose|k: int| 0 <= k < upto.len() && upto[k] == id;
                        assert(now[k] == id);
                    }
                    if id == ids[j as int] {
                        assert(now[j as int] == id);
                    }
                    assert(was.contains_key(id) <==> upto.contains(id));
                }
                assert forall|id: u64| #[trigger] chunks@.contains_key(id) implies chunks@[id]@
                    == self.chunks@[id]@ by {
                    if id != ids[j as int] {
                        assert(was.contains_key(id));
                    }
                }
            }
            j = j + 1;
        }
        proof {
            assert(order.take(order.len() as int) =~= order);
            assert(ids.take(ids.len() as int) =~= ids);
            assert forall|n: Seq<char>| objects@.contains_key(n) <==> self.objects@.contains_key(n) by {
                assert(order.to_set().contains(n) <==> self.objects@.dom().contains(n));
                assert(order.contains(n) <==> order.to_set().contains(n));
            }
            assert(object_records(objects@) =~= self@.objects);
            assert forall|id: u64| chunks@.contains_key(id) <==> self.chunks@.contains_key(id) by {
                if ids.contains(id) {
                    let k = choose|k: int| 0 <= k < ids.len() && ids[k] == id;
                    assert(self.chunks@.contains_key(entries@[k].0));
                }
            }
            assert(chunk_records(chunks@) =~= self@.chunks);
        }
        PersistentState { version: PERSISTENT_STATE_VERSION, objects, chunks }
    }

    /// Registers a storage node under an unused id.
    pub fn construct_storage_node(&mut self, address: String) -> (r: Result<u64, StoreError>)
        ensures
            match r {
                Ok(id) => uri_parses(address@) && !old(self)@.storage_nodes.contains_key(id)
                    && final(self)@ == (StoreState {
                    storage_nodes: old(self)@.storage_nodes.insert(
                        id,
                        NodeRecord { id, address: address@ },
                    ),
                    ..old(self)@
                }),
                Err(e) => !uri_parses(address@) && e.is(
                    ErrorKind::InvalidInput,
                    "invalid address"@,
                ) && final(self)@ == old(self)@,
            },
            address@.len() == 0 ==> r is Err,
    {
        let id: u64 = unused_id(&self.storage_nodes);
        self.register_storage_node(id, address)
    }

    /// Registers a storage node under `id`.
    pub fn register_storage_node(&mut self, id: u64, address: String) -> (r: Result<
        u64,
        StoreError,
    >)
        ensures
            match r {
                Ok(given) => given == id && uri_parses(address@) && final(self)@ == (StoreState {
                    storage_nodes: old(self)@.storage_nodes.insert(
                        id,
                        NodeRecord { id, address: address@ },
                    ),
                    ..old(self)@
                }),
                Err(e) => !uri_parses(address@) && e.is(
                    ErrorKind::InvalidInput,
                    "invalid address"@,
                ) && final(self)@ == old(self)@,
            },
            address@.len() == 0 ==> r is Err,
    {
        match MetaStorageNode::new(id, address) {
            Ok(node) => {
                self.insert_storage_node(node);
                Ok(id)
            },
            Err(e) => Err(e),
        }
    }

    /// Puts a storage node under its id.
    pub fn insert_storage_node(&mut self, node: MetaStorageNode)
        ensures
            final(self)@ == (StoreState {
                storage_nodes: old(self)@.storage_nodes.insert(node@.id, node@),
                ..old(self)@
            }),
    {
        let ghost before = self@;
        let ghost record = node@;
        self.storage_nodes.insert(node.id, node);
        assert(self@.storage_nodes =~= before.storage_nodes.insert(record.id, record));
    }

    /// Some registered storage node.
    pub fn choose_storage_node(&self) -> (r: Option<&MetaStorageNode>)
        ensures
            match r {
                Some(node) => self@.storage_nodes.values().contains(node@),
                None => self@.storage_nodes.len() == 0,
            },
            self@.storage_nodes.dom().finite(),
    {
        let entries: Vec<(u64, &MetaStorageNode)> = entries_of(&self.storage_nodes);
        assert(self@.storage_nodes.dom() =~= self.storage_nodes@.dom());
        match choose_one(entries.as_slice()) {
            Some(entry) => {
                proof {
                    let i = choose|i: int| 0 <= i < entries@.len() && entries@[i] == *entry;
                    assert(self.storage_nodes@.contains_key(entries@[i].0));
                    assert(self@.storage_nodes[entries@[i].0] == entry.1@);
                    assert(self@.storage_nodes.contains_key(entries@[i].0));
                }
                Some(entry.1)
            },
            None => None,
        }
    }

    /// Creates an object without chunks.
    pub fn put_object(&mut self, checksum: u32, name: String) -> (r: Result<(), StoreError>)
        ensures
            match r {
                Ok(()) => !old(self)@.objects.contains_key(name@) && final(self)@ == (StoreState {
                    objects: old(self)@.objects.insert(name@, fresh_object(name@, checksum)),
                    ..old(self)@
                }),
                Err(e) => old(self)@.objects.contains_key(name@) && e.is(
                    ErrorKind::AlreadyExists,
                    "object name "@ + name@ + " already exists"@,
                ) && final(self)@ == old(self)@,
            },
    {
        let ghost before = self@;
        if self.objects.contains_key(name.as_str()) {
            return Err(
                StoreError::new(
                    ErrorKind::AlreadyExists,
                    join3("object name ", name.as_str(), " already exists"),
                ),
            );
        }
        let object: MetaObject = MetaObject::new(name.clone(), checksum);
        let ghost record = object@;
        self.objects.insert(name, object);
        assert(self@.objects =~= before.objects.insert(name@, record));
        Ok(())
    }

    /// The object `object_name`.
    pub fn get_object(&self, object_name: String) -> (r: Result<&MetaObject, StoreError>)
        ensures
            match r {
                Ok(object) => self@.objects.contains_key(object_name@) && object@
                    == self@.objects[object_name@],
                Err(e) => !self@.objects.contains_key(object_name@) && e.is(
                    ErrorKind::NotFound,
                    "object not found"@,
                ),
            },
    {
        match self.objects.get(object_name.as_str()) {
            Some(object) => Ok(object),
            None => Err(not_found("object not found")),
        }
    }

    /// The object `object_name`, to be changed in place.
    pub fn get_object_mut(&mut self, object_name: String) -> (r: Result<
        &mut MetaObject,
        StoreError,
    >)
        ensures
            match r {
                Ok(object) => old(self)@.objects.contains_key(object_name@) && object@ == old(
                    self,
                )@.objects[object_name@] && final(self)@ == (StoreState {
                    objects: old(self)@.objects.insert(object_name@, final(object)@),
                    ..old(self)@
                }),
                Err(e) => !old(self)@.objects.contains_key(object_name@) && e.is(
                    ErrorKind::NotFound,
                    "object not found"@,
                ) && final(self)@ == old(self)@,
            },
    {
        if !self.objects.contains_key(object_name.as_str()) {
            return Err(not_found("object not found"));
        }
        proof {
            map_values_insert_objects(self.objects@);
        }
        match self.objects.get_mut(object_name.as_str()) {
            Some(object) => Ok(object),
            None => Err(not_found("object not found")),
        }
    }

    /// Removes an object and its chunks. A chunk that is already gone is no
    /// matter.
    pub fn delete_object(&mut self, object_name: String) -> (r: Result<(), StoreError>)
        ensures
            match r {
                Ok(()) => old(self)@.objects.contains_key(object_name@) && final(self)@ == old(
                    self,
                )@.without_object(object_name@),
                Err(e) => !old(self)@.objects.contains_key(object_name@) && e.is(
                    ErrorKind::NotFound,
                    "object not found"@,
                ) && final(self)@ == old(self)@,
            },
    {
        if self.remove_object(object_name.as_str()) {
            Ok(())
        } else {
            Err(not_found("object not found"))
        }
    }

    /// Removes the object `name` and its chunks; says whether it was there.
    fn remove_object(&mut self, name: &str) -> (r: bool)
        ensures
            r == old(self)@.objects.contains_key(name@),
            final(self)@ == if r {
                old(self)@.without_object(name@)
            } else {
                old(self)@
            },
    {
        let ghost before = self@;
        let object: MetaObject = match self.objects.remove(name) {
            Some(object) => object,
            None => {
                assert(self@.objects =~= before.objects);
                return false;
            },
        };
        assert(self@.objects =~= before.objects.remove(name@));
        let ghost ids = object.chunks@;
        let mut i: usize = 0;
        assert(self@.chunks =~= before.chunks.remove_keys(ids.take(0).to_set()));
        while i < object.chunks.len()
            invariant
                i <= ids.len(),
                ids == object.chunks@,
                self@.chunks == before.chunks.remove_keys(ids.take(i as int).to_set()),
                self@.objects == before.objects.remove(name@),
                self@.storage_nodes == before.storage_nodes,
                self@.path == before.path,
            decreases ids.len() - i,
        {
            let ghost was = self@.chunks;
            self.chunks.remove(&object.chunks[i]);
            proof {
                let upto = ids.take(i as int);
                let now = ids.take(i + 1);
                assert(now =~= upto.push(ids[i as int]));
                assert(self@.chunks =~= was.remove(ids[i as int]));
                assert forall|id: u64| now.to_set().contains(id) <==> upto.to_set().contains(id)
                    || id == ids[i as int] by {
                    if upto.contains(id) {
                        let k = choose|k: int| 0 <= k < upto.len() && upto[k] == id;
                        assert(now[k] == id);
                    }
                    assert(now[i as int] == ids[i as int]);
                }
                assert(self@.chunks =~= before.chunks.remove_keys(now.to_set()));
            }
            i = i + 1;
        }
        assert(ids.take(ids.len() as int) =~= ids);
        true
    }

    /// Adds a chunk that lies on some storage node to an object.
    ///
    /// Where there is no such object the chunk is recorded all the same.
    pub fn put_chunk(&mut self, object_name: String, checksum: u32) -> (r: Result<
        (u64, String),
        StoreError,
    >)
        ensures
            match r {
                Ok((id, address)) => old(self)@.objects.contains_key(object_name@) && !old(
                    self,
                )@.chunks.contains_key(id) && exists|node: NodeRecord| #[trigger]
                    old(self)@.storage_nodes.values().contains(node) && address@ == node.address
                        && final(self)@ == old(self)@.with_chunk(
                        id,
                        object_name@,
                        stored_chunk(id, object_name@, checksum, node.id),
                    ),
                Err(e) => {
                    ||| old(self)@.storage_nodes.len() == 0 && e.is(
                        ErrorKind::HostUnreachable,
                        "no available storage node"@,
                    ) && final(self)@ == old(self)@
                    ||| !old(self)@.objects.contains_key(object_name@) && e.is(
                        ErrorKind::NotFound,
                        "object not found"@,
                    ) && exists|id: u64, node: NodeRecord|
                        !old(self)@.chunks.contains_key(id)
                            && #[trigger] old(self)@.storage_nodes.values().contains(node)
                            && final(self)@ == #[trigger] old(self)@.with_chunk(
                            id,
                            object_name@,
                            stored_chunk(id, object_name@, checksum, node.id),
                        )
                },
            },
            old(self)@.storage_nodes.len() == 0 ==> r is Err,
    {
        let chunk_id: u64 = unused_id(&self.chunks);
        let node: MetaStorageNode = match self.choose_storage_node() {
            Some(node) => node.clone(),
            None => {
                return Err(
                    StoreError::new(
                        ErrorKind::HostUnreachable,
                        "no available storage node".to_owned(),
                    ),
                );
            },
        };
        proof {
            assert(!old(self)@.chunks.contains_key(chunk_id));
            assert(old(self)@.storage_nodes.values().contains(node@));
            let key = choose|key: u64|
                old(self)@.storage_nodes.contains_key(key) && old(self)@.storage_nodes[key] == node@;
            assert(old(self)@.storage_nodes.dom().contains(key));
        }
        let ghost record = node@;
        let ghost chunk = stored_chunk(chunk_id, object_name@, checksum, record.id);
        let put: Result<(), StoreError> = self.put_chunk_on(
            chunk_id,
            node.id,
            object_name,
            checksum,
        );
        assert(self@ == old(self)@.with_chunk(chunk_id, object_name@, chunk));
        assert(old(self)@.storage_nodes.values().contains(record));
        match put {
            Ok(()) => Ok((chunk_id, node.address)),
            Err(e) => Err(e),
        }
    }

    /// Adds the chunk `chunk_id`, which lies on `storage_node_id`, to an
    /// object.
    ///
    /// Where there is no such object the chunk is recorded all the same.
    pub fn put_chunk_on(
        &mut self,
        chunk_id: u64,
        storage_node_id: u64,
        object_name: String,
        checksum: u32,
    ) -> (r: Result<(), StoreError>)
        ensures
            final(self)@ == old(self)@.with_chunk(
                chunk_id,
                object_name@,
                stored_chunk(chunk_id, object_name@, checksum, storage_node_id),
            ),
            match r {
                Ok(()) => old(self)@.objects.contains_key(object_name@),
                Err(e) => !old(self)@.objects.contains_key(object_name@) && e.is(
                    ErrorKind::NotFound,
                    "object not found"@,
                ),
            },
    {
        let ghost before = self@;
        let mut chunk: MetaChunk = MetaChunk::new(chunk_id, checksum, object_name.clone());
        chunk.add_storage_node(storage_node_id);
        let ghost record = chunk@;
        assert(record.storage_nodes =~= seq![storage_node_id]);
        self.chunks.insert(chunk_id, chunk);
        assert(self@.chunks =~= before.chunks.insert(chunk_id, record));
        match self.get_object_mut(object_name) {
            Ok(object) => {
                object.add_chunk(chunk_id);
                Ok(())
            },
            Err(e) => Err(e),
        }
    }

    /// Reserves a chunk id with a placeholder and names a storage node for the
    /// data. The chunk counts once [`MetadataStore::confirm_chunk`] is called.
    pub fn allocate_chunk(&mut self, object_name: &str) -> (r: Result<
        (u64, u64, String),
        StoreError,
    >)
        ensures
            match r {
                Ok((id, node_id, address)) => !old(self)@.chunks.contains_key(id) && old(
                    self,
                )@.storage_nodes.values().contains(NodeRecord { id: node_id, address: address@ })
                    && final(self)@ == (StoreState {
                    chunks: old(self)@.chunks.insert(id, pending_chunk(id, object_name@)),
                    ..old(self)@
                }),
                Err(e) => old(self)@.storage_nodes.len() == 0 && e.is(
                    ErrorKind::HostUnreachable,
                    "no available storage node"@,
                ) && final(self)@ == old(self)@,
            },
            old(self)@.storage_nodes.len() == 0 ==> r is Err,
    {
        let chunk_id: u64 = unused_id(&self.chunks);
        let node: MetaStorageNode = match self.choose_storage_node() {
            Some(node) => node.clone(),
            None => {
                return Err(
                    StoreError::new(
                        ErrorKind::HostUnreachable,
                        "no available storage node".to_owned(),
                    ),
                );
            },
        };
        proof {
            assert(!old(self)@.chunks.contains_key(chunk_id));
            let key = choose|key: u64|
                old(self)@.storage_nodes.contains_key(key) && old(self)@.storage_nodes[key] == node@;
            assert(old(self)@.storage_nodes.dom().contains(key));
        }
        self.reserve_chunk(chunk_id, object_name);
        Ok((chunk_id, node.id, node.address))
    }

    /// Puts a placeholder under `chunk_id`.
    pub fn reserve_chunk(&mut self, chunk_id: u64, object_name: &str)
        ensures
            final(self)@ == (StoreState {
                chunks: old(self)@.chunks.insert(chunk_id, pending_chunk(chunk_id, object_name@)),
                ..old(self)@
            }),
    {
        let ghost before = self@;
        let chunk: MetaChunk = MetaChunk::new_pending(chunk_id, object_name.to_owned());
        let ghost record = chunk@;
        self.chunks.insert(chunk_id, chunk);
        assert(self@.chunks =~= before.chunks.insert(chunk_id, record));
    }

    /// Confirms that a chunk's data is on a storage node, and adds the chunk to
    /// its object. A chunk without a placeholder is accepted too.
    pub fn confirm_chunk(
        &mut self,
        chunk_id: u64,
        object_name: String,
        checksum: u32,
        storage_node_id: u64,
    ) -> (r: Result<(), StoreError>)
        ensures
            confirm_outcome(
                old(self)@,
                chunk_id,
                object_name@,
                storage_node_id,
                r,
            ),
            final(self)@ == if r is Ok {
                old(self)@.with_chunk(
                    chunk_id,
                    object_name@,
                    stored_chunk(chunk_id, object_name@, checksum, storage_node_id),
                )
            } else {
                old(self)@
            },
    {
        if !self.storage_nodes.contains_key(&storage_node_id) {
            return Err(
                StoreError::new(
                    ErrorKind::NotFound,
                    join3("storage node ", decimal(storage_node_id).as_str(), " not found"),
                ),
            );
        }
        match self.chunks.get(&chunk_id) {
            Some(existing) => {
                if existing.status == ChunkStatus::Confirmed {
                    return Err(
                        StoreError::new(
                            ErrorKind::AlreadyExists,
                            join3("chunk ", decimal(chunk_id).as_str(), " already confirmed"),
                        ),
                    );
                }
            },
            None => {},
        }
        if !self.objects.contains_key(object_name.as_str()) {
            return Err(not_found("object not found"));
        }
        self.put_chunk_on(chunk_id, storage_node_id, object_name, checksum)
    }

    /// The chunk `chunk_id` and the name of its object.
    pub fn get_chunk(&self, chunk_id: u64) -> (r: Result<(String, &MetaChunk), StoreError>)
        ensures
            match r {
                Ok((name, chunk)) => self@.chunks.contains_key(chunk_id) && chunk@
                    == self@.chunks[chunk_id] && name@ == chunk@.object_name,
                Err(e) => !self@.chunks.contains_key(chunk_id) && e.is(
                    ErrorKind::NotFound,
                    "chunk not found"@,
                ),
            },
    {
        match self.chunks.get(&chunk_id) {
            Some(chunk) => Ok((chunk.object_name.clone(), chunk)),
            None => Err(not_found("chunk not found")),
        }
    }

    /// The chunk `chunk_id`, to be changed in place.
    pub fn get_chunk_mut(&mut self, chunk_id: u64) -> (r: Result<&mut MetaChunk, StoreError>)
        ensures
            match r {
                Ok(chunk) => old(self)@.chunks.contains_key(chunk_id) && chunk@ == old(
                    self,
                )@.chunks[chunk_id] && final(self)@ == (StoreState {
                    chunks: old(self)@.chunks.insert(chunk_id, final(chunk)@),
                    ..old(self)@
                }),
                Err(e) => !old(self)@.chunks.contains_key(chunk_id) && e.is(
                    ErrorKind::NotFound,
                    "chunk not found"@,
                ) && final(self)@ == old(self)@,
            },
    {
        if !self.chunks.contains_key(&chunk_id) {
            return Err(not_found("chunk not found"));
        }
        proof {
            map_values_insert_chunks(self.chunks@);
        }
        match self.chunks.entry(chunk_id) {
            Entry::Occupied(entry) => Ok(entry.into_mut()),
            Entry::Vacant(_) => Err(not_found("chunk not found")),
        }
    }

    /// Removes a chunk, and its id from its object. Where the object is gone the
    /// chunk is removed all the same.
    pub fn delete_chunk(&mut self, chunk_id: u64) -> (r: Result<(), StoreError>)
        ensures
            delete_chunk_outcome(old(self)@, chunk_id, final(self)@, r),
    {
        let ghost before = self@;
        let chunk: MetaChunk = match self.chunks.remove(&chunk_id) {
            Some(chunk) => chunk,
            None => {
                assert(self@.chunks =~= before.chunks);
                return Err(not_found("could not find mapped object"));
            },
        };
        assert(self@.chunks =~= before.chunks.remove(chunk_id));
        match self.get_object_mut(chunk.object_name) {
            Ok(object) => {
                let kept: Vec<u64> = without_id(&object.chunks, chunk_id);
                object.chunks = kept;
                Ok(())
            },
            Err(e) => Err(e),
        }
    }

    /// All objects.
    pub fn list_objects(&self) -> (r: Vec<MetaObject>)
        ensures
            lists_all(object_views(r@), self@.objects),
    {
        let len: usize = self.objects.len();
        let ghost order = self.objects.order();
        let mut r: Vec<MetaObject> = Vec::new();
        let mut i: usize = 0;
        while i < len
            invariant
                i <= len,
                len == order.len(),
                order == self.objects.order(),
                r@.len() == i,
                forall|k: int|
                    0 <= k < order.len() ==> self.objects@.contains_key(#[trigger] order[k]),
                forall|k: int| 0 <= k < i ==> (#[trigger] r@[k])@ == self.objects@[order[k]]@,
            decreases len - i,
        {
            r.push(self.objects.value_at(i).clone());
            i = i + 1;
        }
        proof {
            let views = object_views(r@);
            assert forall|k: int| 0 <= k < order.len() implies self@.objects.contains_key(
                #[trigger] order[k],
            ) && views[k] == self@.objects[order[k]] by {
                assert(views[k] == r@[k]@);
            }
            assert forall|n: Seq<char>| #[trigger] self@.objects.contains_key(n) implies order.contains(
                n,
            ) by {
                assert(order.to_set().contains(n));
            }
            assert(lists_keys(views, self@.objects, |v: ObjectRecord| true, order));
        }
        r
    }

    /// The address of a storage node.
    pub fn get_storage_node(&self, storage_node_id: u64) -> (r: Result<String, StoreError>)
        ensures
            match r {
                Ok(address) => self@.storage_nodes.contains_key(storage_node_id) && address@
                    == self@.storage_nodes[storage_node_id].address,
                Err(e) => !self@.storage_nodes.contains_key(storage_node_id) && e.is(
                    ErrorKind::NotFound,
                    "could not find storage_node_id "@ + decimal_text(storage_node_id as nat),
                ),
            },
    {
        match self.storage_nodes.get(&storage_node_id) {
            Some(node) => Ok(node.address.clone()),
            None => Err(
                StoreError::new(
                    ErrorKind::NotFound,
                    join2("could not find storage_node_id ", decimal(storage_node_id).as_str()),
                ),
            ),
        }
    }

    /// Sets checksum and size of an object, once all of it has been seen.
    pub fn update_object_checksum(
        &mut self,
        object_name: &str,
        checksum: u32,
        total_size: u64,
    ) -> (r: Result<(), StoreError>)
        ensures
            match r {
                Ok(()) => old(self)@.objects.contains_key(object_name@) && final(self)@ == (
                StoreState {
                    objects: old(self)@.objects.insert(
                        object_name@,
                        ObjectRecord { checksum, total_size, ..old(self)@.objects[object_name@] },
                    ),
                    ..old(self)@
                }),
                Err(e) => !old(self)@.objects.contains_key(object_name@) && e.is(
                    ErrorKind::NotFound,
                    "object not found"@,
                ) && final(self)@ == old(self)@,
            },
    {
        match self.get_object_mut(object_name.to_owned()) {
            Ok(object) => {
                object.checksum = checksum;
                object.total_size = total_size;
                Ok(())
            },
            Err(e) => Err(e),
        }
    }

    /// All storage nodes.
    pub fn list_storage_nodes(&self) -> (r: Vec<MetaStorageNode>)
        ensures
            lists_all(node_views(r@), self@.storage_nodes),
    {
        let entries: Vec<(u64, &MetaStorageNode)> = entries_of(&self.storage_nodes);
        let ghost ids = entries@.map_values(|e: (u64, &MetaStorageNode)| e.0);
        let mut r: Vec<MetaStorageNode> = Vec::new();
        let mut i: usize = 0;
        while i < entries.len()
            invariant
                i <= entries@.len(),
                r@.len() == i,
                forall|k: int| 0 <= k < i ==> (#[trigger] r@[k])@ == (*entries@[k].1)@,
            decreases entries@.len() - i,
        {
            r.push(entries[i].1.clone());
            i = i + 1;
        }
        proof {
            let views = node_views(r@);
            assert forall|k: int| 0 <= k < ids.len() implies self@.storage_nodes.contains_key(
                #[trigger] ids[k],
            ) && views[k] == self@.storage_nodes[ids[k]] by {
                assert(self.storage_nodes@.contains_key(entries@[k].0));
                assert(views[k] == r@[k]@);
            }
            assert forall|id: u64| #[trigger] self@.storage_nodes.contains_key(id) implies ids.contains(
                id,
            ) by {
                assert(self.storage_nodes@.contains_key(id));
            }
            assert(lists_keys(views, self@.storage_nodes, |v: NodeRecord| true, ids));
        }
        r
    }

    /// The number of storage nodes.
    pub fn storage_node_count(&self) -> (r: usize)
        ensures
            r == self@.storage_nodes.len(),
    {
        assert(self@.storage_nodes.dom() =~= self.storage_nodes@.dom());
        self.storage_nodes.len()
    }

    /// Forgets a storage node.
    pub fn delete_storage_node(&mut self, storage_node_id: u64) -> (r: Result<(), StoreError>)
        ensures
            match r {
                Ok(()) => old(self)@.storage_nodes.contains_key(storage_node_id),
                Err(e) => !old(self)@.storage_nodes.contains_key(storage_node_id) && e.is(
                    ErrorKind::NotFound,
                    "could not find storage node "@ + decimal_text(storage_node_id as nat),
                ),
            },
            final(self)@ == (StoreState {
                storage_nodes: old(self)@.storage_nodes.remove(storage_node_id),
                ..old(self)@
            }),
    {
        let ghost before = self@;
        let removed: Option<MetaStorageNode> = self.storage_nodes.remove(&storage_node_id);
        assert(self@.storage_nodes =~= before.storage_nodes.remove(storage_node_id));
        match removed {
            Some(_) => Ok(()),
            None => Err(
                StoreError::new(
                    ErrorKind::NotFound,
                    join2("could not find storage node ", decimal(storage_node_id).as_str()),
                ),
            ),
        }
    }

    /// The confirmed chunks with fewer than `max_replicas` storage nodes, those
    /// with the fewest first.
    pub fn list_under_replicated_chunks(&self, max_replicas: u32) -> (r: Vec<&MetaChunk>)
        ensures
            lists_where(
                r@.map_values(|c: &MetaChunk| c@),
                self@.chunks,
                |c: ChunkRecord| needs_replicas(c, max_replicas),
            ),
            fewest_replicas_first(r@.map_values(|c: &MetaChunk| c@)),
    {
        let entries: Vec<(u64, &MetaChunk)> = entries_of(&self.chunks);
        let ghost ids = entries@.map_values(|e: (u64, &MetaChunk)| e.0);
        let ghost keep = |c: ChunkRecord| needs_replicas(c, max_replicas);
        let mut found: Vec<&MetaChunk> = Vec::new();
        let mut counts: Vec<usize> = Vec::new();
        let ghost mut keys: Seq<u64> = Seq::empty();
        let mut i: usize = 0;
        while i < entries.len()
            invariant
                i <= entries@.len(),
                ids == entries@.map_values(|e: (u64, &MetaChunk)| e.0),
                ids.no_duplicates(),
                keep == (|c: ChunkRecord| needs_replicas(c, max_replicas)),
                forall|k: int|
                    0 <= k < entries@.len() ==> self.chunks@.contains_key((#[trigger] entries@[k]).0)
                        && self.chunks@[entries@[k].0] == *entries@[k].1,
                found@.len() == keys.len(),
                counts@.len() == keys.len(),
                forall|k: int|
                    0 <= k < keys.len() ==> counts@[k] == (#[trigger] found@[k])@.storage_nodes.len(),
                forall|k: int|
                    0 <= k < keys.len() ==> self@.chunks.contains_key(#[trigger] keys[k]) && keep(
                        self@.chunks[keys[k]],
                    ) && found@[k]@ == self@.chunks[keys[k]] && ids.take(i as int).contains(keys[k]),
                keys.no_duplicates(),
                forall|k: int|
                    0 <= k < i && keep(self@.chunks[#[trigger] ids[k]]) ==> keys.contains(ids[k]),
            decreases entries@.len() - i,
        {
            let chunk: &MetaChunk = entries[i].1;
            let ghost was = keys;
            let ghost id = ids[i as int];
            assert(self.chunks@.contains_key(entries@[i as int].0));
            assert(self@.chunks[id] == chunk@);
            assert(ids.take(i + 1) =~= ids.take(i as int).push(id));
            assert forall|k: int| 0 <= k < was.len() implies ids.take(i + 1).contains(
                #[trigger] was[k],
            ) && was[k] != id by {
                let j = choose|j: int| 0 <= j < i && ids.take(i as int)[j] == was[k];
                assert(ids.take(i + 1)[j] == was[k]);
                assert(ids[j] == was[k]);
            }
            if chunk.status == ChunkStatus::Confirmed && chunk.storage_nodes.len()
                < max_replicas as usize {
                found.push(chunk);
                counts.push(chunk.storage_nodes.len());
                proof {
                    keys = keys.push(id);
                    assert(ids.take(i + 1)[i as int] == id);
                    assert(keys[was.len() as int] == id);
                    assert forall|k: int|
                        0 <= k < i + 1 && keep(self@.chunks[#[trigger] ids[k]]) implies keys.contains(
                        ids[k],
                    ) by {
                        if k < i {
                            let j = choose|j: int| 0 <= j < was.len() && was[j] == ids[k];
                            assert(keys[j] == ids[k]);
                        }
                    }
                }
            }
            i = i + 1;
        }
        let order: Vec<usize> = stable_order(&counts);
        let mut r: Vec<&MetaChunk> = Vec::new();
        let mut k: usize = 0;
        while k < order.len()
            invariant
                k <= order@.len(),
                is_stable_order(counts@, order@),
                counts@.len() == found@.len(),
                r@.len() == k,
                forall|j: int| 0 <= j < k ==> #[trigger] r@[j] == found@[order@[j] as int],
            decreases order@.len() - k,
        {
            r.push(found[order[k]]);
            k = k + 1;
        }
        proof {
            let views = r@.map_values(|c: &MetaChunk| c@);
            let sorted = Seq::new(order@.len(), |j: int| keys[order@[j] as int]);
            assert forall|a: int, b: int| 0 <= a < b < sorted.len() implies sorted[a] != sorted[b] by {
                assert(order@[a] != order@[b]);
            }
            assert forall|j: int| 0 <= j < sorted.len() implies self@.chunks.contains_key(
                #[trigger] sorted[j],
            ) && keep(self@.chunks[sorted[j]]) && views[j] == self@.chunks[sorted[j]] by {
                assert(sorted[j] == keys[order@[j] as int]);
                assert(views[j] == r@[j]@);
            }
            assert forall|id: u64| #[trigger]
                self@.chunks.contains_key(id) && keep(self@.chunks[id]) implies sorted.contains(id) by {
                assert(self.chunks@.contains_key(id));
                let e = choose|e: int| 0 <= e < ids.len() && ids[e] == id;
                assert(keys.contains(ids[e]));
                let p = choose|p: int| 0 <= p < keys.len() && keys[p] == id;
                assert(order@.contains(p as usize));
                let q = choose|q: int| 0 <= q < order@.len() && order@[q] == p as usize;
                assert(sorted[q] == id);
            }
            assert(lists_keys(views, self@.chunks, keep, sorted));
            assert forall|a: int, b: int| 0 <= a < b < views.len() implies (
            #[trigger] views[a]).storage_nodes.len() <= (#[trigger] views[b]).storage_nodes.len() by {
                assert(views[a] == r@[a]@ && views[b] == r@[b]@);
                assert(counts@[order@[a] as int] <= counts@[order@[b] as int]);
            }
        }
        r
    }

    /// Records that a further storage node holds a chunk.
    pub fn add_chunk_replica(&mut self, chunk_id: u64, storage_node_id: u64) -> (r: Result<
        (),
        StoreError,
    >)
        ensures
            replica_outcome(old(self)@, chunk_id, storage_node_id, r),
            final(self)@ == if r is Ok {
                StoreState {
                    chunks: old(self)@.chunks.insert(
                        chunk_id,
                        ChunkRecord {
                            storage_nodes: old(self)@.chunks[chunk_id].storage_nodes.push(
                                storage_node_id,
                            ),
                            ..old(self)@.chunks[chunk_id]
                        },
                    ),
                    ..old(self)@
                }
            } else {
                old(self)@
            },
    {
        if !self.storage_nodes.contains_key(&storage_node_id) {
            return Err(
                StoreError::new(
                    ErrorKind::NotFound,
                    join3("storage node ", decimal(storage_node_id).as_str(), " not found"),
                ),
            );
        }
        let replicas: usize = match self.chunks.get(&chunk_id) {
            Some(chunk) => {
                if contains_id(&chunk.storage_nodes, storage_node_id) {
                    let mut message: String = join3(
                        "chunk ",
                        decimal(chunk_id).as_str(),
                        " already exists on storage node ",
                    );
                    message.append(decimal(storage_node_id).as_str());
                    return Err(StoreError::new(ErrorKind::AlreadyExists, message));
                }
                chunk.storage_nodes.len()
            },
            None => return Err(not_found("chunk not found")),
        };
        if replicas >= MAX_REPLICAS {
            let mut message: String = join3("chunk ", decimal(chunk_id).as_str(), " already has ");
            message.append(decimal(replicas as u64).as_str());
            message.append(" replicas (max: ");
            message.append(decimal(MAX_REPLICAS as u64).as_str());
            message.append(")");
            return Err(StoreError::new(ErrorKind::InvalidInput, message));
        }
        match self.get_chunk_mut(chunk_id) {
            Ok(chunk) => {
                chunk.add_storage_node(storage_node_id);
                Ok(())
            },
            Err(e) => Err(e),
        }
    }

    /// The objects whose names hash into any of `ranges`, each with those of its
    /// chunks that are recorded here.
    pub fn objects_in_hash_ranges(&self, ranges: &[(u64, u64)]) -> (r: Vec<
        (MetaObject, Vec<MetaChunk>),
    >)
        ensures
            lists_where(
                r@.map_values(|e: (MetaObject, Vec<MetaChunk>)| e.0@),
                self@.objects,
                |o: ObjectRecord| in_ranges(key_position(o.name), ranges@),
            ),
            forall|i: int|
                0 <= i < r@.len() ==> chunk_views((#[trigger] r@[i]).1@) == present_chunks(
                    r@[i].0@.chunks,
                    self@.chunks,
                ),
    {
        let len: usize = self.objects.len();
        let ghost order = self.objects.order();
        let ghost keep = |o: ObjectRecord| in_ranges(key_position(o.name), ranges@);
        let ghost mut keys: Seq<Seq<char>> = Seq::empty();
        let mut r: Vec<(MetaObject, Vec<MetaChunk>)> = Vec::new();
        let mut i: usize = 0;
        while i < len
            invariant
                i <= len,
                len == order.len(),
                order == self.objects.order(),
                order.no_duplicates(),
                keep == (|o: ObjectRecord| in_ranges(key_position(o.name), ranges@)),
                r@.len() == keys.len(),
                forall|k: int|
                    0 <= k < r@.len() ==> chunk_views((#[trigger] r@[k]).1@) == present_chunks(
                        r@[k].0@.chunks,
                        self@.chunks,
                    ),
                forall|k: int|
                    0 <= k < keys.len() ==> self@.objects.contains_key(#[trigger] keys[k]) && keep(
                        self@.objects[keys[k]],
                    ) && r@[k].0@ == self@.objects[keys[k]] && order.take(i as int).contains(keys[k]),
                keys.no_duplicates(),
                forall|k: int|
                    0 <= k < i && keep(self@.objects[#[trigger] order[k]]) ==> keys.contains(order[k]),
            decreases len - i,
        {
            let object: &MetaObject = self.objects.value_at(i);
            let ghost was = keys;
            let ghost name = order[i as int];
            assert(self@.objects[name] == object@);
            assert(order.take(i + 1) =~= order.take(i as int).push(name));
            assert forall|k: int| 0 <= k < was.len() implies order.take(i + 1).contains(
                #[trigger] was[k],
            ) && was[k] != name by {
                let j = choose|j: int| 0 <= j < i && order.take(i as int)[j] == was[k];
                assert(order.take(i + 1)[j] == was[k]);
                assert(order[j] == was[k]);
            }
            let hash: u64 = HashRing::hash_key(object.name.as_str());
            if HashRing::hash_in_ranges(hash, ranges) {
                let chunks: Vec<MetaChunk> = self.chunks_present(&object.chunks);
                r.push((object.clone(), chunks));
                proof {
                    keys = keys.push(name);
                    assert(order.take(i + 1)[i as int] == name);
                    assert(keys[was.len() as int] == name);
                    assert forall|k: int|
                        0 <= k < i + 1 && keep(self@.objects[#[trigger] order[k]]) implies keys.contains(
                        order[k],
                    ) by {
                        if k < i {
                            let j = choose|j: int| 0 <= j < was.len() && was[j] == order[k];
                            assert(keys[j] == order[k]);
                        }
                    }
                }
            }
            i = i + 1;
        }
        proof {
            let views = r@.map_values(|e: (MetaObject, Vec<MetaChunk>)| e.0@);
            assert forall|n: Seq<char>| #[trigger]
                self@.objects.contains_key(n) && keep(self@.objects[n]) implies keys.contains(n) by {
                assert(order.to_set().contains(n));
                let e = choose|e: int| 0 <= e < order.len() && order[e] == n;
                assert(keys.contains(order[e]));
            }
            assert(lists_keys(views, self@.objects, keep, keys));
        }
        r
    }

    /// Those of `ids` that are recorded here, in order.
    pub fn chunks_present(&self, ids: &Vec<u64>) -> (r: Vec<MetaChunk>)
        ensures
            chunk_views(r@) == present_chunks(ids@, self@.chunks),
    {
        let mut r: Vec<MetaChunk> = Vec::new();
        let mut i: usize = 0;
        assert(chunk_views(r@) =~= present_chunks(ids@.take(0), self@.chunks));
        while i < ids.len()
            invariant
                i <= ids@.len(),
                chunk_views(r@) == present_chunks(ids@.take(i as int), self@.chunks),
            decreases ids@.len() - i,
        {
            let ghost was = chunk_views(r@);
            assert(ids@.take(i + 1).drop_last() =~= ids@.take(i as int));
            match self.chunks.get(&ids[i]) {
                Some(chunk) => {
                    r.push(chunk.clone());
                    assert(chunk_views(r@) =~= was.push(chunk@));
                },
                None => {},
            }
            i = i + 1;
        }
        assert(ids@.take(ids@.len() as int) =~= ids@);
        r
    }

    /// Takes over objects and chunks from another server.
    pub fn ingest_partition(&mut self, objects: Vec<MetaObject>, chunks: Vec<MetaChunk>)
        ensures
            final(self)@ == old(self)@.with_objects(object_views(objects@)).with_chunks(
                chunk_views(chunks@),
            ),
    {
        let ghost start = self@;
        let ghost objects_in = object_views(objects@);
        let ghost chunks_in = chunk_views(chunks@);
        let mut i: usize = 0;
        assert(objects_in.take(0) =~= Seq::<ObjectRecord>::empty());
        while i < objects.len()
            invariant
                i <= objects@.len(),
                objects_in == object_views(objects@),
                self@ == start.with_objects(objects_in.take(i as int)),
            decreases objects@.len() - i,
        {
            let ghost was = self@;
            let object: MetaObject = objects[i].clone();
            let ghost record = object@;
            assert(record == objects_in[i as int]);
            self.objects.insert(object.name.clone(), object);
            proof {
                assert(self@.objects =~= was.objects.insert(record.name, record));
                assert(objects_in.take(i + 1).drop_last() =~= objects_in.take(i as int));
            }
            i = i + 1;
        }
        assert(objects_in.take(objects_in.len() as int) =~= objects_in);
        let ghost middle = self@;
        let mut j: usize = 0;
        assert(chunks_in.take(0) =~= Seq::<ChunkRecord>::empty());
        while j < chunks.len()
            invariant
                j <= chunks@.len(),
                chunks_in == chunk_views(chunks@),
                self@ == middle.with_chunks(chunks_in.take(j as int)),
            decreases chunks@.len() - j,
        {
            let ghost was = self@;
            let chunk: MetaChunk = chunks[j].clone();
            let ghost record = chunk@;
            assert(record == chunks_in[j as int]);
            self.chunks.insert(chunk.id, chunk);
            proof {
                assert(self@.chunks =~= was.chunks.insert(record.id, record));
                assert(chunks_in.take(j + 1).drop_last() =~= chunks_in.take(j as int));
            }
            j = j + 1;
        }
        assert(chunks_in.take(chunks_in.len() as int) =~= chunks_in);
    }

    /// Removes objects and their chunks; names that are not there are no
    /// matter.
    pub fn remove_objects(&mut self, names: &[String])
        ensures
            final(self)@ == old(self)@.without_objects(texts(names@)),
    {
        let ghost start = self@;
        let ghost all = texts(names@);
        let mut i: usize = 0;
        assert(all.take(0) =~= Seq::<Seq<char>>::empty());
        while i < names.len()
            invariant
                i <= names@.len(),
                all == texts(names@),
                self@ == start.without_objects(all.take(i as int)),
            decreases names@.len() - i,
        {
            assert(all.take(i + 1).drop_last() =~= all.take(i as int));
            self.remove_object(names[i].as_str());
            i = i + 1;
        }
        assert(all.take(all.len() as int) =~= all);
    }
}

/// Whether `id` is among `ids`.
pub fn contains_id(ids: &Vec<u64>, id: u64) -> (r: bool)
    ensures
        r == ids@.contains(id),
{
    let mut i: usize = 0;
    while i < ids.len()
        invariant
            i <= ids@.len(),
            forall|j: int| 0 <= j < i ==> ids@[j] != id,
        decreases ids@.len() - i,
    {
        if ids[i] == id {
            return true;
        }
        i = i + 1;
    }
    false
}

/// What adding a replica comes to.
pub open spec fn replica_outcome(
    store: StoreState,
    chunk_id: u64,
    storage_node_id: u64,
    r: Result<(), StoreError>,
) -> bool {
    if !store.storage_nodes.contains_key(storage_node_id) {
        r matches Err(e) && e.is(
            ErrorKind::NotFound,
            "storage node "@ + decimal_text(storage_node_id as nat) + " not found"@,
        )
    } else if !store.chunks.contains_key(chunk_id) {
        r matches Err(e) && e.is(ErrorKind::NotFound, "chunk not found"@)
    } else {
        let nodes = store.chunks[chunk_id].storage_nodes;
        if nodes.contains(storage_node_id) {
            r matches Err(e) && e.is(
                ErrorKind::AlreadyExists,
                "chunk "@ + decimal_text(chunk_id as nat) + " already exists on storage node "@
                    + decimal_text(storage_node_id as nat),
            )
        } else if nodes.len() >= MAX_REPLICAS {
            r matches Err(e) && e.is(
                ErrorKind::InvalidInput,
                "chunk "@ + decimal_text(chunk_id as nat) + " already has "@ + decimal_text(
                    nodes.len(),
                ) + " replicas (max: "@ + decimal_text(MAX_REPLICAS as nat) + ")"@,
            )
        } else {
            r is Ok
        }
    }
}

/// What confirming a chunk comes to.
pub open spec fn confirm_outcome(
    store: StoreState,
    chunk_id: u64,
    object_name: Seq<char>,
    storage_node_id: u64,
    r: Result<(), StoreError>,
) -> bool {
    if !store.storage_nodes.contains_key(storage_node_id) {
        r matches Err(e) && e.is(
            ErrorKind::NotFound,
            "storage node "@ + decimal_text(storage_node_id as nat) + " not found"@,
        )
    } else if store.chunks.contains_key(chunk_id) && store.chunks[chunk_id].status
        == ChunkStatus::Confirmed {
        r matches Err(e) && e.is(
            ErrorKind::AlreadyExists,
            "chunk "@ + decimal_text(chunk_id as nat) + " already confirmed"@,
        )
    } else if !store.objects.contains_key(object_name) {
        r matches Err(e) && e.is(ErrorKind::NotFound, "object not found"@)
    } else {
        r is Ok
    }
}

/// What deleting a chunk comes to.
pub open spec fn delete_chunk_outcome(
    before: StoreState,
    chunk_id: u64,
    after: StoreState,
    r: Result<(), StoreError>,
) -> bool {
    if !before.chunks.contains_key(chunk_id) {
        &&& r matches Err(e) && e.is(ErrorKind::NotFound, "could not find mapped object"@)
        &&& after == before
    } else {
        let name = before.chunks[chunk_id].object_name;
        if !before.objects.contains_key(name) {
            &&& r matches Err(e) && e.is(ErrorKind::NotFound, "object not found"@)
            &&& after == StoreState { chunks: before.chunks.remove(chunk_id), ..before }
        } else {
            &&& r is Ok
            &&& after == StoreState {
                chunks: before.chunks.remove(chunk_id),
                objects: before.objects.insert(
                    name,
                    ObjectRecord {
                        chunks: ids_without(before.objects[name].chunks, chunk_id),
                        ..before.objects[name]
                    },
                ),
                ..before
            }
        }
    }
}

proof fn map_values_insert_objects(m: Map<Seq<char>, MetaObject>)
    ensures
        forall|k: Seq<char>, v: MetaObject| #[trigger]
            object_records(m.insert(k, v)) == object_records(m).insert(k, v@),
{
    assert forall|k: Seq<char>, v: MetaObject| #[trigger]
        object_records(m.insert(k, v)) == object_records(m).insert(k, v@) by {
        assert(object_records(m.insert(k, v)) =~= object_records(m).insert(k, v@));
    }
}

proof fn map_values_insert_chunks(m: Map<u64, MetaChunk>)
    ensures
        forall|k: u64, v: MetaChunk| #[trigger]
            chunk_records(m.insert(k, v)) == chunk_records(m).insert(k, v@),
{
    assert forall|k: u64, v: MetaChunk| #[trigger]
        chunk_records(m.insert(k, v)) == chunk_records(m).insert(k, v@) by {
        assert(chunk_records(m.insert(k, v)) =~= chunk_records(m).insert(k, v@));
    }
}

} // verus!
