//! How a metadata server answers requests.
use vstd::prelude::*;

use crate::chunk_index::ChunkIndex;
use crate::cluster::{owner_address, ClusterManager};
use crate::forwarding::{route_address, ForwardingLayer, RouteAction};
use crate::messages::{
    object_places, places_views, AllocateChunkResponse, ChunkInfo, ChunkPlaces, GetChunkResponse,
    GetObjectResponse, ObjectInfo, ObjectPlaces, PutChunkResponse,
};
use crate::metadata_store::{
    metadata_path_text, needs_replicas, node_views, restored_state, ChunkRecord, MetaChunk,
    MetaObject, MetaStorageNode, MetadataStore, NodeRecord, ObjectRecord, PersistentState,
    StoreState,
};
use crate::replication::{wanting_views, UnderReplicatedChunk, WantingChunk};
use crate::status::{Code, ErrorKind, Status, StoreError};
use crate::tables::{is_stable_order, lists_keys, stable_order};
use crate::text::{decimal, decimal_text, join3};

verus! {

/// Those of the storage nodes `ids` that are registered, in order.
pub open spec fn known_nodes(ids: Seq<u64>, nodes: Map<u64, NodeRecord>) -> Seq<NodeRecord>
    decreases ids.len(),
{
    if ids.len() == 0 {
        Seq::<NodeRecord>::empty()
    } else {
        let before = known_nodes(ids.drop_last(), nodes);
        if nodes.contains_key(ids.last()) {
            before.push(NodeRecord { id: ids.last(), address: nodes[ids.last()].address })
        } else {
            before
        }
    }
}

/// The storage nodes `ids`, or, where one is not registered, the first such.
pub open spec fn all_nodes(ids: Seq<u64>, nodes: Map<u64, NodeRecord>) -> Result<
    Seq<NodeRecord>,
    u64,
>
    decreases ids.len(),
{
    if ids.len() == 0 {
        Ok(Seq::<NodeRecord>::empty())
    } else {
        match all_nodes(ids.drop_last(), nodes) {
            Err(id) => Err(id),
            Ok(before) => if nodes.contains_key(ids.last()) {
                Ok(before.push(NodeRecord { id: ids.last(), address: nodes[ids.last()].address }))
            } else {
                Err(ids.last())
            },
        }
    }
}

/// A chunk with those of its storage nodes that are registered.
pub open spec fn known_places(chunk: ChunkRecord, s: StoreState) -> ChunkPlaces {
    ChunkPlaces {
        id: chunk.id,
        checksum: chunk.checksum,
        nodes: known_nodes(chunk.storage_nodes, s.storage_nodes),
    }
}

/// Those of the chunks `ids` that are recorded, in order.
pub open spec fn known_chunks(ids: Seq<u64>, s: StoreState) -> Seq<ChunkPlaces>
    decreases ids.len(),
{
    if ids.len() == 0 {
        Seq::<ChunkPlaces>::empty()
    } else {
        let before = known_chunks(ids.drop_last(), s);
        if s.chunks.contains_key(ids.last()) {
            before.push(known_places(s.chunks[ids.last()], s))
        } else {
            before
        }
    }
}

/// What an answer lacks.
pub enum Missing {
    Chunk(u64),
    Node(u64),
}

/// The chunks `ids` with all their storage nodes, or the first thing missing.
pub open spec fn all_chunks(ids: Seq<u64>, s: StoreState) -> Result<Seq<ChunkPlaces>, Missing>
    decreases ids.len(),
{
    if ids.len() == 0 {
        Ok(Seq::<ChunkPlaces>::empty())
    } else {
        match all_chunks(ids.drop_last(), s) {
            Err(missing) => Err(missing),
            Ok(before) => if s.chunks.contains_key(ids.last()) {
                let chunk = s.chunks[ids.last()];
                match all_nodes(chunk.storage_nodes, s.storage_nodes) {
                    Ok(nodes) => Ok(
                        before.push(ChunkPlaces { id: chunk.id, checksum: chunk.checksum, nodes }),
                    ),
                    Err(id) => Err(Missing::Node(id)),
                }
            } else {
                Err(Missing::Chunk(ids.last()))
            },
        }
    }
}

/// The status for what an object's answer lacks.
pub open spec fn missing_text(missing: Missing) -> Seq<char> {
    match missing {
        Missing::Chunk(id) => "chunk "@ + decimal_text(id as nat)
            + " referenced by object but not found"@,
        Missing::Node(id) => "storage node "@ + decimal_text(id as nat)
            + " referenced by chunk but not found"@,
    }
}

proof fn missing_node_stays(ids: Seq<u64>, nodes: Map<u64, NodeRecord>, k: int)
    requires
        0 <= k <= ids.len(),
        all_nodes(ids.take(k), nodes) is Err,
    ensures
        all_nodes(ids, nodes) == all_nodes(ids.take(k), nodes),
    decreases ids.len(),
{
    if k == ids.len() {
        assert(ids.take(k) =~= ids);
    } else {
        assert(ids.drop_last().take(k) =~= ids.take(k));
        missing_node_stays(ids.drop_last(), nodes, k);
    }
}

proof fn missing_chunk_stays(ids: Seq<u64>, s: StoreState, k: int)
    requires
        0 <= k <= ids.len(),
        all_chunks(ids.take(k), s) is Err,
    ensures
        all_chunks(ids, s) == all_chunks(ids.take(k), s),
    decreases ids.len(),
{
    if k == ids.len() {
        assert(ids.take(k) =~= ids);
    } else {
        assert(ids.drop_last().take(k) =~= ids.take(k));
        missing_chunk_stays(ids.drop_last(), s, k);
    }
}

/// Those of the storage nodes `ids` that are registered, in order.
pub fn nodes_known(store: &MetadataStore, ids: &Vec<u64>) -> (r: Vec<MetaStorageNode>)
    ensures
        node_views(r@) == known_nodes(ids@, store@.storage_nodes),
{
    let mut r: Vec<MetaStorageNode> = Vec::new();
    let mut i: usize = 0;
    assert(node_views(r@) =~= known_nodes(ids@.take(0), store@.storage_nodes));
    while i < ids.len()
        invariant
            i <= ids@.len(),
            node_views(r@) == known_nodes(ids@.take(i as int), store@.storage_nodes),
        decreases ids@.len() - i,
    {
        let ghost before = node_views(r@);
        assert(ids@.take(i + 1).drop_last() =~= ids@.take(i as int));
        match store.get_storage_node(ids[i]) {
            Ok(address) => {
                let node = MetaStorageNode { id: ids[i], address };
                r.push(node);
                assert(node_views(r@) =~= before.push(node@));
            },
            Err(_) => {},
        }
        i = i + 1;
    }
    assert(ids@.take(ids@.len() as int) =~= ids@);
    r
}

/// The storage nodes `ids`, or the first that is not registered.
pub fn nodes_all(store: &MetadataStore, ids: &Vec<u64>) -> (r: Result<Vec<MetaStorageNode>, u64>)
    ensures
        match r {
            Ok(nodes) => all_nodes(ids@, store@.storage_nodes) == Ok::<Seq<NodeRecord>, u64>(
                node_views(nodes@),
            ),
            Err(id) => all_nodes(ids@, store@.storage_nodes) == Err::<Seq<NodeRecord>, u64>(id),
        },
{
    let mut r: Vec<MetaStorageNode> = Vec::new();
    let mut i: usize = 0;
    assert(node_views(r@) =~= Seq::<NodeRecord>::empty());
    while i < ids.len()
        invariant
            i <= ids@.len(),
            all_nodes(ids@.take(i as int), store@.storage_nodes) == Ok::<Seq<NodeRecord>, u64>(
                node_views(r@),
            ),
        decreases ids@.len() - i,
    {
        let ghost before = node_views(r@);
        assert(ids@.take(i + 1).drop_last() =~= ids@.take(i as int));
        match store.get_storage_node(ids[i]) {
            Ok(address) => {
                let node = MetaStorageNode { id: ids[i], address };
                r.push(node);
                assert(node_views(r@) =~= before.push(node@));
            },
            Err(_) => {
                proof {
                    missing_node_stays(ids@, store@.storage_nodes, i + 1);
                }
                return Err(ids[i]);
            },
        }
        i = i + 1;
    }
    assert(ids@.take(ids@.len() as int) =~= ids@);
    Ok(r)
}

/// Those of the chunks `ids` that are recorded, with those of their storage
/// nodes that are registered.
pub fn chunks_known(store: &MetadataStore, ids: &Vec<u64>) -> (r: Vec<ChunkInfo>)
    ensures
        places_views(r@) == known_chunks(ids@, store@),
{
    let mut r: Vec<ChunkInfo> = Vec::new();
    let mut i: usize = 0;
    assert(places_views(r@) =~= known_chunks(ids@.take(0), store@));
    while i < ids.len()
        invariant
            i <= ids@.len(),
            places_views(r@) == known_chunks(ids@.take(i as int), store@),
        decreases ids@.len() - i,
    {
        let ghost before = places_views(r@);
        assert(ids@.take(i + 1).drop_last() =~= ids@.take(i as int));
        match store.get_chunk(ids[i]) {
            Ok((_, chunk)) => {
                let info = ChunkInfo {
                    id: chunk.id,
                    checksum: chunk.checksum,
                    storage_nodes: nodes_known(store, &chunk.storage_nodes),
                };
                r.push(info);
                assert(places_views(r@) =~= before.push(info@));
            },
            Err(_) => {},
        }
        i = i + 1;
    }
    assert(ids@.take(ids@.len() as int) =~= ids@);
    r
}

/// The objects of a store, each with the places of its chunks as far as they
/// are known, in some order.
pub open spec fn lists_objects(items: Seq<ObjectPlaces>, s: StoreState) -> bool {
    exists|names: Seq<Seq<char>>|
        {
            &&& #[trigger] names.no_duplicates()
            &&& names.len() == items.len()
            &&& forall|i: int|
                0 <= i < names.len() ==> s.objects.contains_key(#[trigger] names[i]) && items[i]
                    == places_of(s.objects[names[i]], s)
            &&& forall|name: Seq<char>| #[trigger]
                s.objects.contains_key(name) ==> names.contains(name)
        }
}

/// An object with the places of its chunks, as far as they are known.
pub open spec fn places_of(object: ObjectRecord, s: StoreState) -> ObjectPlaces {
    ObjectPlaces {
        name: object.name,
        checksum: object.checksum,
        chunks: known_chunks(object.chunks, s),
        total_size: object.total_size,
    }
}

/// All objects of this server, each with the places of its chunks. Chunks and
/// storage nodes that are not known are left out.
pub fn list_local_objects(store: &MetadataStore) -> (r: Vec<ObjectInfo>)
    ensures
        lists_objects(object_places(r@), store@),
{
    let objects: Vec<MetaObject> = store.list_objects();
    let ghost views = crate::metadata_store::object_views(objects@);
    let mut r: Vec<ObjectInfo> = Vec::new();
    let mut i: usize = 0;
    while i < objects.len()
        invariant
            i <= objects@.len(),
            r@.len() == i,
            views == crate::metadata_store::object_views(objects@),
            forall|k: int| 0 <= k < i ==> (#[trigger] r@[k])@ == places_of(views[k], store@),
        decreases objects@.len() - i,
    {
        assert(views[i as int] == objects@[i as int]@);
        r.push(
            ObjectInfo {
                name: objects[i].name.clone(),
                checksum: objects[i].checksum,
                chunks: chunks_known(store, &objects[i].chunks),
                total_size: objects[i].total_size,
            },
        );
        i = i + 1;
    }
    proof {
        let keep = |v: ObjectRecord| true;
        let names = choose|names: Seq<Seq<char>>| lists_keys(views, store@.objects, keep, names);
        assert(lists_keys(views, store@.objects, keep, names));
        let items = object_places(r@);
        assert forall|k: int| 0 <= k < names.len() implies store@.objects.contains_key(
            #[trigger] names[k],
        ) && items[k] == places_of(store@.objects[names[k]], store@) by {
            assert(items[k] == r@[k]@);
        }
        assert forall|name: Seq<char>| #[trigger] store@.objects.contains_key(name) implies names.contains(
            name,
        ) by {
            assert(keep(store@.objects[name]));
        }
        assert(names.no_duplicates());
    }
    r
}

/// How many replicas are wanted, where a request may leave it open.
pub open spec fn replicas_wanted(max_replicas: u32) -> u32 {
    if max_replicas == 0 {
        3
    } else {
        max_replicas
    }
}

/// A chunk with too few replicas, as it is reported.
pub open spec fn wanting(chunk: ChunkRecord) -> WantingChunk {
    WantingChunk { id: chunk.id, checksum: chunk.checksum, nodes: chunk.storage_nodes }
}

/// The chunks of a store with too few replicas, those with the fewest first.
pub open spec fn lists_wanting(items: Seq<WantingChunk>, s: StoreState, max_replicas: u32) -> bool {
    &&& exists|ids: Seq<u64>|
        {
            &&& #[trigger] ids.no_duplicates()
            &&& ids.len() == items.len()
            &&& forall|i: int|
                0 <= i < ids.len() ==> s.chunks.contains_key(#[trigger] ids[i]) && needs_replicas(
                    s.chunks[ids[i]],
                    replicas_wanted(max_replicas),
                ) && items[i] == wanting(s.chunks[ids[i]])
            &&& forall|id: u64| #[trigger]
                s.chunks.contains_key(id) && needs_replicas(
                    s.chunks[id],
                    replicas_wanted(max_replicas),
                ) ==> ids.contains(id)
        }
    &&& forall|i: int, j: int|
        0 <= i < j < items.len() ==> (#[trigger] items[i]).nodes.len() <= (
        #[trigger] items[j]).nodes.len()
}

/// The chunks of this server with too few replicas, those with the fewest
/// first.
pub fn list_local_under_replicated_chunks(store: &MetadataStore, max_replicas: u32) -> (r: Vec<
    UnderReplicatedChunk,
>)
    ensures
        lists_wanting(wanting_views(r@), store@, max_replicas),
{
    let wanted: u32 = if max_replicas == 0 {
        3
    } else {
        max_replicas
    };
    let chunks: Vec<&MetaChunk> = store.list_under_replicated_chunks(wanted);
    let ghost views = chunks@.map_values(|c: &MetaChunk| c@);
    let mut r: Vec<UnderReplicatedChunk> = Vec::new();
    let mut i: usize = 0;
    while i < chunks.len()
        invariant
            i <= chunks@.len(),
            r@.len() == i,
            views == chunks@.map_values(|c: &MetaChunk| c@),
            forall|k: int| 0 <= k < i ==> (#[trigger] r@[k])@ == wanting(views[k]),
        decreases chunks@.len() - i,
    {
        let ids: Vec<u64> = chunks[i].storage_nodes.clone();
        assert(ids@ =~= chunks@[i as int].storage_nodes@);
        assert(views[i as int] == chunks@[i as int]@);
        r.push(
            UnderReplicatedChunk {
                chunk_id: chunks[i].id,
                checksum: chunks[i].checksum,
                current_storage_node_ids: ids,
            },
        );
        i = i + 1;
    }
    proof {
        let keep = |c: ChunkRecord| needs_replicas(c, wanted);
        let ids = choose|ids: Seq<u64>| lists_keys(views, store@.chunks, keep, ids);
        assert(lists_keys(views, store@.chunks, keep, ids));
        let items = wanting_views(r@);
        assert forall|k: int| 0 <= k < ids.len() implies store@.chunks.contains_key(
            #[trigger] ids[k],
        ) && needs_replicas(store@.chunks[ids[k]], wanted) && items[k] == wanting(
            store@.chunks[ids[k]],
        ) by {
            assert(items[k] == r@[k]@);
            assert(keep(store@.chunks[ids[k]]));
        }
        assert forall|id: u64| #[trigger]
            store@.chunks.contains_key(id) && needs_replicas(store@.chunks[id], wanted) implies ids.contains(
            id,
        ) by {
            assert(keep(store@.chunks[id]));
        }
        assert(ids.no_duplicates());
        assert forall|a: int, b: int| 0 <= a < b < items.len() implies (
        #[trigger] items[a]).nodes.len() <= (#[trigger] items[b]).nodes.len() by {
            assert(items[a] == wanting(views[a]) && items[b] == wanting(views[b])) by {
                assert(items[a] == r@[a]@);
                assert(items[b] == r@[b]@);
            }
        }
    }
    r
}

/// The labels under which remote calls are counted.
#[derive(Debug, PartialEq, Eq, Hash)]
pub struct RpcLabels {
    pub method: String,
    pub status: String,
}

/// The labels for a call that succeeded or failed.
pub fn rpc_labels(method: &str, ok: bool) -> (r: RpcLabels)
    ensures
        r.method@ == method@,
        r.status@ == if ok {
            "ok"@
        } else {
            "error"@
        },
{
    let status: &str = if ok {
        "ok"
    } else {
        "error"
    };
    RpcLabels { method: method.to_owned(), status: status.to_owned() }
}

/// Failing with the code and the store's own message where the kind of error
/// has a code, and with another message otherwise.
pub open spec fn passes_on(e: StoreError, status: Status, code: Option<Code>, other: Seq<char>) -> bool {
    match code {
        Some(code) => status.is(code, e.message@),
        None => status.is(Code::Internal, other),
    }
}

/// Failing with a code and message of its own where the error is of one kind,
/// and with another message otherwise.
pub open spec fn answers_kind(
    e: StoreError,
    status: Status,
    kind: ErrorKind,
    code: Code,
    message: Seq<char>,
    other: Seq<char>,
) -> bool {
    if e.kind == kind {
        status.is(code, message)
    } else {
        status.is(Code::Internal, other)
    }
}

/// The code for an error in adding a replica.
pub open spec fn replica_code(kind: ErrorKind) -> Option<Code> {
    match kind {
        ErrorKind::NotFound => Some(Code::NotFound),
        ErrorKind::AlreadyExists => Some(Code::AlreadyExists),
        ErrorKind::InvalidInput => Some(Code::FailedPrecondition),
        _ => None,
    }
}

/// The code for an error in confirming a chunk.
pub open spec fn confirm_code(kind: ErrorKind) -> Option<Code> {
    match kind {
        ErrorKind::NotFound => Some(Code::NotFound),
        ErrorKind::AlreadyExists => Some(Code::AlreadyExists),
        _ => None,
    }
}

fn internal(message: &str) -> (r: Status)
    ensures
        r.is(Code::Internal, message@),
{
    Status::new(Code::Internal, message.to_owned())
}

fn status_for(e: &StoreError, kind: ErrorKind, code: Code, message: &str, other: &str) -> (r: Status)
    ensures
        answers_kind(*e, r, kind, code, message@, other@),
{
    if e.kind == kind {
        Status::new(code, message.to_owned())
    } else {
        internal(other)
    }
}

/// The status for an error in adding a replica.
pub fn replica_status(e: StoreError) -> (r: Status)
    ensures
        passes_on(e, r, replica_code(e.kind), "failed to add chunk replica"@),
{
    match e.kind {
        ErrorKind::NotFound => Status::new(Code::NotFound, e.message),
        ErrorKind::AlreadyExists => Status::new(Code::AlreadyExists, e.message),
        ErrorKind::InvalidInput => Status::new(Code::FailedPrecondition, e.message),
        _ => internal("failed to add chunk replica"),
    }
}

/// The status for an error in confirming a chunk.
pub fn confirm_status(e: StoreError) -> (r: Status)
    ensures
        passes_on(e, r, confirm_code(e.kind), "failed to confirm chunk"@),
{
    match e.kind {
        ErrorKind::NotFound => Status::new(Code::NotFound, e.message),
        ErrorKind::AlreadyExists => Status::new(Code::AlreadyExists, e.message),
        _ => internal("failed to confirm chunk"),
    }
}

/// Puts chunks in the order of their replicas, those with the fewest first;
/// chunks with equally many stay in order.
pub fn sort_by_replicas(chunks: Vec<UnderReplicatedChunk>) -> (r: Vec<UnderReplicatedChunk>)
    ensures
        is_sorted_by_replicas(wanting_views(chunks@), wanting_views(r@)),
{
    let ghost all = wanting_views(chunks@);
    let mut counts: Vec<usize> = Vec::new();
    let mut i: usize = 0;
    while i < chunks.len()
        invariant
            i <= chunks@.len(),
            all == wanting_views(chunks@),
            counts@.len() == i,
            forall|k: int| 0 <= k < i ==> counts@[k] == (#[trigger] all[k]).nodes.len(),
        decreases chunks@.len() - i,
    {
        assert(all[i as int] == chunks@[i as int]@);
        counts.push(chunks[i].current_storage_node_ids.len());
        i = i + 1;
    }
    let order: Vec<usize> = stable_order(&counts);
    let mut r: Vec<UnderReplicatedChunk> = Vec::new();
    let mut k: usize = 0;
    while k < order.len()
        invariant
            k <= order@.len(),
            all == wanting_views(chunks@),
            counts@.len() == chunks@.len(),
            is_stable_order(counts@, order@),
            r@.len() == k,
            forall|j: int| 0 <= j < k ==> (#[trigger] r@[j])@ == all[order@[j] as int],
        decreases order@.len() - k,
    {
        assert(all[order@[k as int] as int] == chunks@[order@[k as int] as int]@);
        r.push(chunks[order[k]].clone());
        k = k + 1;
    }
    proof {
        assert(counts@ =~= replica_counts(all));
        let sorted = wanting_views(r@);
        assert(sorted =~= Seq::new(order@.len(), |j: int| all[order@[j] as int]));
        assert(is_stable_order(replica_counts(all), order@));
    }
    r
}

/// How many replicas each chunk has.
pub open spec fn replica_counts(chunks: Seq<WantingChunk>) -> Seq<usize> {
    chunks.map_values(|c: WantingChunk| c.nodes.len() as usize)
}

/// `sorted` are `chunks` by ascending number of replicas, ties in order.
pub open spec fn is_sorted_by_replicas(chunks: Seq<WantingChunk>, sorted: Seq<WantingChunk>) -> bool {
    exists|order: Seq<usize>| #[trigger]
        is_stable_order(replica_counts(chunks), order) && sorted == Seq::new(
            order.len(),
            |j: int| chunks[order[j] as int],
        )
}

/// What came of asking a storage node for its health.
#[derive(Debug, Clone, Copy, PartialEq, Eq, Structural)]
pub enum Health {
    /// It answered, and said whether it is healthy.
    Answered(bool),
    /// It could not be reached or did not answer in time.
    Failed,
    /// The question was never put.
    NotAsked,
}

/// Whether a storage node is to be forgotten.
pub open spec fn is_unhealthy(health: Health) -> bool {
    health == Health::Failed || health == Health::Answered(false)
}

/// The ids of those nodes that are to be forgotten.
pub open spec fn unhealthy_ids(reports: Seq<(u64, Health)>) -> Seq<u64>
    decreases reports.len(),
{
    if reports.len() == 0 {
        Seq::<u64>::empty()
    } else if is_unhealthy(reports.last().1) {
        unhealthy_ids(reports.drop_last()).push(reports.last().0)
    } else {
        unhealthy_ids(reports.drop_last())
    }
}

/// The ids of those nodes that are to be forgotten: they could not be reached,
/// or said that they are not healthy.
pub fn unhealthy_nodes(reports: &Vec<(u64, Health)>) -> (r: Vec<u64>)
    ensures
        r@ == unhealthy_ids(reports@),
{
    let mut r: Vec<u64> = Vec::new();
    let mut i: usize = 0;
    assert(r@ =~= unhealthy_ids(reports@.take(0)));
    while i < reports.len()
        invariant
            i <= reports@.len(),
            r@ == unhealthy_ids(reports@.take(i as int)),
        decreases reports@.len() - i,
    {
        assert(reports@.take(i + 1).drop_last() =~= reports@.take(i as int));
        match reports[i].1 {
            Health::Failed => {
                r.push(reports[i].0);
            },
            Health::Answered(healthy) => {
                if !healthy {
                    r.push(reports[i].0);
                }
            },
            Health::NotAsked => {},
        }
        i = i + 1;
    }
    assert(reports@.take(reports@.len() as int) =~= reports@);
    r
}

/// How long to wait before the next health check, in milliseconds: 20 seconds
/// and up to 5 more, by chance.
pub fn health_check_delay(random: u64) -> (r: u64)
    ensures
        r == 20_000 + random % 5_000,
        20_000 <= r < 25_000,
{
    20_000 + random % 5_000
}

/// How long to wait before the next health check, in milliseconds.
pub fn next_health_check_delay() -> (r: u64)
    ensures
        20_000 <= r < 25_000,
{
    health_check_delay(crate::random::random_u64())
}

/// A metadata server: its part of the objects, the index of all chunks, and
/// what it knows of the other servers.
pub struct StorageMetadataImpl {
    pub metadata_store: MetadataStore,
    pub chunk_index: ChunkIndex,
    pub cluster: Option<ClusterManager>,
}

/// The address that a request on an object is forwarded to, if it is.
pub open spec fn object_route(cluster: Option<ClusterManager>, name: Seq<char>) -> Option<Seq<char>> {
    match cluster {
        Some(c) => owner_address(c@, name),
        None => None,
    }
}

impl StorageMetadataImpl {
    /// The server `node_id`, with what it had stored.
    pub fn construct(data_dir: &str, node_id: &str, stored: Option<PersistentState>) -> (r: Self)
        ensures
            r.metadata_store@ == restored_state(metadata_path_text(data_dir@, node_id@), stored),
            r.chunk_index@ == Map::<u64, Seq<char>>::empty(),
            r.cluster is None,
    {
        StorageMetadataImpl {
            metadata_store: MetadataStore::new_with_node(data_dir, node_id, stored),
            chunk_index: ChunkIndex::new(),
            cluster: None,
        }
    }

    /// A server on its own, with what it had stored.
    pub fn construct_standalone(stored: Option<PersistentState>) -> (r: Self)
        ensures
            r.metadata_store@ == restored_state("metadata.dat"@, stored),
            r.chunk_index@ == Map::<u64, Seq<char>>::empty(),
            r.cluster is None,
    {
        StorageMetadataImpl {
            metadata_store: MetadataStore::new("metadata.dat", stored),
            chunk_index: ChunkIndex::new(),
            cluster: None,
        }
    }

    /// Lets the server route requests in a cluster.
    pub fn set_forwarding_layer(&mut self, cluster: ClusterManager)
        ensures
            final(self).cluster == Some(cluster),
            final(self).metadata_store == old(self).metadata_store,
            final(self).chunk_index == old(self).chunk_index,
    {
        self.cluster = Some(cluster);
    }

    /// Puts all chunks of this server into the index.
    pub fn populate_chunk_index(&mut self)
        ensures
            final(self).chunk_index@ == old(self).chunk_index@.union_prefer_right(
                old(self).metadata_store@.chunks.map_values(|c: ChunkRecord| c.object_name),
            ),
            final(self).metadata_store == old(self).metadata_store,
            final(self).cluster == old(self).cluster,
    {
        let ghost records = self.metadata_store@.chunks;
        let table = self.metadata_store.chunk_table();
        let ghost names = table@.map_values(|c: MetaChunk| c@.object_name);
        assert(names =~= records.map_values(|c: ChunkRecord| c.object_name));
        self.chunk_index.populate_from_chunks(table);
    }

    /// Where a request on an object is handled.
    pub fn route_by_object(&self, object_name: &str) -> (r: RouteAction)
        ensures
            route_address(r) == object_route(self.cluster, object_name@),
    {
        match &self.cluster {
            Some(cluster) => ForwardingLayer::new(cluster, &self.chunk_index).route_by_object(
                object_name,
            ),
            None => RouteAction::Local,
        }
    }

    /// Where a request on a chunk is handled. On its own a server handles all.
    pub fn route_by_chunk(&self, chunk_id: u64) -> (r: Result<RouteAction, Status>)
        ensures
            match r {
                Ok(action) => if self.cluster is None {
                    route_address(action) is None
                } else {
                    self.chunk_index@.contains_key(chunk_id) && route_address(action)
                        == object_route(self.cluster, self.chunk_index@[chunk_id])
                },
                Err(status) => self.cluster is Some && !self.chunk_index@.contains_key(chunk_id)
                    && status.is(
                    Code::NotFound,
                    "chunk "@ + decimal_text(chunk_id as nat) + " not found in index"@,
                ),
            },
    {
        match &self.cluster {
            Some(cluster) => ForwardingLayer::new(cluster, &self.chunk_index).route_by_chunk(
                chunk_id,
            ),
            None => Ok(RouteAction::Local),
        }
    }

    /// Where a request on a chunk is handled; a chunk that the index does not
    /// know is looked for here.
    pub fn chunk_route(&self, chunk_id: u64) -> (r: RouteAction)
        ensures
            route_address(r) == if self.chunk_index@.contains_key(chunk_id) {
                object_route(self.cluster, self.chunk_index@[chunk_id])
            } else {
                None
            },
    {
        match self.route_by_chunk(chunk_id) {
            Ok(action) => action,
            Err(_) => RouteAction::Local,
        }
    }

    /// Where a place for a chunk is looked for; without an object's name, here.
    pub fn allocate_route(&self, object_name: &str) -> (r: RouteAction)
        ensures
            route_address(r) == if object_name@.len() == 0 {
                None
            } else {
                object_route(self.cluster, object_name@)
            },
    {
        if object_name.is_empty() {
            RouteAction::Local
        } else {
            self.route_by_object(object_name)
        }
    }

    /// The answer once an object was created, or could not be.
    pub fn put_object_answer(object_name: &str, outcome: Result<(), StoreError>) -> (r: Result<
        (),
        Status,
    >)
        ensures
            match r {
                Ok(()) => outcome is Ok,
                Err(status) => outcome matches Err(e) && answers_kind(
                    e,
                    status,
                    ErrorKind::AlreadyExists,
                    Code::AlreadyExists,
                    "object name "@ + object_name@ + " already exists"@,
                    "failed to store object"@,
                ),
            },
    {
        match outcome {
            Ok(()) => Ok(()),
            Err(e) => {
                let message: String = join3("object name ", object_name, " already exists");
                Err(
                    status_for(
                        &e,
                        ErrorKind::AlreadyExists,
                        Code::AlreadyExists,
                        message.as_str(),
                        "failed to store object",
                    ),
                )
            },
        }
    }

    /// The answer once a chunk was added, or could not be. A chunk that was
    /// added goes into the index.
    pub fn put_chunk_answer(
        &mut self,
        object_name: String,
        outcome: Result<(u64, String), StoreError>,
    ) -> (r: Result<PutChunkResponse, Status>)
        ensures
            final(self).metadata_store == old(self).metadata_store,
            final(self).cluster == old(self).cluster,
            match r {
                Ok(response) => outcome matches Ok((id, address)) && response.chunk_id == id
                    && response.storage_node_address@ == address@ && final(self).chunk_index@
                    == old(self).chunk_index@.insert(id, object_name@),
                Err(status) => outcome matches Err(e) && answers_kind(
                    e,
                    status,
                    ErrorKind::AlreadyExists,
                    Code::AlreadyExists,
                    "chunk id already exists"@,
                    "failed to store chunk"@,
                ) && final(self).chunk_index@ == old(self).chunk_index@,
            },
    {
        match outcome {
            Ok((chunk_id, storage_node_address)) => {
                self.chunk_index.insert(chunk_id, object_name);
                Ok(PutChunkResponse { chunk_id, storage_node_address })
            },
            Err(e) => Err(
                status_for(
                    &e,
                    ErrorKind::AlreadyExists,
                    Code::AlreadyExists,
                    "chunk id already exists",
                    "failed to store chunk",
                ),
            ),
        }
    }

    /// An object and the places of its chunks. Every chunk and every storage
    /// node has to be known.
    pub fn get_object(&self, object_name: String) -> (r: Result<GetObjectResponse, Status>)
        ensures
            get_object_outcome(self.metadata_store@, object_name@, r),
    {
        let object: &MetaObject = match self.metadata_store.get_object(object_name) {
            Ok(object) => object,
            Err(e) => {
                return Err(
                    status_for(
                        &e,
                        ErrorKind::NotFound,
                        Code::NotFound,
                        "object not found",
                        "failed to get object",
                    ),
                );
            },
        };
        let ids: &Vec<u64> = &object.chunks;
        let ghost s = self.metadata_store@;
        let mut chunks: Vec<ChunkInfo> = Vec::new();
        let mut i: usize = 0;
        assert(places_views(chunks@) =~= Seq::<ChunkPlaces>::empty());
        while i < ids.len()
            invariant
                i <= ids@.len(),
                s == self.metadata_store@,
                s.objects.contains_key(object_name@),
                ids@ == s.objects[object_name@].chunks,
                all_chunks(ids@.take(i as int), s) == Ok::<Seq<ChunkPlaces>, Missing>(
                    places_views(chunks@),
                ),
            decreases ids@.len() - i,
        {
            let ghost before = places_views(chunks@);
            assert(ids@.take(i + 1).drop_last() =~= ids@.take(i as int));
            let chunk: &MetaChunk = match self.metadata_store.get_chunk(ids[i]) {
                Ok((_, chunk)) => chunk,
                Err(_) => {
                    proof {
                        missing_chunk_stays(ids@, s, i + 1);
                    }
                    return Err(
                        Status::new(
                            Code::Internal,
                            join3(
                                "chunk ",
                                decimal(ids[i]).as_str(),
                                " referenced by object but not found",
                            ),
                        ),
                    );
                },
            };
            match nodes_all(&self.metadata_store, &chunk.storage_nodes) {
                Ok(storage_nodes) => {
                    let info = ChunkInfo { id: chunk.id, checksum: chunk.checksum, storage_nodes };
                    chunks.push(info);
                    assert(places_views(chunks@) =~= before.push(info@));
                },
                Err(id) => {
                    proof {
                        missing_chunk_stays(ids@, s, i + 1);
                    }
                    return Err(
                        Status::new(
                            Code::Internal,
                            join3(
                                "storage node ",
                                decimal(id).as_str(),
                                " referenced by chunk but not found",
                            ),
                        ),
                    );
                },
            }
            i = i + 1;
        }
        assert(ids@.take(ids@.len() as int) =~= ids@);
        Ok(GetObjectResponse { checksum: object.checksum, chunks })
    }

    /// A chunk and the storage nodes that hold it; all of them have to be known.
    pub fn get_chunk(&self, chunk_id: u64) -> (r: Result<GetChunkResponse, Status>)
        ensures
            get_chunk_outcome(self.metadata_store@, chunk_id, r),
    {
        let (object_name, chunk): (String, &MetaChunk) = match self.metadata_store.get_chunk(
            chunk_id,
        ) {
            Ok(found) => found,
            Err(e) => {
                return Err(
                    status_for(
                        &e,
                        ErrorKind::NotFound,
                        Code::NotFound,
                        "chunk not found",
                        "failed to get chunk",
                    ),
                );
            },
        };
        match nodes_all(&self.metadata_store, &chunk.storage_nodes) {
            Ok(storage_nodes) => Ok(
                GetChunkResponse { object_name, checksum: chunk.checksum, storage_nodes },
            ),
            Err(id) => Err(
                Status::new(
                    Code::Internal,
                    join3(
                        "storage node ",
                        decimal(id).as_str(),
                        " referenced by chunk but not found",
                    ),
                ),
            ),
        }
    }

    /// The chunks of an object; none where there is no such object.
    pub fn chunk_ids_of(&self, object_name: &str) -> (r: Vec<u64>)
        ensures
            r@ == if self.metadata_store@.objects.contains_key(object_name@) {
                self.metadata_store@.objects[object_name@].chunks
            } else {
                Seq::<u64>::empty()
            },
    {
        match self.metadata_store.get_object(object_name.to_owned()) {
            Ok(object) => {
                let ids: Vec<u64> = object.chunks.clone();
                assert(ids@ =~= object.chunks@);
                ids
            },
            Err(_) => Vec::new(),
        }
    }

    /// The answer once an object with the chunks `chunk_ids` was deleted, or
    /// could not be. The chunks of an object that was deleted leave the index.
    pub fn delete_object_answer(
        &mut self,
        chunk_ids: &Vec<u64>,
        outcome: Result<(), StoreError>,
    ) -> (r: Result<(), Status>)
        ensures
            final(self).metadata_store == old(self).metadata_store,
            final(self).cluster == old(self).cluster,
            match r {
                Ok(()) => outcome is Ok && final(self).chunk_index@ == old(
                    self,
                ).chunk_index@.remove_keys(chunk_ids@.to_set()),
                Err(status) => outcome matches Err(e) && answers_kind(
                    e,
                    status,
                    ErrorKind::NotFound,
                    Code::NotFound,
                    "object not found"@,
                    "failed to delete object"@,
                ) && final(self).chunk_index@ == old(self).chunk_index@,
            },
    {
        match outcome {
            Ok(()) => {
                self.chunk_index.remove_all(chunk_ids);
                Ok(())
            },
            Err(e) => Err(
                status_for(
                    &e,
                    ErrorKind::NotFound,
                    Code::NotFound,
                    "object not found",
                    "failed to delete object",
                ),
            ),
        }
    }

    /// The answer once a chunk was deleted, or could not be. A chunk that was
    /// deleted leaves the index.
    pub fn delete_chunk_answer(&mut self, chunk_id: u64, outcome: Result<(), StoreError>) -> (r:
        Result<(), Status>)
        ensures
            final(self).metadata_store == old(self).metadata_store,
            final(self).cluster == old(self).cluster,
            match r {
                Ok(()) => outcome is Ok && final(self).chunk_index@ == old(
                    self,
                ).chunk_index@.remove(chunk_id),
                Err(status) => outcome matches Err(e) && answers_kind(
                    e,
                    status,
                    ErrorKind::NotFound,
                    Code::NotFound,
                    "chunk not found"@,
                    "failed to delete chunk"@,
                ) && final(self).chunk_index@ == old(self).chunk_index@,
            },
    {
        match outcome {
            Ok(()) => {
                self.chunk_index.remove(chunk_id);
                Ok(())
            },
            Err(e) => Err(
                status_for(
                    &e,
                    ErrorKind::NotFound,
                    Code::NotFound,
                    "chunk not found",
                    "failed to delete chunk",
                ),
            ),
        }
    }

    /// The answer once a storage node was registered, or could not be.
    pub fn put_storage_node_answer(outcome: Result<u64, StoreError>) -> (r: Result<u64, Status>)
        ensures
            match r {
                Ok(id) => outcome matches Ok(given) && given == id,
                Err(status) => outcome matches Err(e) && answers_kind(
                    e,
                    status,
                    ErrorKind::InvalidInput,
                    Code::InvalidArgument,
                    "invalid address"@,
                    "failed to put storage node"@,
                ),
            },
    {
        match outcome {
            Ok(id) => Ok(id),
            Err(e) => Err(
                status_for(
                    &e,
                    ErrorKind::InvalidInput,
                    Code::InvalidArgument,
                    "invalid address",
                    "failed to put storage node",
                ),
            ),
        }
    }

    /// All objects: those of this server, then those of the others, if they
    /// could be asked.
    pub fn list_objects(&self, peers: Option<Result<Vec<ObjectInfo>, Status>>) -> (r: Vec<
        ObjectInfo,
    >)
        ensures
            exists|local: Seq<ObjectPlaces>| #[trigger]
                lists_objects(local, self.metadata_store@) && object_places(r@) == match peers {
                    Some(Ok(others)) => local + object_places(others@),
                    _ => local,
                },
    {
        let mut r: Vec<ObjectInfo> = list_local_objects(&self.metadata_store);
        let ghost local = object_places(r@);
        if let Some(gathered) = peers {
            if let Ok(others) = gathered {
                let ghost more = object_places(others@);
                let mut others: Vec<ObjectInfo> = others;
                r.append(&mut others);
                assert(object_places(r@) =~= local + more);
            }
        }
        assert(lists_objects(local, self.metadata_store@));
        r
    }

    /// The address of a storage node.
    pub fn get_storage_node(&self, storage_node_id: u64) -> (r: Result<String, Status>)
        ensures
            match r {
                Ok(address) => self.metadata_store@.storage_nodes.contains_key(storage_node_id)
                    && address@ == self.metadata_store@.storage_nodes[storage_node_id].address,
                Err(status) => !self.metadata_store@.storage_nodes.contains_key(storage_node_id)
                    && status.is(
                    Code::NotFound,
                    "could not find storage_node_id "@ + decimal_text(storage_node_id as nat),
                ),
            },
    {
        match self.metadata_store.get_storage_node(storage_node_id) {
            Ok(address) => Ok(address),
            Err(e) => {
                if e.kind == ErrorKind::NotFound {
                    Err(Status::new(Code::NotFound, e.message))
                } else {
                    Err(internal("failed to get storage node"))
                }
            },
        }
    }

    /// Forgets a storage node.
    pub fn delete_storage_node(&mut self, storage_node_id: u64) -> (r: Result<(), Status>)
        ensures
            final(self).chunk_index == old(self).chunk_index,
            final(self).cluster == old(self).cluster,
            final(self).metadata_store@ == (StoreState {
                storage_nodes: old(self).metadata_store@.storage_nodes.remove(storage_node_id),
                ..old(self).metadata_store@
            }),
            match r {
                Ok(()) => old(self).metadata_store@.storage_nodes.contains_key(storage_node_id),
                Err(status) => !old(self).metadata_store@.storage_nodes.contains_key(
                    storage_node_id,
                ) && status.is(
                    Code::Internal,
                    "could not delete storage node "@ + decimal_text(storage_node_id as nat),
                ),
            },
    {
        match self.metadata_store.delete_storage_node(storage_node_id) {
            Ok(()) => Ok(()),
            Err(_) => Err(
                Status::new(
                    Code::Internal,
                    crate::text::join2(
                        "could not delete storage node ",
                        decimal(storage_node_id).as_str(),
                    ),
                ),
            ),
        }
    }

    /// All chunks with too few replicas, those with the fewest first: those of
    /// this server and those of the others, if they could be asked.
    pub fn list_under_replicated_chunks(
        &self,
        max_replicas: u32,
        peers: Option<Result<Vec<UnderReplicatedChunk>, Status>>,
    ) -> (r: Vec<UnderReplicatedChunk>)
        ensures
            exists|local: Seq<WantingChunk>| #[trigger]
                lists_wanting(local, self.metadata_store@, max_replicas) && is_sorted_by_replicas(
                    match peers {
                        Some(Ok(others)) => local + wanting_views(others@),
                        _ => local,
                    },
                    wanting_views(r@),
                ),
    {
        let mut all: Vec<UnderReplicatedChunk> = list_local_under_replicated_chunks(
            &self.metadata_store,
            max_replicas,
        );
        let ghost local = wanting_views(all@);
        if let Some(gathered) = peers {
            if let Ok(others) = gathered {
                let ghost more = wanting_views(others@);
                let mut others: Vec<UnderReplicatedChunk> = others;
                all.append(&mut others);
                assert(wanting_views(all@) =~= local + more);
            }
        }
        assert(lists_wanting(local, self.metadata_store@, max_replicas));
        sort_by_replicas(all)
    }

    /// The answer once a replica was recorded, or could not be.
    pub fn add_chunk_replica_answer(outcome: Result<(), StoreError>) -> (r: Result<(), Status>)
        ensures
            match r {
                Ok(()) => outcome is Ok,
                Err(status) => outcome matches Err(e) && passes_on(
                    e,
                    status,
                    replica_code(e.kind),
                    "failed to add chunk replica"@,
                ),
            },
    {
        match outcome {
            Ok(()) => Ok(()),
            Err(e) => Err(replica_status(e)),
        }
    }

    /// The answer once a place for a chunk was found, or could not be.
    pub fn allocate_chunk_answer(outcome: Result<(u64, u64, String), StoreError>) -> (r: Result<
        AllocateChunkResponse,
        Status,
    >)
        ensures
            match r {
                Ok(response) => outcome matches Ok((id, node, address)) && response.chunk_id == id
                    && response.storage_node_id == node && response.storage_node_address@
                    == address@,
                Err(status) => outcome matches Err(e) && status.is(Code::Unavailable, e.message@),
            },
    {
        match outcome {
            Ok((chunk_id, storage_node_id, storage_node_address)) => Ok(
                AllocateChunkResponse { chunk_id, storage_node_address, storage_node_id },
            ),
            Err(e) => Err(Status::new(Code::Unavailable, e.message)),
        }
    }

    /// The answer once a chunk was confirmed, or could not be. A chunk that was
    /// confirmed goes into the index.
    pub fn confirm_chunk_answer(
        &mut self,
        chunk_id: u64,
        object_name: String,
        outcome: Result<(), StoreError>,
    ) -> (r: Result<(), Status>)
        ensures
            final(self).metadata_store == old(self).metadata_store,
            final(self).cluster == old(self).cluster,
            match r {
                Ok(()) => outcome is Ok && final(self).chunk_index@ == old(
                    self,
                ).chunk_index@.insert(chunk_id, object_name@),
                Err(status) => outcome matches Err(e) && passes_on(
                    e,
                    status,
                    confirm_code(e.kind),
                    "failed to confirm chunk"@,
                ) && final(self).chunk_index@ == old(self).chunk_index@,
            },
    {
        match outcome {
            Ok(()) => {
                self.chunk_index.insert(chunk_id, object_name);
                Ok(())
            },
            Err(e) => Err(confirm_status(e)),
        }
    }

    /// The answer once checksum and size of an object were set, or could not
    /// be.
    pub fn update_object_checksum_answer(outcome: Result<(), StoreError>) -> (r: Result<(), Status>)
        ensures
            match r {
                Ok(()) => outcome is Ok,
                Err(status) => outcome matches Err(e) && answers_kind(
                    e,
                    status,
                    ErrorKind::NotFound,
                    Code::NotFound,
                    e.message@,
                    "failed to update object checksum"@,
                ),
            },
    {
        match outcome {
            Ok(()) => Ok(()),
            Err(e) => {
                if e.kind == ErrorKind::NotFound {
                    Err(Status::new(Code::NotFound, e.message))
                } else {
                    Err(internal("failed to update object checksum"))
                }
            },
        }
    }

    /// Forgets the storage nodes `ids`; those that are not registered are no
    /// matter. Gives the number of nodes that are left.
    pub fn remove_storage_nodes(&mut self, ids: &Vec<u64>) -> (r: usize)
        ensures
            final(self).chunk_index == old(self).chunk_index,
            final(self).cluster == old(self).cluster,
            final(self).metadata_store@ == (StoreState {
                storage_nodes: old(self).metadata_store@.storage_nodes.remove_keys(ids@.to_set()),
                ..old(self).metadata_store@
            }),
            r == final(self).metadata_store@.storage_nodes.len(),
    {
        let ghost before = self.metadata_store@;
        let mut i: usize = 0;
        assert(before.storage_nodes =~= before.storage_nodes.remove_keys(ids@.take(0).to_set()));
        while i < ids.len()
            invariant
                i <= ids@.len(),
                self.chunk_index == old(self).chunk_index,
                self.cluster == old(self).cluster,
                self.metadata_store@ == (StoreState {
                    storage_nodes: before.storage_nodes.remove_keys(ids@.take(i as int).to_set()),
                    ..before
                }),
            decreases ids@.len() - i,
        {
            let _ = self.metadata_store.delete_storage_node(ids[i]);
            proof {
                let upto = ids@.take(i as int);
                let now = ids@.take(i + 1);
                assert(now =~= upto.push(ids@[i as int]));
                assert forall|id: u64| now.to_set().contains(id) <==> upto.to_set().contains(id)
                    || id == ids@[i as int] by {
                    if upto.contains(id) {
                        let k = choose|k: int| 0 <= k < upto.len() && upto[k] == id;
                        assert(now[k] == id);
                    }
                    assert(now[i as int] == ids@[i as int]);
                }
                assert(self.metadata_store@.storage_nodes =~= before.storage_nodes.remove_keys(
                    now.to_set(),
                ));
            }
            i = i + 1;
        }
        assert(ids@.take(ids@.len() as int) =~= ids@);
        self.metadata_store.storage_node_count()
    }
}

/// What asking for an object comes to.
pub open spec fn get_object_outcome(
    s: StoreState,
    name: Seq<char>,
    r: Result<GetObjectResponse, Status>,
) -> bool {
    if !s.objects.contains_key(name) {
        r matches Err(status) && status.is(Code::NotFound, "object not found"@)
    } else {
        match all_chunks(s.objects[name].chunks, s) {
            Err(missing) => r matches Err(status) && status.is(
                Code::Internal,
                missing_text(missing),
            ),
            Ok(chunks) => r matches Ok(response) && response.checksum == s.objects[name].checksum
                && places_views(response.chunks@) == chunks,
        }
    }
}

/// What asking for a chunk comes to.
pub open spec fn get_chunk_outcome(
    s: StoreState,
    chunk_id: u64,
    r: Result<GetChunkResponse, Status>,
) -> bool {
    if !s.chunks.contains_key(chunk_id) {
        r matches Err(status) && status.is(Code::NotFound, "chunk not found"@)
    } else {
        match all_nodes(s.chunks[chunk_id].storage_nodes, s.storage_nodes) {
            Err(id) => r matches Err(status) && status.is(
                Code::Internal,
                missing_text(Missing::Node(id)),
            ),
            Ok(nodes) => r matches Ok(response) && response.object_name@
                == s.chunks[chunk_id].object_name && response.checksum
                == s.chunks[chunk_id].checksum && node_views(response.storage_nodes@) == nodes,
        }
    }
}

/// In a consistent store no object lacks a chunk, so that asking for one fails
/// only where a storage node is gone.
pub proof fn a_consistent_store_lacks_no_chunk(s: StoreState, name: Seq<char>)
    requires
        crate::store_laws::consistent(s),
        s.objects.contains_key(name),
    ensures
        all_chunks(s.objects[name].chunks, s) matches Err(missing) ==> missing is Node,
{
    no_chunk_missing(s.objects[name].chunks, s, name, s.objects[name].chunks.len() as int);
    assert(s.objects[name].chunks.take(s.objects[name].chunks.len() as int)
        =~= s.objects[name].chunks);
}

proof fn no_chunk_missing(ids: Seq<u64>, s: StoreState, name: Seq<char>, k: int)
    requires
        crate::store_laws::consistent(s),
        s.objects.contains_key(name),
        ids == s.objects[name].chunks,
        0 <= k <= ids.len(),
    ensures
        all_chunks(ids.take(k), s) matches Err(missing) ==> missing is Node,
    decreases k,
{
    if k > 0 {
        no_chunk_missing(ids, s, name, k - 1);
        assert(ids.take(k).drop_last() =~= ids.take(k - 1));
        assert(s.chunks.contains_key(s.objects[name].chunks[k - 1]));
    }
}

} // verus!
