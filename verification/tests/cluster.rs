use object_store::chunk_index::ChunkIndex;
use object_store::cluster::{endpoint, ClusterManager, PeerAddress};
use object_store::cluster_service::{MetadataClusterServiceImpl, TransferEntry};
use object_store::forwarding::{
    owner_unreachable, peer_unreachable, ForwardingLayer, Gather, GatherStage, RouteAction,
};
use object_store::hash_ring::HashRing;
use object_store::metadata_service::StorageMetadataImpl;
use object_store::metadata_store::{ChunkStatus, MetaStorageNode, MetadataStore};
use object_store::migration::{JoinMigration, JoinStage, Partition};
use object_store::status::{Code, ErrorKind, StoreError};

fn names(items: &[&str]) -> Vec<String> {
    items.iter().map(|s| s.to_string()).collect()
}

fn peers(items: &[(&str, &str)]) -> Vec<PeerAddress> {
    items
        .iter()
        .map(|(id, address)| PeerAddress {
            node_id: id.to_string(),
            address: address.to_string(),
        })
        .collect()
}

fn trio() -> ClusterManager {
    let mut cluster = ClusterManager::new("a".to_string(), 3001);
    cluster.update_membership(
        &names(&["a", "b", "c"]),
        &peers(&[("a", "a:1"), ("b", "b:1"), ("c", "c:1")]),
    );
    cluster
}

#[test]
fn a_server_starts_alone() {
    let cluster = ClusterManager::new("a".to_string(), 3001);
    assert_eq!(cluster.node_id(), "a");
    assert_eq!(cluster.grpc_addr(), "0.0.0.0:3001");
    assert!(!cluster.is_clustered());
    assert!(cluster.is_local("anything"));
    assert_eq!(cluster.get_owner_addr("anything"), None);
    assert!(cluster.get_all_peer_addrs().is_empty());
}

#[test]
fn servers_join_and_leave() {
    let mut cluster = trio();
    assert!(cluster.is_clustered());
    assert_eq!(cluster.ring().nodes(), vec!["a", "b", "c"]);
    let mut addresses = cluster.get_all_peer_addrs();
    addresses.sort();
    assert_eq!(addresses, vec!["b:1", "c:1"]);
    for i in 0..200 {
        let key = format!("key-{}", i);
        let owner = cluster.get_owner_id(&key).unwrap();
        assert_eq!(cluster.is_local(&key), owner == "a");
        let address = match owner.as_str() {
            "a" => None,
            other => Some(format!("{}:1", other)),
        };
        assert_eq!(cluster.get_owner_addr(&key), address);
    }
    cluster.update_membership(&names(&["c", "d"]), &peers(&[("c", "c:2")]));
    assert_eq!(cluster.ring().nodes(), vec!["a", "c", "d"]);
    assert_eq!(cluster.get_all_peer_addrs(), vec!["c:2"]);
    for i in 0..200 {
        let key = format!("key-{}", i);
        let owner = cluster.get_owner_id(&key).unwrap();
        let expected = if owner == "c" { Some("c:2".to_string()) } else { None };
        assert_eq!(cluster.get_owner_addr(&key), expected);
    }
}

#[test]
fn connections_are_kept_while_a_server_lives() {
    let mut cluster = trio();
    assert_eq!(cluster.find_connection("b:1"), None);
    cluster.keep_connection("b:1", 17);
    cluster.keep_connection("nowhere:1", 18);
    assert_eq!(cluster.find_connection("b:1"), Some(17));
    assert_eq!(cluster.find_connection("nowhere:1"), None);
    cluster.update_membership(&names(&["a", "c"]), &peers(&[("b", "b:1")]));
    assert_eq!(cluster.find_connection("b:1"), None);
}

#[test]
fn endpoints_have_a_scheme() {
    assert_eq!(endpoint("b:1"), "http://b:1");
    assert_eq!(endpoint("http://b:1"), "http://b:1");
    assert_eq!(endpoint("https://b:1"), "https://b:1");
}

#[test]
fn requests_go_to_the_owner() {
    let cluster = trio();
    let mut index = ChunkIndex::new();
    let key = (0..).map(|i| format!("k{}", i)).find(|k| !cluster.is_local(k)).unwrap();
    index.insert(5, key.clone());
    let layer = ForwardingLayer::new(&cluster, &index);
    let owner = cluster.get_owner_addr(&key).unwrap();
    assert!(matches!(layer.route_by_object(&key), RouteAction::Forward(a) if a == owner));
    assert!(matches!(layer.route_by_chunk(5), Ok(RouteAction::Forward(a)) if a == owner));
    let refused = layer.route_by_chunk(6).unwrap_err();
    assert_eq!(refused.code(), Code::NotFound);
    assert_eq!(refused.message, "chunk 6 not found in index");

    let mut service = StorageMetadataImpl::construct_standalone(None);
    assert!(matches!(service.route_by_object(&key), RouteAction::Local));
    assert!(matches!(service.route_by_chunk(6), Ok(RouteAction::Local)));
    service.chunk_index.insert(5, key.clone());
    service.set_forwarding_layer(cluster);
    assert!(matches!(service.route_by_object(&key), RouteAction::Forward(a) if a == owner));
    assert!(matches!(service.chunk_route(5), RouteAction::Forward(a) if a == owner));
    assert!(matches!(service.chunk_route(6), RouteAction::Local));
    assert!(service.route_by_chunk(6).is_err());
    assert!(matches!(service.allocate_route(""), RouteAction::Local));
    assert!(matches!(service.allocate_route(&key), RouteAction::Forward(a) if a == owner));
}

#[test]
fn what_others_have_is_gathered() {
    let mut gather: Gather<u32> = Gather::start(names(&["x", "y", "z"]));
    assert_eq!(gather.address(), "x");
    gather.on_connected();
    gather.on_items(vec![1, 2]);
    gather.on_connected();
    gather.on_failed("no answer");
    assert_eq!(gather.address(), "z");
    gather.on_connected();
    gather.on_items(vec![3]);
    assert_eq!(gather.stage(), GatherStage::Done);
    assert_eq!(gather.into_items().unwrap(), vec![1, 2, 3]);

    let mut gather: Gather<u32> = Gather::start(names(&["x", "y"]));
    gather.on_connected();
    gather.on_items(vec![1]);
    gather.on_failed("refused");
    assert_eq!(gather.stage(), GatherStage::Failed);
    let status = gather.into_items().unwrap_err();
    assert_eq!(status.code, Code::Unavailable);
    assert_eq!(status.message, "failed to connect to peer y: refused");
    let gather: Gather<u32> = Gather::start(Vec::new());
    assert!(gather.into_items().unwrap().is_empty());
}

fn store_with_objects(count: u32) -> MetadataStore {
    let mut store = MetadataStore::new("metadata.dat", None);
    store.storage_nodes.insert(1, MetaStorageNode { id: 1, address: "n:1".to_string() });
    for i in 0..count {
        let name = format!("object-{}", i);
        store.put_object(i, name.clone()).unwrap();
        store.confirm_chunk(100 + i as u64, name.clone(), i + 7, 1).unwrap();
        store.update_object_checksum(&name, i, 55).unwrap();
    }
    store
}

#[test]
fn a_partition_moves_to_its_new_owner() {
    let old = store_with_objects(40);
    let mut ring = HashRing::new();
    ring.add_node("old");
    ring.add_node("new");
    let ranges = ring.get_owned_ranges("new");
    let entries = MetadataClusterServiceImpl::transfer_partition(&old, &ranges);
    let owned = (0..40).filter(|i| ring.get_owner(&format!("object-{}", i)) == Some("new"));
    let owned: Vec<u32> = owned.collect();
    assert_eq!(entries.len(), 2 * owned.len());
    for pair in entries.chunks(2) {
        let TransferEntry::Object { name, chunk_ids, .. } = &pair[0] else {
            panic!("an object comes first");
        };
        let TransferEntry::Chunk { id, object_name, storage_node_ids, .. } = &pair[1] else {
            panic!("its chunk follows");
        };
        assert_eq!((object_name, vec![*id]), (name, chunk_ids.clone()));
        assert_eq!(storage_node_ids, &vec![1]);
    }

    let mut received: Vec<Option<TransferEntry>> = entries.into_iter().map(Some).collect();
    received.insert(1, None);
    let partition = Partition::collect(received);
    assert!(!partition.is_empty());
    let mut service = StorageMetadataImpl::construct_standalone(None);
    service.metadata_store.ingest_partition(partition.objects, partition.chunks);
    MetadataClusterServiceImpl::broadcast_chunk_index(
        &mut service.chunk_index,
        partition.index_entries,
    );
    assert_eq!(service.metadata_store.objects.len(), owned.len());
    for i in owned {
        let name = format!("object-{}", i);
        let object = service.metadata_store.get_object(name.clone()).unwrap();
        assert_eq!((object.checksum, object.total_size), (i, 0));
        assert_eq!(object.chunks, vec![100 + i as u64]);
        let (_, chunk) = service.metadata_store.get_chunk(100 + i as u64).unwrap();
        assert_eq!((chunk.checksum, chunk.status), (i + 7, ChunkStatus::Confirmed));
        assert_eq!(service.chunk_index.get(100 + i as u64), Some(name));
    }
    assert!(Partition::collect(vec![None]).is_empty());
}

#[test]
fn owners_answer_for_their_part() {
    let mut store = store_with_objects(1);
    let answer = MetadataClusterServiceImpl::forward_get_object(&store, "object-0".to_string());
    let answer = answer.unwrap();
    assert_eq!(answer.chunks[0].storage_nodes[0].address, "n:1");
    let chunk = MetadataClusterServiceImpl::forward_get_chunk(&store, 100).unwrap();
    assert_eq!((chunk.object_name.as_str(), chunk.checksum), ("object-0", 7));

    // Storage nodes that are gone are left out
    store.delete_storage_node(1).unwrap();
    let answer = MetadataClusterServiceImpl::forward_get_object(&store, "object-0".to_string());
    assert!(answer.unwrap().chunks[0].storage_nodes.is_empty());
    let chunk = MetadataClusterServiceImpl::forward_get_chunk(&store, 100).unwrap();
    assert!(chunk.storage_nodes.is_empty());
    store.chunks.remove(&100);
    let refused = MetadataClusterServiceImpl::forward_get_object(&store, "object-0".to_string());
    let refused = refused.unwrap_err();
    assert_eq!((refused.code, refused.message.as_str()),
        (Code::Internal, "chunk 100 referenced but not found"));
    let refused = MetadataClusterServiceImpl::forward_get_chunk(&store, 100).unwrap_err();
    assert_eq!(refused.message, "chunk not found");
    let refused = MetadataClusterServiceImpl::forward_get_object(&store, "x".to_string());
    assert_eq!(refused.unwrap_err().code, Code::NotFound);

    let e = || StoreError::new(ErrorKind::Other, "why".to_string());
    let status = MetadataClusterServiceImpl::forward_put_object_answer(Err(e())).unwrap_err();
    assert_eq!(status.message, "put_object failed: why");
    let mut index = ChunkIndex::new();
    let status =
        MetadataClusterServiceImpl::forward_put_chunk_answer(&mut index, "o".to_string(), Err(e()))
            .unwrap_err();
    assert_eq!(status.message, "put_chunk failed: why");
    assert_eq!(index.len(), 0);
    MetadataClusterServiceImpl::forward_put_chunk_answer(
        &mut index,
        "o".to_string(),
        Ok((4, "n:1".to_string())),
    )
    .unwrap();
    assert_eq!(index.get(4), Some("o".to_string()));
    let status =
        MetadataClusterServiceImpl::broadcast_put_storage_node_answer(Err(e())).unwrap_err();
    assert_eq!(status.message, "put_storage_node failed: why");
    let status =
        MetadataClusterServiceImpl::broadcast_delete_storage_node_answer(Err(e())).unwrap_err();
    assert_eq!(status.message, "delete_storage_node failed: why");
}

#[test]
fn a_joining_server_waits_and_pulls() {
    let mut join = JoinMigration::start();
    let mut waits = 0;
    while join.stage() != JoinStage::Finished {
        match join.stage() {
            JoinStage::CheckPeers => join.on_checked(false),
            JoinStage::WaitForPeers => {
                waits += 1;
                join.on_waited();
            }
            other => panic!("{:?}", other),
        }
    }
    assert_eq!(waits, 30);

    let mut join = JoinMigration::start();
    join.on_checked(true);
    assert_eq!(join.stage(), JoinStage::Settle);
    join.on_settled(vec![(1, 2)], names(&["x", "y"]));
    assert_eq!((join.peer(), join.ranges()), ("x", &vec![(1, 2)]));
    join.on_pulled();
    assert_eq!(join.peer(), "y");
    join.on_pulled();
    assert_eq!(join.stage(), JoinStage::TellIndex);
    join.on_told();
    assert_eq!(join.stage(), JoinStage::Finished);

    let mut join = JoinMigration::start();
    join.on_checked(true);
    join.on_settled(Vec::new(), names(&["x"]));
    assert_eq!(join.stage(), JoinStage::Finished);
    let mut join = JoinMigration::start();
    join.on_checked(true);
    join.on_settled(vec![(1, 2)], Vec::new());
    assert_eq!(join.stage(), JoinStage::TellIndex);
}

#[test]
fn an_owner_that_cannot_be_reached_is_unavailable() {
    let status = owner_unreachable("refused");
    assert_eq!(status.code, Code::Unavailable);
    assert_eq!(status.message, "failed to connect to peer: refused");
    let status = peer_unreachable("10.0.0.1:1", "refused");
    assert_eq!(status.code, Code::Unavailable);
    assert_eq!(status.message, "failed to connect to peer 10.0.0.1:1: refused");
}
