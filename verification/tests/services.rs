use object_store::metadata_service::{
    health_check_delay, next_health_check_delay, rpc_labels, sort_by_replicas, unhealthy_nodes,
    Health, StorageMetadataImpl,
};
use object_store::metadata_store::MetaStorageNode;
use object_store::node_service::StorageNodeImpl;
use object_store::replication::UnderReplicatedChunk;
use object_store::status::{Code, ErrorKind, Status, StoreError};

fn error(kind: ErrorKind) -> StoreError {
    StoreError::new(kind, "the reason".to_string())
}

fn told(status: Status) -> (Code, String) {
    (status.code(), status.message)
}

fn said(code: Code, message: &str) -> (Code, String) {
    (code, message.to_string())
}

fn service() -> StorageMetadataImpl {
    let mut service = StorageMetadataImpl::construct("data", "meta-1", None);
    for id in 1..4 {
        let node = MetaStorageNode { id, address: format!("n{}:1", id) };
        service.metadata_store.storage_nodes.insert(id, node);
    }
    service.metadata_store.put_object(9, "o".to_string()).unwrap();
    service.metadata_store.confirm_chunk(10, "o".to_string(), 5, 1).unwrap();
    service.metadata_store.add_chunk_replica(10, 2).unwrap();
    service.metadata_store.confirm_chunk(11, "o".to_string(), 6, 3).unwrap();
    service
}

#[test]
fn objects_are_told_with_all_places() {
    let mut service = service();
    assert_eq!(service.metadata_store.path(), "data/metadata-meta-1.dat");
    let answer = service.get_object("o".to_string()).unwrap();
    assert_eq!(answer.checksum, 9);
    let places: Vec<(u64, Vec<&str>)> = answer
        .chunks
        .iter()
        .map(|c| (c.id, c.storage_nodes.iter().map(|n| n.address.as_str()).collect()))
        .collect();
    assert_eq!(places, vec![(10, vec!["n1:1", "n2:1"]), (11, vec!["n3:1"])]);
    let answer = service.get_chunk(10).unwrap();
    assert_eq!((answer.object_name.as_str(), answer.checksum), ("o", 5));
    assert_eq!(answer.storage_nodes.len(), 2);

    service.delete_storage_node(2).unwrap();
    let gone = "storage node 2 referenced by chunk but not found";
    let refused = service.get_object("o".to_string()).unwrap_err();
    assert_eq!(told(refused), said(Code::Internal, gone));
    assert_eq!(told(service.get_chunk(10).unwrap_err()), said(Code::Internal, gone));
    assert_eq!(service.list_objects(None)[0].chunks[0].storage_nodes.len(), 1);

    service.metadata_store.chunks.remove(&10);
    let refused = service.get_object("o".to_string()).unwrap_err();
    assert_eq!(
        told(refused),
        said(Code::Internal, "chunk 10 referenced by object but not found")
    );
    assert_eq!(service.list_objects(None)[0].chunks.len(), 1);
    let refused = service.get_object("p".to_string()).unwrap_err();
    assert_eq!(told(refused), said(Code::NotFound, "object not found"));
    let refused = service.get_chunk(10).unwrap_err();
    assert_eq!(told(refused), said(Code::NotFound, "chunk not found"));
}

#[test]
fn peers_add_to_listings() {
    let service = service();
    let more = service.list_objects(None);
    assert_eq!(service.list_objects(Some(Ok(more))).len(), 2);
    let down = || Status::new(Code::Unavailable, "down".to_string());
    assert_eq!(service.list_objects(Some(Err(down()))).len(), 1);

    let peer = |id, count| UnderReplicatedChunk {
        chunk_id: id,
        checksum: 0,
        current_storage_node_ids: (0..count).collect(),
    };
    let ids = |chunks: Vec<UnderReplicatedChunk>| -> Vec<u64> {
        chunks.iter().map(|c| c.chunk_id).collect()
    };
    let peers = vec![peer(20, 1), peer(21, 0), peer(22, 2)];
    let all = service.list_under_replicated_chunks(0, Some(Ok(peers)));
    assert_eq!(ids(all), vec![21, 11, 20, 10, 22]);
    assert_eq!(ids(service.list_under_replicated_chunks(2, None)), vec![11]);
    assert_eq!(ids(service.list_under_replicated_chunks(0, Some(Err(down())))), vec![11, 10]);
    let sorted = sort_by_replicas(vec![peer(1, 2), peer(2, 1), peer(3, 2), peer(4, 1)]);
    assert_eq!(ids(sorted), vec![2, 4, 1, 3]);
}

#[test]
fn errors_become_statuses() {
    type S = StorageMetadataImpl;
    let status = S::put_object_answer("o", Err(error(ErrorKind::AlreadyExists))).unwrap_err();
    assert_eq!(told(status), said(Code::AlreadyExists, "object name o already exists"));
    let status = S::put_object_answer("o", Err(error(ErrorKind::Other))).unwrap_err();
    assert_eq!(told(status), said(Code::Internal, "failed to store object"));
    assert!(S::put_object_answer("o", Ok(())).is_ok());

    let status = S::put_storage_node_answer(Err(error(ErrorKind::InvalidInput))).unwrap_err();
    assert_eq!(told(status), said(Code::InvalidArgument, "invalid address"));
    let status = S::put_storage_node_answer(Err(error(ErrorKind::Other))).unwrap_err();
    assert_eq!(told(status), said(Code::Internal, "failed to put storage node"));
    assert_eq!(S::put_storage_node_answer(Ok(4)).unwrap(), 4);

    let replica = |kind| told(S::add_chunk_replica_answer(Err(error(kind))).unwrap_err());
    assert_eq!(replica(ErrorKind::NotFound), said(Code::NotFound, "the reason"));
    assert_eq!(replica(ErrorKind::AlreadyExists), said(Code::AlreadyExists, "the reason"));
    assert_eq!(replica(ErrorKind::InvalidInput), said(Code::FailedPrecondition, "the reason"));
    assert_eq!(replica(ErrorKind::Other), said(Code::Internal, "failed to add chunk replica"));

    let status = S::allocate_chunk_answer(Err(error(ErrorKind::HostUnreachable))).unwrap_err();
    assert_eq!(told(status), said(Code::Unavailable, "the reason"));

    let update = |kind| told(S::update_object_checksum_answer(Err(error(kind))).unwrap_err());
    assert_eq!(update(ErrorKind::NotFound), said(Code::NotFound, "the reason"));
    assert_eq!(update(ErrorKind::Other), said(Code::Internal, "failed to update object checksum"));

    let mut service = service();
    let status = service
        .put_chunk_answer("o".to_string(), Err(error(ErrorKind::AlreadyExists)))
        .unwrap_err();
    assert_eq!(told(status), said(Code::AlreadyExists, "chunk id already exists"));
    let status = service
        .put_chunk_answer("o".to_string(), Err(error(ErrorKind::HostUnreachable)))
        .unwrap_err();
    assert_eq!(told(status), said(Code::Internal, "failed to store chunk"));
    let mut confirm = |kind| {
        told(service.confirm_chunk_answer(1, "o".to_string(), Err(error(kind))).unwrap_err())
    };
    assert_eq!(confirm(ErrorKind::NotFound), said(Code::NotFound, "the reason"));
    assert_eq!(confirm(ErrorKind::AlreadyExists), said(Code::AlreadyExists, "the reason"));
    assert_eq!(confirm(ErrorKind::InvalidInput), said(Code::Internal, "failed to confirm chunk"));
    let mut delete = |kind| {
        told(service.delete_object_answer(&vec![], Err(error(kind))).unwrap_err())
    };
    assert_eq!(delete(ErrorKind::NotFound), said(Code::NotFound, "object not found"));
    assert_eq!(delete(ErrorKind::Other), said(Code::Internal, "failed to delete object"));
    let mut delete = |kind| told(service.delete_chunk_answer(1, Err(error(kind))).unwrap_err());
    assert_eq!(delete(ErrorKind::NotFound), said(Code::NotFound, "chunk not found"));
    assert_eq!(delete(ErrorKind::Other), said(Code::Internal, "failed to delete chunk"));
    assert_eq!(
        told(service.get_storage_node(77).unwrap_err()),
        said(Code::NotFound, "could not find storage_node_id 77")
    );
    assert_eq!(
        told(service.delete_storage_node(77).unwrap_err()),
        said(Code::Internal, "could not delete storage node 77")
    );
    assert_eq!(service.get_storage_node(3).unwrap(), "n3:1");
}

#[test]
fn the_index_follows_the_store() {
    let mut service = service();
    service.populate_chunk_index();
    assert_eq!(service.chunk_index.get(11), Some("o".to_string()));
    service.put_chunk_answer("p".to_string(), Ok((30, "n1:1".to_string()))).unwrap();
    service.confirm_chunk_answer(31, "p".to_string(), Ok(())).unwrap();
    assert_eq!(service.chunk_index.len(), 4);
    service.delete_chunk_answer(30, Ok(())).unwrap();
    let ids = service.chunk_ids_of("o");
    assert_eq!(ids, vec![10, 11]);
    service.delete_object_answer(&ids, Ok(())).unwrap();
    assert_eq!(service.chunk_index.entries(), vec![(31, "p".to_string())]);
}

#[test]
fn unhealthy_nodes_are_forgotten() {
    let reports = vec![
        (1, Health::Answered(true)),
        (2, Health::Failed),
        (3, Health::Answered(false)),
        (4, Health::NotAsked),
    ];
    let ids = unhealthy_nodes(&reports);
    assert_eq!(ids, vec![2, 3]);
    let mut service = service();
    assert_eq!(service.remove_storage_nodes(&ids), 1);
    assert!(service.get_storage_node(1).is_ok());
    assert!(service.get_storage_node(2).is_err());
    assert_eq!(health_check_delay(12_345), 22_345);
    assert_eq!(health_check_delay(u64::MAX), 20_000 + u64::MAX % 5_000);
    for _ in 0..50 {
        let delay = next_health_check_delay();
        assert!((20_000..25_000).contains(&delay));
    }
}

#[test]
fn storage_nodes_answer() {
    let write = |kind| told(StorageNodeImpl::write_chunk_answer(Err(error(kind))).unwrap_err());
    assert_eq!(
        write(ErrorKind::AlreadyExists),
        said(Code::AlreadyExists, "chunk id already exists")
    );
    assert_eq!(
        write(ErrorKind::StorageFull),
        said(Code::ResourceExhausted, "chunk store is full")
    );
    assert_eq!(write(ErrorKind::InvalidData), said(Code::Internal, "failed to write chunk"));
    let read = |kind| told(StorageNodeImpl::read_chunk_answer(Err(error(kind))).unwrap_err());
    assert_eq!(read(ErrorKind::NotFound), said(Code::NotFound, "chunk not found"));
    assert_eq!(read(ErrorKind::InvalidData), said(Code::Internal, "failed to read chunk"));
    let found = StorageNodeImpl::read_chunk_answer(Ok((vec![1, 2], 3))).unwrap();
    assert_eq!(found, (vec![1, 2], 3));
    let status = StorageNodeImpl::delete_chunk_answer(Err(error(ErrorKind::Other))).unwrap_err();
    assert_eq!(told(status), said(Code::Internal, "failed to delete chunk"));
    let labels = rpc_labels("get_object", false);
    assert_eq!((labels.method.as_str(), labels.status.as_str()), ("get_object", "error"));
    assert_eq!(rpc_labels("get_object", true).status, "ok");
}
