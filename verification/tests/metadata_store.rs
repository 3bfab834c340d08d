use object_store::hash_ring::HashRing;
use object_store::metadata_store::{
    ChunkStatus, MetaChunk, MetaObject, MetaStorageNode, MetadataStore,
};
use object_store::status::ErrorKind;

fn create_test_store() -> (MetadataStore, ()) {
    (MetadataStore::new("metadata.dat", None), ())
}

fn add_storage_node(store: &mut MetadataStore, id: u64, port: u16) {
    store.storage_nodes.insert(
        id,
        MetaStorageNode {
            id,
            address: format!("127.0.0.1:{}", port),
        },
    );
}

// ===================
// Storage Node Tests
// ===================

#[test]
fn test_storage_node_address_validation() {
    // Valid URI formats (http::Uri is permissive)
    assert!(MetaStorageNode::new(0, "http://10.10.10.10".to_string()).is_ok());
    assert!(MetaStorageNode::new(0, "http://10.10.10.10:80".to_string()).is_ok());
    assert!(MetaStorageNode::new(0, "127.0.0.1:8080".to_string()).is_ok());
    assert!(MetaStorageNode::new(0, "localhost:3000".to_string()).is_ok());
    assert!(MetaStorageNode::new(0, "10.10.10.10".to_string()).is_ok());

    // Empty string is invalid
    assert!(MetaStorageNode::new(0, "".to_string()).is_err());
}

#[test]
fn test_construct_storage_node_generates_unique_ids() {
    let (mut store, _file) = create_test_store();

    let id1 = store.construct_storage_node("127.0.0.1:8080".to_string()).unwrap();
    let id2 = store.construct_storage_node("127.0.0.1:8081".to_string()).unwrap();
    let id3 = store.construct_storage_node("127.0.0.1:8082".to_string()).unwrap();

    assert_ne!(id1, id2);
    assert_ne!(id2, id3);
    assert_ne!(id1, id3);
    assert_eq!(store.storage_nodes.len(), 3);
}

#[test]
fn test_construct_storage_node_rejects_invalid_address() {
    let (mut store, _file) = create_test_store();

    // Empty string is an invalid URI
    let result = store.construct_storage_node("".to_string());
    assert!(result.is_err());
    assert_eq!(result.unwrap_err().kind(), ErrorKind::InvalidInput);
}

#[test]
fn test_get_storage_node_returns_address() {
    let (mut store, _file) = create_test_store();
    add_storage_node(&mut store, 42, 3000);

    let address = store.get_storage_node(42).unwrap();
    assert_eq!(address, "127.0.0.1:3000");
}

#[test]
fn test_get_storage_node_not_found() {
    let (store, _file) = create_test_store();

    let result = store.get_storage_node(99999);
    assert!(result.is_err());
    assert_eq!(result.unwrap_err().kind(), ErrorKind::NotFound);
}

#[test]
fn test_delete_storage_node() {
    let (mut store, _file) = create_test_store();
    add_storage_node(&mut store, 42, 3000);

    store.delete_storage_node(42).unwrap();
    assert!(store.get_storage_node(42).is_err());
}

#[test]
fn test_delete_storage_node_not_found() {
    let (mut store, _file) = create_test_store();

    let result = store.delete_storage_node(99999);
    assert!(result.is_err());
    assert_eq!(result.unwrap_err().kind(), ErrorKind::NotFound);
}

#[test]
fn test_list_storage_nodes() {
    let (mut store, _file) = create_test_store();
    add_storage_node(&mut store, 1, 3000);
    add_storage_node(&mut store, 2, 3001);

    let nodes = store.list_storage_nodes();
    assert_eq!(nodes.len(), 2);

    let ids: Vec<u64> = nodes.iter().map(|n| n.id).collect();
    assert!(ids.contains(&1));
    assert!(ids.contains(&2));
}

// ===================
// Object Tests
// ===================

#[test]
fn test_put_and_get_object() {
    let (mut store, _file) = create_test_store();

    store.put_object(12345, "myobject".to_string()).unwrap();

    let object = store.get_object("myobject".to_string()).unwrap();
    assert_eq!(object.name, "myobject");
    assert_eq!(object.checksum, 12345);
    assert!(object.chunks.is_empty());
}

#[test]
fn test_put_object_duplicate_name_fails() {
    let (mut store, _file) = create_test_store();

    store.put_object(12345, "myobject".to_string()).unwrap();
    let result = store.put_object(67890, "myobject".to_string());

    assert!(result.is_err());
    assert_eq!(result.unwrap_err().kind(), ErrorKind::AlreadyExists);
}

#[test]
fn metadata_store_test_get_object_not_found() {
    let (store, _file) = create_test_store();

    let result = store.get_object("nonexistent".to_string());
    assert!(result.is_err());
    assert_eq!(result.unwrap_err().kind(), ErrorKind::NotFound);
}

#[test]
fn test_delete_object() {
    let (mut store, _file) = create_test_store();

    store.put_object(12345, "myobject".to_string()).unwrap();
    store.delete_object("myobject".to_string()).unwrap();

    assert!(store.get_object("myobject".to_string()).is_err());
}

#[test]
fn metadata_store_test_delete_object_not_found() {
    let (mut store, _file) = create_test_store();

    let result = store.delete_object("nonexistent".to_string());
    assert!(result.is_err());
    assert_eq!(result.unwrap_err().kind(), ErrorKind::NotFound);
}

#[test]
fn test_delete_object_also_removes_chunks() {
    let (mut store, _file) = create_test_store();
    add_storage_node(&mut store, 1, 3000);

    store.put_object(12345, "myobject".to_string()).unwrap();
    let (chunk_id, _) = store.put_chunk("myobject".to_string(), 111).unwrap();

    // Verify chunk exists
    assert!(store.get_chunk(chunk_id).is_ok());

    // Delete object
    store.delete_object("myobject".to_string()).unwrap();

    // Chunk should be removed from chunks index
    assert!(store.get_chunk(chunk_id).is_err());
}

#[test]
fn test_list_objects() {
    let (mut store, _file) = create_test_store();

    store.put_object(111, "obj1".to_string()).unwrap();
    store.put_object(222, "obj2".to_string()).unwrap();
    store.put_object(333, "obj3".to_string()).unwrap();

    let objects = store.list_objects();
    assert_eq!(objects.len(), 3);

    let names: Vec<&str> = objects.iter().map(|o| o.name.as_str()).collect();
    assert!(names.contains(&"obj1"));
    assert!(names.contains(&"obj2"));
    assert!(names.contains(&"obj3"));
}

#[test]
fn metadata_store_test_list_objects_empty() {
    let (store, _file) = create_test_store();

    let objects = store.list_objects();
    assert!(objects.is_empty());
}

// ===================
// Chunk Tests - put_chunk (legacy)
// ===================

#[test]
fn test_put_chunk_assigns_storage_node() {
    let (mut store, _file) = create_test_store();
    add_storage_node(&mut store, 1, 3000);

    store.put_object(12345, "myobject".to_string()).unwrap();
    let (chunk_id, address) = store.put_chunk("myobject".to_string(), 67890).unwrap();

    assert_eq!(address, "127.0.0.1:3000");

    let (_, chunk) = store.get_chunk(chunk_id).unwrap();
    assert_eq!(chunk.checksum, 67890);
    assert_eq!(chunk.storage_nodes, vec![1]);
}

#[test]
fn test_put_chunk_adds_to_object() {
    let (mut store, _file) = create_test_store();
    add_storage_node(&mut store, 1, 3000);

    store.put_object(12345, "myobject".to_string()).unwrap();
    let (chunk_id, _) = store.put_chunk("myobject".to_string(), 111).unwrap();

    let object = store.get_object("myobject".to_string()).unwrap();
    assert_eq!(object.chunks, vec![chunk_id]);
}

#[test]
fn test_put_chunk_no_storage_nodes_fails() {
    let (mut store, _file) = create_test_store();

    store.put_object(12345, "myobject".to_string()).unwrap();
    let result = store.put_chunk("myobject".to_string(), 67890);

    assert!(result.is_err());
    assert_eq!(result.unwrap_err().kind(), ErrorKind::HostUnreachable);
}

#[test]
fn test_put_chunk_object_not_found_fails() {
    let (mut store, _file) = create_test_store();
    add_storage_node(&mut store, 1, 3000);

    let result = store.put_chunk("nonexistent".to_string(), 67890);
    assert!(result.is_err());
    assert_eq!(result.unwrap_err().kind(), ErrorKind::NotFound);
}

// ===================
// Chunk Tests - allocate/confirm (two-phase)
// ===================

#[test]
fn test_allocate_chunk_returns_node_info() {
    let (mut store, _file) = create_test_store();
    add_storage_node(&mut store, 42, 3000);

    let (chunk_id, node_id, address) = store.allocate_chunk("myobject").unwrap();

    assert!(chunk_id > 0 || chunk_id == 0); // Just verify it returns something
    assert_eq!(node_id, 42);
    assert_eq!(address, "127.0.0.1:3000");
}

#[test]
fn test_allocate_chunk_no_storage_nodes_fails() {
    let (mut store, _file) = create_test_store();

    let result = store.allocate_chunk("myobject");
    assert!(result.is_err());
    assert_eq!(result.unwrap_err().kind(), ErrorKind::HostUnreachable);
}

#[test]
fn test_allocate_chunk_reserves_id_as_pending() {
    let (mut store, _file) = create_test_store();
    add_storage_node(&mut store, 1, 3000);

    let (chunk_id, _, _) = store.allocate_chunk("myobject").unwrap();

    // Chunk should be in the store as a pending placeholder
    assert!(!store.chunks.is_empty());
    let chunk = store.chunks.get(&chunk_id).unwrap();
    assert_eq!(chunk.status, ChunkStatus::Pending);
}

#[test]
fn test_confirm_chunk_persists_metadata() {
    let (mut store, _file) = create_test_store();
    add_storage_node(&mut store, 1, 3000);
    store.put_object(12345, "myobject".to_string()).unwrap();

    let (chunk_id, node_id, _) = store.allocate_chunk("myobject").unwrap();

    store.confirm_chunk(chunk_id, "myobject".to_string(), 67890, node_id).unwrap();

    // Chunk should now exist
    let (obj_name, chunk) = store.get_chunk(chunk_id).unwrap();
    assert_eq!(obj_name, "myobject");
    assert_eq!(chunk.checksum, 67890);
    assert_eq!(chunk.storage_nodes, vec![node_id]);

    // Object should reference the chunk
    let object = store.get_object("myobject".to_string()).unwrap();
    assert!(object.chunks.contains(&chunk_id));
}

#[test]
fn test_confirm_chunk_storage_node_not_found_fails() {
    let (mut store, _file) = create_test_store();
    add_storage_node(&mut store, 1, 3000);
    store.put_object(12345, "myobject".to_string()).unwrap();

    let result = store.confirm_chunk(100, "myobject".to_string(), 67890, 99999);

    assert!(result.is_err());
    assert_eq!(result.unwrap_err().kind(), ErrorKind::NotFound);
}

#[test]
fn test_confirm_chunk_duplicate_chunk_id_fails() {
    let (mut store, _file) = create_test_store();
    add_storage_node(&mut store, 1, 3000);
    store.put_object(12345, "myobject".to_string()).unwrap();

    let (chunk_id, node_id, _) = store.allocate_chunk("myobject").unwrap();
    store.confirm_chunk(chunk_id, "myobject".to_string(), 111, node_id).unwrap();

    // Try to confirm same chunk_id again
    let result = store.confirm_chunk(chunk_id, "myobject".to_string(), 222, node_id);

    assert!(result.is_err());
    assert_eq!(result.unwrap_err().kind(), ErrorKind::AlreadyExists);
}

#[test]
fn test_confirm_chunk_object_not_found_fails() {
    let (mut store, _file) = create_test_store();
    add_storage_node(&mut store, 1, 3000);

    let (chunk_id, node_id, _) = store.allocate_chunk("myobject").unwrap();
    let result = store.confirm_chunk(chunk_id, "nonexistent".to_string(), 67890, node_id);

    assert!(result.is_err());
    assert_eq!(result.unwrap_err().kind(), ErrorKind::NotFound);
}

#[test]
fn test_full_allocate_confirm_flow_multiple_chunks() {
    let (mut store, _file) = create_test_store();
    add_storage_node(&mut store, 1, 3000);
    add_storage_node(&mut store, 2, 3001);
    store.put_object(12345, "myobject".to_string()).unwrap();

    // Simulate uploading 3 chunks
    let mut chunk_ids = Vec::new();
    for i in 0..3 {
        let (chunk_id, node_id, _) = store.allocate_chunk("myobject").unwrap();
        store.confirm_chunk(chunk_id, "myobject".to_string(), 100 + i, node_id).unwrap();
        chunk_ids.push(chunk_id);
    }

    // Verify all chunks are attached to object
    let object = store.get_object("myobject".to_string()).unwrap();
    assert_eq!(object.chunks.len(), 3);
    for id in &chunk_ids {
        assert!(object.chunks.contains(id));
    }
}

// ===================
// Chunk Tests - get/delete
// ===================

#[test]
fn test_get_chunk_returns_object_name_and_metadata() {
    let (mut store, _file) = create_test_store();
    add_storage_node(&mut store, 1, 3000);
    store.put_object(12345, "myobject".to_string()).unwrap();

    let (chunk_id, _) = store.put_chunk("myobject".to_string(), 67890).unwrap();

    let (obj_name, chunk) = store.get_chunk(chunk_id).unwrap();
    assert_eq!(obj_name, "myobject");
    assert_eq!(chunk.id, chunk_id);
    assert_eq!(chunk.checksum, 67890);
    assert_eq!(chunk.object_name, "myobject");
}

#[test]
fn test_get_chunk_not_found() {
    let (store, _file) = create_test_store();

    let result = store.get_chunk(99999);
    assert!(result.is_err());
    assert_eq!(result.unwrap_err().kind(), ErrorKind::NotFound);
}

#[test]
fn test_delete_chunk_removes_from_object() {
    let (mut store, _file) = create_test_store();
    add_storage_node(&mut store, 1, 3000);
    store.put_object(12345, "myobject".to_string()).unwrap();

    let (chunk_id, _) = store.put_chunk("myobject".to_string(), 67890).unwrap();

    // Verify chunk in object
    let object = store.get_object("myobject".to_string()).unwrap();
    assert_eq!(object.chunks, vec![chunk_id]);

    // Delete chunk
    store.delete_chunk(chunk_id).unwrap();

    // Verify chunk is gone from index and object
    assert!(store.get_chunk(chunk_id).is_err());
    let object = store.get_object("myobject".to_string()).unwrap();
    assert!(object.chunks.is_empty());
}

#[test]
fn test_delete_chunk_not_found() {
    let (mut store, _file) = create_test_store();

    let result = store.delete_chunk(99999);
    assert!(result.is_err());
    assert_eq!(result.unwrap_err().kind(), ErrorKind::NotFound);
}

// ===================
// Replication Tests
// ===================

#[test]
fn test_list_under_replicated_chunks_sorted_by_replica_count() {
    let (mut store, _file) = create_test_store();
    add_storage_node(&mut store, 1, 3000);
    add_storage_node(&mut store, 2, 3001);
    add_storage_node(&mut store, 3, 3002);

    store.put_object(12345, "myobject".to_string()).unwrap();

    // Create 3 chunks with 1, 2, and 1 replicas respectively
    let (_chunk1_id, _) = store.put_chunk("myobject".to_string(), 111).unwrap();
    let (chunk2_id, _) = store.put_chunk("myobject".to_string(), 222).unwrap();
    let (_chunk3_id, _) = store.put_chunk("myobject".to_string(), 333).unwrap();

    // Add extra replica to chunk2 (using a different node)
    let (_, chunk2) = store.get_chunk(chunk2_id).unwrap();
    let chunk2_node = chunk2.storage_nodes[0];
    let other_node = if chunk2_node == 1 { 2 } else { 1 };
    store.add_chunk_replica(chunk2_id, other_node).unwrap();

    // Under-replicated with max=3 should return all 3
    let under_rep = store.list_under_replicated_chunks(3);
    assert_eq!(under_rep.len(), 3);
    // Should be sorted: 1-replica chunks first, then 2-replica
    assert!(under_rep[0].storage_nodes.len() <= under_rep[2].storage_nodes.len());

    // Under-replicated with max=2 should return only 1-replica chunks
    let under_rep = store.list_under_replicated_chunks(2);
    assert_eq!(under_rep.len(), 2);
    for chunk in under_rep {
        assert_eq!(chunk.storage_nodes.len(), 1);
    }

    // Under-replicated with max=1 should return none
    let under_rep = store.list_under_replicated_chunks(1);
    assert!(under_rep.is_empty());
}

#[test]
fn test_add_chunk_replica_success() {
    let (mut store, _file) = create_test_store();
    add_storage_node(&mut store, 1, 3000);
    add_storage_node(&mut store, 2, 3001);

    store.put_object(12345, "myobject".to_string()).unwrap();
    let (chunk_id, _) = store.put_chunk("myobject".to_string(), 111).unwrap();

    // Get which node the chunk is on
    let (_, chunk) = store.get_chunk(chunk_id).unwrap();
    let first_node = chunk.storage_nodes[0];
    let second_node = if first_node == 1 { 2 } else { 1 };

    store.add_chunk_replica(chunk_id, second_node).unwrap();

    let (_, chunk) = store.get_chunk(chunk_id).unwrap();
    assert_eq!(chunk.storage_nodes.len(), 2);
    assert!(chunk.storage_nodes.contains(&first_node));
    assert!(chunk.storage_nodes.contains(&second_node));
}

#[test]
fn test_add_chunk_replica_max_replicas_exceeded() {
    let (mut store, _file) = create_test_store();
    add_storage_node(&mut store, 1, 3000);
    add_storage_node(&mut store, 2, 3001);
    add_storage_node(&mut store, 3, 3002);
    add_storage_node(&mut store, 4, 3003);

    store.put_object(12345, "myobject".to_string()).unwrap();
    let (chunk_id, _) = store.put_chunk("myobject".to_string(), 111).unwrap();

    let (_, chunk) = store.get_chunk(chunk_id).unwrap();
    let first_node = chunk.storage_nodes[0];
    let other_nodes: Vec<u64> = vec![1, 2, 3, 4].into_iter().filter(|&n| n != first_node).collect();

    // Add 2 more replicas (total 3)
    store.add_chunk_replica(chunk_id, other_nodes[0]).unwrap();
    store.add_chunk_replica(chunk_id, other_nodes[1]).unwrap();

    // Fourth replica should fail
    let result = store.add_chunk_replica(chunk_id, other_nodes[2]);
    assert!(result.is_err());
    assert_eq!(result.unwrap_err().kind(), ErrorKind::InvalidInput);
}

#[test]
fn test_add_chunk_replica_duplicate_fails() {
    let (mut store, _file) = create_test_store();
    add_storage_node(&mut store, 1, 3000);

    store.put_object(12345, "myobject".to_string()).unwrap();
    let (chunk_id, _) = store.put_chunk("myobject".to_string(), 111).unwrap();

    let (_, chunk) = store.get_chunk(chunk_id).unwrap();
    let existing_node = chunk.storage_nodes[0];

    let result = store.add_chunk_replica(chunk_id, existing_node);
    assert!(result.is_err());
    assert_eq!(result.unwrap_err().kind(), ErrorKind::AlreadyExists);
}

#[test]
fn test_add_chunk_replica_chunk_not_found() {
    let (mut store, _file) = create_test_store();
    add_storage_node(&mut store, 1, 3000);

    let result = store.add_chunk_replica(99999, 1);
    assert!(result.is_err());
    assert_eq!(result.unwrap_err().kind(), ErrorKind::NotFound);
}

#[test]
fn test_add_chunk_replica_storage_node_not_found() {
    let (mut store, _file) = create_test_store();
    add_storage_node(&mut store, 1, 3000);
    store.put_object(12345, "myobject".to_string()).unwrap();
    let (chunk_id, _) = store.put_chunk("myobject".to_string(), 111).unwrap();

    let result = store.add_chunk_replica(chunk_id, 99999);
    assert!(result.is_err());
    assert_eq!(result.unwrap_err().kind(), ErrorKind::NotFound);
}

// ===================
// get_chunk_mut Tests
// ===================

#[test]
fn test_get_chunk_mut_allows_modification() {
    let (mut store, _file) = create_test_store();
    add_storage_node(&mut store, 1, 3000);
    store.put_object(12345, "myobject".to_string()).unwrap();
    let (chunk_id, _) = store.put_chunk("myobject".to_string(), 111).unwrap();

    // Modify the chunk
    {
        let chunk = store.get_chunk_mut(chunk_id).unwrap();
        chunk.checksum = 999;
    }

    // Verify modification persisted
    let (_, chunk) = store.get_chunk(chunk_id).unwrap();
    assert_eq!(chunk.checksum, 999);
}

#[test]
fn test_get_chunk_mut_not_found() {
    let (mut store, _file) = create_test_store();

    let result = store.get_chunk_mut(99999);
    assert!(result.is_err());
    assert_eq!(result.unwrap_err().kind(), ErrorKind::NotFound);
}

// ===================
// Random Selection Tests
// ===================

#[test]
fn test_choose_storage_node_distributes_across_nodes() {
    let (mut store, _file) = create_test_store();
    add_storage_node(&mut store, 1, 3000);
    add_storage_node(&mut store, 2, 3001);
    add_storage_node(&mut store, 3, 3002);

    // Call many times and verify we get different nodes
    let mut seen_nodes = std::collections::HashSet::new();
    for _ in 0..100 {
        if let Some(node) = store.choose_storage_node() {
            seen_nodes.insert(node.id);
        }
    }

    // With 100 tries and 3 nodes, we should see all 3 (statistically very likely)
    assert!(seen_nodes.len() >= 2, "Expected random distribution across nodes");
}

#[test]
fn test_choose_storage_node_empty_returns_none() {
    let (store, _file) = create_test_store();

    assert!(store.choose_storage_node().is_none());
}

// ===================
// Persistence Tests
// ===================

fn reload(store: MetadataStore) -> MetadataStore {
    MetadataStore::new(store.path(), Some(store.persistent_state()))
}

#[test]
fn test_persistence_objects_survive_reload() {
    let (mut store, _file) = create_test_store();
    add_storage_node(&mut store, 1, 3000);
    store.put_object(12345, "obj1".to_string()).unwrap();
    store.put_object(67890, "obj2".to_string()).unwrap();

    // Reload and verify
    let store = reload(store);
    assert_eq!(store.objects.len(), 2);
    let obj1 = store.get_object("obj1".to_string()).unwrap();
    assert_eq!(obj1.checksum, 12345);
    let obj2 = store.get_object("obj2".to_string()).unwrap();
    assert_eq!(obj2.checksum, 67890);
    // Storage nodes should not persist
    assert!(store.storage_nodes.is_empty());
}

#[test]
fn test_persistence_chunks_survive_reload() {
    let (mut store, _file) = create_test_store();
    add_storage_node(&mut store, 1, 3000);
    store.put_object(12345, "myobject".to_string()).unwrap();
    let (chunk_id, _) = store.put_chunk("myobject".to_string(), 67890).unwrap();

    let store = reload(store);
    let (obj_name, chunk) = store.get_chunk(chunk_id).unwrap();
    assert_eq!(obj_name, "myobject");
    assert_eq!(chunk.checksum, 67890);

    let object = store.get_object("myobject".to_string()).unwrap();
    assert!(object.chunks.contains(&chunk_id));
}

#[test]
fn test_persistence_delete_reflected_on_reload() {
    let (mut store, _file) = create_test_store();
    add_storage_node(&mut store, 1, 3000);
    store.put_object(111, "keep".to_string()).unwrap();
    store.put_object(222, "delete-me".to_string()).unwrap();
    store.delete_object("delete-me".to_string()).unwrap();

    let store = reload(store);
    assert_eq!(store.objects.len(), 1);
    assert!(store.get_object("keep".to_string()).is_ok());
    assert!(store.get_object("delete-me".to_string()).is_err());
}

#[test]
fn test_persistence_empty_file_starts_fresh() {
    let store = MetadataStore::new("metadata.dat", None);
    assert!(store.objects.is_empty());
    assert!(store.chunks.is_empty());
}

// ===================
// Migration Tests
// ===================

#[test]
fn test_objects_in_hash_ranges_filters_correctly() {
    let (mut store, _file) = create_test_store();
    add_storage_node(&mut store, 1, 3000);

    // Create several objects
    for i in 0..20 {
        let name = format!("migration-obj-{}", i);
        store.put_object(i as u32, name.clone()).unwrap();
        let (chunk_id, _) = store.put_chunk(name.clone(), 100 + i as u32).unwrap();
        let _ = chunk_id;
    }

    // Use the hash ring to determine which objects belong to "node-a"
    let mut ring = HashRing::new();
    ring.add_node("node-a");
    ring.add_node("node-b");

    let ranges_a = ring.get_owned_ranges("node-a");
    let ranges_b = ring.get_owned_ranges("node-b");

    let objects_a = store.objects_in_hash_ranges(&ranges_a);
    let objects_b = store.objects_in_hash_ranges(&ranges_b);

    // Every object should be in exactly one set
    assert_eq!(objects_a.len() + objects_b.len(), 20);

    // Both should have some objects (statistical check)
    assert!(!objects_a.is_empty(), "node-a should own some objects");
    assert!(!objects_b.is_empty(), "node-b should own some objects");

    // Verify chunks are included with their objects
    for (obj, chunks) in &objects_a {
        assert_eq!(chunks.len(), obj.chunks.len());
        for chunk in chunks {
            assert_eq!(chunk.object_name, obj.name);
        }
    }
}

#[test]
fn test_ingest_partition_merges_data() {
    let (mut store, _file) = create_test_store();

    // Store starts with one object
    store.put_object(111, "local-obj".to_string()).unwrap();

    // Ingest migrated data
    let migrated_objects = vec![
        MetaObject {
            name: "migrated-1".to_string(),
            checksum: 222,
            chunks: vec![100, 101],
            total_size: 0,
        },
        MetaObject {
            name: "migrated-2".to_string(),
            checksum: 333,
            chunks: vec![102],
            total_size: 0,
        },
    ];
    let migrated_chunks = vec![
        MetaChunk { id: 100, object_name: "migrated-1".to_string(), checksum: 1000, storage_nodes: vec![1], status: ChunkStatus::Confirmed },
        MetaChunk { id: 101, object_name: "migrated-1".to_string(), checksum: 1001, storage_nodes: vec![1, 2], status: ChunkStatus::Confirmed },
        MetaChunk { id: 102, object_name: "migrated-2".to_string(), checksum: 1002, storage_nodes: vec![1], status: ChunkStatus::Confirmed },
    ];

    store.ingest_partition(migrated_objects, migrated_chunks);

    // Local + migrated objects should all be present
    assert_eq!(store.objects.len(), 3);
    assert!(store.get_object("local-obj".to_string()).is_ok());
    assert!(store.get_object("migrated-1".to_string()).is_ok());
    assert!(store.get_object("migrated-2".to_string()).is_ok());

    // Chunks should be present
    assert_eq!(store.chunks.len(), 3);
    let (obj_name, chunk) = store.get_chunk(100).unwrap();
    assert_eq!(obj_name, "migrated-1");
    assert_eq!(chunk.checksum, 1000);
}

#[test]
fn test_remove_objects_cleans_up_chunks() {
    let (mut store, _file) = create_test_store();
    add_storage_node(&mut store, 1, 3000);

    store.put_object(111, "keep-me".to_string()).unwrap();
    store.put_object(222, "remove-me".to_string()).unwrap();
    let (keep_chunk, _) = store.put_chunk("keep-me".to_string(), 1000).unwrap();
    let (remove_chunk, _) = store.put_chunk("remove-me".to_string(), 2000).unwrap();

    store.remove_objects(&["remove-me".to_string()]);

    // "keep-me" and its chunk should survive
    assert!(store.get_object("keep-me".to_string()).is_ok());
    assert!(store.get_chunk(keep_chunk).is_ok());

    // "remove-me" and its chunk should be gone
    assert!(store.get_object("remove-me".to_string()).is_err());
    assert!(store.get_chunk(remove_chunk).is_err());
}

#[test]
fn test_new_with_node_uses_node_specific_path() {
    let dir_path = "some/dir";

    let mut store = MetadataStore::new_with_node(dir_path, "meta-1", None);
    store.put_object(111, "test-obj".to_string()).unwrap();

    // Verify the expected path
    let expected_path = format!("{}/metadata-meta-1.dat", dir_path);
    assert_eq!(store.path(), expected_path);
    let stored = store.persistent_state();
    assert_eq!(stored.version, 1);

    // Reload from same path
    let store2 = MetadataStore::new_with_node(dir_path, "meta-1", Some(stored));
    assert!(store2.get_object("test-obj".to_string()).is_ok());

    // Different node_id should have separate empty store
    let store3 = MetadataStore::new_with_node(dir_path, "meta-2", None);
    assert!(store3.objects.is_empty());
    assert_eq!(store3.path(), format!("{}/metadata-meta-2.dat", dir_path));
}

#[test]
fn errors_say_what_is_wrong() {
    let (mut store, _file) = create_test_store();
    store.put_object(1, "a".to_string()).unwrap();
    assert_eq!(
        store.put_object(2, "a".to_string()).unwrap_err().message,
        "object name a already exists"
    );
    assert_eq!(store.get_object("b".to_string()).unwrap_err().message, "object not found");
    assert_eq!(store.get_chunk(5).unwrap_err().message, "chunk not found");
    assert_eq!(
        store.get_storage_node(77).unwrap_err().message,
        "could not find storage_node_id 77"
    );
    assert_eq!(
        store.delete_storage_node(78).unwrap_err().message,
        "could not find storage node 78"
    );
    assert_eq!(
        store.delete_chunk(79).unwrap_err().message,
        "could not find mapped object"
    );
    let refused = store.put_chunk("a".to_string(), 1).unwrap_err();
    assert_eq!(refused.kind(), ErrorKind::HostUnreachable);
    assert_eq!(refused.message, "no available storage node");
    assert_eq!(
        store.confirm_chunk(9, "a".to_string(), 1, 4).unwrap_err().message,
        "storage node 4 not found"
    );
    add_storage_node(&mut store, 4, 3000);
    store.confirm_chunk(9, "a".to_string(), 1, 4).unwrap();
    assert_eq!(
        store.confirm_chunk(9, "a".to_string(), 1, 4).unwrap_err().message,
        "chunk 9 already confirmed"
    );
    assert_eq!(
        store.add_chunk_replica(9, 4).unwrap_err().message,
        "chunk 9 already exists on storage node 4"
    );
    for id in 5..8 {
        add_storage_node(&mut store, id, 3000);
    }
    store.add_chunk_replica(9, 5).unwrap();
    store.add_chunk_replica(9, 6).unwrap();
    assert_eq!(
        store.add_chunk_replica(9, 7).unwrap_err().message,
        "chunk 9 already has 3 replicas (max: 3)"
    );
    assert_eq!(
        MetaStorageNode::new(1, String::new()).unwrap_err().message,
        "invalid address"
    );
}

#[test]
fn a_chunk_of_a_missing_object_is_recorded_all_the_same() {
    let (mut store, _file) = create_test_store();
    add_storage_node(&mut store, 1, 3000);
    let refused = store.put_chunk_on(50, 1, "nowhere".to_string(), 7).unwrap_err();
    assert_eq!(refused.kind(), ErrorKind::NotFound);
    assert_eq!(store.get_chunk(50).unwrap().1.storage_nodes, vec![1]);
    let refused = store.delete_chunk(50).unwrap_err();
    assert_eq!(refused.message, "object not found");
    assert!(store.get_chunk(50).is_err());
}

#[test]
fn sizes_are_set_with_the_checksum() {
    let (mut store, _file) = create_test_store();
    store.put_object(0, "streamed".to_string()).unwrap();
    store.update_object_checksum("streamed", 99, 1 << 40).unwrap();
    let object = store.get_object("streamed".to_string()).unwrap();
    assert_eq!((object.checksum, object.total_size), (99, 1 << 40));
    assert_eq!(
        store.update_object_checksum("other", 1, 1).unwrap_err().kind(),
        ErrorKind::NotFound
    );
    store.get_object_mut("streamed".to_string()).unwrap().add_chunk(3);
    assert_eq!(store.get_object("streamed".to_string()).unwrap().chunks, vec![3]);
    assert!(store.get_object_mut("other".to_string()).is_err());
}

#[test]
fn pending_chunks_need_no_replicas() {
    let (mut store, _file) = create_test_store();
    add_storage_node(&mut store, 1, 3000);
    store.reserve_chunk(5, "a");
    assert_eq!(store.get_chunk(5).unwrap().1.status, ChunkStatus::Pending);
    assert!(store.list_under_replicated_chunks(3).is_empty());
    assert_eq!(ChunkStatus::default(), ChunkStatus::Confirmed);
}

#[test]
fn removed_names_make_room_for_others() {
    let (mut store, _file) = create_test_store();
    for i in 0..20 {
        store.put_object(i, format!("object-{}", i)).unwrap();
    }
    for i in 0..20 {
        if i % 3 == 0 {
            store.delete_object(format!("object-{}", i)).unwrap();
        }
    }
    assert_eq!(store.objects.len(), 13);
    for i in 0..20 {
        let found = store.get_object(format!("object-{}", i));
        if i % 3 == 0 {
            assert!(found.is_err());
        } else {
            assert_eq!(found.unwrap().checksum, i);
        }
    }
    let mut names: Vec<String> = store.list_objects().iter().map(|o| o.name.clone()).collect();
    names.sort();
    names.dedup();
    assert_eq!(names.len(), 13);
}

#[test]
fn unused_ids_are_unused() {
    let mut taken: std::collections::HashMap<u64, ()> = std::collections::HashMap::new();
    for _ in 0..100 {
        let id = object_store::random::unused_id(&taken);
        assert!(taken.insert(id, ()).is_none());
    }
}

#[test]
fn only_valid_addresses_make_storage_nodes() {
    let node = MetaStorageNode::checked(4, "http://n:1".to_string(), true).unwrap();
    assert_eq!((node.id, node.address.as_str()), (4, "http://n:1"));
    let refused = MetaStorageNode::checked(4, "http://n:1".to_string(), false).unwrap_err();
    assert_eq!(refused.kind, ErrorKind::InvalidInput);
    assert_eq!(refused.message, "invalid address");

    let (mut store, _) = create_test_store();
    store.insert_storage_node(node);
    assert_eq!(store.storage_nodes[&4].address, "http://n:1");
    let moved = MetaStorageNode::checked(4, "http://n:2".to_string(), true).unwrap();
    store.insert_storage_node(moved);
    assert_eq!(store.storage_node_count(), 1);
    assert_eq!(store.storage_nodes[&4].address, "http://n:2");
}
