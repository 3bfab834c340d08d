use object_store::chunk_index::ChunkIndex;
use object_store::metadata_store::MetadataStore;

fn entries(pairs: &[(u64, &str)]) -> Vec<(u64, String)> {
    pairs.iter().map(|(id, name)| (*id, name.to_string())).collect()
}

#[test]
fn test_insert_and_get() {
    let mut idx = ChunkIndex::new();
    idx.insert(1, "obj-a".to_string());
    idx.insert(2, "obj-b".to_string());

    assert_eq!(idx.get(1), Some("obj-a".to_string()));
    assert_eq!(idx.get(2), Some("obj-b".to_string()));
    assert_eq!(idx.get(3), None);
}

#[test]
fn test_remove() {
    let mut idx = ChunkIndex::new();
    idx.insert(1, "obj-a".to_string());

    assert_eq!(idx.remove(1), Some("obj-a".to_string()));
    assert_eq!(idx.get(1), None);
    assert_eq!(idx.remove(1), None);
}

#[test]
fn test_bulk_insert() {
    let mut idx = ChunkIndex::new();
    idx.bulk_insert(entries(&[(1, "obj-a"), (2, "obj-b"), (3, "obj-a")]));

    assert_eq!(idx.len(), 3);
    assert_eq!(idx.get(1), Some("obj-a".to_string()));
    assert_eq!(idx.get(2), Some("obj-b".to_string()));
    assert_eq!(idx.get(3), Some("obj-a".to_string()));
}

#[test]
fn the_last_of_several_entries_counts() {
    let mut idx = ChunkIndex::new();
    idx.bulk_insert(entries(&[(1, "first"), (2, "other"), (1, "last")]));
    assert_eq!(idx.len(), 2);
    assert_eq!(idx.get(1), Some("last".to_string()));
}

#[test]
fn test_remove_by_objects() {
    let mut idx = ChunkIndex::new();
    idx.bulk_insert(entries(&[(1, "obj-a"), (2, "obj-b"), (3, "obj-a"), (4, "obj-c")]));

    idx.remove_by_objects(&["obj-a".to_string()]);

    assert_eq!(idx.len(), 2);
    assert_eq!(idx.get(1), None);
    assert_eq!(idx.get(2), Some("obj-b".to_string()));
    assert_eq!(idx.get(3), None);
    assert_eq!(idx.get(4), Some("obj-c".to_string()));
}

#[test]
fn several_chunks_are_removed_at_once() {
    let mut idx = ChunkIndex::new();
    idx.bulk_insert(entries(&[(1, "a"), (2, "b"), (3, "c")]));
    idx.remove_all(&vec![3, 1, 9]);
    assert_eq!(idx.entries(), entries(&[(2, "b")]));
}

#[test]
fn test_entries() {
    let mut idx = ChunkIndex::new();
    idx.insert(1, "obj-a".to_string());
    idx.insert(2, "obj-b".to_string());

    let mut entries = idx.entries();
    entries.sort_by_key(|(k, _)| *k);
    assert_eq!(entries.len(), 2);
    assert_eq!(entries[0], (1, "obj-a".to_string()));
    assert_eq!(entries[1], (2, "obj-b".to_string()));
}

/// Simulate chunk index synchronization across 3 nodes.
/// Each node has its own ChunkIndex; when one node adds entries,
/// it "broadcasts" them to the others via bulk_insert.
#[test]
fn test_multi_node_chunk_index_sync() {
    let mut node_1 = ChunkIndex::new();
    let mut node_2 = ChunkIndex::new();
    let mut node_3 = ChunkIndex::new();

    // Node 1 owns some chunks
    node_1.insert(100, "obj-a".to_string());
    node_1.insert(101, "obj-a".to_string());

    // Node 2 owns different chunks
    node_2.insert(200, "obj-b".to_string());

    // Simulate broadcast: node 1 sends its entries to nodes 2 and 3
    let entries_1 = node_1.entries();
    node_2.bulk_insert(entries_1.clone());
    node_3.bulk_insert(entries_1);

    // Simulate broadcast: node 2 sends its entries to nodes 1 and 3
    let entries_2 = node_2.entries();
    node_1.bulk_insert(entries_2.clone());
    node_3.bulk_insert(entries_2);

    // All nodes should now have the same global view
    assert_eq!(node_1.len(), 3);
    assert_eq!(node_2.len(), 3);
    assert_eq!(node_3.len(), 3);

    // Verify all can look up any chunk
    for node in [&node_1, &node_2, &node_3] {
        assert_eq!(node.get(100), Some("obj-a".to_string()));
        assert_eq!(node.get(101), Some("obj-a".to_string()));
        assert_eq!(node.get(200), Some("obj-b".to_string()));
    }
}

/// Simulate the full migration flow: Node 1 has data, Node 2 joins and
/// gets chunk index entries synced.
#[test]
fn test_migration_chunk_index_update() {
    let mut existing_node = ChunkIndex::new();
    let mut new_node = ChunkIndex::new();

    // Existing node has 5 chunks across 2 objects
    existing_node.bulk_insert(entries(&[
        (1, "obj-x"),
        (2, "obj-x"),
        (3, "obj-x"),
        (4, "obj-y"),
        (5, "obj-y"),
    ]));

    // New node joins and pulls chunks 4,5 (obj-y migrated to it)
    // After migration, new node broadcasts its chunk index
    new_node.insert(4, "obj-y".to_string());
    new_node.insert(5, "obj-y".to_string());

    // Broadcast new node's entries to existing node
    let new_entries = new_node.entries();
    existing_node.bulk_insert(new_entries);

    // Both nodes should be able to resolve all chunks
    assert_eq!(existing_node.len(), 5);
    assert_eq!(new_node.len(), 2); // new node only has its own data + broadcast

    // Broadcast existing node's entries to new node for full global view
    let all_entries = existing_node.entries();
    new_node.bulk_insert(all_entries);
    assert_eq!(new_node.len(), 5);
}

#[test]
fn a_store_fills_the_index() {
    let mut store = MetadataStore::new("metadata.dat", None);
    store.reserve_chunk(7, "obj-a");
    store.reserve_chunk(8, "obj-b");
    let mut idx = ChunkIndex::new();
    idx.insert(8, "old".to_string());
    idx.insert(9, "kept".to_string());
    idx.populate_from_chunks(store.chunk_table());
    assert_eq!(idx.len(), 3);
    assert_eq!(idx.get(7), Some("obj-a".to_string()));
    assert_eq!(idx.get(8), Some("obj-b".to_string()));
    assert_eq!(idx.get(9), Some("kept".to_string()));
}
