use std::collections::HashMap;

use object_store::hash_ring::HashRing;

#[test]
fn test_empty_ring_returns_none() {
    let ring = HashRing::new();
    assert!(ring.get_owner("any_key").is_none());
    assert!(ring.is_empty());
}

#[test]
fn test_single_node_owns_everything() {
    let mut ring = HashRing::new();
    ring.add_node("node-1");

    assert_eq!(ring.get_owner("key-a"), Some("node-1"));
    assert_eq!(ring.get_owner("key-z"), Some("node-1"));
    assert_eq!(ring.get_owner("any-random-key"), Some("node-1"));
    assert_eq!(ring.node_count(), 1);
}

#[test]
fn test_consistent_hashing_deterministic() {
    let mut ring = HashRing::new();
    ring.add_node("node-1");
    ring.add_node("node-2");
    ring.add_node("node-3");

    let owner1 = ring.get_owner("test-key");
    let owner2 = ring.get_owner("test-key");
    assert_eq!(owner1, owner2);
}

#[test]
fn test_distribution_across_nodes() {
    let mut ring = HashRing::new();
    ring.add_node("node-1");
    ring.add_node("node-2");
    ring.add_node("node-3");

    let mut counts: HashMap<&str, usize> = HashMap::new();
    for i in 0..1000 {
        let key = format!("object-{}", i);
        let owner = ring.get_owner(&key).unwrap();
        *counts.entry(owner).or_insert(0) += 1;
    }

    // Each node should own a reasonable portion (at least 15% of 1000 = 150)
    assert_eq!(counts.len(), 3);
    for (_, count) in &counts {
        assert!(*count > 150, "Expected better distribution, got {:?}", counts);
    }
}

#[test]
fn test_add_node_minimal_redistribution() {
    let mut ring = HashRing::new();
    ring.add_node("node-1");
    ring.add_node("node-2");

    // Record owners for many keys
    let keys: Vec<String> = (0..1000).map(|i| format!("key-{}", i)).collect();
    let original_owners: Vec<Option<String>> = keys
        .iter()
        .map(|k| ring.get_owner(k).map(|s| s.to_string()))
        .collect();

    // Add a third node
    ring.add_node("node-3");
    let new_owners: Vec<Option<String>> = keys
        .iter()
        .map(|k| ring.get_owner(k).map(|s| s.to_string()))
        .collect();

    // Count how many keys changed owner
    let changed = original_owners
        .iter()
        .zip(new_owners.iter())
        .filter(|(a, b)| a != b)
        .count();

    // With consistent hashing, roughly 1/3 of keys should move
    // Allow generous range: 10-60%
    let pct = (changed as f64 / keys.len() as f64) * 100.0;
    assert!(
        pct > 10.0 && pct < 60.0,
        "Expected ~33% redistribution, got {:.1}%",
        pct
    );
}

#[test]
fn test_remove_node() {
    let mut ring = HashRing::new();
    ring.add_node("node-1");
    ring.add_node("node-2");
    ring.add_node("node-3");

    assert_eq!(ring.node_count(), 3);

    ring.remove_node("node-2");
    assert_eq!(ring.node_count(), 2);

    // All keys should still resolve
    for i in 0..100 {
        let key = format!("key-{}", i);
        let owner = ring.get_owner(&key).unwrap();
        assert!(owner == "node-1" || owner == "node-3");
    }
}

#[test]
fn test_get_owned_ranges_covers_ring() {
    let mut ring = HashRing::new();
    ring.add_node("node-1");
    ring.add_node("node-2");

    let ranges1 = ring.get_owned_ranges("node-1");
    let ranges2 = ring.get_owned_ranges("node-2");

    // Both nodes should have ranges
    assert!(!ranges1.is_empty());
    assert!(!ranges2.is_empty());
}

#[test]
fn test_nodes_returns_all_unique_ids() {
    let mut ring = HashRing::new();
    ring.add_node("node-a");
    ring.add_node("node-b");
    ring.add_node("node-c");

    let mut nodes = ring.nodes();
    nodes.sort();
    assert_eq!(nodes, vec!["node-a", "node-b", "node-c"]);
}

#[test]
fn test_hash_key_deterministic() {
    let h1 = HashRing::hash_key("test");
    let h2 = HashRing::hash_key("test");
    assert_eq!(h1, h2);

    let h3 = HashRing::hash_key("different");
    assert_ne!(h1, h3);
}

#[test]
fn test_hash_in_ranges_normal_range() {
    // Normal range: [10, 20)
    assert!(HashRing::hash_in_ranges(10, &[(10, 20)]));
    assert!(HashRing::hash_in_ranges(15, &[(10, 20)]));
    assert!(!HashRing::hash_in_ranges(20, &[(10, 20)]));
    assert!(!HashRing::hash_in_ranges(5, &[(10, 20)]));
}

#[test]
fn test_hash_in_ranges_multiple() {
    let ranges = vec![(10, 20), (50, 60)];
    assert!(HashRing::hash_in_ranges(15, &ranges));
    assert!(HashRing::hash_in_ranges(55, &ranges));
    assert!(!HashRing::hash_in_ranges(30, &ranges));
}

/// Simulate a 3-node cluster where a new node joins and needs to pull data.
/// Verifies that the ring correctly partitions keys, and that adding a node
/// only moves the expected fraction of keys.
#[test]
fn test_three_node_cluster_simulation() {
    let mut ring = HashRing::new();
    ring.add_node("meta-1");
    ring.add_node("meta-2");
    ring.add_node("meta-3");

    // Simulate 100 objects assigned to owners
    let mut ownership: HashMap<String, Vec<String>> = HashMap::new();
    for i in 0..100 {
        let obj_name = format!("object-{}", i);
        let owner = ring.get_owner(&obj_name).unwrap().to_string();
        ownership.entry(owner).or_default().push(obj_name);
    }

    // All 3 nodes should own something
    assert_eq!(ownership.len(), 3);
    for (_node, objects) in &ownership {
        assert!(!objects.is_empty());
    }

    // Now add a 4th node — simulating a new node joining
    ring.add_node("meta-4");

    let mut new_ownership: HashMap<String, Vec<String>> = HashMap::new();
    for i in 0..100 {
        let obj_name = format!("object-{}", i);
        let owner = ring.get_owner(&obj_name).unwrap().to_string();
        new_ownership.entry(owner).or_default().push(obj_name);
    }

    // meta-4 should now own some objects
    assert!(new_ownership.contains_key("meta-4"));
    assert!(new_ownership["meta-4"].len() > 5); // should be roughly 25

    // Objects that stayed with their original owner should still be there
    let total: usize = new_ownership.values().map(|v| v.len()).sum();
    assert_eq!(total, 100);
}

/// Verifies that get_owned_ranges + hash_in_ranges correctly identifies
/// which node owns each key. Every key should match exactly one node's ranges.
#[test]
fn test_owned_ranges_cover_all_keys() {
    let mut ring = HashRing::new();
    ring.add_node("node-1");
    ring.add_node("node-2");
    ring.add_node("node-3");

    let ranges_1 = ring.get_owned_ranges("node-1");
    let ranges_2 = ring.get_owned_ranges("node-2");
    let ranges_3 = ring.get_owned_ranges("node-3");

    for i in 0..200 {
        let key = format!("test-key-{}", i);
        let hash = HashRing::hash_key(&key);
        let owner = ring.get_owner(&key).unwrap();

        let in_1 = HashRing::hash_in_ranges(hash, &ranges_1);
        let in_2 = HashRing::hash_in_ranges(hash, &ranges_2);
        let in_3 = HashRing::hash_in_ranges(hash, &ranges_3);

        // Key should be in exactly one node's ranges
        let matches: Vec<(&str, bool)> = vec![
            ("node-1", in_1),
            ("node-2", in_2),
            ("node-3", in_3),
        ];
        let matched: Vec<&str> = matches.iter()
            .filter(|(_, b)| *b)
            .map(|(n, _)| *n)
            .collect();

        assert_eq!(
            matched.len(), 1,
            "Key '{}' (hash {}) matched {} nodes: {:?}, expected owner: {}",
            key, hash, matched.len(), matched, owner
        );
        assert_eq!(
            matched[0], owner,
            "Key '{}' range owner {:?} doesn't match ring owner {}",
            key, matched[0], owner
        );
    }
}

/// Test the migration scenario: when a new node joins, we can identify
/// which ranges it needs to pull from existing nodes.
#[test]
fn test_migration_range_computation() {
    // Start with 2-node ring
    let mut ring_before = HashRing::new();
    ring_before.add_node("existing-1");
    ring_before.add_node("existing-2");

    // Add new node
    let mut ring_after = HashRing::new();
    ring_after.add_node("existing-1");
    ring_after.add_node("existing-2");
    ring_after.add_node("new-node");

    // Get ranges the new node owns in the new ring
    let new_ranges = ring_after.get_owned_ranges("new-node");
    assert!(!new_ranges.is_empty());

    // For some test keys that the new node now owns, verify they were
    // previously owned by one of the existing nodes
    let mut moved_from_1 = 0;
    let mut moved_from_2 = 0;
    for i in 0..500 {
        let key = format!("obj-{}", i);
        let new_owner = ring_after.get_owner(&key).unwrap();
        if new_owner == "new-node" {
            let old_owner = ring_before.get_owner(&key).unwrap();
            match old_owner {
                "existing-1" => moved_from_1 += 1,
                "existing-2" => moved_from_2 += 1,
                _ => panic!("unexpected old owner"),
            }
        }
    }

    // Both existing nodes should have given up some keys to the new node
    assert!(moved_from_1 > 0, "expected keys to move from existing-1");
    assert!(moved_from_2 > 0, "expected keys to move from existing-2");
}

#[test]
fn every_hash_has_one_owner_at_both_ends_of_the_ring() {
    let mut ring = HashRing::new();
    ring.add_node("node-1");
    ring.add_node("node-2");
    ring.add_node("node-3");
    let owned: Vec<Vec<(u64, u64)>> =
        ring.nodes().iter().map(|n| ring.get_owned_ranges(n)).collect();
    for hash in [0, 1, u64::MAX / 2, u64::MAX - 1, u64::MAX] {
        let owners = owned
            .iter()
            .filter(|ranges| HashRing::hash_in_ranges(hash, ranges))
            .count();
        assert_eq!(owners, 1, "hash {}", hash);
    }
}

#[test]
fn a_single_node_owns_both_ends_of_the_ring() {
    let mut ring = HashRing::new();
    ring.add_node("only");
    let ranges = ring.get_owned_ranges("only");
    assert!(HashRing::hash_in_ranges(0, &ranges));
    assert!(HashRing::hash_in_ranges(u64::MAX, &ranges));
    assert!(ring.get_owned_ranges("other").is_empty());
}

#[test]
fn a_range_can_run_over_the_top() {
    assert!(HashRing::hash_in_ranges(u64::MAX, &[(100, 0)]));
    assert!(HashRing::hash_in_ranges(100, &[(100, 0)]));
    assert!(!HashRing::hash_in_ranges(99, &[(100, 0)]));
    assert!(HashRing::hash_in_ranges(3, &[(100, 5)]));
    assert!(!HashRing::hash_in_ranges(7, &[(7, 7)]));
}

#[test]
fn joining_and_leaving_move_only_the_keys_of_that_node() {
    let mut before = HashRing::new();
    before.add_node("a");
    before.add_node("b");
    let mut after = HashRing::new();
    after.add_node("a");
    after.add_node("b");
    after.add_node("c");
    for i in 0..300 {
        let key = format!("key-{}", i);
        let owner = after.get_owner(&key).unwrap();
        if owner != "c" {
            assert_eq!(before.get_owner(&key), Some(owner));
        }
    }
    after.add_node("c");
    assert_eq!(after.node_count(), 3);
    after.remove_node("c");
    assert_eq!(after.nodes(), vec!["a", "b"]);
    for i in 0..300 {
        let key = format!("key-{}", i);
        assert_eq!(before.get_owner(&key), after.get_owner(&key));
    }
    after.remove_node("nobody");
    assert_eq!(after.node_count(), 2);
}

#[test]
fn nodes_are_in_ascending_order() {
    let mut ring = HashRing::new();
    for node in ["zeta", "alpha", "alp", "\u{e9}t\u{e9}"] {
        ring.add_node(node);
    }
    assert_eq!(ring.nodes(), vec!["alp", "alpha", "zeta", "\u{e9}t\u{e9}"]);
}

#[test]
fn keys_are_hashed_by_xxh3() {
    assert_eq!(HashRing::hash_key("test"), xxhash_rust::xxh3::xxh3_64(b"test"));
    assert_eq!(HashRing::hash_key(""), 0x2d06800538d394c2);
}

#[test]
fn the_top_of_the_ring_has_an_owner() {
    let mut ring = HashRing::new();
    ring.add_positions("a", &vec![100]);
    ring.add_positions("b", &vec![u64::MAX]);
    assert_eq!(ring.owner_at(0), Some("a"));
    assert_eq!(ring.owner_at(100), Some("a"));
    assert_eq!(ring.owner_at(101), Some("b"));
    assert_eq!(ring.owner_at(u64::MAX), Some("b"));
    let (a, b) = (ring.get_owned_ranges("a"), ring.get_owned_ranges("b"));
    for hash in [0, 1, 100, 101, u64::MAX - 1, u64::MAX] {
        let first = HashRing::hash_in_ranges(hash, &a);
        assert_eq!(first, hash <= 100, "{}", hash);
        assert_eq!(HashRing::hash_in_ranges(hash, &b), !first, "{}", hash);
    }
}

#[test]
fn a_range_over_the_top_covers_both_sides() {
    let mut ring = HashRing::new();
    ring.add_positions("a", &vec![100, 200]);
    ring.add_positions("b", &vec![150, 150]);
    let (a, b) = (ring.get_owned_ranges("a"), ring.get_owned_ranges("b"));
    assert_eq!(b, vec![(101, 151)]);
    for (hash, owner) in [(0, "a"), (100, "a"), (101, "b"), (150, "b"), (151, "a"), (201, "a")] {
        assert_eq!(ring.owner_at(hash), Some(owner));
        assert_eq!(HashRing::hash_in_ranges(hash, &a), owner == "a");
        assert_eq!(HashRing::hash_in_ranges(hash, &b), owner == "b");
    }
    assert!(HashRing::hash_in_ranges(u64::MAX, &a));
}

#[test]
fn a_position_goes_to_who_took_it_last() {
    let mut ring = HashRing::new();
    assert_eq!(ring.owner_at(5), None);
    ring.add_positions("a", &vec![10]);
    ring.add_positions("b", &vec![10]);
    assert_eq!(ring.owner_at(5), Some("b"));
    assert_eq!(ring.owner_at(11), Some("b"));
    assert!(ring.get_owned_ranges("a").is_empty());
}
