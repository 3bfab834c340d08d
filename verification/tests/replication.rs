use std::collections::HashMap;

use object_store::metadata_store::MetaStorageNode;
use object_store::replication::{
    CycleFailure, CycleStage, ProbeHealth, ReplicationCycle, UnderReplicatedChunk,
    DEFAULT_MAX_CHUNKS_PER_CYCLE, DEFAULT_REPLICATION_INTERVAL_SECS, WANTED_REPLICAS,
};

/// A metadata server and storage nodes, all in memory.
struct Cluster {
    storage_nodes: Vec<(u64, &'static str)>,
    under_replicated: Vec<(u64, u32, Vec<u64>)>,
    chunks: HashMap<u64, Vec<u8>>,
    free_slots: u64,
    broken: Vec<CycleStage>,
    replicas_added: Vec<(u64, u64)>,
    deleted: Vec<u64>,
}

impl Cluster {
    fn new() -> Self {
        Cluster {
            storage_nodes: vec![(1, "http://node1:3000"), (2, "http://node2:3000")],
            under_replicated: Vec::new(),
            chunks: HashMap::new(),
            free_slots: 0,
            broken: Vec::new(),
            replicas_added: Vec::new(),
            deleted: Vec::new(),
        }
    }

    fn run(&mut self, limit: usize) -> ReplicationCycle {
        let mut cycle = ReplicationCycle::start(limit);
        loop {
            let stage = cycle.stage();
            if self.broken.contains(&stage) {
                cycle.on_failed();
                continue;
            }
            match stage {
                CycleStage::ListChunks => {
                    let chunks = self
                        .under_replicated
                        .iter()
                        .map(|(id, sum, nodes)| UnderReplicatedChunk {
                            chunk_id: *id,
                            checksum: *sum,
                            current_storage_node_ids: nodes.clone(),
                        })
                        .collect();
                    cycle.on_chunks(chunks);
                }
                CycleStage::ListNodes => {
                    let nodes = self
                        .storage_nodes
                        .iter()
                        .map(|(id, address)| MetaStorageNode {
                            id: *id,
                            address: address.to_string(),
                        })
                        .collect();
                    cycle.on_nodes(nodes);
                }
                CycleStage::PickTarget => cycle.pick_target(),
                CycleStage::ConnectSpace
                | CycleStage::ConnectSource
                | CycleStage::ConnectTarget
                | CycleStage::ConnectCleanup => cycle.on_connected(),
                CycleStage::GetFreeChunks => cycle.on_free_chunks(self.free_slots),
                CycleStage::GetSource => {
                    let id = cycle.source_id();
                    match self.storage_nodes.iter().find(|n| n.0 == id) {
                        Some(node) => cycle.on_source(node.1),
                        None => cycle.on_failed(),
                    }
                }
                CycleStage::ReadChunk => match self.chunks.get(&cycle.chunk_id()) {
                    Some(data) => cycle.on_data(data.clone()),
                    None => cycle.on_failed(),
                },
                CycleStage::WriteChunk => {
                    assert_eq!(Some(cycle.data()), self.chunks.get(&cycle.chunk_id()));
                    cycle.on_written();
                }
                CycleStage::AddReplica => {
                    self.replicas_added.push((cycle.chunk_id(), cycle.target().id));
                    cycle.on_added();
                }
                CycleStage::DeleteCopy => {
                    self.deleted.push(cycle.chunk_id());
                    cycle.on_deleted();
                }
                CycleStage::Finished => return cycle,
            }
        }
    }
}

fn hello() -> Cluster {
    let mut cluster = Cluster::new();
    cluster.chunks.insert(42, b"hello world".to_vec());
    // CRC32 of "hello world"
    cluster.under_replicated = vec![(42, 222957957, vec![1])];
    cluster.free_slots = 10;
    cluster
}

#[test]
fn test_no_under_replicated_chunks() {
    let cycle = Cluster::new().run(100);

    assert_eq!(cycle.replicated().len(), 0);
    assert!(cycle.is_timed());
}

#[test]
fn test_replicates_under_replicated_chunk() {
    let mut cluster = hello();

    let cycle = cluster.run(100);

    assert_eq!(cycle.replicated().len(), 1);
    let replicas = &cluster.replicas_added;
    assert_eq!(replicas.len(), 1);
    assert_eq!(replicas[0].0, 42); // chunk_id
    assert_eq!(replicas[0].1, 2); // target node (only node 2 is eligible)
    assert_eq!(cycle.source_address(), "http://node1:3000");
    assert_eq!(cycle.target().address, "http://node2:3000");
    assert!(cycle.failures().is_empty());
}

#[test]
fn test_skips_chunk_when_no_eligible_nodes() {
    let mut cluster = Cluster::new();
    cluster.storage_nodes = vec![(1, "http://node1:3000")];
    // already on the only node
    cluster.under_replicated = vec![(42, 12345, vec![1])];

    let cycle = cluster.run(100);

    assert_eq!(cycle.replicated().len(), 0);
    assert!(cycle.failures().is_empty());
}

#[test]
fn test_skips_chunk_when_no_free_space() {
    let mut cluster = Cluster::new();
    cluster.chunks.insert(42, b"data".to_vec());
    // CRC32 of "data"
    cluster.under_replicated = vec![(42, 2918445923, vec![1])];
    cluster.free_slots = 0; // no free space

    let cycle = cluster.run(100);

    assert_eq!(cycle.replicated().len(), 0);
    assert!(cycle.failures().is_empty());
}

#[test]
fn test_rate_limiting_respects_max_chunks_per_cycle() {
    let mut cluster = Cluster::new();
    cluster.chunks.insert(1, b"data1".to_vec());
    cluster.chunks.insert(2, b"data2".to_vec());
    cluster.chunks.insert(3, b"data3".to_vec());
    cluster.under_replicated = vec![
        (1, 1472867494, vec![1]), // CRC32 of "data1"
        (2, 3468918044, vec![1]), // CRC32 of "data2"
        (3, 3116649866, vec![1]), // CRC32 of "data3"
    ];
    cluster.free_slots = 10;

    // Only allow 1 chunk per cycle
    let cycle = cluster.run(1);

    assert_eq!(cycle.replicated().len(), 1);
    // 2 chunks should have been skipped due to rate limit
    assert_eq!(cycle.left_out(), 2);
    assert_eq!(cycle.total(), 3);

    let cycle = cluster.run(100);
    assert_eq!(cycle.replicated(), &vec![(1, 2), (2, 2), (3, 2)]);
    assert_eq!(cycle.left_out(), 0);
}

#[test]
fn test_no_storage_nodes_available() {
    let mut cluster = Cluster::new();
    cluster.storage_nodes = vec![]; // no nodes
    cluster.under_replicated = vec![(42, 12345, vec![1])];

    let cycle = cluster.run(100);

    assert_eq!(cycle.replicated().len(), 0);
    assert!(!cycle.is_timed());
}

#[test]
fn test_chunk_with_no_source_nodes_skipped() {
    let mut cluster = Cluster::new();
    cluster.under_replicated = vec![(42, 12345, vec![])]; // no source nodes
    cluster.free_slots = 10;

    let cycle = cluster.run(100);

    assert_eq!(cycle.replicated().len(), 0);
    assert!(cycle.failures().is_empty());
}

#[test]
fn test_metrics_updated_correctly() {
    // Run with no work to do
    let cycle = Cluster::new().run(100);

    assert_eq!(cycle.total(), 0);
    // No failures should have been recorded for any error type
    assert!(cycle.failures().is_empty());
}

#[test]
fn corrupt_chunks_are_not_copied() {
    let mut cluster = hello();
    cluster.under_replicated[0].1 ^= 1;
    let cycle = cluster.run(100);
    assert_eq!(cycle.failures(), &vec![CycleFailure::ChecksumMismatch]);
    assert!(cluster.replicas_added.is_empty());
}

#[test]
fn every_failure_is_counted_under_its_name() {
    let cases = [
        (CycleStage::ListChunks, Some("list_chunks")),
        (CycleStage::ListNodes, Some("list_nodes")),
        (CycleStage::ConnectSpace, None),
        (CycleStage::GetFreeChunks, None),
        (CycleStage::GetSource, Some("connect_source")),
        (CycleStage::ConnectSource, Some("connect_source")),
        (CycleStage::ReadChunk, Some("read_chunk")),
        (CycleStage::ConnectTarget, Some("connect_target")),
        (CycleStage::WriteChunk, Some("write_chunk")),
        (CycleStage::AddReplica, Some("update_metadata")),
    ];
    for (stage, name) in cases {
        let mut cluster = hello();
        cluster.broken.push(stage);
        let cycle = cluster.run(100);
        assert!(cycle.replicated().is_empty());
        let names: Vec<String> =
            cycle.failures().iter().map(|f| f.labels().error_type).collect();
        assert_eq!(names, name.into_iter().collect::<Vec<&str>>(), "{:?}", stage);
        let cleaned = stage == CycleStage::AddReplica;
        assert_eq!(cluster.deleted, if cleaned { vec![42] } else { vec![] });
    }
    let mut cluster = hello();
    cluster.broken = vec![CycleStage::AddReplica, CycleStage::ConnectCleanup];
    let cycle = cluster.run(100);
    assert_eq!(cycle.failures(), &vec![CycleFailure::UpdateMetadata]);
    assert!(cluster.deleted.is_empty());
    assert_eq!(CycleFailure::ConnectMetadata.labels().error_type, "connect_metadata");
}

#[test]
fn a_failed_chunk_does_not_stop_the_others() {
    let mut cluster = hello();
    cluster.under_replicated.insert(0, (7, 1, vec![1]));
    let cycle = cluster.run(100);
    assert_eq!(cycle.failures(), &vec![CycleFailure::ReadChunk]);
    assert_eq!(cycle.replicated(), &vec![(42, 2)]);
}

#[test]
fn the_service_connects_anew_after_three_failed_probes() {
    let mut health = ProbeHealth::new();
    for _ in 0..3 {
        assert!(!health.needs_reconnect());
        assert!(!health.on_probe(false));
    }
    assert!(health.needs_reconnect());
    health.on_reconnected();
    assert!(!health.needs_reconnect());
    health.on_probe(false);
    health.on_probe(false);
    assert!(health.on_probe(true));
    health.on_probe(false);
    assert!(!health.needs_reconnect());
    assert_eq!(DEFAULT_REPLICATION_INTERVAL_SECS, 60);
    assert_eq!(DEFAULT_MAX_CHUNKS_PER_CYCLE, 100);
    assert_eq!(WANTED_REPLICAS, 3);
}

#[test]
fn data_with_another_checksum_is_not_copied() {
    for computed in [5u32, 6] {
        let mut cycle = ReplicationCycle::start(10);
        cycle.on_chunks(vec![UnderReplicatedChunk {
            chunk_id: 1,
            checksum: 5,
            current_storage_node_ids: vec![1],
        }]);
        cycle.on_nodes(vec![
            MetaStorageNode { id: 1, address: "http://node1:3000".to_string() },
            MetaStorageNode { id: 2, address: "http://node2:3000".to_string() },
        ]);
        cycle.on_target(0);
        assert_eq!(cycle.target().id, 2);
        cycle.on_connected();
        cycle.on_free_chunks(1);
        cycle.on_source("http://node1:3000");
        cycle.on_connected();
        cycle.on_summed(vec![7, 8], computed);
        if computed == 5 {
            assert_eq!(cycle.stage(), CycleStage::ConnectTarget);
            assert_eq!(cycle.data(), &vec![7, 8]);
        } else {
            assert_eq!(cycle.stage(), CycleStage::Finished);
            assert_eq!(cycle.failures(), &vec![CycleFailure::ChecksumMismatch]);
        }
    }
}

#[test]
fn replicas_are_made_in_order_at_nodes_that_lack_the_chunk() {
    let mut cluster = hello();
    for id in [7, 9] {
        cluster.chunks.insert(id, b"hello world".to_vec());
    }
    // Chunk 8 is nowhere to be read, chunk 6 is on every node.
    cluster.under_replicated = vec![
        (9, 222957957, vec![2]),
        (8, 222957957, vec![1]),
        (6, 222957957, vec![1, 2]),
        (42, 222957957, vec![1]),
        (7, 222957957, vec![2]),
    ];
    let cycle = cluster.run(100);
    assert_eq!(cycle.replicated(), &vec![(9, 1), (42, 2), (7, 1)]);
    assert_eq!(cluster.replicas_added, vec![(9, 1), (42, 2), (7, 1)]);
    assert_eq!(cycle.failures(), &vec![CycleFailure::ReadChunk]);

    cluster.free_slots = 0;
    assert!(cluster.run(100).replicated().is_empty());
}
