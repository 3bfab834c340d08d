//! Giving chunks with too few replicas another one.
use vstd::prelude::*;

use crate::checksum::{checksum_of, compute_checksum};
use crate::metadata_store::{contains_id, node_views, MetaStorageNode, NodeRecord};
use crate::random::choose_one;

verus! {

/// How often replication runs, in seconds, where nothing else is configured.
pub const DEFAULT_REPLICATION_INTERVAL_SECS: u64 = 60;

/// How many chunks a cycle takes on where nothing else is configured.
pub const DEFAULT_MAX_CHUNKS_PER_CYCLE: usize = 100;

/// How many replicas a chunk should have.
pub const WANTED_REPLICAS: u32 = 3;

/// After this many failed probes in a row the service connects anew.
pub const MAX_CONSECUTIVE_FAILURES: u32 = 3;

/// What can go wrong in replication.
#[derive(Debug, Clone, Copy, PartialEq, Eq, Structural)]
pub enum CycleFailure {
    ListChunks,
    ListNodes,
    ConnectSource,
    ReadChunk,
    ChecksumMismatch,
    ConnectTarget,
    WriteChunk,
    UpdateMetadata,
    ConnectMetadata,
}

/// The labels under which failures are counted.
#[derive(Debug, PartialEq, Eq, Hash)]
pub struct FailureLabels {
    pub error_type: String,
}

/// The name under which a failure is counted.
pub open spec fn failure_name(failure: CycleFailure) -> Seq<char> {
    match failure {
        CycleFailure::ListChunks => "list_chunks"@,
        CycleFailure::ListNodes => "list_nodes"@,
        CycleFailure::ConnectSource => "connect_source"@,
        CycleFailure::ReadChunk => "read_chunk"@,
        CycleFailure::ChecksumMismatch => "checksum_mismatch"@,
        CycleFailure::ConnectTarget => "connect_target"@,
        CycleFailure::WriteChunk => "write_chunk"@,
        CycleFailure::UpdateMetadata => "update_metadata"@,
        CycleFailure::ConnectMetadata => "connect_metadata"@,
    }
}

impl CycleFailure {
    /// The labels under which the failure is counted.
    pub fn labels(&self) -> (r: FailureLabels)
        ensures
            r.error_type@ == failure_name(*self),
    {
        let name: &str = match self {
            CycleFailure::ListChunks => "list_chunks",
            CycleFailure::ListNodes => "list_nodes",
            CycleFailure::ConnectSource => "connect_source",
            CycleFailure::ReadChunk => "read_chunk",
            CycleFailure::ChecksumMismatch => "checksum_mismatch",
            CycleFailure::ConnectTarget => "connect_target",
            CycleFailure::WriteChunk => "write_chunk",
            CycleFailure::UpdateMetadata => "update_metadata",
            CycleFailure::ConnectMetadata => "connect_metadata",
        };
        FailureLabels { error_type: name.to_owned() }
    }
}

/// A chunk with too few replicas.
#[derive(Debug)]
pub struct UnderReplicatedChunk {
    pub chunk_id: u64,
    pub checksum: u32,
    /// The ids of the storage nodes that hold it.
    pub current_storage_node_ids: Vec<u64>,
}

/// What an [`UnderReplicatedChunk`] stands for.
pub struct WantingChunk {
    pub id: u64,
    pub checksum: u32,
    pub nodes: Seq<u64>,
}

impl View for UnderReplicatedChunk {
    type V = WantingChunk;

    open spec fn view(&self) -> WantingChunk {
        WantingChunk {
            id: self.chunk_id,
            checksum: self.checksum,
            nodes: self.current_storage_node_ids@,
        }
    }
}

impl Clone for UnderReplicatedChunk {
    fn clone(&self) -> (r: Self)
        ensures
            r@ == self@,
    {
        let r = UnderReplicatedChunk {
            chunk_id: self.chunk_id,
            checksum: self.checksum,
            current_storage_node_ids: self.current_storage_node_ids.clone(),
        };
        assert(r.current_storage_node_ids@ =~= self.current_storage_node_ids@);
        r
    }
}

/// The views of a list of chunks.
pub open spec fn wanting_views(items: Seq<UnderReplicatedChunk>) -> Seq<WantingChunk> {
    items.map_values(|c: UnderReplicatedChunk| c@)
}

/// What is to be done next in a cycle.
#[derive(Debug, Clone, Copy, PartialEq, Eq, Structural)]
pub enum CycleStage {
    /// Ask the metadata server for the chunks with too few replicas.
    ListChunks,
    /// Ask it for the storage nodes.
    ListNodes,
    /// Pick one of [`ReplicationCycle::eligible`].
    PickTarget,
    /// Connect to the target, to see whether it has room.
    ConnectSpace,
    /// Ask the target for its free chunks.
    GetFreeChunks,
    /// Ask the metadata server for the address of the source.
    GetSource,
    /// Connect to the source.
    ConnectSource,
    /// Read the chunk there.
    ReadChunk,
    /// Connect to the target.
    ConnectTarget,
    /// Write the chunk there.
    WriteChunk,
    /// Record the new replica in the metadata.
    AddReplica,
    /// The replica could not be recorded: connect to the target.
    ConnectCleanup,
    /// Delete the copy there.
    DeleteCopy,
    /// The cycle is over.
    Finished,
}

/// What a [`ReplicationCycle`] stands for.
pub struct Cycle {
    pub stage: CycleStage,
    /// How many chunks are taken on at most.
    pub limit: nat,
    /// How many chunks have too few replicas.
    pub total: nat,
    /// The chunks that are taken on.
    pub chunks: Seq<WantingChunk>,
    pub nodes: Seq<NodeRecord>,
    /// The index of the current chunk.
    pub next: nat,
    pub target: NodeRecord,
    /// How many chunks the target has said it has room for.
    pub room: u64,
    pub source_id: u64,
    pub source_address: Seq<char>,
    pub data: Seq<u8>,
    /// The chunks that got another replica, each with its storage node.
    pub replicated: Seq<(u64, u64)>,
    pub failures: Seq<CycleFailure>,
    /// Whether the cycle's duration is recorded.
    pub timed: bool,
}

/// The storage nodes that do not hold a chunk yet.
pub open spec fn eligible_nodes(nodes: Seq<NodeRecord>, holders: Seq<u64>) -> Seq<NodeRecord> {
    nodes.filter(|n: NodeRecord| !holders.contains(n.id))
}

impl Cycle {
    pub open spec fn at(self, stage: CycleStage) -> Cycle {
        Cycle { stage, ..self }
    }

    /// The chunk that is being replicated.
    pub open spec fn current(self) -> WantingChunk {
        self.chunks[self.next as int]
    }

    /// Goes to the first chunk, from the index `k` on, that can be replicated
    /// at all; where there is none the cycle is over.
    pub open spec fn seek(self, k: nat) -> Cycle
        decreases self.chunks.len() - k,
    {
        if k >= self.chunks.len() {
            Cycle { stage: CycleStage::Finished, next: k, timed: true, ..self }
        } else if eligible_nodes(self.nodes, self.chunks[k as int].nodes).len() == 0 {
            self.seek(k + 1)
        } else {
            Cycle { stage: CycleStage::PickTarget, next: k, ..self }
        }
    }

    /// Goes on with the next chunk.
    pub open spec fn skip(self) -> Cycle {
        self.seek(self.next + 1)
    }

    /// Counts a failure and goes on with the next chunk.
    pub open spec fn skip_failed(self, failure: CycleFailure) -> Cycle {
        Cycle { failures: self.failures.push(failure), ..self }.skip()
    }

    /// Counts a failure and ends the cycle.
    pub open spec fn abort(self, failure: CycleFailure) -> Cycle {
        Cycle {
            stage: CycleStage::Finished,
            failures: self.failures.push(failure),
            ..self
        }
    }
}

/// A cycle at its start.
pub open spec fn cycle_started(limit: nat) -> Cycle {
    Cycle {
        stage: CycleStage::ListChunks,
        limit,
        total: 0,
        chunks: Seq::<WantingChunk>::empty(),
        nodes: Seq::<NodeRecord>::empty(),
        next: 0,
        target: NodeRecord { id: 0, address: Seq::<char>::empty() },
        room: 0,
        source_id: 0,
        source_address: Seq::<char>::empty(),
        data: Seq::<u8>::empty(),
        replicated: Seq::<(u64, u64)>::empty(),
        failures: Seq::<CycleFailure>::empty(),
        timed: false,
    }
}

/// The cycle once the chunks are known: it takes on the first of them, up to
/// the limit.
pub open spec fn cycle_chunks(c: Cycle, chunks: Seq<WantingChunk>) -> Cycle {
    if c.stage != CycleStage::ListChunks {
        c
    } else if chunks.len() == 0 {
        Cycle { stage: CycleStage::Finished, timed: true, ..c }
    } else {
        Cycle {
            stage: CycleStage::ListNodes,
            total: chunks.len(),
            chunks: if chunks.len() > c.limit {
                chunks.take(c.limit as int)
            } else {
                chunks
            },
            ..c
        }
    }
}

/// How many chunks the limit left out.
pub open spec fn cycle_left_out(c: Cycle) -> nat {
    if c.total > c.limit {
        (c.total - c.limit) as nat
    } else {
        0
    }
}

/// The cycle once the storage nodes are known.
pub open spec fn cycle_nodes(c: Cycle, nodes: Seq<NodeRecord>) -> Cycle {
    if c.stage != CycleStage::ListNodes {
        c
    } else if nodes.len() == 0 {
        c.at(CycleStage::Finished)
    } else {
        Cycle { nodes, ..c }.seek(0)
    }
}

/// The cycle once a target is picked among the eligible nodes.
pub open spec fn cycle_target(c: Cycle, index: int) -> Cycle {
    if c.stage != CycleStage::PickTarget {
        c
    } else {
        Cycle {
            stage: CycleStage::ConnectSpace,
            target: eligible_nodes(c.nodes, c.current().nodes)[index],
            room: 0,
            ..c
        }
    }
}

/// The cycle once its pending connection stands.
pub open spec fn cycle_connected(c: Cycle) -> Cycle {
    match c.stage {
        CycleStage::ConnectSpace => c.at(CycleStage::GetFreeChunks),
        CycleStage::ConnectSource => c.at(CycleStage::ReadChunk),
        CycleStage::ConnectTarget => c.at(CycleStage::WriteChunk),
        CycleStage::ConnectCleanup => c.at(CycleStage::DeleteCopy),
        _ => c,
    }
}

/// The cycle once it is known how much room the target has. A chunk that is
/// nowhere cannot be copied.
pub open spec fn cycle_free_chunks(c: Cycle, free: u64) -> Cycle {
    if c.stage != CycleStage::GetFreeChunks {
        c
    } else if free == 0 || c.current().nodes.len() == 0 {
        Cycle { room: free, ..c }.skip()
    } else {
        Cycle {
            stage: CycleStage::GetSource,
            room: free,
            source_id: c.current().nodes[0],
            ..c
        }
    }
}

/// The cycle once the source's address is known.
pub open spec fn cycle_source(c: Cycle, address: Seq<char>) -> Cycle {
    if c.stage != CycleStage::GetSource {
        c
    } else {
        Cycle { stage: CycleStage::ConnectSource, source_address: address, ..c }
    }
}

/// The cycle once the chunk is read: data that does not match the checksum is
/// not copied.
pub open spec fn cycle_data(c: Cycle, data: Seq<u8>) -> Cycle {
    cycle_summed(c, data, checksum_of(data))
}

/// The cycle once the chunk is read and its checksum is known.
pub open spec fn cycle_summed(c: Cycle, data: Seq<u8>, computed: u32) -> Cycle {
    if c.stage != CycleStage::ReadChunk {
        c
    } else if computed != c.current().checksum {
        c.skip_failed(CycleFailure::ChecksumMismatch)
    } else {
        Cycle { stage: CycleStage::ConnectTarget, data, ..c }
    }
}

/// The cycle once the chunk is written.
pub open spec fn cycle_written(c: Cycle) -> Cycle {
    if c.stage != CycleStage::WriteChunk {
        c
    } else {
        c.at(CycleStage::AddReplica)
    }
}

/// The cycle once the replica is recorded.
pub open spec fn cycle_added(c: Cycle) -> Cycle {
    if c.stage != CycleStage::AddReplica {
        c
    } else {
        Cycle { replicated: c.replicated.push((c.current().id, c.target.id)), ..c }.skip()
    }
}

/// The cycle once the copy is deleted again.
pub open spec fn cycle_deleted(c: Cycle) -> Cycle {
    if c.stage != CycleStage::DeleteCopy {
        c
    } else {
        c.skip_failed(CycleFailure::UpdateMetadata)
    }
}

/// The cycle once its pending request has failed.
pub open spec fn cycle_failed(c: Cycle) -> Cycle {
    match c.stage {
        CycleStage::ListChunks => c.abort(CycleFailure::ListChunks),
        CycleStage::ListNodes => c.abort(CycleFailure::ListNodes),
        CycleStage::ConnectSpace | CycleStage::GetFreeChunks => c.skip(),
        CycleStage::GetSource | CycleStage::ConnectSource => c.skip_failed(
            CycleFailure::ConnectSource,
        ),
        CycleStage::ReadChunk => c.skip_failed(CycleFailure::ReadChunk),
        CycleStage::ConnectTarget => c.skip_failed(CycleFailure::ConnectTarget),
        CycleStage::WriteChunk => c.skip_failed(CycleFailure::WriteChunk),
        CycleStage::AddReplica => c.at(CycleStage::ConnectCleanup),
        CycleStage::ConnectCleanup | CycleStage::DeleteCopy => c.skip_failed(
            CycleFailure::UpdateMetadata,
        ),
        CycleStage::PickTarget | CycleStage::Finished => c,
    }
}

/// One run over the chunks with too few replicas. [`ReplicationCycle::stage`]
/// says what to do next; the outcome is handed back by one of the `on_`
/// methods. An outcome of something that was not asked for changes nothing.
pub struct ReplicationCycle {
    stage: CycleStage,
    limit: usize,
    total: usize,
    chunks: Vec<UnderReplicatedChunk>,
    nodes: Vec<MetaStorageNode>,
    next: usize,
    target: MetaStorageNode,
    room: Ghost<u64>,
    source_id: u64,
    source_address: String,
    data: Vec<u8>,
    replicated: Vec<(u64, u64)>,
    failures: Vec<CycleFailure>,
    timed: bool,
}

impl View for ReplicationCycle {
    type V = Cycle;

    closed spec fn view(&self) -> Cycle {
        Cycle {
            stage: self.stage,
            limit: self.limit as nat,
            total: self.total as nat,
            chunks: wanting_views(self.chunks@),
            nodes: node_views(self.nodes@),
            next: self.next as nat,
            target: self.target@,
            room: self.room@,
            source_id: self.source_id,
            source_address: self.source_address@,
            data: self.data@,
            replicated: self.replicated@,
            failures: self.failures@,
            timed: self.timed,
        }
    }
}

/// Whether a stage is about one chunk.
pub open spec fn about_a_chunk(stage: CycleStage) -> bool {
    !(stage == CycleStage::ListChunks || stage == CycleStage::ListNodes || stage
        == CycleStage::Finished)
}

/// Where a cycle is about a chunk, there is one, with a node to copy it to.
pub open spec fn cycle_wf(c: Cycle) -> bool {
    about_a_chunk(c.stage) ==> c.next < c.chunks.len() && eligible_nodes(
        c.nodes,
        c.current().nodes,
    ).len() > 0
}

/// The storage nodes that do not hold a chunk yet.
fn find_eligible(nodes: &Vec<MetaStorageNode>, holders: &Vec<u64>) -> (r: Vec<MetaStorageNode>)
    ensures
        node_views(r@) == eligible_nodes(node_views(nodes@), holders@),
{
    let ghost all = node_views(nodes@);
    let mut r: Vec<MetaStorageNode> = Vec::new();
    let mut i: usize = 0;
    proof {
        reveal(Seq::filter);
    }
    assert(node_views(r@) =~= eligible_nodes(all.take(0), holders@));
    while i < nodes.len()
        invariant
            i <= nodes@.len(),
            all == node_views(nodes@),
            node_views(r@) == eligible_nodes(all.take(i as int), holders@),
        decreases nodes@.len() - i,
    {
        reveal(Seq::filter);
        let ghost before = node_views(r@);
        assert(all.take(i + 1).drop_last() =~= all.take(i as int));
        assert(all.take(i + 1).last() == nodes@[i as int]@);
        if !contains_id(holders, nodes[i].id) {
            r.push(nodes[i].clone());
            assert(node_views(r@) =~= before.push(nodes@[i as int]@));
        }
        i = i + 1;
    }
    assert(all.take(all.len() as int) =~= all);
    r
}

impl ReplicationCycle {
    /// Where the cycle is about a chunk, there is one.
    pub open spec fn wf(self) -> bool {
        cycle_wf(self@)
    }

    /// Starts a cycle that takes on at most `limit` chunks.
    pub fn start(limit: usize) -> (r: Self)
        ensures
            r.wf(),
            r@ == cycle_started(limit as nat),
    {
        let r = ReplicationCycle {
            stage: CycleStage::ListChunks,
            limit,
            total: 0,
            chunks: Vec::new(),
            nodes: Vec::new(),
            next: 0,
            target: MetaStorageNode { id: 0, address: String::new() },
            room: Ghost(0),
            source_id: 0,
            source_address: String::new(),
            data: Vec::new(),
            replicated: Vec::new(),
            failures: Vec::new(),
            timed: false,
        };
        assert(r@.chunks =~= Seq::<WantingChunk>::empty());
        assert(r@.nodes =~= Seq::<NodeRecord>::empty());
        r
    }

    /// What is to be done next.
    pub fn stage(&self) -> (r: CycleStage)
        ensures
            r == self@.stage,
    {
        self.stage
    }

    /// How many chunks have too few replicas.
    pub fn total(&self) -> (r: usize)
        ensures
            r == self@.total,
    {
        self.total
    }

    /// How many chunks the limit left out.
    pub fn left_out(&self) -> (r: usize)
        ensures
            r == cycle_left_out(self@),
    {
        if self.total > self.limit {
            self.total - self.limit
        } else {
            0
        }
    }

    /// The id of the current chunk.
    pub fn chunk_id(&self) -> (r: u64)
        requires
            self.wf(),
            about_a_chunk(self@.stage),
        ensures
            r == self@.current().id,
    {
        assert(self@.chunks[self@.next as int] == self.chunks@[self.next as int]@);
        self.chunks[self.next].chunk_id
    }

    /// The storage nodes to which the current chunk can be copied.
    pub fn eligible(&self) -> (r: Vec<MetaStorageNode>)
        requires
            self.wf(),
            about_a_chunk(self@.stage),
        ensures
            node_views(r@) == eligible_nodes(self@.nodes, self@.current().nodes),
            r@.len() > 0,
    {
        assert(self@.chunks[self@.next as int] == self.chunks@[self.next as int]@);
        let r: Vec<MetaStorageNode> = find_eligible(
            &self.nodes,
            &self.chunks[self.next].current_storage_node_ids,
        );
        assert(r@.len() == node_views(r@).len());
        r
    }

    /// The storage node that is to get a copy.
    pub fn target(&self) -> (r: &MetaStorageNode)
        ensures
            r@ == self@.target,
    {
        &self.target
    }

    /// The id of the storage node to copy from.
    pub fn source_id(&self) -> (r: u64)
        ensures
            r == self@.source_id,
    {
        self.source_id
    }

    /// The address of the storage node to copy from.
    pub fn source_address(&self) -> (r: &str)
        ensures
            r@ == self@.source_address,
    {
        self.source_address.as_str()
    }

    /// The data to copy.
    pub fn data(&self) -> (r: &Vec<u8>)
        ensures
            r@ == self@.data,
    {
        &self.data
    }

    /// The chunks that got another replica, each with its storage node.
    pub fn replicated(&self) -> (r: &Vec<(u64, u64)>)
        ensures
            r@ == self@.replicated,
    {
        &self.replicated
    }

    /// What went wrong so far.
    pub fn failures(&self) -> (r: &Vec<CycleFailure>)
        ensures
            r@ == self@.failures,
    {
        &self.failures
    }

    /// Whether the cycle's duration is to be recorded.
    pub fn is_timed(&self) -> (r: bool)
        ensures
            r == self@.timed,
    {
        self.timed
    }

    fn seek(&mut self, from: usize)
        ensures
            final(self).wf(),
            final(self)@ == old(self)@.seek(from as nat),
    {
        let mut k: usize = from;
        let ghost c = self@;
        while k < self.chunks.len()
            invariant
                self@ == c,
                c == old(self)@,
                c.seek(from as nat) == c.seek(k as nat),
            decreases self.chunks@.len() - k,
        {
            assert(c.chunks[k as int] == self.chunks@[k as int]@);
            let found: Vec<MetaStorageNode> = find_eligible(
                &self.nodes,
                &self.chunks[k].current_storage_node_ids,
            );
            assert(found@.len() == node_views(found@).len());
            if found.len() > 0 {
                self.next = k;
                self.stage = CycleStage::PickTarget;
                return ;
            }
            k = k + 1;
        }
        self.next = k;
        self.stage = CycleStage::Finished;
        self.timed = true;
    }

    fn skip(&mut self)
        requires
            old(self)@.next < old(self)@.chunks.len(),
        ensures
            final(self).wf(),
            final(self)@ == old(self)@.skip(),
    {
        assert(self.next < self.chunks.len());
        self.seek(self.next + 1);
    }

    fn skip_failed(&mut self, failure: CycleFailure)
        requires
            old(self)@.next < old(self)@.chunks.len(),
        ensures
            final(self).wf(),
            final(self)@ == old(self)@.skip_failed(failure),
    {
        self.failures.push(failure);
        self.skip();
    }

    fn abort(&mut self, failure: CycleFailure)
        ensures
            final(self).wf(),
            final(self)@ == old(self)@.abort(failure),
    {
        self.failures.push(failure);
        self.stage = CycleStage::Finished;
    }

    /// The chunks with too few replicas have been listed.
    pub fn on_chunks(&mut self, chunks: Vec<UnderReplicatedChunk>)
        requires
            old(self).wf(),
        ensures
            final(self).wf(),
            final(self)@ == cycle_chunks(old(self)@, wanting_views(chunks@)),
    {
        if let CycleStage::ListChunks = self.stage {
            let ghost all = wanting_views(chunks@);
            let len: usize = chunks.len();
            if len == 0 {
                self.timed = true;
                self.stage = CycleStage::Finished;
            } else {
                self.total = len;
                let mut kept: Vec<UnderReplicatedChunk> = chunks;
                kept.truncate(self.limit);
                self.chunks = kept;
                self.stage = CycleStage::ListNodes;
                assert(self@.chunks =~= if all.len() > self.limit {
                    all.take(self.limit as int)
                } else {
                    all
                });
            }
        }
    }

    /// The storage nodes have been listed.
    pub fn on_nodes(&mut self, nodes: Vec<MetaStorageNode>)
        requires
            old(self).wf(),
        ensures
            final(self).wf(),
            final(self)@ == cycle_nodes(old(self)@, node_views(nodes@)),
    {
        if let CycleStage::ListNodes = self.stage {
            if nodes.len() == 0 {
                self.stage = CycleStage::Finished;
            } else {
                self.nodes = nodes;
                self.seek(0);
            }
        }
    }

    /// The target is the eligible node at `index`.
    pub fn on_target(&mut self, index: usize)
        requires
            old(self).wf(),
            old(self)@.stage == CycleStage::PickTarget ==> index < eligible_nodes(
                old(self)@.nodes,
                old(self)@.current().nodes,
            ).len(),
        ensures
            final(self).wf(),
            final(self)@ == cycle_target(old(self)@, index as int),
    {
        if let CycleStage::PickTarget = self.stage {
            let found: Vec<MetaStorageNode> = self.eligible();
            assert(node_views(found@)[index as int] == found@[index as int]@);
            self.target = found[index].clone();
            self.room = Ghost(0);
            self.stage = CycleStage::ConnectSpace;
        }
    }

    /// Picks some eligible node as the target.
    pub fn pick_target(&mut self)
        requires
            old(self).wf(),
        ensures
            final(self).wf(),
            old(self)@.stage != CycleStage::PickTarget ==> final(self)@ == old(self)@,
            old(self)@.stage == CycleStage::PickTarget ==> exists|index: int|
                0 <= index < eligible_nodes(old(self)@.nodes, old(self)@.current().nodes).len()
                    && final(self)@ == #[trigger] cycle_target(old(self)@, index),
    {
        if let CycleStage::PickTarget = self.stage {
            let found: Vec<MetaStorageNode> = self.eligible();
            let positions: Vec<usize> = positions_of(found.len());
            assert(found@.len() == node_views(found@).len());
            match choose_one(positions.as_slice()) {
                Some(index) => {
                    let index: usize = *index;
                    self.on_target(index);
                    assert(self@ == cycle_target(old(self)@, index as int));
                },
                None => {},
            }
        }
    }

    /// The node was reached.
    pub fn on_connected(&mut self)
        requires
            old(self).wf(),
        ensures
            final(self).wf(),
            final(self)@ == cycle_connected(old(self)@),
    {
        match self.stage {
            CycleStage::ConnectSpace => {
                self.stage = CycleStage::GetFreeChunks;
            },
            CycleStage::ConnectSource => {
                self.stage = CycleStage::ReadChunk;
            },
            CycleStage::ConnectTarget => {
                self.stage = CycleStage::WriteChunk;
            },
            CycleStage::ConnectCleanup => {
                self.stage = CycleStage::DeleteCopy;
            },
            _ => {},
        }
    }

    /// The target has room for this many chunks.
    pub fn on_free_chunks(&mut self, free: u64)
        requires
            old(self).wf(),
        ensures
            final(self).wf(),
            final(self)@ == cycle_free_chunks(old(self)@, free),
    {
        if let CycleStage::GetFreeChunks = self.stage {
            self.room = Ghost(free);
            assert(self@.chunks[self@.next as int] == self.chunks@[self.next as int]@);
            if free == 0 || self.chunks[self.next].current_storage_node_ids.len() == 0 {
                self.skip();
            } else {
                self.source_id = self.chunks[self.next].current_storage_node_ids[0];
                self.stage = CycleStage::GetSource;
            }
        }
    }

    /// The source has this address.
    pub fn on_source(&mut self, address: &str)
        requires
            old(self).wf(),
        ensures
            final(self).wf(),
            final(self)@ == cycle_source(old(self)@, address@),
    {
        if let CycleStage::GetSource = self.stage {
            self.source_address = address.to_owned();
            self.stage = CycleStage::ConnectSource;
        }
    }

    /// The chunk was read.
    pub fn on_data(&mut self, data: Vec<u8>)
        requires
            old(self).wf(),
        ensures
            final(self).wf(),
            final(self)@ == cycle_data(old(self)@, data@),
    {
        let computed: u32 = compute_checksum(data.as_slice());
        self.on_summed(data, computed);
    }

    /// The chunk was read, and has this checksum.
    pub fn on_summed(&mut self, data: Vec<u8>, computed: u32)
        requires
            old(self).wf(),
        ensures
            final(self).wf(),
            final(self)@ == cycle_summed(old(self)@, data@, computed),
    {
        if let CycleStage::ReadChunk = self.stage {
            assert(self@.chunks[self@.next as int] == self.chunks@[self.next as int]@);
            if computed != self.chunks[self.next].checksum {
                self.skip_failed(CycleFailure::ChecksumMismatch);
            } else {
                self.data = data;
                self.stage = CycleStage::ConnectTarget;
            }
        }
    }

    /// The chunk was written.
    pub fn on_written(&mut self)
        requires
            old(self).wf(),
        ensures
            final(self).wf(),
            final(self)@ == cycle_written(old(self)@),
    {
        if let CycleStage::WriteChunk = self.stage {
            self.stage = CycleStage::AddReplica;
        }
    }

    /// The replica was recorded.
    pub fn on_added(&mut self)
        requires
            old(self).wf(),
        ensures
            final(self).wf(),
            final(self)@ == cycle_added(old(self)@),
    {
        if let CycleStage::AddReplica = self.stage {
            let id: u64 = self.chunk_id();
            self.replicated.push((id, self.target.id));
            self.skip();
        }
    }

    /// The copy was deleted again.
    pub fn on_deleted(&mut self)
        requires
            old(self).wf(),
        ensures
            final(self).wf(),
            final(self)@ == cycle_deleted(old(self)@),
    {
        if let CycleStage::DeleteCopy = self.stage {
            self.skip_failed(CycleFailure::UpdateMetadata);
        }
    }

    /// What was asked for has failed.
    pub fn on_failed(&mut self)
        requires
            old(self).wf(),
        ensures
            final(self).wf(),
            final(self)@ == cycle_failed(old(self)@),
    {
        match self.stage {
            CycleStage::ListChunks => self.abort(CycleFailure::ListChunks),
            CycleStage::ListNodes => self.abort(CycleFailure::ListNodes),
            CycleStage::ConnectSpace | CycleStage::GetFreeChunks => self.skip(),
            CycleStage::GetSource | CycleStage::ConnectSource => self.skip_failed(
                CycleFailure::ConnectSource,
            ),
            CycleStage::ReadChunk => self.skip_failed(CycleFailure::ReadChunk),
            CycleStage::ConnectTarget => self.skip_failed(CycleFailure::ConnectTarget),
            CycleStage::WriteChunk => self.skip_failed(CycleFailure::WriteChunk),
            CycleStage::AddReplica => {
                self.stage = CycleStage::ConnectCleanup;
            },
            CycleStage::ConnectCleanup | CycleStage::DeleteCopy => self.skip_failed(
                CycleFailure::UpdateMetadata,
            ),
            CycleStage::PickTarget | CycleStage::Finished => {},
        }
    }
}

/// The positions `0..len`.
fn positions_of(len: usize) -> (r: Vec<usize>)
    ensures
        r@.len() == len,
        forall|x: usize| #[trigger] r@.contains(x) ==> x < len,
{
    let mut r: Vec<usize> = Vec::new();
    let mut i: usize = 0;
    while i < len
        invariant
            i <= len,
            r@.len() == i,
            forall|j: int| 0 <= j < i ==> r@[j] == j,
        decreases len - i,
    {
        r.push(i);
        i = i + 1;
    }
    r
}

/// Whether a stage is about a copy that has a source and a target with room.
pub open spec fn about_a_copy(stage: CycleStage) -> bool {
    about_a_chunk(stage) && !(stage == CycleStage::PickTarget || stage == CycleStage::ConnectSpace
        || stage == CycleStage::GetFreeChunks)
}

/// Whether a storage node may get a copy of a chunk: it is one of `nodes`, and
/// does not hold the chunk.
pub open spec fn may_hold(nodes: Seq<NodeRecord>, node_id: u64, chunk: WantingChunk) -> bool {
    &&& !chunk.nodes.contains(node_id)
    &&& exists|k: int| 0 <= k < nodes.len() && (#[trigger] nodes[k]).id == node_id
}

/// The replicas `made` are those of the chunks at the indices `at`, in
/// increasing order and before `end`, each at one of `nodes` that did not hold
/// the chunk.
pub open spec fn made_at(
    made: Seq<(u64, u64)>,
    chunks: Seq<WantingChunk>,
    nodes: Seq<NodeRecord>,
    end: nat,
    at: Seq<nat>,
) -> bool {
    &&& at.len() == made.len()
    &&& end <= chunks.len()
    &&& forall|i: int| 0 <= i < at.len() ==> #[trigger] at[i] < end
    &&& forall|i: int, j: int| 0 <= i < j < at.len() ==> #[trigger] at[i] < #[trigger] at[j]
    &&& forall|i: int|
        0 <= i < at.len() ==> (#[trigger] made[i]).0 == chunks[at[i] as int].id && may_hold(
            nodes,
            made[i].1,
            chunks[at[i] as int],
        )
}

/// The replicas `made` are of chunks before `end`, in order, each at one of
/// `nodes` that did not hold the chunk.
pub open spec fn made_in_order(
    made: Seq<(u64, u64)>,
    chunks: Seq<WantingChunk>,
    nodes: Seq<NodeRecord>,
    end: nat,
) -> bool {
    exists|at: Seq<nat>| #[trigger] made_at(made, chunks, nodes, end, at)
}

/// What holds of a cycle at every step: it takes on no more chunks than its
/// limit; the target of a copy is listed and does not hold the chunk yet; from
/// the choice of the source on, the target has said that it has room, and the
/// source is the first storage node of the chunk; what is copied has the
/// chunk's checksum; and the replicas that were made are of chunks before the
/// current one, in order, each at a listed node that did not hold the chunk.
pub open spec fn cycle_safe(c: Cycle) -> bool {
    &&& cycle_wf(c)
    &&& c.chunks.len() <= c.limit
    &&& c.replicated.len() <= c.next
    &&& c.stage == CycleStage::ListChunks || c.stage == CycleStage::ListNodes ==> c.next == 0
    &&& about_a_chunk(c.stage) && c.stage != CycleStage::PickTarget ==> c.nodes.contains(c.target)
        && !c.current().nodes.contains(c.target.id)
    &&& about_a_copy(c.stage) ==> c.room > 0 && c.current().nodes.len() > 0 && c.source_id
        == c.current().nodes[0]
    &&& matches!(
        c.stage,
        CycleStage::ConnectTarget | CycleStage::WriteChunk | CycleStage::AddReplica
    ) ==> checksum_of(c.data) == c.current().checksum
    &&& made_in_order(c.replicated, c.chunks, c.nodes, c.next)
}

proof fn seek_safe(c: Cycle, k: nat, at: Seq<nat>)
    requires
        c.chunks.len() <= c.limit,
        c.replicated.len() <= k,
        made_at(c.replicated, c.chunks, c.nodes, k, at),
    ensures
        cycle_safe(c.seek(k)),
    decreases c.chunks.len() - k,
{
    if k < c.chunks.len() && eligible_nodes(c.nodes, c.chunks[k as int].nodes).len() == 0 {
        assert(made_at(c.replicated, c.chunks, c.nodes, k + 1, at));
        seek_safe(c, k + 1, at);
    } else {
        assert(made_in_order(c.replicated, c.chunks, c.nodes, k));
    }
}

/// Where the cycle is about a copy to its target, the replica made there goes
/// behind those that were made.
proof fn target_goes_behind(c: Cycle, at: Seq<nat>)
    requires
        c.next < c.chunks.len(),
        c.nodes.contains(c.target),
        !c.current().nodes.contains(c.target.id),
        made_at(c.replicated, c.chunks, c.nodes, c.next, at),
    ensures
        made_at(
            c.replicated.push((c.current().id, c.target.id)),
            c.chunks,
            c.nodes,
            c.next + 1,
            at.push(c.next),
        ),
{
    let made = c.replicated.push((c.current().id, c.target.id));
    let all = at.push(c.next);
    let k = choose|k: int| 0 <= k < c.nodes.len() && c.nodes[k] == c.target;
    assert(c.nodes[k].id == c.target.id);
    assert forall|i: int| 0 <= i < all.len() implies (#[trigger] made[i]).0
        == c.chunks[all[i] as int].id && may_hold(
        c.nodes,
        made[i].1,
        c.chunks[all[i] as int],
    ) by {
        if i < at.len() {
            assert(c.replicated[i] == made[i]);
            assert(at[i] == all[i]);
        }
    }
}

proof fn eligible_is_eligible(nodes: Seq<NodeRecord>, holders: Seq<u64>)
    ensures
        forall|i: int|
            0 <= i < eligible_nodes(nodes, holders).len() ==> nodes.contains(
                #[trigger] eligible_nodes(nodes, holders)[i],
            ) && !holders.contains(eligible_nodes(nodes, holders)[i].id),
    decreases nodes.len(),
{
    reveal(Seq::filter);
    if nodes.len() > 0 {
        let rest = nodes.drop_last();
        eligible_is_eligible(rest, holders);
        let all = eligible_nodes(nodes, holders);
        let before = eligible_nodes(rest, holders);
        assert forall|i: int| 0 <= i < all.len() implies nodes.contains(#[trigger] all[i])
            && !holders.contains(all[i].id) by {
            if i < before.len() {
                assert(all[i] == before[i]);
                let j = choose|j: int| 0 <= j < rest.len() && rest[j] == before[i];
                assert(nodes[j] == all[i]);
            } else {
                assert(all[i] == nodes.last());
                assert(nodes[nodes.len() - 1] == all[i]);
            }
        }
    }
}

/// Every cycle is safe when it starts, and every step keeps it so.
pub proof fn every_cycle_step_is_safe(
    c: Cycle,
    limit: nat,
    chunks: Seq<WantingChunk>,
    nodes: Seq<NodeRecord>,
    index: int,
    free: u64,
    address: Seq<char>,
    data: Seq<u8>,
)
    requires
        c.stage == CycleStage::PickTarget ==> 0 <= index < eligible_nodes(
            c.nodes,
            c.current().nodes,
        ).len(),
    ensures
        cycle_safe(cycle_started(limit)),
        cycle_safe(c) ==> {
            &&& cycle_safe(cycle_chunks(c, chunks))
            &&& cycle_safe(cycle_nodes(c, nodes))
            &&& cycle_safe(cycle_target(c, index))
            &&& cycle_safe(cycle_connected(c))
            &&& cycle_safe(cycle_free_chunks(c, free))
            &&& cycle_safe(cycle_source(c, address))
            &&& cycle_safe(cycle_data(c, data))
            &&& cycle_safe(cycle_written(c))
            &&& cycle_safe(cycle_added(c))
            &&& cycle_safe(cycle_deleted(c))
            &&& cycle_safe(cycle_failed(c))
        },
{
    assert(made_at(
        Seq::<(u64, u64)>::empty(),
        Seq::<WantingChunk>::empty(),
        Seq::<NodeRecord>::empty(),
        0,
        Seq::<nat>::empty(),
    ));
    assert(cycle_safe(cycle_started(limit)));
    if cycle_safe(c) {
        let at = choose|at: Seq<nat>| #[trigger]
            made_at(c.replicated, c.chunks, c.nodes, c.next, at);
        if c.stage == CycleStage::ListChunks {
            let next = cycle_chunks(c, chunks);
            assert(made_at(next.replicated, next.chunks, next.nodes, next.next, at));
        }
        if c.stage == CycleStage::ListNodes {
            assert(made_at(c.replicated, c.chunks, nodes, 0, at));
            seek_safe(Cycle { nodes, ..c }, 0, at);
        }
        if c.stage == CycleStage::PickTarget {
            eligible_is_eligible(c.nodes, c.current().nodes);
        }
        if about_a_chunk(c.stage) {
            assert(made_at(c.replicated, c.chunks, c.nodes, c.next + 1, at));
            seek_safe(c, c.next + 1, at);
            seek_safe(Cycle { room: free, ..c }, c.next + 1, at);
            assert forall|failure: CycleFailure| cycle_safe(#[trigger] c.skip_failed(failure)) by {
                seek_safe(Cycle { failures: c.failures.push(failure), ..c }, c.next + 1, at);
            }
        }
        if c.stage == CycleStage::AddReplica {
            target_goes_behind(c, at);
            seek_safe(
                Cycle { replicated: c.replicated.push((c.current().id, c.target.id)), ..c },
                c.next + 1,
                at.push(c.next),
            );
        }
    }
}

/// A cycle gives no more chunks another replica than its limit allows.
pub proof fn a_cycle_keeps_to_its_limit(c: Cycle)
    requires
        cycle_safe(c),
    ensures
        c.replicated.len() <= c.limit,
{
}

/// What a cycle finds.
pub struct CycleAnswers {
    /// The chunks with too few replicas, if the metadata server tells them.
    pub chunks: Option<Seq<WantingChunk>>,
    /// The storage nodes, if it tells them.
    pub nodes: Option<Seq<NodeRecord>>,
    /// The position among the eligible nodes that is picked for each chunk.
    pub pick: spec_fn(nat) -> int,
    /// How many chunks the target of each chunk has room for.
    pub free: spec_fn(nat) -> u64,
    /// The address of the source of each chunk.
    pub address: spec_fn(nat) -> Seq<char>,
    /// What is read of each chunk.
    pub data: spec_fn(nat) -> Seq<u8>,
    /// Whether what a chunk needs at a stage fails.
    pub fails: spec_fn(nat, CycleStage) -> bool,
}

/// The cycle after the next thing that it asks for.
pub open spec fn cycle_next(c: Cycle, answers: CycleAnswers) -> Cycle {
    match c.stage {
        CycleStage::ListChunks => match answers.chunks {
            Some(chunks) => cycle_chunks(c, chunks),
            None => cycle_failed(c),
        },
        CycleStage::ListNodes => match answers.nodes {
            Some(nodes) => cycle_nodes(c, nodes),
            None => cycle_failed(c),
        },
        CycleStage::PickTarget => cycle_target(c, (answers.pick)(c.next)),
        CycleStage::Finished => c,
        _ => if (answers.fails)(c.next, c.stage) {
            cycle_failed(c)
        } else {
            match c.stage {
                CycleStage::GetFreeChunks => cycle_free_chunks(c, (answers.free)(c.next)),
                CycleStage::GetSource => cycle_source(c, (answers.address)(c.next)),
                CycleStage::ReadChunk => cycle_data(c, (answers.data)(c.next)),
                CycleStage::WriteChunk => cycle_written(c),
                CycleStage::AddReplica => cycle_added(c),
                CycleStage::DeleteCopy => cycle_deleted(c),
                _ => cycle_connected(c),
            }
        },
    }
}

/// The cycle after `steps` things that it asked for.
pub open spec fn cycle_after(limit: nat, answers: CycleAnswers, steps: nat) -> Cycle
    decreases steps,
{
    if steps == 0 {
        cycle_started(limit)
    } else {
        cycle_next(cycle_after(limit, answers, (steps - 1) as nat), answers)
    }
}

/// The chunks that a cycle takes on: the first of those it is told, up to its
/// limit.
pub open spec fn taken_on(limit: nat, chunks: Seq<WantingChunk>) -> Seq<WantingChunk> {
    if chunks.len() > limit {
        chunks.take(limit as int)
    } else {
        chunks
    }
}

/// Whether nothing fails before the copy of the chunk at index `k` is to be
/// written: the target is reached and has room, and the chunk is read from a
/// node that has it, with the right checksum.
pub open spec fn is_read(chunk: WantingChunk, answers: CycleAnswers, k: nat) -> bool {
    &&& !(answers.fails)(k, CycleStage::ConnectSpace)
    &&& !(answers.fails)(k, CycleStage::GetFreeChunks)
    &&& (answers.free)(k) > 0
    &&& chunk.nodes.len() > 0
    &&& !(answers.fails)(k, CycleStage::GetSource)
    &&& !(answers.fails)(k, CycleStage::ConnectSource)
    &&& !(answers.fails)(k, CycleStage::ReadChunk)
    &&& checksum_of((answers.data)(k)) == chunk.checksum
}

/// Whether the chunk at index `k` gets another replica: some node can get it,
/// the chunk is read, and the copy is written and recorded.
pub open spec fn gets_replica(
    chunk: WantingChunk,
    nodes: Seq<NodeRecord>,
    answers: CycleAnswers,
    k: nat,
) -> bool {
    &&& eligible_nodes(nodes, chunk.nodes).len() > 0
    &&& is_read(chunk, answers, k)
    &&& !(answers.fails)(k, CycleStage::ConnectTarget)
    &&& !(answers.fails)(k, CycleStage::WriteChunk)
    &&& !(answers.fails)(k, CycleStage::AddReplica)
}

/// The replicas of the first `n` chunks that get one, each at the node that is
/// picked for it.
pub open spec fn replicas_upto(
    chunks: Seq<WantingChunk>,
    nodes: Seq<NodeRecord>,
    answers: CycleAnswers,
    n: nat,
) -> Seq<(u64, u64)>
    decreases n,
{
    if n == 0 {
        Seq::<(u64, u64)>::empty()
    } else {
        let k = (n - 1) as nat;
        let chunk = chunks[k as int];
        let before = replicas_upto(chunks, nodes, answers, k);
        if gets_replica(chunk, nodes, answers, k) {
            before.push((chunk.id, eligible_nodes(nodes, chunk.nodes)[(answers.pick)(k)].id))
        } else {
            before
        }
    }
}

/// Whether the chunk has come as far as its stage says.
spec fn chunk_on_its_way(c: Cycle, answers: CycleAnswers) -> bool {
    let k = c.next;
    let chunk = c.current();
    &&& eligible_nodes(c.nodes, chunk.nodes).len() > 0
    &&& c.stage != CycleStage::PickTarget ==> c.target == eligible_nodes(c.nodes, chunk.nodes)[(
    answers.pick)(k)]
    &&& match c.stage {
        CycleStage::GetFreeChunks => !(answers.fails)(k, CycleStage::ConnectSpace),
        CycleStage::GetSource => {
            &&& !(answers.fails)(k, CycleStage::ConnectSpace)
            &&& !(answers.fails)(k, CycleStage::GetFreeChunks)
            &&& (answers.free)(k) > 0
            &&& chunk.nodes.len() > 0
        },
        CycleStage::ConnectSource => {
            &&& !(answers.fails)(k, CycleStage::ConnectSpace)
            &&& !(answers.fails)(k, CycleStage::GetFreeChunks)
            &&& (answers.free)(k) > 0
            &&& chunk.nodes.len() > 0
            &&& !(answers.fails)(k, CycleStage::GetSource)
        },
        CycleStage::ReadChunk => {
            &&& !(answers.fails)(k, CycleStage::ConnectSpace)
            &&& !(answers.fails)(k, CycleStage::GetFreeChunks)
            &&& (answers.free)(k) > 0
            &&& chunk.nodes.len() > 0
            &&& !(answers.fails)(k, CycleStage::GetSource)
            &&& !(answers.fails)(k, CycleStage::ConnectSource)
        },
        CycleStage::ConnectTarget => is_read(chunk, answers, k),
        CycleStage::WriteChunk => is_read(chunk, answers, k) && !(answers.fails)(
            k,
            CycleStage::ConnectTarget,
        ),
        CycleStage::AddReplica => is_read(chunk, answers, k) && !(answers.fails)(
            k,
            CycleStage::ConnectTarget,
        ) && !(answers.fails)(k, CycleStage::WriteChunk),
        CycleStage::ConnectCleanup | CycleStage::DeleteCopy => (answers.fails)(
            k,
            CycleStage::AddReplica,
        ),
        _ => true,
    }
}

/// How many things are left to be done for a cycle at most.
spec fn cycle_left(c: Cycle) -> int {
    let chunks = 11 * (c.chunks.len() - c.next);
    match c.stage {
        CycleStage::ListChunks | CycleStage::ListNodes => chunks + 1,
        CycleStage::PickTarget => chunks,
        CycleStage::ConnectSpace => chunks - 1,
        CycleStage::GetFreeChunks => chunks - 2,
        CycleStage::GetSource => chunks - 3,
        CycleStage::ConnectSource => chunks - 4,
        CycleStage::ReadChunk => chunks - 5,
        CycleStage::ConnectTarget => chunks - 6,
        CycleStage::WriteChunk => chunks - 7,
        CycleStage::AddReplica => chunks - 8,
        CycleStage::ConnectCleanup => chunks - 9,
        CycleStage::DeleteCopy => chunks - 10,
        CycleStage::Finished => 0,
    }
}

/// The cycle `found` goes on with a chunk that some node can get, and has made
/// all replicas before it; or it is over, and has made all.
spec fn passed_over(c: Cycle, found: Cycle, answers: CycleAnswers) -> bool {
    &&& found.limit == c.limit
    &&& found.chunks == c.chunks
    &&& found.nodes == c.nodes
    &&& found.next <= c.chunks.len()
    &&& found.replicated == replicas_upto(c.chunks, c.nodes, answers, found.next)
    &&& found.stage == CycleStage::Finished ==> found.next == c.chunks.len()
    &&& found.stage == CycleStage::Finished || found.stage == CycleStage::PickTarget && found.next
        < c.chunks.len() && chunk_on_its_way(found, answers)
}

proof fn seek_passes_over(c: Cycle, k: nat, answers: CycleAnswers)
    requires
        k <= c.chunks.len(),
        c.replicated == replicas_upto(c.chunks, c.nodes, answers, k),
    ensures
        passed_over(c, c.seek(k), answers),
        c.seek(k).next >= k,
    decreases c.chunks.len() - k,
{
    if k < c.chunks.len() && eligible_nodes(c.nodes, c.chunks[k as int].nodes).len() == 0 {
        seek_passes_over(c, k + 1, answers);
    }
}

proof fn cycle_keeps_to_its_end(
    limit: nat,
    chunks: Seq<WantingChunk>,
    nodes: Seq<NodeRecord>,
    answers: CycleAnswers,
    steps: nat,
)
    requires
        answers.chunks == Some(chunks),
        answers.nodes == Some(nodes),
    ensures
        ({
            let c = cycle_after(limit, answers, steps);
            let all = taken_on(limit, chunks);
            &&& c.limit == limit
            &&& c.next <= c.chunks.len()
            &&& match c.stage {
                CycleStage::ListChunks => c == cycle_started(limit) && steps == 0,
                CycleStage::ListNodes => c.chunks == all && c.next == 0 && c.replicated.len() == 0
                    && steps == 1,
                CycleStage::Finished => c.replicated == replicas_upto(
                    all,
                    nodes,
                    answers,
                    all.len(),
                ),
                _ => {
                    &&& c.chunks == all
                    &&& c.nodes == nodes
                    &&& c.next < all.len()
                    &&& c.replicated == replicas_upto(all, nodes, answers, c.next)
                    &&& chunk_on_its_way(c, answers)
                    &&& 0 < cycle_left(c) <= 11 * all.len() + 2 - steps
                },
            }
        }),
    decreases steps,
{
    let all = taken_on(limit, chunks);
    if steps > 0 {
        let before = (steps - 1) as nat;
        cycle_keeps_to_its_end(limit, chunks, nodes, answers, before);
        let c = cycle_after(limit, answers, before);
        match c.stage {
            CycleStage::ListChunks => {
                if chunks.len() == 0 {
                    assert(c.replicated =~= replicas_upto(all, nodes, answers, 0));
                }
            },
            CycleStage::ListNodes => {
                assert(c.replicated =~= replicas_upto(all, nodes, answers, 0));
                if nodes.len() == 0 {
                    no_nodes_no_replicas(all, nodes, answers, all.len());
                } else {
                    seek_passes_over(Cycle { nodes, ..c }, 0, answers);
                }
            },
            CycleStage::Finished => {},
            _ => {
                let k = c.next;
                if gets_replica(c.current(), nodes, answers, k) {
                    if c.stage == CycleStage::AddReplica {
                        let more = Cycle {
                            replicated: c.replicated.push((c.current().id, c.target.id)),
                            ..c
                        };
                        seek_passes_over(more, k + 1, answers);
                    }
                } else {
                    seek_passes_over(c, k + 1, answers);
                    seek_passes_over(
                        Cycle { room: (answers.free)(k), ..c },
                        k + 1,
                        answers,
                    );
                    assert forall|failure: CycleFailure| passed_over(
                        c,
                        #[trigger] c.skip_failed(failure),
                        answers,
                    ) && c.skip_failed(failure).next > k by {
                        seek_passes_over(
                            Cycle { failures: c.failures.push(failure), ..c },
                            k + 1,
                            answers,
                        );
                    }
                }
            },
        }
    }
}

proof fn no_nodes_no_replicas(
    chunks: Seq<WantingChunk>,
    nodes: Seq<NodeRecord>,
    answers: CycleAnswers,
    n: nat,
)
    requires
        nodes.len() == 0,
    ensures
        replicas_upto(chunks, nodes, answers, n) == Seq::<(u64, u64)>::empty(),
    decreases n,
{
    if n > 0 {
        reveal(Seq::filter);
        no_nodes_no_replicas(chunks, nodes, answers, (n - 1) as nat);
    }
}

/// A cycle that is told of chunks and storage nodes ends, and has then given
/// another replica to exactly those of the chunks it takes on for which some
/// node can get one, the target has room, the chunk is read with the right
/// checksum, and the copy is written and recorded; what fails for one chunk
/// does not stop the others.
pub proof fn a_cycle_copies_what_it_can(
    limit: nat,
    chunks: Seq<WantingChunk>,
    nodes: Seq<NodeRecord>,
    answers: CycleAnswers,
    steps: nat,
)
    requires
        answers.chunks == Some(chunks),
        answers.nodes == Some(nodes),
    ensures
        ({
            let c = cycle_after(limit, answers, steps);
            let all = taken_on(limit, chunks);
            &&& steps >= 11 * all.len() + 2 ==> c.stage == CycleStage::Finished
            &&& c.stage == CycleStage::Finished ==> c.replicated == replicas_upto(
                all,
                nodes,
                answers,
                all.len(),
            )
        }),
{
    cycle_keeps_to_its_end(limit, chunks, nodes, answers, steps);
}

/// When the replication service has to connect anew: after a number of failed
/// probes in a row.
#[derive(Debug)]
pub struct ProbeHealth {
    failures: u32,
}

impl ProbeHealth {
    /// How many probes in a row have failed.
    pub closed spec fn failures(self) -> nat {
        self.failures as nat
    }

    /// The count stays within the limit.
    pub open spec fn wf(self) -> bool {
        self.failures() <= MAX_CONSECUTIVE_FAILURES
    }

    /// No probe has failed yet.
    pub fn new() -> (r: Self)
        ensures
            r.wf(),
            r.failures() == 0,
    {
        ProbeHealth { failures: 0 }
    }

    /// Whether to connect anew before the next probe.
    pub fn needs_reconnect(&self) -> (r: bool)
        ensures
            r == (self.failures() >= MAX_CONSECUTIVE_FAILURES),
    {
        self.failures >= MAX_CONSECUTIVE_FAILURES
    }

    /// A new connection was made.
    pub fn on_reconnected(&mut self)
        ensures
            final(self).wf(),
            final(self).failures() == 0,
    {
        self.failures = 0;
    }

    /// A probe came back: says whether a cycle is to be run.
    pub fn on_probe(&mut self, succeeded: bool) -> (r: bool)
        requires
            old(self).failures() < MAX_CONSECUTIVE_FAILURES,
        ensures
            final(self).wf(),
            r == succeeded,
            final(self).failures() == if succeeded {
                0
            } else {
                old(self).failures() + 1
            },
    {
        if succeeded {
            self.failures = 0;
        } else {
            self.failures = self.failures + 1;
        }
        succeeded
    }
}

} // verus!
