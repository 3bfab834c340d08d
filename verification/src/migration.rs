//! Taking over a part of the metadata when a server joins a cluster.
use vstd::prelude::*;

use crate::chunk_index::entry_views;
use crate::cluster_service::{
    chunk_transfer, object_transfer, transfer_of, Transfer, TransferEntry,
};
use crate::metadata_store::{
    chunk_views, object_views, ChunkRecord, ChunkStatus, MetaChunk, MetaObject, ObjectRecord,
};
use crate::text::texts;

verus! {

/// How often a server looks for others before it stays alone.
pub const MAX_PEER_WAITS: u32 = 30;

/// How long it waits in between, in milliseconds.
pub const PEER_WAIT_MILLIS: u64 = 1_000;

/// How long it lets the ring settle, in milliseconds.
pub const RING_SETTLE_MILLIS: u64 = 2_000;

/// What another server handed over.
pub struct Partition {
    pub objects: Vec<MetaObject>,
    pub chunks: Vec<MetaChunk>,
    /// The chunks, for the index.
    pub index_entries: Vec<(u64, String)>,
}

/// The objects among entries, as they are taken over.
pub open spec fn taken_objects(entries: Seq<Option<Transfer>>) -> Seq<ObjectRecord>
    decreases entries.len(),
{
    if entries.len() == 0 {
        Seq::<ObjectRecord>::empty()
    } else {
        let before = taken_objects(entries.drop_last());
        match entries.last() {
            Some(Transfer::Object { name, checksum, chunk_ids }) => before.push(
                ObjectRecord { name, checksum, chunks: chunk_ids, total_size: 0 },
            ),
            _ => before,
        }
    }
}

/// The chunks among entries, as they are taken over.
pub open spec fn taken_chunks(entries: Seq<Option<Transfer>>) -> Seq<ChunkRecord>
    decreases entries.len(),
{
    if entries.len() == 0 {
        Seq::<ChunkRecord>::empty()
    } else {
        let before = taken_chunks(entries.drop_last());
        match entries.last() {
            Some(Transfer::Chunk { id, object_name, checksum, storage_node_ids }) => before.push(
                ChunkRecord {
                    id,
                    object_name,
                    checksum,
                    storage_nodes: storage_node_ids,
                    status: ChunkStatus::Confirmed,
                },
            ),
            _ => before,
        }
    }
}

/// The index entries for chunks.
pub open spec fn index_of(chunks: Seq<ChunkRecord>) -> Seq<(u64, Seq<char>)> {
    chunks.map_values(|c: ChunkRecord| (c.id, c.object_name))
}

/// The views of a list of entries, some of which may be empty.
pub open spec fn optional_views(items: Seq<Option<TransferEntry>>) -> Seq<Option<Transfer>> {
    items.map_values(
        |e: Option<TransferEntry>|
            match e {
                Some(entry) => Some(entry@),
                None => None,
            },
    )
}

impl Partition {
    /// Sorts what was handed over into objects and chunks. Sizes are not handed
    /// over, and all chunks that are count as confirmed. Empty entries are no
    /// matter.
    pub fn collect(entries: Vec<Option<TransferEntry>>) -> (r: Self)
        ensures
            object_views(r.objects@) == taken_objects(optional_views(entries@)),
            chunk_views(r.chunks@) == taken_chunks(optional_views(entries@)),
            entry_views(r.index_entries@) == index_of(taken_chunks(optional_views(entries@))),
    {
        let ghost all = optional_views(entries@);
        let mut objects: Vec<MetaObject> = Vec::new();
        let mut chunks: Vec<MetaChunk> = Vec::new();
        let mut index_entries: Vec<(u64, String)> = Vec::new();
        let mut i: usize = 0;
        assert(object_views(objects@) =~= taken_objects(all.take(0)));
        assert(chunk_views(chunks@) =~= taken_chunks(all.take(0)));
        assert(entry_views(index_entries@) =~= index_of(taken_chunks(all.take(0))));
        while i < entries.len()
            invariant
                i <= entries@.len(),
                all == optional_views(entries@),
                object_views(objects@) == taken_objects(all.take(i as int)),
                chunk_views(chunks@) == taken_chunks(all.take(i as int)),
                entry_views(index_entries@) == index_of(taken_chunks(all.take(i as int))),
            decreases entries@.len() - i,
        {
            let ghost had_objects = object_views(objects@);
            let ghost had_chunks = chunk_views(chunks@);
            let ghost had_index = entry_views(index_entries@);
            assert(all.take(i + 1).drop_last() =~= all.take(i as int));
            assert(all.take(i + 1).last() == all[i as int]);
            match &entries[i] {
                Some(TransferEntry::Object { name, checksum, chunk_ids }) => {
                    let ids: Vec<u64> = chunk_ids.clone();
                    assert(ids@ =~= chunk_ids@);
                    let object = MetaObject {
                        name: name.clone(),
                        checksum: *checksum,
                        chunks: ids,
                        total_size: 0,
                    };
                    objects.push(object);
                    assert(object_views(objects@) =~= had_objects.push(object@));
                },
                Some(TransferEntry::Chunk { id, object_name, checksum, storage_node_ids }) => {
                    let nodes: Vec<u64> = storage_node_ids.clone();
                    assert(nodes@ =~= storage_node_ids@);
                    let chunk = MetaChunk {
                        id: *id,
                        object_name: object_name.clone(),
                        checksum: *checksum,
                        storage_nodes: nodes,
                        status: ChunkStatus::Confirmed,
                    };
                    let ghost record = chunk@;
                    index_entries.push((*id, object_name.clone()));
                    chunks.push(chunk);
                    proof {
                        assert(chunk_views(chunks@) =~= had_chunks.push(record));
                        assert(entry_views(index_entries@) =~= had_index.push(
                            (record.id, record.object_name),
                        ));
                        assert(index_of(had_chunks.push(record)) =~= index_of(had_chunks).push(
                            (record.id, record.object_name),
                        ));
                    }
                },
                None => {},
            }
            i = i + 1;
        }
        assert(all.take(all.len() as int) =~= all);
        Partition { objects, chunks, index_entries }
    }

    /// Whether nothing was handed over.
    pub fn is_empty(&self) -> (r: bool)
        ensures
            r == (self.objects@.len() == 0 && self.chunks@.len() == 0),
    {
        self.objects.len() == 0 && self.chunks.len() == 0
    }
}

/// An object as it is after being handed over.
pub open spec fn moved_object(object: ObjectRecord) -> ObjectRecord {
    ObjectRecord { total_size: 0, ..object }
}

/// A chunk as it is after being handed over.
pub open spec fn moved_chunk(chunk: ChunkRecord) -> ChunkRecord {
    ChunkRecord { status: ChunkStatus::Confirmed, ..chunk }
}

/// The objects of `items`, as they are after being handed over.
pub open spec fn moved_objects(items: Seq<(ObjectRecord, Seq<ChunkRecord>)>) -> Seq<ObjectRecord> {
    items.map_values(|e: (ObjectRecord, Seq<ChunkRecord>)| moved_object(e.0))
}

/// The chunks of `items`, as they are after being handed over.
pub open spec fn moved_chunks(items: Seq<(ObjectRecord, Seq<ChunkRecord>)>) -> Seq<ChunkRecord>
    decreases items.len(),
{
    if items.len() == 0 {
        Seq::<ChunkRecord>::empty()
    } else {
        moved_chunks(items.drop_last()) + items.last().1.map_values(
            |c: ChunkRecord| moved_chunk(c),
        )
    }
}

/// A sequence of entries, none of them empty.
pub open spec fn present(entries: Seq<Transfer>) -> Seq<Option<Transfer>> {
    entries.map_values(|e: Transfer| Some(e))
}

/// What one server hands over is what the other takes over: every object and
/// every chunk arrives, in order, except that sizes are set to zero and chunks
/// to confirmed.
pub proof fn a_transfer_arrives(items: Seq<(ObjectRecord, Seq<ChunkRecord>)>)
    ensures
        taken_objects(present(transfer_of(items))) == moved_objects(items),
        taken_chunks(present(transfer_of(items))) == moved_chunks(items),
    decreases items.len(),
{
    if items.len() == 0 {
        assert(present(transfer_of(items)) =~= Seq::<Option<Transfer>>::empty());
        assert(moved_objects(items) =~= Seq::<ObjectRecord>::empty());
    } else {
        let rest = items.drop_last();
        a_transfer_arrives(rest);
        let object = items.last().0;
        let chunks = items.last().1;
        let start = transfer_of(rest).push(object_transfer(object));
        let begun = present(start);
        assert(begun.drop_last() =~= present(transfer_of(rest)));
        assert(begun.last() == Some(object_transfer(object)));
        let sent = chunks.map_values(|c: ChunkRecord| chunk_transfer(c));
        assert(transfer_of(items) == start + sent);
        chunks_arrive(start, chunks, chunks.len() as int);
        assert(chunks.take(chunks.len() as int) =~= chunks);
        assert(taken_objects(begun) == taken_objects(present(transfer_of(rest))).push(
            moved_object(object),
        ));
        assert(moved_objects(items) =~= moved_objects(rest).push(moved_object(object)));
    }
}

proof fn chunks_arrive(start: Seq<Transfer>, chunks: Seq<ChunkRecord>, n: int)
    requires
        0 <= n <= chunks.len(),
    ensures
        taken_objects(
            present(start + chunks.take(n).map_values(|c: ChunkRecord| chunk_transfer(c))),
        ) == taken_objects(present(start)),
        taken_chunks(
            present(start + chunks.take(n).map_values(|c: ChunkRecord| chunk_transfer(c))),
        ) == taken_chunks(present(start)) + chunks.take(n).map_values(
            |c: ChunkRecord| moved_chunk(c),
        ),
    decreases n,
{
    let sent = chunks.take(n).map_values(|c: ChunkRecord| chunk_transfer(c));
    let moved = chunks.take(n).map_values(|c: ChunkRecord| moved_chunk(c));
    let all = present(start + sent);
    if n == 0 {
        assert(start + sent =~= start);
        assert(taken_chunks(present(start)) + moved =~= taken_chunks(present(start)));
    } else {
        chunks_arrive(start, chunks, n - 1);
        let sent_before = chunks.take(n - 1).map_values(|c: ChunkRecord| chunk_transfer(c));
        let moved_before = chunks.take(n - 1).map_values(|c: ChunkRecord| moved_chunk(c));
        assert(all.drop_last() =~= present(start + sent_before));
        assert(all.last() == Some(chunk_transfer(chunks[n - 1])));
        assert(moved =~= moved_before.push(moved_chunk(chunks[n - 1])));
        assert(taken_chunks(present(start)) + moved =~= (taken_chunks(present(start))
            + moved_before).push(moved_chunk(chunks[n - 1])));
    }
}

/// What is to be done next when a server joins.
#[derive(Debug, Clone, Copy, PartialEq, Eq, Structural)]
pub enum JoinStage {
    /// See whether there are other servers.
    CheckPeers,
    /// Wait for them.
    WaitForPeers,
    /// Let the ring settle, then find the owned ranges and the other servers.
    Settle,
    /// Take over from the server at [`JoinMigration::peer`].
    Pull,
    /// Tell the other servers of the chunks, if there are any.
    TellIndex,
    /// The migration is over.
    Finished,
}

/// What a [`JoinMigration`] stands for.
pub struct Joining {
    pub stage: JoinStage,
    pub waits: nat,
    pub ranges: Seq<(u64, u64)>,
    pub peers: Seq<Seq<char>>,
    pub next: nat,
}

/// A migration at its start.
pub open spec fn joining_started() -> Joining {
    Joining {
        stage: JoinStage::CheckPeers,
        waits: 0,
        ranges: Seq::<(u64, u64)>::empty(),
        peers: Seq::<Seq<char>>::empty(),
        next: 0,
    }
}

/// The migration once it is known whether there are other servers. After a
/// number of waits in vain the server stays alone.
pub open spec fn joining_checked(j: Joining, clustered: bool) -> Joining {
    if j.stage != JoinStage::CheckPeers {
        j
    } else if clustered {
        Joining { stage: JoinStage::Settle, ..j }
    } else if j.waits >= MAX_PEER_WAITS {
        Joining { stage: JoinStage::Finished, ..j }
    } else {
        Joining { stage: JoinStage::WaitForPeers, waits: j.waits + 1, ..j }
    }
}

/// The migration after a wait.
pub open spec fn joining_waited(j: Joining) -> Joining {
    if j.stage == JoinStage::WaitForPeers {
        Joining { stage: JoinStage::CheckPeers, ..j }
    } else {
        j
    }
}

/// The migration once the ring has settled. Without ranges there is nothing to
/// take over.
pub open spec fn joining_settled(
    j: Joining,
    ranges: Seq<(u64, u64)>,
    peers: Seq<Seq<char>>,
) -> Joining {
    if j.stage != JoinStage::Settle {
        j
    } else if ranges.len() == 0 {
        Joining { stage: JoinStage::Finished, ..j }
    } else {
        Joining {
            stage: if peers.len() == 0 {
                JoinStage::TellIndex
            } else {
                JoinStage::Pull
            },
            ranges,
            peers,
            next: 0,
            ..j
        }
    }
}

/// The migration once one server has handed over, or failed to.
pub open spec fn joining_pulled(j: Joining) -> Joining {
    if j.stage != JoinStage::Pull {
        j
    } else {
        Joining {
            stage: if j.next + 1 < j.peers.len() {
                JoinStage::Pull
            } else {
                JoinStage::TellIndex
            },
            next: j.next + 1,
            ..j
        }
    }
}

/// The migration once the other servers know of the chunks.
pub open spec fn joining_told(j: Joining) -> Joining {
    if j.stage == JoinStage::TellIndex {
        Joining { stage: JoinStage::Finished, ..j }
    } else {
        j
    }
}

/// The steps of a server that joins: it waits for others, takes over what it
/// owns from each of them, and tells them of its chunks. [`JoinMigration::stage`]
/// says what to do next; the outcome is handed back by one of the `on_` methods.
pub struct JoinMigration {
    stage: JoinStage,
    waits: u32,
    ranges: Vec<(u64, u64)>,
    peers: Vec<String>,
    next: usize,
}

impl View for JoinMigration {
    type V = Joining;

    closed spec fn view(&self) -> Joining {
        Joining {
            stage: self.stage,
            waits: self.waits as nat,
            ranges: self.ranges@,
            peers: texts(self.peers@),
            next: self.next as nat,
        }
    }
}

impl JoinMigration {
    /// It waits only so often, and takes over from a server that is there.
    pub open spec fn wf(self) -> bool {
        &&& self@.waits <= MAX_PEER_WAITS
        &&& self@.stage == JoinStage::Pull ==> self@.next < self@.peers.len()
    }

    /// Starts a migration.
    pub fn start() -> (r: Self)
        ensures
            r.wf(),
            r@ == joining_started(),
    {
        let r = JoinMigration {
            stage: JoinStage::CheckPeers,
            waits: 0,
            ranges: Vec::new(),
            peers: Vec::new(),
            next: 0,
        };
        assert(r@.peers =~= Seq::<Seq<char>>::empty());
        r
    }

    /// What is to be done next.
    pub fn stage(&self) -> (r: JoinStage)
        ensures
            r == self@.stage,
    {
        self.stage
    }

    /// The ranges that the server owns.
    pub fn ranges(&self) -> (r: &Vec<(u64, u64)>)
        ensures
            r@ == self@.ranges,
    {
        &self.ranges
    }

    /// The server to take over from.
    pub fn peer(&self) -> (r: &str)
        requires
            self.wf(),
            self@.stage == JoinStage::Pull,
        ensures
            r@ == self@.peers[self@.next as int],
    {
        assert(self@.peers[self@.next as int] == self.peers@[self.next as int]@);
        self.peers[self.next].as_str()
    }

    /// Whether there are other servers.
    pub fn on_checked(&mut self, clustered: bool)
        requires
            old(self).wf(),
        ensures
            final(self).wf(),
            final(self)@ == joining_checked(old(self)@, clustered),
    {
        if let JoinStage::CheckPeers = self.stage {
            if clustered {
                self.stage = JoinStage::Settle;
            } else if self.waits >= MAX_PEER_WAITS {
                self.stage = JoinStage::Finished;
            } else {
                self.waits = self.waits + 1;
                self.stage = JoinStage::WaitForPeers;
            }
        }
    }

    /// The wait is over.
    pub fn on_waited(&mut self)
        requires
            old(self).wf(),
        ensures
            final(self).wf(),
            final(self)@ == joining_waited(old(self)@),
    {
        if let JoinStage::WaitForPeers = self.stage {
            self.stage = JoinStage::CheckPeers;
        }
    }

    /// The ring has settled: the server owns `ranges`, and the others are at
    /// `peers`.
    pub fn on_settled(&mut self, ranges: Vec<(u64, u64)>, peers: Vec<String>)
        requires
            old(self).wf(),
        ensures
            final(self).wf(),
            final(self)@ == joining_settled(old(self)@, ranges@, texts(peers@)),
    {
        if let JoinStage::Settle = self.stage {
            if ranges.len() == 0 {
                self.stage = JoinStage::Finished;
            } else {
                if peers.len() == 0 {
                    self.stage = JoinStage::TellIndex;
                } else {
                    self.stage = JoinStage::Pull;
                }
                self.ranges = ranges;
                self.peers = peers;
                self.next = 0;
            }
        }
    }

    /// The server has handed over, or failed to.
    pub fn on_pulled(&mut self)
        requires
            old(self).wf(),
        ensures
            final(self).wf(),
            final(self)@ == joining_pulled(old(self)@),
    {
        if let JoinStage::Pull = self.stage {
            assert(self.next < self.peers.len());
            self.next = self.next + 1;
            if self.next < self.peers.len() {
                self.stage = JoinStage::Pull;
            } else {
                self.stage = JoinStage::TellIndex;
            }
        }
    }

    /// The other servers know of the chunks.
    pub fn on_told(&mut self)
        requires
            old(self).wf(),
        ensures
            final(self).wf(),
            final(self)@ == joining_told(old(self)@),
    {
        if let JoinStage::TellIndex = self.stage {
            self.stage = JoinStage::Finished;
        }
    }
}

/// What a server finds when it joins.
pub struct JoinAnswers {
    /// Whether there are other servers, by the number of the check.
    pub clustered: spec_fn(nat) -> bool,
    /// The ranges that it owns once the ring has settled.
    pub ranges: Seq<(u64, u64)>,
    /// The addresses of the other servers then.
    pub peers: Seq<Seq<char>>,
}

/// What a server asks of others when it joins.
pub enum JoinRequest {
    /// That the server at an address hands over.
    Pull(Seq<char>),
    /// That all others take note of its chunks.
    Tell,
}

/// The migration after what it asks for next was done.
pub open spec fn joining_next(j: Joining, answers: JoinAnswers) -> Joining {
    match j.stage {
        JoinStage::CheckPeers => joining_checked(j, (answers.clustered)(j.waits)),
        JoinStage::WaitForPeers => joining_waited(j),
        JoinStage::Settle => joining_settled(j, answers.ranges, answers.peers),
        JoinStage::Pull => joining_pulled(j),
        JoinStage::TellIndex => joining_told(j),
        JoinStage::Finished => j,
    }
}

/// The migration after `steps` things that it asked for.
pub open spec fn joining_after(answers: JoinAnswers, steps: nat) -> Joining
    decreases steps,
{
    if steps == 0 {
        joining_started()
    } else {
        joining_next(joining_after(answers, (steps - 1) as nat), answers)
    }
}

/// What the server has asked of others within `steps`, in order.
pub open spec fn joining_asked(answers: JoinAnswers, steps: nat) -> Seq<JoinRequest>
    decreases steps,
{
    if steps == 0 {
        Seq::<JoinRequest>::empty()
    } else {
        let asked = joining_asked(answers, (steps - 1) as nat);
        let j = joining_after(answers, (steps - 1) as nat);
        match j.stage {
            JoinStage::Pull => asked.push(JoinRequest::Pull(j.peers[j.next as int])),
            JoinStage::TellIndex => asked.push(JoinRequest::Tell),
            _ => asked,
        }
    }
}

/// That each of the servers hands over.
pub open spec fn pulls(peers: Seq<Seq<char>>) -> Seq<JoinRequest> {
    peers.map_values(|peer: Seq<char>| JoinRequest::Pull(peer))
}

/// Whether there are other servers at one of the checks that are made.
pub open spec fn finds_peers(answers: JoinAnswers) -> bool {
    exists|k: nat| k <= MAX_PEER_WAITS && #[trigger] (answers.clustered)(k)
}

proof fn joining_keeps_to_its_end(answers: JoinAnswers, steps: nat)
    ensures
        ({
            let j = joining_after(answers, steps);
            let asked = joining_asked(answers, steps);
            let joined = (answers.clustered)(j.waits);
            &&& j.waits <= MAX_PEER_WAITS
            &&& j.stage == JoinStage::CheckPeers || j.stage == JoinStage::WaitForPeers
                ==> forall|k: nat| k < j.waits ==> !#[trigger] (answers.clustered)(k)
            &&& match j.stage {
                JoinStage::CheckPeers => steps == 2 * j.waits && asked.len() == 0,
                JoinStage::WaitForPeers => steps + 1 == 2 * j.waits && asked.len() == 0,
                JoinStage::Settle => joined && steps == 2 * j.waits + 1 && asked.len() == 0,
                JoinStage::Pull => {
                    &&& joined
                    &&& answers.ranges.len() > 0
                    &&& j.ranges == answers.ranges
                    &&& j.peers == answers.peers
                    &&& j.next < answers.peers.len()
                    &&& steps == 2 * j.waits + 2 + j.next
                    &&& asked == pulls(answers.peers.take(j.next as int))
                },
                JoinStage::TellIndex => {
                    &&& joined
                    &&& answers.ranges.len() > 0
                    &&& steps == 2 * j.waits + 2 + answers.peers.len()
                    &&& asked == pulls(answers.peers)
                },
                JoinStage::Finished => asked == if finds_peers(answers) && answers.ranges.len()
                    > 0 {
                    pulls(answers.peers).push(JoinRequest::Tell)
                } else {
                    Seq::<JoinRequest>::empty()
                },
            }
        }),
    decreases steps,
{
    if steps > 0 {
        let before = (steps - 1) as nat;
        joining_keeps_to_its_end(answers, before);
        let j = joining_after(answers, before);
        let asked = joining_asked(answers, steps);
        match j.stage {
            JoinStage::CheckPeers => {
                assert(asked =~= Seq::<JoinRequest>::empty());
                if !(answers.clustered)(j.waits) {
                    assert forall|k: nat| k < j.waits + 1 implies !#[trigger] (answers.clustered)(
                        k,
                    ) by {
                        if k < j.waits {
                            assert(!(answers.clustered)(k));
                        }
                    }
                }
            },
            JoinStage::Settle => {
                assert(asked =~= Seq::<JoinRequest>::empty());
                assert(pulls(answers.peers.take(0)) =~= Seq::<JoinRequest>::empty());
                if answers.peers.len() == 0 {
                    assert(pulls(answers.peers) =~= Seq::<JoinRequest>::empty());
                }
            },
            JoinStage::Pull => {
                let n = j.next as int;
                assert(asked =~= pulls(answers.peers.take(n + 1)));
                assert(answers.peers.take(answers.peers.len() as int) =~= answers.peers);
            },
            _ => {},
        }
    }
}

/// A server that joins asks each of the others once, in order, to hand over
/// what it owns, and then tells them of its chunks; it asks nothing where it
/// finds no others in time, or owns nothing. Its migration always ends.
pub proof fn a_joining_server_asks_every_other(answers: JoinAnswers, steps: nat)
    ensures
        ({
            let j = joining_after(answers, steps);
            &&& steps >= 2 * MAX_PEER_WAITS + 3 + answers.peers.len() ==> j.stage
                == JoinStage::Finished
            &&& j.stage == JoinStage::Finished ==> joining_asked(answers, steps)
                == if finds_peers(answers) && answers.ranges.len() > 0 {
                pulls(answers.peers).push(JoinRequest::Tell)
            } else {
                Seq::<JoinRequest>::empty()
            }
            &&& j.stage == JoinStage::Pull ==> j.ranges == answers.ranges
        }),
{
    joining_keeps_to_its_end(answers, steps);
}

} // verus!
