//! What a replication cycle does for each chunk: which storage nodes it may
//! copy to, where it reads and writes, and what it counts.
use vstd::prelude::*;

use crate::checksum::checksum_of;
use crate::metadata_store::NodeRecord;
use crate::replication::{
    about_a_chunk, cycle_added, cycle_chunks, cycle_connected, cycle_data, cycle_deleted,
    cycle_failed, cycle_free_chunks, cycle_left_out, cycle_nodes, cycle_source, cycle_started,
    cycle_summed, cycle_target, cycle_written, eligible_nodes, failure_name, Cycle, CycleFailure,
    CycleStage, WantingChunk,
};
use crate::selection::{picks, picks_alike, picks_next, picks_none, picks_those};

verus! {

/// A chunk can be copied to every listed storage node that does not hold it
/// yet, in the order in which they are listed, and to no other.
pub proof fn every_node_without_the_chunk_is_eligible(nodes: Seq<NodeRecord>, holders: Seq<u64>)
    ensures
        picks(
            eligible_nodes(nodes, holders),
            nodes.len() as int,
            |k: int| !holders.contains(nodes[k].id),
            |k: int| nodes[k],
        ),
        forall|k: int|
            0 <= k < nodes.len() && !holders.contains((#[trigger] nodes[k]).id) ==> eligible_nodes(
                nodes,
                holders,
            ).contains(nodes[k]),
        forall|i: int|
            0 <= i < eligible_nodes(nodes, holders).len() ==> nodes.contains(
                #[trigger] eligible_nodes(nodes, holders)[i],
            ) && !holders.contains(eligible_nodes(nodes, holders)[i].id),
        eligible_nodes(nodes, holders).len() == 0 <==> forall|k: int|
            0 <= k < nodes.len() ==> holders.contains((#[trigger] nodes[k]).id),
    decreases nodes.len(),
{
    reveal(Seq::filter);
    let wanted = |k: int| !holders.contains(nodes[k].id);
    let value = |k: int| nodes[k];
    let all = eligible_nodes(nodes, holders);
    let n = nodes.len() as int;
    if n == 0 {
        picks_none(wanted, value);
        assert(all =~= Seq::<NodeRecord>::empty());
    } else {
        let rest = nodes.drop_last();
        every_node_without_the_chunk_is_eligible(rest, holders);
        picks_alike(
            eligible_nodes(rest, holders),
            n - 1,
            |k: int| !holders.contains(rest[k].id),
            |k: int| rest[k],
            wanted,
            value,
        );
        picks_next(eligible_nodes(rest, holders), n - 1, wanted, value);
    }
    picks_those(all, n, wanted, value);
    assert forall|k: int|
        0 <= k < n && !holders.contains((#[trigger] nodes[k]).id) implies all.contains(nodes[k]) by {
        assert(wanted(k));
    }
    assert forall|i: int| 0 <= i < all.len() implies nodes.contains(#[trigger] all[i])
        && !holders.contains(all[i].id) by {
        let k = choose|k: int| 0 <= k < n && #[trigger] wanted(k) && all[i] == value(k);
        assert(nodes[k] == all[i]);
    }
    if all.len() > 0 {
        let k = choose|k: int| 0 <= k < nodes.len() && nodes[k] == all[0];
        assert(!holders.contains(nodes[k].id));
    }
}

/// A cycle takes on the chunks that it is told of first, as many as its limit
/// allows, and counts all of them; those it leaves out make up the rest.
pub proof fn a_cycle_takes_on_the_first_chunks(c: Cycle, chunks: Seq<WantingChunk>)
    requires
        c.stage == CycleStage::ListChunks,
    ensures
        ({
            let after = cycle_chunks(c, chunks);
            &&& chunks.len() == 0 <==> after.stage == CycleStage::Finished
            &&& chunks.len() == 0 ==> after.timed
            &&& chunks.len() > 0 ==> {
                &&& after.stage == CycleStage::ListNodes
                &&& after.total == chunks.len()
                &&& after.chunks.len() <= c.limit
                &&& after.chunks.len() < chunks.len() ==> after.chunks.len() == c.limit
                &&& after.chunks.is_prefix_of(chunks)
                &&& after.chunks.len() + cycle_left_out(after) == chunks.len()
                &&& after.timed == c.timed
            }
            &&& after.replicated == c.replicated && after.failures == c.failures && after.limit
                == c.limit && after.next == c.next
        }),
{
    let after = cycle_chunks(c, chunks);
    if chunks.len() > 0 {
        assert(after.chunks =~= chunks.subrange(0, after.chunks.len() as int));
    }
}

/// Whether some storage node can get a copy of the chunk at index `k`.
pub open spec fn can_be_copied(c: Cycle, k: int) -> bool {
    exists|i: int| 0 <= i < c.nodes.len() && !c.chunks[k].nodes.contains((#[trigger] c.nodes[i]).id)
}

/// Going on from index `k` leads to the first chunk from there on that some
/// storage node can get. Where there is none the cycle is over, and timed.
/// Nothing else changes.
pub proof fn a_cycle_goes_on_with_the_first_chunk_it_can_copy(c: Cycle, k: nat)
    ensures
        ({
            let found = c.seek(k);
            &&& found.next >= k
            &&& forall|j: int|
                k <= j < found.next && j < c.chunks.len() ==> !#[trigger] can_be_copied(c, j)
            &&& if found.next < c.chunks.len() {
                &&& found.stage == CycleStage::PickTarget
                &&& can_be_copied(c, found.next as int)
                &&& found.timed == c.timed
            } else {
                &&& found.stage == CycleStage::Finished
                &&& found.timed
            }
            &&& found.chunks == c.chunks && found.nodes == c.nodes && found.limit == c.limit
                && found.total == c.total
            &&& found.replicated == c.replicated && found.failures == c.failures
        }),
    decreases c.chunks.len() - k,
{
    if k < c.chunks.len() {
        let holders = c.chunks[k as int].nodes;
        every_node_without_the_chunk_is_eligible(c.nodes, holders);
        if eligible_nodes(c.nodes, holders).len() == 0 {
            a_cycle_goes_on_with_the_first_chunk_it_can_copy(c, k + 1);
            assert(!can_be_copied(c, k as int));
        } else {
            let i = choose|i: int|
                0 <= i < c.nodes.len() && !holders.contains((#[trigger] c.nodes[i]).id);
            assert(!c.chunks[k as int].nodes.contains(c.nodes[i].id));
        }
    }
}

/// Once the storage nodes are told, a cycle without any is over, without being
/// timed; any other goes through its chunks from the first on.
pub proof fn a_cycle_needs_storage_nodes(c: Cycle, nodes: Seq<NodeRecord>)
    requires
        c.stage == CycleStage::ListNodes,
    ensures
        ({
            let after = cycle_nodes(c, nodes);
            &&& nodes.len() == 0 ==> after.stage == CycleStage::Finished && after.timed == c.timed
            &&& nodes.len() > 0 ==> after.nodes == nodes && forall|j: int|
                0 <= j < after.next && j < c.chunks.len() ==> !#[trigger] can_be_copied(after, j)
            &&& nodes.len() > 0 && after.stage != CycleStage::Finished ==> after.stage
                == CycleStage::PickTarget && after.next < c.chunks.len() && can_be_copied(
                after,
                after.next as int,
            )
            &&& after.chunks == c.chunks && after.replicated == c.replicated && after.failures
                == c.failures
        }),
{
    if nodes.len() > 0 {
        let told = Cycle { nodes, ..c };
        a_cycle_goes_on_with_the_first_chunk_it_can_copy(told, 0);
        let after = cycle_nodes(c, nodes);
        assert forall|j: int| 0 <= j < after.next && j < c.chunks.len() implies !#[trigger] can_be_copied(
            after,
            j,
        ) by {
            assert(!can_be_copied(told, j));
        }
        if after.next < c.chunks.len() {
            assert(can_be_copied(told, after.next as int));
        }
    }
}

/// The way of one copy: the target that was picked is asked for room; the chunk
/// is read at the address that was told of the first storage node that holds it;
/// what was read is written to the target; and the replica is recorded for the
/// chunk and this target. Nothing is counted as failed.
pub proof fn a_copy_goes_from_the_source_to_the_target(
    c: Cycle,
    index: int,
    free: u64,
    address: Seq<char>,
    data: Seq<u8>,
)
    requires
        c.stage == CycleStage::PickTarget,
        c.next < c.chunks.len(),
        0 <= index < eligible_nodes(c.nodes, c.chunks[c.next as int].nodes).len(),
        free > 0,
        c.chunks[c.next as int].nodes.len() > 0,
        checksum_of(data) == c.chunks[c.next as int].checksum,
    ensures
        ({
            let chunk = c.chunks[c.next as int];
            let target = eligible_nodes(c.nodes, chunk.nodes)[index];
            let picked = cycle_target(c, index);
            let asked = cycle_connected(picked);
            let roomy = cycle_free_chunks(asked, free);
            let located = cycle_source(roomy, address);
            let reading = cycle_connected(located);
            let read = cycle_data(reading, data);
            let writing = cycle_connected(read);
            let written = cycle_written(writing);
            let added = cycle_added(written);
            &&& picked.stage == CycleStage::ConnectSpace && picked.target == target
            &&& asked.stage == CycleStage::GetFreeChunks && asked.target == target
            &&& roomy.stage == CycleStage::GetSource && roomy.source_id == chunk.nodes[0]
            &&& located.stage == CycleStage::ConnectSource && located.source_address == address
            &&& reading.stage == CycleStage::ReadChunk && reading.source_address == address
                && reading.current() == chunk
            &&& read.stage == CycleStage::ConnectTarget && read.target == target
            &&& writing.stage == CycleStage::WriteChunk && writing.target == target && writing.data
                == data && writing.current() == chunk
            &&& written.stage == CycleStage::AddReplica && written.target == target
                && written.current() == chunk
            &&& added.replicated.len() == c.replicated.len() + 1
            &&& added.replicated.drop_last() == c.replicated
            &&& added.replicated.last() == (chunk.id, target.id)
            &&& added.failures == c.failures
            &&& added.next > c.next
        }),
{
    let written = cycle_written(
        cycle_connected(
            cycle_data(
                cycle_connected(
                    cycle_source(
                        cycle_free_chunks(cycle_connected(cycle_target(c, index)), free),
                        address,
                    ),
                ),
                data,
            ),
        ),
    );
    let more = Cycle {
        replicated: written.replicated.push((written.current().id, written.target.id)),
        ..written
    };
    a_cycle_goes_on_with_the_first_chunk_it_can_copy(more, c.next + 1);
    assert(cycle_added(written).replicated.drop_last() =~= c.replicated);
}

/// A target without room, and a chunk that no storage node holds, are passed
/// over without being counted as failed.
pub proof fn a_full_target_is_passed_over(c: Cycle, free: u64)
    requires
        c.stage == CycleStage::GetFreeChunks,
        c.next < c.chunks.len(),
    ensures
        ({
            let after = cycle_free_chunks(c, free);
            &&& after.stage == CycleStage::GetSource <==> free > 0 && c.chunks[c.next as int].nodes.len()
                > 0
            &&& after.stage != CycleStage::GetSource ==> after.next > c.next
            &&& after.failures == c.failures && after.replicated == c.replicated
        }),
{
    a_cycle_goes_on_with_the_first_chunk_it_can_copy(Cycle { room: free, ..c }, c.next + 1);
}

/// What was read is copied exactly where its checksum is the one that the
/// metadata has for the chunk; otherwise a mismatch is counted, once, and the
/// cycle goes on behind the chunk.
pub proof fn only_data_with_the_right_checksum_is_copied(c: Cycle, data: Seq<u8>, computed: u32)
    requires
        c.stage == CycleStage::ReadChunk,
        c.next < c.chunks.len(),
    ensures
        ({
            let after = cycle_summed(c, data, computed);
            &&& after.stage == CycleStage::ConnectTarget <==> computed
                == c.chunks[c.next as int].checksum
            &&& computed == c.chunks[c.next as int].checksum ==> after.data == data && after.target
                == c.target && after.failures == c.failures && after.next == c.next
            &&& computed != c.chunks[c.next as int].checksum ==> {
                &&& after.failures.len() == c.failures.len() + 1
                &&& after.failures.drop_last() == c.failures
                &&& after.failures.last() == CycleFailure::ChecksumMismatch
                &&& after.next > c.next
            }
            &&& after.replicated == c.replicated
        }),
        cycle_data(c, data) == cycle_summed(c, data, checksum_of(data)),
{
    let failure = CycleFailure::ChecksumMismatch;
    let counted = Cycle { failures: c.failures.push(failure), ..c };
    a_cycle_goes_on_with_the_first_chunk_it_can_copy(counted, c.next + 1);
    assert(counted.failures.drop_last() =~= c.failures);
}

/// What is counted where a request fails at each stage, if anything is.
pub open spec fn counted_at(stage: CycleStage) -> Option<CycleFailure> {
    if stage == CycleStage::ListChunks {
        Some(CycleFailure::ListChunks)
    } else if stage == CycleStage::ListNodes {
        Some(CycleFailure::ListNodes)
    } else if stage == CycleStage::GetSource || stage == CycleStage::ConnectSource {
        Some(CycleFailure::ConnectSource)
    } else if stage == CycleStage::ReadChunk {
        Some(CycleFailure::ReadChunk)
    } else if stage == CycleStage::ConnectTarget {
        Some(CycleFailure::ConnectTarget)
    } else if stage == CycleStage::WriteChunk {
        Some(CycleFailure::WriteChunk)
    } else if stage == CycleStage::ConnectCleanup || stage == CycleStage::DeleteCopy {
        Some(CycleFailure::UpdateMetadata)
    } else {
        None
    }
}

/// A failed request is counted, once, as what failed; asking a target for room
/// is not counted, nor is a replica that could not be recorded before its copy
/// is deleted again. Before the storage nodes are known a failure ends the
/// cycle; a replica that could not be recorded leads to its copy; any other
/// failure leads on behind the chunk. No replica is made or lost by a failure.
pub proof fn a_failure_is_counted_once(c: Cycle)
    requires
        about_a_chunk(c.stage) ==> c.next < c.chunks.len(),
    ensures
        ({
            let after = cycle_failed(c);
            &&& match counted_at(c.stage) {
                Some(failure) => {
                    &&& after.failures.len() == c.failures.len() + 1
                    &&& after.failures.drop_last() == c.failures
                    &&& after.failures.last() == failure
                },
                None => after.failures == c.failures,
            }
            &&& after.replicated == c.replicated && after.chunks == c.chunks
            &&& c.stage == CycleStage::ListChunks || c.stage == CycleStage::ListNodes ==> after.stage
                == CycleStage::Finished && after.timed == c.timed
            &&& c.stage == CycleStage::AddReplica ==> after.stage == CycleStage::ConnectCleanup
                && after.next == c.next && after.target == c.target
            &&& about_a_chunk(c.stage) && c.stage != CycleStage::AddReplica && c.stage
                != CycleStage::PickTarget ==> after.next > c.next && (after.stage
                == CycleStage::PickTarget || after.stage == CycleStage::Finished)
        }),
{
    a_cycle_goes_on_with_the_first_chunk_it_can_copy(c, c.next + 1);
    if let Some(failure) = counted_at(c.stage) {
        let counted = Cycle { failures: c.failures.push(failure), ..c };
        a_cycle_goes_on_with_the_first_chunk_it_can_copy(counted, c.next + 1);
        assert(counted.failures.drop_last() =~= c.failures);
    }
}

/// A copy whose replica could not be recorded is deleted at the target it was
/// written to, and then counted as a failure to update the metadata.
pub proof fn a_copy_that_is_not_recorded_is_deleted(c: Cycle)
    requires
        c.stage == CycleStage::AddReplica,
        c.next < c.chunks.len(),
    ensures
        ({
            let cleanup = cycle_failed(c);
            let deleting = cycle_connected(cleanup);
            let after = cycle_deleted(deleting);
            &&& cleanup.stage == CycleStage::ConnectCleanup && cleanup.target == c.target
            &&& deleting.stage == CycleStage::DeleteCopy && deleting.target == c.target
                && deleting.current() == c.current()
            &&& after.failures.len() == c.failures.len() + 1
            &&& after.failures.drop_last() == c.failures
            &&& after.failures.last() == CycleFailure::UpdateMetadata
            &&& after.replicated == c.replicated
            &&& after.next > c.next
        }),
{
    let counted = Cycle {
        failures: c.failures.push(CycleFailure::UpdateMetadata),
        ..cycle_connected(cycle_failed(c))
    };
    a_cycle_goes_on_with_the_first_chunk_it_can_copy(counted, c.next + 1);
    assert(counted.failures.drop_last() =~= c.failures);
}

/// The outcome of something that was not asked for changes nothing.
pub proof fn a_cycle_ignores_what_it_did_not_ask_for(
    c: Cycle,
    chunks: Seq<WantingChunk>,
    nodes: Seq<NodeRecord>,
    index: int,
    free: u64,
    address: Seq<char>,
    data: Seq<u8>,
    computed: u32,
)
    ensures
        c.stage != CycleStage::ListChunks ==> cycle_chunks(c, chunks) == c,
        c.stage != CycleStage::ListNodes ==> cycle_nodes(c, nodes) == c,
        c.stage != CycleStage::PickTarget ==> cycle_target(c, index) == c,
        c.stage != CycleStage::ConnectSpace && c.stage != CycleStage::ConnectSource && c.stage
            != CycleStage::ConnectTarget && c.stage != CycleStage::ConnectCleanup ==> cycle_connected(
            c,
        ) == c,
        c.stage != CycleStage::GetFreeChunks ==> cycle_free_chunks(c, free) == c,
        c.stage != CycleStage::GetSource ==> cycle_source(c, address) == c,
        c.stage != CycleStage::ReadChunk ==> cycle_data(c, data) == c && cycle_summed(
            c,
            data,
            computed,
        ) == c,
        c.stage != CycleStage::WriteChunk ==> cycle_written(c) == c,
        c.stage != CycleStage::AddReplica ==> cycle_added(c) == c,
        c.stage != CycleStage::DeleteCopy ==> cycle_deleted(c) == c,
        c.stage == CycleStage::PickTarget || c.stage == CycleStage::Finished ==> cycle_failed(c)
            == c,
{
}

/// A cycle starts with nothing taken on, made or counted.
pub proof fn a_cycle_starts_empty(limit: nat)
    ensures
        cycle_started(limit).stage == CycleStage::ListChunks,
        cycle_started(limit).limit == limit,
        cycle_started(limit).total == 0,
        cycle_started(limit).chunks.len() == 0,
        cycle_started(limit).next == 0,
        cycle_started(limit).replicated.len() == 0,
        cycle_started(limit).failures.len() == 0,
        !cycle_started(limit).timed,
{
}

/// Every kind of failure is counted under a name of its own.
pub proof fn failures_have_names_of_their_own(a: CycleFailure, b: CycleFailure)
    ensures
        failure_name(a) == failure_name(b) ==> a == b,
        failure_name(CycleFailure::ListChunks) == "list_chunks"@,
        failure_name(CycleFailure::ListNodes) == "list_nodes"@,
        failure_name(CycleFailure::ConnectSource) == "connect_source"@,
        failure_name(CycleFailure::ReadChunk) == "read_chunk"@,
        failure_name(CycleFailure::ChecksumMismatch) == "checksum_mismatch"@,
        failure_name(CycleFailure::ConnectTarget) == "connect_target"@,
        failure_name(CycleFailure::WriteChunk) == "write_chunk"@,
        failure_name(CycleFailure::UpdateMetadata) == "update_metadata"@,
        failure_name(CycleFailure::ConnectMetadata) == "connect_metadata"@,
{
    reveal_strlit("list_chunks");
    reveal_strlit("list_nodes");
    reveal_strlit("connect_source");
    reveal_strlit("read_chunk");
    reveal_strlit("checksum_mismatch");
    reveal_strlit("connect_target");
    reveal_strlit("write_chunk");
    reveal_strlit("update_metadata");
    reveal_strlit("connect_metadata");
    if failure_name(a) == failure_name(b) {
        let x = failure_name(a);
        let y = failure_name(b);
        assert(x.len() == y.len() && x[0] == y[0] && x[1] == y[1] && x[8] == y[8] && x[9] == y[9]);
    }
}

} // verus!
