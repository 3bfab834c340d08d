//! What the gateway's requests do step by step: which copies are deleted, where
//! chunks are read, and how requests are answered.
use vstd::prelude::*;

use crate::connect::{
    search_connected, search_failed, search_paused, search_started, ConnectStage, Search,
    GATEWAY_CONNECT_ROUNDS, NODE_CONNECT_ROUNDS, REPLICATION_CONNECT_ROUNDS, ROUND_PAUSE_MILLIS,
};
use crate::delete_object::{
    copies_of, deleting_copies, deleting_done, deleting_failed, deleting_object, deleting_started,
    metadata_text, DeleteStage, Deleting,
};
use crate::dispatch::{content_type_for, form_for, GetForm, MAX_JSON_BODY};
use crate::encoding::fits_in_base64;
use crate::forwarding::{
    gathering_connected, gathering_failed, gathering_items, unreachable_text, GatherStage,
    Gathering,
};
use crate::get_object::{
    getting_chunks, getting_missing, getting_object, getting_started, streaming_out_chunk,
    streaming_out_missing, streaming_out_object, streaming_out_started, unreadable_text, GetStage,
    Getting, StreamOutStage, StreamingOut,
};
use crate::http_reply::{
    STATUS_BAD_REQUEST, STATUS_CONFLICT, STATUS_INTERNAL_ERROR, STATUS_NOT_FOUND, STATUS_TOO_LARGE,
};
use crate::list_objects::{
    listing_connected, listing_encoded, listing_failed, listing_objects, no_node_quoted,
    unlisted_text, ListStage, Listing,
};
use crate::messages::{ChunkPlaces, ObjectPlaces};
use crate::metadata_store::MAX_REPLICAS;
use crate::migration::{
    joining_checked, joining_pulled, joining_settled, joining_told, joining_waited, JoinStage,
    Joining, MAX_PEER_WAITS, PEER_WAIT_MILLIS, RING_SETTLE_MILLIS,
};
use crate::object_name::{is_letter_or_digit, name_error, unicode_alphanumeric};
use crate::put_multipart::{
    streaming_no_field, streaming_nodes, streaming_started, StreamStage, Streaming,
};
use crate::put_object::{chunk_trouble, upload_nodes, PutStage, Upload, MAX_OBJECT_SIZE};
use crate::read_chunk::{
    asks_a_node, erasing_done, erasing_failed, reading_after, reading_connected, reading_done,
    reading_failed, reading_waited, EraseStage, Erasing, NodeAnswers, ReadStage,
    Reading, NODE_RETRIES,
};
use crate::replication::{
    DEFAULT_MAX_CHUNKS_PER_CYCLE, DEFAULT_REPLICATION_INTERVAL_SECS, MAX_CONSECUTIVE_FAILURES,
    WANTED_REPLICAS,
};
use crate::retry::{
    backoff_delay, call_failed, call_resumed, call_started, call_within_limit, CallProgress,
    CallStage, RetryConfig,
};
use crate::status::Code;
use crate::text::{decimal_text, occurs_in, text_less, text_less_total, texts_ascending};
use crate::text_laws::a_text_occurs_where_it_stands;

verus! {

/// An object's copies are those of its chunks, one after another: each chunk
/// adds exactly one copy for every storage node that holds it, in order, with
/// its own id and the node's address.
pub proof fn every_copy_of_every_chunk_is_named(chunks: Seq<ChunkPlaces>, chunk: ChunkPlaces)
    ensures
        copies_of(Seq::<ChunkPlaces>::empty()).len() == 0,
        ({
            let before = copies_of(chunks);
            let added = copies_of(chunks.push(chunk)).skip(before.len() as int);
            &&& copies_of(chunks.push(chunk)) == before + added
            &&& added.len() == chunk.nodes.len()
            &&& forall|j: int|
                0 <= j < chunk.nodes.len() ==> (#[trigger] added[j]).0 == chunk.id && added[j].1
                    == chunk.nodes[j].address
        }),
{
    let more = chunks.push(chunk);
    assert(more.drop_last() =~= chunks);
    assert(copies_of(more) =~= copies_of(chunks) + copies_of(more).skip(
        copies_of(chunks).len() as int,
    ));
}

/// Every copy of every chunk of an object is among those that are deleted, and
/// no other is.
pub proof fn no_copy_is_left_out(chunks: Seq<ChunkPlaces>)
    ensures
        forall|k: int, j: int|
            0 <= k < chunks.len() && 0 <= j < chunks[k].nodes.len() ==> copies_of(chunks).contains(
                (chunks[k].id, (#[trigger] chunks[k].nodes[j]).address),
            ),
        forall|i: int|
            0 <= i < copies_of(chunks).len() ==> is_copy_of_one(
                #[trigger] copies_of(chunks)[i],
                chunks,
            ),
    decreases chunks.len(),
{
    if chunks.len() > 0 {
        let rest = chunks.drop_last();
        let last = chunks.last();
        no_copy_is_left_out(rest);
        let before = copies_of(rest);
        let all = copies_of(chunks);
        assert forall|k: int, j: int|
            0 <= k < chunks.len() && 0 <= j < chunks[k].nodes.len() implies all.contains(
            (chunks[k].id, (#[trigger] chunks[k].nodes[j]).address),
        ) by {
            if k < rest.len() {
                assert(rest[k] == chunks[k]);
                let copy = (rest[k].id, rest[k].nodes[j].address);
                assert(before.contains(copy));
                let i = choose|i: int| 0 <= i < before.len() && before[i] == copy;
                assert(all[i] == copy);
            } else {
                assert(all[before.len() + j] == (last.id, last.nodes[j].address));
            }
        }
        assert forall|i: int| 0 <= i < all.len() implies is_copy_of_one(
            #[trigger] all[i],
            chunks,
        ) by {
            if i < before.len() {
                assert(all[i] == before[i]);
                assert(is_copy_of_one(before[i], rest));
                let (k, j) = choose|k: int, j: int|
                    0 <= k < rest.len() && 0 <= j < rest[k].nodes.len() && before[i] == (
                        rest[k].id,
                        (#[trigger] rest[k].nodes[j]).address,
                    );
                assert(chunks[k].nodes[j] == rest[k].nodes[j]);
            } else {
                let j = i - before.len();
                assert(all[i] == (
                    chunks[chunks.len() - 1].id,
                    chunks[chunks.len() - 1].nodes[j].address,
                ));
            }
        }
    }
}

/// Whether a copy is that of one of `chunks` at one of its storage nodes.
pub open spec fn is_copy_of_one(copy: (u64, Seq<char>), chunks: Seq<ChunkPlaces>) -> bool {
    exists|k: int, j: int|
        0 <= k < chunks.len() && 0 <= j < chunks[k].nodes.len() && copy == (
            chunks[k].id,
            (#[trigger] chunks[k].nodes[j]).address,
        )
}

/// A chunk is read under its own id at the addresses of the storage nodes that
/// hold it, in listed order: whenever a node is asked, it is at the address of
/// the node whose turn it is.
pub proof fn a_read_goes_to_the_nodes_of_its_chunk(
    chunk: ChunkPlaces,
    answers: NodeAnswers,
    steps: nat,
)
    ensures
        ({
            let r = reading_after(chunk, answers, steps);
            &&& r.chunk_id == chunk.id
            &&& r.addresses.len() == chunk.nodes.len()
            &&& forall|k: int|
                0 <= k < chunk.nodes.len() ==> #[trigger] r.addresses[k] == chunk.nodes[k].address
            &&& asks_a_node(r.stage) ==> r.node < chunk.nodes.len()
                && r.addresses[r.node as int] == chunk.nodes[r.node as int].address
        }),
    decreases steps,
{
    if steps > 0 {
        a_read_goes_to_the_nodes_of_its_chunk(chunk, answers, (steps - 1) as nat);
    }
}

/// A node that cannot be reached is passed over at once. One that does not give
/// the chunk is asked again, at most twice, after 100 and then 500 milliseconds;
/// a third failure leads to the next node, with a fresh count.
pub proof fn a_failed_read_is_repeated_twice(r: Reading)
    requires
        r.node < r.addresses.len(),
    ensures
        ({
            let after = reading_failed(r);
            let next = if r.node + 1 < r.addresses.len() {
                ReadStage::Connect
            } else {
                ReadStage::Exhausted
            };
            &&& r.stage == ReadStage::Connect ==> after.stage == next && after.node == r.node + 1
                && after.attempt == 0
            &&& r.stage == ReadStage::Read && r.attempt == 0 ==> after.stage == ReadStage::Wait
                && after.delay == 100 && after.attempt == 1 && after.node == r.node
            &&& r.stage == ReadStage::Read && r.attempt == 1 ==> after.stage == ReadStage::Wait
                && after.delay == 500 && after.attempt == 2 && after.node == r.node
            &&& r.stage == ReadStage::Read && r.attempt == 2 ==> after.stage == next && after.node
                == r.node + 1 && after.attempt == 0
            &&& after.addresses == r.addresses && after.chunk_id == r.chunk_id
        }),
        r.stage == ReadStage::Wait ==> reading_waited(r).stage == ReadStage::Read && reading_waited(
            r,
        ).node == r.node && reading_waited(r).attempt == r.attempt,
{
}

/// A copy that cannot be deleted is tried again, at most twice, after 100 and
/// then 500 milliseconds; a node that cannot be reached is given up at once.
pub proof fn a_failed_deletion_is_repeated_twice(e: Erasing)
    ensures
        e.stage == EraseStage::Connect ==> erasing_failed(e).stage == EraseStage::Failed,
        e.stage == EraseStage::Delete && e.attempt == 0 ==> erasing_failed(e).stage
            == EraseStage::Wait && erasing_failed(e).delay == 100 && erasing_failed(e).attempt == 1,
        e.stage == EraseStage::Delete && e.attempt == 1 ==> erasing_failed(e).stage
            == EraseStage::Wait && erasing_failed(e).delay == 500 && erasing_failed(e).attempt == 2,
        e.stage == EraseStage::Delete && e.attempt == 2 ==> erasing_failed(e).stage
            == EraseStage::Failed,
        e.stage == EraseStage::Wait ==> erasing_done(e).stage == EraseStage::Delete && erasing_done(
            e,
        ).attempt == e.attempt,
{
}

/// The outcome of something that was not asked for changes nothing of a read.
pub proof fn a_read_ignores_what_it_did_not_ask_for(r: Reading, bytes: Seq<u8>)
    ensures
        r.stage != ReadStage::Connect ==> reading_connected(r) == r,
        r.stage != ReadStage::Read ==> reading_done(r, bytes) == r,
        r.stage != ReadStage::Wait ==> reading_waited(r) == r,
        r.stage != ReadStage::Connect && r.stage != ReadStage::Read ==> reading_failed(r) == r,
        r.stage == ReadStage::Read ==> reading_done(r, bytes).bytes == bytes && reading_done(
            r,
            bytes,
        ).stage == ReadStage::Done,
{
}

/// The outcome of something that was not asked for changes nothing of a
/// deletion; an error of the metadata server never takes away what is known of
/// the object.
pub proof fn a_deletion_ignores_what_it_did_not_ask_for(
    d: Deleting,
    chunks: Seq<ChunkPlaces>,
    code: Code,
    message: Seq<char>,
)
    ensures
        d.stage != DeleteStage::GetObject ==> deleting_object(d, chunks) == d,
        d.stage == DeleteStage::GetObject ==> deleting_object(d, chunks).chunks == chunks,
        d.stage != DeleteStage::DeleteCopies ==> deleting_copies(d) == d,
        d.stage != DeleteStage::DeleteChunk && d.stage != DeleteStage::DeleteObject
            ==> deleting_done(d) == d,
        d.stage == DeleteStage::DeleteCopies || d.stage == DeleteStage::Done || d.stage
            == DeleteStage::Failed ==> deleting_failed(d, code, message) == d,
        deleting_failed(d, code, message).name == d.name,
        deleting_failed(d, code, message).chunks == d.chunks,
{
}

/// What an error of the metadata server is answered: that the object was not
/// found, where that is the error, and otherwise what was being done, with the
/// server's message at the end.
pub proof fn an_error_text_ends_with_the_message(
    code: Code,
    doing: Seq<char>,
    message: Seq<char>,
)
    ensures
        code == Code::NotFound ==> metadata_text(code, doing, message) == "object not found"@,
        code != Code::NotFound ==> doing.is_prefix_of(metadata_text(code, doing, message))
            && message.is_suffix_of(metadata_text(code, doing, message)) && metadata_text(
            code,
            doing,
            message,
        ).len() == doing.len() + message.len(),
{
    let all = doing + message;
    assert(all.subrange(0, doing.len() as int) =~= doing);
    assert(all.subrange(all.len() - message.len(), all.len() as int) =~= message);
}

/// The outcome of something that was not asked for changes nothing of a
/// download, in either form.
pub proof fn a_download_ignores_what_it_did_not_ask_for(
    g: Getting,
    s: StreamingOut,
    chunks: Seq<ChunkPlaces>,
    results: Seq<Result<Seq<u8>, u64>>,
    result: Result<Seq<u8>, u64>,
    error: Seq<char>,
)
    ensures
        g.stage != GetStage::GetMetadata ==> getting_object(g, chunks) == g && getting_missing(
            g,
            error,
        ) == g,
        g.stage == GetStage::GetMetadata ==> getting_object(g, chunks).chunks == chunks
            && getting_object(g, chunks).stage == GetStage::ReadChunks,
        g.stage != GetStage::ReadChunks ==> getting_chunks(g, results) == g,
        s.stage != StreamOutStage::GetMetadata ==> streaming_out_object(s, chunks) == s
            && streaming_out_missing(s, error) == s,
        s.stage == StreamOutStage::GetMetadata ==> streaming_out_object(s, chunks).chunks == chunks,
        s.stage != StreamOutStage::ReadChunk ==> streaming_out_chunk(s, result) == s,
{
}

/// The outcome of something that was not asked for changes nothing of a
/// listing.
pub proof fn a_listing_ignores_what_it_did_not_ask_for(
    l: Listing,
    objects: Seq<ObjectPlaces>,
    text: Seq<char>,
)
    ensures
        l.stage != ListStage::ListObjects ==> listing_objects(l, objects) == l,
        l.stage != ListStage::Connect ==> listing_connected(l) == l,
        l.stage != ListStage::Read ==> listing_encoded(l, text) == l,
        l.stage == ListStage::Done || l.stage == ListStage::Failed ==> listing_failed(l, text) == l,
{
}

/// The outcome of something that was not asked for changes nothing of a
/// migration, a collection, a search or a repeated call.
pub proof fn steps_out_of_turn_change_nothing<T, E>(
    j: Joining,
    clustered: bool,
    ranges: Seq<(u64, u64)>,
    peers: Seq<Seq<char>>,
    g: Gathering<T>,
    items: Seq<T>,
    error: Seq<char>,
    s: Search,
    c: CallProgress<E>,
    failure: Option<E>,
)
    ensures
        j.stage != JoinStage::CheckPeers ==> joining_checked(j, clustered) == j,
        j.stage != JoinStage::WaitForPeers ==> joining_waited(j) == j,
        j.stage != JoinStage::Settle ==> joining_settled(j, ranges, peers) == j,
        j.stage != JoinStage::Pull ==> joining_pulled(j) == j,
        j.stage != JoinStage::TellIndex ==> joining_told(j) == j,
        g.stage != GatherStage::Connect ==> gathering_connected(g) == g,
        g.stage != GatherStage::Ask ==> gathering_items(g, items) == g,
        g.stage == GatherStage::Done || g.stage == GatherStage::Failed ==> gathering_failed(g, error)
            == g,
        s.stage != ConnectStage::Try ==> search_failed(s) == s && search_connected(s) == s,
        s.stage != ConnectStage::Pause ==> search_paused(s) == s,
        c.stage != CallStage::Attempt ==> call_failed(c, failure) == c,
        c.stage != CallStage::Pause ==> call_resumed(c) == c,
{
}

/// A server that finds no others waits for them at most 30 times. Once the ring
/// has settled, it takes over the ranges that it owns, from each of the others;
/// without ranges it has nothing to take over.
pub proof fn a_joining_server_waits_at_most_thirty_times(
    j: Joining,
    clustered: bool,
    ranges: Seq<(u64, u64)>,
    peers: Seq<Seq<char>>,
)
    ensures
        j.stage == JoinStage::CheckPeers && clustered ==> joining_checked(j, clustered).stage
            == JoinStage::Settle,
        j.stage == JoinStage::CheckPeers && !clustered && j.waits < 30 ==> joining_checked(
            j,
            clustered,
        ).stage == JoinStage::WaitForPeers && joining_checked(j, clustered).waits == j.waits + 1,
        j.stage == JoinStage::CheckPeers && !clustered && j.waits == 30 ==> joining_checked(
            j,
            clustered,
        ).stage == JoinStage::Finished,
        j.stage == JoinStage::Settle ==> {
            let after = joining_settled(j, ranges, peers);
            &&& after.stage == JoinStage::Finished <==> ranges.len() == 0
            &&& after.stage == JoinStage::Pull <==> ranges.len() > 0 && peers.len() > 0
            &&& ranges.len() > 0 ==> after.ranges == ranges && after.peers == peers && after.next
                == 0
        },
{
}

/// The text for a server that cannot be reached names its address and ends with
/// the error.
pub proof fn an_unreachable_server_is_named(address: Seq<char>, error: Seq<char>)
    ensures
        error.is_suffix_of(unreachable_text(address, error)),
        occurs_in(address, unreachable_text(address, error)),
{
    let all = unreachable_text(address, error);
    let at = "failed to connect to peer "@.len() as int;
    assert(all.subrange(all.len() - error.len(), all.len() as int) =~= error);
    assert(all.subrange(at, at + address.len()) =~= address);
}

/// The pauses between attempts grow, from 100 over 500 to 2000 milliseconds.
pub proof fn pauses_grow(a: nat, b: nat)
    requires
        a <= b,
    ensures
        backoff_delay(a) <= backoff_delay(b),
        backoff_delay(0) == 100,
        backoff_delay(1) == 500,
        b >= 2 ==> backoff_delay(b) == 2000,
{
}

/// A name is accepted exactly where it has 1 to 1024 characters, all of them
/// letters, digits, hyphens, underscores, dots or slashes, and its slashes stand
/// single and inside.
pub proof fn a_name_is_accepted_where_it_is_well_formed(name: Seq<char>)
    ensures
        name_error(name) is None <==> {
            &&& 1 <= name.len() <= 1024
            &&& forall|i: int|
                0 <= i < name.len() ==> is_letter_or_digit(#[trigger] name[i]) || name[i] == '-'
                    || name[i] == '_' || name[i] == '.' || name[i] == '/'
            &&& name[0] != '/'
            &&& name[name.len() - 1] != '/'
            &&& forall|i: int, j: int|
                0 <= i && j == i + 1 && j < name.len() ==> #[trigger] name[i] != '/'
                    || #[trigger] name[j] != '/'
        },
{
    if name_error(name) is None {
        assert forall|i: int, j: int|
            0 <= i && j == i + 1 && j < name.len() implies #[trigger] name[i] != '/'
            || #[trigger] name[j] != '/' by {}
    }
}

/// Of the ASCII characters the letters and the digits are letters or digits; of
/// all others those that are alphanumeric in Unicode.
pub proof fn letters_and_digits(c: char)
    ensures
        '0' <= c <= '9' || 'A' <= c <= 'Z' || 'a' <= c <= 'z' ==> is_letter_or_digit(c),
        (c as u32) < 0x80 && is_letter_or_digit(c) ==> '0' <= c <= '9' || 'A' <= c <= 'Z' || 'a'
            <= c <= 'z',
        (c as u32) >= 0x80 ==> is_letter_or_digit(c) == unicode_alphanumeric(c),
{
}

/// A client gets JSON exactly where it accepts JSON, and the content type tells
/// which form it gets.
pub proof fn a_client_gets_what_it_accepts(accept: Seq<char>)
    ensures
        form_for(accept) == GetForm::Json <==> occurs_in("application/json"@, accept),
        content_type_for(GetForm::Json) == "application/json"@,
        content_type_for(GetForm::Stream) == "application/octet-stream"@,
{
}

/// The limits and the statuses that clients and servers rely on.
pub proof fn limits_and_statuses()
    ensures
        STATUS_BAD_REQUEST == 400,
        STATUS_NOT_FOUND == 404,
        STATUS_CONFLICT == 409,
        STATUS_TOO_LARGE == 413,
        STATUS_INTERNAL_ERROR == 500,
        NODE_RETRIES == 2,
        MAX_REPLICAS == 3,
        MAX_PEER_WAITS == 30,
        MAX_OBJECT_SIZE == 10 * 1024 * 1024 * 1024,
        GATEWAY_CONNECT_ROUNDS == 6,
        NODE_CONNECT_ROUNDS == 6,
        REPLICATION_CONNECT_ROUNDS == 5,
        ROUND_PAUSE_MILLIS == 2000,
        PEER_WAIT_MILLIS == 1000,
        RING_SETTLE_MILLIS == 2000,
        MAX_JSON_BODY == 1_500_000_000,
        DEFAULT_REPLICATION_INTERVAL_SECS == 60,
        DEFAULT_MAX_CHUNKS_PER_CYCLE == 100,
        WANTED_REPLICAS == 3,
        MAX_CONSECUTIVE_FAILURES == 3,
{
}

/// A request under a name that is not accepted is refused with 400, whatever it
/// is for, and nothing else is done for it; any other begins with its name.
pub proof fn a_bad_name_is_refused(name: Seq<char>)
    ensures
        ({
            let g = getting_started(name);
            let s = streaming_out_started(name);
            let d = deleting_started(name);
            &&& g.name == name && s.name == name && d.name == name
            &&& name_error(name) is None ==> g.stage == GetStage::GetMetadata && s.stage
                == StreamOutStage::GetMetadata && d.stage == DeleteStage::GetObject
            &&& name_error(name) matches Some(message) ==> {
                &&& g.stage == GetStage::Failed && g.failure.status == 400 && g.failure.message
                    == message
                &&& s.stage == StreamOutStage::Failed && s.failure.status == 400
                    && s.failure.message == message
                &&& d.stage == DeleteStage::Failed && d.failure.status == 400 && d.failure.message
                    == message
            }
        }),
{
}

/// A repeated call begins with an attempt, if it may make any, and with the
/// configured times.
pub proof fn a_call_begins_with_an_attempt<E>(config: RetryConfig)
    ensures
        call_started::<E>(config).stage == CallStage::Attempt <==> config.max_attempts > 0,
        call_started::<E>(config).timeout == config.timeout_per_attempt,
        call_started::<E>(config).delay == config.delay_between_attempts,
        call_started::<E>(config).failures.len() == 0,
{
}

/// Where there are no storage nodes an upload fails with 500. A form without a
/// file is answered with 400, and the object deleted again. A streamed upload
/// under a bad name is refused at once, with 400; any other begins with its name
/// and nothing stored.
pub proof fn an_upload_needs_nodes_and_a_file(u: Upload, s: Streaming, name: Seq<char>)
    ensures
        u.stage == PutStage::ListNodes ==> {
            let after = upload_nodes(u, Seq::<Seq<char>>::empty());
            after.stage == PutStage::Failed && after.failure.status == 500 && after.failure.counted
        },
        s.stage == StreamStage::ListNodes ==> {
            let after = streaming_nodes(s, Seq::<Seq<char>>::empty());
            after.stage == StreamStage::Failed && after.failure.status == 500
                && !after.failure.counted
        },
        s.stage == StreamStage::NextField ==> {
            let after = streaming_no_field(s);
            after.stage == StreamStage::RollBack && after.failure.status == 400 && after.name
                == s.name
        },
        ({
            let begun = streaming_started(name);
            &&& begun.name == name && begun.stored.len() == 0 && begun.seen.len() == 0
                && begun.buffer.len() == 0 && !begun.ended
            &&& name_error(name) is None ==> begun.stage == StreamStage::ListNodes
            &&& name_error(name) matches Some(message) ==> begun.stage == StreamStage::Failed
                && begun.failure.status == 400 && begun.failure.message == message
                && begun.failure.counted
        }),
{
}

/// The text for a chunk that cannot be read or listed names the chunk, and one
/// for a failed listing ends with the reason.
pub proof fn an_unreadable_chunk_is_named(id: u64, reason: Seq<char>)
    ensures
        unreadable_text(id) == "could not read chunk "@ + decimal_text(id as nat)
            + " from any storage node"@,
        occurs_in(decimal_text(id as nat), unreadable_text(id)),
        occurs_in(decimal_text(id as nat), unlisted_text(id)),
        unlisted_text(id).is_prefix_of(no_node_quoted(id, reason)),
        occurs_in(reason, no_node_quoted(id, reason)),
        no_node_quoted(id, reason) == unlisted_text(id) + "(500, "@ + reason + ")"@,
{
    let n = decimal_text(id as nat);
    a_text_occurs_where_it_stands(n, "could not read chunk "@, " from any storage node"@);
    a_text_occurs_where_it_stands(n, "could not read chunk "@, " from storage nodes: "@);
    let front = unlisted_text(id) + "("@ + decimal_text(500) + ", "@;
    a_text_occurs_where_it_stands(reason, front, ")"@);
    let all = no_node_quoted(id, reason);
    assert(all.subrange(0, unlisted_text(id).len() as int) =~= unlisted_text(id));
    reveal_with_fuel(decimal_text, 3);
    reveal_strlit("(500, ");
    reveal_strlit("(");
    reveal_strlit(", ");
    assert("("@ + decimal_text(500) + ", "@ =~= "(500, "@);
    assert(all =~= unlisted_text(id) + "(500, "@ + reason + ")"@);
}

/// What went wrong with a chunk of an upload is told with what was being done,
/// the chunk's id, the object's name and the error.
pub proof fn trouble_with_a_chunk_is_told(u: Upload, doing: Seq<char>, error: Seq<char>)
    ensures
        chunk_trouble(u, doing, error) == "could not "@ + doing + " chunk "@ + decimal_text(
            u.chunk_id as nat,
        ) + " in object "@ + u.name + ": "@ + error,
        error.is_suffix_of(chunk_trouble(u, doing, error)),
{
    let all = chunk_trouble(u, doing, error);
    assert(all.subrange(all.len() - error.len(), all.len() as int) =~= error);
}

/// An object can be given out in base64 where its text, four characters for
/// every three bytes or part of three, can be held in memory.
pub proof fn base64_takes_four_characters_for_three_bytes(len: nat)
    ensures
        fits_in_base64(len) <==> (len + 2) / 3 * 4 <= isize::MAX,
{
}

/// In an ascending list no text stands twice, and each comes before all that
/// follow it.
pub proof fn an_ascending_list_has_no_text_twice(items: Seq<Seq<char>>)
    requires
        texts_ascending(items),
    ensures
        items.no_duplicates(),
        forall|i: int, j: int|
            0 <= i < j < items.len() ==> text_less(#[trigger] items[i], #[trigger] items[j]),
{
    assert forall|i: int, j: int| 0 <= i < j < items.len() implies #[trigger] items[i]
        != #[trigger] items[j] by {
        text_less_total(items[i], items[j]);
    }
}

/// A repeated call is given up when all its attempts have failed, and not
/// before.
pub proof fn a_call_is_given_up_after_its_attempts<E>(c: CallProgress<E>)
    requires
        call_within_limit(c),
    ensures
        c.stage == CallStage::GiveUp ==> c.failures.len() == c.max_attempts,
        c.stage != CallStage::GiveUp ==> c.failures.len() < c.max_attempts,
{
}

/// Every round of a search begins with the first address; a search without
/// addresses goes from round to round without trying any.
pub proof fn every_round_begins_with_the_first_address(
    s: Search,
    urls: Seq<Seq<char>>,
    max_rounds: nat,
)
    ensures
        urls.len() > 0 ==> search_started(urls, max_rounds).stage == ConnectStage::Try
            && search_started(urls, max_rounds).next == 0,
        urls.len() == 0 ==> search_started(urls, max_rounds).stage != ConnectStage::Try,
        search_started(urls, max_rounds).urls == urls,
        s.stage == ConnectStage::Pause && s.urls.len() > 0 ==> {
            let after = search_paused(s);
            after.stage == ConnectStage::Try && after.next == 0 && after.urls == s.urls
                && after.failed_rounds == s.failed_rounds
        },
        s.stage == ConnectStage::Try && s.next + 1 == s.urls.len() ==> {
            let after = search_failed(s);
            &&& after.failed_rounds == s.failed_rounds + 1
            &&& after.stage == if s.failed_rounds + 1 < s.max_rounds {
                ConnectStage::Pause
            } else {
                ConnectStage::GiveUp
            }
        },
{
}

} // verus!
