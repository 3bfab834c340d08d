//! What is stored can be read back: from the upload of an object, through the
//! metadata and the storage nodes, to its download.
use vstd::prelude::*;

use crate::checksum::checksum_of;
use crate::chunking::{chunks_of, joined};
use crate::dispatch::{content_type_for, form_for, GetForm};
use crate::encoding::{base64_decoded, base64_encoded, decoding_gave};
use crate::get_object::{
    a_request_is_answered, a_stream_is_answered, all_read, answers_with, bytes_given,
    chunks_are_assembled_in_order, getting_chunks, getting_ended, readable, readable_upto,
    streaming_out_ended, GetObjectResponsePayload, GetStage, Getting, StreamOutStage,
};
use crate::http_reply::HttpFailure;
use crate::messages::ChunkPlaces;
use crate::metadata_service::{all_chunks, all_nodes, Missing};
use crate::metadata_store::{fresh_object, stored_chunk, NodeRecord, StoreState};
use crate::object_name::name_error;
use crate::put_multipart::{
    a_complete_stream_stored_its_file, a_stream_completes_where_nothing_fails,
    a_stream_writes_where_it_is_told, stream_run_after, streaming_faithful, StreamAnswers,
    StreamStage, Streaming,
};
use crate::put_object::{
    a_complete_upload_stored_its_data, an_upload_completes_where_nothing_fails, chunks_placed,
    none_fails_before, stored_bytes, upload_after, upload_faithful, upload_requests, PutStage,
    StoredChunk, Upload, UploadAnswers, MAX_OBJECT_SIZE,
};
use crate::read_chunk::{NodeAnswers, NODE_RETRIES};

verus! {

/// The ids of stored chunks.
pub open spec fn stored_ids(stored: Seq<StoredChunk>) -> Seq<u64> {
    stored.map_values(|c: StoredChunk| c.id)
}

/// The metadata after chunks of an object were confirmed, in order.
pub open spec fn with_confirmed(s: StoreState, name: Seq<char>, stored: Seq<StoredChunk>) -> StoreState
    decreases stored.len(),
{
    if stored.len() == 0 {
        s
    } else {
        let c = stored.last();
        with_confirmed(s, name, stored.drop_last()).with_chunk(
            c.id,
            name,
            stored_chunk(c.id, name, checksum_of(c.bytes), c.node),
        )
    }
}

/// The metadata after an object was created and its chunks were confirmed.
pub open spec fn with_object_stored(
    s: StoreState,
    name: Seq<char>,
    checksum: u32,
    stored: Seq<StoredChunk>,
) -> StoreState {
    with_confirmed(
        StoreState { objects: s.objects.insert(name, fresh_object(name, checksum)), ..s },
        name,
        stored,
    )
}

/// What the storage nodes hold, by node and chunk, after chunks were written.
pub open spec fn with_written(
    held: Map<(u64, u64), Seq<u8>>,
    stored: Seq<StoredChunk>,
) -> Map<(u64, u64), Seq<u8>>
    decreases stored.len(),
{
    if stored.len() == 0 {
        held
    } else {
        with_written(held, stored.drop_last()).insert(
            (stored.last().node, stored.last().id),
            stored.last().bytes,
        )
    }
}

/// The places of stored chunks, as a metadata server tells them.
pub open spec fn stored_places(stored: Seq<StoredChunk>, nodes: Map<u64, NodeRecord>) -> Seq<
    ChunkPlaces,
> {
    stored.map_values(
        |c: StoredChunk|
            ChunkPlaces {
                id: c.id,
                checksum: checksum_of(c.bytes),
                nodes: seq![NodeRecord { id: c.node, address: nodes[c.node].address }],
            },
    )
}

proof fn confirmed_effects(s: StoreState, name: Seq<char>, stored: Seq<StoredChunk>)
    requires
        s.objects.contains_key(name),
        stored_ids(stored).no_duplicates(),
    ensures
        ({
            let after = with_confirmed(s, name, stored);
            &&& after.objects.contains_key(name)
            &&& after.objects[name].chunks == s.objects[name].chunks + stored_ids(stored)
            &&& after.objects[name].checksum == s.objects[name].checksum
            &&& after.storage_nodes == s.storage_nodes
            &&& forall|k: int|
                0 <= k < stored.len() ==> after.chunks.contains_key((#[trigger] stored[k]).id)
                    && after.chunks[stored[k].id] == stored_chunk(
                    stored[k].id,
                    name,
                    checksum_of(stored[k].bytes),
                    stored[k].node,
                )
        }),
    decreases stored.len(),
{
    let ids = stored_ids(stored);
    if stored.len() == 0 {
        assert(s.objects[name].chunks + ids =~= s.objects[name].chunks);
    } else {
        let rest = stored.drop_last();
        let last = stored.last();
        assert(stored_ids(rest) =~= ids.drop_last());
        assert(stored_ids(rest).no_duplicates());
        confirmed_effects(s, name, rest);
        let before = with_confirmed(s, name, rest);
        let after = with_confirmed(s, name, stored);
        assert(before.objects[name].chunks.push(last.id) =~= s.objects[name].chunks + ids);
        assert forall|k: int| 0 <= k < stored.len() implies after.chunks.contains_key(
            (#[trigger] stored[k]).id,
        ) && after.chunks[stored[k].id] == stored_chunk(
            stored[k].id,
            name,
            checksum_of(stored[k].bytes),
            stored[k].node,
        ) by {
            if k < rest.len() {
                assert(rest[k] == stored[k]);
                assert(ids[k] != ids[stored.len() - 1]);
            }
        }
    }
}

proof fn written_effects(held: Map<(u64, u64), Seq<u8>>, stored: Seq<StoredChunk>)
    requires
        stored_ids(stored).no_duplicates(),
    ensures
        forall|k: int|
            0 <= k < stored.len() ==> with_written(held, stored).contains_key(
                ((#[trigger] stored[k]).node, stored[k].id),
            ) && with_written(held, stored)[(stored[k].node, stored[k].id)] == stored[k].bytes,
    decreases stored.len(),
{
    if stored.len() > 0 {
        let ids = stored_ids(stored);
        let rest = stored.drop_last();
        assert(stored_ids(rest) =~= ids.drop_last());
        written_effects(held, rest);
        let after = with_written(held, stored);
        assert forall|k: int| 0 <= k < stored.len() implies after.contains_key(
            ((#[trigger] stored[k]).node, stored[k].id),
        ) && after[(stored[k].node, stored[k].id)] == stored[k].bytes by {
            if k < rest.len() {
                assert(rest[k] == stored[k]);
                assert(ids[k] != ids[stored.len() - 1]);
            }
        }
    }
}

proof fn places_are_told(s: StoreState, stored: Seq<StoredChunk>, name: Seq<char>, n: int)
    requires
        0 <= n <= stored.len(),
        forall|k: int|
            0 <= k < stored.len() ==> s.storage_nodes.contains_key((#[trigger] stored[k]).node),
        forall|k: int|
            0 <= k < stored.len() ==> s.chunks.contains_key((#[trigger] stored[k]).id)
                && s.chunks[stored[k].id] == stored_chunk(
                stored[k].id,
                name,
                checksum_of(stored[k].bytes),
                stored[k].node,
            ),
    ensures
        all_chunks(stored_ids(stored).take(n), s) == Ok::<Seq<ChunkPlaces>, Missing>(
            stored_places(stored, s.storage_nodes).take(n),
        ),
    decreases n,
{
    let ids = stored_ids(stored);
    let places = stored_places(stored, s.storage_nodes);
    if n == 0 {
        assert(places.take(0) =~= Seq::<ChunkPlaces>::empty());
    } else {
        places_are_told(s, stored, name, n - 1);
        assert(ids.take(n).drop_last() =~= ids.take(n - 1));
        let c = stored[n - 1];
        assert(ids.take(n).last() == c.id);
        let nodes = seq![c.node];
        assert(s.chunks[c.id].storage_nodes == nodes);
        assert(nodes.drop_last() =~= Seq::<u64>::empty());
        assert(all_nodes(nodes.drop_last(), s.storage_nodes) == Ok::<Seq<NodeRecord>, u64>(
            Seq::<NodeRecord>::empty(),
        ));
        assert(Seq::<NodeRecord>::empty().push(
            NodeRecord { id: c.node, address: s.storage_nodes[c.node].address },
        ) =~= places[n - 1].nodes);
        assert(places.take(n - 1).push(places[n - 1]) =~= places.take(n));
    }
}

/// After an object's chunks have been confirmed under different ids, the
/// metadata lists exactly these chunks for it, in order, under the checksum of
/// the whole; a question for the object is answered with the place of every
/// chunk; and every storage node holds the bytes of its chunks.
pub proof fn a_stored_object_is_found(
    s: StoreState,
    held: Map<(u64, u64), Seq<u8>>,
    name: Seq<char>,
    checksum: u32,
    stored: Seq<StoredChunk>,
)
    requires
        stored_ids(stored).no_duplicates(),
        forall|k: int|
            0 <= k < stored.len() ==> s.storage_nodes.contains_key((#[trigger] stored[k]).node),
    ensures
        ({
            let after = with_object_stored(s, name, checksum, stored);
            &&& after.objects.contains_key(name)
            &&& after.objects[name].chunks == stored_ids(stored)
            &&& after.objects[name].checksum == checksum
            &&& all_chunks(after.objects[name].chunks, after) == Ok::<Seq<ChunkPlaces>, Missing>(
                stored_places(stored, s.storage_nodes),
            )
            &&& forall|k: int|
                0 <= k < stored.len() ==> with_written(held, stored)[(
                    (#[trigger] stored[k]).node,
                    stored[k].id,
                )] == stored[k].bytes
        }),
{
    let created = StoreState {
        objects: s.objects.insert(name, fresh_object(name, checksum)),
        ..s
    };
    confirmed_effects(created, name, stored);
    written_effects(held, stored);
    let after = with_object_stored(s, name, checksum, stored);
    assert(Seq::<u64>::empty() + stored_ids(stored) =~= stored_ids(stored));
    places_are_told(after, stored, name, stored.len() as int);
    assert(stored_ids(stored).take(stored.len() as int) =~= stored_ids(stored));
    assert(stored_places(stored, s.storage_nodes).take(stored.len() as int) =~= stored_places(
        stored,
        s.storage_nodes,
    ));
}

/// Whether the places of chunks name them differently, each at a registered
/// storage node with the address it is registered under.
pub open spec fn places_are_registered(
    place: spec_fn(nat) -> (u64, u64, Seq<char>),
    count: nat,
    s: StoreState,
) -> bool {
    &&& forall|i: nat, j: nat| i < j < count ==> (#[trigger] place(i)).0 != (#[trigger] place(j)).0
    &&& forall|k: nat|
        k < count ==> s.storage_nodes.contains_key((#[trigger] place(k)).1)
            && s.storage_nodes[place(k).1].address == place(k).2
}

/// Whether an object is found with exactly the stored chunks, in order: each
/// under its own id and with the checksum of its bytes, at the one storage node
/// it was confirmed for, at the very address at which it was written.
pub open spec fn is_found_where_it_was_written(
    s: StoreState,
    name: Seq<char>,
    stored: Seq<StoredChunk>,
) -> bool {
    &&& s.objects.contains_key(name)
    &&& all_chunks(s.objects[name].chunks, s) matches Ok(chunks) && {
        &&& chunks.len() == stored.len()
        &&& forall|k: int|
            0 <= k < stored.len() ==> {
                &&& (#[trigger] chunks[k]).id == stored[k].id
                &&& chunks[k].checksum == checksum_of(stored[k].bytes)
                &&& chunks[k].nodes.len() == 1
                &&& chunks[k].nodes[0].id == stored[k].node
                &&& chunks[k].nodes[0].address == stored[k].address
            }
    }
}

proof fn found_where_it_was_written(
    s: StoreState,
    name: Seq<char>,
    checksum: u32,
    stored: Seq<StoredChunk>,
    place: spec_fn(nat) -> (u64, u64, Seq<char>),
)
    requires
        places_are_registered(place, stored.len(), s),
        forall|k: int|
            0 <= k < stored.len() ==> {
                &&& (#[trigger] stored[k]).id == place(k as nat).0
                &&& stored[k].node == place(k as nat).1
                &&& stored[k].address == place(k as nat).2
            },
    ensures
        is_found_where_it_was_written(with_object_stored(s, name, checksum, stored), name, stored),
{
    let ids = stored_ids(stored);
    assert forall|i: int, j: int| 0 <= i < j < ids.len() implies ids[i] != ids[j] by {
        assert(stored[i].id == place(i as nat).0);
        assert(stored[j].id == place(j as nat).0);
    }
    assert forall|k: int| 0 <= k < stored.len() implies s.storage_nodes.contains_key(
        (#[trigger] stored[k]).node,
    ) by {
        assert(s.storage_nodes.contains_key(place(k as nat).1));
    }
    a_stored_object_is_found(s, Map::<(u64, u64), Seq<u8>>::empty(), name, checksum, stored);
    let chunks = stored_places(stored, s.storage_nodes);
    assert forall|k: int| 0 <= k < stored.len() implies {
        &&& (#[trigger] chunks[k]).id == stored[k].id
        &&& chunks[k].checksum == checksum_of(stored[k].bytes)
        &&& chunks[k].nodes.len() == 1
        &&& chunks[k].nodes[0].id == stored[k].node
        &&& chunks[k].nodes[0].address == stored[k].address
    } by {
        assert(s.storage_nodes[place(k as nat).1].address == place(k as nat).2);
    }
}

/// Reads look for an object where its upload wrote it. After an upload in one
/// piece, whose chunks were given places at registered storage nodes, the
/// metadata tells for every chunk the address at which it was written, and the
/// storage node it was confirmed for is the one at this address.
pub proof fn an_upload_is_found_where_it_was_written(
    name: Seq<char>,
    data: Seq<u8>,
    answers: UploadAnswers,
    steps: nat,
    s: StoreState,
)
    requires
        name_error(name) is None,
        data.len() <= MAX_OBJECT_SIZE,
        answers.addresses.len() > 0,
        none_fails_before(answers, upload_requests(data, answers)),
        steps >= upload_requests(data, answers),
        places_are_registered(answers.place, chunks_placed(data, answers).len(), s),
    ensures
        ({
            let u = upload_after(name, data, answers, steps);
            &&& u.stage == PutStage::Done
            &&& is_found_where_it_was_written(
                with_object_stored(s, name, checksum_of(data), u.stored),
                name,
                u.stored,
            )
        }),
{
    an_upload_completes_where_nothing_fails(name, data, answers, 0, steps);
    let u = upload_after(name, data, answers, steps);
    found_where_it_was_written(s, name, checksum_of(data), u.stored, answers.place);
}

/// After a streamed upload reads look for the object where it was written, in
/// the same way.
pub proof fn a_streamed_upload_is_found_where_it_was_written(
    name: Seq<char>,
    answers: StreamAnswers,
    steps: nat,
    s: StoreState,
)
    requires
        name_error(name) is None,
        answers.addresses.len() > 0,
        answers.chunk_size > 0,
        joined(answers.pieces).len() <= MAX_OBJECT_SIZE,
        forall|k: int|
            0 <= k < answers.fields.len() ==> #[trigger] answers.fields[k] != Some("file"@),
        steps >= 7 + answers.fields.len() + answers.pieces.len() + 4 * joined(answers.pieces).len(),
        places_are_registered(
            answers.place,
            chunks_of(joined(answers.pieces), answers.chunk_size).len(),
            s,
        ),
    ensures
        ({
            let u = stream_run_after(name, answers, steps).upload;
            &&& u.stage == StreamStage::Done
            &&& is_found_where_it_was_written(
                with_object_stored(s, name, checksum_of(u.seen), u.stored),
                name,
                u.stored,
            )
        }),
{
    a_stream_completes_where_nothing_fails(name, answers, steps);
    a_stream_writes_where_it_is_told(name, answers, steps);
    let u = stream_run_after(name, answers, steps).upload;
    assert(stored_bytes(u.stored).len() == u.stored.len());
    found_where_it_was_written(s, name, checksum_of(u.seen), u.stored, answers.place);
}

/// An object that was uploaded in one piece reads back: a download that gets
/// the bytes of the confirmed chunks, in order, ends with the object's data.
pub proof fn an_upload_reads_back(u: Upload, g: Getting)
    requires
        upload_faithful(u),
        u.stage == PutStage::Done,
        g.stage == GetStage::ReadChunks,
    ensures
        getting_chunks(g, all_read(stored_bytes(u.stored))).stage == GetStage::Done,
        getting_chunks(g, all_read(stored_bytes(u.stored))).data == u.data,
{
    a_complete_upload_stored_its_data(u);
    chunks_are_assembled_in_order(stored_bytes(u.stored));
}

/// An object that was uploaded as a stream reads back in the same way, and its
/// file is what was read from the stream.
pub proof fn a_streamed_upload_reads_back(s: Streaming, g: Getting)
    requires
        streaming_faithful(s),
        s.stage == StreamStage::Done,
        g.stage == GetStage::ReadChunks,
    ensures
        getting_chunks(g, all_read(stored_bytes(s.stored))).stage == GetStage::Done,
        getting_chunks(g, all_read(stored_bytes(s.stored))).data == s.seen,
        joined(stored_bytes(s.stored)) == s.seen,
{
    a_complete_stream_stored_its_file(s);
    chunks_are_assembled_in_order(stored_bytes(s.stored));
}

/// Whether the storage nodes give of a chunk what they hold, where they give
/// anything.
pub open spec fn give_what_they_hold(
    chunk: ChunkPlaces,
    answers: NodeAnswers,
    held: Map<(u64, u64), Seq<u8>>,
) -> bool {
    forall|n: nat, t: nat|
        n < chunk.nodes.len() ==> (#[trigger] (answers.given)(n, t) matches Some(bytes) ==> bytes
            == held[(chunk.nodes[n as int].id, chunk.id)])
}

/// Whether every chunk can be read from some storage node, and the storage
/// nodes give what they hold.
pub open spec fn all_can_be_read(
    chunks: Seq<ChunkPlaces>,
    answers: spec_fn(int) -> NodeAnswers,
    held: Map<(u64, u64), Seq<u8>>,
) -> bool {
    &&& readable_upto(chunks, answers, chunks.len() as int)
    &&& forall|k: int|
        0 <= k < chunks.len() ==> give_what_they_hold(#[trigger] chunks[k], answers(k), held)
}

/// Whether an object is given out with the bytes `data`, in the form that a
/// client asks for: as base64 in a JSON body, where the client accepts that, and
/// as a stream of the bytes themselves otherwise.
pub open spec fn given_out(
    name: Seq<char>,
    data: Seq<u8>,
    chunks: Seq<ChunkPlaces>,
    answers: spec_fn(int) -> NodeAnswers,
    accept: Seq<char>,
    r: Result<GetObjectResponsePayload, HttpFailure>,
) -> bool {
    match form_for(accept) {
        GetForm::Json => {
            &&& content_type_for(form_for(accept)) == "application/json"@
            &&& r matches Ok(response) && response.bytes@ == base64_encoded(data)
                && base64_decoded(response.bytes@) == decoding_gave(data)
        },
        GetForm::Stream => {
            let end = streaming_out_ended(name, Ok(chunks), answers);
            &&& content_type_for(form_for(accept)) == "application/octet-stream"@
            &&& end.stage == StreamOutStage::Done
            &&& joined(end.sent) == data
        },
    }
}

proof fn given_is_held(
    chunk: ChunkPlaces,
    answers: NodeAnswers,
    held: Map<(u64, u64), Seq<u8>>,
    n: nat,
    t: nat,
)
    requires
        n < chunk.nodes.len(),
        give_what_they_hold(chunk, answers, held),
    ensures
        answers.given_from(n, t) matches Some(bytes) ==> bytes == held[(
            chunk.nodes[n as int].id,
            chunk.id,
        )],
    decreases NODE_RETRIES + 1 - t,
{
    if t <= NODE_RETRIES && (answers.given)(n, t) is None {
        given_is_held(chunk, answers, held, n, t + 1);
    }
}

proof fn stored_object_is_given_out(
    s: StoreState,
    held: Map<(u64, u64), Seq<u8>>,
    name: Seq<char>,
    checksum: u32,
    stored: Seq<StoredChunk>,
    answers: spec_fn(int) -> NodeAnswers,
    accept: Seq<char>,
    r: Result<GetObjectResponsePayload, HttpFailure>,
)
    requires
        name_error(name) is None,
        stored_ids(stored).no_duplicates(),
        forall|k: int|
            0 <= k < stored.len() ==> s.storage_nodes.contains_key((#[trigger] stored[k]).node),
        all_can_be_read(
            stored_places(stored, s.storage_nodes),
            answers,
            with_written(held, stored),
        ),
        answers_with(
            getting_ended(name, Ok(stored_places(stored, s.storage_nodes)), answers),
            r,
        ),
    ensures
        given_out(
            name,
            joined(stored_bytes(stored)),
            stored_places(stored, s.storage_nodes),
            answers,
            accept,
            r,
        ),
{
    let chunks = stored_places(stored, s.storage_nodes);
    let after = with_written(held, stored);
    written_effects(held, stored);
    assert(bytes_given(chunks, answers) =~= stored_bytes(stored)) by {
        assert forall|k: int| 0 <= k < stored.len() implies bytes_given(chunks, answers)[k]
            == stored_bytes(stored)[k] by {
            let c = stored[k];
            assert(readable(chunks, answers, k));
            assert(give_what_they_hold(chunks[k], answers(k), after));
            assert(chunks[k].nodes[0].id == c.node);
            given_is_held(chunks[k], answers(k), after, 0, 0);
            reveal_with_fuel(NodeAnswers::first_from, 2);
        }
    }
    a_request_is_answered(name, Ok(chunks), answers, r);
    a_stream_is_answered(name, Ok(chunks), answers);
}

/// An object that was uploaded in one piece is given out as it was uploaded.
/// The metadata lists the places of its chunks; and if each of them can be read
/// there, a client that accepts JSON gets the base64 text of the data, which
/// decodes to the data, and any other client gets a stream of exactly the data.
pub proof fn an_upload_is_given_out(
    u: Upload,
    s: StoreState,
    held: Map<(u64, u64), Seq<u8>>,
    answers: spec_fn(int) -> NodeAnswers,
    accept: Seq<char>,
    r: Result<GetObjectResponsePayload, HttpFailure>,
)
    requires
        upload_faithful(u),
        u.stage == PutStage::Done,
        stored_ids(u.stored).no_duplicates(),
        forall|k: int|
            0 <= k < u.stored.len() ==> s.storage_nodes.contains_key((#[trigger] u.stored[k]).node),
        all_can_be_read(
            stored_places(u.stored, s.storage_nodes),
            answers,
            with_written(held, u.stored),
        ),
        answers_with(
            getting_ended(u.name, Ok(stored_places(u.stored, s.storage_nodes)), answers),
            r,
        ),
    ensures
        ({
            let after = with_object_stored(s, u.name, checksum_of(u.data), u.stored);
            let chunks = stored_places(u.stored, s.storage_nodes);
            &&& after.objects.contains_key(u.name)
            &&& all_chunks(after.objects[u.name].chunks, after) == Ok::<Seq<ChunkPlaces>, Missing>(
                chunks,
            )
            &&& given_out(u.name, u.data, chunks, answers, accept, r)
        }),
{
    a_complete_upload_stored_its_data(u);
    a_stored_object_is_found(s, held, u.name, checksum_of(u.data), u.stored);
    stored_object_is_given_out(
        s,
        held,
        u.name,
        checksum_of(u.data),
        u.stored,
        answers,
        accept,
        r,
    );
}

/// An object that was uploaded as a stream is given out in the same way, as the
/// file that was read from the stream.
pub proof fn a_streamed_upload_is_given_out(
    u: Streaming,
    s: StoreState,
    held: Map<(u64, u64), Seq<u8>>,
    answers: spec_fn(int) -> NodeAnswers,
    accept: Seq<char>,
    r: Result<GetObjectResponsePayload, HttpFailure>,
)
    requires
        streaming_faithful(u),
        u.stage == StreamStage::Done,
        stored_ids(u.stored).no_duplicates(),
        forall|k: int|
            0 <= k < u.stored.len() ==> s.storage_nodes.contains_key((#[trigger] u.stored[k]).node),
        all_can_be_read(
            stored_places(u.stored, s.storage_nodes),
            answers,
            with_written(held, u.stored),
        ),
        answers_with(
            getting_ended(u.name, Ok(stored_places(u.stored, s.storage_nodes)), answers),
            r,
        ),
    ensures
        ({
            let after = with_object_stored(s, u.name, checksum_of(u.seen), u.stored);
            let chunks = stored_places(u.stored, s.storage_nodes);
            &&& after.objects.contains_key(u.name)
            &&& all_chunks(after.objects[u.name].chunks, after) == Ok::<Seq<ChunkPlaces>, Missing>(
                chunks,
            )
            &&& given_out(u.name, u.seen, chunks, answers, accept, r)
        }),
{
    a_complete_stream_stored_its_file(u);
    a_stored_object_is_found(s, held, u.name, checksum_of(u.seen), u.stored);
    stored_object_is_given_out(
        s,
        held,
        u.name,
        checksum_of(u.seen),
        u.stored,
        answers,
        accept,
        r,
    );
}

} // verus!
