//! Giving an object out, in one piece or as a stream.
use vstd::prelude::*;

use crate::chunking::joined;
use crate::encoding::{
    base64_decoded, base64_encoded, decoding_gave, encode_base64, fits_in_base64,
};
use crate::http_reply::{
    no_failure, Failure, HttpFailure, STATUS_BAD_REQUEST, STATUS_INTERNAL_ERROR, STATUS_NOT_FOUND,
};
use crate::messages::{places_views, ChunkInfo, ChunkPlaces};
use crate::object_name::{name_error, validate_object_name};
use crate::read_chunk::{chunk_outcome, NodeAnswers};
use crate::text::{decimal, decimal_text, join3};

verus! {

/// The answer with an object.
#[derive(Debug)]
pub struct GetObjectResponsePayload {
    /// The object's bytes in base64.
    pub bytes: String,
}

/// What is to be done next to give an object out.
#[derive(Debug, Clone, Copy, PartialEq, Eq, Structural)]
pub enum GetStage {
    /// Ask the metadata server for the object.
    GetMetadata,
    /// Read the chunks.
    ReadChunks,
    /// Answer with the object.
    Done,
    /// Answer with the failure.
    Failed,
}

/// What a [`Download`] stands for.
pub struct Getting {
    pub stage: GetStage,
    pub name: Seq<char>,
    pub chunks: Seq<ChunkPlaces>,
    pub data: Seq<u8>,
    pub failure: Failure,
}

impl Getting {
    pub open spec fn fail(self, status: u16, message: Seq<char>) -> Getting {
        Getting {
            stage: GetStage::Failed,
            failure: Failure { status, message, counted: true },
            ..self
        }
    }
}

/// The text for a chunk that no storage node gave.
pub open spec fn unreadable_text(chunk_id: u64) -> Seq<char> {
    "could not read chunk "@ + decimal_text(chunk_id as nat) + " from any storage node"@
}

/// The text for a chunk that no storage node gave.
pub fn unreadable(chunk_id: u64) -> (r: String)
    ensures
        r@ == unreadable_text(chunk_id),
{
    join3("could not read chunk ", decimal(chunk_id).as_str(), " from any storage node")
}

/// A request before anything was done for it.
pub open spec fn getting_of(name: Seq<char>) -> Getting {
    Getting {
        stage: GetStage::GetMetadata,
        name,
        chunks: Seq::<ChunkPlaces>::empty(),
        data: Seq::<u8>::empty(),
        failure: no_failure(),
    }
}

/// How a request starts.
pub open spec fn getting_started(name: Seq<char>) -> Getting {
    match name_error(name) {
        Some(message) => getting_of(name).fail(STATUS_BAD_REQUEST, message),
        None => getting_of(name),
    }
}

/// The request once the object is known.
pub open spec fn getting_object(g: Getting, chunks: Seq<ChunkPlaces>) -> Getting {
    if g.stage == GetStage::GetMetadata {
        Getting { stage: GetStage::ReadChunks, chunks, ..g }
    } else {
        g
    }
}

/// The request once the object could not be found.
pub open spec fn getting_missing(g: Getting, error: Seq<char>) -> Getting {
    if g.stage == GetStage::GetMetadata {
        g.fail(STATUS_NOT_FOUND, "could not get object "@ + g.name + ": "@ + error)
    } else {
        g
    }
}

/// The views of the results of reading chunks.
pub open spec fn result_views(results: Seq<Result<Vec<u8>, u64>>) -> Seq<Result<Seq<u8>, u64>> {
    results.map_values(
        |r: Result<Vec<u8>, u64>|
            match r {
                Ok(bytes) => Ok(bytes@),
                Err(id) => Err(id),
            },
    )
}

/// The data of all chunks together, or the first chunk that could not be read.
pub open spec fn assembled(results: Seq<Result<Seq<u8>, u64>>) -> Result<Seq<u8>, u64>
    decreases results.len(),
{
    if results.len() == 0 {
        Ok(Seq::<u8>::empty())
    } else {
        match assembled(results.drop_last()) {
            Err(id) => Err(id),
            Ok(before) => match results.last() {
                Ok(bytes) => Ok(before + bytes),
                Err(id) => Err(id),
            },
        }
    }
}

/// The request once all chunks are read, or could not be.
pub open spec fn getting_chunks(g: Getting, results: Seq<Result<Seq<u8>, u64>>) -> Getting {
    if g.stage != GetStage::ReadChunks {
        g
    } else {
        match assembled(results) {
            Ok(data) => Getting { stage: GetStage::Done, data, ..g },
            Err(id) => g.fail(STATUS_INTERNAL_ERROR, unreadable_text(id)),
        }
    }
}

proof fn first_failure_stays(results: Seq<Result<Seq<u8>, u64>>, k: int)
    requires
        0 <= k <= results.len(),
        assembled(results.take(k)) is Err,
    ensures
        assembled(results) == assembled(results.take(k)),
    decreases results.len(),
{
    if k == results.len() {
        assert(results.take(k) =~= results);
    } else {
        assert(results.drop_last().take(k) =~= results.take(k));
        first_failure_stays(results.drop_last(), k);
    }
}

/// Results that are all there.
pub open spec fn all_read(items: Seq<Seq<u8>>) -> Seq<Result<Seq<u8>, u64>> {
    items.map_values(|bytes: Seq<u8>| Ok(bytes))
}

/// Chunks that were all read are put together in order.
pub proof fn chunks_are_assembled_in_order(items: Seq<Seq<u8>>)
    ensures
        assembled(all_read(items)) == Ok::<Seq<u8>, u64>(joined(items)),
    decreases items.len(),
{
    if items.len() > 0 {
        chunks_are_assembled_in_order(items.drop_last());
        assert(all_read(items).drop_last() =~= all_read(items.drop_last()));
    }
}

/// What the storage nodes give for each of `chunks`; `answers` has what they
/// answer, by the index of the chunk.
pub open spec fn outcomes(chunks: Seq<ChunkPlaces>, answers: spec_fn(int) -> NodeAnswers) -> Seq<
    Result<Seq<u8>, u64>,
> {
    Seq::new(chunks.len(), |k: int| chunk_outcome(chunks[k], answers(k)))
}

/// Whether some storage node gives the chunk at index `k`.
pub open spec fn readable(
    chunks: Seq<ChunkPlaces>,
    answers: spec_fn(int) -> NodeAnswers,
    k: int,
) -> bool {
    chunk_outcome(chunks[k], answers(k)) is Ok
}

/// Whether the first `n` chunks can all be read.
pub open spec fn readable_upto(
    chunks: Seq<ChunkPlaces>,
    answers: spec_fn(int) -> NodeAnswers,
    n: int,
) -> bool {
    forall|k: int| 0 <= k < n ==> #[trigger] readable(chunks, answers, k)
}

/// The chunk at index `k` is the first that cannot be read.
pub open spec fn is_first_unreadable(
    chunks: Seq<ChunkPlaces>,
    answers: spec_fn(int) -> NodeAnswers,
    k: int,
) -> bool {
    &&& 0 <= k < chunks.len()
    &&& readable_upto(chunks, answers, k)
    &&& !readable(chunks, answers, k)
}

/// The failure is about the first chunk that cannot be read.
pub open spec fn fails_at_first(
    chunks: Seq<ChunkPlaces>,
    answers: spec_fn(int) -> NodeAnswers,
    failure: Failure,
    counted: bool,
) -> bool {
    exists|k: int| #[trigger]
        is_first_unreadable(chunks, answers, k) && failure == (Failure {
            status: STATUS_INTERNAL_ERROR,
            message: unreadable_text(chunks[k].id),
            counted,
        })
}

/// The bytes that the storage nodes give for each of `chunks`.
pub open spec fn bytes_given(chunks: Seq<ChunkPlaces>, answers: spec_fn(int) -> NodeAnswers) -> Seq<
    Seq<u8>,
> {
    Seq::new(chunks.len(), |k: int| chunk_outcome(chunks[k], answers(k))->Ok_0)
}

/// Either all chunks can be read, or there is a first that cannot.
proof fn first_unreadable(
    chunks: Seq<ChunkPlaces>,
    answers: spec_fn(int) -> NodeAnswers,
    n: int,
) -> (k: int)
    requires
        0 <= n <= chunks.len(),
    ensures
        0 <= k <= n,
        readable_upto(chunks, answers, k),
        k < n ==> !readable(chunks, answers, k),
    decreases n,
{
    if n == 0 {
        0
    } else {
        let before = first_unreadable(chunks, answers, n - 1);
        if before == n - 1 && readable(chunks, answers, n - 1) {
            n
        } else {
            before
        }
    }
}

/// What is read is put together in order; what cannot be read is named.
proof fn outcomes_are_assembled(
    chunks: Seq<ChunkPlaces>,
    answers: spec_fn(int) -> NodeAnswers,
    k: int,
)
    requires
        0 <= k <= chunks.len(),
        readable_upto(chunks, answers, k),
        k < chunks.len() ==> !readable(chunks, answers, k),
    ensures
        assembled(outcomes(chunks, answers)) == if k == chunks.len() {
            Ok::<Seq<u8>, u64>(joined(bytes_given(chunks, answers)))
        } else {
            Err::<Seq<u8>, u64>(chunks[k].id)
        },
{
    let all = outcomes(chunks, answers);
    let given = bytes_given(chunks, answers);
    assert(all.take(k) =~= all_read(given.take(k))) by {
        assert forall|i: int| 0 <= i < k implies all.take(k)[i] == all_read(given.take(k))[i] by {
            assert(readable(chunks, answers, i));
        }
    }
    chunks_are_assembled_in_order(given.take(k));
    if k == chunks.len() {
        assert(all.take(k) =~= all);
        assert(given.take(k) =~= given);
    } else {
        assert(all.take(k + 1).drop_last() =~= all.take(k));
        assert(all.take(k + 1).last() == all[k]);
        first_failure_stays(all, k + 1);
    }
}

/// A request once everything was done for it: `found` are the chunks of the
/// object, or why it was not found, and `answers` what the storage nodes of
/// each chunk answer.
pub open spec fn getting_ended(
    name: Seq<char>,
    found: Result<Seq<ChunkPlaces>, Seq<char>>,
    answers: spec_fn(int) -> NodeAnswers,
) -> Getting {
    match found {
        Ok(chunks) => getting_chunks(
            getting_object(getting_started(name), chunks),
            outcomes(chunks, answers),
        ),
        Err(error) => getting_missing(getting_started(name), error),
    }
}

/// What a request for an object is answered with.
pub open spec fn answers_with(
    g: Getting,
    r: Result<GetObjectResponsePayload, HttpFailure>,
) -> bool {
    match r {
        Ok(response) => {
            &&& g.stage == GetStage::Done
            &&& response.bytes@ == base64_encoded(g.data)
            &&& base64_decoded(response.bytes@) == decoding_gave(g.data)
        },
        Err(failure) => g.stage != GetStage::Done && failure@ == g.failure,
    }
}

/// A request under a valid name is answered with 404 where the object is not
/// found; with the base64 text of all its chunks, put together in order, each
/// as the first storage node gave it that could be reached and answered within
/// three tries; and with 500 exactly where some chunk has no such node, for the
/// first such chunk.
pub proof fn a_request_is_answered(
    name: Seq<char>,
    found: Result<Seq<ChunkPlaces>, Seq<char>>,
    answers: spec_fn(int) -> NodeAnswers,
    r: Result<GetObjectResponsePayload, HttpFailure>,
)
    requires
        answers_with(getting_ended(name, found, answers), r),
    ensures
        match name_error(name) {
            Some(message) => r matches Err(failure) && failure@ == (Failure {
                status: STATUS_BAD_REQUEST,
                message,
                counted: true,
            }),
            None => match found {
                Err(error) => r matches Err(failure) && failure@ == (Failure {
                    status: STATUS_NOT_FOUND,
                    message: "could not get object "@ + name + ": "@ + error,
                    counted: true,
                }),
                Ok(chunks) => {
                    let data = joined(bytes_given(chunks, answers));
                    &&& r is Ok <==> readable_upto(chunks, answers, chunks.len() as int)
                    &&& r matches Ok(response) ==> response.bytes@ == base64_encoded(data)
                        && base64_decoded(response.bytes@) == decoding_gave(data)
                    &&& r matches Err(failure) ==> fails_at_first(chunks, answers, failure@, true)
                },
            },
        },
{
    if let Ok(chunks) = found {
        let k = first_unreadable(chunks, answers, chunks.len() as int);
        outcomes_are_assembled(chunks, answers, k);
        if name_error(name) is None && k < chunks.len() {
            assert(!readable(chunks, answers, k));
            assert(is_first_unreadable(chunks, answers, k));
        }
    }
}

/// The progress of giving one object out in one piece. [`Download::stage`] says
/// what to do next; the outcome is handed back by one of the `on_` methods.
pub struct Download {
    stage: GetStage,
    name: String,
    chunks: Vec<ChunkInfo>,
    data: Vec<u8>,
    failure: HttpFailure,
}

impl View for Download {
    type V = Getting;

    closed spec fn view(&self) -> Getting {
        Getting {
            stage: self.stage,
            name: self.name@,
            chunks: places_views(self.chunks@),
            data: self.data@,
            failure: self.failure@,
        }
    }
}

impl Download {
    /// Starts to give an object out.
    pub fn start(name: String) -> (r: Self)
        ensures
            r@ == getting_started(name@),
    {
        let mut r: Download = Download {
            stage: GetStage::GetMetadata,
            name,
            chunks: Vec::new(),
            data: Vec::new(),
            failure: HttpFailure::none(),
        };
        assert(r@.chunks =~= Seq::<ChunkPlaces>::empty());
        match validate_object_name(r.name.as_str()) {
            Ok(()) => {},
            Err(message) => {
                r.failure = HttpFailure::counted(STATUS_BAD_REQUEST, message);
                r.stage = GetStage::Failed;
            },
        }
        r
    }

    /// What is to be done next.
    pub fn stage(&self) -> (r: GetStage)
        ensures
            r == self@.stage,
    {
        self.stage
    }

    /// The name of the object.
    pub fn name(&self) -> (r: &str)
        ensures
            r@ == self@.name,
    {
        self.name.as_str()
    }

    /// The chunks to read.
    pub fn chunks(&self) -> (r: &Vec<ChunkInfo>)
        ensures
            places_views(r@) == self@.chunks,
    {
        &self.chunks
    }

    /// The size of the object, once it is there.
    pub fn data_len(&self) -> (r: usize)
        ensures
            r == self@.data.len(),
    {
        self.data.len()
    }

    /// The object was found.
    pub fn on_object(&mut self, chunks: Vec<ChunkInfo>)
        ensures
            final(self)@ == getting_object(old(self)@, places_views(chunks@)),
    {
        if let GetStage::GetMetadata = self.stage {
            self.chunks = chunks;
            self.stage = GetStage::ReadChunks;
        }
    }

    /// The object was not found.
    pub fn on_missing(&mut self, error: &str)
        ensures
            final(self)@ == getting_missing(old(self)@, error@),
    {
        if let GetStage::GetMetadata = self.stage {
            let mut message: String = join3("could not get object ", self.name.as_str(), ": ");
            message.append(error);
            self.failure = HttpFailure::counted(STATUS_NOT_FOUND, message);
            self.stage = GetStage::Failed;
        }
    }

    /// All chunks were read, or could not be.
    pub fn on_chunks(&mut self, results: Vec<Result<Vec<u8>, u64>>)
        ensures
            final(self)@ == getting_chunks(old(self)@, result_views(results@)),
    {
        if let GetStage::ReadChunks = self.stage {
            let ghost all = result_views(results@);
            let ghost before = self@;
            let mut data: Vec<u8> = Vec::new();
            let mut i: usize = 0;
            assert(data@ =~= Seq::<u8>::empty());
            while i < results.len()
                invariant
                    i <= results@.len(),
                    all == result_views(results@),
                    self@ == before,
                    before == old(self)@,
                    before.stage == GetStage::ReadChunks,
                    assembled(all.take(i as int)) == Ok::<Seq<u8>, u64>(data@),
                decreases results@.len() - i,
            {
                assert(all.take(i + 1).drop_last() =~= all.take(i as int));
                assert(all.take(i + 1).last() == all[i as int]);
                match &results[i] {
                    Ok(bytes) => {
                        let ghost had = data@;
                        data.extend_from_slice(bytes.as_slice());
                        assert(data@ =~= had + bytes@);
                    },
                    Err(id) => {
                        proof {
                            first_failure_stays(all, i + 1);
                        }
                        self.failure = HttpFailure::counted(
                            STATUS_INTERNAL_ERROR,
                            unreadable(*id),
                        );
                        self.stage = GetStage::Failed;
                        return ;
                    },
                }
                i = i + 1;
            }
            assert(all.take(all.len() as int) =~= all);
            self.data = data;
            self.stage = GetStage::Done;
        }
    }

    /// The answer, once the object is there or the request has failed. The
    /// object's base64 text decodes to the object.
    pub fn answer(&self) -> (r: Result<GetObjectResponsePayload, HttpFailure>)
        requires
            fits_in_base64(self@.data.len()),
        ensures
            answers_with(self@, r),
    {
        if let GetStage::Done = self.stage {
            Ok(GetObjectResponsePayload { bytes: encode_base64(self.data.as_slice()) })
        } else {
            Err(self.failure.clone())
        }
    }
}

/// What is to be done next to stream an object.
#[derive(Debug, Clone, Copy, PartialEq, Eq, Structural)]
pub enum StreamOutStage {
    /// Ask the metadata server for the object.
    GetMetadata,
    /// Read the current chunk and pass it on.
    ReadChunk,
    /// The stream is over.
    Done,
    /// The stream breaks off with an error.
    Broken,
    /// Answer with the failure.
    Failed,
}

/// What a [`DownloadStream`] stands for.
pub struct StreamingOut {
    pub stage: StreamOutStage,
    pub name: Seq<char>,
    pub chunks: Seq<ChunkPlaces>,
    /// What was passed on so far.
    pub sent: Seq<Seq<u8>>,
    pub failure: Failure,
}

impl StreamingOut {
    pub open spec fn fail(self, status: u16, message: Seq<char>) -> StreamingOut {
        StreamingOut {
            stage: StreamOutStage::Failed,
            failure: Failure { status, message, counted: true },
            ..self
        }
    }

    /// Goes on with the next chunk, if there is one.
    pub open spec fn go_on(self) -> StreamingOut {
        StreamingOut {
            stage: if self.sent.len() < self.chunks.len() {
                StreamOutStage::ReadChunk
            } else {
                StreamOutStage::Done
            },
            ..self
        }
    }
}

/// A stream before anything was done for it.
pub open spec fn streaming_out_of(name: Seq<char>) -> StreamingOut {
    StreamingOut {
        stage: StreamOutStage::GetMetadata,
        name,
        chunks: Seq::<ChunkPlaces>::empty(),
        sent: Seq::<Seq<u8>>::empty(),
        failure: no_failure(),
    }
}

/// How a stream starts.
pub open spec fn streaming_out_started(name: Seq<char>) -> StreamingOut {
    match name_error(name) {
        Some(message) => streaming_out_of(name).fail(STATUS_BAD_REQUEST, message),
        None => streaming_out_of(name),
    }
}

/// The stream once the object is known.
pub open spec fn streaming_out_object(s: StreamingOut, chunks: Seq<ChunkPlaces>) -> StreamingOut {
    if s.stage == StreamOutStage::GetMetadata {
        StreamingOut { chunks, ..s }.go_on()
    } else {
        s
    }
}

/// The stream once the object could not be found.
pub open spec fn streaming_out_missing(s: StreamingOut, error: Seq<char>) -> StreamingOut {
    if s.stage == StreamOutStage::GetMetadata {
        s.fail(STATUS_NOT_FOUND, "could not get object "@ + s.name + ": "@ + error)
    } else {
        s
    }
}

/// The stream once the current chunk is read and passed on, or could not be
/// read.
pub open spec fn streaming_out_chunk(s: StreamingOut, result: Result<Seq<u8>, u64>) -> StreamingOut {
    if s.stage != StreamOutStage::ReadChunk {
        s
    } else {
        match result {
            Ok(bytes) => StreamingOut { sent: s.sent.push(bytes), ..s }.go_on(),
            Err(id) => StreamingOut {
                stage: StreamOutStage::Broken,
                failure: Failure {
                    status: STATUS_INTERNAL_ERROR,
                    message: unreadable_text(id),
                    counted: false,
                },
                ..s
            },
        }
    }
}

/// The progress of streaming one object, chunk by chunk.
/// [`DownloadStream::stage`] says what to do next; the outcome is handed back by
/// one of the `on_` methods.
pub struct DownloadStream {
    stage: StreamOutStage,
    name: String,
    chunks: Vec<ChunkInfo>,
    next: usize,
    failure: HttpFailure,
    sent: Ghost<Seq<Seq<u8>>>,
}

impl View for DownloadStream {
    type V = StreamingOut;

    closed spec fn view(&self) -> StreamingOut {
        StreamingOut {
            stage: self.stage,
            name: self.name@,
            chunks: places_views(self.chunks@),
            sent: self.sent@,
            failure: self.failure@,
        }
    }
}

impl DownloadStream {
    /// Chunks are passed on in order, each once.
    pub closed spec fn wf(self) -> bool {
        &&& self.next == self.sent@.len()
        &&& self.stage == StreamOutStage::ReadChunk ==> self.next < self.chunks@.len()
    }

    /// Starts to stream an object.
    pub fn start(name: String) -> (r: Self)
        ensures
            r.wf(),
            r@ == streaming_out_started(name@),
    {
        let mut r: DownloadStream = DownloadStream {
            stage: StreamOutStage::GetMetadata,
            name,
            chunks: Vec::new(),
            next: 0,
            failure: HttpFailure::none(),
            sent: Ghost(Seq::<Seq<u8>>::empty()),
        };
        assert(r@.chunks =~= Seq::<ChunkPlaces>::empty());
        match validate_object_name(r.name.as_str()) {
            Ok(()) => {},
            Err(message) => {
                r.failure = HttpFailure::counted(STATUS_BAD_REQUEST, message);
                r.stage = StreamOutStage::Failed;
            },
        }
        r
    }

    fn go_on(&mut self)
        requires
            old(self).next == old(self).sent@.len(),
        ensures
            final(self).wf(),
            final(self)@ == old(self)@.go_on(),
    {
        if self.next < self.chunks.len() {
            self.stage = StreamOutStage::ReadChunk;
        } else {
            self.stage = StreamOutStage::Done;
        }
    }

    /// What is to be done next.
    pub fn stage(&self) -> (r: StreamOutStage)
        ensures
            r == self@.stage,
    {
        self.stage
    }

    /// The name of the object.
    pub fn name(&self) -> (r: &str)
        ensures
            r@ == self@.name,
    {
        self.name.as_str()
    }

    /// The chunk to read.
    pub fn chunk(&self) -> (r: &ChunkInfo)
        requires
            self.wf(),
            self@.stage == StreamOutStage::ReadChunk,
        ensures
            r@ == self@.chunks[self@.sent.len() as int],
    {
        assert(self@.chunks[self@.sent.len() as int] == self.chunks@[self.next as int]@);
        &self.chunks[self.next]
    }

    /// Why the request failed or the stream broke off.
    pub fn failure(&self) -> (r: &HttpFailure)
        ensures
            r@ == self@.failure,
    {
        &self.failure
    }

    /// The object was found.
    pub fn on_object(&mut self, chunks: Vec<ChunkInfo>)
        requires
            old(self).wf(),
        ensures
            final(self).wf(),
            final(self)@ == streaming_out_object(old(self)@, places_views(chunks@)),
    {
        if let StreamOutStage::GetMetadata = self.stage {
            self.chunks = chunks;
            self.go_on();
        }
    }

    /// The object was not found.
    pub fn on_missing(&mut self, error: &str)
        requires
            old(self).wf(),
        ensures
            final(self).wf(),
            final(self)@ == streaming_out_missing(old(self)@, error@),
    {
        if let StreamOutStage::GetMetadata = self.stage {
            let mut message: String = join3("could not get object ", self.name.as_str(), ": ");
            message.append(error);
            self.failure = HttpFailure::counted(STATUS_NOT_FOUND, message);
            self.stage = StreamOutStage::Failed;
        }
    }

    /// The chunk was read, or could not be: gives what is to be passed on.
    pub fn on_chunk(&mut self, result: Result<Vec<u8>, u64>) -> (r: Option<Vec<u8>>)
        requires
            old(self).wf(),
        ensures
            final(self).wf(),
            final(self)@ == streaming_out_chunk(
                old(self)@,
                match result {
                    Ok(bytes) => Ok(bytes@),
                    Err(id) => Err(id),
                },
            ),
            match r {
                Some(bytes) => old(self)@.stage == StreamOutStage::ReadChunk && final(self)@.sent
                    == old(self)@.sent.push(bytes@),
                None => final(self)@.sent == old(self)@.sent,
            },
    {
        if let StreamOutStage::ReadChunk = self.stage {
            match result {
                Ok(bytes) => {
                    assert(self.next < self.chunks.len());
                    self.sent = Ghost(self.sent@.push(bytes@));
                    self.next = self.next + 1;
                    self.go_on();
                    return Some(bytes);
                },
                Err(id) => {
                    self.failure = HttpFailure::uncounted(STATUS_INTERNAL_ERROR, unreadable(id));
                    self.stage = StreamOutStage::Broken;
                },
            }
        }
        None
    }
}

/// A stream passes on every chunk: it is over when there is none left, and only
/// then.
pub proof fn a_stream_passes_every_chunk_on(s: StreamingOut, result: Result<Seq<u8>, u64>)
    requires
        s.stage == StreamOutStage::ReadChunk,
        s.sent.len() < s.chunks.len(),
    ensures
        streaming_out_chunk(s, result).stage == StreamOutStage::Done <==> result is Ok
            && s.sent.len() + 1 == s.chunks.len(),
        streaming_out_chunk(s, result).chunks == s.chunks,
        result matches Ok(bytes) ==> joined(streaming_out_chunk(s, result).sent) == joined(s.sent)
            + bytes,
{
    if result is Ok {
        let bytes = result->Ok_0;
        assert(s.sent.push(bytes).drop_last() =~= s.sent);
    }
}

/// The stream once the first `n` chunks were asked for, as long as it asks for
/// any.
pub open spec fn streamed_upto(
    s: StreamingOut,
    answers: spec_fn(int) -> NodeAnswers,
    n: nat,
) -> StreamingOut
    decreases n,
{
    if n == 0 {
        s
    } else {
        streaming_out_chunk(
            streamed_upto(s, answers, (n - 1) as nat),
            chunk_outcome(s.chunks[n - 1], answers(n - 1)),
        )
    }
}

/// A stream once everything was done for it: `found` are the chunks of the
/// object, or why it was not found, and `answers` what the storage nodes of
/// each chunk answer.
pub open spec fn streaming_out_ended(
    name: Seq<char>,
    found: Result<Seq<ChunkPlaces>, Seq<char>>,
    answers: spec_fn(int) -> NodeAnswers,
) -> StreamingOut {
    match found {
        Ok(chunks) => streamed_upto(
            streaming_out_object(streaming_out_started(name), chunks),
            answers,
            chunks.len(),
        ),
        Err(error) => streaming_out_missing(streaming_out_started(name), error),
    }
}

proof fn stream_stops(s: StreamingOut, answers: spec_fn(int) -> NodeAnswers, n: nat)
    requires
        s.stage != StreamOutStage::ReadChunk,
    ensures
        streamed_upto(s, answers, n) == s,
    decreases n,
{
    if n > 0 {
        stream_stops(s, answers, (n - 1) as nat);
    }
}

proof fn stream_passes_on(s: StreamingOut, answers: spec_fn(int) -> NodeAnswers, k: int, n: nat)
    requires
        s == (StreamingOut { sent: Seq::<Seq<u8>>::empty(), ..s }).go_on(),
        n <= s.chunks.len(),
        0 <= k <= s.chunks.len(),
        readable_upto(s.chunks, answers, k),
        k < s.chunks.len() ==> !readable(s.chunks, answers, k),
    ensures
        ({
            let given = bytes_given(s.chunks, answers);
            streamed_upto(s, answers, n) == if n <= k {
                (StreamingOut { sent: given.take(n as int), ..s }).go_on()
            } else {
                StreamingOut {
                    stage: StreamOutStage::Broken,
                    sent: given.take(k),
                    failure: Failure {
                        status: STATUS_INTERNAL_ERROR,
                        message: unreadable_text(s.chunks[k].id),
                        counted: false,
                    },
                    ..s
                }
            }
        }),
    decreases n,
{
    let given = bytes_given(s.chunks, answers);
    if n == 0 {
        assert(given.take(0) =~= Seq::<Seq<u8>>::empty());
    } else {
        stream_passes_on(s, answers, k, (n - 1) as nat);
        if n <= k {
            assert(readable(s.chunks, answers, n - 1));
            assert(given.take(n - 1).push(given[n - 1]) =~= given.take(n as int));
        }
    }
}

/// A stream under a valid name fails with 404 where the object is not found;
/// otherwise it passes on all chunks in order, each as the first storage node
/// gave it that could be reached and answered within three tries; and it breaks
/// off exactly where some chunk has no such node, before the first such chunk.
pub proof fn a_stream_is_answered(
    name: Seq<char>,
    found: Result<Seq<ChunkPlaces>, Seq<char>>,
    answers: spec_fn(int) -> NodeAnswers,
)
    ensures
        ({
            let end = streaming_out_ended(name, found, answers);
            match name_error(name) {
                Some(message) => end.stage == StreamOutStage::Failed && end.failure == (Failure {
                    status: STATUS_BAD_REQUEST,
                    message,
                    counted: true,
                }),
                None => match found {
                    Err(error) => end.stage == StreamOutStage::Failed && end.failure == (Failure {
                        status: STATUS_NOT_FOUND,
                        message: "could not get object "@ + name + ": "@ + error,
                        counted: true,
                    }),
                    Ok(chunks) => if readable_upto(chunks, answers, chunks.len() as int) {
                        end.stage == StreamOutStage::Done && end.sent == bytes_given(
                            chunks,
                            answers,
                        )
                    } else {
                        &&& end.stage == StreamOutStage::Broken
                        &&& end.sent.len() < chunks.len()
                        &&& is_first_unreadable(chunks, answers, end.sent.len() as int)
                        &&& end.sent == bytes_given(chunks, answers).take(end.sent.len() as int)
                        &&& fails_at_first(chunks, answers, end.failure, false)
                    },
                },
            }
        }),
{
    if let Ok(chunks) = found {
        let s = streaming_out_object(streaming_out_started(name), chunks);
        let given = bytes_given(chunks, answers);
        if name_error(name) is Some {
            stream_stops(s, answers, chunks.len());
        } else {
            let k = first_unreadable(chunks, answers, chunks.len() as int);
            stream_passes_on(s, answers, k, chunks.len());
            if k == chunks.len() {
                assert(given.take(k) =~= given);
            } else {
                assert(!readable(chunks, answers, k));
                assert(is_first_unreadable(chunks, answers, k));
            }
        }
    }
}

} // verus!
