//! Storing an object that arrives as a stream: its chunks are stored as soon
//! as they are full, and its checksum and size are set at the end.
use vstd::prelude::*;

use crate::checksum::{checksum_of, compute_checksum, RunningChecksum};
use crate::chunking::{chunks_of, copy_range, full_parts_are_chunks, joined};
use crate::http_reply::{
    no_failure, Failure, HttpFailure, STATUS_BAD_REQUEST, STATUS_CONFLICT, STATUS_INTERNAL_ERROR,
    STATUS_TOO_LARGE,
};
use crate::object_name::{name_error, validate_object_name};
use crate::put_object::{stored_bytes, PutObjectResponsePayload, StoredChunk, MAX_OBJECT_SIZE};
use crate::text::{decimal, decimal_text, join2, join3, same_text, texts};

verus! {

/// What is to be done next for a streamed upload.
#[derive(Debug, Clone, Copy, PartialEq, Eq, Structural)]
pub enum StreamStage {
    /// Ask the metadata server for the storage nodes.
    ListNodes,
    /// Connect to the storage node at [`StreamUpload::address`].
    ConnectFirst,
    /// Ask that node for its chunk size.
    GetChunkSize,
    /// Create the object in the metadata, with the checksum 0 for now.
    CreateObject,
    /// Look at the next field of the form.
    NextField,
    /// Read on in the file.
    ReadData,
    /// Ask the metadata server for a place for the current chunk.
    AllocateChunk,
    /// Connect to the storage node at [`StreamUpload::address`].
    ConnectNode,
    /// Write the current chunk there.
    WriteChunk,
    /// Confirm the current chunk in the metadata.
    ConfirmChunk,
    /// Set checksum and size of the object.
    UpdateChecksum,
    /// Delete the object again; the upload has failed.
    RollBack,
    /// Answer that the object was stored.
    Done,
    /// Answer with the failure.
    Failed,
}

/// What a [`StreamUpload`] stands for.
pub struct Streaming {
    pub stage: StreamStage,
    pub name: Seq<char>,
    pub chunk_size: nat,
    pub address: Seq<char>,
    /// All bytes of the file so far.
    pub seen: Seq<u8>,
    /// The bytes that make no full chunk yet.
    pub buffer: Seq<u8>,
    /// The chunk that is being stored.
    pub chunk: Seq<u8>,
    /// Whether the file has ended.
    pub ended: bool,
    pub chunk_id: u64,
    pub node_id: u64,
    pub failure: Failure,
    /// The chunks confirmed so far.
    pub stored: Seq<StoredChunk>,
}

impl Streaming {
    pub open spec fn fail(self, status: u16, message: Seq<char>, counted: bool) -> Streaming {
        Streaming {
            stage: StreamStage::Failed,
            failure: Failure { status, message, counted },
            ..self
        }
    }

    pub open spec fn roll_back(self, status: u16, message: Seq<char>) -> Streaming {
        Streaming {
            stage: StreamStage::RollBack,
            failure: Failure { status, message, counted: false },
            ..self
        }
    }

    pub open spec fn at(self, stage: StreamStage) -> Streaming {
        Streaming { stage, ..self }
    }

    /// Takes a full chunk out of the buffer, or what is left of it at the end
    /// of the file; where there is neither, reads on, or finishes.
    pub open spec fn take_chunk(self) -> Streaming {
        if self.buffer.len() >= self.chunk_size {
            Streaming {
                stage: StreamStage::AllocateChunk,
                chunk: self.buffer.take(self.chunk_size as int),
                buffer: self.buffer.skip(self.chunk_size as int),
                ..self
            }
        } else if !self.ended {
            self.at(StreamStage::ReadData)
        } else if self.buffer.len() > 0 {
            Streaming {
                stage: StreamStage::AllocateChunk,
                chunk: self.buffer,
                buffer: Seq::<u8>::empty(),
                ..self
            }
        } else {
            self.at(StreamStage::UpdateChecksum)
        }
    }
}

/// A streamed upload before anything was done for it.
pub open spec fn streaming_of(name: Seq<char>) -> Streaming {
    Streaming {
        stage: StreamStage::ListNodes,
        name,
        chunk_size: 0,
        address: Seq::<char>::empty(),
        seen: Seq::<u8>::empty(),
        buffer: Seq::<u8>::empty(),
        chunk: Seq::<u8>::empty(),
        ended: false,
        chunk_id: 0,
        node_id: 0,
        failure: no_failure(),
        stored: Seq::<StoredChunk>::empty(),
    }
}

/// How a streamed upload starts.
pub open spec fn streaming_started(name: Seq<char>) -> Streaming {
    match name_error(name) {
        Some(message) => streaming_of(name).fail(STATUS_BAD_REQUEST, message, true),
        None => streaming_of(name),
    }
}

/// The upload once the storage nodes are known.
pub open spec fn streaming_nodes(s: Streaming, addresses: Seq<Seq<char>>) -> Streaming {
    if s.stage != StreamStage::ListNodes {
        s
    } else if addresses.len() == 0 {
        s.fail(STATUS_INTERNAL_ERROR, "no storage nodes found"@, false)
    } else {
        Streaming { stage: StreamStage::ConnectFirst, address: addresses[0], ..s }
    }
}

/// The upload once its pending connection stands.
pub open spec fn streaming_connected(s: Streaming) -> Streaming {
    match s.stage {
        StreamStage::ConnectFirst => s.at(StreamStage::GetChunkSize),
        StreamStage::ConnectNode => s.at(StreamStage::WriteChunk),
        _ => s,
    }
}

/// The upload once the chunk size is known.
pub open spec fn streaming_sized(s: Streaming, chunk_size: nat) -> Streaming {
    if s.stage != StreamStage::GetChunkSize {
        s
    } else {
        Streaming { stage: StreamStage::CreateObject, chunk_size, ..s }
    }
}

/// The upload once the object is created.
pub open spec fn streaming_created(s: Streaming) -> Streaming {
    if s.stage != StreamStage::CreateObject {
        s
    } else {
        s.at(StreamStage::NextField)
    }
}

/// The upload at a field of the form; fields other than the file are skipped.
pub open spec fn streaming_field(s: Streaming, field: Option<Seq<char>>) -> Streaming {
    if s.stage == StreamStage::NextField && field == Some("file"@) {
        s.at(StreamStage::ReadData)
    } else {
        s
    }
}

/// The upload once the form has ended without a file.
pub open spec fn streaming_no_field(s: Streaming) -> Streaming {
    if s.stage != StreamStage::NextField {
        s
    } else {
        s.roll_back(STATUS_BAD_REQUEST, "missing 'file' field in multipart request"@)
    }
}

/// The upload once more of the file has arrived.
pub open spec fn streaming_data(s: Streaming, data: Seq<u8>) -> Streaming {
    if s.stage != StreamStage::ReadData {
        s
    } else if s.seen.len() + data.len() > MAX_OBJECT_SIZE {
        s.roll_back(
            STATUS_TOO_LARGE,
            "object exceeds maximum size "@ + decimal_text(MAX_OBJECT_SIZE as nat),
        )
    } else {
        Streaming { seen: s.seen + data, buffer: s.buffer + data, ..s }.take_chunk()
    }
}

/// The upload once the file has ended.
pub open spec fn streaming_end(s: Streaming) -> Streaming {
    if s.stage != StreamStage::ReadData {
        s
    } else {
        Streaming { ended: true, ..s }.take_chunk()
    }
}

/// The upload once the current chunk has its place.
pub open spec fn streaming_allocated(
    s: Streaming,
    chunk_id: u64,
    node_id: u64,
    address: Seq<char>,
) -> Streaming {
    if s.stage != StreamStage::AllocateChunk {
        s
    } else {
        Streaming { stage: StreamStage::ConnectNode, chunk_id, node_id, address, ..s }
    }
}

/// The upload once the current chunk is written.
pub open spec fn streaming_written(s: Streaming) -> Streaming {
    if s.stage != StreamStage::WriteChunk {
        s
    } else {
        s.at(StreamStage::ConfirmChunk)
    }
}

/// The upload once the current chunk is confirmed.
pub open spec fn streaming_confirmed(s: Streaming) -> Streaming {
    if s.stage != StreamStage::ConfirmChunk {
        s
    } else {
        Streaming {
            stored: s.stored.push(
                StoredChunk {
                    id: s.chunk_id,
                    node: s.node_id,
                    address: s.address,
                    bytes: s.chunk,
                },
            ),
            chunk: Seq::<u8>::empty(),
            ..s
        }.take_chunk()
    }
}

/// The upload once checksum and size are set.
pub open spec fn streaming_updated(s: Streaming) -> Streaming {
    if s.stage != StreamStage::UpdateChecksum {
        s
    } else {
        s.at(StreamStage::Done)
    }
}

/// The upload once the object is deleted again.
pub open spec fn streaming_rolled_back(s: Streaming) -> Streaming {
    if s.stage != StreamStage::RollBack {
        s
    } else {
        s.at(StreamStage::Failed)
    }
}

/// The upload once its pending request has failed. From the creation of the
/// object on, every failure rolls back.
pub open spec fn streaming_failed(s: Streaming, error: Seq<char>) -> Streaming {
    match s.stage {
        StreamStage::ListNodes => s.fail(
            STATUS_INTERNAL_ERROR,
            "no storage nodes found: "@ + error,
            false,
        ),
        StreamStage::ConnectFirst => s.fail(
            STATUS_INTERNAL_ERROR,
            "could not connect to storage node: "@ + error,
            false,
        ),
        StreamStage::GetChunkSize => s.fail(
            STATUS_INTERNAL_ERROR,
            "could not get chunk size: "@ + error,
            false,
        ),
        StreamStage::CreateObject => s.fail(STATUS_CONFLICT, "object name already used"@, true),
        StreamStage::NextField => s.roll_back(STATUS_BAD_REQUEST, "multipart error: "@ + error),
        StreamStage::ReadData => s.roll_back(STATUS_BAD_REQUEST, "stream read error: "@ + error),
        StreamStage::AllocateChunk => s.roll_back(
            STATUS_INTERNAL_ERROR,
            "could not allocate chunk: "@ + error,
        ),
        StreamStage::ConnectNode => s.roll_back(
            STATUS_INTERNAL_ERROR,
            "could not connect to storage node "@ + s.address + ": "@ + error,
        ),
        StreamStage::WriteChunk => s.roll_back(
            STATUS_INTERNAL_ERROR,
            "could not write chunk: "@ + error,
        ),
        StreamStage::ConfirmChunk => s.roll_back(
            STATUS_INTERNAL_ERROR,
            "could not confirm chunk: "@ + error,
        ),
        StreamStage::UpdateChecksum => s.roll_back(
            STATUS_INTERNAL_ERROR,
            "could not update object checksum: "@ + error,
        ),
        StreamStage::RollBack => s.at(StreamStage::Failed),
        StreamStage::Done | StreamStage::Failed => s,
    }
}

/// The progress of storing one object from a stream. [`StreamUpload::stage`]
/// says what to do next; the outcome is handed back by one of the `on_`
/// methods. An outcome of something that was not asked for changes nothing.
pub struct StreamUpload {
    stage: StreamStage,
    name: String,
    chunk_size: usize,
    address: String,
    checksum: RunningChecksum,
    total_size: u64,
    buffer: Vec<u8>,
    chunk: Vec<u8>,
    ended: bool,
    chunk_id: u64,
    node_id: u64,
    failure: HttpFailure,
    stored: Ghost<Seq<StoredChunk>>,
}

impl View for StreamUpload {
    type V = Streaming;

    closed spec fn view(&self) -> Streaming {
        Streaming {
            stage: self.stage,
            name: self.name@,
            chunk_size: self.chunk_size as nat,
            address: self.address@,
            seen: self.checksum.seen(),
            buffer: self.buffer@,
            chunk: self.chunk@,
            ended: self.ended,
            chunk_id: self.chunk_id,
            node_id: self.node_id,
            failure: self.failure@,
            stored: self.stored@,
        }
    }
}

impl StreamUpload {
    /// The size that is kept is that of the file so far.
    pub closed spec fn wf(self) -> bool {
        self.total_size == self@.seen.len() && self.total_size <= MAX_OBJECT_SIZE
    }

    /// Starts to store the object `name`.
    pub fn start(name: String) -> (r: Self)
        ensures
            r.wf(),
            r@ == streaming_started(name@),
    {
        let mut r: StreamUpload = StreamUpload {
            stage: StreamStage::ListNodes,
            name,
            chunk_size: 0,
            address: String::new(),
            checksum: RunningChecksum::new(),
            total_size: 0,
            buffer: Vec::new(),
            chunk: Vec::new(),
            ended: false,
            chunk_id: 0,
            node_id: 0,
            failure: HttpFailure::none(),
            stored: Ghost(Seq::<StoredChunk>::empty()),
        };
        assert(r@ == streaming_of(name@));
        match validate_object_name(r.name.as_str()) {
            Ok(()) => {},
            Err(message) => {
                r.fail(HttpFailure::counted(STATUS_BAD_REQUEST, message));
            },
        }
        r
    }

    /// What is to be done next.
    pub fn stage(&self) -> (r: StreamStage)
        ensures
            r == self@.stage,
    {
        self.stage
    }

    /// The name of the object.
    pub fn name(&self) -> (r: &str)
        ensures
            r@ == self@.name,
    {
        self.name.as_str()
    }

    /// The address of the storage node to connect to.
    pub fn address(&self) -> (r: &str)
        ensures
            r@ == self@.address,
    {
        self.address.as_str()
    }

    /// The checksum of the file so far.
    pub fn object_checksum(&self) -> (r: u32)
        ensures
            r == checksum_of(self@.seen),
    {
        self.checksum.finalize()
    }

    /// The size of the file so far.
    pub fn total_size(&self) -> (r: u64)
        requires
            self.wf(),
        ensures
            r == self@.seen.len(),
    {
        self.total_size
    }

    /// The data of the current chunk.
    pub fn chunk_bytes(&self) -> (r: &Vec<u8>)
        ensures
            r@ == self@.chunk,
    {
        &self.chunk
    }

    /// The checksum of the current chunk.
    pub fn chunk_checksum(&self) -> (r: u32)
        ensures
            r == checksum_of(self@.chunk),
    {
        compute_checksum(self.chunk.as_slice())
    }

    /// The id of the current chunk.
    pub fn chunk_id(&self) -> (r: u64)
        ensures
            r == self@.chunk_id,
    {
        self.chunk_id
    }

    /// The id of the storage node of the current chunk.
    pub fn node_id(&self) -> (r: u64)
        ensures
            r == self@.node_id,
    {
        self.node_id
    }

    /// The answer, once the upload is done or has failed.
    pub fn answer(&self) -> (r: Result<PutObjectResponsePayload, HttpFailure>)
        requires
            self.wf(),
        ensures
            match r {
                Ok(response) => self@.stage == StreamStage::Done && response.msg@
                    == "upload complete"@ && response.decoded_bytes_len == (
                self@.seen.len() as u64) as usize,
                Err(failure) => self@.stage != StreamStage::Done && failure@ == self@.failure,
            },
    {
        if let StreamStage::Done = self.stage {
            Ok(
                PutObjectResponsePayload {
                    msg: "upload complete".to_owned(),
                    decoded_bytes_len: self.total_size as usize,
                },
            )
        } else {
            Err(self.failure.clone())
        }
    }

    fn fail(&mut self, failure: HttpFailure)
        ensures
            final(self).wf() == old(self).wf(),
            final(self)@ == (Streaming {
                stage: StreamStage::Failed,
                failure: failure@,
                ..old(self)@
            }),
    {
        self.stage = StreamStage::Failed;
        self.failure = failure;
    }

    fn roll_back(&mut self, status: u16, message: String)
        ensures
            final(self).wf() == old(self).wf(),
            final(self)@ == old(self)@.roll_back(status, message@),
    {
        self.stage = StreamStage::RollBack;
        self.failure = HttpFailure::uncounted(status, message);
    }

    fn take_chunk(&mut self)
        ensures
            final(self).wf() == old(self).wf(),
            final(self)@ == old(self)@.take_chunk(),
    {
        let len: usize = self.buffer.len();
        if len >= self.chunk_size {
            self.chunk = copy_range(&self.buffer, 0, self.chunk_size);
            self.buffer = copy_range(&self.buffer, self.chunk_size, len);
            self.stage = StreamStage::AllocateChunk;
            assert(self@.chunk =~= old(self)@.buffer.take(self.chunk_size as int));
            assert(self@.buffer =~= old(self)@.buffer.skip(self.chunk_size as int));
        } else if !self.ended {
            self.stage = StreamStage::ReadData;
        } else if len > 0 {
            self.chunk = copy_range(&self.buffer, 0, len);
            self.buffer = Vec::new();
            self.stage = StreamStage::AllocateChunk;
            assert(self@.chunk =~= old(self)@.buffer);
        } else {
            self.stage = StreamStage::UpdateChecksum;
        }
    }

    /// The storage nodes have been listed.
    pub fn on_nodes(&mut self, addresses: &Vec<String>)
        requires
            old(self).wf(),
        ensures
            final(self).wf(),
            final(self)@ == streaming_nodes(old(self)@, texts(addresses@)),
    {
        if let StreamStage::ListNodes = self.stage {
            if addresses.len() == 0 {
                self.fail(
                    HttpFailure::uncounted(
                        STATUS_INTERNAL_ERROR,
                        "no storage nodes found".to_owned(),
                    ),
                );
            } else {
                assert(texts(addresses@)[0] == addresses@[0]@);
                self.address = addresses[0].clone();
                self.stage = StreamStage::ConnectFirst;
            }
        }
    }

    /// The storage node was reached.
    pub fn on_connected(&mut self)
        requires
            old(self).wf(),
        ensures
            final(self).wf(),
            final(self)@ == streaming_connected(old(self)@),
    {
        match self.stage {
            StreamStage::ConnectFirst => {
                self.stage = StreamStage::GetChunkSize;
            },
            StreamStage::ConnectNode => {
                self.stage = StreamStage::WriteChunk;
            },
            _ => {},
        }
    }

    /// The storage nodes hold chunks of this many bytes.
    pub fn on_chunk_size(&mut self, chunk_size: usize)
        requires
            old(self).wf(),
            old(self)@.stage == StreamStage::GetChunkSize ==> chunk_size > 0,
        ensures
            final(self).wf(),
            final(self)@ == streaming_sized(old(self)@, chunk_size as nat),
    {
        if let StreamStage::GetChunkSize = self.stage {
            self.chunk_size = chunk_size;
            self.stage = StreamStage::CreateObject;
        }
    }

    /// The object was created.
    pub fn on_created(&mut self)
        requires
            old(self).wf(),
        ensures
            final(self).wf(),
            final(self)@ == streaming_created(old(self)@),
    {
        if let StreamStage::CreateObject = self.stage {
            self.stage = StreamStage::NextField;
        }
    }

    /// The form has another field, which may have a name.
    pub fn on_field(&mut self, field: Option<&str>)
        requires
            old(self).wf(),
        ensures
            final(self).wf(),
            final(self)@ == streaming_field(
                old(self)@,
                match field {
                    Some(name) => Some(name@),
                    None => None,
                },
            ),
    {
        if let StreamStage::NextField = self.stage {
            if let Some(name) = field {
                if same_text(name, "file") {
                    self.stage = StreamStage::ReadData;
                }
            }
        }
    }

    /// The form has no more fields.
    pub fn on_no_field(&mut self)
        requires
            old(self).wf(),
        ensures
            final(self).wf(),
            final(self)@ == streaming_no_field(old(self)@),
    {
        if let StreamStage::NextField = self.stage {
            self.roll_back(
                STATUS_BAD_REQUEST,
                "missing 'file' field in multipart request".to_owned(),
            );
        }
    }

    /// More of the file has arrived.
    pub fn on_data(&mut self, data: &[u8])
        requires
            old(self).wf(),
        ensures
            final(self).wf(),
            final(self)@ == streaming_data(old(self)@, data@),
    {
        if let StreamStage::ReadData = self.stage {
            let len: usize = data.len();
            if len as u64 > MAX_OBJECT_SIZE - self.total_size {
                self.roll_back(
                    STATUS_TOO_LARGE,
                    join2("object exceeds maximum size ", decimal(MAX_OBJECT_SIZE).as_str()),
                );
            } else {
                self.checksum.update(data);
                self.total_size = self.total_size + len as u64;
                let ghost before = self.buffer@;
                self.buffer.extend_from_slice(data);
                assert(self.buffer@ =~= before + data@);
                self.take_chunk();
            }
        }
    }

    /// The file has ended.
    pub fn on_end(&mut self)
        requires
            old(self).wf(),
        ensures
            final(self).wf(),
            final(self)@ == streaming_end(old(self)@),
    {
        if let StreamStage::ReadData = self.stage {
            self.ended = true;
            self.take_chunk();
        }
    }

    /// The current chunk has an id and a storage node.
    pub fn on_allocated(&mut self, chunk_id: u64, node_id: u64, address: &str)
        requires
            old(self).wf(),
        ensures
            final(self).wf(),
            final(self)@ == streaming_allocated(old(self)@, chunk_id, node_id, address@),
    {
        if let StreamStage::AllocateChunk = self.stage {
            self.chunk_id = chunk_id;
            self.node_id = node_id;
            self.address = address.to_owned();
            self.stage = StreamStage::ConnectNode;
        }
    }

    /// The current chunk was written.
    pub fn on_written(&mut self)
        requires
            old(self).wf(),
        ensures
            final(self).wf(),
            final(self)@ == streaming_written(old(self)@),
    {
        if let StreamStage::WriteChunk = self.stage {
            self.stage = StreamStage::ConfirmChunk;
        }
    }

    /// The current chunk was confirmed.
    pub fn on_confirmed(&mut self)
        requires
            old(self).wf(),
        ensures
            final(self).wf(),
            final(self)@ == streaming_confirmed(old(self)@),
    {
        if let StreamStage::ConfirmChunk = self.stage {
            let ghost chunk = StoredChunk {
                id: self.chunk_id,
                node: self.node_id,
                address: self.address@,
                bytes: self.chunk@,
            };
            self.stored = Ghost(self.stored@.push(chunk));
            self.chunk = Vec::new();
            self.take_chunk();
        }
    }

    /// Checksum and size were set.
    pub fn on_updated(&mut self)
        requires
            old(self).wf(),
        ensures
            final(self).wf(),
            final(self)@ == streaming_updated(old(self)@),
    {
        if let StreamStage::UpdateChecksum = self.stage {
            self.stage = StreamStage::Done;
        }
    }

    /// The object was deleted again.
    pub fn on_rolled_back(&mut self)
        requires
            old(self).wf(),
        ensures
            final(self).wf(),
            final(self)@ == streaming_rolled_back(old(self)@),
    {
        if let StreamStage::RollBack = self.stage {
            self.stage = StreamStage::Failed;
        }
    }

    /// What was asked for has failed.
    pub fn on_failed(&mut self, error: &str)
        requires
            old(self).wf(),
        ensures
            final(self).wf(),
            final(self)@ == streaming_failed(old(self)@, error@),
    {
        match self.stage {
            StreamStage::ListNodes => {
                let message: String = join2("no storage nodes found: ", error);
                self.fail(HttpFailure::uncounted(STATUS_INTERNAL_ERROR, message));
            },
            StreamStage::ConnectFirst => {
                let message: String = join2("could not connect to storage node: ", error);
                self.fail(HttpFailure::uncounted(STATUS_INTERNAL_ERROR, message));
            },
            StreamStage::GetChunkSize => {
                let message: String = join2("could not get chunk size: ", error);
                self.fail(HttpFailure::uncounted(STATUS_INTERNAL_ERROR, message));
            },
            StreamStage::CreateObject => {
                self.fail(
                    HttpFailure::counted(STATUS_CONFLICT, "object name already used".to_owned()),
                );
            },
            StreamStage::NextField => {
                self.roll_back(STATUS_BAD_REQUEST, join2("multipart error: ", error));
            },
            StreamStage::ReadData => {
                self.roll_back(STATUS_BAD_REQUEST, join2("stream read error: ", error));
            },
            StreamStage::AllocateChunk => {
                self.roll_back(STATUS_INTERNAL_ERROR, join2("could not allocate chunk: ", error));
            },
            StreamStage::ConnectNode => {
                let mut message: String = join3(
                    "could not connect to storage node ",
                    self.address.as_str(),
                    ": ",
                );
                message.append(error);
                self.roll_back(STATUS_INTERNAL_ERROR, message);
            },
            StreamStage::WriteChunk => {
                self.roll_back(STATUS_INTERNAL_ERROR, join2("could not write chunk: ", error));
            },
            StreamStage::ConfirmChunk => {
                self.roll_back(STATUS_INTERNAL_ERROR, join2("could not confirm chunk: ", error));
            },
            StreamStage::UpdateChecksum => {
                self.roll_back(
                    STATUS_INTERNAL_ERROR,
                    join2("could not update object checksum: ", error),
                );
            },
            StreamStage::RollBack => {
                self.stage = StreamStage::Failed;
            },
            StreamStage::Done | StreamStage::Failed => {},
        }
    }
}

/// Whether the object exists in the metadata and the file is being read.
pub open spec fn is_streaming(stage: StreamStage) -> bool {
    matches!(
        stage,
        StreamStage::ReadData | StreamStage::AllocateChunk | StreamStage::ConnectNode
            | StreamStage::WriteChunk | StreamStage::ConfirmChunk | StreamStage::UpdateChecksum
            | StreamStage::Done
    )
}

/// Whether a chunk is on its way to a storage node.
pub open spec fn is_flushing(stage: StreamStage) -> bool {
    matches!(
        stage,
        StreamStage::AllocateChunk | StreamStage::ConnectNode | StreamStage::WriteChunk
            | StreamStage::ConfirmChunk
    )
}

/// What holds of a streamed upload at every step: the name is valid; the file so
/// far is not too large; the confirmed chunks, the one on its way and the buffer
/// are, in order, the file so far; and all chunks are full until the file has
/// ended.
pub open spec fn streaming_faithful(s: Streaming) -> bool {
    &&& s.stage != StreamStage::Failed ==> name_error(s.name) is None
    &&& s.seen.len() <= MAX_OBJECT_SIZE
    &&& is_streaming(s.stage) || s.stage == StreamStage::NextField || s.stage
        == StreamStage::CreateObject ==> s.chunk_size > 0
    &&& !is_streaming(s.stage) && s.stage != StreamStage::RollBack && s.stage != StreamStage::Failed
        ==> s.seen.len() == 0 && s.buffer.len() == 0 && s.stored.len() == 0 && !s.ended
        && s.chunk.len() == 0
    &&& is_streaming(s.stage) ==> {
        &&& joined(stored_bytes(s.stored)) + s.chunk + s.buffer == s.seen
        &&& !is_flushing(s.stage) ==> s.chunk.len() == 0
        &&& is_flushing(s.stage) ==> 0 < s.chunk.len() <= s.chunk_size
        &&& is_flushing(s.stage) && s.chunk.len() < s.chunk_size ==> s.ended && s.buffer.len() == 0
        &&& s.stage == StreamStage::ReadData ==> !s.ended && s.buffer.len() < s.chunk_size
        &&& s.ended ==> s.buffer.len() < s.chunk_size
        &&& s.stage == StreamStage::UpdateChecksum || s.stage == StreamStage::Done ==> s.ended
            && s.buffer.len() == 0
        &&& forall|k: int|
            0 <= k < s.stored.len() ==> 0 < (#[trigger] s.stored[k]).bytes.len() <= s.chunk_size
        &&& forall|k: int|
            0 <= k < s.stored.len() && (#[trigger] s.stored[k]).bytes.len() < s.chunk_size
                ==> k == s.stored.len() - 1 && s.ended && s.buffer.len() == 0 && s.chunk.len() == 0
    }
}

proof fn take_chunk_faithful(s: Streaming)
    requires
        name_error(s.name) is None,
        s.seen.len() <= MAX_OBJECT_SIZE,
        s.chunk_size > 0,
        joined(stored_bytes(s.stored)) + s.buffer == s.seen,
        s.chunk.len() == 0,
        s.ended ==> s.buffer.len() < s.chunk_size,
        forall|k: int|
            0 <= k < s.stored.len() ==> 0 < (#[trigger] s.stored[k]).bytes.len() <= s.chunk_size,
        forall|k: int|
            0 <= k < s.stored.len() && (#[trigger] s.stored[k]).bytes.len() < s.chunk_size ==> k
                == s.stored.len() - 1 && s.ended && s.buffer.len() == 0,
    ensures
        streaming_faithful(s.take_chunk()),
{
    let after = s.take_chunk();
    assert(joined(stored_bytes(s.stored)) + after.chunk + after.buffer =~= s.seen);
}

/// Every streamed upload is faithful when it starts, and every step keeps it
/// so.
pub proof fn every_stream_step_is_faithful(
    s: Streaming,
    name: Seq<char>,
    addresses: Seq<Seq<char>>,
    chunk_size: nat,
    field: Option<Seq<char>>,
    data: Seq<u8>,
    chunk_id: u64,
    node_id: u64,
    text: Seq<char>,
)
    requires
        chunk_size > 0,
    ensures
        streaming_faithful(streaming_started(name)),
        streaming_faithful(s) ==> {
            &&& streaming_faithful(streaming_nodes(s, addresses))
            &&& streaming_faithful(streaming_connected(s))
            &&& streaming_faithful(streaming_sized(s, chunk_size))
            &&& streaming_faithful(streaming_created(s))
            &&& streaming_faithful(streaming_field(s, field))
            &&& streaming_faithful(streaming_no_field(s))
            &&& streaming_faithful(streaming_data(s, data))
            &&& streaming_faithful(streaming_end(s))
            &&& streaming_faithful(streaming_allocated(s, chunk_id, node_id, text))
            &&& streaming_faithful(streaming_written(s))
            &&& streaming_faithful(streaming_confirmed(s))
            &&& streaming_faithful(streaming_updated(s))
            &&& streaming_faithful(streaming_rolled_back(s))
            &&& streaming_faithful(streaming_failed(s, text))
        },
{
    if streaming_faithful(s) {
        if s.stage == StreamStage::NextField {
            assert(stored_bytes(s.stored) =~= Seq::<Seq<u8>>::empty());
            assert(joined(stored_bytes(s.stored)) + s.chunk + s.buffer =~= s.seen);
        }
        if s.stage == StreamStage::ReadData {
            let more = Streaming { seen: s.seen + data, buffer: s.buffer + data, ..s };
            assert(joined(stored_bytes(s.stored)) + s.chunk + s.buffer =~= joined(
                stored_bytes(s.stored),
            ) + s.buffer);
            assert(joined(stored_bytes(more.stored)) + more.buffer =~= more.seen);
            if more.seen.len() <= MAX_OBJECT_SIZE {
                take_chunk_faithful(more);
            }
            take_chunk_faithful(Streaming { ended: true, ..s });
        }
        if s.stage == StreamStage::ConfirmChunk {
            let chunk = StoredChunk {
                id: s.chunk_id,
                node: s.node_id,
                address: s.address,
                bytes: s.chunk,
            };
            let after = Streaming {
                stored: s.stored.push(chunk),
                chunk: Seq::<u8>::empty(),
                ..s
            };
            let was = stored_bytes(s.stored);
            let now = stored_bytes(after.stored);
            assert(now =~= was.push(s.chunk));
            assert(now.drop_last() =~= was);
            assert(joined(now) == joined(was) + s.chunk);
            take_chunk_faithful(after);
        }
    }
}

/// A streamed upload that is answered as complete has stored its file: the
/// chunks it confirmed are the file cut into chunks, just as for an upload in
/// one piece, and together they are the file.
pub proof fn a_complete_stream_stored_its_file(s: Streaming)
    requires
        streaming_faithful(s),
        s.stage == StreamStage::UpdateChecksum || s.stage == StreamStage::Done,
    ensures
        joined(stored_bytes(s.stored)) == s.seen,
        stored_bytes(s.stored) == chunks_of(s.seen, s.chunk_size),
{
    let all = stored_bytes(s.stored);
    assert(joined(all) + s.chunk + s.buffer =~= joined(all));
    assert forall|k: int| 0 <= k < all.len() implies 0 < (#[trigger] all[k]).len() <= s.chunk_size by {
        assert(all[k] == s.stored[k].bytes);
    }
    assert forall|k: int| 0 <= k < all.len() - 1 implies (#[trigger] all[k]).len()
        == s.chunk_size by {
        assert(all[k] == s.stored[k].bytes);
    }
    full_parts_are_chunks(all, s.chunk_size);
}

/// Once the object exists in the metadata, no streamed upload fails without
/// deleting it again first.
pub proof fn stream_failures_roll_back(s: Streaming, error: Seq<char>)
    ensures
        is_streaming(s.stage) && s.stage != StreamStage::Done || s.stage == StreamStage::NextField
            ==> {
            &&& streaming_failed(s, error).stage == StreamStage::RollBack
            &&& streaming_rolled_back(streaming_failed(s, error)).stage == StreamStage::Failed
            &&& streaming_rolled_back(streaming_failed(s, error)).failure == streaming_failed(
                s,
                error,
            ).failure
        },
{
}

/// What a streamed upload gets from the servers and from the client.
pub struct StreamAnswers {
    /// The addresses of the storage nodes.
    pub addresses: Seq<Seq<char>>,
    /// The size of chunks that the first of them tells.
    pub chunk_size: nat,
    /// The fields of the form before the file.
    pub fields: Seq<Option<Seq<char>>>,
    /// The file, as it arrives.
    pub pieces: Seq<Seq<u8>>,
    /// The place of each chunk, by its index: its id, and the id and the
    /// address of the storage node.
    pub place: spec_fn(nat) -> (u64, u64, Seq<char>),
}

/// A streamed upload, and how much of the form has arrived.
pub struct StreamRun {
    pub upload: Streaming,
    /// How many fields have arrived.
    pub fields: nat,
    /// How many pieces of the file have arrived.
    pub pieces: nat,
}

/// The upload after the next thing that it asks for has succeeded.
pub open spec fn stream_run_next(x: StreamRun, answers: StreamAnswers) -> StreamRun {
    let s = x.upload;
    match s.stage {
        StreamStage::ListNodes => StreamRun { upload: streaming_nodes(s, answers.addresses), ..x },
        StreamStage::ConnectFirst | StreamStage::ConnectNode => StreamRun {
            upload: streaming_connected(s),
            ..x
        },
        StreamStage::GetChunkSize => StreamRun {
            upload: streaming_sized(s, answers.chunk_size),
            ..x
        },
        StreamStage::CreateObject => StreamRun { upload: streaming_created(s), ..x },
        StreamStage::NextField => if x.fields < answers.fields.len() {
            StreamRun {
                upload: streaming_field(s, answers.fields[x.fields as int]),
                fields: x.fields + 1,
                ..x
            }
        } else {
            StreamRun { upload: streaming_field(s, Some("file"@)), ..x }
        },
        StreamStage::ReadData => if x.pieces < answers.pieces.len() {
            StreamRun {
                upload: streaming_data(s, answers.pieces[x.pieces as int]),
                pieces: x.pieces + 1,
                ..x
            }
        } else {
            StreamRun { upload: streaming_end(s), ..x }
        },
        StreamStage::AllocateChunk => {
            let place = (answers.place)(s.stored.len());
            StreamRun { upload: streaming_allocated(s, place.0, place.1, place.2), ..x }
        },
        StreamStage::WriteChunk => StreamRun { upload: streaming_written(s), ..x },
        StreamStage::ConfirmChunk => StreamRun { upload: streaming_confirmed(s), ..x },
        StreamStage::UpdateChecksum => StreamRun { upload: streaming_updated(s), ..x },
        StreamStage::RollBack => StreamRun { upload: streaming_rolled_back(s), ..x },
        StreamStage::Done | StreamStage::Failed => x,
    }
}

/// The upload after `steps` things that it asked for have succeeded.
pub open spec fn stream_run_after(
    name: Seq<char>,
    answers: StreamAnswers,
    steps: nat,
) -> StreamRun
    decreases steps,
{
    if steps == 0 {
        StreamRun { upload: streaming_started(name), fields: 0, pieces: 0 }
    } else {
        stream_run_next(stream_run_after(name, answers, (steps - 1) as nat), answers)
    }
}

/// Whether each of the stored chunks is at the place that was found for it.
pub open spec fn stored_at_places(stored: Seq<StoredChunk>, answers: StreamAnswers) -> bool {
    forall|k: int|
        0 <= k < stored.len() ==> (#[trigger] stored[k]).id == (answers.place)(k as nat).0
            && stored[k].node == (answers.place)(k as nat).1 && stored[k].address == (
        answers.place)(k as nat).2
}

/// How many things are left to be done at most.
spec fn stream_left(x: StreamRun, answers: StreamAnswers) -> int {
    let s = x.upload;
    let left = answers.pieces.len() - x.pieces + (if s.ended {
        0int
    } else {
        1
    }) + 4 * (joined(answers.pieces).len() - joined(stored_bytes(s.stored)).len());
    let fields = answers.fields.len() - x.fields;
    match s.stage {
        StreamStage::ListNodes => left + fields + 6,
        StreamStage::ConnectFirst => left + fields + 5,
        StreamStage::GetChunkSize => left + fields + 4,
        StreamStage::CreateObject => left + fields + 3,
        StreamStage::NextField => left + fields + 2,
        StreamStage::ReadData | StreamStage::AllocateChunk | StreamStage::UpdateChecksum => left
            + 1,
        StreamStage::ConnectNode => left,
        StreamStage::WriteChunk => left - 1,
        StreamStage::ConfirmChunk => left - 2,
        StreamStage::Done | StreamStage::RollBack | StreamStage::Failed => 0,
    }
}

proof fn joined_grows(pieces: Seq<Seq<u8>>, n: int)
    requires
        0 <= n <= pieces.len(),
    ensures
        joined(pieces.take(n)).len() <= joined(pieces).len(),
        n < pieces.len() ==> joined(pieces.take(n + 1)) == joined(pieces.take(n)) + pieces[n],
    decreases pieces.len() - n,
{
    if n < pieces.len() {
        joined_grows(pieces, n + 1);
        assert(pieces.take(n + 1).drop_last() =~= pieces.take(n));
        assert(pieces.take(n + 1).last() == pieces[n]);
    } else {
        assert(pieces.take(n) =~= pieces);
    }
}

/// How far a streamed upload is after things that all succeeded.
spec fn stream_on_its_way(x: StreamRun, answers: StreamAnswers) -> bool {
    let s = x.upload;
    &&& streaming_faithful(s)
    &&& s.stage != StreamStage::RollBack && s.stage != StreamStage::Failed
    &&& is_streaming(s.stage) || s.stage == StreamStage::NextField || s.stage
        == StreamStage::CreateObject ==> s.chunk_size == answers.chunk_size
    &&& !is_streaming(s.stage) ==> x.pieces == 0
    &&& is_streaming(s.stage) ==> x.fields == answers.fields.len()
    &&& x.fields <= answers.fields.len()
    &&& x.pieces <= answers.pieces.len()
    &&& s.ended ==> x.pieces == answers.pieces.len()
    &&& s.seen == joined(answers.pieces.take(x.pieces as int))
    &&& stored_at_places(s.stored, answers)
    &&& s.stage == StreamStage::ConnectNode || s.stage == StreamStage::WriteChunk || s.stage
        == StreamStage::ConfirmChunk ==> s.chunk_id == (answers.place)(s.stored.len()).0
        && s.node_id == (answers.place)(s.stored.len()).1 && s.address == (answers.place)(
        s.stored.len(),
    ).2
    &&& s.stage == StreamStage::ConnectFirst || s.stage == StreamStage::GetChunkSize ==> s.address
        == answers.addresses[0]
}

proof fn stream_goes_on(name: Seq<char>, answers: StreamAnswers, steps: nat)
    requires
        name_error(name) is None,
        answers.addresses.len() > 0,
        answers.chunk_size > 0,
        joined(answers.pieces).len() <= MAX_OBJECT_SIZE,
        forall|k: int|
            0 <= k < answers.fields.len() ==> #[trigger] answers.fields[k] != Some("file"@),
    ensures
        ({
            let x = stream_run_after(name, answers, steps);
            &&& stream_on_its_way(x, answers)
            &&& x.upload.stage != StreamStage::Done ==> 0 < stream_left(x, answers) <= 7
                + answers.fields.len() + answers.pieces.len() + 4 * joined(answers.pieces).len()
                - steps
        }),
    decreases steps,
{
    if steps == 0 {
        let x = stream_run_after(name, answers, steps);
        assert(answers.pieces.take(0) =~= Seq::<Seq<u8>>::empty());
        assert(stored_bytes(x.upload.stored) =~= Seq::<Seq<u8>>::empty());
    } else {
        let before = (steps - 1) as nat;
        stream_goes_on(name, answers, before);
        let x = stream_run_after(name, answers, before);
        let s = x.upload;
        let after = stream_run_after(name, answers, steps);
        let field = if x.fields < answers.fields.len() {
            answers.fields[x.fields as int]
        } else {
            Some("file"@)
        };
        let place = (answers.place)(s.stored.len());
        let piece = answers.pieces[x.pieces as int];
        every_stream_step_is_faithful(
            s,
            name,
            answers.addresses,
            answers.chunk_size,
            field,
            piece,
            place.0,
            place.1,
            place.2,
        );
        joined_grows(answers.pieces, x.pieces as int);
        if x.pieces < answers.pieces.len() {
            joined_grows(answers.pieces, (x.pieces + 1) as int);
        }
        let was = stored_bytes(s.stored);
        if is_streaming(s.stage) {
            assert(joined(was).len() + s.chunk.len() + s.buffer.len() == s.seen.len());
        } else {
            assert(was =~= Seq::<Seq<u8>>::empty());
        }
        if s.stage == StreamStage::ConfirmChunk {
            let now = stored_bytes(after.upload.stored);
            assert(now =~= was.push(s.chunk));
            assert(now.drop_last() =~= was);
            assert(joined(now) == joined(was) + s.chunk);
        }
        if is_streaming(after.upload.stage) {
            let kept = joined(stored_bytes(after.upload.stored));
            assert(kept.len() + after.upload.chunk.len() + after.upload.buffer.len()
                == after.upload.seen.len());
        }
    }
}

/// While nothing has failed, a streamed upload is wherever it is told to be. None
/// of the file is read before all fields in front of it are skipped. The storage
/// node that is asked for the size of chunks is the first that was listed. From
/// the time a chunk has its place until it is confirmed, its id, the id of its
/// storage node and the address that is connected to and written at are those of
/// this place and no other; and every confirmed chunk was written at the address
/// of its own place, under the id of the storage node at this address.
pub proof fn a_stream_writes_where_it_is_told(name: Seq<char>, answers: StreamAnswers, steps: nat)
    requires
        name_error(name) is None,
        answers.addresses.len() > 0,
        answers.chunk_size > 0,
        joined(answers.pieces).len() <= MAX_OBJECT_SIZE,
        forall|k: int|
            0 <= k < answers.fields.len() ==> #[trigger] answers.fields[k] != Some("file"@),
    ensures
        ({
            let s = stream_run_after(name, answers, steps).upload;
            let place = (answers.place)(s.stored.len());
            &&& s.name == name
            &&& s.seen.len() > 0 || s.ended ==> stream_run_after(name, answers, steps).fields
                == answers.fields.len()
            &&& s.stage == StreamStage::ConnectFirst || s.stage == StreamStage::GetChunkSize
                ==> s.address == answers.addresses[0]
            &&& s.stage == StreamStage::ConnectNode || s.stage == StreamStage::WriteChunk || s.stage
                == StreamStage::ConfirmChunk ==> {
                &&& s.chunk_id == place.0
                &&& s.node_id == place.1
                &&& s.address == place.2
            }
            &&& forall|k: int|
                0 <= k < s.stored.len() ==> {
                    &&& (#[trigger] s.stored[k]).id == (answers.place)(k as nat).0
                    &&& s.stored[k].node == (answers.place)(k as nat).1
                    &&& s.stored[k].address == (answers.place)(k as nat).2
                }
        }),
{
    stream_goes_on(name, answers, steps);
    stream_keeps_its_name(name, answers, steps);
}

proof fn stream_keeps_its_name(name: Seq<char>, answers: StreamAnswers, steps: nat)
    ensures
        stream_run_after(name, answers, steps).upload.name == name,
    decreases steps,
{
    if steps > 0 {
        stream_keeps_its_name(name, answers, (steps - 1) as nat);
    }
}

/// From its place to its confirmation: the chunk that is to be stored is
/// connected to, written at and confirmed for exactly the place that was found
/// for it, whatever place another chunk had before. The file and what is still
/// buffered of it stay as they are, but for the chunk that is taken next.
pub proof fn a_streamed_chunk_goes_to_its_own_place(
    s: Streaming,
    chunk_id: u64,
    node_id: u64,
    address: Seq<char>,
)
    requires
        s.stage == StreamStage::AllocateChunk,
    ensures
        ({
            let placed = streaming_allocated(s, chunk_id, node_id, address);
            let reached = streaming_connected(placed);
            let written = streaming_written(reached);
            let confirmed = streaming_confirmed(written);
            &&& placed.stage == StreamStage::ConnectNode && placed.address == address
            &&& reached.stage == StreamStage::WriteChunk && reached.address == address
                && reached.chunk_id == chunk_id && reached.chunk == s.chunk
            &&& written.stage == StreamStage::ConfirmChunk && written.chunk_id == chunk_id
                && written.node_id == node_id && written.chunk == s.chunk
            &&& confirmed.stored.len() == s.stored.len() + 1
            &&& confirmed.stored.drop_last() == s.stored
            &&& confirmed.stored.last().id == chunk_id
            &&& confirmed.stored.last().node == node_id
            &&& confirmed.stored.last().address == address
            &&& confirmed.stored.last().bytes == s.chunk
            &&& confirmed.name == s.name && confirmed.seen == s.seen && confirmed.ended == s.ended
            &&& confirmed.chunk + confirmed.buffer == s.buffer
        }),
{
    let confirmed = streaming_confirmed(
        streaming_written(streaming_connected(streaming_allocated(s, chunk_id, node_id, address))),
    );
    assert(confirmed.stored.drop_last() =~= s.stored);
    assert(confirmed.chunk + confirmed.buffer =~= s.buffer);
}

/// The outcome of something that was not asked for changes nothing.
pub proof fn a_stream_ignores_what_it_did_not_ask_for(
    s: Streaming,
    addresses: Seq<Seq<char>>,
    chunk_size: nat,
    field: Option<Seq<char>>,
    data: Seq<u8>,
    chunk_id: u64,
    node_id: u64,
    text: Seq<char>,
)
    ensures
        s.stage != StreamStage::ListNodes ==> streaming_nodes(s, addresses) == s,
        s.stage != StreamStage::ConnectFirst && s.stage != StreamStage::ConnectNode
            ==> streaming_connected(s) == s,
        s.stage != StreamStage::GetChunkSize ==> streaming_sized(s, chunk_size) == s,
        s.stage != StreamStage::CreateObject ==> streaming_created(s) == s,
        s.stage != StreamStage::NextField ==> streaming_field(s, field) == s && streaming_no_field(
            s,
        ) == s,
        s.stage != StreamStage::ReadData ==> streaming_data(s, data) == s && streaming_end(s) == s,
        s.stage != StreamStage::AllocateChunk ==> streaming_allocated(s, chunk_id, node_id, text)
            == s,
        s.stage != StreamStage::WriteChunk ==> streaming_written(s) == s,
        s.stage != StreamStage::ConfirmChunk ==> streaming_confirmed(s) == s,
        s.stage != StreamStage::UpdateChecksum ==> streaming_updated(s) == s,
        s.stage != StreamStage::RollBack ==> streaming_rolled_back(s) == s,
        s.stage == StreamStage::Done || s.stage == StreamStage::Failed ==> streaming_failed(s, text)
            == s,
{
}

/// Of the fields of a form only the one with the name `file` is read; any other,
/// with or without a name, is skipped.
pub proof fn only_the_file_field_is_read(s: Streaming, field: Option<Seq<char>>)
    requires
        s.stage == StreamStage::NextField,
    ensures
        field == Some("file"@) ==> streaming_field(s, field) == s.at(StreamStage::ReadData)
            && streaming_field(s, field).stage == StreamStage::ReadData,
        field != Some("file"@) ==> streaming_field(s, field) == s,
{
}

/// A file is read on for as long as it has at most 10 GiB: data that keeps it
/// within this size is added at its end, and data that does not is refused with
/// 413 and the object deleted again.
pub proof fn a_stream_takes_at_most_ten_gibibytes(s: Streaming, data: Seq<u8>)
    requires
        s.stage == StreamStage::ReadData,
    ensures
        ({
            let after = streaming_data(s, data);
            let fits = s.seen.len() + data.len() <= 10_737_418_240;
            &&& fits ==> after.seen == s.seen + data && after.stage != StreamStage::RollBack
            &&& fits ==> s.chunk.len() == 0 ==> after.chunk + after.buffer == s.buffer + data
            &&& !fits ==> after.stage == StreamStage::RollBack && after.failure.status == 413
                && after.seen == s.seen
            &&& after.stored == s.stored && after.name == s.name
        }),
{
    let after = streaming_data(s, data);
    if s.chunk.len() == 0 {
        assert(after.chunk + after.buffer =~= if s.seen.len() + data.len() <= MAX_OBJECT_SIZE {
            s.buffer + data
        } else {
            s.buffer
        });
    }
}

/// What a failed request costs a streamed upload: once the object exists it is
/// deleted again before the answer. A name that is taken is answered with 409,
/// a form or file that cannot be read with 400, anything else with 500; nothing
/// is stored or forgotten by a failure.
pub proof fn a_failed_request_fails_the_stream(s: Streaming, error: Seq<char>)
    requires
        s.stage != StreamStage::Done,
        s.stage != StreamStage::Failed,
        s.stage != StreamStage::RollBack,
    ensures
        ({
            let after = streaming_failed(s, error);
            let early = s.stage == StreamStage::ListNodes || s.stage == StreamStage::ConnectFirst
                || s.stage == StreamStage::GetChunkSize || s.stage == StreamStage::CreateObject;
            &&& after.stage == if early {
                StreamStage::Failed
            } else {
                StreamStage::RollBack
            }
            &&& after.failure.status == if s.stage == StreamStage::CreateObject {
                409
            } else if s.stage == StreamStage::NextField || s.stage == StreamStage::ReadData {
                400
            } else {
                500u16
            }
            &&& after.failure.counted <==> s.stage == StreamStage::CreateObject
            &&& after.failure.message.len() > 0
            &&& s.stage != StreamStage::CreateObject ==> error.is_suffix_of(after.failure.message)
            &&& after.stored == s.stored && after.name == s.name && after.seen == s.seen
        }),
{
    let after = streaming_failed(s, error);
    reveal_strlit("no storage nodes found: ");
    reveal_strlit("could not connect to storage node: ");
    reveal_strlit("could not connect to storage node ");
    reveal_strlit("could not get chunk size: ");
    reveal_strlit("object name already used");
    reveal_strlit("multipart error: ");
    reveal_strlit("stream read error: ");
    reveal_strlit("could not allocate chunk: ");
    reveal_strlit("could not write chunk: ");
    reveal_strlit("could not confirm chunk: ");
    reveal_strlit("could not update object checksum: ");
    if s.stage != StreamStage::CreateObject {
        let message = after.failure.message;
        assert(message.subrange(message.len() - error.len(), message.len() as int) =~= error);
    }
}

/// A streamed upload whose file is not too large is complete once everything
/// that it asks for has succeeded: the file is what arrived in pieces, fields
/// before it are skipped, and every chunk is confirmed at the place that was
/// found for it.
pub proof fn a_stream_completes_where_nothing_fails(
    name: Seq<char>,
    answers: StreamAnswers,
    steps: nat,
)
    requires
        name_error(name) is None,
        answers.addresses.len() > 0,
        answers.chunk_size > 0,
        joined(answers.pieces).len() <= MAX_OBJECT_SIZE,
        forall|k: int|
            0 <= k < answers.fields.len() ==> #[trigger] answers.fields[k] != Some("file"@),
        steps >= 7 + answers.fields.len() + answers.pieces.len() + 4 * joined(answers.pieces).len(),
    ensures
        ({
            let s = stream_run_after(name, answers, steps).upload;
            &&& s.stage == StreamStage::Done
            &&& s.seen == joined(answers.pieces)
            &&& stored_bytes(s.stored) == chunks_of(joined(answers.pieces), answers.chunk_size)
            &&& stored_at_places(s.stored, answers)
        }),
{
    stream_goes_on(name, answers, steps);
    let x = stream_run_after(name, answers, steps);
    a_complete_stream_stored_its_file(x.upload);
    assert(answers.pieces.take(answers.pieces.len() as int) =~= answers.pieces);
}

} // verus!
