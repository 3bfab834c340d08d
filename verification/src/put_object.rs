//! Storing an object that arrives in one piece: for each chunk a place is
//! allocated, the data is written there, and the chunk is confirmed; a failure
//! on the way deletes the object again.
use vstd::prelude::*;

use crate::checksum::{checksum_of, compute_checksum};
use crate::chunking::{
    chunks_join_to_the_data, chunks_of, joined, parts, split_into_chunks,
};
use crate::encoding::{base64_decoded, decode_base64, decoding_view};
use crate::http_reply::{
    no_failure, Failure, HttpFailure, STATUS_BAD_REQUEST, STATUS_CONFLICT, STATUS_INTERNAL_ERROR,
    STATUS_TOO_LARGE,
};
use crate::object_name::{name_error, validate_object_name};
use crate::text::{decimal, decimal_text, join2, join3, texts};

verus! {

/// The largest object: 10 GiB.
pub const MAX_OBJECT_SIZE: u64 = 10_737_418_240;

/// The body of a request to store an object.
#[derive(Debug)]
pub struct PutObjectRequestPayload {
    /// The object's bytes in base64.
    pub bytes: String,
}

/// The answer when an object was stored.
#[derive(Debug)]
pub struct PutObjectResponsePayload {
    pub msg: String,
    pub decoded_bytes_len: usize,
}

/// What is to be done next for an upload.
#[derive(Debug, Clone, Copy, PartialEq, Eq, Structural)]
pub enum PutStage {
    /// Ask the metadata server for the storage nodes.
    ListNodes,
    /// Connect to the storage node at [`PutUpload::address`].
    ConnectFirst,
    /// Ask that node for its chunk size.
    GetChunkSize,
    /// Create the object in the metadata, with the checksum of all its data.
    CreateObject,
    /// Ask the metadata server for a place for the current chunk.
    AllocateChunk,
    /// Connect to the storage node of the current chunk, at
    /// [`PutUpload::address`].
    ConnectNode,
    /// Write the current chunk there.
    WriteChunk,
    /// Confirm the current chunk in the metadata.
    ConfirmChunk,
    /// Delete the object again; the upload has failed.
    RollBack,
    /// Answer that the object was stored.
    Done,
    /// Answer with the failure.
    Failed,
}

/// A chunk that was written and confirmed.
pub struct StoredChunk {
    pub id: u64,
    /// The storage node it was confirmed for.
    pub node: u64,
    /// The address at which it was written.
    pub address: Seq<char>,
    pub bytes: Seq<u8>,
}

/// What a [`PutUpload`] stands for.
pub struct Upload {
    pub stage: PutStage,
    pub name: Seq<char>,
    pub data: Seq<u8>,
    pub chunks: Seq<Seq<u8>>,
    /// The index of the current chunk.
    pub next: int,
    pub chunk_id: u64,
    pub node_id: u64,
    pub address: Seq<char>,
    pub failure: Failure,
    /// The chunks confirmed so far.
    pub stored: Seq<StoredChunk>,
}

impl Upload {
    pub open spec fn fail(self, status: u16, message: Seq<char>, counted: bool) -> Upload {
        Upload { stage: PutStage::Failed, failure: Failure { status, message, counted }, ..self }
    }

    pub open spec fn roll_back(self, message: Seq<char>) -> Upload {
        Upload {
            stage: PutStage::RollBack,
            failure: Failure { status: STATUS_INTERNAL_ERROR, message, counted: false },
            ..self
        }
    }

    pub open spec fn at(self, stage: PutStage) -> Upload {
        Upload { stage, ..self }
    }
}

/// An upload before anything was done for it.
pub open spec fn upload_of(name: Seq<char>, data: Seq<u8>) -> Upload {
    Upload {
        stage: PutStage::ListNodes,
        name,
        data,
        chunks: Seq::<Seq<u8>>::empty(),
        next: 0,
        chunk_id: 0,
        node_id: 0,
        address: Seq::<char>::empty(),
        failure: no_failure(),
        stored: Seq::<StoredChunk>::empty(),
    }
}

/// How an upload starts: a bad name, bytes that cannot be decoded, and too many
/// bytes are refused at once, in this order.
pub open spec fn upload_started(name: Seq<char>, decoded: Result<Seq<u8>, Seq<char>>) -> Upload {
    let refused = upload_of(name, Seq::<u8>::empty());
    match name_error(name) {
        Some(message) => refused.fail(STATUS_BAD_REQUEST, message, true),
        None => match decoded {
            Err(e) => refused.fail(STATUS_BAD_REQUEST, "invalid base64 encoding: "@ + e, true),
            Ok(data) => if data.len() > MAX_OBJECT_SIZE {
                refused.fail(
                    STATUS_TOO_LARGE,
                    "object size "@ + decimal_text(data.len()) + " exceeds maximum allowed size "@
                        + decimal_text(MAX_OBJECT_SIZE as nat),
                    true,
                )
            } else {
                upload_of(name, data)
            },
        },
    }
}

/// The upload once the storage nodes are known.
pub open spec fn upload_nodes(u: Upload, addresses: Seq<Seq<char>>) -> Upload {
    if u.stage != PutStage::ListNodes {
        u
    } else if addresses.len() == 0 {
        u.fail(STATUS_INTERNAL_ERROR, "no storage nodes found"@, true)
    } else {
        Upload { stage: PutStage::ConnectFirst, address: addresses[0], ..u }
    }
}

/// The upload once its pending connection stands.
pub open spec fn upload_connected(u: Upload) -> Upload {
    match u.stage {
        PutStage::ConnectFirst => u.at(PutStage::GetChunkSize),
        PutStage::ConnectNode => u.at(PutStage::WriteChunk),
        _ => u,
    }
}

/// The upload once the chunk size is known.
pub open spec fn upload_sized(u: Upload, chunk_size: nat) -> Upload {
    if u.stage != PutStage::GetChunkSize {
        u
    } else {
        Upload { stage: PutStage::CreateObject, chunks: chunks_of(u.data, chunk_size), ..u }
    }
}

/// The stage for the chunk `next`, if there is one.
pub open spec fn upload_go_on(u: Upload) -> Upload {
    if u.next < u.chunks.len() {
        u.at(PutStage::AllocateChunk)
    } else {
        u.at(PutStage::Done)
    }
}

/// The upload once the object is created.
pub open spec fn upload_created(u: Upload) -> Upload {
    if u.stage != PutStage::CreateObject {
        u
    } else {
        upload_go_on(u)
    }
}

/// The upload once the current chunk has its place.
pub open spec fn upload_allocated(
    u: Upload,
    chunk_id: u64,
    node_id: u64,
    address: Seq<char>,
) -> Upload {
    if u.stage != PutStage::AllocateChunk {
        u
    } else {
        Upload { stage: PutStage::ConnectNode, chunk_id, node_id, address, ..u }
    }
}

/// The upload once the current chunk is written.
pub open spec fn upload_written(u: Upload) -> Upload {
    if u.stage != PutStage::WriteChunk {
        u
    } else {
        u.at(PutStage::ConfirmChunk)
    }
}

/// The upload once the current chunk is confirmed.
pub open spec fn upload_confirmed(u: Upload) -> Upload {
    if u.stage != PutStage::ConfirmChunk {
        u
    } else {
        upload_go_on(
            Upload {
                next: u.next + 1,
                stored: u.stored.push(
                    StoredChunk {
                        id: u.chunk_id,
                        node: u.node_id,
                        address: u.address,
                        bytes: u.chunks[u.next],
                    },
                ),
                ..u
            },
        )
    }
}

/// The upload once the object is deleted again.
pub open spec fn upload_rolled_back(u: Upload) -> Upload {
    if u.stage != PutStage::RollBack {
        u
    } else {
        u.at(PutStage::Failed)
    }
}

/// What went wrong with the current chunk.
pub open spec fn chunk_trouble(u: Upload, doing: Seq<char>, error: Seq<char>) -> Seq<char> {
    "could not "@ + doing + " chunk "@ + decimal_text(u.chunk_id as nat) + " in object "@ + u.name
        + ": "@ + error
}

/// The upload once its pending request has failed. From the creation of the
/// object on, a failure rolls back, except where a storage node cannot be
/// reached.
pub open spec fn upload_failed(u: Upload, error: Seq<char>) -> Upload {
    match u.stage {
        PutStage::ListNodes => u.fail(
            STATUS_INTERNAL_ERROR,
            "no storage nodes found: "@ + error,
            true,
        ),
        PutStage::ConnectFirst | PutStage::ConnectNode => u.fail(
            STATUS_INTERNAL_ERROR,
            "could not connect to storage node "@ + u.address + ": "@ + error,
            false,
        ),
        PutStage::GetChunkSize => u.fail(
            STATUS_INTERNAL_ERROR,
            "could not get chunk size: "@ + error,
            true,
        ),
        PutStage::CreateObject => u.fail(STATUS_CONFLICT, "object name already used"@, true),
        PutStage::AllocateChunk => u.roll_back("could not allocate chunk"@),
        PutStage::WriteChunk => u.roll_back(chunk_trouble(u, "write"@, error)),
        PutStage::ConfirmChunk => u.roll_back(chunk_trouble(u, "confirm"@, error)),
        PutStage::RollBack => u.at(PutStage::Failed),
        PutStage::Done | PutStage::Failed => u,
    }
}

/// The progress of storing one object. [`PutUpload::stage`] says what to do
/// next; the outcome is handed back by one of the `on_` methods. An outcome of
/// something that was not asked for changes nothing.
pub struct PutUpload {
    stage: PutStage,
    name: String,
    data: Vec<u8>,
    chunks: Vec<Vec<u8>>,
    next: usize,
    chunk_id: u64,
    node_id: u64,
    address: String,
    failure: HttpFailure,
    stored: Ghost<Seq<StoredChunk>>,
}

impl View for PutUpload {
    type V = Upload;

    closed spec fn view(&self) -> Upload {
        Upload {
            stage: self.stage,
            name: self.name@,
            data: self.data@,
            chunks: parts(self.chunks@),
            next: self.next as int,
            chunk_id: self.chunk_id,
            node_id: self.node_id,
            address: self.address@,
            failure: self.failure@,
            stored: self.stored@,
        }
    }
}

/// The current chunk is a chunk of the data.
pub open spec fn upload_wf(u: Upload) -> bool {
    &&& 0 <= u.next <= u.chunks.len()
    &&& u.data.len() <= MAX_OBJECT_SIZE
    &&& matches!(u.stage, PutStage::ListNodes | PutStage::ConnectFirst | PutStage::GetChunkSize)
        ==> u.next == 0 && u.chunks.len() == 0
    &&& matches!(
        u.stage,
        PutStage::AllocateChunk | PutStage::ConnectNode | PutStage::WriteChunk
            | PutStage::ConfirmChunk
    ) ==> u.next < u.chunks.len()
}

impl PutUpload {
    /// Whether the current chunk is a chunk of the data.
    pub open spec fn wf(self) -> bool {
        upload_wf(self@)
    }

    fn with(name: String, data: Vec<u8>) -> (r: Self)
        ensures
            r@ == upload_of(name@, data@),
    {
        let r = PutUpload {
            stage: PutStage::ListNodes,
            name,
            data,
            chunks: Vec::new(),
            next: 0,
            chunk_id: 0,
            node_id: 0,
            address: String::new(),
            failure: HttpFailure::none(),
            stored: Ghost(Seq::<StoredChunk>::empty()),
        };
        assert(r@.chunks =~= Seq::<Seq<u8>>::empty());
        r
    }

    fn refuse(name: String, failure: HttpFailure) -> (r: Self)
        ensures
            r@ == (Upload {
                stage: PutStage::Failed,
                failure: failure@,
                ..upload_of(name@, Seq::<u8>::empty())
            }),
    {
        let mut r: PutUpload = Self::with(name, Vec::new());
        r.stage = PutStage::Failed;
        r.failure = failure;
        r
    }

    /// Starts to store the object in a request's body.
    pub fn start(name: String, payload: &PutObjectRequestPayload) -> (r: Self)
        ensures
            r.wf(),
            r@ == upload_started(name@, base64_decoded(payload.bytes@)),
    {
        Self::start_decoded(name, decode_base64(payload.bytes.as_str()))
    }

    /// Starts to store an object whose bytes have been decoded, or could not
    /// be.
    pub fn start_decoded(name: String, decoded: Result<Vec<u8>, String>) -> (r: Self)
        ensures
            r.wf(),
            r@ == upload_started(name@, decoding_view(decoded)),
    {
        match validate_object_name(name.as_str()) {
            Ok(()) => {},
            Err(message) => {
                return Self::refuse(name, HttpFailure::counted(STATUS_BAD_REQUEST, message));
            },
        }
        match decoded {
            Err(e) => Self::refuse(
                name,
                HttpFailure::counted(
                    STATUS_BAD_REQUEST,
                    join2("invalid base64 encoding: ", e.as_str()),
                ),
            ),
            Ok(data) => {
                let len: usize = data.len();
                if len as u64 > MAX_OBJECT_SIZE {
                    let mut message: String = join3(
                        "object size ",
                        decimal(len as u64).as_str(),
                        " exceeds maximum allowed size ",
                    );
                    message.append(decimal(MAX_OBJECT_SIZE).as_str());
                    return Self::refuse(name, HttpFailure::counted(STATUS_TOO_LARGE, message));
                }
                Self::with(name, data)
            },
        }
    }

    /// What is to be done next.
    pub fn stage(&self) -> (r: PutStage)
        ensures
            r == self@.stage,
    {
        self.stage
    }

    /// The name of the object.
    pub fn name(&self) -> (r: &str)
        ensures
            r@ == self@.name,
    {
        self.name.as_str()
    }

    /// The address of the storage node to connect to.
    pub fn address(&self) -> (r: &str)
        ensures
            r@ == self@.address,
    {
        self.address.as_str()
    }

    /// The checksum of all data.
    pub fn object_checksum(&self) -> (r: u32)
        ensures
            r == checksum_of(self@.data),
    {
        compute_checksum(self.data.as_slice())
    }

    /// The data of the current chunk.
    pub fn chunk_bytes(&self) -> (r: &Vec<u8>)
        requires
            self@.next < self@.chunks.len(),
            self.wf(),
        ensures
            r@ == self@.chunks[self@.next],
    {
        &self.chunks[self.next]
    }

    /// The checksum of the current chunk.
    pub fn chunk_checksum(&self) -> (r: u32)
        requires
            self@.next < self@.chunks.len(),
            self.wf(),
        ensures
            r == checksum_of(self@.chunks[self@.next]),
    {
        compute_checksum(self.chunks[self.next].as_slice())
    }

    /// The id of the current chunk.
    pub fn chunk_id(&self) -> (r: u64)
        ensures
            r == self@.chunk_id,
    {
        self.chunk_id
    }

    /// The id of the storage node of the current chunk.
    pub fn node_id(&self) -> (r: u64)
        ensures
            r == self@.node_id,
    {
        self.node_id
    }

    /// The answer, once the upload is done or has failed.
    pub fn answer(&self) -> (r: Result<PutObjectResponsePayload, HttpFailure>)
        ensures
            match r {
                Ok(response) => self@.stage == PutStage::Done && response.msg@ == "upload complete"@
                    && response.decoded_bytes_len == self@.data.len(),
                Err(failure) => self@.stage != PutStage::Done && failure@ == self@.failure,
            },
    {
        if let PutStage::Done = self.stage {
            Ok(
                PutObjectResponsePayload {
                    msg: "upload complete".to_owned(),
                    decoded_bytes_len: self.data.len(),
                },
            )
        } else {
            Err(self.failure.clone())
        }
    }

    fn fail(&mut self, failure: HttpFailure)
        ensures
            final(self)@ == (Upload {
                stage: PutStage::Failed,
                failure: failure@,
                ..old(self)@
            }),
    {
        self.stage = PutStage::Failed;
        self.failure = failure;
    }

    fn roll_back(&mut self, message: String)
        ensures
            final(self)@ == old(self)@.roll_back(message@),
    {
        self.stage = PutStage::RollBack;
        self.failure = HttpFailure::uncounted(STATUS_INTERNAL_ERROR, message);
    }

    /// The storage nodes have been listed.
    pub fn on_nodes(&mut self, addresses: &Vec<String>)
        requires
            old(self).wf(),
        ensures
            final(self).wf(),
            final(self)@ == upload_nodes(old(self)@, texts(addresses@)),
    {
        if let PutStage::ListNodes = self.stage {
            if addresses.len() == 0 {
                self.fail(
                    HttpFailure::counted(
                        STATUS_INTERNAL_ERROR,
                        "no storage nodes found".to_owned(),
                    ),
                );
            } else {
                assert(texts(addresses@)[0] == addresses@[0]@);
                self.address = addresses[0].clone();
                self.stage = PutStage::ConnectFirst;
            }
        }
    }

    /// The storage node was reached.
    pub fn on_connected(&mut self)
        requires
            old(self).wf(),
        ensures
            final(self).wf(),
            final(self)@ == upload_connected(old(self)@),
    {
        match self.stage {
            PutStage::ConnectFirst => {
                self.stage = PutStage::GetChunkSize;
            },
            PutStage::ConnectNode => {
                self.stage = PutStage::WriteChunk;
            },
            _ => {},
        }
    }

    /// The storage nodes hold chunks of this many bytes.
    pub fn on_chunk_size(&mut self, chunk_size: usize)
        requires
            old(self).wf(),
            old(self)@.stage == PutStage::GetChunkSize ==> chunk_size > 0,
        ensures
            final(self).wf(),
            final(self)@ == upload_sized(old(self)@, chunk_size as nat),
    {
        if let PutStage::GetChunkSize = self.stage {
            self.chunks = split_into_chunks(&self.data, chunk_size);
            self.stage = PutStage::CreateObject;
        }
    }

    fn go_on(&mut self)
        requires
            old(self)@.next <= old(self)@.chunks.len(),
            old(self)@.data.len() <= MAX_OBJECT_SIZE,
        ensures
            final(self).wf(),
            final(self)@ == upload_go_on(old(self)@),
    {
        if self.next < self.chunks.len() {
            self.stage = PutStage::AllocateChunk;
        } else {
            self.stage = PutStage::Done;
        }
    }

    /// The object was created.
    pub fn on_created(&mut self)
        requires
            old(self).wf(),
        ensures
            final(self).wf(),
            final(self)@ == upload_created(old(self)@),
    {
        if let PutStage::CreateObject = self.stage {
            self.go_on();
        }
    }

    /// The current chunk has an id and a storage node.
    pub fn on_allocated(&mut self, chunk_id: u64, node_id: u64, address: &str)
        requires
            old(self).wf(),
        ensures
            final(self).wf(),
            final(self)@ == upload_allocated(old(self)@, chunk_id, node_id, address@),
    {
        if let PutStage::AllocateChunk = self.stage {
            self.chunk_id = chunk_id;
            self.node_id = node_id;
            self.address = address.to_owned();
            self.stage = PutStage::ConnectNode;
        }
    }

    /// The current chunk was written.
    pub fn on_written(&mut self)
        requires
            old(self).wf(),
        ensures
            final(self).wf(),
            final(self)@ == upload_written(old(self)@),
    {
        if let PutStage::WriteChunk = self.stage {
            self.stage = PutStage::ConfirmChunk;
        }
    }

    /// The current chunk was confirmed.
    pub fn on_confirmed(&mut self)
        requires
            old(self).wf(),
        ensures
            final(self).wf(),
            final(self)@ == upload_confirmed(old(self)@),
    {
        if let PutStage::ConfirmChunk = self.stage {
            let ghost chunk = StoredChunk {
                id: self.chunk_id,
                node: self.node_id,
                address: self.address@,
                bytes: self@.chunks[self@.next],
            };
            self.stored = Ghost(self.stored@.push(chunk));
            assert(self.next < self.chunks.len());
            self.next = self.next + 1;
            self.go_on();
        }
    }

    /// The object was deleted again.
    pub fn on_rolled_back(&mut self)
        requires
            old(self).wf(),
        ensures
            final(self).wf(),
            final(self)@ == upload_rolled_back(old(self)@),
    {
        if let PutStage::RollBack = self.stage {
            self.stage = PutStage::Failed;
        }
    }

    fn chunk_trouble(&self, doing: &str, error: &str) -> (r: String)
        ensures
            r@ == chunk_trouble(self@, doing@, error@),
    {
        let mut r: String = join3("could not ", doing, " chunk ");
        r.append(decimal(self.chunk_id).as_str());
        r.append(" in object ");
        r.append(self.name.as_str());
        r.append(": ");
        r.append(error);
        r
    }

    /// What was asked for has failed.
    pub fn on_failed(&mut self, error: &str)
        requires
            old(self).wf(),
        ensures
            final(self).wf(),
            final(self)@ == upload_failed(old(self)@, error@),
    {
        match self.stage {
            PutStage::ListNodes => {
                self.fail(
                    HttpFailure::counted(
                        STATUS_INTERNAL_ERROR,
                        join2("no storage nodes found: ", error),
                    ),
                );
            },
            PutStage::ConnectFirst | PutStage::ConnectNode => {
                let mut message: String = join3(
                    "could not connect to storage node ",
                    self.address.as_str(),
                    ": ",
                );
                message.append(error);
                self.fail(HttpFailure::uncounted(STATUS_INTERNAL_ERROR, message));
            },
            PutStage::GetChunkSize => {
                self.fail(
                    HttpFailure::counted(
                        STATUS_INTERNAL_ERROR,
                        join2("could not get chunk size: ", error),
                    ),
                );
            },
            PutStage::CreateObject => {
                self.fail(
                    HttpFailure::counted(STATUS_CONFLICT, "object name already used".to_owned()),
                );
            },
            PutStage::AllocateChunk => {
                self.roll_back("could not allocate chunk".to_owned());
            },
            PutStage::WriteChunk => {
                let message: String = self.chunk_trouble("write", error);
                self.roll_back(message);
            },
            PutStage::ConfirmChunk => {
                let message: String = self.chunk_trouble("confirm", error);
                self.roll_back(message);
            },
            PutStage::RollBack => {
                self.stage = PutStage::Failed;
            },
            PutStage::Done | PutStage::Failed => {},
        }
    }
}

/// `chunks` are `data` cut into chunks of some size.
pub open spec fn is_cut(data: Seq<u8>, chunks: Seq<Seq<u8>>) -> bool {
    exists|size: nat| size > 0 && chunks == #[trigger] chunks_of(data, size)
}

/// What holds of an upload at every step: the name is valid, and the confirmed
/// chunks are, in order, the first chunks of the data.
pub open spec fn upload_faithful(u: Upload) -> bool {
    &&& upload_wf(u)
    &&& u.stage != PutStage::Failed ==> name_error(u.name) is None
    &&& u.stored.len() == u.next
    &&& forall|k: int| 0 <= k < u.next ==> (#[trigger] u.stored[k]).bytes == u.chunks[k]
    &&& matches!(
        u.stage,
        PutStage::CreateObject | PutStage::AllocateChunk | PutStage::ConnectNode
            | PutStage::WriteChunk | PutStage::ConfirmChunk | PutStage::RollBack | PutStage::Done
    ) ==> is_cut(u.data, u.chunks)
    &&& u.stage == PutStage::Done ==> u.next == u.chunks.len()
}

/// The bytes of stored chunks.
pub open spec fn stored_bytes(stored: Seq<StoredChunk>) -> Seq<Seq<u8>> {
    stored.map_values(|c: StoredChunk| c.bytes)
}

/// Every upload is faithful when it starts, and every step keeps it so.
pub proof fn every_step_is_faithful(
    u: Upload,
    name: Seq<char>,
    decoded: Result<Seq<u8>, Seq<char>>,
    addresses: Seq<Seq<char>>,
    chunk_size: nat,
    chunk_id: u64,
    node_id: u64,
    text: Seq<char>,
)
    requires
        chunk_size > 0,
    ensures
        upload_faithful(upload_started(name, decoded)),
        upload_faithful(u) ==> upload_faithful(upload_nodes(u, addresses)),
        upload_faithful(u) ==> upload_faithful(upload_connected(u)),
        upload_faithful(u) ==> upload_faithful(upload_sized(u, chunk_size)),
        upload_faithful(u) ==> upload_faithful(upload_created(u)),
        upload_faithful(u) ==> upload_faithful(upload_allocated(u, chunk_id, node_id, text)),
        upload_faithful(u) ==> upload_faithful(upload_written(u)),
        upload_faithful(u) ==> upload_faithful(upload_confirmed(u)),
        upload_faithful(u) ==> upload_faithful(upload_rolled_back(u)),
        upload_faithful(u) ==> upload_faithful(upload_failed(u, text)),
{
    if upload_faithful(u) {
        assert(upload_faithful(upload_sized(u, chunk_size))) by {
            let after = upload_sized(u, chunk_size);
            if u.stage == PutStage::GetChunkSize {
                assert(after.chunks == chunks_of(after.data, chunk_size));
            }
        }
        let after = upload_confirmed(u);
        if u.stage == PutStage::ConfirmChunk {
            assert forall|k: int| 0 <= k < after.next implies (#[trigger] after.stored[k]).bytes
                == after.chunks[k] by {
                if k < u.next {
                    assert(after.stored[k] == u.stored[k]);
                }
            }
        }
    }
}

/// An upload that is answered as complete has stored all of its data: the
/// chunks it confirmed, put together in order, are the object.
pub proof fn a_complete_upload_stored_its_data(u: Upload)
    requires
        upload_faithful(u),
        u.stage == PutStage::Done,
    ensures
        joined(stored_bytes(u.stored)) == u.data,
{
    let size = choose|size: nat| size > 0 && u.chunks == #[trigger] chunks_of(u.data, size);
    chunks_join_to_the_data(u.data, size);
    assert(stored_bytes(u.stored) =~= u.chunks) by {
        assert forall|k: int| 0 <= k < u.next implies stored_bytes(u.stored)[k] == u.chunks[k] by {
            assert(u.stored[k].bytes == u.chunks[k]);
        }
    }
}

/// A failure while an object's chunks are allocated, written or confirmed
/// leads to the deletion of the object before it is answered; one to reach the
/// chunk's storage node does not.
pub proof fn chunk_failures_roll_back(u: Upload, error: Seq<char>)
    ensures
        matches!(
            u.stage,
            PutStage::AllocateChunk | PutStage::WriteChunk | PutStage::ConfirmChunk
        ) ==> {
            &&& upload_failed(u, error).stage == PutStage::RollBack
            &&& upload_rolled_back(upload_failed(u, error)).stage == PutStage::Failed
            &&& upload_rolled_back(upload_failed(u, error)).failure == upload_failed(
                u,
                error,
            ).failure
            &&& upload_failed(u, error).failure.status == STATUS_INTERNAL_ERROR
        },
        u.stage == PutStage::ConnectNode ==> upload_failed(u, error).stage == PutStage::Failed,
{
}

/// What the servers answer to an upload.
pub struct UploadAnswers {
    /// The addresses of the storage nodes.
    pub addresses: Seq<Seq<char>>,
    /// The size of chunks that the first of them tells.
    pub chunk_size: nat,
    /// The place of each chunk, by its index: its id, and the id and the
    /// address of the storage node.
    pub place: spec_fn(nat) -> (u64, u64, Seq<char>),
    /// The error of each request that fails, by the number of the request.
    pub error: spec_fn(nat) -> Option<Seq<char>>,
}

/// The upload after its request number `step` was answered.
pub open spec fn upload_next(u: Upload, answers: UploadAnswers, step: nat) -> Upload {
    match (answers.error)(step) {
        Some(error) => upload_failed(u, error),
        None => match u.stage {
            PutStage::ListNodes => upload_nodes(u, answers.addresses),
            PutStage::ConnectFirst | PutStage::ConnectNode => upload_connected(u),
            PutStage::GetChunkSize => upload_sized(u, answers.chunk_size),
            PutStage::CreateObject => upload_created(u),
            PutStage::AllocateChunk => {
                let place = (answers.place)(u.next as nat);
                upload_allocated(u, place.0, place.1, place.2)
            },
            PutStage::WriteChunk => upload_written(u),
            PutStage::ConfirmChunk => upload_confirmed(u),
            PutStage::RollBack => upload_rolled_back(u),
            PutStage::Done | PutStage::Failed => u,
        },
    }
}

/// The upload of `data` after `steps` requests.
pub open spec fn upload_after(
    name: Seq<char>,
    data: Seq<u8>,
    answers: UploadAnswers,
    steps: nat,
) -> Upload
    decreases steps,
{
    if steps == 0 {
        upload_started(name, Ok(data))
    } else {
        upload_next(
            upload_after(name, data, answers, (steps - 1) as nat),
            answers,
            (steps - 1) as nat,
        )
    }
}

/// Whether the first `n` requests all succeed.
pub open spec fn none_fails_before(answers: UploadAnswers, n: nat) -> bool {
    forall|i: nat| i < n ==> #[trigger] (answers.error)(i) is None
}

/// How many requests an upload takes: four to begin with, and four for each
/// chunk.
pub open spec fn upload_requests(data: Seq<u8>, answers: UploadAnswers) -> nat {
    4 + 4 * chunks_of(data, answers.chunk_size).len()
}

/// The chunks of `data`, each at its place.
pub open spec fn chunks_placed(data: Seq<u8>, answers: UploadAnswers) -> Seq<StoredChunk> {
    Seq::new(
        chunks_of(data, answers.chunk_size).len(),
        |k: int|
            StoredChunk {
                id: (answers.place)(k as nat).0,
                node: (answers.place)(k as nat).1,
                address: (answers.place)(k as nat).2,
                bytes: chunks_of(data, answers.chunk_size)[k],
            },
    )
}

/// How far an upload is after requests that all succeeded.
spec fn upload_on_its_way(u: Upload, data: Seq<u8>, answers: UploadAnswers, steps: nat) -> bool {
    let placed = chunks_placed(data, answers);
    let cut = u.chunks == chunks_of(data, answers.chunk_size) && 0 <= u.next <= placed.len()
        && u.stored == placed.take(u.next);
    let begun = cut && u.next < placed.len();
    let at_place = begun && u.chunk_id == placed[u.next].id && u.node_id == placed[u.next].node
        && u.address == placed[u.next].address;
    &&& u.data == data
    &&& u.stage == PutStage::ConnectFirst || u.stage == PutStage::GetChunkSize ==> u.address
        == answers.addresses[0]
    &&& match u.stage {
        PutStage::ListNodes => steps == 0 && u.next == 0 && u.stored.len() == 0,
        PutStage::ConnectFirst => steps == 1 && u.next == 0 && u.stored.len() == 0,
        PutStage::GetChunkSize => steps == 2 && u.next == 0 && u.stored.len() == 0,
        PutStage::CreateObject => steps == 3 && u.next == 0 && cut,
        PutStage::AllocateChunk => steps == 4 + 4 * u.next && begun,
        PutStage::ConnectNode => steps == 5 + 4 * u.next && at_place,
        PutStage::WriteChunk => steps == 6 + 4 * u.next && at_place,
        PutStage::ConfirmChunk => steps == 7 + 4 * u.next && at_place,
        PutStage::Done => steps >= upload_requests(data, answers) && cut && u.next == placed.len(),
        PutStage::RollBack | PutStage::Failed => false,
    }
}

proof fn upload_goes_on(name: Seq<char>, data: Seq<u8>, answers: UploadAnswers, steps: nat)
    requires
        name_error(name) is None,
        data.len() <= MAX_OBJECT_SIZE,
        answers.addresses.len() > 0,
        none_fails_before(answers, steps) || none_fails_before(
            answers,
            upload_requests(data, answers),
        ),
    ensures
        upload_on_its_way(upload_after(name, data, answers, steps), data, answers, steps),
    decreases steps,
{
    let placed = chunks_placed(data, answers);
    if steps > 0 {
        let before = (steps - 1) as nat;
        if none_fails_before(answers, steps) {
            assert((answers.error)(before) is None);
            assert(none_fails_before(answers, before));
        }
        upload_goes_on(name, data, answers, before);
        let u = upload_after(name, data, answers, before);
        if u.stage != PutStage::Done {
            assert((answers.error)(before) is None);
        }
        assert(placed.take(0) =~= Seq::<StoredChunk>::empty());
        if u.stage == PutStage::GetChunkSize {
            assert(u.stored =~= Seq::<StoredChunk>::empty());
        }
        if u.stage == PutStage::ConfirmChunk {
            assert(placed.take(u.next).push(placed[u.next]) =~= placed.take(u.next + 1));
        }
    }
}

proof fn upload_stays_failed(
    name: Seq<char>,
    data: Seq<u8>,
    answers: UploadAnswers,
    start: nat,
    steps: nat,
)
    requires
        start <= steps,
        upload_after(name, data, answers, start).stage == PutStage::Failed || upload_after(
            name,
            data,
            answers,
            start,
        ).stage == PutStage::RollBack,
    ensures
        upload_after(name, data, answers, steps).failure == upload_after(
            name,
            data,
            answers,
            start,
        ).failure,
        steps > start ==> upload_after(name, data, answers, steps).stage == PutStage::Failed,
    decreases steps,
{
    if steps > start {
        upload_stays_failed(name, data, answers, start, (steps - 1) as nat);
    }
}

/// While nothing has failed, an upload is wherever it is told to be. The storage
/// node that is asked for the size of chunks is the first that was listed. From
/// the time a chunk has its place until it is confirmed, its id, the id of its
/// storage node and the address that is connected to and written at are those of
/// this place and no other; and every confirmed chunk was written at the address
/// of its own place, under the id of the storage node at this address.
pub proof fn an_upload_writes_where_it_is_told(
    name: Seq<char>,
    data: Seq<u8>,
    answers: UploadAnswers,
    steps: nat,
)
    requires
        name_error(name) is None,
        data.len() <= MAX_OBJECT_SIZE,
        answers.addresses.len() > 0,
        none_fails_before(answers, steps),
    ensures
        ({
            let u = upload_after(name, data, answers, steps);
            let place = (answers.place)(u.stored.len());
            &&& u.name == name
            &&& u.data == data
            &&& u.stage == PutStage::ConnectFirst || u.stage == PutStage::GetChunkSize ==> u.address
                == answers.addresses[0]
            &&& u.stage == PutStage::ConnectNode || u.stage == PutStage::WriteChunk || u.stage
                == PutStage::ConfirmChunk ==> {
                &&& u.chunk_id == place.0
                &&& u.node_id == place.1
                &&& u.address == place.2
            }
            &&& forall|k: int|
                0 <= k < u.stored.len() ==> {
                    &&& (#[trigger] u.stored[k]).id == (answers.place)(k as nat).0
                    &&& u.stored[k].node == (answers.place)(k as nat).1
                    &&& u.stored[k].address == (answers.place)(k as nat).2
                }
        }),
{
    upload_goes_on(name, data, answers, steps);
    upload_keeps_its_name(name, data, answers, steps);
    let u = upload_after(name, data, answers, steps);
    let placed = chunks_placed(data, answers);
    assert forall|k: int| 0 <= k < u.stored.len() implies {
        &&& (#[trigger] u.stored[k]).id == (answers.place)(k as nat).0
        &&& u.stored[k].node == (answers.place)(k as nat).1
        &&& u.stored[k].address == (answers.place)(k as nat).2
    } by {
        assert(u.stored[k] == placed[k]);
    }
}

proof fn upload_keeps_its_name(name: Seq<char>, data: Seq<u8>, answers: UploadAnswers, steps: nat)
    ensures
        upload_after(name, data, answers, steps).name == name,
    decreases steps,
{
    if steps > 0 {
        upload_keeps_its_name(name, data, answers, (steps - 1) as nat);
    }
}

/// From its place to its confirmation: the chunk that is to be stored is
/// connected to, written at and confirmed for exactly the place that was found
/// for it, whatever place another chunk had before.
pub proof fn a_chunk_goes_to_its_own_place(
    u: Upload,
    chunk_id: u64,
    node_id: u64,
    address: Seq<char>,
)
    requires
        u.stage == PutStage::AllocateChunk,
        0 <= u.next < u.chunks.len(),
    ensures
        ({
            let placed = upload_allocated(u, chunk_id, node_id, address);
            let reached = upload_connected(placed);
            let written = upload_written(reached);
            let confirmed = upload_confirmed(written);
            &&& placed.stage == PutStage::ConnectNode && placed.address == address
            &&& reached.stage == PutStage::WriteChunk && reached.address == address
                && reached.chunk_id == chunk_id && reached.chunks[reached.next] == u.chunks[u.next]
            &&& written.stage == PutStage::ConfirmChunk && written.chunk_id == chunk_id
                && written.node_id == node_id && written.chunks[written.next] == u.chunks[u.next]
            &&& confirmed.next == u.next + 1
            &&& confirmed.stored.len() == u.stored.len() + 1
            &&& confirmed.stored.drop_last() == u.stored
            &&& confirmed.stored.last().id == chunk_id
            &&& confirmed.stored.last().node == node_id
            &&& confirmed.stored.last().address == address
            &&& confirmed.stored.last().bytes == u.chunks[u.next]
            &&& confirmed.name == u.name && confirmed.data == u.data && confirmed.chunks == u.chunks
            &&& confirmed.stage == if u.next + 1 < u.chunks.len() {
                PutStage::AllocateChunk
            } else {
                PutStage::Done
            }
        }),
{
    let confirmed = upload_confirmed(
        upload_written(upload_connected(upload_allocated(u, chunk_id, node_id, address))),
    );
    assert(confirmed.stored.drop_last() =~= u.stored);
}

/// The outcome of something that was not asked for changes nothing.
pub proof fn an_upload_ignores_what_it_did_not_ask_for(
    u: Upload,
    addresses: Seq<Seq<char>>,
    chunk_size: nat,
    chunk_id: u64,
    node_id: u64,
    text: Seq<char>,
)
    ensures
        u.stage != PutStage::ListNodes ==> upload_nodes(u, addresses) == u,
        u.stage != PutStage::ConnectFirst && u.stage != PutStage::ConnectNode ==> upload_connected(u)
            == u,
        u.stage != PutStage::GetChunkSize ==> upload_sized(u, chunk_size) == u,
        u.stage != PutStage::CreateObject ==> upload_created(u) == u,
        u.stage != PutStage::AllocateChunk ==> upload_allocated(u, chunk_id, node_id, text) == u,
        u.stage != PutStage::WriteChunk ==> upload_written(u) == u,
        u.stage != PutStage::ConfirmChunk ==> upload_confirmed(u) == u,
        u.stage != PutStage::RollBack ==> upload_rolled_back(u) == u,
        u.stage == PutStage::Done || u.stage == PutStage::Failed ==> upload_failed(u, text) == u,
{
}

/// An upload is refused at once exactly where its name is not valid, its bytes
/// cannot be decoded or there are more than 10 GiB of them; the answer is then
/// counted, with 400 or, where only the size is wrong, 413. Any other begins
/// with all its data and nothing stored.
pub proof fn an_upload_is_refused_for_good_reason(
    name: Seq<char>,
    decoded: Result<Seq<u8>, Seq<char>>,
)
    ensures
        ({
            let u = upload_started(name, decoded);
            let fits = decoded matches Ok(data) && data.len() <= 10_737_418_240;
            &&& u.stage == PutStage::ListNodes || u.stage == PutStage::Failed
            &&& u.stage == PutStage::ListNodes <==> name_error(name) is None && fits
            &&& u.stage == PutStage::ListNodes ==> decoded == Ok::<Seq<u8>, Seq<char>>(u.data)
            &&& u.stage == PutStage::Failed ==> u.failure.counted && u.failure.status == if name_error(
                name,
            ) is None && decoded is Ok {
                413u16
            } else {
                400
            }
            &&& u.name == name && u.stored.len() == 0 && u.next == 0
        }),
{
}

/// What a failed request costs an upload: once the chunks are being stored the
/// object is deleted again before the answer, except where a storage node
/// cannot be reached. A name that is taken is answered with 409, anything else
/// with 500; nothing is stored or forgotten by a failure.
pub proof fn a_failed_request_fails_the_upload(u: Upload, error: Seq<char>)
    requires
        u.stage != PutStage::Done,
        u.stage != PutStage::Failed,
        u.stage != PutStage::RollBack,
    ensures
        ({
            let after = upload_failed(u, error);
            &&& after.stage == if u.stage == PutStage::AllocateChunk || u.stage
                == PutStage::WriteChunk || u.stage == PutStage::ConfirmChunk {
                PutStage::RollBack
            } else {
                PutStage::Failed
            }
            &&& after.failure.status == if u.stage == PutStage::CreateObject {
                409
            } else {
                500u16
            }
            &&& after.failure.counted <==> u.stage == PutStage::ListNodes || u.stage
                == PutStage::GetChunkSize || u.stage == PutStage::CreateObject
            &&& after.failure.message.len() > 0
            &&& u.stage != PutStage::CreateObject && u.stage != PutStage::AllocateChunk
                ==> error.is_suffix_of(after.failure.message)
            &&& after.stored == u.stored && after.name == u.name && after.data == u.data
        }),
{
    let after = upload_failed(u, error);
    reveal_strlit("no storage nodes found: ");
    reveal_strlit("could not connect to storage node ");
    reveal_strlit("could not get chunk size: ");
    reveal_strlit("object name already used");
    reveal_strlit("could not allocate chunk");
    reveal_strlit("could not ");
    if u.stage != PutStage::CreateObject && u.stage != PutStage::AllocateChunk {
        let message = after.failure.message;
        assert(message.subrange(message.len() - error.len(), message.len() as int) =~= error);
    }
}

/// An upload of data that is not refused at once is complete after its requests
/// exactly where all of them succeed; every chunk of the data is then confirmed,
/// in order, at the place that was found for it. Otherwise it fails, with what
/// the first failed request is answered.
pub proof fn an_upload_completes_where_nothing_fails(
    name: Seq<char>,
    data: Seq<u8>,
    answers: UploadAnswers,
    first: nat,
    steps: nat,
)
    requires
        name_error(name) is None,
        data.len() <= MAX_OBJECT_SIZE,
        answers.addresses.len() > 0,
    ensures
        none_fails_before(answers, upload_requests(data, answers)) && steps >= upload_requests(
            data,
            answers,
        ) ==> {
            let u = upload_after(name, data, answers, steps);
            u.stage == PutStage::Done && u.stored == chunks_placed(data, answers)
        },
        none_fails_before(answers, first) && (answers.error)(first) is Some && first
            < upload_requests(data, answers) && steps >= first + 2 ==> {
            let u = upload_after(name, data, answers, steps);
            u.stage == PutStage::Failed && u.failure == upload_failed(
                upload_after(name, data, answers, first),
                (answers.error)(first)->Some_0,
            ).failure
        },
{
    let placed = chunks_placed(data, answers);
    if none_fails_before(answers, upload_requests(data, answers)) {
        upload_goes_on(name, data, answers, steps);
        assert(placed.take(placed.len() as int) =~= placed);
    }
    if none_fails_before(answers, first) && (answers.error)(first) is Some && first
        < upload_requests(data, answers) && steps >= first + 2 {
        upload_goes_on(name, data, answers, first);
        upload_stays_failed(name, data, answers, first + 1, steps);
    }
}

} // verus!
