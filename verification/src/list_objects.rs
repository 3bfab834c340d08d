//! Listing all objects with the contents of their chunks.
use vstd::prelude::*;

use crate::encoding::{base64_encoded, encode_base64, fits_in_base64};
use crate::http_reply::{no_failure, Failure, HttpFailure, STATUS_INTERNAL_ERROR};
use crate::messages::{object_places, ChunkInfo, ChunkPlaces, ObjectInfo, ObjectPlaces};
use crate::text::{decimal, decimal_text, join2, join3};

verus! {

/// A text in quotes, with what cannot be printed escaped.
pub uninterp spec fn debug_quoted(text: Seq<char>) -> Seq<char>;

/// The `Debug` form of a `str`, as `format!` writes it, is a function of the
/// text.
#[verifier::external_body]
fn quoted(text: &str) -> (r: String)
    ensures
        r@ == debug_quoted(text@),
{
    format!("{:?}", text)
}

/// A chunk in a listing.
#[derive(Debug)]
pub struct ListObjectsResponseChunk {
    pub id: u64,
    /// The chunk's bytes in base64.
    pub bytes: String,
    pub node_address: String,
}

/// An object in a listing.
#[derive(Debug)]
pub struct ListObjectsResponsePayload {
    pub name: String,
    pub chunks: Vec<ListObjectsResponseChunk>,
}

/// What a [`ListObjectsResponseChunk`] stands for.
pub struct ListedChunk {
    pub id: u64,
    pub bytes: Seq<char>,
    pub node_address: Seq<char>,
}

/// What a [`ListObjectsResponsePayload`] stands for.
pub struct ListedObject {
    pub name: Seq<char>,
    pub chunks: Seq<ListedChunk>,
}

/// The views of a list of chunks.
pub open spec fn listed_chunks(items: Seq<ListObjectsResponseChunk>) -> Seq<ListedChunk> {
    items.map_values(
        |c: ListObjectsResponseChunk|
            ListedChunk { id: c.id, bytes: c.bytes@, node_address: c.node_address@ },
    )
}

/// The views of a list of objects.
pub open spec fn listed_objects(items: Seq<ListObjectsResponsePayload>) -> Seq<ListedObject> {
    items.map_values(
        |o: ListObjectsResponsePayload|
            ListedObject { name: o.name@, chunks: listed_chunks(o.chunks@) },
    )
}

/// What is to be done next for a listing.
#[derive(Debug, Clone, Copy, PartialEq, Eq, Structural)]
pub enum ListStage {
    /// Ask the metadata server for all objects.
    ListObjects,
    /// Connect to the storage node at [`ObjectListing::address`].
    Connect,
    /// Read the current chunk there.
    Read,
    /// Answer with the listing.
    Done,
    /// Answer with the failure.
    Failed,
}

/// What an [`ObjectListing`] stands for.
pub struct Listing {
    pub stage: ListStage,
    pub objects: Seq<ObjectPlaces>,
    /// The index of the current object.
    pub object: nat,
    /// The index of the current chunk in it.
    pub chunk: nat,
    /// The index of the current storage node of that.
    pub node: nat,
    /// The chunks of the current object that are listed.
    pub chunks: Seq<ListedChunk>,
    /// The objects that are listed.
    pub listed: Seq<ListedObject>,
    pub failure: Failure,
}

impl Listing {
    pub open spec fn fail(self, message: Seq<char>, counted: bool) -> Listing {
        Listing {
            stage: ListStage::Failed,
            failure: Failure { status: STATUS_INTERNAL_ERROR, message, counted },
            ..self
        }
    }

    /// The chunk that is being read.
    pub open spec fn current(self) -> ChunkPlaces {
        self.objects[self.object as int].chunks[self.chunk as int]
    }

    /// Goes on to the next chunk that is to be read, over objects that have
    /// none left; where there is none the listing is done.
    pub open spec fn settle(self) -> Listing
        decreases self.objects.len() - self.object,
    {
        if self.object >= self.objects.len() {
            Listing { stage: ListStage::Done, ..self }
        } else if self.chunk < self.objects[self.object as int].chunks.len() {
            if self.current().nodes.len() == 0 {
                self.fail(
                    "chunk "@ + decimal_text(self.current().id as nat) + " has no storage nodes"@,
                    false,
                )
            } else {
                Listing { stage: ListStage::Connect, node: 0, ..self }
            }
        } else {
            Listing {
                listed: self.listed.push(
                    ListedObject {
                        name: self.objects[self.object as int].name,
                        chunks: self.chunks,
                    },
                ),
                chunks: Seq::<ListedChunk>::empty(),
                object: self.object + 1,
                chunk: 0,
                ..self
            }.settle()
        }
    }
}

/// A listing at its start.
pub open spec fn listing_started() -> Listing {
    Listing {
        stage: ListStage::ListObjects,
        objects: Seq::<ObjectPlaces>::empty(),
        object: 0,
        chunk: 0,
        node: 0,
        chunks: Seq::<ListedChunk>::empty(),
        listed: Seq::<ListedObject>::empty(),
        failure: no_failure(),
    }
}

/// The listing once the objects are known.
pub open spec fn listing_objects(l: Listing, objects: Seq<ObjectPlaces>) -> Listing {
    if l.stage == ListStage::ListObjects {
        Listing { objects, ..l }.settle()
    } else {
        l
    }
}

/// The listing once the storage node is reached.
pub open spec fn listing_connected(l: Listing) -> Listing {
    if l.stage == ListStage::Connect {
        Listing { stage: ListStage::Read, ..l }
    } else {
        l
    }
}

/// The listing once the current chunk is read.
pub open spec fn listing_chunk(l: Listing, bytes: Seq<u8>) -> Listing {
    listing_encoded(l, base64_encoded(bytes))
}

/// The listing once the current chunk is read and encoded.
pub open spec fn listing_encoded(l: Listing, bytes: Seq<char>) -> Listing {
    if l.stage == ListStage::Read {
        Listing {
            chunks: l.chunks.push(
                ListedChunk {
                    id: l.current().id,
                    bytes,
                    node_address: l.current().nodes[l.node as int].address,
                },
            ),
            chunk: l.chunk + 1,
            ..l
        }.settle()
    } else {
        l
    }
}

/// The start of the text for a chunk that could not be read.
pub open spec fn unlisted_text(chunk_id: u64) -> Seq<char> {
    "could not read chunk "@ + decimal_text(chunk_id as nat) + " from storage nodes: "@
}

/// The text for a chunk none of whose storage nodes could be reached.
pub open spec fn no_node_text(chunk_id: u64, error: Seq<char>) -> Seq<char> {
    no_node_quoted(
        chunk_id,
        debug_quoted(
            "no storage node for chunk "@ + decimal_text(chunk_id as nat) + ": "@ + error,
        ),
    )
}

/// The text for a chunk none of whose storage nodes could be reached, around
/// the quoted reason.
pub open spec fn no_node_quoted(chunk_id: u64, reason: Seq<char>) -> Seq<char> {
    unlisted_text(chunk_id) + "("@ + decimal_text(STATUS_INTERNAL_ERROR as nat) + ", "@ + reason
        + ")"@
}

/// The text for a chunk none of whose storage nodes could be reached, around
/// the quoted reason.
pub fn no_node(chunk_id: u64, reason: &str) -> (r: String)
    ensures
        r@ == no_node_quoted(chunk_id, reason@),
{
    let mut message: String = unlisted(chunk_id);
    message.append("(");
    message.append(decimal(STATUS_INTERNAL_ERROR as u64).as_str());
    message.append(", ");
    message.append(reason);
    message.append(")");
    message
}

/// The listing once its pending request has failed: a storage node that cannot
/// be reached is passed over, if the chunk has others.
pub open spec fn listing_failed(l: Listing, error: Seq<char>) -> Listing {
    match l.stage {
        ListStage::ListObjects => l.fail("could not list objects: "@ + error, true),
        ListStage::Connect => if l.node + 1 < l.current().nodes.len() {
            Listing { node: l.node + 1, ..l }
        } else {
            l.fail(no_node_text(l.current().id, error), false)
        },
        ListStage::Read => l.fail(unlisted_text(l.current().id) + error, false),
        ListStage::Done | ListStage::Failed => l,
    }
}

/// The progress of a listing. [`ObjectListing::stage`] says what to do next; the
/// outcome is handed back by one of the `on_` methods.
pub struct ObjectListing {
    stage: ListStage,
    objects: Vec<ObjectInfo>,
    object: usize,
    chunk: usize,
    node: usize,
    chunks: Vec<ListObjectsResponseChunk>,
    listed: Vec<ListObjectsResponsePayload>,
    failure: HttpFailure,
}

impl View for ObjectListing {
    type V = Listing;

    closed spec fn view(&self) -> Listing {
        Listing {
            stage: self.stage,
            objects: object_places(self.objects@),
            object: self.object as nat,
            chunk: self.chunk as nat,
            node: self.node as nat,
            chunks: listed_chunks(self.chunks@),
            listed: listed_objects(self.listed@),
            failure: self.failure@,
        }
    }
}

/// Where a listing is about a storage node, there is one.
pub open spec fn listing_wf(l: Listing) -> bool {
    l.stage == ListStage::Connect || l.stage == ListStage::Read ==> {
        &&& l.object < l.objects.len()
        &&& l.chunk < l.objects[l.object as int].chunks.len()
        &&& l.node < l.current().nodes.len()
    }
}

impl ObjectListing {
    /// Where the listing is about a storage node, there is one.
    pub open spec fn wf(self) -> bool {
        listing_wf(self@)
    }

    /// Starts a listing.
    pub fn start() -> (r: Self)
        ensures
            r.wf(),
            r@ == listing_started(),
    {
        let r = ObjectListing {
            stage: ListStage::ListObjects,
            objects: Vec::new(),
            object: 0,
            chunk: 0,
            node: 0,
            chunks: Vec::new(),
            listed: Vec::new(),
            failure: HttpFailure::none(),
        };
        assert(r@.objects =~= Seq::<ObjectPlaces>::empty());
        assert(r@.chunks =~= Seq::<ListedChunk>::empty());
        assert(r@.listed =~= Seq::<ListedObject>::empty());
        r
    }

    /// What is to be done next.
    pub fn stage(&self) -> (r: ListStage)
        ensures
            r == self@.stage,
    {
        self.stage
    }

    fn current(&self) -> (r: &ChunkInfo)
        requires
            self@.object < self@.objects.len(),
            self@.chunk < self@.objects[self@.object as int].chunks.len(),
        ensures
            r@ == self@.current(),
    {
        assert(self@.objects[self@.object as int] == self.objects@[self.object as int]@);
        let object: &ObjectInfo = &self.objects[self.object];
        assert(object@.chunks[self.chunk as int] == object.chunks@[self.chunk as int]@);
        &object.chunks[self.chunk]
    }

    /// The id of the current chunk.
    pub fn chunk_id(&self) -> (r: u64)
        requires
            self.wf(),
            self@.stage == ListStage::Connect || self@.stage == ListStage::Read,
        ensures
            r == self@.current().id,
    {
        self.current().id
    }

    /// The address of the current storage node.
    pub fn address(&self) -> (r: &str)
        requires
            self.wf(),
            self@.stage == ListStage::Connect || self@.stage == ListStage::Read,
        ensures
            r@ == self@.current().nodes[self@.node as int].address,
    {
        let chunk: &ChunkInfo = self.current();
        assert(chunk@.nodes[self.node as int] == chunk.storage_nodes@[self.node as int]@);
        chunk.storage_nodes[self.node].address.as_str()
    }

    fn fail(&mut self, message: String, counted: bool)
        ensures
            final(self).wf(),
            final(self)@ == old(self)@.fail(message@, counted),
    {
        self.failure = HttpFailure { status: STATUS_INTERNAL_ERROR, message, counted };
        self.stage = ListStage::Failed;
    }

    fn settle(&mut self)
        ensures
            final(self).wf(),
            final(self)@ == old(self)@.settle(),
    {
        while self.object < self.objects.len()
            invariant
                self@.settle() == old(self)@.settle(),
            decreases self.objects@.len() - self.object,
        {
            let ghost before = self@;
            assert(self@.objects[self@.object as int] == self.objects@[self.object as int]@);
            if self.chunk < self.objects[self.object].chunks.len() {
                let chunk: &ChunkInfo = self.current();
                if chunk.storage_nodes.len() == 0 {
                    let message: String = join3(
                        "chunk ",
                        decimal(chunk.id).as_str(),
                        " has no storage nodes",
                    );
                    self.fail(message, false);
                } else {
                    self.node = 0;
                    self.stage = ListStage::Connect;
                }
                return ;
            }
            let mut chunks: Vec<ListObjectsResponseChunk> = Vec::new();
            core::mem::swap(&mut self.chunks, &mut chunks);
            let name: String = self.objects[self.object].name.clone();
            let ghost entry = ListedObject { name: name@, chunks: listed_chunks(chunks@) };
            self.listed.push(ListObjectsResponsePayload { name, chunks });
            self.object = self.object + 1;
            self.chunk = 0;
            proof {
                assert(self@.listed =~= before.listed.push(entry));
                assert(self@.chunks =~= Seq::<ListedChunk>::empty());
            }
        }
        self.stage = ListStage::Done;
    }

    /// The objects have been listed.
    pub fn on_objects(&mut self, objects: Vec<ObjectInfo>)
        requires
            old(self).wf(),
        ensures
            final(self).wf(),
            final(self)@ == listing_objects(old(self)@, object_places(objects@)),
    {
        if let ListStage::ListObjects = self.stage {
            self.objects = objects;
            self.settle();
        }
    }

    /// The storage node was reached.
    pub fn on_connected(&mut self)
        requires
            old(self).wf(),
        ensures
            final(self).wf(),
            final(self)@ == listing_connected(old(self)@),
    {
        if let ListStage::Connect = self.stage {
            self.stage = ListStage::Read;
        }
    }

    /// The current chunk was read.
    pub fn on_chunk(&mut self, bytes: Vec<u8>)
        requires
            old(self).wf(),
            fits_in_base64(bytes@.len()),
        ensures
            final(self).wf(),
            final(self)@ == listing_chunk(old(self)@, bytes@),
    {
        self.on_encoded(encode_base64(bytes.as_slice()));
    }

    /// The current chunk was read, and has this base64 text.
    pub fn on_encoded(&mut self, bytes: String)
        requires
            old(self).wf(),
        ensures
            final(self).wf(),
            final(self)@ == listing_encoded(old(self)@, bytes@),
    {
        if let ListStage::Read = self.stage {
            let ghost before = self@;
            let entry = ListObjectsResponseChunk {
                id: self.chunk_id(),
                bytes,
                node_address: self.address().to_owned(),
            };
            let ghost seen = ListedChunk {
                id: entry.id,
                bytes: entry.bytes@,
                node_address: entry.node_address@,
            };
            assert(self.chunk < self.objects@[self.object as int].chunks.len()) by {
                assert(self@.objects[self@.object as int] == self.objects@[self.object as int]@);
            }
            self.chunks.push(entry);
            self.chunk = self.chunk + 1;
            assert(self@.chunks =~= before.chunks.push(seen));
            self.settle();
        }
    }

    /// What was asked for has failed.
    pub fn on_failed(&mut self, error: &str)
        requires
            old(self).wf(),
        ensures
            final(self).wf(),
            final(self)@ == listing_failed(old(self)@, error@),
    {
        match self.stage {
            ListStage::ListObjects => {
                self.fail(join2("could not list objects: ", error), true);
            },
            ListStage::Connect => {
                let chunk: &ChunkInfo = self.current();
                let id: u64 = chunk.id;
                let nodes: usize = chunk.storage_nodes.len();
                if self.node + 1 < nodes {
                    self.node = self.node + 1;
                } else {
                    let mut inner: String = join3(
                        "no storage node for chunk ",
                        decimal(id).as_str(),
                        ": ",
                    );
                    inner.append(error);
                    let message: String = no_node(id, quoted(inner.as_str()).as_str());
                    self.fail(message, false);
                }
            },
            ListStage::Read => {
                let mut message: String = unlisted(self.chunk_id());
                message.append(error);
                self.fail(message, false);
            },
            ListStage::Done | ListStage::Failed => {},
        }
    }

    /// The answer, once the listing is done or has failed.
    pub fn answer(self) -> (r: Result<Vec<ListObjectsResponsePayload>, HttpFailure>)
        ensures
            match r {
                Ok(objects) => self@.stage == ListStage::Done && listed_objects(objects@)
                    == self@.listed,
                Err(failure) => self@.stage != ListStage::Done && failure@ == self@.failure,
            },
    {
        if let ListStage::Done = self.stage {
            Ok(self.listed)
        } else {
            Err(self.failure)
        }
    }
}

fn unlisted(chunk_id: u64) -> (r: String)
    ensures
        r@ == unlisted_text(chunk_id),
{
    join3("could not read chunk ", decimal(chunk_id).as_str(), " from storage nodes: ")
}

/// What a listing is answered: by the metadata server, and by the storage nodes,
/// each by the indices of the object, of the chunk in it, and of the node in the
/// chunk's list.
pub struct ListingAnswers {
    /// The objects, or the error.
    pub objects: Result<Seq<ObjectPlaces>, Seq<char>>,
    /// Whether a node can be reached.
    pub reached: spec_fn(nat, nat, nat) -> bool,
    /// Why a node cannot be reached.
    pub trouble: spec_fn(nat, nat, nat) -> Seq<char>,
    /// What is read from a node, or the error.
    pub read: spec_fn(nat, nat, nat) -> Result<Seq<u8>, Seq<char>>,
}

/// A listed chunk is the chunk it stands for: it has the chunk's id, and the
/// base64 text of what was read from the node at index `node` of the chunk's
/// list, the first that could be reached.
pub open spec fn lists_chunk(
    entry: ListedChunk,
    place: ChunkPlaces,
    answers: ListingAnswers,
    object: nat,
    chunk: nat,
    node: nat,
) -> bool {
    &&& entry.id == place.id
    &&& node < place.nodes.len()
    &&& entry.node_address == place.nodes[node as int].address
    &&& (answers.read)(object, chunk, node) matches Ok(data) && entry.bytes == base64_encoded(data)
    &&& is_first_reached(answers, object, chunk, node)
}

/// The node at index `node` can be reached, and those before it cannot.
pub open spec fn is_first_reached(
    answers: ListingAnswers,
    object: nat,
    chunk: nat,
    node: nat,
) -> bool {
    &&& (answers.reached)(object, chunk, node)
    &&& none_reached_before(answers, object, chunk, node)
}

/// The nodes before the index `node` cannot be reached.
pub open spec fn none_reached_before(
    answers: ListingAnswers,
    object: nat,
    chunk: nat,
    node: nat,
) -> bool {
    forall|n: nat| n < node ==> !#[trigger] (answers.reached)(object, chunk, n)
}

/// A listed chunk is the chunk it stands for, as one of the chunk's nodes gave
/// it.
pub open spec fn lists_some_copy(
    entry: ListedChunk,
    place: ChunkPlaces,
    answers: ListingAnswers,
    object: nat,
    chunk: nat,
) -> bool {
    exists|node: nat| #[trigger] lists_chunk(entry, place, answers, object, chunk, node)
}

/// A listed object is the object it stands for, which has the index `object`:
/// the same name and the same chunks in order, each as one of its nodes gave it.
pub open spec fn lists(
    entry: ListedObject,
    place: ObjectPlaces,
    answers: ListingAnswers,
    object: nat,
) -> bool {
    &&& entry.name == place.name
    &&& entry.chunks.len() == place.chunks.len()
    &&& forall|k: int|
        0 <= k < entry.chunks.len() ==> lists_some_copy(
            #[trigger] entry.chunks[k],
            place.chunks[k],
            answers,
            object,
            k as nat,
        )
}

/// What holds of a listing at every step: what is listed so far are the first
/// objects, complete and in order, each chunk as one of its nodes gave it; and
/// the nodes that were passed over cannot be reached.
pub open spec fn listing_faithful(l: Listing, answers: ListingAnswers) -> bool {
    &&& listing_wf(l)
    &&& l.listed.len() == l.object
    &&& l.object <= l.objects.len()
    &&& forall|k: int|
        0 <= k < l.object ==> lists(#[trigger] l.listed[k], l.objects[k], answers, k as nat)
    &&& l.chunks.len() == l.chunk
    &&& l.object < l.objects.len() ==> l.chunk <= l.objects[l.object as int].chunks.len()
    &&& l.object == l.objects.len() ==> l.chunk == 0
    &&& forall|k: int|
        0 <= k < l.chunk ==> lists_some_copy(
            #[trigger] l.chunks[k],
            l.objects[l.object as int].chunks[k],
            answers,
            l.object,
            k as nat,
        )
    &&& l.stage == ListStage::Connect ==> none_reached_before(answers, l.object, l.chunk, l.node)
    &&& l.stage == ListStage::Read ==> is_first_reached(answers, l.object, l.chunk, l.node)
    &&& l.stage == ListStage::Done ==> l.object == l.objects.len()
    &&& l.stage == ListStage::ListObjects ==> l.object == 0 && l.chunk == 0
}

proof fn settle_faithful(l: Listing, answers: ListingAnswers)
    requires
        listing_faithful(Listing { stage: ListStage::Failed, ..l }, answers),
    ensures
        listing_faithful(l.settle(), answers),
    decreases l.objects.len() - l.object,
{
    if l.object < l.objects.len() && l.chunk >= l.objects[l.object as int].chunks.len() {
        let next = Listing {
            listed: l.listed.push(
                ListedObject { name: l.objects[l.object as int].name, chunks: l.chunks },
            ),
            chunks: Seq::<ListedChunk>::empty(),
            object: l.object + 1,
            chunk: 0,
            ..l
        };
        let stopped = Listing { stage: ListStage::Failed, ..l };
        assert forall|k: int| 0 <= k < next.object implies lists(
            #[trigger] next.listed[k],
            next.objects[k],
            answers,
            k as nat,
        ) by {
            if k < l.object {
                assert(stopped.listed[k] == next.listed[k]);
            } else {
                let entry = next.listed[k];
                assert forall|j: int| 0 <= j < entry.chunks.len() implies lists_some_copy(
                    #[trigger] entry.chunks[j],
                    next.objects[k].chunks[j],
                    answers,
                    k as nat,
                    j as nat,
                ) by {
                    assert(stopped.chunks[j] == entry.chunks[j]);
                }
            }
        }
        settle_faithful(next, answers);
    }
}

/// Every listing is faithful to what the storage nodes answer when it starts,
/// and every step keeps it so.
pub proof fn every_listing_step_is_faithful(
    l: Listing,
    answers: ListingAnswers,
    objects: Seq<ObjectPlaces>,
    error: Seq<char>,
)
    ensures
        listing_faithful(listing_started(), answers),
        listing_faithful(l, answers) ==> {
            &&& listing_faithful(listing_objects(l, objects), answers)
            &&& (answers.reached)(l.object, l.chunk, l.node) ==> listing_faithful(
                listing_connected(l),
                answers,
            )
            &&& (answers.read)(l.object, l.chunk, l.node) matches Ok(data) ==> listing_faithful(
                listing_chunk(l, data),
                answers,
            )
            &&& (l.stage == ListStage::Connect ==> !(answers.reached)(l.object, l.chunk, l.node))
                ==> listing_faithful(listing_failed(l, error), answers)
        },
{
    if listing_faithful(l, answers) {
        if l.stage == ListStage::ListObjects {
            settle_faithful(Listing { objects, ..l }, answers);
        }
        if l.stage == ListStage::Read && (answers.read)(l.object, l.chunk, l.node) is Ok {
            let data = (answers.read)(l.object, l.chunk, l.node)->Ok_0;
            let entry = ListedChunk {
                id: l.current().id,
                bytes: base64_encoded(data),
                node_address: l.current().nodes[l.node as int].address,
            };
            let next = Listing { chunks: l.chunks.push(entry), chunk: l.chunk + 1, ..l };
            assert(lists_chunk(entry, l.current(), answers, l.object, l.chunk, l.node));
            assert forall|k: int| 0 <= k < next.chunk implies lists_some_copy(
                #[trigger] next.chunks[k],
                next.objects[next.object as int].chunks[k],
                answers,
                next.object,
                k as nat,
            ) by {
                if k < l.chunk {
                    assert(l.chunks[k] == next.chunks[k]);
                }
            }
            settle_faithful(next, answers);
        }
    }
}

/// A listing that is answered lists every object with every chunk, each with
/// the address of the first of its storage nodes that could be reached and the
/// base64 text of what was read there.
pub proof fn a_done_listing_is_complete(l: Listing, answers: ListingAnswers)
    requires
        listing_faithful(l, answers),
        l.stage == ListStage::Done,
    ensures
        l.listed.len() == l.objects.len(),
        forall|k: int|
            0 <= k < l.objects.len() ==> lists(
                #[trigger] l.listed[k],
                l.objects[k],
                answers,
                k as nat,
            ),
{
}

/// The listing after the next thing that it asks for.
pub open spec fn listing_next(l: Listing, answers: ListingAnswers) -> Listing {
    match l.stage {
        ListStage::ListObjects => match answers.objects {
            Ok(objects) => listing_objects(l, objects),
            Err(error) => listing_failed(l, error),
        },
        ListStage::Connect => if (answers.reached)(l.object, l.chunk, l.node) {
            listing_connected(l)
        } else {
            listing_failed(l, (answers.trouble)(l.object, l.chunk, l.node))
        },
        ListStage::Read => match (answers.read)(l.object, l.chunk, l.node) {
            Ok(data) => listing_chunk(l, data),
            Err(error) => listing_failed(l, error),
        },
        ListStage::Done | ListStage::Failed => l,
    }
}

/// The listing after `steps` things that it asked for.
pub open spec fn listing_after(answers: ListingAnswers, steps: nat) -> Listing
    decreases steps,
{
    if steps == 0 {
        listing_started()
    } else {
        listing_next(listing_after(answers, (steps - 1) as nat), answers)
    }
}

/// Whether a chunk can be listed: the first of its nodes that can be reached
/// gives it.
pub open spec fn listable(
    place: ChunkPlaces,
    answers: ListingAnswers,
    object: nat,
    chunk: nat,
) -> bool {
    exists|node: nat|
        node < place.nodes.len() && #[trigger] is_first_reached(answers, object, chunk, node)
            && (answers.read)(object, chunk, node) is Ok
}

/// Whether every chunk of every object can be listed.
pub open spec fn all_listable(objects: Seq<ObjectPlaces>, answers: ListingAnswers) -> bool {
    forall|o: int, c: int|
        0 <= o < objects.len() && 0 <= c < objects[o].chunks.len() ==> listable(
            #[trigger] objects[o].chunks[c],
            answers,
            o as nat,
            c as nat,
        )
}

/// How many things are asked for at most for the first `n` of `chunks`: of each
/// a connection to every node, and a read.
pub open spec fn chunk_steps(chunks: Seq<ChunkPlaces>, n: nat) -> nat
    decreases n,
{
    if n == 0 {
        0
    } else {
        chunk_steps(chunks, (n - 1) as nat) + chunks[n - 1].nodes.len() + 1
    }
}

/// How many things are asked for at most for the first `n` of `objects`.
pub open spec fn object_steps(objects: Seq<ObjectPlaces>, n: nat) -> nat
    decreases n,
{
    if n == 0 {
        0
    } else {
        object_steps(objects, (n - 1) as nat) + chunk_steps(
            objects[n - 1].chunks,
            objects[n - 1].chunks.len(),
        )
    }
}

/// How many things are left to be asked for at most.
spec fn listing_left(l: Listing) -> int {
    object_steps(l.objects, l.objects.len()) - object_steps(l.objects, l.object) - (if l.object
        < l.objects.len() {
        chunk_steps(l.objects[l.object as int].chunks, l.chunk)
    } else {
        0
    })
}

proof fn steps_grow(objects: Seq<ObjectPlaces>, o: nat, n: nat)
    requires
        o <= n,
    ensures
        object_steps(objects, o) <= object_steps(objects, n),
    decreases n,
{
    if o < n {
        steps_grow(objects, o, (n - 1) as nat);
    }
}

proof fn chunk_steps_grow(chunks: Seq<ChunkPlaces>, c: nat, n: nat)
    requires
        c <= n,
    ensures
        chunk_steps(chunks, c) <= chunk_steps(chunks, n),
    decreases n,
{
    if c < n {
        chunk_steps_grow(chunks, c, (n - 1) as nat);
    }
}

proof fn settle_asks_nothing(l: Listing, answers: ListingAnswers)
    requires
        l.object <= l.objects.len(),
        l.object < l.objects.len() ==> l.chunk <= l.objects[l.object as int].chunks.len(),
    ensures
        l.settle().objects == l.objects,
        listing_left(l.settle()) == listing_left(l),
        l.settle().stage == ListStage::Connect ==> l.settle().node == 0,
        l.settle().stage != ListStage::Connect && l.settle().stage != ListStage::Failed
            ==> l.settle().stage == ListStage::Done,
        l.settle().stage == ListStage::Failed ==> !all_listable(l.objects, answers),
    decreases l.objects.len() - l.object,
{
    if l.object < l.objects.len() {
        if l.chunk >= l.objects[l.object as int].chunks.len() {
            let next = Listing {
                listed: l.listed.push(
                    ListedObject { name: l.objects[l.object as int].name, chunks: l.chunks },
                ),
                chunks: Seq::<ListedChunk>::empty(),
                object: l.object + 1,
                chunk: 0,
                ..l
            };
            settle_asks_nothing(next, answers);
        } else if l.current().nodes.len() == 0 {
            assert(!listable(
                l.objects[l.object as int].chunks[l.chunk as int],
                answers,
                l.object,
                l.chunk,
            ));
        }
    }
}

proof fn listing_keeps_to_its_end(
    objects: Seq<ObjectPlaces>,
    answers: ListingAnswers,
    steps: nat,
)
    requires
        answers.objects == Ok::<Seq<ObjectPlaces>, Seq<char>>(objects),
    ensures
        ({
            let l = listing_after(answers, steps);
            let total = object_steps(objects, objects.len()) + 1;
            &&& listing_faithful(l, answers)
            &&& match l.stage {
                ListStage::ListObjects => steps == 0 && l == listing_started(),
                ListStage::Connect => l.objects == objects && listing_left(l) - l.node <= total
                    - steps,
                ListStage::Read => l.objects == objects && listing_left(l) - l.node - 1 <= total
                    - steps,
                ListStage::Done => l.objects == objects,
                ListStage::Failed => !all_listable(objects, answers),
            }
        }),
    decreases steps,
{
    if steps == 0 {
        every_listing_step_is_faithful(listing_started(), answers, objects, Seq::<char>::empty());
    } else {
        let before = (steps - 1) as nat;
        listing_keeps_to_its_end(objects, answers, before);
        let l = listing_after(answers, before);
        let trouble = match l.stage {
            ListStage::Connect => (answers.trouble)(l.object, l.chunk, l.node),
            ListStage::Read => match (answers.read)(l.object, l.chunk, l.node) {
                Err(error) => error,
                Ok(_) => Seq::<char>::empty(),
            },
            _ => Seq::<char>::empty(),
        };
        every_listing_step_is_faithful(l, answers, objects, trouble);
        match l.stage {
            ListStage::ListObjects => {
                settle_asks_nothing(Listing { objects, ..l }, answers);
            },
            ListStage::Connect => {
                if !(answers.reached)(l.object, l.chunk, l.node) && l.node + 1
                    >= l.current().nodes.len() {
                    assert forall|n: nat| n < l.current().nodes.len() implies !#[trigger] (
                    answers.reached)(l.object, l.chunk, n) by {
                        if n != l.node {
                            assert(n < l.node);
                        }
                    }
                    assert(!listable(
                        objects[l.object as int].chunks[l.chunk as int],
                        answers,
                        l.object,
                        l.chunk,
                    ));
                }
            },
            ListStage::Read => {
                match (answers.read)(l.object, l.chunk, l.node) {
                    Ok(data) => {
                        let next = Listing {
                            chunks: l.chunks.push(
                                ListedChunk {
                                    id: l.current().id,
                                    bytes: base64_encoded(data),
                                    node_address: l.current().nodes[l.node as int].address,
                                },
                            ),
                            chunk: l.chunk + 1,
                            ..l
                        };
                        settle_asks_nothing(next, answers);
                    },
                    Err(_) => {
                        assert forall|n: nat| #[trigger] is_first_reached(
                            answers,
                            l.object,
                            l.chunk,
                            n,
                        ) implies n == l.node by {
                            if n < l.node {
                                assert(!(answers.reached)(l.object, l.chunk, n));
                            } else if l.node < n {
                                assert(!(answers.reached)(l.object, l.chunk, l.node));
                            }
                        }
                        assert(!listable(
                            objects[l.object as int].chunks[l.chunk as int],
                            answers,
                            l.object,
                            l.chunk,
                        ));
                    },
                }
            },
            ListStage::Done | ListStage::Failed => {},
        }
    }
}

/// A listing of objects that are known always ends, and is answered with all of
/// them exactly where every chunk can be listed.
pub proof fn a_listing_succeeds_where_every_chunk_can_be_listed(
    objects: Seq<ObjectPlaces>,
    answers: ListingAnswers,
    steps: nat,
)
    requires
        answers.objects == Ok::<Seq<ObjectPlaces>, Seq<char>>(objects),
    ensures
        ({
            let l = listing_after(answers, steps);
            &&& listing_faithful(l, answers)
            &&& steps >= object_steps(objects, objects.len()) + 1 ==> l.stage == ListStage::Done
                || l.stage == ListStage::Failed
            &&& l.stage == ListStage::Done ==> l.objects == objects && all_listable(
                objects,
                answers,
            )
            &&& l.stage == ListStage::Failed ==> !all_listable(objects, answers)
        }),
{
    listing_keeps_to_its_end(objects, answers, steps);
    let l = listing_after(answers, steps);
    if l.stage == ListStage::Connect || l.stage == ListStage::Read {
        let chunks = objects[l.object as int].chunks;
        steps_grow(objects, l.object + 1, objects.len());
        chunk_steps_grow(chunks, l.chunk + 1, chunks.len());
    }
    if l.stage == ListStage::Done {
        assert forall|o: int, c: int|
            0 <= o < objects.len() && 0 <= c < objects[o].chunks.len() implies listable(
            #[trigger] objects[o].chunks[c],
            answers,
            o as nat,
            c as nat,
        ) by {
            assert(lists(l.listed[o], l.objects[o], answers, o as nat));
            let entry = l.listed[o].chunks[c];
            assert(lists_some_copy(entry, objects[o].chunks[c], answers, o as nat, c as nat));
            let node = choose|node: nat| #[trigger]
                lists_chunk(entry, objects[o].chunks[c], answers, o as nat, c as nat, node);
            assert(is_first_reached(answers, o as nat, c as nat, node));
        }
    }
}

} // verus!
