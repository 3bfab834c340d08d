//! Deleting an object: first the copies of its chunks, then the metadata of the
//! chunks, then the object.
use vstd::prelude::*;

use crate::http_reply::{
    no_failure, Failure, HttpFailure, STATUS_BAD_REQUEST, STATUS_INTERNAL_ERROR, STATUS_NOT_FOUND,
};
use crate::messages::{places_views, ChunkInfo, ChunkPlaces};
use crate::metadata_store::NodeRecord;
use crate::object_name::{name_error, validate_object_name};
use crate::status::Code;
use crate::text::join2;

verus! {

/// The answer when an object was deleted.
#[derive(Debug)]
pub struct DeleteObjectResponsePayload {
    pub msg: String,
}

/// What is to be done next to delete an object.
#[derive(Debug, Clone, Copy, PartialEq, Eq, Structural)]
pub enum DeleteStage {
    /// Ask the metadata server for the object.
    GetObject,
    /// Delete the copies [`Deletion::targets`] from their storage nodes.
    DeleteCopies,
    /// Delete the chunk [`Deletion::chunk_id`] from the metadata.
    DeleteChunk,
    /// Delete the object from the metadata.
    DeleteObject,
    /// Answer that the object was deleted.
    Done,
    /// Answer with the failure.
    Failed,
}

/// What a [`Deletion`] stands for.
pub struct Deleting {
    pub stage: DeleteStage,
    pub name: Seq<char>,
    pub chunks: Seq<ChunkPlaces>,
    /// The index of the current chunk.
    pub next: nat,
    pub failure: Failure,
}

impl Deleting {
    pub open spec fn fail(self, status: u16, message: Seq<char>) -> Deleting {
        Deleting {
            stage: DeleteStage::Failed,
            failure: Failure { status, message, counted: true },
            ..self
        }
    }

    /// Goes to the chunk at index `k`, or, where there is none, to the object.
    pub open spec fn go_to(self, k: nat) -> Deleting {
        Deleting {
            stage: if k < self.chunks.len() {
                DeleteStage::DeleteChunk
            } else {
                DeleteStage::DeleteObject
            },
            next: k,
            ..self
        }
    }
}

/// A deletion before anything was done for it.
pub open spec fn deleting_of(name: Seq<char>) -> Deleting {
    Deleting {
        stage: DeleteStage::GetObject,
        name,
        chunks: Seq::<ChunkPlaces>::empty(),
        next: 0,
        failure: no_failure(),
    }
}

/// How a deletion starts.
pub open spec fn deleting_started(name: Seq<char>) -> Deleting {
    match name_error(name) {
        Some(message) => deleting_of(name).fail(STATUS_BAD_REQUEST, message),
        None => deleting_of(name),
    }
}

/// The deletion once the object is known.
pub open spec fn deleting_object(d: Deleting, chunks: Seq<ChunkPlaces>) -> Deleting {
    if d.stage == DeleteStage::GetObject {
        Deleting { stage: DeleteStage::DeleteCopies, chunks, ..d }
    } else {
        d
    }
}

/// The deletion once the copies are deleted, as far as they could be.
pub open spec fn deleting_copies(d: Deleting) -> Deleting {
    if d.stage == DeleteStage::DeleteCopies {
        d.go_to(0)
    } else {
        d
    }
}

/// The deletion once the pending request has succeeded.
pub open spec fn deleting_done(d: Deleting) -> Deleting {
    match d.stage {
        DeleteStage::DeleteChunk => d.go_to(d.next + 1),
        DeleteStage::DeleteObject => Deleting { stage: DeleteStage::Done, ..d },
        _ => d,
    }
}

/// What an error of the metadata server is answered.
pub open spec fn metadata_text(code: Code, doing: Seq<char>, message: Seq<char>) -> Seq<char> {
    if code == Code::NotFound {
        "object not found"@
    } else {
        doing + message
    }
}

/// The deletion once the pending request has failed: a chunk that cannot be
/// deleted from the metadata is passed over.
pub open spec fn deleting_failed(d: Deleting, code: Code, message: Seq<char>) -> Deleting {
    match d.stage {
        DeleteStage::GetObject => d.fail(
            STATUS_NOT_FOUND,
            metadata_text(code, "could not get object: "@, message),
        ),
        DeleteStage::DeleteChunk => d.go_to(d.next + 1),
        DeleteStage::DeleteObject => d.fail(
            STATUS_INTERNAL_ERROR,
            metadata_text(code, "could not delete object: "@, message),
        ),
        DeleteStage::DeleteCopies | DeleteStage::Done | DeleteStage::Failed => d,
    }
}

/// Each copy of each chunk: the chunk and the address of the storage node.
pub open spec fn copies_of(chunks: Seq<ChunkPlaces>) -> Seq<(u64, Seq<char>)>
    decreases chunks.len(),
{
    if chunks.len() == 0 {
        Seq::<(u64, Seq<char>)>::empty()
    } else {
        copies_of(chunks.drop_last()) + chunks.last().nodes.map_values(
            |n: NodeRecord| (chunks.last().id, n.address),
        )
    }
}

/// The views of a list of copies.
pub open spec fn copy_views(items: Seq<(u64, String)>) -> Seq<(u64, Seq<char>)> {
    items.map_values(|e: (u64, String)| (e.0, e.1@))
}

/// The progress of deleting one object. [`Deletion::stage`] says what to do next;
/// the outcome is handed back by one of the `on_` methods.
pub struct Deletion {
    stage: DeleteStage,
    name: String,
    chunks: Vec<ChunkInfo>,
    next: usize,
    failure: HttpFailure,
}

impl View for Deletion {
    type V = Deleting;

    closed spec fn view(&self) -> Deleting {
        Deleting {
            stage: self.stage,
            name: self.name@,
            chunks: places_views(self.chunks@),
            next: self.next as nat,
            failure: self.failure@,
        }
    }
}

impl Deletion {
    /// While a chunk is being deleted, there is one.
    pub open spec fn wf(self) -> bool {
        self@.stage == DeleteStage::DeleteChunk ==> self@.next < self@.chunks.len()
    }

    /// Starts to delete an object.
    pub fn start(name: String) -> (r: Self)
        ensures
            r.wf(),
            r@ == deleting_started(name@),
    {
        let mut r: Deletion = Deletion {
            stage: DeleteStage::GetObject,
            name,
            chunks: Vec::new(),
            next: 0,
            failure: HttpFailure::none(),
        };
        assert(r@.chunks =~= Seq::<ChunkPlaces>::empty());
        match validate_object_name(r.name.as_str()) {
            Ok(()) => {},
            Err(message) => {
                r.fail(STATUS_BAD_REQUEST, message);
            },
        }
        r
    }

    fn fail(&mut self, status: u16, message: String)
        ensures
            final(self)@ == old(self)@.fail(status, message@),
    {
        self.failure = HttpFailure::counted(status, message);
        self.stage = DeleteStage::Failed;
    }

    fn go_to(&mut self, k: usize)
        ensures
            final(self).wf(),
            final(self)@ == old(self)@.go_to(k as nat),
    {
        self.next = k;
        if k < self.chunks.len() {
            self.stage = DeleteStage::DeleteChunk;
        } else {
            self.stage = DeleteStage::DeleteObject;
        }
    }

    /// What is to be done next.
    pub fn stage(&self) -> (r: DeleteStage)
        ensures
            r == self@.stage,
    {
        self.stage
    }

    /// The name of the object.
    pub fn name(&self) -> (r: &str)
        ensures
            r@ == self@.name,
    {
        self.name.as_str()
    }

    /// The copies to delete: each chunk with the address of each of its storage
    /// nodes.
    pub fn targets(&self) -> (r: Vec<(u64, String)>)
        ensures
            copy_views(r@) == copies_of(self@.chunks),
    {
        let ghost all = self@.chunks;
        let mut r: Vec<(u64, String)> = Vec::new();
        let mut i: usize = 0;
        assert(copy_views(r@) =~= copies_of(all.take(0)));
        while i < self.chunks.len()
            invariant
                i <= self.chunks@.len(),
                all == places_views(self.chunks@),
                copy_views(r@) == copies_of(all.take(i as int)),
            decreases self.chunks@.len() - i,
        {
            let chunk: &ChunkInfo = &self.chunks[i];
            let ghost start = copy_views(r@);
            let ghost more = chunk@.nodes.map_values(|n: NodeRecord| (chunk@.id, n.address));
            let mut j: usize = 0;
            assert(start =~= start + more.take(0));
            while j < chunk.storage_nodes.len()
                invariant
                    j <= chunk.storage_nodes@.len(),
                    more == chunk@.nodes.map_values(|n: NodeRecord| (chunk@.id, n.address)),
                    copy_views(r@) == start + more.take(j as int),
                decreases chunk.storage_nodes@.len() - j,
            {
                let ghost was = copy_views(r@);
                let copy: (u64, String) = (chunk.id, chunk.storage_nodes[j].address.clone());
                let ghost seen = (copy.0, copy.1@);
                r.push(copy);
                assert(copy_views(r@) =~= was.push(seen));
                assert(more[j as int] == seen);
                assert(copy_views(r@) =~= start + more.take(j + 1));
                j = j + 1;
            }
            proof {
                assert(more.take(more.len() as int) =~= more);
                assert(all.take(i + 1).drop_last() =~= all.take(i as int));
                assert(all.take(i + 1).last() == chunk@);
                assert(copies_of(all.take(i + 1)) =~= start + more);
            }
            i = i + 1;
        }
        assert(all.take(all.len() as int) =~= all);
        r
    }

    /// The chunk to delete from the metadata.
    pub fn chunk_id(&self) -> (r: u64)
        requires
            self.wf(),
            self@.stage == DeleteStage::DeleteChunk,
        ensures
            r == self@.chunks[self@.next as int].id,
    {
        assert(self@.chunks[self@.next as int] == self.chunks@[self.next as int]@);
        self.chunks[self.next].id
    }

    /// The object was found.
    pub fn on_object(&mut self, chunks: Vec<ChunkInfo>)
        requires
            old(self).wf(),
        ensures
            final(self).wf(),
            final(self)@ == deleting_object(old(self)@, places_views(chunks@)),
    {
        if let DeleteStage::GetObject = self.stage {
            self.chunks = chunks;
            self.stage = DeleteStage::DeleteCopies;
        }
    }

    /// The copies were deleted, as far as they could be.
    pub fn on_copies(&mut self)
        requires
            old(self).wf(),
        ensures
            final(self).wf(),
            final(self)@ == deleting_copies(old(self)@),
    {
        if let DeleteStage::DeleteCopies = self.stage {
            self.go_to(0);
        }
    }

    /// The chunk or the object was deleted from the metadata.
    pub fn on_done(&mut self)
        requires
            old(self).wf(),
        ensures
            final(self).wf(),
            final(self)@ == deleting_done(old(self)@),
    {
        match self.stage {
            DeleteStage::DeleteChunk => {
                assert(self.next < self.chunks.len());
                self.go_to(self.next + 1);
            },
            DeleteStage::DeleteObject => {
                self.stage = DeleteStage::Done;
            },
            _ => {},
        }
    }

    /// The metadata server has answered with an error.
    pub fn on_failed(&mut self, code: Code, message: &str)
        requires
            old(self).wf(),
        ensures
            final(self).wf(),
            final(self)@ == deleting_failed(old(self)@, code, message@),
    {
        match self.stage {
            DeleteStage::GetObject => {
                let text: String = describe(code, "could not get object: ", message);
                self.fail(STATUS_NOT_FOUND, text);
            },
            DeleteStage::DeleteChunk => {
                assert(self.next < self.chunks.len());
                self.go_to(self.next + 1);
            },
            DeleteStage::DeleteObject => {
                let text: String = describe(code, "could not delete object: ", message);
                self.fail(STATUS_INTERNAL_ERROR, text);
            },
            DeleteStage::DeleteCopies | DeleteStage::Done | DeleteStage::Failed => {},
        }
    }

    /// The answer, once the object is deleted or the request has failed.
    pub fn answer(&self) -> (r: Result<DeleteObjectResponsePayload, HttpFailure>)
        ensures
            match r {
                Ok(response) => self@.stage == DeleteStage::Done && response.msg@
                    == "object deleted"@,
                Err(failure) => self@.stage != DeleteStage::Done && failure@ == self@.failure,
            },
    {
        if let DeleteStage::Done = self.stage {
            Ok(DeleteObjectResponsePayload { msg: "object deleted".to_owned() })
        } else {
            Err(self.failure.clone())
        }
    }
}

fn describe(code: Code, doing: &str, message: &str) -> (r: String)
    ensures
        r@ == metadata_text(code, doing@, message@),
{
    if code == Code::NotFound {
        "object not found".to_owned()
    } else {
        join2(doing, message)
    }
}

/// Once the object is known, a deletion fails only where the object itself
/// cannot be deleted from the metadata.
pub proof fn only_the_object_can_fail_a_deletion(d: Deleting, code: Code, message: Seq<char>)
    requires
        d.stage == DeleteStage::DeleteChunk,
    ensures
        deleting_failed(d, code, message) == deleting_done(d),
        deleting_done(d).stage == DeleteStage::DeleteChunk || deleting_done(d).stage
            == DeleteStage::DeleteObject,
{
}

/// What the metadata server answers to a deletion.
pub struct DeleteAnswers {
    /// The chunks of the object, or the error.
    pub found: Result<Seq<ChunkPlaces>, (Code, Seq<char>)>,
    /// What comes of deleting each chunk, by its index.
    pub chunk: spec_fn(nat) -> Result<(), (Code, Seq<char>)>,
    /// What comes of deleting the object.
    pub object: Result<(), (Code, Seq<char>)>,
}

/// What a deletion asks for.
pub enum DeleteRequest {
    /// The chunks of an object.
    Find(Seq<char>),
    /// That copies are deleted from their storage nodes.
    Copies(Seq<(u64, Seq<char>)>),
    /// That a chunk is deleted from the metadata.
    Chunk(u64),
    /// That an object is deleted from the metadata.
    Object(Seq<char>),
}

/// What the deletion asks for next, if anything.
pub open spec fn deleting_asks(d: Deleting) -> Option<DeleteRequest> {
    match d.stage {
        DeleteStage::GetObject => Some(DeleteRequest::Find(d.name)),
        DeleteStage::DeleteCopies => Some(DeleteRequest::Copies(copies_of(d.chunks))),
        DeleteStage::DeleteChunk => Some(DeleteRequest::Chunk(d.chunks[d.next as int].id)),
        DeleteStage::DeleteObject => Some(DeleteRequest::Object(d.name)),
        DeleteStage::Done | DeleteStage::Failed => None,
    }
}

/// The deletion once a request to the metadata server was answered.
pub open spec fn deleting_answered(
    d: Deleting,
    outcome: Result<(), (Code, Seq<char>)>,
) -> Deleting {
    match outcome {
        Ok(()) => deleting_done(d),
        Err(e) => deleting_failed(d, e.0, e.1),
    }
}

/// The deletion after what it asks for next was answered.
pub open spec fn deleting_next(d: Deleting, answers: DeleteAnswers) -> Deleting {
    match d.stage {
        DeleteStage::GetObject => match answers.found {
            Ok(chunks) => deleting_object(d, chunks),
            Err(e) => deleting_failed(d, e.0, e.1),
        },
        DeleteStage::DeleteCopies => deleting_copies(d),
        DeleteStage::DeleteChunk => deleting_answered(d, (answers.chunk)(d.next)),
        DeleteStage::DeleteObject => deleting_answered(d, answers.object),
        DeleteStage::Done | DeleteStage::Failed => d,
    }
}

/// The deletion after `steps` things that it asked for.
pub open spec fn deleting_after(name: Seq<char>, answers: DeleteAnswers, steps: nat) -> Deleting
    decreases steps,
{
    if steps == 0 {
        deleting_started(name)
    } else {
        deleting_next(deleting_after(name, answers, (steps - 1) as nat), answers)
    }
}

/// What the deletion has asked for within `steps`, in order.
pub open spec fn deleting_asked(name: Seq<char>, answers: DeleteAnswers, steps: nat) -> Seq<
    DeleteRequest,
>
    decreases steps,
{
    if steps == 0 {
        Seq::<DeleteRequest>::empty()
    } else {
        let before = deleting_asked(name, answers, (steps - 1) as nat);
        match deleting_asks(deleting_after(name, answers, (steps - 1) as nat)) {
            Some(request) => before.push(request),
            None => before,
        }
    }
}

/// All that is asked for to delete an object: its chunks, then that all copies
/// are deleted, then that each chunk is deleted from the metadata, once and in
/// order, and then the object.
pub open spec fn deletion_plan(name: Seq<char>, chunks: Seq<ChunkPlaces>) -> Seq<DeleteRequest> {
    seq![DeleteRequest::Find(name), DeleteRequest::Copies(copies_of(chunks))]
        + chunks.map_values(|c: ChunkPlaces| DeleteRequest::Chunk(c.id)) + seq![
        DeleteRequest::Object(name),
    ]
}

/// The deletion of an object with these chunks after the first `n` requests of
/// its plan.
spec fn deletion_at(
    name: Seq<char>,
    chunks: Seq<ChunkPlaces>,
    answers: DeleteAnswers,
    n: nat,
) -> Deleting {
    let d = deleting_of(name);
    if n == 0 {
        d
    } else if n == 1 {
        Deleting { stage: DeleteStage::DeleteCopies, chunks, ..d }
    } else if n <= chunks.len() + 2 {
        Deleting { chunks, ..d }.go_to((n - 2) as nat)
    } else {
        deleting_answered(Deleting { chunks, ..d }.go_to(chunks.len()), answers.object)
    }
}

proof fn deletion_keeps_to_its_plan(
    name: Seq<char>,
    chunks: Seq<ChunkPlaces>,
    answers: DeleteAnswers,
    steps: nat,
)
    requires
        name_error(name) is None,
        answers.found == Ok::<Seq<ChunkPlaces>, (Code, Seq<char>)>(chunks),
    ensures
        deleting_after(name, answers, steps) == deletion_at(name, chunks, answers, steps),
        deleting_asked(name, answers, steps) == if steps < deletion_plan(name, chunks).len() {
            deletion_plan(name, chunks).take(steps as int)
        } else {
            deletion_plan(name, chunks)
        },
    decreases steps,
{
    let plan = deletion_plan(name, chunks);
    if steps == 0 {
        assert(plan.take(0) =~= Seq::<DeleteRequest>::empty());
    } else {
        let before = (steps - 1) as nat;
        deletion_keeps_to_its_plan(name, chunks, answers, before);
        if before < plan.len() {
            assert(deleting_asks(deletion_at(name, chunks, answers, before)) == Some(
                plan[before as int],
            ));
            assert(plan.take(before as int).push(plan[before as int]) =~= plan.take(steps as int));
            assert(plan.take(plan.len() as int) =~= plan);
        }
    }
}

/// A deletion under a valid name whose object is found asks for exactly what
/// its plan says, in order: all copies are deleted before the metadata of any
/// chunk, each chunk is deleted from the metadata once, and the object last,
/// whatever became of the copies and the chunks. It succeeds exactly where the
/// object is deleted from the metadata. An object that is not found is answered
/// with 404, and nothing is deleted; under an invalid name nothing is asked for.
pub proof fn a_deletion_goes_by_its_plan(name: Seq<char>, answers: DeleteAnswers, steps: nat)
    ensures
        ({
            let d = deleting_after(name, answers, steps);
            let asked = deleting_asked(name, answers, steps);
            match name_error(name) {
                Some(message) => d == deleting_of(name).fail(STATUS_BAD_REQUEST, message)
                    && asked.len() == 0,
                None => match answers.found {
                    Err(e) => steps > 0 ==> {
                        &&& d == deleting_of(name).fail(
                            STATUS_NOT_FOUND,
                            metadata_text(e.0, "could not get object: "@, e.1),
                        )
                        &&& asked == seq![DeleteRequest::Find(name)]
                    },
                    Ok(chunks) => {
                        let plan = deletion_plan(name, chunks);
                        &&& steps < plan.len() ==> asked == plan.take(steps as int)
                            && !(d.stage == DeleteStage::Done || d.stage == DeleteStage::Failed)
                        &&& steps >= plan.len() ==> asked == plan && match answers.object {
                            Ok(()) => d.stage == DeleteStage::Done,
                            Err(e) => d.stage == DeleteStage::Failed && d.failure == (Failure {
                                status: STATUS_INTERNAL_ERROR,
                                message: metadata_text(e.0, "could not delete object: "@, e.1),
                                counted: true,
                            }),
                        }
                    },
                },
            }
        }),
    decreases steps,
{
    if name_error(name) is None && answers.found is Ok {
        deletion_keeps_to_its_plan(name, answers.found->Ok_0, answers, steps);
    } else if steps > 0 {
        reveal_with_fuel(deleting_after, 2);
        reveal_with_fuel(deleting_asked, 2);
        a_deletion_goes_by_its_plan(name, answers, (steps - 1) as nat);
        assert(Seq::<DeleteRequest>::empty().push(DeleteRequest::Find(name)) =~= seq![
            DeleteRequest::Find(name),
        ]);
    }
}

} // verus!
