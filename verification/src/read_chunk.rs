//! Reading a chunk from any of the storage nodes that hold it.
use vstd::prelude::*;

use crate::messages::{ChunkInfo, ChunkPlaces};
use crate::metadata_store::NodeRecord;
use crate::retry::{backoff_delay, Backoff};
use crate::text::texts;

verus! {

/// How often a failed request to a storage node is repeated.
pub const NODE_RETRIES: u32 = 2;

/// What is to be done next to read a chunk.
#[derive(Debug, Clone, Copy, PartialEq, Eq, Structural)]
pub enum ReadStage {
    /// Connect to the storage node at [`ChunkRead::address`].
    Connect,
    /// Read the chunk there.
    Read,
    /// Wait for [`ChunkRead::delay`] milliseconds.
    Wait,
    /// The chunk was read.
    Done,
    /// No storage node gave the chunk.
    Exhausted,
}

/// Whether a stage is about a storage node.
pub open spec fn asks_a_node(stage: ReadStage) -> bool {
    stage == ReadStage::Connect || stage == ReadStage::Read || stage == ReadStage::Wait
}

/// What a [`ChunkRead`] stands for.
pub struct Reading {
    pub stage: ReadStage,
    pub chunk_id: u64,
    pub addresses: Seq<Seq<char>>,
    /// The index of the current storage node.
    pub node: nat,
    /// How often the current storage node has failed.
    pub attempt: nat,
    pub delay: u64,
    pub bytes: Seq<u8>,
}

impl Reading {
    /// Goes to the storage node at index `k`, if there is one.
    pub open spec fn go_to(self, k: nat) -> Reading {
        Reading {
            stage: if k < self.addresses.len() {
                ReadStage::Connect
            } else {
                ReadStage::Exhausted
            },
            node: k,
            attempt: 0,
            ..self
        }
    }
}

/// The addresses of storage nodes.
pub open spec fn node_addresses(nodes: Seq<NodeRecord>) -> Seq<Seq<char>> {
    nodes.map_values(|n: NodeRecord| n.address)
}

/// A read before anything was tried.
pub open spec fn reading_started(chunk: ChunkPlaces) -> Reading {
    Reading {
        stage: ReadStage::Connect,
        chunk_id: chunk.id,
        addresses: node_addresses(chunk.nodes),
        node: 0,
        attempt: 0,
        delay: 0,
        bytes: Seq::<u8>::empty(),
    }.go_to(0)
}

/// The read once the storage node is reached.
pub open spec fn reading_connected(r: Reading) -> Reading {
    if r.stage == ReadStage::Connect {
        Reading { stage: ReadStage::Read, ..r }
    } else {
        r
    }
}

/// The read once the chunk is there.
pub open spec fn reading_done(r: Reading, bytes: Seq<u8>) -> Reading {
    if r.stage == ReadStage::Read {
        Reading { stage: ReadStage::Done, bytes, ..r }
    } else {
        r
    }
}

/// The read after a wait.
pub open spec fn reading_waited(r: Reading) -> Reading {
    if r.stage == ReadStage::Wait {
        Reading { stage: ReadStage::Read, ..r }
    } else {
        r
    }
}

/// The read once its pending request has failed: a storage node that cannot be
/// reached is passed over at once, one that does not give the chunk after some
/// repeats.
pub open spec fn reading_failed(r: Reading) -> Reading {
    match r.stage {
        ReadStage::Connect => r.go_to(r.node + 1),
        ReadStage::Read => if r.attempt < NODE_RETRIES {
            Reading {
                stage: ReadStage::Wait,
                delay: backoff_delay(r.attempt),
                attempt: r.attempt + 1,
                ..r
            }
        } else {
            r.go_to(r.node + 1)
        },
        ReadStage::Wait | ReadStage::Done | ReadStage::Exhausted => r,
    }
}

/// The progress of reading one chunk. [`ChunkRead::stage`] says what to do next;
/// the outcome is handed back by one of the `on_` methods. An outcome of
/// something that was not asked for changes nothing.
pub struct ChunkRead {
    stage: ReadStage,
    chunk_id: u64,
    addresses: Vec<String>,
    node: usize,
    retries: Backoff,
    delay: u64,
    bytes: Vec<u8>,
}

impl View for ChunkRead {
    type V = Reading;

    closed spec fn view(&self) -> Reading {
        Reading {
            stage: self.stage,
            chunk_id: self.chunk_id,
            addresses: texts(self.addresses@),
            node: self.node as nat,
            attempt: self.retries.attempt(),
            delay: self.delay,
            bytes: self.bytes@,
        }
    }
}

impl ChunkRead {
    /// While a storage node is being asked, there is one; and repeats are
    /// bounded.
    pub closed spec fn wf(self) -> bool {
        &&& self.retries.max_retries() == NODE_RETRIES
        &&& asks_a_node(self@.stage)
            ==> self@.node < self@.addresses.len()
        &&& self@.stage == ReadStage::Exhausted ==> self@.node >= self@.addresses.len()
    }

    /// Starts to read a chunk.
    pub fn start(chunk: &ChunkInfo) -> (r: Self)
        ensures
            r.wf(),
            r@ == reading_started(chunk@),
    {
        let mut addresses: Vec<String> = Vec::new();
        let mut i: usize = 0;
        while i < chunk.storage_nodes.len()
            invariant
                i <= chunk.storage_nodes@.len(),
                addresses@.len() == i,
                forall|k: int|
                    0 <= k < i ==> (#[trigger] addresses@[k])@ == chunk.storage_nodes@[k].address@,
            decreases chunk.storage_nodes@.len() - i,
        {
            addresses.push(chunk.storage_nodes[i].address.clone());
            i = i + 1;
        }
        assert(texts(addresses@) =~= node_addresses(chunk@.nodes)) by {
            assert forall|k: int| 0 <= k < addresses@.len() implies texts(addresses@)[k]
                == node_addresses(chunk@.nodes)[k] by {
                assert(addresses@[k]@ == chunk.storage_nodes@[k].address@);
            }
        }
        let mut r: ChunkRead = ChunkRead {
            stage: ReadStage::Connect,
            chunk_id: chunk.id,
            addresses,
            node: 0,
            retries: Backoff::new(NODE_RETRIES),
            delay: 0,
            bytes: Vec::new(),
        };
        r.go_to(0);
        r
    }

    fn go_to(&mut self, k: usize)
        ensures
            final(self).wf(),
            final(self)@ == old(self)@.go_to(k as nat),
    {
        self.node = k;
        self.retries = Backoff::new(NODE_RETRIES);
        if k < self.addresses.len() {
            self.stage = ReadStage::Connect;
        } else {
            self.stage = ReadStage::Exhausted;
        }
    }

    /// What is to be done next.
    pub fn stage(&self) -> (r: ReadStage)
        ensures
            r == self@.stage,
    {
        self.stage
    }

    /// The id of the chunk.
    pub fn chunk_id(&self) -> (r: u64)
        ensures
            r == self@.chunk_id,
    {
        self.chunk_id
    }

    /// The address of the current storage node.
    pub fn address(&self) -> (r: &str)
        requires
            self.wf(),
            asks_a_node(self@.stage),
        ensures
            r@ == self@.addresses[self@.node as int],
    {
        assert(self@.addresses[self@.node as int] == self.addresses@[self.node as int]@);
        self.addresses[self.node].as_str()
    }

    /// How long to wait, in milliseconds.
    pub fn delay(&self) -> (r: u64)
        ensures
            r == self@.delay,
    {
        self.delay
    }

    /// The storage node was reached.
    pub fn on_connected(&mut self)
        requires
            old(self).wf(),
        ensures
            final(self).wf(),
            final(self)@ == reading_connected(old(self)@),
    {
        if let ReadStage::Connect = self.stage {
            self.stage = ReadStage::Read;
        }
    }

    /// The storage node gave the chunk.
    pub fn on_read(&mut self, bytes: Vec<u8>)
        requires
            old(self).wf(),
        ensures
            final(self).wf(),
            final(self)@ == reading_done(old(self)@, bytes@),
    {
        if let ReadStage::Read = self.stage {
            self.bytes = bytes;
            self.stage = ReadStage::Done;
        }
    }

    /// The wait is over.
    pub fn on_waited(&mut self)
        requires
            old(self).wf(),
        ensures
            final(self).wf(),
            final(self)@ == reading_waited(old(self)@),
    {
        if let ReadStage::Wait = self.stage {
            self.stage = ReadStage::Read;
        }
    }

    /// What was asked for has failed.
    pub fn on_failed(&mut self)
        requires
            old(self).wf(),
        ensures
            final(self).wf(),
            final(self)@ == reading_failed(old(self)@),
    {
        match self.stage {
            ReadStage::Connect => {
                assert(self.node < self.addresses.len());
                self.go_to(self.node + 1);
            },
            ReadStage::Read => {
                assert(self.node < self.addresses.len());
                match self.retries.on_failed() {
                    Some(delay) => {
                        self.delay = delay;
                        self.stage = ReadStage::Wait;
                    },
                    None => {
                        self.go_to(self.node + 1);
                    },
                }
            },
            ReadStage::Wait | ReadStage::Done | ReadStage::Exhausted => {},
        }
    }

    /// The chunk, or its id where no storage node gave it.
    pub fn into_result(self) -> (r: Result<Vec<u8>, u64>)
        ensures
            match r {
                Ok(bytes) => reading_result(self@) == Ok::<Seq<u8>, u64>(bytes@),
                Err(id) => reading_result(self@) == Err::<Seq<u8>, u64>(id),
            },
    {
        if let ReadStage::Done = self.stage {
            Ok(self.bytes)
        } else {
            Err(self.chunk_id)
        }
    }
}

/// A measure of what is left to try; every failure makes it smaller.
pub open spec fn reading_left(r: Reading) -> int {
    (r.addresses.len() - r.node) * (NODE_RETRIES + 2) + match r.stage {
        ReadStage::Connect => 0int,
        ReadStage::Read | ReadStage::Wait => -1 - r.attempt,
        _ => 0,
    }
}

/// A chunk is given up only after every storage node has failed; and with every
/// failure there is less left to try, so that every read ends.
pub proof fn every_node_is_tried(r: Reading)
    requires
        r.node < r.addresses.len(),
        r.attempt <= NODE_RETRIES,
        r.stage == ReadStage::Connect || r.stage == ReadStage::Read,
        r.stage == ReadStage::Connect ==> r.attempt == 0,
    ensures
        reading_failed(r).stage == ReadStage::Exhausted ==> r.node + 1 == r.addresses.len() && (
        r.stage == ReadStage::Connect || r.attempt == NODE_RETRIES),
        reading_failed(r).stage == ReadStage::Connect ==> reading_failed(r).node == r.node + 1,
        0 <= reading_left(reading_failed(r)) < reading_left(r),
{
    let left = r.addresses.len() - r.node;
    assert(left * (NODE_RETRIES + 2) == (left - 1) * (NODE_RETRIES + 2) + (NODE_RETRIES + 2))
        by (nonlinear_arith);
    assert((left - 1) * (NODE_RETRIES + 2) >= 0) by (nonlinear_arith)
        requires
            left >= 1,
    ;
}

/// What the storage nodes of a chunk answer, each by its place in the list.
pub struct NodeAnswers {
    /// Whether a node can be reached.
    pub reached: spec_fn(nat) -> bool,
    /// What a node gives at each try, counted from 0, if it gives anything.
    pub given: spec_fn(nat, nat) -> Option<Seq<u8>>,
}

impl NodeAnswers {
    /// What the node at index `n` gives at the first try, from the try `t` on,
    /// at which it gives anything.
    pub open spec fn given_from(self, n: nat, t: nat) -> Option<Seq<u8>>
        decreases NODE_RETRIES + 1 - t,
    {
        if t > NODE_RETRIES {
            None
        } else {
            match (self.given)(n, t) {
                Some(bytes) => Some(bytes),
                None => self.given_from(n, t + 1),
            }
        }
    }

    /// What the node at index `n` gives, if it can be reached and gives
    /// anything within the tries it has.
    pub open spec fn node_gives(self, n: nat) -> Option<Seq<u8>> {
        if (self.reached)(n) {
            self.given_from(n, 0)
        } else {
            None
        }
    }

    /// What the first of the nodes `n..count` gives that gives anything.
    pub open spec fn first_from(self, n: nat, count: nat) -> Option<Seq<u8>>
        decreases count - n,
    {
        if n >= count {
            None
        } else {
            match self.node_gives(n) {
                Some(bytes) => Some(bytes),
                None => self.first_from(n + 1, count),
            }
        }
    }
}

/// What a chunk's storage nodes give: the bytes of the first that gives any, or
/// the chunk's id where none does.
pub open spec fn chunk_outcome(chunk: ChunkPlaces, answers: NodeAnswers) -> Result<Seq<u8>, u64> {
    match answers.first_from(0, chunk.nodes.len()) {
        Some(bytes) => Ok(bytes),
        None => Err(chunk.id),
    }
}

/// The read after the next thing is done that it asks for.
pub open spec fn reading_next(r: Reading, answers: NodeAnswers) -> Reading {
    match r.stage {
        ReadStage::Connect => if (answers.reached)(r.node) {
            reading_connected(r)
        } else {
            reading_failed(r)
        },
        ReadStage::Read => match (answers.given)(r.node, r.attempt) {
            Some(bytes) => reading_done(r, bytes),
            None => reading_failed(r),
        },
        ReadStage::Wait => reading_waited(r),
        ReadStage::Done | ReadStage::Exhausted => r,
    }
}

/// The read of a chunk after `steps` things were done for it.
pub open spec fn reading_after(chunk: ChunkPlaces, answers: NodeAnswers, steps: nat) -> Reading
    decreases steps,
{
    if steps == 0 {
        reading_started(chunk)
    } else {
        reading_next(reading_after(chunk, answers, (steps - 1) as nat), answers)
    }
}

/// Whether nothing is left to be done for a read.
pub open spec fn reading_over(r: Reading) -> bool {
    r.stage == ReadStage::Done || r.stage == ReadStage::Exhausted
}

/// What a read that is over has come to.
pub open spec fn reading_result(r: Reading) -> Result<Seq<u8>, u64> {
    if r.stage == ReadStage::Done {
        Ok(r.bytes)
    } else {
        Err(r.chunk_id)
    }
}

/// What a read will come to, with what was done for it so far.
spec fn reading_due(r: Reading, answers: NodeAnswers) -> Option<Seq<u8>> {
    match r.stage {
        ReadStage::Connect => answers.first_from(r.node, r.addresses.len()),
        ReadStage::Read | ReadStage::Wait => match answers.given_from(r.node, r.attempt) {
            Some(bytes) => Some(bytes),
            None => answers.first_from(r.node + 1, r.addresses.len()),
        },
        ReadStage::Done => Some(r.bytes),
        ReadStage::Exhausted => None,
    }
}

/// How many things are left to be done for a read at most: at each storage node
/// a connection and three tries with a wait between them.
spec fn reading_steps(r: Reading) -> int {
    let nodes = r.addresses.len() - r.node;
    match r.stage {
        ReadStage::Connect => 6 * nodes,
        ReadStage::Read => 6 * nodes - 1 - 2 * r.attempt,
        ReadStage::Wait => 6 * nodes - 2 * r.attempt,
        ReadStage::Done | ReadStage::Exhausted => 0,
    }
}

proof fn reading_keeps_to_its_end(chunk: ChunkPlaces, answers: NodeAnswers, steps: nat)
    ensures
        ({
            let r = reading_after(chunk, answers, steps);
            &&& r.chunk_id == chunk.id
            &&& r.addresses == node_addresses(chunk.nodes)
            &&& asks_a_node(r.stage) ==> r.node < r.addresses.len()
            &&& r.stage == ReadStage::Connect ==> r.attempt == 0
            &&& asks_a_node(r.stage) ==> r.attempt <= NODE_RETRIES
            &&& r.stage == ReadStage::Wait ==> r.attempt > 0
            &&& reading_due(r, answers) == answers.first_from(0, chunk.nodes.len())
            &&& !reading_over(r) ==> 0 < reading_steps(r) <= 6 * chunk.nodes.len() - steps
        }),
    decreases steps,
{
    if steps > 0 {
        reading_keeps_to_its_end(chunk, answers, (steps - 1) as nat);
        reveal_with_fuel(NodeAnswers::given_from, 2);
        reveal_with_fuel(NodeAnswers::first_from, 2);
    }
}

proof fn given_within_the_tries(answers: NodeAnswers, n: nat, t: nat)
    ensures
        answers.given_from(n, t) is Some <==> exists|u: nat|
            t <= u <= NODE_RETRIES && #[trigger] (answers.given)(n, u) is Some,
    decreases NODE_RETRIES + 1 - t,
{
    if t <= NODE_RETRIES {
        given_within_the_tries(answers, n, t + 1);
        if (answers.given)(n, t) is None {
            assert forall|u: nat|
                t <= u <= NODE_RETRIES && #[trigger] (answers.given)(n, u) is Some implies t + 1
                <= u by {}
        }
    }
}

proof fn first_is_first(answers: NodeAnswers, n: nat, count: nat)
    requires
        n <= count,
    ensures
        match answers.first_from(n, count) {
            Some(bytes) => exists|k: nat|
                n <= k < count && #[trigger] answers.node_gives(k) == Some(bytes) && forall|m: nat|
                    n <= m < k ==> #[trigger] answers.node_gives(m) is None,
            None => forall|m: nat| n <= m < count ==> #[trigger] answers.node_gives(m) is None,
        },
    decreases count - n,
{
    if n < count && answers.node_gives(n) is None {
        first_is_first(answers, n + 1, count);
        if answers.first_from(n + 1, count) is Some {
            let bytes = answers.first_from(n + 1, count)->Some_0;
            let k = choose|k: nat|
                n + 1 <= k < count && #[trigger] answers.node_gives(k) == Some(bytes) && forall|
                    m: nat,
                |
                    n + 1 <= m < k ==> #[trigger] answers.node_gives(m) is None;
            assert forall|m: nat| n <= m < k implies #[trigger] answers.node_gives(m) is None by {
                if m != n {
                    assert(n + 1 <= m);
                }
            }
        } else {
            assert forall|m: nat| n <= m < count implies #[trigger] answers.node_gives(m) is None by {
                if m != n {
                    assert(n + 1 <= m);
                }
            }
        }
    }
}

/// A read gives the bytes of the first storage node, in listed order, that can
/// be reached and answers within three tries; it fails exactly where there is
/// none. Whatever the nodes answer, it is over after six steps for each node.
pub proof fn a_read_takes_the_first_node_that_answers(
    chunk: ChunkPlaces,
    answers: NodeAnswers,
    steps: nat,
)
    ensures
        ({
            let r = reading_after(chunk, answers, steps);
            &&& reading_over(r) ==> reading_result(r) == chunk_outcome(chunk, answers)
            &&& steps >= 6 * chunk.nodes.len() ==> reading_over(r)
        }),
        match chunk_outcome(chunk, answers) {
            Ok(bytes) => exists|n: nat|
                n < chunk.nodes.len() && #[trigger] answers.node_gives(n) == Some(bytes) && forall|
                    m: nat,
                |
                    m < n ==> #[trigger] answers.node_gives(m) is None,
            Err(id) => id == chunk.id && forall|m: nat|
                m < chunk.nodes.len() ==> #[trigger] answers.node_gives(m) is None,
        },
        forall|n: nat|
            #[trigger] answers.node_gives(n) is Some <==> (answers.reached)(n) && exists|t: nat|
                t <= NODE_RETRIES && #[trigger] (answers.given)(n, t) is Some,
{
    reading_keeps_to_its_end(chunk, answers, steps);
    first_is_first(answers, 0, chunk.nodes.len());
    assert forall|n: nat|
        #[trigger] answers.node_gives(n) is Some <==> (answers.reached)(n) && exists|t: nat|
            t <= NODE_RETRIES && #[trigger] (answers.given)(n, t) is Some by {
        given_within_the_tries(answers, n, 0);
    }
}

/// What is to be done next to delete a chunk from one storage node.
#[derive(Debug, Clone, Copy, PartialEq, Eq, Structural)]
pub enum EraseStage {
    /// Connect to the storage node.
    Connect,
    /// Delete the chunk there.
    Delete,
    /// Wait for [`ReplicaDelete::delay`] milliseconds.
    Wait,
    /// The chunk was deleted there.
    Deleted,
    /// The chunk could not be deleted there.
    Failed,
}

/// What a [`ReplicaDelete`] stands for.
pub struct Erasing {
    pub stage: EraseStage,
    /// How often the deletion has failed and was to be repeated.
    pub attempt: nat,
    pub delay: u64,
}

/// A deletion before anything was tried.
pub open spec fn erasing_started() -> Erasing {
    Erasing { stage: EraseStage::Connect, attempt: 0, delay: 0 }
}

/// The deletion once what it asked for is done.
pub open spec fn erasing_done(e: Erasing) -> Erasing {
    Erasing {
        stage: match e.stage {
            EraseStage::Connect | EraseStage::Wait => EraseStage::Delete,
            EraseStage::Delete => EraseStage::Deleted,
            EraseStage::Deleted | EraseStage::Failed => e.stage,
        },
        ..e
    }
}

/// The deletion once what it asked for has failed: a storage node that cannot be
/// reached is given up at once, a deletion after some repeats.
pub open spec fn erasing_failed(e: Erasing) -> Erasing {
    match e.stage {
        EraseStage::Connect => Erasing { stage: EraseStage::Failed, ..e },
        EraseStage::Delete => if e.attempt < NODE_RETRIES {
            Erasing {
                stage: EraseStage::Wait,
                attempt: e.attempt + 1,
                delay: backoff_delay(e.attempt),
            }
        } else {
            Erasing { stage: EraseStage::Failed, ..e }
        },
        EraseStage::Wait | EraseStage::Deleted | EraseStage::Failed => e,
    }
}

/// The progress of deleting a chunk from one storage node.
/// [`ReplicaDelete::stage`] says what to do next; the outcome is handed back by
/// one of the `on_` methods.
pub struct ReplicaDelete {
    stage: EraseStage,
    retries: Backoff,
    delay: u64,
}

impl View for ReplicaDelete {
    type V = Erasing;

    closed spec fn view(&self) -> Erasing {
        Erasing { stage: self.stage, attempt: self.retries.attempt(), delay: self.delay }
    }
}

impl ReplicaDelete {
    /// Repeats are bounded.
    pub closed spec fn wf(self) -> bool {
        self.retries.max_retries() == NODE_RETRIES
    }

    /// Starts a deletion.
    pub fn start() -> (r: Self)
        ensures
            r.wf(),
            r@ == erasing_started(),
    {
        ReplicaDelete {
            stage: EraseStage::Connect,
            retries: Backoff::new(NODE_RETRIES),
            delay: 0,
        }
    }

    /// What is to be done next.
    pub fn stage(&self) -> (r: EraseStage)
        ensures
            r == self@.stage,
    {
        self.stage
    }

    /// How long to wait, in milliseconds.
    pub fn delay(&self) -> (r: u64)
        ensures
            r == self@.delay,
    {
        self.delay
    }

    /// The storage node was reached, gave up the chunk, or the wait is over.
    pub fn on_done(&mut self)
        requires
            old(self).wf(),
        ensures
            final(self).wf(),
            final(self)@ == erasing_done(old(self)@),
    {
        match self.stage {
            EraseStage::Connect | EraseStage::Wait => {
                self.stage = EraseStage::Delete;
            },
            EraseStage::Delete => {
                self.stage = EraseStage::Deleted;
            },
            EraseStage::Deleted | EraseStage::Failed => {},
        }
    }

    /// What was asked for has failed.
    pub fn on_failed(&mut self)
        requires
            old(self).wf(),
        ensures
            final(self).wf(),
            final(self)@ == erasing_failed(old(self)@),
    {
        match self.stage {
            EraseStage::Connect => {
                self.stage = EraseStage::Failed;
            },
            EraseStage::Delete => {
                match self.retries.on_failed() {
                    Some(delay) => {
                        self.delay = delay;
                        self.stage = EraseStage::Wait;
                    },
                    None => {
                        self.stage = EraseStage::Failed;
                    },
                }
            },
            EraseStage::Wait | EraseStage::Deleted | EraseStage::Failed => {},
        }
    }
}

/// What a storage node answers to a deletion.
pub struct EraseAnswers {
    /// Whether it can be reached.
    pub reached: bool,
    /// Whether it deletes the chunk at each try, counted from 0.
    pub deletes: spec_fn(nat) -> bool,
}

/// The deletion after the next thing is done that it asks for.
pub open spec fn erasing_next(e: Erasing, answers: EraseAnswers) -> Erasing {
    let works = match e.stage {
        EraseStage::Connect => answers.reached,
        EraseStage::Delete => (answers.deletes)(e.attempt),
        _ => true,
    };
    if works {
        erasing_done(e)
    } else {
        erasing_failed(e)
    }
}

/// The deletion after `steps` things were done for it.
pub open spec fn erasing_after(answers: EraseAnswers, steps: nat) -> Erasing
    decreases steps,
{
    if steps == 0 {
        erasing_started()
    } else {
        erasing_next(erasing_after(answers, (steps - 1) as nat), answers)
    }
}

/// How often the storage node was asked to delete the chunk within `steps`.
pub open spec fn erasing_asked(answers: EraseAnswers, steps: nat) -> nat
    decreases steps,
{
    if steps == 0 {
        0
    } else {
        let before = (steps - 1) as nat;
        erasing_asked(answers, before) + if erasing_after(answers, before).stage
            == EraseStage::Delete {
            1nat
        } else {
            0
        }
    }
}

/// Whether nothing is left to be done for a deletion.
pub open spec fn erasing_over(e: Erasing) -> bool {
    e.stage == EraseStage::Deleted || e.stage == EraseStage::Failed
}

/// Whether the storage node deletes the chunk within the tries it has.
pub open spec fn deletes_in_time(answers: EraseAnswers) -> bool {
    answers.reached && exists|t: nat| t <= NODE_RETRIES && #[trigger] (answers.deletes)(t)
}

proof fn erasing_keeps_to_its_end(answers: EraseAnswers, steps: nat)
    ensures
        ({
            let e = erasing_after(answers, steps);
            let asked = erasing_asked(answers, steps);
            &&& e.attempt <= NODE_RETRIES
            &&& e.stage != EraseStage::Connect && e.stage != EraseStage::Failed ==> answers.reached
            &&& e.stage != EraseStage::Failed ==> forall|t: nat|
                t < e.attempt ==> !#[trigger] (answers.deletes)(t)
            &&& match e.stage {
                EraseStage::Connect => steps == 0 && e.attempt == 0 && asked == 0,
                EraseStage::Delete => asked == e.attempt && steps == 2 * e.attempt + 1,
                EraseStage::Wait => e.attempt > 0 && asked == e.attempt && steps == 2 * e.attempt,
                EraseStage::Deleted => asked == e.attempt + 1 && (answers.deletes)(e.attempt),
                EraseStage::Failed => asked <= NODE_RETRIES + 1 && !deletes_in_time(answers),
            }
        }),
    decreases steps,
{
    if steps > 0 {
        erasing_keeps_to_its_end(answers, (steps - 1) as nat);
        let before = erasing_after(answers, (steps - 1) as nat);
        if before.stage == EraseStage::Delete && !(answers.deletes)(before.attempt) {
            assert forall|t: nat| t <= before.attempt implies !#[trigger] (answers.deletes)(t) by {}
        }
    }
}

/// A storage node is asked to delete a chunk at most three times. The deletion
/// ends after at most six steps, and the chunk is then deleted there exactly
/// where the node can be reached and one of these tries succeeds, the last of
/// those that were made.
pub proof fn a_deletion_is_tried_three_times(answers: EraseAnswers, steps: nat)
    ensures
        erasing_asked(answers, steps) <= NODE_RETRIES + 1,
        !answers.reached ==> erasing_asked(answers, steps) == 0,
        steps >= 6 ==> erasing_over(erasing_after(answers, steps)),
        erasing_over(erasing_after(answers, steps)) ==> (erasing_after(answers, steps).stage
            == EraseStage::Deleted <==> deletes_in_time(answers)),
        erasing_after(answers, steps).stage == EraseStage::Deleted ==> {
            let last = (erasing_asked(answers, steps) - 1) as nat;
            (answers.deletes)(last) && forall|t: nat| t < last ==> !#[trigger] (answers.deletes)(t)
        },
    decreases steps,
{
    erasing_keeps_to_its_end(answers, steps);
    if steps > 0 {
        erasing_keeps_to_its_end(answers, (steps - 1) as nat);
        a_deletion_is_tried_three_times(answers, (steps - 1) as nat);
    }
}

} // verus!
