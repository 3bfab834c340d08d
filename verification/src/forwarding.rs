//! Where a request is handled: here or by the server that owns the object.
use vstd::prelude::*;

use crate::chunk_index::ChunkIndex;
use crate::cluster::{owner_address, ClusterManager, Membership};
use crate::status::{Code, Status};
use crate::text::{decimal, decimal_text, join2, join3, texts};

verus! {

/// Where a request is handled.
#[derive(Debug)]
pub enum RouteAction {
    /// Here.
    Local,
    /// By the server at this address.
    Forward(String),
}

/// The address that a request is forwarded to, if it is.
pub open spec fn route_address(r: RouteAction) -> Option<Seq<char>> {
    match r {
        RouteAction::Local => None,
        RouteAction::Forward(address) => Some(address@),
    }
}

/// Routes requests by the hash ring.
pub struct ForwardingLayer<'a> {
    cluster: &'a ClusterManager,
    chunk_index: &'a ChunkIndex,
}

impl<'a> ForwardingLayer<'a> {
    /// The cluster whose servers own the objects.
    pub closed spec fn cluster(self) -> Membership {
        self.cluster@
    }

    /// The objects of the chunks.
    pub closed spec fn chunk_index(self) -> Map<u64, Seq<char>> {
        self.chunk_index@
    }

    /// Routing in a cluster.
    pub fn new(cluster: &'a ClusterManager, chunk_index: &'a ChunkIndex) -> (r: Self)
        ensures
            r.cluster() == cluster@,
            r.chunk_index() == chunk_index@,
    {
        ForwardingLayer { cluster, chunk_index }
    }

    /// Where a request on an object is handled.
    pub fn route_by_object(&self, object_name: &str) -> (r: RouteAction)
        ensures
            route_address(r) == owner_address(self.cluster(), object_name@),
    {
        match self.cluster.get_owner_addr(object_name) {
            Some(address) => RouteAction::Forward(address),
            None => RouteAction::Local,
        }
    }

    /// Where a request on a chunk is handled: where its object is.
    pub fn route_by_chunk(&self, chunk_id: u64) -> (r: Result<RouteAction, Status>)
        ensures
            match r {
                Ok(action) => self.chunk_index().contains_key(chunk_id) && route_address(action)
                    == owner_address(self.cluster(), self.chunk_index()[chunk_id]),
                Err(status) => !self.chunk_index().contains_key(chunk_id) && status.is(
                    Code::NotFound,
                    "chunk "@ + decimal_text(chunk_id as nat) + " not found in index"@,
                ),
            },
    {
        match self.chunk_index.get(chunk_id) {
            Some(object_name) => Ok(self.route_by_object(object_name.as_str())),
            None => Err(
                Status::new(
                    Code::NotFound,
                    join3("chunk ", decimal(chunk_id).as_str(), " not found in index"),
                ),
            ),
        }
    }
}

/// The text of the status for a server that cannot be reached.
pub open spec fn unreachable_text(address: Seq<char>, error: Seq<char>) -> Seq<char> {
    "failed to connect to peer "@ + address + ": "@ + error
}

/// The status for a server that cannot be reached.
pub fn peer_unreachable(address: &str, error: &str) -> (r: Status)
    ensures
        r.is(Code::Unavailable, unreachable_text(address@, error@)),
{
    let mut message: String = join3("failed to connect to peer ", address, ": ");
    message.append(error);
    Status::new(Code::Unavailable, message)
}

/// The status for a request whose owner cannot be reached.
pub fn owner_unreachable(error: &str) -> (r: Status)
    ensures
        r.is(Code::Unavailable, "failed to connect to peer: "@ + error@),
{
    Status::new(Code::Unavailable, join2("failed to connect to peer: ", error))
}

/// What is to be done next to collect from all servers.
#[derive(Debug, Clone, Copy, PartialEq, Eq, Structural)]
pub enum GatherStage {
    /// Connect to the server at [`Gather::address`].
    Connect,
    /// Ask it for what it has.
    Ask,
    /// All servers have been asked.
    Done,
    /// A server could not be reached.
    Failed,
}

/// What a [`Gather`] stands for.
pub struct Gathering<T> {
    pub stage: GatherStage,
    pub addresses: Seq<Seq<char>>,
    pub next: nat,
    pub items: Seq<T>,
    /// Why a server could not be reached.
    pub error: Seq<char>,
}

impl<T> Gathering<T> {
    /// Goes to the server at index `k`, if there is one.
    pub open spec fn go_to(self, k: nat) -> Gathering<T> {
        Gathering {
            stage: if k < self.addresses.len() {
                GatherStage::Connect
            } else {
                GatherStage::Done
            },
            next: k,
            ..self
        }
    }
}

/// The collection at its start.
pub open spec fn gathering_started<T>(addresses: Seq<Seq<char>>) -> Gathering<T> {
    Gathering {
        stage: GatherStage::Connect,
        addresses,
        next: 0,
        items: Seq::<T>::empty(),
        error: Seq::<char>::empty(),
    }.go_to(0)
}

/// The collection once a server is reached.
pub open spec fn gathering_connected<T>(g: Gathering<T>) -> Gathering<T> {
    if g.stage == GatherStage::Connect {
        Gathering { stage: GatherStage::Ask, ..g }
    } else {
        g
    }
}

/// The collection once a server has answered.
pub open spec fn gathering_items<T>(g: Gathering<T>, items: Seq<T>) -> Gathering<T> {
    if g.stage == GatherStage::Ask {
        Gathering { items: g.items + items, ..g }.go_to(g.next + 1)
    } else {
        g
    }
}

/// The collection once its pending request has failed: a server that does not
/// answer is passed over, but one that cannot be reached ends the collection.
pub open spec fn gathering_failed<T>(g: Gathering<T>, error: Seq<char>) -> Gathering<T> {
    match g.stage {
        GatherStage::Connect => Gathering {
            stage: GatherStage::Failed,
            error: unreachable_text(g.addresses[g.next as int], error),
            ..g
        },
        GatherStage::Ask => g.go_to(g.next + 1),
        GatherStage::Done | GatherStage::Failed => g,
    }
}

/// Collects what all other servers have. [`Gather::stage`] says what to do
/// next; the outcome is handed back by one of the `on_` methods. An outcome of
/// something that was not asked for changes nothing.
pub struct Gather<T> {
    stage: GatherStage,
    addresses: Vec<String>,
    next: usize,
    items: Vec<T>,
    error: String,
}

impl<T> View for Gather<T> {
    type V = Gathering<T>;

    closed spec fn view(&self) -> Gathering<T> {
        Gathering {
            stage: self.stage,
            addresses: texts(self.addresses@),
            next: self.next as nat,
            items: self.items@,
            error: self.error@,
        }
    }
}

impl<T> Gather<T> {
    /// While a server is being asked, there is one.
    pub open spec fn wf(self) -> bool {
        self@.stage == GatherStage::Connect || self@.stage == GatherStage::Ask ==> self@.next
            < self@.addresses.len()
    }

    /// Starts a collection from the servers at `addresses`.
    pub fn start(addresses: Vec<String>) -> (r: Self)
        ensures
            r.wf(),
            r@ == gathering_started::<T>(texts(addresses@)),
    {
        let mut r: Gather<T> = Gather {
            stage: GatherStage::Connect,
            addresses,
            next: 0,
            items: Vec::new(),
            error: String::new(),
        };
        r.go_to(0);
        r
    }

    fn go_to(&mut self, k: usize)
        ensures
            final(self).wf(),
            final(self)@ == old(self)@.go_to(k as nat),
    {
        self.next = k;
        if k < self.addresses.len() {
            self.stage = GatherStage::Connect;
        } else {
            self.stage = GatherStage::Done;
        }
    }

    /// What is to be done next.
    pub fn stage(&self) -> (r: GatherStage)
        ensures
            r == self@.stage,
    {
        self.stage
    }

    /// The address of the current server.
    pub fn address(&self) -> (r: &str)
        requires
            self.wf(),
            self@.stage == GatherStage::Connect || self@.stage == GatherStage::Ask,
        ensures
            r@ == self@.addresses[self@.next as int],
    {
        assert(self@.addresses[self@.next as int] == self.addresses@[self.next as int]@);
        self.addresses[self.next].as_str()
    }

    /// The server was reached.
    pub fn on_connected(&mut self)
        requires
            old(self).wf(),
        ensures
            final(self).wf(),
            final(self)@ == gathering_connected(old(self)@),
    {
        if let GatherStage::Connect = self.stage {
            self.stage = GatherStage::Ask;
        }
    }

    /// The server has these.
    pub fn on_items(&mut self, items: Vec<T>)
        requires
            old(self).wf(),
        ensures
            final(self).wf(),
            final(self)@ == gathering_items(old(self)@, items@),
    {
        if let GatherStage::Ask = self.stage {
            let mut items: Vec<T> = items;
            self.items.append(&mut items);
            assert(self.next < self.addresses.len());
            self.go_to(self.next + 1);
        }
    }

    /// What was asked for has failed.
    pub fn on_failed(&mut self, error: &str)
        requires
            old(self).wf(),
        ensures
            final(self).wf(),
            final(self)@ == gathering_failed(old(self)@, error@),
    {
        match self.stage {
            GatherStage::Connect => {
                let status: Status = peer_unreachable(self.address(), error);
                self.error = status.message;
                self.stage = GatherStage::Failed;
            },
            GatherStage::Ask => {
                assert(self.next < self.addresses.len());
                self.go_to(self.next + 1);
            },
            GatherStage::Done | GatherStage::Failed => {},
        }
    }

    /// What was collected, or why a server could not be reached.
    pub fn into_items(self) -> (r: Result<Vec<T>, Status>)
        ensures
            match r {
                Ok(items) => self@.stage != GatherStage::Failed && items@ == self@.items,
                Err(status) => self@.stage == GatherStage::Failed && status.is(
                    Code::Unavailable,
                    self@.error,
                ),
            },
    {
        if let GatherStage::Failed = self.stage {
            Err(Status::new(Code::Unavailable, self.error))
        } else {
            Ok(self.items)
        }
    }
}

/// What the servers answer to a collection, each by its index.
pub struct GatherAnswers<T> {
    /// Whether a server can be reached, or why it cannot.
    pub reached: spec_fn(nat) -> Result<(), Seq<char>>,
    /// What a server has, if it answers.
    pub items: spec_fn(nat) -> Result<Seq<T>, Seq<char>>,
}

impl<T> GatherAnswers<T> {
    /// What the first `n` servers have, as far as they answer.
    pub open spec fn items_upto(self, n: nat) -> Seq<T>
        decreases n,
    {
        if n == 0 {
            Seq::<T>::empty()
        } else {
            let before = self.items_upto((n - 1) as nat);
            match (self.items)((n - 1) as nat) {
                Ok(items) => before + items,
                Err(_) => before,
            }
        }
    }

    /// Whether the first `n` servers can all be reached.
    pub open spec fn reached_upto(self, n: nat) -> bool {
        forall|k: nat| k < n ==> #[trigger] (self.reached)(k) is Ok
    }
}

/// The collection after what it asks for next was answered.
pub open spec fn gathering_next<T>(g: Gathering<T>, answers: GatherAnswers<T>) -> Gathering<T> {
    match g.stage {
        GatherStage::Connect => match (answers.reached)(g.next) {
            Ok(()) => gathering_connected(g),
            Err(error) => gathering_failed(g, error),
        },
        GatherStage::Ask => match (answers.items)(g.next) {
            Ok(items) => gathering_items(g, items),
            Err(error) => gathering_failed(g, error),
        },
        GatherStage::Done | GatherStage::Failed => g,
    }
}

/// The collection after `steps` things that it asked for.
pub open spec fn gathering_after<T>(
    addresses: Seq<Seq<char>>,
    answers: GatherAnswers<T>,
    steps: nat,
) -> Gathering<T>
    decreases steps,
{
    if steps == 0 {
        gathering_started(addresses)
    } else {
        gathering_next(gathering_after(addresses, answers, (steps - 1) as nat), answers)
    }
}

proof fn gathering_keeps_to_its_end<T>(
    addresses: Seq<Seq<char>>,
    answers: GatherAnswers<T>,
    steps: nat,
)
    ensures
        ({
            let g = gathering_after(addresses, answers, steps);
            &&& g.addresses == addresses
            &&& g.next <= addresses.len()
            &&& answers.reached_upto(g.next)
            &&& match g.stage {
                GatherStage::Connect => g.next < addresses.len() && g.items == answers.items_upto(
                    g.next,
                ) && steps == 2 * g.next,
                GatherStage::Ask => g.next < addresses.len() && g.items == answers.items_upto(
                    g.next,
                ) && (answers.reached)(g.next) is Ok && steps == 2 * g.next + 1,
                GatherStage::Done => g.next == addresses.len() && g.items == answers.items_upto(
                    g.next,
                ),
                GatherStage::Failed => {
                    &&& g.next < addresses.len()
                    &&& (answers.reached)(g.next) matches Err(error) && g.error
                        == unreachable_text(addresses[g.next as int], error)
                },
            }
        }),
    decreases steps,
{
    if steps > 0 {
        gathering_keeps_to_its_end(addresses, answers, (steps - 1) as nat);
        let g = gathering_after(addresses, answers, (steps - 1) as nat);
        if g.stage == GatherStage::Ask {
            assert(answers.reached_upto(g.next + 1)) by {
                assert forall|k: nat| k < g.next + 1 implies #[trigger] (answers.reached)(
                    k,
                ) is Ok by {
                    if k < g.next {
                        assert((answers.reached)(k) is Ok);
                    }
                }
            }
        }
    }
}

/// A collection asks every server in order. If all can be reached it ends with
/// what they have, in order, those that do not answer left out; otherwise it
/// ends with the first that cannot be reached.
pub proof fn a_collection_asks_every_server<T>(
    addresses: Seq<Seq<char>>,
    answers: GatherAnswers<T>,
    steps: nat,
)
    ensures
        ({
            let g = gathering_after(addresses, answers, steps);
            let over = g.stage == GatherStage::Done || g.stage == GatherStage::Failed;
            &&& steps >= 2 * addresses.len() ==> over
            &&& over && answers.reached_upto(addresses.len()) ==> g.stage == GatherStage::Done
                && g.items == answers.items_upto(addresses.len())
            &&& over && !answers.reached_upto(addresses.len()) ==> {
                &&& g.stage == GatherStage::Failed
                &&& g.next < addresses.len()
                &&& answers.reached_upto(g.next)
                &&& (answers.reached)(g.next) matches Err(error) && g.error == unreachable_text(
                    addresses[g.next as int],
                    error,
                )
            }
        }),
{
    gathering_keeps_to_its_end(addresses, answers, steps);
}

} // verus!
