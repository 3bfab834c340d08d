//! Finding a metadata server that answers, among several addresses.
use vstd::prelude::*;

use crate::text::texts;

verus! {

/// How often the gateway goes through its addresses.
pub const GATEWAY_CONNECT_ROUNDS: u32 = 6;

/// How often a storage node goes through its addresses.
pub const NODE_CONNECT_ROUNDS: u32 = 6;

/// How often the replication service goes through its addresses.
pub const REPLICATION_CONNECT_ROUNDS: u32 = 5;

/// The pause between two rounds, in milliseconds.
pub const ROUND_PAUSE_MILLIS: u64 = 2_000;

/// What is to be done next to find a server.
#[derive(Debug, Clone, Copy, PartialEq, Eq, Structural)]
pub enum ConnectStage {
    /// Try the address [`ConnectRounds::url`].
    Try,
    /// Pause before the next round.
    Pause,
    /// Use the connection that was made.
    Connected,
    /// No address answered in any round.
    GiveUp,
}

/// A search for a server so far.
pub struct Search {
    pub stage: ConnectStage,
    pub urls: Seq<Seq<char>>,
    /// The address to try.
    pub next: nat,
    /// The rounds that have failed.
    pub failed_rounds: nat,
    pub max_rounds: nat,
    /// How many addresses were tried without success.
    pub failed_tries: nat,
}

/// The search at the end of a round in which no address answered.
pub open spec fn search_round_over(s: Search) -> Search {
    Search {
        stage: if s.failed_rounds + 1 >= s.max_rounds {
            ConnectStage::GiveUp
        } else {
            ConnectStage::Pause
        },
        failed_rounds: s.failed_rounds + 1,
        next: 0,
        ..s
    }
}

/// The search at the start of a round.
pub open spec fn search_round_start(s: Search) -> Search {
    if s.urls.len() == 0 {
        search_round_over(s)
    } else {
        Search { stage: ConnectStage::Try, next: 0, ..s }
    }
}

/// The search before the first address was tried.
pub open spec fn search_started(urls: Seq<Seq<char>>, max_rounds: nat) -> Search {
    search_round_start(
        Search {
            stage: ConnectStage::Try,
            urls,
            next: 0,
            failed_rounds: 0,
            max_rounds,
            failed_tries: 0,
        },
    )
}

/// The search after the current address did not answer.
pub open spec fn search_failed(s: Search) -> Search {
    if s.stage != ConnectStage::Try {
        s
    } else {
        let tried = Search { failed_tries: s.failed_tries + 1, ..s };
        if s.next + 1 < s.urls.len() {
            Search { next: s.next + 1, ..tried }
        } else {
            search_round_over(tried)
        }
    }
}

/// The search after the current address answered.
pub open spec fn search_connected(s: Search) -> Search {
    if s.stage != ConnectStage::Try {
        s
    } else {
        Search { stage: ConnectStage::Connected, ..s }
    }
}

/// The search after a pause.
pub open spec fn search_paused(s: Search) -> Search {
    if s.stage != ConnectStage::Pause {
        s
    } else {
        search_round_start(s)
    }
}

/// A search through a list of addresses, in rounds with a pause between them.
pub struct ConnectRounds {
    stage: ConnectStage,
    urls: Vec<String>,
    next: usize,
    failed_rounds: u32,
    max_rounds: u32,
    failed_tries: Ghost<nat>,
}

impl View for ConnectRounds {
    type V = Search;

    closed spec fn view(&self) -> Search {
        Search {
            stage: self.stage,
            urls: texts(self.urls@),
            next: self.next as nat,
            failed_rounds: self.failed_rounds as nat,
            max_rounds: self.max_rounds as nat,
            failed_tries: self.failed_tries@,
        }
    }
}

/// Every address was tried in every round that is over, and in the current one
/// all before the next; the search is given up after the last round.
pub open spec fn search_complete(s: Search) -> bool {
    &&& s.failed_rounds <= s.max_rounds
    &&& s.stage == ConnectStage::GiveUp <==> s.failed_rounds == s.max_rounds
    &&& s.stage == ConnectStage::Try || s.stage == ConnectStage::Connected ==> s.next
        < s.urls.len()
    &&& s.stage == ConnectStage::Pause || s.stage == ConnectStage::GiveUp ==> s.next == 0
    &&& s.failed_tries == s.failed_rounds * s.urls.len() + s.next
}

impl ConnectRounds {
    /// The search leaves no address out.
    pub open spec fn wf(self) -> bool {
        search_complete(self@)
    }

    /// Starts a search; there is at least one round.
    pub fn start(urls: Vec<String>, max_rounds: u32) -> (r: Self)
        requires
            max_rounds > 0,
        ensures
            r.wf(),
            r@ == search_started(texts(urls@), max_rounds as nat),
    {
        let mut r: ConnectRounds = ConnectRounds {
            stage: ConnectStage::Try,
            urls,
            next: 0,
            failed_rounds: 0,
            max_rounds,
            failed_tries: Ghost(0),
        };
        r.round_start();
        r
    }

    fn round_over(&mut self)
        requires
            old(self)@.failed_rounds < old(self)@.max_rounds,
            old(self)@.failed_tries == (old(self)@.failed_rounds + 1) * old(self)@.urls.len(),
        ensures
            final(self).wf(),
            final(self)@ == search_round_over(old(self)@),
    {
        self.failed_rounds = self.failed_rounds + 1;
        self.next = 0;
        if self.failed_rounds >= self.max_rounds {
            self.stage = ConnectStage::GiveUp;
        } else {
            self.stage = ConnectStage::Pause;
        }
    }

    fn round_start(&mut self)
        requires
            old(self)@.failed_rounds < old(self)@.max_rounds,
            old(self)@.failed_tries == old(self)@.failed_rounds * old(self)@.urls.len(),
        ensures
            final(self).wf(),
            final(self)@ == search_round_start(old(self)@),
    {
        if self.urls.len() == 0 {
            proof {
                assert((self@.failed_rounds + 1) * self@.urls.len() == 0) by (nonlinear_arith)
                    requires
                        self@.urls.len() == 0,
                ;
                assert(self@.failed_rounds * self@.urls.len() == 0) by (nonlinear_arith)
                    requires
                        self@.urls.len() == 0,
                ;
            }
            self.round_over();
        } else {
            self.next = 0;
            self.stage = ConnectStage::Try;
        }
    }

    /// What is to be done next.
    pub fn stage(&self) -> (r: ConnectStage)
        ensures
            r == self@.stage,
    {
        self.stage
    }

    /// The address to try, or the one that answered.
    pub fn url(&self) -> (r: &str)
        requires
            self.wf(),
            self@.stage == ConnectStage::Try || self@.stage == ConnectStage::Connected,
        ensures
            r@ == self@.urls[self@.next as int],
    {
        assert(self@.urls[self@.next as int] == self.urls@[self.next as int]@);
        self.urls[self.next].as_str()
    }

    /// The address did not answer.
    pub fn on_failed(&mut self)
        requires
            old(self).wf(),
        ensures
            final(self).wf(),
            final(self)@ == search_failed(old(self)@),
    {
        if let ConnectStage::Try = self.stage {
            proof {
                let n = self@.urls.len() as int;
                let k = self@.failed_rounds as int;
                assert((k + 1) * n == k * n + n) by (nonlinear_arith);
            }
            self.failed_tries = Ghost(self.failed_tries@ + 1);
            assert(self.next < self.urls.len());
            if self.next + 1 < self.urls.len() {
                self.next = self.next + 1;
            } else {
                self.round_over();
            }
        }
    }

    /// The address answered.
    pub fn on_connected(&mut self)
        requires
            old(self).wf(),
        ensures
            final(self).wf(),
            final(self)@ == search_connected(old(self)@),
    {
        if let ConnectStage::Try = self.stage {
            self.stage = ConnectStage::Connected;
        }
    }

    /// The pause is over.
    pub fn on_paused(&mut self)
        requires
            old(self).wf(),
        ensures
            final(self).wf(),
            final(self)@ == search_paused(old(self)@),
    {
        if let ConnectStage::Pause = self.stage {
            self.round_start();
        }
    }
}

/// A search that is given up has tried every address in every round.
pub proof fn giving_up_means_every_address_was_tried(s: Search)
    requires
        search_complete(s),
        s.stage == ConnectStage::GiveUp,
    ensures
        s.failed_tries == s.max_rounds * s.urls.len(),
{
}

/// The search after what it asks for next was done; `answers` says whether an
/// address answers, by the number of the round and the index of the address.
pub open spec fn search_next(s: Search, answers: spec_fn(nat, nat) -> bool) -> Search {
    match s.stage {
        ConnectStage::Try => if answers(s.failed_rounds, s.next) {
            search_connected(s)
        } else {
            search_failed(s)
        },
        ConnectStage::Pause => search_paused(s),
        ConnectStage::Connected | ConnectStage::GiveUp => s,
    }
}

/// The search after `steps` things that it asked for.
pub open spec fn search_after(
    urls: Seq<Seq<char>>,
    max_rounds: nat,
    answers: spec_fn(nat, nat) -> bool,
    steps: nat,
) -> Search
    decreases steps,
{
    if steps == 0 {
        search_started(urls, max_rounds)
    } else {
        search_next(search_after(urls, max_rounds, answers, (steps - 1) as nat), answers)
    }
}

/// Whether no address answers before the index `next` in the round `round`.
pub open spec fn none_answers_before(
    answers: spec_fn(nat, nat) -> bool,
    count: nat,
    round: nat,
    next: nat,
) -> bool {
    forall|r: nat, k: nat|
        k < count && (r < round || r == round && k < next) ==> !#[trigger] answers(r, k)
}

/// How many steps are left to a search at most.
spec fn search_left(s: Search) -> int {
    let rounds = (s.max_rounds - s.failed_rounds) * (s.urls.len() + 1);
    match s.stage {
        ConnectStage::Try => rounds - 1 - s.next,
        ConnectStage::Pause => rounds,
        ConnectStage::Connected | ConnectStage::GiveUp => 0,
    }
}

proof fn search_keeps_to_its_end(
    urls: Seq<Seq<char>>,
    max_rounds: nat,
    answers: spec_fn(nat, nat) -> bool,
    steps: nat,
)
    requires
        max_rounds > 0,
    ensures
        ({
            let s = search_after(urls, max_rounds, answers, steps);
            let over = s.stage == ConnectStage::Connected || s.stage == ConnectStage::GiveUp;
            &&& search_complete(s)
            &&& s.urls == urls
            &&& s.max_rounds == max_rounds
            &&& none_answers_before(answers, urls.len(), s.failed_rounds, s.next)
            &&& s.stage == ConnectStage::Connected ==> answers(s.failed_rounds, s.next)
            &&& !over ==> 0 < search_left(s) <= max_rounds * (urls.len() + 1) - steps
        }),
    decreases steps,
{
    let n = urls.len() as int;
    if steps == 0 {
        assert(0 * n == 0 && 1 * n == n);
        assert((max_rounds - 1) * (n + 1) == max_rounds * (n + 1) - (n + 1)) by (nonlinear_arith);
        assert(max_rounds * (n + 1) >= n + 1) by (nonlinear_arith)
            requires
                max_rounds > 0,
                n >= 0,
        ;
        assert((max_rounds - 1) * (n + 1) > 0 || max_rounds == 1) by (nonlinear_arith)
            requires
                max_rounds > 0,
                n >= 0,
        ;
    } else {
        search_keeps_to_its_end(urls, max_rounds, answers, (steps - 1) as nat);
        let s = search_after(urls, max_rounds, answers, (steps - 1) as nat);
        let next = search_next(s, answers);
        let k = s.failed_rounds as int;
        let left = max_rounds - k;
        assert((k + 1) * n == k * n + n) by (nonlinear_arith);
        assert((left - 1) * (n + 1) == left * (n + 1) - (n + 1)) by (nonlinear_arith);
        assert(left >= 1 ==> left * (n + 1) >= n + 1) by (nonlinear_arith)
            requires
                n >= 0,
        ;
        assert(left >= 2 ==> (left - 1) * (n + 1) >= n + 1) by (nonlinear_arith)
            requires
                n >= 0,
        ;
        assert(n == 0 ==> k * n == 0 && (k + 1) * n == 0) by (nonlinear_arith);
        assert(none_answers_before(answers, urls.len(), next.failed_rounds, next.next)) by {
            assert forall|r: nat, i: nat|
                i < urls.len() && (r < next.failed_rounds || r == next.failed_rounds && i
                    < next.next) implies !#[trigger] answers(r, i) by {
                if !(r < s.failed_rounds || r == s.failed_rounds && i < s.next) {
                    assert(r == s.failed_rounds && i == s.next);
                }
            }
        }
    }
}

/// A search ends with the first address that answers, going through the
/// addresses in order in every round; it is given up exactly where no address
/// answers in any round.
pub proof fn a_search_takes_the_first_that_answers(
    urls: Seq<Seq<char>>,
    max_rounds: nat,
    answers: spec_fn(nat, nat) -> bool,
    steps: nat,
)
    requires
        max_rounds > 0,
    ensures
        ({
            let s = search_after(urls, max_rounds, answers, steps);
            &&& steps >= max_rounds * (urls.len() + 1) ==> s.stage == ConnectStage::Connected
                || s.stage == ConnectStage::GiveUp
            &&& s.stage == ConnectStage::Connected ==> {
                &&& s.failed_rounds < max_rounds
                &&& s.next < urls.len()
                &&& answers(s.failed_rounds, s.next)
                &&& none_answers_before(answers, urls.len(), s.failed_rounds, s.next)
            }
            &&& s.stage == ConnectStage::GiveUp ==> none_answers_before(
                answers,
                urls.len(),
                max_rounds,
                0,
            )
        }),
{
    search_keeps_to_its_end(urls, max_rounds, answers, steps);
}

} // verus!
