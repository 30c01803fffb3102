//! Choosing the master to which a client connection is forwarded.
//!
//! For each client, the proxy asks the sentinel for the current master. When
//! the sentinel cannot answer, it asks the last known master whether it still
//! is the master, and when it is not, it asks the discovered caches one by one.
//! A `MasterLookup` makes these decisions; its caller does the asking and
//! hands back what came of it.

use vstd::prelude::*;
use crate::addr::CacheAddr;
use crate::redis_tools::{
    ProbeOutcome,
    Search,
    search_result,
    find_master,
    lemma_search_order,
    lemma_search_settled,
};

verus! {

/// How far a lookup has gone.
#[derive(PartialEq, Eq, Structural, Clone, Copy, Debug)]
pub enum Stage {
    /// The sentinel is to be asked.
    AskSentinel,
    /// The sentinel could not answer; the last known master is to be asked.
    CheckKnown,
    /// The last known master is not the master; the discovered caches are
    /// being asked.
    Searching,
    /// The master is known.
    Resolved(CacheAddr),
}

/// What came of the last thing the lookup asked for.
#[derive(PartialEq, Eq, Structural, Clone, Copy, Debug)]
pub enum LookupEvent {
    /// The sentinel named this cache as the master.
    SentinelAnswered(CacheAddr),
    /// The sentinel could not be asked or gave no usable answer.
    SentinelFailed,
    /// The cache that was to be asked answered so.
    Probed(ProbeOutcome),
}

/// What the lookup asks its caller to do next.
#[derive(PartialEq, Eq, Structural, Clone, Copy, Debug)]
pub enum LookupAction {
    /// Ask the sentinel for the current master.
    QuerySentinel,
    /// Ask this cache whether it is the master.
    Probe(CacheAddr),
    /// Forward the client to `master`; `changed` tells whether it differs from
    /// the master known when the lookup began, so that the shared state is to
    /// be updated.
    Proxy { master: CacheAddr, changed: bool },
}

/// The decisions of one lookup of the master, for one client connection.
pub struct MasterLookup {
    known: CacheAddr,
    candidates: Vec<CacheAddr>,
    stage: Stage,
    outcomes: Vec<ProbeOutcome>,
}

/// The content of a `MasterLookup`: the master known when it began, the
/// caches discovered by then, its stage, and the answers of the caches asked
/// so far during the search.
pub struct LookupState {
    pub known: CacheAddr,
    pub candidates: Seq<CacheAddr>,
    pub stage: Stage,
    pub outcomes: Seq<ProbeOutcome>,
}

impl View for MasterLookup {
    type V = LookupState;

    closed spec fn view(&self) -> LookupState {
        LookupState {
            known: self.known,
            candidates: self.candidates@,
            stage: self.stage,
            outcomes: self.outcomes@,
        }
    }
}

/// A lookup that begins with `known` as the last known master and
/// `candidates` as the discovered caches.
pub open spec fn initial_lookup(known: CacheAddr, candidates: Seq<CacheAddr>) -> LookupState {
    LookupState { known, candidates, stage: Stage::AskSentinel, outcomes: Seq::empty() }
}

impl LookupState {
    /// Forward to `master`.
    pub open spec fn proxy_to(self, master: CacheAddr) -> LookupAction {
        LookupAction::Proxy { master, changed: master != self.known }
    }

    /// What the lookup asks for in this state.
    pub open spec fn next_action(self) -> LookupAction {
        match self.stage {
            Stage::AskSentinel => LookupAction::QuerySentinel,
            Stage::CheckKnown => LookupAction::Probe(self.known),
            Stage::Searching => match search_result(self.candidates, self.outcomes) {
                Search::Probe(i) => LookupAction::Probe(self.candidates[i as int]),
                Search::Found(a) => self.proxy_to(a),
                Search::NotFound => self.proxy_to(self.known),
            },
            Stage::Resolved(a) => self.proxy_to(a),
        }
    }

    /// The state after `event`. An event that answers nothing the lookup asked
    /// for changes nothing.
    pub open spec fn handle(self, event: LookupEvent) -> LookupState {
        match self.stage {
            Stage::AskSentinel => match event {
                LookupEvent::SentinelAnswered(a) => LookupState { stage: Stage::Resolved(a), ..self },
                LookupEvent::SentinelFailed => LookupState { stage: Stage::CheckKnown, ..self },
                LookupEvent::Probed(_) => self,
            },
            Stage::CheckKnown => match event {
                LookupEvent::Probed(ProbeOutcome::Master) => LookupState {
                    stage: Stage::Resolved(self.known),
                    ..self
                },
                LookupEvent::Probed(_) => LookupState { stage: Stage::Searching, ..self },
                _ => self,
            },
            Stage::Searching => match event {
                LookupEvent::Probed(o) => if search_result(self.candidates, self.outcomes) is Probe {
                    LookupState { outcomes: self.outcomes.push(o), ..self }
                } else {
                    self
                },
                _ => self,
            },
            Stage::Resolved(_) => self,
        }
    }
}

impl MasterLookup {
    /// Begins a lookup with `known` as the last known master and `candidates`
    /// as the discovered caches.
    pub fn new(known: CacheAddr, candidates: Vec<CacheAddr>) -> (lookup: MasterLookup)
        ensures
            lookup@ == initial_lookup(known, candidates@),
    {
        let lookup = MasterLookup {
            known,
            candidates,
            stage: Stage::AskSentinel,
            outcomes: Vec::new(),
        };
        assert(lookup@.outcomes =~= Seq::<ProbeOutcome>::empty());
        lookup
    }

    /// What the lookup asks for next.
    pub fn next_action(&self) -> (action: LookupAction)
        ensures
            action == self@.next_action(),
    {
        match self.stage {
            Stage::AskSentinel => LookupAction::QuerySentinel,
            Stage::CheckKnown => LookupAction::Probe(self.known),
            Stage::Searching => match find_master(&self.candidates, &self.outcomes) {
                Search::Probe(i) => {
                    proof {
                        assert(self.candidates@.len() == self.candidates.len());
                        lemma_search_order(self.candidates@, self.outcomes@);
                    }
                    LookupAction::Probe(self.candidates[i])
                },
                Search::Found(a) => LookupAction::Proxy { master: a, changed: a != self.known },
                Search::NotFound => LookupAction::Proxy { master: self.known, changed: false },
            },
            Stage::Resolved(a) => LookupAction::Proxy { master: a, changed: a != self.known },
        }
    }

    /// Takes in what came of the last thing asked for.
    pub fn handle(&mut self, event: LookupEvent)
        ensures
            final(self)@ == old(self)@.handle(event),
    {
        match self.stage {
            Stage::AskSentinel => match event {
                LookupEvent::SentinelAnswered(a) => {
                    self.stage = Stage::Resolved(a);
                },
                LookupEvent::SentinelFailed => {
                    self.stage = Stage::CheckKnown;
                },
                LookupEvent::Probed(_) => {},
            },
            Stage::CheckKnown => match event {
                LookupEvent::Probed(ProbeOutcome::Master) => {
                    self.stage = Stage::Resolved(self.known);
                },
                LookupEvent::Probed(_) => {
                    self.stage = Stage::Searching;
                },
                _ => {},
            },
            Stage::Searching => match event {
                LookupEvent::Probed(o) => {
                    if let Search::Probe(_) = find_master(&self.candidates, &self.outcomes) {
                        self.outcomes.push(o);
                    }
                },
                _ => {},
            },
            Stage::Resolved(_) => {},
        }
    }
}

/// What the sentinel and the caches would answer during one lookup: the
/// sentinel's answer (`None` when it cannot be asked), the answer of the last
/// known master, and `answers[i]`, the answer of the `i`-th discovered cache.
pub struct Answers {
    pub sentinel: Option<CacheAddr>,
    pub known: ProbeOutcome,
    pub answers: Seq<ProbeOutcome>,
}

/// What comes of the thing the lookup asks for in state `s`, when the
/// sentinel and the caches answer as `world` says.
pub open spec fn reply(s: LookupState, world: Answers) -> LookupEvent {
    match s.stage {
        Stage::AskSentinel => match world.sentinel {
            Some(a) => LookupEvent::SentinelAnswered(a),
            None => LookupEvent::SentinelFailed,
        },
        Stage::CheckKnown => LookupEvent::Probed(world.known),
        _ => LookupEvent::Probed(world.answers[s.outcomes.len() as int]),
    }
}

/// The action a lookup ends on when its caller answers each request from
/// `world`, for at most `fuel` requests.
pub open spec fn run(s: LookupState, world: Answers, fuel: nat) -> LookupAction
    decreases fuel,
{
    if fuel == 0 || s.next_action() is Proxy {
        s.next_action()
    } else {
        run(s.handle(reply(s, world)), world, (fuel - 1) as nat)
    }
}

/// The master a client is forwarded to: the one the sentinel names; when it
/// names none, the last known master if it still answers master; otherwise
/// the first discovered cache that answers master; and when none does, the
/// last known master.
pub open spec fn chosen_master(
    known: CacheAddr,
    candidates: Seq<CacheAddr>,
    world: Answers,
) -> CacheAddr {
    match world.sentinel {
        Some(a) => a,
        None => if world.known == ProbeOutcome::Master {
            known
        } else {
            match search_result(candidates, world.answers) {
                Search::Found(a) => a,
                _ => known,
            }
        },
    }
}

/// A lookup forwards the client to the chosen master, after at most two
/// requests more than there are discovered caches, and reports it as
/// changed exactly when it is not the master known when the lookup began.
pub proof fn lemma_lookup_forwards_to_chosen_master(
    known: CacheAddr,
    candidates: Seq<CacheAddr>,
    world: Answers,
)
    requires
        candidates.len() <= usize::MAX,
        world.answers.len() == candidates.len(),
    ensures
        run(initial_lookup(known, candidates), world, candidates.len() + 2) == (LookupAction::Proxy {
            master: chosen_master(known, candidates, world),
            changed: chosen_master(known, candidates, world) != known,
        }),
{
    let s0 = initial_lookup(known, candidates);
    let n = candidates.len();
    let s1 = s0.handle(reply(s0, world));
    assert(run(s0, world, n + 2) == run(s1, world, n + 1));
    if world.sentinel is None {
        let s2 = s1.handle(reply(s1, world));
        assert(run(s1, world, n + 1) == run(s2, world, n));
        if world.known != ProbeOutcome::Master {
            assert(s2.outcomes =~= world.answers.take(0));
            lemma_search_forwards(s2, world, n);
        }
    }
}

/// The chosen master is the sentinel's answer, or the last known master, or
/// a discovered cache that answered master, all caches before it in the list
/// having answered otherwise.
pub proof fn lemma_chosen_master_is_vouched_for(
    known: CacheAddr,
    candidates: Seq<CacheAddr>,
    world: Answers,
)
    requires
        candidates.len() <= usize::MAX,
    ensures
        ({
            let m = chosen_master(known, candidates, world);
            ||| world.sentinel == Some(m)
            ||| m == known
            ||| exists|i: int|
                {
                    &&& 0 <= i < candidates.len()
                    &&& i < world.answers.len()
                    &&& candidates[i] == m
                    &&& world.answers[i] == ProbeOutcome::Master
                    &&& forall|j: int| 0 <= j < i ==> world.answers[j] != ProbeOutcome::Master
                }
        }),
{
    lemma_search_order(candidates, world.answers);
}

/// From any point of the search at which the answers so far are the first
/// answers of `world`, the lookup forwards to the first cache that answers
/// master, or to the last known master when none does.
proof fn lemma_search_forwards(s: LookupState, world: Answers, fuel: nat)
    requires
        s.stage == Stage::Searching,
        s.candidates.len() <= usize::MAX,
        world.answers.len() == s.candidates.len(),
        s.outcomes.len() <= s.candidates.len(),
        s.outcomes == world.answers.take(s.outcomes.len() as int),
        fuel >= s.candidates.len() - s.outcomes.len(),
    ensures
        run(s, world, fuel) == s.proxy_to(
            match search_result(s.candidates, world.answers) {
                Search::Found(a) => a,
                _ => s.known,
            },
        ),
    decreases s.candidates.len() - s.outcomes.len(),
{
    let k = s.outcomes.len();
    lemma_search_order(s.candidates, s.outcomes);
    match search_result(s.candidates, s.outcomes) {
        Search::Probe(i) => {
            let next = s.handle(reply(s, world));
            assert(next.outcomes =~= world.answers.take(k + 1 as int));
            assert(run(s, world, fuel) == run(next, world, (fuel - 1) as nat));
            lemma_search_forwards(next, world, (fuel - 1) as nat);
        },
        _ => {
            lemma_search_settled(s.candidates, s.outcomes, world.answers.skip(k as int));
            assert(s.outcomes + world.answers.skip(k as int) =~= world.answers);
        },
    }
}


/// What comes of `action` when the sentinel answers `sentinel` (`None` when
/// it cannot be asked) and each cache `c` answers `probe(c)` when asked.
pub open spec fn reply_to(
    action: LookupAction,
    sentinel: Option<CacheAddr>,
    probe: spec_fn(CacheAddr) -> ProbeOutcome,
) -> LookupEvent {
    match action {
        LookupAction::QuerySentinel => match sentinel {
            Some(a) => LookupEvent::SentinelAnswered(a),
            None => LookupEvent::SentinelFailed,
        },
        LookupAction::Probe(c) => LookupEvent::Probed(probe(c)),
        LookupAction::Proxy { .. } => LookupEvent::SentinelFailed,
    }
}

/// The action a lookup ends on when its caller does what each action asks,
/// the sentinel and the caches answering as `sentinel` and `probe` say, for
/// at most `fuel` requests.
pub open spec fn run_against(
    s: LookupState,
    sentinel: Option<CacheAddr>,
    probe: spec_fn(CacheAddr) -> ProbeOutcome,
    fuel: nat,
) -> LookupAction
    decreases fuel,
{
    if fuel == 0 || s.next_action() is Proxy {
        s.next_action()
    } else {
        run_against(
            s.handle(reply_to(s.next_action(), sentinel, probe)),
            sentinel,
            probe,
            (fuel - 1) as nat,
        )
    }
}

/// The answers of `candidates`, in order, when each cache `c` answers
/// `probe(c)`.
pub open spec fn answers_of(
    candidates: Seq<CacheAddr>,
    probe: spec_fn(CacheAddr) -> ProbeOutcome,
) -> Seq<ProbeOutcome> {
    Seq::new(candidates.len(), |i: int| probe(candidates[i]))
}

/// Whatever the sentinel and each cache answer, a lookup whose requests are
/// answered by the caches it names forwards the client, within two requests
/// more than there are discovered caches, to:
/// the master the sentinel names, when it answers; else the last known master,
/// when it answers master; else the first discovered cache that answers
/// master; else the last known master. It reports the master as changed
/// exactly when it is not the last known master.
pub proof fn lemma_lookup_follows_answers(
    known: CacheAddr,
    candidates: Seq<CacheAddr>,
    sentinel: Option<CacheAddr>,
    probe: spec_fn(CacheAddr) -> ProbeOutcome,
)
    requires
        candidates.len() <= usize::MAX,
    ensures
        ({
            let r = run_against(
                initial_lookup(known, candidates),
                sentinel,
                probe,
                candidates.len() + 2,
            );
            &&& r is Proxy
            &&& r->changed == (r->master != known)
            &&& (sentinel matches Some(a) ==> r->master == a)
            &&& (sentinel is None && probe(known) == ProbeOutcome::Master ==> r->master == known)
            &&& (sentinel is None && probe(known) != ProbeOutcome::Master ==> {
                ||| exists|i: int|
                    {
                        &&& 0 <= i < candidates.len()
                        &&& probe(candidates[i]) == ProbeOutcome::Master
                        &&& r->master == candidates[i]
                        &&& forall|j: int| 0 <= j < i ==> probe(candidates[j]) != ProbeOutcome::Master
                    }
                ||| {
                    &&& forall|i: int|
                        0 <= i < candidates.len() ==> probe(#[trigger] candidates[i])
                            != ProbeOutcome::Master
                    &&& r->master == known
                }
            })
        }),
{
    let n = candidates.len();
    let s0 = initial_lookup(known, candidates);
    let s1 = s0.handle(reply_to(s0.next_action(), sentinel, probe));
    assert(run_against(s0, sentinel, probe, n + 2) == run_against(s1, sentinel, probe, n + 1));
    if sentinel is None {
        let s2 = s1.handle(reply_to(s1.next_action(), sentinel, probe));
        assert(run_against(s1, sentinel, probe, n + 1) == run_against(s2, sentinel, probe, n));
        if probe(known) != ProbeOutcome::Master {
            let full = answers_of(candidates, probe);
            lemma_search_follows_answers(s2, sentinel, probe, n);
            lemma_search_order(candidates, full);
            match search_result(candidates, full) {
                Search::Found(a) => {
                    let i = choose|i: int|
                        {
                            &&& 0 <= i < candidates.len()
                            &&& i < full.len()
                            &&& full[i] == ProbeOutcome::Master
                            &&& candidates[i] == a
                            &&& forall|j: int| 0 <= j < i ==> full[j] != ProbeOutcome::Master
                        };
                    assert(full[i] == probe(candidates[i]));
                    assert forall|j: int| 0 <= j < i implies probe(candidates[j])
                        != ProbeOutcome::Master by {
                        assert(full[j] == probe(candidates[j]));
                    }
                    assert(probe(candidates[i]) == ProbeOutcome::Master);
                },
                _ => {
                    assert forall|i: int| 0 <= i < candidates.len() implies probe(
                        #[trigger] candidates[i],
                    ) != ProbeOutcome::Master by {
                        assert(full[i] == probe(candidates[i]));
                    }
                },
            }
        }
    }
}

/// From any point of the search at which each answer so far is the answer of
/// the cache at the same place among the candidates, the lookup forwards to
/// the first candidate that answers master, or to the last known master.
proof fn lemma_search_follows_answers(
    s: LookupState,
    sentinel: Option<CacheAddr>,
    probe: spec_fn(CacheAddr) -> ProbeOutcome,
    fuel: nat,
)
    requires
        s.stage == Stage::Searching,
        s.candidates.len() <= usize::MAX,
        s.outcomes.len() <= s.candidates.len(),
        forall|j: int| 0 <= j < s.outcomes.len() ==> s.outcomes[j] == probe(s.candidates[j]),
        fuel >= s.candidates.len() - s.outcomes.len(),
    ensures
        run_against(s, sentinel, probe, fuel) == s.proxy_to(
            match search_result(s.candidates, answers_of(s.candidates, probe)) {
                Search::Found(a) => a,
                _ => s.known,
            },
        ),
    decreases s.candidates.len() - s.outcomes.len(),
{
    let k = s.outcomes.len();
    let full = answers_of(s.candidates, probe);
    lemma_search_order(s.candidates, s.outcomes);
    assert(s.outcomes =~= full.take(k as int));
    match search_result(s.candidates, s.outcomes) {
        Search::Probe(i) => {
            let next = s.handle(reply_to(s.next_action(), sentinel, probe));
            assert(next.outcomes =~= s.outcomes.push(probe(s.candidates[k as int])));
            assert(run_against(s, sentinel, probe, fuel) == run_against(
                next,
                sentinel,
                probe,
                (fuel - 1) as nat,
            ));
            lemma_search_follows_answers(next, sentinel, probe, (fuel - 1) as nat);
        },
        _ => {
            lemma_search_settled(s.candidates, s.outcomes, full.skip(k as int));
            assert(s.outcomes + full.skip(k as int) =~= full);
        },
    }
}

} // verus!
