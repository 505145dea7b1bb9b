//! Fan-out and fan-in of many runners: hands out one runner per connection,
//! takes each outcome exactly once, and merges the samples once every
//! connection has reported.

use crate::runner::{BenchmarkRunner, RunResult, RunResultView, RttSample, RunnerView};
use crate::transport::TransportKind;
use vstd::prelude::*;

verus! {

/// How many connections the multi-connection benchmark opens unless told
/// otherwise.
pub const DEFAULT_CONCURRENCY: u32 = 50;

/// What became of a submitted outcome.
#[derive(Debug, Clone, Copy, PartialEq, Eq, Structural)]
pub enum SubmitOutcome {
    /// It was taken.
    Accepted,
    /// Its connection is none of this orchestrator's, or was run with another
    /// transport or iteration count.
    Foreign,
    /// Its connection has reported before.
    Duplicate,
}

/// The samples of all outcomes, one connection after the other.
pub open spec fn combined(results: Seq<RunResultView>) -> Seq<RttSample>
    decreases results.len(),
{
    if results.len() == 0 {
        Seq::empty()
    } else {
        combined(results.drop_last()) + results.last().samples
    }
}

/// How many of the outcomes come from a connection that opened.
pub open spec fn connected_count(results: Seq<RunResultView>) -> nat
    decreases results.len(),
{
    if results.len() == 0 {
        0
    } else {
        connected_count(results.drop_last()) + if results.last().connected {
            1nat
        } else {
            0nat
        }
    }
}

/// An orchestrator as a mathematical value: one slot per connection, filled
/// once the connection has reported.
pub struct OrchestratorView {
    pub kind: TransportKind,
    pub iteration_count: u32,
    pub slots: Seq<Option<RunResultView>>,
}

impl OrchestratorView {
    /// Whether an outcome belongs into slot `i`.
    pub open spec fn fits(self, i: int, result: RunResultView) -> bool {
        &&& result.wf()
        &&& result.connection_id == i
        &&& result.kind == self.kind
        &&& result.iteration_count == self.iteration_count
    }

    /// What holds of every orchestrator.
    pub open spec fn wf(self) -> bool {
        &&& self.slots.len() <= u32::MAX
        &&& forall|i: int|
            0 <= i < self.slots.len() ==> ((#[trigger] self.slots[i]) matches Some(result)
                ==> self.fits(i, result))
    }

    /// Every connection has reported.
    pub open spec fn complete(self) -> bool {
        forall|i: int| 0 <= i < self.slots.len() ==> (#[trigger] self.slots[i]) is Some
    }

    /// The outcomes in connection order, once every connection has reported.
    pub open spec fn results(self) -> Seq<RunResultView>
        recommends
            self.complete(),
    {
        Seq::new(self.slots.len(), |i: int| self.slots[i]->Some_0)
    }

    /// What a submission does: an outcome that fits a free slot fills it,
    /// any other changes nothing.
    pub open spec fn submit(self, result: RunResultView) -> Self {
        if self.outcome_of(result) == SubmitOutcome::Accepted {
            OrchestratorView {
                slots: self.slots.update(result.connection_id as int, Some(result)),
                ..self
            }
        } else {
            self
        }
    }

    /// How a submission is answered.
    pub open spec fn outcome_of(self, result: RunResultView) -> SubmitOutcome {
        if result.connection_id >= self.slots.len() || result.kind != self.kind
            || result.iteration_count != self.iteration_count {
            SubmitOutcome::Foreign
        } else if self.slots[result.connection_id as int] is Some {
            SubmitOutcome::Duplicate
        } else {
            SubmitOutcome::Accepted
        }
    }
}

/// Where every outcome holds exactly `n` samples, the merged collection holds
/// `n` for each connection.
pub proof fn lemma_combined_len_uniform(results: Seq<RunResultView>, n: nat)
    requires
        forall|i: int| 0 <= i < results.len() ==> (#[trigger] results[i]).samples.len() == n,
    ensures
        combined(results).len() == results.len() * n,
    decreases results.len(),
{
    if results.len() > 0 {
        let front = results.drop_last();
        assert forall|i: int| 0 <= i < front.len() implies (#[trigger] front[i]).samples.len()
            == n by {
            assert(front[i] == results[i]);
        }
        lemma_combined_len_uniform(front, n);
        assert(results.last() == results[results.len() - 1]);
        assert((front.len() + 1) * n == front.len() * n + n) by (nonlinear_arith);
    } else {
        assert(results.len() * n == 0) by (nonlinear_arith)
            requires
                results.len() == 0,
        ;
    }
}

/// Where every WebSocket connection ran to its end, the merged collection
/// holds one sample for each iteration of each connection.
pub proof fn lemma_all_succeed_count(results: Seq<RunResultView>, iteration_count: u32)
    requires
        forall|i: int|
            0 <= i < results.len() ==> {
                &&& (#[trigger] results[i]).wf()
                &&& results[i].kind is TlsWebSocket
                &&& results[i].iteration_count == iteration_count
                &&& results[i].failure is None
            },
    ensures
        combined(results).len() == results.len() * iteration_count,
{
    assert forall|i: int| 0 <= i < results.len() implies (#[trigger] results[i]).samples.len()
        == iteration_count as nat by {
        assert(results[i].wf());
    }
    lemma_combined_len_uniform(results, iteration_count as nat);
}

/// Whatever failed, the merged collection holds at most one sample for each
/// iteration of each connection that opened.
pub proof fn lemma_partial_failure_count(results: Seq<RunResultView>, iteration_count: u32)
    requires
        forall|i: int|
            0 <= i < results.len() ==> (#[trigger] results[i]).wf() && results[i].iteration_count
                == iteration_count,
    ensures
        combined(results).len() <= connected_count(results) * iteration_count,
        connected_count(results) <= results.len(),
    decreases results.len(),
{
    if results.len() > 0 {
        let front = results.drop_last();
        let last = results.last();
        assert forall|i: int| 0 <= i < front.len() implies (#[trigger] front[i]).wf()
            && front[i].iteration_count == iteration_count by {
            assert(front[i] == results[i]);
        }
        lemma_partial_failure_count(front, iteration_count);
        assert(last == results[results.len() - 1]);
        assert(last.wf());
        let c = connected_count(front);
        let n = iteration_count as nat;
        if last.connected {
            assert((c + 1) * n == c * n + n) by (nonlinear_arith);
        }
    } else {
        assert(0 * iteration_count == 0);
    }
}

/// Collects the outcomes of a fixed number of concurrent runners.
#[derive(Debug)]
pub struct Orchestrator {
    kind: TransportKind,
    iteration_count: u32,
    slots: Vec<Option<RunResult>>,
}

impl View for Orchestrator {
    type V = OrchestratorView;

    closed spec fn view(&self) -> OrchestratorView {
        OrchestratorView {
            kind: self.kind,
            iteration_count: self.iteration_count,
            slots: Seq::new(
                self.slots@.len(),
                |i: int|
                    match self.slots@[i] {
                        Some(result) => Some(result@),
                        None => None,
                    },
            ),
        }
    }
}

impl Orchestrator {
    #[verifier::type_invariant]
    spec fn inv(self) -> bool {
        self@.wf()
    }

    /// An orchestrator for `concurrency` connections of `iteration_count`
    /// exchanges each, none of which has reported.
    pub fn new(kind: TransportKind, concurrency: u32, iteration_count: u32) -> (orchestrator: Self)
        ensures
            orchestrator@.kind == kind,
            orchestrator@.iteration_count == iteration_count,
            orchestrator@.slots == Seq::new(concurrency as nat, |i: int| None::<RunResultView>),
            orchestrator@.wf(),
    {
        let mut slots: Vec<Option<RunResult>> = Vec::new();
        let mut i: u32 = 0;
        while i < concurrency
            invariant
                i <= concurrency,
                slots@.len() == i,
                forall|j: int| 0 <= j < i ==> (#[trigger] slots@[j]) is None,
            decreases concurrency - i,
        {
            slots.push(None);
            i = i + 1;
        }
        let orchestrator = Orchestrator { kind, iteration_count, slots };
        assert(orchestrator@.slots =~= Seq::new(concurrency as nat, |i: int| None::<RunResultView>));
        orchestrator
    }

    /// How many connections this orchestrator runs.
    pub fn concurrency(&self) -> (concurrency: u32)
        ensures
            concurrency == self@.slots.len(),
    {
        proof {
            use_type_invariant(self);
        }
        self.slots.len() as u32
    }

    /// The runners to start, one per connection, numbered from 0.
    pub fn runners(&self) -> (runners: Vec<BenchmarkRunner>)
        ensures
            runners@.len() == self@.slots.len(),
            forall|i: int|
                0 <= i < runners@.len() ==> (#[trigger] runners@[i])@ == RunnerView::initial(
                    self@.kind,
                    i as u32,
                    self@.iteration_count,
                ),
    {
        proof {
            use_type_invariant(self);
        }
        let count: u32 = self.slots.len() as u32;
        let mut runners: Vec<BenchmarkRunner> = Vec::new();
        let mut i: u32 = 0;
        while i < count
            invariant
                i <= count,
                count == self@.slots.len(),
                runners@.len() == i,
                forall|j: int|
                    0 <= j < i ==> (#[trigger] runners@[j])@ == RunnerView::initial(
                        self@.kind,
                        j as u32,
                        self@.iteration_count,
                    ),
            decreases count - i,
        {
            runners.push(BenchmarkRunner::new(self.kind, i, self.iteration_count));
            i = i + 1;
        }
        runners
    }

    /// Takes the outcome of one runner. An outcome of a connection that is
    /// not this orchestrator's, or that has reported before, is dropped.
    pub fn submit(self, result: RunResult) -> (next: (Orchestrator, SubmitOutcome))
        ensures
            next.0@ == self@.submit(result@),
            next.1 == self@.outcome_of(result@),
            next.0@.wf(),
    {
        proof {
            use_type_invariant(&self);
            use_type_invariant(&result);
        }
        let Orchestrator { kind, iteration_count, slots } = self;
        let mut slots = slots;
        let id: u32 = result.connection_id();
        let foreign = match (result.kind(), kind) {
            (TransportKind::TlsWebSocket, TransportKind::TlsWebSocket) => false,
            (TransportKind::PlainTcp, TransportKind::PlainTcp) => false,
            (TransportKind::Udp, TransportKind::Udp) => false,
            _ => true,
        };
        if id as usize >= slots.len() || foreign || result.iteration_count() != iteration_count {
            let same = Orchestrator { kind, iteration_count, slots };
            assert(same@.slots =~= self@.slots);
            return (same, SubmitOutcome::Foreign);
        }
        if slots[id as usize].is_some() {
            let same = Orchestrator { kind, iteration_count, slots };
            assert(same@.slots =~= self@.slots);
            return (same, SubmitOutcome::Duplicate);
        }
        let ghost taken = result@;
        slots.set(id as usize, Some(result));
        proof {
            let after = self@.submit(taken);
            assert forall|i: int| 0 <= i < after.slots.len() implies ((
            #[trigger] after.slots[i]) matches Some(held) ==> after.fits(i, held)) by {
                if i != id as int {
                    assert(after.slots[i] == self@.slots[i]);
                }
            }
            assert(after.wf());
            assert(Seq::new(
                slots@.len(),
                |i: int|
                    match slots@[i] {
                        Some(held) => Some(held@),
                        None => None,
                    },
            ) =~= after.slots);
        }
        let filled = Orchestrator { kind, iteration_count, slots };
        assert(filled@.slots =~= self@.slots.update(id as int, Some(taken)));
        (filled, SubmitOutcome::Accepted)
    }

    /// Whether every connection has reported.
    pub fn is_complete(&self) -> (complete: bool)
        ensures
            complete == self@.complete(),
    {
        let mut i: usize = 0;
        while i < self.slots.len()
            invariant
                i <= self.slots@.len(),
                forall|j: int| 0 <= j < i ==> (#[trigger] self@.slots[j]) is Some,
            decreases self.slots@.len() - i,
        {
            if self.slots[i].is_none() {
                assert(self@.slots[i as int] is None);
                return false;
            }
            i = i + 1;
        }
        true
    }

    /// The join: once every connection has reported, the samples of all of
    /// them, one connection after the other; before that, the orchestrator
    /// itself.
    pub fn join(self) -> (joined: Result<Vec<RttSample>, Orchestrator>)
        ensures
            match joined {
                Ok(samples) => self@.complete() && samples@ == combined(self@.results()),
                Err(orchestrator) => !self@.complete() && orchestrator@ == self@,
            },
    {
        if !self.is_complete() {
            return Err(self);
        }
        let ghost results = self@.results();
        let mut samples: Vec<RttSample> = Vec::new();
        let mut i: usize = 0;
        assert(results.take(0) =~= Seq::<RunResultView>::empty());
        while i < self.slots.len()
            invariant
                i <= self.slots@.len(),
                self@.complete(),
                results == self@.results(),
                samples@ == combined(results.take(i as int)),
            decreases self.slots@.len() - i,
        {
            assert(self@.slots[i as int] is Some);
            match &self.slots[i] {
                Some(result) => {
                    let taken = result.samples();
                    let mut k: usize = 0;
                    let ghost before = samples@;
                    while k < taken.len()
                        invariant
                            k <= taken@.len(),
                            samples@ == before + taken@.take(k as int),
                        decreases taken@.len() - k,
                    {
                        samples.push(taken[k]);
                        assert(taken@.take(k + 1) =~= taken@.take(k as int).push(taken@[k as int]));
                        k = k + 1;
                    }
                    assert(taken@.take(taken@.len() as int) =~= taken@);
                    proof {
                        let upto = results.take(i + 1);
                        assert(upto.drop_last() =~= results.take(i as int));
                        assert(upto.last() == result@);
                    }
                },
                None => {},
            }
            i = i + 1;
        }
        assert(results.take(results.len() as int) =~= results);
        Ok(samples)
    }
}

} // verus!
