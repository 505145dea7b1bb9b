//! One sequential ping-pong session as a state machine. The driver performs
//! the I/O and reports each outcome as an event; the runner decides what the
//! outcome means and what to do next.

use crate::transport::{
    handshake_accepted, handshake_accepts, is_ping_payload, yields_sample, TransportKind,
};
use crate::websocket::{decode, WebSocketFrame};
use vstd::prelude::*;

verus! {

/// One measured round trip.
#[derive(Debug, Clone, Copy, PartialEq, Eq, Structural)]
pub struct RttSample {
    /// The round-trip time in milliseconds.
    pub value_ms: u64,
    /// The iteration of its connection's run that it was taken in, from 0.
    pub sequence_index: u32,
    /// The connection it was taken on.
    pub connection_id: u32,
}

/// The stage at which a run broke off.
#[derive(Debug, Clone, Copy, PartialEq, Eq, Structural)]
pub enum FailureKind {
    /// The transport could not be established.
    Connection,
    /// The server rejected the WebSocket upgrade.
    Handshake,
    /// A send or receive failed on an open connection.
    Io,
}

/// Where a runner stands.
#[derive(Debug, Clone, Copy, PartialEq, Eq, Structural)]
pub enum RunnerState {
    Connecting,
    Running,
    Finished,
    Failed(FailureKind),
}

/// What the driver reports to the runner.
#[derive(Debug, Clone)]
pub enum RunnerEvent {
    /// The transport is open and any handshake is done.
    Connected,
    /// The transport is open and the server sent this reply to the upgrade
    /// request.
    HandshakeResponse(Vec<u8>),
    /// The pending step failed.
    Failed(FailureKind),
    /// The response to the last ping arrived after `elapsed_ms`.
    Response { elapsed_ms: u64, data: Vec<u8> },
}

/// An event as a mathematical value.
pub enum EventView {
    Connected,
    HandshakeResponse(Seq<u8>),
    Failed(FailureKind),
    Response { elapsed_ms: u64, data: Seq<u8> },
}

impl View for RunnerEvent {
    type V = EventView;

    open spec fn view(&self) -> EventView {
        match *self {
            RunnerEvent::Connected => EventView::Connected,
            RunnerEvent::HandshakeResponse(reply) => EventView::HandshakeResponse(reply@),
            RunnerEvent::Failed(kind) => EventView::Failed(kind),
            RunnerEvent::Response { elapsed_ms, data } => EventView::Response {
                elapsed_ms,
                data: data@,
            },
        }
    }
}

/// What the driver has to do next.
#[derive(Debug, Clone)]
pub enum RunnerAction {
    /// Open the transport.
    Connect,
    /// Start the clock, send these bytes and wait for one response.
    Send(Vec<u8>),
    /// Nothing: the run is over.
    Stop,
}

/// A runner as a mathematical value.
pub struct RunnerView {
    pub kind: TransportKind,
    pub connection_id: u32,
    pub iteration_count: u32,
    pub state: RunnerState,
    /// Whether the transport was ever open.
    pub connected: bool,
    /// How many exchanges got their response.
    pub completed: nat,
    pub samples: Seq<RttSample>,
    /// How many WebSocket responses did not decode as a frame.
    pub parse_failures: nat,
}

/// The samples of one connection in the order of their iterations: each
/// carries the connection's id and a higher index than the one before, all
/// below `bound`.
pub open spec fn samples_ordered(samples: Seq<RttSample>, connection_id: u32, bound: nat) -> bool {
    &&& forall|i: int|
        0 <= i < samples.len() ==> (#[trigger] samples[i]).connection_id == connection_id
            && samples[i].sequence_index < bound
    &&& forall|i: int, j: int|
        0 <= i < j < samples.len() ==> (#[trigger] samples[i]).sequence_index < (
        #[trigger] samples[j]).sequence_index
}

impl RunnerView {
    /// A runner that has not connected yet.
    pub open spec fn initial(kind: TransportKind, connection_id: u32, iteration_count: u32) -> Self {
        RunnerView {
            kind,
            connection_id,
            iteration_count,
            state: RunnerState::Connecting,
            connected: false,
            completed: 0,
            samples: Seq::empty(),
            parse_failures: 0,
        }
    }

    /// The run is over.
    pub open spec fn done(self) -> bool {
        self.state is Finished || self.state is Failed
    }

    /// What holds of every runner.
    pub open spec fn wf(self) -> bool {
        &&& self.completed <= self.iteration_count
        &&& self.samples.len() <= self.completed
        &&& self.parse_failures <= self.completed
        &&& samples_ordered(self.samples, self.connection_id, self.completed)
        &&& self.state is Connecting ==> !self.connected
        &&& !self.connected ==> self.completed == 0
        &&& self.state is Running ==> self.connected && self.completed < self.iteration_count
        &&& self.state is Finished ==> self.connected && self.completed == self.iteration_count
        &&& self.kind is TlsWebSocket ==> self.samples.len() == self.completed
    }

    /// The state after the transport opened: running, or finished at once
    /// where no iteration is asked for.
    pub open spec fn opened(self) -> Self {
        RunnerView {
            state: if self.iteration_count == 0 {
                RunnerState::Finished
            } else {
                RunnerState::Running
            },
            connected: true,
            ..self
        }
    }

    /// The state after a failure of `kind`: the samples taken so far stay.
    pub open spec fn failed(self, kind: FailureKind) -> Self {
        RunnerView { state: RunnerState::Failed(kind), ..self }
    }

    /// The state after one response. The exchange is complete whatever the
    /// response holds; it gives a sample where the transport counts it, and
    /// over WebSocket a response that is no frame is counted as such.
    pub open spec fn responded(self, elapsed_ms: u64, data: Seq<u8>) -> Self {
        RunnerView {
            state: if self.completed + 1 == self.iteration_count {
                RunnerState::Finished
            } else {
                RunnerState::Running
            },
            completed: self.completed + 1,
            samples: if yields_sample(self.kind, data) {
                self.samples.push(
                    RttSample {
                        value_ms: elapsed_ms,
                        sequence_index: self.completed as u32,
                        connection_id: self.connection_id,
                    },
                )
            } else {
                self.samples
            },
            parse_failures: if self.kind is TlsWebSocket && decode(data) is Err {
                self.parse_failures + 1
            } else {
                self.parse_failures
            },
            ..self
        }
    }

    /// The transition: what an event does in each state. An event that the
    /// state does not wait for changes nothing.
    pub open spec fn step(self, event: EventView) -> Self {
        match (self.state, event) {
            (RunnerState::Connecting, EventView::Connected) => self.opened(),
            (RunnerState::Connecting, EventView::HandshakeResponse(reply)) => {
                if handshake_accepts(reply) {
                    self.opened()
                } else {
                    self.failed(FailureKind::Handshake)
                }
            },
            (RunnerState::Connecting, EventView::Failed(kind)) => self.failed(kind),
            (RunnerState::Running, EventView::Failed(kind)) => self.failed(kind),
            (RunnerState::Running, EventView::Response { elapsed_ms, data }) => self.responded(
                elapsed_ms,
                data,
            ),
            _ => self,
        }
    }

    /// Whether `action` is what the driver has to do in this state.
    pub open spec fn expects(self, action: RunnerAction) -> bool {
        match self.state {
            RunnerState::Connecting => action is Connect,
            RunnerState::Running => action matches RunnerAction::Send(payload) && is_ping_payload(
                self.kind,
                payload@,
            ),
            _ => action is Stop,
        }
    }
}

/// The outcome of one runner as a mathematical value.
pub struct RunResultView {
    pub kind: TransportKind,
    pub connection_id: u32,
    pub iteration_count: u32,
    /// Whether the transport was ever open.
    pub connected: bool,
    /// Why the run broke off, if it did.
    pub failure: Option<FailureKind>,
    pub samples: Seq<RttSample>,
}

impl RunResultView {
    /// What holds of every outcome: at most one sample per iteration, in the
    /// order of the iterations; none where the transport never opened, which
    /// is a failure; and over WebSocket one per iteration where nothing
    /// failed.
    pub open spec fn wf(self) -> bool {
        &&& self.samples.len() <= self.iteration_count
        &&& samples_ordered(self.samples, self.connection_id, self.iteration_count as nat)
        &&& !self.connected ==> self.samples.len() == 0 && self.failure is Some
        &&& self.failure is None && self.kind is TlsWebSocket ==> self.samples.len()
            == self.iteration_count
    }
}

impl RunnerView {
    /// The outcome of a runner whose run is over.
    pub open spec fn result(self) -> RunResultView
        recommends
            self.done(),
    {
        RunResultView {
            kind: self.kind,
            connection_id: self.connection_id,
            iteration_count: self.iteration_count,
            connected: self.connected,
            failure: match self.state {
                RunnerState::Failed(kind) => Some(kind),
                _ => None,
            },
            samples: self.samples,
        }
    }
}

/// One sequential ping-pong session over one connection.
#[derive(Debug)]
pub struct BenchmarkRunner {
    kind: TransportKind,
    connection_id: u32,
    iteration_count: u32,
    state: RunnerState,
    connected: bool,
    completed: u32,
    samples: Vec<RttSample>,
    parse_failures: u32,
}

impl View for BenchmarkRunner {
    type V = RunnerView;

    closed spec fn view(&self) -> RunnerView {
        RunnerView {
            kind: self.kind,
            connection_id: self.connection_id,
            iteration_count: self.iteration_count,
            state: self.state,
            connected: self.connected,
            completed: self.completed as nat,
            samples: self.samples@,
            parse_failures: self.parse_failures as nat,
        }
    }
}

impl BenchmarkRunner {
    #[verifier::type_invariant]
    spec fn inv(self) -> bool {
        self@.wf()
    }

    /// A runner for `iteration_count` exchanges on connection
    /// `connection_id`, not connected yet.
    pub fn new(kind: TransportKind, connection_id: u32, iteration_count: u32) -> (runner: Self)
        ensures
            runner@ == RunnerView::initial(kind, connection_id, iteration_count),
            runner@.wf(),
    {
        BenchmarkRunner {
            kind,
            connection_id,
            iteration_count,
            state: RunnerState::Connecting,
            connected: false,
            completed: 0,
            samples: Vec::new(),
            parse_failures: 0,
        }
    }

    pub fn kind(&self) -> (kind: TransportKind)
        ensures
            kind == self@.kind,
    {
        self.kind
    }

    pub fn connection_id(&self) -> (id: u32)
        ensures
            id == self@.connection_id,
    {
        self.connection_id
    }

    pub fn iteration_count(&self) -> (count: u32)
        ensures
            count == self@.iteration_count,
    {
        self.iteration_count
    }

    pub fn state(&self) -> (state: RunnerState)
        ensures
            state == self@.state,
    {
        self.state
    }

    /// Whether the run is over.
    pub fn is_done(&self) -> (done: bool)
        ensures
            done == self@.done(),
    {
        match self.state {
            RunnerState::Finished => true,
            RunnerState::Failed(_) => true,
            _ => false,
        }
    }

    /// How many exchanges got their response.
    pub fn completed(&self) -> (completed: u32)
        ensures
            completed == self@.completed,
            self@.wf(),
    {
        proof {
            use_type_invariant(self);
        }
        self.completed
    }

    /// The samples taken so far.
    pub fn samples(&self) -> (samples: &Vec<RttSample>)
        ensures
            samples@ == self@.samples,
            self@.wf(),
    {
        proof {
            use_type_invariant(self);
        }
        &self.samples
    }

    /// How many WebSocket responses did not decode as a frame.
    pub fn parse_failures(&self) -> (count: u32)
        ensures
            count == self@.parse_failures,
    {
        self.parse_failures
    }

    /// What the driver has to do in the present state. Over WebSocket each
    /// call for a running runner builds a frame with a fresh masking key.
    pub fn next_action(&self) -> (action: RunnerAction)
        ensures
            self@.expects(action),
    {
        match self.state {
            RunnerState::Connecting => RunnerAction::Connect,
            RunnerState::Running => RunnerAction::Send(self.kind.ping_payload()),
            _ => RunnerAction::Stop,
        }
    }

    /// Takes one event: returns the runner in its next state and what the
    /// driver has to do there.
    pub fn handle(self, event: RunnerEvent) -> (next: (BenchmarkRunner, RunnerAction))
        ensures
            next.0@ == self@.step(event@),
            next.0@.wf(),
            next.0@.expects(next.1),
    {
        proof {
            use_type_invariant(&self);
            lemma_step_keeps_wf(self@, event@);
        }
        let BenchmarkRunner {
            kind,
            connection_id,
            iteration_count,
            state,
            connected,
            completed,
            samples,
            parse_failures,
        } = self;
        let mut samples = samples;
        let mut state = state;
        let mut connected = connected;
        let mut completed = completed;
        let mut parse_failures = parse_failures;
        match state {
            RunnerState::Connecting => match event {
                RunnerEvent::Connected => {
                    connected = true;
                    state = Self::state_at(0, iteration_count);
                },
                RunnerEvent::HandshakeResponse(reply) => {
                    if handshake_accepted(reply.as_slice()) {
                        connected = true;
                        state = Self::state_at(0, iteration_count);
                    } else {
                        state = RunnerState::Failed(FailureKind::Handshake);
                    }
                },
                RunnerEvent::Failed(failure) => {
                    state = RunnerState::Failed(failure);
                },
                RunnerEvent::Response { .. } => {},
            },
            RunnerState::Running => match event {
                RunnerEvent::Failed(failure) => {
                    state = RunnerState::Failed(failure);
                },
                RunnerEvent::Response { elapsed_ms, data } => {
                    if kind.counts_response(data.as_slice()) {
                        samples.push(
                            RttSample { value_ms: elapsed_ms, sequence_index: completed, connection_id },
                        );
                    }
                    match kind {
                        TransportKind::TlsWebSocket => {
                            if WebSocketFrame::parse_frame(data.as_slice()).is_err() {
                                parse_failures = parse_failures + 1;
                            }
                        },
                        _ => {},
                    }
                    completed = completed + 1;
                    state = Self::state_at(completed, iteration_count);
                },
                _ => {},
            },
            _ => {},
        }
        let runner = BenchmarkRunner {
            kind,
            connection_id,
            iteration_count,
            state,
            connected,
            completed,
            samples,
            parse_failures,
        };
        assert(runner@ == self@.step(event@));
        let action = runner.next_action();
        (runner, action)
    }

    /// Ends the run: the outcome of a runner whose run is over, or the
    /// runner itself where it is not.
    pub fn finish(self) -> (outcome: Result<RunResult, BenchmarkRunner>)
        ensures
            match outcome {
                Ok(result) => self@.done() && result@ == self@.result() && result@.wf(),
                Err(runner) => !self@.done() && runner@ == self@,
            },
    {
        proof {
            use_type_invariant(&self);
        }
        let failure = match self.state {
            RunnerState::Finished => None,
            RunnerState::Failed(kind) => Some(kind),
            _ => {
                return Err(self);
            },
        };
        Ok(
            RunResult {
                kind: self.kind,
                connection_id: self.connection_id,
                iteration_count: self.iteration_count,
                connected: self.connected,
                failure,
                samples: self.samples,
            },
        )
    }

    /// Running while iterations are left, finished once none is.
    fn state_at(completed: u32, iteration_count: u32) -> (state: RunnerState)
        ensures
            state == if completed == iteration_count {
                RunnerState::Finished
            } else {
                RunnerState::Running
            },
    {
        if completed == iteration_count {
            RunnerState::Finished
        } else {
            RunnerState::Running
        }
    }
}

/// The outcome of one runner: the samples it took, and why it broke off if
/// it did.
#[derive(Debug)]
pub struct RunResult {
    kind: TransportKind,
    connection_id: u32,
    iteration_count: u32,
    connected: bool,
    failure: Option<FailureKind>,
    samples: Vec<RttSample>,
}

impl View for RunResult {
    type V = RunResultView;

    closed spec fn view(&self) -> RunResultView {
        RunResultView {
            kind: self.kind,
            connection_id: self.connection_id,
            iteration_count: self.iteration_count,
            connected: self.connected,
            failure: self.failure,
            samples: self.samples@,
        }
    }
}

impl RunResult {
    #[verifier::type_invariant]
    pub(crate) open spec fn inv(self) -> bool {
        self@.wf()
    }

    pub fn kind(&self) -> (kind: TransportKind)
        ensures
            kind == self@.kind,
    {
        self.kind
    }

    pub fn connection_id(&self) -> (id: u32)
        ensures
            id == self@.connection_id,
    {
        self.connection_id
    }

    pub fn iteration_count(&self) -> (count: u32)
        ensures
            count == self@.iteration_count,
    {
        self.iteration_count
    }

    /// Whether the transport never opened. Such an outcome has no samples.
    pub fn connection_failed(&self) -> (failed: bool)
        ensures
            failed == !self@.connected,
            failed ==> self@.samples.len() == 0,
    {
        proof {
            use_type_invariant(self);
        }
        !self.connected
    }

    /// Why the run broke off, or `None` where it ran to its end.
    pub fn failure(&self) -> (failure: Option<FailureKind>)
        ensures
            failure == self@.failure,
    {
        self.failure
    }

    /// The samples, in the order of their iterations.
    pub fn samples(&self) -> (samples: &Vec<RttSample>)
        ensures
            samples@ == self@.samples,
            self@.wf(),
    {
        proof {
            use_type_invariant(self);
        }
        &self.samples
    }

    /// The outcome as a single connection reports it: any failure is fatal,
    /// and only a run that reached its end gives its samples.
    pub fn into_samples(self) -> (samples: Result<Vec<RttSample>, FailureKind>)
        ensures
            match samples {
                Ok(taken) => self@.failure is None && taken@ == self@.samples,
                Err(kind) => self@.failure == Some(kind),
            },
    {
        match self.failure {
            Some(kind) => Err(kind),
            None => Ok(self.samples),
        }
    }

    /// The outcome as one of many connections reports it: the samples that
    /// were taken, whether or not the run broke off.
    pub fn into_partial_samples(self) -> (samples: Vec<RttSample>)
        ensures
            samples@ == self@.samples,
    {
        self.samples
    }
}

/// The round-trip times of the samples, in their order.
pub open spec fn values_of(samples: Seq<RttSample>) -> Seq<u64> {
    Seq::new(samples.len(), |i: int| samples[i].value_ms)
}

/// The round-trip times of the samples, in their order.
pub fn sample_values(samples: &Vec<RttSample>) -> (values: Vec<u64>)
    ensures
        values@ == values_of(samples@),
{
    let mut values: Vec<u64> = Vec::with_capacity(samples.len());
    let mut i: usize = 0;
    while i < samples.len()
        invariant
            i <= samples@.len(),
            values@.len() == i,
            forall|j: int| 0 <= j < i ==> values@[j] == (#[trigger] samples@[j]).value_ms,
        decreases samples@.len() - i,
    {
        values.push(samples[i].value_ms);
        i = i + 1;
    }
    assert(values@ =~= values_of(samples@));
    values
}

/// Once a run is over, no event changes the runner.
pub proof fn lemma_done_is_final(runner: RunnerView, event: EventView)
    requires
        runner.done(),
    ensures
        runner.step(event) == runner,
{
}

/// No transition loses a sample: what was taken stays, in place, and at most
/// one sample is added.
pub proof fn lemma_samples_are_kept(runner: RunnerView, event: EventView)
    ensures
        runner.samples.len() <= runner.step(event).samples.len() <= runner.samples.len() + 1,
        runner.step(event).samples.take(runner.samples.len() as int) == runner.samples,
        event is Failed ==> runner.step(event).samples == runner.samples,
{
    let next = runner.step(event);
    assert(next.samples.take(runner.samples.len() as int) =~= runner.samples);
}

/// A failure while connecting leaves no sample, and the outcome says that the
/// transport never opened.
pub proof fn lemma_connect_failure_is_empty(
    kind: TransportKind,
    connection_id: u32,
    iteration_count: u32,
    failure: FailureKind,
)
    ensures
        ({
            let runner = RunnerView::initial(kind, connection_id, iteration_count).step(
                EventView::Failed(failure),
            );
            &&& runner.done()
            &&& runner.result().wf()
            &&& !runner.result().connected
            &&& runner.result().failure == Some(failure)
            &&& runner.result().samples.len() == 0
        }),
{
}

/// Every transition keeps a runner well-formed: no more samples than
/// completed exchanges, no more of those than iterations asked for, and the
/// samples in the order of their iterations.
pub proof fn lemma_step_keeps_wf(runner: RunnerView, event: EventView)
    requires
        runner.wf(),
    ensures
        runner.step(event).wf(),
{
    let next = runner.step(event);
    if runner.state is Running && event is Response {
        let before = runner.samples;
        assert forall|i: int, j: int| 0 <= i < j < next.samples.len() implies (
        #[trigger] next.samples[i]).sequence_index < (#[trigger] next.samples[j]).sequence_index by {
            if j < before.len() {
                assert(before[i].sequence_index < before[j].sequence_index);
            } else {
                assert(before[i].sequence_index < runner.completed);
            }
        }
    }
}

/// The runner after a sequence of events, taken one after the other.
pub open spec fn replay(runner: RunnerView, events: Seq<EventView>) -> RunnerView
    decreases events.len(),
{
    if events.len() == 0 {
        runner
    } else {
        replay(runner, events.drop_last()).step(events.last())
    }
}

/// Whatever the driver reports, in whatever order, the runner stays
/// well-formed.
pub proof fn lemma_replay_keeps_wf(runner: RunnerView, events: Seq<EventView>)
    requires
        runner.wf(),
    ensures
        replay(runner, events).wf(),
    decreases events.len(),
{
    if events.len() > 0 {
        lemma_replay_keeps_wf(runner, events.drop_last());
        lemma_step_keeps_wf(replay(runner, events.drop_last()), events.last());
    }
}

/// A connected runner that gets nothing but responses has completed one
/// exchange for each, and is finished exactly when that is all of them.
pub proof fn lemma_responses_advance(
    kind: TransportKind,
    connection_id: u32,
    iteration_count: u32,
    responses: Seq<EventView>,
)
    requires
        responses.len() <= iteration_count,
        forall|i: int| 0 <= i < responses.len() ==> (#[trigger] responses[i]) is Response,
    ensures
        ({
            let start = RunnerView::initial(kind, connection_id, iteration_count).step(
                EventView::Connected,
            );
            let end = replay(start, responses);
            &&& end.wf()
            &&& end.kind == kind
            &&& end.connection_id == connection_id
            &&& end.iteration_count == iteration_count
            &&& end.completed == responses.len()
            &&& end.state == if responses.len() == iteration_count {
                RunnerState::Finished
            } else {
                RunnerState::Running
            }
        }),
    decreases responses.len(),
{
    let start = RunnerView::initial(kind, connection_id, iteration_count).step(
        EventView::Connected,
    );
    if responses.len() > 0 {
        let front = responses.drop_last();
        assert forall|i: int| 0 <= i < front.len() implies (#[trigger] front[i]) is Response by {
            assert(front[i] == responses[i]);
        }
        lemma_responses_advance(kind, connection_id, iteration_count, front);
        let before = replay(start, front);
        let last = responses.last();
        assert(last == responses[responses.len() - 1]);
        assert(last is Response);
        assert(before.state is Running);
        lemma_step_keeps_wf(before, last);
        assert(replay(start, responses) == before.step(last));
        assert(before.step(last) == before.responded(last->elapsed_ms, last->data));
    } else {
        assert(replay(start, responses) == start);
        assert(start.wf());
    }
}

/// A run in which every exchange gets its response ends finished and
/// without a failure; over WebSocket it gives one sample for each iteration.
pub proof fn lemma_uninterrupted_run(
    kind: TransportKind,
    connection_id: u32,
    iteration_count: u32,
    responses: Seq<EventView>,
)
    requires
        responses.len() == iteration_count,
        forall|i: int| 0 <= i < responses.len() ==> (#[trigger] responses[i]) is Response,
    ensures
        ({
            let start = RunnerView::initial(kind, connection_id, iteration_count).step(
                EventView::Connected,
            );
            let end = replay(start, responses);
            &&& end.state is Finished
            &&& end.result().wf()
            &&& end.result().failure is None
            &&& kind is TlsWebSocket ==> end.samples.len() == iteration_count
        }),
{
    lemma_responses_advance(kind, connection_id, iteration_count, responses);
}

} // verus!
