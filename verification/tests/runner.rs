use websocket_benchmark::orchestrator::{Orchestrator, SubmitOutcome, DEFAULT_CONCURRENCY};
use websocket_benchmark::runner::{
    BenchmarkRunner, FailureKind, RttSample, RunResult, RunnerAction, RunnerEvent, RunnerState,
};
use websocket_benchmark::stats::RttStats;
use websocket_benchmark::transport::TransportKind;
use websocket_benchmark::websocket::WebSocketFrame;

fn response(elapsed_ms: u64) -> RunnerEvent {
    RunnerEvent::Response { elapsed_ms, data: WebSocketFrame::encode_frame(1, b"PONG", [1, 2, 3, 4]) }
}

fn run_to_end(runner: BenchmarkRunner, iterations: u32) -> RunResult {
    let (mut runner, _) = runner.handle(RunnerEvent::Connected);
    for i in 0..iterations {
        let (next, _) = runner.handle(response(i as u64 + 1));
        runner = next;
    }
    runner.finish().unwrap()
}

fn fail_at_connect(runner: BenchmarkRunner) -> RunResult {
    let (runner, action) = runner.handle(RunnerEvent::Failed(FailureKind::Connection));
    assert!(matches!(action, RunnerAction::Stop));
    runner.finish().unwrap()
}

#[test]
fn runner_starts_by_connecting() {
    let runner = BenchmarkRunner::new(TransportKind::TlsWebSocket, 7, 30);
    assert_eq!(runner.state(), RunnerState::Connecting);
    assert_eq!(runner.connection_id(), 7);
    assert_eq!(runner.iteration_count(), 30);
    assert_eq!(runner.kind(), TransportKind::TlsWebSocket);
    assert_eq!(runner.completed(), 0);
    assert!(runner.samples().is_empty());
    assert!(!runner.is_done());
    assert!(matches!(runner.next_action(), RunnerAction::Connect));
    assert!(runner.finish().is_err());
}

#[test]
fn runner_sends_a_ping_frame_once_connected() {
    let runner = BenchmarkRunner::new(TransportKind::TlsWebSocket, 0, 2);
    let (runner, action) = runner.handle(RunnerEvent::Connected);
    assert_eq!(runner.state(), RunnerState::Running);
    match action {
        RunnerAction::Send(bytes) => {
            let frame = WebSocketFrame::parse_frame(&bytes).unwrap();
            assert_eq!(frame.payload, b"PING".to_vec());
            assert_eq!(frame.opcode, 1);
            assert!(frame.masked);
        }
        other => panic!("unexpected action {:?}", other),
    }
}

#[test]
fn runner_sends_raw_pings_over_tcp_and_udp() {
    for kind in [TransportKind::PlainTcp, TransportKind::Udp] {
        let (_, action) = BenchmarkRunner::new(kind, 0, 1).handle(RunnerEvent::Connected);
        match action {
            RunnerAction::Send(bytes) => assert_eq!(bytes, b"PING".to_vec()),
            other => panic!("unexpected action {:?}", other),
        }
    }
}

#[test]
fn runner_records_one_sample_per_response_in_order() {
    let runner = BenchmarkRunner::new(TransportKind::TlsWebSocket, 3, 3);
    let (runner, _) = runner.handle(RunnerEvent::Connected);
    let (runner, _) = runner.handle(response(11));
    let (runner, action) = runner.handle(response(12));
    assert!(matches!(action, RunnerAction::Send(_)));
    assert_eq!(runner.state(), RunnerState::Running);
    let (runner, action) = runner.handle(response(13));
    assert!(matches!(action, RunnerAction::Stop));
    assert_eq!(runner.state(), RunnerState::Finished);
    assert!(runner.is_done());
    assert_eq!(
        runner.samples(),
        &vec![
            RttSample { value_ms: 11, sequence_index: 0, connection_id: 3 },
            RttSample { value_ms: 12, sequence_index: 1, connection_id: 3 },
            RttSample { value_ms: 13, sequence_index: 2, connection_id: 3 },
        ]
    );
    assert_eq!(runner.parse_failures(), 0);
    let result = runner.finish().unwrap();
    assert_eq!(result.failure(), None);
    assert!(!result.connection_failed());
    assert_eq!(result.into_samples().unwrap().len(), 3);
}

#[test]
fn runner_times_a_response_that_is_no_frame() {
    let runner = BenchmarkRunner::new(TransportKind::TlsWebSocket, 0, 2);
    let (runner, _) = runner.handle(RunnerEvent::Connected);
    let (runner, _) = runner.handle(RunnerEvent::Response { elapsed_ms: 5, data: vec![0x81] });
    let (runner, _) = runner.handle(RunnerEvent::Response { elapsed_ms: 6, data: vec![] });
    assert_eq!(runner.state(), RunnerState::Finished);
    assert_eq!(runner.samples().len(), 2);
    assert_eq!(runner.parse_failures(), 2);
}

#[test]
fn runner_skips_empty_reads_over_tcp() {
    let runner = BenchmarkRunner::new(TransportKind::PlainTcp, 1, 3);
    let (runner, _) = runner.handle(RunnerEvent::Connected);
    let (runner, _) = runner.handle(RunnerEvent::Response { elapsed_ms: 4, data: vec![1] });
    let (runner, _) = runner.handle(RunnerEvent::Response { elapsed_ms: 5, data: vec![] });
    let (runner, _) = runner.handle(RunnerEvent::Response { elapsed_ms: 6, data: vec![2, 3] });
    assert_eq!(runner.state(), RunnerState::Finished);
    assert_eq!(runner.completed(), 3);
    assert_eq!(
        runner.samples(),
        &vec![
            RttSample { value_ms: 4, sequence_index: 0, connection_id: 1 },
            RttSample { value_ms: 6, sequence_index: 2, connection_id: 1 },
        ]
    );
    assert_eq!(runner.parse_failures(), 0);
}

#[test]
fn runner_keeps_samples_when_io_fails() {
    let runner = BenchmarkRunner::new(TransportKind::TlsWebSocket, 2, 30);
    let (runner, _) = runner.handle(RunnerEvent::Connected);
    let (runner, _) = runner.handle(response(8));
    let (runner, _) = runner.handle(response(9));
    let (runner, action) = runner.handle(RunnerEvent::Failed(FailureKind::Io));
    assert!(matches!(action, RunnerAction::Stop));
    assert_eq!(runner.state(), RunnerState::Failed(FailureKind::Io));
    let (runner, _) = runner.handle(response(10));
    assert_eq!(runner.samples().len(), 2);
    let result = runner.finish().unwrap();
    assert_eq!(result.failure(), Some(FailureKind::Io));
    assert!(!result.connection_failed());
    assert_eq!(result.samples().len(), 2);
    assert_eq!(result.into_partial_samples().len(), 2);
}

#[test]
fn single_connection_failure_is_fatal() {
    let runner = BenchmarkRunner::new(TransportKind::TlsWebSocket, 0, 5);
    let (runner, _) = runner.handle(RunnerEvent::Connected);
    let (runner, _) = runner.handle(response(8));
    let (runner, _) = runner.handle(RunnerEvent::Failed(FailureKind::Io));
    assert_eq!(runner.finish().unwrap().into_samples().unwrap_err(), FailureKind::Io);
}

#[test]
fn connect_failure_gives_no_samples() {
    let result = fail_at_connect(BenchmarkRunner::new(TransportKind::TlsWebSocket, 4, 30));
    assert!(result.connection_failed());
    assert_eq!(result.failure(), Some(FailureKind::Connection));
    assert_eq!(result.connection_id(), 4);
    assert_eq!(result.iteration_count(), 30);
    assert_eq!(result.kind(), TransportKind::TlsWebSocket);
    assert!(result.samples().is_empty());
    assert_eq!(result.into_samples().unwrap_err(), FailureKind::Connection);
}

#[test]
fn handshake_reply_decides_the_connection() {
    let runner = BenchmarkRunner::new(TransportKind::TlsWebSocket, 0, 1);
    let reply = b"HTTP/1.1 101 Switching Protocols\r\nUpgrade: websocket\r\n\r\n".to_vec();
    let (runner, action) = runner.handle(RunnerEvent::HandshakeResponse(reply));
    assert_eq!(runner.state(), RunnerState::Running);
    assert!(matches!(action, RunnerAction::Send(_)));

    let runner = BenchmarkRunner::new(TransportKind::TlsWebSocket, 0, 1);
    let reply = b"HTTP/1.1 400 Bad Request\r\nContent-Length: 101\r\n\r\n".to_vec();
    let (runner, action) = runner.handle(RunnerEvent::HandshakeResponse(reply));
    assert_eq!(runner.state(), RunnerState::Failed(FailureKind::Handshake));
    assert!(matches!(action, RunnerAction::Stop));
    assert!(runner.finish().unwrap().connection_failed());
}

#[test]
fn runner_ignores_events_it_does_not_wait_for() {
    let runner = BenchmarkRunner::new(TransportKind::TlsWebSocket, 0, 1);
    let (runner, action) = runner.handle(response(3));
    assert_eq!(runner.state(), RunnerState::Connecting);
    assert!(matches!(action, RunnerAction::Connect));
    let (runner, _) = runner.handle(RunnerEvent::Connected);
    let (runner, _) = runner.handle(RunnerEvent::Connected);
    assert_eq!(runner.state(), RunnerState::Running);
    assert_eq!(runner.completed(), 0);
    let (runner, _) = runner.handle(response(3));
    let (runner, action) = runner.handle(RunnerEvent::Failed(FailureKind::Io));
    assert_eq!(runner.state(), RunnerState::Finished);
    assert!(matches!(action, RunnerAction::Stop));
}

#[test]
fn runner_without_iterations_finishes_on_connect() {
    let (runner, action) =
        BenchmarkRunner::new(TransportKind::Udp, 0, 0).handle(RunnerEvent::Connected);
    assert_eq!(runner.state(), RunnerState::Finished);
    assert!(matches!(action, RunnerAction::Stop));
    assert!(runner.finish().unwrap().into_samples().unwrap().is_empty());
}

#[test]
fn fifty_connections_of_thirty_give_fifteen_hundred_samples() {
    let mut orchestrator = Orchestrator::new(TransportKind::TlsWebSocket, DEFAULT_CONCURRENCY, 30);
    assert_eq!(orchestrator.concurrency(), 50);
    let runners = orchestrator.runners();
    assert_eq!(runners.len(), 50);
    let mut pending = runners.len();
    for runner in runners.into_iter().rev() {
        assert!(!orchestrator.is_complete());
        orchestrator = match orchestrator.join() {
            Err(still_waiting) => still_waiting,
            Ok(_) => panic!("joined with {} runners pending", pending),
        };
        let (next, outcome) = orchestrator.submit(run_to_end(runner, 30));
        assert_eq!(outcome, SubmitOutcome::Accepted);
        orchestrator = next;
        pending -= 1;
    }
    assert!(orchestrator.is_complete());
    let samples = orchestrator.join().unwrap();
    assert_eq!(samples.len(), 1500);
    for (i, sample) in samples.iter().enumerate() {
        assert_eq!(sample.connection_id as usize, i / 30);
        assert_eq!(sample.sequence_index as usize, i % 30);
    }
    let stats = RttStats::new(samples.iter().map(|sample| sample.value_ms).collect());
    assert_eq!(stats.count, 1500);
    assert_eq!((stats.min, stats.max), (1, 30));
}

#[test]
fn ten_failed_connections_leave_twelve_hundred_samples() {
    let mut orchestrator = Orchestrator::new(TransportKind::TlsWebSocket, 50, 30);
    for (i, runner) in orchestrator.runners().into_iter().enumerate() {
        let result = if i % 5 == 0 { fail_at_connect(runner) } else { run_to_end(runner, 30) };
        let (next, outcome) = orchestrator.submit(result);
        assert_eq!(outcome, SubmitOutcome::Accepted);
        orchestrator = next;
    }
    let samples = orchestrator.join().unwrap();
    assert!(samples.len() <= 1200);
    assert_eq!(samples.len(), 1200);
}

#[test]
fn truncated_connections_give_what_they_took() {
    let mut orchestrator = Orchestrator::new(TransportKind::TlsWebSocket, 3, 4);
    let mut runners = orchestrator.runners();
    let third = run_to_end(runners.pop().unwrap(), 4);
    let second = fail_at_connect(runners.pop().unwrap());
    let (first, _) = runners.pop().unwrap().handle(RunnerEvent::Connected);
    let (first, _) = first.handle(response(21));
    let (first, _) = first.handle(RunnerEvent::Failed(FailureKind::Io));
    for result in [third, first.finish().unwrap(), second] {
        let (next, outcome) = orchestrator.submit(result);
        assert_eq!(outcome, SubmitOutcome::Accepted);
        orchestrator = next;
    }
    let samples = orchestrator.join().unwrap();
    let ids: Vec<(u32, u32)> =
        samples.iter().map(|sample| (sample.connection_id, sample.sequence_index)).collect();
    assert_eq!(ids, vec![(0, 0), (2, 0), (2, 1), (2, 2), (2, 3)]);
}

#[test]
fn orchestrator_takes_each_outcome_once() {
    let orchestrator = Orchestrator::new(TransportKind::TlsWebSocket, 2, 1);
    let first = run_to_end(BenchmarkRunner::new(TransportKind::TlsWebSocket, 0, 1), 1);
    let again = run_to_end(BenchmarkRunner::new(TransportKind::TlsWebSocket, 0, 1), 1);
    let (orchestrator, outcome) = orchestrator.submit(first);
    assert_eq!(outcome, SubmitOutcome::Accepted);
    let (orchestrator, outcome) = orchestrator.submit(again);
    assert_eq!(outcome, SubmitOutcome::Duplicate);
    let stranger = run_to_end(BenchmarkRunner::new(TransportKind::TlsWebSocket, 2, 1), 1);
    let (orchestrator, outcome) = orchestrator.submit(stranger);
    assert_eq!(outcome, SubmitOutcome::Foreign);
    let other_count = run_to_end(BenchmarkRunner::new(TransportKind::TlsWebSocket, 1, 2), 2);
    let (orchestrator, outcome) = orchestrator.submit(other_count);
    assert_eq!(outcome, SubmitOutcome::Foreign);
    let other_kind = run_to_end(BenchmarkRunner::new(TransportKind::Udp, 1, 1), 1);
    let (orchestrator, outcome) = orchestrator.submit(other_kind);
    assert_eq!(outcome, SubmitOutcome::Foreign);
    assert!(!orchestrator.is_complete());
    assert!(orchestrator.join().is_err());
}

#[test]
fn orchestrator_of_nothing_joins_at_once() {
    let orchestrator = Orchestrator::new(TransportKind::PlainTcp, 0, 30);
    assert!(orchestrator.runners().is_empty());
    assert!(orchestrator.is_complete());
    assert!(orchestrator.join().unwrap().is_empty());
}

#[test]
fn sample_values_keep_their_order() {
    let samples = vec![
        RttSample { value_ms: 9, sequence_index: 0, connection_id: 1 },
        RttSample { value_ms: 4, sequence_index: 1, connection_id: 1 },
    ];
    assert_eq!(websocket_benchmark::runner::sample_values(&samples), vec![9, 4]);
}
