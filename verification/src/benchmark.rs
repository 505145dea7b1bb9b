//! What a benchmark run is configured with, and which benchmarks there are.

use crate::orchestrator::{combined, Orchestrator, DEFAULT_CONCURRENCY};
use crate::ratio::Ratio;
use crate::runner::{sample_values, values_of, FailureKind, RunResult};
use crate::stats::{aggregate, aggregate_of, AggregateStats, CpuTime};
use crate::transport::TransportKind;
use vstd::prelude::*;
use vstd::string::*;

verus! {

/// The port of the server unless told otherwise.
pub const DEFAULT_PORT: u16 = 8443;

/// How many exchanges a connection makes unless told otherwise.
pub const DEFAULT_PING_PONG_COUNT: u32 = 30;

/// The configuration of one benchmark run. It does not change during a run.
#[derive(Debug, Clone)]
pub struct BenchmarkConfig {
    pub host: String,
    pub port: u16,
    /// How many exchanges each connection makes.
    pub ping_pong_count: u32,
    /// How many connections the multi-connection benchmark opens.
    pub concurrency: u32,
    /// Whether the report leaves out the line for each exchange.
    pub quiet: bool,
}

impl Default for BenchmarkConfig {
    fn default() -> (config: BenchmarkConfig)
        ensures
            config.host@ == "10.25.96.5"@,
            config.port == DEFAULT_PORT,
            config.ping_pong_count == DEFAULT_PING_PONG_COUNT,
            config.concurrency == DEFAULT_CONCURRENCY,
            !config.quiet,
    {
        BenchmarkConfig {
            host: String::from_str("10.25.96.5"),
            port: DEFAULT_PORT,
            ping_pong_count: DEFAULT_PING_PONG_COUNT,
            concurrency: DEFAULT_CONCURRENCY,
            quiet: false,
        }
    }
}

/// The benchmarks that can be run.
#[derive(Debug, Clone, Copy, PartialEq, Eq, Structural)]
pub enum Benchmark {
    /// One WebSocket connection over TLS, driven by an async client.
    NativeTls,
    /// The same once more, as the second half of the run of all benchmarks.
    AsyncTls,
    /// One WebSocket connection over TLS with blocking I/O and the upgrade
    /// done by hand.
    BasicTlsSync,
    /// Many concurrent WebSocket connections over TLS.
    MultiConnection,
    /// One plain TCP connection.
    Tcp,
    /// UDP datagrams.
    Udp,
}

/// The transport that a benchmark runs over.
pub open spec fn transport_of(benchmark: Benchmark) -> TransportKind {
    match benchmark {
        Benchmark::Tcp => TransportKind::PlainTcp,
        Benchmark::Udp => TransportKind::Udp,
        _ => TransportKind::TlsWebSocket,
    }
}

/// How many connections a benchmark opens under a configuration.
pub open spec fn connections_of(benchmark: Benchmark, concurrency: u32) -> u32 {
    match benchmark {
        Benchmark::MultiConnection => concurrency,
        _ => 1,
    }
}

impl Benchmark {
    /// The transport that the benchmark runs over.
    pub fn transport(self) -> (kind: TransportKind)
        ensures
            kind == transport_of(self),
    {
        match self {
            Benchmark::Tcp => TransportKind::PlainTcp,
            Benchmark::Udp => TransportKind::Udp,
            _ => TransportKind::TlsWebSocket,
        }
    }

    /// How many connections the benchmark opens: as many as configured for
    /// the multi-connection benchmark, one for every other.
    pub fn connections(self, config: &BenchmarkConfig) -> (count: u32)
        ensures
            count == connections_of(self, config.concurrency),
    {
        match self {
            Benchmark::MultiConnection => config.concurrency,
            _ => 1,
        }
    }

    /// Whether a failure ends the whole benchmark. It does for a single
    /// connection; among many, a failed connection only gives fewer samples.
    pub fn failure_is_fatal(self) -> (fatal: bool)
        ensures
            fatal == !(self is MultiConnection),
    {
        match self {
            Benchmark::MultiConnection => false,
            _ => true,
        }
    }

    /// The name of the benchmark in reports.
    pub fn title(self) -> (title: &'static str)
        ensures
            title@ == match self {
                Benchmark::NativeTls => "Rust socket + Native TLS (blocking I/O)"@,
                Benchmark::AsyncTls => "Rust async + Native TLS (tokio)"@,
                Benchmark::BasicTlsSync => "Rust sync socket + Native TLS"@,
                Benchmark::MultiConnection => "Multi-Connection Benchmark"@,
                Benchmark::Tcp => "Rust TCP (no TLS)"@,
                Benchmark::Udp => "Rust UDP"@,
            },
    {
        match self {
            Benchmark::NativeTls => "Rust socket + Native TLS (blocking I/O)",
            Benchmark::AsyncTls => "Rust async + Native TLS (tokio)",
            Benchmark::BasicTlsSync => "Rust sync socket + Native TLS",
            Benchmark::MultiConnection => "Multi-Connection Benchmark",
            Benchmark::Tcp => "Rust TCP (no TLS)",
            Benchmark::Udp => "Rust UDP",
        }
    }
}

/// The statistics of a single-connection benchmark, or the stage at which
/// the connection failed: for a single connection every failure is fatal.
pub fn single_connection_stats(result: RunResult, cpu: &CpuTime, memory_rss_mb: Ratio) -> (stats:
    Result<AggregateStats, FailureKind>)
    ensures
        match stats {
            Ok(stats) => result@.failure is None && stats@ == aggregate_of(
                values_of(result@.samples),
                cpu.user_time,
                cpu.system_time,
                cpu.wall_time,
                memory_rss_mb@,
            ),
            Err(kind) => result@.failure == Some(kind),
        },
{
    match result.into_samples() {
        Ok(samples) => Ok(aggregate(sample_values(&samples), cpu, memory_rss_mb)),
        Err(kind) => Err(kind),
    }
}

/// The statistics of a multi-connection benchmark once every connection
/// has reported, over the samples of all connections whether they failed
/// or not; before that, the orchestrator itself.
pub fn multi_connection_stats(orchestrator: Orchestrator, cpu: &CpuTime, memory_rss_mb: Ratio) -> (stats:
    Result<AggregateStats, Orchestrator>)
    ensures
        match stats {
            Ok(stats) => orchestrator@.complete() && stats@ == aggregate_of(
                values_of(combined(orchestrator@.results())),
                cpu.user_time,
                cpu.system_time,
                cpu.wall_time,
                memory_rss_mb@,
            ),
            Err(waiting) => !orchestrator@.complete() && waiting@ == orchestrator@,
        },
{
    match orchestrator.join() {
        Ok(samples) => Ok(aggregate(sample_values(&samples), cpu, memory_rss_mb)),
        Err(waiting) => Err(waiting),
    }
}

} // verus!
