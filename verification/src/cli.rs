//! The decisions of the command line and the menu: what an input means and
//! what it changes. Reading and printing is the caller's.

use crate::benchmark::{Benchmark, BenchmarkConfig};
use crate::text::{parse_number, parse_unsigned};
use vstd::prelude::*;
use vstd::string::*;

verus! {

/// The most exchanges that the menu accepts for a connection.
pub const MAX_PING_PONG_COUNT: u32 = 1_000_000;

/// The command-line arguments.
#[derive(Debug, Clone)]
pub struct Args {
    /// The number of the benchmark to run; none for the menu.
    pub benchmark: Option<u8>,
    pub host: String,
    pub port: u16,
    /// How many exchanges each connection makes.
    pub count: u32,
    /// Whether the report leaves out the line for each exchange.
    pub quiet: bool,
    /// Whether the multi-connection benchmark is asked for.
    pub multi: bool,
}

/// The configuration that the arguments ask for.
pub fn config_from_args(args: &Args, concurrency: u32) -> (config: BenchmarkConfig)
    ensures
        config.host@ == args.host@,
        config.port == args.port,
        config.ping_pong_count == args.count,
        config.concurrency == concurrency,
        config.quiet == args.quiet,
{
    BenchmarkConfig {
        host: args.host.clone(),
        port: args.port,
        ping_pong_count: args.count,
        concurrency,
        quiet: args.quiet,
    }
}

/// The benchmarks that a number stands for, in the order they run; none for
/// a number that stands for no benchmark.
pub open spec fn plan_of(num: u8) -> Option<Seq<Benchmark>> {
    if num == 1 {
        Some(seq![Benchmark::NativeTls])
    } else if num == 2 {
        Some(seq![Benchmark::BasicTlsSync])
    } else if num == 5 {
        Some(seq![Benchmark::NativeTls, Benchmark::AsyncTls])
    } else if num == 6 {
        Some(seq![Benchmark::MultiConnection])
    } else if num == 7 {
        Some(seq![Benchmark::Tcp])
    } else if num == 8 {
        Some(seq![Benchmark::Udp])
    } else {
        None
    }
}

/// The benchmarks to run for a number, or `None` for an unknown one.
pub fn benchmark_plan(num: u8) -> (plan: Option<Vec<Benchmark>>)
    ensures
        match plan {
            Some(list) => plan_of(num) == Some(list@),
            None => plan_of(num) is None,
        },
{
    let mut list: Vec<Benchmark> = Vec::new();
    match num {
        1 => {
            list.push(Benchmark::NativeTls);
        },
        2 => {
            list.push(Benchmark::BasicTlsSync);
        },
        5 => {
            list.push(Benchmark::NativeTls);
            list.push(Benchmark::AsyncTls);
        },
        6 => {
            list.push(Benchmark::MultiConnection);
        },
        7 => {
            list.push(Benchmark::Tcp);
        },
        8 => {
            list.push(Benchmark::Udp);
        },
        _ => {
            return None;
        },
    }
    assert(plan_of(num) matches Some(expected) && list@ =~= expected);
    Some(list)
}

/// What a line typed at the menu asks for.
#[derive(Debug, Clone, Copy, PartialEq, Eq, Structural)]
pub enum MenuChoice {
    Exit,
    ToggleLogging,
    ServerSettings,
    PingPongCount,
    /// Run the benchmarks of this number.
    Run(u8),
    Invalid,
}

/// `0`.
pub open spec fn text_zero() -> Seq<u8> {
    seq![0x30u8]
}

/// `exit`.
pub open spec fn text_exit() -> Seq<u8> {
    seq![0x65u8, 0x78u8, 0x69u8, 0x74u8]
}

/// `97`.
pub open spec fn text_toggle() -> Seq<u8> {
    seq![0x39u8, 0x37u8]
}

/// `98`.
pub open spec fn text_server() -> Seq<u8> {
    seq![0x39u8, 0x38u8]
}

/// `99`.
pub open spec fn text_count() -> Seq<u8> {
    seq![0x39u8, 0x39u8]
}

/// What a line means at the menu: `0` and `exit` leave, `97` to `99` are
/// the settings, any other number of at most 255 asks for that benchmark,
/// and everything else is invalid.
pub open spec fn menu_choice_of(line: Seq<u8>) -> MenuChoice {
    if line == text_zero() || line == text_exit() {
        MenuChoice::Exit
    } else if line == text_toggle() {
        MenuChoice::ToggleLogging
    } else if line == text_server() {
        MenuChoice::ServerSettings
    } else if line == text_count() {
        MenuChoice::PingPongCount
    } else {
        match parse_unsigned(line, u8::MAX as nat) {
            Some(num) => MenuChoice::Run(num as u8),
            None => MenuChoice::Invalid,
        }
    }
}

/// Whether `a` holds exactly the bytes of `b`.
fn same_bytes(a: &[u8], b: &[u8]) -> (same: bool)
    ensures
        same == (a@ == b@),
{
    if a.len() != b.len() {
        return false;
    }
    let mut i: usize = 0;
    while i < a.len()
        invariant
            i <= a@.len(),
            a@.len() == b@.len(),
            forall|j: int| 0 <= j < i ==> a@[j] == b@[j],
        decreases a@.len() - i,
    {
        if a[i] != b[i] {
            return false;
        }
        i = i + 1;
    }
    assert(a@ =~= b@);
    true
}

/// What `line`, without the white space around it, asks for at the menu.
pub fn parse_menu_choice(line: &str) -> (choice: MenuChoice)
    ensures
        choice == menu_choice_of(line.spec_bytes()),
{
    let bytes = line.as_bytes();
    let zero: [u8; 1] = [0x30];
    let exit: [u8; 4] = [0x65, 0x78, 0x69, 0x74];
    let toggle: [u8; 2] = [0x39, 0x37];
    let server: [u8; 2] = [0x39, 0x38];
    let count: [u8; 2] = [0x39, 0x39];
    assert(zero@ =~= text_zero());
    assert(exit@ =~= text_exit());
    assert(toggle@ =~= text_toggle());
    assert(server@ =~= text_server());
    assert(count@ =~= text_count());
    if same_bytes(bytes, zero.as_slice()) || same_bytes(bytes, exit.as_slice()) {
        MenuChoice::Exit
    } else if same_bytes(bytes, toggle.as_slice()) {
        MenuChoice::ToggleLogging
    } else if same_bytes(bytes, server.as_slice()) {
        MenuChoice::ServerSettings
    } else if same_bytes(bytes, count.as_slice()) {
        MenuChoice::PingPongCount
    } else {
        match parse_number(bytes, 255) {
            Some(num) => MenuChoice::Run(num as u8),
            None => MenuChoice::Invalid,
        }
    }
}

/// Takes a line typed for the host: an empty one keeps the host, any other
/// becomes it. Returns whether the host was set.
pub fn update_host(config: &mut BenchmarkConfig, line: &str) -> (set: bool)
    ensures
        set == (line@.len() > 0),
        final(config).host@ == if set {
            line@
        } else {
            old(config).host@
        },
        final(config).port == old(config).port,
        final(config).ping_pong_count == old(config).ping_pong_count,
        final(config).concurrency == old(config).concurrency,
        final(config).quiet == old(config).quiet,
{
    if line.is_empty() {
        false
    } else {
        config.host = String::from_str(line);
        true
    }
}

/// Takes a line typed for the port: a number of at most 65535 becomes the
/// port, anything else keeps it. Returns whether the port was set.
pub fn update_port(config: &mut BenchmarkConfig, line: &str) -> (set: bool)
    ensures
        set == parse_unsigned(line.spec_bytes(), u16::MAX as nat) is Some,
        final(config).port == match parse_unsigned(line.spec_bytes(), u16::MAX as nat) {
            Some(port) => port as u16,
            None => old(config).port,
        },
        final(config).host == old(config).host,
        final(config).ping_pong_count == old(config).ping_pong_count,
        final(config).concurrency == old(config).concurrency,
        final(config).quiet == old(config).quiet,
{
    match parse_number(line.as_bytes(), 65535) {
        Some(port) => {
            config.port = port as u16;
            true
        },
        None => false,
    }
}

/// What became of a line typed for the exchange count.
#[derive(Debug, Clone, Copy, PartialEq, Eq, Structural)]
pub enum CountUpdate {
    /// The line is no number: the count stays, and nothing is reported.
    Unchanged,
    /// The count was set to this number.
    Accepted(u32),
    /// The number is zero or above the maximum: the count stays.
    Rejected,
}

/// What a line typed for the exchange count does: a number from 1 to the
/// maximum is taken, another number is rejected, anything else is passed
/// over.
pub open spec fn count_update_of(line: Seq<u8>) -> CountUpdate {
    match parse_unsigned(line, u32::MAX as nat) {
        Some(count) => if 0 < count <= MAX_PING_PONG_COUNT {
            CountUpdate::Accepted(count as u32)
        } else {
            CountUpdate::Rejected
        },
        None => CountUpdate::Unchanged,
    }
}

/// Takes a line typed for the exchange count.
pub fn update_ping_pong_count(config: &mut BenchmarkConfig, line: &str) -> (update: CountUpdate)
    ensures
        update == count_update_of(line.spec_bytes()),
        final(config).ping_pong_count == match update {
            CountUpdate::Accepted(count) => count,
            _ => old(config).ping_pong_count,
        },
        final(config).host == old(config).host,
        final(config).port == old(config).port,
        final(config).concurrency == old(config).concurrency,
        final(config).quiet == old(config).quiet,
{
    match parse_number(line.as_bytes(), 0xFFFF_FFFF) {
        Some(count) => {
            if count > 0 && count <= MAX_PING_PONG_COUNT as u64 {
                config.ping_pong_count = count as u32;
                CountUpdate::Accepted(count as u32)
            } else {
                CountUpdate::Rejected
            }
        },
        None => CountUpdate::Unchanged,
    }
}

} // verus!
