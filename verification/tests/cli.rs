use websocket_benchmark::benchmark::{Benchmark, BenchmarkConfig};
use websocket_benchmark::cli::{
    benchmark_plan, config_from_args, parse_menu_choice, update_host, update_ping_pong_count,
    update_port, Args, CountUpdate, MenuChoice,
};

#[test]
fn numbers_stand_for_benchmarks() {
    assert_eq!(benchmark_plan(1), Some(vec![Benchmark::NativeTls]));
    assert_eq!(benchmark_plan(2), Some(vec![Benchmark::BasicTlsSync]));
    assert_eq!(benchmark_plan(5), Some(vec![Benchmark::NativeTls, Benchmark::AsyncTls]));
    assert_eq!(benchmark_plan(6), Some(vec![Benchmark::MultiConnection]));
    assert_eq!(benchmark_plan(7), Some(vec![Benchmark::Tcp]));
    assert_eq!(benchmark_plan(8), Some(vec![Benchmark::Udp]));
    for num in [0u8, 3, 4, 9, 19, 97, 255] {
        assert_eq!(benchmark_plan(num), None);
    }
}

#[test]
fn menu_lines_are_told_apart() {
    assert_eq!(parse_menu_choice("0"), MenuChoice::Exit);
    assert_eq!(parse_menu_choice("exit"), MenuChoice::Exit);
    assert_eq!(parse_menu_choice("97"), MenuChoice::ToggleLogging);
    assert_eq!(parse_menu_choice("98"), MenuChoice::ServerSettings);
    assert_eq!(parse_menu_choice("99"), MenuChoice::PingPongCount);
    assert_eq!(parse_menu_choice("1"), MenuChoice::Run(1));
    assert_eq!(parse_menu_choice("6"), MenuChoice::Run(6));
    assert_eq!(parse_menu_choice("00"), MenuChoice::Run(0));
    assert_eq!(parse_menu_choice("+97"), MenuChoice::Run(97));
    assert_eq!(parse_menu_choice("255"), MenuChoice::Run(255));
    assert_eq!(parse_menu_choice("256"), MenuChoice::Invalid);
    assert_eq!(parse_menu_choice(""), MenuChoice::Invalid);
    assert_eq!(parse_menu_choice("Exit"), MenuChoice::Invalid);
    assert_eq!(parse_menu_choice("six"), MenuChoice::Invalid);
    assert_eq!(parse_menu_choice("1 "), MenuChoice::Invalid);
    assert_eq!(parse_menu_choice("é"), MenuChoice::Invalid);
}

#[test]
fn arguments_become_the_configuration() {
    let args = Args {
        benchmark: Some(6),
        host: "example.org".to_string(),
        port: 9000,
        count: 12,
        quiet: true,
        multi: true,
    };
    let config = config_from_args(&args, 50);
    assert_eq!(config.host, "example.org");
    assert_eq!(config.port, 9000);
    assert_eq!(config.ping_pong_count, 12);
    assert_eq!(config.concurrency, 50);
    assert!(config.quiet);
}

#[test]
fn host_line_replaces_the_host_unless_empty() {
    let mut config = BenchmarkConfig::default();
    assert!(!update_host(&mut config, ""));
    assert_eq!(config.host, "10.25.96.5");
    assert!(update_host(&mut config, "bench.example"));
    assert_eq!(config.host, "bench.example");
    assert_eq!(config.port, 8443);
}

#[test]
fn port_line_replaces_the_port_if_it_is_one() {
    let mut config = BenchmarkConfig::default();
    assert!(update_port(&mut config, "9443"));
    assert_eq!(config.port, 9443);
    assert!(update_port(&mut config, "65535"));
    assert_eq!(config.port, 65535);
    for line in ["", "65536", "port", "-1", "80 "] {
        assert!(!update_port(&mut config, line));
        assert_eq!(config.port, 65535);
    }
    assert_eq!(config.host, "10.25.96.5");
}

#[test]
fn count_line_is_taken_within_bounds() {
    let mut config = BenchmarkConfig::default();
    assert_eq!(update_ping_pong_count(&mut config, "100"), CountUpdate::Accepted(100));
    assert_eq!(config.ping_pong_count, 100);
    assert_eq!(update_ping_pong_count(&mut config, "1000000"), CountUpdate::Accepted(1_000_000));
    assert_eq!(update_ping_pong_count(&mut config, "1"), CountUpdate::Accepted(1));
    assert_eq!(config.ping_pong_count, 1);
    assert_eq!(update_ping_pong_count(&mut config, "0"), CountUpdate::Rejected);
    assert_eq!(update_ping_pong_count(&mut config, "1000001"), CountUpdate::Rejected);
    assert_eq!(update_ping_pong_count(&mut config, "4294967295"), CountUpdate::Rejected);
    assert_eq!(update_ping_pong_count(&mut config, "4294967296"), CountUpdate::Unchanged);
    assert_eq!(update_ping_pong_count(&mut config, ""), CountUpdate::Unchanged);
    assert_eq!(update_ping_pong_count(&mut config, "many"), CountUpdate::Unchanged);
    assert_eq!(config.ping_pong_count, 1);
}
