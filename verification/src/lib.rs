//! Ping-pong latency benchmark core: the client-side WebSocket frame codec,
//! the per-connection runner and the fan-out/fan-in orchestrator as explicit
//! state machines, and the reduction of round-trip samples to statistics.
//!
//! Nothing here performs I/O. A driver opens connections, sends the bytes the
//! library hands out, and feeds back what happened.

pub mod benchmark;
pub mod bytes;
pub mod cli;
pub mod memory;
pub mod orchestrator;
mod random;
pub mod ratio;
pub mod runner;
pub mod stats;
pub mod text;
pub mod transport;
pub mod utils;
pub mod websocket;
