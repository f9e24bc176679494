//! A small TCP port scanner library.
//!
//! The scan partitions the 16-bit port space across a fixed number of
//! workers: worker `t` (for `t` in `1 .. worker_count`) probes the ports
//! `t, t + worker_count, t + 2 * worker_count, ...` until the termination
//! rule stops it.  Discovered open ports are funneled back to a single
//! collector.  Command-line tokens are parsed into a target address and a
//! worker count.
//!
//! The connection attempts themselves are plain blocking I/O and live in the
//! surrounding binary; this crate holds the partitioning, collection and
//! argument-parsing logic, each function with its contract.

pub mod addr;
pub mod args;
pub mod collector;
pub mod driver;
pub mod errors;
pub mod ports;
pub mod text;

pub use addr::IpAddress;
pub use args::Arguments;
pub use collector::Collector;
pub use errors::SnifferError;
