//! A verified core for a small TCP/HTTP liveness scanner.
//!
//! The library expands an address pattern such as `10.0.0.{}` into a set of
//! IPv4 candidates, classifies probe responses, coordinates a bounded-
//! concurrency scan, and formats the result report. All network I/O is left
//! to the caller; the library's functions are pure decisions over plain
//! values, each with a proved contract.

pub mod address;
pub mod config;
pub mod coordinator;
pub mod decimal;
pub mod generator;
pub mod pattern;
pub mod probe;
pub mod report;
