//! Benchmark orchestration for alternative EVM execution engines.
//!
//! The library holds the verified core: the benchmark catalog, backend
//! selection, the sweep state machine, timing-sample validation, and the
//! result aggregator. Subprocess handling, argument parsing and rendering
//! live outside the library and hand it plain values.

pub mod aggregate;
pub mod benchmarks;
pub mod bytes;
pub mod command;
pub mod evm;
pub mod hex;
pub mod runner;
pub mod samples;
pub mod selection;
