//! Randomised, interleaved sampling of competing benchmarks.
//!
//! The crate holds the decisions of a benchmark comparison run: how a
//! benchmark is described and labelled, how the outcome of one invocation
//! becomes a metric sample, how the set of output columns is discovered and
//! frozen, how header and rows are rendered, and the state machine that
//! schedules a warm-up pass, one ordered pass and the unbounded random pass.
//! Spawning processes, reading clocks and writing to streams is left to the
//! caller, who performs each `Action` and reports back with an `Event`.

pub mod bench;
pub mod csv;
pub mod label;
pub mod metrics;
pub mod run;
pub mod sampler;
pub mod stats;
pub mod text;
pub mod timer;
pub mod trace;
