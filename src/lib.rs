//! Execution engine of a benchmark harness for waveform-parsing libraries.
//!
//! - `trial`: how one supervised attempt ends, and the log of a fixed
//!   number of attempts that becomes a result record;
//! - `stats`: exact statistics over the durations of successful attempts;
//! - `result`: the record emitted for each benchmarked operation;
//! - `memory`: the peak memory reading from a process status report;
//! - `suite`: the closed set of libraries, formats and operations, and the
//!   checks operations make on what a library returned;
//! - `scope`: the variables of a trace header's scope hierarchy;
//! - `discover`: choosing and ordering the input files of one format.
pub mod discover;
pub mod memory;
pub mod result;
pub mod scope;
pub mod stats;
pub mod suite;
pub mod trial;
