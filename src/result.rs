//! The record emitted for one (library, format, file, operation) tuple.
use crate::stats::{fits, DurationStats};
use vstd::prelude::*;

verus! {

/// What became of a whole benchmark: at least one trial succeeded, or none.
#[derive(Clone, Copy, Debug, PartialEq, Eq)]
pub enum Status {
    Success,
    Failure,
}

impl Status {
    /// The word used for the status in the output.
    pub fn name(&self) -> (r: &'static str)
        ensures
            *self == Status::Success ==> r@ == "ok"@,
            *self == Status::Failure ==> r@ == "error"@,
    {
        match self {
            Status::Success => "ok",
            Status::Failure => "error",
        }
    }
}

/// The characters of an optional string.
pub open spec fn opt_text(o: Option<String>) -> Option<Seq<char>> {
    match o {
        Some(s) => Some(s@),
        None => None,
    }
}

/// Timings, memory and status of one benchmarked operation.
///
/// `times` holds the duration of each successful trial in nanoseconds,
/// in the order the trials ran.
#[derive(Debug)]
pub struct BenchResult {
    pub library: String,
    pub format: String,
    pub file: String,
    pub operation: String,
    pub times: Vec<u64>,
    pub stats: DurationStats,
    pub peak_memory_kb: u64,
    pub status: Status,
    pub error: Option<String>,
}

impl BenchResult {
    /// Status is `Success` exactly when some trial succeeded, an error message
    /// is present only when the status is `Failure`, and the statistics
    /// summarise `times`.
    pub open spec fn wf(&self) -> bool {
        &&& (self.status == Status::Success) == (self.times@.len() > 0)
        &&& self.status == Status::Success ==> self.error.is_none()
        &&& fits(self.times@)
        &&& self.stats.describes(self.times@)
    }

    /// The same record, labelled with the tuple it was measured for.
    pub fn with_identity(self, library: &str, format: &str, file: &str, operation: &str) -> (r:
        BenchResult)
        ensures
            r.library@ == library@,
            r.format@ == format@,
            r.file@ == file@,
            r.operation@ == operation@,
            r.times@ == self.times@,
            r.stats == self.stats,
            r.peak_memory_kb == self.peak_memory_kb,
            r.status == self.status,
            opt_text(r.error) == opt_text(self.error),
            self.wf() ==> r.wf(),
    {
        BenchResult {
            library: String::from_str(library),
            format: String::from_str(format),
            file: String::from_str(file),
            operation: String::from_str(operation),
            ..self
        }
    }
}

} // verus!
