//! Error taxonomy shared by the parsers and the scanner.

use vstd::prelude::*;

verus! {

/// What went wrong while reading or decoding one `/proc` record.
#[derive(Clone, Copy, Debug, PartialEq, Eq, Structural)]
pub enum ProcError {
    /// A `/proc/[pid]/*` file could not be opened or read.
    NotAccessible,
    /// `stat` did not yield 52 fields after `comm` joining, or the
    /// state character is not a known scheduler state.
    MalformedStat,
    /// A `maps` line is missing fields, its permission field is not
    /// four characters, or its address range is malformed.
    MalformedMaps,
    /// A seek or read against `pagemap` failed or came up short.
    PagemapIo,
    /// The producer thread has exited; no further snapshots will come.
    ProducerStopped,
}

impl ProcError {
    /// A short stable description, for hosts that log errors.
    pub fn describe(&self) -> (r: &'static str)
        ensures
            (*self is NotAccessible) ==> r@ == "process files not accessible"@,
            (*self is MalformedStat) ==> r@ == "malformed stat record"@,
            (*self is MalformedMaps) ==> r@ == "malformed maps line"@,
            (*self is PagemapIo) ==> r@ == "pagemap read failed"@,
            (*self is ProducerStopped) ==> r@ == "producer stopped"@,
    {
        match self {
            ProcError::NotAccessible => "process files not accessible",
            ProcError::MalformedStat => "malformed stat record",
            ProcError::MalformedMaps => "malformed maps line",
            ProcError::PagemapIo => "pagemap read failed",
            ProcError::ProducerStopped => "producer stopped",
        }
    }
}

} // verus!
