//! The values the log store keeps and reports, and the ways it can fail.

use vstd::prelude::*;

verus! {

/// Identity of a cluster member.
pub type NodeId = u64;

/// A position in the replicated log: the term an entry was proposed in and its index.
#[derive(Clone, Copy, Debug, PartialEq, Eq, Structural)]
pub struct LogId {
    pub term: u64,
    pub index: u64,
}

/// The election state of a node: its current term and whom it voted for in it.
#[derive(Clone, Copy, Debug, PartialEq, Eq)]
pub struct Vote {
    pub term: u64,
    pub voted_for: Option<NodeId>,
}

/// One unit of replicated state. The payload is opaque to the log store.
#[derive(Clone, Debug, PartialEq, Eq)]
pub struct LogEntry {
    pub index: u64,
    pub term: u64,
    pub payload: Vec<u8>,
}

/// A log entry as a mathematical value.
pub struct LogEntryView {
    pub index: u64,
    pub term: u64,
    pub payload: Seq<u8>,
}

impl View for LogEntry {
    type V = LogEntryView;

    open spec fn view(&self) -> LogEntryView {
        LogEntryView { index: self.index, term: self.term, payload: self.payload@ }
    }
}

impl LogEntryView {
    /// The log position of the entry.
    pub open spec fn log_id(self) -> LogId {
        LogId { term: self.term, index: self.index }
    }
}

impl LogEntry {
    /// The log position of the entry.
    pub fn log_id(&self) -> (id: LogId)
        ensures
            id == self@.log_id(),
    {
        LogId { term: self.term, index: self.index }
    }
}

/// What the log store knows of its own extent.
#[derive(Clone, Copy, Debug, PartialEq, Eq)]
pub struct LogState {
    /// The highest position that has been physically removed, if any.
    pub last_purged_log_id: Option<LogId>,
    /// The position of the last entry, or of the last purged one when no entry is left.
    pub last_log_id: Option<LogId>,
}

/// Which stored byte string could not be read back.
#[derive(Clone, Copy, Debug, PartialEq, Eq, Structural)]
pub enum Corruption {
    /// A key of the log keyspace is not eight bytes long.
    Key,
    /// A stored log position is malformed.
    LogId,
    /// The stored vote is malformed.
    Vote,
    /// A stored log entry is malformed.
    Entry,
}

/// Failure of a log store operation.
#[derive(Clone, Debug, PartialEq, Eq)]
pub enum StoreError {
    /// The storage engine reported an error; the text is the engine's own.
    IoFailure(String),
    /// Stored bytes do not have the form they were written in.
    DecodeFailure(Corruption),
}

} // verus!
