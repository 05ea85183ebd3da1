//! Error values of the scheduler, the other half of the cluster.

use vstd::prelude::*;
use vstd::string::StringExecFns;

verus! {

/// The kind of a [`SchedulerError`], used to construct one from a message.
#[derive(Debug, Clone, Copy, PartialEq, Eq, Structural)]
pub enum ErrKind {
    /// Failure to reach or to talk to a worker.
    NetworkError,
}

/// An error of the scheduler: a kind and a human-readable message.
#[derive(Debug, PartialEq, Eq)]
pub enum SchedulerError {
    NetworkError(String),
}

impl SchedulerError {
    /// The message carried by this error.
    pub open spec fn spec_message(&self) -> Seq<char> {
        match self {
            SchedulerError::NetworkError(m) => m@,
        }
    }

    /// Builds the error of the given kind carrying `msg`.
    pub fn new(kind: ErrKind, msg: &str) -> (e: SchedulerError)
        ensures
            e is NetworkError,
            e.spec_message() == msg@,
    {
        match kind {
            ErrKind::NetworkError => SchedulerError::NetworkError(String::from_str(msg)),
        }
    }

    /// The message carried by this error.
    pub fn message(&self) -> (m: &str)
        ensures
            m@ == self.spec_message(),
    {
        match self {
            SchedulerError::NetworkError(m) => m.as_str(),
        }
    }

    /// The log line for this error.
    pub fn to_string(&self) -> (s: String)
        ensures
            s@ == "NetworkError when trying to connect to the worker: "@ + self.spec_message(),
    {
        let mut s = String::from_str("NetworkError when trying to connect to the worker: ");
        s.append(self.message());
        s
    }
}

} // verus!
