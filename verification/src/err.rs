//! Error values reported by the worker.

use vstd::prelude::*;
use vstd::string::StringExecFns;

verus! {

/// The kind of a [`WorkerError`], used to construct one from a message.
#[derive(Debug, Clone, Copy, PartialEq, Eq, Structural)]
pub enum ErrKind {
    /// Socket or connection failure.
    NetworkError,
    /// Object storage failure, including a malformed object address.
    AWSError,
    /// Relational store failure: connection, query, or cell decoding.
    DatabaseError,
    /// Missing or malformed table header.
    SchemaError,
    /// Unrecognized signal byte or undecodable frame.
    ProtocolError,
}

/// An error of the worker: a kind and a human-readable message.
#[derive(Debug, PartialEq, Eq)]
pub enum WorkerError {
    NetworkError(String),
    AWSError(String),
    DatabaseError(String),
    SchemaError(String),
    ProtocolError(String),
}

impl WorkerError {
    /// The kind of this error.
    pub open spec fn spec_kind(&self) -> ErrKind {
        match self {
            WorkerError::NetworkError(_) => ErrKind::NetworkError,
            WorkerError::AWSError(_) => ErrKind::AWSError,
            WorkerError::DatabaseError(_) => ErrKind::DatabaseError,
            WorkerError::SchemaError(_) => ErrKind::SchemaError,
            WorkerError::ProtocolError(_) => ErrKind::ProtocolError,
        }
    }

    /// The message carried by this error.
    pub open spec fn spec_message(&self) -> Seq<char> {
        match self {
            WorkerError::NetworkError(m) => m@,
            WorkerError::AWSError(m) => m@,
            WorkerError::DatabaseError(m) => m@,
            WorkerError::SchemaError(m) => m@,
            WorkerError::ProtocolError(m) => m@,
        }
    }

    /// True when this error has the given kind and message.
    pub open spec fn has(&self, kind: ErrKind, msg: Seq<char>) -> bool {
        self.spec_kind() == kind && self.spec_message() == msg
    }

    /// Builds the error of the given kind carrying `msg`.
    pub fn new(kind: ErrKind, msg: &str) -> (e: WorkerError)
        ensures
            e.has(kind, msg@),
    {
        let text = String::from_str(msg);
        match kind {
            ErrKind::NetworkError => WorkerError::NetworkError(text),
            ErrKind::AWSError => WorkerError::AWSError(text),
            ErrKind::DatabaseError => WorkerError::DatabaseError(text),
            ErrKind::SchemaError => WorkerError::SchemaError(text),
            ErrKind::ProtocolError => WorkerError::ProtocolError(text),
        }
    }

    /// The kind of this error.
    #[verifier::when_used_as_spec(spec_kind)]
    pub fn kind(&self) -> (k: ErrKind)
        ensures
            k == self.spec_kind(),
    {
        match self {
            WorkerError::NetworkError(_) => ErrKind::NetworkError,
            WorkerError::AWSError(_) => ErrKind::AWSError,
            WorkerError::DatabaseError(_) => ErrKind::DatabaseError,
            WorkerError::SchemaError(_) => ErrKind::SchemaError,
            WorkerError::ProtocolError(_) => ErrKind::ProtocolError,
        }
    }

    /// The message carried by this error.
    pub fn message(&self) -> (m: &str)
        ensures
            m@ == self.spec_message(),
    {
        match self {
            WorkerError::NetworkError(m) => m.as_str(),
            WorkerError::AWSError(m) => m.as_str(),
            WorkerError::DatabaseError(m) => m.as_str(),
            WorkerError::SchemaError(m) => m.as_str(),
            WorkerError::ProtocolError(m) => m.as_str(),
        }
    }

    /// The sentence that introduces errors of the given kind in the log.
    pub open spec fn prefix(kind: ErrKind) -> Seq<char> {
        match kind {
            ErrKind::NetworkError => "NetworkError when trying to connect to the scheduler: "@,
            ErrKind::AWSError => "AWSError when trying to communicate with AWS: "@,
            ErrKind::DatabaseError => "DatabaseError when trying to communicate with the DB: "@,
            ErrKind::SchemaError => "SchemaError when reading a table header: "@,
            ErrKind::ProtocolError => "ProtocolError when reading a request: "@,
        }
    }

    /// The log line for this error: the kind's sentence followed by the message.
    pub fn to_string(&self) -> (s: String)
        ensures
            s@ == Self::prefix(self.spec_kind()) + self.spec_message(),
    {
        let head = match self {
            WorkerError::NetworkError(_) => "NetworkError when trying to connect to the scheduler: ",
            WorkerError::AWSError(_) => "AWSError when trying to communicate with AWS: ",
            WorkerError::DatabaseError(_) => "DatabaseError when trying to communicate with the DB: ",
            WorkerError::SchemaError(_) => "SchemaError when reading a table header: ",
            WorkerError::ProtocolError(_) => "ProtocolError when reading a request: ",
        };
        let mut s = String::from_str(head);
        s.append(self.message());
        s
    }
}

} // verus!
