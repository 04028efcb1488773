//! Errors reported to the callers of the service, with their status codes.

use vstd::prelude::*;
use vstd::string::StringExecFns;

verus! {

/// What went wrong.
#[derive(Clone, Copy, Debug, PartialEq, Eq, Structural)]
pub enum ErrorKind {
    DbQueryFailed,
    DeserializationFailed,
    EntityNotFound,
    SerializationFailed,
    TaskAlreadyProcessing,
    FileAlredyExists,
    AMQPError,
    CalcMetricsFailed,
    InvalidSettingsRequest,
    WorkerRequestFailed,
}

/// The name an error kind is shown under.
pub open spec fn kind_label(kind: ErrorKind) -> &'static str {
    match kind {
        ErrorKind::DbQueryFailed => "DbQueryFailed",
        ErrorKind::DeserializationFailed => "DeserializationFailed",
        ErrorKind::EntityNotFound => "EntityNotFound",
        ErrorKind::SerializationFailed => "SerializationFailed",
        ErrorKind::TaskAlreadyProcessing => "TaskAlreadyProcessing",
        ErrorKind::FileAlredyExists => "FileAlredyExists",
        ErrorKind::AMQPError => "AMQPError",
        ErrorKind::CalcMetricsFailed => "CalcMetricsFailed",
        ErrorKind::InvalidSettingsRequest => "InvalidSettingsRequest",
        ErrorKind::WorkerRequestFailed => "WorkerRequestFailed",
    }
}

/// The HTTP status code an error kind is answered with.
pub open spec fn status_of(kind: ErrorKind) -> u16 {
    match kind {
        ErrorKind::DbQueryFailed => 422,
        ErrorKind::EntityNotFound => 404,
        ErrorKind::TaskAlreadyProcessing => 400,
        ErrorKind::FileAlredyExists => 400,
        ErrorKind::InvalidSettingsRequest => 400,
        _ => 500,
    }
}

impl ErrorKind {
    /// The name the kind is shown under.
    pub fn name(&self) -> (r: &'static str)
        ensures
            r == kind_label(*self),
    {
        match self {
            ErrorKind::DbQueryFailed => "DbQueryFailed",
            ErrorKind::DeserializationFailed => "DeserializationFailed",
            ErrorKind::EntityNotFound => "EntityNotFound",
            ErrorKind::SerializationFailed => "SerializationFailed",
            ErrorKind::TaskAlreadyProcessing => "TaskAlreadyProcessing",
            ErrorKind::FileAlredyExists => "FileAlredyExists",
            ErrorKind::AMQPError => "AMQPError",
            ErrorKind::CalcMetricsFailed => "CalcMetricsFailed",
            ErrorKind::InvalidSettingsRequest => "InvalidSettingsRequest",
            ErrorKind::WorkerRequestFailed => "WorkerRequestFailed",
        }
    }

    /// The HTTP status code the kind is answered with.
    pub fn status_code(&self) -> (r: u16)
        ensures
            r == status_of(*self),
    {
        match self {
            ErrorKind::DbQueryFailed => 422,
            ErrorKind::EntityNotFound => 404,
            ErrorKind::TaskAlreadyProcessing => 400,
            ErrorKind::FileAlredyExists => 400,
            ErrorKind::InvalidSettingsRequest => 400,
            _ => 500,
        }
    }
}

/// An error of some kind, with an optional description of its cause.
#[derive(Clone, Debug)]
pub struct Error {
    pub kind: ErrorKind,
    pub err: Option<String>,
}

impl Error {
    /// An error of `kind` caused by `err`.
    pub fn new(kind: ErrorKind, err: String) -> (r: Error)
        ensures
            r.kind == kind,
            r.err == Some(err),
    {
        Error { kind, err: Some(err) }
    }

    /// An error of `kind` with no further description.
    pub fn from_kind(kind: ErrorKind) -> (r: Error)
        ensures
            r.kind == kind,
            r.err is None,
    {
        Error { kind, err: None }
    }

    /// `Kind: cause`, or just `Kind` without a cause.
    pub fn message(&self) -> (r: String)
        ensures
            r@ == match self.err {
                Some(cause) => kind_label(self.kind)@ + seq![':', ' '] + cause@,
                None => kind_label(self.kind)@,
            },
    {
        let mut out = String::new();
        out.append(self.kind.name());
        match &self.err {
            Some(cause) => {
                proof {
                    reveal_strlit(": ");
                }
                out.append(": ");
                out.append(cause.as_str());
            },
            None => {},
        }
        out
    }
}

} // verus!
