//! The failures that the engine reports.

use vstd::prelude::*;

verus! {

/// The kinds of failure that the engine reports.
#[derive(Clone, Copy, Debug, PartialEq, Eq, Structural)]
pub enum ErrorKind {
    /// The model does not support the operation, for instance because its
    /// synthesis configuration has another shape than the caller expects.
    ModelCapability,
    /// A speaker name that the model does not know.
    NotFound,
    /// An operation that was rejected for another reason.
    Operation,
    /// Audio could not be written out.
    Io,
    /// The model failed while it computed audio.
    Inference,
}

/// A failure, with a message for the reader.
#[derive(Clone, Debug, PartialEq, Eq)]
pub enum SonataError {
    ModelCapability(String),
    NotFound(String),
    Operation(String),
    Io(String),
    Inference(String),
}

/// A failure as contracts see it: its kind and the characters of its message.
pub ghost struct ErrorView {
    pub kind: ErrorKind,
    pub message: Seq<char>,
}

impl View for SonataError {
    type V = ErrorView;

    open spec fn view(&self) -> ErrorView {
        match self {
            SonataError::ModelCapability(m) => ErrorView { kind: ErrorKind::ModelCapability, message: m@ },
            SonataError::NotFound(m) => ErrorView { kind: ErrorKind::NotFound, message: m@ },
            SonataError::Operation(m) => ErrorView { kind: ErrorKind::Operation, message: m@ },
            SonataError::Io(m) => ErrorView { kind: ErrorKind::Io, message: m@ },
            SonataError::Inference(m) => ErrorView { kind: ErrorKind::Inference, message: m@ },
        }
    }
}

impl SonataError {
    /// The kind of this failure.
    pub fn kind(&self) -> (kind: ErrorKind)
        ensures
            kind == self@.kind,
    {
        match self {
            SonataError::ModelCapability(_) => ErrorKind::ModelCapability,
            SonataError::NotFound(_) => ErrorKind::NotFound,
            SonataError::Operation(_) => ErrorKind::Operation,
            SonataError::Io(_) => ErrorKind::Io,
            SonataError::Inference(_) => ErrorKind::Inference,
        }
    }

    /// The message of this failure.
    pub fn message(&self) -> (message: &String)
        ensures
            message@ == self@.message,
    {
        match self {
            SonataError::ModelCapability(m) => m,
            SonataError::NotFound(m) => m,
            SonataError::Operation(m) => m,
            SonataError::Io(m) => m,
            SonataError::Inference(m) => m,
        }
    }
}

} // verus!
