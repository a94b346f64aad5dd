//! The errors that a request can end in, and the HTTP status of each.

use vstd::prelude::*;

verus! {

/// What went wrong, by the way the caller is told.
#[derive(Clone, Copy, Debug, PartialEq, Eq, Structural)]
pub enum ErrorKind {
    /// The request itself is not acceptable: an unknown federation, a swap of
    /// a federation with itself, or too little balance at the destination.
    Validation,
    /// A client could not be built for the federation.
    Build,
    /// The registration record could not be stored.
    Store,
    /// The federation reported that the redemption failed.
    Redemption,
    /// The stream of redemption states ended without a final state.
    NoTerminalOutcome,
    /// The notes could not be issued at the destination.
    Minting,
}

/// The HTTP status under which an error of this kind is reported.
pub open spec fn status_of(kind: ErrorKind) -> u16 {
    match kind {
        ErrorKind::Validation => 400,
        ErrorKind::Build => 409,
        ErrorKind::Store => 409,
        ErrorKind::Redemption => 500,
        ErrorKind::NoTerminalOutcome => 500,
        ErrorKind::Minting => 500,
    }
}

/// An error as a handler reports it: its kind and a message for the caller.
#[derive(Debug, PartialEq, Eq)]
pub struct AppError {
    pub kind: ErrorKind,
    pub message: String,
}

/// What an [`AppError`] says, with the message as a sequence of characters.
pub struct AppErrorView {
    pub kind: ErrorKind,
    pub message: Seq<char>,
}

impl View for AppError {
    type V = AppErrorView;

    open spec fn view(&self) -> AppErrorView {
        AppErrorView { kind: self.kind, message: self.message@ }
    }
}

impl Clone for AppError {
    fn clone(&self) -> (copy: Self)
        ensures
            copy@ == self@,
    {
        AppError { kind: self.kind, message: self.message.clone() }
    }
}

impl AppError {
    /// An error of the given kind with the given message.
    pub fn new(kind: ErrorKind, message: String) -> (error: AppError)
        ensures
            error@ == (AppErrorView { kind, message: message@ }),
    {
        AppError { kind, message }
    }

    /// The HTTP status under which this error is reported.
    pub fn status(&self) -> (code: u16)
        ensures
            code == status_of(self.kind),
    {
        match self.kind {
            ErrorKind::Validation => 400,
            ErrorKind::Build => 409,
            ErrorKind::Store => 409,
            ErrorKind::Redemption => 500,
            ErrorKind::NoTerminalOutcome => 500,
            ErrorKind::Minting => 500,
        }
    }

    /// Whether the request was refused before anything was done for it.
    pub fn is_validation(&self) -> (r: bool)
        ensures
            r == (self.kind == ErrorKind::Validation),
    {
        match self.kind {
            ErrorKind::Validation => true,
            _ => false,
        }
    }
}

} // verus!
