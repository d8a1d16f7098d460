//! The per-request state machine: a resolved path is classified as a regular
//! file, a directory, or neither, and each class maps to exactly one terminal
//! action. Failures carry the HTTP status they are answered with.

use vstd::prelude::*;

verus! {

/// What the filesystem says about a resolved path.
#[derive(Clone, Copy, Debug, PartialEq, Eq, Structural)]
pub enum PathKind {
    /// The path is a regular file.
    File,
    /// The path is a directory.
    Directory,
    /// The path exists as neither (including plain nonexistence).
    Missing,
}

/// The terminal action chosen for one request.
#[derive(Clone, Copy, Debug, PartialEq, Eq, Structural)]
pub enum RequestAction {
    /// Stream the file's bytes as the response body.
    ServeFile,
    /// Enumerate the directory and respond with a rendered listing.
    ListDirectory,
    /// Respond with a not-found signal.
    NotFound,
}

/// The hard failures a request can end in, and the expected not-found outcome.
#[derive(Clone, Copy, Debug, PartialEq, Eq, Structural)]
pub enum Failure {
    /// The path resolves to neither a file nor a directory.
    NotFound,
    /// The directory exists but could not be read at all.
    EnumerationFailure,
    /// The rendering collaborator failed on a listing.
    RenderFailure,
}

/// Decides the one terminal action for a classified path: files are served,
/// directories are listed, and anything else is answered not-found — a
/// missing path never maps to an internal error.
pub fn plan_request(kind: PathKind) -> (action: RequestAction)
    ensures
        action == RequestAction::ServeFile <==> kind == PathKind::File,
        action == RequestAction::ListDirectory <==> kind == PathKind::Directory,
        action == RequestAction::NotFound <==> kind == PathKind::Missing,
{
    match kind {
        PathKind::File => RequestAction::ServeFile,
        PathKind::Directory => RequestAction::ListDirectory,
        PathKind::Missing => RequestAction::NotFound,
    }
}

impl Failure {
    /// The HTTP status code each failure is surfaced with: not-found is 404,
    /// the two hard errors are 500.
    pub fn status_code(&self) -> (code: u16)
        ensures
            code == 404 <==> *self == Failure::NotFound,
            code == 500 <==> *self != Failure::NotFound,
    {
        match self {
            Failure::NotFound => 404,
            Failure::EnumerationFailure => 500,
            Failure::RenderFailure => 500,
        }
    }
}

} // verus!
