//! The error kinds of the catalog engine.

use vstd::prelude::*;
use crate::location::Location;

verus! {

/// The kind of an [`Error`], without what it carries.
#[derive(Debug, Clone, Copy, PartialEq, Eq, Structural)]
pub enum ErrorKind {
    User,
    Internal,
    Io,
    PathNotUnderRoot,
    NonUtf8Path,
    Store,
    Duplicate,
    UnresolvedPaths,
    SchemaDrift,
}

/// What went wrong in an operation of the catalog.
#[derive(Debug)]
pub enum Error {
    /// A message meant for the user.
    User(String),
    /// A failure inside a named facility.
    Internal(&'static str, String),
    /// A file or a directory could not be read.
    Io(String),
    /// The path does not lie under the catalog root.
    PathNotUnderRoot,
    /// The path has no portable text form.
    NonUtf8Path,
    /// The store refused an operation that is no duplicate.
    Store(String),
    /// The identity collides with a row of the file table.
    Duplicate,
    /// These locations have no row in the file table.
    UnresolvedPaths(Vec<Location>),
    /// The recorded migrations and the schema disagree.
    SchemaDrift,
}

/// What an operation of the catalog gives.
pub type Result<T> = std::result::Result<T, Error>;

impl Error {
    /// The kind of this error.
    pub open spec fn spec_kind(&self) -> ErrorKind {
        match self {
            Error::User(_) => ErrorKind::User,
            Error::Internal(_, _) => ErrorKind::Internal,
            Error::Io(_) => ErrorKind::Io,
            Error::PathNotUnderRoot => ErrorKind::PathNotUnderRoot,
            Error::NonUtf8Path => ErrorKind::NonUtf8Path,
            Error::Store(_) => ErrorKind::Store,
            Error::Duplicate => ErrorKind::Duplicate,
            Error::UnresolvedPaths(_) => ErrorKind::UnresolvedPaths,
            Error::SchemaDrift => ErrorKind::SchemaDrift,
        }
    }

    /// The kind of this error.
    #[verifier::when_used_as_spec(spec_kind)]
    pub fn kind(&self) -> (k: ErrorKind)
        ensures
            k == self.spec_kind(),
    {
        match self {
            Error::User(_) => ErrorKind::User,
            Error::Internal(_, _) => ErrorKind::Internal,
            Error::Io(_) => ErrorKind::Io,
            Error::PathNotUnderRoot => ErrorKind::PathNotUnderRoot,
            Error::NonUtf8Path => ErrorKind::NonUtf8Path,
            Error::Store(_) => ErrorKind::Store,
            Error::Duplicate => ErrorKind::Duplicate,
            Error::UnresolvedPaths(_) => ErrorKind::UnresolvedPaths,
            Error::SchemaDrift => ErrorKind::SchemaDrift,
        }
    }
}

/// An internal error of the facility `facility` with the given message.
pub fn internal_error(facility: &'static str, message: String) -> (e: Error)
    ensures
        e matches Error::Internal(f, m) && f@ == facility@ && m@ == message@,
{
    Error::Internal(facility, message)
}

/// The kind of the error of a result, the value kept as it is.
pub open spec fn kind_of<T>(r: Result<T>) -> std::result::Result<T, ErrorKind> {
    match r {
        Ok(v) => Ok(v),
        Err(e) => Err(e.spec_kind()),
    }
}

} // verus!
