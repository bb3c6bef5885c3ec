//! The identity of a file found on disk.

use vstd::prelude::*;
use crate::error::{ErrorKind, Result};
use crate::location::{location_from, Location};
use crate::signature::{content_signature, Signature};

verus! {

/// The two identities of a file: where it lies and what it holds.
#[derive(Debug)]
pub struct FileInfo {
    pub location: Location,
    pub signature: Signature,
}

/// The two identities as the model has them.
pub struct Identity {
    pub location: Seq<char>,
    pub signature: Seq<char>,
}

impl View for FileInfo {
    type V = Identity;

    open spec fn view(&self) -> Identity {
        Identity { location: self.location@, signature: self.signature@ }
    }
}

/// The identities of a list of files.
pub open spec fn identities(files: Seq<FileInfo>) -> Seq<Identity> {
    files.map_values(|f: FileInfo| f@)
}

/// The identity of the file at `path` that holds `content`, where the
/// path lies under `start_dir`, and a refusal where it does not.
pub open spec fn identity_from(
    start_dir: Seq<char>,
    path: Seq<char>,
    content: Seq<u8>,
    separator: char,
) -> std::result::Result<Identity, ErrorKind> {
    match location_from(start_dir, path, separator) {
        Ok(location) => Ok(Identity { location, signature: content_signature(content) }),
        Err(kind) => Err(kind),
    }
}

/// The identity in a result, with the kind of the error.
pub open spec fn identified(r: Result<FileInfo>) -> std::result::Result<Identity, ErrorKind> {
    match r {
        Ok(info) => Ok(info@),
        Err(e) => Err(e.spec_kind()),
    }
}

impl Clone for FileInfo {
    fn clone(&self) -> (info: Self)
        ensures
            info@ == self@,
    {
        Self { location: self.location.clone(), signature: self.signature.clone() }
    }
}

impl FileInfo {
    /// The identity of the file at `path`, which holds `content`, in a
    /// catalog rooted at `start_dir`; in the path syntax of this host.
    pub fn from_file(start_dir: &str, path: &str, content: &[u8]) -> (r: Result<Self>)
        ensures
            identified(r) == identity_from(start_dir@, path@, content@, '/') || identified(r)
                == identity_from(start_dir@, path@, content@, '\\'),
    {
        let location = Location::from_path(start_dir, path)?;
        let signature = Signature::from_file(content)?;
        Ok(Self { location, signature })
    }

    /// The identity of the file at `path`, which holds `content`, in a
    /// catalog rooted at `start_dir`, where `separator` parts the segments
    /// of a path.
    pub fn from_os_file(start_dir: &str, path: &str, content: &[u8], separator: char) -> (r:
        Result<Self>)
        ensures
            identified(r) == identity_from(start_dir@, path@, content@, separator),
    {
        let location = Location::from_os_path(start_dir, path, separator)?;
        let signature = Signature::from_file(content)?;
        Ok(Self { location, signature })
    }

    pub fn new(location: Location, signature: Signature) -> (info: Self)
        ensures
            info.location == location,
            info.signature == signature,
    {
        Self { location: location, signature: signature }
    }
}

} // verus!
