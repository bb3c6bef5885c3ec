//! Rebuilding: recording every file of the tree, as a scan does.

use vstd::prelude::*;
use crate::action::scan::{do_scan, scan};
use crate::db::dao::Catalog;
use crate::error::{ErrorKind, Result};
use crate::file_info::{identities, FileInfo};

verus! {

/// Records the files in their order. A file that collides with a row of
/// the file table goes to the duplicate table and the rebuild goes on; a
/// failure of the store ends it, with the earlier files recorded.
pub fn do_rebuild(store: &mut Catalog, files: &Vec<FileInfo>) -> (r: Result<()>)
    requires
        old(store).wf(),
    ensures
        final(store).wf(),
        final(store)@ == scan(old(store)@, identities(files@)).store,
        match r {
            Ok(_) => scan(old(store)@, identities(files@)).failed is None,
            Err(e) => e.spec_kind() == ErrorKind::Store && scan(
                old(store)@,
                identities(files@),
            ).failed == Some(ErrorKind::Store),
        },
{
    match do_scan(store, files) {
        Ok(_) => Ok(()),
        Err(e) => Err(e),
    }
}

} // verus!
