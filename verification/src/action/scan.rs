//! Scanning: bringing the store up to date with the files found on disk.

use vstd::prelude::*;
use crate::db::dao::{Catalog, DuplicateFile, File, Id};
use crate::db::model::CatalogView;
use crate::error::{Error, ErrorKind, Result};
use crate::file_info::{identities, FileInfo, Identity};

verus! {

/// What became of one file of a scan.
#[derive(Debug, Clone, Copy, PartialEq, Eq, Structural)]
pub enum ScanOutcome {
    /// The file has its row in the file table, with this id.
    Added(Id),
    /// The file collided with another and has its row in the duplicate
    /// table, with this id.
    Duplicate(Id),
}

/// What a scan did.
#[derive(Debug)]
pub struct ScanReport {
    /// How many files have their row in the file table.
    pub added_count: usize,
    /// How many files went to the duplicate table.
    pub duplicate_count: usize,
    /// The files that went to the duplicate table, in the order of the scan.
    pub duplicates: Vec<FileInfo>,
}

/// One file of a scan: an upsert into the file table, and where that is
/// refused as a duplicate, an upsert into the duplicate table.
pub open spec fn scan_step(v: CatalogView, file: Identity) -> (
    CatalogView,
    std::result::Result<ScanOutcome, ErrorKind>,
) {
    let (v1, r1) = v.upsert_file(file.location, file.signature);
    match r1 {
        Ok(id) => (v1, Ok(ScanOutcome::Added(id))),
        Err(ErrorKind::Duplicate) => {
            let (v2, r2) = v.upsert_duplicate(file.location, file.signature);
            match r2 {
                Ok(id) => (v2, Ok(ScanOutcome::Duplicate(id))),
                Err(kind) => (v2, Err(kind)),
            }
        },
        Err(kind) => (v1, Err(kind)),
    }
}

/// The state of a scan after some of its files.
pub struct Scan {
    pub store: CatalogView,
    pub added: nat,
    pub duplicates: Seq<Identity>,
    pub failed: Option<ErrorKind>,
}

/// A scan of `files` in their order, which ends at the first file that
/// fails otherwise than as a duplicate.
pub open spec fn scan(v: CatalogView, files: Seq<Identity>) -> Scan
    decreases files.len(),
{
    if files.len() == 0 {
        Scan { store: v, added: 0, duplicates: Seq::empty(), failed: None }
    } else {
        let before = scan(v, files.drop_last());
        if before.failed is Some {
            before
        } else {
            let (store, r) = scan_step(before.store, files.last());
            match r {
                Ok(ScanOutcome::Added(_)) => Scan { store, added: before.added + 1, ..before },
                Ok(ScanOutcome::Duplicate(_)) => Scan {
                    store,
                    duplicates: before.duplicates.push(files.last()),
                    ..before
                },
                Err(kind) => Scan { store, failed: Some(kind), ..before },
            }
        }
    }
}

/// The outcome in a result, with the kind of the error.
pub open spec fn outcome_of(r: Result<ScanOutcome>) -> std::result::Result<
    ScanOutcome,
    ErrorKind,
> {
    match r {
        Ok(o) => Ok(o),
        Err(e) => Err(e.spec_kind()),
    }
}

/// Records one file: in the file table where it can stand there, else in
/// the duplicate table.
pub fn scan_file(store: &mut Catalog, file_info: &FileInfo) -> (r: Result<ScanOutcome>)
    requires
        old(store).wf(),
    ensures
        final(store).wf(),
        (final(store)@, outcome_of(r)) == scan_step(old(store)@, file_info@),
{
    match File::upsert(store, file_info) {
        Ok(id) => Ok(ScanOutcome::Added(id)),
        Err(Error::Duplicate) => {
            match DuplicateFile::upsert(store, file_info) {
                Ok(id) => Ok(ScanOutcome::Duplicate(id)),
                Err(e) => Err(e),
            }
        },
        Err(e) => Err(e),
    }
}

/// Records the files in their order. A file that collides with a row of
/// the file table goes to the duplicate table and the scan goes on; any
/// other failure ends it, with the earlier files recorded.
pub fn do_scan(store: &mut Catalog, files: &Vec<FileInfo>) -> (r: Result<ScanReport>)
    requires
        old(store).wf(),
    ensures
        final(store).wf(),
        final(store)@ == scan(old(store)@, identities(files@)).store,
        match r {
            Ok(report) => {
                let s = scan(old(store)@, identities(files@));
                &&& s.failed is None
                &&& report.added_count == s.added
                &&& report.duplicate_count == s.duplicates.len()
                &&& identities(report.duplicates@) == s.duplicates
            },
            Err(e) => e.spec_kind() == ErrorKind::Store && scan(
                old(store)@,
                identities(files@),
            ).failed == Some(ErrorKind::Store),
        },
{
    proof {
        lemma_scan_fails_of_the_store(store@, identities(files@));
    }
    let ghost all = identities(files@);
    let ghost start = store@;
    let mut added_count: usize = 0;
    let mut duplicates: Vec<FileInfo> = Vec::new();
    let mut i: usize = 0;
    while i < files.len()
        invariant
            i <= files.len(),
            store.wf(),
            all == identities(files@),
            start == old(store)@,
            scan(start, all.take(i as int)).failed is None,
            store@ == scan(start, all.take(i as int)).store,
            added_count == scan(start, all.take(i as int)).added,
            identities(duplicates@) == scan(start, all.take(i as int)).duplicates,
            added_count + duplicates.len() <= i,
        decreases files.len() - i,
    {
        proof {
            assert(all.take(i + 1).drop_last() == all.take(i as int));
            assert(all.take(i + 1).last() == files[i as int]@);
        }
        match scan_file(store, &files[i]) {
            Ok(ScanOutcome::Added(_)) => {
                added_count = added_count + 1;
            },
            Ok(ScanOutcome::Duplicate(_)) => {
                duplicates.push(files[i].clone());
                assert(identities(duplicates@) =~= scan(start, all.take(i as int)).duplicates.push(
                    files[i as int]@,
                ));
            },
            Err(e) => {
                proof {
                    lemma_scan_stays_failed(start, all, i + 1);
                }
                return Err(e);
            },
        }
        i = i + 1;
    }
    assert(all.take(i as int) == all);
    Ok(ScanReport { added_count, duplicate_count: duplicates.len(), duplicates })
}

/// A scan fails of the store alone: a duplicate never ends it.
pub proof fn lemma_scan_fails_of_the_store(v: CatalogView, files: Seq<Identity>)
    ensures
        scan(v, files).failed is None || scan(v, files).failed == Some(ErrorKind::Store),
    decreases files.len(),
{
    if files.len() > 0 {
        lemma_scan_fails_of_the_store(v, files.drop_last());
    }
}

/// A scan that has failed after `n` files is the whole scan.
pub proof fn lemma_scan_stays_failed(v: CatalogView, files: Seq<Identity>, n: int)
    requires
        0 <= n <= files.len(),
        scan(v, files.take(n)).failed is Some,
    ensures
        scan(v, files) == scan(v, files.take(n)),
    decreases files.len() - n,
{
    if n < files.len() {
        assert(files.take(n + 1).drop_last() == files.take(n));
        lemma_scan_stays_failed(v, files, n + 1);
    } else {
        assert(files.take(n) == files);
    }
}

} // verus!
