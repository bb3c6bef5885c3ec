//! Checking the files on disk against the store.

use vstd::prelude::*;
use crate::db::dao::{Catalog, File};
use crate::db::model::CatalogView;
use crate::error::Result;
use crate::file_info::{identities, FileInfo, Identity};
use crate::location::Location;

verus! {

/// A difference between the files on disk and the store.
#[derive(Debug)]
pub enum Discrepancy {
    /// The file at this location has no row.
    Untracked(Location),
    /// The file at this location has a row, with another signature.
    SignatureMismatch(Location),
    /// The signature of the file at the first location belongs to the row
    /// at the second.
    LocationConflict(Location, Location),
    /// The row at this location has no file on disk.
    MissingFromFilesystem(Location),
}

/// A difference as the model has it.
pub enum DiscrepancyView {
    Untracked(Seq<char>),
    SignatureMismatch(Seq<char>),
    LocationConflict(Seq<char>, Seq<char>),
    MissingFromFilesystem(Seq<char>),
}

impl View for Discrepancy {
    type V = DiscrepancyView;

    open spec fn view(&self) -> DiscrepancyView {
        match self {
            Discrepancy::Untracked(l) => DiscrepancyView::Untracked(l@),
            Discrepancy::SignatureMismatch(l) => DiscrepancyView::SignatureMismatch(l@),
            Discrepancy::LocationConflict(l, m) => DiscrepancyView::LocationConflict(l@, m@),
            Discrepancy::MissingFromFilesystem(l) => DiscrepancyView::MissingFromFilesystem(l@),
        }
    }
}

/// The differences of a list as the model has them.
pub open spec fn discrepancies(list: Seq<Discrepancy>) -> Seq<DiscrepancyView> {
    list.map_values(|d: Discrepancy| d@)
}

/// What the lookup by location finds wrong with a file: that it has no
/// row, or that its row has another signature.
pub open spec fn location_findings(v: CatalogView, file: Identity) -> Seq<DiscrepancyView> {
    if !v.has_file_at(file.location) {
        seq![DiscrepancyView::Untracked(file.location)]
    } else if v.files[v.file_at(file.location)].signature != file.signature {
        seq![DiscrepancyView::SignatureMismatch(file.location)]
    } else {
        Seq::empty()
    }
}

/// What the lookup by signature finds wrong with a file: that another
/// location holds its signature.
pub open spec fn signature_findings(v: CatalogView, file: Identity) -> Seq<DiscrepancyView> {
    if v.held_elsewhere(file.location, file.signature) {
        seq![
            DiscrepancyView::LocationConflict(
                file.location,
                v.files[v.file_with(file.signature)].location,
            ),
        ]
    } else {
        Seq::empty()
    }
}

/// The differences between one file on disk and the store.
pub open spec fn check_step(v: CatalogView, file: Identity) -> Seq<DiscrepancyView> {
    location_findings(v, file) + signature_findings(v, file)
}

/// The differences between the files on disk and the store, file by file
/// in their order.
pub open spec fn check(v: CatalogView, files: Seq<Identity>) -> Seq<DiscrepancyView>
    decreases files.len(),
{
    if files.len() == 0 {
        Seq::empty()
    } else {
        check(v, files.drop_last()) + check_step(v, files.last())
    }
}

/// The differences between one file on disk and the store. The store is
/// left as it is.
pub fn check_file(store: &Catalog, file_info: &FileInfo) -> (r: Result<Vec<Discrepancy>>)
    requires
        store.wf(),
    ensures
        r matches Ok(found) && discrepancies(found@) == check_step(store@, file_info@),
{
    let mut found: Vec<Discrepancy> = Vec::new();
    match File::by_location(store, &file_info.location)? {
        Some(row) => {
            if !row.signatures_eq(file_info) {
                found.push(Discrepancy::SignatureMismatch(file_info.location.clone()));
            }
        },
        None => {
            found.push(Discrepancy::Untracked(file_info.location.clone()));
        },
    }
    assert(discrepancies(found@) =~= location_findings(store@, file_info@));
    match File::by_signature(store, &file_info.signature)? {
        Some(row) => {
            if !row.locations_eq(file_info) {
                found.push(Discrepancy::LocationConflict(file_info.location.clone(), row.location));
            }
        },
        None => {},
    }
    assert(discrepancies(found@) =~= check_step(store@, file_info@));
    Ok(found)
}

/// The differences between the files on disk and the store, file by file
/// in their order. The store is left as it is.
pub fn do_check_file_system(store: &Catalog, files: &Vec<FileInfo>) -> (r: Result<
    Vec<Discrepancy>,
>)
    requires
        store.wf(),
    ensures
        r matches Ok(found) && discrepancies(found@) == check(store@, identities(files@)),
{
    let ghost all = identities(files@);
    let mut found: Vec<Discrepancy> = Vec::new();
    let mut i: usize = 0;
    while i < files.len()
        invariant
            i <= files.len(),
            store.wf(),
            all == identities(files@),
            discrepancies(found@) == check(store@, all.take(i as int)),
        decreases files.len() - i,
    {
        proof {
            assert(all.take(i + 1).drop_last() == all.take(i as int));
            assert(all.take(i + 1).last() == files[i as int]@);
        }
        let ghost before = found@;
        let mut more = check_file(store, &files[i])?;
        let ghost added = more@;
        found.append(&mut more);
        assert(discrepancies(found@) =~= discrepancies(before) + discrepancies(added));
        i = i + 1;
    }
    assert(all.take(i as int) == all);
    Ok(found)
}

} // verus!
