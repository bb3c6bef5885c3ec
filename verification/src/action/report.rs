//! Reporting what the store holds at the location and at the signature of
//! each file found on disk.

use vstd::prelude::*;
use crate::db::dao::{Catalog, File};
use crate::db::model::{CatalogView, FileView};
use crate::error::Result;
use crate::file_info::{identities, FileInfo, Identity};

verus! {

/// What the store holds for one file found on disk.
#[derive(Debug)]
pub struct FileReport {
    /// The row at the location of the file, if there is one.
    pub with_same_location: Option<File>,
    /// Whether that row has the signature of the file.
    pub signatures_match: bool,
    /// The row with the signature of the file, if there is one.
    pub with_same_signature: Option<File>,
    /// Whether that row is at the location of the file.
    pub locations_match: bool,
}

/// A report as the model has it.
pub struct FileReportView {
    pub with_same_location: Option<FileView>,
    pub signatures_match: bool,
    pub with_same_signature: Option<FileView>,
    pub locations_match: bool,
}

/// The row of an optional row as the model has it.
pub open spec fn row_view(row: Option<File>) -> Option<FileView> {
    match row {
        Some(r) => Some(r@),
        None => None,
    }
}

impl View for FileReport {
    type V = FileReportView;

    open spec fn view(&self) -> FileReportView {
        FileReportView {
            with_same_location: row_view(self.with_same_location),
            signatures_match: self.signatures_match,
            with_same_signature: row_view(self.with_same_signature),
            locations_match: self.locations_match,
        }
    }
}

/// The reports of a list as the model has them.
pub open spec fn reports(list: Seq<FileReport>) -> Seq<FileReportView> {
    list.map_values(|r: FileReport| r@)
}

/// What the store holds for `file`.
pub open spec fn report_step(v: CatalogView, file: Identity) -> FileReportView {
    FileReportView {
        with_same_location: if v.has_file_at(file.location) {
            Some(v.files[v.file_at(file.location)])
        } else {
            None
        },
        signatures_match: v.has_file_at(file.location) && v.files[v.file_at(
            file.location,
        )].signature == file.signature,
        with_same_signature: if v.has_file_with(file.signature) {
            Some(v.files[v.file_with(file.signature)])
        } else {
            None
        },
        locations_match: v.has_file_with(file.signature) && v.files[v.file_with(
            file.signature,
        )].location == file.location,
    }
}

/// What the store holds for each of `files`.
pub open spec fn report(v: CatalogView, files: Seq<Identity>) -> Seq<FileReportView> {
    files.map_values(|file: Identity| report_step(v, file))
}

/// What the store holds at the location and at the signature of each of
/// `files`, in their order. The store is left as it is.
pub fn do_report(store: &Catalog, files: &Vec<FileInfo>) -> (r: Result<Vec<FileReport>>)
    requires
        store.wf(),
    ensures
        r matches Ok(found) && reports(found@) == report(store@, identities(files@)),
{
    let mut found: Vec<FileReport> = Vec::new();
    let mut i: usize = 0;
    while i < files.len()
        invariant
            i <= files.len(),
            store.wf(),
            found.len() == i,
            forall|k: int| 0 <= k < i ==> (#[trigger] found[k])@ == report_step(store@, files[k]@),
        decreases files.len() - i,
    {
        let with_same_location = File::by_location(store, &files[i].location)?;
        let signatures_match = match &with_same_location {
            Some(row) => row.signatures_eq(&files[i]),
            None => false,
        };
        let with_same_signature = File::by_signature(store, &files[i].signature)?;
        let locations_match = match &with_same_signature {
            Some(row) => row.locations_eq(&files[i]),
            None => false,
        };
        found.push(
            FileReport {
                with_same_location,
                signatures_match,
                with_same_signature,
                locations_match,
            },
        );
        i = i + 1;
    }
    assert(reports(found@) =~= report(store@, identities(files@)));
    Ok(found)
}

} // verus!
