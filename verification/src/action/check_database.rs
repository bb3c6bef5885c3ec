//! Checking the store against the files on disk.

use vstd::prelude::*;
use crate::action::check_file_system::{discrepancies, Discrepancy, DiscrepancyView};
use crate::db::dao::{file_rows, Catalog, File};
use crate::db::model::FileView;
use crate::error::Result;
use crate::location::path_of;
use crate::project::Project;
use crate::text::string_texts;

verus! {

/// The path of each row of the file table under `root`.
pub open spec fn paths_of(files: Seq<FileView>, root: Seq<char>, separator: char) -> Seq<
    Seq<char>,
> {
    files.map_values(|row: FileView| path_of(root, row.location, separator))
}

/// The rows that are missing on disk, where `present` tells of each row,
/// in the order of the table, whether its file was found. A row that
/// `present` does not reach counts as missing.
pub open spec fn missing(files: Seq<FileView>, present: Seq<bool>) -> Seq<DiscrepancyView>
    decreases files.len(),
{
    if files.len() == 0 {
        Seq::empty()
    } else {
        let k = files.len() - 1;
        let before = missing(files.drop_last(), present);
        if k < present.len() && present[k] {
            before
        } else {
            before.push(DiscrepancyView::MissingFromFilesystem(files.last().location))
        }
    }
}

/// The path of each cataloged file, in the order of the file table: the
/// paths to look for on disk.
pub fn database_paths(project: &Project, store: &Catalog) -> (r: Result<Vec<String>>)
    ensures
        r matches Ok(paths) && string_texts(paths@) == paths_of(
            store@.files,
            project.dir@,
            project.separator,
        ),
{
    let files = File::all(store, None)?;
    let ghost wanted = paths_of(store@.files, project.dir@, project.separator);
    let mut paths: Vec<String> = Vec::new();
    let mut i: usize = 0;
    while i < files.len()
        invariant
            i <= files.len(),
            file_rows(files@) == store@.files,
            wanted == paths_of(store@.files, project.dir@, project.separator),
            paths.len() == i,
            forall|k: int| 0 <= k < i ==> (#[trigger] paths[k])@ == wanted[k],
        decreases files.len() - i,
    {
        assert(file_rows(files@)[i as int] == files[i as int]@);
        paths.push(files[i].location.to_os_path(project.dir.as_str(), project.separator));
        i = i + 1;
    }
    assert(string_texts(paths@) =~= wanted);
    Ok(paths)
}

/// The rows of the file table whose file is missing on disk, where
/// `present` tells of each path of [`database_paths`] whether a file is
/// there. The store is left as it is.
pub fn do_check_database(store: &Catalog, present: &Vec<bool>) -> (r: Result<Vec<Discrepancy>>)
    ensures
        r matches Ok(found) && discrepancies(found@) == missing(store@.files, present@),
{
    let files = File::all(store, None)?;
    let ghost table = store@.files;
    let mut found: Vec<Discrepancy> = Vec::new();
    let mut i: usize = 0;
    assert(discrepancies(found@) =~= missing(table.take(0), present@));
    while i < files.len()
        invariant
            i <= files.len(),
            table == file_rows(files@),
            discrepancies(found@) == missing(table.take(i as int), present@),
        decreases files.len() - i,
    {
        proof {
            assert(table.take(i + 1).drop_last() == table.take(i as int));
            assert(table.take(i + 1).last() == files[i as int]@);
        }
        if !(i < present.len() && present[i]) {
            let ghost before = discrepancies(found@);
            found.push(Discrepancy::MissingFromFilesystem(files[i].location.clone()));
            assert(discrepancies(found@) =~= before.push(
                DiscrepancyView::MissingFromFilesystem(files[i as int]@.location),
            ));
        }
        i = i + 1;
    }
    assert(table.take(i as int) == table);
    Ok(found)
}

} // verus!
