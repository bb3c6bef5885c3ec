//! Dumping the whole store.

use vstd::prelude::*;
use crate::db::dao::{
    duplicate_rows, file_rows, link_rows, tag_rows, Catalog, DuplicateFile, File, FileTag, Tag,
};
use crate::error::Result;
use crate::project::Project;

verus! {

/// A project and every row of its store.
#[derive(Debug)]
pub struct Dump {
    pub dir: String,
    pub db_path: String,
    pub files: Vec<File>,
    pub duplicate_files: Vec<DuplicateFile>,
    pub tags: Vec<Tag>,
    pub file_tags: Vec<FileTag>,
}

/// The places of the project and every row of the store, each table in its
/// order.
pub fn do_dump(project: &Project, store: &Catalog) -> (r: Result<Dump>)
    ensures
        r matches Ok(dump) && dump.dir@ == project.dir@ && dump.db_path@ == project.db_path@
            && file_rows(dump.files@) == store@.files && duplicate_rows(dump.duplicate_files@)
            == store@.duplicate_files && tag_rows(dump.tags@) == store@.tags && link_rows(
            dump.file_tags@,
        ) == store@.file_tags,
{
    Ok(
        Dump {
            dir: project.dir.clone(),
            db_path: project.db_path.clone(),
            files: File::all(store, None)?,
            duplicate_files: DuplicateFile::all(store)?,
            tags: Tag::all(store, None)?,
            file_tags: FileTag::all(store)?,
        },
    )
}

} // verus!
