//! Listing the cataloged files.

use vstd::prelude::*;
use crate::db::dao::{file_rows, Catalog, File};
use crate::db::model::{file_locations, like_location, CatalogView};
use crate::error::Result;
use crate::like::Like;
use crate::text::{is_sorted, owned, sorted_by_text, str_texts, string_texts};

verus! {

/// The locations of the rows of the file table, or of those of them whose
/// location matches `like`, in the order of the table.
pub open spec fn listed_files(v: CatalogView, like: Option<Seq<char>>) -> Seq<Seq<char>> {
    file_locations(
        match like {
            Some(pattern) => v.files.filter(like_location(pattern)),
            None => v.files,
        },
    )
}

/// The pattern of a filter, if there is one.
pub open spec fn pattern_of(like: Option<Like>) -> Option<Seq<char>> {
    match like {
        Some(l) => Some(l@),
        None => None,
    }
}

/// The locations of the cataloged files, or of those of them whose
/// location matches `like`, sorted.
pub fn do_list_files(store: &Catalog, like: Option<Like>) -> (r: Result<Vec<String>>)
    ensures
        r matches Ok(listed) && is_sorted(string_texts(listed@)) && string_texts(
            listed@,
        ).to_multiset() == listed_files(store@, pattern_of(like)).to_multiset(),
{
    let ghost wanted = listed_files(store@, pattern_of(like));
    let rows = File::all(store, like)?;
    let mut names: Vec<&str> = Vec::new();
    let mut i: usize = 0;
    while i < rows.len()
        invariant
            i <= rows.len(),
            names.len() == i,
            forall|k: int| 0 <= k < i ==> (#[trigger] names[k])@ == rows[k].location@,
        decreases rows.len() - i,
    {
        names.push(rows[i].location.as_str());
        i = i + 1;
    }
    assert(str_texts(names@) =~= file_locations(file_rows(rows@)));
    Ok(owned(&sorted_by_text(names)))
}

} // verus!
