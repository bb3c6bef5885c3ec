//! Listing the tags.

use vstd::prelude::*;
use crate::action::list_files::pattern_of;
use crate::db::dao::{tag_rows, Catalog, Tag};
use crate::db::model::{like_name, tag_names, CatalogView};
use crate::error::Result;
use crate::like::Like;
use crate::text::{is_sorted, owned, sorted_by_text, str_texts, string_texts};

verus! {

/// The names of the rows of the tag table, or of those of them whose name
/// matches `like`, in the order of the table.
pub open spec fn listed_tags(v: CatalogView, like: Option<Seq<char>>) -> Seq<Seq<char>> {
    tag_names(
        match like {
            Some(pattern) => v.tags.filter(like_name(pattern)),
            None => v.tags,
        },
    )
}

/// The names of the tags, or of those of them whose name matches `like`,
/// sorted.
pub fn do_list_tags(store: &Catalog, like: Option<Like>) -> (r: Result<Vec<String>>)
    ensures
        r matches Ok(listed) && is_sorted(string_texts(listed@)) && string_texts(
            listed@,
        ).to_multiset() == listed_tags(store@, pattern_of(like)).to_multiset(),
{
    let rows = Tag::all(store, like)?;
    let mut names: Vec<&str> = Vec::new();
    let mut i: usize = 0;
    while i < rows.len()
        invariant
            i <= rows.len(),
            names.len() == i,
            forall|k: int| 0 <= k < i ==> (#[trigger] names[k])@ == rows[k].name@,
        decreases rows.len() - i,
    {
        names.push(rows[i].name.as_str());
        i = i + 1;
    }
    assert(str_texts(names@) =~= tag_names(tag_rows(rows@)));
    Ok(owned(&sorted_by_text(names)))
}

} // verus!
