//! Showing one cataloged file with its tags.

use vstd::prelude::*;
use crate::db::dao::{link_rows, tag_rows, Catalog, File, FileTag, Id, Tag};
use crate::db::model::{tag_names, CatalogView, LinkView, TagView};
use crate::error::{Error, Result};
use crate::location::{location_from, Location};
use crate::project::Project;
use crate::signature::Signature;
use crate::text::{is_sorted, owned, sorted_by_text, str_texts, string_texts};

verus! {

/// What the store knows of one file.
#[derive(Debug)]
pub struct FileDetails {
    pub path: String,
    pub location: Location,
    pub signature: Signature,
    /// The names of the tags of the file, sorted.
    pub tags: Vec<String>,
}

/// Whether one of `links` gives the file `file_id` the tag `tag_id`.
pub open spec fn is_given(links: Seq<LinkView>, file_id: i64, tag_id: i64) -> bool {
    exists|k: int|
        0 <= k < links.len() && (#[trigger] links[k]).file_id == file_id && links[k].tag_id
            == tag_id
}

/// The tags that the file `file_id` has.
pub open spec fn given_to(links: Seq<LinkView>, file_id: i64) -> spec_fn(TagView) -> bool {
    |t: TagView| is_given(links, file_id, t.id)
}

/// The names of the tags of the file `file_id`, in the order of the tag
/// table.
pub open spec fn tags_of(v: CatalogView, file_id: i64) -> Seq<Seq<char>> {
    tag_names(v.tags.filter(given_to(v.file_tags, file_id)))
}

/// Whether one of `links` gives the file `file_id` the tag `tag_id`.
fn given(links: &Vec<FileTag>, file_id: Id, tag_id: Id) -> (r: bool)
    ensures
        r == is_given(link_rows(links@), file_id, tag_id),
{
    let ghost rows = link_rows(links@);
    let mut k: usize = 0;
    while k < links.len()
        invariant
            k <= links.len(),
            rows == link_rows(links@),
            forall|j: int|
                0 <= j < k ==> !((#[trigger] rows[j]).file_id == file_id && rows[j].tag_id
                    == tag_id),
        decreases links.len() - k,
    {
        assert(rows[k as int] == links[k as int]@);
        if links[k].file_id == file_id && links[k].tag_id == tag_id {
            return true;
        }
        k = k + 1;
    }
    false
}

/// The location, the signature and the tags of the file at `path`. A path
/// outside the root of the project is refused, and so is one without a
/// row in the file table.
pub fn do_show_file(project: &Project, store: &Catalog, path: &str) -> (r: Result<FileDetails>)
    requires
        store.wf(),
    ensures
        match location_from(project.dir@, path@, project.separator) {
            Err(kind) => r matches Err(e) && e.spec_kind() == kind,
            Ok(location) => if store@.has_file_at(location) {
                let row = store@.files[store@.file_at(location)];
                &&& r matches Ok(details)
                &&& details.path@ == path@
                &&& details.location@ == location
                &&& details.signature@ == row.signature
                &&& is_sorted(string_texts(details.tags@))
                &&& string_texts(details.tags@).to_multiset() == tags_of(
                    store@,
                    row.id,
                ).to_multiset()
            } else {
                r matches Err(Error::UnresolvedPaths(missing)) && missing@.len() == 1
                    && missing@[0]@ == location
            },
        },
{
    let location = Location::from_os_path(project.dir.as_str(), path, project.separator)?;
    let file = match File::by_location(store, &location)? {
        Some(row) => row,
        None => {
            return Err(Error::UnresolvedPaths(vec![location]));
        },
    };
    let tags = Tag::all(store, None)?;
    let links = FileTag::all(store)?;
    let ghost table = store@.tags;
    let ghost pred = given_to(store@.file_tags, file.id);
    let mut names: Vec<&str> = Vec::new();
    let mut i: usize = 0;
    assert(str_texts(names@) =~= tag_names(table.take(0).filter(pred))) by {
        reveal(Seq::filter);
    }
    while i < tags.len()
        invariant
            i <= tags.len(),
            table == tag_rows(tags@),
            pred == given_to(link_rows(links@), file.id),
            str_texts(names@) == tag_names(table.take(i as int).filter(pred)),
        decreases tags.len() - i,
    {
        proof {
            assert(table.take(i + 1) == table.take(i as int).push(table[i as int]));
            table.take(i as int).lemma_filter_push(table[i as int], pred);
        }
        if given(&links, file.id, tags[i].id) {
            let ghost before = str_texts(names@);
            names.push(tags[i].name.as_str());
            assert(str_texts(names@) =~= before.push(table[i as int].name));
            assert(tag_names(table.take(i as int).filter(pred).push(table[i as int]))
                =~= tag_names(table.take(i as int).filter(pred)).push(table[i as int].name));
        }
        i = i + 1;
    }
    assert(table.take(i as int) == table);
    let sorted = owned(&sorted_by_text(names));
    Ok(
        FileDetails {
            path: String::from_str(path),
            location: file.location,
            signature: file.signature,
            tags: sorted,
        },
    )
}

} // verus!
