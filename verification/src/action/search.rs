//! Searching: the files that have one of some tags.

use vstd::prelude::*;
use crate::action::tag::names_in;
use crate::db::dao::{file_rows, link_rows, tag_rows, Catalog, File, FileTag, Id, Tag};
use crate::db::model::{
    file_locations, named_one_of, tag_ids, CatalogView, FileView, LinkView,
};
use crate::error::Result;
use crate::location::{texts, Location};
use crate::tag;
use crate::tag::names_of;

verus! {

/// Whether one of `links` gives the file `file_id` one of `tags`.
pub open spec fn is_tagged(links: Seq<LinkView>, file_id: i64, tags: Seq<i64>) -> bool {
    exists|k: int|
        0 <= k < links.len() && (#[trigger] links[k]).file_id == file_id && tags.contains(
            links[k].tag_id,
        )
}

/// The files that have one of `tags`.
pub open spec fn has_one_of(links: Seq<LinkView>, tags: Seq<i64>) -> spec_fn(FileView) -> bool {
    |file: FileView| is_tagged(links, file.id, tags)
}

/// The locations of the files that have at least one of the tags named in
/// `names`, each once, in the order of the file table.
pub open spec fn search(v: CatalogView, names: Seq<Seq<char>>) -> Seq<Seq<char>> {
    file_locations(
        v.files.filter(has_one_of(v.file_tags, tag_ids(v.tags.filter(named_one_of(names))))),
    )
}

/// Whether one of `links` gives the file `file_id` one of `tags`.
fn tagged(links: &Vec<FileTag>, file_id: Id, tags: &Vec<Id>) -> (r: bool)
    ensures
        r == is_tagged(link_rows(links@), file_id, tags@),
{
    let ghost rows = link_rows(links@);
    let mut k: usize = 0;
    while k < links.len()
        invariant
            k <= links.len(),
            rows == link_rows(links@),
            forall|j: int|
                0 <= j < k ==> !((#[trigger] rows[j]).file_id == file_id && tags@.contains(
                    rows[j].tag_id,
                )),
        decreases links.len() - k,
    {
        if links[k].file_id == file_id {
            let mut t: usize = 0;
            while t < tags.len()
                invariant
                    t <= tags.len(),
                    k < links.len(),
                    links[k as int].file_id == file_id,
                    rows == link_rows(links@),
                    forall|j: int| 0 <= j < t ==> tags[j] != links[k as int].tag_id,
                decreases tags.len() - t,
            {
                if tags[t] == links[k].tag_id {
                    assert(rows[k as int] == links[k as int]@);
                    assert(tags@[t as int] == rows[k as int].tag_id);
                    assert(rows[k as int].file_id == file_id && tags@.contains(
                        rows[k as int].tag_id,
                    ));
                    return true;
                }
                t = t + 1;
            }
            assert(rows[k as int] == links[k as int]@);
        }
        assert(rows[k as int] == links[k as int]@);
        k = k + 1;
    }
    false
}

/// The locations of the files that have at least one of `tags`, each
/// once, in the order of the file table.
pub fn do_search(store: &Catalog, tags: &Vec<tag::Tag>) -> (r: Result<Vec<Location>>)
    ensures
        r matches Ok(found) && texts(found@) == search(store@, names_of(tags@)),
{
    let names = names_in(tags);
    let wanted = Tag::all_by_names(store, &names)?;
    let mut ids: Vec<Id> = Vec::new();
    let mut n: usize = 0;
    while n < wanted.len()
        invariant
            n <= wanted.len(),
            ids.len() == n,
            forall|k: int| 0 <= k < n ==> ids[k] == wanted[k].id,
        decreases wanted.len() - n,
    {
        ids.push(wanted[n].id);
        n = n + 1;
    }
    assert(ids@ =~= tag_ids(tag_rows(wanted@)));
    let files = File::all(store, None)?;
    let links = FileTag::all(store)?;
    let ghost table = store@.files;
    let ghost pred = has_one_of(store@.file_tags, ids@);
    let mut found: Vec<Location> = Vec::new();
    let mut i: usize = 0;
    assert(texts(found@) =~= file_locations(table.take(0).filter(pred))) by {
        reveal(Seq::filter);
    }
    while i < files.len()
        invariant
            i <= files.len(),
            table == file_rows(files@),
            pred == has_one_of(link_rows(links@), ids@),
            texts(found@) == file_locations(table.take(i as int).filter(pred)),
        decreases files.len() - i,
    {
        proof {
            assert(table.take(i + 1) == table.take(i as int).push(table[i as int]));
            table.take(i as int).lemma_filter_push(table[i as int], pred);
        }
        if tagged(&links, files[i].id, &ids) {
            let ghost before = texts(found@);
            found.push(files[i].location.clone());
            assert(texts(found@) =~= before.push(table[i as int].location));
            assert(file_locations(table.take(i as int).filter(pred).push(table[i as int]))
                =~= file_locations(table.take(i as int).filter(pred)).push(
                table[i as int].location,
            ));
        }
        i = i + 1;
    }
    assert(table.take(i as int) == table);
    Ok(found)
}

} // verus!
