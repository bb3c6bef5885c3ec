//! What a search comes to: the locations of the tagged files and no
//! others, in whatever order the rows came into the store.

use vstd::prelude::*;
use crate::action::search::{has_one_of, is_tagged, search};
use crate::db::model::{file_locations, named_one_of, tag_ids, CatalogView};

verus! {

/// Whether a file at `location` has an association with a tag named in
/// `names`.
pub open spec fn is_tagged_at(v: CatalogView, names: Seq<Seq<char>>, location: Seq<char>) -> bool {
    exists|i: int, j: int, k: int|
        0 <= i < v.files.len() && 0 <= j < v.tags.len() && 0 <= k < v.file_tags.len() && (
        #[trigger] v.files[i]).location == location && names.contains(
            (#[trigger] v.tags[j]).name,
        ) && (#[trigger] v.file_tags[k]).file_id == v.files[i].id && v.file_tags[k].tag_id
            == v.tags[j].id
}

/// Whether two stores hold the same rows, in whatever order.
pub open spec fn same_rows(v: CatalogView, w: CatalogView) -> bool {
    &&& v.files.to_set() == w.files.to_set()
    &&& v.tags.to_set() == w.tags.to_set()
    &&& v.file_tags.to_set() == w.file_tags.to_set()
}

/// A search finds every location that is tagged with one of the names, and
/// no other.
pub proof fn lemma_search_finds_the_tagged(
    v: CatalogView,
    names: Seq<Seq<char>>,
    location: Seq<char>,
)
    ensures
        search(v, names).contains(location) == is_tagged_at(v, names, location),
{
    let wanted = v.tags.filter(named_one_of(names));
    let ids = tag_ids(wanted);
    let pred = has_one_of(v.file_tags, ids);
    let kept = v.files.filter(pred);
    if search(v, names).contains(location) {
        let n = file_locations(kept).index_of(location);
        v.files.lemma_filter_pred(pred, n);
        v.files.lemma_filter_contains_rev(pred, kept[n]);
        let i = v.files.index_of(kept[n]);
        let k = choose|k: int|
            0 <= k < v.file_tags.len() && (#[trigger] v.file_tags[k]).file_id == kept[n].id
                && ids.contains(v.file_tags[k].tag_id);
        let m = ids.index_of(v.file_tags[k].tag_id);
        v.tags.lemma_filter_pred(named_one_of(names), m);
        v.tags.lemma_filter_contains_rev(named_one_of(names), wanted[m]);
        let j = v.tags.index_of(wanted[m]);
        assert(v.files[i].location == location && names.contains(v.tags[j].name)
            && v.file_tags[k].file_id == v.files[i].id && v.file_tags[k].tag_id == v.tags[j].id);
    }
    if is_tagged_at(v, names, location) {
        let (i, j, k) = choose|i: int, j: int, k: int|
            0 <= i < v.files.len() && 0 <= j < v.tags.len() && 0 <= k < v.file_tags.len() && (
            #[trigger] v.files[i]).location == location && names.contains(
                (#[trigger] v.tags[j]).name,
            ) && (#[trigger] v.file_tags[k]).file_id == v.files[i].id && v.file_tags[k].tag_id
                == v.tags[j].id;
        v.tags.lemma_filter_contains(named_one_of(names), j);
        let m = wanted.index_of(v.tags[j]);
        assert(ids[m] == v.tags[j].id);
        assert(is_tagged(v.file_tags, v.files[i].id, ids));
        v.files.lemma_filter_contains(pred, i);
        let n = kept.index_of(v.files[i]);
        assert(file_locations(kept)[n] == location);
    }
}

/// Stores that hold the same rows tag the same locations.
pub proof fn lemma_tagged_at_ignores_order(
    v: CatalogView,
    w: CatalogView,
    names: Seq<Seq<char>>,
    location: Seq<char>,
)
    requires
        same_rows(v, w),
        is_tagged_at(v, names, location),
    ensures
        is_tagged_at(w, names, location),
{
    let (i, j, k) = choose|i: int, j: int, k: int|
        0 <= i < v.files.len() && 0 <= j < v.tags.len() && 0 <= k < v.file_tags.len() && (
        #[trigger] v.files[i]).location == location && names.contains(
            (#[trigger] v.tags[j]).name,
        ) && (#[trigger] v.file_tags[k]).file_id == v.files[i].id && v.file_tags[k].tag_id
            == v.tags[j].id;
    assert(v.files.to_set().contains(v.files[i]));
    assert(v.tags.to_set().contains(v.tags[j]));
    assert(v.file_tags.to_set().contains(v.file_tags[k]));
    assert(w.files.contains(v.files[i]));
    assert(w.tags.contains(v.tags[j]));
    assert(w.file_tags.contains(v.file_tags[k]));
    let a = w.files.index_of(v.files[i]);
    let b = w.tags.index_of(v.tags[j]);
    let c = w.file_tags.index_of(v.file_tags[k]);
    assert(w.files[a].location == location && names.contains(w.tags[b].name)
        && w.file_tags[c].file_id == w.files[a].id && w.file_tags[c].tag_id == w.tags[b].id);
}

/// A search gives the same locations whatever the order in which the
/// rows came into the store.
pub proof fn lemma_search_ignores_order(v: CatalogView, w: CatalogView, names: Seq<Seq<char>>)
    requires
        same_rows(v, w),
    ensures
        search(v, names).to_set() == search(w, names).to_set(),
{
    assert forall|location: Seq<char>|
        search(v, names).to_set().contains(location) == search(w, names).to_set().contains(
            location,
        ) by {
        lemma_search_finds_the_tagged(v, names, location);
        lemma_search_finds_the_tagged(w, names, location);
        if is_tagged_at(v, names, location) {
            lemma_tagged_at_ignores_order(v, w, names, location);
        }
        if is_tagged_at(w, names, location) {
            lemma_tagged_at_ignores_order(w, v, names, location);
        }
    }
    assert(search(v, names).to_set() =~= search(w, names).to_set());
}

} // verus!
