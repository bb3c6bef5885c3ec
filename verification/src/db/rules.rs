//! Every operation of the model keeps the rules of the tables.

use vstd::prelude::*;
use crate::db::model::{
    file_ids, file_locations, file_signatures, is_full, lemma_largest_bounds, link_ids, link_pairs, named_none_of,
    next_id, tag_ids, tag_names, tagged_one_of, CatalogView, FileView, LinkView, TagView,
};

use crate::seqs::{lemma_filter_rises, lemma_index_of_unique, lemma_push_no_duplicates};

verus! {

/// A plain insert into the file table keeps the rules.
pub proof fn lemma_insert_file_wf(v: CatalogView, location: Seq<char>, signature: Seq<char>)
    requires
        v.wf(),
    ensures
        v.insert_file(location, signature).0.wf(),
{
    let after = v.insert_file(location, signature).0;
    if after != v {
        lemma_file_added_wf(v, location, signature);
    }
}

/// A new row at the end of the file table keeps the rules where its
/// location and its signature are new.
pub proof fn lemma_file_added_wf(v: CatalogView, location: Seq<char>, signature: Seq<char>)
    requires
        v.wf(),
        !v.has_file_at(location),
        !v.has_file_with(signature),
        !is_full(file_ids(v.files)),
    ensures
        (CatalogView {
            files: v.files.push(
                FileView { id: next_id(file_ids(v.files)) as i64, location, signature },
            ),
            ..v
        }).wf(),
{
    let id = next_id(file_ids(v.files)) as i64;
    let row = FileView { id, location, signature };
    let files = v.files.push(row);
    lemma_largest_bounds(file_ids(v.files));
    assert(file_ids(files) =~= file_ids(v.files).push(id));
    assert(file_locations(files) =~= file_locations(v.files).push(location));
    assert(file_signatures(files) =~= file_signatures(v.files).push(signature));
    lemma_push_no_duplicates(file_ids(v.files), id);
    lemma_push_no_duplicates(file_locations(v.files), location);
    lemma_push_no_duplicates(file_signatures(v.files), signature);
    assert forall|k: int| 0 <= k < v.file_tags.len() implies file_ids(files).contains(
        (#[trigger] v.file_tags[k]).file_id,
    ) by {
        let f = v.file_tags[k].file_id;
        let w = file_ids(v.files).index_of(f);
        assert(file_ids(files)[w] == f);
    }
}

/// An upsert into the file table keeps the rules.
pub proof fn lemma_upsert_file_wf(v: CatalogView, location: Seq<char>, signature: Seq<char>)
    requires
        v.wf(),
    ensures
        v.upsert_file(location, signature).0.wf(),
{
    if v.held_elsewhere(location, signature) {
    } else if v.has_file_at(location) {
        let i = v.file_at(location);
        let row = FileView { signature, ..v.files[i] };
        let files = v.files.update(i, row);
        assert(file_locations(v.files)[i] == location);
        assert(file_ids(files) =~= file_ids(v.files));
        assert(file_locations(files) =~= file_locations(v.files));
        assert forall|a: int, b: int|
            0 <= a < files.len() && 0 <= b < files.len() && a != b implies file_signatures(
            files,
        )[a] != file_signatures(files)[b] by {
            if a == i || b == i {
                let o = if a == i { b } else { a };
                if v.files[o].signature == signature {
                    assert(file_signatures(v.files)[o] == signature);
                    lemma_index_of_unique(file_signatures(v.files), o);
                    assert(file_locations(v.files)[o] == location);
                    assert(false);
                }
            } else {
                assert(file_signatures(v.files)[a] != file_signatures(v.files)[b]);
            }
        }
    } else if is_full(file_ids(v.files)) {
    } else {
        if v.has_file_with(signature) {
            let j = v.file_with(signature);
            assert(file_locations(v.files)[j] == location);
        }
        lemma_file_added_wf(v, location, signature);
    }
}

/// An upsert into the duplicate table keeps the rules.
pub proof fn lemma_upsert_duplicate_wf(v: CatalogView, location: Seq<char>, signature: Seq<char>)
    requires
        v.wf(),
    ensures
        v.upsert_duplicate(location, signature).0.wf(),
{
    let rows = v.duplicate_files;
    if v.has_duplicate_at(location) {
        let i = v.duplicate_at(location);
        let row = FileView { signature, ..rows[i] };
        assert(file_locations(rows)[i] == location);
        assert(file_ids(rows.update(i, row)) =~= file_ids(rows));
        assert(file_locations(rows.update(i, row)) =~= file_locations(rows));
    } else if is_full(file_ids(rows)) {
    } else {
        let id = next_id(file_ids(rows)) as i64;
        let row = FileView { id, location, signature };
        lemma_largest_bounds(file_ids(rows));
        assert(file_ids(rows.push(row)) =~= file_ids(rows).push(id));
        assert(file_locations(rows.push(row)) =~= file_locations(rows).push(location));
        lemma_push_no_duplicates(file_ids(rows), id);
        lemma_push_no_duplicates(file_locations(rows), location);
    }
}

/// An upsert into the tag table keeps the rules.
pub proof fn lemma_upsert_tag_wf(v: CatalogView, name: Seq<char>)
    requires
        v.wf(),
    ensures
        v.upsert_tag(name).0.wf(),
{
    if v.has_tag(name) {
    } else if is_full(tag_ids(v.tags)) {
    } else {
        let id = next_id(tag_ids(v.tags)) as i64;
        let tags = v.tags.push(TagView { id, name });
        lemma_largest_bounds(tag_ids(v.tags));
        assert(tag_ids(tags) =~= tag_ids(v.tags).push(id));
        assert(tag_names(tags) =~= tag_names(v.tags).push(name));
        lemma_push_no_duplicates(tag_ids(v.tags), id);
        lemma_push_no_duplicates(tag_names(v.tags), name);
        assert forall|k: int| 0 <= k < v.file_tags.len() implies tag_ids(tags).contains(
            (#[trigger] v.file_tags[k]).tag_id,
        ) by {
            let t = v.file_tags[k].tag_id;
            let w = tag_ids(v.tags).index_of(t);
            assert(tag_ids(tags)[w] == t);
        }
    }
}

/// An upsert into the association table keeps the rules.
pub proof fn lemma_upsert_link_wf(v: CatalogView, file_id: i64, tag_id: i64)
    requires
        v.wf(),
    ensures
        v.upsert_link(file_id, tag_id).0.wf(),
{
    let after = v.upsert_link(file_id, tag_id).0;
    if after != v {
        let id = next_id(link_ids(v.file_tags)) as i64;
        let rows = v.file_tags.push(LinkView { id, file_id, tag_id });
        lemma_largest_bounds(link_ids(v.file_tags));
        assert(link_ids(rows) =~= link_ids(v.file_tags).push(id));
        assert(link_pairs(rows) =~= link_pairs(v.file_tags).push((file_id, tag_id)));
        lemma_push_no_duplicates(link_ids(v.file_tags), id);
        lemma_push_no_duplicates(link_pairs(v.file_tags), (file_id, tag_id));
    }
}

/// Deleting tags keeps the rules: the associations of the deleted tags go
/// with them.
pub proof fn lemma_delete_tags_wf(v: CatalogView, names: Seq<Seq<char>>)
    requires
        v.wf(),
    ensures
        v.delete_tags(names).wf(),
{
    let kept = v.tags.filter(named_none_of(names));
    let links = v.file_tags.filter(tagged_one_of(tag_ids(kept)));
    let at = lemma_filter_rises(v.tags, named_none_of(names));
    let lat = lemma_filter_rises(v.file_tags, tagged_one_of(tag_ids(kept)));
    assert forall|a: int, b: int| 0 <= a < kept.len() && 0 <= b < kept.len() && a != b implies
        tag_ids(kept)[a] != tag_ids(kept)[b] && tag_names(kept)[a] != tag_names(kept)[b] by {
        assert(at[a] != at[b]) by {
            if a < b {
                assert(at[a] < at[b]);
            } else {
                assert(at[b] < at[a]);
            }
        }
        assert(tag_ids(v.tags)[at[a]] != tag_ids(v.tags)[at[b]]);
        assert(tag_names(v.tags)[at[a]] != tag_names(v.tags)[at[b]]);
    }
    assert forall|a: int, b: int| 0 <= a < links.len() && 0 <= b < links.len() && a != b implies
        link_ids(links)[a] != link_ids(links)[b] && link_pairs(links)[a] != link_pairs(
        links,
    )[b] by {
        assert(lat[a] != lat[b]) by {
            if a < b {
                assert(lat[a] < lat[b]);
            } else {
                assert(lat[b] < lat[a]);
            }
        }
        assert(link_ids(v.file_tags)[lat[a]] != link_ids(v.file_tags)[lat[b]]);
        assert(link_pairs(v.file_tags)[lat[a]] != link_pairs(v.file_tags)[lat[b]]);
    }
    assert forall|k: int| 0 <= k < links.len() implies file_ids(v.files).contains(
        (#[trigger] links[k]).file_id,
    ) && tag_ids(kept).contains(links[k].tag_id) by {
        assert(v.file_tags[lat[k]] == links[k]);
        v.file_tags.lemma_filter_pred(tagged_one_of(tag_ids(kept)), k);
    }
}

} // verus!
