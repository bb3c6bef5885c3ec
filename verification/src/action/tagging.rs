//! What tagging comes to: every file has every tag once, and to tag again
//! changes nothing.

use vstd::prelude::*;
use crate::action::tag::{
    is_unresolved, lemma_link_files_keeps, lemma_link_tags_keeps, lemma_upsert_tags_keeps,
    link_files, link_tags, tag_files, upsert_tags,
};
use crate::db::model::{
    at_one_of, file_ids, link_pairs, named_one_of, tag_ids, tag_names, CatalogView,
};
use crate::db::rules::{lemma_upsert_link_wf, lemma_upsert_tag_wf};
use crate::error::ErrorKind;
use crate::seqs::lemma_filter_same;

verus! {

/// After upserts of tags that went through, each of the names has its tag,
/// and the tags that were there are there as they were.
pub proof fn lemma_upsert_tags_grows(v: CatalogView, names: Seq<Seq<char>>)
    requires
        v.wf(),
        upsert_tags(v, names).1 is None,
    ensures
        forall|i: int| 0 <= i < names.len() ==> upsert_tags(v, names).0.has_tag(#[trigger] names[i]),
        forall|name: Seq<char>| v.has_tag(name) ==> upsert_tags(v, names).0.has_tag(name),
    decreases names.len(),
{
    if names.len() > 0 {
        let (next, r) = v.upsert_tag(names[0]);
        lemma_upsert_tag_wf(v, names[0]);
        lemma_upsert_tags_grows(next, names.drop_first());
        let end = upsert_tags(v, names).0;
        assert(forall|name: Seq<char>| v.has_tag(name) ==> next.has_tag(name)) by {
            assert forall|name: Seq<char>| v.has_tag(name) implies next.has_tag(name) by {
                let k = tag_names(v.tags).index_of(name);
                assert(tag_names(next.tags)[k] == name);
            }
        }
        assert(next.has_tag(names[0])) by {
            if !v.has_tag(names[0]) {
                assert(tag_names(next.tags)[v.tags.len() as int] == names[0]);
            }
        }
        assert forall|i: int| 0 <= i < names.len() implies end.has_tag(#[trigger] names[i]) by {
            if i > 0 {
                assert(names.drop_first()[i - 1] == names[i]);
            }
        }
    }
}

/// Upserts of tags that all exist change nothing.
pub proof fn lemma_upsert_tags_idle(v: CatalogView, names: Seq<Seq<char>>)
    requires
        forall|i: int| 0 <= i < names.len() ==> v.has_tag(#[trigger] names[i]),
    ensures
        upsert_tags(v, names) == (v, None::<ErrorKind>),
    decreases names.len(),
{
    if names.len() > 0 {
        assert(v.has_tag(names[0]));
        assert forall|i: int| 0 <= i < names.drop_first().len() implies v.has_tag(
            #[trigger] names.drop_first()[i],
        ) by {
            assert(names.drop_first()[i] == names[i + 1]);
        }
        lemma_upsert_tags_idle(v, names.drop_first());
    }
}

/// After a file was given tags, it has each of them, and every association
/// that was there is there.
pub proof fn lemma_link_tags_grows(v: CatalogView, file_id: i64, tags: Seq<i64>)
    requires
        v.wf(),
        link_tags(v, file_id, tags).1 is None,
    ensures
        forall|i: int|
            0 <= i < tags.len() ==> link_tags(v, file_id, tags).0.has_link(
                file_id,
                #[trigger] tags[i],
            ),
        forall|f: i64, t: i64|
            v.has_link(f, t) ==> #[trigger] link_tags(v, file_id, tags).0.has_link(f, t),
    decreases tags.len(),
{
    if tags.len() > 0 {
        let (next, r) = v.upsert_link(file_id, tags[0]);
        lemma_upsert_link_wf(v, file_id, tags[0]);
        lemma_link_tags_grows(next, file_id, tags.drop_first());
        let end = link_tags(v, file_id, tags).0;
        assert forall|f: i64, t: i64| v.has_link(f, t) implies next.has_link(f, t) by {
            let k = link_pairs(v.file_tags).index_of((f, t));
            assert(link_pairs(next.file_tags)[k] == (f, t));
        }
        assert(next.has_link(file_id, tags[0])) by {
            if !v.has_link(file_id, tags[0]) {
                assert(link_pairs(next.file_tags)[v.file_tags.len() as int] == (file_id, tags[0]));
            }
        }
        assert forall|i: int| 0 <= i < tags.len() implies end.has_link(
            file_id,
            #[trigger] tags[i],
        ) by {
            if i > 0 {
                assert(tags.drop_first()[i - 1] == tags[i]);
            }
        }
        assert forall|f: i64, t: i64| v.has_link(f, t) implies #[trigger] end.has_link(f, t) by {
            assert(next.has_link(f, t));
        }
    }
}

/// After files were given tags, each of the files has each of the tags,
/// and every association that was there is there.
pub proof fn lemma_link_files_grows(v: CatalogView, files: Seq<i64>, tags: Seq<i64>)
    requires
        v.wf(),
        link_files(v, files, tags).1 is None,
    ensures
        forall|i: int, j: int|
            0 <= i < files.len() && 0 <= j < tags.len() ==> link_files(v, files, tags).0.has_link(
                #[trigger] files[i],
                #[trigger] tags[j],
            ),
        forall|f: i64, t: i64|
            v.has_link(f, t) ==> #[trigger] link_files(v, files, tags).0.has_link(f, t),
    decreases files.len(),
{
    if files.len() > 0 {
        let (next, e) = link_tags(v, files[0], tags);
        lemma_link_tags_keeps(v, files[0], tags);
        lemma_link_tags_grows(v, files[0], tags);
        lemma_link_files_grows(next, files.drop_first(), tags);
        let end = link_files(v, files, tags).0;
        assert forall|f: i64, t: i64| v.has_link(f, t) implies #[trigger] end.has_link(f, t) by {
            assert(next.has_link(f, t));
        }
        assert forall|i: int, j: int| 0 <= i < files.len() && 0 <= j < tags.len() implies end.has_link(
            #[trigger] files[i],
            #[trigger] tags[j],
        ) by {
            if i > 0 {
                assert(files.drop_first()[i - 1] == files[i]);
            } else {
                assert(next.has_link(files[0], tags[j]));
            }
        }
    }
}

/// To give a file tags that it has changes nothing.
pub proof fn lemma_link_tags_idle(v: CatalogView, file_id: i64, tags: Seq<i64>)
    requires
        forall|i: int| 0 <= i < tags.len() ==> v.has_link(file_id, #[trigger] tags[i]),
    ensures
        link_tags(v, file_id, tags) == (v, None::<ErrorKind>),
    decreases tags.len(),
{
    if tags.len() > 0 {
        assert(v.has_link(file_id, tags[0]));
        assert forall|i: int| 0 <= i < tags.drop_first().len() implies v.has_link(
            file_id,
            #[trigger] tags.drop_first()[i],
        ) by {
            assert(tags.drop_first()[i] == tags[i + 1]);
        }
        lemma_link_tags_idle(v, file_id, tags.drop_first());
    }
}

/// To give files tags that they have changes nothing.
pub proof fn lemma_link_files_idle(v: CatalogView, files: Seq<i64>, tags: Seq<i64>)
    requires
        forall|i: int, j: int|
            0 <= i < files.len() && 0 <= j < tags.len() ==> v.has_link(
                #[trigger] files[i],
                #[trigger] tags[j],
            ),
    ensures
        link_files(v, files, tags) == (v, None::<ErrorKind>),
    decreases files.len(),
{
    if files.len() > 0 {
        assert forall|j: int| 0 <= j < tags.len() implies v.has_link(files[0], #[trigger] tags[j]) by {
            assert(v.has_link(files[0], tags[j]));
        }
        lemma_link_tags_idle(v, files[0], tags);
        assert forall|i: int, j: int|
            0 <= i < files.drop_first().len() && 0 <= j < tags.len() implies v.has_link(
            #[trigger] files.drop_first()[i],
            #[trigger] tags[j],
        ) by {
            assert(files.drop_first()[i] == files[i + 1]);
        }
        lemma_link_files_idle(v, files.drop_first(), tags);
    }
}

/// After files were tagged, each file at one of the locations has each tag
/// named in the names, by exactly one association; and to tag the same
/// files with the same tags once more changes nothing.
pub proof fn lemma_tagging_is_idempotent(
    v: CatalogView,
    locations: Seq<Seq<char>>,
    names: Seq<Seq<char>>,
)
    requires
        v.wf(),
        tag_files(v, locations, names).1 is None,
    ensures
        ({
            let once = tag_files(v, locations, names).0;
            &&& once.wf()
            &&& link_pairs(once.file_tags).no_duplicates()
            &&& forall|a: int, b: int|
                0 <= a < once.files.len() && 0 <= b < once.tags.len() && locations.contains(
                    (#[trigger] once.files[a]).location,
                ) && names.contains((#[trigger] once.tags[b]).name) ==> once.has_link(
                    once.files[a].id,
                    once.tags[b].id,
                )
            &&& tag_files(once, locations, names) == (once, None::<ErrorKind>)
        }),
{
    let named = upsert_tags(v, names).0;
    lemma_upsert_tags_keeps(v, names);
    lemma_upsert_tags_grows(v, names);
    let files = file_ids(named.files.filter(at_one_of(locations)));
    let tags = tag_ids(named.tags.filter(named_one_of(names)));
    let once = link_files(named, files, tags).0;
    assert(once == tag_files(v, locations, names).0);
    lemma_link_files_keeps(named, files, tags);
    lemma_link_files_grows(named, files, tags);
    // every pair is there
    assert forall|a: int, b: int|
        0 <= a < once.files.len() && 0 <= b < once.tags.len() && locations.contains(
            (#[trigger] once.files[a]).location,
        ) && names.contains((#[trigger] once.tags[b]).name) implies once.has_link(
        once.files[a].id,
        once.tags[b].id,
    ) by {
        named.files.lemma_filter_contains(at_one_of(locations), a);
        named.tags.lemma_filter_contains(named_one_of(names), b);
        let kept_files = named.files.filter(at_one_of(locations));
        let kept_tags = named.tags.filter(named_one_of(names));
        let i = kept_files.index_of(once.files[a]);
        let j = kept_tags.index_of(once.tags[b]);
        assert(files[i] == once.files[a].id);
        assert(tags[j] == once.tags[b].id);
    }
    // and a second time changes nothing
    lemma_filter_same(locations, is_unresolved(v), is_unresolved(once));
    lemma_upsert_tags_idle(once, names);
    lemma_link_files_idle(once, files, tags);
}

} // verus!
