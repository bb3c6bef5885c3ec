//! Tagging: giving tags to cataloged files.

use vstd::prelude::*;
use crate::db::dao::{file_rows, tag_rows, Catalog, File, FileTag, Id, Tag};
use crate::db::model::{at_one_of, file_ids, named_one_of, tag_ids, CatalogView};
use crate::db::rules::{lemma_upsert_link_wf, lemma_upsert_tag_wf};
use crate::error::{Error, ErrorKind, Result};
use crate::location::{location_from, texts, Location};
use crate::project::Project;
use crate::tag;
use crate::tag::names_of;
use crate::text::{str_texts, string_texts};

verus! {

/// The locations of `paths` under `root`, or a refusal where one of them
/// does not lie there.
pub open spec fn locations_from(root: Seq<char>, paths: Seq<Seq<char>>, separator: char) -> std::result::Result<
    Seq<Seq<char>>,
    ErrorKind,
>
    decreases paths.len(),
{
    if paths.len() == 0 {
        Ok(Seq::empty())
    } else {
        match locations_from(root, paths.drop_last(), separator) {
            Err(kind) => Err(kind),
            Ok(found) => match location_from(root, paths.last(), separator) {
                Err(kind) => Err(kind),
                Ok(location) => Ok(found.push(location)),
            },
        }
    }
}

/// Whether a location has no row in the file table.
pub open spec fn is_unresolved(v: CatalogView) -> spec_fn(Seq<char>) -> bool {
    |location: Seq<char>| !v.has_file_at(location)
}

/// The store after an upsert of each name in its order, up to the first
/// that fails, and the kind of that failure.
pub open spec fn upsert_tags(v: CatalogView, names: Seq<Seq<char>>) -> (
    CatalogView,
    Option<ErrorKind>,
)
    decreases names.len(),
{
    if names.len() == 0 {
        (v, None)
    } else {
        match v.upsert_tag(names[0]) {
            (after, Err(kind)) => (after, Some(kind)),
            (after, Ok(_)) => upsert_tags(after, names.drop_first()),
        }
    }
}

/// The store after the file `file_id` was given each of `tags` in their
/// order, up to the first that fails, and the kind of that failure.
pub open spec fn link_tags(v: CatalogView, file_id: i64, tags: Seq<i64>) -> (
    CatalogView,
    Option<ErrorKind>,
)
    decreases tags.len(),
{
    if tags.len() == 0 {
        (v, None)
    } else {
        match v.upsert_link(file_id, tags[0]) {
            (after, Err(kind)) => (after, Some(kind)),
            (after, Ok(_)) => link_tags(after, file_id, tags.drop_first()),
        }
    }
}

/// The store after each of `files` in their order was given each of
/// `tags`, up to the first failure, and the kind of that failure.
pub open spec fn link_files(v: CatalogView, files: Seq<i64>, tags: Seq<i64>) -> (
    CatalogView,
    Option<ErrorKind>,
)
    decreases files.len(),
{
    if files.len() == 0 {
        (v, None)
    } else {
        match link_tags(v, files[0], tags) {
            (after, Some(kind)) => (after, Some(kind)),
            (after, None) => link_files(after, files.drop_first(), tags),
        }
    }
}

/// Tagging the files at `locations` with the tags named `names`. Where a
/// location has no row nothing is done. Else each name gets its tag, and
/// then each file, in the order of the file table, each of the tags, in
/// the order of the tag table.
pub open spec fn tag_files(v: CatalogView, locations: Seq<Seq<char>>, names: Seq<Seq<char>>) -> (
    CatalogView,
    Option<ErrorKind>,
) {
    if locations.filter(is_unresolved(v)).len() > 0 {
        (v, Some(ErrorKind::UnresolvedPaths))
    } else {
        let named = upsert_tags(v, names);
        if named.1 is Some {
            named
        } else {
            link_files(
                named.0,
                file_ids(named.0.files.filter(at_one_of(locations))),
                tag_ids(named.0.tags.filter(named_one_of(names))),
            )
        }
    }
}

/// Upserts of tags leave the other tables alone and keep the rules.
pub proof fn lemma_upsert_tags_keeps(v: CatalogView, names: Seq<Seq<char>>)
    requires
        v.wf(),
    ensures
        upsert_tags(v, names).0.wf(),
        upsert_tags(v, names).0.files == v.files,
        upsert_tags(v, names).0.duplicate_files == v.duplicate_files,
        upsert_tags(v, names).0.file_tags == v.file_tags,
        upsert_tags(v, names).1 is None || upsert_tags(v, names).1 == Some(ErrorKind::Store),
    decreases names.len(),
{
    if names.len() > 0 {
        lemma_upsert_tag_wf(v, names[0]);
        let (after, r) = v.upsert_tag(names[0]);
        if r is Ok {
            lemma_upsert_tags_keeps(after, names.drop_first());
        }
    }
}

/// Giving tags to a file leaves the other tables alone and keeps the rules.
pub proof fn lemma_link_tags_keeps(v: CatalogView, file_id: i64, tags: Seq<i64>)
    requires
        v.wf(),
    ensures
        link_tags(v, file_id, tags).0.wf(),
        link_tags(v, file_id, tags).0.files == v.files,
        link_tags(v, file_id, tags).0.duplicate_files == v.duplicate_files,
        link_tags(v, file_id, tags).0.tags == v.tags,
        link_tags(v, file_id, tags).1 is None || link_tags(v, file_id, tags).1 == Some(
            ErrorKind::Store,
        ),
    decreases tags.len(),
{
    if tags.len() > 0 {
        lemma_upsert_link_wf(v, file_id, tags[0]);
        let (after, r) = v.upsert_link(file_id, tags[0]);
        if r is Ok {
            lemma_link_tags_keeps(after, file_id, tags.drop_first());
        }
    }
}

/// Giving tags to files leaves the other tables alone and keeps the rules.
pub proof fn lemma_link_files_keeps(v: CatalogView, files: Seq<i64>, tags: Seq<i64>)
    requires
        v.wf(),
    ensures
        link_files(v, files, tags).0.wf(),
        link_files(v, files, tags).0.files == v.files,
        link_files(v, files, tags).0.duplicate_files == v.duplicate_files,
        link_files(v, files, tags).0.tags == v.tags,
        link_files(v, files, tags).1 is None || link_files(v, files, tags).1 == Some(
            ErrorKind::Store,
        ),
    decreases files.len(),
{
    if files.len() > 0 {
        lemma_link_tags_keeps(v, files[0], tags);
        let (after, e) = link_tags(v, files[0], tags);
        if e is None {
            lemma_link_files_keeps(after, files.drop_first(), tags);
        }
    }
}

/// Makes sure that each of `tags` exists, in their order.
fn upsert_each(store: &mut Catalog, tags: &Vec<tag::Tag>) -> (r: Result<()>)
    requires
        old(store).wf(),
    ensures
        final(store).wf(),
        final(store)@ == upsert_tags(old(store)@, names_of(tags@)).0,
        match r {
            Ok(_) => upsert_tags(old(store)@, names_of(tags@)).1 is None,
            Err(e) => upsert_tags(old(store)@, names_of(tags@)).1 == Some(e.spec_kind()),
        },
{
    let ghost names = names_of(tags@);
    let ghost start = store@;
    let mut i: usize = 0;
    assert(names.skip(0) == names);
    while i < tags.len()
        invariant
            i <= tags.len(),
            store.wf(),
            names == names_of(tags@),
            start == old(store)@,
            upsert_tags(start, names) == upsert_tags(store@, names.skip(i as int)),
        decreases tags.len() - i,
    {
        proof {
            assert(names.skip(i as int).drop_first() == names.skip(i + 1));
            assert(names.skip(i as int)[0] == tags[i as int]@);
        }
        match Tag::upsert(store, &tags[i]) {
            Ok(_) => {},
            Err(e) => {
                return Err(e);
            },
        }
        i = i + 1;
    }
    Ok(())
}

/// Gives the file `file_id` each of the tags `tag_ids`, in their order.
fn link_each(store: &mut Catalog, file_id: Id, tag_ids: &Vec<Id>) -> (r: Result<()>)
    requires
        old(store).wf(),
    ensures
        final(store).wf(),
        final(store)@ == link_tags(old(store)@, file_id, tag_ids@).0,
        match r {
            Ok(_) => link_tags(old(store)@, file_id, tag_ids@).1 is None,
            Err(e) => link_tags(old(store)@, file_id, tag_ids@).1 == Some(e.spec_kind()),
        },
{
    let ghost start = store@;
    let mut i: usize = 0;
    assert(tag_ids@.skip(0) == tag_ids@);
    while i < tag_ids.len()
        invariant
            i <= tag_ids.len(),
            store.wf(),
            start == old(store)@,
            link_tags(start, file_id, tag_ids@) == link_tags(
                store@,
                file_id,
                tag_ids@.skip(i as int),
            ),
        decreases tag_ids.len() - i,
    {
        proof {
            assert(tag_ids@.skip(i as int).drop_first() == tag_ids@.skip(i + 1));
            assert(tag_ids@.skip(i as int)[0] == tag_ids[i as int]);
        }
        match FileTag::upsert(store, file_id, tag_ids[i]) {
            Ok(_) => {},
            Err(e) => {
                return Err(e);
            },
        }
        i = i + 1;
    }
    Ok(())
}

/// Gives each of the files `file_ids` each of the tags `tag_ids`.
fn link_all(store: &mut Catalog, file_ids: &Vec<Id>, tag_ids: &Vec<Id>) -> (r: Result<()>)
    requires
        old(store).wf(),
    ensures
        final(store).wf(),
        final(store)@ == link_files(old(store)@, file_ids@, tag_ids@).0,
        match r {
            Ok(_) => link_files(old(store)@, file_ids@, tag_ids@).1 is None,
            Err(e) => link_files(old(store)@, file_ids@, tag_ids@).1 == Some(e.spec_kind()),
        },
{
    let ghost start = store@;
    let mut i: usize = 0;
    assert(file_ids@.skip(0) == file_ids@);
    while i < file_ids.len()
        invariant
            i <= file_ids.len(),
            store.wf(),
            start == old(store)@,
            link_files(start, file_ids@, tag_ids@) == link_files(
                store@,
                file_ids@.skip(i as int),
                tag_ids@,
            ),
        decreases file_ids.len() - i,
    {
        proof {
            assert(file_ids@.skip(i as int).drop_first() == file_ids@.skip(i + 1));
            assert(file_ids@.skip(i as int)[0] == file_ids[i as int]);
        }
        match link_each(store, file_ids[i], tag_ids) {
            Ok(_) => {},
            Err(e) => {
                return Err(e);
            },
        }
        i = i + 1;
    }
    Ok(())
}

/// The locations of `paths` under the root of `project`.
pub fn locations_of(project: &Project, paths: &Vec<String>) -> (r: Result<Vec<Location>>)
    ensures
        match r {
            Ok(found) => locations_from(project.dir@, string_texts(paths@), project.separator)
                == Ok::<Seq<Seq<char>>, ErrorKind>(texts(found@)),
            Err(e) => locations_from(project.dir@, string_texts(paths@), project.separator)
                == Err::<Seq<Seq<char>>, ErrorKind>(e.spec_kind()),
        },
{
    let ghost all = string_texts(paths@);
    let mut found: Vec<Location> = Vec::new();
    let mut i: usize = 0;
    assert(texts(found@) =~= Seq::empty());
    while i < paths.len()
        invariant
            i <= paths.len(),
            all == string_texts(paths@),
            locations_from(project.dir@, all.take(i as int), project.separator) == Ok::<
                Seq<Seq<char>>,
                ErrorKind,
            >(texts(found@)),
        decreases paths.len() - i,
    {
        proof {
            assert(all.take(i + 1).drop_last() == all.take(i as int));
            assert(all.take(i + 1).last() == paths[i as int]@);
        }
        match Location::from_os_path(project.dir.as_str(), paths[i].as_str(), project.separator) {
            Ok(location) => {
                let ghost before = texts(found@);
                found.push(location);
                assert(texts(found@) =~= before.push(location@));
            },
            Err(e) => {
                proof {
                    lemma_locations_from_stays_failed(
                        project.dir@,
                        all,
                        project.separator,
                        i + 1,
                    );
                }
                return Err(e);
            },
        }
        i = i + 1;
    }
    assert(all.take(i as int) == all);
    Ok(found)
}

/// Once a path does not lie under the root, no further path mends it.
pub proof fn lemma_locations_from_stays_failed(
    root: Seq<char>,
    paths: Seq<Seq<char>>,
    separator: char,
    n: int,
)
    requires
        0 <= n <= paths.len(),
        locations_from(root, paths.take(n), separator) is Err,
    ensures
        locations_from(root, paths, separator) == locations_from(root, paths.take(n), separator),
    decreases paths.len() - n,
{
    if n < paths.len() {
        assert(paths.take(n + 1).drop_last() == paths.take(n));
        lemma_locations_from_stays_failed(root, paths, separator, n + 1);
    } else {
        assert(paths.take(n) == paths);
    }
}

/// The locations among `locations` that have no row in the file table.
pub fn unresolved(store: &Catalog, locations: &Vec<Location>) -> (missing: Vec<Location>)
    requires
        store.wf(),
    ensures
        texts(missing@) == texts(locations@).filter(is_unresolved(store@)),
{
    let ghost all = texts(locations@);
    let ghost pred = is_unresolved(store@);
    let mut missing: Vec<Location> = Vec::new();
    let mut i: usize = 0;
    while i < locations.len()
        invariant
            i <= locations.len(),
            store.wf(),
            all == texts(locations@),
            pred == is_unresolved(store@),
            texts(missing@) == all.take(i as int).filter(pred),
        decreases locations.len() - i,
    {
        proof {
            assert(all.take(i + 1) == all.take(i as int).push(all[i as int]));
            all.take(i as int).lemma_filter_push(all[i as int], pred);
        }
        let row = File::by_location(store, &locations[i]);
        let absent = match row {
            Ok(Some(_)) => false,
            _ => true,
        };
        if absent {
            let ghost before = texts(missing@);
            missing.push(locations[i].clone());
            assert(texts(missing@) =~= before.push(all[i as int]));
        }
        i = i + 1;
    }
    assert(all.take(i as int) == all);
    missing
}

/// The ids of the rows.
fn ids_of(rows: &Vec<File>) -> (ids: Vec<Id>)
    ensures
        ids@ == file_ids(file_rows(rows@)),
{
    let mut ids: Vec<Id> = Vec::new();
    let mut i: usize = 0;
    while i < rows.len()
        invariant
            i <= rows.len(),
            ids.len() == i,
            forall|k: int| 0 <= k < i ==> ids[k] == rows[k].id,
        decreases rows.len() - i,
    {
        ids.push(rows[i].id);
        i = i + 1;
    }
    assert(ids@ =~= file_ids(file_rows(rows@)));
    ids
}

/// The ids of the tags.
fn tag_ids_of(rows: &Vec<Tag>) -> (ids: Vec<Id>)
    ensures
        ids@ == tag_ids(tag_rows(rows@)),
{
    let mut ids: Vec<Id> = Vec::new();
    let mut i: usize = 0;
    while i < rows.len()
        invariant
            i <= rows.len(),
            ids.len() == i,
            forall|k: int| 0 <= k < i ==> ids[k] == rows[k].id,
        decreases rows.len() - i,
    {
        ids.push(rows[i].id);
        i = i + 1;
    }
    assert(ids@ =~= tag_ids(tag_rows(rows@)));
    ids
}

/// The names of the tags, borrowed.
pub fn names_in<'a>(tags: &'a Vec<tag::Tag<'a>>) -> (names: Vec<&'a str>)
    ensures
        str_texts(names@) == names_of(tags@),
{
    let mut names: Vec<&str> = Vec::new();
    let mut i: usize = 0;
    while i < tags.len()
        invariant
            i <= tags.len(),
            names.len() == i,
            forall|k: int| 0 <= k < i ==> (#[trigger] names[k])@ == tags[k]@,
        decreases tags.len() - i,
    {
        names.push(tags[i].as_str());
        i = i + 1;
    }
    assert(str_texts(names@) =~= names_of(tags@));
    names
}

/// Gives each of the files at `paths` each of `tags`. A path outside the
/// root, or one without a row in the file table, fails the whole of it
/// with nothing changed. A failure of the store ends it where it stands.
pub fn do_tag(project: &Project, store: &mut Catalog, tags: &Vec<tag::Tag>, paths: &Vec<String>) -> (r:
    Result<()>)
    requires
        old(store).wf(),
    ensures
        final(store).wf(),
        match locations_from(project.dir@, string_texts(paths@), project.separator) {
            Err(kind) => {
                &&& final(store)@ == old(store)@
                &&& r matches Err(e) && e.spec_kind() == kind
            },
            Ok(locations) => {
                let (after, failed) = tag_files(old(store)@, locations, names_of(tags@));
                &&& final(store)@ == after
                &&& match r {
                    Ok(_) => failed is None,
                    Err(e) => failed == Some(e.spec_kind()) && (e matches Error::UnresolvedPaths(
                        missing,
                    ) ==> texts(missing@) == locations.filter(is_unresolved(old(store)@))),
                }
            },
        },
{
    let locations = match locations_of(project, paths) {
        Ok(found) => found,
        Err(e) => {
            return Err(e);
        },
    };
    let ghost wanted = texts(locations@);
    assert(locations_from(project.dir@, string_texts(paths@), project.separator) == Ok::<
        Seq<Seq<char>>,
        ErrorKind,
    >(wanted));
    let missing = unresolved(store, &locations);
    if missing.len() > 0 {
        assert(texts(missing@).len() == missing.len());
        return Err(Error::UnresolvedPaths(missing));
    }
    assert(texts(missing@).len() == missing.len());
    assert(wanted.filter(is_unresolved(store@)).len() == 0);
    proof {
        lemma_upsert_tags_keeps(store@, names_of(tags@));
    }
    match upsert_each(store, tags) {
        Ok(_) => {},
        Err(e) => {
            return Err(e);
        },
    }
    let files = match File::all_by_locations(store, &locations) {
        Ok(rows) => rows,
        Err(e) => {
            return Err(e);
        },
    };
    let names = names_in(tags);
    let tagged = match Tag::all_by_names(store, &names) {
        Ok(rows) => rows,
        Err(e) => {
            return Err(e);
        },
    };
    let file_ids = ids_of(&files);
    let tag_ids = tag_ids_of(&tagged);
    proof {
        lemma_link_files_keeps(store@, file_ids@, tag_ids@);
    }
    link_all(store, &file_ids, &tag_ids)
}

} // verus!
