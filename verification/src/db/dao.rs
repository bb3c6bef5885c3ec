//! The rows of the store and the operations on its tables.

use vstd::prelude::*;
use crate::db::model::{
    at_one_of, file_ids, file_locations, file_signatures, is_full, largest,
    lemma_largest_bounds, like_location, like_name, link_ids, link_pairs,
    named_none_of, named_one_of, next_id, tag_ids, tag_names, tagged_one_of, CatalogView,
    FileView, LinkView, TagView,
};
use crate::db::rules::{
    lemma_delete_tags_wf, lemma_insert_file_wf, lemma_upsert_duplicate_wf, lemma_upsert_file_wf,
    lemma_upsert_link_wf, lemma_upsert_tag_wf,
};
use crate::like::Like;
use crate::seqs::{lemma_filter_next, lemma_index_of_unique};
use crate::location::texts;
use crate::tag;
use crate::text::{same_text, str_texts};
use crate::error::{kind_of, Error, ErrorKind, Result};
use crate::file_info::FileInfo;
use crate::location::Location;
use crate::signature::Signature;

verus! {

/// The id of a row.
pub type Id = i64;

/// A cataloged file.
#[derive(Debug)]
pub struct File {
    pub id: Id,
    pub location: Location,
    pub signature: Signature,
}

/// A file that could not enter the file table because its location or its
/// signature was taken.
#[derive(Debug)]
pub struct DuplicateFile {
    pub id: Id,
    pub location: Location,
    pub signature: Signature,
}

/// A tag.
#[derive(Debug)]
pub struct Tag {
    pub id: Id,
    pub name: String,
}

/// The association of a file with a tag.
#[derive(Debug, Clone, Copy)]
pub struct FileTag {
    pub id: Id,
    pub file_id: Id,
    pub tag_id: Id,
}

impl View for File {
    type V = FileView;

    open spec fn view(&self) -> FileView {
        FileView { id: self.id, location: self.location@, signature: self.signature@ }
    }
}

impl View for DuplicateFile {
    type V = FileView;

    open spec fn view(&self) -> FileView {
        FileView { id: self.id, location: self.location@, signature: self.signature@ }
    }
}

impl View for Tag {
    type V = TagView;

    open spec fn view(&self) -> TagView {
        TagView { id: self.id, name: self.name@ }
    }
}

impl View for FileTag {
    type V = LinkView;

    open spec fn view(&self) -> LinkView {
        LinkView { id: self.id, file_id: self.file_id, tag_id: self.tag_id }
    }
}

impl Clone for File {
    fn clone(&self) -> (r: Self)
        ensures
            r@ == self@,
    {
        File { id: self.id, location: self.location.clone(), signature: self.signature.clone() }
    }
}

impl Clone for DuplicateFile {
    fn clone(&self) -> (r: Self)
        ensures
            r@ == self@,
    {
        DuplicateFile {
            id: self.id,
            location: self.location.clone(),
            signature: self.signature.clone(),
        }
    }
}

impl Clone for Tag {
    fn clone(&self) -> (r: Self)
        ensures
            r@ == self@,
    {
        Tag { id: self.id, name: self.name.clone() }
    }
}

/// The rows of a table of files as the model has them.
pub open spec fn file_rows(rows: Seq<File>) -> Seq<FileView> {
    rows.map_values(|r: File| r@)
}

/// The rows of the duplicate table as the model has them.
pub open spec fn duplicate_rows(rows: Seq<DuplicateFile>) -> Seq<FileView> {
    rows.map_values(|r: DuplicateFile| r@)
}

/// The rows of the tag table as the model has them.
pub open spec fn tag_rows(rows: Seq<Tag>) -> Seq<TagView> {
    rows.map_values(|r: Tag| r@)
}

/// The rows of the association table as the model has them.
pub open spec fn link_rows(rows: Seq<FileTag>) -> Seq<LinkView> {
    rows.map_values(|r: FileTag| r@)
}

/// The store: the file table, the duplicate table, the tag table and the
/// association table.
pub struct Catalog {
    files: Vec<File>,
    duplicate_files: Vec<DuplicateFile>,
    tags: Vec<Tag>,
    file_tags: Vec<FileTag>,
}

impl View for Catalog {
    type V = CatalogView;

    closed spec fn view(&self) -> CatalogView {
        CatalogView {
            files: file_rows(self.files@),
            duplicate_files: duplicate_rows(self.duplicate_files@),
            tags: tag_rows(self.tags@),
            file_tags: link_rows(self.file_tags@),
        }
    }
}

/// The id for a new row of a table whose ids are `ids`, or nothing where
/// the largest id in use is the largest there is.
fn fresh_id(ids: &Vec<Id>) -> (r: Option<Id>)
    ensures
        match r {
            Some(id) => !is_full(ids@) && id == next_id(ids@),
            None => is_full(ids@),
        },
{
    let mut top: Id = 0;
    let mut i: usize = 0;
    while i < ids.len()
        invariant
            i <= ids.len(),
            top == largest(ids@.take(i as int)),
        decreases ids.len() - i,
    {
        proof {
            assert(ids@.take(i + 1).drop_last() == ids@.take(i as int));
        }
        if ids[i] > top {
            top = ids[i];
        }
        i = i + 1;
    }
    proof {
        assert(ids@.take(ids.len() as int) == ids@);
        lemma_largest_bounds(ids@);
    }
    if top == i64::MAX {
        None
    } else {
        Some(top + 1)
    }
}

/// The ids of the rows.
fn ids_of_files(rows: &Vec<File>) -> (ids: Vec<Id>)
    ensures
        ids@ == file_ids(file_rows(rows@)),
{
    let mut ids: Vec<Id> = Vec::new();
    let mut i: usize = 0;
    while i < rows.len()
        invariant
            i <= rows.len(),
            ids@ == file_ids(file_rows(rows@)).take(i as int),
        decreases rows.len() - i,
    {
        ids.push(rows[i].id);
        assert(ids@ =~= file_ids(file_rows(rows@)).take(i + 1));
        i = i + 1;
    }
    assert(ids@ =~= file_ids(file_rows(rows@)));
    ids
}

/// The index of the row at `location`, if there is one.
fn find_file_at(rows: &Vec<File>, location: &Location) -> (r: Option<usize>)
    ensures
        match r {
            Some(i) => i < rows.len() && rows[i as int].location@ == location@,
            None => !file_locations(file_rows(rows@)).contains(location@),
        },
{
    let mut i: usize = 0;
    while i < rows.len()
        invariant
            i <= rows.len(),
            forall|j: int| 0 <= j < i ==> rows[j].location@ != location@,
        decreases rows.len() - i,
    {
        if rows[i].location == *location {
            return Some(i);
        }
        i = i + 1;
    }
    None
}

/// The index of the row with `signature`, if there is one.
fn find_file_with(rows: &Vec<File>, signature: &Signature) -> (r: Option<usize>)
    ensures
        match r {
            Some(i) => i < rows.len() && rows[i as int].signature@ == signature@,
            None => !file_signatures(file_rows(rows@)).contains(signature@),
        },
{
    let mut i: usize = 0;
    while i < rows.len()
        invariant
            i <= rows.len(),
            forall|j: int| 0 <= j < i ==> rows[j].signature@ != signature@,
        decreases rows.len() - i,
    {
        if rows[i].signature.eq(signature) {
            return Some(i);
        }
        i = i + 1;
    }
    None
}

/// Whether no id occurs twice.
fn distinct_ids(ids: &Vec<Id>) -> (r: bool)
    ensures
        r == ids@.no_duplicates(),
{
    let mut i: usize = 0;
    while i < ids.len()
        invariant
            i <= ids.len(),
            forall|a: int, b: int| 0 <= a < i && 0 <= b < a ==> ids[a] != ids[b],
        decreases ids.len() - i,
    {
        let mut j: usize = 0;
        while j < i
            invariant
                j <= i,
                i < ids.len(),
                forall|b: int| 0 <= b < j ==> ids[i as int] != ids[b],
            decreases i - j,
        {
            if ids[i] == ids[j] {
                return false;
            }
            j = j + 1;
        }
        i = i + 1;
    }
    assert forall|a: int, b: int| 0 <= a < ids.len() && 0 <= b < ids.len() && a != b implies ids[a]
        != ids[b] by {
        if b < a {
        } else {
            assert(ids[b] != ids[a]);
        }
    }
    true
}

/// Whether no text occurs twice.
fn distinct_texts(items: &Vec<&str>) -> (r: bool)
    ensures
        r == str_texts(items@).no_duplicates(),
{
    let ghost texts = str_texts(items@);
    let mut i: usize = 0;
    while i < items.len()
        invariant
            i <= items.len(),
            texts == str_texts(items@),
            forall|a: int, b: int| 0 <= a < i && 0 <= b < a ==> texts[a] != texts[b],
        decreases items.len() - i,
    {
        let mut j: usize = 0;
        while j < i
            invariant
                j <= i,
                i < items.len(),
                texts == str_texts(items@),
                forall|b: int| 0 <= b < j ==> texts[i as int] != texts[b],
            decreases i - j,
        {
            if same_text(items[i], items[j]) {
                assert(texts[i as int] == texts[j as int]);
                return false;
            }
            j = j + 1;
        }
        i = i + 1;
    }
    assert forall|a: int, b: int|
        0 <= a < texts.len() && 0 <= b < texts.len() && a != b implies texts[a] != texts[b] by {
        if b < a {
        } else {
            assert(texts[b] != texts[a]);
        }
    }
    true
}

/// Whether no pair of file and tag occurs twice, and each names a file of
/// `file_ids` and a tag of `tag_ids`.
fn sound_links(rows: &Vec<FileTag>, file_ids: &Vec<Id>, tag_ids: &Vec<Id>) -> (r: bool)
    ensures
        r == (link_pairs(link_rows(rows@)).no_duplicates() && forall|k: int|
            0 <= k < rows.len() ==> file_ids@.contains((#[trigger] rows[k]).file_id)
                && tag_ids@.contains(rows[k].tag_id)),
{
    let ghost pairs = link_pairs(link_rows(rows@));
    let mut i: usize = 0;
    while i < rows.len()
        invariant
            i <= rows.len(),
            pairs == link_pairs(link_rows(rows@)),
            forall|a: int, b: int| 0 <= a < i && 0 <= b < a ==> pairs[a] != pairs[b],
            forall|k: int|
                0 <= k < i ==> file_ids@.contains((#[trigger] rows[k]).file_id)
                    && tag_ids@.contains(rows[k].tag_id),
        decreases rows.len() - i,
    {
        if !is_id_of(file_ids, rows[i].file_id) || !is_id_of(tag_ids, rows[i].tag_id) {
            return false;
        }
        let mut j: usize = 0;
        while j < i
            invariant
                j <= i,
                i < rows.len(),
                pairs == link_pairs(link_rows(rows@)),
                forall|b: int| 0 <= b < j ==> pairs[i as int] != pairs[b],
            decreases i - j,
        {
            if rows[i].file_id == rows[j].file_id && rows[i].tag_id == rows[j].tag_id {
                assert(pairs[i as int] == pairs[j as int]);
                return false;
            }
            j = j + 1;
        }
        i = i + 1;
    }
    assert forall|a: int, b: int|
        0 <= a < pairs.len() && 0 <= b < pairs.len() && a != b implies pairs[a] != pairs[b] by {
        if b < a {
        } else {
            assert(pairs[b] != pairs[a]);
        }
    }
    true
}

/// The locations of the rows, borrowed.
fn locations_of_files(rows: &Vec<File>) -> (out: Vec<&str>)
    ensures
        str_texts(out@) == file_locations(file_rows(rows@)),
{
    let mut out: Vec<&str> = Vec::new();
    let mut i: usize = 0;
    while i < rows.len()
        invariant
            i <= rows.len(),
            out.len() == i,
            forall|k: int| 0 <= k < i ==> (#[trigger] out[k])@ == rows[k].location@,
        decreases rows.len() - i,
    {
        out.push(rows[i].location.as_str());
        i = i + 1;
    }
    assert(str_texts(out@) =~= file_locations(file_rows(rows@)));
    out
}

/// The signatures of the rows, borrowed.
fn signatures_of_files(rows: &Vec<File>) -> (out: Vec<&str>)
    ensures
        str_texts(out@) == file_signatures(file_rows(rows@)),
{
    let mut out: Vec<&str> = Vec::new();
    let mut i: usize = 0;
    while i < rows.len()
        invariant
            i <= rows.len(),
            out.len() == i,
            forall|k: int| 0 <= k < i ==> (#[trigger] out[k])@ == rows[k].signature@,
        decreases rows.len() - i,
    {
        out.push(rows[i].signature.as_str());
        i = i + 1;
    }
    assert(str_texts(out@) =~= file_signatures(file_rows(rows@)));
    out
}

/// The locations of the rows of a duplicate table, borrowed.
fn locations_of_duplicates(rows: &Vec<DuplicateFile>) -> (out: Vec<&str>)
    ensures
        str_texts(out@) == file_locations(duplicate_rows(rows@)),
{
    let mut out: Vec<&str> = Vec::new();
    let mut i: usize = 0;
    while i < rows.len()
        invariant
            i <= rows.len(),
            out.len() == i,
            forall|k: int| 0 <= k < i ==> (#[trigger] out[k])@ == rows[k].location@,
        decreases rows.len() - i,
    {
        out.push(rows[i].location.as_str());
        i = i + 1;
    }
    assert(str_texts(out@) =~= file_locations(duplicate_rows(rows@)));
    out
}

/// The names of the rows of a tag table, borrowed.
fn names_of_tags(rows: &Vec<Tag>) -> (out: Vec<&str>)
    ensures
        str_texts(out@) == tag_names(tag_rows(rows@)),
{
    let mut out: Vec<&str> = Vec::new();
    let mut i: usize = 0;
    while i < rows.len()
        invariant
            i <= rows.len(),
            out.len() == i,
            forall|k: int| 0 <= k < i ==> (#[trigger] out[k])@ == rows[k].name@,
        decreases rows.len() - i,
    {
        out.push(rows[i].name.as_str());
        i = i + 1;
    }
    assert(str_texts(out@) =~= tag_names(tag_rows(rows@)));
    out
}

impl Catalog {
    /// A store that holds the given rows, as when they are read back from
    /// where they were kept. Rows that break a rule of the tables are
    /// refused.
    pub fn from_rows(
        files: Vec<File>,
        duplicate_files: Vec<DuplicateFile>,
        tags: Vec<Tag>,
        file_tags: Vec<FileTag>,
    ) -> (r: Result<Catalog>)
        ensures
            match r {
                Ok(store) => store.wf() && store@ == (CatalogView {
                    files: file_rows(files@),
                    duplicate_files: duplicate_rows(duplicate_files@),
                    tags: tag_rows(tags@),
                    file_tags: link_rows(file_tags@),
                }),
                Err(e) => e.kind() == ErrorKind::Store && !(CatalogView {
                    files: file_rows(files@),
                    duplicate_files: duplicate_rows(duplicate_files@),
                    tags: tag_rows(tags@),
                    file_tags: link_rows(file_tags@),
                }).wf(),
            },
    {
        let file_ids = ids_of_files(&files);
        let tag_ids = ids_of_tags(&tags);
        let sound = distinct_ids(&file_ids) && distinct_texts(&locations_of_files(&files))
            && distinct_texts(&signatures_of_files(&files)) && distinct_ids(
            &ids_of_duplicates(&duplicate_files),
        ) && distinct_texts(&locations_of_duplicates(&duplicate_files)) && distinct_ids(&tag_ids)
            && distinct_texts(&names_of_tags(&tags)) && distinct_ids(&ids_of_links(&file_tags))
            && sound_links(&file_tags, &file_ids, &tag_ids);
        proof {
            let links = link_rows(file_tags@);
            if sound {
                assert forall|k: int| 0 <= k < links.len() implies file_ids@.contains(
                    (#[trigger] links[k]).file_id,
                ) && tag_ids@.contains(links[k].tag_id) by {
                    assert(links[k] == file_tags[k]@);
                }
            } else if link_pairs(links).no_duplicates() {
                if exists|k: int|
                    0 <= k < file_tags.len() && !(file_ids@.contains(
                        (#[trigger] file_tags[k]).file_id,
                    ) && tag_ids@.contains(file_tags[k].tag_id)) {
                    let k = choose|k: int|
                        0 <= k < file_tags.len() && !(file_ids@.contains(
                            (#[trigger] file_tags[k]).file_id,
                        ) && tag_ids@.contains(file_tags[k].tag_id));
                    assert(links[k] == file_tags[k]@);
                }
            }
        }
        if sound {
            Ok(Catalog { files, duplicate_files, tags, file_tags })
        } else {
            Err(Error::Store(String::from_str("the rows break a rule of the tables")))
        }
    }

    /// Whether the tables keep their rules.
    pub open spec fn wf(&self) -> bool {
        self@.wf()
    }

    /// A store without a row.
    pub fn new() -> (store: Catalog)
        ensures
            store@ == CatalogView::empty(),
            store.wf(),
    {
        let store = Catalog {
            files: Vec::new(),
            duplicate_files: Vec::new(),
            tags: Vec::new(),
            file_tags: Vec::new(),
        };
        assert(store@.files =~= Seq::empty());
        assert(store@.duplicate_files =~= Seq::empty());
        assert(store@.tags =~= Seq::empty());
        assert(store@.file_tags =~= Seq::empty());
        store
    }
}

/// Whether `location` is one of `locations`.
fn is_one_of(locations: &Vec<Location>, location: &Location) -> (r: bool)
    ensures
        r == texts(locations@).contains(location@),
{
    let mut i: usize = 0;
    while i < locations.len()
        invariant
            i <= locations.len(),
            forall|j: int| 0 <= j < i ==> texts(locations@)[j] != location@,
        decreases locations.len() - i,
    {
        if locations[i] == *location {
            assert(texts(locations@)[i as int] == location@);
            return true;
        }
        i = i + 1;
    }
    false
}

/// Whether `name` is one of `names`.
fn is_named(names: &Vec<&str>, name: &str) -> (r: bool)
    ensures
        r == str_texts(names@).contains(name@),
{
    let mut i: usize = 0;
    while i < names.len()
        invariant
            i <= names.len(),
            forall|j: int| 0 <= j < i ==> str_texts(names@)[j] != name@,
        decreases names.len() - i,
    {
        if same_text(names[i], name) {
            assert(str_texts(names@)[i as int] == name@);
            return true;
        }
        i = i + 1;
    }
    false
}

/// Whether `id` is one of `ids`.
fn is_id_of(ids: &Vec<Id>, id: Id) -> (r: bool)
    ensures
        r == ids@.contains(id),
{
    let mut i: usize = 0;
    while i < ids.len()
        invariant
            i <= ids.len(),
            forall|j: int| 0 <= j < i ==> ids[j] != id,
        decreases ids.len() - i,
    {
        if ids[i] == id {
            return true;
        }
        i = i + 1;
    }
    false
}

/// The ids of the rows of a duplicate table.
fn ids_of_duplicates(rows: &Vec<DuplicateFile>) -> (ids: Vec<Id>)
    ensures
        ids@ == file_ids(duplicate_rows(rows@)),
{
    let mut ids: Vec<Id> = Vec::new();
    let mut i: usize = 0;
    while i < rows.len()
        invariant
            i <= rows.len(),
            ids@ == file_ids(duplicate_rows(rows@)).take(i as int),
        decreases rows.len() - i,
    {
        ids.push(rows[i].id);
        assert(ids@ =~= file_ids(duplicate_rows(rows@)).take(i + 1));
        i = i + 1;
    }
    assert(ids@ =~= file_ids(duplicate_rows(rows@)));
    ids
}

/// The ids of the tags.
fn ids_of_tags(rows: &Vec<Tag>) -> (ids: Vec<Id>)
    ensures
        ids@ == tag_ids(tag_rows(rows@)),
{
    let mut ids: Vec<Id> = Vec::new();
    let mut i: usize = 0;
    while i < rows.len()
        invariant
            i <= rows.len(),
            ids@ == tag_ids(tag_rows(rows@)).take(i as int),
        decreases rows.len() - i,
    {
        ids.push(rows[i].id);
        assert(ids@ =~= tag_ids(tag_rows(rows@)).take(i + 1));
        i = i + 1;
    }
    assert(ids@ =~= tag_ids(tag_rows(rows@)));
    ids
}

/// The ids of the associations.
fn ids_of_links(rows: &Vec<FileTag>) -> (ids: Vec<Id>)
    ensures
        ids@ == link_ids(link_rows(rows@)),
{
    let mut ids: Vec<Id> = Vec::new();
    let mut i: usize = 0;
    while i < rows.len()
        invariant
            i <= rows.len(),
            ids@ == link_ids(link_rows(rows@)).take(i as int),
        decreases rows.len() - i,
    {
        ids.push(rows[i].id);
        assert(ids@ =~= link_ids(link_rows(rows@)).take(i + 1));
        i = i + 1;
    }
    assert(ids@ =~= link_ids(link_rows(rows@)));
    ids
}

impl File {
    /// Whether this row has the signature of `file_info`.
    pub fn signatures_eq(&self, file_info: &FileInfo) -> (r: bool)
        ensures
            r == (self.signature@ == file_info.signature@),
    {
        self.signature.eq(&file_info.signature)
    }

    /// Whether this row is at the location of `file_info`.
    pub fn locations_eq(&self, file_info: &FileInfo) -> (r: bool)
        ensures
            r == (self.location@ == file_info.location@),
    {
        self.location == file_info.location
    }

    /// The rows of the file table, or those of them whose location matches
    /// `like`, in the order of the table.
    pub fn all(store: &Catalog, like: Option<Like>) -> (r: Result<Vec<Self>>)
        ensures
            r matches Ok(rows) && file_rows(rows@) == match like {
                Some(l) => store@.files.filter(like_location(l@)),
                None => store@.files,
            },
    {
        let mut out: Vec<File> = Vec::new();
        let mut i: usize = 0;
        let ghost table = store@.files;
        match like {
            Some(l) => {
                while i < store.files.len()
                    invariant
                        i <= store.files.len(),
                        table == file_rows(store.files@),
                        file_rows(out@) == table.take(i as int).filter(like_location(l@)),
                    decreases store.files.len() - i,
                {
                    proof {
                        lemma_filter_next(table, i as int, like_location(l@));
                    }
                    if l.matches(store.files[i].location.as_str()) {
                        out.push(store.files[i].clone());
                        assert(file_rows(out@) =~= table.take(i as int).filter(
                            like_location(l@),
                        ).push(table[i as int]));
                    }
                    i = i + 1;
                }
                assert(table.take(i as int) == table);
            },
            None => {
                while i < store.files.len()
                    invariant
                        i <= store.files.len(),
                        table == file_rows(store.files@),
                        file_rows(out@) == table.take(i as int),
                    decreases store.files.len() - i,
                {
                    out.push(store.files[i].clone());
                    assert(file_rows(out@) =~= table.take(i as int).push(table[i as int]));
                    assert(table.take(i + 1) =~= table.take(i as int).push(table[i as int]));
                    i = i + 1;
                }
                assert(table.take(i as int) == table);
            },
        }
        Ok(out)
    }

    /// The rows at `location`: one or none.
    pub fn all_by_location(store: &Catalog, location: &Location) -> (r: Result<Vec<Self>>)
        ensures
            r matches Ok(rows) && file_rows(rows@) == store@.files.filter(
                at_one_of(seq![location@]),
            ),
    {
        let mut out: Vec<File> = Vec::new();
        let mut i: usize = 0;
        let ghost table = store@.files;
        let ghost pred = at_one_of(seq![location@]);
        while i < store.files.len()
            invariant
                i <= store.files.len(),
                table == file_rows(store.files@),
                pred == at_one_of(seq![location@]),
                file_rows(out@) == table.take(i as int).filter(pred),
            decreases store.files.len() - i,
        {
            proof {
                lemma_filter_next(table, i as int, pred);
                assert(seq![location@][0] == location@);
            }
            if store.files[i].location == *location {
                out.push(store.files[i].clone());
                assert(file_rows(out@) =~= table.take(i as int).filter(pred).push(
                    table[i as int],
                ));
            }
            i = i + 1;
        }
        assert(table.take(i as int) == table);
        Ok(out)
    }

    /// The rows whose location is one of `locations`, each once, in the
    /// order of the table.
    pub fn all_by_locations(store: &Catalog, locations: &Vec<Location>) -> (r: Result<Vec<Self>>)
        ensures
            r matches Ok(rows) && file_rows(rows@) == store@.files.filter(
                at_one_of(texts(locations@)),
            ),
    {
        let mut out: Vec<File> = Vec::new();
        let mut i: usize = 0;
        let ghost table = store@.files;
        let ghost pred = at_one_of(texts(locations@));
        while i < store.files.len()
            invariant
                i <= store.files.len(),
                table == file_rows(store.files@),
                pred == at_one_of(texts(locations@)),
                file_rows(out@) == table.take(i as int).filter(pred),
            decreases store.files.len() - i,
        {
            proof {
                lemma_filter_next(table, i as int, pred);
            }
            if is_one_of(locations, &store.files[i].location) {
                out.push(store.files[i].clone());
                assert(file_rows(out@) =~= table.take(i as int).filter(pred).push(
                    table[i as int],
                ));
            }
            i = i + 1;
        }
        assert(table.take(i as int) == table);
        Ok(out)
    }

    /// The row at `location`, if there is one.
    pub fn by_location(store: &Catalog, location: &Location) -> (r: Result<Option<Self>>)
        requires
            store.wf(),
        ensures
            match r {
                Ok(Some(row)) => store@.has_file_at(location@) && row@ == store@.files[store@.file_at(
                    location@,
                )],
                Ok(None) => !store@.has_file_at(location@),
                Err(_) => false,
            },
    {
        match find_file_at(&store.files, location) {
            Some(i) => {
                proof {
                    lemma_index_of_unique(file_locations(store@.files), i as int);
                }
                Ok(Some(store.files[i].clone()))
            },
            None => Ok(None),
        }
    }

    /// The row with `signature`, if there is one.
    pub fn by_signature(store: &Catalog, signature: &Signature) -> (r: Result<Option<Self>>)
        requires
            store.wf(),
        ensures
            match r {
                Ok(Some(row)) => store@.has_file_with(signature@) && row@
                    == store@.files[store@.file_with(signature@)],
                Ok(None) => !store@.has_file_with(signature@),
                Err(_) => false,
            },
    {
        match find_file_with(&store.files, signature) {
            Some(i) => {
                proof {
                    lemma_index_of_unique(file_signatures(store@.files), i as int);
                }
                Ok(Some(store.files[i].clone()))
            },
            None => Ok(None),
        }
    }

    /// Adds a row for `file_info`, or refuses it as a duplicate where its
    /// location or its signature is in the table.
    pub fn insert(store: &mut Catalog, file_info: &FileInfo) -> (r: Result<Id>)
        requires
            old(store).wf(),
        ensures
            final(store).wf(),
            (final(store)@, kind_of(r)) == old(store)@.insert_file(
                file_info.location@,
                file_info.signature@,
            ),
    {
        proof {
            lemma_insert_file_wf(store@, file_info.location@, file_info.signature@);
        }
        if let Some(i) = find_file_at(&store.files, &file_info.location) {
            assert(file_locations(store@.files)[i as int] == file_info.location@);
            return Err(Error::Duplicate);
        }
        if let Some(i) = find_file_with(&store.files, &file_info.signature) {
            assert(file_signatures(store@.files)[i as int] == file_info.signature@);
            return Err(Error::Duplicate);
        }
        let ids = ids_of_files(&store.files);
        match fresh_id(&ids) {
            None => Err(Error::Store(String::from_str("the file table is full"))),
            Some(id) => {
                let row = File {
                    id: id,
                    location: file_info.location.clone(),
                    signature: file_info.signature.clone(),
                };
                store.files.push(row);
                assert(final(store)@.files =~= old(store)@.files.push(row@));
                Ok(id)
            },
        }
    }

    /// Records `file_info`: a new row where neither its location nor its
    /// signature is known, its signature in place of the old one where the
    /// location is known, and a refusal as a duplicate, with nothing
    /// changed, where the signature belongs to another location.
    pub fn upsert(store: &mut Catalog, file_info: &FileInfo) -> (r: Result<Id>)
        requires
            old(store).wf(),
        ensures
            final(store).wf(),
            (final(store)@, kind_of(r)) == old(store)@.upsert_file(
                file_info.location@,
                file_info.signature@,
            ),
    {
        proof {
            lemma_upsert_file_wf(store@, file_info.location@, file_info.signature@);
        }
        if let Some(j) = find_file_with(&store.files, &file_info.signature) {
            proof {
                lemma_index_of_unique(file_signatures(store@.files), j as int);
            }
            if !(store.files[j].location == file_info.location) {
                return Err(Error::Duplicate);
            }
        }
        match find_file_at(&store.files, &file_info.location) {
            Some(i) => {
                proof {
                    lemma_index_of_unique(file_locations(store@.files), i as int);
                }
                let id = store.files[i].id;
                let row = File {
                    id: id,
                    location: store.files[i].location.clone(),
                    signature: file_info.signature.clone(),
                };
                store.files.set(i, row);
                assert(final(store)@.files =~= old(store)@.files.update(i as int, row@));
                Ok(id)
            },
            None => {
                let ids = ids_of_files(&store.files);
                match fresh_id(&ids) {
                    None => Err(Error::Store(String::from_str("the file table is full"))),
                    Some(id) => {
                        let row = File {
                            id: id,
                            location: file_info.location.clone(),
                            signature: file_info.signature.clone(),
                        };
                        store.files.push(row);
                        assert(final(store)@.files =~= old(store)@.files.push(row@));
                        Ok(id)
                    },
                }
            },
        }
    }
}

/// The index of the row of the duplicate table at `location`, if there is
/// one.
fn find_duplicate_at(rows: &Vec<DuplicateFile>, location: &Location) -> (r: Option<usize>)
    ensures
        match r {
            Some(i) => i < rows.len() && rows[i as int].location@ == location@,
            None => !file_locations(duplicate_rows(rows@)).contains(location@),
        },
{
    let mut i: usize = 0;
    while i < rows.len()
        invariant
            i <= rows.len(),
            forall|j: int| 0 <= j < i ==> rows[j].location@ != location@,
        decreases rows.len() - i,
    {
        if rows[i].location == *location {
            return Some(i);
        }
        i = i + 1;
    }
    None
}

/// The index of the tag named `name`, if there is one.
fn find_tag(rows: &Vec<Tag>, name: &str) -> (r: Option<usize>)
    ensures
        match r {
            Some(i) => i < rows.len() && rows[i as int].name@ == name@,
            None => !tag_names(tag_rows(rows@)).contains(name@),
        },
{
    let mut i: usize = 0;
    while i < rows.len()
        invariant
            i <= rows.len(),
            forall|j: int| 0 <= j < i ==> rows[j].name@ != name@,
        decreases rows.len() - i,
    {
        if same_text(rows[i].name.as_str(), name) {
            return Some(i);
        }
        i = i + 1;
    }
    None
}

/// The index of the association of `file_id` with `tag_id`, if there is
/// one.
fn find_link(rows: &Vec<FileTag>, file_id: Id, tag_id: Id) -> (r: Option<usize>)
    ensures
        match r {
            Some(i) => i < rows.len() && rows[i as int].file_id == file_id && rows[i as int].tag_id
                == tag_id,
            None => !link_pairs(link_rows(rows@)).contains((file_id, tag_id)),
        },
{
    let mut i: usize = 0;
    while i < rows.len()
        invariant
            i <= rows.len(),
            forall|j: int| 0 <= j < i ==> link_pairs(link_rows(rows@))[j] != (file_id, tag_id),
        decreases rows.len() - i,
    {
        if rows[i].file_id == file_id && rows[i].tag_id == tag_id {
            return Some(i);
        }
        i = i + 1;
    }
    None
}

impl DuplicateFile {
    /// The rows of the duplicate table, in its order.
    pub fn all(store: &Catalog) -> (r: Result<Vec<Self>>)
        ensures
            r matches Ok(rows) && duplicate_rows(rows@) == store@.duplicate_files,
    {
        let mut out: Vec<DuplicateFile> = Vec::new();
        let mut i: usize = 0;
        let ghost table = store@.duplicate_files;
        while i < store.duplicate_files.len()
            invariant
                i <= store.duplicate_files.len(),
                table == duplicate_rows(store.duplicate_files@),
                duplicate_rows(out@) == table.take(i as int),
            decreases store.duplicate_files.len() - i,
        {
            out.push(store.duplicate_files[i].clone());
            assert(duplicate_rows(out@) =~= table.take(i as int).push(table[i as int]));
            assert(table.take(i + 1) =~= table.take(i as int).push(table[i as int]));
            i = i + 1;
        }
        assert(table.take(i as int) == table);
        Ok(out)
    }

    /// Records `file_info` in the duplicate table: a new row where its
    /// location is new there, its signature in place of the old one where
    /// it is not.
    pub fn upsert(store: &mut Catalog, file_info: &FileInfo) -> (r: Result<Id>)
        requires
            old(store).wf(),
        ensures
            final(store).wf(),
            (final(store)@, kind_of(r)) == old(store)@.upsert_duplicate(
                file_info.location@,
                file_info.signature@,
            ),
    {
        proof {
            lemma_upsert_duplicate_wf(store@, file_info.location@, file_info.signature@);
        }
        match find_duplicate_at(&store.duplicate_files, &file_info.location) {
            Some(i) => {
                proof {
                    lemma_index_of_unique(file_locations(store@.duplicate_files), i as int);
                }
                let id = store.duplicate_files[i].id;
                let row = DuplicateFile {
                    id: id,
                    location: store.duplicate_files[i].location.clone(),
                    signature: file_info.signature.clone(),
                };
                store.duplicate_files.set(i, row);
                assert(final(store)@.duplicate_files =~= old(store)@.duplicate_files.update(
                    i as int,
                    row@,
                ));
                Ok(id)
            },
            None => {
                let ids = ids_of_duplicates(&store.duplicate_files);
                match fresh_id(&ids) {
                    None => Err(Error::Store(String::from_str("the duplicate table is full"))),
                    Some(id) => {
                        let row = DuplicateFile {
                            id: id,
                            location: file_info.location.clone(),
                            signature: file_info.signature.clone(),
                        };
                        store.duplicate_files.push(row);
                        assert(final(store)@.duplicate_files
                            =~= old(store)@.duplicate_files.push(row@));
                        Ok(id)
                    },
                }
            },
        }
    }
}

impl Tag {
    /// The rows of the tag table, or those of them whose name matches
    /// `like`, in the order of the table.
    pub fn all(store: &Catalog, like: Option<Like>) -> (r: Result<Vec<Self>>)
        ensures
            r matches Ok(rows) && tag_rows(rows@) == match like {
                Some(l) => store@.tags.filter(like_name(l@)),
                None => store@.tags,
            },
    {
        let mut out: Vec<Tag> = Vec::new();
        let mut i: usize = 0;
        let ghost table = store@.tags;
        match like {
            Some(l) => {
                while i < store.tags.len()
                    invariant
                        i <= store.tags.len(),
                        table == tag_rows(store.tags@),
                        tag_rows(out@) == table.take(i as int).filter(like_name(l@)),
                    decreases store.tags.len() - i,
                {
                    proof {
                        lemma_filter_next(table, i as int, like_name(l@));
                    }
                    if l.matches(store.tags[i].name.as_str()) {
                        out.push(store.tags[i].clone());
                        assert(tag_rows(out@) =~= table.take(i as int).filter(like_name(l@)).push(
                            table[i as int],
                        ));
                    }
                    i = i + 1;
                }
                assert(table.take(i as int) == table);
            },
            None => {
                while i < store.tags.len()
                    invariant
                        i <= store.tags.len(),
                        table == tag_rows(store.tags@),
                        tag_rows(out@) == table.take(i as int),
                    decreases store.tags.len() - i,
                {
                    out.push(store.tags[i].clone());
                    assert(tag_rows(out@) =~= table.take(i as int).push(table[i as int]));
                    assert(table.take(i + 1) =~= table.take(i as int).push(table[i as int]));
                    i = i + 1;
                }
                assert(table.take(i as int) == table);
            },
        }
        Ok(out)
    }

    /// The tags whose name is one of `names`, each once, in the order of
    /// the table.
    pub fn all_by_names(store: &Catalog, names: &Vec<&str>) -> (r: Result<Vec<Self>>)
        ensures
            r matches Ok(rows) && tag_rows(rows@) == store@.tags.filter(named_one_of(str_texts(names@))),
    {
        let mut out: Vec<Tag> = Vec::new();
        let mut i: usize = 0;
        let ghost table = store@.tags;
        let ghost pred = named_one_of(str_texts(names@));
        while i < store.tags.len()
            invariant
                i <= store.tags.len(),
                table == tag_rows(store.tags@),
                pred == named_one_of(str_texts(names@)),
                tag_rows(out@) == table.take(i as int).filter(pred),
            decreases store.tags.len() - i,
        {
            proof {
                lemma_filter_next(table, i as int, pred);
            }
            if is_named(names, store.tags[i].name.as_str()) {
                out.push(store.tags[i].clone());
                assert(tag_rows(out@) =~= table.take(i as int).filter(pred).push(table[i as int]));
            }
            i = i + 1;
        }
        assert(table.take(i as int) == table);
        Ok(out)
    }

    /// Makes sure that there is a tag named as `tag` is, and gives the id
    /// of its row.
    pub fn upsert(store: &mut Catalog, tag: &tag::Tag) -> (r: Result<Id>)
        requires
            old(store).wf(),
        ensures
            final(store).wf(),
            (final(store)@, kind_of(r)) == old(store)@.upsert_tag(tag@),
    {
        proof {
            lemma_upsert_tag_wf(store@, tag@);
        }
        match find_tag(&store.tags, tag.as_str()) {
            Some(i) => {
                proof {
                    lemma_index_of_unique(tag_names(store@.tags), i as int);
                }
                Ok(store.tags[i].id)
            },
            None => {
                let ids = ids_of_tags(&store.tags);
                match fresh_id(&ids) {
                    None => Err(Error::Store(String::from_str("the tag table is full"))),
                    Some(id) => {
                        let row = Tag { id: id, name: String::from_str(tag.as_str()) };
                        store.tags.push(row);
                        assert(final(store)@.tags =~= old(store)@.tags.push(row@));
                        Ok(id)
                    },
                }
            },
        }
    }

    /// Removes the tags named in `names`, and with them their associations.
    /// Gives the rows that were removed.
    pub fn delete_by_names(store: &mut Catalog, names: &Vec<&str>) -> (r: Result<Vec<Self>>)
        requires
            old(store).wf(),
        ensures
            final(store).wf(),
            final(store)@ == old(store)@.delete_tags(str_texts(names@)),
            r matches Ok(rows) && tag_rows(rows@) == old(store)@.tags.filter(
                named_one_of(str_texts(names@)),
            ),
    {
        proof {
            lemma_delete_tags_wf(store@, str_texts(names@));
        }
        let ghost table = store@.tags;
        let ghost gone = named_one_of(str_texts(names@));
        let ghost stay = named_none_of(str_texts(names@));
        let mut removed: Vec<Tag> = Vec::new();
        let mut kept: Vec<Tag> = Vec::new();
        let mut i: usize = 0;
        while i < store.tags.len()
            invariant
                i <= store.tags.len(),
                table == tag_rows(store.tags@),
                gone == named_one_of(str_texts(names@)),
                stay == named_none_of(str_texts(names@)),
                tag_rows(removed@) == table.take(i as int).filter(gone),
                tag_rows(kept@) == table.take(i as int).filter(stay),
            decreases store.tags.len() - i,
        {
            proof {
                lemma_filter_next(table, i as int, gone);
                lemma_filter_next(table, i as int, stay);
            }
            if is_named(names, store.tags[i].name.as_str()) {
                removed.push(store.tags[i].clone());
                assert(tag_rows(removed@) =~= table.take(i as int).filter(gone).push(
                    table[i as int],
                ));
            } else {
                kept.push(store.tags[i].clone());
                assert(tag_rows(kept@) =~= table.take(i as int).filter(stay).push(
                    table[i as int],
                ));
            }
            i = i + 1;
        }
        assert(table.take(i as int) == table);
        let kept_ids = ids_of_tags(&kept);
        let ghost links = store@.file_tags;
        let ghost live = tagged_one_of(kept_ids@);
        let mut kept_links: Vec<FileTag> = Vec::new();
        let mut k: usize = 0;
        while k < store.file_tags.len()
            invariant
                k <= store.file_tags.len(),
                links == link_rows(store.file_tags@),
                live == tagged_one_of(kept_ids@),
                link_rows(kept_links@) == links.take(k as int).filter(live),
            decreases store.file_tags.len() - k,
        {
            proof {
                lemma_filter_next(links, k as int, live);
            }
            if is_id_of(&kept_ids, store.file_tags[k].tag_id) {
                kept_links.push(store.file_tags[k]);
                assert(link_rows(kept_links@) =~= links.take(k as int).filter(live).push(
                    links[k as int],
                ));
            }
            k = k + 1;
        }
        assert(links.take(k as int) == links);
        store.tags = kept;
        store.file_tags = kept_links;
        Ok(removed)
    }
}

impl FileTag {
    /// The rows of the association table, in its order.
    pub fn all(store: &Catalog) -> (r: Result<Vec<Self>>)
        ensures
            r matches Ok(rows) && link_rows(rows@) == store@.file_tags,
    {
        let mut out: Vec<FileTag> = Vec::new();
        let mut i: usize = 0;
        let ghost table = store@.file_tags;
        while i < store.file_tags.len()
            invariant
                i <= store.file_tags.len(),
                table == link_rows(store.file_tags@),
                link_rows(out@) == table.take(i as int),
            decreases store.file_tags.len() - i,
        {
            out.push(store.file_tags[i]);
            assert(link_rows(out@) =~= table.take(i as int).push(table[i as int]));
            assert(table.take(i + 1) =~= table.take(i as int).push(table[i as int]));
            i = i + 1;
        }
        assert(table.take(i as int) == table);
        Ok(out)
    }

    /// Makes sure that the file `file_id` has the tag `tag_id`, and gives
    /// the id of the row that says so. Both must exist.
    pub fn upsert(store: &mut Catalog, file_id: Id, tag_id: Id) -> (r: Result<Id>)
        requires
            old(store).wf(),
        ensures
            final(store).wf(),
            (final(store)@, kind_of(r)) == old(store)@.upsert_link(file_id, tag_id),
    {
        proof {
            lemma_upsert_link_wf(store@, file_id, tag_id);
        }
        match find_link(&store.file_tags, file_id, tag_id) {
            Some(i) => {
                proof {
                    assert(link_pairs(store@.file_tags)[i as int] == (file_id, tag_id));
                    lemma_index_of_unique(link_pairs(store@.file_tags), i as int);
                }
                Ok(store.file_tags[i].id)
            },
            None => {
                let file_ids = ids_of_files(&store.files);
                let tag_ids = ids_of_tags(&store.tags);
                if !is_id_of(&file_ids, file_id) || !is_id_of(&tag_ids, tag_id) {
                    return Err(
                        Error::Store(String::from_str("no such file or no such tag")),
                    );
                }
                let ids = ids_of_links(&store.file_tags);
                match fresh_id(&ids) {
                    None => Err(Error::Store(String::from_str("the association table is full"))),
                    Some(id) => {
                        let row = FileTag { id: id, file_id: file_id, tag_id: tag_id };
                        store.file_tags.push(row);
                        assert(final(store)@.file_tags =~= old(store)@.file_tags.push(row@));
                        Ok(id)
                    },
                }
            },
        }
    }
}

} // verus!
