//! The mathematical model of the store: four tables of rows, and what each
//! operation makes of them.

use vstd::prelude::*;
use crate::error::ErrorKind;
use crate::like::like_matches;

verus! {

/// A row of the file table or of the duplicate table.
pub struct FileView {
    pub id: i64,
    pub location: Seq<char>,
    pub signature: Seq<char>,
}

/// A row of the tag table.
pub struct TagView {
    pub id: i64,
    pub name: Seq<char>,
}

/// A row of the association table: the file `file_id` has the tag `tag_id`.
pub struct LinkView {
    pub id: i64,
    pub file_id: i64,
    pub tag_id: i64,
}

/// The four tables of a store, each in the order of its rows.
pub struct CatalogView {
    pub files: Seq<FileView>,
    pub duplicate_files: Seq<FileView>,
    pub tags: Seq<TagView>,
    pub file_tags: Seq<LinkView>,
}

/// The ids of the rows, in their order.
pub open spec fn file_ids(rows: Seq<FileView>) -> Seq<i64> {
    rows.map_values(|r: FileView| r.id)
}

/// The locations of the rows, in their order.
pub open spec fn file_locations(rows: Seq<FileView>) -> Seq<Seq<char>> {
    rows.map_values(|r: FileView| r.location)
}

/// The signatures of the rows, in their order.
pub open spec fn file_signatures(rows: Seq<FileView>) -> Seq<Seq<char>> {
    rows.map_values(|r: FileView| r.signature)
}

/// The ids of the tags, in their order.
pub open spec fn tag_ids(rows: Seq<TagView>) -> Seq<i64> {
    rows.map_values(|r: TagView| r.id)
}

/// The names of the tags, in their order.
pub open spec fn tag_names(rows: Seq<TagView>) -> Seq<Seq<char>> {
    rows.map_values(|r: TagView| r.name)
}

/// The ids of the associations, in their order.
pub open spec fn link_ids(rows: Seq<LinkView>) -> Seq<i64> {
    rows.map_values(|r: LinkView| r.id)
}

/// The pairs of file and tag of the associations, in their order.
pub open spec fn link_pairs(rows: Seq<LinkView>) -> Seq<(i64, i64)> {
    rows.map_values(|r: LinkView| (r.file_id, r.tag_id))
}

/// The largest of the ids, and 0 where there is none above 0.
pub open spec fn largest(ids: Seq<i64>) -> int
    decreases ids.len(),
{
    if ids.len() == 0 {
        0
    } else if ids.last() > largest(ids.drop_last()) {
        ids.last() as int
    } else {
        largest(ids.drop_last())
    }
}

/// The id that a new row gets in a table that holds `ids`: one more than
/// the largest in use, and 1 in an empty table.
pub open spec fn next_id(ids: Seq<i64>) -> int {
    largest(ids) + 1
}

/// Whether a table that holds `ids` has no id left for a new row.
pub open spec fn is_full(ids: Seq<i64>) -> bool {
    next_id(ids) > i64::MAX
}

/// The rows whose location is one of `locations`.
pub open spec fn at_one_of(locations: Seq<Seq<char>>) -> spec_fn(FileView) -> bool {
    |r: FileView| locations.contains(r.location)
}

/// The rows whose location matches `pattern`.
pub open spec fn like_location(pattern: Seq<char>) -> spec_fn(FileView) -> bool {
    |r: FileView| like_matches(pattern, r.location)
}

/// The tags whose name matches `pattern`.
pub open spec fn like_name(pattern: Seq<char>) -> spec_fn(TagView) -> bool {
    |r: TagView| like_matches(pattern, r.name)
}

/// The tags whose name is one of `names`.
pub open spec fn named_one_of(names: Seq<Seq<char>>) -> spec_fn(TagView) -> bool {
    |r: TagView| names.contains(r.name)
}

/// The tags whose name is none of `names`.
pub open spec fn named_none_of(names: Seq<Seq<char>>) -> spec_fn(TagView) -> bool {
    |r: TagView| !names.contains(r.name)
}

/// The associations whose tag is one of `tags`.
pub open spec fn tagged_one_of(tags: Seq<i64>) -> spec_fn(LinkView) -> bool {
    |r: LinkView| tags.contains(r.tag_id)
}

impl CatalogView {
    /// The store without a row.
    pub open spec fn empty() -> CatalogView {
        CatalogView {
            files: Seq::empty(),
            duplicate_files: Seq::empty(),
            tags: Seq::empty(),
            file_tags: Seq::empty(),
        }
    }

    /// The rules of the tables: ids are unique in each; a location and a
    /// signature occur once in the file table, a location once in the
    /// duplicate table, a name once in the tag table, a pair of file and tag
    /// once in the association table; and every association names a file
    /// and a tag that exist.
    pub open spec fn wf(self) -> bool {
        &&& file_ids(self.files).no_duplicates()
        &&& file_locations(self.files).no_duplicates()
        &&& file_signatures(self.files).no_duplicates()
        &&& file_ids(self.duplicate_files).no_duplicates()
        &&& file_locations(self.duplicate_files).no_duplicates()
        &&& tag_ids(self.tags).no_duplicates()
        &&& tag_names(self.tags).no_duplicates()
        &&& link_ids(self.file_tags).no_duplicates()
        &&& link_pairs(self.file_tags).no_duplicates()
        &&& forall|k: int|
            0 <= k < self.file_tags.len() ==> file_ids(self.files).contains(
                (#[trigger] self.file_tags[k]).file_id,
            ) && tag_ids(self.tags).contains(self.file_tags[k].tag_id)
    }

    /// Whether the file table has a row at `location`.
    pub open spec fn has_file_at(self, location: Seq<char>) -> bool {
        file_locations(self.files).contains(location)
    }

    /// The index of the row of the file table at `location`.
    pub open spec fn file_at(self, location: Seq<char>) -> int {
        file_locations(self.files).index_of(location)
    }

    /// Whether the file table has a row with `signature`.
    pub open spec fn has_file_with(self, signature: Seq<char>) -> bool {
        file_signatures(self.files).contains(signature)
    }

    /// The index of the row of the file table with `signature`.
    pub open spec fn file_with(self, signature: Seq<char>) -> int {
        file_signatures(self.files).index_of(signature)
    }

    /// Whether `signature` belongs to a row of the file table at another
    /// location than `location`.
    pub open spec fn held_elsewhere(self, location: Seq<char>, signature: Seq<char>) -> bool {
        self.has_file_with(signature) && self.files[self.file_with(signature)].location
            != location
    }

    /// A plain insert into the file table: refused as a duplicate where the
    /// location or the signature is in use.
    pub open spec fn insert_file(self, location: Seq<char>, signature: Seq<char>) -> (
        CatalogView,
        Result<i64, ErrorKind>,
    ) {
        if self.has_file_at(location) || self.has_file_with(signature) {
            (self, Err(ErrorKind::Duplicate))
        } else if is_full(file_ids(self.files)) {
            (self, Err(ErrorKind::Store))
        } else {
            let id = next_id(file_ids(self.files)) as i64;
            (
                CatalogView {
                    files: self.files.push(FileView { id, location, signature }),
                    ..self
                },
                Ok(id),
            )
        }
    }

    /// An upsert into the file table. A signature that another location
    /// holds makes it a duplicate and changes nothing; a known location
    /// has its signature replaced; anything else becomes a new row.
    pub open spec fn upsert_file(self, location: Seq<char>, signature: Seq<char>) -> (
        CatalogView,
        Result<i64, ErrorKind>,
    ) {
        if self.held_elsewhere(location, signature) {
            (self, Err(ErrorKind::Duplicate))
        } else if self.has_file_at(location) {
            let i = self.file_at(location);
            let row = FileView { signature, ..self.files[i] };
            (CatalogView { files: self.files.update(i, row), ..self }, Ok(row.id))
        } else if is_full(file_ids(self.files)) {
            (self, Err(ErrorKind::Store))
        } else {
            let id = next_id(file_ids(self.files)) as i64;
            (
                CatalogView {
                    files: self.files.push(FileView { id, location, signature }),
                    ..self
                },
                Ok(id),
            )
        }
    }

    /// Whether the duplicate table has a row at `location`.
    pub open spec fn has_duplicate_at(self, location: Seq<char>) -> bool {
        file_locations(self.duplicate_files).contains(location)
    }

    /// The index of the row of the duplicate table at `location`.
    pub open spec fn duplicate_at(self, location: Seq<char>) -> int {
        file_locations(self.duplicate_files).index_of(location)
    }

    /// An upsert into the duplicate table: a known location has its
    /// signature replaced, a new one becomes a new row.
    pub open spec fn upsert_duplicate(self, location: Seq<char>, signature: Seq<char>) -> (
        CatalogView,
        Result<i64, ErrorKind>,
    ) {
        if self.has_duplicate_at(location) {
            let i = self.duplicate_at(location);
            let row = FileView { signature, ..self.duplicate_files[i] };
            (
                CatalogView { duplicate_files: self.duplicate_files.update(i, row), ..self },
                Ok(row.id),
            )
        } else if is_full(file_ids(self.duplicate_files)) {
            (self, Err(ErrorKind::Store))
        } else {
            let id = next_id(file_ids(self.duplicate_files)) as i64;
            (
                CatalogView {
                    duplicate_files: self.duplicate_files.push(
                        FileView { id, location, signature },
                    ),
                    ..self
                },
                Ok(id),
            )
        }
    }

    /// Whether the tag table has a row named `name`.
    pub open spec fn has_tag(self, name: Seq<char>) -> bool {
        tag_names(self.tags).contains(name)
    }

    /// The index of the row of the tag table named `name`.
    pub open spec fn tag_named(self, name: Seq<char>) -> int {
        tag_names(self.tags).index_of(name)
    }

    /// An upsert into the tag table: a known name is left alone, a new one
    /// becomes a new row. Either way the id of the row with that name.
    pub open spec fn upsert_tag(self, name: Seq<char>) -> (CatalogView, Result<i64, ErrorKind>) {
        if self.has_tag(name) {
            (self, Ok(self.tags[self.tag_named(name)].id))
        } else if is_full(tag_ids(self.tags)) {
            (self, Err(ErrorKind::Store))
        } else {
            let id = next_id(tag_ids(self.tags)) as i64;
            (CatalogView { tags: self.tags.push(TagView { id, name }), ..self }, Ok(id))
        }
    }

    /// The store without the tags named in `names` and without their
    /// associations.
    pub open spec fn delete_tags(self, names: Seq<Seq<char>>) -> CatalogView {
        let kept = self.tags.filter(named_none_of(names));
        CatalogView {
            tags: kept,
            file_tags: self.file_tags.filter(tagged_one_of(tag_ids(kept))),
            ..self
        }
    }

    /// Whether the file `file_id` has the tag `tag_id`.
    pub open spec fn has_link(self, file_id: i64, tag_id: i64) -> bool {
        link_pairs(self.file_tags).contains((file_id, tag_id))
    }

    /// The index of the association of `file_id` with `tag_id`.
    pub open spec fn link_of(self, file_id: i64, tag_id: i64) -> int {
        link_pairs(self.file_tags).index_of((file_id, tag_id))
    }

    /// An upsert into the association table: a known pair is left alone;
    /// a new one needs its file and its tag to exist, and becomes a new
    /// row.
    pub open spec fn upsert_link(self, file_id: i64, tag_id: i64) -> (
        CatalogView,
        Result<i64, ErrorKind>,
    ) {
        if self.has_link(file_id, tag_id) {
            (self, Ok(self.file_tags[self.link_of(file_id, tag_id)].id))
        } else if !file_ids(self.files).contains(file_id) || !tag_ids(self.tags).contains(tag_id)
            || is_full(link_ids(self.file_tags)) {
            (self, Err(ErrorKind::Store))
        } else {
            let id = next_id(link_ids(self.file_tags)) as i64;
            (
                CatalogView {
                    file_tags: self.file_tags.push(LinkView { id, file_id, tag_id }),
                    ..self
                },
                Ok(id),
            )
        }
    }
}

/// No id of a table is above the largest.
pub proof fn lemma_largest_bounds(ids: Seq<i64>)
    ensures
        largest(ids) >= 0,
        forall|i: int| 0 <= i < ids.len() ==> #[trigger] ids[i] <= largest(ids),
    decreases ids.len(),
{
    if ids.len() > 0 {
        lemma_largest_bounds(ids.drop_last());
        assert forall|i: int| 0 <= i < ids.len() implies #[trigger] ids[i] <= largest(ids) by {
            if i < ids.len() - 1 {
                assert(ids.drop_last()[i] == ids[i]);
            }
        }
    }
}

} // verus!
