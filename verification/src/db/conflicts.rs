//! What the conflict rules of the file table come to: an upsert can be
//! repeated, a changed file keeps its row, and a copy of a cataloged file
//! never takes the place of the file it copies.

use vstd::prelude::*;
use crate::db::model::{
    file_ids, file_locations, file_signatures, is_full, CatalogView,
    FileView,
};
use crate::db::rules::{lemma_upsert_duplicate_wf, lemma_upsert_file_wf};
use crate::error::ErrorKind;
use crate::seqs::lemma_index_of_unique;

verus! {

/// How many rows of `rows` are at `location`.
pub open spec fn rows_at(rows: Seq<FileView>, location: Seq<char>) -> nat {
    rows.filter(|r: FileView| r.location == location).len()
}

/// A table in which no location occurs twice has one row at a location that
/// occurs in it, and none at any other.
pub proof fn lemma_rows_at(rows: Seq<FileView>, location: Seq<char>)
    requires
        file_locations(rows).no_duplicates(),
    ensures
        rows_at(rows, location) == if file_locations(rows).contains(location) {
            1nat
        } else {
            0nat
        },
    decreases rows.len(),
{
    reveal(Seq::filter);
    let pred = |r: FileView| r.location == location;
    if rows.len() > 0 {
        let head = rows.drop_last();
        assert(file_locations(head) =~= file_locations(rows).drop_last());
        lemma_rows_at(head, location);
        let n = rows.len() - 1;
        if rows.last().location == location {
            assert(file_locations(rows)[n] == location);
            if file_locations(head).contains(location) {
                let k = file_locations(head).index_of(location);
                assert(file_locations(rows)[k] == location);
            }
        } else {
            if file_locations(rows).contains(location) {
                let k = file_locations(rows).index_of(location);
                assert(file_locations(head)[k] == location);
            }
            if file_locations(head).contains(location) {
                let k = file_locations(head).index_of(location);
                assert(file_locations(rows)[k] == location);
            }
        }
    }
}

/// An upsert that went through can be repeated: the second one changes
/// nothing and gives the same id, and the file table has exactly one row
/// at the location, with the signature.
pub proof fn lemma_upsert_is_idempotent(v: CatalogView, location: Seq<char>, signature: Seq<char>)
    requires
        v.wf(),
        v.upsert_file(location, signature).1 is Ok,
    ensures
        ({
            let (once, id) = v.upsert_file(location, signature);
            &&& once.upsert_file(location, signature) == (once, id)
            &&& rows_at(once.files, location) == 1
            &&& once.has_file_at(location)
            &&& once.files[once.file_at(location)].signature == signature
            &&& once.files[once.file_at(location)].id == id->Ok_0
        }),
{
    let (once, id) = v.upsert_file(location, signature);
    lemma_upsert_file_wf(v, location, signature);
    let i = if v.has_file_at(location) {
        v.file_at(location)
    } else {
        v.files.len() as int
    };
    assert(once.files[i].location == location && once.files[i].signature == signature) by {
        if v.has_file_at(location) {
            assert(file_locations(v.files)[i] == location);
        }
    }
    assert(file_locations(once.files)[i] == location);
    assert(file_signatures(once.files)[i] == signature);
    lemma_index_of_unique(file_locations(once.files), i);
    lemma_index_of_unique(file_signatures(once.files), i);
    lemma_rows_at(once.files, location);
    assert(once.files.update(i, once.files[i]) =~= once.files);
}

/// An upsert of a new signature at a known location changes the signature
/// of that row and nothing else: the table has as many rows as before, and
/// one of them at the location.
pub proof fn lemma_upsert_replaces_signature(
    v: CatalogView,
    location: Seq<char>,
    signature: Seq<char>,
)
    requires
        v.wf(),
        v.has_file_at(location),
        !v.has_file_with(signature),
    ensures
        ({
            let (after, id) = v.upsert_file(location, signature);
            let i = v.file_at(location);
            &&& id == Ok::<i64, ErrorKind>(v.files[i].id)
            &&& after.files == v.files.update(
                i,
                FileView { id: v.files[i].id, location, signature },
            )
            &&& after.files.len() == v.files.len()
            &&& rows_at(after.files, location) == 1
            &&& after.duplicate_files == v.duplicate_files
            &&& after.tags == v.tags
            &&& after.file_tags == v.file_tags
        }),
{
    let (after, id) = v.upsert_file(location, signature);
    let i = v.file_at(location);
    lemma_upsert_file_wf(v, location, signature);
    assert(file_locations(v.files)[i] == location);
    assert(file_locations(after.files)[i] == location);
    lemma_rows_at(after.files, location);
}

/// An upsert of a known signature at a new location is refused as a
/// duplicate and leaves the store as it was. Recorded in the duplicate
/// table instead, it leaves exactly one row there at the new location,
/// with the signature.
pub proof fn lemma_duplicate_is_set_aside(v: CatalogView, location: Seq<char>, signature: Seq<char>)
    requires
        v.wf(),
        !v.has_file_at(location),
        v.has_file_with(signature),
    ensures
        v.upsert_file(location, signature) == (v, Err::<i64, ErrorKind>(ErrorKind::Duplicate)),
        ({
            let (after, id) = v.upsert_duplicate(location, signature);
            &&& after.files == v.files
            &&& id is Ok || is_full(file_ids(v.duplicate_files))
            &&& id is Ok ==> {
                &&& rows_at(after.duplicate_files, location) == 1
                &&& after.has_duplicate_at(location)
                &&& after.duplicate_files[after.duplicate_at(location)].signature == signature
            }
        }),
{
    let j = v.file_with(signature);
    assert(file_signatures(v.files)[j] == signature);
    if v.files[j].location == location {
        assert(file_locations(v.files)[j] == location);
    }
    let (after, id) = v.upsert_duplicate(location, signature);
    lemma_upsert_duplicate_wf(v, location, signature);
    if id is Ok {
        let i = if v.has_duplicate_at(location) {
            v.duplicate_at(location)
        } else {
            v.duplicate_files.len() as int
        };
        if v.has_duplicate_at(location) {
            assert(file_locations(v.duplicate_files)[i] == location);
        }
        assert(file_locations(after.duplicate_files)[i] == location);
        lemma_index_of_unique(file_locations(after.duplicate_files), i);
        lemma_rows_at(after.duplicate_files, location);
    }
}

} // verus!
