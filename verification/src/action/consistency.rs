//! What a check finds after a scan: nothing where the scan was clean, and
//! one changed signature where one file changed since.

use vstd::prelude::*;
use crate::action::check_database::missing;
use crate::action::check_file_system::{check, check_step, DiscrepancyView};
use crate::action::scan::{scan, scan_step};
use crate::db::model::{
    file_locations, file_signatures, CatalogView, FileView,
};
use crate::db::rules::{lemma_upsert_duplicate_wf, lemma_upsert_file_wf};
use crate::file_info::Identity;
use crate::seqs::lemma_index_of_unique;

verus! {

/// Whether the file table has `file` as it is: a row at its location, with
/// its signature.
pub open spec fn holds(v: CatalogView, file: Identity) -> bool {
    v.has_file_at(file.location) && v.files[v.file_at(file.location)].signature == file.signature
}

/// Whether no two of `files` are at one location.
pub open spec fn apart(files: Seq<Identity>) -> bool {
    forall|i: int, j: int|
        0 <= i < files.len() && 0 <= j < files.len() && i != j ==> (#[trigger] files[i]).location
            != (#[trigger] files[j]).location
}

/// Whether a scan went through without a duplicate.
pub open spec fn is_clean(v: CatalogView, files: Seq<Identity>) -> bool {
    scan(v, files).failed is None && scan(v, files).duplicates.len() == 0
}

/// A step of a scan keeps the rules of the tables.
pub proof fn lemma_scan_step_wf(v: CatalogView, file: Identity)
    requires
        v.wf(),
    ensures
        scan_step(v, file).0.wf(),
{
    lemma_upsert_file_wf(v, file.location, file.signature);
    lemma_upsert_duplicate_wf(v, file.location, file.signature);
}

/// A scan keeps the rules of the tables.
pub proof fn lemma_scan_wf(v: CatalogView, files: Seq<Identity>)
    requires
        v.wf(),
    ensures
        scan(v, files).store.wf(),
    decreases files.len(),
{
    if files.len() > 0 {
        lemma_scan_wf(v, files.drop_last());
        let before = scan(v, files.drop_last());
        if before.failed is None {
            lemma_scan_step_wf(before.store, files.last());
        }
    }
}

/// After an upsert that went through, the file table has the file as it
/// is, and every file at another location as it had it.
pub proof fn lemma_upsert_holds(v: CatalogView, file: Identity, other: Identity)
    requires
        v.wf(),
        v.upsert_file(file.location, file.signature).1 is Ok,
    ensures
        holds(v.upsert_file(file.location, file.signature).0, file),
        holds(v, other) && other.location != file.location ==> holds(
            v.upsert_file(file.location, file.signature).0,
            other,
        ),
{
    let after = v.upsert_file(file.location, file.signature).0;
    lemma_upsert_file_wf(v, file.location, file.signature);
    let i = if v.has_file_at(file.location) {
        v.file_at(file.location)
    } else {
        v.files.len() as int
    };
    if v.has_file_at(file.location) {
        assert(file_locations(v.files)[i] == file.location);
    }
    assert(file_locations(after.files)[i] == file.location);
    lemma_index_of_unique(file_locations(after.files), i);
    if holds(v, other) && other.location != file.location {
        let k = v.file_at(other.location);
        assert(file_locations(v.files)[k] == other.location);
        assert(k != i);
        assert(file_locations(after.files)[k] == other.location);
        lemma_index_of_unique(file_locations(after.files), k);
    }
}

/// After a clean scan of files that are all at different locations, the
/// file table has each of them as it is.
pub proof fn lemma_clean_scan_holds(v: CatalogView, files: Seq<Identity>)
    requires
        v.wf(),
        apart(files),
        is_clean(v, files),
    ensures
        forall|i: int| 0 <= i < files.len() ==> holds(scan(v, files).store, #[trigger] files[i]),
    decreases files.len(),
{
    if files.len() > 0 {
        let head = files.drop_last();
        let before = scan(v, head);
        let last = files.last();
        assert(apart(head)) by {
            assert forall|i: int, j: int|
                0 <= i < head.len() && 0 <= j < head.len() && i != j implies (#[trigger] head[i]).location
                != (#[trigger] head[j]).location by {
                assert(head[i] == files[i]);
                assert(head[j] == files[j]);
            }
        }
        lemma_clean_scan_holds(v, head);
        lemma_scan_wf(v, head);
        let after = scan(v, files).store;
        assert(before.store.upsert_file(last.location, last.signature).1 is Ok);
        assert forall|i: int| 0 <= i < files.len() implies holds(after, #[trigger] files[i]) by {
            lemma_upsert_holds(before.store, last, files[i]);
            if i < files.len() - 1 {
                assert(head[i] == files[i]);
                assert(files[i].location != files[files.len() - 1].location);
            }
        }
    }
}

/// A file that the file table has as it is shows no difference.
pub proof fn lemma_held_file_checks_clean(v: CatalogView, file: Identity)
    requires
        v.wf(),
        holds(v, file),
    ensures
        check_step(v, file) == Seq::<DiscrepancyView>::empty(),
{
    let i = v.file_at(file.location);
    assert(file_locations(v.files)[i] == file.location);
    assert(file_signatures(v.files)[i] == file.signature);
    lemma_index_of_unique(file_signatures(v.files), i);
    assert(check_step(v, file) =~= Seq::<DiscrepancyView>::empty());
}

/// Files that the file table has as they are show no difference.
pub proof fn lemma_held_files_check_clean(v: CatalogView, files: Seq<Identity>)
    requires
        v.wf(),
        forall|i: int| 0 <= i < files.len() ==> holds(v, #[trigger] files[i]),
    ensures
        check(v, files) == Seq::<DiscrepancyView>::empty(),
    decreases files.len(),
{
    if files.len() > 0 {
        let head = files.drop_last();
        assert forall|i: int| 0 <= i < head.len() implies holds(v, #[trigger] head[i]) by {
            assert(head[i] == files[i]);
        }
        lemma_held_files_check_clean(v, head);
        lemma_held_file_checks_clean(v, files.last());
        assert(check(v, files) =~= Seq::<DiscrepancyView>::empty());
    }
}

/// Right after a clean scan of a tree, a check of the same tree finds no
/// difference between the files and the store.
pub proof fn lemma_check_after_clean_scan(v: CatalogView, files: Seq<Identity>)
    requires
        v.wf(),
        apart(files),
        is_clean(v, files),
    ensures
        check(scan(v, files).store, files) == Seq::<DiscrepancyView>::empty(),
{
    lemma_scan_wf(v, files);
    lemma_clean_scan_holds(v, files);
    lemma_held_files_check_clean(scan(v, files).store, files);
}

/// A cataloged file whose content has changed since, to something that
/// the catalog does not hold, shows exactly one difference: that its
/// signature has changed.
pub proof fn lemma_changed_file_is_one_mismatch(
    v: CatalogView,
    location: Seq<char>,
    signature: Seq<char>,
)
    requires
        v.wf(),
        v.has_file_at(location),
        v.files[v.file_at(location)].signature != signature,
        !v.has_file_with(signature),
    ensures
        check_step(v, Identity { location, signature }) == seq![
            DiscrepancyView::SignatureMismatch(location),
        ],
{
    assert(check_step(v, Identity { location, signature }) =~= seq![
        DiscrepancyView::SignatureMismatch(location),
    ]);
}

/// A scan from an empty store leaves a row for each file and no other: the
/// rows are at the locations of the files.
pub proof fn lemma_scan_rows_are_files(files: Seq<Identity>, i: int)
    requires
        0 <= i < scan(CatalogView::empty(), files).store.files.len(),
    ensures
        exists|k: int|
            0 <= k < files.len() && (#[trigger] files[k]).location == scan(
                CatalogView::empty(),
                files,
            ).store.files[i].location,
    decreases files.len(),
{
    let v = CatalogView::empty();
    if files.len() > 0 {
        let head = files.drop_last();
        let before = scan(v, head);
        let after = scan(v, files);
        let last = files.last();
        if i < before.store.files.len() {
            lemma_scan_rows_are_files(head, i);
            let k = choose|k: int|
                0 <= k < head.len() && (#[trigger] head[k]).location
                    == before.store.files[i].location;
            assert(files[k] == head[k]);
            if after.store.files[i].location != before.store.files[i].location {
                // only the row at the location of the last file can change, and it
                // keeps its location
                let (w, r) = before.store.upsert_file(last.location, last.signature);
                assert(false);
            }
        } else {
            assert(files[files.len() - 1] == last);
            let (w, r) = before.store.upsert_file(last.location, last.signature);
            assert(after.store.files[i].location == last.location);
        }
    }
}

/// Where every row has its file on disk, the store shows no row as
/// missing.
pub proof fn lemma_nothing_missing(files: Seq<FileView>, present: Seq<bool>)
    requires
        present.len() == files.len(),
        forall|i: int| 0 <= i < present.len() ==> present[i],
    ensures
        missing(files, present) == Seq::<DiscrepancyView>::empty(),
    decreases files.len(),
{
    if files.len() > 0 {
        let head = files.drop_last();
        lemma_missing_reads_its_rows(head, present, present.take(head.len() as int));
        lemma_nothing_missing(head, present.take(head.len() as int));
    }
}

/// Of what it is told of the files on disk, the list of missing rows
/// depends on what it is told of its own rows only.
pub proof fn lemma_missing_reads_its_rows(files: Seq<FileView>, a: Seq<bool>, b: Seq<bool>)
    requires
        a.len() >= files.len(),
        b.len() >= files.len(),
        forall|i: int| 0 <= i < files.len() ==> a[i] == b[i],
    ensures
        missing(files, a) == missing(files, b),
    decreases files.len(),
{
    if files.len() > 0 {
        lemma_missing_reads_its_rows(files.drop_last(), a, b);
    }
}

/// Right after a clean scan of a tree into an empty store, a check finds
/// nothing in either direction: no file differs from the store, and, as
/// long as the files of the tree are on disk, no row is missing there.
pub proof fn lemma_clean_scan_is_consistent(files: Seq<Identity>, present: Seq<bool>)
    requires
        apart(files),
        is_clean(CatalogView::empty(), files),
        present.len() == scan(CatalogView::empty(), files).store.files.len(),
        forall|i: int, k: int|
            0 <= i < present.len() && 0 <= k < files.len() && (#[trigger] files[k]).location
                == (#[trigger] scan(CatalogView::empty(), files).store.files[i]).location
                ==> present[i],
    ensures
        check(scan(CatalogView::empty(), files).store, files) == Seq::<DiscrepancyView>::empty(),
        missing(scan(CatalogView::empty(), files).store.files, present) == Seq::<
            DiscrepancyView,
        >::empty(),
{
    let rows = scan(CatalogView::empty(), files).store.files;
    lemma_check_after_clean_scan(CatalogView::empty(), files);
    assert forall|i: int| 0 <= i < present.len() implies present[i] by {
        lemma_scan_rows_are_files(files, i);
        let k = choose|k: int|
            0 <= k < files.len() && (#[trigger] files[k]).location == rows[i].location;
        assert(files[k].location == rows[i].location);
    }
    lemma_nothing_missing(rows, present);
}

} // verus!
