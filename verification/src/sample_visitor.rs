//! Walking a directory tree and choosing the files worth a visit.

use vstd::prelude::*;
use crate::error::{Error, Result};
use crate::text::string_texts;

verus! {

/// Decides which paths qualify for the catalog.
pub trait PathChecker {
    /// Whether this checker takes `path`.
    spec fn accepts(&self, path: Seq<char>) -> bool;

    /// Whether this checker is sure to tell of `path`.
    spec fn decides(&self, path: Seq<char>) -> bool;

    /// Whether `error` is one that this checker gives where it cannot tell
    /// of `path`.
    spec fn fails_with(&self, path: Seq<char>, error: Error) -> bool;

    /// Whether this checker takes `path`, where it can tell.
    fn matches(&self, path: &str) -> (r: Result<bool>)
        ensures
            r matches Ok(taken) ==> taken == self.accepts(path@),
            self.decides(path@) ==> r is Ok,
            r matches Err(e) ==> self.fails_with(path@, e),
    ;
}

/// What a directory listing found: a file, or a directory with what was
/// found in it, in the order of the listing.
#[derive(Debug)]
pub enum Entry {
    File { path: String },
    Directory { path: String, entries: Vec<Entry> },
}

/// The paths of the files among `entries` and below them, depth first:
/// each entry in its turn, a directory with all that is below it before
/// the entry that follows it.
pub open spec fn files_among(entries: Seq<Entry>) -> Seq<Seq<char>>
    decreases entries, 1int,
{
    if entries.len() == 0 {
        Seq::empty()
    } else {
        files_among(entries.drop_last()) + files_at(entries.last())
    }
}

/// The paths of the files at `entry` and below it.
pub open spec fn files_at(entry: Entry) -> Seq<Seq<char>>
    decreases entry, 0int,
{
    match entry {
        Entry::File { path } => seq![path@],
        Entry::Directory { path, entries } => files_among(entries@),
    }
}

/// The paths of the files in the tree under `dir`, depth first. Where
/// `dir` is no directory there is no tree under it.
pub open spec fn file_paths(dir: Entry) -> Seq<Seq<char>> {
    match dir {
        Entry::File { path } => Seq::empty(),
        Entry::Directory { path, entries } => files_among(entries@),
    }
}

/// The paths that `checker` takes.
pub open spec fn taken_by<P: PathChecker>(checker: &P) -> spec_fn(Seq<char>) -> bool {
    |path: Seq<char>| checker.accepts(path)
}

/// The paths of the files to visit in the tree under `dir`: those that
/// `checker` takes, depth first.
pub open spec fn visited<P: PathChecker>(dir: Entry, checker: &P) -> Seq<Seq<char>> {
    file_paths(dir).filter(taken_by(checker))
}

/// Whether `checker` is sure to tell of every file in the tree under
/// `dir`.
pub open spec fn decides_files<P: PathChecker>(dir: Entry, checker: &P) -> bool {
    forall|path: Seq<char>| file_paths(dir).contains(path) ==> checker.decides(path)
}

/// The paths of which `taken` says that they were taken: the path at an
/// index goes by the entry of `taken` at that index, and a path that
/// `taken` does not reach is left out.
pub open spec fn picked(paths: Seq<Seq<char>>, taken: Seq<bool>) -> Seq<Seq<char>>
    decreases paths.len(),
{
    if paths.len() == 0 {
        Seq::empty()
    } else {
        let before = picked(paths.drop_last(), taken);
        if paths.len() - 1 < taken.len() && taken[paths.len() - 1] {
            before.push(paths.last())
        } else {
            before
        }
    }
}

/// What a walk comes to, where `taken` holds what the checker said of the
/// paths in their order, as far as it told, and `failure` the error that
/// it gave in place of an answer, if it gave one: that error, or else the
/// paths that were taken.
pub fn chosen(paths: &Vec<String>, taken: &Vec<bool>, failure: Option<Error>) -> (r: Result<
    Vec<String>,
>)
    ensures
        match failure {
            Some(e) => r == Err::<Vec<String>, Error>(e),
            None => r matches Ok(found) && string_texts(found@) == picked(
                string_texts(paths@),
                taken@,
            ),
        },
{
    match failure {
        Some(e) => Err(e),
        None => {
            let ghost texts = string_texts(paths@);
            let mut found: Vec<String> = Vec::new();
            let mut i: usize = 0;
            assert(string_texts(found@) =~= picked(texts.take(0), taken@));
            while i < paths.len()
                invariant
                    i <= paths.len(),
                    texts == string_texts(paths@),
                    string_texts(found@) == picked(texts.take(i as int), taken@),
                decreases paths.len() - i,
            {
                proof {
                    assert(texts.take(i + 1).drop_last() == texts.take(i as int));
                    assert(texts.take(i + 1).last() == texts[i as int]);
                }
                if i < taken.len() && taken[i] {
                    let ghost before = string_texts(found@);
                    found.push(paths[i].clone());
                    assert(string_texts(found@) =~= before.push(texts[i as int]));
                }
                i = i + 1;
            }
            assert(texts.take(i as int) == texts);
            Ok(found)
        },
    }
}

/// Where `taken` tells of every path what a filter says of it, the paths
/// picked are those that the filter keeps.
pub proof fn lemma_picked_is_filter(
    paths: Seq<Seq<char>>,
    taken: Seq<bool>,
    keeps: spec_fn(Seq<char>) -> bool,
)
    requires
        taken.len() >= paths.len(),
        forall|k: int| 0 <= k < paths.len() ==> taken[k] == keeps(#[trigger] paths[k]),
    ensures
        picked(paths, taken) == paths.filter(keeps),
    decreases paths.len(),
{
    reveal(Seq::filter);
    if paths.len() > 0 {
        assert forall|k: int| 0 <= k < paths.drop_last().len() implies taken[k] == keeps(
            #[trigger] paths.drop_last()[k],
        ) by {
            assert(paths.drop_last()[k] == paths[k]);
        }
        lemma_picked_is_filter(paths.drop_last(), taken, keeps);
        assert(taken[paths.len() - 1] == keeps(paths[paths.len() - 1]));
    }
}

/// Adds to `found` the paths of the files at `entry` and below it.
fn list_at(entry: &Entry, found: &mut Vec<String>)
    ensures
        string_texts(final(found)@) == string_texts(old(found)@) + files_at(*entry),
    decreases entry, 0int,
{
    match entry {
        Entry::File { path } => {
            found.push(path.clone());
            assert(string_texts(final(found)@) =~= string_texts(old(found)@) + seq![path@]);
        },
        Entry::Directory { path, entries } => list_among(entries, found),
    }
}

/// Adds to `found` the paths of the files among `entries` and below them.
fn list_among(entries: &Vec<Entry>, found: &mut Vec<String>)
    ensures
        string_texts(final(found)@) == string_texts(old(found)@) + files_among(entries@),
    decreases entries, 1int,
{
    let mut i: usize = 0;
    assert(string_texts(found@) =~= string_texts(old(found)@) + files_among(entries@.take(0)));
    while i < entries.len()
        invariant
            i <= entries.len(),
            string_texts(found@) == string_texts(old(found)@) + files_among(
                entries@.take(i as int),
            ),
        decreases entries.len() - i,
    {
        proof {
            assert(entries@.take(i + 1).drop_last() == entries@.take(i as int));
            assert(entries@.take(i + 1).last() == entries[i as int]);
            vstd::std_specs::vec::axiom_vec_index_decreases(*entries, i as int);
        }
        list_at(&entries[i], found);
        assert(string_texts(found@) =~= string_texts(old(found)@) + files_among(
            entries@.take(i + 1),
        ));
        i = i + 1;
    }
    assert(entries@.take(i as int) == entries@);
}

/// The paths of the files in the tree under `dir`, depth first.
pub fn files_of(dir: &Entry) -> (paths: Vec<String>)
    ensures
        string_texts(paths@) == file_paths(*dir),
{
    let mut found: Vec<String> = Vec::new();
    assert(string_texts(found@) =~= Seq::empty());
    match dir {
        Entry::File { path } => {},
        Entry::Directory { path, entries } => {
            list_among(entries, &mut found);
            assert(string_texts(found@) =~= files_among(entries@));
        },
    }
    found
}

/// Where `taken` ends, picking ends: the paths that it does not reach are
/// left out.
pub proof fn lemma_picked_as_far_as_told(paths: Seq<Seq<char>>, taken: Seq<bool>)
    requires
        taken.len() <= paths.len(),
    ensures
        picked(paths, taken) == picked(paths.take(taken.len() as int), taken),
    decreases paths.len(),
{
    if paths.len() > taken.len() {
        lemma_picked_as_far_as_told(paths.drop_last(), taken);
        assert(paths.drop_last().take(taken.len() as int) == paths.take(taken.len() as int));
    } else {
        assert(paths.take(taken.len() as int) == paths);
    }
}

/// Whether a walk through the tree under `dir` that got as far as the
/// file at index `n` has come to `paths` and `failure`: of the files
/// before that one the checker told, and `paths` are those it took; and
/// either there is no such file and no failure, or the failure is the
/// error that the checker gave of it.
pub open spec fn walked<P: PathChecker>(
    dir: Entry,
    checker: &P,
    n: int,
    paths: Seq<Seq<char>>,
    failure: Option<Error>,
) -> bool {
    &&& 0 <= n <= file_paths(dir).len()
    &&& paths == file_paths(dir).take(n).filter(taken_by(checker))
    &&& match failure {
        None => n == file_paths(dir).len(),
        Some(e) => n < file_paths(dir).len() && !checker.decides(file_paths(dir)[n])
            && checker.fails_with(file_paths(dir)[n], e),
    }
}

/// Asks the checker of each of `paths` in their order, up to the first of
/// which it gives an error: what it said of those before, and that error.
fn ask<P: PathChecker>(paths: &Vec<String>, path_checker: &P) -> (r: (Vec<bool>, Option<Error>))
    ensures
        r.0.len() <= paths.len(),
        forall|k: int|
            0 <= k < r.0.len() ==> r.0[k] == path_checker.accepts(
                #[trigger] string_texts(paths@)[k],
            ),
        match r.1 {
            None => r.0.len() == paths.len(),
            Some(e) => r.0.len() < paths.len() && !path_checker.decides(
                string_texts(paths@)[r.0.len() as int],
            ) && path_checker.fails_with(string_texts(paths@)[r.0.len() as int], e),
        },
{
    let ghost texts = string_texts(paths@);
    let mut taken: Vec<bool> = Vec::new();
    let mut failure: Option<Error> = None;
    while taken.len() < paths.len() && failure.is_none()
        invariant
            taken.len() <= paths.len(),
            texts == string_texts(paths@),
            forall|k: int|
                0 <= k < taken.len() ==> taken[k] == path_checker.accepts(#[trigger] texts[k]),
            failure matches Some(e) ==> taken.len() < paths.len() && !path_checker.decides(
                texts[taken.len() as int],
            ) && path_checker.fails_with(texts[taken.len() as int], e),
        decreases paths.len() - taken.len() + (if failure is None { 1int } else { 0int }),
    {
        match path_checker.matches(paths[taken.len()].as_str()) {
            Ok(answer) => {
                taken.push(answer);
            },
            Err(e) => {
                failure = Some(e);
            },
        }
    }
    (taken, failure)
}

/// What a walk met before it ended.
#[derive(Debug)]
pub struct Walk {
    /// The paths of the files to visit that the walk met.
    pub paths: Vec<String>,
    /// The error that ended the walk, if one did.
    pub failure: Option<Error>,
}

/// The walk through the tree under `dir`, as far as it gets: the checker
/// is asked of each file, depth first, up to the first of which it gives
/// an error in place of an answer. The paths are those it took before,
/// and the failure is that error.
pub fn visit_until_failure<P: PathChecker>(dir: &Entry, path_checker: &P) -> (walk: Walk)
    ensures
        exists|n: int| #[trigger]
            walked(*dir, path_checker, n, string_texts(walk.paths@), walk.failure),
{
    let paths = files_of(dir);
    let (taken, failure) = ask(&paths, path_checker);
    let ghost texts = string_texts(paths@);
    proof {
        lemma_picked_as_far_as_told(texts, taken@);
        lemma_picked_is_filter(
            texts.take(taken.len() as int),
            taken@,
            taken_by(path_checker),
        );
    }
    let found = match chosen(&paths, &taken, None) {
        Ok(found) => found,
        Err(_) => Vec::new(),
    };
    let walk = Walk { paths: found, failure };
    assert(walked(
        *dir,
        path_checker,
        taken.len() as int,
        string_texts(walk.paths@),
        walk.failure,
    ));
    walk
}

/// The paths of the files to visit in the tree under `dir`: those that
/// `path_checker` takes, depth first. The checker is asked of each file
/// in that order; the first error that it gives in place of an answer ends
/// the walk and is the error of the walk, and [`chosen`] says what the
/// answers come to.
pub fn visit<P: PathChecker>(dir: &Entry, path_checker: &P) -> (r: Result<Vec<String>>)
    ensures
        r matches Ok(paths) ==> string_texts(paths@) == visited(*dir, path_checker),
        decides_files(*dir, path_checker) ==> r is Ok,
        r matches Err(e) ==> exists|n: int|
            0 <= n < file_paths(*dir).len() && !path_checker.decides(
                #[trigger] file_paths(*dir)[n],
            ) && path_checker.fails_with(file_paths(*dir)[n], e),
{
    let paths = files_of(dir);
    let (taken, failure) = ask(&paths, path_checker);
    let ghost texts = string_texts(paths@);
    proof {
        if failure is None {
            lemma_picked_is_filter(texts, taken@, taken_by(path_checker));
        } else {
            assert(texts.contains(texts[taken.len() as int]));
        }
    }
    chosen(&paths, &taken, failure)
}

} // verus!
