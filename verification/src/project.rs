//! The directory that a catalog is about.

use vstd::prelude::*;
use crate::error::Result;
use crate::location::{
    host_separator, located, location_from, path_of, root_prefix, Location,
};
use crate::media_path_checker::{
    exclude_patterns, excluded_names, include_pattern, media_extensions, MediaPathChecker,
};
use crate::text::{push_char, str_texts};

verus! {

/// The name of the store's file inside the catalog root.
pub const DATABASE_FILE: &'static str = "tagger.db";

/// A catalog root, the place of its store, and the checker that chooses
/// its files.
pub struct Project {
    pub dir: String,
    pub db_path: String,
    pub path_checker: MediaPathChecker,
    /// What parts the segments of the paths of this project.
    pub separator: char,
}

impl Project {
    /// Whether the parts of the project fit together: the store lies in the
    /// root under its fixed name, and the checker reads paths as the
    /// project writes them.
    pub open spec fn wf(&self) -> bool {
        &&& self.db_path@ == root_prefix(self.dir@, self.separator) + DATABASE_FILE@
        &&& self.path_checker.included() == seq![include_pattern(str_texts(media_extensions()))]
        &&& self.path_checker.excluded() == exclude_patterns(
            str_texts(excluded_names()),
            self.separator,
        )
    }

    /// The project rooted at `dir`, in the path syntax of this host.
    pub fn from_dir(dir: &str) -> (project: Self)
        ensures
            project.wf(),
            project.dir@ == dir@,
            project.separator == '/' || project.separator == '\\',
    {
        Self::from_dir_with(dir, host_separator())
    }

    /// The project rooted at `dir`, where `separator` parts the segments of
    /// a path.
    pub fn from_dir_with(dir: &str, separator: char) -> (project: Self)
        ensures
            project.wf(),
            project.dir@ == dir@,
            project.separator == separator,
    {
        let mut db_path = String::from_str(dir);
        let n = dir.unicode_len();
        if n != 0 && dir.get_char(n - 1) != separator {
            push_char(&mut db_path, separator);
        }
        assert(db_path@ =~= root_prefix(dir@, separator));
        db_path.append(DATABASE_FILE);
        Self {
            dir: String::from_str(dir),
            db_path: db_path,
            path_checker: MediaPathChecker::for_separator(separator),
            separator: separator,
        }
    }

    /// The location of `path` in this project, and a refusal of a path that
    /// does not lie under its root.
    pub fn location_of(&self, path: &str) -> (r: Result<Location>)
        ensures
            located(r) == location_from(self.dir@, path@, self.separator),
    {
        Location::from_os_path(self.dir.as_str(), path, self.separator)
    }

    /// The path of `location` in this project: the path that the location
    /// was taken from, where it was taken in this project.
    pub fn path_of(&self, location: &Location) -> (path: String)
        ensures
            path@ == path_of(self.dir@, location@, self.separator),
    {
        location.to_os_path(self.dir.as_str(), self.separator)
    }

    /// The checker that chooses the files of this project.
    pub fn path_checker(&self) -> (checker: &MediaPathChecker)
        ensures
            checker == &self.path_checker,
    {
        &self.path_checker
    }
}

} // verus!
