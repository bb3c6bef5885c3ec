//! Where a file lies, relative to the catalog root.

use vstd::prelude::*;
use vstd::std_specs::cmp::PartialEqSpecImpl;
use crate::error::{Error, ErrorKind};
use crate::text::{chars_of, push_char};

verus! {

/// The separator of the segments of a location.
pub const LOCATION_SEPARATOR: char = '/';

/// The separator of path segments on this host (`MAIN_SEPARATOR` of
/// `std::path`, which is `/` or `\`).
#[verifier::external_body]
pub(crate) fn host_separator() -> (separator: char)
    ensures
        separator == '/' || separator == '\\',
{
    std::path::MAIN_SEPARATOR
}

/// `root` as the start of the paths under it: with a separator at its end,
/// unless it is empty or has one there.
pub open spec fn root_prefix(root: Seq<char>, separator: char) -> Seq<char> {
    if root.len() == 0 || root.last() == separator {
        root
    } else {
        root.push(separator)
    }
}

/// Whether `path` lies under `root`: it begins with the root and its
/// separator, and something follows.
pub open spec fn is_under(root: Seq<char>, path: Seq<char>, separator: char) -> bool {
    let prefix = root_prefix(root, separator);
    prefix.len() < path.len() && path.take(prefix.len() as int) == prefix
}

/// `text` with every `from` turned into `to`.
pub open spec fn replaced(text: Seq<char>, from: char, to: char) -> Seq<char> {
    text.map_values(
        |c: char|
            if c == from {
                to
            } else {
                c
            },
    )
}

/// The location of a path that lies under `root`: what follows the root,
/// with `/` for the host's separator.
pub open spec fn location_of(root: Seq<char>, path: Seq<char>, separator: char) -> Seq<char> {
    replaced(path.skip(root_prefix(root, separator).len() as int), separator, '/')
}

/// The path of a location under `root`: the root, and the location with
/// the host's separator for `/`.
pub open spec fn path_of(root: Seq<char>, location: Seq<char>, separator: char) -> Seq<char> {
    root_prefix(root, separator) + replaced(location, '/', separator)
}

/// What `Location::from_os_path` gives: the location of a path under the
/// root, and a refusal of any other path.
pub open spec fn location_from(root: Seq<char>, path: Seq<char>, separator: char) -> Result<
    Seq<char>,
    ErrorKind,
> {
    if is_under(root, path, separator) {
        Ok(location_of(root, path, separator))
    } else {
        Err(ErrorKind::PathNotUnderRoot)
    }
}

/// The location of a text as a result, with the kind of the error.
pub open spec fn located(r: Result<Location, Error>) -> Result<Seq<char>, ErrorKind> {
    match r {
        Ok(l) => Ok(l@),
        Err(e) => Err(e.spec_kind()),
    }
}

/// A path relative to the catalog root, its segments separated by `/`
/// whatever the host's path syntax.
#[derive(Debug, Hash)]
pub struct Location(String);

impl View for Location {
    type V = Seq<char>;

    closed spec fn view(&self) -> Seq<char> {
        self.0@
    }
}

impl Location {
    /// The location of `path` under `base_dir`, in the path syntax of this
    /// host.
    pub fn from_path(base_dir: &str, path: &str) -> (r: Result<Self, Error>)
        ensures
            located(r) == location_from(base_dir@, path@, '/') || located(r) == location_from(
                base_dir@,
                path@,
                '\\',
            ),
    {
        Self::from_os_path(base_dir, path, host_separator())
    }

    /// The location of `path` under `base`, in the path syntax of this
    /// host.
    pub fn from(base: &str, path: &str) -> (r: Result<Self, Error>)
        ensures
            located(r) == location_from(base@, path@, '/') || located(r) == location_from(
                base@,
                path@,
                '\\',
            ),
    {
        Self::from_path(base, path)
    }

    /// The location of `path` under `base_dir`, where `separator` parts the
    /// segments of both.
    pub fn from_os_path(base_dir: &str, path: &str, separator: char) -> (r: Result<Self, Error>)
        ensures
            located(r) == location_from(base_dir@, path@, separator),
    {
        let root = chars_of(base_dir);
        let full = chars_of(path);
        let bare: bool = root.len() == 0 || root[root.len() - 1] == separator;
        let ghost prefix = root_prefix(base_dir@, separator);
        if !bare && root.len() == usize::MAX {
            // no path is longer than this root
            assert(prefix.len() > full.len());
            return Err(Error::PathNotUnderRoot);
        }
        let start: usize = if bare {
            root.len()
        } else {
            root.len() + 1
        };
        assert(start == prefix.len());
        if full.len() <= start {
            return Err(Error::PathNotUnderRoot);
        }
        let mut i: usize = 0;
        while i < root.len()
            invariant
                i <= root.len(),
                root.len() <= start < full.len(),
                root@ == base_dir@,
                full@ == path@,
                prefix == root_prefix(base_dir@, separator),
                start == prefix.len(),
                forall|k: int| 0 <= k < i ==> full[k] == root[k],
            decreases root.len() - i,
        {
            if full[i] != root[i] {
                assert(path@.take(prefix.len() as int)[i as int] != prefix[i as int]);
                return Err(Error::PathNotUnderRoot);
            }
            i = i + 1;
        }
        if !bare && full[root.len()] != separator {
            assert(path@.take(prefix.len() as int)[root.len() as int] != prefix[root.len() as int]);
            return Err(Error::PathNotUnderRoot);
        }
        assert(path@.take(prefix.len() as int) =~= prefix);
        let mut text = String::new();
        let mut j: usize = start;
        while j < full.len()
            invariant
                start <= j <= full.len(),
                full@ == path@,
                text@ == replaced(path@.subrange(start as int, j as int), separator, '/'),
            decreases full.len() - j,
        {
            let c: char = full[j];
            push_char(
                &mut text,
                if c == separator {
                    LOCATION_SEPARATOR
                } else {
                    c
                },
            );
            assert(text@ =~= replaced(path@.subrange(start as int, j + 1), separator, '/'));
            j = j + 1;
        }
        assert(path@.subrange(start as int, full.len() as int) =~= path@.skip(start as int));
        Ok(Self(text))
    }

    /// The path of this location under `base_dir`, in the path syntax of
    /// this host.
    pub fn to_path(&self, base_dir: &str) -> (path: String)
        ensures
            path@ == path_of(base_dir@, self@, '/') || path@ == path_of(base_dir@, self@, '\\'),
    {
        self.to_os_path(base_dir, host_separator())
    }

    /// The path of this location under `base_dir`, where `separator` parts
    /// the segments of a path.
    pub fn to_os_path(&self, base_dir: &str, separator: char) -> (path: String)
        ensures
            path@ == path_of(base_dir@, self@, separator),
    {
        let root = chars_of(base_dir);
        let rest = chars_of(self.0.as_str());
        let mut out = String::from_str(base_dir);
        if root.len() != 0 && root[root.len() - 1] != separator {
            push_char(&mut out, separator);
        }
        let ghost prefix = root_prefix(base_dir@, separator);
        assert(out@ =~= prefix);
        let mut j: usize = 0;
        while j < rest.len()
            invariant
                j <= rest.len(),
                rest@ == self@,
                out@ == prefix + replaced(self@.take(j as int), '/', separator),
            decreases rest.len() - j,
        {
            let c: char = rest[j];
            push_char(
                &mut out,
                if c == LOCATION_SEPARATOR {
                    separator
                } else {
                    c
                },
            );
            assert(out@ =~= prefix + replaced(self@.take(j + 1), '/', separator));
            j = j + 1;
        }
        assert(self@.take(rest.len() as int) == self@);
        out
    }

    pub fn as_str(&self) -> (s: &str)
        ensures
            s@ == self@,
    {
        self.0.as_str()
    }

    pub fn into_string(self) -> (s: String)
        ensures
            s@ == self@,
    {
        self.0
    }

    pub fn new(value: &str) -> (l: Self)
        ensures
            l@ == value@,
    {
        Self(String::from_str(value))
    }
}

impl Clone for Location {
    fn clone(&self) -> (l: Self)
        ensures
            l@ == self@,
    {
        Self(self.0.clone())
    }
}

impl PartialEq for Location {
    fn eq(&self, other: &Self) -> (r: bool)
    {
        self.0 == other.0
    }
}

impl Eq for Location {}

impl PartialEqSpecImpl for Location {
    open spec fn obeys_eq_spec() -> bool {
        true
    }

    open spec fn eq_spec(&self, other: &Self) -> bool {
        self@ == other@
    }
}

impl TryFrom<&str> for Location {
    type Error = Error;

    fn try_from(value: &str) -> (r: Result<Self, Error>)
        ensures
            r matches Ok(l) && l@ == value@,
    {
        Ok(Self::new(value))
    }
}

impl vstd::std_specs::convert::TryFromSpecImpl<&str> for Location {
    open spec fn obeys_try_from_spec() -> bool {
        false
    }

    open spec fn try_from_spec(v: &str) -> Result<Self, Error> {
        arbitrary()
    }
}

/// A path under the root is the path of its location: to take the location
/// of a path and then the path of that location gives the path back. On a
/// host whose separator is not `/`, this holds of the paths that have no
/// `/` after the root.
pub proof fn lemma_path_of_location(root: Seq<char>, path: Seq<char>, separator: char)
    requires
        is_under(root, path, separator),
        separator == '/' || !path.skip(root_prefix(root, separator).len() as int).contains('/'),
    ensures
        path_of(root, location_of(root, path, separator), separator) == path,
{
    let prefix = root_prefix(root, separator);
    let rest = path.skip(prefix.len() as int);
    let there = replaced(rest, separator, '/');
    let back = replaced(there, '/', separator);
    assert forall|i: int| 0 <= i < rest.len() implies back[i] == rest[i] by {
        if separator != '/' {
            assert(rest.contains(rest[i]));
        }
    }
    assert(back =~= rest);
    assert(prefix + rest =~= path) by {
        assert(path.take(prefix.len() as int) == prefix);
        assert forall|i: int| 0 <= i < path.len() implies (prefix + rest)[i] == path[i] by {
            if i < prefix.len() {
                assert(path.take(prefix.len() as int)[i] == path[i]);
            }
        }
    }
}

/// A location is the location of its path: to take the path of a location
/// under a root and then the location of that path gives the location
/// back. This holds of the locations that are not empty and, on a host
/// whose separator is not `/`, do not hold that separator.
pub proof fn lemma_location_of_path(root: Seq<char>, location: Seq<char>, separator: char)
    requires
        location.len() > 0,
        separator == '/' || !location.contains(separator),
    ensures
        location_from(root, path_of(root, location, separator), separator) == Ok::<
            Seq<char>,
            ErrorKind,
        >(location),
{
    let prefix = root_prefix(root, separator);
    let there = replaced(location, '/', separator);
    let path = prefix + there;
    assert(path.take(prefix.len() as int) =~= prefix);
    assert(path.skip(prefix.len() as int) =~= there);
    let back = replaced(there, separator, '/');
    assert forall|i: int| 0 <= i < location.len() implies back[i] == location[i] by {
        if separator != '/' {
            assert(location.contains(location[i]));
        }
    }
    assert(back =~= location);
}

/// The texts of a list of locations.
pub open spec fn texts(locations: Seq<Location>) -> Seq<Seq<char>> {
    locations.map_values(|l: Location| l@)
}

} // verus!
