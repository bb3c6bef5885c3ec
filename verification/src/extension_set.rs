//! A set of file extensions, which takes the paths that end in one of them.

use vstd::prelude::*;
use crate::error::{Error, Result};
use crate::sample_visitor::PathChecker;
use crate::seqs::lemma_push_no_duplicates;
use crate::text::{chars_of, push_char, same_text, str_texts, string_texts};

verus! {

/// The lower-case form of a text, as `str::to_lowercase` of std gives it.
pub uninterp spec fn lowercase(text: Seq<char>) -> Seq<char>;

/// `str::to_lowercase` of std: the lower-case equivalent of the string, as
/// a new string.
#[verifier::external_body]
fn to_lowercase(text: &str) -> (out: String)
    ensures
        out@ == lowercase(text@),
{
    text.to_lowercase()
}

/// Whether `c` parts the segments of a path, on one host or another.
pub open spec fn is_separator(c: char) -> bool {
    c == '/' || c == '\\'
}

/// Where the file name begins in `path`: after its last separator.
pub open spec fn name_start(path: Seq<char>) -> int
    decreases path.len(),
{
    if path.len() == 0 {
        0
    } else if is_separator(path.last()) {
        path.len() as int
    } else {
        name_start(path.drop_last())
    }
}

/// The file name of a path: what follows its last separator.
pub open spec fn file_name(path: Seq<char>) -> Seq<char> {
    path.skip(name_start(path))
}

/// Where the last dot of `name` stands, and -1 where it has none.
pub open spec fn last_dot(name: Seq<char>) -> int
    decreases name.len(),
{
    if name.len() == 0 {
        -1
    } else if name.last() == '.' {
        name.len() - 1
    } else {
        last_dot(name.drop_last())
    }
}

/// The extension of a path: what follows the last dot of its file name.
/// A file name without a dot has none, nor has one whose only dot is its
/// first character, nor has `..`.
pub open spec fn extension(path: Seq<char>) -> Option<Seq<char>> {
    let name = file_name(path);
    if last_dot(name) <= 0 || name == seq!['.', '.'] {
        None
    } else {
        Some(name.skip(last_dot(name) + 1))
    }
}

/// The lower-case forms of the texts, as a set.
pub open spec fn lowered(values: Seq<Seq<char>>) -> Set<Seq<char>> {
    Set::new(|e: Seq<char>| exists|i: int| 0 <= i < values.len() && e == lowercase(#[trigger] values[i]))
}

/// A set of extensions, without regard to case.
pub struct ExtensionSet {
    extensions: Vec<String>,
}

impl View for ExtensionSet {
    type V = Set<Seq<char>>;

    closed spec fn view(&self) -> Set<Seq<char>> {
        string_texts(self.extensions@).to_set()
    }
}

/// Where the file name begins in `path`.
fn find_name_start(path: &Vec<char>) -> (start: usize)
    ensures
        start == name_start(path@),
        start <= path.len(),
{
    let mut i: usize = path.len();
    assert(path@.take(i as int) == path@);
    while i > 0
        invariant
            i <= path.len(),
            name_start(path@) == name_start(path@.take(i as int)),
        decreases i,
    {
        proof {
            assert(path@.take(i as int).drop_last() == path@.take(i - 1));
            assert(path@.take(i as int).last() == path[i - 1]);
        }
        if path[i - 1] == '/' || path[i - 1] == '\\' {
            return i;
        }
        i = i - 1;
    }
    0
}

/// Where the last dot stands in `path` from `start` on, if there is one.
fn find_last_dot(path: &Vec<char>, start: usize) -> (dot: Option<usize>)
    requires
        start <= path.len(),
    ensures
        match dot {
            Some(k) => start <= k < path.len() && last_dot(path@.skip(start as int)) == k - start,
            None => last_dot(path@.skip(start as int)) == -1,
        },
{
    let ghost name = path@.skip(start as int);
    let mut i: usize = path.len();
    assert(name.take(i - start) == name);
    while i > start
        invariant
            start <= i <= path.len(),
            name == path@.skip(start as int),
            last_dot(name) == last_dot(name.take(i - start)),
        decreases i,
    {
        proof {
            assert(name.take(i - start).drop_last() == name.take(i - 1 - start));
            assert(name.take(i - start).last() == path[i - 1]);
        }
        if path[i - 1] == '.' {
            return Some(i - 1);
        }
        i = i - 1;
    }
    None
}

/// The extension of `path`, if it has one.
pub fn extension_of(path: &str) -> (r: Option<String>)
    ensures
        match r {
            Some(e) => extension(path@) == Some(e@),
            None => extension(path@) is None,
        },
{
    let chars = chars_of(path);
    let start = find_name_start(&chars);
    let ghost name = file_name(path@);
    match find_last_dot(&chars, start) {
        None => None,
        Some(dot) => {
            if dot == start {
                return None;
            }
            if chars.len() - start == 2 && chars[start] == '.' && chars[start + 1] == '.' {
                assert(name =~= seq!['.', '.']);
                return None;
            }
            assert(name != seq!['.', '.']) by {
                if name == seq!['.', '.'] {
                    assert(name.len() == 2);
                    assert(name[0] == '.');
                    assert(name[1] == '.');
                }
            }
            let mut out = String::new();
            let mut i: usize = dot + 1;
            while i < chars.len()
                invariant
                    dot < i <= chars.len(),
                    out@ == chars@.subrange(dot + 1, i as int),
                decreases chars.len() - i,
            {
                push_char(&mut out, chars[i]);
                assert(out@ =~= chars@.subrange(dot + 1, i + 1));
                i = i + 1;
            }
            assert(out@ =~= name.skip(last_dot(name) + 1));
            Some(out)
        },
    }
}

/// Whether `text` is one of `items`.
fn holds(items: &Vec<String>, text: &str) -> (r: bool)
    ensures
        r == string_texts(items@).to_set().contains(text@),
{
    let ghost texts = string_texts(items@);
    let mut i: usize = 0;
    while i < items.len()
        invariant
            i <= items.len(),
            texts == string_texts(items@),
            forall|k: int| 0 <= k < i ==> texts[k] != text@,
        decreases items.len() - i,
    {
        if same_text(items[i].as_str(), text) {
            assert(texts[i as int] == text@);
            assert(texts.contains(text@));
            return true;
        }
        i = i + 1;
    }
    assert(!texts.contains(text@));
    false
}

impl ExtensionSet {
    /// Whether no extension is kept twice.
    pub closed spec fn wf(&self) -> bool {
        string_texts(self.extensions@).no_duplicates()
    }

    /// The set of the given extensions, each in lower case.
    pub fn new(values: &[&'static str]) -> (set: Self)
        ensures
            set.wf(),
            set@ == lowered(str_texts(values@)),
    {
        let ghost all = str_texts(values@);
        let mut extensions: Vec<String> = Vec::new();
        let mut i: usize = 0;
        assert(string_texts(extensions@).to_set() =~= lowered(all.take(0)));
        while i < values.len()
            invariant
                i <= values.len(),
                all == str_texts(values@),
                string_texts(extensions@).no_duplicates(),
                string_texts(extensions@).to_set() == lowered(all.take(i as int)),
            decreases values.len() - i,
        {
            let ghost before = string_texts(extensions@);
            let lower = to_lowercase(values[i]);
            if !holds(&extensions, lower.as_str()) {
                extensions.push(lower);
                proof {
                    assert(string_texts(extensions@) =~= before.push(lower@));
                    lemma_push_no_duplicates(before, lower@);
                }
            }
            proof {
                let after = string_texts(extensions@);
                assert forall|e: Seq<char>| after.to_set().contains(e) == lowered(
                    all.take(i + 1),
                ).contains(e) by {
                    if after.to_set().contains(e) {
                        if before.to_set().contains(e) {
                            let k = choose|k: int|
                                0 <= k < i && e == lowercase(#[trigger] all.take(i as int)[k]);
                            assert(all.take(i + 1)[k] == all.take(i as int)[k]);
                        } else {
                            let k = choose|k: int| 0 <= k < after.len() && after[k] == e;
                            if k < before.len() {
                                assert(before[k] == e);
                            }
                            assert(e == lowercase(all.take(i + 1)[i as int]));
                        }
                    }
                    if lowered(all.take(i + 1)).contains(e) {
                        let k = choose|k: int|
                            0 <= k < i + 1 && e == lowercase(#[trigger] all.take(i + 1)[k]);
                        if k < i {
                            assert(all.take(i as int)[k] == all.take(i + 1)[k]);
                            assert(lowered(all.take(i as int)).contains(e));
                            assert(before.contains(e));
                            let m = choose|m: int| 0 <= m < before.len() && before[m] == e;
                            assert(after[m] == e);
                        } else {
                            assert(e == lower@);
                            if before.contains(e) {
                                let m = choose|m: int| 0 <= m < before.len() && before[m] == e;
                                assert(after[m] == e);
                            } else {
                                assert(after[before.len() as int] == e);
                            }
                        }
                    }
                }
                assert(after.to_set() =~= lowered(all.take(i + 1)));
            }
            i = i + 1;
        }
        assert(all.take(i as int) == all);
        ExtensionSet { extensions }
    }

    /// Whether `path` has an extension of the set, in whatever case.
    pub fn matches(&self, path: &str) -> (r: bool)
        ensures
            r == match extension(path@) {
                Some(e) => self@.contains(lowercase(e)),
                None => false,
            },
    {
        match extension_of(path) {
            None => false,
            Some(e) => holds(&self.extensions, to_lowercase(e.as_str()).as_str()),
        }
    }
}

impl PathChecker for ExtensionSet {
    open spec fn accepts(&self, path: Seq<char>) -> bool {
        match extension(path) {
            Some(e) => self@.contains(lowercase(e)),
            None => false,
        }
    }

    open spec fn decides(&self, path: Seq<char>) -> bool {
        true
    }

    open spec fn fails_with(&self, path: Seq<char>, error: Error) -> bool {
        false
    }

    fn matches(&self, path: &str) -> (r: Result<bool>) {
        Ok(ExtensionSet::matches(self, path))
    }
}

} // verus!
