//! The name of a tag, as a caller gives it.

use vstd::prelude::*;

verus! {

/// A tag name borrowed from the caller.
#[derive(Debug)]
pub struct Tag<'a>(&'a str);

impl<'a> View for Tag<'a> {
    type V = Seq<char>;

    closed spec fn view(&self) -> Seq<char> {
        self.0@
    }
}

impl<'a> Tag<'a> {
    pub fn from_str(s: &'a str) -> (tag: Self)
        ensures
            tag@ == s@,
    {
        Tag(s)
    }

    pub fn as_str(&self) -> (s: &str)
        ensures
            s@ == self@,
    {
        self.0
    }
}

/// The names of a list of tags.
pub open spec fn names_of(tags: Seq<Tag>) -> Seq<Seq<char>> {
    tags.map_values(|t: Tag| t@)
}

} // verus!
