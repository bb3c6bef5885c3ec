//! A visitor that chooses files by their extension.

use vstd::prelude::*;
use crate::error::Result;
use crate::extension_set::ExtensionSet;
use crate::sample_visitor::{visit, visited, Entry};
use crate::text::string_texts;

verus! {

/// Visits the files whose extension is in a set.
pub struct SampleVisitor {
    extensions: ExtensionSet,
}

impl SampleVisitor {
    /// The extensions that this visitor goes by.
    pub closed spec fn extensions(&self) -> ExtensionSet {
        self.extensions
    }

    pub fn new(extensions: ExtensionSet) -> (visitor: Self)
        ensures
            visitor.extensions() == extensions,
    {
        Self { extensions: extensions }
    }

    /// The paths of the files in the tree under `dir` whose extension is
    /// in the set, depth first.
    pub fn visit(&self, dir: &Entry) -> (r: Result<Vec<String>>)
        ensures
            r matches Ok(paths) && string_texts(paths@) == visited(*dir, &self.extensions()),
    {
        visit(dir, &self.extensions)
    }
}

} // verus!
