//! Deleting tags.

use vstd::prelude::*;
use crate::action::tag::names_in;
use crate::db::dao::{Catalog, Tag};
use crate::error::Result;
use crate::tag;
use crate::tag::names_of;

verus! {

/// Removes `tags` from the store, and with them their associations.
pub fn do_delete_tag(store: &mut Catalog, tags: &Vec<tag::Tag>) -> (r: Result<()>)
    requires
        old(store).wf(),
    ensures
        final(store).wf(),
        r is Ok,
        final(store)@ == old(store)@.delete_tags(names_of(tags@)),
{
    let names = names_in(tags);
    Tag::delete_by_names(store, &names)?;
    Ok(())
}

} // verus!
