//! Two ways to search by several tags: the items that have all of them,
//! and the items that have any of them.

use vstd::prelude::*;
use vstd::std_specs::hash::group_hash_axioms;
use std::collections::HashSet;

verus! {

broadcast use group_hash_axioms;

/// An item and the tags it has.
pub struct Foo {
    pub item_id: i32,
    pub tag_ids: HashSet<i32>,
}

impl Foo {
    pub fn new(item_id: i32, tag_ids: HashSet<i32>) -> (foo: Self)
        ensures
            foo.item_id == item_id,
            foo.tag_ids == tag_ids,
    {
        Self { item_id: item_id, tag_ids: tag_ids }
    }
}

/// A list of items with their tags.
pub struct S {
    pub foos: Vec<Foo>,
}

/// The ids of the items of `foos` whose tags `takes` accepts.
pub open spec fn ids_where(foos: Seq<Foo>, takes: spec_fn(Set<i32>) -> bool) -> Set<i32> {
    Set::new(
        |id: i32|
            exists|i: int| 0 <= i < foos.len() && (#[trigger] foos[i]).item_id == id && takes(foos[i].tag_ids@),
    )
}

/// The tag sets that hold all of `wanted`.
pub open spec fn holds_all(wanted: Set<i32>) -> spec_fn(Set<i32>) -> bool {
    |have: Set<i32>| wanted.subset_of(have)
}

/// The tag sets that hold one of `wanted` at least.
pub open spec fn holds_any(wanted: Set<i32>) -> spec_fn(Set<i32>) -> bool {
    |have: Set<i32>| exists|t: i32| wanted.contains(t) && have.contains(t)
}

/// Whether `have` holds every tag of `wanted`.
fn has_all(have: &HashSet<i32>, wanted: &HashSet<i32>) -> (r: bool)
    ensures
        r == wanted@.subset_of(have@),
{
    let ghost mut seen: Set<i32> = Set::empty();
    for t in iter: wanted.iter()
        invariant
            iter.seq().unref().to_set() == wanted@,
            seen == iter.seq().unref().take(iter.index() as int).to_set(),
            forall|x: i32| seen.contains(x) ==> have@.contains(x),
            iter.index() == iter.seq().len() ==> seen == wanted@,
    {
        proof {
            lemma_seen_next(iter.seq().unref(), iter.index() as int);
        }
        if !have.contains(t) {
            assert(iter.seq().unref()[iter.index() as int] == *t);
            assert(iter.seq().unref().contains(*t));
            assert(wanted@.contains(*t));
            return false;
        }
        proof {
            seen = seen.insert(*t);
        }
    }
    true
}

/// Whether `have` holds a tag of `wanted`.
fn has_any(have: &HashSet<i32>, wanted: &HashSet<i32>) -> (r: bool)
    ensures
        r == holds_any(wanted@)(have@),
{
    let ghost mut seen: Set<i32> = Set::empty();
    for t in iter: wanted.iter()
        invariant
            iter.seq().unref().to_set() == wanted@,
            seen == iter.seq().unref().take(iter.index() as int).to_set(),
            forall|x: i32| seen.contains(x) ==> !have@.contains(x),
            iter.index() == iter.seq().len() ==> seen == wanted@,
    {
        proof {
            lemma_seen_next(iter.seq().unref(), iter.index() as int);
        }
        if have.contains(t) {
            assert(iter.seq().unref()[iter.index() as int] == *t);
            assert(iter.seq().unref().contains(*t));
            assert(wanted@.contains(*t) && have@.contains(*t));
            return true;
        }
        proof {
            seen = seen.insert(*t);
        }
    }
    false
}

/// The values seen after one more of a sequence are those seen before and
/// that one; and once all are seen, they are the values of the sequence.
proof fn lemma_seen_next(all: Seq<i32>, i: int)
    requires
        0 <= i < all.len(),
    ensures
        all.take(i + 1).to_set() == all.take(i).to_set().insert(all[i]),
        i + 1 == all.len() ==> all.take(i + 1).to_set() == all.to_set(),
{
    assert(all.take(i + 1) == all.take(i).push(all[i]));
    all.take(i).lemma_push_to_set_commute(all[i]);
    if i + 1 == all.len() {
        assert(all.take(i + 1) == all);
    }
}

impl S {
    pub fn new(foos: Vec<Foo>) -> (s: Self)
        ensures
            s.foos == foos,
    {
        Self { foos: foos }
    }

    /// The ids of the items that have every tag of `tag_ids`.
    pub fn all_of(&self, tag_ids: &HashSet<i32>) -> (ids: HashSet<i32>)
        ensures
            ids@ == ids_where(self.foos@, holds_all(tag_ids@)),
    {
        let mut ids: HashSet<i32> = HashSet::new();
        let mut i: usize = 0;
        while i < self.foos.len()
            invariant
                i <= self.foos.len(),
                ids@ == ids_where(self.foos@.take(i as int), holds_all(tag_ids@)),
            decreases self.foos.len() - i,
        {
            let ghost before = ids@;
            if has_all(&self.foos[i].tag_ids, tag_ids) {
                ids.insert(self.foos[i].item_id);
            }
            proof {
                lemma_ids_where_next(self.foos@, i as int, holds_all(tag_ids@));
            }
            i = i + 1;
        }
        assert(self.foos@.take(i as int) == self.foos@);
        ids
    }

    /// The ids of the items that have a tag of `tag_ids` at least.
    pub fn any_of(&self, tag_ids: &HashSet<i32>) -> (ids: HashSet<i32>)
        ensures
            ids@ == ids_where(self.foos@, holds_any(tag_ids@)),
    {
        let mut ids: HashSet<i32> = HashSet::new();
        let mut i: usize = 0;
        while i < self.foos.len()
            invariant
                i <= self.foos.len(),
                ids@ == ids_where(self.foos@.take(i as int), holds_any(tag_ids@)),
            decreases self.foos.len() - i,
        {
            if has_any(&self.foos[i].tag_ids, tag_ids) {
                ids.insert(self.foos[i].item_id);
            }
            proof {
                lemma_ids_where_next(self.foos@, i as int, holds_any(tag_ids@));
            }
            i = i + 1;
        }
        assert(self.foos@.take(i as int) == self.foos@);
        ids
    }
}

/// One more item adds its id where its tags are accepted, and nothing
/// else.
proof fn lemma_ids_where_next(foos: Seq<Foo>, i: int, takes: spec_fn(Set<i32>) -> bool)
    requires
        0 <= i < foos.len(),
    ensures
        ids_where(foos.take(i + 1), takes) == if takes(foos[i].tag_ids@) {
            ids_where(foos.take(i), takes).insert(foos[i].item_id)
        } else {
            ids_where(foos.take(i), takes)
        },
{
    let small = ids_where(foos.take(i), takes);
    let large = ids_where(foos.take(i + 1), takes);
    let wanted = if takes(foos[i].tag_ids@) {
        small.insert(foos[i].item_id)
    } else {
        small
    };
    assert forall|id: i32| large.contains(id) == wanted.contains(id) by {
        if large.contains(id) {
            let k = choose|k: int|
                0 <= k < foos.take(i + 1).len() && (#[trigger] foos.take(i + 1)[k]).item_id == id
                    && takes(foos.take(i + 1)[k].tag_ids@);
            if k < i {
                assert(foos.take(i)[k] == foos.take(i + 1)[k]);
            }
        }
        if wanted.contains(id) {
            if small.contains(id) {
                let k = choose|k: int|
                    0 <= k < foos.take(i).len() && (#[trigger] foos.take(i)[k]).item_id == id
                        && takes(foos.take(i)[k].tag_ids@);
                assert(foos.take(i + 1)[k] == foos.take(i)[k]);
            } else {
                assert(foos.take(i + 1)[i] == foos[i]);
            }
        }
    }
    assert(large =~= wanted);
}

} // verus!
