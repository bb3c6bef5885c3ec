//! Facts about sequences that the proofs of the crate share.

use vstd::prelude::*;

verus! {

/// A value that is new to a sequence without duplicates can be added at its
/// end.
pub proof fn lemma_push_no_duplicates<A>(s: Seq<A>, x: A)
    requires
        s.no_duplicates(),
        !s.contains(x),
    ensures
        s.push(x).no_duplicates(),
{
    assert forall|i: int, j: int|
        0 <= i < s.push(x).len() && 0 <= j < s.push(x).len() && i != j implies s.push(x)[i]
        != s.push(x)[j] by {
        if i < s.len() {
            assert(s.contains(s[i]));
        }
        if j < s.len() {
            assert(s.contains(s[j]));
        }
    }
}

/// In a sequence without duplicates, the index of a value is the one place
/// where it stands.
pub proof fn lemma_index_of_unique<A>(s: Seq<A>, i: int)
    requires
        s.no_duplicates(),
        0 <= i < s.len(),
    ensures
        s.contains(s[i]),
        s.index_of(s[i]) == i,
{
}

/// What a filter keeps are values of the sequence, in their order: each
/// kept value stands at an index of the sequence, and these indices rise.
pub proof fn lemma_filter_rises<A>(s: Seq<A>, pred: spec_fn(A) -> bool) -> (at: Seq<int>)
    ensures
        at.len() == s.filter(pred).len(),
        forall|i: int| 0 <= i < at.len() ==> 0 <= #[trigger] at[i] < s.len(),
        forall|i: int| 0 <= i < at.len() ==> s[#[trigger] at[i]] == s.filter(pred)[i],
        forall|i: int, j: int| 0 <= i < j < at.len() ==> #[trigger] at[i] < #[trigger] at[j],
        forall|k: int|
            0 <= k < s.len() && pred(s[k]) ==> exists|i: int|
                0 <= i < at.len() && #[trigger] at[i] == k,
    decreases s.len(),
{
    reveal(Seq::filter);
    if s.len() == 0 {
        Seq::empty()
    } else {
        let rest = lemma_filter_rises(s.drop_last(), pred);
        let last = s.len() - 1;
        if pred(s.last()) {
            let at = rest.push(last);
            assert forall|k: int| 0 <= k < s.len() && pred(s[k]) implies exists|i: int|
                0 <= i < at.len() && #[trigger] at[i] == k by {
                if k < last {
                    assert(s.drop_last()[k] == s[k]);
                    let i = choose|i: int| 0 <= i < rest.len() && #[trigger] rest[i] == k;
                    assert(at[i] == k);
                } else {
                    assert(at[rest.len() as int] == k);
                }
            }
            at
        } else {
            assert forall|k: int| 0 <= k < s.len() && pred(s[k]) implies exists|i: int|
                0 <= i < rest.len() && #[trigger] rest[i] == k by {
                assert(s.drop_last()[k] == s[k]);
            }
            rest
        }
    }
}

/// What a filter keeps of a sequence grows by one value at most when the
/// sequence is read one value further.
pub proof fn lemma_filter_next<A>(s: Seq<A>, i: int, pred: spec_fn(A) -> bool)
    requires
        0 <= i < s.len(),
    ensures
        s.take(i + 1).filter(pred) == if pred(s[i]) {
            s.take(i).filter(pred).push(s[i])
        } else {
            s.take(i).filter(pred)
        },
{
    assert(s.take(i + 1) == s.take(i).push(s[i]));
    s.take(i).lemma_filter_push(s[i], pred);
}

/// Two filters that take the same values keep the same part of a sequence.
pub proof fn lemma_filter_same<A>(s: Seq<A>, p: spec_fn(A) -> bool, q: spec_fn(A) -> bool)
    requires
        forall|x: A| #[trigger] p(x) == q(x),
    ensures
        s.filter(p) == s.filter(q),
    decreases s.len(),
{
    reveal(Seq::filter);
    if s.len() > 0 {
        lemma_filter_same(s.drop_last(), p, q);
    }
}

} // verus!
