//! Facts about sequences that are rearranged or thinned out, stated over
//! the multisets of their elements.

use vstd::prelude::*;

verus! {

/// Two sequences with the same elements, each as often in the one as in the
/// other, still have the same elements after a function is applied to each.
pub proof fn lemma_map_keeps_multiset<A, B>(left: Seq<A>, right: Seq<A>, f: spec_fn(A) -> B)
    requires
        left.to_multiset() == right.to_multiset(),
    ensures
        left.map_values(f).to_multiset() == right.map_values(f).to_multiset(),
    decreases left.len(),
{
    broadcast use vstd::seq_lib::group_to_multiset_ensures;

    left.to_multiset_ensures();
    right.to_multiset_ensures();
    if left.len() > 0 {
        let x = left.last();
        let shorter = left.drop_last();
        assert(left =~= shorter.push(x));
        assert(right.to_multiset().count(x) > 0);
        let j = choose|j: int| 0 <= j < right.len() && right[j] == x;
        let rest = right.remove(j);
        assert(shorter.to_multiset() =~= left.to_multiset().remove(x));
        lemma_map_keeps_multiset(shorter, rest, f);
        assert(left.map_values(f) =~= shorter.map_values(f).push(f(x)));
        assert(right.map_values(f).remove(j) =~= rest.map_values(f));
        assert(right.map_values(f).to_multiset().count(f(x)) > 0);
    }
}

/// Every element of a sequence whose elements all occur, at least as often,
/// in another sequence is an element of that other sequence.
pub proof fn lemma_survivors_come_from<A>(survivors: Seq<A>, everyone: Seq<A>)
    requires
        survivors.to_multiset().subset_of(everyone.to_multiset()),
    ensures
        forall|i: int| 0 <= i < survivors.len() ==> everyone.contains(#[trigger] survivors[i]),
{
    survivors.to_multiset_ensures();
    everyone.to_multiset_ensures();
    assert forall|i: int| 0 <= i < survivors.len() implies everyone.contains(
        #[trigger] survivors[i],
    ) by {
        let x = survivors[i];
        assert(survivors.to_multiset().count(x) > 0);
    }
}

/// Taking one element out of a sequence by moving the last element into
/// its place takes exactly that element out of the multiset.
pub proof fn lemma_swap_remove_multiset<A>(s: Seq<A>, i: int)
    requires
        0 <= i < s.len(),
    ensures
        s.update(i, s.last()).drop_last().to_multiset() == s.to_multiset().remove(s[i]),
{
    let moved = s.update(i, s.last());
    vstd::seq_lib::to_multiset_update(s, i, s.last());
    moved.to_multiset_ensures();
    s.to_multiset_ensures();
    assert(moved.remove(moved.len() - 1) =~= moved.drop_last());
}

} // verus!
