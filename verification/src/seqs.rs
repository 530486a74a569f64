//! Facts about sequences that the rest of the crate leans on.

use vstd::prelude::*;

verus! {

/// Filtering a sequence with one more item at its end.
pub proof fn lemma_filter_push<A>(s: Seq<A>, x: A, pred: spec_fn(A) -> bool)
    ensures
        s.push(x).filter(pred) == if pred(x) {
            s.filter(pred).push(x)
        } else {
            s.filter(pred)
        },
{
    reveal(Seq::filter);
    assert(s.push(x).drop_last() =~= s);
}

/// Items taken out of a sequence without duplicates, none from one position
/// twice, are items of the sequence and without duplicates themselves.
pub proof fn lemma_taken_from_distinct<A>(sub: Seq<A>, sup: Seq<A>)
    requires
        sup.no_duplicates(),
        sub.to_multiset().subset_of(sup.to_multiset()),
    ensures
        sub.no_duplicates(),
        forall|k: int| 0 <= k < sub.len() ==> sup.contains(#[trigger] sub[k]),
        sub.len() <= sup.len(),
{
    sub.to_multiset_ensures();
    sup.to_multiset_ensures();
    sup.lemma_multiset_has_no_duplicates();
    assert forall|x: A| sub.to_multiset().contains(x) implies sub.to_multiset().count(x) == 1 by {
        assert(sub.to_multiset().count(x) <= sup.to_multiset().count(x));
    }
    sub.lemma_multiset_has_no_duplicates_conv();
    assert forall|k: int| 0 <= k < sub.len() implies sup.contains(#[trigger] sub[k]) by {
        assert(sub.contains(sub[k]));
        assert(sub.to_multiset().count(sub[k]) <= sup.to_multiset().count(sub[k]));
    }
    sub.unique_seq_to_set();
    sup.unique_seq_to_set();
    vstd::seq_lib::seq_to_set_is_finite(sup);
    assert(sub.to_set().subset_of(sup.to_set())) by {
        assert forall|x: A| sub.to_set().contains(x) implies sup.to_set().contains(x) by {
            let k = choose|k: int| 0 <= k < sub.len() && sub[k] == x;
            assert(sup.contains(sub[k]));
        }
    }
    vstd::set_lib::lemma_len_subset(sub.to_set(), sup.to_set());
}

/// A sequence without duplicates, put in another order, holds the same items
/// and is without duplicates still.
pub proof fn lemma_reordered_distinct<A>(a: Seq<A>, b: Seq<A>)
    requires
        a.no_duplicates(),
        a.to_multiset() == b.to_multiset(),
    ensures
        b.no_duplicates(),
        a.len() == b.len(),
        forall|x: A| a.contains(x) <==> b.contains(x),
{
    a.to_multiset_ensures();
    b.to_multiset_ensures();
    a.lemma_multiset_has_no_duplicates();
    b.lemma_multiset_has_no_duplicates_conv();
    assert forall|x: A| a.contains(x) <==> b.contains(x) by {
        assert(a.contains(x) <==> a.to_multiset().count(x) > 0);
        assert(b.contains(x) <==> b.to_multiset().count(x) > 0);
    }
}

} // verus!
