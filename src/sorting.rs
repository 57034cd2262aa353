//! Ascending sort of signed 32-bit integers.
use vstd::prelude::*;

verus! {

/// `s` is in ascending order.
pub open spec fn is_sorted(s: Seq<i32>) -> bool {
    forall|a: int, b: int| 0 <= a < b < s.len() ==> s[a] <= s[b]
}

/// Two ascending sequences that hold the same elements are the same sequence.
pub proof fn lemma_sorted_permutation_unique(s: Seq<i32>, t: Seq<i32>)
    requires
        is_sorted(s),
        is_sorted(t),
        s.to_multiset() == t.to_multiset(),
    ensures
        s == t,
    decreases s.len(),
{
    s.to_multiset_ensures();
    t.to_multiset_ensures();
    assert(s.len() == t.len());
    if s.len() > 0 {
        assert(t.to_multiset().count(s[0]) > 0);
        assert(s.to_multiset().count(t[0]) > 0);
        assert(t.contains(s[0]));
        assert(s.contains(t[0]));
        assert(s[0] == t[0]);
        assert(s.remove(0) =~= s.drop_first());
        assert(t.remove(0) =~= t.drop_first());
        lemma_sorted_permutation_unique(s.drop_first(), t.drop_first());
        assert(s =~= t) by {
            assert forall|i: int| 0 <= i < s.len() implies s[i] == t[i] by {
                if i > 0 {
                    assert(s[i] == s.drop_first()[i - 1]);
                    assert(t[i] == t.drop_first()[i - 1]);
                }
            }
        }
    }
}

/// Relies on slice::sort_unstable: the slice ends ascending, holding the same elements.
#[verifier::external_body]
fn sort_unstable_in_place(v: &mut Vec<i32>)
    ensures
        is_sorted(final(v)@),
        final(v)@.to_multiset() == old(v)@.to_multiset(),
{
    v.sort_unstable();
}

/// `arr` in ascending order; an array already in order comes back unchanged.
pub fn sort_large_array(arr: Vec<i32>) -> (r: Vec<i32>)
    ensures
        is_sorted(r@),
        r@.to_multiset() == arr@.to_multiset(),
        is_sorted(arr@) ==> r@ == arr@,
{
    let mut v = arr;
    sort_unstable_in_place(&mut v);
    proof {
        if is_sorted(arr@) {
            lemma_sorted_permutation_unique(v@, arr@);
        }
    }
    v
}

/// Sorting twice gives what sorting once gives.
pub proof fn lemma_sort_idempotent(s: Seq<i32>, once: Seq<i32>, twice: Seq<i32>)
    requires
        is_sorted(once),
        once.to_multiset() == s.to_multiset(),
        is_sorted(twice),
        twice.to_multiset() == once.to_multiset(),
    ensures
        twice == once,
{
    lemma_sorted_permutation_unique(twice, once);
}

} // verus!
