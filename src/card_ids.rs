use vstd::prelude::*;
use vstd::relations::{sorted_by, total_ordering};
use vstd::seq_lib::lemma_sorted_unique;

verus! {

/// The ascending order on card ids.
pub open spec fn id_leq() -> spec_fn(u32, u32) -> bool {
    |a: u32, b: u32| a <= b
}

/// The card ids in ascending order.
pub open spec fn sorted_ids(ids: Seq<u32>) -> Seq<u32> {
    ids.sort_by(id_leq())
}

/// Scanning an ascending sequence from index `i`: one past the first id whose
/// successor in the sequence is not the next integer, or one past the last id;
/// `0` for no ids.
pub open spec fn gap_from(t: Seq<u32>, i: int) -> int
    decreases t.len() - i,
{
    if t.len() == 0 {
        0
    } else if i < 0 || i + 1 >= t.len() {
        t.last() + 1
    } else if t[i] + 1 != t[i + 1] {
        t[i] + 1
    } else {
        gap_from(t, i + 1)
    }
}

/// The id that the allocator hands out next, given the ids in use: the first
/// gap in their ascending order, else one past the largest, else `0`.
pub open spec fn next_free_id(ids: Seq<u32>) -> int {
    gap_from(sorted_ids(ids), 0)
}

proof fn lemma_id_leq_total()
    ensures
        total_ordering(id_leq()),
{
}

/// An ascending sequence with the same elements as `ids` is their sorted order.
pub proof fn lemma_sorted_ids(ids: Seq<u32>, t: Seq<u32>)
    requires
        sorted_by(t, id_leq()),
        t.to_multiset() == ids.to_multiset(),
    ensures
        sorted_ids(ids) == t,
{
    ids.lemma_sort_by_ensures(id_leq());
    lemma_id_leq_total();
    lemma_sorted_unique(t, sorted_ids(ids), id_leq());
}

proof fn lemma_gap_from_unused(t: Seq<u32>, i: int)
    requires
        0 <= i < t.len(),
        forall|a: int, b: int| 0 <= a < b < t.len() ==> t[a] < t[b],
    ensures
        gap_from(t, i) > t[i],
        forall|j: int| i <= j < t.len() ==> t[j] != gap_from(t, i),
    decreases t.len() - i,
{
    if i + 1 >= t.len() {
    } else if t[i] + 1 != t[i + 1] {
    } else {
        lemma_gap_from_unused(t, i + 1);
    }
}

/// Where the ids in use are distinct, the next id is none of them.
pub proof fn lemma_next_free_id_unused(ids: Seq<u32>)
    requires
        ids.no_duplicates(),
    ensures
        forall|k: int| 0 <= k < ids.len() ==> ids[k] != next_free_id(ids),
{
    broadcast use vstd::seq_lib::group_to_multiset_ensures;
    broadcast use vstd::multiset::group_multiset_axioms;

    let t = sorted_ids(ids);
    ids.lemma_sort_by_ensures(id_leq());
    ids.lemma_multiset_has_no_duplicates();
    assert forall|x: u32| t.to_multiset().contains(x) implies t.to_multiset().count(x) == 1 by {}
    t.lemma_multiset_has_no_duplicates_conv();
    assert forall|a: int, b: int| 0 <= a < b < t.len() implies t[a] < t[b] by {
        assert(id_leq()(t[a], t[b]));
    }
    assert forall|k: int| 0 <= k < ids.len() implies ids[k] != next_free_id(ids) by {
        assert(ids.contains(ids[k]));
        assert(ids.to_multiset().count(ids[k]) > 0);
        assert(t.to_multiset().count(ids[k]) > 0);
        assert(t.contains(ids[k]));
        let j = choose|j: int| 0 <= j < t.len() && t[j] == ids[k];
        lemma_gap_from_unused(t, 0);
        if j > 0 {
            assert(t[0] < t[j]);
        }
    }
}

/// Relies on slice::sort: the elements in ascending order, none added or lost.
#[verifier::external_body]
fn sort_ids(v: &mut Vec<u32>)
    ensures
        sorted_by(final(v)@, id_leq()),
        final(v)@.to_multiset() == old(v)@.to_multiset(),
{
    v.sort();
}

/// The next card id for the ids in use, in the order they were found.
pub fn first_free_id(ids: Vec<u32>) -> (r: u32)
    requires
        next_free_id(ids@) <= u32::MAX,
    ensures
        r == next_free_id(ids@),
{
    let ghost orig = ids@;
    let mut t = ids;
    sort_ids(&mut t);
    proof {
        lemma_sorted_ids(orig, t@);
    }
    if t.len() == 0 {
        return 0;
    }
    let mut i: usize = 0;
    while i < t.len() - 1
        invariant
            0 <= i < t@.len(),
            t@ == sorted_ids(orig),
            orig == ids@,
            gap_from(t@, i as int) == next_free_id(orig),
            next_free_id(orig) <= u32::MAX,
        decreases t@.len() - i,
    {
        let a = t[i];
        let b = t[i + 1];
        assert(a < u32::MAX);
        if a + 1 != b {
            assert(gap_from(t@, i as int) == a + 1);
            return a + 1;
        }
        i = i + 1;
    }
    t[i] + 1
}

} // verus!
