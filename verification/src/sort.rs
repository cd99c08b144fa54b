//! A verified sort for sample vectors, used by the interquartile range.

use vstd::prelude::*;
use vstd::relations::{sorted_by, total_ordering};
use vstd::seq_lib::lemma_sorted_unique;

verus! {

/// The ordering the library sorts samples by.
pub open spec fn leq64() -> spec_fn(i64, i64) -> bool {
    |a: i64, b: i64| a <= b
}

/// `<=` on `i64` is a total ordering.
pub proof fn lemma_leq64_total_ordering()
    ensures
        total_ordering(leq64()),
{
}

/// The sorted rearrangement of a sample sequence.
pub open spec fn sorted_of(s: Seq<i64>) -> Seq<i64> {
    s.sort_by(leq64())
}

/// Sorts a copy of the samples, ascending.
pub fn sort_samples(x: &Vec<i64>) -> (r: Vec<i64>)
    ensures
        r@ == sorted_of(x@),
        r@.len() == x@.len(),
        sorted_by(r@, leq64()),
        r@.to_multiset() == x@.to_multiset(),
        forall|k: int| 0 <= k < r@.len() ==> x@.contains(#[trigger] r@[k]),
{
    broadcast use vstd::seq_lib::group_to_multiset_ensures;

    let mut r: Vec<i64> = Vec::new();
    let mut i: usize = 0;
    while i < x.len()
        invariant
            i <= x.len(),
            r@.len() == i,
            r@.to_multiset() == x@.take(i as int).to_multiset(),
            sorted_by(r@, leq64()),
        decreases x.len() - i,
    {
        broadcast use vstd::seq_lib::group_to_multiset_ensures;

        let v = x[i];
        let mut j: usize = 0;
        while j < r.len() && r[j] <= v
            invariant
                j <= r@.len(),
                forall|k: int| 0 <= k < j ==> r@[k] <= v,
            decreases r@.len() - j,
        {
            j += 1;
        }
        let ghost old_r = r@;
        r.insert(j, v);
        proof {
            assert(x@.take(i as int + 1) =~= x@.take(i as int).push(v));
            assert(r@.to_multiset() =~= x@.take(i as int + 1).to_multiset());
            assert forall|p: int, q: int| 0 <= p < q < r@.len() implies #[trigger] leq64()(
                r@[p],
                r@[q],
            ) by {
                if q <= j {
                    if q == j {
                        assert(r@[p] == old_r[p] && old_r[p] <= v);
                    } else {
                        assert(leq64()(old_r[p], old_r[q]));
                    }
                } else if p >= j {
                    if p == j {
                        assert(j < old_r.len());
                        assert(old_r[j as int] > v);
                        if j < q - 1 {
                            assert(leq64()(old_r[j as int], old_r[q - 1]));
                        }
                        assert(v <= old_r[q - 1]);
                    } else {
                        assert(leq64()(old_r[p - 1], old_r[q - 1]));
                    }
                } else {
                    assert(old_r[j as int] > v || j == old_r.len());
                    assert(leq64()(old_r[p], old_r[q - 1]));
                    assert(old_r[q - 1] > v || (j < old_r.len() && leq64()(old_r[j as int], old_r[q - 1])));
                }
            }
        }
        i += 1;
    }
    proof {
        assert(x@.take(x@.len() as int) =~= x@);
        lemma_leq64_total_ordering();
        x@.lemma_sort_by_ensures(leq64());
        lemma_sorted_unique(r@, x@.sort_by(leq64()), leq64());
        assert(r@ =~= sorted_of(x@));
        assert forall|k: int| 0 <= k < r@.len() implies x@.contains(#[trigger] r@[k]) by {
            assert(r@.to_multiset().count(r@[k]) > 0);
        }
    }
    r
}

} // verus!
