//! Sample-to-bin counting: each sample lands in the first bin whose
//! half-open interval holds it, the last bin being closed on the right.

use vstd::prelude::*;
use vstd::pervasive::VecAdditionalExecFns;
use crate::sums::int_sum;

verus! {

/// Number of bins a boundary sequence delimits.
pub open spec fn nbins(edges: Seq<i64>) -> int {
    if edges.len() == 0 {
        0
    } else {
        edges.len() - 1
    }
}

/// Whether `v` lies in bin `i`: `edges[i] <= v < edges[i+1]`, except that
/// the last bin also takes `v == edges[i+1]`, so the maximum sample is
/// never dropped.
pub open spec fn in_bin(edges: Seq<i64>, i: int, v: i64) -> bool
    recommends
        0 <= i < edges.len() - 1,
{
    if i == edges.len() - 2 {
        edges[i] <= v <= edges[i + 1]
    } else {
        edges[i] <= v < edges[i + 1]
    }
}

/// The first bin index at or after `k` whose interval holds `v`.
pub open spec fn first_bin_from(edges: Seq<i64>, v: i64, k: int) -> Option<int>
    recommends
        0 <= k,
    decreases edges.len() - k,
{
    if k >= edges.len() - 1 {
        None
    } else if in_bin(edges, k, v) {
        Some(k)
    } else {
        first_bin_from(edges, v, k + 1)
    }
}

/// The bin a sample is assigned to: the first interval that holds it, or
/// none when the sample lies outside every bin.
pub open spec fn first_bin(edges: Seq<i64>, v: i64) -> Option<int> {
    first_bin_from(edges, v, 0)
}

/// The samples assigned to bin `i`.
pub open spec fn bin_pred(edges: Seq<i64>, i: int) -> spec_fn(i64) -> bool {
    |v: i64| first_bin(edges, v) == Some(i)
}

/// The samples assigned to any bin at all.
pub open spec fn hits_some_bin(edges: Seq<i64>) -> spec_fn(i64) -> bool {
    |v: i64| !(first_bin(edges, v) is None)
}

/// The bin counts of a sample sequence: entry `i` counts the samples
/// whose first matching bin is `i`.
pub open spec fn counts_spec(data: Seq<i64>, edges: Seq<i64>) -> Seq<int> {
    Seq::new(nbins(edges) as nat, |i: int| data.filter(bin_pred(edges, i)).len() as int)
}

/// A count vector is the one [`counts_spec`] prescribes.
pub open spec fn matches_counts(data: Seq<i64>, edges: Seq<i64>, c: Seq<usize>) -> bool {
    &&& c.len() == nbins(edges)
    &&& forall|i: int| 0 <= i < c.len() ==> #[trigger] c[i] as int == counts_spec(data, edges)[i]
}

/// A boundary sequence is ordered when each edge is at most the next.
pub open spec fn non_decreasing(edges: Seq<i64>) -> bool {
    forall|i: int| 0 <= i < edges.len() - 1 ==> #[trigger] edges[i] <= edges[i + 1]
}

/// What [`first_bin_from`] returns: the first matching bin at or after
/// `k` when one exists, nothing when no bin from `k` on matches.
pub proof fn lemma_first_bin_from_char(edges: Seq<i64>, v: i64, k: int)
    requires
        0 <= k,
    ensures
        match first_bin_from(edges, v, k) {
            Some(i) => k <= i < edges.len() - 1 && in_bin(edges, i, v) && (forall|j: int|
                k <= j < i ==> !in_bin(edges, j, v)),
            None => forall|j: int| k <= j < edges.len() - 1 ==> !in_bin(edges, j, v),
        },
    decreases edges.len() - k,
{
    if k >= edges.len() - 1 {
    } else if in_bin(edges, k, v) {
    } else {
        lemma_first_bin_from_char(edges, v, k + 1);
    }
}

/// A sample is assigned to at most one bin: the counter never counts a
/// sample twice.
pub proof fn lemma_sample_in_one_bin(edges: Seq<i64>, v: i64, i: int, j: int)
    requires
        first_bin(edges, v) == Some(i),
        first_bin(edges, v) == Some(j),
    ensures
        i == j,
{
}

/// Counting is a pure function of its inputs: any two count vectors
/// computed from the same samples and edges are identical, so counting
/// twice changes nothing.
pub proof fn lemma_counts_deterministic(
    data: Seq<i64>,
    edges: Seq<i64>,
    c1: Seq<usize>,
    c2: Seq<usize>,
)
    requires
        matches_counts(data, edges, c1),
        matches_counts(data, edges, c2),
    ensures
        c1 =~= c2,
{
}

/// A sequence of zeroes sums to zero.
proof fn lemma_int_sum_all_zero(s: Seq<int>)
    requires
        forall|i: int| 0 <= i < s.len() ==> #[trigger] s[i] == 0,
    ensures
        int_sum(s) == 0,
    decreases s.len(),
{
    if s.len() > 0 {
        lemma_int_sum_all_zero(s.drop_last());
    }
}

/// Sums add pointwise.
proof fn lemma_int_sum_pointwise_add(a: Seq<int>, b: Seq<int>)
    requires
        a.len() == b.len(),
    ensures
        int_sum(Seq::new(a.len(), |i: int| a[i] + b[i])) == int_sum(a) + int_sum(b),
    decreases a.len(),
{
    if a.len() > 0 {
        lemma_int_sum_pointwise_add(a.drop_last(), b.drop_last());
        let c = Seq::new(a.len(), |i: int| a[i] + b[i]);
        assert(c.drop_last() =~= Seq::new(a.drop_last().len(), |i: int| a.drop_last()[i]
            + b.drop_last()[i]));
    }
}

/// The indicator of the sample's own bin sums to one over the bins the
/// sample matches, and to zero when it matches none.
proof fn lemma_int_sum_indicator(edges: Seq<i64>, v: i64, n: int)
    requires
        0 <= n,
    ensures
        int_sum(
            Seq::new(n as nat, |i: int| if first_bin(edges, v) == Some(i) {
                1int
            } else {
                0int
            }),
        ) == (match first_bin(edges, v) {
            Some(i) if 0 <= i < n => 1int,
            _ => 0int,
        }),
    decreases n,
{
    let f = |i: int| if first_bin(edges, v) == Some(i) {
        1int
    } else {
        0int
    };
    if n > 0 {
        lemma_int_sum_indicator(edges, v, n - 1);
        assert(Seq::new(n as nat, f).drop_last() =~= Seq::new((n - 1) as nat, f));
        assert(Seq::new(n as nat, f).last() == f(n - 1));
    }
}

/// The bin counts sum to exactly the number of samples that land in some
/// bin.
pub proof fn lemma_counts_sum(data: Seq<i64>, edges: Seq<i64>)
    ensures
        int_sum(counts_spec(data, edges)) == data.filter(hits_some_bin(edges)).len(),
    decreases data.len(),
{
    broadcast use vstd::seq_lib::group_filter_ensures;

    let nb = nbins(edges);
    if data.len() == 0 {
        assert forall|i: int| 0 <= i < nb implies #[trigger] counts_spec(data, edges)[i] == 0 by {
            data.lemma_filter_len(bin_pred(edges, i));
        }
        lemma_int_sum_all_zero(counts_spec(data, edges));
        assert(data.filter(hits_some_bin(edges)).len() == 0);
    } else {
        let d0 = data.drop_last();
        let v = data.last();
        lemma_counts_sum(d0, edges);
        assert(data =~= d0.push(v));
        let ind = Seq::new(nb as nat, |i: int| if first_bin(edges, v) == Some(i) {
            1int
        } else {
            0int
        });
        assert forall|i: int| 0 <= i < nb implies #[trigger] counts_spec(data, edges)[i]
            == counts_spec(d0, edges)[i] + ind[i] by {
            d0.lemma_filter_len_push(bin_pred(edges, i), v);
        }
        assert(counts_spec(data, edges) =~= Seq::new(nb as nat, |i: int| counts_spec(d0, edges)[i]
            + ind[i]));
        assert(counts_spec(d0, edges).len() == ind.len());
        lemma_int_sum_pointwise_add(counts_spec(d0, edges), ind);
        assert(Seq::new(counts_spec(d0, edges).len(), |i: int| counts_spec(d0, edges)[i] + ind[i])
            =~= counts_spec(data, edges));
        lemma_int_sum_indicator(edges, v, nb);
        lemma_first_bin_from_char(edges, v, 0);
        d0.lemma_filter_len_push(hits_some_bin(edges), v);
    }
}

/// The bin counts sum to at most the number of samples: a sample outside
/// every bin is dropped, never double-counted.
pub proof fn lemma_counts_sum_le(data: Seq<i64>, edges: Seq<i64>)
    ensures
        int_sum(counts_spec(data, edges)) <= data.len(),
{
    broadcast use vstd::seq_lib::group_filter_ensures;

    lemma_counts_sum(data, edges);
    data.lemma_filter_len(hits_some_bin(edges));
}

/// Every sample that satisfies a predicate survives its filter.
proof fn lemma_filter_all<A>(s: Seq<A>, p: spec_fn(A) -> bool)
    requires
        forall|i: int| 0 <= i < s.len() ==> #[trigger] p(s[i]),
    ensures
        s.filter(p).len() == s.len(),
    decreases s.len(),
{
    reveal(Seq::filter);
    if s.len() > 0 {
        lemma_filter_all(s.drop_last(), p);
    }
}

/// Between ordered edges, every sample within the overall range lands in
/// some bin.
pub proof fn lemma_in_range_hits(edges: Seq<i64>, v: i64)
    requires
        edges.len() >= 2,
        non_decreasing(edges),
        edges[0] <= v <= edges[edges.len() - 1],
    ensures
        !(first_bin(edges, v) is None),
{
    lemma_first_bin_from_char(edges, v, 0);
    if first_bin(edges, v) is None {
        lemma_some_bin_exists(edges, v, 0);
    }
}

/// Helper for [`lemma_in_range_hits`]: scanning from a bin whose left
/// edge is at or below the sample finds a bin that holds it.
proof fn lemma_some_bin_exists(edges: Seq<i64>, v: i64, k: int)
    requires
        edges.len() >= 2,
        non_decreasing(edges),
        0 <= k < edges.len() - 1,
        edges[k] <= v <= edges[edges.len() - 1],
    ensures
        exists|i: int| k <= i < edges.len() - 1 && #[trigger] in_bin(edges, i, v),
    decreases edges.len() - k,
{
    if k == edges.len() - 2 {
        assert(in_bin(edges, k, v));
    } else if v < edges[k + 1] {
        assert(in_bin(edges, k, v));
    } else {
        lemma_some_bin_exists(edges, v, k + 1);
    }
}

/// With ordered edges and every sample inside the overall range, the bin
/// counts sum to exactly the number of samples: nothing is dropped.
pub proof fn lemma_counts_sum_exact(data: Seq<i64>, edges: Seq<i64>)
    requires
        edges.len() >= 2,
        non_decreasing(edges),
        forall|j: int| 0 <= j < data.len() ==> edges[0] <= #[trigger] data[j] <= edges[edges.len()
            - 1],
    ensures
        int_sum(counts_spec(data, edges)) == data.len(),
{
    lemma_counts_sum(data, edges);
    assert forall|j: int| 0 <= j < data.len() implies #[trigger] hits_some_bin(edges)(data[j]) by {
        lemma_in_range_hits(edges, data[j]);
    }
    lemma_filter_all(data, hits_some_bin(edges));
}

/// The first bin that holds `v`, scanning the bins in order; `None` when
/// `v` lies outside all of them.
pub fn find_bin(edges: &Vec<i64>, v: i64) -> (r: Option<usize>)
    ensures
        match r {
            Some(i) => first_bin(edges@, v) == Some(i as int),
            None => first_bin(edges@, v) is None,
        },
{
    let nb: usize = if edges.len() == 0 {
        0
    } else {
        edges.len() - 1
    };
    let mut i: usize = 0;
    while i < nb
        invariant
            nb == nbins(edges@),
            i <= nb,
            forall|k: int| 0 <= k < i ==> !in_bin(edges@, k, v),
        decreases nb - i,
    {
        let lo = edges[i];
        let hi = edges[i + 1];
        let hit = if i == nb - 1 {
            v >= lo && v <= hi
        } else {
            v >= lo && v < hi
        };
        if hit {
            proof {
                lemma_first_bin_from_some(edges@, v, 0, i as int);
            }
            return Some(i);
        }
        i += 1;
    }
    proof {
        lemma_first_bin_from_char(edges@, v, 0);
    }
    None
}

/// [`first_bin_from`] finds exactly the first matching bin.
proof fn lemma_first_bin_from_some(edges: Seq<i64>, v: i64, k: int, i0: int)
    requires
        0 <= k <= i0 < edges.len() - 1,
        in_bin(edges, i0, v),
        forall|j: int| k <= j < i0 ==> !in_bin(edges, j, v),
    ensures
        first_bin_from(edges, v, k) == Some(i0),
    decreases i0 - k,
{
    if k < i0 {
        lemma_first_bin_from_some(edges, v, k + 1, i0);
    }
}

/// Counts how many samples land in each bin.  Each sample goes to the
/// first bin whose interval holds it, or to none; the result is the one
/// count vector [`counts_spec`] prescribes, so the counts sum to at most
/// the sample count.
pub fn counts_from_edges(data: &Vec<i64>, edges: &Vec<i64>) -> (r: Vec<usize>)
    ensures
        matches_counts(data@, edges@, r@),
        r@.len() == nbins(edges@),
{
    broadcast use vstd::seq_lib::group_filter_ensures;

    let nb: usize = if edges.len() == 0 {
        0
    } else {
        edges.len() - 1
    };
    let mut counts: Vec<usize> = Vec::new();
    let mut z: usize = 0;
    while z < nb
        invariant
            z <= nb,
            counts@.len() == z,
            forall|i: int| 0 <= i < z ==> #[trigger] counts@[i] == 0,
        decreases nb - z,
    {
        counts.push(0);
        z += 1;
    }
    let mut j: usize = 0;
    while j < data.len()
        invariant
            nb == nbins(edges@),
            j <= data@.len(),
            counts@.len() == nb,
            forall|i: int| 0 <= i < nb ==> #[trigger] counts@[i] as int == data@.take(
                j as int,
            ).filter(bin_pred(edges@, i)).len(),
        decreases data@.len() - j,
    {
        let v = data[j];
        proof {
            assert(data@.take(j as int + 1) =~= data@.take(j as int).push(v));
        }
        let hit = find_bin(edges, v);
        match hit {
            Some(i) => {
                proof {
                    lemma_first_bin_from_char(edges@, v, 0);
                    data@.take(j as int).lemma_filter_len(bin_pred(edges@, i as int));
                    assert forall|b: int| 0 <= b < nb implies data@.take(j as int + 1).filter(
                        bin_pred(edges@, b),
                    ).len() == data@.take(j as int).filter(bin_pred(edges@, b)).len() + (
                    if b == i as int {
                        1int
                    } else {
                        0int
                    }) by {
                        data@.take(j as int).lemma_filter_len_push(bin_pred(edges@, b), v);
                    }
                }
                let c = counts[i];
                counts.set(i, c + 1);
            },
            None => {
                proof {
                    assert forall|b: int| 0 <= b < nb implies data@.take(j as int + 1).filter(
                        bin_pred(edges@, b),
                    ).len() == data@.take(j as int).filter(bin_pred(edges@, b)).len() by {
                        data@.take(j as int).lemma_filter_len_push(bin_pred(edges@, b), v);
                    }
                }
            },
        }
        j += 1;
    }
    proof {
        assert(data@.take(data@.len() as int) =~= data@);
    }
    counts
}

} // verus!
