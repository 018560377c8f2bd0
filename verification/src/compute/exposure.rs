//! The counting part of histogram equalisation: the 256-bin luma histogram,
//! its cumulative sums and the first non-empty cumulative count.
//!
//! Which bin a pixel falls in is computed from its luma outside this module.
use vstd::prelude::*;

verus! {

/// The bin a bin index lands in: indices past the last bin go to bin 255.
pub open spec fn clamp_bin(v: usize) -> int {
    if v > 255 {
        255
    } else {
        v as int
    }
}

/// The number of entries of `bins` that land in bin `b`.
pub open spec fn count_in_bin(bins: Seq<usize>, b: int) -> nat
    decreases bins.len(),
{
    if bins.len() == 0 {
        0
    } else {
        count_in_bin(bins.drop_last(), b) + if clamp_bin(bins.last()) == b { 1nat } else { 0nat }
    }
}

/// The sum of the first `k` counts.
pub open spec fn sum_first(h: Seq<u32>, k: int) -> int
    decreases k,
{
    if k <= 0 {
        0
    } else {
        sum_first(h, k - 1) + h[k - 1]
    }
}

/// The sum of the counts of bins below `k`.
pub open spec fn binned_below(bins: Seq<usize>, k: int) -> int
    decreases k,
{
    if k <= 0 {
        0
    } else {
        binned_below(bins, k - 1) + count_in_bin(bins, k - 1)
    }
}

proof fn lemma_count_in_bin_push(bins: Seq<usize>, v: usize, b: int)
    ensures
        count_in_bin(bins.push(v), b) == count_in_bin(bins, b) + if clamp_bin(v) == b { 1nat } else { 0nat },
{
    assert(bins.push(v).drop_last() =~= bins);
}

proof fn lemma_count_in_bin_bound(bins: Seq<usize>, b: int)
    ensures
        count_in_bin(bins, b) <= bins.len(),
    decreases bins.len(),
{
    if bins.len() > 0 {
        lemma_count_in_bin_bound(bins.drop_last(), b);
    }
}

proof fn lemma_binned_below_push(bins: Seq<usize>, v: usize, k: int)
    requires
        0 <= k,
    ensures
        binned_below(bins.push(v), k) == binned_below(bins, k) + if clamp_bin(v) < k { 1int } else { 0int },
    decreases k,
{
    if k > 0 {
        lemma_binned_below_push(bins, v, k - 1);
        lemma_count_in_bin_push(bins, v, k - 1);
    }
}

proof fn lemma_binned_below_empty(bins: Seq<usize>, k: int)
    requires
        bins.len() == 0,
        0 <= k,
    ensures
        binned_below(bins, k) == 0,
    decreases k,
{
    if k > 0 {
        lemma_binned_below_empty(bins, k - 1);
    }
}

/// Every entry lands in exactly one of the 256 bins: the counts add up to the
/// number of entries.
pub proof fn lemma_histogram_total(bins: Seq<usize>)
    ensures
        binned_below(bins, 256) == bins.len(),
    decreases bins.len(),
{
    if bins.len() == 0 {
        lemma_binned_below_empty(bins, 256);
    } else {
        lemma_histogram_total(bins.drop_last());
        lemma_binned_below_push(bins.drop_last(), bins.last(), 256);
        assert(bins.drop_last().push(bins.last()) =~= bins);
    }
}

proof fn lemma_sum_is_binned(bins: Seq<usize>, hist: Seq<u32>, k: int)
    requires
        0 <= k <= 256,
        hist.len() == 256,
        forall|b: int| 0 <= b < 256 ==> hist[b] == count_in_bin(bins, b),
    ensures
        sum_first(hist, k) == binned_below(bins, k),
    decreases k,
{
    if k > 0 {
        lemma_sum_is_binned(bins, hist, k - 1);
    }
}

/// A histogram counts every pixel once: its counts add up to the number of
/// pixels, so the last cumulative count is the pixel count.
pub proof fn lemma_histogram_counts_every_pixel(bins: Seq<usize>, hist: Seq<u32>)
    requires
        hist.len() == 256,
        forall|b: int| 0 <= b < 256 ==> hist[b] == count_in_bin(bins, b),
    ensures
        sum_first(hist, 256) == bins.len(),
{
    lemma_sum_is_binned(bins, hist, 256);
    lemma_histogram_total(bins);
}

/// Cumulative counts never decrease from one bin to the next.
pub proof fn lemma_cumulative_nondecreasing(hist: Seq<u32>, i: int, j: int)
    requires
        0 <= i <= j < hist.len(),
    ensures
        sum_first(hist, i + 1) <= sum_first(hist, j + 1),
{
    lemma_sum_first_monotone(hist, i + 1, j + 1);
}

/// The 256-bin histogram of the bin indices.
pub fn luma_histogram(bins: &[usize]) -> (hist: Vec<u32>)
    requires
        bins@.len() <= u32::MAX,
    ensures
        hist@.len() == 256,
        forall|b: int| 0 <= b < 256 ==> hist@[b] == count_in_bin(bins@, b),
{
    let mut hist: Vec<u32> = vec![0u32; 256];
    let mut i: usize = 0;
    while i < bins.len()
        invariant
            i <= bins@.len(),
            bins@.len() <= u32::MAX,
            hist@.len() == 256,
            forall|b: int| 0 <= b < 256 ==> hist@[b] == count_in_bin(bins@.take(i as int), b),
        decreases bins@.len() - i,
    {
        let b: usize = if bins[i] > 255 { 255 } else { bins[i] };
        proof {
            assert(bins@.take(i + 1) =~= bins@.take(i as int).push(bins@[i as int]));
            assert forall|c: int| 0 <= c < 256 implies count_in_bin(bins@.take(i + 1), c) == count_in_bin(
                bins@.take(i as int),
                c,
            ) + if clamp_bin(bins@[i as int]) == c { 1nat } else { 0nat } by {
                lemma_count_in_bin_push(bins@.take(i as int), bins@[i as int], c);
            }
            lemma_count_in_bin_bound(bins@.take(i as int), b as int);
        }
        let n = hist[b];
        hist.set(b, n + 1);
        i = i + 1;
    }
    assert(bins@.take(bins@.len() as int) =~= bins@);
    hist
}

/// The cumulative counts: entry `i` is the sum of counts `0..=i`.
pub fn cumulative_histogram(hist: &[u32]) -> (cdf: Vec<u32>)
    requires
        hist@.len() >= 1,
        sum_first(hist@, hist@.len() as int) <= u32::MAX,
    ensures
        cdf@.len() == hist@.len(),
        forall|i: int| 0 <= i < hist@.len() ==> cdf@[i] == sum_first(hist@, i + 1),
{
    let mut cdf: Vec<u32> = Vec::new();
    let mut acc: u32 = 0;
    let mut i: usize = 0;
    while i < hist.len()
        invariant
            i <= hist@.len(),
            cdf@.len() == i,
            acc == sum_first(hist@, i as int),
            sum_first(hist@, hist@.len() as int) <= u32::MAX,
            forall|k: int| 0 <= k < i ==> cdf@[k] == sum_first(hist@, k + 1),
        decreases hist@.len() - i,
    {
        proof {
            lemma_sum_first_monotone(hist@, i + 1, hist@.len() as int);
        }
        acc = acc + hist[i];
        cdf.push(acc);
        i = i + 1;
    }
    cdf
}

/// Sums of more counts are no smaller.
proof fn lemma_sum_first_monotone(h: Seq<u32>, a: int, b: int)
    requires
        0 <= a <= b <= h.len(),
    ensures
        sum_first(h, a) <= sum_first(h, b),
    decreases b - a,
{
    if a < b {
        lemma_sum_first_monotone(h, a, b - 1);
    }
}

/// The first positive cumulative count, or 1 when there is none.
pub open spec fn spec_first_positive(cdf: Seq<u32>) -> u32
    decreases cdf.len(),
{
    if cdf.len() == 0 {
        1
    } else if cdf[0] > 0 {
        cdf[0]
    } else {
        spec_first_positive(cdf.drop_first())
    }
}

/// The first positive entry, or 1 when every entry is zero.
pub fn first_positive(cdf: &[u32]) -> (v: u32)
    ensures
        v == spec_first_positive(cdf@),
{
    let mut i: usize = 0;
    assert(cdf@.skip(0) =~= cdf@);
    while i < cdf.len()
        invariant
            i <= cdf@.len(),
            spec_first_positive(cdf@) == spec_first_positive(cdf@.skip(i as int)),
        decreases cdf@.len() - i,
    {
        assert(cdf@.skip(i as int)[0] == cdf@[i as int]);
        assert(cdf@.skip(i as int).drop_first() =~= cdf@.skip(i + 1));
        if cdf[i] > 0 {
            return cdf[i];
        }
        i = i + 1;
    }
    assert(cdf@.skip(i as int) =~= Seq::<u32>::empty());
    1
}

} // verus!
