//! The level sizes of the image pyramids used by exposure fusion.
use vstd::prelude::*;

verus! {

/// The sizes of the levels of a pyramid of at most `levels` levels over a
/// `w` by `h` image: the image itself, then each level half the one before
/// (rounded down), as long as the level before is wider and taller than 4.
pub open spec fn spec_pyramid_sizes(w: u32, h: u32, levels: nat) -> Seq<(u32, u32)>
    decreases levels,
{
    if levels <= 1 {
        seq![(w, h)]
    } else {
        let prev = spec_pyramid_sizes(w, h, (levels - 1) as nat);
        let (pw, ph) = prev.last();
        if pw <= 4 || ph <= 4 {
            prev
        } else {
            prev.push((pw / 2, ph / 2))
        }
    }
}

proof fn lemma_pyramid_nonempty(w: u32, h: u32, levels: nat)
    ensures
        spec_pyramid_sizes(w, h, levels).len() >= 1,
        spec_pyramid_sizes(w, h, levels)[0] == (w, h),
    decreases levels,
{
    if levels > 1 {
        lemma_pyramid_nonempty(w, h, (levels - 1) as nat);
    }
}

/// The level sizes of the pyramid.
pub fn pyramid_sizes(w: u32, h: u32, levels: usize) -> (sizes: Vec<(u32, u32)>)
    ensures
        sizes@ == spec_pyramid_sizes(w, h, levels as nat),
{
    let mut sizes: Vec<(u32, u32)> = Vec::new();
    sizes.push((w, h));
    let mut k: usize = 1;
    assert(sizes@ =~= spec_pyramid_sizes(w, h, 1));
    while k < levels
        invariant
            1 <= k <= levels || (k == 1 && levels <= 1),
            sizes@ == spec_pyramid_sizes(w, h, k as nat),
        decreases levels - k,
    {
        proof {
            lemma_pyramid_nonempty(w, h, k as nat);
        }
        let (pw, ph) = sizes[sizes.len() - 1];
        if !(pw <= 4 || ph <= 4) {
            sizes.push((pw / 2, ph / 2));
        }
        k = k + 1;
    }
    proof {
        if levels <= 1 {
            assert(spec_pyramid_sizes(w, h, levels as nat) == spec_pyramid_sizes(w, h, 1));
        }
    }
    sizes
}

} // verus!
