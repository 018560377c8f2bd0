//! Face regions: the bounding box of the largest connected region of
//! skin-toned pixels of a frame.
//!
//! Which pixels are skin-toned is decided per pixel on colour values outside
//! this module; here the resulting mask (row-major, one flag per pixel) is
//! split into 4-connected regions and the largest one is boxed and padded.
use vstd::prelude::*;

use crate::pipeline::connectivity::{
    closed_at, connected, fill_region, in_image, lemma_closed_holds_region, lemma_connected_ends,
    lemma_connected_self, lemma_index_in_bounds, lemma_same_region, reach, region_box, region_size, skin_at,
    skin_px, vis,
};

verus! {

/// A rectangle of the image in pixels: left column, top row, width, height.
#[derive(Debug, Clone, Copy, PartialEq, Eq, Structural)]
pub struct FaceRegion {
    pub x: usize,
    pub y: usize,
    pub w: usize,
    pub h: usize,
}

impl FaceRegion {
    /// Eye area: the top quarter of the face box.
    pub fn eye_rect(&self) -> (r: (usize, usize, usize, usize))
        ensures
            r == (self.x, self.y, self.w, self.h / 4),
    {
        (self.x, self.y, self.w, self.h / 4)
    }

    /// Skin area: the whole face box.
    pub fn skin_rect(&self) -> (r: (usize, usize, usize, usize))
        ensures
            r == (self.x, self.y, self.w, self.h),
    {
        (self.x, self.y, self.w, self.h)
    }
}

/// The number of set flags.
pub open spec fn count_set(s: Seq<bool>) -> nat
    decreases s.len(),
{
    if s.len() == 0 {
        0
    } else {
        count_set(s.drop_last()) + if s.last() { 1nat } else { 0nat }
    }
}


/// The box `[lx, rx] x [ty, by]` widened on each side by a fifth of its
/// extent (rounded down), cut at the image's edges.
pub open spec fn padded_region(lx: int, rx: int, ty: int, by: int, w: int, h: int) -> FaceRegion {
    let pad_x = (rx - lx) / 5;
    let pad_y = (by - ty) / 5;
    let x = if lx >= pad_x { lx - pad_x } else { 0 };
    let y = if ty >= pad_y { ty - pad_y } else { 0 };
    let right = if rx + pad_x < w { rx + pad_x } else { w };
    let bottom = if by + pad_y < h { by + pad_y } else { h };
    FaceRegion { x: x as usize, y: y as usize, w: (right - x) as usize, h: (bottom - y) as usize }
}

/// A face is reported when at least a twentieth of the pixels (rounded down) are skin

proof fn lemma_count_set_push(s: Seq<bool>, b: bool)
    ensures
        count_set(s.push(b)) == count_set(s) + if b { 1nat } else { 0nat },
{
    assert(s.push(b).drop_last() =~= s);
}

proof fn lemma_count_set_bound(s: Seq<bool>)
    ensures
        count_set(s) <= s.len(),
    decreases s.len(),
{
    if s.len() > 0 {
        lemma_count_set_bound(s.drop_last());
    }
}

fn count_skin(mask: &Vec<bool>) -> (n: usize)
    ensures
        n == count_set(mask@),
{
    let mut n: usize = 0;
    let mut i: usize = 0;
    while i < mask.len()
        invariant
            i <= mask.len(),
            n == count_set(mask@.take(i as int)),
            n <= i,
        decreases mask.len() - i,
    {
        proof {
            assert(mask@.take(i as int + 1) =~= mask@.take(i as int).push(mask@[i as int]));
            lemma_count_set_push(mask@.take(i as int), mask@[i as int]);
        }
        if mask[i] {
            n = n + 1;
        }
        i = i + 1;
    }
    assert(mask@.take(mask.len() as int) =~= mask@);
    n
}


/// `(x1, y1)` comes before `(x2, y2)` in row-major order.
pub open spec fn raster_before(x1: int, y1: int, x2: int, y2: int) -> bool {
    y1 < y2 || (y1 == y2 && x1 < x2)
}

/// `(sx, sy)` is the first pixel, in row-major order, of a largest region of
/// skin pixels: no region is larger, and every region that starts earlier is
/// smaller.
pub open spec fn first_largest(mask: Seq<bool>, w: int, h: int, sx: int, sy: int) -> bool {
    &&& skin_px(mask, w, h, sx, sy)
    &&& forall|x: int, y: int|
        skin_px(mask, w, h, x, y) ==> #[trigger] region_size(mask, w, h, x, y) <= region_size(mask, w, h, sx, sy)
    &&& forall|x: int, y: int|
        skin_px(mask, w, h, x, y) && raster_before(x, y, sx, sy) ==> #[trigger] region_size(mask, w, h, x, y)
            < region_size(mask, w, h, sx, sy)
}

/// A face is reported when at least a twentieth of the pixels (rounded down) are
/// skin and a largest skin region spans more than one column and more than one row.
pub open spec fn spec_face_found(mask: Seq<bool>, w: int, h: int) -> bool {
    &&& count_set(mask) >= (w * h) / 20
    &&& exists|sx: int, sy: int, lx: int, rx: int, ty: int, by: int|
        #![trigger first_largest(mask, w, h, sx, sy), region_box(mask, w, h, sx, sy, lx, rx, ty, by)]
        first_largest(mask, w, h, sx, sy) && region_box(mask, w, h, sx, sy, lx, rx, ty, by) && lx < rx && ty < by
}

/// The skin threshold is one pixel in twenty: with fewer skin pixels than a
/// twentieth of the image (rounded down) no face is reported, and with at least
/// one skin pixel in twenty a face is reported exactly when the first largest
/// region spans more than one column and more than one row.
pub proof fn lemma_face_skin_threshold(mask: Seq<bool>, w: int, h: int)
    requires
        w >= 0,
        h >= 0,
    ensures
        20 * (count_set(mask) + 1) <= w * h ==> !spec_face_found(mask, w, h),
        20 * count_set(mask) >= w * h ==> (spec_face_found(mask, w, h) <==> exists|
            sx: int,
            sy: int,
            lx: int,
            rx: int,
            ty: int,
            by: int,
        |
            #![trigger first_largest(mask, w, h, sx, sy), region_box(mask, w, h, sx, sy, lx, rx, ty, by)]
            first_largest(mask, w, h, sx, sy) && region_box(mask, w, h, sx, sy, lx, rx, ty, by) && lx < rx && ty
                < by),
{
    let c = count_set(mask) as int;
    assert(w * h >= 0) by (nonlinear_arith)
        requires
            w >= 0,
            h >= 0,
    ;
    let n = w * h;
    if 20 * (c + 1) <= n {
        assert(c < n / 20);
    }
    if 20 * c >= n {
        assert(c >= n / 20);
    }
}

/// The padded box contains the region's box, lies inside the image, and widens
/// the box on each side by a fifth of its extent (rounded down) where the image
/// leaves room, and up to the image's edge where it does not.
pub proof fn lemma_padding(lx: int, rx: int, ty: int, by: int, w: int, h: int)
    requires
        0 <= lx < rx < w <= usize::MAX,
        0 <= ty < by < h <= usize::MAX,
    ensures
        ({
            let r = padded_region(lx, rx, ty, by, w, h);
            &&& r.x <= lx && rx <= r.x + r.w <= w
            &&& r.y <= ty && by <= r.y + r.h <= h
            &&& lx - r.x == if lx >= (rx - lx) / 5 { (rx - lx) / 5 } else { lx }
            &&& r.x + r.w - rx == if rx + (rx - lx) / 5 < w { (rx - lx) / 5 } else { w - rx }
            &&& ty - r.y == if ty >= (by - ty) / 5 { (by - ty) / 5 } else { ty }
            &&& r.y + r.h - by == if by + (by - ty) / 5 < h { (by - ty) / 5 } else { h - by }
        }),
{
}

/// There is only one first largest region.
proof fn lemma_first_largest_unique(mask: Seq<bool>, w: int, h: int, ax: int, ay: int, bx: int, by: int)
    requires
        first_largest(mask, w, h, ax, ay),
        first_largest(mask, w, h, bx, by),
    ensures
        ax == bx && ay == by,
{
    assert(region_size(mask, w, h, ax, ay) <= region_size(mask, w, h, bx, by));
    assert(region_size(mask, w, h, bx, by) <= region_size(mask, w, h, ax, ay));
}

/// A region has only one bounding box.
proof fn lemma_region_box_unique(
    mask: Seq<bool>,
    w: int,
    h: int,
    sx: int,
    sy: int,
    a: (int, int, int, int),
    b: (int, int, int, int),
)
    requires
        region_box(mask, w, h, sx, sy, a.0, a.1, a.2, a.3),
        region_box(mask, w, h, sx, sy, b.0, b.1, b.2, b.3),
    ensures
        a == b,
{
    let ya = choose|y: int| #[trigger] connected(mask, w, h, sx, sy, a.0, y);
    let yb = choose|y: int| #[trigger] connected(mask, w, h, sx, sy, b.0, y);
    let ya1 = choose|y: int| #[trigger] connected(mask, w, h, sx, sy, a.1, y);
    let yb1 = choose|y: int| #[trigger] connected(mask, w, h, sx, sy, b.1, y);
    let xa2 = choose|x: int| #[trigger] connected(mask, w, h, sx, sy, x, a.2);
    let xb2 = choose|x: int| #[trigger] connected(mask, w, h, sx, sy, x, b.2);
    let xa3 = choose|x: int| #[trigger] connected(mask, w, h, sx, sy, x, a.3);
    let xb3 = choose|x: int| #[trigger] connected(mask, w, h, sx, sy, x, b.3);
}

/// The state of the row-major scan at `(cx, cy)`: the marked pixels are the
/// regions met so far, and `best` is the size and box of the first largest of
/// them, which starts at `(bx, by)`.
spec fn scan_inv(
    mask: Seq<bool>,
    w: int,
    h: int,
    v: Seq<bool>,
    best: Option<(usize, (usize, usize, usize, usize))>,
    bx: int,
    by: int,
    cx: int,
    cy: int,
) -> bool {
    &&& mask.len() == w * h
    &&& v.len() == w * h
    &&& forall|x: int, y: int| #[trigger] vis(v, w, h, x, y) ==> skin_px(mask, w, h, x, y) && closed_at(mask, v, w, h, x, y)
    &&& forall|x: int, y: int| skin_px(mask, w, h, x, y) && raster_before(x, y, cx, cy) ==> #[trigger] vis(v, w, h, x, y)
    &&& best is None ==> forall|x: int, y: int| !#[trigger] vis(v, w, h, x, y)
    &&& best is Some ==> {
        let (bs, bb) = best->0;
        &&& skin_px(mask, w, h, bx, by)
        &&& raster_before(bx, by, cx, cy)
        &&& bs == region_size(mask, w, h, bx, by)
        &&& region_box(mask, w, h, bx, by, bb.0 as int, bb.1 as int, bb.2 as int, bb.3 as int)
        &&& forall|x: int, y: int| #[trigger] vis(v, w, h, x, y) ==> region_size(mask, w, h, x, y) <= bs
        &&& forall|x: int, y: int|
            #[trigger] vis(v, w, h, x, y) && raster_before(x, y, bx, by) ==> region_size(mask, w, h, x, y) < bs
    }
}

/// Collects the region starting at the scan position `(px, py)`, which is an
/// unmarked skin pixel, and keeps the best region.
fn scan_step(
    mask: &Vec<bool>,
    w: usize,
    h: usize,
    visited: &mut Vec<bool>,
    best: &mut Option<(usize, (usize, usize, usize, usize))>,
    px: usize,
    py: usize,
    Ghost(bx): Ghost<int>,
    Ghost(by): Ghost<int>,
) -> (new_seed: Ghost<(int, int)>)
    requires
        scan_inv(mask@, w as int, h as int, old(visited)@, *old(best), bx, by, px as int, py as int),
        skin_px(mask@, w as int, h as int, px as int, py as int),
        !vis(old(visited)@, w as int, h as int, px as int, py as int),
    ensures
        scan_inv(mask@, w as int, h as int, final(visited)@, *final(best), new_seed@.0, new_seed@.1, px as int + 1, py as int),
{
    let ghost wi = w as int;
    let ghost hi = h as int;
    let ghost pxi = px as int;
    let ghost pyi = py as int;
    let ghost v0 = visited@;
    let ghost best0 = *best;
    let (size, bb) = fill_region(mask, w, h, visited, px, py);
    let ghost v1 = visited@;
    proof {
        lemma_connected_self(mask@, wi, hi, pxi, pyi);
        assert forall|x: int, y: int| connected(mask@, wi, hi, pxi, pyi, x, y) implies !#[trigger] vis(v0, wi, hi, x, y)
            && !raster_before(x, y, pxi, pyi) && region_size(mask@, wi, hi, x, y) == size by {
            lemma_same_region(mask@, wi, hi, pxi, pyi, x, y);
            lemma_connected_ends(mask@, wi, hi, pxi, pyi, x, y);
            if vis(v0, wi, hi, x, y) {
                let m = choose|m: nat| reach(mask@, wi, hi, x, y, pxi, pyi, m);
                lemma_closed_holds_region(mask@, v0, wi, hi, x, y, pxi, pyi, m);
            }
        }
    }
    let better = match *best {
        None => true,
        Some((bs, _)) => size > bs,
    };
    if better {
        *best = Some((size, bb));
        proof {
            assert forall|x: int, y: int| #[trigger] vis(v1, wi, hi, x, y) implies region_size(mask@, wi, hi, x, y) <= size
                && (raster_before(x, y, pxi, pyi) ==> region_size(mask@, wi, hi, x, y) < size) by {
                if !connected(mask@, wi, hi, pxi, pyi, x, y) {
                    assert(vis(v0, wi, hi, x, y));
                }
            }
        }
        Ghost((px as int, py as int))
    } else {
        proof {
            assert forall|x: int, y: int| #[trigger] vis(v1, wi, hi, x, y) implies region_size(mask@, wi, hi, x, y)
                <= (best0->0).0 && (raster_before(x, y, bx, by) ==> region_size(mask@, wi, hi, x, y) < (best0->0).0) by {
                if !connected(mask@, wi, hi, pxi, pyi, x, y) {
                    assert(vis(v0, wi, hi, x, y));
                }
            }
        }
        Ghost((bx, by))
    }
}

/// Finds the padded bounding box of the largest 4-connected region of skin
/// pixels of a `w` by `h` row-major mask (the first such region in row-major
/// order), provided at least a twentieth of the pixels are skin and the region
/// spans more than one column and row.
pub fn face_region_from_skin_mask(mask: &Vec<bool>, w: usize, h: usize) -> (found: Option<FaceRegion>)
    requires
        mask@.len() == w * h,
    ensures
        found is Some <==> spec_face_found(mask@, w as int, h as int),
        found is Some ==> found->0.x + found->0.w <= w && found->0.y + found->0.h <= h,
        found is Some ==> found->0.w >= 1 && found->0.h >= 1,
        found is Some ==> exists|sx: int, sy: int, lx: int, rx: int, ty: int, by: int|
            #![trigger first_largest(mask@, w as int, h as int, sx, sy), region_box(mask@, w as int, h as int, sx, sy, lx, rx, ty, by)]
            first_largest(mask@, w as int, h as int, sx, sy) && region_box(mask@, w as int, h as int, sx, sy, lx, rx, ty, by)
                && found->0 == padded_region(lx, rx, ty, by, w as int, h as int),
{
    let ghost wi = w as int;
    let ghost hi = h as int;
    let total: usize = mask.len();
    let skin_count = count_skin(mask);
    if skin_count < total / 20 {
        return None;
    }
    let mut visited: Vec<bool> = Vec::new();
    let mut k: usize = 0;
    while k < total
        invariant
            k <= total,
            visited@.len() == k,
            forall|j: int| 0 <= j < k ==> !#[trigger] visited@[j],
        decreases total - k,
    {
        visited.push(false);
        k = k + 1;
    }
    let mut best: Option<(usize, (usize, usize, usize, usize))> = None;
    let ghost mut bx: int = 0;
    let ghost mut by: int = 0;
    proof {
        assert forall|x: int, y: int| !#[trigger] vis(visited@, wi, hi, x, y) by {
            if in_image(wi, hi, x, y) {
                lemma_index_in_bounds(wi, hi, x, y);
            }
        }
    }
    let mut py: usize = 0;
    while py < h
        invariant
            py <= h,
            wi == w,
            hi == h,
            mask@.len() == w * h,
            scan_inv(mask@, wi, hi, visited@, best, bx, by, 0, py as int),
        decreases h - py,
    {
        let mut px: usize = 0;
        while px < w
            invariant
                py < h,
                px <= w,
                wi == w,
                hi == h,
                mask@.len() == w * h,
                scan_inv(mask@, wi, hi, visited@, best, bx, by, px as int, py as int),
            decreases w - px,
        {
            proof {
                lemma_index_in_bounds(wi, hi, px as int, py as int);
                assert(mask.len() == wi * hi);
                assert(0 <= py * w <= py * w + px);
            }
            let idx = py * w + px;
            if mask[idx] && !visited[idx] {
                let seed = scan_step(mask, w, h, &mut visited, &mut best, px, py, Ghost(bx), Ghost(by));
                proof {
                    bx = seed@.0;
                    by = seed@.1;
                }
            } else {
                proof {
                    assert(scan_inv(mask@, wi, hi, visited@, best, bx, by, px as int + 1, py as int)) by {
                        assert forall|x: int, y: int| skin_px(mask@, wi, hi, x, y) && raster_before(x, y, px as int + 1, py as int)
                            implies #[trigger] vis(visited@, wi, hi, x, y) by {
                            if !raster_before(x, y, px as int, py as int) {
                                assert(x == px && y == py);
                            }
                        }
                    }
                }
            }
            px = px + 1;
        }
        proof {
            assert(scan_inv(mask@, wi, hi, visited@, best, bx, by, 0, py as int + 1)) by {
                assert forall|x: int, y: int| skin_px(mask@, wi, hi, x, y) && raster_before(x, y, 0, py as int + 1)
                    implies #[trigger] vis(visited@, wi, hi, x, y) by {
                    assert(raster_before(x, y, w as int, py as int));
                }
            }
        }
        py = py + 1;
    }
    proof {
        assert forall|x: int, y: int| skin_px(mask@, wi, hi, x, y) implies #[trigger] vis(visited@, wi, hi, x, y) by {
            assert(raster_before(x, y, 0, hi));
        }
    }
    let (bs, bb) = match best {
        None => {
            proof {
                assert forall|sx: int, sy: int| !first_largest(mask@, wi, hi, sx, sy) by {
                    if skin_px(mask@, wi, hi, sx, sy) {
                        assert(vis(visited@, wi, hi, sx, sy));
                    }
                }
            }
            return None;
        },
        Some(v) => v,
    };
    proof {
        assert(first_largest(mask@, wi, hi, bx, by)) by {
            assert forall|x: int, y: int| skin_px(mask@, wi, hi, x, y) implies #[trigger] region_size(mask@, wi, hi, x, y)
                <= region_size(mask@, wi, hi, bx, by) && (raster_before(x, y, bx, by) ==> region_size(mask@, wi, hi, x, y)
                < region_size(mask@, wi, hi, bx, by)) by {
                assert(vis(visited@, wi, hi, x, y));
            }
        }
        let y0 = choose|y: int| #[trigger] connected(mask@, wi, hi, bx, by, bb.0 as int, y);
        lemma_connected_ends(mask@, wi, hi, bx, by, bb.0 as int, y0);
        let y1 = choose|y: int| #[trigger] connected(mask@, wi, hi, bx, by, bb.1 as int, y);
        lemma_connected_ends(mask@, wi, hi, bx, by, bb.1 as int, y1);
        let x2 = choose|x: int| #[trigger] connected(mask@, wi, hi, bx, by, x, bb.2 as int);
        lemma_connected_ends(mask@, wi, hi, bx, by, x2, bb.2 as int);
        let x3 = choose|x: int| #[trigger] connected(mask@, wi, hi, bx, by, x, bb.3 as int);
        lemma_connected_ends(mask@, wi, hi, bx, by, x3, bb.3 as int);
    }
    let (min_x, max_x, min_y, max_y) = bb;
    if max_x <= min_x || max_y <= min_y {
        proof {
            assert forall|sx: int, sy: int, lx: int, rx: int, ty: int, by2: int|
                first_largest(mask@, wi, hi, sx, sy) && region_box(mask@, wi, hi, sx, sy, lx, rx, ty, by2) implies !(lx < rx
                && ty < by2) by {
                lemma_first_largest_unique(mask@, wi, hi, sx, sy, bx, by);
                lemma_region_box_unique(
                    mask@,
                    wi,
                    hi,
                    bx,
                    by,
                    (lx, rx, ty, by2),
                    (min_x as int, max_x as int, min_y as int, max_y as int),
                );
            }
        }
        return None;
    }
    let pad_x = (max_x - min_x) / 5;
    let pad_y = (max_y - min_y) / 5;
    let x = if min_x >= pad_x { min_x - pad_x } else { 0 };
    let y = if min_y >= pad_y { min_y - pad_y } else { 0 };
    let right = if pad_x < w - max_x { max_x + pad_x } else { w };
    let bottom = if pad_y < h - max_y { max_y + pad_y } else { h };
    let region = FaceRegion { x, y, w: right - x, h: bottom - y };
    proof {
        assert(region == padded_region(min_x as int, max_x as int, min_y as int, max_y as int, wi, hi));
        assert(first_largest(mask@, wi, hi, bx, by) && region_box(
            mask@,
            wi,
            hi,
            bx,
            by,
            min_x as int,
            max_x as int,
            min_y as int,
            max_y as int,
        ));
    }
    Some(region)
}

} // verus!
