//! Connected regions of a row-major mask (4-neighbour connectivity) and their
//! sizes, with a flood fill that collects one region.
use vstd::prelude::*;

verus! {

/// Whether `(x, y)` lies in a `w` by `h` image.
pub open spec fn in_image(w: int, h: int, x: int, y: int) -> bool {
    0 <= x < w && 0 <= y < h
}

/// Whether the pixel at column `x`, row `y` of a row-major mask of width `w` is set.
pub open spec fn skin_at(mask: Seq<bool>, w: int, x: int, y: int) -> bool {
    mask[y * w + x]
}

/// A set pixel of the mask, inside the image.
pub open spec fn skin_px(mask: Seq<bool>, w: int, h: int, x: int, y: int) -> bool {
    in_image(w, h, x, y) && skin_at(mask, w, x, y)
}

/// `(x, y)` is reached from `(sx, sy)` by a path of at most `n` steps between
/// set pixels that are horizontal or vertical neighbours.
pub open spec fn reach(mask: Seq<bool>, w: int, h: int, sx: int, sy: int, x: int, y: int, n: nat) -> bool
    decreases n,
{
    if n == 0 {
        x == sx && y == sy && skin_px(mask, w, h, x, y)
    } else {
        ||| reach(mask, w, h, sx, sy, x, y, (n - 1) as nat)
        ||| skin_px(mask, w, h, x, y) && {
            ||| reach(mask, w, h, sx, sy, x - 1, y, (n - 1) as nat)
            ||| reach(mask, w, h, sx, sy, x + 1, y, (n - 1) as nat)
            ||| reach(mask, w, h, sx, sy, x, y - 1, (n - 1) as nat)
            ||| reach(mask, w, h, sx, sy, x, y + 1, (n - 1) as nat)
        }
    }
}

/// `(x, y)` lies in the connected region of set pixels that holds `(sx, sy)`.
pub open spec fn connected(mask: Seq<bool>, w: int, h: int, sx: int, sy: int, x: int, y: int) -> bool {
    exists|n: nat| #[trigger] reach(mask, w, h, sx, sy, x, y, n)
}

/// The number of columns `x < k` of row `y` where `f` holds.
pub open spec fn count_row(f: spec_fn(int, int) -> bool, y: int, k: int) -> nat
    decreases k,
{
    if k <= 0 {
        0
    } else {
        count_row(f, y, k - 1) + if f(k - 1, y) { 1nat } else { 0nat }
    }
}

/// The number of pixels of the first `k` rows (of width `w`) where `f` holds.
pub open spec fn count_rows(f: spec_fn(int, int) -> bool, w: int, k: int) -> nat
    decreases k,
{
    if k <= 0 {
        0
    } else {
        count_rows(f, w, k - 1) + count_row(f, k - 1, w)
    }
}

/// The number of pixels of the region that holds `(sx, sy)`.
pub open spec fn region_size(mask: Seq<bool>, w: int, h: int, sx: int, sy: int) -> nat {
    count_rows(|x: int, y: int| connected(mask, w, h, sx, sy, x, y), w, h)
}

// ---- counting ----

proof fn lemma_count_row_ext(f: spec_fn(int, int) -> bool, g: spec_fn(int, int) -> bool, y: int, k: int)
    requires
        forall|x: int| 0 <= x < k ==> #[trigger] f(x, y) == g(x, y),
    ensures
        count_row(f, y, k) == count_row(g, y, k),
    decreases k,
{
    if k > 0 {
        lemma_count_row_ext(f, g, y, k - 1);
    }
}

/// Two predicates that agree on a `w` by `h` image count the same pixels.
pub proof fn lemma_count_ext(f: spec_fn(int, int) -> bool, g: spec_fn(int, int) -> bool, w: int, h: int)
    requires
        forall|x: int, y: int| in_image(w, h, x, y) ==> #[trigger] f(x, y) == g(x, y),
    ensures
        count_rows(f, w, h) == count_rows(g, w, h),
    decreases h,
{
    if h > 0 {
        lemma_count_ext(f, g, w, h - 1);
        lemma_count_row_ext(f, g, h - 1, w);
    }
}

proof fn lemma_count_row_point(f: spec_fn(int, int) -> bool, g: spec_fn(int, int) -> bool, y: int, k: int, x0: int)
    requires
        forall|x: int| 0 <= x < k && x != x0 ==> #[trigger] f(x, y) == g(x, y),
        !f(x0, y),
        g(x0, y),
    ensures
        count_row(g, y, k) == count_row(f, y, k) + if 0 <= x0 < k { 1nat } else { 0nat },
    decreases k,
{
    if k > 0 {
        lemma_count_row_point(f, g, y, k - 1, x0);
    }
}

proof fn lemma_count_rows_point(
    f: spec_fn(int, int) -> bool,
    g: spec_fn(int, int) -> bool,
    w: int,
    k: int,
    x0: int,
    y0: int,
)
    requires
        0 <= x0 < w,
        forall|x: int, y: int| 0 <= x < w && 0 <= y < k && (x != x0 || y != y0) ==> #[trigger] f(x, y) == g(x, y),
        !f(x0, y0),
        g(x0, y0),
    ensures
        count_rows(g, w, k) == count_rows(f, w, k) + if 0 <= y0 < k { 1nat } else { 0nat },
    decreases k,
{
    if k > 0 {
        lemma_count_rows_point(f, g, w, k - 1, x0, y0);
        if k - 1 == y0 {
            lemma_count_row_point(f, g, y0, w, x0);
        } else {
            lemma_count_row_ext(f, g, k - 1, w);
        }
    }
}

/// Adding one pixel of the image to a predicate adds one to its count.
pub proof fn lemma_count_point(f: spec_fn(int, int) -> bool, g: spec_fn(int, int) -> bool, w: int, h: int, x0: int, y0: int)
    requires
        in_image(w, h, x0, y0),
        forall|x: int, y: int| in_image(w, h, x, y) && (x != x0 || y != y0) ==> #[trigger] f(x, y) == g(x, y),
        !f(x0, y0),
        g(x0, y0),
    ensures
        count_rows(g, w, h) == count_rows(f, w, h) + 1,
{
    lemma_count_rows_point(f, g, w, h, x0, y0);
}

proof fn lemma_count_row_bound(f: spec_fn(int, int) -> bool, y: int, k: int)
    requires
        k >= 0,
    ensures
        count_row(f, y, k) <= k,
    decreases k,
{
    if k > 0 {
        lemma_count_row_bound(f, y, k - 1);
    }
}

/// A count over a `w` by `h` image is at most `w * h`.
pub proof fn lemma_count_bound(f: spec_fn(int, int) -> bool, w: int, h: int)
    requires
        w >= 0,
        h >= 0,
    ensures
        count_rows(f, w, h) <= w * h,
    decreases h,
{
    if h > 0 {
        lemma_count_bound(f, w, h - 1);
        lemma_count_row_bound(f, h - 1, w);
        assert(w * (h - 1) + w == w * h) by (nonlinear_arith);
    }
}

// ---- paths ----

proof fn lemma_reach_ends(mask: Seq<bool>, w: int, h: int, sx: int, sy: int, x: int, y: int, n: nat)
    requires
        reach(mask, w, h, sx, sy, x, y, n),
    ensures
        skin_px(mask, w, h, x, y),
        skin_px(mask, w, h, sx, sy),
    decreases n,
{
    if n > 0 {
        let m = (n - 1) as nat;
        if reach(mask, w, h, sx, sy, x, y, m) {
            lemma_reach_ends(mask, w, h, sx, sy, x, y, m);
        } else if reach(mask, w, h, sx, sy, x - 1, y, m) {
            lemma_reach_ends(mask, w, h, sx, sy, x - 1, y, m);
        } else if reach(mask, w, h, sx, sy, x + 1, y, m) {
            lemma_reach_ends(mask, w, h, sx, sy, x + 1, y, m);
        } else if reach(mask, w, h, sx, sy, x, y - 1, m) {
            lemma_reach_ends(mask, w, h, sx, sy, x, y - 1, m);
        } else {
            lemma_reach_ends(mask, w, h, sx, sy, x, y + 1, m);
        }
    }
}

proof fn lemma_reach_mono(mask: Seq<bool>, w: int, h: int, sx: int, sy: int, x: int, y: int, n: nat, m: nat)
    requires
        reach(mask, w, h, sx, sy, x, y, n),
        n <= m,
    ensures
        reach(mask, w, h, sx, sy, x, y, m),
    decreases m - n,
{
    if n < m {
        lemma_reach_mono(mask, w, h, sx, sy, x, y, n, (m - 1) as nat);
    }
}

/// `(x2, y2)` is a horizontal or vertical neighbour of `(x, y)`.
pub open spec fn neighbours(x: int, y: int, x2: int, y2: int) -> bool {
    ||| x2 == x - 1 && y2 == y
    ||| x2 == x + 1 && y2 == y
    ||| x2 == x && y2 == y - 1
    ||| x2 == x && y2 == y + 1
}

proof fn lemma_reach_step(mask: Seq<bool>, w: int, h: int, sx: int, sy: int, x: int, y: int, n: nat, x2: int, y2: int)
    requires
        reach(mask, w, h, sx, sy, x, y, n),
        neighbours(x, y, x2, y2),
        skin_px(mask, w, h, x2, y2),
    ensures
        reach(mask, w, h, sx, sy, x2, y2, n + 1),
{
    assert(reach(mask, w, h, sx, sy, x2, y2, n + 1));
}

proof fn lemma_reach_trans(
    mask: Seq<bool>,
    w: int,
    h: int,
    sx: int,
    sy: int,
    qx: int,
    qy: int,
    x: int,
    y: int,
    n: nat,
    m: nat,
)
    requires
        reach(mask, w, h, sx, sy, qx, qy, n),
        reach(mask, w, h, qx, qy, x, y, m),
    ensures
        reach(mask, w, h, sx, sy, x, y, n + m),
    decreases m,
{
    if m > 0 {
        let k = (m - 1) as nat;
        if reach(mask, w, h, qx, qy, x, y, k) {
            lemma_reach_trans(mask, w, h, sx, sy, qx, qy, x, y, n, k);
            lemma_reach_mono(mask, w, h, sx, sy, x, y, n + k, n + m);
        } else if reach(mask, w, h, qx, qy, x - 1, y, k) {
            lemma_reach_trans(mask, w, h, sx, sy, qx, qy, x - 1, y, n, k);
            lemma_reach_step(mask, w, h, sx, sy, x - 1, y, n + k, x, y);
        } else if reach(mask, w, h, qx, qy, x + 1, y, k) {
            lemma_reach_trans(mask, w, h, sx, sy, qx, qy, x + 1, y, n, k);
            lemma_reach_step(mask, w, h, sx, sy, x + 1, y, n + k, x, y);
        } else if reach(mask, w, h, qx, qy, x, y - 1, k) {
            lemma_reach_trans(mask, w, h, sx, sy, qx, qy, x, y - 1, n, k);
            lemma_reach_step(mask, w, h, sx, sy, x, y - 1, n + k, x, y);
        } else {
            lemma_reach_trans(mask, w, h, sx, sy, qx, qy, x, y + 1, n, k);
            lemma_reach_step(mask, w, h, sx, sy, x, y + 1, n + k, x, y);
        }
    }
}

proof fn lemma_reach_sym(mask: Seq<bool>, w: int, h: int, sx: int, sy: int, x: int, y: int, n: nat)
    requires
        reach(mask, w, h, sx, sy, x, y, n),
    ensures
        reach(mask, w, h, x, y, sx, sy, n),
    decreases n,
{
    if n > 0 {
        let k = (n - 1) as nat;
        if reach(mask, w, h, sx, sy, x, y, k) {
            lemma_reach_sym(mask, w, h, sx, sy, x, y, k);
            lemma_reach_mono(mask, w, h, x, y, sx, sy, k, n);
        } else {
            let (x2, y2) = if reach(mask, w, h, sx, sy, x - 1, y, k) {
                (x - 1, y)
            } else if reach(mask, w, h, sx, sy, x + 1, y, k) {
                (x + 1, y)
            } else if reach(mask, w, h, sx, sy, x, y - 1, k) {
                (x, y - 1)
            } else {
                (x, y + 1)
            };
            lemma_reach_sym(mask, w, h, sx, sy, x2, y2, k);
            lemma_reach_ends(mask, w, h, sx, sy, x2, y2, k);
            assert(reach(mask, w, h, x, y, x, y, 0));
            lemma_reach_step(mask, w, h, x, y, x, y, 0, x2, y2);
            lemma_reach_trans(mask, w, h, x, y, x2, y2, sx, sy, 1, k);
        }
    }
}

/// Both ends of a connection are set pixels of the image.
pub proof fn lemma_connected_ends(mask: Seq<bool>, w: int, h: int, sx: int, sy: int, x: int, y: int)
    requires
        connected(mask, w, h, sx, sy, x, y),
    ensures
        skin_px(mask, w, h, x, y),
        skin_px(mask, w, h, sx, sy),
{
    let n = choose|n: nat| reach(mask, w, h, sx, sy, x, y, n);
    lemma_reach_ends(mask, w, h, sx, sy, x, y, n);
}

/// A set pixel is connected to itself.
pub proof fn lemma_connected_self(mask: Seq<bool>, w: int, h: int, x: int, y: int)
    requires
        skin_px(mask, w, h, x, y),
    ensures
        connected(mask, w, h, x, y, x, y),
{
    assert(reach(mask, w, h, x, y, x, y, 0));
}

/// Pixels of one region span the same region, so they give the same size.
pub proof fn lemma_same_region(mask: Seq<bool>, w: int, h: int, sx: int, sy: int, qx: int, qy: int)
    requires
        connected(mask, w, h, sx, sy, qx, qy),
    ensures
        forall|x: int, y: int|
            #[trigger] connected(mask, w, h, qx, qy, x, y) == connected(mask, w, h, sx, sy, x, y),
        connected(mask, w, h, qx, qy, sx, sy),
        region_size(mask, w, h, qx, qy) == region_size(mask, w, h, sx, sy),
{
    let n = choose|n: nat| reach(mask, w, h, sx, sy, qx, qy, n);
    lemma_reach_sym(mask, w, h, sx, sy, qx, qy, n);
    assert forall|x: int, y: int|
        #[trigger] connected(mask, w, h, qx, qy, x, y) == connected(mask, w, h, sx, sy, x, y) by {
        if connected(mask, w, h, qx, qy, x, y) {
            let m = choose|m: nat| reach(mask, w, h, qx, qy, x, y, m);
            lemma_reach_trans(mask, w, h, sx, sy, qx, qy, x, y, n, m);
        }
        if connected(mask, w, h, sx, sy, x, y) {
            let m = choose|m: nat| reach(mask, w, h, sx, sy, x, y, m);
            lemma_reach_trans(mask, w, h, qx, qy, sx, sy, x, y, n, m);
        }
    }
    assert(reach(mask, w, h, qx, qy, sx, sy, n));
    lemma_count_ext(
        |x: int, y: int| connected(mask, w, h, qx, qy, x, y),
        |x: int, y: int| connected(mask, w, h, sx, sy, x, y),
        w,
        h,
    );
}


// ---- visited sets and flood fill ----

/// The pixel `(x, y)` is inside the image and marked in `v`.
pub open spec fn vis(v: Seq<bool>, w: int, h: int, x: int, y: int) -> bool {
    in_image(w, h, x, y) && v[y * w + x]
}

/// Every set neighbour of `(x, y)` is marked in `v`.
pub open spec fn closed_at(mask: Seq<bool>, v: Seq<bool>, w: int, h: int, x: int, y: int) -> bool {
    &&& skin_px(mask, w, h, x - 1, y) ==> vis(v, w, h, x - 1, y)
    &&& skin_px(mask, w, h, x + 1, y) ==> vis(v, w, h, x + 1, y)
    &&& skin_px(mask, w, h, x, y - 1) ==> vis(v, w, h, x, y - 1)
    &&& skin_px(mask, w, h, x, y + 1) ==> vis(v, w, h, x, y + 1)
}

/// A marked set that is closed under set neighbours holds the whole region of
/// each of its pixels.
pub proof fn lemma_closed_holds_region(
    mask: Seq<bool>,
    v: Seq<bool>,
    w: int,
    h: int,
    sx: int,
    sy: int,
    x: int,
    y: int,
    n: nat,
)
    requires
        forall|a: int, b: int| #[trigger] vis(v, w, h, a, b) ==> closed_at(mask, v, w, h, a, b),
        vis(v, w, h, sx, sy),
        reach(mask, w, h, sx, sy, x, y, n),
    ensures
        vis(v, w, h, x, y),
    decreases n,
{
    if n > 0 {
        let k = (n - 1) as nat;
        if reach(mask, w, h, sx, sy, x, y, k) {
            lemma_closed_holds_region(mask, v, w, h, sx, sy, x, y, k);
        } else if reach(mask, w, h, sx, sy, x - 1, y, k) {
            lemma_closed_holds_region(mask, v, w, h, sx, sy, x - 1, y, k);
        } else if reach(mask, w, h, sx, sy, x + 1, y, k) {
            lemma_closed_holds_region(mask, v, w, h, sx, sy, x + 1, y, k);
        } else if reach(mask, w, h, sx, sy, x, y - 1, k) {
            lemma_closed_holds_region(mask, v, w, h, sx, sy, x, y - 1, k);
        } else {
            lemma_closed_holds_region(mask, v, w, h, sx, sy, x, y + 1, k);
        }
    }
}

/// `[lx, rx] x [ty, by]` is the bounding box of the region that holds `(sx, sy)`.
pub open spec fn region_box(mask: Seq<bool>, w: int, h: int, sx: int, sy: int, lx: int, rx: int, ty: int, by: int) -> bool {
    &&& forall|x: int, y: int| #[trigger] connected(mask, w, h, sx, sy, x, y) ==> lx <= x <= rx && ty <= y <= by
    &&& exists|y: int| #[trigger] connected(mask, w, h, sx, sy, lx, y)
    &&& exists|y: int| #[trigger] connected(mask, w, h, sx, sy, rx, y)
    &&& exists|x: int| #[trigger] connected(mask, w, h, sx, sy, x, ty)
    &&& exists|x: int| #[trigger] connected(mask, w, h, sx, sy, x, by)
}

/// Marked in `v` but not in `before`: collected by the current fill.
pub open spec fn fresh(before: Seq<bool>, v: Seq<bool>, w: int, h: int, x: int, y: int) -> bool {
    vis(v, w, h, x, y) && !vis(before, w, h, x, y)
}

/// `(x, y)` is an entry of the stack.
pub open spec fn on_stack(stack: Seq<(usize, usize)>, x: int, y: int) -> bool {
    exists|k: int| 0 <= k < stack.len() && (#[trigger] stack[k]).0 == x && stack[k].1 == y
}

/// The number of unmarked pixels.
pub open spec fn unvisited(v: Seq<bool>, w: int, h: int) -> nat {
    count_rows(|x: int, y: int| !v[y * w + x], w, h)
}

/// What holds between the steps of a fill from `(sx, sy)`, except that the
/// pixel `(ex, ey)` being expanded may not be closed yet.
pub open spec fn fill_inv(
    mask: Seq<bool>,
    w: int,
    h: int,
    sx: int,
    sy: int,
    before: Seq<bool>,
    v: Seq<bool>,
    stack: Seq<(usize, usize)>,
    size: int,
    b: (usize, usize, usize, usize),
    ex: int,
    ey: int,
) -> bool {
    &&& mask.len() == w * h && v.len() == w * h && before.len() == w * h
    &&& forall|x: int, y: int| #[trigger] vis(v, w, h, x, y) ==> skin_px(mask, w, h, x, y)
    &&& forall|x: int, y: int| #[trigger] vis(before, w, h, x, y) ==> vis(v, w, h, x, y) && closed_at(mask, before, w, h, x, y)
    &&& forall|x: int, y: int| #[trigger] fresh(before, v, w, h, x, y) ==> connected(mask, w, h, sx, sy, x, y)
    &&& forall|x: int, y: int|
        #[trigger] fresh(before, v, w, h, x, y) && !(x == ex && y == ey) ==> closed_at(mask, v, w, h, x, y)
            || on_stack(stack, x, y)
    &&& forall|k: int| 0 <= k < stack.len() ==> fresh(before, v, w, h, (#[trigger] stack[k]).0 as int, stack[k].1 as int)
    &&& size == count_rows(|x: int, y: int| fresh(before, v, w, h, x, y), w, h)
    &&& forall|x: int, y: int| #[trigger] fresh(before, v, w, h, x, y) ==> b.0 <= x <= b.1 && b.2 <= y <= b.3
    &&& exists|y: int| #[trigger] fresh(before, v, w, h, b.0 as int, y)
    &&& exists|y: int| #[trigger] fresh(before, v, w, h, b.1 as int, y)
    &&& exists|x: int| #[trigger] fresh(before, v, w, h, x, b.2 as int)
    &&& exists|x: int| #[trigger] fresh(before, v, w, h, x, b.3 as int)
}

/// Distinct pixels of an image have distinct row-major positions.
pub proof fn lemma_index_unique(w: int, h: int, x1: int, y1: int, x2: int, y2: int)
    requires
        in_image(w, h, x1, y1),
        in_image(w, h, x2, y2),
        y1 * w + x1 == y2 * w + x2,
    ensures
        x1 == x2 && y1 == y2,
{
    if y1 < y2 {
        assert(y1 * w + w <= y2 * w) by (nonlinear_arith)
            requires
                y1 < y2,
                w > 0,
        ;
    } else if y2 < y1 {
        assert(y2 * w + w <= y1 * w) by (nonlinear_arith)
            requires
                y2 < y1,
                w > 0,
        ;
    }
}

/// The row-major position of a pixel lies within the image's samples.
pub proof fn lemma_index_in_bounds(w: int, h: int, x: int, y: int)
    requires
        in_image(w, h, x, y),
    ensures
        0 <= y * w + x < w * h,
{
    assert(0 <= y * w + x < w * h) by (nonlinear_arith)
        requires
            0 <= x < w,
            0 <= y < h,
    ;
}


/// Collects the neighbour `(nx, ny)` of the pixel `(px, py)` being expanded:
/// a set pixel not yet marked is marked, counted, taken into the box and pushed.
fn visit(
    mask: &Vec<bool>,
    w: usize,
    h: usize,
    visited: &mut Vec<bool>,
    stack: &mut Vec<(usize, usize)>,
    size: &mut usize,
    b: &mut (usize, usize, usize, usize),
    sx: usize,
    sy: usize,
    px: usize,
    py: usize,
    nx: usize,
    ny: usize,
    Ghost(before): Ghost<Seq<bool>>,
)
    requires
        fill_inv(mask@, w as int, h as int, sx as int, sy as int, before, old(visited)@, old(stack)@,
            *old(size) as int, *old(b), px as int, py as int),
        fresh(before, old(visited)@, w as int, h as int, px as int, py as int),
        in_image(w as int, h as int, nx as int, ny as int),
        neighbours(px as int, py as int, nx as int, ny as int),
    ensures
        fill_inv(mask@, w as int, h as int, sx as int, sy as int, before, final(visited)@, final(stack)@,
            *final(size) as int, *final(b), px as int, py as int),
        vis(final(visited)@, w as int, h as int, nx as int, ny as int) || !skin_px(mask@, w as int, h as int, nx as int, ny as int),
        forall|x: int, y: int| #[trigger] vis(old(visited)@, w as int, h as int, x, y) ==> vis(final(visited)@, w as int, h as int, x, y),
        2 * unvisited(final(visited)@, w as int, h as int) + final(stack)@.len() <= 2 * unvisited(old(visited)@, w as int, h as int)
            + old(stack)@.len(),
{
    let ghost wi = w as int;
    let ghost hi = h as int;
    proof {
        lemma_index_in_bounds(wi, hi, nx as int, ny as int);
        assert(mask.len() == wi * hi);
        assert(0 <= ny * w <= ny * w + nx);
    }
    let i = ny * w + nx;
    if !mask[i] || visited[i] {
        return;
    }
    let ghost v0 = visited@;
    let ghost s0 = stack@;
    let ghost b0 = *b;
    let ghost n0 = *size as int;
    visited.set(i, true);
    stack.push((nx, ny));
    let ghost v1 = visited@;
    let ghost s1 = stack@;
    proof {
        let nxi = nx as int;
        let nyi = ny as int;
        assert forall|x: int, y: int| #[trigger] vis(v1, wi, hi, x, y) == (vis(v0, wi, hi, x, y) || (x == nxi && y == nyi)) by {
            if in_image(wi, hi, x, y) {
                lemma_index_in_bounds(wi, hi, x, y);
                if !(x == nxi && y == nyi) && y * wi + x == i {
                    lemma_index_unique(wi, hi, x, y, nxi, nyi);
                }
            }
        }
        assert forall|x: int, y: int| #[trigger] fresh(before, v1, wi, hi, x, y) == (fresh(before, v0, wi, hi, x, y) || (x == nxi && y == nyi)) by {
            assert(vis(v1, wi, hi, x, y) == (vis(v0, wi, hi, x, y) || (x == nxi && y == nyi)));
            if x == nxi && y == nyi {
                assert(!vis(v0, wi, hi, x, y));
                assert(!vis(before, wi, hi, x, y));
            }
        }
        lemma_count_point(
            |x: int, y: int| fresh(before, v0, wi, hi, x, y),
            |x: int, y: int| fresh(before, v1, wi, hi, x, y),
            wi,
            hi,
            nxi,
            nyi,
        );
        lemma_count_bound(|x: int, y: int| fresh(before, v1, wi, hi, x, y), wi, hi);
        assert forall|x: int, y: int| in_image(wi, hi, x, y) && (x != nxi || y != nyi) implies
            !(#[trigger] v1[y * wi + x]) == !v0[y * wi + x] by {
            assert(vis(v1, wi, hi, x, y) == vis(v0, wi, hi, x, y));
        }
        lemma_count_point(|x: int, y: int| !v1[y * wi + x], |x: int, y: int| !v0[y * wi + x], wi, hi, nxi, nyi);
        assert(fresh(before, v0, wi, hi, px as int, py as int));
        let n = choose|n: nat| reach(mask@, wi, hi, sx as int, sy as int, px as int, py as int, n);
        lemma_reach_step(mask@, wi, hi, sx as int, sy as int, px as int, py as int, n, nxi, nyi);
        assert(connected(mask@, wi, hi, sx as int, sy as int, nxi, nyi));
        assert forall|x: int, y: int| on_stack(s0, x, y) implies on_stack(s1, x, y) by {
            let k = choose|k: int| 0 <= k < s0.len() && (#[trigger] s0[k]).0 == x && s0[k].1 == y;
            assert(s1[k] == s0[k]);
        }
        assert(s1[s0.len() as int] == (nx, ny));
        assert(on_stack(s1, nxi, nyi));
        assert forall|k: int| 0 <= k < s1.len() implies fresh(before, v1, wi, hi, (#[trigger] s1[k]).0 as int, s1[k].1 as int) by {
            if k < s0.len() {
                assert(s1[k] == s0[k]);
                assert(fresh(before, v0, wi, hi, s0[k].0 as int, s0[k].1 as int));
            }
        }
        let y0 = choose|y: int| #[trigger] fresh(before, v0, wi, hi, b0.0 as int, y);
        assert(fresh(before, v1, wi, hi, b0.0 as int, y0));
        let y1 = choose|y: int| #[trigger] fresh(before, v0, wi, hi, b0.1 as int, y);
        assert(fresh(before, v1, wi, hi, b0.1 as int, y1));
        let x2 = choose|x: int| #[trigger] fresh(before, v0, wi, hi, x, b0.2 as int);
        assert(fresh(before, v1, wi, hi, x2, b0.2 as int));
        let x3 = choose|x: int| #[trigger] fresh(before, v0, wi, hi, x, b0.3 as int);
        assert(fresh(before, v1, wi, hi, x3, b0.3 as int));
        assert(fresh(before, v1, wi, hi, nxi, nyi));
    }
    *size = *size + 1;
    let nb = (
        if nx < b.0 { nx } else { b.0 },
        if nx > b.1 { nx } else { b.1 },
        if ny < b.2 { ny } else { b.2 },
        if ny > b.3 { ny } else { b.3 },
    );
    *b = nb;
    proof {
        let nxi = nx as int;
        let nyi = ny as int;
        assert forall|x: int, y: int|
            #[trigger] fresh(before, v1, wi, hi, x, y) && !(x == px as int && y == py as int) implies closed_at(
                mask@,
                v1,
                wi,
                hi,
                x,
                y,
            ) || on_stack(s1, x, y) by {
            if !(x == nxi && y == nyi) {
                assert(fresh(before, v0, wi, hi, x, y));
                if !on_stack(s0, x, y) {
                    assert(closed_at(mask@, v0, wi, hi, x, y));
                    assert(vis(v1, wi, hi, x - 1, y) == (vis(v0, wi, hi, x - 1, y) || (x - 1 == nxi && y == nyi)));
                    assert(vis(v1, wi, hi, x + 1, y) == (vis(v0, wi, hi, x + 1, y) || (x + 1 == nxi && y == nyi)));
                    assert(vis(v1, wi, hi, x, y - 1) == (vis(v0, wi, hi, x, y - 1) || (x == nxi && y - 1 == nyi)));
                    assert(vis(v1, wi, hi, x, y + 1) == (vis(v0, wi, hi, x, y + 1) || (x == nxi && y + 1 == nyi)));
                }
            }
        }
        assert forall|x: int, y: int| #[trigger] fresh(before, v1, wi, hi, x, y) implies nb.0 <= x <= nb.1 && nb.2 <= y
            <= nb.3 by {
            if !(x == nxi && y == nyi) {
                assert(fresh(before, v0, wi, hi, x, y));
            }
        }
        assert forall|x: int, y: int| #[trigger] vis(before, wi, hi, x, y) implies vis(v1, wi, hi, x, y) && closed_at(
            mask@,
            before,
            wi,
            hi,
            x,
            y,
        ) by {
            assert(vis(v0, wi, hi, x, y));
        }
        assert forall|x: int, y: int| #[trigger] vis(v1, wi, hi, x, y) implies skin_px(mask@, wi, hi, x, y) by {
            if !(x == nxi && y == nyi) {
                assert(vis(v0, wi, hi, x, y));
            }
        }
        assert forall|x: int, y: int| #[trigger] fresh(before, v1, wi, hi, x, y) implies connected(
            mask@,
            wi,
            hi,
            sx as int,
            sy as int,
            x,
            y,
        ) by {
            if !(x == nxi && y == nyi) {
                assert(fresh(before, v0, wi, hi, x, y));
            }
        }
    }
}


proof fn lemma_count_row_zero(f: spec_fn(int, int) -> bool, y: int, k: int)
    requires
        forall|x: int| 0 <= x < k ==> !(#[trigger] f(x, y)),
    ensures
        count_row(f, y, k) == 0,
    decreases k,
{
    if k > 0 {
        lemma_count_row_zero(f, y, k - 1);
    }
}

/// A predicate that holds nowhere on the image counts no pixels.
pub proof fn lemma_count_zero(f: spec_fn(int, int) -> bool, w: int, h: int)
    requires
        forall|x: int, y: int| in_image(w, h, x, y) ==> !(#[trigger] f(x, y)),
    ensures
        count_rows(f, w, h) == 0,
    decreases h,
{
    if h > 0 {
        lemma_count_zero(f, w, h - 1);
        lemma_count_row_zero(f, h - 1, w);
    }
}

/// Marks the region of set pixels that holds `(sx, sy)` and returns its size and
/// bounding box `(left, right, top, bottom)`.
pub fn fill_region(
    mask: &Vec<bool>,
    w: usize,
    h: usize,
    visited: &mut Vec<bool>,
    sx: usize,
    sy: usize,
) -> (r: (usize, (usize, usize, usize, usize)))
    requires
        mask@.len() == w * h,
        old(visited)@.len() == w * h,
        skin_px(mask@, w as int, h as int, sx as int, sy as int),
        !vis(old(visited)@, w as int, h as int, sx as int, sy as int),
        forall|x: int, y: int| #[trigger]
            vis(old(visited)@, w as int, h as int, x, y) ==> skin_px(mask@, w as int, h as int, x, y) && closed_at(
                mask@,
                old(visited)@,
                w as int,
                h as int,
                x,
                y,
            ),
    ensures
        final(visited)@.len() == w * h,
        forall|x: int, y: int| #[trigger]
            vis(final(visited)@, w as int, h as int, x, y) == (vis(old(visited)@, w as int, h as int, x, y) || connected(
                mask@,
                w as int,
                h as int,
                sx as int,
                sy as int,
                x,
                y,
            )),
        forall|x: int, y: int| #[trigger]
            vis(final(visited)@, w as int, h as int, x, y) ==> skin_px(mask@, w as int, h as int, x, y) && closed_at(
                mask@,
                final(visited)@,
                w as int,
                h as int,
                x,
                y,
            ),
        r.0 == region_size(mask@, w as int, h as int, sx as int, sy as int),
        region_box(mask@, w as int, h as int, sx as int, sy as int, r.1.0 as int, r.1.1 as int, r.1.2 as int, r.1.3 as int),
{
    let ghost wi = w as int;
    let ghost hi = h as int;
    let ghost before = visited@;
    proof {
        lemma_index_in_bounds(wi, hi, sx as int, sy as int);
        assert(mask.len() == wi * hi);
        assert(0 <= sy * w <= sy * w + sx);
    }
    let i = sy * w + sx;
    visited.set(i, true);
    let mut stack: Vec<(usize, usize)> = Vec::new();
    stack.push((sx, sy));
    let mut size: usize = 1;
    let mut b: (usize, usize, usize, usize) = (sx, sx, sy, sy);
    proof {
        let v1 = visited@;
        let sxi = sx as int;
        let syi = sy as int;
        assert forall|x: int, y: int| #[trigger] vis(v1, wi, hi, x, y) == (vis(before, wi, hi, x, y) || (x == sxi && y == syi)) by {
            if in_image(wi, hi, x, y) {
                lemma_index_in_bounds(wi, hi, x, y);
                if !(x == sxi && y == syi) && y * wi + x == i {
                    lemma_index_unique(wi, hi, x, y, sxi, syi);
                }
            }
        }
        assert forall|x: int, y: int| #[trigger] fresh(before, v1, wi, hi, x, y) == (x == sxi && y == syi) by {
            assert(vis(v1, wi, hi, x, y) == (vis(before, wi, hi, x, y) || (x == sxi && y == syi)));
        }
        lemma_count_zero(|x: int, y: int| fresh(before, before, wi, hi, x, y), wi, hi);
        lemma_count_point(
            |x: int, y: int| fresh(before, before, wi, hi, x, y),
            |x: int, y: int| fresh(before, v1, wi, hi, x, y),
            wi,
            hi,
            sxi,
            syi,
        );
        assert(reach(mask@, wi, hi, sxi, syi, sxi, syi, 0));
        assert(stack@[0] == (sx, sy));
        assert(on_stack(stack@, sxi, syi));
        assert(fresh(before, v1, wi, hi, sxi, syi));
        assert forall|x: int, y: int| #[trigger] vis(v1, wi, hi, x, y) implies skin_px(mask@, wi, hi, x, y) by {
            if !(x == sxi && y == syi) {
                assert(vis(before, wi, hi, x, y));
            }
        }
        assert forall|x: int, y: int| #[trigger] vis(before, wi, hi, x, y) implies vis(v1, wi, hi, x, y) && closed_at(
            mask@,
            before,
            wi,
            hi,
            x,
            y,
        ) by {}
        assert forall|x: int, y: int| #[trigger] fresh(before, v1, wi, hi, x, y) implies connected(
            mask@,
            wi,
            hi,
            sxi,
            syi,
            x,
            y,
        ) by {}
        assert(mask@.len() == wi * hi && v1.len() == wi * hi && before.len() == wi * hi);
        assert forall|x: int, y: int|
            #[trigger] fresh(before, v1, wi, hi, x, y) && !(x == -1 && y == -1) implies closed_at(mask@, v1, wi, hi, x, y)
                || on_stack(stack@, x, y) by {}
        assert forall|k: int| 0 <= k < stack@.len() implies fresh(before, v1, wi, hi, (#[trigger] stack@[k]).0 as int, stack@[k].1 as int) by {}
        assert(size as int == count_rows(|x: int, y: int| fresh(before, v1, wi, hi, x, y), wi, hi));
        assert forall|x: int, y: int| #[trigger] fresh(before, v1, wi, hi, x, y) implies b.0 <= x <= b.1 && b.2 <= y <= b.3 by {}
    }
    while stack.len() > 0
        invariant
            fill_inv(mask@, wi, hi, sx as int, sy as int, before, visited@, stack@, size as int, b, -1, -1),
            wi == w,
            hi == h,
            mask@.len() == w * h,
            vis(visited@, wi, hi, sx as int, sy as int),
            !vis(before, wi, hi, sx as int, sy as int),
        decreases 2 * unvisited(visited@, wi, hi) + stack@.len(),
    {
        let ghost s0 = stack@;
        let (px, py) = stack.pop().unwrap();
        proof {
            let s1 = stack@;
            assert(s1 =~= s0.drop_last());
            assert(s0[s0.len() - 1] == (px, py));
            assert(fresh(before, visited@, wi, hi, px as int, py as int));
            assert forall|k: int| 0 <= k < s1.len() implies fresh(before, visited@, wi, hi, (#[trigger] s1[k]).0 as int, s1[k].1 as int) by {
                assert(s1[k] == s0[k]);
            }
            assert forall|x: int, y: int|
                #[trigger] fresh(before, visited@, wi, hi, x, y) && !(x == px as int && y == py as int) implies closed_at(
                    mask@,
                    visited@,
                    wi,
                    hi,
                    x,
                    y,
                ) || on_stack(s1, x, y) by {
                if on_stack(s0, x, y) {
                    let k = choose|k: int| 0 <= k < s0.len() && (#[trigger] s0[k]).0 == x && s0[k].1 == y;
                    if k < s0.len() - 1 {
                        assert(s1[k] == s0[k]);
                    }
                }
            }
        }
        if px > 0 {
            visit(mask, w, h, visited, &mut stack, &mut size, &mut b, sx, sy, px, py, px - 1, py, Ghost(before));
        }
        if px + 1 < w {
            visit(mask, w, h, visited, &mut stack, &mut size, &mut b, sx, sy, px, py, px + 1, py, Ghost(before));
        }
        if py > 0 {
            visit(mask, w, h, visited, &mut stack, &mut size, &mut b, sx, sy, px, py, px, py - 1, Ghost(before));
        }
        if py + 1 < h {
            visit(mask, w, h, visited, &mut stack, &mut size, &mut b, sx, sy, px, py, px, py + 1, Ghost(before));
        }
        proof {
            assert(closed_at(mask@, visited@, wi, hi, px as int, py as int));
        }
    }
    proof {
        let v = visited@;
        let sxi = sx as int;
        let syi = sy as int;
        assert forall|x: int, y: int| #[trigger] vis(v, wi, hi, x, y) implies closed_at(mask@, v, wi, hi, x, y) by {
            if vis(before, wi, hi, x, y) {
                assert(closed_at(mask@, before, wi, hi, x, y));
                if skin_px(mask@, wi, hi, x - 1, y) {
                    assert(vis(before, wi, hi, x - 1, y));
                }
                if skin_px(mask@, wi, hi, x + 1, y) {
                    assert(vis(before, wi, hi, x + 1, y));
                }
                if skin_px(mask@, wi, hi, x, y - 1) {
                    assert(vis(before, wi, hi, x, y - 1));
                }
                if skin_px(mask@, wi, hi, x, y + 1) {
                    assert(vis(before, wi, hi, x, y + 1));
                }
            } else {
                assert(fresh(before, v, wi, hi, x, y));
            }
        }
        assert forall|x: int, y: int| connected(mask@, wi, hi, sxi, syi, x, y) implies #[trigger] fresh(
            before,
            v,
            wi,
            hi,
            x,
            y,
        ) by {
            let n = choose|n: nat| reach(mask@, wi, hi, sxi, syi, x, y, n);
            lemma_closed_holds_region(mask@, v, wi, hi, sxi, syi, x, y, n);
            if vis(before, wi, hi, x, y) {
                lemma_same_region(mask@, wi, hi, sxi, syi, x, y);
                let m = choose|m: nat| reach(mask@, wi, hi, x, y, sxi, syi, m);
                assert forall|a: int, c: int| #[trigger] vis(before, wi, hi, a, c) implies closed_at(mask@, before, wi, hi, a, c) by {}
                lemma_closed_holds_region(mask@, before, wi, hi, x, y, sxi, syi, m);
            }
        }
        assert forall|x: int, y: int| #[trigger] fresh(before, v, wi, hi, x, y) == connected(mask@, wi, hi, sxi, syi, x, y) by {
            if fresh(before, v, wi, hi, x, y) {
            }
        }
        lemma_count_ext(
            |x: int, y: int| fresh(before, v, wi, hi, x, y),
            |x: int, y: int| connected(mask@, wi, hi, sxi, syi, x, y),
            wi,
            hi,
        );
        assert forall|x: int, y: int| #[trigger] vis(v, wi, hi, x, y) == (vis(before, wi, hi, x, y) || connected(
            mask@,
            wi,
            hi,
            sxi,
            syi,
            x,
            y,
        )) by {
            assert(fresh(before, v, wi, hi, x, y) == connected(mask@, wi, hi, sxi, syi, x, y));
        }
        assert forall|x: int, y: int| #[trigger] connected(mask@, wi, hi, sxi, syi, x, y) implies b.0 <= x <= b.1 && b.2
            <= y <= b.3 by {
            assert(fresh(before, v, wi, hi, x, y));
        }
        let y0 = choose|y: int| #[trigger] fresh(before, v, wi, hi, b.0 as int, y);
        assert(connected(mask@, wi, hi, sxi, syi, b.0 as int, y0));
        let y1 = choose|y: int| #[trigger] fresh(before, v, wi, hi, b.1 as int, y);
        assert(connected(mask@, wi, hi, sxi, syi, b.1 as int, y1));
        let x2 = choose|x: int| #[trigger] fresh(before, v, wi, hi, x, b.2 as int);
        assert(connected(mask@, wi, hi, sxi, syi, x2, b.2 as int));
        let x3 = choose|x: int| #[trigger] fresh(before, v, wi, hi, x, b.3 as int);
        assert(connected(mask@, wi, hi, sxi, syi, x3, b.3 as int));
    }
    (size, b)
}

} // verus!
