//! Splitting an interleaved image into overlapping square tiles.
//!
//! The element type is left generic: tiling only moves samples around.
use vstd::prelude::*;

verus! {

/// A window of an image: its samples (row-major, `channels` per pixel) and its
/// place and size in the image.
pub struct Tile<T> {
    pub pixels: Vec<T>,
    pub x: usize,
    pub y: usize,
    pub w: usize,
    pub h: usize,
    pub channels: usize,
}

/// Where a tile asked to start at `x` starts along an axis of length `len`:
/// at `x`, pulled back so that a full tile still fits, or at 0 when the
/// axis is shorter than a tile.
pub open spec fn axis_start(len: int, tile: int, x: int) -> int {
    if len >= tile {
        if x < len - tile {
            x
        } else {
            len - tile
        }
    } else {
        0
    }
}

/// The extent of that tile: a full tile, or what is left of the axis.
pub open spec fn axis_extent(len: int, tile: int, x: int) -> int {
    let t = axis_start(len, tile, x);
    if len - t < tile {
        len - t
    } else {
        tile
    }
}

/// The (start, extent) of the tiles along one axis, asked to start at `x`,
/// `x + step`, ... until one reaches the end of the axis.
pub open spec fn axis_spans(len: int, tile: int, step: int, x: int) -> Seq<(int, int)>
    decreases (if x < len { len - x } else { 0 }),
{
    let t = axis_start(len, tile, x);
    let e = axis_extent(len, tile, x);
    if t + e >= len || step < 1 || x < 0 || len < 0 || tile < 0 {
        seq![(t, e)]
    } else {
        proof {
            lemma_axis_continue(len, tile, x);
        }
        seq![(t, e)].add(axis_spans(len, tile, step, x + step))
    }
}

/// The distance between the starts of neighbouring tiles.
pub open spec fn tile_step(tile: int, overlap: int) -> int {
    if tile - overlap >= 1 {
        tile - overlap
    } else {
        1
    }
}

/// The placement ((x, w), (y, h)) of each tile of a row of tiles at vertical span `row`.
pub open spec fn row_of_tiles(cols: Seq<(int, int)>, row: (int, int)) -> Seq<((int, int), (int, int))> {
    cols.map_values(|c: (int, int)| (c, row))
}

/// The placements of the tiles of the grid, row by row.
pub open spec fn tile_grid(rows: Seq<(int, int)>, cols: Seq<(int, int)>) -> Seq<((int, int), (int, int))>
    decreases rows.len(),
{
    if rows.len() == 0 {
        Seq::empty()
    } else {
        tile_grid(rows.drop_last(), cols).add(row_of_tiles(cols, rows.last()))
    }
}

/// The samples of the `w` by `h` window at (`x`, `y`) of a row-major image of
/// width `img_w` with `ch` samples per pixel: its rows, top to bottom, each the
/// contiguous run of its `w` pixels.
pub open spec fn window<T>(src: Seq<T>, img_w: int, ch: int, x: int, y: int, w: int, h: int) -> Seq<T>
    decreases h,
{
    if h <= 0 {
        Seq::empty()
    } else {
        let start = ((y + h - 1) * img_w + x) * ch;
        window(src, img_w, ch, x, y, w, h - 1).add(src.subrange(start, start + w * ch))
    }
}

/// The placement of a tile.
pub open spec fn placement<T>(t: Tile<T>) -> ((int, int), (int, int)) {
    ((t.x as int, t.w as int), (t.y as int, t.h as int))
}

/// The tile grid of an image: placements from `axis_spans` on both axes, with
/// each tile holding the samples of its window.
pub open spec fn spec_tiles_of<T>(
    tiles: Seq<Tile<T>>,
    src: Seq<T>,
    img_w: int,
    img_h: int,
    ch: int,
    tile: int,
    overlap: int,
) -> bool {
    let step = tile_step(tile, overlap);
    let rows = axis_spans(img_h, tile, step, 0);
    let cols = axis_spans(img_w, tile, step, 0);
    &&& tiles.map_values(|t: Tile<T>| placement(t)) == tile_grid(rows, cols)
    &&& forall|i: int|
        0 <= i < tiles.len() ==> (#[trigger] tiles[i]).channels == ch && tiles[i].pixels@ == window(
            src,
            img_w,
            ch,
            tiles[i].x as int,
            tiles[i].y as int,
            tiles[i].w as int,
            tiles[i].h as int,
        )
}

proof fn lemma_axis_span_fits(len: int, tile: int, x: int)
    requires
        len >= 0,
        tile >= 0,
        x >= 0,
    ensures
        0 <= axis_start(len, tile, x),
        0 <= axis_extent(len, tile, x),
        axis_start(len, tile, x) + axis_extent(len, tile, x) <= len,
        axis_extent(len, tile, x) <= tile,
{
}

/// A tile that does not reach the end of the axis was asked to start before
/// `len - tile`, and is a full tile.
pub proof fn lemma_axis_continue(len: int, tile: int, x: int)
    requires
        len >= 0,
        tile >= 0,
        x >= 0,
        axis_start(len, tile, x) + axis_extent(len, tile, x) < len,
    ensures
        x < len - tile || tile == 0,
        x < len,
        tile <= len,
{
}

proof fn lemma_window_bound(img_w: int, img_h: int, ch: int, x: int, y: int, w: int, row: int)
    requires
        0 <= x,
        0 <= w,
        x + w <= img_w,
        0 <= y,
        0 <= row,
        y + row < img_h,
        ch >= 0,
    ensures
        0 <= ((y + row) * img_w + x) * ch,
        ((y + row) * img_w + x) * ch <= ((y + row) * img_w + x) * ch + w * ch,
        ((y + row) * img_w + x) * ch + w * ch <= img_w * img_h * ch,
{
    assert(((y + row) * img_w + x) * ch + w * ch == ((y + row) * img_w + x + w) * ch) by (nonlinear_arith);
    assert((y + row) * img_w + x + w <= (y + row + 1) * img_w) by (nonlinear_arith)
        requires
            x + w <= img_w,
    ;
    assert((y + row + 1) * img_w <= img_h * img_w) by (nonlinear_arith)
        requires
            y + row < img_h,
            img_w >= 0,
    ;
    assert(0 <= ((y + row) * img_w + x) * ch) by (nonlinear_arith)
        requires
            0 <= x,
            0 <= y + row,
            img_w >= 0,
            ch >= 0,
    ;
    assert(((y + row) * img_w + x + w) * ch <= img_w * img_h * ch) by (nonlinear_arith)
        requires
            (y + row) * img_w + x + w <= img_h * img_w,
            ch >= 0,
    ;
    assert(0 <= w * ch) by (nonlinear_arith)
        requires
            0 <= w,
            ch >= 0,
    ;
}

/// Whether a span (start, extent) contains position `p`.
pub open spec fn span_holds(span: (int, int), p: int) -> bool {
    span.0 <= p < span.0 + span.1
}

/// Whether some span of a list contains position `p`.
pub open spec fn spans_cover(spans: Seq<(int, int)>, p: int) -> bool {
    exists|k: int| 0 <= k < spans.len() && span_holds(#[trigger] spans[k], p)
}

/// Along an axis, the spans asked to start at `x` or later each lie inside the
/// axis and together cover it from the first span's start to its end.
proof fn lemma_axis_spans_cover(len: int, tile: int, step: int, x: int)
    requires
        0 <= x,
        1 <= step <= tile,
        0 <= len,
    ensures
        axis_spans(len, tile, step, x).len() >= 1,
        forall|k: int|
            0 <= k < axis_spans(len, tile, step, x).len() ==> 0 <= (#[trigger] axis_spans(len, tile, step, x)[k]).0
                && 0 <= axis_spans(len, tile, step, x)[k].1 && axis_spans(len, tile, step, x)[k].0
                + axis_spans(len, tile, step, x)[k].1 <= len,
        forall|p: int|
            axis_start(len, tile, x) <= p < len ==> #[trigger] spans_cover(axis_spans(len, tile, step, x), p),
    decreases (if x < len { len - x } else { 0 }),
{
    let spans = axis_spans(len, tile, step, x);
    let t = axis_start(len, tile, x);
    let e = axis_extent(len, tile, x);
    lemma_axis_span_fits(len, tile, x);
    if t + e >= len {
        assert(spans =~= seq![(t, e)]);
        assert forall|p: int| t <= p < len implies #[trigger] spans_cover(spans, p) by {
            assert(span_holds(spans[0], p));
        }
    } else {
        lemma_axis_continue(len, tile, x);
        let rest = axis_spans(len, tile, step, x + step);
        lemma_axis_spans_cover(len, tile, step, x + step);
        lemma_axis_span_fits(len, tile, x + step);
        assert(spans =~= seq![(t, e)].add(rest));
        assert forall|k: int| 0 <= k < spans.len() implies 0 <= (#[trigger] spans[k]).0 && 0 <= spans[k].1
            && spans[k].0 + spans[k].1 <= len by {
            if k > 0 {
                assert(spans[k] == rest[k - 1]);
            }
        }
        assert forall|p: int| t <= p < len implies #[trigger] spans_cover(spans, p) by {
            if p < t + e {
                assert(span_holds(spans[0], p));
            } else {
                assert(spans_cover(rest, p));
                let k = choose|k: int| 0 <= k < rest.len() && span_holds(#[trigger] rest[k], p);
                assert(spans[k + 1] == rest[k]);
                assert(span_holds(spans[k + 1], p));
            }
        }
    }
}

/// Every pair of a row span and a column span is the placement of some tile of the grid.
proof fn lemma_tile_grid_has(rows: Seq<(int, int)>, cols: Seq<(int, int)>, r: int, c: int)
    requires
        0 <= r < rows.len(),
        0 <= c < cols.len(),
    ensures
        tile_grid(rows, cols).contains((cols[c], rows[r])),
    decreases rows.len(),
{
    let prev = tile_grid(rows.drop_last(), cols);
    let row = row_of_tiles(cols, rows.last());
    if r == rows.len() - 1 {
        assert(tile_grid(rows, cols)[prev.len() + c] == row[c]);
    } else {
        lemma_tile_grid_has(rows.drop_last(), cols, r, c);
        let k = choose|k: int| 0 <= k < prev.len() && prev[k] == (cols[c], rows.drop_last()[r]);
        assert(tile_grid(rows, cols)[k] == prev[k]);
    }
}

/// Every placement of the grid pairs a row span with a column span.
proof fn lemma_tile_grid_from(rows: Seq<(int, int)>, cols: Seq<(int, int)>, i: int)
    requires
        0 <= i < tile_grid(rows, cols).len(),
    ensures
        rows.contains(tile_grid(rows, cols)[i].1),
        cols.contains(tile_grid(rows, cols)[i].0),
    decreases rows.len(),
{
    let prev = tile_grid(rows.drop_last(), cols);
    if rows.len() > 0 {
        if i < prev.len() {
            lemma_tile_grid_from(rows.drop_last(), cols, i);
            let k = choose|k: int| 0 <= k < rows.drop_last().len() && rows.drop_last()[k] == prev[i].1;
            assert(rows[k] == prev[i].1);
        } else {
            assert(tile_grid(rows, cols)[i] == (cols[i - prev.len()], rows.last()));
            assert(rows[rows.len() - 1] == rows.last());
        }
    }
}

/// The start of the `j`-th tile of an axis asked to start at `x0` with stride
/// `step`, pulled back so that a full tile still fits.
pub open spec fn grid_start(x0: int, j: nat, step: int, len: int, tile: int) -> int {
    let s = x0 + j * step;
    if s < len - tile {
        s
    } else {
        len - tile
    }
}

/// The start of the `j`-th tile of an axis of length `len` for tiles of side
/// `tile` overlapping by `overlap`: `j` strides of `tile - overlap` (at least 1),
/// pulled back so that a full tile still fits.
pub open spec fn stride_start(j: nat, tile: int, overlap: int, len: int) -> int {
    let step = if tile - overlap >= 1 { tile - overlap } else { 1 };
    let s = j * step;
    if s < len - tile {
        s
    } else {
        len - tile
    }
}

proof fn lemma_axis_spans_full(len: int, tile: int, step: int, x: int)
    requires
        0 <= x,
        1 <= step,
        1 <= tile <= len,
    ensures
        forall|k: int|
            0 <= k < axis_spans(len, tile, step, x).len() ==> (#[trigger] axis_spans(len, tile, step, x)[k]).1 == tile
                && exists|j: nat| axis_spans(len, tile, step, x)[k].0 == #[trigger] grid_start(x, j, step, len, tile),
    decreases (if x < len { len - x } else { 0 }),
{
    let spans = axis_spans(len, tile, step, x);
    let t = axis_start(len, tile, x);
    let e = axis_extent(len, tile, x);
    assert(t == grid_start(x, 0, step, len, tile));
    if t + e >= len {
        assert(spans =~= seq![(t, e)]);
    } else {
        lemma_axis_continue(len, tile, x);
        let rest = axis_spans(len, tile, step, x + step);
        lemma_axis_spans_full(len, tile, step, x + step);
        assert(spans =~= seq![(t, e)].add(rest));
        assert forall|k: int| 0 <= k < spans.len() implies (#[trigger] spans[k]).1 == tile && exists|j: nat|
            spans[k].0 == #[trigger] grid_start(x, j, step, len, tile) by {
            if k > 0 {
                assert(spans[k] == rest[k - 1]);
                let j = choose|j: nat| rest[k - 1].0 == #[trigger] grid_start(x + step, j, step, len, tile);
                assert(x + step + j * step == x + (j + 1) * step) by (nonlinear_arith);
                assert(spans[k].0 == grid_start(x, (j + 1) as nat, step, len, tile));
            } else {
                assert(spans[k].0 == grid_start(x, 0, step, len, tile));
            }
        }
    }
}

/// Across an image at least as wide as a tile every tile is full-width, and
/// tiles start at multiples of the stride (`tile - overlap`, at least 1), the
/// last one pulled back to end exactly at the image's right edge.
pub proof fn lemma_tile_columns_full<T>(
    tiles: Seq<Tile<T>>,
    src: Seq<T>,
    img_w: int,
    img_h: int,
    ch: int,
    tile: int,
    overlap: int,
)
    requires
        spec_tiles_of(tiles, src, img_w, img_h, ch, tile, overlap),
        tile >= 1,
        overlap >= 0,
        img_w >= tile,
    ensures
        forall|i: int|
            0 <= i < tiles.len() ==> (#[trigger] tiles[i]).w == tile && exists|j: nat|
                tiles[i].x == #[trigger] stride_start(j, tile, overlap, img_w),
{
    let step = tile_step(tile, overlap);
    let rows = axis_spans(img_h, tile, step, 0);
    let cols = axis_spans(img_w, tile, step, 0);
    let places = tiles.map_values(|t: Tile<T>| placement(t));
    lemma_axis_spans_full(img_w, tile, step, 0);
    assert(tiles.len() == places.len());
    assert forall|i: int| 0 <= i < tiles.len() implies (#[trigger] tiles[i]).w == tile && exists|j: nat|
        tiles[i].x == #[trigger] stride_start(j, tile, overlap, img_w) by {
        lemma_tile_grid_from(rows, cols, i);
        assert(places[i] == placement(tiles[i]));
        let kc = choose|k: int| 0 <= k < cols.len() && cols[k] == places[i].0;
        assert(cols[kc].1 == tile);
        let j = choose|j: nat| cols[kc].0 == #[trigger] grid_start(0, j, step, img_w, tile);
        assert(tiles[i].x == stride_start(j, tile, overlap, img_w));
    }
}

/// Down an image at least as tall as a tile every tile is full-height, and
/// tiles start at multiples of the stride (`tile - overlap`, at least 1), the
/// last one pulled back to end exactly at the image's bottom edge.
pub proof fn lemma_tile_rows_full<T>(
    tiles: Seq<Tile<T>>,
    src: Seq<T>,
    img_w: int,
    img_h: int,
    ch: int,
    tile: int,
    overlap: int,
)
    requires
        spec_tiles_of(tiles, src, img_w, img_h, ch, tile, overlap),
        tile >= 1,
        overlap >= 0,
        img_h >= tile,
    ensures
        forall|i: int|
            0 <= i < tiles.len() ==> (#[trigger] tiles[i]).h == tile && exists|j: nat|
                tiles[i].y == #[trigger] stride_start(j, tile, overlap, img_h),
{
    let step = tile_step(tile, overlap);
    let rows = axis_spans(img_h, tile, step, 0);
    let cols = axis_spans(img_w, tile, step, 0);
    let places = tiles.map_values(|t: Tile<T>| placement(t));
    lemma_axis_spans_full(img_h, tile, step, 0);
    assert(tiles.len() == places.len());
    assert forall|i: int| 0 <= i < tiles.len() implies (#[trigger] tiles[i]).h == tile && exists|j: nat|
        tiles[i].y == #[trigger] stride_start(j, tile, overlap, img_h) by {
        lemma_tile_grid_from(rows, cols, i);
        assert(places[i] == placement(tiles[i]));
        let kr = choose|k: int| 0 <= k < rows.len() && rows[k] == places[i].1;
        assert(rows[kr].1 == tile);
        let j = choose|j: nat| rows[kr].0 == #[trigger] grid_start(0, j, step, img_h, tile);
        assert(tiles[i].y == stride_start(j, tile, overlap, img_h));
    }
}

/// Whether a tile's window contains the pixel at (`px`, `py`).
pub open spec fn tile_holds<T>(t: Tile<T>, px: int, py: int) -> bool {
    t.x <= px < t.x + t.w && t.y <= py < t.y + t.h
}

/// Whether some tile's window contains the pixel at (`px`, `py`).
pub open spec fn pixel_tiled<T>(tiles: Seq<Tile<T>>, px: int, py: int) -> bool {
    exists|i: int| 0 <= i < tiles.len() && #[trigger] tile_holds(tiles[i], px, py)
}

/// The tiles of an image cover it: there is at least one tile, every tile lies
/// inside the image, and every pixel of the image lies in some tile (for tiles
/// of side at least 1).
pub proof fn lemma_tiles_cover_image<T>(
    tiles: Seq<Tile<T>>,
    src: Seq<T>,
    img_w: int,
    img_h: int,
    ch: int,
    tile: int,
    overlap: int,
)
    requires
        spec_tiles_of(tiles, src, img_w, img_h, ch, tile, overlap),
        tile >= 1,
        overlap >= 0,
        img_w >= 0,
        img_h >= 0,
    ensures
        tiles.len() >= 1,
        forall|i: int|
            0 <= i < tiles.len() ==> (#[trigger] tiles[i]).x + tiles[i].w <= img_w && tiles[i].y + tiles[i].h
                <= img_h,
        forall|px: int, py: int| 0 <= px < img_w && 0 <= py < img_h ==> #[trigger] pixel_tiled(tiles, px, py),
{
    let step = tile_step(tile, overlap);
    let rows = axis_spans(img_h, tile, step, 0);
    let cols = axis_spans(img_w, tile, step, 0);
    let places = tiles.map_values(|t: Tile<T>| placement(t));
    lemma_axis_spans_cover(img_h, tile, step, 0);
    lemma_axis_spans_cover(img_w, tile, step, 0);
    lemma_tile_grid_has(rows, cols, 0, 0);
    assert(tiles.len() == places.len());
    assert forall|i: int| 0 <= i < tiles.len() implies (#[trigger] tiles[i]).x + tiles[i].w <= img_w
        && tiles[i].y + tiles[i].h <= img_h by {
        lemma_tile_grid_from(rows, cols, i);
        assert(places[i] == placement(tiles[i]));
        let kr = choose|k: int| 0 <= k < rows.len() && rows[k] == places[i].1;
        let kc = choose|k: int| 0 <= k < cols.len() && cols[k] == places[i].0;
        assert(rows[kr].0 + rows[kr].1 <= img_h);
        assert(cols[kc].0 + cols[kc].1 <= img_w);
    }
    assert forall|px: int, py: int| 0 <= px < img_w && 0 <= py < img_h implies #[trigger] pixel_tiled(
        tiles,
        px,
        py,
    ) by {
        assert(spans_cover(rows, py));
        assert(spans_cover(cols, px));
        let kr = choose|k: int| 0 <= k < rows.len() && span_holds(#[trigger] rows[k], py);
        let kc = choose|k: int| 0 <= k < cols.len() && span_holds(#[trigger] cols[k], px);
        lemma_tile_grid_has(rows, cols, kr, kc);
        let i = choose|i: int| 0 <= i < places.len() && places[i] == (cols[kc], rows[kr]);
        assert(places[i] == placement(tiles[i]));
        assert(tile_holds(tiles[i], px, py));
    }
}

/// Appends `src[start..end]` to `dst`.
fn append_run<T: Copy>(dst: &mut Vec<T>, src: &[T], start: usize, end: usize)
    requires
        start <= end <= src@.len(),
    ensures
        final(dst)@ == old(dst)@.add(src@.subrange(start as int, end as int)),
{
    let mut i = start;
    while i < end
        invariant
            start <= i <= end,
            end <= src@.len(),
            dst@ == old(dst)@.add(src@.subrange(start as int, i as int)),
        decreases end - i,
    {
        dst.push(src[i]);
        proof {
            assert(src@.subrange(start as int, i + 1) =~= src@.subrange(start as int, i as int).push(src@[i as int]));
        }
        i = i + 1;
    }
}

/// Copies the `w` by `h` window at (`x`, `y`) out of the image.
fn copy_window<T: Copy>(
    pixels: &[T],
    img_w: usize,
    img_h: usize,
    channels: usize,
    x: usize,
    y: usize,
    w: usize,
    h: usize,
) -> (out: Vec<T>)
    requires
        pixels@.len() >= img_w * img_h * channels,
        img_w * img_h <= usize::MAX,
        x + w <= img_w,
        y + h <= img_h,
    ensures
        out@ == window(pixels@, img_w as int, channels as int, x as int, y as int, w as int, h as int),
{
    let mut out: Vec<T> = Vec::new();
    let n = pixels.len();
    let mut row: usize = 0;
    while row < h
        invariant
            n == pixels@.len(),
            row <= h,
            pixels@.len() >= img_w * img_h * channels,
            img_w * img_h <= usize::MAX,
            x + w <= img_w,
            y + h <= img_h,
            out@ == window(pixels@, img_w as int, channels as int, x as int, y as int, w as int, row as int),
        decreases h - row,
    {
        proof {
            lemma_window_bound(img_w as int, img_h as int, channels as int, x as int, y as int, w as int, row as int);
        }
        assert((y + row) * img_w + x <= img_w * img_h) by (nonlinear_arith)
            requires
                y + row < img_h,
                x <= img_w,
        ;
        assert((y + row) * img_w <= (y + row) * img_w + x);
        let start = ((y + row) * img_w + x) * channels;
        let end = start + w * channels;
        append_run(&mut out, pixels, start, end);
        row = row + 1;
    }
    out
}

/// Splits an image of `img_w` by `img_h` pixels, `channels` samples each, into
/// tiles of side `tile_size` that overlap by `overlap` (the stride is
/// `tile_size - overlap`, at least 1); the last tile of each row and column is
/// pulled back to end at the image's edge.
pub fn split_into_tiles<T: Copy>(
    pixels: &[T],
    img_w: usize,
    img_h: usize,
    channels: usize,
    tile_size: usize,
    overlap: usize,
) -> (tiles: Vec<Tile<T>>)
    requires
        pixels@.len() >= img_w * img_h * channels,
        img_w * img_h <= usize::MAX,
    ensures
        spec_tiles_of(
            tiles@,
            pixels@,
            img_w as int,
            img_h as int,
            channels as int,
            tile_size as int,
            overlap as int,
        ),
{
    let step: usize = if tile_size > overlap && tile_size - overlap >= 1 { tile_size - overlap } else { 1 };
    let ghost stepi = step as int;
    let ghost tile = tile_size as int;
    let ghost rows = axis_spans(img_h as int, tile, stepi, 0);
    let ghost cols = axis_spans(img_w as int, tile, stepi, 0);
    assert(stepi == tile_step(tile, overlap as int));

    let mut tiles: Vec<Tile<T>> = Vec::new();
    let ghost mut done_rows: Seq<(int, int)> = Seq::empty();
    let mut y: usize = 0;
    let mut more_rows = true;
    while more_rows
        invariant
            pixels@.len() >= img_w * img_h * channels,
            img_w * img_h <= usize::MAX,
            stepi == step,
            step >= 1,
            step <= tile_size || tile_size == 0,
            tile_size == 0 ==> step == 1,
            tile == tile_size,
            rows == axis_spans(img_h as int, tile, stepi, 0),
            cols == axis_spans(img_w as int, tile, stepi, 0),
            more_rows ==> rows == done_rows.add(axis_spans(img_h as int, tile, stepi, y as int)),
            !more_rows ==> rows == done_rows,
            more_rows ==> y <= img_h,
            tiles@.map_values(|t: Tile<T>| placement(t)) == tile_grid(done_rows, cols),
            forall|i: int|
                0 <= i < tiles@.len() ==> (#[trigger] tiles@[i]).channels == channels && tiles@[i].pixels@
                    == window(
                    pixels@,
                    img_w as int,
                    channels as int,
                    tiles@[i].x as int,
                    tiles@[i].y as int,
                    tiles@[i].w as int,
                    tiles@[i].h as int,
                ),
        decreases (if more_rows { img_h - y + 1 } else { 0 }),
    {
        let ty: usize = if img_h >= tile_size {
            if y < img_h - tile_size { y } else { img_h - tile_size }
        } else {
            0
        };
        let th: usize = if img_h - ty < tile_size { img_h - ty } else { tile_size };
        proof {
            lemma_axis_span_fits(img_h as int, tile, y as int);
        }
        let ghost row_span = (ty as int, th as int);
        assert(row_span == axis_spans(img_h as int, tile, stepi, y as int)[0]);

        let ghost mut done_cols: Seq<(int, int)> = Seq::empty();
        let ghost tiles_before = tiles@;
        let mut x: usize = 0;
        let mut more_cols = true;
        while more_cols
            invariant
                pixels@.len() >= img_w * img_h * channels,
                img_w * img_h <= usize::MAX,
                stepi == step,
                step >= 1,
                step <= tile_size || tile_size == 0,
                tile_size == 0 ==> step == 1,
                tile == tile_size,
                ty + th <= img_h,
                cols == axis_spans(img_w as int, tile, stepi, 0),
                more_cols ==> cols == done_cols.add(axis_spans(img_w as int, tile, stepi, x as int)),
                !more_cols ==> cols == done_cols,
                more_cols ==> x <= img_w,
                tiles_before.map_values(|t: Tile<T>| placement(t)) == tile_grid(done_rows, cols),
                tiles@.map_values(|t: Tile<T>| placement(t)) == tiles_before.map_values(
                    |t: Tile<T>| placement(t),
                ).add(row_of_tiles(done_cols, row_span)),
                row_span == (ty as int, th as int),
                forall|i: int|
                    0 <= i < tiles@.len() ==> (#[trigger] tiles@[i]).channels == channels
                        && tiles@[i].pixels@ == window(
                        pixels@,
                        img_w as int,
                        channels as int,
                        tiles@[i].x as int,
                        tiles@[i].y as int,
                        tiles@[i].w as int,
                        tiles@[i].h as int,
                    ),
            decreases (if more_cols { img_w - x + 1 } else { 0 }),
        {
            let tx: usize = if img_w >= tile_size {
                if x < img_w - tile_size { x } else { img_w - tile_size }
            } else {
                0
            };
            let tw: usize = if img_w - tx < tile_size { img_w - tx } else { tile_size };
            proof {
                lemma_axis_span_fits(img_w as int, tile, x as int);
            }
            let px = copy_window(pixels, img_w, img_h, channels, tx, ty, tw, th);
            let ghost old_tiles = tiles@;
            tiles.push(Tile { pixels: px, x: tx, y: ty, w: tw, h: th, channels });
            proof {
                let col_span = (tx as int, tw as int);
                assert(col_span == axis_spans(img_w as int, tile, stepi, x as int)[0]);
                assert(tiles@.map_values(|t: Tile<T>| placement(t)) =~= old_tiles.map_values(
                    |t: Tile<T>| placement(t),
                ).push((col_span, row_span)));
                assert(row_of_tiles(done_cols.push(col_span), row_span) =~= row_of_tiles(
                    done_cols,
                    row_span,
                ).push((col_span, row_span)));
                assert forall|i: int| 0 <= i < tiles@.len() implies (#[trigger] tiles@[i]).channels == channels
                    && tiles@[i].pixels@ == window(
                    pixels@,
                    img_w as int,
                    channels as int,
                    tiles@[i].x as int,
                    tiles@[i].y as int,
                    tiles@[i].w as int,
                    tiles@[i].h as int,
                ) by {
                    if i < old_tiles.len() {
                        assert(tiles@[i] == old_tiles[i]);
                    }
                }
            }
            if tx + tw >= img_w {
                proof {
                    assert(axis_spans(img_w as int, tile, stepi, x as int) =~= seq![(tx as int, tw as int)]);
                    done_cols = done_cols.push((tx as int, tw as int));
                    assert(cols =~= done_cols);
                }
                more_cols = false;
            } else {
                proof {
                    lemma_axis_continue(img_w as int, tile, x as int);
                    let rest = axis_spans(img_w as int, tile, stepi, x as int);
                    assert(rest =~= seq![(tx as int, tw as int)].add(axis_spans(img_w as int, tile, stepi, x + stepi)));
                    assert(done_cols.add(rest) =~= done_cols.push((tx as int, tw as int)).add(
                        axis_spans(img_w as int, tile, stepi, x + stepi),
                    ));
                    done_cols = done_cols.push((tx as int, tw as int));
                }
                x = x + step;
            }
        }
        proof {
            assert(tile_grid(done_rows.push(row_span), cols) == tile_grid(done_rows, cols).add(
                row_of_tiles(cols, row_span),
            )) by {
                assert(done_rows.push(row_span).drop_last() =~= done_rows);
            }
        }
        if ty + th >= img_h {
            proof {
                assert(axis_spans(img_h as int, tile, stepi, y as int) =~= seq![row_span]);
                done_rows = done_rows.push(row_span);
                assert(rows =~= done_rows);
            }
            more_rows = false;
        } else {
            proof {
                lemma_axis_continue(img_h as int, tile, y as int);
                let rest = axis_spans(img_h as int, tile, stepi, y as int);
                assert(rest =~= seq![row_span].add(axis_spans(img_h as int, tile, stepi, y + stepi)));
                assert(done_rows.add(rest) =~= done_rows.push(row_span).add(
                    axis_spans(img_h as int, tile, stepi, y + stepi),
                ));
                done_rows = done_rows.push(row_span);
            }
            y = y + step;
        }
    }
    tiles
}

} // verus!
