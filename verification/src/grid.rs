//! The contour-extraction engine: grid cells, the two classification passes,
//! and the three traversals that emit vertices and edge index pairs.

use vstd::prelude::*;

verus! {

/// Quadrant flag: the pixel below and to the left of the grid point is filled.
pub const BOTTOM_LEFT: u16 = 1;

/// Quadrant flag: the pixel below and to the right of the grid point is filled.
pub const BOTTOM_RIGHT: u16 = 2;

/// Quadrant flag: the pixel above and to the left of the grid point is filled.
pub const TOP_LEFT: u16 = 4;

/// Quadrant flag: the pixel above and to the right of the grid point is filled.
pub const TOP_RIGHT: u16 = 8;

/// The sentinel for a grid point that no boundary passes through.
pub const EMPTY: u16 = 0;

/// The low bit of a classified cell marks a saddle: a point hosting two
/// independent boundary crossings.
pub const DOUBLE: u16 = 1;

/// One grid-point cell. Before classification it holds a 4-bit quadrant
/// field; after classification it holds either `EMPTY` or a 1-based vertex
/// identifier shifted left by one, with the low bit marking a saddle.
#[derive(Copy, Clone, Eq, PartialEq, Hash, Debug, Structural)]
pub struct Cell(pub u16);

/// The quarter-block glyph depicting a first-pass quadrant field, one
/// filled quarter per set flag, with the replacement character for values
/// that are no quadrant field.
pub open spec fn first_pass_symbol(q: u16) -> char {
    if q == 0 {
        '\u{2591}'
    } else if q == 1 {
        '\u{2596}'
    } else if q == 2 {
        '\u{2597}'
    } else if q == 8 {
        '\u{259d}'
    } else if q == 4 {
        '\u{2598}'
    } else if q == 3 {
        '\u{2584}'
    } else if q == 10 {
        '\u{2590}'
    } else if q == 12 {
        '\u{2580}'
    } else if q == 5 {
        '\u{258c}'
    } else if q == 9 {
        '\u{259e}'
    } else if q == 6 {
        '\u{259a}'
    } else if q == 11 {
        '\u{259f}'
    } else if q == 14 {
        '\u{259c}'
    } else if q == 13 {
        '\u{259b}'
    } else if q == 7 {
        '\u{2599}'
    } else if q == 15 {
        '\u{2588}'
    } else {
        '\u{fffd}'
    }
}

impl Cell {
    /// Depicts a first-pass quadrant field as a quarter-block glyph, for
    /// debugging dumps of the rasterised grid.
    pub fn _as_first_pass_symbol(self) -> (r: char)
        ensures
            r == first_pass_symbol(self.0),
    {
        let q = self.0;
        if q == EMPTY {
            '\u{2591}'
        } else if q == BOTTOM_LEFT {
            '\u{2596}'
        } else if q == BOTTOM_RIGHT {
            '\u{2597}'
        } else if q == TOP_RIGHT {
            '\u{259d}'
        } else if q == TOP_LEFT {
            '\u{2598}'
        } else if q == BOTTOM_LEFT + BOTTOM_RIGHT {
            '\u{2584}'
        } else if q == BOTTOM_RIGHT + TOP_RIGHT {
            '\u{2590}'
        } else if q == TOP_RIGHT + TOP_LEFT {
            '\u{2580}'
        } else if q == TOP_LEFT + BOTTOM_LEFT {
            '\u{258c}'
        } else if q == BOTTOM_LEFT + TOP_RIGHT {
            '\u{259e}'
        } else if q == BOTTOM_RIGHT + TOP_LEFT {
            '\u{259a}'
        } else if q == BOTTOM_LEFT + BOTTOM_RIGHT + TOP_RIGHT {
            '\u{259f}'
        } else if q == BOTTOM_RIGHT + TOP_RIGHT + TOP_LEFT {
            '\u{259c}'
        } else if q == TOP_RIGHT + TOP_LEFT + BOTTOM_LEFT {
            '\u{259b}'
        } else if q == TOP_LEFT + BOTTOM_LEFT + BOTTOM_RIGHT {
            '\u{2599}'
        } else if q == BOTTOM_LEFT + BOTTOM_RIGHT + TOP_RIGHT + TOP_LEFT {
            '\u{2588}'
        } else {
            '\u{fffd}'
        }
    }
}

impl Default for Cell {
    fn default() -> (r: Self)
        ensures
            r.0 == EMPTY,
    {
        Cell(EMPTY)
    }
}

/// The cell values of a grid buffer, as a sequence of plain integers.
pub open spec fn vals(cells: Seq<Cell>) -> Seq<u16> {
    cells.map(|i: int, c: Cell| c.0)
}

/// The number of cells a `width` x `height` mask needs: one grid point per
/// pixel corner, and none at all for a degenerate mask.
pub open spec fn mask_capacity(width: int, height: int) -> int {
    if width == 0 || height == 0 {
        0
    } else {
        (width + 1) * (height + 1)
    }
}

/// Whether the mask pixel at row `r`, column `c` is filled. Positions outside
/// the mask, and positions past the end of a short pixel sequence, count as
/// empty.
pub open spec fn pixel_at(pixels: Seq<bool>, width: int, height: int, r: int, c: int) -> bool {
    0 <= r < height && 0 <= c < width && r * width + c < pixels.len() && pixels[r * width + c]
}

/// Like `pixel_at`, but only counting pixels whose raster (row-major) index
/// is below `k`: the partial accumulation state after the first pass has
/// consumed `k` pixels.
pub open spec fn pixel_before(
    pixels: Seq<bool>,
    width: int,
    height: int,
    r: int,
    c: int,
    k: int,
) -> bool {
    pixel_at(pixels, width, height, r, c) && r * width + c < k
}

/// A quadrant flag's contribution: 1 for a filled pixel, 0 for an empty one.
pub open spec fn flag(b: bool) -> int {
    if b {
        1
    } else {
        0
    }
}

/// The quadrant field of grid point (`gr`, `gc`) once the first `k` pixels
/// have been rasterised.
pub open spec fn quads_upto(
    pixels: Seq<bool>,
    width: int,
    height: int,
    gr: int,
    gc: int,
    k: int,
) -> u16 {
    (flag(pixel_before(pixels, width, height, gr, gc - 1, k)) * BOTTOM_LEFT
        + flag(pixel_before(pixels, width, height, gr, gc, k)) * BOTTOM_RIGHT + flag(
        pixel_before(pixels, width, height, gr - 1, gc - 1, k),
    ) * TOP_LEFT + flag(pixel_before(pixels, width, height, gr - 1, gc, k)) * TOP_RIGHT) as u16
}

/// The complete quadrant field of grid point (`gr`, `gc`) for the mask.
pub open spec fn quads(pixels: Seq<bool>, width: int, height: int, gr: int, gc: int) -> u16 {
    quads_upto(pixels, width, height, gr, gc, width * height)
}

/// The quadrant fields of the whole grid, cell index order (row-major over
/// `width + 1` columns).
pub open spec fn grid_quads(pixels: Seq<bool>, width: int, height: int) -> Seq<u16> {
    Seq::new(
        mask_capacity(width, height) as nat,
        |i: int| quads(pixels, width, height, i / (width + 1), i % (width + 1)),
    )
}

/// A simple crossing: exactly one quadrant, or exactly three quadrants, of
/// the grid point are filled, so one boundary line passes through it.
pub open spec fn is_simple(q: u16) -> bool {
    q == 1 || q == 2 || q == 4 || q == 8 || q == 7 || q == 11 || q == 13 || q == 14
}

/// A saddle: the two filled quadrants are diagonal, so two independent
/// boundary lines cross at this grid point.
pub open spec fn is_saddle(q: u16) -> bool {
    q == 6 || q == 9
}

/// Whether a quadrant field makes the grid point a vertex of the outline.
pub open spec fn is_vertex(q: u16) -> bool {
    is_simple(q) || is_saddle(q)
}

/// How many of the first `k` quadrant fields are vertices: the number of
/// vertex identifiers handed out before cell `k` in scan order.
pub open spec fn vertex_count(qs: Seq<u16>, k: int) -> int
    decreases k,
{
    if k <= 0 {
        0
    } else {
        vertex_count(qs, k - 1) + if is_vertex(qs[k - 1]) {
            1int
        } else {
            0int
        }
    }
}

/// What the second pass writes into a cell whose quadrant field is `q` and
/// whose vertex identifier, were it a vertex, would be `id`.
pub open spec fn class_val(q: u16, id: int) -> u16 {
    if is_simple(q) {
        (2 * id) as u16
    } else if is_saddle(q) {
        (2 * id + 1) as u16
    } else {
        EMPTY
    }
}

/// The classified grid for a sequence of quadrant fields: vertex identifiers
/// are dense, 1-based, and assigned in scan order.
pub open spec fn classify_seq(qs: Seq<u16>) -> Seq<u16> {
    Seq::new(qs.len(), |i: int| class_val(qs[i], 1 + vertex_count(qs, i)))
}

/// The classified grid of a mask: rasterisation followed by classification.
pub open spec fn mask_classified(pixels: Seq<bool>, width: int, height: int) -> Seq<u16> {
    classify_seq(grid_quads(pixels, width, height))
}

/// Returns the number of cells a `width` x `height` mask needs:
/// `(width + 1) * (height + 1)`, or 0 when either dimension is 0.
#[must_use]
pub fn capacity(width: usize, height: usize) -> (r: usize)
    requires
        width == 0 || height == 0 || (width + 1) * (height + 1) <= usize::MAX,
    ensures
        r == mask_capacity(width as int, height as int),
{
    if width == 0 || height == 0 {
        0
    } else {
        proof {
            assert((width + 1) * (height + 1) >= width + 1 && (width + 1) * (height + 1) >= height
                + 1) by (nonlinear_arith)
                requires
                    width >= 1 && height >= 1,
            ;
        }
        (width + 1) * (height + 1)
    }
}

/// A row/column pair below given bounds maps to a unique flat index and back.
pub(crate) proof fn lemma_rowcol(n: int, r: int, c: int)
    requires
        n >= 1,
        0 <= c < n,
        0 <= r,
    ensures
        (r * n + c) / n == r,
        (r * n + c) % n == c,
{
    vstd::arithmetic::div_mod::lemma_fundamental_div_mod_converse(r * n + c, n, r, c);
}

/// A flat index below `n * rows` decomposes into a row below `rows` and a
/// column below `n`.
pub(crate) proof fn lemma_cell_coords(n: int, rows: int, i: int)
    requires
        n >= 1,
        0 <= i < n * rows,
    ensures
        0 <= i / n < rows,
        0 <= i % n < n,
        i == (i / n) * n + (i % n),
{
    vstd::arithmetic::div_mod::lemma_fundamental_div_mod(i, n);
    vstd::arithmetic::div_mod::lemma_mod_bound(i, n);
    assert((i / n) * n == n * (i / n)) by (nonlinear_arith);
    assert(i / n < rows) by (nonlinear_arith)
        requires
            n >= 1,
            i < n * rows,
            i == n * (i / n) + (i % n),
            0 <= i % n < n,
    ;
}

/// A grid coordinate pair within the mask's bounds yields a cell index
/// within the buffer's capacity.
proof fn lemma_grid_bounds(w: int, h: int, gr: int, gc: int)
    by (nonlinear_arith)
    requires
        w >= 1,
        h >= 1,
        0 <= gr <= h,
        0 <= gc <= w,
    ensures
        0 <= gr * (w + 1) + gc < (w + 1) * (h + 1),
        (gr + 1) * (w + 1) == gr * (w + 1) + w + 1,
{
}

/// Two raster indices agree only when their row/column pairs do.
pub(crate) proof fn lemma_raster_unique(w: int, r1: int, c1: int, r2: int, c2: int)
    requires
        w >= 1,
        0 <= c1 < w,
        0 <= c2 < w,
        0 <= r1,
        0 <= r2,
        r1 * w + c1 == r2 * w + c2,
    ensures
        r1 == r2,
        c1 == c2,
{
    lemma_rowcol(w, r1, c1);
    lemma_rowcol(w, r2, c2);
}

/// OR-ing a quadrant flag into a 4-bit field that does not hold it yet is
/// the same as adding it.
proof fn lemma_or_flags(a: u16, b: u16, c: u16, d: u16)
    by (bit_vector)
    requires
        a <= 1,
        b <= 1,
        c <= 1,
        d <= 1,
    ensures
        a == 0 ==> (((a + 2 * b + 4 * c + 8 * d) as u16) | 1) == (1 + 2 * b + 4 * c + 8
            * d) as u16,
        b == 0 ==> (((a + 2 * b + 4 * c + 8 * d) as u16) | 2) == (a + 2 + 4 * c + 8 * d) as u16,
        d == 0 ==> (((a + 2 * b + 4 * c + 8 * d) as u16) | 8) == (a + 2 * b + 4 * c + 8) as u16,
{
}

/// Rasterising one more pixel leaves every grid point untouched, except the
/// four corners of that pixel when it is filled.
proof fn lemma_quads_step(
    px: Seq<bool>,
    w: int,
    h: int,
    row: int,
    col: int,
    gr: int,
    gc: int,
)
    requires
        w >= 1,
        h >= 1,
        0 <= col < w,
        0 <= row < h,
        0 <= gr,
        0 <= gc <= w,
        !pixel_at(px, w, h, row, col) || !((gr == row && gc == col) || (gr == row && gc == col + 1)
            || (gr == row + 1 && gc == col) || (gr == row + 1 && gc == col + 1)),
    ensures
        quads_upto(px, w, h, gr, gc, row * w + col + 1) == quads_upto(
            px,
            w,
            h,
            gr,
            gc,
            row * w + col,
        ),
{
    let k = row * w + col;
    if pixel_at(px, w, h, gr, gc - 1) && gr * w + (gc - 1) == k {
        lemma_raster_unique(w, gr, gc - 1, row, col);
    }
    if pixel_at(px, w, h, gr, gc) && gr * w + gc == k {
        lemma_raster_unique(w, gr, gc, row, col);
    }
    if pixel_at(px, w, h, gr - 1, gc - 1) && (gr - 1) * w + (gc - 1) == k {
        lemma_raster_unique(w, gr - 1, gc - 1, row, col);
    }
    if pixel_at(px, w, h, gr - 1, gc) && (gr - 1) * w + gc == k {
        lemma_raster_unique(w, gr - 1, gc, row, col);
    }
}

/// Rasterising a filled pixel sets one quadrant flag in each of the pixel's
/// four corner grid points; the bottom-right corner is touched for the first
/// time, so its old field is all clear.
proof fn lemma_quads_hit(px: Seq<bool>, w: int, h: int, row: int, col: int)
    requires
        w >= 1,
        h >= 1,
        0 <= col < w,
        0 <= row < h,
        pixel_at(px, w, h, row, col),
    ensures
        quads_upto(px, w, h, row, col, row * w + col + 1) == (quads_upto(
            px,
            w,
            h,
            row,
            col,
            row * w + col,
        ) | BOTTOM_RIGHT),
        quads_upto(px, w, h, row, col + 1, row * w + col + 1) == (quads_upto(
            px,
            w,
            h,
            row,
            col + 1,
            row * w + col,
        ) | BOTTOM_LEFT),
        quads_upto(px, w, h, row + 1, col, row * w + col + 1) == (quads_upto(
            px,
            w,
            h,
            row + 1,
            col,
            row * w + col,
        ) | TOP_RIGHT),
        quads_upto(px, w, h, row + 1, col, row * w + col) < 16,
        quads_upto(px, w, h, row + 1, col + 1, row * w + col) == EMPTY,
        quads_upto(px, w, h, row + 1, col + 1, row * w + col + 1) == TOP_LEFT,
{
    let k = row * w + col;
    // Pixels in earlier rows, or to the left in this row, have raster index
    // below k; the pixel itself has index k; everything else lies beyond.
    assert forall|r: int, c: int| 0 <= r && 0 <= c < w && #[trigger] (r * w + c) == k implies r
        == row && c == col by {
        lemma_raster_unique(w, r, c, row, col);
    }
    assert((row + 1) * w + col == k + w && (row + 1) * w + (col - 1) == k + w - 1 && (row + 1) * w
        + (col + 1) == k + w + 1 && (row - 1) * w + col == k - w && (row - 1) * w + (col + 1) == k
        - w + 1) by (nonlinear_arith)
        requires
            k == row * w + col,
    ;
    // Corner (row, col): the bottom-right flag appears.
    {
        let a: u16 = if pixel_before(px, w, h, row, col - 1, k) { 1 } else { 0 };
        let c4: u16 = if pixel_before(px, w, h, row - 1, col - 1, k) { 1 } else { 0 };
        let d: u16 = if pixel_before(px, w, h, row - 1, col, k) { 1 } else { 0 };
        lemma_or_flags(a, 0, c4, d);
        assert(quads_upto(px, w, h, row, col, k) == (a + 4 * c4 + 8 * d) as u16);
        assert(quads_upto(px, w, h, row, col, k + 1) == (a + 2 + 4 * c4 + 8 * d) as u16);
    }
    // Corner (row, col + 1): the bottom-left flag appears.
    {
        let c4: u16 = if pixel_before(px, w, h, row - 1, col, k) { 1 } else { 0 };
        let d: u16 = if pixel_before(px, w, h, row - 1, col + 1, k) { 1 } else { 0 };
        lemma_or_flags(0, 0, c4, d);
        assert(quads_upto(px, w, h, row, col + 1, k) == (4 * c4 + 8 * d) as u16);
        assert(quads_upto(px, w, h, row, col + 1, k + 1) == (1 + 4 * c4 + 8 * d) as u16);
    }
    // Corner (row + 1, col): the top-right flag appears.
    {
        let c4: u16 = if pixel_before(px, w, h, row, col - 1, k) { 1 } else { 0 };
        lemma_or_flags(0, 0, c4, 0);
        assert(quads_upto(px, w, h, row + 1, col, k) == (4 * c4) as u16);
        assert(quads_upto(px, w, h, row + 1, col, k + 1) == (4 * c4 + 8) as u16);
    }
    // Corner (row + 1, col + 1): first touch, so the old field is clear.
    assert(quads_upto(px, w, h, row + 1, col + 1, k) == EMPTY);
    assert(quads_upto(px, w, h, row + 1, col + 1, k + 1) == TOP_LEFT);
}

/// Resets every cell of the buffer to `EMPTY`, so that the first pass can
/// accumulate quadrant flags into clean cells.
pub fn clear(cells: &mut Vec<Cell>)
    ensures
        final(cells).len() == old(cells).len(),
        forall|i: int| 0 <= i < final(cells).len() ==> final(cells)@[i].0 == EMPTY,
{
    let n = cells.len();
    let mut i: usize = 0;
    while i < n
        invariant
            n == cells.len(),
            i <= n,
            forall|j: int| 0 <= j < i ==> cells@[j].0 == EMPTY,
        decreases n - i,
    {
        cells[i] = Cell(EMPTY);
        i = i + 1;
    }
}

/// First pass: walks the pixel sequence in raster order and accumulates, per
/// grid point, which of its four surrounding pixel quadrants are filled. At
/// most `width * height` pixels are consumed; a shorter sequence counts as
/// padded with empty pixels. The bottom-right corner cell of each filled
/// pixel is overwritten rather than OR'd: raster order guarantees that cell
/// is touched there for the first time.
fn first_pass(cells: &mut Vec<Cell>, width: usize, height: usize, pixels: &Vec<bool>)
    requires
        1 <= width,
        1 <= height,
        (width + 1) * (height + 1) <= usize::MAX,
        old(cells).len() >= (width + 1) * (height + 1),
        forall|i: int| 0 <= i < old(cells).len() ==> old(cells)@[i].0 == EMPTY,
    ensures
        final(cells).len() == old(cells).len(),
        forall|gr: int, gc: int|
            0 <= gr <= height && 0 <= gc <= width ==> #[trigger] final(cells)@[gr * (width + 1)
                + gc].0 == quads(pixels@, width as int, height as int, gr, gc),
        forall|i: int|
            (width + 1) * (height + 1) <= i < final(cells).len() ==> final(cells)@[i].0 == EMPTY,
{
    let ghost w = width as int;
    let ghost h = height as int;
    let ghost cap = (w + 1) * (h + 1);
    proof {
        assert(w * h < cap && cap >= w + 2) by (nonlinear_arith)
            requires
                w >= 1 && h >= 1 && cap == (w + 1) * (h + 1),
        ;
    }
    let wh = width * height;
    let pcount = if pixels.len() < wh {
        pixels.len()
    } else {
        wh
    };
    let mut k: usize = 0;
    let mut cell_index: usize = 0;
    let mut column_index: usize = 0;
    let ghost mut row: int = 0;
    proof {
        assert forall|gr: int, gc: int| 0 <= gr <= h && 0 <= gc <= w implies #[trigger] cells@[gr
            * (w + 1) + gc].0 == quads_upto(pixels@, w, h, gr, gc, 0) by {
            lemma_grid_bounds(w, h, gr, gc);
        }
    }
    while k < pcount
        invariant
            1 <= width,
            1 <= height,
            w == width as int,
            h == height as int,
            cap == (w + 1) * (h + 1),
            cap <= usize::MAX,
            w * h < cap,
            wh == width * height,
            pcount <= wh,
            pcount <= pixels.len(),
            pcount == if pixels.len() < wh {
                pixels.len() as int
            } else {
                wh as int
            },
            k <= pcount,
            cells.len() >= cap,
            0 <= column_index < width,
            0 <= row,
            k == row * w + column_index,
            cell_index == row * (w + 1) + column_index,
            forall|gr: int, gc: int|
                0 <= gr <= h && 0 <= gc <= w ==> #[trigger] cells@[gr * (w + 1) + gc].0
                    == quads_upto(pixels@, w, h, gr, gc, k as int),
            forall|i: int| cap <= i < cells.len() ==> cells@[i].0 == EMPTY,
            cells.len() == old(cells).len(),
        decreases pcount - k,
    {
        proof {
            assert(row < h) by (nonlinear_arith)
                requires
                    k == row * w + column_index,
                    0 <= column_index < w,
                    k < w * h,
                    0 <= row,
                    w >= 1,
            ;
            assert((row + 1) * (w + 1) + column_index + 1 < cap) by (nonlinear_arith)
                requires
                    0 <= row < h,
                    0 <= column_index < w,
                    cap == (w + 1) * (h + 1),
            ;
            lemma_grid_bounds(w, h, row, column_index as int);
        }
        let pixel = pixels[k];
        if pixel {
            proof {
                lemma_quads_hit(pixels@, w, h, row, column_index as int);
                lemma_rowcol(w + 1, row, column_index as int);
                lemma_rowcol(w + 1, row, column_index + 1);
                lemma_rowcol(w + 1, row + 1, column_index as int);
                lemma_rowcol(w + 1, row + 1, column_index + 1);
            }
            let c0 = cells[cell_index].0;
            cells[cell_index] = Cell(c0 | BOTTOM_RIGHT);
            let c1 = cells[cell_index + 1].0;
            cells[cell_index + 1] = Cell(c1 | BOTTOM_LEFT);
            let c2 = cells[cell_index + 1 + width].0;
            cells[cell_index + 1 + width] = Cell(c2 | TOP_RIGHT);
            cells[cell_index + 2 + width] = Cell(TOP_LEFT);
        }
        proof {
            let krow = row;
            let kcol = column_index as int;
            assert forall|gr: int, gc: int| 0 <= gr <= h && 0 <= gc <= w implies #[trigger] cells@[
                gr * (w + 1) + gc].0 == quads_upto(pixels@, w, h, gr, gc, k + 1) by {
                lemma_grid_bounds(w, h, gr, gc);
                if pixel_at(pixels@, w, h, krow, kcol) && ((gr == krow && gc == kcol) || (gr == krow
                    && gc == kcol + 1) || (gr == krow + 1 && gc == kcol) || (gr == krow + 1 && gc
                    == kcol + 1)) {
                    assert(gr * (w + 1) + gc == cell_index || gr * (w + 1) + gc == cell_index + 1
                        || gr * (w + 1) + gc == cell_index + 1 + w || gr * (w + 1) + gc
                        == cell_index + 2 + w);
                } else {
                    lemma_quads_step(pixels@, w, h, krow, kcol, gr, gc);
                    if pixel {
                        assert(gr * (w + 1) + gc != cell_index && gr * (w + 1) + gc != cell_index
                            + 1 && gr * (w + 1) + gc != cell_index + 1 + w && gr * (w + 1) + gc
                            != cell_index + 2 + w) by {
                            lemma_rowcol(w + 1, gr, gc);
                            lemma_rowcol(w + 1, krow, kcol);
                            lemma_rowcol(w + 1, krow, kcol + 1);
                            lemma_rowcol(w + 1, krow + 1, kcol);
                            lemma_rowcol(w + 1, krow + 1, kcol + 1);
                        }
                    }
                }
            }
        }
        if column_index + 1 == width {
            cell_index = cell_index + 2;
            column_index = 0;
            proof {
                row = row + 1;
                assert(row * (w + 1) == (row - 1) * (w + 1) + (w + 1) && row * w == (row - 1) * w
                    + w) by (nonlinear_arith);
            }
        } else {
            cell_index = cell_index + 1;
            column_index = column_index + 1;
        }
        k = k + 1;
    }
    proof {
        assert forall|gr: int, gc: int| 0 <= gr <= h && 0 <= gc <= w implies #[trigger] cells@[gr
            * (w + 1) + gc].0 == quads(pixels@, w, h, gr, gc) by {
            lemma_grid_bounds(w, h, gr, gc);
            assert(quads_upto(pixels@, w, h, gr, gc, pcount as int) == quads_upto(
                pixels@,
                w,
                h,
                gr,
                gc,
                w * h,
            )) by {
                assert forall|r: int, c: int| 0 <= r < h && 0 <= c < w implies #[trigger] (r * w
                    + c) < w * h by {
                    assert(r * w + c < w * h) by (nonlinear_arith)
                        requires
                            0 <= r < h && 0 <= c < w,
                    ;
                }
            }
        }
    }
}

/// Encoding a vertex identifier: shifting left by one doubles it, and the
/// saddle marker sets the freed low bit.
proof fn lemma_encode(v: u16)
    by (bit_vector)
    requires
        v <= 0x7fff,
    ensures
        (v << 1) == (2 * v) as u16,
        ((v << 1) ^ 1) == (2 * v + 1) as u16,
{
}

/// The number of vertices among the first `k` cells depends only on those
/// cells.
proof fn lemma_vertex_count_prefix(a: Seq<u16>, b: Seq<u16>, k: int)
    requires
        forall|j: int| 0 <= j < k ==> a[j] == b[j],
    ensures
        vertex_count(a, k) == vertex_count(b, k),
    decreases k,
{
    if k > 0 {
        lemma_vertex_count_prefix(a, b, k - 1);
    }
}

/// Second pass: walks every cell once and replaces its quadrant field with
/// its classification: `EMPTY`, or the next vertex identifier shifted left
/// by one, with the low bit set on a saddle.
fn second_pass(cells: &mut Vec<Cell>)
    requires
        old(cells).len() < 0x8000,
    ensures
        final(cells).len() == old(cells).len(),
        vals(final(cells)@) == classify_seq(vals(old(cells)@)),
{
    let ghost qs = vals(old(cells)@);
    let n = cells.len();
    let mut vertex_index: u16 = 1;
    let mut i: usize = 0;
    while i < n
        invariant
            n == cells.len(),
            n == old(cells).len(),
            n < 0x8000,
            i <= n,
            qs == vals(old(cells)@),
            vertex_index == 1 + vertex_count(qs, i as int),
            vertex_index <= 1 + i,
            forall|j: int|
                0 <= j < i ==> #[trigger] cells@[j].0 == class_val(
                    qs[j],
                    1 + vertex_count(qs, j),
                ),
            forall|j: int| i <= j < n ==> #[trigger] cells@[j].0 == qs[j],
        decreases n - i,
    {
        let q = cells[i].0;
        proof {
            lemma_encode(vertex_index);
        }
        if q == BOTTOM_LEFT || q == BOTTOM_RIGHT || q == TOP_LEFT || q == TOP_RIGHT || q
            == BOTTOM_LEFT + BOTTOM_RIGHT + TOP_LEFT || q == BOTTOM_RIGHT + TOP_LEFT + TOP_RIGHT
            || q == TOP_LEFT + TOP_RIGHT + BOTTOM_LEFT || q == TOP_RIGHT + BOTTOM_LEFT
            + BOTTOM_RIGHT {
            cells[i] = Cell(vertex_index << 1);
            vertex_index = vertex_index + 1;
        } else if q == BOTTOM_LEFT + TOP_RIGHT || q == BOTTOM_RIGHT + TOP_LEFT {
            cells[i] = Cell((vertex_index << 1) ^ DOUBLE);
            vertex_index = vertex_index + 1;
        } else {
            cells[i] = Cell(EMPTY);
        }
        i = i + 1;
    }
    proof {
        assert(vals(cells@) =~= classify_seq(qs));
    }
}

/// Runs the two passes: rasterisation, then classification. The buffer must
/// have been cleared and must hold at least `capacity(width, height)` cells;
/// at most `width * height` pixels are consumed, and a shorter sequence
/// counts as padded with empty pixels.
pub fn set(cells: &mut Vec<Cell>, width: usize, height: usize, pixels: &Vec<bool>)
    requires
        old(cells).len() >= mask_capacity(width as int, height as int),
        old(cells).len() < 0x8000,
        forall|i: int| 0 <= i < old(cells).len() ==> old(cells)@[i].0 == EMPTY,
    ensures
        final(cells).len() == old(cells).len(),
        forall|i: int|
            0 <= i < mask_capacity(width as int, height as int) ==> #[trigger] final(cells)@[i].0
                == mask_classified(pixels@, width as int, height as int)[i],
        forall|i: int|
            mask_capacity(width as int, height as int) <= i < final(cells).len()
                ==> final(cells)@[i].0 == EMPTY,
{
    let ghost w = width as int;
    let ghost h = height as int;
    let ghost cap = mask_capacity(w, h);
    let ghost gq = grid_quads(pixels@, w, h);
    if width != 0 && height != 0 {
        proof {
            assert((width + 1) * (height + 1) <= usize::MAX) by (nonlinear_arith)
                requires
                    w == width as int && h == height as int && w >= 1 && h >= 1 && (w + 1) * (h + 1)
                        < 0x8000,
            ;
        }
        first_pass(cells, width, height, pixels);
        proof {
            assert forall|i: int| 0 <= i < cells.len() implies #[trigger] vals(cells@)[i] == (
            if i < cap {
                gq[i]
            } else {
                EMPTY
            }) by {
                if i < cap {
                    lemma_cell_coords(w + 1, h + 1, i);
                    let gr = i / (w + 1);
                    let gc = i % (w + 1);
                    assert(cells@[gr * (w + 1) + gc].0 == quads(pixels@, w, h, gr, gc));
                }
            }
        }
    }
    let ghost qs = vals(cells@);
    second_pass(cells);
    proof {
        assert forall|i: int| 0 <= i < cap implies #[trigger] vals(cells@)[i] == mask_classified(
            pixels@,
            w,
            h,
        )[i] by {
            lemma_vertex_count_prefix(qs, gq, i);
        }
        assert forall|i: int| cap <= i < cells.len() implies #[trigger] vals(cells@)[i]
            == EMPTY by {
            assert(qs[i] == EMPTY);
        }
        assert(forall|i: int|
            0 <= i < cells.len() ==> #[trigger] cells@[i].0 == vals(cells@)[i]);
    }
}

/// The (column, row) pairs of the vertices among the first `k` cells of a
/// classified grid with `ncols` columns, in scan order.
pub open spec fn vertex_positions_upto(cs: Seq<u16>, ncols: int, k: int) -> Seq<(u16, u16)>
    decreases k,
{
    if k <= 0 {
        Seq::empty()
    } else {
        let rest = vertex_positions_upto(cs, ncols, k - 1);
        if cs[k - 1] != EMPTY {
            rest.push((((k - 1) % ncols) as u16, ((k - 1) / ncols) as u16))
        } else {
            rest
        }
    }
}

/// Every vertex's (column, row) pair, one per non-empty classified cell, in
/// scan order: what the vertex traversal yields.
pub open spec fn vertex_positions(cs: Seq<u16>, ncols: int) -> Seq<(u16, u16)> {
    vertex_positions_upto(cs, ncols, cs.len() as int)
}

/// The pairing state machine's next pending identifier after reading one
/// classified cell: an empty cell changes nothing, a first crossing becomes
/// pending, a simple crossing closes the pending segment, and a saddle both
/// closes it and stays pending.
pub open spec fn step_prev(prev: u16, c: u16) -> u16 {
    if c == EMPTY {
        prev
    } else if prev == EMPTY {
        c / 2
    } else if c % 2 == 1 {
        c / 2
    } else {
        EMPTY
    }
}

/// The edge pair the state machine emits on reading one classified cell:
/// the pending identifier and this cell's identifier, both as 0-based vertex
/// indices.
pub open spec fn step_emit(prev: u16, c: u16) -> Seq<(u16, u16)> {
    if c != EMPTY && prev != EMPTY {
        seq![((prev - 1) as u16, (c / 2 - 1) as u16)]
    } else {
        Seq::empty()
    }
}

/// The pending identifier after the state machine has read the first `k`
/// cells.
pub open spec fn scan_prev(cs: Seq<u16>, k: int) -> u16
    decreases k,
{
    if k <= 0 {
        EMPTY
    } else {
        step_prev(scan_prev(cs, k - 1), cs[k - 1])
    }
}

/// All edge pairs the state machine emits over the first `k` cells.
pub open spec fn scan_pairs(cs: Seq<u16>, k: int) -> Seq<(u16, u16)>
    decreases k,
{
    if k <= 0 {
        Seq::empty()
    } else {
        scan_pairs(cs, k - 1) + step_emit(scan_prev(cs, k - 1), cs[k - 1])
    }
}

/// The horizontal edge set: the state machine run over the whole grid in
/// row-major scan order.
pub open spec fn horizontal_pairs(cs: Seq<u16>) -> Seq<(u16, u16)> {
    scan_pairs(cs, cs.len() as int)
}

/// The cells of a rectangular grid reordered column-major: column by column,
/// top to bottom within each column.
pub open spec fn column_major(cs: Seq<u16>, ncols: int, nrows: int) -> Seq<u16> {
    Seq::new((ncols * nrows) as nat, |j: int| cs[(j % nrows) * ncols + j / nrows])
}

/// The vertical edge set: the same state machine run over the grid in
/// column-major order.
pub open spec fn vertical_pairs(cs: Seq<u16>, ncols: int, nrows: int) -> Seq<(u16, u16)> {
    scan_pairs(column_major(cs, ncols, nrows), ncols * nrows)
}

/// Decoding a classified cell: the identifier is the value shifted right by
/// one, and the saddle marker is its low bit.
proof fn lemma_decode(c: u16)
    by (bit_vector)
    ensures
        (c >> 1) == c / 2,
        (c & 1 != 0) <==> (c % 2 == 1),
{
}

/// One step of the shared pairing primitive: feeds one classified cell to
/// the pending/predecessor state machine and returns the emitted edge pair,
/// if any.
fn next_index_pair(maybe_prev_index: &mut u16, cell: u16) -> (r: Option<(u16, u16)>)
    requires
        cell == EMPTY || cell >= 2,
    ensures
        *final(maybe_prev_index) == step_prev(*old(maybe_prev_index), cell),
        (match r {
            Option::Some(p) => seq![p],
            Option::None => Seq::<(u16, u16)>::empty(),
        }) == step_emit(*old(maybe_prev_index), cell),
{
    proof {
        lemma_decode(cell);
    }
    if cell == EMPTY {
        None
    } else {
        let index = cell >> 1;
        if *maybe_prev_index == EMPTY {
            *maybe_prev_index = index;
            None
        } else if cell & DOUBLE != 0 {
            let prev = *maybe_prev_index;
            *maybe_prev_index = index;
            Some((prev - 1, index - 1))
        } else {
            let prev = *maybe_prev_index;
            *maybe_prev_index = EMPTY;
            Some((prev - 1, index - 1))
        }
    }
}

/// The vertex traversal: yields each vertex's (column, row) grid coordinates
/// in scan order, one per vertex identifier assigned by the second pass.
pub struct Vertices {
    items: Vec<(u16, u16)>,
    pos: usize,
}

impl Vertices {
    /// The coordinate pairs this traversal has not yet yielded.
    pub closed spec fn remaining(&self) -> Seq<(u16, u16)> {
        if self.pos <= self.items.len() {
            self.items@.skip(self.pos as int)
        } else {
            Seq::empty()
        }
    }

    /// Yields the next vertex's (column, row) pair, or `None` once every
    /// vertex has been yielded.
    pub fn next(&mut self) -> (r: Option<(u16, u16)>)
        ensures
            old(self).remaining().len() == 0 ==> r is None && final(self).remaining()
                == old(self).remaining(),
            old(self).remaining().len() > 0 ==> r == Some(old(self).remaining()[0])
                && final(self).remaining() == old(self).remaining().drop_first(),
    {
        if self.pos < self.items.len() {
            let item = self.items[self.pos];
            self.pos = self.pos + 1;
            proof {
                assert(final(self).remaining() =~= old(self).remaining().drop_first());
            }
            Some(item)
        } else {
            None
        }
    }

    /// Bounds on how many pairs are still to come, in the shape of
    /// `Iterator::size_hint`: zero lower bound, exact upper bound.
    pub fn size_hint(&self) -> (r: (usize, Option<usize>))
        ensures
            r.0 == 0,
            r.1 == Some(self.remaining().len() as usize),
    {
        if self.pos <= self.items.len() {
            (0, Some(self.items.len() - self.pos))
        } else {
            (0, Some(0))
        }
    }
}

/// The horizontal edge traversal: yields 0-based vertex index pairs produced
/// by the pairing state machine in row-major scan order.
pub struct HorizontalIndices {
    items: Vec<(u16, u16)>,
    pos: usize,
}

impl HorizontalIndices {
    /// The index pairs this traversal has not yet yielded.
    pub closed spec fn remaining(&self) -> Seq<(u16, u16)> {
        if self.pos <= self.items.len() {
            self.items@.skip(self.pos as int)
        } else {
            Seq::empty()
        }
    }

    /// Yields the next horizontal edge's index pair, or `None` once done.
    pub fn next(&mut self) -> (r: Option<(u16, u16)>)
        ensures
            old(self).remaining().len() == 0 ==> r is None && final(self).remaining()
                == old(self).remaining(),
            old(self).remaining().len() > 0 ==> r == Some(old(self).remaining()[0])
                && final(self).remaining() == old(self).remaining().drop_first(),
    {
        if self.pos < self.items.len() {
            let item = self.items[self.pos];
            self.pos = self.pos + 1;
            proof {
                assert(final(self).remaining() =~= old(self).remaining().drop_first());
            }
            Some(item)
        } else {
            None
        }
    }

    /// Bounds on how many pairs are still to come, in the shape of
    /// `Iterator::size_hint`: zero lower bound, exact upper bound.
    pub fn size_hint(&self) -> (r: (usize, Option<usize>))
        ensures
            r.0 == 0,
            r.1 == Some(self.remaining().len() as usize),
    {
        if self.pos <= self.items.len() {
            (0, Some(self.items.len() - self.pos))
        } else {
            (0, Some(0))
        }
    }
}

/// The vertical edge traversal: yields 0-based vertex index pairs produced
/// by the pairing state machine in column-major order.
pub struct VerticalIndices {
    items: Vec<(u16, u16)>,
    pos: usize,
}

impl VerticalIndices {
    /// The index pairs this traversal has not yet yielded.
    pub closed spec fn remaining(&self) -> Seq<(u16, u16)> {
        if self.pos <= self.items.len() {
            self.items@.skip(self.pos as int)
        } else {
            Seq::empty()
        }
    }

    /// Yields the next vertical edge's index pair, or `None` once done.
    pub fn next(&mut self) -> (r: Option<(u16, u16)>)
        ensures
            old(self).remaining().len() == 0 ==> r is None && final(self).remaining()
                == old(self).remaining(),
            old(self).remaining().len() > 0 ==> r == Some(old(self).remaining()[0])
                && final(self).remaining() == old(self).remaining().drop_first(),
    {
        if self.pos < self.items.len() {
            let item = self.items[self.pos];
            self.pos = self.pos + 1;
            proof {
                assert(final(self).remaining() =~= old(self).remaining().drop_first());
            }
            Some(item)
        } else {
            None
        }
    }

    /// Bounds on how many pairs are still to come, in the shape of
    /// `Iterator::size_hint`: zero lower bound, exact upper bound.
    pub fn size_hint(&self) -> (r: (usize, Option<usize>))
        ensures
            r.0 == 0,
            r.1 == Some(self.remaining().len() as usize),
    {
        if self.pos <= self.items.len() {
            (0, Some(self.items.len() - self.pos))
        } else {
            (0, Some(0))
        }
    }
}

/// Walks the classified grid in scan order and collects every vertex's
/// (column, row) pair.
fn collect_vertices(cells: &Vec<Cell>, ncols: u16) -> (out: Vec<(u16, u16)>)
    requires
        ncols >= 1,
        cells.len() <= u16::MAX,
    ensures
        out@ == vertex_positions(vals(cells@), ncols as int),
{
    let n = cells.len();
    let mut out: Vec<(u16, u16)> = Vec::new();
    let mut i: usize = 0;
    let mut col: u16 = 0;
    let mut rowi: u16 = 0;
    while i < n
        invariant
            n == cells.len(),
            n <= u16::MAX,
            ncols >= 1,
            i <= n,
            0 <= col < ncols,
            i == rowi * ncols + col,
            out@ == vertex_positions_upto(vals(cells@), ncols as int, i as int),
        decreases n - i,
    {
        proof {
            lemma_rowcol(ncols as int, rowi as int, col as int);
        }
        if cells[i].0 != EMPTY {
            out.push((col, rowi));
        }
        if col + 1 == ncols {
            col = 0;
            rowi = rowi + 1;
            proof {
                assert(rowi * ncols == (rowi - 1) * ncols + ncols) by (nonlinear_arith);
            }
        } else {
            col = col + 1;
        }
        i = i + 1;
    }
    out
}

/// Runs the pairing state machine over the whole grid in row-major scan
/// order and collects the emitted pairs: the horizontal edge set.
fn collect_horizontal(cells: &Vec<Cell>) -> (out: Vec<(u16, u16)>)
    requires
        forall|i: int| 0 <= i < cells.len() ==> cells@[i].0 != 1,
    ensures
        out@ == horizontal_pairs(vals(cells@)),
{
    let n = cells.len();
    let mut out: Vec<(u16, u16)> = Vec::new();
    let mut maybe_prev: u16 = EMPTY;
    let mut i: usize = 0;
    while i < n
        invariant
            n == cells.len(),
            i <= n,
            forall|j: int| 0 <= j < cells.len() ==> cells@[j].0 != 1,
            maybe_prev == scan_prev(vals(cells@), i as int),
            out@ == scan_pairs(vals(cells@), i as int),
        decreases n - i,
    {
        let maybe_index_pair = next_index_pair(&mut maybe_prev, cells[i].0);
        if let Some(pair) = maybe_index_pair {
            out.push(pair);
        }
        i = i + 1;
    }
    out
}

/// Runs the pairing state machine down each column in turn and collects the
/// emitted pairs: the vertical edge set. The pending state carries over from
/// one column to the next, exactly as in the row-major walk.
fn collect_vertical(cells: &Vec<Cell>, ncols: usize) -> (out: Vec<(u16, u16)>)
    requires
        ncols >= 1,
        cells.len() == (cells.len() / ncols) * ncols,
        forall|i: int| 0 <= i < cells.len() ==> cells@[i].0 != 1,
    ensures
        out@ == vertical_pairs(vals(cells@), ncols as int, (cells.len() / ncols) as int),
{
    let n = cells.len();
    let nrows = n / ncols;
    let ghost cm = column_major(vals(cells@), ncols as int, nrows as int);
    let mut out: Vec<(u16, u16)> = Vec::new();
    let mut maybe_prev: u16 = EMPTY;
    let mut colj: usize = 0;
    proof {
        assert(cm.len() == n);
    }
    while colj < ncols
        invariant
            n == cells.len(),
            nrows == n / ncols,
            n == nrows * ncols,
            ncols >= 1,
            colj <= ncols,
            cm == column_major(vals(cells@), ncols as int, nrows as int),
            cm.len() == n,
            forall|j: int| 0 <= j < cells.len() ==> cells@[j].0 != 1,
            maybe_prev == scan_prev(cm, colj * nrows),
            out@ == scan_pairs(cm, colj * nrows),
            colj * nrows <= n,
        decreases ncols - colj,
    {
        proof {
            assert((colj + 1) * nrows == colj * nrows + nrows && colj * nrows + nrows <= n) by (
            nonlinear_arith)
                requires
                    n == nrows * ncols && colj < ncols && nrows >= 0 && colj >= 0,
            ;
        }
        let mut rowj: usize = 0;
        while rowj < nrows
            invariant
                n == cells.len(),
                nrows == n / ncols,
                n == nrows * ncols,
                ncols >= 1,
                colj < ncols,
                rowj <= nrows,
                cm == column_major(vals(cells@), ncols as int, nrows as int),
                cm.len() == n,
                forall|j: int| 0 <= j < cells.len() ==> cells@[j].0 != 1,
                maybe_prev == scan_prev(cm, colj * nrows + rowj),
                out@ == scan_pairs(cm, colj * nrows + rowj),
                colj * nrows + nrows <= n,
            decreases nrows - rowj,
        {
            let ghost j = colj * nrows + rowj;
            proof {
                lemma_rowcol(nrows as int, colj as int, rowj as int);
                assert(rowj * ncols + colj < n && (rowj as int) * (ncols as int) + colj == (j
                    % nrows as int) * ncols + j / nrows as int) by (nonlinear_arith)
                    requires
                        n == nrows * ncols && colj < ncols && rowj < nrows && j == colj * nrows
                            + rowj && j % nrows as int == rowj as int && j / nrows as int
                            == colj as int,
                ;
                assert(cm[j] == vals(cells@)[rowj * ncols + colj]);
            }
            let cell_index = rowj * ncols + colj;
            let maybe_index_pair = next_index_pair(&mut maybe_prev, cells[cell_index].0);
            if let Some(pair) = maybe_index_pair {
                out.push(pair);
            }
            rowj = rowj + 1;
        }
        colj = colj + 1;
    }
    proof {
        assert(ncols * nrows == nrows * ncols) by (nonlinear_arith);
    }
    out
}

/// Derives the three read-only traversals from a classified grid: the vertex
/// coordinates, the horizontal edge pairs, and the vertical edge pairs. The
/// buffer must hold a classified grid of `width + 1` whole rows.
#[must_use]
pub fn get(cells: &Vec<Cell>, width: usize) -> (r: (Vertices, HorizontalIndices, VerticalIndices))
    requires
        width + 1 <= u16::MAX,
        cells.len() <= u16::MAX,
        cells.len() == (cells.len() as int / (width + 1)) * (width + 1),
        forall|i: int| 0 <= i < cells.len() ==> cells@[i].0 != 1,
    ensures
        r.0.remaining() == vertex_positions(vals(cells@), width as int + 1),
        r.1.remaining() == horizontal_pairs(vals(cells@)),
        r.2.remaining() == vertical_pairs(
            vals(cells@),
            width as int + 1,
            cells.len() as int / (width as int + 1),
        ),
{
    let ncols = width + 1;
    let vertices = Vertices { items: collect_vertices(cells, ncols as u16), pos: 0 };
    let horizontal_indices = HorizontalIndices { items: collect_horizontal(cells), pos: 0 };
    let vertical_indices = VerticalIndices { items: collect_vertical(cells, ncols), pos: 0 };
    proof {
        assert(vertices.remaining() =~= vertices.items@);
        assert(horizontal_indices.remaining() =~= horizontal_indices.items@);
        assert(vertical_indices.remaining() =~= vertical_indices.items@);
    }
    (vertices, horizontal_indices, vertical_indices)
}

/// The vertex identifiers handed out over any prefix stay between 0 and the
/// prefix's length.
pub(crate) proof fn lemma_vertex_count_bounds(qs: Seq<u16>, k: int)
    ensures
        0 <= vertex_count(qs, k) <= if k >= 0 {
            k
        } else {
            0
        },
    decreases k,
{
    if k > 0 {
        lemma_vertex_count_bounds(qs, k - 1);
    }
}

/// Every classified cell is either `EMPTY` or an encoded identifier of at
/// least 2: the encoding never collides with the bare saddle marker.
pub(crate) proof fn lemma_classified_values(qs: Seq<u16>, i: int)
    requires
        qs.len() <= 0x7fff,
        0 <= i < qs.len(),
    ensures
        classify_seq(qs)[i] == EMPTY || classify_seq(qs)[i] >= 2,
{
    lemma_vertex_count_bounds(qs, i);
}

/// The combined edge traversal: every horizontal edge pair, then every
/// vertical edge pair.
pub struct Edges {
    items: Vec<(u16, u16)>,
    pos: usize,
}

impl Edges {
    /// The index pairs this traversal has not yet yielded.
    pub closed spec fn remaining(&self) -> Seq<(u16, u16)> {
        if self.pos <= self.items.len() {
            self.items@.skip(self.pos as int)
        } else {
            Seq::empty()
        }
    }

    /// Yields the next edge's index pair, or `None` once done.
    pub fn next(&mut self) -> (r: Option<(u16, u16)>)
        ensures
            old(self).remaining().len() == 0 ==> r is None && final(self).remaining()
                == old(self).remaining(),
            old(self).remaining().len() > 0 ==> r == Some(old(self).remaining()[0])
                && final(self).remaining() == old(self).remaining().drop_first(),
    {
        if self.pos < self.items.len() {
            let item = self.items[self.pos];
            self.pos = self.pos + 1;
            proof {
                assert(final(self).remaining() =~= old(self).remaining().drop_first());
            }
            Some(item)
        } else {
            None
        }
    }

    /// Bounds on how many pairs are still to come, in the shape of
    /// `Iterator::size_hint`: zero lower bound, exact upper bound.
    pub fn size_hint(&self) -> (r: (usize, Option<usize>))
        ensures
            r.0 == 0,
            r.1 == Some(self.remaining().len() as usize),
    {
        if self.pos <= self.items.len() {
            (0, Some(self.items.len() - self.pos))
        } else {
            (0, Some(0))
        }
    }
}

/// Joins the two edge traversals into one that yields every horizontal pair
/// and then every vertical pair.
pub fn chain(h: HorizontalIndices, v: VerticalIndices) -> (r: Edges)
    ensures
        r.remaining() == h.remaining() + v.remaining(),
{
    let mut h = h;
    let mut v = v;
    let ghost total = h.remaining() + v.remaining();
    let mut items: Vec<(u16, u16)> = Vec::new();
    let mut more = true;
    while more
        invariant
            more ==> items@ + h.remaining() + v.remaining() == total,
            !more ==> items@ == total,
        decreases h.remaining().len() + v.remaining().len() + if more {
            1int
        } else {
            0int
        },
    {
        match h.next() {
            Some(pair) => {
                items.push(pair);
                proof {
                    assert(items@ + h.remaining() + v.remaining() =~= total);
                }
            },
            None => {
                match v.next() {
                    Some(pair) => {
                        items.push(pair);
                        proof {
                            assert(items@ + h.remaining() + v.remaining() =~= total);
                        }
                    },
                    None => {
                        more = false;
                        proof {
                            assert(items@ =~= items@ + h.remaining() + v.remaining());
                        }
                    },
                }
            },
        }
    }
    let edges = Edges { items, pos: 0 };
    proof {
        assert(edges.remaining() =~= edges.items@);
    }
    edges
}

} // verus!
