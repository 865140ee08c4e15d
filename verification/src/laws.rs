//! The engine's global guarantees, proved once over the specification
//! functions that the executable contracts speak of: what degenerate and
//! uniform masks produce, what a lone pixel produces, that traversal is
//! deterministic, and the scan-order parity invariant that the edge pairing
//! rests on.

use vstd::prelude::*;

use crate::grid::{
    class_val, column_major, flag, grid_quads, horizontal_pairs, is_simple, is_vertex,
    lemma_cell_coords, lemma_raster_unique, lemma_rowcol, lemma_vertex_count_bounds,
    mask_capacity, mask_classified, pixel_at, quads, scan_pairs, scan_prev, step_prev,
    vertex_count, vertex_positions, vertex_positions_upto, vertical_pairs, EMPTY,
};

verus! {

/// The vertex traversal emits nothing over a run of empty-classified cells.
proof fn lemma_positions_zero_run(cs: Seq<u16>, ncols: int, a: int, b: int)
    requires
        0 <= a <= b <= cs.len(),
        forall|j: int| a <= j < b ==> cs[j] == EMPTY,
    ensures
        vertex_positions_upto(cs, ncols, b) == vertex_positions_upto(cs, ncols, a),
    decreases b - a,
{
    if b > a {
        lemma_positions_zero_run(cs, ncols, a, b - 1);
    }
}

/// The pairing state machine neither moves nor emits over a run of
/// empty-classified cells.
proof fn lemma_scan_zero_run(cs: Seq<u16>, a: int, b: int)
    requires
        0 <= a <= b <= cs.len(),
        forall|j: int| a <= j < b ==> cs[j] == EMPTY,
    ensures
        scan_prev(cs, b) == scan_prev(cs, a),
        scan_pairs(cs, b) == scan_pairs(cs, a),
    decreases b - a,
{
    if b > a {
        lemma_scan_zero_run(cs, a, b - 1);
        assert(scan_pairs(cs, b) =~= scan_pairs(cs, b - 1));
    }
}

/// The vertex count stays put over a run of non-vertex quadrant fields.
proof fn lemma_vertex_count_run(qs: Seq<u16>, a: int, b: int)
    requires
        0 <= a <= b,
        forall|j: int| a <= j < b ==> !is_vertex(qs[j]),
    ensures
        vertex_count(qs, b) == vertex_count(qs, a),
    decreases b - a,
{
    if b > a {
        lemma_vertex_count_run(qs, a, b - 1);
    }
}

/// A quadrant field is the sum of one flag per filled neighbouring pixel.
proof fn lemma_quads_of_pixels(px: Seq<bool>, w: int, h: int, gr: int, gc: int)
    requires
        w >= 1,
        h >= 1,
    ensures
        quads(px, w, h, gr, gc) as int == flag(pixel_at(px, w, h, gr, gc - 1)) + 2 * flag(
            pixel_at(px, w, h, gr, gc),
        ) + 4 * flag(pixel_at(px, w, h, gr - 1, gc - 1)) + 8 * flag(
            pixel_at(px, w, h, gr - 1, gc),
        ),
{
    assert forall|r: int, c: int| 0 <= r < h && 0 <= c < w implies #[trigger] (r * w + c) < w
        * h by {
        assert(r * w + c < w * h) by (nonlinear_arith)
            requires
                0 <= r < h && 0 <= c < w,
        ;
    }
}

/// A fully empty mask classifies every grid point as empty.
proof fn lemma_empty_mask_classified(px: Seq<bool>, w: int, h: int)
    requires
        forall|j: int| 0 <= j < px.len() ==> !px[j],
    ensures
        forall|i: int|
            0 <= i < mask_capacity(w, h) ==> #[trigger] mask_classified(px, w, h)[i] == EMPTY,
{
    assert forall|i: int| 0 <= i < mask_capacity(w, h) implies #[trigger] mask_classified(
        px,
        w,
        h,
    )[i] == EMPTY by {
        assert(grid_quads(px, w, h)[i] == 0);
    }
}

/// A fully empty mask (all pixels empty) yields no vertices, no horizontal
/// edges, and no vertical edges, whatever the dimensions.
pub proof fn lemma_empty_mask(px: Seq<bool>, w: int, h: int)
    requires
        w >= 0,
        h >= 0,
        forall|j: int| 0 <= j < px.len() ==> !px[j],
    ensures
        vertex_positions(mask_classified(px, w, h), w + 1) == Seq::<(u16, u16)>::empty(),
        horizontal_pairs(mask_classified(px, w, h)) == Seq::<(u16, u16)>::empty(),
        vertical_pairs(mask_classified(px, w, h), w + 1, mask_capacity(w, h) / (w + 1)) == Seq::<
            (u16, u16),
        >::empty(),
{
    let cs = mask_classified(px, w, h);
    let cap = mask_capacity(w, h);
    lemma_empty_mask_classified(px, w, h);
    lemma_positions_zero_run(cs, w + 1, 0, cap);
    lemma_scan_zero_run(cs, 0, cap);
    let nrows = cap / (w + 1);
    if w >= 1 && h >= 1 {
        assert((w + 1) * (h + 1) == (h + 1) * (w + 1)) by (nonlinear_arith);
        vstd::arithmetic::div_mod::lemma_fundamental_div_mod_converse(cap, w + 1, h + 1, 0);
        assert(nrows == h + 1);
    } else {
        vstd::arithmetic::div_mod::lemma_fundamental_div_mod_converse(0, w + 1, 0, 0);
        assert(nrows == 0);
    }
    let cm = column_major(cs, w + 1, nrows);
    assert forall|j: int| 0 <= j < cm.len() implies cm[j] == EMPTY by {
        lemma_cell_coords(nrows, w + 1, j);
        let r = j % nrows;
        let c = j / nrows;
        assert((w + 1) * nrows == nrows * (w + 1)) by (nonlinear_arith);
        assert(0 <= r * (w + 1) + c < cap) by (nonlinear_arith)
            requires
                0 <= r < nrows && 0 <= c < w + 1 && cap == nrows * (w + 1),
        ;
    }
    lemma_scan_zero_run(cm, 0, cm.len() as int);
}

/// A mask with zero width or zero height has no grid points at all, so it
/// yields no vertices and no edges whatever its pixels hold. (A filled mask
/// of positive size does produce output: its own rectangular outline.)
pub proof fn lemma_degenerate_mask(px: Seq<bool>, w: int, h: int)
    requires
        w >= 0,
        h >= 0,
        w == 0 || h == 0,
    ensures
        vertex_positions(mask_classified(px, w, h), w + 1) == Seq::<(u16, u16)>::empty(),
        horizontal_pairs(mask_classified(px, w, h)) == Seq::<(u16, u16)>::empty(),
        vertical_pairs(mask_classified(px, w, h), w + 1, mask_capacity(w, h) / (w + 1)) == Seq::<
            (u16, u16),
        >::empty(),
{
    let cs = mask_classified(px, w, h);
    vstd::arithmetic::div_mod::lemma_fundamental_div_mod_converse(0, w + 1, 0, 0);
    let cm = column_major(cs, w + 1, 0);
    assert(cm.len() == 0);
}

/// Traversal is idempotent: any two traversals derived from the same
/// classified grid without an intervening mutation yield identical
/// sequences, because each traversal equals one function of the grid alone.
pub proof fn lemma_traversal_idempotent(
    cs: Seq<u16>,
    ncols: int,
    nrows: int,
    v1: Seq<(u16, u16)>,
    v2: Seq<(u16, u16)>,
    h1: Seq<(u16, u16)>,
    h2: Seq<(u16, u16)>,
    e1: Seq<(u16, u16)>,
    e2: Seq<(u16, u16)>,
)
    requires
        v1 == vertex_positions(cs, ncols),
        v2 == vertex_positions(cs, ncols),
        h1 == horizontal_pairs(cs),
        h2 == horizontal_pairs(cs),
        e1 == vertical_pairs(cs, ncols, nrows),
        e2 == vertical_pairs(cs, ncols, nrows),
    ensures
        v1 == v2,
        h1 == h2,
        e1 == e2,
{
}

/// The pairing state machine over a grid that is empty except for two
/// adjacent simple crossings, twice: each pair closes into one edge, and
/// nothing else is emitted.
proof fn lemma_two_adjacent_pairs(cs: Seq<u16>, p1: int, p2: int)
    requires
        0 <= p1,
        p1 + 1 < p2,
        p2 + 1 < cs.len(),
        cs[p1] % 2 == 0 && cs[p1] >= 2,
        cs[p1 + 1] % 2 == 0 && cs[p1 + 1] >= 2,
        cs[p2] % 2 == 0 && cs[p2] >= 2,
        cs[p2 + 1] % 2 == 0 && cs[p2 + 1] >= 2,
        forall|j: int|
            0 <= j < cs.len() && j != p1 && j != p1 + 1 && j != p2 && j != p2 + 1 ==> cs[j]
                == EMPTY,
    ensures
        horizontal_pairs(cs) == seq![
            ((cs[p1] / 2 - 1) as u16, (cs[p1 + 1] / 2 - 1) as u16),
            ((cs[p2] / 2 - 1) as u16, (cs[p2 + 1] / 2 - 1) as u16),
        ],
{
    let n = cs.len() as int;
    lemma_scan_zero_run(cs, 0, p1);
    assert(scan_prev(cs, p1 + 1) == cs[p1] / 2);
    assert(scan_pairs(cs, p1 + 1) =~= Seq::<(u16, u16)>::empty());
    assert(scan_prev(cs, p1 + 2) == EMPTY);
    assert(scan_pairs(cs, p1 + 2) =~= seq![((cs[p1] / 2 - 1) as u16, (cs[p1 + 1] / 2 - 1) as u16)]);
    lemma_scan_zero_run(cs, p1 + 2, p2);
    assert(scan_prev(cs, p2 + 1) == cs[p2] / 2);
    assert(scan_pairs(cs, p2 + 1) =~= scan_pairs(cs, p2));
    assert(scan_prev(cs, p2 + 2) == EMPTY);
    assert(scan_pairs(cs, p2 + 2) =~= seq![
        ((cs[p1] / 2 - 1) as u16, (cs[p1 + 1] / 2 - 1) as u16),
        ((cs[p2] / 2 - 1) as u16, (cs[p2 + 1] / 2 - 1) as u16),
    ]);
    lemma_scan_zero_run(cs, p2 + 2, n);
}

/// In a mask holding exactly one filled pixel, a position is filled exactly
/// when it is that pixel's.
proof fn lemma_lone_pixel(px: Seq<bool>, w: int, h: int, r: int, c: int)
    requires
        w >= 1,
        h >= 1,
        0 <= r < h,
        0 <= c < w,
        pixel_at(px, w, h, r, c),
        forall|j: int| 0 <= j < px.len() && j != r * w + c ==> !px[j],
    ensures
        forall|r2: int, c2: int|
            #[trigger] pixel_at(px, w, h, r2, c2) <==> (r2 == r && c2 == c),
{
    assert forall|r2: int, c2: int| #[trigger] pixel_at(px, w, h, r2, c2) <==> (r2 == r && c2
        == c) by {
        if pixel_at(px, w, h, r2, c2) {
            if r2 * w + c2 == r * w + c {
                lemma_raster_unique(w, r2, c2, r, c);
            }
        }
    }
}

/// A single filled pixel in an otherwise empty mask yields exactly its four
/// corner grid points as vertices, in scan order, and exactly four edges
/// closing them into a quadrilateral loop: its two horizontal sides, then
/// its two vertical sides.
#[verifier::rlimit(100)]
pub proof fn lemma_single_pixel(px: Seq<bool>, w: int, h: int, r: int, c: int)
    requires
        w >= 1,
        h >= 1,
        mask_capacity(w, h) < 0x8000,
        0 <= r < h,
        0 <= c < w,
        pixel_at(px, w, h, r, c),
        forall|j: int| 0 <= j < px.len() && j != r * w + c ==> !px[j],
    ensures
        vertex_positions(mask_classified(px, w, h), w + 1) == seq![
            (c as u16, r as u16),
            ((c + 1) as u16, r as u16),
            (c as u16, (r + 1) as u16),
            ((c + 1) as u16, (r + 1) as u16),
        ],
        horizontal_pairs(mask_classified(px, w, h)) == seq![(0u16, 1u16), (2u16, 3u16)],
        vertical_pairs(mask_classified(px, w, h), w + 1, h + 1) == seq![(0u16, 2u16), (1u16, 3u16)],
{
    let cs = mask_classified(px, w, h);
    let gq = grid_quads(px, w, h);
    let cap = mask_capacity(w, h);
    let n = w + 1;
    let p1 = r * n + c;
    let p2 = (r + 1) * n + c;
    lemma_lone_pixel(px, w, h, r, c);
    assert(p2 == p1 + n && 0 <= p1 && p2 + 1 < cap && c + 1 <= w && r + 1 <= h) by (
    nonlinear_arith)
        requires
            0 <= r < h && 0 <= c < w && n == w + 1 && p1 == r * n + c && p2 == (r + 1) * n + c
                && cap == (w + 1) * (h + 1),
    ;
    // The quadrant fields: one flag at each corner of the pixel, nothing
    // anywhere else.
    assert forall|i: int| 0 <= i < cap implies #[trigger] gq[i] == (if i == p1 {
        2u16
    } else if i == p1 + 1 {
        1u16
    } else if i == p2 {
        8u16
    } else if i == p2 + 1 {
        4u16
    } else {
        0u16
    }) by {
        lemma_cell_coords(n, h + 1, i);
        let gr = i / n;
        let gc = i % n;
        lemma_quads_of_pixels(px, w, h, gr, gc);
        lemma_rowcol(n, r, c);
        lemma_rowcol(n, r, c + 1);
        lemma_rowcol(n, r + 1, c);
        lemma_rowcol(n, r + 1, c + 1);
    }
    // The classification: identifiers 1 to 4, at the four corners in scan
    // order, all simple crossings.
    lemma_vertex_count_run(gq, 0, p1);
    lemma_vertex_count_run(gq, p1 + 2, p2);
    lemma_vertex_count_run(gq, p2 + 2, cap);
    assert(vertex_count(gq, p1) == 0);
    assert(vertex_count(gq, p1 + 1) == 1);
    assert(vertex_count(gq, p1 + 2) == 2);
    assert(vertex_count(gq, p2) == 2);
    assert(vertex_count(gq, p2 + 1) == 3);
    assert(vertex_count(gq, p2 + 2) == 4);
    assert forall|i: int| 0 <= i < cap implies #[trigger] cs[i] == (if i == p1 {
        2u16
    } else if i == p1 + 1 {
        4u16
    } else if i == p2 {
        6u16
    } else if i == p2 + 1 {
        8u16
    } else {
        0u16
    }) by {
        if i != p1 && i != p1 + 1 && i != p2 && i != p2 + 1 {
            if i < p1 {
                lemma_vertex_count_run(gq, i, p1);
            }
            assert(!is_vertex(gq[i]));
        }
    }
    // The vertex traversal: the four corners, in scan order.
    lemma_positions_zero_run(cs, n, 0, p1);
    lemma_positions_zero_run(cs, n, p1 + 2, p2);
    lemma_positions_zero_run(cs, n, p2 + 2, cap);
    lemma_rowcol(n, r, c);
    lemma_rowcol(n, r, c + 1);
    lemma_rowcol(n, r + 1, c);
    lemma_rowcol(n, r + 1, c + 1);
    assert(vertex_positions_upto(cs, n, p1) =~= Seq::<(u16, u16)>::empty());
    assert(vertex_positions_upto(cs, n, p1 + 1) =~= seq![(c as u16, r as u16)]);
    assert(vertex_positions_upto(cs, n, p1 + 2) =~= seq![
        (c as u16, r as u16),
        ((c + 1) as u16, r as u16),
    ]);
    assert(vertex_positions_upto(cs, n, p2 + 1) =~= seq![
        (c as u16, r as u16),
        ((c + 1) as u16, r as u16),
        (c as u16, (r + 1) as u16),
    ]);
    assert(vertex_positions_upto(cs, n, p2 + 2) =~= seq![
        (c as u16, r as u16),
        ((c + 1) as u16, r as u16),
        (c as u16, (r + 1) as u16),
        ((c + 1) as u16, (r + 1) as u16),
    ]);
    assert(vertex_positions(cs, n) =~= seq![
        (c as u16, r as u16),
        ((c + 1) as u16, r as u16),
        (c as u16, (r + 1) as u16),
        ((c + 1) as u16, (r + 1) as u16),
    ]);
    // The horizontal edges: the pixel's top side, then its bottom side.
    lemma_two_adjacent_pairs(cs, p1, p2);
    // The vertical edges: the same machine over the column-major order,
    // where the four corners land as two adjacent pairs again.
    let cm = column_major(cs, n, h + 1);
    let q1 = c * (h + 1) + r;
    let q2 = (c + 1) * (h + 1) + r;
    assert(q2 == q1 + h + 1 && 0 <= q1 && q2 + 1 < cap && cap == n * (h + 1) && (h + 1) * n == n * (
    h + 1)) by (nonlinear_arith)
        requires
            0 <= r < h && 0 <= c < w && n == w + 1 && q1 == c * (h + 1) + r && q2 == (c + 1) * (h
                + 1) + r && cap == (w + 1) * (h + 1),
    ;
    assert forall|j: int| 0 <= j < cm.len() implies #[trigger] cm[j] == (if j == q1 {
        2u16
    } else if j == q1 + 1 {
        6u16
    } else if j == q2 {
        4u16
    } else if j == q2 + 1 {
        8u16
    } else {
        0u16
    }) by {
        lemma_cell_coords(h + 1, n, j);
        let jr = j % (h + 1);
        let jc = j / (h + 1);
        assert(cm[j] == cs[jr * n + jc]);
        assert(0 <= jr * n + jc < cap) by (nonlinear_arith)
            requires
                0 <= jr < h + 1 && 0 <= jc < n && cap == n * (h + 1),
        ;
        lemma_rowcol(h + 1, jc, jr);
        lemma_rowcol(h + 1, c, r);
        lemma_rowcol(h + 1, c, r + 1);
        lemma_rowcol(h + 1, c + 1, r);
        lemma_rowcol(h + 1, c + 1, r + 1);
        if jr * n + jc == p1 {
            lemma_raster_unique(n, jr, jc, r, c);
        }
        if jr * n + jc == p1 + 1 {
            lemma_raster_unique(n, jr, jc, r, c + 1);
        }
        if jr * n + jc == p2 {
            lemma_raster_unique(n, jr, jc, r + 1, c);
        }
        if jr * n + jc == p2 + 1 {
            lemma_raster_unique(n, jr, jc, r + 1, c + 1);
        }
    }
    lemma_two_adjacent_pairs(cm, q1, q2);
    assert(vertical_pairs(cs, n, h + 1) == horizontal_pairs(cm)) by {
        assert(cm.len() == n * (h + 1));
    }
    assert(horizontal_pairs(cs) =~= seq![(0u16, 1u16), (2u16, 3u16)]);
    assert(horizontal_pairs(cm) =~= seq![(0u16, 2u16), (1u16, 3u16)]);
}

/// Whether the outline runs along the horizontal grid segment between grid
/// points (`gr`, `gc`) and (`gr`, `gc + 1`): the pixels above and below
/// that segment differ.
pub open spec fn hseg(px: Seq<bool>, w: int, h: int, gr: int, gc: int) -> bool {
    pixel_at(px, w, h, gr - 1, gc) != pixel_at(px, w, h, gr, gc)
}

/// The scan-order parity invariant underlying the horizontal edge pairing:
/// after any prefix of the row-major scan of a mask's classified grid, the
/// pairing state machine holds a pending identifier exactly when the
/// outline continues through the segment to the right of the last cell
/// read. In particular the pending state is clear wherever a row ends.
pub proof fn lemma_scan_parity(px: Seq<bool>, w: int, h: int, k: int)
    requires
        w >= 1,
        h >= 1,
        mask_capacity(w, h) < 0x8000,
        0 <= k <= mask_capacity(w, h),
    ensures
        scan_prev(mask_classified(px, w, h), k) != EMPTY <==> (k > 0 && hseg(
            px,
            w,
            h,
            (k - 1) / (w + 1),
            (k - 1) % (w + 1),
        )),
    decreases k,
{
    let cs = mask_classified(px, w, h);
    let gq = grid_quads(px, w, h);
    if k > 0 {
        lemma_scan_parity(px, w, h, k - 1);
        let j = k - 1;
        lemma_cell_coords(w + 1, h + 1, j);
        let gr = j / (w + 1);
        let gc = j % (w + 1);
        lemma_quads_of_pixels(px, w, h, gr, gc);
        lemma_vertex_count_bounds(gq, j);
        assert(cs[j] == class_val(quads(px, w, h, gr, gc), 1 + vertex_count(gq, j)));
        // The previous pending state matches the segment entering this cell
        // from the left.
        if gc >= 1 {
            lemma_rowcol(w + 1, gr, gc - 1);
            assert((j - 1) / (w + 1) == gr && (j - 1) % (w + 1) == gc - 1);
        } else if j >= 1 {
            assert(gr >= 1 && j - 1 == (gr - 1) * (w + 1) + w) by (nonlinear_arith)
                requires
                    j == gr * (w + 1) && gr >= 0 && j >= 1 && w >= 1,
            ;
            lemma_rowcol(w + 1, gr - 1, w);
            assert((j - 1) / (w + 1) == gr - 1 && (j - 1) % (w + 1) == w);
        }
        assert(scan_prev(cs, j) != EMPTY <==> (pixel_at(px, w, h, gr - 1, gc - 1) != pixel_at(
            px,
            w,
            h,
            gr,
            gc - 1,
        )));
        assert(scan_prev(cs, k) == step_prev(scan_prev(cs, j), cs[j]));
    }
}

/// The number of simple crossings among the first `gc` cells of grid row
/// `gr`.
pub open spec fn row_simple_count(px: Seq<bool>, w: int, h: int, gr: int, gc: int) -> int
    decreases gc,
{
    if gc <= 0 {
        0
    } else {
        row_simple_count(px, w, h, gr, gc - 1) + if is_simple(quads(px, w, h, gr, gc - 1)) {
            1int
        } else {
            0int
        }
    }
}

/// Along any grid row, the parity of the simple crossings seen so far
/// always equals the boundary state of the segment just crossed: odd while
/// the outline runs along the row, even while it does not.
proof fn lemma_row_count_parity_upto(px: Seq<bool>, w: int, h: int, gr: int, gc: int)
    requires
        w >= 1,
        h >= 1,
        0 <= gc,
    ensures
        row_simple_count(px, w, h, gr, gc) % 2 == if hseg(px, w, h, gr, gc - 1) {
            1int
        } else {
            0int
        },
    decreases gc,
{
    if gc > 0 {
        lemma_row_count_parity_upto(px, w, h, gr, gc - 1);
        lemma_quads_of_pixels(px, w, h, gr, gc - 1);
    }
}

/// Edge-count parity: every grid row holds an even number of simple
/// crossings. A saddle opens and closes a segment at once, so with saddles
/// counted twice the total crossing count per row stays even as well.
pub proof fn lemma_row_crossings_even(px: Seq<bool>, w: int, h: int, gr: int)
    requires
        w >= 1,
        h >= 1,
        0 <= gr,
    ensures
        row_simple_count(px, w, h, gr, w + 1) % 2 == 0,
{
    lemma_row_count_parity_upto(px, w, h, gr, w + 1);
}

/// The parity corollary for whole rows: the outline crosses each grid row
/// in an even number of simple points (a saddle counting twice), so the
/// pairing state machine is back to "no pending identifier" at every row
/// boundary and the traversal needs no per-row reset.
pub proof fn lemma_row_parity(px: Seq<bool>, w: int, h: int, gr: int)
    requires
        w >= 1,
        h >= 1,
        mask_capacity(w, h) < 0x8000,
        0 <= gr <= h + 1,
    ensures
        scan_prev(mask_classified(px, w, h), gr * (w + 1)) == EMPTY,
{
    assert(0 <= gr * (w + 1) <= (w + 1) * (h + 1)) by (nonlinear_arith)
        requires
            0 <= gr <= h + 1 && w >= 1,
    ;
    lemma_scan_parity(px, w, h, gr * (w + 1));
    if gr > 0 {
        lemma_rowcol(w + 1, gr - 1, w);
        assert((gr * (w + 1) - 1) == (gr - 1) * (w + 1) + w) by (nonlinear_arith);
    }
}

} // verus!
