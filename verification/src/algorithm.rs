//! The engine entry point: a reusable grid buffer, and the argument types
//! that adapters fill in.

use vstd::prelude::*;

use crate::grid::{
    capacity, chain, get, mask_capacity, mask_classified, vals, vertex_positions,
    horizontal_pairs, vertical_pairs, lemma_classified_values, Cell, Edges, Vertices, EMPTY,
};

verus! {

/// The engine: one reusable grid buffer, resized and cleared between runs to
/// amortize allocation.
pub struct Algorithm(Vec<Cell>);

impl Algorithm {
    /// The engine's internal grid buffer.
    pub closed spec fn buffer(&self) -> Seq<Cell> {
        self.0@
    }

    /// An engine with an empty buffer.
    #[must_use]
    pub fn new() -> (r: Self)
        ensures
            r.buffer() == Seq::<Cell>::empty(),
    {
        Algorithm(Vec::new())
    }

    /// An engine whose buffer has room for a `width` x `height` mask
    /// allocated up front.
    #[must_use]
    pub fn with_capacity(width: usize, height: usize) -> (r: Self)
        requires
            width == 0 || height == 0 || (width + 1) * (height + 1) <= usize::MAX,
        ensures
            r.buffer() == Seq::<Cell>::empty(),
    {
        Algorithm(Vec::with_capacity(capacity(width, height)))
    }

    /// Runs the engine on a mask: resizes and clears the buffer, runs the two
    /// passes, and returns the vertex traversal together with the combined
    /// edge traversal (horizontal pairs, then vertical pairs). The result
    /// depends on the supplied mask alone, never on what an earlier run left
    /// in the buffer. The identifier encoding holds vertex numbers in 16
    /// bits, which bounds the grid to under 0x8000 cells.
    pub fn search<A: IntoArgs>(&mut self, args: A) -> (r: (Vertices, Edges))
        requires
            mask_capacity(args.spec_width(), args.spec_height()) < 0x8000,
            args.spec_width() + 1 <= u16::MAX,
        ensures
            r.0.remaining() == vertex_positions(
                mask_classified(args.spec_pixels(), args.spec_width(), args.spec_height()),
                args.spec_width() + 1,
            ),
            r.1.remaining() == horizontal_pairs(
                mask_classified(args.spec_pixels(), args.spec_width(), args.spec_height()),
            ) + vertical_pairs(
                mask_classified(args.spec_pixels(), args.spec_width(), args.spec_height()),
                args.spec_width() + 1,
                mask_capacity(args.spec_width(), args.spec_height()) / (args.spec_width() + 1),
            ),
            vals(final(self).buffer()) == mask_classified(
                args.spec_pixels(),
                args.spec_width(),
                args.spec_height(),
            ),
    {
        let ghost gw = args.spec_width();
        let ghost gh = args.spec_height();
        let ghost gpx = args.spec_pixels();
        let a = args.into_args();
        let width = a.width;
        let height = a.height;
        proof {
            if width != 0 && height != 0 {
                assert((width + 1) * (height + 1) <= usize::MAX) by (nonlinear_arith)
                    requires
                        width >= 1 && height >= 1 && (width as int + 1) * (height as int + 1)
                            < 0x8000,
                ;
            }
        }
        let new_len = capacity(width, height);
        self.0.clear();
        let mut filled: usize = 0;
        while filled < new_len
            invariant
                filled <= new_len,
                self.0.len() == filled,
                forall|i: int| 0 <= i < filled ==> self.0@[i].0 == EMPTY,
            decreases new_len - filled,
        {
            self.0.push(Cell(EMPTY));
            filled = filled + 1;
        }
        crate::grid::set(&mut self.0, width, height, &a.pixels);
        let ghost cs = mask_classified(gpx, gw, gh);
        proof {
            assert(vals(self.0@) =~= cs);
            assert forall|i: int| 0 <= i < self.0@.len() implies self.0@[i].0 != 1 by {
                lemma_classified_values(crate::grid::grid_quads(gpx, gw, gh), i);
                assert(self.0@[i].0 == vals(self.0@)[i]);
            }
            if width != 0 && height != 0 {
                assert((width as int + 1) * (height as int + 1) == (height as int + 1) * (
                width as int + 1)) by (nonlinear_arith);
                vstd::arithmetic::div_mod::lemma_fundamental_div_mod_converse(
                    (width as int + 1) * (height as int + 1),
                    width as int + 1,
                    height as int + 1,
                    0,
                );
            } else {
                vstd::arithmetic::div_mod::lemma_fundamental_div_mod_converse(
                    0,
                    width as int + 1,
                    0,
                    0,
                );
            }
        }
        let (vertices, horizontal_indices, vertical_indices) = get(&self.0, width);
        (vertices, chain(horizontal_indices, vertical_indices))
    }
}

/// A mask handed to the engine: a fixed width and height, and a row-major
/// pixel sequence of which at most `width * height` entries are consumed.
#[derive(Clone)]
pub struct Args {
    pub width: usize,
    pub height: usize,
    pub pixels: Vec<bool>,
}

impl Args {
    /// Packs a mask description for `Algorithm::search`.
    pub fn new(width: usize, height: usize, pixels: Vec<bool>) -> (r: Args)
        ensures
            r.width == width,
            r.height == height,
            r.pixels == pixels,
    {
        Args { width, height, pixels }
    }
}

/// An adapter that commits to a fixed width and height and a row-major
/// boolean pixel sequence.
pub trait IntoArgs: Sized {
    /// The mask width the adapter commits to.
    spec fn spec_width(&self) -> int;

    /// The mask height the adapter commits to.
    spec fn spec_height(&self) -> int;

    /// The row-major pixel sequence the adapter commits to.
    spec fn spec_pixels(&self) -> Seq<bool>;

    /// Converts the adapter's data into the engine's input format.
    fn into_args(self) -> (r: Args)
        ensures
            r.width as int == self.spec_width(),
            r.height as int == self.spec_height(),
            r.pixels@ == self.spec_pixels(),
    ;
}

impl IntoArgs for Args {
    open spec fn spec_width(&self) -> int {
        self.width as int
    }

    open spec fn spec_height(&self) -> int {
        self.height as int
    }

    open spec fn spec_pixels(&self) -> Seq<bool> {
        self.pixels@
    }

    fn into_args(self) -> (r: Args) {
        self
    }
}

} // verus!
