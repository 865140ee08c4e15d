//! Adapting a decoded texture to the engine's input: a pixel of an
//! uncompressed RGBA texture counts as filled exactly when its alpha bytes
//! are not all zero.

use vstd::prelude::*;

use crate::algorithm::{Args, IntoArgs};

verus! {

/// The supported uncompressed texture layouts, by the width of one stored
/// pixel: four bytes (8 bits per channel), eight (16 bits per channel), or
/// sixteen (32 bits per channel), each with the alpha channel stored last.
#[derive(Copy, Clone, PartialEq, Eq, Debug, Structural)]
pub enum TextureKind {
    Rgba8,
    Rgba16,
    Rgba32,
}

/// How many bytes one stored pixel of the layout occupies.
pub open spec fn block_size(kind: TextureKind) -> int {
    match kind {
        TextureKind::Rgba8 => 4,
        TextureKind::Rgba16 => 8,
        TextureKind::Rgba32 => 16,
    }
}

/// Whether the pixel stored in block `i` is filled: its alpha bytes, the
/// last channel of the block, are not all zero.
pub open spec fn block_filled(kind: TextureKind, data: Seq<u8>, i: int) -> bool {
    match kind {
        TextureKind::Rgba8 => data[4 * i + 3] != 0,
        TextureKind::Rgba16 => data[8 * i + 6] != 0 || data[8 * i + 7] != 0,
        TextureKind::Rgba32 => data[16 * i + 12] != 0 || data[16 * i + 13] != 0 || data[16 * i
            + 14] != 0 || data[16 * i + 15] != 0,
    }
}

/// The boolean pixel sequence a texture's bytes decode to, one entry per
/// whole block; a trailing partial block is ignored.
pub open spec fn texture_pixels(kind: TextureKind, data: Seq<u8>) -> Seq<bool> {
    Seq::new((data.len() as int / block_size(kind)) as nat, |i: int| block_filled(kind, data, i))
}

/// Decodes a texture's bytes into the engine's boolean pixel sequence.
pub fn texture_mask(kind: TextureKind, data: &Vec<u8>) -> (r: Vec<bool>)
    ensures
        r@ == texture_pixels(kind, data@),
{
    let block: usize = match kind {
        TextureKind::Rgba8 => 4,
        TextureKind::Rgba16 => 8,
        TextureKind::Rgba32 => 16,
    };
    let count = data.len() / block;
    proof {
        vstd::arithmetic::div_mod::lemma_fundamental_div_mod(data.len() as int, block as int);
        vstd::arithmetic::div_mod::lemma_mod_bound(data.len() as int, block as int);
    }
    let mut out: Vec<bool> = Vec::new();
    let mut i: usize = 0;
    while i < count
        invariant
            block == block_size(kind),
            count == data.len() as int / block as int,
            block * count <= data.len(),
            i <= count,
            out@.len() == i,
            forall|j: int| 0 <= j < i ==> out@[j] == block_filled(kind, data@, j),
        decreases count - i,
    {
        proof {
            assert(i * block + block <= block * count) by (nonlinear_arith)
                requires
                    0 <= i < count && block >= 1,
            ;
        }
        let base = i * block;
        let filled = match kind {
            TextureKind::Rgba8 => data[base + 3] != 0,
            TextureKind::Rgba16 => data[base + 6] != 0 || data[base + 7] != 0,
            TextureKind::Rgba32 => data[base + 12] != 0 || data[base + 13] != 0 || data[base + 14]
                != 0 || data[base + 15] != 0,
        };
        out.push(filled);
        i = i + 1;
    }
    proof {
        assert(out@ =~= texture_pixels(kind, data@));
    }
    out
}

/// A decoded texture held as plain values: its layout kind, its dimensions,
/// and its raw bytes in row-major pixel order.
pub struct Texture {
    pub kind: TextureKind,
    pub width: usize,
    pub height: usize,
    pub data: Vec<u8>,
}

impl IntoArgs for Texture {
    open spec fn spec_width(&self) -> int {
        self.width as int
    }

    open spec fn spec_height(&self) -> int {
        self.height as int
    }

    open spec fn spec_pixels(&self) -> Seq<bool> {
        texture_pixels(self.kind, self.data@)
    }

    fn into_args(self) -> (r: Args) {
        let pixels = texture_mask(self.kind, &self.data);
        Args::new(self.width, self.height, pixels)
    }
}

} // verus!
