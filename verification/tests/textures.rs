//! Tests of the texture adapter: raw RGBA bytes in, boolean mask out.

use marching_squares::algorithm::{Algorithm, IntoArgs};
use marching_squares::texture::{texture_mask, Texture, TextureKind};

#[test]
fn rgba8_alpha_decides() {
    let data = vec![
        9, 9, 9, 0, // transparent
        1, 2, 3, 4, // opaque
        0, 0, 0, 255, // opaque
    ];
    assert_eq!(
        texture_mask(TextureKind::Rgba8, &data),
        vec![false, true, true]
    );
}

#[test]
fn rgba8_partial_block_is_ignored() {
    let data = vec![0, 0, 0, 7, 1, 2];
    assert_eq!(texture_mask(TextureKind::Rgba8, &data), vec![true]);
}

#[test]
fn rgba16_alpha_decides() {
    let data = vec![
        9, 9, 9, 9, 9, 9, 0, 0, // transparent
        0, 0, 0, 0, 0, 0, 1, 0, // opaque
        0, 0, 0, 0, 0, 0, 0, 7, // opaque
    ];
    assert_eq!(
        texture_mask(TextureKind::Rgba16, &data),
        vec![false, true, true]
    );
}

#[test]
fn rgba32_alpha_decides() {
    let mut transparent = vec![9u8; 16];
    transparent[12] = 0;
    transparent[13] = 0;
    transparent[14] = 0;
    transparent[15] = 0;
    let mut opaque = vec![0u8; 16];
    opaque[14] = 3;
    let mut data = transparent;
    data.extend(opaque);
    assert_eq!(texture_mask(TextureKind::Rgba32, &data), vec![false, true]);
}

#[test]
fn empty_texture_yields_empty_mask() {
    assert_eq!(texture_mask(TextureKind::Rgba8, &Vec::new()), Vec::<bool>::new());
}

#[test]
fn texture_into_args() {
    let texture = Texture {
        kind: TextureKind::Rgba8,
        width: 2,
        height: 1,
        data: vec![0, 0, 0, 255, 0, 0, 0, 0],
    };
    let args = texture.into_args();
    assert_eq!(args.width, 2);
    assert_eq!(args.height, 1);
    assert_eq!(args.pixels, vec![true, false]);
}

#[test]
fn search_on_texture_traces_the_opaque_pixel() {
    // A 2x2 texture whose only opaque pixel sits at (row 0, column 1).
    let texture = Texture {
        kind: TextureKind::Rgba8,
        width: 2,
        height: 2,
        data: vec![
            0, 0, 0, 0, // (0, 0) transparent
            0, 0, 0, 9, // (0, 1) opaque
            0, 0, 0, 0, // (1, 0) transparent
            0, 0, 0, 0, // (1, 1) transparent
        ],
    };
    let mut algorithm = Algorithm::new();
    let (mut vertices, mut edges) = algorithm.search(texture);
    let mut coords = Vec::new();
    while let Some(pair) = vertices.next() {
        coords.push(pair);
    }
    let mut pairs = Vec::new();
    while let Some(pair) = edges.next() {
        pairs.push(pair);
    }
    assert_eq!(coords, vec![(1, 0), (2, 0), (1, 1), (2, 1)]);
    assert_eq!(pairs, vec![(0, 1), (2, 3), (0, 2), (1, 3)]);
}
