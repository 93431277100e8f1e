use vstd::prelude::*;
use crate::edge_code::{lemma_bits_valid_and_unique, BLTR};

verus! {

/// The number of tiles per row, and of rows, in the reference atlas.
pub const ATLAS_SIDE: usize = 4;

/// The codes of the reference atlas in row-major order: every code once,
/// the tile at index `i` showing code `i`.
pub fn atlas_codes() -> (r: Vec<BLTR>)
    ensures
        r.len() == 16,
        forall|i: int| 0 <= i < 16 ==> (#[trigger] r[i]).spec_bits() == i,
        forall|c: BLTR| #[trigger] r@.contains(c),
{
    let mut r: Vec<BLTR> = Vec::new();
    let mut i: u32 = 0;
    while i < 16
        invariant
            i <= 16,
            r.len() == i,
            forall|j: int| 0 <= j < i ==> (#[trigger] r[j]).spec_bits() == j,
        decreases 16 - i,
    {
        r.push(BLTR::from_bits(i));
        i = i + 1;
    }
    assert forall|c: BLTR| #[trigger] r@.contains(c) by {
        lemma_bits_valid_and_unique(c, r[c.spec_bits() as int]);
        assert(r@[c.spec_bits() as int] == c);
    }
    r
}

/// The pixel offset of the tile at row-major position `index` in a picture
/// that holds `per_row` tiles of `tile_w` by `tile_h` pixels per row. The
/// tile lies wholly inside the picture's width, and inside its height when
/// the picture has `rows` rows.
pub fn tile_origin(index: usize, per_row: usize, rows: usize, tile_w: u32, tile_h: u32) -> (r: (
    u32,
    u32,
))
    requires
        per_row > 0,
        index < per_row * rows,
        per_row * tile_w <= u32::MAX,
        rows * tile_h <= u32::MAX,
    ensures
        r.0 == (index % per_row) * tile_w,
        r.1 == (index / per_row) * tile_h,
        r.0 + tile_w <= per_row * tile_w,
        r.1 + tile_h <= rows * tile_h,
{
    let col = index % per_row;
    let row = index / per_row;
    assert(row < rows) by (nonlinear_arith)
        requires
            per_row > 0,
            index < per_row * rows,
            row == index / per_row,
    ;
    assert((col + 1) * tile_w <= per_row * tile_w) by (nonlinear_arith)
        requires
            col < per_row,
    ;
    assert((row + 1) * tile_h <= rows * tile_h) by (nonlinear_arith)
        requires
            row < rows,
    ;
    assert((col + 1) * tile_w == col * tile_w + tile_w) by (nonlinear_arith);
    assert((row + 1) * tile_h == row * tile_h + tile_h) by (nonlinear_arith);
    let x: u32 = if tile_w == 0 {
        0
    } else {
        assert(col <= col * tile_w) by (nonlinear_arith)
            requires
                tile_w >= 1,
        ;
        (col as u32) * tile_w
    };
    let y: u32 = if tile_h == 0 {
        0
    } else {
        assert(row <= row * tile_h) by (nonlinear_arith)
            requires
                tile_h >= 1,
        ;
        (row as u32) * tile_h
    };
    (x, y)
}

} // verus!
