use vstd::prelude::*;
use crate::edge_code::{bit_of, lemma_bit_of_is_bit, Side, BLTR};
use crate::select::{fits, rand_tile};

verus! {

/// The code at row `y`, column `x` of a row-major grid with `cols` columns.
pub open spec fn cell(g: Seq<BLTR>, cols: int, y: int, x: int) -> BLTR {
    g[y * cols + x]
}

/// The Right edge of the cell left of (`y`, `x`) matches its Left edge.
pub open spec fn seam_left(g: Seq<BLTR>, cols: int, y: int, x: int) -> bool {
    cell(g, cols, y, x - 1).spec_edge(Side::Right) == cell(g, cols, y, x).spec_edge(Side::Left)
}

/// The Bottom edge of the cell above (`y`, `x`) matches its Top edge.
pub open spec fn seam_top(g: Seq<BLTR>, cols: int, y: int, x: int) -> bool {
    cell(g, cols, y - 1, x).spec_edge(Side::Bottom) == cell(g, cols, y, x).spec_edge(Side::Top)
}

/// A `rows` by `cols` row-major grid in which every pair of neighbours
/// agrees on the edge they share.
pub open spec fn seamless(g: Seq<BLTR>, rows: int, cols: int) -> bool {
    &&& g.len() == rows * cols
    &&& forall|y: int, x: int| 0 <= y < rows && 1 <= x < cols ==> #[trigger] seam_left(g, cols, y, x)
    &&& forall|y: int, x: int| 1 <= y < rows && 0 <= x < cols ==> #[trigger] seam_top(g, cols, y, x)
}

/// The constraint that already-placed neighbours put on a new tile: the
/// Left edge must copy the left neighbour's Right edge, and the Top edge the
/// upper neighbour's Bottom edge. Returns `(value, position)`: the required
/// bits and the mask of constrained edges.
pub fn neighbour_constraint(left: Option<BLTR>, top: Option<BLTR>) -> (r: (BLTR, BLTR))
    ensures
        r.1.spec_bits() == (if left is Some { 4u32 } else { 0u32 }) + (if top is Some {
            2u32
        } else {
            0u32
        }),
        r.0.spec_bits() == (match left {
            Some(l) => 4 * l.spec_edge(Side::Right),
            None => 0,
        }) + (match top {
            Some(t) => 2 * t.spec_edge(Side::Bottom),
            None => 0,
        }),
{
    let value_l: u32 = match left {
        Some(l) => {
            let b = l.bits();
            let v = (b & 1) << 2;
            assert(v == 4 * bit_of(b, 0) && v <= 4) by (bit_vector)
                requires
                    v == (b & 1) << 2,
            ;
            v
        },
        None => 0,
    };
    let value_t: u32 = match top {
        Some(t) => {
            let b = t.bits();
            let v = (b & 8) >> 2;
            assert(v == 2 * bit_of(b, 3) && v <= 2) by (bit_vector)
                requires
                    v == (b & 8) >> 2,
            ;
            v
        },
        None => 0,
    };
    let mask_l: u32 = if left.is_some() { 4 } else { 0 };
    let mask_t: u32 = if top.is_some() { 2 } else { 0 };
    let value = value_l | value_t;
    let mask = mask_l | mask_t;
    assert(value == value_l + value_t) by (bit_vector)
        requires
            value == value_l | value_t,
            value_l == 0 || value_l == 4,
            value_t == 0 || value_t == 2,
    ;
    assert(mask == mask_l + mask_t) by (bit_vector)
        requires
            mask == mask_l | mask_t,
            mask_l == 0 || mask_l == 4,
            mask_t == 0 || mask_t == 2,
    ;
    (BLTR::from_bits(value), BLTR::from_bits(mask))
}

/// A code that fits a neighbour constraint copies the constrained edges.
proof fn lemma_fit_copies_edges(c: u32, v: u32, m: u32, lr: u32, tb: u32, has_left: bool, has_top: bool)
    requires
        lr < 2,
        tb < 2,
        v == (if has_left { 4 * lr } else { 0 }) + (if has_top { 2 * tb } else { 0 }),
        m == (if has_left { 4int } else { 0 }) + (if has_top { 2int } else { 0 }),
        fits(c, v, m),
    ensures
        has_left ==> bit_of(c, 2) == lr,
        has_top ==> bit_of(c, 1) == tb,
{
    if has_left && has_top {
        assert(bit_of(c, 2) == lr && bit_of(c, 1) == tb) by (bit_vector)
            requires
                lr < 2,
                tb < 2,
                v == 4 * lr + 2 * tb,
                c & 6 == v & 6,
        ;
    } else if has_left {
        assert(bit_of(c, 2) == lr) by (bit_vector)
            requires
                lr < 2,
                v == 4 * lr,
                c & 4 == v & 4,
        ;
    } else if has_top {
        assert(bit_of(c, 1) == tb) by (bit_vector)
            requires
                tb < 2,
                v == 2 * tb,
                c & 2 == v & 2,
        ;
    }
}

/// A cell filled before (`y`, `x`) in row-major order lies at a smaller flat
/// index.
proof fn lemma_earlier_cell(cols: int, yy: int, xx: int, y: int, x: int)
    requires
        0 <= xx < cols,
        0 <= x,
        0 <= yy,
        yy < y || (yy == y && xx < x),
    ensures
        0 <= yy * cols + xx < y * cols + x,
{
    if yy < y {
        assert((yy + 1) * cols <= y * cols) by (nonlinear_arith)
            requires
                yy + 1 <= y,
                cols > 0,
        ;
        assert(0 <= yy * cols) by (nonlinear_arith)
            requires
                0 <= yy,
                cols > 0,
        ;
        assert((yy + 1) * cols == yy * cols + cols) by (nonlinear_arith);
    } else {
        assert(0 <= yy * cols) by (nonlinear_arith)
            requires
                0 <= yy,
                cols > 0,
        ;
    }
}

/// Fills a `rows` by `cols` grid in row-major order. Each tile is drawn at
/// random among those whose Left edge matches its left neighbour's Right edge
/// and whose Top edge matches its upper neighbour's Bottom edge, so every
/// pair of neighbours in the result agrees on their shared edge.
pub fn assemble_grid(rows: usize, cols: usize) -> (g: Vec<BLTR>)
    requires
        rows * cols <= usize::MAX,
    ensures
        seamless(g@, rows as int, cols as int),
        forall|y: int, x: int|
            0 <= y < rows && 1 <= x < cols ==> bit_of(
                #[trigger] cell(g@, cols as int, y, x - 1).spec_bits(),
                0,
            ) == bit_of(cell(g@, cols as int, y, x).spec_bits(), 2),
        forall|y: int, x: int|
            1 <= y < rows && 0 <= x < cols ==> bit_of(
                #[trigger] cell(g@, cols as int, y - 1, x).spec_bits(),
                3,
            ) == bit_of(cell(g@, cols as int, y, x).spec_bits(), 1),
{
    let mut g: Vec<BLTR> = Vec::new();
    let mut y: usize = 0;
    while y < rows
        invariant
            y <= rows,
            rows * cols <= usize::MAX,
            g.len() == y * cols,
            forall|yy: int, xx: int|
                0 <= yy < y && 1 <= xx < cols ==> #[trigger] seam_left(g@, cols as int, yy, xx),
            forall|yy: int, xx: int|
                1 <= yy < y && 0 <= xx < cols ==> #[trigger] seam_top(g@, cols as int, yy, xx),
        decreases rows - y,
    {
        let mut x: usize = 0;
        while x < cols
            invariant
                y < rows,
                x <= cols,
                rows * cols <= usize::MAX,
                g.len() == y * cols + x,
                forall|yy: int, xx: int|
                    0 <= yy && 1 <= xx < cols && (yy < y || (yy == y && xx < x))
                        ==> #[trigger] seam_left(g@, cols as int, yy, xx),
                forall|yy: int, xx: int|
                    1 <= yy && 0 <= xx < cols && (yy < y || (yy == y && xx < x))
                        ==> #[trigger] seam_top(g@, cols as int, yy, xx),
            decreases cols - x,
        {
            let n = g.len();
            assert(y * cols + x < rows * cols) by (nonlinear_arith)
                requires
                    y < rows,
                    x < cols,
            ;
            assert((y - 1) * cols + x == y * cols + x - cols) by (nonlinear_arith);
            let left = if x > 0 {
                Some(g[n - 1])
            } else {
                None
            };
            let top = if y > 0 {
                assert(y * cols >= cols) by (nonlinear_arith)
                    requires
                        y > 0,
                        cols >= 0,
                ;
                Some(g[n - cols])
            } else {
                None
            };
            let (value, position) = neighbour_constraint(left, top);
            let t = rand_tile(value, position);
            proof {
                let lr = match left {
                    Some(l) => l.spec_edge(Side::Right),
                    None => 0,
                };
                let tb = match top {
                    Some(u) => u.spec_edge(Side::Bottom),
                    None => 0,
                };
                if let Some(l) = left {
                    lemma_bit_of_is_bit(l.spec_bits(), 0);
                }
                if let Some(u) = top {
                    lemma_bit_of_is_bit(u.spec_bits(), 3);
                }
                lemma_fit_copies_edges(t.spec_bits(), value.spec_bits(), position.spec_bits(), lr, tb, left is Some, top is Some);
            }
            let ghost old_g = g@;
            g.push(t);
            proof {
                assert forall|yy: int, xx: int|
                    0 <= yy && 1 <= xx < cols && (yy < y || (yy == y && xx < x + 1))
                        implies #[trigger] seam_left(g@, cols as int, yy, xx) by {
                    lemma_earlier_cell(cols as int, yy, xx, y as int, x as int + 1);
                    lemma_earlier_cell(cols as int, yy, xx - 1, y as int, x as int);
                    if yy == y && xx == x {
                        assert(cell(g@, cols as int, yy, xx) == t);
                    } else {
                        lemma_earlier_cell(cols as int, yy, xx, y as int, x as int);
                        assert(seam_left(old_g, cols as int, yy, xx));
                    }
                }
                assert forall|yy: int, xx: int|
                    1 <= yy && 0 <= xx < cols && (yy < y || (yy == y && xx < x + 1))
                        implies #[trigger] seam_top(g@, cols as int, yy, xx) by {
                    lemma_earlier_cell(cols as int, yy, xx, y as int, x as int + 1);
                    lemma_earlier_cell(cols as int, yy - 1, xx, y as int, x as int);
                    if yy == y && xx == x {
                        assert(cell(g@, cols as int, yy, xx) == t);
                    } else {
                        lemma_earlier_cell(cols as int, yy, xx, y as int, x as int);
                        assert(seam_top(old_g, cols as int, yy, xx));
                    }
                }
            }
            x = x + 1;
        }
        assert((y + 1) * cols == y * cols + cols) by (nonlinear_arith);
        y = y + 1;
    }
    assert forall|yy: int, xx: int| 0 <= yy < rows && 1 <= xx < cols implies bit_of(
        #[trigger] cell(g@, cols as int, yy, xx - 1).spec_bits(),
        0,
    ) == bit_of(cell(g@, cols as int, yy, xx).spec_bits(), 2) by {
        assert(seam_left(g@, cols as int, yy, xx));
    }
    assert forall|yy: int, xx: int| 1 <= yy < rows && 0 <= xx < cols implies bit_of(
        #[trigger] cell(g@, cols as int, yy - 1, xx).spec_bits(),
        3,
    ) == bit_of(cell(g@, cols as int, yy, xx).spec_bits(), 1) by {
        assert(seam_top(g@, cols as int, yy, xx));
    }
    g
}

} // verus!
