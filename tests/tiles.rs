use wang_tiles::edge_code::{Side, BLTR};
use wang_tiles::grid::{assemble_grid, neighbour_constraint};
use wang_tiles::layout::{atlas_codes, tile_origin, ATLAS_SIDE};
use wang_tiles::select::{candidates, pick_tile, rand_tile};

fn right(c: BLTR) -> u32 {
    c.bits() & 1
}
fn top(c: BLTR) -> u32 {
    (c.bits() >> 1) & 1
}
fn left(c: BLTR) -> u32 {
    (c.bits() >> 2) & 1
}
fn bottom(c: BLTR) -> u32 {
    (c.bits() >> 3) & 1
}

fn check_seamless(g: &[BLTR], rows: usize, cols: usize) {
    assert_eq!(g.len(), rows * cols);
    for y in 0..rows {
        for x in 0..cols {
            let here = g[y * cols + x];
            assert!(here.bits() < 16);
            if x > 0 {
                assert_eq!(right(g[y * cols + x - 1]), left(here));
            }
            if y > 0 {
                assert_eq!(bottom(g[(y - 1) * cols + x]), top(here));
            }
        }
    }
}

#[test]
fn bits_round_trip() {
    for v in 0..16u32 {
        assert_eq!(BLTR::from_bits(v).bits(), v);
    }
    assert_eq!(BLTR::from_bits(0), BLTR::Empty);
    assert_eq!(BLTR::from_bits(6), BLTR::LeftTop);
    assert_eq!(BLTR::from_bits(15), BLTR::Full);
    assert_eq!(BLTR::Bottom.bits(), 8);
}

#[test]
fn side_bit_positions() {
    assert_eq!(Side::Right.bit_index(), 0);
    assert_eq!(Side::Top.bit_index(), 1);
    assert_eq!(Side::Left.bit_index(), 2);
    assert_eq!(Side::Bottom.bit_index(), 3);
    for i in 0..4u32 {
        assert_eq!(Side::from_bit_index(i).bit_index(), i);
    }
}

#[test]
fn edge_reads_each_side() {
    let c = BLTR::TopBottom;
    assert_eq!(c.edge(Side::Right), 0);
    assert_eq!(c.edge(Side::Top), 1);
    assert_eq!(c.edge(Side::Left), 0);
    assert_eq!(c.edge(Side::Bottom), 1);
    let d = BLTR::LeftRight;
    assert_eq!(d.edge(Side::Right), 1);
    assert_eq!(d.edge(Side::Top), 0);
    assert_eq!(d.edge(Side::Left), 1);
    assert_eq!(d.edge(Side::Bottom), 0);
}

#[test]
fn candidates_are_the_fitting_codes_in_order() {
    let (c, n) = candidates(BLTR::Left, BLTR::Left);
    assert_eq!(n, 8);
    let got: Vec<u32> = c[..n].iter().map(|t| t.bits()).collect();
    assert_eq!(got, vec![4, 5, 6, 7, 12, 13, 14, 15]);

    let (c, n) = candidates(BLTR::Top, BLTR::LeftTop);
    let got: Vec<u32> = c[..n].iter().map(|t| t.bits()).collect();
    assert_eq!(got, vec![2, 3, 10, 11]);

    let (c, n) = candidates(BLTR::Empty, BLTR::Empty);
    assert_eq!(n, 16);
    for i in 0..16 {
        assert_eq!(c[i].bits(), i as u32);
    }
}

#[test]
fn full_mask_leaves_one_candidate() {
    for v in 0..16u32 {
        let (c, n) = candidates(BLTR::from_bits(v), BLTR::Full);
        assert_eq!(n, 1);
        assert_eq!(c[0].bits(), v);
    }
}

#[test]
fn pick_tile_takes_the_drawn_candidate() {
    assert_eq!(pick_tile(BLTR::Left, BLTR::Left, 0), BLTR::Left);
    assert_eq!(pick_tile(BLTR::Left, BLTR::Left, 7), BLTR::Full);
    assert_eq!(pick_tile(BLTR::Top, BLTR::LeftTop, 3), BLTR::LeftTopBottom);
    for d in 0..16usize {
        assert_eq!(pick_tile(BLTR::Full, BLTR::Empty, d).bits(), d as u32);
    }
}

#[test]
fn selector_respects_every_constraint() {
    for v in 0..16u32 {
        for m in 0..16u32 {
            for _ in 0..50 {
                let c = rand_tile(BLTR::from_bits(v), BLTR::from_bits(m));
                assert_eq!(c.bits() & m, v & m);
            }
        }
    }
}

#[test]
fn free_choice_reaches_every_code() {
    let mut seen = [false; 16];
    for _ in 0..4000 {
        seen[rand_tile(BLTR::Empty, BLTR::Empty).bits() as usize] = true;
    }
    assert!(seen.iter().all(|s| *s));
}

#[test]
fn constrained_choice_reaches_every_fitting_code() {
    let mut seen = [false; 16];
    for _ in 0..4000 {
        seen[rand_tile(BLTR::Top, BLTR::LeftTop).bits() as usize] = true;
    }
    for c in 0..16usize {
        assert_eq!(seen[c], c == 2 || c == 3 || c == 10 || c == 11);
    }
}

#[test]
fn constraint_from_neighbours() {
    let (v, m) = neighbour_constraint(None, None);
    assert_eq!((v, m), (BLTR::Empty, BLTR::Empty));
    let (v, m) = neighbour_constraint(Some(BLTR::Right), None);
    assert_eq!((v, m), (BLTR::Left, BLTR::Left));
    let (v, m) = neighbour_constraint(Some(BLTR::Left), None);
    assert_eq!((v, m), (BLTR::Empty, BLTR::Left));
    let (v, m) = neighbour_constraint(None, Some(BLTR::Bottom));
    assert_eq!((v, m), (BLTR::Top, BLTR::Top));
    let (v, m) = neighbour_constraint(Some(BLTR::Full), Some(BLTR::Full));
    assert_eq!((v, m), (BLTR::LeftTop, BLTR::LeftTop));
    let (v, m) = neighbour_constraint(Some(BLTR::LeftTopBottom), Some(BLTR::LeftRightTop));
    assert_eq!((v, m), (BLTR::Left, BLTR::LeftTop));
}

#[test]
fn grid_neighbours_agree() {
    for _ in 0..20 {
        let g = assemble_grid(20, 20);
        check_seamless(&g, 20, 20);
    }
    let g = assemble_grid(3, 7);
    check_seamless(&g, 3, 7);
    let g = assemble_grid(2, 2);
    check_seamless(&g, 2, 2);
}

#[test]
fn single_cell_grid() {
    let mut seen = [false; 16];
    for _ in 0..4000 {
        let g = assemble_grid(1, 1);
        assert_eq!(g.len(), 1);
        seen[g[0].bits() as usize] = true;
    }
    assert!(seen.iter().all(|s| *s));
}

#[test]
fn single_row_and_column_grids() {
    let g = assemble_grid(1, 30);
    check_seamless(&g, 1, 30);
    let g = assemble_grid(30, 1);
    check_seamless(&g, 30, 1);
    assert!(assemble_grid(0, 5).is_empty());
    assert!(assemble_grid(5, 0).is_empty());
}

#[test]
fn atlas_holds_every_code_once() {
    let a = atlas_codes();
    assert_eq!(a.len(), 16);
    for (i, c) in a.iter().enumerate() {
        assert_eq!(c.bits(), i as u32);
    }
    assert_eq!(ATLAS_SIDE * ATLAS_SIDE, a.len());
}

#[test]
fn tile_origins() {
    assert_eq!(tile_origin(0, 4, 4, 256, 256), (0, 0));
    assert_eq!(tile_origin(5, 4, 4, 256, 256), (256, 256));
    assert_eq!(tile_origin(15, 4, 4, 256, 256), (768, 768));
    assert_eq!(tile_origin(399, 20, 20, 256, 256), (19 * 256, 19 * 256));
    assert_eq!(tile_origin(7, 3, 5, 10, 20), (10, 40));
    assert_eq!(tile_origin(7, 3, 5, 0, 0), (0, 0));
}

#[test]
fn unmasked_value_bits_are_ignored() {
    for m in 0..16u32 {
        for v1 in 0..16u32 {
            for v2 in 0..16u32 {
                if v1 & m != v2 & m {
                    continue;
                }
                let (c1, n1) = candidates(BLTR::from_bits(v1), BLTR::from_bits(m));
                let (c2, n2) = candidates(BLTR::from_bits(v2), BLTR::from_bits(m));
                assert_eq!(n1, n2);
                assert_eq!(c1[..n1], c2[..n2]);
                for d in 0..n1 {
                    assert_eq!(
                        pick_tile(BLTR::from_bits(v1), BLTR::from_bits(m), d),
                        pick_tile(BLTR::from_bits(v2), BLTR::from_bits(m), d)
                    );
                }
            }
        }
    }
    assert_eq!(pick_tile(BLTR::Full, BLTR::Left, 0), BLTR::Left);
    assert_eq!(pick_tile(BLTR::LeftTop, BLTR::Left, 0), BLTR::Left);
}
