use uv_remapper::{Lattice, LatticeError, Point, Range, UNIT};

const ONE: i32 = UNIT as i32;

fn p(u: i32, v: i32) -> Point {
    Point { u, v }
}

fn grid(rows: &[&[(i32, i32)]]) -> Vec<Vec<Vec<i32>>> {
    rows.iter()
        .map(|row| row.iter().map(|&(u, v)| vec![u, v]).collect())
        .collect()
}

#[test]
fn identity_corners_are_exact() {
    let l = Lattice::new(3, 5);
    assert_eq!(l.warp_bilinear(p(0, 0)), p(0, 0));
    assert_eq!(l.warp_bilinear(p(ONE, 0)), p(ONE, 0));
    assert_eq!(l.warp_bilinear(p(0, ONE)), p(0, ONE));
    assert_eq!(l.warp_bilinear(p(ONE, ONE)), p(ONE, ONE));
}

#[test]
fn custom_grid_corners_are_exact() {
    let rows = grid(&[
        &[(100, 200), (300, 400), (500, 600)],
        &[(700, 800), (900, 1000), (1100, 1200)],
    ]);
    let l = Lattice::from_grid(&rows).unwrap();
    assert_eq!(l.warp_bilinear(p(0, 0)), p(100, 200));
    assert_eq!(l.warp_bilinear(p(ONE, 0)), p(500, 600));
    assert_eq!(l.warp_bilinear(p(0, ONE)), p(700, 800));
    assert_eq!(l.warp_bilinear(p(ONE, ONE)), p(1100, 1200));
}

#[test]
fn identity_warp_stays_within_one_step() {
    for &(xb, yb) in &[(1usize, 1usize), (2, 3), (7, 5), (10, 10)] {
        let l = Lattice::new(xb, yb);
        let mut u = 0;
        while u <= ONE {
            let mut v = 0;
            while v <= ONE {
                let w = l.warp_bilinear(p(u, v));
                assert!(w.u <= u && w.u >= u - 1, "u {} gave {}", u, w.u);
                assert!(w.v <= v && w.v >= v - 1, "v {} gave {}", v, w.v);
                v += 4093;
            }
            u += 3001;
        }
    }
}

#[test]
fn identity_of_two_blocks_is_exact() {
    let l = Lattice::new(2, 2);
    assert_eq!(l.warp_bilinear(p(ONE / 4, 3 * ONE / 4)), p(ONE / 4, 3 * ONE / 4));
    assert_eq!(l.warp_bilinear(p(ONE / 2, ONE / 2)), p(ONE / 2, ONE / 2));
}

#[test]
fn bilinear_blend_of_one_cell() {
    let rows = grid(&[&[(0, 0), (1000, 0)], &[(0, 2000), (1000, 2000)]]);
    let l = Lattice::from_grid(&rows).unwrap();
    assert_eq!(l.warp_bilinear(p(ONE / 2, ONE / 2)), p(500, 1000));
    assert_eq!(l.warp_bilinear(p(ONE / 4, 3 * ONE / 4)), p(250, 1500));
}

#[test]
fn bilinear_blend_mixes_all_four_points() {
    let rows = grid(&[&[(0, 0), (4000, 0)], &[(0, 4000), (8000, 8000)]]);
    let l = Lattice::from_grid(&rows).unwrap();
    // (1-fx)(1-fy)*0 + fx(1-fy)*4000 + (1-fx)fy*0 + fx*fy*8000 at fx = fy = 1/2
    assert_eq!(l.warp_bilinear(p(ONE / 2, ONE / 2)), p(3000, 3000));
}

#[test]
fn coordinates_outside_the_square_wrap() {
    let rows = grid(&[&[(0, 0), (1000, 0)], &[(0, 2000), (1000, 2000)]]);
    let l = Lattice::from_grid(&rows).unwrap();
    assert_eq!(l.warp_bilinear(p(ONE + ONE / 2, 0)), p(500, 0));
    assert_eq!(l.warp_bilinear(p(-ONE / 2, 0)), p(500, 0));
    assert_eq!(l.warp_bilinear(p(2 * ONE, 0)), p(0, 0));
}

#[test]
fn far_edge_uses_last_cell() {
    let rows = grid(&[
        &[(0, 0), (10, 0), (30, 0)],
        &[(0, 5), (10, 5), (30, 5)],
        &[(0, 9), (10, 9), (30, 9)],
    ]);
    let l = Lattice::from_grid(&rows).unwrap();
    assert_eq!(l.warp_bilinear(p(ONE, ONE)), p(30, 9));
    assert_eq!(l.warp_bilinear(p(ONE, ONE / 2)), p(30, 5));
}

#[test]
fn from_grid_rejects_single_row() {
    let rows = grid(&[&[(0, 0), (1, 1)]]);
    assert_eq!(Lattice::from_grid(&rows).unwrap_err(), LatticeError::NonRectangularGrid);
}

#[test]
fn from_grid_rejects_no_rows() {
    let rows: Vec<Vec<Vec<i32>>> = Vec::new();
    assert_eq!(Lattice::from_grid(&rows).unwrap_err(), LatticeError::NonRectangularGrid);
}

#[test]
fn from_grid_rejects_row_of_one() {
    let rows = grid(&[&[(0, 0)], &[(0, 1)]]);
    assert_eq!(Lattice::from_grid(&rows).unwrap_err(), LatticeError::NonRectangularGrid);
}

#[test]
fn from_grid_rejects_unequal_rows() {
    let rows = grid(&[&[(0, 0), (1, 0)], &[(0, 1), (1, 1), (2, 1)]]);
    assert_eq!(Lattice::from_grid(&rows).unwrap_err(), LatticeError::NonRectangularGrid);
}

#[test]
fn from_grid_rejects_point_of_one_component() {
    let rows = vec![vec![vec![0, 0], vec![1, 0]], vec![vec![0, 1], vec![1]]];
    assert_eq!(Lattice::from_grid(&rows).unwrap_err(), LatticeError::NonRectangularGrid);
}

#[test]
fn from_grid_rejects_point_of_three_components() {
    let rows = vec![vec![vec![0, 0, 0], vec![1, 0]], vec![vec![0, 1], vec![1, 1]]];
    assert_eq!(Lattice::from_grid(&rows).unwrap_err(), LatticeError::NonRectangularGrid);
}

#[test]
fn from_grid_accepts_minimal_grid() {
    let rows = grid(&[&[(0, 0), (ONE, 0)], &[(0, ONE), (ONE, ONE)]]);
    let l = Lattice::from_grid(&rows).unwrap();
    assert_eq!(l.warp_bilinear(p(ONE / 2, ONE / 4)), p(ONE / 2, ONE / 4));
}

#[test]
fn cloned_lattice_warps_alike() {
    let rows = grid(&[&[(3, 4), (50, 60)], &[(7, 80), (900, 1000)]]);
    let l = Lattice::from_grid(&rows).unwrap();
    let c = l.clone();
    assert_eq!(c.warp_bilinear(p(1234, 5678)), l.warp_bilinear(p(1234, 5678)));
}

#[test]
fn to_scaled_multiplies_each_side() {
    let r = Range::new(ONE / 4, -ONE / 2, 3 * ONE, -7);
    let s = r.to_scaled(100, 40);
    assert_eq!(s.x(), (ONE as i64 / 4) * 100);
    assert_eq!(s.y(), (-(ONE as i64) / 2) * 40);
    assert_eq!(s.width(), 3 * ONE as i64 * 100);
    assert_eq!(s.height(), -7 * 40);
}

#[test]
fn scaled_pixels_truncate() {
    let s = Range::new(ONE / 4, -ONE / 2, ONE / 3, ONE).to_scaled(100, 40);
    assert_eq!(s.pixel_x(), 25);
    assert_eq!(s.pixel_y(), 0);
    assert_eq!(s.pixel_width(), 33);
    assert_eq!(s.pixel_height(), 40);
}

#[test]
fn scaled_pixels_saturate() {
    let s = Range::new(i32::MAX, 0, 0, 0).to_scaled(u32::MAX, 1);
    assert_eq!(s.pixel_x(), u32::MAX);
}
