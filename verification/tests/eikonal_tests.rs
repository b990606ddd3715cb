use inpaint::eikonal::{get_eikonal, get_neighbors, solve_eikonal};
use inpaint::fbits::MAX_BITS;
use inpaint::grid::{Grid, ImageBuffer};
use inpaint::paint::{inpaint_pixel, pixel_gradient};
use inpaint::telea::Flag;

fn dist_grid(vals: &[f32], h: usize, w: usize) -> Grid<u32> {
    Grid {
        data: vals.iter().map(|v| v.to_bits()).collect(),
        height: h,
        width: w,
    }
}

fn flag_grid(vals: &[Flag], h: usize, w: usize) -> Grid<Flag> {
    Grid {
        data: vals.to_vec(),
        height: h,
        width: w,
    }
}

#[test]
fn neighbors_come_in_the_processing_order() {
    assert_eq!(get_neighbors(3, 5, 0), (2, 5));
    assert_eq!(get_neighbors(3, 5, 1), (3, 4));
    assert_eq!(get_neighbors(3, 5, 2), (4, 5));
    assert_eq!(get_neighbors(3, 5, 3), (3, 6));
}

#[test]
fn out_of_bounds_sources_give_the_sentinel() {
    let d = dist_grid(&[0.0; 4], 2, 2);
    let f = flag_grid(&[Flag::Known; 4], 2, 2);
    assert_eq!(solve_eikonal(-1, 0, 0, 0, 2, 2, &d, &f), MAX_BITS);
    assert_eq!(solve_eikonal(0, 0, 2, 0, 2, 2, &d, &f), MAX_BITS);
}

#[test]
fn two_known_sources_solve_the_quadratic() {
    // both sources Known at distance zero: the accepted root is
    // (0 + 0 - sqrt(2))/2 + sqrt(2)
    let d = dist_grid(&[0.0; 4], 2, 2);
    let f = flag_grid(&[Flag::Known; 4], 2, 2);
    let r = solve_eikonal(0, 0, 0, 1, 2, 2, &d, &f);
    let root = 2.0f32.sqrt();
    let expected = ((0.0f32 + 0.0f32 - root) / 2.0f32 + root).to_bits();
    assert_eq!(r, expected);
}

#[test]
fn one_known_source_adds_one() {
    let d = dist_grid(&[0.25, 0.0, 0.0, 0.0], 2, 2);
    let f = flag_grid(&[Flag::Known, Flag::Inside, Flag::Inside, Flag::Inside], 2, 2);
    let r = solve_eikonal(0, 0, 0, 1, 2, 2, &d, &f);
    assert_eq!(r, (1.0f32 + 0.25f32).to_bits());
}

#[test]
fn no_known_source_gives_the_sentinel() {
    let d = dist_grid(&[0.0; 4], 2, 2);
    let f = flag_grid(&[Flag::Inside; 4], 2, 2);
    assert_eq!(solve_eikonal(0, 0, 0, 1, 2, 2, &d, &f), MAX_BITS);
}

#[test]
fn aggregation_updates_only_inside_pixels() {
    let d = dist_grid(&[0.0; 9], 3, 3);
    let mut flags = vec![Flag::Known; 9];
    flags[4] = Flag::Inside;
    let f = flag_grid(&flags, 3, 3);
    assert!(get_eikonal(3, 3, &d, &f, 1, 1).is_some());
    assert_eq!(get_eikonal(3, 3, &d, &f, 0, 0), None);
    assert_eq!(get_eikonal(3, 3, &d, &f, -1, 0), None);
    assert_eq!(get_eikonal(3, 3, &d, &f, 3, 0), None);
}

/// The reconstruction of a pixel with two contributing neighbors
/// matches the weighted-average formula computed in plain binary32
/// arithmetic.
#[test]
fn reconstruction_matches_the_weight_formula() {
    // 3x3, center being reconstructed; only (0,1) and (1,0) contribute
    let mut flags = vec![Flag::Inside; 9];
    flags[1] = Flag::Known; // (0,1)
    flags[3] = Flag::Known; // (1,0)
    let f = flag_grid(&flags, 3, 3);

    let mut dist = vec![0.0f32; 9];
    dist[1] = 0.0;
    dist[3] = 0.5;
    dist[4] = 1.0; // the center's freshly resolved distance
    let d = dist_grid(&dist, 3, 3);

    let vals = vec![0.0, 0.3, 0.0, 0.7, 0.0, 0.0, 0.0, 0.0, 0.0];
    let img = ImageBuffer::from_parts(
        vals.iter().map(|v: &f32| v.to_bits()).collect(),
        3,
        3,
        1,
    )
    .unwrap();

    let out = inpaint_pixel(&img, 1, 1, &d, &f, 1);
    assert_eq!(out.len(), 1);

    // the same formula in plain f32, for these two candidates
    let grad = pixel_gradient(3, 3, &d, &f, 1, 1);
    let gy = f32::from_bits(grad.0);
    let gx = f32::from_bits(grad.1);
    let weight_of = |dy: i32, dx: i32, nd: f32| -> f32 {
        let fdy = (-dy) as f32;
        let fdx = (-dx) as f32;
        let length_pow = fdx * fdx + fdy * fdy;
        let length = length_pow.sqrt();
        let mut dir = (fdy * gy + fdx * gx).abs();
        if dir == 0.0 {
            dir = f32::EPSILON;
        }
        let level = 1.0f32 / (1.0f32 + (nd - 1.0f32).abs());
        let dfac = 1.0f32 / (length * length_pow);
        (dir * dfac * level).abs()
    };
    let w1 = weight_of(-1, 0, 0.0);
    let w2 = weight_of(0, -1, 0.5);
    let expected = (w1 * 0.3f32 + w2 * 0.7f32) / (w1 + w2);
    assert_eq!(out[0], expected.to_bits());
}
