//! The local Eikonal solver: a first-order upwind discretization of
//! |grad T| = 1 at one grid point, fed by two axis-neighbor distance
//! sources, and its aggregation over the four neighbor-pair
//! configurations around a pixel.

use vstd::prelude::*;
use crate::telea::Flag;
use crate::grid::Grid;
use crate::fbits::{
    f32_lt, f32_le, f32_min2, f32_add, f32_sub, f32_mul, f32_div,
    float_lt, float_le, float_min, float_add, float_sub, float_mul, float_div,
    ZERO_BITS, ONE_BITS, TWO_BITS, MAX_BITS,
};
use crate::sqrt::{f32_sqrt, float_sqrt};

verus! {

/// Whether (y, x) addresses a pixel of an h x w grid.
pub open spec fn in_bounds(y: int, x: int, h: int, w: int) -> bool {
    0 <= y < h && 0 <= x < w
}

/// The coordinate of the j-th axis neighbor of (y, x), in the fixed
/// processing order: above, left, below, right.
pub open spec fn spec_neighbor(y: int, x: int, j: int) -> (int, int) {
    if j == 0 {
        (y - 1, x)
    } else if j == 1 {
        (y, x - 1)
    } else if j == 2 {
        (y + 1, x)
    } else {
        (y, x + 1)
    }
}

/// The coordinate of the j-th axis neighbor of (y, x), in the fixed
/// processing order: above, left, below, right.
pub fn get_neighbors(y: i64, x: i64, j: usize) -> (r: (i64, i64))
    requires
        -1 <= y <= 0x7FFF_FFFF,
        -1 <= x <= 0x7FFF_FFFF,
        j < 4,
    ensures
        (r.0 as int, r.1 as int) == spec_neighbor(y as int, x as int, j as int),
{
    if j == 0 {
        (y - 1, x)
    } else if j == 1 {
        (y, x - 1)
    } else if j == 2 {
        (y + 1, x)
    } else {
        (y, x + 1)
    }
}

/// The solver's result for the two sources at (ay, ax) and (by, bx):
/// the sentinel when either is out of bounds or neither is Known; the
/// two-sided solution of the quadratic when both are Known and the
/// radicand 2 - (Da - Db)^2 is positive and a root passes the upwind
/// acceptance test; one plus the single Known distance otherwise.
pub open spec fn spec_solve_eikonal(
    ay: int, ax: int, by: int, bx: int,
    h: int, w: int,
    dist: Seq<u32>, flags: Seq<Flag>,
) -> u32 {
    if !in_bounds(ay, ax, h, w) || !in_bounds(by, bx, h, w) {
        MAX_BITS
    } else {
        let fa = flags[ay * w + ax];
        let fb = flags[by * w + bx];
        let da = dist[ay * w + ax];
        let db = dist[by * w + bx];
        let diff = f32_sub(da, db);
        let radicand = f32_sub(TWO_BITS, f32_mul(diff, diff));
        if fa == Flag::Known && fb == Flag::Known && f32_lt(ZERO_BITS, radicand) {
            let root = f32_sqrt(radicand);
            let s = f32_div(f32_sub(f32_add(da, db), root), TWO_BITS);
            if f32_le(da, s) && f32_le(db, s) {
                s
            } else {
                let s2 = f32_add(s, root);
                if f32_le(da, s2) && f32_le(db, s2) {
                    s2
                } else {
                    MAX_BITS
                }
            }
        } else if fa == Flag::Known {
            f32_add(ONE_BITS, da)
        } else if fb == Flag::Known {
            f32_add(ONE_BITS, db)
        } else {
            MAX_BITS
        }
    }
}

/// Solve the Eikonal equation at one grid point from two axis-neighbor
/// sources.
pub fn solve_eikonal(
    ay: i64, ax: i64, by: i64, bx: i64,
    height: usize, width: usize,
    distances: &Grid<u32>, flags: &Grid<Flag>,
) -> (r: u32)
    requires
        distances.wf(),
        flags.wf(),
        distances.height == height,
        distances.width == width,
        flags.height == height,
        flags.width == width,
    ensures
        r == spec_solve_eikonal(
            ay as int, ax as int, by as int, bx as int,
            height as int, width as int,
            distances.data@, flags.data@,
        ),
{
    if ay < 0 || ax < 0 || by < 0 || bx < 0
        || ay >= height as i64 || ax >= width as i64
        || by >= height as i64 || bx >= width as i64 {
        return MAX_BITS;
    }
    let fa = flags.get(ay as usize, ax as usize);
    let fb = flags.get(by as usize, bx as usize);
    let da = distances.get(ay as usize, ax as usize);
    let db = distances.get(by as usize, bx as usize);
    let diff = float_sub(da, db);
    let radicand = float_sub(TWO_BITS, float_mul(diff, diff));
    if fa == Flag::Known && fb == Flag::Known && float_lt(ZERO_BITS, radicand) {
        let root = float_sqrt(radicand);
        let s = float_div(float_sub(float_add(da, db), root), TWO_BITS);
        if float_le(da, s) && float_le(db, s) {
            return s;
        }
        let s2 = float_add(s, root);
        if float_le(da, s2) && float_le(db, s2) {
            return s2;
        }
        return MAX_BITS;
    }
    if fa == Flag::Known {
        return float_add(ONE_BITS, da);
    }
    if fb == Flag::Known {
        return float_add(ONE_BITS, db);
    }
    MAX_BITS
}

/// The aggregated distance estimate at (ny, nx): the minimum of the
/// solver's results over the four configurations (above+left,
/// below+right, above+right, below+left).
pub open spec fn spec_eikonal_min(
    ny: int, nx: int, h: int, w: int,
    dist: Seq<u32>, flags: Seq<Flag>,
) -> u32 {
    let e1 = spec_solve_eikonal(ny - 1, nx, ny, nx - 1, h, w, dist, flags);
    let e2 = spec_solve_eikonal(ny + 1, nx, ny, nx + 1, h, w, dist, flags);
    let e3 = spec_solve_eikonal(ny - 1, nx, ny, nx + 1, h, w, dist, flags);
    let e4 = spec_solve_eikonal(ny + 1, nx, ny, nx - 1, h, w, dist, flags);
    f32_min2(f32_min2(f32_min2(e1, e2), e3), e4)
}

/// The aggregation's result for the pixel at (ny, nx): no update
/// unless the pixel lies in bounds and is flagged Inside; otherwise
/// the minimum over the four neighbor-pair configurations.
pub open spec fn spec_get_eikonal(
    ny: int, nx: int, h: int, w: int,
    dist: Seq<u32>, flags: Seq<Flag>,
) -> Option<u32> {
    if !in_bounds(ny, nx, h, w) {
        None
    } else if flags[ny * w + nx] != Flag::Inside {
        None
    } else {
        Some(spec_eikonal_min(ny, nx, h, w, dist, flags))
    }
}

/// Aggregate the solver over the four neighbor-pair configurations of
/// an Inside pixel; pixels out of bounds or not flagged Inside produce
/// no update.
pub fn get_eikonal(
    height: usize, width: usize,
    distances: &Grid<u32>, flags: &Grid<Flag>,
    ny: i64, nx: i64,
) -> (r: Option<u32>)
    requires
        distances.wf(),
        flags.wf(),
        distances.height == height,
        distances.width == width,
        flags.height == height,
        flags.width == width,
    ensures
        r == spec_get_eikonal(
            ny as int, nx as int, height as int, width as int,
            distances.data@, flags.data@,
        ),
{
    if ny < 0 || nx < 0 || ny >= height as i64 || nx >= width as i64 {
        return None;
    }
    if flags.get(ny as usize, nx as usize) != Flag::Inside {
        return None;
    }
    let e1 = solve_eikonal(ny - 1, nx, ny, nx - 1, height, width, distances, flags);
    let e2 = solve_eikonal(ny + 1, nx, ny, nx + 1, height, width, distances, flags);
    let e3 = solve_eikonal(ny - 1, nx, ny, nx + 1, height, width, distances, flags);
    let e4 = solve_eikonal(ny + 1, nx, ny, nx - 1, height, width, distances, flags);
    Some(float_min(float_min(float_min(e1, e2), e3), e4))
}

} // verus!
