//! Pixel reconstruction: a pixel about to join the narrow band is
//! filled with a weighted average of all non-Inside pixels within the
//! configured radius.  The weight of a candidate combines a
//! directional factor (alignment with the distance-field gradient), a
//! geometric distance factor and a level factor (closeness of the two
//! distance values).

use vstd::prelude::*;
use crate::telea::Flag;
use crate::grid::{Grid, ImageBuffer};
use crate::fbits::{
    f32_mag, f32_add, f32_sub, f32_mul, f32_div, f32_of_i32,
    float_abs, float_add, float_sub, float_mul, float_div, float_of_i32,
    ZERO_BITS, ONE_BITS, TWO_BITS, MAX_BITS, EPSILON_BITS,
};
use crate::sqrt::{f32_sqrt, float_sqrt};
use crate::eikonal::in_bounds;

verus! {

/// One estimated partial derivative of the distance field at (y, x):
/// the central difference of the two axis neighbors when both are
/// non-Inside, a one-sided difference when only one is, zero when
/// neither is, and the sentinel at the grid border.  `vertical` picks
/// the row axis; otherwise the column axis.
pub open spec fn spec_calculate_gradient(
    vertical: bool, h: int, w: int,
    dist: Seq<u32>, flags: Seq<Flag>,
    value: u32, y: int, x: int,
) -> u32 {
    let a = if vertical { y } else { x };
    let size = if vertical { h } else { w };
    if a + 1 >= size || a == 0 {
        MAX_BITS
    } else {
        let pi = if vertical { (y - 1) * w + x } else { y * w + (x - 1) };
        let ni = if vertical { (y + 1) * w + x } else { y * w + (x + 1) };
        let fp = flags[pi];
        let fn_ = flags[ni];
        if fp != Flag::Inside && fn_ != Flag::Inside {
            f32_div(f32_sub(dist[ni], dist[pi]), TWO_BITS)
        } else if fp != Flag::Inside {
            f32_sub(value, dist[pi])
        } else if fn_ != Flag::Inside {
            f32_sub(dist[ni], value)
        } else {
            ZERO_BITS
        }
    }
}

/// One estimated partial derivative of the distance field at (y, x).
pub fn calculate_gradient(
    vertical: bool, height: usize, width: usize,
    distances: &Grid<u32>, flags: &Grid<Flag>,
    value: u32, y: usize, x: usize,
) -> (r: u32)
    requires
        distances.wf(),
        flags.wf(),
        distances.height == height,
        distances.width == width,
        flags.height == height,
        flags.width == width,
        y < height,
        x < width,
    ensures
        r == spec_calculate_gradient(
            vertical, height as int, width as int,
            distances.data@, flags.data@, value, y as int, x as int,
        ),
{
    let a: usize = if vertical { y } else { x };
    let size: usize = if vertical { height } else { width };
    if a + 1 >= size || a == 0 {
        return MAX_BITS;
    }
    let py: usize = if vertical { y - 1 } else { y };
    let px: usize = if vertical { x } else { x - 1 };
    let nyy: usize = if vertical { y + 1 } else { y };
    let nxx: usize = if vertical { x } else { x + 1 };
    let fp = flags.get(py, px);
    let fnext = flags.get(nyy, nxx);
    if fp != Flag::Inside && fnext != Flag::Inside {
        float_div(float_sub(distances.get(nyy, nxx), distances.get(py, px)), TWO_BITS)
    } else if fp != Flag::Inside {
        float_sub(value, distances.get(py, px))
    } else if fnext != Flag::Inside {
        float_sub(distances.get(nyy, nxx), value)
    } else {
        ZERO_BITS
    }
}

/// The estimated distance-field gradient at (y, x): the row component
/// first, the column component second.
pub open spec fn spec_pixel_gradient(
    h: int, w: int, dist: Seq<u32>, flags: Seq<Flag>, y: int, x: int,
) -> (u32, u32) {
    let value = dist[y * w + x];
    (
        spec_calculate_gradient(true, h, w, dist, flags, value, y, x),
        spec_calculate_gradient(false, h, w, dist, flags, value, y, x),
    )
}

/// The estimated distance-field gradient at (y, x).
pub fn pixel_gradient(
    height: usize, width: usize,
    distances: &Grid<u32>, flags: &Grid<Flag>,
    y: usize, x: usize,
) -> (r: (u32, u32))
    requires
        distances.wf(),
        flags.wf(),
        distances.height == height,
        distances.width == width,
        flags.height == height,
        flags.width == width,
        y < height,
        x < width,
    ensures
        r == spec_pixel_gradient(
            height as int, width as int, distances.data@, flags.data@, y as int, x as int,
        ),
{
    let value = distances.get(y, x);
    (
        calculate_gradient(true, height, width, distances, flags, value, y, x),
        calculate_gradient(false, height, width, distances, flags, value, y, x),
    )
}

/// Whether the pixel dy rows and dx columns away from (y, x)
/// contributes to the average: it must lie in bounds, not be flagged
/// Inside, and lie within Euclidean distance `radius` of (y, x).
pub open spec fn spec_contributes(
    h: int, w: int, flags: Seq<Flag>,
    y: int, x: int, dy: int, dx: int, radius: int,
) -> bool {
    &&& in_bounds(y + dy, x + dx, h, w)
    &&& flags[(y + dy) * w + (x + dx)] != Flag::Inside
    &&& dx * dx + dy * dy <= radius * radius
}

/// The weight of the contributing pixel dy rows and dx columns away:
/// |directional factor| x distance factor x level factor, with a zero
/// directional factor floored to machine epsilon.
pub open spec fn spec_weight(
    dist: Seq<u32>, w: int,
    y: int, x: int, dy: int, dx: int,
    grad: (u32, u32), dcenter: u32,
) -> u32 {
    let fdy = f32_of_i32((-dy) as i32);
    let fdx = f32_of_i32((-dx) as i32);
    let length_pow = f32_add(f32_mul(fdx, fdx), f32_mul(fdy, fdy));
    let length = f32_sqrt(length_pow);
    let dir0 = f32_mag(f32_add(f32_mul(fdy, grad.0), f32_mul(fdx, grad.1)));
    let dir = if dir0 == 0 { EPSILON_BITS } else { dir0 };
    let ndist = dist[(y + dy) * w + (x + dx)];
    let level = f32_div(ONE_BITS, f32_add(ONE_BITS, f32_mag(f32_sub(ndist, dcenter))));
    let dfac = f32_div(ONE_BITS, f32_mul(length, length_pow));
    f32_mag(f32_mul(f32_mul(dir, dfac), level))
}

/// The channel sums and the weight sum after scanning the first k
/// cells of the (2 radius + 1)^2 window around (y, x), row by row.
pub open spec fn spec_inpaint_acc(
    img: Seq<u32>, h: int, w: int, c: int,
    dist: Seq<u32>, flags: Seq<Flag>,
    y: int, x: int, radius: int,
    grad: (u32, u32), dcenter: u32,
    k: int,
) -> (Seq<u32>, u32)
    decreases k,
{
    if k <= 0 {
        (Seq::new(c as nat, |i: int| ZERO_BITS), ZERO_BITS)
    } else {
        let prev = spec_inpaint_acc(img, h, w, c, dist, flags, y, x, radius, grad, dcenter, k - 1);
        let side = 2 * radius + 1;
        let dy = (k - 1) / side - radius;
        let dx = (k - 1) % side - radius;
        if spec_contributes(h, w, flags, y, x, dy, dx, radius) {
            let wgt = spec_weight(dist, w, y, x, dy, dx, grad, dcenter);
            (
                Seq::new(c as nat, |i: int|
                    f32_add(prev.0[i], f32_mul(wgt, img[((y + dy) * w + (x + dx)) * c + i]))),
                f32_add(prev.1, wgt),
            )
        } else {
            prev
        }
    }
}

/// The reconstructed channel values of the pixel at (y, x): each
/// channel sum divided by the weight sum, over the whole window.
pub open spec fn spec_inpaint_pixel(
    img: Seq<u32>, h: int, w: int, c: int,
    dist: Seq<u32>, flags: Seq<Flag>,
    y: int, x: int, radius: int,
) -> Seq<u32> {
    let grad = spec_pixel_gradient(h, w, dist, flags, y, x);
    let dcenter = dist[y * w + x];
    let side = 2 * radius + 1;
    let acc = spec_inpaint_acc(
        img, h, w, c, dist, flags, y, x, radius, grad, dcenter, side * side,
    );
    Seq::new(c as nat, |i: int| f32_div(acc.0[i], acc.1))
}

/// Reconstruct the channel values of the pixel at (y, x) as a weighted
/// average of the non-Inside pixels within `radius`.
pub fn inpaint_pixel(
    image: &ImageBuffer,
    y: usize, x: usize,
    distances: &Grid<u32>, flags: &Grid<Flag>,
    radius: i32,
) -> (r: Vec<u32>)
    requires
        image.wf(),
        distances.wf(),
        flags.wf(),
        distances.height == image.height,
        distances.width == image.width,
        flags.height == image.height,
        flags.width == image.width,
        y < image.height,
        x < image.width,
        1 <= radius <= 0xFFFF,
    ensures
        r@ == spec_inpaint_pixel(
            image.data@, image.height as int, image.width as int, image.channels as int,
            distances.data@, flags.data@, y as int, x as int, radius as int,
        ),
{
    let height: usize = image.height;
    let width: usize = image.width;
    let channels: usize = image.channels;
    let dcenter: u32 = distances.get(y, x);
    let grad: (u32, u32) = pixel_gradient(height, width, distances, flags, y, x);

    let side: u64 = 2 * (radius as u64) + 1;
    proof {
        assert(side * side <= 131071 * 131071) by (nonlinear_arith)
            requires side <= 131071;
    }
    let total: u64 = side * side;
    let mut sums: Vec<u32> = Vec::new();
    let mut i: usize = 0;
    while i < channels
        invariant
            i <= channels,
            sums@ =~= Seq::new(i as nat, |t: int| ZERO_BITS),
        decreases channels - i,
    {
        sums.push(ZERO_BITS);
        i = i + 1;
    }
    let mut wsum: u32 = ZERO_BITS;
    let mut k: u64 = 0;
    while k < total
        invariant
            k <= total,
            side == 2 * radius + 1,
            total == side * side,
            1 <= radius <= 0xFFFF,
            image.wf(),
            distances.wf(),
            flags.wf(),
            distances.height == image.height,
            distances.width == image.width,
            flags.height == image.height,
            flags.width == image.width,
            y < image.height,
            x < image.width,
            height == image.height,
            width == image.width,
            channels == image.channels,
            dcenter == distances.data@[y * width + x],
            grad == spec_pixel_gradient(
                height as int, width as int, distances.data@, flags.data@, y as int, x as int),
            sums@.len() == channels,
            (sums@, wsum) == spec_inpaint_acc(
                image.data@, height as int, width as int, channels as int,
                distances.data@, flags.data@, y as int, x as int, radius as int,
                grad, dcenter, k as int),
        decreases total - k,
    {
        proof {
            assert(k / side < side && k % side < side) by (nonlinear_arith)
                requires k < side * side, side >= 1;
        }
        let dy: i64 = (k / side) as i64 - radius as i64;
        let dx: i64 = (k % side) as i64 - radius as i64;
        proof {
            assert(0 <= dx * dx <= 131071 * 131071 && 0 <= dy * dy <= 131071 * 131071
                && 0 <= (radius as i64) * (radius as i64) <= 131071 * 131071) by (nonlinear_arith)
                requires -131071 <= dx <= 131071, -131071 <= dy <= 131071, 1 <= radius <= 0xFFFF;
        }
        let ny: i64 = y as i64 + dy;
        let nx: i64 = x as i64 + dx;
        let ghost gcontrib = spec_contributes(
            height as int, width as int, flags.data@,
            y as int, x as int, dy as int, dx as int, radius as int);
        if ny >= 0 && nx >= 0 && ny < height as i64 && nx < width as i64
            && flags.get(ny as usize, nx as usize) != Flag::Inside
            && dx * dx + dy * dy <= (radius as i64) * (radius as i64)
        {
            let fdy: u32 = float_of_i32((-dy) as i32);
            let fdx: u32 = float_of_i32((-dx) as i32);
            let length_pow: u32 = float_add(float_mul(fdx, fdx), float_mul(fdy, fdy));
            let length: u32 = float_sqrt(length_pow);
            let dir0: u32 = float_abs(float_add(float_mul(fdy, grad.0), float_mul(fdx, grad.1)));
            let dir: u32 = if dir0 == 0 { EPSILON_BITS } else { dir0 };
            let ndist: u32 = distances.get(ny as usize, nx as usize);
            let level: u32 = float_div(ONE_BITS, float_add(ONE_BITS, float_abs(float_sub(ndist, dcenter))));
            let dfac: u32 = float_div(ONE_BITS, float_mul(length, length_pow));
            let wgt: u32 = float_abs(float_mul(float_mul(dir, dfac), level));
            proof {
                assert(wgt == spec_weight(
                    distances.data@, width as int, y as int, x as int,
                    dy as int, dx as int, grad, dcenter));
            }
            let ghost prev_sums = sums@;
            proof {
                assert(((y + dy) * width + (x + dx)) * channels + channels
                    <= height * width * channels) by (nonlinear_arith)
                    requires
                        0 <= y + dy < height,
                        0 <= x + dx < width,
                        channels >= 1,
                        height == image.height,
                        width == image.width;
            }
            let mut ch: usize = 0;
            while ch < channels
                invariant
                    ch <= channels,
                    sums@.len() == channels,
                    prev_sums.len() == channels,
                    image.wf(),
                    y < image.height,
                    x < image.width,
                    height == image.height,
                    width == image.width,
                    channels == image.channels,
                    0 <= y + dy < height,
                    0 <= x + dx < width,
                    0 <= ny < height as i64,
                    0 <= nx < width as i64,
                    ny as int == y + dy,
                    nx as int == x + dx,
                    ((y + dy) * width + (x + dx)) * channels + channels
                        <= height * width * channels,
                    forall|t: int| 0 <= t < ch ==> sums@[t] == f32_add(
                        prev_sums[t],
                        f32_mul(wgt, image.data@[((y + dy) * width + (x + dx)) * channels + t])),
                    forall|t: int| ch <= t < channels ==> sums@[t] == prev_sums[t],
                decreases channels - ch,
            {
                let sample: u32 = image.get(ny as usize, nx as usize, ch);
                let cur: u32 = sums[ch];
                let upd: u32 = float_add(cur, float_mul(wgt, sample));
                sums.set(ch, upd);
                ch = ch + 1;
            }
            wsum = float_add(wsum, wgt);
            proof {
                let target = spec_inpaint_acc(
                    image.data@, height as int, width as int, channels as int,
                    distances.data@, flags.data@, y as int, x as int, radius as int,
                    grad, dcenter, k + 1);
                assert(gcontrib);
                assert(sums@ =~= target.0);
            }
        } else {
            proof {
                assert(!gcontrib);
            }
        }
        k = k + 1;
    }
    let mut out: Vec<u32> = Vec::new();
    let mut ch: usize = 0;
    while ch < channels
        invariant
            ch <= channels,
            sums@.len() == channels,
            forall|t: int| 0 <= t < ch ==> out@[t] == f32_div(sums@[t], wsum),
            out@.len() == ch,
        decreases channels - ch,
    {
        out.push(float_div(sums[ch], wsum));
        ch = ch + 1;
    }
    proof {
        assert(out@ =~= spec_inpaint_pixel(
            image.data@, image.height as int, image.width as int, image.channels as int,
            distances.data@, flags.data@, y as int, x as int, radius as int));
    }
    out
}

} // verus!
