//! The fast-marching inpainting engine: region classification, the
//! exterior distance precomputation, the narrow-band propagation loop
//! and the public entry point.
//!
//! The whole run is specified by a small-step interpreter over a ghost
//! state (flags, distances, image, queue): `spec_step` gives the exact
//! effect of servicing one queue entry, `spec_run` iterates it to a
//! fixed point, and every executable loop is proved to compute exactly
//! that.  The final image is therefore a function of the inputs alone.

use vstd::prelude::*;
use crate::error::Error;
use crate::grid::{Grid, ImageBuffer};
use crate::queue::{QueueItem, NarrowBandQueue, scan_best};
use crate::eikonal::{spec_get_eikonal, get_eikonal, in_bounds};
use crate::paint::{spec_inpaint_pixel, inpaint_pixel};
use crate::fbits::{
    f32_le, float_le, f32_neg, float_neg, f32_mul, f32_of_i32, float_mul, float_of_i32,
    ZERO_BITS, TWO_BITS, MAX_BITS,
};

verus! {

/// The lifecycle state of a pixel during propagation.
#[derive(Clone, Copy, Debug, PartialEq, Eq, Structural)]
pub enum Flag {
    /// Outside the masked region, or finalized.
    Known,
    /// On the active frontier: enqueued, not yet finalized.
    Band,
    /// Masked: still to be filled.
    Inside,
}

impl Flag {
    /// Swap the Known and Inside roles; Band is unchanged.  The
    /// exterior distance precomputation explores the complement of the
    /// masked region through this swapped classification.
    pub fn flip(&self) -> (r: Self)
        ensures
            r == (match *self {
                Flag::Known => Flag::Inside,
                Flag::Inside => Flag::Known,
                Flag::Band => Flag::Band,
            }),
    {
        match self {
            Flag::Known => Flag::Inside,
            Flag::Inside => Flag::Known,
            _ => *self,
        }
    }

    /// Classify one thresholded mask sample: one marks a masked pixel,
    /// anything else an unmasked one.
    pub fn from_value(value: u8) -> (r: Self)
        ensures
            r == (if value == 1 { Flag::Band } else { Flag::Known }),
    {
        match value {
            1 => Self::Band,
            _ => Self::Known,
        }
    }
}

/// The ghost state of one propagation run.
pub struct PropState {
    pub flags: Seq<Flag>,
    pub dist: Seq<u32>,
    pub img: Seq<u32>,
    pub queue: Seq<QueueItem>,
    pub last: u32,
}

/// Well-formedness of a ghost state for an h x w image with c channels.
pub open spec fn state_wf(h: int, w: int, c: int, s: PropState) -> bool {
    &&& 0 <= h <= 0x3FFF_FFFF
    &&& 0 <= w <= 0x3FFF_FFFF
    &&& 1 <= c <= 0x3FFF_FFFF
    &&& s.flags.len() == h * w
    &&& s.dist.len() == h * w
    &&& s.img.len() == h * w * c
}

/// Number of pixels flagged Inside.
pub open spec fn count_inside(s: Seq<Flag>) -> nat
    decreases s.len(),
{
    if s.len() == 0 {
        0
    } else {
        count_inside(s.drop_last()) + (if s.last() == Flag::Inside { 1nat } else { 0nat })
    }
}

/// Updating one flag changes the Inside count by the difference of the
/// two flags' contributions.
pub proof fn lemma_count_update(s: Seq<Flag>, i: int, v: Flag)
    requires
        0 <= i < s.len(),
    ensures
        count_inside(s.update(i, v)) == count_inside(s)
            - (if s[i] == Flag::Inside { 1int } else { 0int })
            + (if v == Flag::Inside { 1int } else { 0int }),
    decreases s.len(),
{
    let t = s.update(i, v);
    if i == s.len() - 1 {
        assert(t.drop_last() =~= s.drop_last());
        assert(t.last() == v);
    } else {
        assert(t.drop_last() =~= s.drop_last().update(i, v));
        assert(t.last() == s.last());
        lemma_count_update(s.drop_last(), i, v);
    }
}

/// The termination measure of a run: queue entries plus twice the
/// Inside pixels.  Servicing one entry strictly decreases it.
pub open spec fn measure(s: PropState) -> int {
    s.queue.len() + 2 * (count_inside(s.flags) as int)
}

/// The image sequence with the c channel samples of the pixel at
/// (y, x) replaced by vals.
pub open spec fn write_pixel(img: Seq<u32>, w: int, c: int, y: int, x: int, vals: Seq<u32>) -> Seq<u32> {
    Seq::new(img.len(), |i: int|
        if (y * w + x) * c <= i < (y * w + x) * c + c {
            vals[i - (y * w + x) * c]
        } else {
            img[i]
        })
}

/// The effect of visiting the neighbor (ny, nx) of a just-finalized
/// pixel: no change unless the neighbor is an in-bounds Inside pixel;
/// otherwise its aggregated Eikonal distance is written, the pixel is
/// reconstructed (in the interior pass only), the flag becomes Band
/// and the coordinate is enqueued with the new distance as priority.
pub open spec fn spec_neighbor_step(
    h: int, w: int, c: int, radius: int, exterior: bool,
    s: PropState, ny: int, nx: int,
) -> PropState {
    match spec_get_eikonal(ny, nx, h, w, s.dist, s.flags) {
        Option::None => s,
        Option::Some(e) => {
            let dist2 = s.dist.update(ny * w + nx, e);
            let img2 = if exterior {
                s.img
            } else {
                write_pixel(s.img, w, c, ny, nx,
                    spec_inpaint_pixel(s.img, h, w, c, dist2, s.flags, ny, nx, radius))
            };
            let flags2 = s.flags.update(ny * w + nx, Flag::Band);
            let queue2 = s.queue.push(QueueItem { priority: e, y: ny as usize, x: nx as usize });
            PropState { flags: flags2, dist: dist2, img: img2, queue: queue2, last: e }
        },
    }
}

/// The effect of servicing the minimum queue entry: it is removed; a
/// stale or out-of-range coordinate is discarded; otherwise the pixel
/// is finalized Known and its four axis neighbors are visited above,
/// left, below, right.
pub open spec fn spec_step(
    h: int, w: int, c: int, radius: int, exterior: bool, s: PropState,
) -> PropState {
    let n = s.queue.len() as int;
    let b = scan_best(s.queue, n);
    let it = s.queue[b];
    let q1 = s.queue.remove(b);
    let s0 = PropState { flags: s.flags, dist: s.dist, img: s.img, queue: q1, last: s.last };
    if !(it.y < h && it.x < w) {
        s0
    } else if s.flags[it.y * w + it.x] == Flag::Known {
        s0
    } else {
        let s1 = PropState {
            flags: s0.flags.update(it.y * w + it.x, Flag::Known),
            dist: s0.dist, img: s0.img, queue: s0.queue, last: s0.last,
        };
        let t1 = spec_neighbor_step(h, w, c, radius, exterior, s1, it.y - 1, it.x as int);
        let t2 = spec_neighbor_step(h, w, c, radius, exterior, t1, it.y as int, it.x - 1);
        let t3 = spec_neighbor_step(h, w, c, radius, exterior, t2, it.y + 1, it.x as int);
        spec_neighbor_step(h, w, c, radius, exterior, t3, it.y as int, it.x + 1)
    }
}

/// Whether a run stops: the queue is empty, or (in the exterior pass)
/// the most recently resolved distance has reached the bound.
pub open spec fn spec_stop(exterior: bool, bound: u32, s: PropState) -> bool {
    s.queue.len() == 0 || (exterior && f32_le(bound, s.last))
}

/// Visiting a neighbor preserves well-formedness and does not increase
/// the measure.
pub proof fn lemma_neighbor_wf_measure(
    h: int, w: int, c: int, radius: int, exterior: bool,
    s: PropState, ny: int, nx: int,
)
    requires
        state_wf(h, w, c, s),
    ensures
        state_wf(h, w, c, spec_neighbor_step(h, w, c, radius, exterior, s, ny, nx)),
        measure(spec_neighbor_step(h, w, c, radius, exterior, s, ny, nx)) <= measure(s),
{
    match spec_get_eikonal(ny, nx, h, w, s.dist, s.flags) {
        Option::None => {},
        Option::Some(e) => {
            assert(in_bounds(ny, nx, h, w));
            assert(ny * w + nx < h * w && 0 <= ny * w + nx) by (nonlinear_arith)
                requires 0 <= ny < h, 0 <= nx < w;
            lemma_count_update(s.flags, ny * w + nx, Flag::Band);
            assert(s.flags[ny * w + nx] == Flag::Inside);
        },
    }
}

/// Servicing one entry of a nonempty queue preserves well-formedness
/// and strictly decreases the measure.
pub proof fn lemma_step_wf_measure(
    h: int, w: int, c: int, radius: int, exterior: bool, s: PropState,
)
    requires
        state_wf(h, w, c, s),
        s.queue.len() > 0,
    ensures
        state_wf(h, w, c, spec_step(h, w, c, radius, exterior, s)),
        measure(spec_step(h, w, c, radius, exterior, s)) < measure(s),
{
    let n = s.queue.len() as int;
    crate::queue::lemma_scan_best_min(s.queue, n);
    let b = scan_best(s.queue, n);
    let it = s.queue[b];
    let q1 = s.queue.remove(b);
    let s0 = PropState { flags: s.flags, dist: s.dist, img: s.img, queue: q1, last: s.last };
    assert(q1.len() == n - 1);
    if !(it.y < h && it.x < w) {
    } else if s.flags[it.y * w + it.x] == Flag::Known {
    } else {
        assert(it.y * w + it.x < h * w && 0 <= it.y * w + it.x) by (nonlinear_arith)
            requires 0 <= it.y < h, 0 <= it.x < w;
        lemma_count_update(s.flags, it.y * w + it.x, Flag::Known);
        let s1 = PropState {
            flags: s0.flags.update(it.y * w + it.x, Flag::Known),
            dist: s0.dist, img: s0.img, queue: s0.queue, last: s0.last,
        };
        assert(measure(s1) <= measure(s0));
        let t1 = spec_neighbor_step(h, w, c, radius, exterior, s1, it.y - 1, it.x as int);
        lemma_neighbor_wf_measure(h, w, c, radius, exterior, s1, it.y - 1, it.x as int);
        let t2 = spec_neighbor_step(h, w, c, radius, exterior, t1, it.y as int, it.x - 1);
        lemma_neighbor_wf_measure(h, w, c, radius, exterior, t1, it.y as int, it.x - 1);
        let t3 = spec_neighbor_step(h, w, c, radius, exterior, t2, it.y + 1, it.x as int);
        lemma_neighbor_wf_measure(h, w, c, radius, exterior, t2, it.y + 1, it.x as int);
        lemma_neighbor_wf_measure(h, w, c, radius, exterior, t3, it.y as int, it.x + 1);
    }
}

/// The whole propagation: service queue entries until the stop
/// condition holds.
pub open spec fn spec_run(
    h: int, w: int, c: int, radius: int, exterior: bool, bound: u32, s: PropState,
) -> PropState
    decreases measure(s)
        when state_wf(h, w, c, s)
        via spec_run_dec
{
    if spec_stop(exterior, bound, s) {
        s
    } else {
        spec_run(h, w, c, radius, exterior, bound, spec_step(h, w, c, radius, exterior, s))
    }
}

#[via_fn]
proof fn spec_run_dec(h: int, w: int, c: int, radius: int, exterior: bool, bound: u32, s: PropState) {
    if !spec_stop(exterior, bound, s) {
        lemma_step_wf_measure(h, w, c, radius, exterior, s);
    }
}

/// A finished run is well formed.
pub proof fn lemma_run_wf(h: int, w: int, c: int, radius: int, exterior: bool, bound: u32, s: PropState)
    requires
        state_wf(h, w, c, s),
    ensures
        state_wf(h, w, c, spec_run(h, w, c, radius, exterior, bound, s)),
    decreases measure(s),
{
    if !spec_stop(exterior, bound, s) {
        lemma_step_wf_measure(h, w, c, radius, exterior, s);
        lemma_run_wf(h, w, c, radius, exterior, bound, spec_step(h, w, c, radius, exterior, s));
    }
}

/// The Known/Inside swap of one flag.
pub open spec fn spec_flip_flag(f: Flag) -> Flag {
    match f {
        Flag::Known => Flag::Inside,
        Flag::Inside => Flag::Known,
        Flag::Band => Flag::Band,
    }
}

/// Classification of one thresholded mask: Inside where the sample is
/// one, Known elsewhere.
pub open spec fn spec_initial_flags(mask: Seq<u8>) -> Seq<Flag> {
    mask.map_values(|v: u8| if v == 1 { Flag::Inside } else { Flag::Known })
}

/// Convert a thresholded mask into flags: Band where the sample is
/// one, Known elsewhere.  The caller normalizes raw mask samples to
/// zero or one beforehand.
pub fn convert_mask_to_flag_array(mask: &Grid<u8>) -> (r: Grid<Flag>)
    requires
        mask.wf(),
    ensures
        r.wf(),
        r.height == mask.height,
        r.width == mask.width,
        r.data@ == mask.data@.map_values(|v: u8| if v == 1 { Flag::Band } else { Flag::Known }),
{
    let n: usize = mask.data.len();
    let mut data: Vec<Flag> = Vec::new();
    let mut i: usize = 0;
    while i < n
        invariant
            i <= n,
            n == mask.data@.len(),
            data@.len() == i,
            forall|k: int| 0 <= k < i ==> data@[k]
                == (if mask.data@[k] == 1 { Flag::Band } else { Flag::Known }),
        decreases n - i,
    {
        data.push(Flag::from_value(mask.data[i]));
        i = i + 1;
    }
    proof {
        assert(data@ =~= mask.data@.map_values(|v: u8| if v == 1 { Flag::Band } else { Flag::Known }));
    }
    Grid { data, height: mask.height, width: mask.width }
}

/// The flags, distances and queue after the initialization scan has
/// processed the first k of the h*w*4 (pixel, neighbor) slots: every
/// Known axis neighbor of an Inside pixel becomes Band with distance
/// zero and is enqueued with priority zero.
pub open spec fn spec_init_scan(
    h: int, w: int,
    flags: Seq<Flag>, dist: Seq<u32>, queue: Seq<QueueItem>,
    k: int,
) -> (Seq<Flag>, Seq<u32>, Seq<QueueItem>)
    decreases k,
{
    if k <= 0 {
        (flags, dist, queue)
    } else {
        let prev = spec_init_scan(h, w, flags, dist, queue, k - 1);
        let i = (k - 1) / 4;
        let j = (k - 1) % 4;
        let y = i / w;
        let x = i % w;
        let nyx = crate::eikonal::spec_neighbor(y, x, j);
        let ny = nyx.0;
        let nx = nyx.1;
        if prev.0[i] == Flag::Inside && in_bounds(ny, nx, h, w)
            && prev.0[ny * w + nx] == Flag::Known {
            (
                prev.0.update(ny * w + nx, Flag::Band),
                prev.1.update(ny * w + nx, ZERO_BITS),
                prev.2.push(QueueItem { priority: ZERO_BITS, y: ny as usize, x: nx as usize }),
            )
        } else {
            prev
        }
    }
}

/// The initialized state of a run, before the exterior pass: flags
/// from the thresholded mask with the one-pixel Band ring, distance
/// zero on the ring and the sentinel elsewhere, the ring enqueued.
pub open spec fn spec_initial_state(
    img: Seq<u32>, h: int, w: int, mask: Seq<u8>,
) -> PropState {
    let flags0 = spec_initial_flags(mask);
    let dist0 = Seq::new((h * w) as nat, |i: int| MAX_BITS);
    let scanned = spec_init_scan(h, w, flags0, dist0, Seq::empty(), h * w * 4);
    PropState { flags: scanned.0, dist: scanned.1, img: img, queue: scanned.2, last: ZERO_BITS }
}

/// The state after the exterior distance precomputation: the run is
/// replayed on the flipped classification, bounded by twice the
/// radius, and every distance is then negated in place; the primary
/// flags and the queue are those of the initialized state.
pub open spec fn spec_prepared_state(
    img: Seq<u32>, h: int, w: int, c: int, mask: Seq<u8>, radius: int,
) -> PropState {
    let init = spec_initial_state(img, h, w, mask);
    PropState {
        flags: init.flags,
        dist: spec_outside_distances(h, w, c, radius, init.flags, init.dist, init.img, init.queue),
        img: init.img,
        queue: init.queue,
        last: ZERO_BITS,
    }
}

/// The final image of a whole inpainting run.
pub open spec fn spec_telea(
    img: Seq<u32>, h: int, w: int, c: int, mask: Seq<u8>, radius: int,
) -> Seq<u32> {
    let prepared = spec_prepared_state(img, h, w, c, mask, radius);
    spec_run(h, w, c, radius, false, ZERO_BITS, prepared).img
}


/// Working state of one inpainting run.
pub struct ProcessData {
    pub distances: Grid<u32>,
    pub process_image: ImageBuffer,
    pub flags: Grid<Flag>,
    pub heap: NarrowBandQueue,
}

impl ProcessData {
    /// Structural invariant: all grids share the image resolution.
    pub open spec fn wf(self) -> bool {
        &&& self.process_image.wf()
        &&& self.distances.wf()
        &&& self.flags.wf()
        &&& self.distances.height == self.process_image.height
        &&& self.distances.width == self.process_image.width
        &&& self.flags.height == self.process_image.height
        &&& self.flags.width == self.process_image.width
    }

    /// The ghost state held by this working state.
    pub open spec fn state(self, last: u32) -> PropState {
        PropState {
            flags: self.flags.data@,
            dist: self.distances.data@,
            img: self.process_image.data@,
            queue: self.heap@,
            last: last,
        }
    }
}

/// Visit one neighbor of a just-finalized pixel in the interior pass:
/// write its aggregated distance, reconstruct it, flag it Band and
/// enqueue it; return the distance that was resolved, or the previous
/// one when the neighbor produced no update.
fn process_neighbor(
    distances: &mut Grid<u32>,
    flags: &mut Grid<Flag>,
    image: &mut ImageBuffer,
    heap: &mut NarrowBandQueue,
    last: u32,
    ny: i64,
    nx: i64,
    radius: i32,
) -> (r: u32)
    requires
        old(image).wf(),
        old(distances).wf(),
        old(flags).wf(),
        old(distances).height == old(image).height,
        old(distances).width == old(image).width,
        old(flags).height == old(image).height,
        old(flags).width == old(image).width,
        1 <= radius <= 0xFFFF,
    ensures
        ({
            let t = spec_neighbor_step(
                old(image).height as int, old(image).width as int, old(image).channels as int,
                radius as int, false,
                PropState {
                    flags: old(flags).data@,
                    dist: old(distances).data@,
                    img: old(image).data@,
                    queue: old(heap)@,
                    last: last,
                },
                ny as int, nx as int,
            );
            &&& final(distances).data@ == t.dist
            &&& final(flags).data@ == t.flags
            &&& final(image).data@ == t.img
            &&& final(heap)@ == t.queue
            &&& r == t.last
        }),
        final(image).wf(),
        final(distances).wf(),
        final(flags).wf(),
        final(image).height == old(image).height,
        final(image).width == old(image).width,
        final(image).channels == old(image).channels,
        final(distances).height == old(distances).height,
        final(distances).width == old(distances).width,
        final(flags).height == old(flags).height,
        final(flags).width == old(flags).width,
{
    let height: usize = image.height;
    let width: usize = image.width;
    let channels: usize = image.channels;
    let e_opt = get_eikonal(height, width, distances, flags, ny, nx);
    match e_opt {
        None => last,
        Some(e) => {
            proof {
                assert(in_bounds(ny as int, nx as int, height as int, width as int));
            }
            let uy: usize = ny as usize;
            let ux: usize = nx as usize;
            distances.set(uy, ux, e);
            let pixel = inpaint_pixel(image, uy, ux, distances, flags, radius);
            let ghost old_img = image.data@;
            let ghost base: int = (uy * width + ux) * channels;
            proof {
                assert(pixel@.len() == channels);
                assert(base + channels <= height * width * channels && 0 <= base)
                    by (nonlinear_arith)
                    requires
                        0 <= uy < height,
                        0 <= ux < width,
                        channels >= 1,
                        base == (uy * width + ux) * channels;
            }
            let mut ch: usize = 0;
            while ch < channels
                invariant
                    ch <= channels,
                    image.wf(),
                    image.height == height,
                    image.width == width,
                    image.channels == channels,
                    uy < height,
                    ux < width,
                    pixel@.len() == channels,
                    base == (uy * width + ux) * channels,
                    0 <= base,
                    base + channels <= image.data@.len(),
                    image.data@.len() == old_img.len(),
                    forall|i: int| 0 <= i < old_img.len() && !(base <= i < base + ch)
                        ==> image.data@[i] == old_img[i],
                    forall|i: int| base <= i < base + ch ==> image.data@[i] == pixel@[i - base],
                decreases channels - ch,
            {
                let v: u32 = pixel[ch];
                image.set(uy, ux, ch, v);
                ch = ch + 1;
            }
            flags.set(uy, ux, Flag::Band);
            heap.push(QueueItem::new(e, uy, ux));
            proof {
                let t = spec_neighbor_step(
                    height as int, width as int, channels as int, radius as int, false,
                    PropState {
                        flags: old(flags).data@,
                        dist: old(distances).data@,
                        img: old_img,
                        queue: old(heap)@,
                        last: last,
                    },
                    ny as int, nx as int,
                );
                assert(image.data@ =~= t.img);
            }
            e
        },
    }
}

/// Visit one neighbor in the exterior pass: as in the interior pass
/// but on the swapped classification and without reconstructing any
/// pixel.
fn process_neighbor_outside(
    distances: &mut Grid<u32>,
    flags: &mut Grid<Flag>,
    heap: &mut NarrowBandQueue,
    last: u32,
    ny: i64,
    nx: i64,
    Ghost(gc): Ghost<int>,
    Ghost(gimg): Ghost<Seq<u32>>,
    radius: i32,
) -> (r: u32)
    requires
        old(distances).wf(),
        old(flags).wf(),
        old(flags).height == old(distances).height,
        old(flags).width == old(distances).width,
        1 <= radius <= 0xFFFF,
    ensures
        ({
            let t = spec_neighbor_step(
                old(distances).height as int, old(distances).width as int, gc,
                radius as int, true,
                PropState {
                    flags: old(flags).data@,
                    dist: old(distances).data@,
                    img: gimg,
                    queue: old(heap)@,
                    last: last,
                },
                ny as int, nx as int,
            );
            &&& final(distances).data@ == t.dist
            &&& final(flags).data@ == t.flags
            &&& final(heap)@ == t.queue
            &&& r == t.last
        }),
        final(distances).wf(),
        final(flags).wf(),
        final(distances).height == old(distances).height,
        final(distances).width == old(distances).width,
        final(flags).height == old(flags).height,
        final(flags).width == old(flags).width,
{
    let height: usize = distances.height;
    let width: usize = distances.width;
    let e_opt = get_eikonal(height, width, distances, flags, ny, nx);
    match e_opt {
        None => last,
        Some(e) => {
            proof {
                assert(in_bounds(ny as int, nx as int, height as int, width as int));
            }
            let uy: usize = ny as usize;
            let ux: usize = nx as usize;
            distances.set(uy, ux, e);
            flags.set(uy, ux, Flag::Band);
            heap.push(QueueItem::new(e, uy, ux));
            e
        },
    }
}

/// The distance field after the exterior precomputation: the run is
/// replayed on the swapped classification out to twice the radius,
/// then every distance is negated.
pub open spec fn spec_outside_distances(
    h: int, w: int, c: int, radius: int,
    flags: Seq<Flag>, dist0: Seq<u32>, img: Seq<u32>, queue: Seq<QueueItem>,
) -> Seq<u32> {
    let flipped = PropState {
        flags: flags.map_values(|f: Flag| spec_flip_flag(f)),
        dist: dist0,
        img: img,
        queue: queue,
        last: ZERO_BITS,
    };
    let bound = f32_mul(f32_of_i32(radius as i32), TWO_BITS);
    let ex = spec_run(h, w, c, radius, true, bound, flipped);
    Seq::new(ex.dist.len(), |i: int| f32_neg(ex.dist[i]))
}

/// Calculate the distances between the mask edge and the pixels
/// outside the mask, out to twice the radius, on a disposable swapped
/// copy of the flags and a copy of the queue; the distance field is
/// then negated in place.  The primary flags and queue are untouched.
fn compute_outside_distances(
    distances: &mut Grid<u32>,
    flags: &Grid<Flag>,
    heap: &NarrowBandQueue,
    image: &ImageBuffer,
    radius: i32,
)
    requires
        old(distances).wf(),
        flags.wf(),
        image.wf(),
        flags.height == old(distances).height,
        flags.width == old(distances).width,
        image.height == old(distances).height,
        image.width == old(distances).width,
        1 <= radius <= 0xFFFF,
    ensures
        final(distances).data@ == spec_outside_distances(
            old(distances).height as int, old(distances).width as int,
            image.channels as int, radius as int,
            flags.data@, old(distances).data@, image.data@, heap@,
        ),
        final(distances).wf(),
        final(distances).height == old(distances).height,
        final(distances).width == old(distances).width,
{

    let height: usize = distances.height;
    let width: usize = distances.width;
    let ghost gc: int = image.channels as int;
    let ghost gimg: Seq<u32> = image.data@;

    // swapped copy of the classification
    let n: usize = flags.data.len();
    let mut inner_data: Vec<Flag> = Vec::new();
    let mut i: usize = 0;
    while i < n
        invariant
            i <= n,
            n == flags.data@.len(),
            inner_data@.len() == i,
            forall|k: int| 0 <= k < i ==> inner_data@[k] == spec_flip_flag(flags.data@[k]),
        decreases n - i,
    {
        inner_data.push(flags.data[i].flip());
        i = i + 1;
    }
    let mut inner_flags: Grid<Flag> = Grid {
        data: inner_data,
        height: flags.height,
        width: flags.width,
    };
    proof {
        assert(inner_flags.data@ =~= flags.data@.map_values(|f: Flag| spec_flip_flag(f)));
    }

    let mut current_heap: NarrowBandQueue = heap.duplicate();
    let mut last: u32 = ZERO_BITS;
    let double_radius: u32 = float_mul(float_of_i32(radius), TWO_BITS);

    let ghost start = PropState {
        flags: inner_flags.data@,
        dist: distances.data@,
        img: gimg,
        queue: current_heap@,
        last: ZERO_BITS,
    };
    let ghost hh: int = height as int;
    let ghost ww: int = width as int;
    let ghost rr: int = radius as int;

    while !(current_heap.is_empty() || float_le(double_radius, last))
        invariant
            distances.wf(),
            inner_flags.wf(),
            image.wf(),
            distances.height == height,
            distances.width == width,
            inner_flags.height == height,
            inner_flags.width == width,
            image.height == height,
            image.width == width,
            1 <= radius <= 0xFFFF,
            hh == height as int,
            ww == width as int,
            rr == radius as int,
            gc == image.channels as int,
            gimg == image.data@,
            double_radius == f32_mul(f32_of_i32(radius as i32), TWO_BITS),
            state_wf(hh, ww, gc, start),
            ({
                let cur = PropState {
                    flags: inner_flags.data@,
                    dist: distances.data@,
                    img: gimg,
                    queue: current_heap@,
                    last: last,
                };
                &&& state_wf(hh, ww, gc, cur)
                &&& spec_run(hh, ww, gc, rr, true, double_radius, cur)
                    == spec_run(hh, ww, gc, rr, true, double_radius, start)
            }),
        decreases (current_heap@.len() + 2 * (count_inside(inner_flags.data@) as int)),
    {
        let ghost cur = PropState {
            flags: inner_flags.data@,
            dist: distances.data@,
            img: gimg,
            queue: current_heap@,
            last: last,
        };
        proof {
            assert(!spec_stop(true, double_radius, cur));
        }
        let it = current_heap.pop();
        proof {
            assert(current_heap@ == cur.queue.remove(
                crate::queue::scan_best(cur.queue, cur.queue.len() as int)));
            assert(it == cur.queue[crate::queue::scan_best(cur.queue, cur.queue.len() as int)]);
        }
        if it.y < height && it.x < width {
            let stale = inner_flags.get(it.y, it.x) == Flag::Known;
            if !stale {
                inner_flags.set(it.y, it.x, Flag::Known);
                let ghost s1 = PropState {
                    flags: inner_flags.data@,
                    dist: distances.data@,
                    img: gimg,
                    queue: current_heap@,
                    last: last,
                };
                last = process_neighbor_outside(
                    distances, &mut inner_flags, &mut current_heap, last,
                    it.y as i64 - 1, it.x as i64, Ghost(gc), Ghost(gimg), radius);
                let ghost t1 = PropState {
                    flags: inner_flags.data@, dist: distances.data@, img: gimg,
                    queue: current_heap@, last: last,
                };
                proof {
                    assert(t1 == spec_neighbor_step(hh, ww, gc, rr, true, s1, it.y - 1, it.x as int));
                }
                last = process_neighbor_outside(
                    distances, &mut inner_flags, &mut current_heap, last,
                    it.y as i64, it.x as i64 - 1, Ghost(gc), Ghost(gimg), radius);
                let ghost t2 = PropState {
                    flags: inner_flags.data@, dist: distances.data@, img: gimg,
                    queue: current_heap@, last: last,
                };
                proof {
                    assert(t2 == spec_neighbor_step(hh, ww, gc, rr, true, t1, it.y as int, it.x - 1));
                }
                last = process_neighbor_outside(
                    distances, &mut inner_flags, &mut current_heap, last,
                    it.y as i64 + 1, it.x as i64, Ghost(gc), Ghost(gimg), radius);
                let ghost t3 = PropState {
                    flags: inner_flags.data@, dist: distances.data@, img: gimg,
                    queue: current_heap@, last: last,
                };
                proof {
                    assert(t3 == spec_neighbor_step(hh, ww, gc, rr, true, t2, it.y + 1, it.x as int));
                }
                last = process_neighbor_outside(
                    distances, &mut inner_flags, &mut current_heap, last,
                    it.y as i64, it.x as i64 + 1, Ghost(gc), Ghost(gimg), radius);
                proof {
                    let t4 = PropState {
                        flags: inner_flags.data@, dist: distances.data@, img: gimg,
                        queue: current_heap@, last: last,
                    };
                    assert(t4 == spec_neighbor_step(hh, ww, gc, rr, true, t3, it.y as int, it.x + 1));
                }
            }
        }
        proof {
            let nxt = PropState {
                flags: inner_flags.data@,
                dist: distances.data@,
                img: gimg,
                queue: current_heap@,
                last: last,
            };
            assert(nxt == spec_step(hh, ww, gc, rr, true, cur));
            lemma_step_wf_measure(hh, ww, gc, rr, true, cur);
            assert(spec_run(hh, ww, gc, rr, true, double_radius, cur)
                == spec_run(hh, ww, gc, rr, true, double_radius, nxt));
        }
    }
    proof {
        let cur = PropState {
            flags: inner_flags.data@,
            dist: distances.data@,
            img: gimg,
            queue: current_heap@,
            last: last,
        };
        assert(spec_stop(true, double_radius, cur));
        assert(spec_run(hh, ww, gc, rr, true, double_radius, cur) == cur);
    }
    // negate every distance in place: interior points keep positive
    // distance, the explored exterior carries negative distance
    let ghost explored_dist = distances.data@;
    let total: usize = distances.data.len();
    let mut k: usize = 0;
    while k < total
        invariant
            k <= total,
            total == distances.data@.len(),
            distances.data@.len() == explored_dist.len(),
            distances.wf(),
            distances.height == height,
            distances.width == width,
            forall|i: int| 0 <= i < k ==> distances.data@[i] == f32_neg(explored_dist[i]),
            forall|i: int| k <= i < total ==> distances.data@[i] == explored_dist[i],
        decreases total - k,
    {
        let v: u32 = distances.data[k];
        let nv: u32 = float_neg(v);
        distances.data.set(k, nv);
        k = k + 1;
    }
    proof {
        if state_wf(hh, ww, gc, start) {
            assert(distances.data@ =~= Seq::new(explored_dist.len(), |i: int| f32_neg(explored_dist[i])));
        }
    }}


impl ProcessData {
    /// Initialize the working state: classify the mask, build the
    /// one-pixel Band ring with distance zero and enqueue it, then run
    /// the exterior distance precomputation.
    pub fn new(image: &ImageBuffer, mask: &Grid<u8>, radius: i32)
        -> (r: crate::error::Result<ProcessData>)
        requires
            image.wf(),
            mask.wf(),
            mask.height == image.height,
            mask.width == image.width,
            1 <= radius <= 0xFFFF,
        ensures
            match r {
                Ok(pd) => {
                    &&& pd.wf()
                    &&& pd.process_image.height == image.height
                    &&& pd.process_image.width == image.width
                    &&& pd.process_image.channels == image.channels
                    &&& pd.state(ZERO_BITS) == spec_prepared_state(
                        image.data@, image.height as int, image.width as int,
                        image.channels as int, mask.data@, radius as int)
                },
                Err(_) => false,
            },
    {
        let height: usize = image.height;
        let width: usize = image.width;
        let ghost hh: int = height as int;
        let ghost ww: int = width as int;
        let ghost gc: int = image.channels as int;

        // working copy of the image
        let n_img: usize = image.data.len();
        let mut img_data: Vec<u32> = Vec::new();
        let mut t: usize = 0;
        while t < n_img
            invariant
                t <= n_img,
                n_img == image.data@.len(),
                img_data@ =~= image.data@.subrange(0, t as int),
            decreases n_img - t,
        {
            img_data.push(image.data[t]);
            t = t + 1;
        }
        proof {
            assert(img_data@ =~= image.data@);
        }
        let process_image = ImageBuffer {
            data: img_data,
            height: image.height,
            width: image.width,
            channels: image.channels,
        };

        // classification: Inside on the masked pixels, Known elsewhere
        let mask_array: Grid<Flag> = convert_mask_to_flag_array(mask);
        let n: usize = mask_array.data.len();
        let mut flag_data: Vec<Flag> = Vec::new();
        let mut i: usize = 0;
        while i < n
            invariant
                i <= n,
                n == mask_array.data@.len(),
                flag_data@.len() == i,
                forall|k: int| 0 <= k < i ==> flag_data@[k]
                    == (if mask_array.data@[k] == Flag::Band { Flag::Inside } else { mask_array.data@[k] }),
            decreases n - i,
        {
            let f = mask_array.data[i];
            flag_data.push(if f == Flag::Band { Flag::Inside } else { f });
            i = i + 1;
        }
        let mut flags: Grid<Flag> = Grid {
            data: flag_data,
            height: mask.height,
            width: mask.width,
        };
        proof {
            assert(flags.data@ =~= spec_initial_flags(mask.data@));
        }

        proof {
            assert(height * width <= height * width * image.channels) by (nonlinear_arith)
                requires image.channels >= 1;
        }
        let mut distances: Grid<u32> = Grid::new(height, width, MAX_BITS);
        let mut heap: NarrowBandQueue = NarrowBandQueue::new();

        let ghost flags0: Seq<Flag> = flags.data@;
        let ghost dist0: Seq<u32> = distances.data@;

        // the initial one-pixel-wide Band ring just outside the mask
        proof {
            assert(height * width * 4 <= 0x3FFF_FFFF * 0x3FFF_FFFF * 4) by (nonlinear_arith)
                requires height <= 0x3FFF_FFFF, width <= 0x3FFF_FFFF;
        }
        let n_hw: usize = flags.data.len();
        proof {
            assert(height * width == n_hw);
        }
        let total: u64 = (height as u64) * (width as u64) * 4;
        let mut k: u64 = 0;
        while k < total
            invariant
                k <= total,
                total == (height as u64) * (width as u64) * 4,
                flags.wf(),
                distances.wf(),
                flags.height == height,
                flags.width == width,
                distances.height == height,
                distances.width == width,
                hh == height as int,
                ww == width as int,
                height * width * 4 == total,
                height * width <= usize::MAX,
                ({
                    let scanned = spec_init_scan(hh, ww, flags0, dist0, Seq::empty(), k as int);
                    &&& flags.data@ == scanned.0
                    &&& distances.data@ == scanned.1
                    &&& heap@ == scanned.2
                }),
            decreases total - k,
        {
            let ghost pf = flags.data@;
            let ghost pdist = distances.data@;
            let ghost pq = heap@;
            proof {
                assert(width >= 1 && height >= 1 && k / 4 < height * width) by (nonlinear_arith)
                    requires k < total, total == height * width * 4;
            }
            let i64v: u64 = k / 4;
            let j: usize = (k % 4) as usize;
            let iu: usize = i64v as usize;
            let y: usize = iu / width;
            let x: usize = iu % width;
            proof {
                vstd::arithmetic::div_mod::lemma_fundamental_div_mod(iu as int, width as int);
                assert(y < height && iu == y * width + x) by (nonlinear_arith)
                    requires
                        iu < height * width,
                        width >= 1,
                        y == iu as int / width as int,
                        x == iu as int % width as int,
                        iu == width * (iu as int / width as int) + iu as int % width as int;
            }
            if flags.get(y, x) == Flag::Inside {
                let nyx = crate::eikonal::get_neighbors(y as i64, x as i64, j);
                let ny: i64 = nyx.0;
                let nx: i64 = nyx.1;
                if ny >= 0 && nx >= 0 && ny < height as i64 && nx < width as i64 {
                    if flags.get(ny as usize, nx as usize) == Flag::Known {
                        flags.set(ny as usize, nx as usize, Flag::Band);
                        distances.set(ny as usize, nx as usize, ZERO_BITS);
                        heap.push(QueueItem::new(ZERO_BITS, ny as usize, nx as usize));
                    }
                }
            }
            proof {
                let prev = spec_init_scan(hh, ww, flags0, dist0, Seq::empty(), k as int);
                let nxt = spec_init_scan(hh, ww, flags0, dist0, Seq::empty(), k as int + 1);
                assert(prev.0 == pf && prev.1 == pdist && prev.2 == pq);
                assert((k as int + 1) - 1 == k as int);
                assert(iu as int == (k as int) / 4);
                assert(j as int == (k as int) % 4);
                assert(y as int == (iu as int) / ww);
                assert(x as int == (iu as int) % ww);
                let nyx2 = crate::eikonal::spec_neighbor(y as int, x as int, j as int);
                if pf[iu as int] == Flag::Inside && in_bounds(nyx2.0, nyx2.1, hh, ww)
                    && pf[nyx2.0 * ww + nyx2.1] == Flag::Known {
                    assert(nxt.0 == pf.update(nyx2.0 * ww + nyx2.1, Flag::Band));
                    assert(nxt.1 == pdist.update(nyx2.0 * ww + nyx2.1, ZERO_BITS));
                    assert(nxt.2 == pq.push(QueueItem {
                        priority: ZERO_BITS,
                        y: nyx2.0 as usize,
                        x: nyx2.1 as usize,
                    }));
                } else {
                    assert(nxt == prev);
                }
                assert(flags.data@ == nxt.0 && distances.data@ == nxt.1 && heap@ == nxt.2);
            }
            k = k + 1;
        }

        compute_outside_distances(&mut distances, &flags, &heap, &process_image, radius);

        let pd = ProcessData { distances, process_image, flags, heap };
        proof {
            let prepared = spec_prepared_state(
                image.data@, hh, ww, gc, mask.data@, radius as int);
            assert(pd.state(ZERO_BITS) == prepared);
        }
        Ok(pd)
    }

    /// Run the narrow-band propagation to completion: service the
    /// minimum queue entry, finalize it, and resolve and reconstruct
    /// its Inside neighbors, until the queue empties.
    pub fn run(&mut self, radius: i32)
        requires
            old(self).wf(),
            1 <= radius <= 0xFFFF,
        ensures
            final(self).wf(),
            final(self).process_image.height == old(self).process_image.height,
            final(self).process_image.width == old(self).process_image.width,
            final(self).process_image.channels == old(self).process_image.channels,
            ({
                let t = spec_run(
                    old(self).process_image.height as int,
                    old(self).process_image.width as int,
                    old(self).process_image.channels as int,
                    radius as int, false, ZERO_BITS,
                    old(self).state(ZERO_BITS));
                &&& final(self).flags.data@ == t.flags
                &&& final(self).distances.data@ == t.dist
                &&& final(self).process_image.data@ == t.img
                &&& final(self).heap@ == t.queue
            }),
    {
        let height: usize = self.process_image.height;
        let width: usize = self.process_image.width;
        let ghost hh: int = height as int;
        let ghost ww: int = width as int;
        let ghost gc: int = self.process_image.channels as int;
        let ghost rr: int = radius as int;
        let ghost start: PropState = self.state(ZERO_BITS);
        let mut last: u32 = ZERO_BITS;
        while !self.heap.is_empty()
            invariant
                self.wf(),
                self.process_image.height == height,
                self.process_image.width == width,
                1 <= radius <= 0xFFFF,
                hh == height as int,
                ww == width as int,
                gc == self.process_image.channels as int,
                rr == radius as int,
                state_wf(hh, ww, gc, start),
                state_wf(hh, ww, gc, self.state(last)),
                spec_run(hh, ww, gc, rr, false, ZERO_BITS, self.state(last))
                    == spec_run(hh, ww, gc, rr, false, ZERO_BITS, start),
            decreases (self.heap@.len() + 2 * (count_inside(self.flags.data@) as int)),
        {
            let ghost cur: PropState = self.state(last);
            proof {
                assert(!spec_stop(false, ZERO_BITS, cur));
            }
            let it = self.heap.pop();
            if it.y < height && it.x < width {
                let stale = self.flags.get(it.y, it.x) == Flag::Known;
                if !stale {
                    self.flags.set(it.y, it.x, Flag::Known);
                    let ghost s1: PropState = self.state(last);
                    last = process_neighbor(
                        &mut self.distances, &mut self.flags, &mut self.process_image,
                        &mut self.heap, last, it.y as i64 - 1, it.x as i64, radius);
                    let ghost t1: PropState = self.state(last);
                    proof {
                        assert(t1 == spec_neighbor_step(hh, ww, gc, rr, false, s1, it.y - 1, it.x as int));
                    }
                    last = process_neighbor(
                        &mut self.distances, &mut self.flags, &mut self.process_image,
                        &mut self.heap, last, it.y as i64, it.x as i64 - 1, radius);
                    let ghost t2: PropState = self.state(last);
                    proof {
                        assert(t2 == spec_neighbor_step(hh, ww, gc, rr, false, t1, it.y as int, it.x - 1));
                    }
                    last = process_neighbor(
                        &mut self.distances, &mut self.flags, &mut self.process_image,
                        &mut self.heap, last, it.y as i64 + 1, it.x as i64, radius);
                    let ghost t3: PropState = self.state(last);
                    proof {
                        assert(t3 == spec_neighbor_step(hh, ww, gc, rr, false, t2, it.y + 1, it.x as int));
                    }
                    last = process_neighbor(
                        &mut self.distances, &mut self.flags, &mut self.process_image,
                        &mut self.heap, last, it.y as i64, it.x as i64 + 1, radius);
                    proof {
                        let t4: PropState = self.state(last);
                        assert(t4 == spec_neighbor_step(hh, ww, gc, rr, false, t3, it.y as int, it.x + 1));
                    }
                }
            }
            proof {
                let nxt: PropState = self.state(last);
                assert(nxt == spec_step(hh, ww, gc, rr, false, cur));
                lemma_step_wf_measure(hh, ww, gc, rr, false, cur);
                assert(spec_run(hh, ww, gc, rr, false, ZERO_BITS, cur)
                    == spec_run(hh, ww, gc, rr, false, ZERO_BITS, nxt));
            }
        }
        proof {
            let cur: PropState = self.state(last);
            assert(spec_stop(false, ZERO_BITS, cur));
            assert(spec_run(hh, ww, gc, rr, false, ZERO_BITS, cur) == cur);
            let t = spec_run(hh, ww, gc, rr, false, ZERO_BITS, start);
            assert(cur == t);
        }
    }
}

/// Inpaint the image in place according to the mask: every masked
/// pixel reachable from the initial frontier is reconstructed, every
/// unmasked pixel is unchanged bit for bit, and the result is a
/// function of the image, the mask and the radius alone.
pub fn telea_inpaint(
    image: &mut ImageBuffer,
    mask: &Grid<u8>,
    radius: i32,
) -> (r: core::result::Result<(), Error>)
    requires
        old(image).wf(),
        mask.wf(),
        1 <= radius <= 0xFFFF,
    ensures
        match r {
            Ok(u) => {
                &&& mask.height == old(image).height
                &&& mask.width == old(image).width
                &&& final(image).wf()
                &&& final(image).height == old(image).height
                &&& final(image).width == old(image).width
                &&& final(image).channels == old(image).channels
                &&& final(image).data@ == spec_telea(
                    old(image).data@, old(image).height as int, old(image).width as int,
                    old(image).channels as int, mask.data@, radius as int)
            },
            Err(e) => {
                &&& e == Error::DimensionMismatch
                &&& !(mask.height == old(image).height && mask.width == old(image).width)
                &&& *final(image) == *old(image)
            },
        },
{
    if image.height != mask.height || image.width != mask.width {
        return Err(Error::DimensionMismatch);
    }
    let pd_res = ProcessData::new(image, mask, radius);
    let mut pd = match pd_res {
        Ok(p) => p,
        Err(e) => {
            return Err(e);
        },
    };
    pd.run(radius);
    proof {
        assert(pd.process_image.data@ == spec_telea(
            old(image).data@, old(image).height as int, old(image).width as int,
            old(image).channels as int, mask.data@, radius as int));
    }
    *image = pd.process_image;
    Ok(())
}

} // verus!
