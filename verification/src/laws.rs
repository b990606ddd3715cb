//! Laws of the inpainting run, proved against the interpreter that
//! specifies it: determinism, and bit-for-bit preservation of the
//! unmasked pixels.

use vstd::prelude::*;
use crate::queue::QueueItem;
use crate::telea::{
    lemma_step_wf_measure, measure, spec_init_scan,
    spec_initial_flags, spec_initial_state, spec_neighbor_step, spec_prepared_state, spec_run,
    spec_step, spec_stop, spec_telea, state_wf, Flag, PropState,
};

verus! {

/// Determinism: the same image, mask and radius always produce the
/// identical final image, bit for bit.
pub proof fn lemma_inpaint_deterministic(
    img1: Seq<u32>, mask1: Seq<u8>,
    img2: Seq<u32>, mask2: Seq<u8>,
    h: int, w: int, c: int, radius: int,
)
    requires
        img1 == img2,
        mask1 == mask2,
    ensures
        spec_telea(img1, h, w, c, mask1, radius) == spec_telea(img2, h, w, c, mask2, radius),
{
}

/// The per-pixel fact carried through a run: the pixel is not flagged
/// Inside, and its channel sample is what it was at the start.
pub open spec fn pixel_untouched(
    img0: Seq<u32>, c: int, p: int, ch: int, s: PropState,
) -> bool {
    &&& s.flags[p] != Flag::Inside
    &&& s.img[p * c + ch] == img0[p * c + ch]
}

/// Visiting a neighbor never writes a pixel that is not flagged
/// Inside, and never flags a pixel Inside.
proof fn lemma_neighbor_preserves(
    h: int, w: int, c: int, radius: int, exterior: bool,
    s: PropState, ny: int, nx: int,
    img0: Seq<u32>, p: int, ch: int,
)
    requires
        state_wf(h, w, c, s),
        0 <= p < h * w,
        0 <= ch < c,
        pixel_untouched(img0, c, p, ch, s),
    ensures
        pixel_untouched(img0, c, p, ch, spec_neighbor_step(h, w, c, radius, exterior, s, ny, nx)),
{
    match crate::eikonal::spec_get_eikonal(ny, nx, h, w, s.dist, s.flags) {
        Option::None => {},
        Option::Some(e) => {
            let n = ny * w + nx;
            assert(s.flags[n] == Flag::Inside);
            assert(n != p);
            assert(0 <= n < h * w) by (nonlinear_arith)
                requires 0 <= ny < h, 0 <= nx < w, n == ny * w + nx;
            // the written channel block of pixel n does not cover the
            // sample of pixel p
            assert(p * c + ch < n * c || p * c + ch >= n * c + c) by (nonlinear_arith)
                requires 0 <= ch < c, p != n, 0 <= p, 0 <= n;
            assert(0 <= p * c + ch < h * w * c) by (nonlinear_arith)
                requires 0 <= p < h * w, 0 <= ch < c;
        },
    }
}

/// Servicing one queue entry never writes a pixel that is not flagged
/// Inside, and never flags a pixel Inside.
proof fn lemma_step_preserves(
    h: int, w: int, c: int, radius: int, exterior: bool, s: PropState,
    img0: Seq<u32>, p: int, ch: int,
)
    requires
        state_wf(h, w, c, s),
        s.queue.len() > 0,
        0 <= p < h * w,
        0 <= ch < c,
        pixel_untouched(img0, c, p, ch, s),
    ensures
        pixel_untouched(img0, c, p, ch, spec_step(h, w, c, radius, exterior, s)),
{
    let n = s.queue.len() as int;
    crate::queue::lemma_scan_best_min(s.queue, n);
    let b = crate::queue::scan_best(s.queue, n);
    let it = s.queue[b];
    let q1 = s.queue.remove(b);
    let s0 = PropState { flags: s.flags, dist: s.dist, img: s.img, queue: q1, last: s.last };
    if !(it.y < h && it.x < w) {
    } else if s.flags[it.y * w + it.x] == Flag::Known {
    } else {
        assert(0 <= it.y * w + it.x < h * w) by (nonlinear_arith)
            requires 0 <= it.y < h, 0 <= it.x < w;
        let s1 = PropState {
            flags: s0.flags.update(it.y * w + it.x, Flag::Known),
            dist: s0.dist, img: s0.img, queue: s0.queue, last: s0.last,
        };
        assert(pixel_untouched(img0, c, p, ch, s1));
        crate::telea::lemma_neighbor_wf_measure(h, w, c, radius, exterior, s1, it.y - 1, it.x as int);
        lemma_neighbor_preserves(h, w, c, radius, exterior, s1, it.y - 1, it.x as int, img0, p, ch);
        let t1 = spec_neighbor_step(h, w, c, radius, exterior, s1, it.y - 1, it.x as int);
        crate::telea::lemma_neighbor_wf_measure(h, w, c, radius, exterior, t1, it.y as int, it.x - 1);
        lemma_neighbor_preserves(h, w, c, radius, exterior, t1, it.y as int, it.x - 1, img0, p, ch);
        let t2 = spec_neighbor_step(h, w, c, radius, exterior, t1, it.y as int, it.x - 1);
        crate::telea::lemma_neighbor_wf_measure(h, w, c, radius, exterior, t2, it.y + 1, it.x as int);
        lemma_neighbor_preserves(h, w, c, radius, exterior, t2, it.y + 1, it.x as int, img0, p, ch);
        let t3 = spec_neighbor_step(h, w, c, radius, exterior, t2, it.y + 1, it.x as int);
        lemma_neighbor_preserves(h, w, c, radius, exterior, t3, it.y as int, it.x + 1, img0, p, ch);
    }
}

/// A whole run never writes a pixel that starts out non-Inside, and
/// never flags it Inside.
pub proof fn lemma_run_preserves(
    h: int, w: int, c: int, radius: int, exterior: bool, bound: u32, s: PropState,
    img0: Seq<u32>, p: int, ch: int,
)
    requires
        state_wf(h, w, c, s),
        0 <= p < h * w,
        0 <= ch < c,
        pixel_untouched(img0, c, p, ch, s),
    ensures
        pixel_untouched(img0, c, p, ch, spec_run(h, w, c, radius, exterior, bound, s)),
    decreases measure(s),
{
    if !spec_stop(exterior, bound, s) {
        lemma_step_wf_measure(h, w, c, radius, exterior, s);
        lemma_step_preserves(h, w, c, radius, exterior, s, img0, p, ch);
        lemma_run_preserves(
            h, w, c, radius, exterior, bound,
            spec_step(h, w, c, radius, exterior, s), img0, p, ch);
    }
}

/// The initialization scan keeps the grid sizes, never flags a pixel
/// Inside that was not, and never un-flags an Inside pixel.
proof fn lemma_init_scan_preserves(
    h: int, w: int,
    flags0: Seq<Flag>, dist0: Seq<u32>, queue0: Seq<QueueItem>,
    k: int, p: int,
)
    requires
        0 <= p < flags0.len(),
        flags0.len() == h * w,
        dist0.len() == h * w,
    ensures
        ({
            let scanned = spec_init_scan(h, w, flags0, dist0, queue0, k);
            &&& scanned.0.len() == flags0.len()
            &&& scanned.1.len() == dist0.len()
            &&& (scanned.0[p] == Flag::Inside <==> flags0[p] == Flag::Inside)
        }),
    decreases k,
{
    if k > 0 {
        lemma_init_scan_preserves(h, w, flags0, dist0, queue0, k - 1, p);
        let prev = spec_init_scan(h, w, flags0, dist0, queue0, k - 1);
        let i = (k - 1) / 4;
        let j = (k - 1) % 4;
        let y = i / w;
        let x = i % w;
        let nyx = crate::eikonal::spec_neighbor(y, x, j);
        let nn = nyx.0 * w + nyx.1;
        if prev.0[i] == Flag::Inside && crate::eikonal::in_bounds(nyx.0, nyx.1, h, w)
            && prev.0[nn] == Flag::Known {
            let scanned = spec_init_scan(h, w, flags0, dist0, queue0, k);
            assert(0 <= nn < h * w) by (nonlinear_arith)
                requires 0 <= nyx.0 < h, 0 <= nyx.1 < w, nn == nyx.0 * w + nyx.1;
            assert(scanned.0 == prev.0.update(nn, Flag::Band));
            assert(scanned.0[p] == (if p == nn { Flag::Band } else { prev.0[p] }));
        }
    }
}

/// An unmasked pixel is never flagged Inside, at any point of a run:
/// in particular it is never reconstructed.
pub proof fn lemma_unmasked_never_inside(
    img: Seq<u32>, h: int, w: int, c: int, mask: Seq<u8>, radius: int, p: int,
)
    requires
        0 <= h <= 0x3FFF_FFFF,
        0 <= w <= 0x3FFF_FFFF,
        1 <= c <= 0x3FFF_FFFF,
        mask.len() == h * w,
        img.len() == h * w * c,
        0 <= p < h * w,
        mask[p] != 1,
    ensures
        spec_run(
            h, w, c, radius, false, crate::fbits::ZERO_BITS,
            spec_prepared_state(img, h, w, c, mask, radius),
        ).flags[p] != Flag::Inside,
{
    lemma_known_pixels_body(img, h, w, c, mask, radius, p, 0);
}

/// Pixels whose mask sample is not one are unchanged bit for bit, and
/// are never flagged Inside: the final image of a run agrees with the
/// input image on every channel sample of every unmasked pixel.
pub proof fn lemma_known_pixels_unchanged(
    img: Seq<u32>, h: int, w: int, c: int, mask: Seq<u8>, radius: int, p: int, ch: int,
)
    requires
        0 <= h <= 0x3FFF_FFFF,
        0 <= w <= 0x3FFF_FFFF,
        1 <= c <= 0x3FFF_FFFF,
        mask.len() == h * w,
        img.len() == h * w * c,
        0 <= p < h * w,
        0 <= ch < c,
        mask[p] != 1,
    ensures
        spec_telea(img, h, w, c, mask, radius)[p * c + ch] == img[p * c + ch],
{
    lemma_known_pixels_body(img, h, w, c, mask, radius, p, ch);
}

/// Shared body of the two preservation laws: the pixel stays
/// non-Inside and its sample stays what it was.
proof fn lemma_known_pixels_body(
    img: Seq<u32>, h: int, w: int, c: int, mask: Seq<u8>, radius: int, p: int, ch: int,
)
    requires
        0 <= h <= 0x3FFF_FFFF,
        0 <= w <= 0x3FFF_FFFF,
        1 <= c <= 0x3FFF_FFFF,
        mask.len() == h * w,
        img.len() == h * w * c,
        0 <= p < h * w,
        0 <= ch < c,
        mask[p] != 1,
    ensures
        ({
            let done = spec_run(
                h, w, c, radius, false, crate::fbits::ZERO_BITS,
                spec_prepared_state(img, h, w, c, mask, radius));
            &&& done.img[p * c + ch] == img[p * c + ch]
            &&& done.flags[p] != Flag::Inside
        }),
        spec_telea(img, h, w, c, mask, radius)[p * c + ch] == img[p * c + ch],
{
    let flags0 = spec_initial_flags(mask);
    let init = spec_initial_state(img, h, w, mask);
    lemma_init_scan_preserves(
        h, w, flags0, Seq::new((h * w) as nat, |i: int| crate::fbits::MAX_BITS),
        Seq::empty(), h * w * 4, p);
    let prepared = spec_prepared_state(img, h, w, c, mask, radius);
    assert(prepared.flags == init.flags && prepared.img == img);
    let flipped = PropState {
        flags: init.flags.map_values(|f: Flag| crate::telea::spec_flip_flag(f)),
        dist: init.dist,
        img: init.img,
        queue: init.queue,
        last: crate::fbits::ZERO_BITS,
    };
    assert(state_wf(h, w, c, flipped));
    crate::telea::lemma_run_wf(
        h, w, c, radius, true,
        crate::fbits::f32_mul(crate::fbits::f32_of_i32(radius as i32), crate::fbits::TWO_BITS),
        flipped);
    assert(state_wf(h, w, c, prepared));
    assert(prepared.flags[p] != Flag::Inside);
    assert(0 <= p * c + ch < h * w * c) by (nonlinear_arith)
        requires 0 <= p < h * w, 0 <= ch < c;
    lemma_run_preserves(
        h, w, c, radius, false, crate::fbits::ZERO_BITS, prepared, img, p, ch);
}


/// The interior run stops only when the queue is empty.
pub proof fn lemma_run_drains_queue(
    h: int, w: int, c: int, radius: int, bound: u32, s: PropState,
)
    requires
        state_wf(h, w, c, s),
    ensures
        spec_run(h, w, c, radius, false, bound, s).queue.len() == 0,
    decreases measure(s),
{
    if !spec_stop(false, bound, s) {
        lemma_step_wf_measure(h, w, c, radius, false, s);
        lemma_run_drains_queue(h, w, c, radius, bound, spec_step(h, w, c, radius, false, s));
    }
}

/// Servicing one live queue entry exhausts its neighborhood: after the
/// step, no in-bounds axis neighbor of the finalized pixel is still
/// flagged Inside.  This is the mechanism by which the propagation
/// sweeps every masked pixel that the frontier can reach.
pub proof fn lemma_step_exhausts_neighbors(
    h: int, w: int, c: int, radius: int, exterior: bool, s: PropState,
)
    requires
        state_wf(h, w, c, s),
        s.queue.len() > 0,
        ({
            let it = s.queue[crate::queue::scan_best(s.queue, s.queue.len() as int)];
            &&& it.y < h
            &&& it.x < w
            &&& s.flags[it.y * w + it.x] != Flag::Known
        }),
    ensures
        ({
            let it = s.queue[crate::queue::scan_best(s.queue, s.queue.len() as int)];
            let done = spec_step(h, w, c, radius, exterior, s);
            &&& done.flags[it.y * w + it.x] == Flag::Known
            &&& forall|j: int|
                #![trigger crate::eikonal::spec_neighbor(it.y as int, it.x as int, j)]
                0 <= j < 4 ==> ({
                let nb = crate::eikonal::spec_neighbor(it.y as int, it.x as int, j);
                crate::eikonal::in_bounds(nb.0, nb.1, h, w)
                    ==> done.flags[nb.0 * w + nb.1] != Flag::Inside
            })
        }),
{
    let n = s.queue.len() as int;
    crate::queue::lemma_scan_best_min(s.queue, n);
    let b = crate::queue::scan_best(s.queue, n);
    let it = s.queue[b];
    let q1 = s.queue.remove(b);
    let s0 = PropState { flags: s.flags, dist: s.dist, img: s.img, queue: q1, last: s.last };
    let pidx = it.y * w + it.x;
    assert(0 <= pidx < h * w) by (nonlinear_arith)
        requires 0 <= it.y < h, 0 <= it.x < w, pidx == it.y * w + it.x;
    let s1 = PropState {
        flags: s0.flags.update(pidx, Flag::Known),
        dist: s0.dist, img: s0.img, queue: s0.queue, last: s0.last,
    };
    crate::telea::lemma_neighbor_wf_measure(h, w, c, radius, exterior, s1, it.y - 1, it.x as int);
    let t1 = spec_neighbor_step(h, w, c, radius, exterior, s1, it.y - 1, it.x as int);
    crate::telea::lemma_neighbor_wf_measure(h, w, c, radius, exterior, t1, it.y as int, it.x - 1);
    let t2 = spec_neighbor_step(h, w, c, radius, exterior, t1, it.y as int, it.x - 1);
    crate::telea::lemma_neighbor_wf_measure(h, w, c, radius, exterior, t2, it.y + 1, it.x as int);
    let t3 = spec_neighbor_step(h, w, c, radius, exterior, t2, it.y + 1, it.x as int);
    crate::telea::lemma_neighbor_wf_measure(h, w, c, radius, exterior, t3, it.y as int, it.x + 1);
    let t4 = spec_neighbor_step(h, w, c, radius, exterior, t3, it.y as int, it.x + 1);

    assert forall|j: int|
        #![trigger crate::eikonal::spec_neighbor(it.y as int, it.x as int, j)]
        0 <= j < 4 implies ({
        let nb = crate::eikonal::spec_neighbor(it.y as int, it.x as int, j);
        crate::eikonal::in_bounds(nb.0, nb.1, h, w)
            ==> t4.flags[nb.0 * w + nb.1] != Flag::Inside
    }) by {
        let nb = crate::eikonal::spec_neighbor(it.y as int, it.x as int, j);
        if crate::eikonal::in_bounds(nb.0, nb.1, h, w) {
            let nidx = nb.0 * w + nb.1;
            assert(0 <= nidx < h * w) by (nonlinear_arith)
                requires 0 <= nb.0 < h, 0 <= nb.1 < w, nidx == nb.0 * w + nb.1;
            lemma_neighbor_keeps_non_inside(h, w, c, radius, exterior, s1, it.y - 1, it.x as int, nidx);
            lemma_neighbor_keeps_non_inside(h, w, c, radius, exterior, t1, it.y as int, it.x - 1, nidx);
            lemma_neighbor_keeps_non_inside(h, w, c, radius, exterior, t2, it.y + 1, it.x as int, nidx);
            lemma_neighbor_keeps_non_inside(h, w, c, radius, exterior, t3, it.y as int, it.x + 1, nidx);
            if j == 0 {
                assert(t1.flags[nidx] != Flag::Inside);
            } else if j == 1 {
                assert(t2.flags[nidx] != Flag::Inside);
            } else if j == 2 {
                assert(t3.flags[nidx] != Flag::Inside);
            } else {
                assert(t4.flags[nidx] != Flag::Inside);
            }
        }
    }
    lemma_neighbor_keeps_non_inside(h, w, c, radius, exterior, s1, it.y - 1, it.x as int, pidx);
    lemma_neighbor_keeps_non_inside(h, w, c, radius, exterior, t1, it.y as int, it.x - 1, pidx);
    lemma_neighbor_keeps_non_inside(h, w, c, radius, exterior, t2, it.y + 1, it.x as int, pidx);
    lemma_neighbor_keeps_non_inside(h, w, c, radius, exterior, t3, it.y as int, it.x + 1, pidx);
    assert(t4.flags[pidx] == Flag::Known);
}

/// Visiting a neighbor either leaves a pixel's flag alone or resolves
/// that very pixel to Band: once a pixel is not Inside, it stays that
/// way, and the visited pixel itself ends up not Inside whenever it
/// lies in bounds.
proof fn lemma_neighbor_keeps_non_inside(
    h: int, w: int, c: int, radius: int, exterior: bool,
    s: PropState, ny: int, nx: int, q: int,
)
    requires
        state_wf(h, w, c, s),
        0 <= q < h * w,
    ensures
        ({
            let done = spec_neighbor_step(h, w, c, radius, exterior, s, ny, nx);
            &&& (s.flags[q] != Flag::Inside ==> done.flags[q] == s.flags[q])
            &&& (crate::eikonal::in_bounds(ny, nx, h, w) && q == ny * w + nx
                ==> done.flags[q] != Flag::Inside)
        }),
{
    match crate::eikonal::spec_get_eikonal(ny, nx, h, w, s.dist, s.flags) {
        Option::None => {},
        Option::Some(e) => {
            assert(0 <= ny * w + nx < h * w) by (nonlinear_arith)
                requires 0 <= ny < h, 0 <= nx < w;
        },
    }
}


/// Every pixel flagged Band has an entry with its coordinate in the
/// queue.
pub open spec fn band_has_entry(h: int, w: int, s: PropState) -> bool {
    forall|py: int, px: int| #![trigger s.flags[py * w + px]]
        0 <= py < h && 0 <= px < w && s.flags[py * w + px] == Flag::Band
            ==> exists|i: int| 0 <= i < s.queue.len()
                && (#[trigger] s.queue[i]).y == py && s.queue[i].x == px
}

/// No pixel flagged Inside has an in-bounds axis neighbor flagged
/// Known: the Band ring separates the unresolved region from the
/// resolved one.
pub open spec fn frontier_separates(h: int, w: int, flags: Seq<Flag>) -> bool {
    forall|py: int, px: int, j: int|
        #![trigger flags[py * w + px], crate::eikonal::spec_neighbor(py, px, j)]
        0 <= py < h && 0 <= px < w && 0 <= j < 4 && flags[py * w + px] == Flag::Inside
            ==> ({
                let nb = crate::eikonal::spec_neighbor(py, px, j);
                crate::eikonal::in_bounds(nb.0, nb.1, h, w) ==> flags[nb.0 * w + nb.1] != Flag::Known
            })
}

/// Two in-bounds coordinates with the same row-major index are equal.
proof fn lemma_index_injective(h: int, w: int, y1: int, x1: int, y2: int, x2: int)
    requires
        0 <= y1 < h, 0 <= x1 < w,
        0 <= y2 < h, 0 <= x2 < w,
        y1 * w + x1 == y2 * w + x2,
    ensures
        y1 == y2 && x1 == x2,
{
    assert(y1 == y2 && x1 == x2) by (nonlinear_arith)
        requires
            0 <= x1 < w, 0 <= x2 < w,
            y1 * w + x1 == y2 * w + x2;
}

/// How one neighbor visit changes the state: flags change at most at
/// the visited pixel (from Inside to Band), the queue grows by at most
/// one entry carrying that coordinate, and existing entries keep their
/// positions.
proof fn lemma_neighbor_effect(
    h: int, w: int, c: int, radius: int, exterior: bool,
    s: PropState, ny: int, nx: int,
)
    requires
        state_wf(h, w, c, s),
    ensures
        ({
            let t = spec_neighbor_step(h, w, c, radius, exterior, s, ny, nx);
            &&& t.flags.len() == s.flags.len()
            &&& s.queue.len() <= t.queue.len()
            &&& forall|i: int| 0 <= i < s.queue.len() ==> #[trigger] t.queue[i] == s.queue[i]
            &&& forall|q: int| 0 <= q < h * w && q != ny * w + nx
                ==> #[trigger] t.flags[q] == s.flags[q]
            &&& (t.flags != s.flags || t.queue != s.queue) ==> ({
                &&& crate::eikonal::in_bounds(ny, nx, h, w)
                &&& s.flags[ny * w + nx] == Flag::Inside
                &&& t.flags[ny * w + nx] == Flag::Band
                &&& t.queue.len() == s.queue.len() + 1
                &&& t.queue[s.queue.len() as int].y == ny
                &&& t.queue[s.queue.len() as int].x == nx
            })
        }),
{
    match crate::eikonal::spec_get_eikonal(ny, nx, h, w, s.dist, s.flags) {
        Option::None => {},
        Option::Some(e) => {
            assert(0 <= ny * w + nx < h * w) by (nonlinear_arith)
                requires 0 <= ny < h, 0 <= nx < w;
        },
    }
}


/// Removing an entry other than a coordinate's witness keeps an entry
/// with that coordinate in the queue.
proof fn lemma_remove_keeps_entry(q: Seq<QueueItem>, b: int, py: int, px: int)
    requires
        0 <= b < q.len(),
        exists|i: int| 0 <= i < q.len() && (#[trigger] q[i]).y == py && q[i].x == px,
        !(q[b].y == py && q[b].x == px),
    ensures
        exists|i: int| 0 <= i < q.len() - 1
            && (#[trigger] q.remove(b)[i]).y == py && q.remove(b)[i].x == px,
{
    let i0 = choose|i: int| 0 <= i < q.len() && (#[trigger] q[i]).y == py && q[i].x == px;
    if i0 < b {
        assert(q.remove(b)[i0] == q[i0]);
    } else {
        assert(i0 > b);
        assert(q.remove(b)[i0 - 1] == q[i0]);
    }
}

/// Servicing one queue entry keeps every Band pixel's entry in the
/// queue.
#[verifier::rlimit(100)]
#[verifier::spinoff_prover]
proof fn lemma_step_band_entry(
    h: int, w: int, c: int, radius: int, exterior: bool, s: PropState,
)
    requires
        state_wf(h, w, c, s),
        s.queue.len() > 0,
        band_has_entry(h, w, s),
        frontier_separates(h, w, s.flags),
    ensures
        band_has_entry(h, w, spec_step(h, w, c, radius, exterior, s)),
{
    let n = s.queue.len() as int;
    crate::queue::lemma_scan_best_min(s.queue, n);
    let b = crate::queue::scan_best(s.queue, n);
    let it = s.queue[b];
    let q1 = s.queue.remove(b);
    let done = spec_step(h, w, c, radius, exterior, s);
    if !(it.y < h && it.x < w) {
        // out-of-range entry discarded: flags unchanged
        assert(done.flags == s.flags);
        assert forall|py: int, px: int|
            #![trigger done.flags[py * w + px]]
            0 <= py < h && 0 <= px < w && done.flags[py * w + px] == Flag::Band
            implies exists|i: int| 0 <= i < done.queue.len()
                && (#[trigger] done.queue[i]).y == py && done.queue[i].x == px by {
            assert(s.flags[py * w + px] == Flag::Band);
            lemma_remove_keeps_entry(s.queue, b, py, px);
            assert(done.queue == s.queue.remove(b));
            let iw = choose|i: int| 0 <= i < s.queue.remove(b).len()
                && (#[trigger] s.queue.remove(b)[i]).y == py && s.queue.remove(b)[i].x == px;
            assert(done.queue[iw].y == py && done.queue[iw].x == px);
        }
    } else if s.flags[it.y * w + it.x] == Flag::Known {
        // stale entry discarded: flags unchanged
        assert(done.flags == s.flags);
        assert forall|py: int, px: int|
            #![trigger done.flags[py * w + px]]
            0 <= py < h && 0 <= px < w && done.flags[py * w + px] == Flag::Band
            implies exists|i: int| 0 <= i < done.queue.len()
                && (#[trigger] done.queue[i]).y == py && done.queue[i].x == px by {
            assert(s.flags[py * w + px] == Flag::Band);
            if it.y == py && it.x == px {
                assert(s.flags[py * w + px] == Flag::Known);
            }
            lemma_remove_keeps_entry(s.queue, b, py, px);
            assert(done.queue == s.queue.remove(b));
            let iw = choose|i: int| 0 <= i < s.queue.remove(b).len()
                && (#[trigger] s.queue.remove(b)[i]).y == py && s.queue.remove(b)[i].x == px;
            assert(done.queue[iw].y == py && done.queue[iw].x == px);
        }
    } else {
        let pidx = it.y * w + it.x;
        assert(0 <= pidx < h * w) by (nonlinear_arith)
            requires 0 <= it.y < h, 0 <= it.x < w, pidx == it.y * w + it.x;
        let s0 = PropState { flags: s.flags, dist: s.dist, img: s.img, queue: q1, last: s.last };
        let s1 = PropState {
            flags: s0.flags.update(pidx, Flag::Known),
            dist: s0.dist, img: s0.img, queue: s0.queue, last: s0.last,
        };
        crate::telea::lemma_neighbor_wf_measure(h, w, c, radius, exterior, s1, it.y - 1, it.x as int);
        let t1 = spec_neighbor_step(h, w, c, radius, exterior, s1, it.y - 1, it.x as int);
        crate::telea::lemma_neighbor_wf_measure(h, w, c, radius, exterior, t1, it.y as int, it.x - 1);
        let t2 = spec_neighbor_step(h, w, c, radius, exterior, t1, it.y as int, it.x - 1);
        crate::telea::lemma_neighbor_wf_measure(h, w, c, radius, exterior, t2, it.y + 1, it.x as int);
        let t3 = spec_neighbor_step(h, w, c, radius, exterior, t2, it.y + 1, it.x as int);
        let t4 = spec_neighbor_step(h, w, c, radius, exterior, t3, it.y as int, it.x + 1);
        lemma_neighbor_effect(h, w, c, radius, exterior, s1, it.y - 1, it.x as int);
        lemma_neighbor_effect(h, w, c, radius, exterior, t1, it.y as int, it.x - 1);
        lemma_neighbor_effect(h, w, c, radius, exterior, t2, it.y + 1, it.x as int);
        lemma_neighbor_effect(h, w, c, radius, exterior, t3, it.y as int, it.x + 1);
        lemma_step_exhausts_neighbors(h, w, c, radius, exterior, s);
        assert(done == t4);

        let n1: int = (it.y - 1) * w + it.x;
        let n2: int = it.y * w + (it.x - 1);
        let n3: int = (it.y + 1) * w + it.x;
        let n4: int = it.y * w + (it.x + 1);

        // every Band pixel of the result has an entry
        assert forall|py: int, px: int|
            #![trigger t4.flags[py * w + px]]
            0 <= py < h && 0 <= px < w && t4.flags[py * w + px] == Flag::Band
            implies exists|i: int| 0 <= i < t4.queue.len()
                && (#[trigger] t4.queue[i]).y == py && t4.queue[i].x == px by {
            let q = py * w + px;
            assert(0 <= q < h * w) by (nonlinear_arith)
                requires 0 <= py < h, 0 <= px < w, q == py * w + px;
            if q == pidx {
                // the finalized pixel stays Known through the visits
                if n1 != pidx && n2 != pidx && n3 != pidx && n4 != pidx {
                    assert(t4.flags[pidx] == Flag::Known);
                } else {
                    assert(n1 != pidx && n2 != pidx && n3 != pidx && n4 != pidx)
                        by (nonlinear_arith)
                        requires
                            n1 == (it.y - 1) * w + it.x,
                            n2 == it.y * w + (it.x - 1),
                            n3 == (it.y + 1) * w + it.x,
                            n4 == it.y * w + (it.x + 1),
                            pidx == it.y * w + it.x,
                            1 <= w;
                    assert(t4.flags[pidx] == Flag::Known);
                }
                assert(false);
            } else if s.flags[q] == Flag::Band {
                // an old Band pixel: its witness survives the removal
                if it.y == py && it.x == px {
                    lemma_index_injective(h, w, it.y as int, it.x as int, py, px);
                    assert(false);
                }
                lemma_remove_keeps_entry(s.queue, b, py, px);
                let i1 = choose|i: int| 0 <= i < q1.len()
                    && (#[trigger] q1[i]).y == py && q1[i].x == px;
                assert(t4.queue[i1] == q1[i1]);
            } else {
                // newly banded: one of the visits pushed its entry
                if t1.flags[q] != s1.flags[q] {
                    assert(q == n1 && t1.queue[q1.len() as int].y == py
                        && t1.queue[q1.len() as int].x == px) by {
                        lemma_index_injective(h, w, it.y - 1, it.x as int, py, px);
                    }
                    assert(t4.queue[q1.len() as int] == t1.queue[q1.len() as int]);
                } else if t2.flags[q] != t1.flags[q] {
                    assert(q == n2 && t2.queue[t1.queue.len() as int].y == py
                        && t2.queue[t1.queue.len() as int].x == px) by {
                        lemma_index_injective(h, w, it.y as int, it.x - 1, py, px);
                    }
                    assert(t4.queue[t1.queue.len() as int] == t2.queue[t1.queue.len() as int]);
                } else if t3.flags[q] != t2.flags[q] {
                    assert(q == n3 && t3.queue[t2.queue.len() as int].y == py
                        && t3.queue[t2.queue.len() as int].x == px) by {
                        lemma_index_injective(h, w, it.y + 1, it.x as int, py, px);
                    }
                    assert(t4.queue[t2.queue.len() as int] == t3.queue[t2.queue.len() as int]);
                } else {
                    assert(t4.flags[q] != t3.flags[q]);
                    assert(q == n4 && t4.queue[t3.queue.len() as int].y == py
                        && t4.queue[t3.queue.len() as int].x == px) by {
                        lemma_index_injective(h, w, it.y as int, it.x + 1, py, px);
                    }
                }
            }
        }

        assert(band_has_entry(h, w, t4));
    }
}

/// Servicing one queue entry never leaves an Inside pixel next to a
/// Known pixel.
#[verifier::rlimit(100)]
#[verifier::spinoff_prover]
proof fn lemma_step_separates(
    h: int, w: int, c: int, radius: int, exterior: bool, s: PropState,
)
    requires
        state_wf(h, w, c, s),
        s.queue.len() > 0,
        band_has_entry(h, w, s),
        frontier_separates(h, w, s.flags),
    ensures
        frontier_separates(h, w, spec_step(h, w, c, radius, exterior, s).flags),
{
    let n = s.queue.len() as int;
    crate::queue::lemma_scan_best_min(s.queue, n);
    let b = crate::queue::scan_best(s.queue, n);
    let it = s.queue[b];
    let q1 = s.queue.remove(b);
    let done = spec_step(h, w, c, radius, exterior, s);
    if !(it.y < h && it.x < w) {
        // out-of-range entry discarded: flags unchanged
        assert(done.flags == s.flags);
    } else if s.flags[it.y * w + it.x] == Flag::Known {
        // stale entry discarded: flags unchanged
        assert(done.flags == s.flags);
    } else {
        let pidx = it.y * w + it.x;
        assert(0 <= pidx < h * w) by (nonlinear_arith)
            requires 0 <= it.y < h, 0 <= it.x < w, pidx == it.y * w + it.x;
        let s0 = PropState { flags: s.flags, dist: s.dist, img: s.img, queue: q1, last: s.last };
        let s1 = PropState {
            flags: s0.flags.update(pidx, Flag::Known),
            dist: s0.dist, img: s0.img, queue: s0.queue, last: s0.last,
        };
        crate::telea::lemma_neighbor_wf_measure(h, w, c, radius, exterior, s1, it.y - 1, it.x as int);
        let t1 = spec_neighbor_step(h, w, c, radius, exterior, s1, it.y - 1, it.x as int);
        crate::telea::lemma_neighbor_wf_measure(h, w, c, radius, exterior, t1, it.y as int, it.x - 1);
        let t2 = spec_neighbor_step(h, w, c, radius, exterior, t1, it.y as int, it.x - 1);
        crate::telea::lemma_neighbor_wf_measure(h, w, c, radius, exterior, t2, it.y + 1, it.x as int);
        let t3 = spec_neighbor_step(h, w, c, radius, exterior, t2, it.y + 1, it.x as int);
        let t4 = spec_neighbor_step(h, w, c, radius, exterior, t3, it.y as int, it.x + 1);
        lemma_neighbor_effect(h, w, c, radius, exterior, s1, it.y - 1, it.x as int);
        lemma_neighbor_effect(h, w, c, radius, exterior, t1, it.y as int, it.x - 1);
        lemma_neighbor_effect(h, w, c, radius, exterior, t2, it.y + 1, it.x as int);
        lemma_neighbor_effect(h, w, c, radius, exterior, t3, it.y as int, it.x + 1);
        lemma_step_exhausts_neighbors(h, w, c, radius, exterior, s);
        assert(done == t4);

        let n1: int = (it.y - 1) * w + it.x;
        let n2: int = it.y * w + (it.x - 1);
        let n3: int = (it.y + 1) * w + it.x;
        let n4: int = it.y * w + (it.x + 1);

        // no Inside pixel of the result has a Known neighbor
        assert forall|py: int, px: int, j: int|
            #![trigger t4.flags[py * w + px], crate::eikonal::spec_neighbor(py, px, j)]
            0 <= py < h && 0 <= px < w && 0 <= j < 4 && t4.flags[py * w + px] == Flag::Inside
            implies ({
                let nb = crate::eikonal::spec_neighbor(py, px, j);
                crate::eikonal::in_bounds(nb.0, nb.1, h, w)
                    ==> t4.flags[nb.0 * w + nb.1] != Flag::Known
            }) by {
            let q = py * w + px;
            assert(0 <= q < h * w) by (nonlinear_arith)
                requires 0 <= py < h, 0 <= px < w, q == py * w + px;
            // still Inside, so it was Inside before and was not visited
            assert(s1.flags[q] == Flag::Inside);
            assert(q != pidx);
            assert(s.flags[q] == Flag::Inside);
            let nb = crate::eikonal::spec_neighbor(py, px, j);
            if crate::eikonal::in_bounds(nb.0, nb.1, h, w) {
                let nbq = nb.0 * w + nb.1;
                assert(0 <= nbq < h * w) by (nonlinear_arith)
                    requires 0 <= nb.0 < h, 0 <= nb.1 < w, nbq == nb.0 * w + nb.1;
                if t4.flags[nbq] == Flag::Known {
                    if nbq == pidx {
                        // the neighbor is the freshly finalized pixel, so
                        // this pixel is one of its four neighbors and was
                        // either visited or already resolved
                        lemma_index_injective(h, w, nb.0, nb.1, it.y as int, it.x as int);
                        let jb: int = if j == 0 { 2 } else if j == 1 { 3 }
                            else if j == 2 { 0 } else { 1 };
                        assert((py, px) == crate::eikonal::spec_neighbor(it.y as int, it.x as int, jb));
                        assert(t4.flags[q] != Flag::Inside);
                        assert(false);
                    } else {
                        // Known already before the step, against the
                        // invariant of the previous state
                        assert(s1.flags[nbq] == Flag::Known);
                        assert(s.flags[nbq] == Flag::Known);
                        assert(false);
                    }
                }
            }
        }
        assert(frontier_separates(h, w, t4.flags));
    }
}

/// Servicing one queue entry preserves both frontier invariants.
proof fn lemma_step_invariants(
    h: int, w: int, c: int, radius: int, exterior: bool, s: PropState,
)
    requires
        state_wf(h, w, c, s),
        s.queue.len() > 0,
        band_has_entry(h, w, s),
        frontier_separates(h, w, s.flags),
    ensures
        band_has_entry(h, w, spec_step(h, w, c, radius, exterior, s)),
        frontier_separates(h, w, spec_step(h, w, c, radius, exterior, s).flags),
{
    lemma_step_band_entry(h, w, c, radius, exterior, s);
    lemma_step_separates(h, w, c, radius, exterior, s);
}

/// A whole run preserves the two frontier invariants.
proof fn lemma_run_invariants(
    h: int, w: int, c: int, radius: int, exterior: bool, bound: u32, s: PropState,
)
    requires
        state_wf(h, w, c, s),
        band_has_entry(h, w, s),
        frontier_separates(h, w, s.flags),
    ensures
        band_has_entry(h, w, spec_run(h, w, c, radius, exterior, bound, s)),
        frontier_separates(h, w, spec_run(h, w, c, radius, exterior, bound, s).flags),
    decreases measure(s),
{
    if !spec_stop(exterior, bound, s) {
        lemma_step_wf_measure(h, w, c, radius, exterior, s);
        lemma_step_invariants(h, w, c, radius, exterior, s);
        lemma_run_invariants(
            h, w, c, radius, exterior, bound, spec_step(h, w, c, radius, exterior, s));
    }
}

/// The initialization scan establishes the two frontier invariants:
/// every banded pixel is enqueued as it is banded, and once the scan
/// has looked at a (pixel, neighbor) slot, an Inside pixel no longer
/// has a Known neighbor there.
#[verifier::rlimit(100)]
proof fn lemma_init_scan_invariants(
    h: int, w: int, flags0: Seq<Flag>, dist0: Seq<u32>, k: int,
)
    requires
        flags0.len() == h * w,
        dist0.len() == h * w,
        0 <= h <= 0x3FFF_FFFF,
        0 <= w <= 0x3FFF_FFFF,
        forall|q: int| 0 <= q < h * w ==> #[trigger] flags0[q] != Flag::Band,
    ensures
        ({
            let sc = spec_init_scan(h, w, flags0, dist0, Seq::empty(), k);
            &&& sc.0.len() == h * w
            &&& (forall|q: int| 0 <= q < h * w
                ==> ((#[trigger] sc.0[q] == Flag::Inside) <==> flags0[q] == Flag::Inside))
            &&& (forall|q: int| 0 <= q < h * w && flags0[q] != Flag::Known
                ==> #[trigger] sc.0[q] != Flag::Known)
            &&& (forall|py: int, px: int| #![trigger sc.0[py * w + px]]
                0 <= py < h && 0 <= px < w && sc.0[py * w + px] == Flag::Band
                    ==> exists|i: int| 0 <= i < sc.2.len()
                        && (#[trigger] sc.2[i]).y == py && sc.2[i].x == px)
            &&& (forall|py: int, px: int, j: int|
                #![trigger sc.0[py * w + px], crate::eikonal::spec_neighbor(py, px, j)]
                0 <= py < h && 0 <= px < w && 0 <= j < 4
                    && (py * w + px) * 4 + j < k
                    && sc.0[py * w + px] == Flag::Inside
                    ==> ({
                        let nb = crate::eikonal::spec_neighbor(py, px, j);
                        crate::eikonal::in_bounds(nb.0, nb.1, h, w)
                            ==> sc.0[nb.0 * w + nb.1] != Flag::Known
                    }))
        }),
    decreases k,
{
    if k <= 0 {
        let sc = spec_init_scan(h, w, flags0, dist0, Seq::empty(), k);
        assert forall|py: int, px: int| #![trigger sc.0[py * w + px]]
            0 <= py < h && 0 <= px < w && sc.0[py * w + px] == Flag::Band
            implies exists|i: int| 0 <= i < sc.2.len()
                && (#[trigger] sc.2[i]).y == py && sc.2[i].x == px by {
            assert(0 <= py * w + px < h * w) by (nonlinear_arith)
                requires 0 <= py < h, 0 <= px < w;
            assert(flags0[py * w + px] != Flag::Band);
        }
    } else {
        lemma_init_scan_invariants(h, w, flags0, dist0, k - 1);
        let prev = spec_init_scan(h, w, flags0, dist0, Seq::empty(), k - 1);
        let sc = spec_init_scan(h, w, flags0, dist0, Seq::empty(), k);
        let i = (k - 1) / 4;
        let j = (k - 1) % 4;
        let y = i / w;
        let x = i % w;
        let nyx = crate::eikonal::spec_neighbor(y, x, j);
        let nn = nyx.0 * w + nyx.1;
        if prev.0[i] == Flag::Inside && crate::eikonal::in_bounds(nyx.0, nyx.1, h, w)
            && prev.0[nn] == Flag::Known {
            assert(0 <= nn < h * w) by (nonlinear_arith)
                requires 0 <= nyx.0 < h, 0 <= nyx.1 < w, nn == nyx.0 * w + nyx.1;
            assert(sc.0 == prev.0.update(nn, Flag::Band));
            assert(sc.2 == prev.2.push(QueueItem {
                priority: crate::fbits::ZERO_BITS,
                y: nyx.0 as usize,
                x: nyx.1 as usize,
            }));
            assert(sc.0.len() == h * w);
            assert forall|q: int| 0 <= q < h * w
                implies ((#[trigger] sc.0[q] == Flag::Inside) <==> flags0[q] == Flag::Inside) by {
                if q != nn {
                    assert(sc.0[q] == prev.0[q]);
                } else {
                    assert(sc.0[q] == Flag::Band);
                    assert(prev.0[q] == Flag::Known);
                }
            }
            assert forall|q: int| 0 <= q < h * w && flags0[q] != Flag::Known
                implies #[trigger] sc.0[q] != Flag::Known by {
                if q != nn {
                    assert(sc.0[q] == prev.0[q]);
                }
            }
            assert forall|py: int, px: int| #![trigger sc.0[py * w + px]]
                0 <= py < h && 0 <= px < w && sc.0[py * w + px] == Flag::Band
                implies exists|i2: int| 0 <= i2 < sc.2.len()
                    && (#[trigger] sc.2[i2]).y == py && sc.2[i2].x == px by {
                let q = py * w + px;
                assert(0 <= q < h * w) by (nonlinear_arith)
                    requires 0 <= py < h, 0 <= px < w, q == py * w + px;
                if q == nn {
                    lemma_index_injective(h, w, py, px, nyx.0, nyx.1);
                    assert(py == nyx.0 && px == nyx.1);
                    assert(sc.2[prev.2.len() as int] == QueueItem {
                        priority: crate::fbits::ZERO_BITS,
                        y: nyx.0 as usize,
                        x: nyx.1 as usize,
                    });
                    assert(sc.2[prev.2.len() as int].y == py
                        && sc.2[prev.2.len() as int].x == px);
                } else {
                    assert(prev.0[q] == Flag::Band);
                    let iw = choose|i2: int| 0 <= i2 < prev.2.len()
                        && (#[trigger] prev.2[i2]).y == py && prev.2[i2].x == px;
                    assert(sc.2[iw] == prev.2[iw]);
                }
            }
        } else {
            assert(sc == prev);
        }
        // the slot just examined now satisfies the separation property,
        // and earlier slots keep it, since the scan writes only Band
        assert forall|py: int, px: int, j2: int|
            #![trigger sc.0[py * w + px], crate::eikonal::spec_neighbor(py, px, j2)]
            0 <= py < h && 0 <= px < w && 0 <= j2 < 4
                && (py * w + px) * 4 + j2 < k
                && sc.0[py * w + px] == Flag::Inside
            implies ({
                let nb = crate::eikonal::spec_neighbor(py, px, j2);
                crate::eikonal::in_bounds(nb.0, nb.1, h, w)
                    ==> sc.0[nb.0 * w + nb.1] != Flag::Known
            }) by {
            let q = py * w + px;
            assert(0 <= q < h * w) by (nonlinear_arith)
                requires 0 <= py < h, 0 <= px < w, q == py * w + px;
            let nb = crate::eikonal::spec_neighbor(py, px, j2);
            if crate::eikonal::in_bounds(nb.0, nb.1, h, w) {
                let nbq = nb.0 * w + nb.1;
                assert(0 <= nbq < h * w) by (nonlinear_arith)
                    requires 0 <= nb.0 < h, 0 <= nb.1 < w, nbq == nb.0 * w + nb.1;
                if q * 4 + j2 < k - 1 {
                    assert(prev.0[q] == Flag::Inside);
                    assert(prev.0[nbq] != Flag::Known);
                    assert(sc.0[nbq] != Flag::Known);
                } else {
                    // this is exactly the slot the scan just examined
                    assert(q * 4 + j2 == k - 1);
                    assert(q == i && j2 == j) by (nonlinear_arith)
                        requires
                            q * 4 + j2 == k - 1, 0 <= j2 < 4,
                            i == (k - 1) / 4, j == (k - 1) % 4;
                    assert(y == q / w && x == q % w);
                    vstd::arithmetic::div_mod::lemma_fundamental_div_mod(q, w);
                    assert(y == py && x == px) by (nonlinear_arith)
                        requires
                            q == py * w + px, 0 <= px < w, 0 <= py,
                            y == q / w, x == q % w,
                            q == w * (q / w) + q % w, 0 <= q % w < w;
                    assert(prev.0[q] == Flag::Inside);
                    if prev.0[nbq] == Flag::Known {
                        assert(sc.0[nbq] == Flag::Band);
                    } else {
                        assert(sc.0[nbq] != Flag::Known);
                    }
                }
            }
        }
    }
}

/// A sequence of coordinates, each in bounds and each the axis
/// neighbor of the one before it.
pub open spec fn valid_path(h: int, w: int, path: Seq<(int, int)>) -> bool {
    &&& path.len() >= 1
    &&& (forall|k: int| 0 <= k < path.len()
        ==> crate::eikonal::in_bounds((#[trigger] path[k]).0, path[k].1, h, w))
    &&& (forall|k: int| 0 <= k < path.len() - 1
        ==> exists|j: int| 0 <= j < 4
            && (#[trigger] path[k + 1]) == #[trigger] crate::eikonal::spec_neighbor(path[k].0, path[k].1, j))
}

/// In a state with no Band pixel where no Inside pixel touches a Known
/// pixel, an Inside pixel's whole component is Inside: walking any
/// path from an Inside pixel stays Inside.
proof fn lemma_path_stays_inside(
    h: int, w: int, flags: Seq<Flag>, path: Seq<(int, int)>, m: int,
)
    requires
        flags.len() == h * w,
        forall|py: int, px: int| #![trigger flags[py * w + px]]
            0 <= py < h && 0 <= px < w ==> flags[py * w + px] != Flag::Band,
        frontier_separates(h, w, flags),
        valid_path(h, w, path),
        flags[path[0].0 * w + path[0].1] == Flag::Inside,
        0 <= m < path.len(),
    ensures
        flags[path[m].0 * w + path[m].1] == Flag::Inside,
    decreases m,
{
    if m > 0 {
        lemma_path_stays_inside(h, w, flags, path, m - 1);
        let prev = path[m - 1];
        let cur = path[m];
        let j = choose|j: int| 0 <= j < 4
            && path[m - 1 + 1] == #[trigger] crate::eikonal::spec_neighbor(path[m - 1].0, path[m - 1].1, j);
        assert(cur == crate::eikonal::spec_neighbor(prev.0, prev.1, j));
        assert(flags[cur.0 * w + cur.1] != Flag::Known);
        assert(flags[cur.0 * w + cur.1] != Flag::Band);
    }
}

/// Every masked pixel that is four-connected, through the grid, to an
/// unmasked pixel is filled: after the run it is no longer flagged
/// Inside.  (A masked region with no unmasked pixel in its component,
/// such as a fully masked image, has no frontier to grow from and is
/// left as it is.)
pub proof fn lemma_reachable_pixels_are_filled(
    img: Seq<u32>, h: int, w: int, c: int, mask: Seq<u8>, radius: int, path: Seq<(int, int)>,
)
    requires
        0 <= h <= 0x3FFF_FFFF,
        0 <= w <= 0x3FFF_FFFF,
        1 <= c <= 0x3FFF_FFFF,
        mask.len() == h * w,
        img.len() == h * w * c,
        valid_path(h, w, path),
        mask[path.last().0 * w + path.last().1] != 1,
    ensures
        spec_run(
            h, w, c, radius, false, crate::fbits::ZERO_BITS,
            spec_prepared_state(img, h, w, c, mask, radius),
        ).flags[path[0].0 * w + path[0].1] != Flag::Inside,
{
    let p0 = path[0];
    let pm = path.last();
    assert(0 <= pm.0 * w + pm.1 < h * w) by (nonlinear_arith)
        requires 0 <= pm.0 < h, 0 <= pm.1 < w;
    assert(0 <= p0.0 * w + p0.1 < h * w) by (nonlinear_arith)
        requires 0 <= p0.0 < h, 0 <= p0.1 < w;

    let flags0 = spec_initial_flags(mask);
    let dist0 = Seq::new((h * w) as nat, |i: int| crate::fbits::MAX_BITS);
    lemma_init_scan_invariants(h, w, flags0, dist0, h * w * 4);
    let init = spec_initial_state(img, h, w, mask);
    let prepared = spec_prepared_state(img, h, w, c, mask, radius);
    assert(prepared.flags == init.flags && prepared.queue == init.queue);

    // the prepared state is well formed and satisfies both invariants
    lemma_init_scan_preserves(h, w, flags0, dist0, Seq::empty(), h * w * 4, pm.0 * w + pm.1);
    let flipped = PropState {
        flags: init.flags.map_values(|f: Flag| crate::telea::spec_flip_flag(f)),
        dist: init.dist,
        img: init.img,
        queue: init.queue,
        last: crate::fbits::ZERO_BITS,
    };
    assert(state_wf(h, w, c, flipped));
    crate::telea::lemma_run_wf(
        h, w, c, radius, true,
        crate::fbits::f32_mul(crate::fbits::f32_of_i32(radius as i32), crate::fbits::TWO_BITS),
        flipped);
    assert(state_wf(h, w, c, prepared));
    assert forall|py: int, px: int, j: int|
        #![trigger prepared.flags[py * w + px], crate::eikonal::spec_neighbor(py, px, j)]
        0 <= py < h && 0 <= px < w && 0 <= j < 4
            && prepared.flags[py * w + px] == Flag::Inside
        implies ({
            let nb = crate::eikonal::spec_neighbor(py, px, j);
            crate::eikonal::in_bounds(nb.0, nb.1, h, w)
                ==> prepared.flags[nb.0 * w + nb.1] != Flag::Known
        }) by {
        assert(0 <= py * w + px < h * w) by (nonlinear_arith)
            requires 0 <= py < h, 0 <= px < w;
        assert((py * w + px) * 4 + j < h * w * 4) by (nonlinear_arith)
            requires 0 <= j < 4, 0 <= py * w + px < h * w;
    }
    assert(frontier_separates(h, w, prepared.flags));
    assert(band_has_entry(h, w, prepared));

    let done = spec_run(
        h, w, c, radius, false, crate::fbits::ZERO_BITS, prepared);
    lemma_run_invariants(h, w, c, radius, false, crate::fbits::ZERO_BITS, prepared);
    lemma_run_drains_queue(h, w, c, radius, crate::fbits::ZERO_BITS, prepared);
    crate::telea::lemma_run_wf(h, w, c, radius, false, crate::fbits::ZERO_BITS, prepared);

    // a run that drained its queue holds no Band pixel
    assert forall|py: int, px: int| #![trigger done.flags[py * w + px]]
        0 <= py < h && 0 <= px < w implies done.flags[py * w + px] != Flag::Band by {
        if done.flags[py * w + px] == Flag::Band {
            let iw = choose|i: int| 0 <= i < done.queue.len()
                && (#[trigger] done.queue[i]).y == py && done.queue[i].x == px;
            assert(false);
        }
    }

    // the far end of the path is unmasked, so it is never Inside
    lemma_unmasked_never_inside(img, h, w, c, mask, radius, pm.0 * w + pm.1);

    if done.flags[p0.0 * w + p0.1] == Flag::Inside {
        lemma_path_stays_inside(h, w, done.flags, path, path.len() - 1);
        assert(done.flags[pm.0 * w + pm.1] == Flag::Inside);
        assert(false);
    }
}

} // verus!
