//! Directional inpainting of one newly discovered pixel.
//!
//! The color of a discovered pixel is the weighted average of every known
//! pixel inside the Euclidean disk of radius 3 around it. Each neighbor is
//! weighted by the product of
//!
//! - a geometric falloff `1 / |r|^1.5` over the distance `|r|`,
//! - the alignment of `r` with the local gradient of the arrival-time
//!   field (clamped to a small positive value when nearly orthogonal), and
//! - a similarity term `1 / (1 + |time(q) - time(p)|)` of the two arrival
//!   times.
//!
//! All weights are fixed-point: the falloff is a Q16 table over the six
//! possible squared distances, the alignment is Q36 and the similarity is
//! Q32, so a weight is an exact integer and the blend is reproducible.

use vstd::prelude::*;
use crate::bitmask::{Bitmask, bit, word_count, lemma_word_count_covers};
use crate::fixed::{T_CAP, LEN_MAX};
use crate::painter::Image;

verus! {

/// Magnitude of an integer.
pub open spec fn spec_abs(d: int) -> int {
    if d >= 0 {
        d
    } else {
        -d
    }
}

/// Half of a difference, rounded toward zero.
pub open spec fn half_toward_zero(d: int) -> int {
    if d >= 0 {
        d / 2
    } else {
        -((-d) / 2)
    }
}

/// Horizontal component of the arrival-time gradient at `(x, y)`: a
/// centered difference when both horizontal neighbors are known, a
/// one-sided difference against the pixel's own entry when only one is,
/// and zero otherwise.
pub open spec fn spec_grad_x(inside: Seq<u32>, times: Seq<u64>, w: int, h: int, x: int, y: int) -> int {
    let p = y * w + x;
    if x + 1 < w && !bit(inside, p + 1) {
        if x > 0 && !bit(inside, p - 1) {
            half_toward_zero(times[p + 1] - times[p - 1])
        } else {
            times[p + 1] - times[p]
        }
    } else if x > 0 && !bit(inside, p - 1) {
        times[p] - times[p - 1]
    } else {
        0
    }
}

/// Vertical component of the arrival-time gradient at `(x, y)`.
pub open spec fn spec_grad_y(inside: Seq<u32>, times: Seq<u64>, w: int, h: int, x: int, y: int) -> int {
    let p = y * w + x;
    if y + 1 < h && !bit(inside, p + w) {
        if y > 0 && !bit(inside, p - w) {
            half_toward_zero(times[p + w] - times[p - w])
        } else {
            times[p + w] - times[p]
        }
    } else if y > 0 && !bit(inside, p - w) {
        times[p] - times[p - w]
    } else {
        0
    }
}

/// Geometric falloff `1 / dd^0.75` in Q16, tabulated over the squared
/// distances that occur inside the radius-3 disk.
pub open spec fn dst_weight(dd: int) -> int {
    if dd == 1 {
        65536
    } else if dd == 2 {
        38967
    } else if dd == 4 {
        23170
    } else if dd == 5 {
        19599
    } else if dd == 8 {
        13777
    } else {
        12612
    }
}

/// Alignment of the direction `(dx, dy)` (from the neighbor toward the
/// pixel) with the time gradient `(gx, gy)`, in Q36: the magnitude of the
/// dot product, or a tiny positive constant (`10^-6` in Q36) when the dot
/// product is nearly zero (at most 0.01 in magnitude).
pub open spec fn dir_weight(gx: int, gy: int, dx: int, dy: int) -> int {
    let d = dx * gx + dy * gy;
    if spec_abs(d) <= 655 {
        68719
    } else {
        spec_abs(d) * 1048576
    }
}

/// Similarity of two arrival times, `1 / (1 + |tq - tp|)` in Q32.
pub open spec fn lev_weight(tq: int, tp: int) -> int {
    281474976710656int / (65536 + spec_abs(tq - tp))
}

/// The neighbor `(x, y)` contributes to pixel `(px, py)`: it is a
/// different pixel, inside the radius-3 disk, and already known.
pub open spec fn cell_on(inside: Seq<u32>, w: int, px: int, py: int, x: int, y: int) -> bool {
    &&& (x != px || y != py)
    &&& (px - x) * (px - x) + (py - y) * (py - y) <= 9
    &&& !bit(inside, y * w + x)
}

/// Blend weight of the known neighbor `(x, y)` for pixel `(px, py)`.
pub open spec fn cell_weight(times: Seq<u64>, w: int, px: int, py: int, gx: int, gy: int, x: int, y: int) -> int {
    dir_weight(gx, gy, px - x, py - y) * dst_weight(
        (px - x) * (px - x) + (py - y) * (py - y),
    ) * lev_weight(times[y * w + x] as int, times[py * w + px] as int)
}

/// Total weight contributed by row `y`, columns `[x_lo, x)`.
pub open spec fn row_weight(
    inside: Seq<u32>,
    times: Seq<u64>,
    w: int,
    px: int,
    py: int,
    gx: int,
    gy: int,
    y: int,
    x_lo: int,
    x: int,
) -> int
    decreases x - x_lo,
{
    if x <= x_lo {
        0
    } else {
        row_weight(inside, times, w, px, py, gx, gy, y, x_lo, x - 1) + if cell_on(
            inside,
            w,
            px,
            py,
            x - 1,
            y,
        ) {
            cell_weight(times, w, px, py, gx, gy, x - 1, y)
        } else {
            0
        }
    }
}

/// Weighted sum of channel `c` over row `y`, columns `[x_lo, x)`.
pub open spec fn row_sum(
    buf: Seq<u8>,
    inside: Seq<u32>,
    times: Seq<u64>,
    w: int,
    px: int,
    py: int,
    gx: int,
    gy: int,
    c: int,
    y: int,
    x_lo: int,
    x: int,
) -> int
    decreases x - x_lo,
{
    if x <= x_lo {
        0
    } else {
        row_sum(buf, inside, times, w, px, py, gx, gy, c, y, x_lo, x - 1) + if cell_on(
            inside,
            w,
            px,
            py,
            x - 1,
            y,
        ) {
            cell_weight(times, w, px, py, gx, gy, x - 1, y) * (buf[3 * ((y * w) + x - 1) + c] as int)
        } else {
            0
        }
    }
}

/// Total weight over the rows `[y_lo, y)` of the scan window, each row
/// covering columns `[x_lo, x_hi)`.
pub open spec fn win_weight(
    inside: Seq<u32>,
    times: Seq<u64>,
    w: int,
    px: int,
    py: int,
    gx: int,
    gy: int,
    x_lo: int,
    x_hi: int,
    y_lo: int,
    y: int,
) -> int
    decreases y - y_lo,
{
    if y <= y_lo {
        0
    } else {
        win_weight(inside, times, w, px, py, gx, gy, x_lo, x_hi, y_lo, y - 1) + row_weight(
            inside,
            times,
            w,
            px,
            py,
            gx,
            gy,
            y - 1,
            x_lo,
            x_hi,
        )
    }
}

/// Weighted channel sum over the rows `[y_lo, y)` of the scan window.
pub open spec fn win_sum(
    buf: Seq<u8>,
    inside: Seq<u32>,
    times: Seq<u64>,
    w: int,
    px: int,
    py: int,
    gx: int,
    gy: int,
    c: int,
    x_lo: int,
    x_hi: int,
    y_lo: int,
    y: int,
) -> int
    decreases y - y_lo,
{
    if y <= y_lo {
        0
    } else {
        win_sum(buf, inside, times, w, px, py, gx, gy, c, x_lo, x_hi, y_lo, y - 1) + row_sum(
            buf,
            inside,
            times,
            w,
            px,
            py,
            gx,
            gy,
            c,
            y - 1,
            x_lo,
            x_hi,
        )
    }
}

/// Lower edge of the scan window along one axis.
pub open spec fn win_lo(p: int) -> int {
    if p >= 3 {
        p - 3
    } else {
        0
    }
}

/// One past the upper edge of the scan window along one axis of size `n`.
pub open spec fn win_hi(p: int, n: int) -> int {
    if p + 4 <= n {
        p + 4
    } else {
        n
    }
}

/// Total blend weight for pixel `p`, with the gradient taken at `p`.
pub open spec fn spec_total(inside: Seq<u32>, times: Seq<u64>, w: int, h: int, p: int) -> int {
    let px = p % w;
    let py = p / w;
    win_weight(
        inside,
        times,
        w,
        px,
        py,
        spec_grad_x(inside, times, w, h, px, py),
        spec_grad_y(inside, times, w, h, px, py),
        win_lo(px),
        win_hi(px, w),
        win_lo(py),
        win_hi(py, h),
    )
}

/// Weighted sum of channel `c` for pixel `p`.
pub open spec fn spec_chan(buf: Seq<u8>, inside: Seq<u32>, times: Seq<u64>, w: int, h: int, p: int, c: int) -> int {
    let px = p % w;
    let py = p / w;
    win_sum(
        buf,
        inside,
        times,
        w,
        px,
        py,
        spec_grad_x(inside, times, w, h, px, py),
        spec_grad_y(inside, times, w, h, px, py),
        c,
        win_lo(px),
        win_hi(px, w),
        win_lo(py),
        win_hi(py, h),
    )
}

/// Largest possible single-cell blend weight: alignment at most
/// `6 * T_CAP` in Q16 scaled to Q36, falloff at most one in Q16, and
/// similarity at most one in Q32.
pub const W_CELL_MAX: u128 = 6 * (1000000 * 65536 + 65536) * 1048576 * 65536 * 4294967296;

/// Local gradient of the arrival-time field at `(x, y)`: a centered
/// difference per axis where both neighbors are known, one-sided where
/// only one is, zero otherwise.
pub fn grad_t(inside: &Bitmask, times: &Vec<u64>, width: u32, height: u32, x: u32, y: u32) -> (g: (
    i64,
    i64,
))
    requires
        width as int * height as int <= LEN_MAX,
        times@.len() == width as int * height as int,
        inside@.len() == word_count((width as int * height as int) as nat),
        x < width,
        y < height,
        forall|j: int| 0 <= j < times@.len() ==> times@[j] <= T_CAP,
    ensures
        g.0 == spec_grad_x(inside@, times@, width as int, height as int, x as int, y as int),
        g.1 == spec_grad_y(inside@, times@, width as int, height as int, x as int, y as int),
        spec_abs(g.0 as int) <= T_CAP,
        spec_abs(g.1 as int) <= T_CAP,
{
    let w = width as usize;
    let h = height as usize;
    proof {
        lemma_pos_in_grid(width as int, height as int, x as int, y as int);
        if x + 1 < width {
            lemma_pos_in_grid(width as int, height as int, x as int + 1, y as int);
        }
        if y + 1 < height {
            lemma_pos_in_grid(width as int, height as int, x as int, y as int + 1);
            assert((y as int + 1) * (width as int) == y as int * width as int + width as int)
                by (nonlinear_arith);
        }
        if y > 0 {
            lemma_pos_in_grid(width as int, height as int, x as int, y as int - 1);
            assert((y as int - 1) * (width as int) == y as int * width as int - width as int)
                by (nonlinear_arith);
        }
        assert forall|q: int| 0 <= q < times@.len() implies #[trigger] (q / 32) < inside@.len() by {
            lemma_word_count_covers(times@.len() as nat, q);
        }
    }
    let p = (y as usize) * w + (x as usize);
    let gx: i64 = if x + 1 < width && !crate::bitmask::get(inside, p + 1) {
        if x > 0 && !crate::bitmask::get(inside, p - 1) {
            half_diff(times[p + 1], times[p - 1])
        } else {
            times[p + 1] as i64 - times[p] as i64
        }
    } else if x > 0 && !crate::bitmask::get(inside, p - 1) {
        times[p] as i64 - times[p - 1] as i64
    } else {
        0
    };
    let gy: i64 = if y + 1 < height && !crate::bitmask::get(inside, p + w) {
        if y > 0 && !crate::bitmask::get(inside, p - w) {
            half_diff(times[p + w], times[p - w])
        } else {
            times[p + w] as i64 - times[p] as i64
        }
    } else if y > 0 && !crate::bitmask::get(inside, p - w) {
        times[p] as i64 - times[p - w] as i64
    } else {
        0
    };
    (gx, gy)
}

/// Half of `a - b`, rounded toward zero.
fn half_diff(a: u64, b: u64) -> (r: i64)
    requires
        a <= T_CAP,
        b <= T_CAP,
    ensures
        r == half_toward_zero(a - b),
        spec_abs(r as int) <= T_CAP,
{
    if a >= b {
        ((a - b) / 2) as i64
    } else {
        -(((b - a) / 2) as i64)
    }
}

/// Ceiling of `a / b`, for positive `b`.
pub open spec fn ceil_div(a: int, b: int) -> int {
    (a + b - 1) / b
}

/// Blend weight of one contributing neighbor: alignment, falloff and
/// time-similarity multiplied into one Q84 integer. The weight is always
/// at least one, so a pixel with any contributor gets a positive total.
fn cell_w(gx: i64, gy: i64, dx: i64, dy: i64, tq: u64, tp: u64) -> (wgt: u128)
    requires
        spec_abs(gx as int) <= T_CAP,
        spec_abs(gy as int) <= T_CAP,
        -3 <= dx <= 3,
        -3 <= dy <= 3,
        tq <= T_CAP,
        tp <= T_CAP,
    ensures
        wgt == dir_weight(gx as int, gy as int, dx as int, dy as int) * dst_weight(
            (dx * dx + dy * dy) as int,
        ) * lev_weight(tq as int, tp as int),
        1 <= wgt <= W_CELL_MAX,
{
    proof {
        assert(-3 * T_CAP <= dx as int * gx as int <= 3 * T_CAP && -3 * T_CAP <= dy as int * gy
            as int <= 3 * T_CAP && 0 <= dx as int * dx as int <= 9 && 0 <= dy as int * dy as int
            <= 9) by (nonlinear_arith)
            requires
                spec_abs(gx as int) <= T_CAP,
                spec_abs(gy as int) <= T_CAP,
                -3 <= dx <= 3,
                -3 <= dy <= 3,
        ;
    }
    let d: i64 = dx * gx + dy * gy;
    let da: u64 = if d >= 0 {
        d as u64
    } else {
        (-d) as u64
    };
    let dirw: u128 = if da <= 655 {
        68719
    } else {
        (da as u128) * 1048576
    };
    let dd = dx * dx + dy * dy;
    let dstw: u64 = if dd == 1 {
        65536
    } else if dd == 2 {
        38967
    } else if dd == 4 {
        23170
    } else if dd == 5 {
        19599
    } else if dd == 8 {
        13777
    } else {
        12612
    };
    let diff: u64 = if tq >= tp {
        tq - tp
    } else {
        tp - tq
    };
    let lev: u64 = 281474976710656u64 / (65536 + diff);
    proof {
        vstd::arithmetic::div_mod::lemma_div_is_ordered_by_denominator(
            281474976710656,
            65536,
            65536 + diff as int,
        );
        vstd::arithmetic::div_mod::lemma_div_non_zero(281474976710656, 65536 + diff as int);
        assert(dirw <= 6 * (1000000 * 65536 + 65536) * 1048576) by (nonlinear_arith)
            requires
                da <= 6 * T_CAP,
                dirw == if da <= 655 {
                    68719int
                } else {
                    da as int * 1048576
                },
        ;
        assert(dirw * (dstw as u128) <= 6 * (1000000 * 65536 + 65536) * 1048576 * 65536 && dirw * (
        dstw as u128) * (lev as u128) <= W_CELL_MAX && 1 <= dirw * (dstw as u128) * (lev as u128))
            by (nonlinear_arith)
            requires
                1 <= dirw <= 6 * (1000000 * 65536 + 65536) * 1048576,
                1 <= dstw <= 65536,
                1 <= lev <= 4294967296,
        ;
    }
    dirw * (dstw as u128) * (lev as u128)
}

/// Fill pixel `p` of the image with the weighted average of the known
/// pixels in the radius-3 disk around it, rounding each channel up. When
/// no known pixel lies in the disk the total weight is zero and the pixel
/// is left unchanged (the degenerate-input fallback).
#[verifier::rlimit(100)]
pub fn inpaint(im: &mut Image, inside: &Bitmask, times: &Vec<u64>, p: usize)
    requires
        old(im).wf(),
        p < old(im).len(),
        inside@.len() == word_count(old(im).len() as nat),
        times@.len() == old(im).len(),
        forall|j: int| 0 <= j < times@.len() ==> times@[j] <= T_CAP,
    ensures
        final(im).width == old(im).width,
        final(im).height == old(im).height,
        final(im).buf@.len() == old(im).buf@.len(),
        forall|k: int|
            0 <= k < old(im).buf@.len() && !(3 * p <= k < 3 * p + 3) ==> final(im).buf@[k] == old(
                im,
            ).buf@[k],
        spec_total(inside@, times@, old(im).width as int, old(im).height as int, p as int) == 0
            ==> final(im).buf@ == old(im).buf@,
        spec_total(inside@, times@, old(im).width as int, old(im).height as int, p as int) > 0
            ==> forall|c: int|
            0 <= c < 3 ==> final(im).buf@[3 * p + c] == ceil_div(
                spec_chan(
                    old(im).buf@,
                    inside@,
                    times@,
                    old(im).width as int,
                    old(im).height as int,
                    p as int,
                    c,
                ),
                spec_total(inside@, times@, old(im).width as int, old(im).height as int, p as int),
            ),
{
    let w = im.width as usize;
    let h = im.height as usize;
    proof {
        assert(w >= 1 && h >= 1) by (nonlinear_arith)
            requires
                p < w * h,
        ;
    }
    let px = p % w;
    let py = p / w;
    proof {
        vstd::arithmetic::div_mod::lemma_fundamental_div_mod(p as int, w as int);
        assert(py < h) by (nonlinear_arith)
            requires
                p == w * py + px,
                0 <= px < w,
                p < w * h,
                w >= 1,
        ;
        lemma_pos_in_grid(w as int, h as int, px as int, py as int);
    }
    let (gx, gy) = grad_t(inside, times, im.width, im.height, px as u32, py as u32);
    let x_lo = if px >= 3 {
        px - 3
    } else {
        0
    };
    let x_hi = if px + 4 <= w {
        px + 4
    } else {
        w
    };
    let y_lo = if py >= 3 {
        py - 3
    } else {
        0
    };
    let y_hi = if py + 4 <= h {
        py + 4
    } else {
        h
    };
    let ghost iv = inside@;
    let ghost tv = times@;
    let ghost bv = im.buf@;
    let ghost wi = w as int;
    let ghost pxi = px as int;
    let ghost pyi = py as int;
    let ghost gxi = gx as int;
    let ghost gyi = gy as int;
    let mut total: u128 = 0;
    let mut s0: u128 = 0;
    let mut s1: u128 = 0;
    let mut s2: u128 = 0;
    let mut yy = y_lo;
    while yy < y_hi
        invariant
            y_lo <= yy <= y_hi,
            total == win_weight(iv, tv, wi, pxi, pyi, gxi, gyi, x_lo as int, x_hi as int, y_lo as int, yy as int),
            s0 == win_sum(bv, iv, tv, wi, pxi, pyi, gxi, gyi, 0, x_lo as int, x_hi as int, y_lo as int, yy as int),
            s1 == win_sum(bv, iv, tv, wi, pxi, pyi, gxi, gyi, 1, x_lo as int, x_hi as int, y_lo as int, yy as int),
            s2 == win_sum(bv, iv, tv, wi, pxi, pyi, gxi, gyi, 2, x_lo as int, x_hi as int, y_lo as int, yy as int),
            total <= (yy - y_lo) * 7 * W_CELL_MAX,
            s0 <= 255 * total,
            s1 <= 255 * total,
            s2 <= 255 * total,
        decreases y_hi - yy,
    {
        let mut xx = x_lo;
        while xx < x_hi
            invariant
                y_lo <= yy < y_hi,
                x_lo <= xx <= x_hi,
                total == win_weight(iv, tv, wi, pxi, pyi, gxi, gyi, x_lo as int, x_hi as int, y_lo as int, yy as int)
                    + row_weight(iv, tv, wi, pxi, pyi, gxi, gyi, yy as int, x_lo as int, xx as int),
                s0 == win_sum(bv, iv, tv, wi, pxi, pyi, gxi, gyi, 0, x_lo as int, x_hi as int, y_lo as int, yy as int)
                    + row_sum(bv, iv, tv, wi, pxi, pyi, gxi, gyi, 0, yy as int, x_lo as int, xx as int),
                s1 == win_sum(bv, iv, tv, wi, pxi, pyi, gxi, gyi, 1, x_lo as int, x_hi as int, y_lo as int, yy as int)
                    + row_sum(bv, iv, tv, wi, pxi, pyi, gxi, gyi, 1, yy as int, x_lo as int, xx as int),
                s2 == win_sum(bv, iv, tv, wi, pxi, pyi, gxi, gyi, 2, x_lo as int, x_hi as int, y_lo as int, yy as int)
                    + row_sum(bv, iv, tv, wi, pxi, pyi, gxi, gyi, 2, yy as int, x_lo as int, xx as int),
                total <= ((yy - y_lo) * 7 + (xx - x_lo)) * W_CELL_MAX,
                s0 <= 255 * total,
                s1 <= 255 * total,
                s2 <= 255 * total,
            decreases x_hi - xx,
        {
            if xx != px || yy != py {
                proof {
                    lemma_pos_in_grid(w as int, h as int, xx as int, yy as int);
                    lemma_word_count_covers((w * h) as nat, yy as int * wi + xx as int);
                }
                let dx: i64 = px as i64 - xx as i64;
                let dy: i64 = py as i64 - yy as i64;
                proof {
                    assert(0 <= dx as int * dx as int <= 9 && 0 <= dy as int * dy as int <= 9)
                        by (nonlinear_arith)
                        requires
                            -3 <= dx <= 3,
                            -3 <= dy <= 3,
                    ;
                }
                let dd = dx * dx + dy * dy;
                let q = yy * w + xx;
                if dd <= 9 && !crate::bitmask::get(inside, q) {
                    let wgt = cell_w(gx, gy, dx, dy, times[q], times[p]);
                    let b0 = im.buf[3 * q];
                    let b1 = im.buf[3 * q + 1];
                    let b2 = im.buf[3 * q + 2];
                    proof {
                        assert(total <= 48 * W_CELL_MAX) by (nonlinear_arith)
                            requires
                                total <= ((yy - y_lo) * 7 + (xx - x_lo)) * W_CELL_MAX,
                                0 <= yy - y_lo < 7,
                                0 <= xx - x_lo < 7,
                        ;
                        assert(wgt * (b0 as u128) <= 255 * (wgt as int) && wgt * (b1 as u128)
                            <= 255 * (wgt as int) && wgt * (b2 as u128) <= 255 * (wgt as int))
                            by (nonlinear_arith)
                            requires
                                b0 <= 255,
                                b1 <= 255,
                                b2 <= 255,
                                wgt >= 0,
                        ;
                    }
                    total = total + wgt;
                    s0 = s0 + wgt * (b0 as u128);
                    s1 = s1 + wgt * (b1 as u128);
                    s2 = s2 + wgt * (b2 as u128);
                }
            }
            proof {
                assert(((yy - y_lo) * 7 + (xx + 1 - x_lo)) * W_CELL_MAX == ((yy - y_lo) * 7 + (xx
                    - x_lo)) * W_CELL_MAX + W_CELL_MAX) by (nonlinear_arith);
            }
            xx = xx + 1;
        }
        yy = yy + 1;
        proof {
            assert(total <= ((yy - 1 - y_lo) * 7 + 7) * W_CELL_MAX) by (nonlinear_arith)
                requires
                    total <= ((yy - 1 - y_lo) * 7 + (xx - x_lo)) * W_CELL_MAX,
                    xx - x_lo <= 7,
            ;
            assert(((yy - 1 - y_lo) * 7 + 7) * W_CELL_MAX == (yy - y_lo) * 7 * W_CELL_MAX);
        }
    }
    if total > 0 {
        proof {
            assert(total <= 49 * W_CELL_MAX) by (nonlinear_arith)
                requires
                    total <= (yy - y_lo) * 7 * W_CELL_MAX,
                    yy - y_lo <= 7,
            ;
            assert((s0 + total - 1) / (total as int) <= 255 && (s1 + total - 1) / (total as int)
                <= 255 && (s2 + total - 1) / (total as int) <= 255) by (nonlinear_arith)
                requires
                    total >= 1,
                    s0 <= 255 * total,
                    s1 <= 255 * total,
                    s2 <= 255 * total,
            ;
        }
        let v0 = ((s0 + total - 1) / total) as u8;
        let v1 = ((s1 + total - 1) / total) as u8;
        let v2 = ((s2 + total - 1) / total) as u8;
        im.buf[3 * p] = v0;
        im.buf[3 * p + 1] = v1;
        im.buf[3 * p + 2] = v2;
    }
}

/// A pixel's coordinates are in range exactly when its index is.
pub proof fn lemma_pos_in_grid(w: int, h: int, x: int, y: int)
    requires
        w > 0,
        0 <= x < w,
        0 <= y < h,
    ensures
        0 <= y * w + x < w * h,
        (y * w + x) % w == x,
        (y * w + x) / w == y,
{
    assert(y * w + x < w * h) by (nonlinear_arith)
        requires
            w > 0,
            0 <= x < w,
            0 <= y < h,
    ;
    vstd::arithmetic::div_mod::lemma_fundamental_div_mod_converse(y * w + x, w, y, x);
}

} // verus!
