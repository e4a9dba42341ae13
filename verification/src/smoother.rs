//! Edge-aware smoothing of the reconstructed region.
//!
//! After the painter finishes, the smoother re-blends every pixel that
//! the original mask marked as reconstructed, using concentric square
//! rings around it: samples just outside the reconstructed region and
//! close to the center weigh more, which preserves contrast at the mask
//! boundary, and an adaptive variance test stops adding rings before the
//! blur crosses a genuine edge. A fixed cross-shaped denoise pass then
//! cancels the high-frequency artifacts of the variable ring count.
//!
//! Colors are returned packed as `0xRRGGBB00` in a `u32`.

use vstd::prelude::*;
use crate::painter::Image;
use crate::fixed::LEN_MAX;

verus! {

/// Largest supported blur radius: the fixed-width accumulators of the
/// ring scan are sized for radii up to this bound.
pub const RADIUS_MAX: u32 = 64;

/// A configuration the smoother must reject.
#[derive(Clone, Copy, Debug, PartialEq, Eq, Structural)]
pub enum ConfigError {
    /// The mask does not hold four bytes per image pixel.
    MaskMismatch,
    /// The blur radius reaches half of the image width or height.
    RadiusTooLarge,
}

/// A color packed as `0xRRGGBB00`.
pub open spec fn pack(r: int, g: int, b: int) -> int {
    r * 0x1000000 + g * 0x10000 + b * 0x100
}

/// The mask marks pixel `(x, y)` as reconstructed (alpha is 255).
pub open spec fn mask_inside(mask: Seq<u8>, w: int, x: int, y: int) -> bool {
    mask[(w * y + x) * 4 + 3] == 255
}

/// Weight of one sampled pixel: samples outside the reconstructed
/// region within squared distance 9 of the center get the edge weight,
/// everything else weight one.
pub open spec fn sample_weight(mask: Seq<u8>, w: int, xx: int, yy: int, dd: int, edgew: int) -> int {
    if mask_inside(mask, w, xx, yy) {
        1
    } else if dd < 9 {
        edgew
    } else {
        1
    }
}

/// Running totals of a blend scan: total weight, weighted channel sums,
/// and the running sum and sum of squares of the channel total, used by
/// the variance stop.
pub struct BlendAcc {
    /// Total weight.
    pub c: int,
    /// Weighted red sum.
    pub r: int,
    /// Weighted green sum.
    pub g: int,
    /// Weighted blue sum.
    pub b: int,
    /// Sum of the running `r + g + b` totals, one sample per cell.
    pub sm: int,
    /// Sum of the squares of those totals.
    pub q: int,
}

/// The all-zero accumulator.
pub open spec fn acc_zero() -> BlendAcc {
    BlendAcc { c: 0, r: 0, g: 0, b: 0, sm: 0, q: 0 }
}

/// Fold one sampled pixel into the accumulator.
pub open spec fn acc_add(st: BlendAcc, buf: Seq<u8>, w: int, xx: int, yy: int, wgt: int) -> BlendAcc {
    let p = w * yy + xx;
    let r = st.r + wgt * buf[3 * p];
    let g = st.g + wgt * buf[3 * p + 1];
    let b = st.b + wgt * buf[3 * p + 2];
    let s = r + g + b;
    BlendAcc { c: st.c + wgt, r, g, b, sm: st.sm + s, q: st.q + s * s }
}

/// Pack the weighted average held by an accumulator.
pub open spec fn acc_color(st: BlendAcc) -> int {
    pack(st.r / st.c, st.g / st.c, st.b / st.c)
}

/// Disk scan, one row: fold the cells `(i', j)` for `i'` in
/// `[-radius, i)` whose squared distance is below `radius * radius`.
pub open spec fn disk_row(
    st: BlendAcc,
    buf: Seq<u8>,
    mask: Seq<u8>,
    w: int,
    x: int,
    y: int,
    radius: int,
    edgew: int,
    j: int,
    i: int,
) -> BlendAcc
    decreases i + radius,
{
    if i <= -radius {
        st
    } else {
        let p = disk_row(st, buf, mask, w, x, y, radius, edgew, j, i - 1);
        let dd = (i - 1) * (i - 1) + j * j;
        if dd < radius * radius {
            acc_add(p, buf, w, x + i - 1, y + j, sample_weight(mask, w, x + i - 1, y + j, dd, edgew))
        } else {
            p
        }
    }
}

/// Disk scan over the rows `[-radius, j)`.
pub open spec fn disk_scan(
    buf: Seq<u8>,
    mask: Seq<u8>,
    w: int,
    x: int,
    y: int,
    radius: int,
    edgew: int,
    j: int,
) -> BlendAcc
    decreases j + radius,
{
    if j <= -radius {
        acc_zero()
    } else {
        disk_row(
            disk_scan(buf, mask, w, x, y, radius, edgew, j - 1),
            buf,
            mask,
            w,
            x,
            y,
            radius,
            edgew,
            j - 1,
            radius,
        )
    }
}

/// The disk blur of pixel `(x, y)`: the plain average over the open
/// disk of the given radius, packed.
pub open spec fn spec_radial_blur(buf: Seq<u8>, w: int, x: int, y: int, radius: int) -> int {
    acc_color(disk_scan(buf, Seq::empty(), w, x, y, radius, 1, radius))
}

/// The edge-weighted disk blur: samples outside the mask near the
/// center weigh 128.
pub open spec fn spec_radial_blur_edge(buf: Seq<u8>, mask: Seq<u8>, w: int, x: int, y: int, radius: int) -> int {
    acc_color(disk_scan(buf, mask, w, x, y, radius, 128, radius))
}

/// The cross-shaped denoise color of pixel `(x, y)`: the plain average
/// of its four axis-neighbors, packed.
pub open spec fn spec_denoise(buf: Seq<u8>, w: int, x: int, y: int) -> int {
    let l = w * y + x - 1;
    let r = w * y + x + 1;
    let u = w * (y - 1) + x;
    let d = w * (y + 1) + x;
    pack(
        (buf[3 * l] + buf[3 * r] + buf[3 * u] + buf[3 * d]) as int / 4,
        (buf[3 * l + 1] + buf[3 * r + 1] + buf[3 * u + 1] + buf[3 * d + 1]) as int / 4,
        (buf[3 * l + 2] + buf[3 * r + 2] + buf[3 * u + 2] + buf[3 * d + 2]) as int / 4,
    )
}

/// Scan the open disk of `radius` around `(x, y)` and return the packed
/// weighted average. With `use_mask` false every sample weighs one and
/// the mask is never read.
#[verifier::rlimit(100)]
fn disk_blur(
    buf: &Vec<u8>,
    mask: &Vec<u8>,
    width: u32,
    height: u32,
    x: u32,
    y: u32,
    radius: u32,
    edgew: u32,
    use_mask: bool,
) -> (res: u32)
    requires
        width as int * height as int <= LEN_MAX,
        buf@.len() == 3 * (width as int * height as int),
        use_mask ==> mask@.len() == 4 * (width as int * height as int),
        !use_mask ==> mask@.len() == 0 && edgew == 1,
        1 <= radius <= RADIUS_MAX,
        1 <= edgew <= 128,
        radius <= x,
        x + radius <= width,
        radius <= y,
        y + radius <= height,
    ensures
        res == acc_color(
            disk_scan(
                buf@,
                mask@,
                width as int,
                x as int,
                y as int,
                radius as int,
                edgew as int,
                radius as int,
            ),
        ),
        res <= 0xFFFFFF00,
{
    let ghost bv = buf@;
    let ghost mv = mask@;
    let ghost wi = width as int;
    let ghost xi = x as int;
    let ghost yi = y as int;
    let ghost ri = radius as int;
    let ghost ei = edgew as int;
    let rad = radius as i64;
    let mut c: u64 = 0;
    let mut r: u64 = 0;
    let mut g: u64 = 0;
    let mut b: u64 = 0;
    let mut j: i64 = -rad;
    while j < rad
        invariant
            -rad <= j <= rad,
            ({
                let st = disk_scan(bv, mv, wi, xi, yi, ri, ei, j as int);
                c == st.c && r == st.r && g == st.g && b == st.b
            }),
            c <= 16512 * (j + 65),
            r <= 255 * c,
            g <= 255 * c,
            b <= 255 * c,
            j > 0 ==> c >= 1,
        decreases rad - j,
    {
        let mut i: i64 = -rad;
        while i < rad
            invariant
                -rad <= i <= rad,
                -rad <= j < rad,
                ({
                    let st = disk_row(
                        disk_scan(bv, mv, wi, xi, yi, ri, ei, j as int),
                        bv,
                        mv,
                        wi,
                        xi,
                        yi,
                        ri,
                        ei,
                        j as int,
                        i as int,
                    );
                    c == st.c && r == st.r && g == st.g && b == st.b
                }),
                c <= 16512 * (j + 65) + 128 * (i + 65),
                r <= 255 * c,
                g <= 255 * c,
                b <= 255 * c,
                j > 0 || (j == 0 && i > 0) ==> c >= 1,
            decreases rad - i,
        {
            proof {
                assert(0 <= i * i <= 4096 && 0 <= j * j <= 4096 && 1 <= rad * rad <= 4096 && (i
                    == 0 && j == 0 ==> i * i + j * j == 0)) by (nonlinear_arith)
                    requires
                        -64 <= i <= 64,
                        -64 <= j <= 64,
                        1 <= rad <= 64,
                ;
            }
            let dd = i * i + j * j;
            if dd < rad * rad {
                let xx = x as i64 + i;
                let yy = y as i64 + j;
                proof {
                    crate::inpaint::lemma_pos_in_grid(
                        width as int,
                        height as int,
                        xx as int,
                        yy as int,
                    );
                    assert(wi * (yy as int) == (yy as int) * wi) by (nonlinear_arith);
                }
                let q = (yy as usize) * (width as usize) + (xx as usize);
                let wgt: u64 = if use_mask && mask[4 * q + 3] == 255 {
                    1
                } else if !use_mask {
                    1
                } else if dd < 9 {
                    edgew as u64
                } else {
                    1
                };
                let b0 = buf[3 * q];
                let b1 = buf[3 * q + 1];
                let b2 = buf[3 * q + 2];
                proof {
                    assert(wgt * (b0 as u64) <= 255 * wgt && wgt * (b1 as u64) <= 255 * wgt && wgt
                        * (b2 as u64) <= 255 * wgt && wgt * (b0 as u64) <= 32640 && wgt * (b1
                        as u64) <= 32640 && wgt * (b2 as u64) <= 32640) by (nonlinear_arith)
                        requires
                            1 <= wgt <= 128,
                            b0 <= 255,
                            b1 <= 255,
                            b2 <= 255,
                    ;
                }
                c = c + wgt;
                r = r + wgt * (b0 as u64);
                g = g + wgt * (b1 as u64);
                b = b + wgt * (b2 as u64);
            }
            i = i + 1;
        }
        j = j + 1;
    }
    proof {
        assert(r / c <= 255 && g / c <= 255 && b / c <= 255) by (nonlinear_arith)
            requires
                c >= 1,
                r <= 255 * c,
                g <= 255 * c,
                b <= 255 * c,
        ;
    }
    let pr = (r / c) as u32;
    let pg = (g / c) as u32;
    let pb = (b / c) as u32;
    pr * 0x1000000 + pg * 0x10000 + pb * 0x100
}

/// Ring scan, one row: fold the cells `(i', j)` for `i'` in `[-ring, i)`
/// whose squared distance lies in `[ring * ring - 1, ring * ring]`, with
/// edge weight 64.
pub open spec fn ring_row(
    st: BlendAcc,
    buf: Seq<u8>,
    mask: Seq<u8>,
    w: int,
    x: int,
    y: int,
    ring: int,
    j: int,
    i: int,
) -> BlendAcc
    decreases i + ring,
{
    if i <= -ring {
        st
    } else {
        let p = ring_row(st, buf, mask, w, x, y, ring, j, i - 1);
        let dd = (i - 1) * (i - 1) + j * j;
        if ring * ring - 1 <= dd <= ring * ring {
            acc_add(p, buf, w, x + i - 1, y + j, sample_weight(mask, w, x + i - 1, y + j, dd, 64))
        } else {
            p
        }
    }
}

/// Ring scan over the rows `[-ring, j)`; each row covers the columns
/// `[-ring, ring]`.
pub open spec fn ring_rows(
    st: BlendAcc,
    buf: Seq<u8>,
    mask: Seq<u8>,
    w: int,
    x: int,
    y: int,
    ring: int,
    j: int,
) -> BlendAcc
    decreases j + ring,
{
    if j <= -ring {
        st
    } else {
        ring_row(
            ring_rows(st, buf, mask, w, x, y, ring, j - 1),
            buf,
            mask,
            w,
            x,
            y,
            ring,
            j - 1,
            ring + 1,
        )
    }
}

/// One whole concentric ring folded into the accumulator.
pub open spec fn ring_full(st: BlendAcc, buf: Seq<u8>, mask: Seq<u8>, w: int, x: int, y: int, ring: int) -> BlendAcc {
    ring_rows(st, buf, mask, w, x, y, ring, ring + 1)
}

/// Accumulator after the rings `1 .. ring` (no early stop).
pub open spec fn peel_scan(buf: Seq<u8>, mask: Seq<u8>, w: int, x: int, y: int, ring: int) -> BlendAcc
    decreases ring,
{
    if ring <= 1 {
        acc_zero()
    } else {
        ring_full(peel_scan(buf, mask, w, x, y, ring - 1), buf, mask, w, x, y, ring - 1)
    }
}

/// The ring-weighted blur without the variance stop.
pub open spec fn spec_radial_blur_edge_peel(buf: Seq<u8>, mask: Seq<u8>, w: int, x: int, y: int, radius: int) -> int {
    acc_color(peel_scan(buf, mask, w, x, y, radius))
}

/// The adaptive stop: the scaled variance of the running channel totals
/// exceeds half the radius (scaled). A scan with total weight at most
/// one never stops (its variance is not yet defined).
pub open spec fn var_exceeds(st: BlendAcc, radius: int) -> bool {
    if st.c <= 1 {
        false
    } else {
        let lhs = 12800 * st.q;
        let rhs = 12800 * (st.sm * st.sm / st.c);
        let v = if lhs >= rhs {
            (lhs - rhs) / (12800 * st.c - 12800)
        } else {
            0
        };
        v > 12800 * radius / 2
    }
}

/// Accumulator and stop flag after considering the rings `1 .. ring`,
/// stopping early once the variance test fires.
pub open spec fn var_scan(buf: Seq<u8>, mask: Seq<u8>, w: int, x: int, y: int, radius: int, ring: int) -> (
    BlendAcc,
    bool,
)
    decreases ring,
{
    if ring <= 1 {
        (acc_zero(), false)
    } else {
        let pr = var_scan(buf, mask, w, x, y, radius, ring - 1);
        if pr.1 {
            pr
        } else {
            let np = ring_full(pr.0, buf, mask, w, x, y, ring - 1);
            (np, var_exceeds(np, radius))
        }
    }
}

/// The ring-weighted blur with the variance stop.
pub open spec fn spec_radial_blur_edge_peel_var(buf: Seq<u8>, mask: Seq<u8>, w: int, x: int, y: int, radius: int) -> int {
    acc_color(var_scan(buf, mask, w, x, y, radius, radius).0)
}

/// Once the variance stop fires the scan state never changes again.
proof fn lemma_var_stable(buf: Seq<u8>, mask: Seq<u8>, w: int, x: int, y: int, radius: int, r1: int, r2: int)
    requires
        1 <= r1 <= r2,
        var_scan(buf, mask, w, x, y, radius, r1).1,
    ensures
        var_scan(buf, mask, w, x, y, radius, r2) == var_scan(buf, mask, w, x, y, radius, r1),
    decreases r2 - r1,
{
    if r2 > r1 {
        lemma_var_stable(buf, mask, w, x, y, radius, r1, r2 - 1);
    }
}

/// Scan one concentric ring around `(x, y)` into the running totals.
#[verifier::rlimit(100)]
fn scan_ring(
    buf: &Vec<u8>,
    mask: &Vec<u8>,
    width: u32,
    height: u32,
    x: u32,
    y: u32,
    ring: u32,
    c: &mut u64,
    r: &mut u64,
    g: &mut u64,
    b: &mut u64,
    sm: &mut u128,
    q: &mut u128,
)
    requires
        width as int * height as int <= LEN_MAX,
        buf@.len() == 3 * (width as int * height as int),
        mask@.len() == 4 * (width as int * height as int),
        1 <= ring <= 63,
        ring <= x,
        x + ring < width,
        ring <= y,
        y + ring < height,
        *old(c) <= 2163200 * 63,
        *old(r) <= 255 * *old(c),
        *old(g) <= 255 * *old(c),
        *old(b) <= 255 * *old(c),
        *old(sm) <= 765 * *old(c) * *old(c),
        *old(q) <= 585225 * *old(c) * *old(c) * *old(c),
    ensures
        ({
            let st0 = BlendAcc {
                c: *old(c) as int,
                r: *old(r) as int,
                g: *old(g) as int,
                b: *old(b) as int,
                sm: *old(sm) as int,
                q: *old(q) as int,
            };
            let st1 = ring_full(st0, buf@, mask@, width as int, x as int, y as int, ring as int);
            &&& *final(c) == st1.c
            &&& *final(r) == st1.r
            &&& *final(g) == st1.g
            &&& *final(b) == st1.b
            &&& *final(sm) == st1.sm
            &&& *final(q) == st1.q
        }),
        *old(c) <= *final(c) <= *old(c) + 2163200,
        *final(r) <= 255 * *final(c),
        *final(g) <= 255 * *final(c),
        *final(b) <= 255 * *final(c),
        *final(sm) <= 765 * *final(c) * *final(c),
        *final(q) <= 585225 * *final(c) * *final(c) * *final(c),
        ring == 1 ==> *final(c) >= 1,
{
    let ghost bv = buf@;
    let ghost mv = mask@;
    let ghost wi = width as int;
    let ghost xi = x as int;
    let ghost yi = y as int;
    let ghost st0 = BlendAcc {
        c: *c as int,
        r: *r as int,
        g: *g as int,
        b: *b as int,
        sm: *sm as int,
        q: *q as int,
    };
    let ghost c0 = *c as int;
    let rg = ring as i64;
    let mut j: i64 = -rg;
    while j < rg + 1
        invariant
            -rg <= j <= rg + 1,
            ({
                let st = ring_rows(st0, bv, mv, wi, xi, yi, ring as int, j as int);
                *c == st.c && *r == st.r && *g == st.g && *b == st.b && *sm == st.sm && *q == st.q
            }),
            *c <= c0 + 16512 * (j + 65),
            c0 <= *c,
            *r <= 255 * *c,
            *g <= 255 * *c,
            *b <= 255 * *c,
            *sm <= 765 * *c * *c,
            *q <= 585225 * *c * *c * *c,
            ring == 1 && j > 0 ==> *c >= 1,
        decreases rg + 1 - j,
    {
        let mut i: i64 = -rg;
        while i < rg + 1
            invariant
                -rg <= i <= rg + 1,
                -rg <= j <= rg,
                ({
                    let st = ring_row(
                        ring_rows(st0, bv, mv, wi, xi, yi, ring as int, j as int),
                        bv,
                        mv,
                        wi,
                        xi,
                        yi,
                        ring as int,
                        j as int,
                        i as int,
                    );
                    *c == st.c && *r == st.r && *g == st.g && *b == st.b && *sm == st.sm && *q
                        == st.q
                }),
                *c <= c0 + 16512 * (j + 65) + 128 * (i + 65),
                c0 <= *c,
                *r <= 255 * *c,
                *g <= 255 * *c,
                *b <= 255 * *c,
                *sm <= 765 * *c * *c,
                *q <= 585225 * *c * *c * *c,
                ring == 1 && (j > 0 || (j == 0 && i > 0)) ==> *c >= 1,
            decreases rg + 1 - i,
        {
            proof {
                assert(0 <= i * i <= 4096 && 0 <= j * j <= 4096 && 1 <= rg * rg <= 4096 && (i == 0
                    && j == 0 ==> i * i + j * j == 0) && (rg == 1 ==> rg * rg == 1))
                    by (nonlinear_arith)
                    requires
                        -64 <= i <= 64,
                        -64 <= j <= 64,
                        1 <= rg <= 64,
                ;
            }
            let dd = i * i + j * j;
            if rg * rg - 1 <= dd && dd <= rg * rg {
                let xx = x as i64 + i;
                let yy = y as i64 + j;
                proof {
                    crate::inpaint::lemma_pos_in_grid(
                        width as int,
                        height as int,
                        xx as int,
                        yy as int,
                    );
                    assert(wi * (yy as int) == (yy as int) * wi) by (nonlinear_arith);
                }
                let qx = (yy as usize) * (width as usize) + (xx as usize);
                let wgt: u64 = if mask[4 * qx + 3] == 255 {
                    1
                } else if dd < 9 {
                    64
                } else {
                    1
                };
                let b0 = buf[3 * qx];
                let b1 = buf[3 * qx + 1];
                let b2 = buf[3 * qx + 2];
                proof {
                    assert(wgt * (b0 as u64) <= 255 * wgt && wgt * (b1 as u64) <= 255 * wgt && wgt
                        * (b2 as u64) <= 255 * wgt && wgt * (b0 as u64) <= 16320 && wgt * (b1
                        as u64) <= 16320 && wgt * (b2 as u64) <= 16320) by (nonlinear_arith)
                        requires
                            1 <= wgt <= 64,
                            b0 <= 255,
                            b1 <= 255,
                            b2 <= 255,
                    ;
                }
                let c1 = *c + wgt;
                let r1 = *r + wgt * (b0 as u64);
                let g1 = *g + wgt * (b1 as u64);
                let b_1 = *b + wgt * (b2 as u64);
                let s1: u64 = r1 + g1 + b_1;
                proof {
                    assert(*sm + s1 <= 765 * c1 * c1 && *q + s1 * s1 <= 585225 * c1 * c1 * c1 && s1
                        * s1 <= 585225 * c1 * c1 && 585225 * c1 * c1 * c1
                        < 0x10000000000000000000000000000 && 765 * c1 * c1
                        < 0x10000000000000000000000000000) by (nonlinear_arith)
                        requires
                            *sm <= 765 * *c * *c,
                            *q <= 585225 * *c * *c * *c,
                            s1 <= 765 * c1,
                            c1 == *c + wgt,
                            1 <= wgt,
                            0 <= *c,
                            c1 <= 140608000,
                    ;
                }
                *c = c1;
                *r = r1;
                *g = g1;
                *b = b_1;
                *sm = *sm + s1 as u128;
                *q = *q + (s1 as u128) * (s1 as u128);
            }
            i = i + 1;
        }
        j = j + 1;
    }
}

/// Whether the variance stop fires for the given running totals.
fn stop_check(c: u64, sm: u128, q: u128, radius: u32) -> (stop: bool)
    requires
        c <= 138444800,
        sm <= 765 * c * c,
        q <= 585225 * c * c * c,
        radius <= 64,
    ensures
        stop == var_exceeds(
            BlendAcc { c: c as int, r: 0, g: 0, b: 0, sm: sm as int, q: q as int },
            radius as int,
        ),
{
    if c <= 1 {
        false
    } else {
        proof {
            assert(12800 * q < 0x100000000000000000000000000000000 && sm * sm
                < 0x100000000000000000000000000000000 && 12800 * (sm * sm / (c as int))
                < 0x100000000000000000000000000000000) by (nonlinear_arith)
                requires
                    c <= 138444800,
                    sm <= 765 * c * c,
                    q <= 585225 * c * c * c,
                    c >= 2,
            ;
        }
        let lhs: u128 = 12800 * q;
        let rhs: u128 = 12800 * ((sm * sm) / (c as u128));
        let v: u128 = if lhs >= rhs {
            (lhs - rhs) / (12800 * (c as u128) - 12800)
        } else {
            0
        };
        v > 12800 * (radius as u128) / 2
    }
}

/// Channel `c` of a packed `0xRRGGBB00` color.
pub open spec fn chan(v: int, c: int) -> int {
    if c == 0 {
        v / 0x1000000
    } else if c == 1 {
        v / 0x10000 % 0x100
    } else {
        v / 0x100 % 0x100
    }
}

/// Pixel `(x, y)` is re-blended: it lies at least `radius` away from
/// every buffer edge and the mask marks it as reconstructed.
pub open spec fn selected(mask: Seq<u8>, w: int, h: int, radius: int, x: int, y: int) -> bool {
    radius <= x < w - radius && radius <= y < h - radius && mask_inside(mask, w, x, y)
}

/// Byte `c` of pixel `p` after the ring-blend pass.
pub open spec fn blended_byte(buf: Seq<u8>, mask: Seq<u8>, w: int, h: int, radius: int, p: int, c: int) -> int {
    let x = p % w;
    let y = p / w;
    if selected(mask, w, h, radius, x, y) {
        chan(spec_radial_blur_edge_peel_var(buf, mask, w, x, y, radius), c)
    } else {
        buf[3 * p + c] as int
    }
}

/// The whole buffer after the ring-blend pass.
pub open spec fn blended_seq(buf: Seq<u8>, mask: Seq<u8>, w: int, h: int, radius: int) -> Seq<u8> {
    Seq::new(buf.len(), |k: int| blended_byte(buf, mask, w, h, radius, k / 3, k % 3) as u8)
}

/// Byte `c` of pixel `p` after the denoise pass over the blended buffer.
pub open spec fn final_byte(bl: Seq<u8>, mask: Seq<u8>, w: int, h: int, radius: int, p: int, c: int) -> int {
    let x = p % w;
    let y = p / w;
    if selected(mask, w, h, radius, x, y) {
        chan(spec_denoise(bl, w, x, y), c)
    } else {
        bl[3 * p + c] as int
    }
}

/// The whole buffer after the denoise pass.
pub open spec fn final_seq(bl: Seq<u8>, mask: Seq<u8>, w: int, h: int, radius: int) -> Seq<u8> {
    Seq::new(bl.len(), |k: int| final_byte(bl, mask, w, h, radius, k / 3, k % 3) as u8)
}


/// Append the three channels of a packed color to a byte buffer.
fn push_packed(out: &mut Vec<u8>, v: u32)
    requires
        v <= 0xFFFFFF00,
    ensures
        final(out)@.len() == old(out)@.len() + 3,
        forall|k: int| 0 <= k < old(out)@.len() ==> final(out)@[k] == old(out)@[k],
        final(out)@[old(out)@.len() as int] == chan(v as int, 0),
        final(out)@[old(out)@.len() as int + 1] == chan(v as int, 1),
        final(out)@[old(out)@.len() as int + 2] == chan(v as int, 2),
{
    proof {
        vstd::arithmetic::div_mod::lemma_div_is_ordered(v as int, 0xFFFFFF00, 0x1000000);
    }
    out.push((v / 0x1000000) as u8);
    out.push(((v / 0x10000) % 0x100) as u8);
    out.push(((v / 0x100) % 0x100) as u8);
}

/// First smoothing pass: ring-blend every selected pixel of the image
/// into a fresh buffer, leaving every other pixel's bytes unchanged.
#[verifier::rlimit(100)]
fn blend_pass(im: &Image, mask: &Vec<u8>, radius: u32) -> (bl: Vec<u8>)
    requires
        im.wf(),
        mask@.len() == 4 * im.len(),
        2 <= radius <= RADIUS_MAX,
        im.width > 2 * radius,
        im.height > 2 * radius,
    ensures
        bl@ == blended_seq(im.buf@, mask@, im.width as int, im.height as int, radius as int),
{
    let w = im.width;
    let h = im.height;
    let ghost bv = im.buf@;
    let ghost mv = mask@;
    let ghost wi = w as int;
    let ghost hi = h as int;
    let ghost ri = radius as int;
    let mut bl: Vec<u8> = Vec::new();
    let mut y: u32 = 0;
    while y < h
        invariant
            y <= h,
            bl@.len() == 3 * (y as int * wi),
            forall|p: int|
                #![trigger blended_byte(bv, mv, wi, hi, ri, p, 0)]
                0 <= p < y as int * wi ==> bl@[3 * p] == blended_byte(bv, mv, wi, hi, ri, p, 0),
            forall|p: int|
                #![trigger blended_byte(bv, mv, wi, hi, ri, p, 1)]
                0 <= p < y as int * wi ==> bl@[3 * p + 1] == blended_byte(bv, mv, wi, hi, ri, p, 1),
            forall|p: int|
                #![trigger blended_byte(bv, mv, wi, hi, ri, p, 2)]
                0 <= p < y as int * wi ==> bl@[3 * p + 2] == blended_byte(bv, mv, wi, hi, ri, p, 2),
        decreases h - y,
    {
        let mut x: u32 = 0;
        proof {
            assert((y as int + 1) * wi == y as int * wi + wi) by (nonlinear_arith);
        }
        while x < w
            invariant
                x <= w,
                y < h,
                bl@.len() == 3 * (y as int * wi + x as int),
                forall|p: int|
                    #![trigger blended_byte(bv, mv, wi, hi, ri, p, 0)]
                    0 <= p < y as int * wi + x as int ==> bl@[3 * p] == blended_byte(bv, mv, wi, hi, ri, p, 0),
                forall|p: int|
                    #![trigger blended_byte(bv, mv, wi, hi, ri, p, 1)]
                    0 <= p < y as int * wi + x as int ==> bl@[3 * p + 1] == blended_byte(bv, mv, wi, hi, ri, p, 1),
                forall|p: int|
                    #![trigger blended_byte(bv, mv, wi, hi, ri, p, 2)]
                    0 <= p < y as int * wi + x as int ==> bl@[3 * p + 2] == blended_byte(bv, mv, wi, hi, ri, p, 2),
            decreases w - x,
        {
            proof {
                crate::inpaint::lemma_pos_in_grid(wi, hi, x as int, y as int);
                assert(wi * y as int == y as int * wi) by (nonlinear_arith);
            }
            let p = (y as usize) * (w as usize) + (x as usize);
            if radius <= x && x < w - radius && radius <= y && y < h - radius && mask[4 * p + 3]
                == 255 {
                let v = Smoother::radial_blur_edge_peel_var(im, mask, x, y, radius);
                push_packed(&mut bl, v);
            } else {
                bl.push(im.buf[3 * p]);
                bl.push(im.buf[3 * p + 1]);
                bl.push(im.buf[3 * p + 2]);
            }
            proof {
                assert(bl@[3 * (p as int)] == blended_byte(bv, mv, wi, hi, ri, p as int, 0));
                assert(bl@[3 * (p as int) + 1] == blended_byte(bv, mv, wi, hi, ri, p as int, 1));
                assert(bl@[3 * (p as int) + 2] == blended_byte(bv, mv, wi, hi, ri, p as int, 2));
            }
            x = x + 1;
        }
        y = y + 1;
    }
    proof {
        assert(hi * wi == wi * hi) by (nonlinear_arith);
        assert(bl@ =~= blended_seq(bv, mv, wi, hi, ri)) by {
            assert forall|k: int| 0 <= k < bl@.len() implies bl@[k] == blended_seq(
                bv,
                mv,
                wi,
                hi,
                ri,
            )[k] by {
                vstd::arithmetic::div_mod::lemma_fundamental_div_mod(k, 3);
                vstd::arithmetic::div_mod::lemma_mod_bound(k, 3);
                let p = k / 3;
                assert(bl@[3 * p] == blended_byte(bv, mv, wi, hi, ri, p, 0));
                assert(bl@[3 * p + 1] == blended_byte(bv, mv, wi, hi, ri, p, 1));
                assert(bl@[3 * p + 2] == blended_byte(bv, mv, wi, hi, ri, p, 2));
            }
        }
    }
    bl
}

/// Second smoothing pass: replace every selected pixel with the plain
/// average of its four neighbors in the blended buffer.
#[verifier::rlimit(100)]
fn denoise_pass(bim: &Image, mask: &Vec<u8>, radius: u32) -> (out: Vec<u8>)
    requires
        bim.wf(),
        mask@.len() == 4 * bim.len(),
        2 <= radius <= RADIUS_MAX,
        bim.width > 2 * radius,
        bim.height > 2 * radius,
    ensures
        out@ == final_seq(bim.buf@, mask@, bim.width as int, bim.height as int, radius as int),
{
    let w = bim.width;
    let h = bim.height;
    let ghost blv = bim.buf@;
    let ghost mv = mask@;
    let ghost wi = w as int;
    let ghost hi = h as int;
    let ghost ri = radius as int;
    let mut out: Vec<u8> = Vec::new();
    let mut y2: u32 = 0;
    while y2 < h
        invariant
            y2 <= h,
            out@.len() == 3 * (y2 as int * wi),
            forall|p: int|
                #![trigger final_byte(blv, mv, wi, hi, ri, p, 0)]
                0 <= p < y2 as int * wi ==> out@[3 * p] == final_byte(blv, mv, wi, hi, ri, p, 0),
            forall|p: int|
                #![trigger final_byte(blv, mv, wi, hi, ri, p, 1)]
                0 <= p < y2 as int * wi ==> out@[3 * p + 1] == final_byte(blv, mv, wi, hi, ri, p, 1),
            forall|p: int|
                #![trigger final_byte(blv, mv, wi, hi, ri, p, 2)]
                0 <= p < y2 as int * wi ==> out@[3 * p + 2] == final_byte(blv, mv, wi, hi, ri, p, 2),
        decreases h - y2,
    {
        let mut x2: u32 = 0;
        proof {
            assert((y2 as int + 1) * wi == y2 as int * wi + wi) by (nonlinear_arith);
        }
        while x2 < w
            invariant
                x2 <= w,
                y2 < h,
                out@.len() == 3 * (y2 as int * wi + x2 as int),
                forall|p: int|
                    #![trigger final_byte(blv, mv, wi, hi, ri, p, 0)]
                    0 <= p < y2 as int * wi + x2 as int ==> out@[3 * p] == final_byte(blv, mv, wi, hi, ri, p, 0),
                forall|p: int|
                    #![trigger final_byte(blv, mv, wi, hi, ri, p, 1)]
                    0 <= p < y2 as int * wi + x2 as int ==> out@[3 * p + 1] == final_byte(blv, mv, wi, hi, ri, p, 1),
                forall|p: int|
                    #![trigger final_byte(blv, mv, wi, hi, ri, p, 2)]
                    0 <= p < y2 as int * wi + x2 as int ==> out@[3 * p + 2] == final_byte(blv, mv, wi, hi, ri, p, 2),
            decreases w - x2,
        {
            proof {
                crate::inpaint::lemma_pos_in_grid(wi, hi, x2 as int, y2 as int);
                assert(wi * y2 as int == y2 as int * wi) by (nonlinear_arith);
            }
            let p = (y2 as usize) * (w as usize) + (x2 as usize);
            if radius <= x2 && x2 < w - radius && radius <= y2 && y2 < h - radius && mask[4 * p
                + 3] == 255 {
                let v = Smoother::denoise(bim, x2, y2);
                push_packed(&mut out, v);
            } else {
                out.push(bim.buf[3 * p]);
                out.push(bim.buf[3 * p + 1]);
                out.push(bim.buf[3 * p + 2]);
            }
            proof {
                assert(out@[3 * (p as int)] == final_byte(blv, mv, wi, hi, ri, p as int, 0));
                assert(out@[3 * (p as int) + 1] == final_byte(blv, mv, wi, hi, ri, p as int, 1));
                assert(out@[3 * (p as int) + 2] == final_byte(blv, mv, wi, hi, ri, p as int, 2));
            }
            x2 = x2 + 1;
        }
        y2 = y2 + 1;
    }
    proof {
        assert(hi * wi == wi * hi) by (nonlinear_arith);
        assert(out@ =~= final_seq(blv, mv, wi, hi, ri)) by {
            assert forall|k: int| 0 <= k < out@.len() implies out@[k] == final_seq(
                blv,
                mv,
                wi,
                hi,
                ri,
            )[k] by {
                vstd::arithmetic::div_mod::lemma_fundamental_div_mod(k, 3);
                vstd::arithmetic::div_mod::lemma_mod_bound(k, 3);
                let p = k / 3;
                assert(out@[3 * p] == final_byte(blv, mv, wi, hi, ri, p, 0));
                assert(out@[3 * p + 1] == final_byte(blv, mv, wi, hi, ri, p, 1));
                assert(out@[3 * p + 2] == final_byte(blv, mv, wi, hi, ri, p, 2));
            }
        }
    }
    out
}

/// The edge-aware smoother: an image and the blur radius.
pub struct Smoother {
    /// The pixel buffer being smoothed.
    pub im: Image,
    /// Ring-blur radius.
    pub blurriness: u32,
}

impl Smoother {
    /// Wrap a pixel buffer for smoothing.
    pub fn new(buf: Vec<u8>, width: u32, height: u32, blurriness: u32) -> (r: Smoother)
        ensures
            r.im.buf@ == buf@,
            r.im.width == width,
            r.im.height == height,
            r.blurriness == blurriness,
    {
        let im = Image { buf, width, height };
        Smoother { im, blurriness }
    }

    /// Plain average over the open disk of `radius` around `(x, y)`.
    pub fn radial_blur(im: &Image, x: u32, y: u32, radius: u32) -> (r: u32)
        requires
            im.wf(),
            1 <= radius <= RADIUS_MAX,
            radius <= x,
            x + radius <= im.width,
            radius <= y,
            y + radius <= im.height,
        ensures
            r == spec_radial_blur(im.buf@, im.width as int, x as int, y as int, radius as int),
            r <= 0xFFFFFF00,
    {
        let mask: Vec<u8> = Vec::new();
        proof {
            assert(mask@ =~= Seq::<u8>::empty());
        }
        disk_blur(&im.buf, &mask, im.width, im.height, x, y, radius, 1, false)
    }

    /// Disk average where known pixels near the center weigh 128.
    pub fn radial_blur_edge(im: &Image, mask: &Vec<u8>, x: u32, y: u32, radius: u32) -> (r: u32)
        requires
            im.wf(),
            mask@.len() == 4 * im.len(),
            1 <= radius <= RADIUS_MAX,
            radius <= x,
            x + radius <= im.width,
            radius <= y,
            y + radius <= im.height,
        ensures
            r == spec_radial_blur_edge(
                im.buf@,
                mask@,
                im.width as int,
                x as int,
                y as int,
                radius as int,
            ),
            r <= 0xFFFFFF00,
    {
        disk_blur(&im.buf, mask, im.width, im.height, x, y, radius, 128, true)
    }

    /// Ring-weighted average over the concentric rings `1 .. radius`,
    /// with known pixels near the center weighing 64.
    pub fn radial_blur_edge_peel(im: &Image, mask: &Vec<u8>, x: u32, y: u32, radius: u32) -> (res: u32)
        requires
            im.wf(),
            mask@.len() == 4 * im.len(),
            2 <= radius <= RADIUS_MAX,
            radius <= x,
            x + radius <= im.width,
            radius <= y,
            y + radius <= im.height,
        ensures
            res == spec_radial_blur_edge_peel(
                im.buf@,
                mask@,
                im.width as int,
                x as int,
                y as int,
                radius as int,
            ),
            res <= 0xFFFFFF00,
    {
        let mut c: u64 = 0;
        let mut r: u64 = 0;
        let mut g: u64 = 0;
        let mut b: u64 = 0;
        let mut sm: u128 = 0;
        let mut q: u128 = 0;
        let mut ring: u32 = 1;
        while ring < radius
            invariant
                1 <= ring <= radius,
                ({
                    let st = peel_scan(
                        im.buf@,
                        mask@,
                        im.width as int,
                        x as int,
                        y as int,
                        ring as int,
                    );
                    c == st.c && r == st.r && g == st.g && b == st.b && sm == st.sm && q == st.q
                }),
                c <= 2163200 * (ring - 1),
                r <= 255 * c,
                g <= 255 * c,
                b <= 255 * c,
                sm <= 765 * c * c,
                q <= 585225 * c * c * c,
                ring >= 2 ==> c >= 1,
            decreases radius - ring,
        {
            scan_ring(
                &im.buf,
                mask,
                im.width,
                im.height,
                x,
                y,
                ring,
                &mut c,
                &mut r,
                &mut g,
                &mut b,
                &mut sm,
                &mut q,
            );
            ring = ring + 1;
        }
        proof {
            assert(r / c <= 255 && g / c <= 255 && b / c <= 255) by (nonlinear_arith)
                requires
                    c >= 1,
                    r <= 255 * c,
                    g <= 255 * c,
                    b <= 255 * c,
            ;
        }
        let pr = (r / c) as u32;
        let pg = (g / c) as u32;
        let pb = (b / c) as u32;
        pr * 0x1000000 + pg * 0x10000 + pb * 0x100
    }

    /// Ring-weighted average with the adaptive variance stop: rings are
    /// added outward until the running color variance crosses the
    /// threshold, so the blur never crosses a strong edge.
    pub fn radial_blur_edge_peel_var(im: &Image, mask: &Vec<u8>, x: u32, y: u32, radius: u32) -> (res:
        u32)
        requires
            im.wf(),
            mask@.len() == 4 * im.len(),
            2 <= radius <= RADIUS_MAX,
            radius <= x,
            x + radius <= im.width,
            radius <= y,
            y + radius <= im.height,
        ensures
            res == spec_radial_blur_edge_peel_var(
                im.buf@,
                mask@,
                im.width as int,
                x as int,
                y as int,
                radius as int,
            ),
            res <= 0xFFFFFF00,
    {
        let mut c: u64 = 0;
        let mut r: u64 = 0;
        let mut g: u64 = 0;
        let mut b: u64 = 0;
        let mut sm: u128 = 0;
        let mut q: u128 = 0;
        let mut ring: u32 = 1;
        let mut stopped: bool = false;
        while ring < radius && !stopped
            invariant
                1 <= ring <= radius,
                ({
                    let st = var_scan(
                        im.buf@,
                        mask@,
                        im.width as int,
                        x as int,
                        y as int,
                        radius as int,
                        ring as int,
                    );
                    c == st.0.c && r == st.0.r && g == st.0.g && b == st.0.b && sm == st.0.sm && q
                        == st.0.q && stopped == st.1
                }),
                c <= 2163200 * (ring - 1),
                r <= 255 * c,
                g <= 255 * c,
                b <= 255 * c,
                sm <= 765 * c * c,
                q <= 585225 * c * c * c,
                ring >= 2 ==> c >= 1,
            decreases radius - ring,
        {
            scan_ring(
                &im.buf,
                mask,
                im.width,
                im.height,
                x,
                y,
                ring,
                &mut c,
                &mut r,
                &mut g,
                &mut b,
                &mut sm,
                &mut q,
            );
            stopped = stop_check(c, sm, q, radius);
            ring = ring + 1;
        }
        proof {
            if stopped {
                lemma_var_stable(
                    im.buf@,
                    mask@,
                    im.width as int,
                    x as int,
                    y as int,
                    radius as int,
                    ring as int,
                    radius as int,
                );
            }
            assert(r / c <= 255 && g / c <= 255 && b / c <= 255) by (nonlinear_arith)
                requires
                    c >= 1,
                    r <= 255 * c,
                    g <= 255 * c,
                    b <= 255 * c,
            ;
        }
        let pr = (r / c) as u32;
        let pg = (g / c) as u32;
        let pb = (b / c) as u32;
        pr * 0x1000000 + pg * 0x10000 + pb * 0x100
    }

    /// Re-blend the reconstructed region of the image: ring-blend every
    /// pixel the mask marks as reconstructed (and that lies at least
    /// `blurriness` away from every edge), then replace each blended
    /// pixel with the plain average of its four neighbors' blended
    /// colors. A mask of the wrong size, or a radius reaching half the
    /// width or height, is rejected as a configuration error.
    pub fn smooth(self, mask: &Vec<u8>) -> (res: Result<Smoother, ConfigError>)
        requires
            self.im.wf(),
            2 <= self.blurriness <= RADIUS_MAX,
        ensures
            mask@.len() != 4 * self.im.len() ==> res == Err::<Smoother, ConfigError>(
                ConfigError::MaskMismatch,
            ),
            mask@.len() == 4 * self.im.len() && (self.im.width <= 2 * self.blurriness
                || self.im.height <= 2 * self.blurriness) ==> res == Err::<Smoother, ConfigError>(
                ConfigError::RadiusTooLarge,
            ),
            mask@.len() == 4 * self.im.len() && self.im.width > 2 * self.blurriness
                && self.im.height > 2 * self.blurriness ==> {
                &&& res is Ok
                &&& res->Ok_0.im.width == self.im.width
                &&& res->Ok_0.im.height == self.im.height
                &&& res->Ok_0.blurriness == self.blurriness
                &&& res->Ok_0.im.buf@ == final_seq(
                    blended_seq(
                        self.im.buf@,
                        mask@,
                        self.im.width as int,
                        self.im.height as int,
                        self.blurriness as int,
                    ),
                    mask@,
                    self.im.width as int,
                    self.im.height as int,
                    self.blurriness as int,
                )
            },
    {
        let w = self.im.width;
        let h = self.im.height;
        let radius = self.blurriness;
        let len = (w as usize) * (h as usize);
        if mask.len() != 4 * len {
            return Err(ConfigError::MaskMismatch);
        }
        if w <= 2 * radius || h <= 2 * radius {
            return Err(ConfigError::RadiusTooLarge);
        }
        let bl = blend_pass(&self.im, mask, radius);
        let bim = Image { buf: bl, width: w, height: h };
        let out = denoise_pass(&bim, mask, radius);
        Ok(Smoother { im: Image { buf: out, width: w, height: h }, blurriness: radius })
    }

    /// Average of the four axis-neighbors of `(x, y)`, packed.
    pub fn denoise(im: &Image, x: u32, y: u32) -> (r: u32)
        requires
            im.wf(),
            1 <= x,
            x + 1 < im.width,
            1 <= y,
            y + 1 < im.height,
        ensures
            r == spec_denoise(im.buf@, im.width as int, x as int, y as int),
            r <= 0xFFFFFF00,
    {
        let w = im.width as usize;
        proof {
            crate::inpaint::lemma_pos_in_grid(
                im.width as int,
                im.height as int,
                x as int,
                y as int,
            );
            crate::inpaint::lemma_pos_in_grid(
                im.width as int,
                im.height as int,
                x as int + 1,
                y as int,
            );
            crate::inpaint::lemma_pos_in_grid(
                im.width as int,
                im.height as int,
                x as int,
                y as int + 1,
            );
            assert((y as int - 1) * im.width as int == y as int * im.width as int - im.width as int)
                by (nonlinear_arith);
            assert((y as int + 1) * im.width as int == y as int * im.width as int + im.width as int)
                by (nonlinear_arith);
            assert(im.width as int * (y as int - 1) == (y as int - 1) * im.width as int)
                by (nonlinear_arith);
            assert(im.width as int * (y as int + 1) == (y as int + 1) * im.width as int)
                by (nonlinear_arith);
            assert(im.width as int * y as int == y as int * im.width as int) by (nonlinear_arith);
        }
        let p = y as usize * w + x as usize;
        let l = p - 1;
        let r = p + 1;
        let u = p - w;
        let d = p + w;
        let c = 4u32;
        let r0 = (im.buf[3 * l] as u32 + im.buf[3 * r] as u32 + im.buf[3 * u] as u32
            + im.buf[3 * d] as u32) / c;
        let g0 = (im.buf[3 * l + 1] as u32 + im.buf[3 * r + 1] as u32 + im.buf[3 * u + 1] as u32
            + im.buf[3 * d + 1] as u32) / c;
        let b0 = (im.buf[3 * l + 2] as u32 + im.buf[3 * r + 2] as u32 + im.buf[3 * u + 2] as u32
            + im.buf[3 * d + 2] as u32) / c;
        r0 * 0x1000000 + g0 * 0x10000 + b0 * 0x100
    }
}

} // verus!
