//! Fixed-point scale shared by the solver, the inpainter and the painter.
//!
//! Arrival times are unsigned Q16.16 fixed-point numbers held in `u64`:
//! the integer value `t` stands for the real time `t / 65536`. Unknown
//! pixels carry the sentinel `T_INF` ("effectively infinite"); computed
//! times saturate at `T_CAP`, one time unit above the sentinel, so that
//! every arithmetic step stays far below `u64::MAX`.

use vstd::prelude::*;

verus! {

/// Sentinel arrival time of a still-unknown pixel: one million time units.
pub const T_INF: u64 = 1000000 * 65536;

/// Upper cap on every stored arrival time: the sentinel plus one unit.
pub const T_CAP: u64 = 1000000 * 65536 + 65536;

/// Largest pixel count (width times height) the painter accepts.
pub const LEN_MAX: usize = 0x400_0000;

/// `r` is the floor of the square root of `x`.
pub open spec fn is_floor_sqrt(x: int, r: int) -> bool {
    0 <= r && r * r <= x && x < (r + 1) * (r + 1)
}

/// Floor of the square root of a nonnegative integer, at the spec level.
pub open spec fn floor_sqrt(x: int) -> int {
    choose|r: int| is_floor_sqrt(x, r)
}

/// The floor square root is unique, so any witness equals `floor_sqrt`.
pub proof fn lemma_floor_sqrt_unique(x: int, r: int)
    requires
        is_floor_sqrt(x, r),
    ensures
        floor_sqrt(x) == r,
{
    let c = choose|c: int| is_floor_sqrt(x, c);
    assert(is_floor_sqrt(x, c));
    assert(c == r) by (nonlinear_arith)
        requires
            is_floor_sqrt(x, c),
            is_floor_sqrt(x, r),
    ;
}

/// Floor of the square root: the largest `r` with `r * r <= x`.
pub fn isqrt(x: u64) -> (r: u64)
    ensures
        r * r <= x,
        x < (r + 1) * (r + 1),
{
    if x == 0 {
        return 0;
    }
    let mut lo: u64 = 0;
    let mut hi: u64 = 0x1_0000_0000;
    while hi - lo > 1
        invariant
            lo < hi <= 0x1_0000_0000,
            lo * lo <= x,
            x < hi * hi,
        decreases hi - lo,
    {
        let mid = lo + (hi - lo) / 2;
        assert(mid * mid <= 0xffff_ffff * 0xffff_ffff) by (nonlinear_arith)
            requires
                mid < 0x1_0000_0000,
        ;
        if mid * mid <= x {
            lo = mid;
        } else {
            hi = mid;
        }
    }
    proof {
        assert(x < 0x1_0000_0000 * 0x1_0000_0000);
    }
    lo
}

/// Square root in Q16.16: `fx_sqrt(s)` is the floor of `sqrt(s / 2^16) * 2^16`.
pub fn fx_sqrt(s: u64) -> (r: u64)
    requires
        s <= 131072,
    ensures
        r * r <= s * 65536,
        s * 65536 < (r + 1) * (r + 1),
        r <= 92681,
{
    let r = isqrt(s * 65536);
    proof {
        assert(r <= 92681) by (nonlinear_arith)
            requires
                r * r <= s * 65536,
                s <= 131072,
        ;
    }
    r
}

} // verus!
