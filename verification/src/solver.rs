//! Upwind quadratic estimate of a pixel's arrival time.
//!
//! Given the states of two orthogonal axis-neighbors of a candidate pixel —
//! whether each is already known and its current arrival time — the solver
//! estimates the candidate's arrival time:
//!
//! - both known and the times differ by at least one unit: one unit past the
//!   earlier one;
//! - both known and close: the two-neighbor quadratic solve
//!   `(t1 + t2 + sqrt(2 - (t1 - t2)^2)) / 2`, whose discriminant stays in
//!   `(1, 2]`;
//! - exactly one known: one unit past that one;
//! - neither known: one unit past the earlier (both carry the sentinel, so
//!   this is a large fallback).
//!
//! The result saturates at [`T_CAP`], one unit above the sentinel, which
//! keeps every stored time within a fixed range; only pathological
//! propagations into fully-unknown regions ever reach the cap.

use vstd::prelude::*;
use crate::fixed::{T_CAP, floor_sqrt, lemma_floor_sqrt_unique, fx_sqrt};

verus! {

/// The smaller of two times.
pub open spec fn spec_min(a: int, b: int) -> int {
    if a < b {
        a
    } else {
        b
    }
}

/// The solver's estimate, in Q16.16, from the two neighbor states:
/// `k1`/`k2` say whether each neighbor is known, `t1`/`t2` are their
/// current arrival times.
pub open spec fn spec_solve(k1: bool, t1: int, k2: bool, t2: int) -> int {
    let raw = if k1 && k2 {
        let d = if t1 >= t2 {
            t1 - t2
        } else {
            t2 - t1
        };
        if d >= 65536 {
            65536 + spec_min(t1, t2)
        } else {
            (t1 + t2 + floor_sqrt((131072 - d * d / 65536) * 65536)) / 2
        }
    } else if k1 {
        65536 + t1
    } else if k2 {
        65536 + t2
    } else {
        65536 + spec_min(t1, t2)
    };
    if raw > T_CAP {
        T_CAP as int
    } else {
        raw
    }
}

/// Estimate a candidate pixel's arrival time from two orthogonal neighbors.
pub fn solve(k1: bool, t1: u64, k2: bool, t2: u64) -> (t: u64)
    requires
        t1 <= T_CAP,
        t2 <= T_CAP,
    ensures
        t == spec_solve(k1, t1 as int, k2, t2 as int),
        t <= T_CAP,
{
    let t_min = if t1 < t2 {
        t1
    } else {
        t2
    };
    let raw: u64 = if k1 && k2 {
        let d = if t1 >= t2 {
            t1 - t2
        } else {
            t2 - t1
        };
        if d >= 65536 {
            65536 + t_min
        } else {
            proof {
                assert(d * d < 131072 * 65536 && d * d / 65536 < 131072) by (nonlinear_arith)
                    requires
                        d < 65536,
                ;
            }
            let d2 = d * d / 65536;
            let s = 131072 - d2;
            let r = fx_sqrt(s);
            proof {
                lemma_floor_sqrt_unique(s as int * 65536, r as int);
            }
            (t1 + t2 + r) / 2
        }
    } else if k1 {
        65536 + t1
    } else if k2 {
        65536 + t2
    } else {
        65536 + t_min
    };
    if raw > T_CAP {
        T_CAP
    } else {
        raw
    }
}

} // verus!
