//! Global laws of the painter, proved from its invariants.

use vstd::prelude::*;
use crate::bitmask::bit;
use crate::painter::{Painter, unknown_neighbor, lemma_coords};

verus! {

/// Walking from a known pixel toward an unknown pixel must cross the
/// boundary somewhere: some known pixel has an unknown axis-neighbor.
proof fn lemma_path(inside: Seq<u32>, w: int, h: int, ax: int, ay: int, bx: int, by: int)
    requires
        w >= 1,
        h >= 1,
        w * h <= usize::MAX,
        0 <= ax < w,
        0 <= ay < h,
        0 <= bx < w,
        0 <= by < h,
        !bit(inside, ay * w + ax),
        bit(inside, by * w + bx),
    ensures
        exists|p: int|
            0 <= p < w * h && !bit(inside, p) && #[trigger] unknown_neighbor(inside, w, h, p),
    decreases crate::inpaint::spec_abs(ax - bx) + crate::inpaint::spec_abs(ay - by),
{
    let a = ay * w + ax;
    crate::inpaint::lemma_pos_in_grid(w, h, ax, ay);
    crate::inpaint::lemma_pos_in_grid(w, h, bx, by);
    lemma_coords(w, h, a);
    assert((ay - 1) * w + ax == a - w && (ay + 1) * w + ax == a + w) by (nonlinear_arith)
        requires
            a == ay * w + ax,
    ;
    // move one step from the known pixel toward the unknown one
    let (nx, ny): (int, int) = if ax < bx {
        (ax + 1, ay)
    } else if ax > bx {
        (ax - 1, ay)
    } else if ay < by {
        (ax, ay + 1)
    } else {
        (ax, ay - 1)
    };
    crate::inpaint::lemma_pos_in_grid(w, h, nx, ny);
    let n = ny * w + nx;
    if bit(inside, n) {
        assert(unknown_neighbor(inside, w, h, a));
        assert(0 <= a < w * h && !bit(inside, a) && unknown_neighbor(inside, w, h, a));
    } else {
        lemma_path(inside, w, h, nx, ny, bx, by);
    }
}

/// Frontier exhaustion: once the queue is empty, a painter that still
/// has a known pixel has no unknown pixels left at all. Together with
/// the tick's contract — the tick reports 100 exactly when the queue is
/// empty — the painter is done exactly when nothing remains unknown.
pub proof fn frontier_exhaustion(pt: Painter)
    requires
        pt.wf(),
        pt.queue@.len() == 0,
        exists|j: int| 0 <= j < pt.len() && !bit(pt.inside@, j),
    ensures
        forall|j: int| 0 <= j < pt.len() ==> !bit(pt.inside@, j),
{
    let w = pt.im.width as int;
    let h = pt.im.height as int;
    let a = choose|j: int| 0 <= j < pt.len() && !bit(pt.inside@, j);
    assert(w >= 1 && h >= 1) by (nonlinear_arith)
        requires
            0 <= a < w * h,
            w >= 0,
            h >= 0,
    ;
    assert forall|j: int| 0 <= j < pt.len() implies !bit(pt.inside@, j) by {
        if bit(pt.inside@, j) {
            lemma_coords(w, h, a);
            lemma_coords(w, h, j);
            assert((a / w) * w + a % w == a && (j / w) * w + j % w == j) by (nonlinear_arith)
                requires
                    a == w * (a / w) + a % w,
                    j == w * (j / w) + j % w,
            ;
            lemma_path(pt.inside@, w, h, a % w, a / w, j % w, j / w);
            let p = choose|p: int|
                0 <= p < w * h && !bit(pt.inside@, p) && #[trigger] unknown_neighbor(
                    pt.inside@,
                    w,
                    h,
                    p,
                );
            assert(pt.queue.has_index(p as u32));
        }
    }
}

/// No-op on an empty mask: a freshly seeded painter whose unknown set
/// is empty — which is what the constructor produces when the mask
/// marks no pixel unknown — has an empty frontier, so by the tick's
/// contract its first tick reports 100 at once and leaves the buffer
/// untouched.
pub proof fn no_op_on_empty_mask(pt: Painter)
    requires
        pt.wf(),
        forall|j: int|
            0 <= j < pt.len() ==> (pt.queue.has_index(j as u32) <==> (!bit(pt.inside@, j)
                && #[trigger] unknown_neighbor(
                pt.inside@,
                pt.im.width as int,
                pt.im.height as int,
                j,
            ))),
        forall|j: int| 0 <= j < pt.len() ==> !bit(pt.inside@, j),
    ensures
        pt.queue@.len() == 0,
{
    let w = pt.im.width as int;
    let h = pt.im.height as int;
    if pt.queue@.len() > 0 {
        let e = pt.queue@[0];
        assert(e.i < pt.len() && !bit(pt.inside@, e.i as int));
        assert(w >= 1 && h >= 1) by (nonlinear_arith)
            requires
                0 <= e.i < w * h,
                w >= 0,
                h >= 0,
        ;
        let j = e.i as int;
        assert(pt.queue.has_index(j as u32)) by {
            assert(pt.queue@[0].i == j as u32);
        }
        assert(unknown_neighbor(pt.inside@, w, h, j));
        lemma_coords(w, h, j);
        // whichever neighbor were unknown, it would lie in range,
        // contradicting the empty unknown set
        assert(false);
    }
}

} // verus!
