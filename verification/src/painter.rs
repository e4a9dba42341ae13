//! The fast-marching painter: state, seeding and the resumable tick.
//!
//! The painter owns the pixel buffer, the unknown-pixel mask, the
//! arrival-time field and the frontier queue. [`Painter::new`] seeds the
//! frontier with every known pixel that touches the unknown region;
//! [`paint`] then runs one bounded batch of frontier expansions (a
//! "tick"), so a caller can interleave the reconstruction with other
//! work and watch [`Painter::progress`] climb to 100.

use vstd::prelude::*;
use crate::bitmask;
use crate::bitmask::{Bitmask, bit, word_count, lemma_word_count_covers};
use crate::fixed::{T_INF, T_CAP, LEN_MAX};
use crate::front::{Front, Node};
use crate::inpaint::{inpaint, spec_total, spec_chan, ceil_div};
use crate::solver::{solve, spec_solve, spec_min};

verus! {

/// A row-major 8-bit RGB pixel buffer: three bytes per pixel, pixel
/// `(x, y)` at linear index `y * width + x`.
#[derive(Default)]
pub struct Image {
    /// The channel bytes, `3 * width * height` of them.
    pub buf: Vec<u8>,
    /// Width in pixels.
    pub width: u32,
    /// Height in pixels.
    pub height: u32,
}

impl Image {
    /// Number of pixels.
    pub open spec fn len(&self) -> int {
        self.width as int * self.height as int
    }

    /// The buffer holds exactly three bytes per pixel and the pixel count
    /// stays within the supported maximum.
    pub open spec fn wf(&self) -> bool {
        &&& self.buf@.len() == 3 * self.len()
        &&& self.len() <= LEN_MAX
    }
}

/// Number of pixels still unknown among the first `k` mask bits.
pub open spec fn count_unknown(inside: Seq<u32>, k: nat) -> nat
    decreases k,
{
    if k == 0 {
        0
    } else {
        count_unknown(inside, (k - 1) as nat) + if bit(inside, k - 1) {
            1nat
        } else {
            0nat
        }
    }
}

/// The unknown count never exceeds the number of bits counted.
pub proof fn lemma_count_le(inside: Seq<u32>, k: nat)
    ensures
        count_unknown(inside, k) <= k,
    decreases k,
{
    if k > 0 {
        lemma_count_le(inside, (k - 1) as nat);
    }
}

/// Masks that agree on the first `k` bits count the same unknowns.
pub proof fn lemma_count_same(m1: Seq<u32>, m2: Seq<u32>, k: nat)
    requires
        forall|j: int| 0 <= j < k ==> bit(m1, j) == bit(m2, j),
    ensures
        count_unknown(m1, k) == count_unknown(m2, k),
    decreases k,
{
    if k > 0 {
        lemma_count_same(m1, m2, (k - 1) as nat);
    }
}

/// Clearing one set bit lowers the unknown count of every prefix that
/// contains it by exactly one.
pub proof fn lemma_count_clear(m1: Seq<u32>, m2: Seq<u32>, n: int, k: nat)
    requires
        0 <= n < k,
        bit(m1, n),
        !bit(m2, n),
        forall|j: int| 0 <= j < k && j != n ==> bit(m1, j) == bit(m2, j),
    ensures
        count_unknown(m2, k) + 1 == count_unknown(m1, k),
    decreases k,
{
    if n == k - 1 {
        lemma_count_same(m1, m2, (k - 1) as nat);
    } else {
        lemma_count_clear(m1, m2, n, (k - 1) as nat);
    }
}

/// Some 4-connected axis-neighbor of pixel `p` is still unknown.
pub open spec fn unknown_neighbor(inside: Seq<u32>, w: int, h: int, p: int) -> bool {
    let x = p % w;
    let y = p / w;
    ||| (x > 0 && bit(inside, p - 1))
    ||| (x + 1 < w && bit(inside, p + 1))
    ||| (y > 0 && bit(inside, p - w))
    ||| (y + 1 < h && bit(inside, p + w))
}

/// Whether the neighbor at `(x, y)` is known; coordinates outside the
/// grid count as unknown (they carry no information).
pub open spec fn nbr_known(inside: Seq<u32>, w: int, h: int, x: int, y: int) -> bool {
    0 <= x < w && 0 <= y < h && !bit(inside, y * w + x)
}

/// Arrival time of the neighbor at `(x, y)`; coordinates outside the
/// grid carry the sentinel.
pub open spec fn nbr_time(times: Seq<u64>, w: int, h: int, x: int, y: int) -> int {
    if 0 <= x < w && 0 <= y < h {
        times[y * w + x] as int
    } else {
        T_INF as int
    }
}

/// The arrival time assigned to a pixel discovered at `(x, y)`: the
/// minimum of the four axis-pair solver estimates (left/right crossed
/// with up/down).
pub open spec fn spec_newtime(inside: Seq<u32>, times: Seq<u64>, w: int, h: int, x: int, y: int) -> int {
    let lu = spec_solve(
        nbr_known(inside, w, h, x - 1, y),
        nbr_time(times, w, h, x - 1, y),
        nbr_known(inside, w, h, x, y - 1),
        nbr_time(times, w, h, x, y - 1),
    );
    let ru = spec_solve(
        nbr_known(inside, w, h, x + 1, y),
        nbr_time(times, w, h, x + 1, y),
        nbr_known(inside, w, h, x, y - 1),
        nbr_time(times, w, h, x, y - 1),
    );
    let ld = spec_solve(
        nbr_known(inside, w, h, x - 1, y),
        nbr_time(times, w, h, x - 1, y),
        nbr_known(inside, w, h, x, y + 1),
        nbr_time(times, w, h, x, y + 1),
    );
    let rd = spec_solve(
        nbr_known(inside, w, h, x + 1, y),
        nbr_time(times, w, h, x + 1, y),
        nbr_known(inside, w, h, x, y + 1),
        nbr_time(times, w, h, x, y + 1),
    );
    spec_min(spec_min(lu, ru), spec_min(ld, rd))
}

/// The painter's whole state, persisted across ticks.
pub struct Painter {
    /// The pixel buffer being reconstructed in place.
    pub im: Image,
    /// One bit per pixel; set while the pixel is still unknown.
    pub inside: Bitmask,
    /// Arrival time of each pixel, Q16.16.
    pub times: Vec<u64>,
    /// Frontier of known pixels whose neighbors may still be unknown.
    pub queue: Front,
    /// Total number of frontier pixels processed so far.
    pub count: usize,
    /// Size of the original frontier, recorded on the first tick and used
    /// to normalize progress.
    pub max_queue: u32,
    /// Last reported progress, 0 to 100.
    pub progress: u32,
}

impl Painter {
    /// Number of pixels.
    pub open spec fn len(&self) -> int {
        self.im.len()
    }

    /// Pixel `p` is still unknown.
    pub open spec fn unknown(&self, p: int) -> bool {
        bit(self.inside@, p)
    }

    /// The buffers agree in size with the image geometry.
    pub open spec fn grid_wf(&self) -> bool {
        &&& self.im.wf()
        &&& self.times@.len() == self.len()
        &&& self.inside@.len() == word_count(self.len() as nat)
    }

    /// Every arrival time is capped, and unknown pixels carry the
    /// sentinel until the moment they are discovered.
    pub open spec fn times_wf(&self) -> bool {
        &&& forall|j: int| 0 <= j < self.len() ==> self.times@[j] <= T_CAP
        &&& forall|j: int| 0 <= j < self.len() && bit(self.inside@, j) ==> self.times@[j] == T_INF
    }

    /// The queue is ordered, holds only known in-range pixels, and holds
    /// each pixel at most once.
    pub open spec fn queue_wf(&self) -> bool {
        &&& self.queue.wf()
        &&& forall|k: int|
            0 <= k < self.queue@.len() ==> (#[trigger] self.queue@[k]).i < self.len() && !bit(
                self.inside@,
                self.queue@[k].i as int,
            )
        &&& forall|k1: int, k2: int|
            0 <= k1 < k2 < self.queue@.len() ==> self.queue@[k1].i != self.queue@[k2].i
    }

    /// Every known pixel that still touches the unknown region is queued,
    /// so an empty queue means the unknown region has no boundary at all.
    pub open spec fn coverage(&self) -> bool {
        forall|p: int|
            0 <= p < self.len() && !bit(self.inside@, p) && #[trigger] unknown_neighbor(
                self.inside@,
                self.im.width as int,
                self.im.height as int,
                p,
            ) ==> self.queue.has_index(p as u32)
    }

    /// Work bound: processed pixels, queued pixels and twice the unknown
    /// pixels never exceed three times the pixel limit. Each pop costs
    /// one unit and each discovery turns two unknown-units into at most
    /// one queue-unit, so this quantity never grows.
    pub open spec fn budget(&self) -> bool {
        self.count + self.queue@.len() + 2 * count_unknown(
            self.inside@,
            self.len() as nat,
        ) <= 3 * LEN_MAX
    }

    /// Progress is a percentage and reads 100 only once the frontier is
    /// exhausted.
    pub open spec fn progress_wf(&self) -> bool {
        &&& self.progress <= 100
        &&& (self.progress == 100 ==> self.queue@.len() == 0)
    }

    /// The painter's invariant, established by `new` and kept by `paint`.
    pub open spec fn wf(&self) -> bool {
        &&& self.grid_wf()
        &&& self.times_wf()
        &&& self.queue_wf()
        &&& self.coverage()
        &&& self.budget()
        &&& self.progress_wf()
    }

    /// Remaining work: queued entries plus two units per unknown pixel.
    /// Every productive tick strictly lowers it, so the run terminates.
    pub open spec fn potential(&self) -> int {
        self.queue@.len() + 2 * count_unknown(self.inside@, self.len() as nat) as int
    }
}

/// Inserting a pixel held by no current entry keeps the queue's entries
/// known, in range and distinct; the unknown set is untouched.
proof fn lemma_queue_insert_fresh(q1: Seq<Node>, q2: Seq<Node>, nd: Node, len: int, inside: Seq<u32>)
    requires
        exists|m: int| 0 <= m <= q1.len() && q2 == #[trigger] q1.insert(m, nd),
        forall|k: int|
            0 <= k < q1.len() ==> (#[trigger] q1[k]).i < len && !bit(inside, q1[k].i as int),
        forall|k1: int, k2: int| 0 <= k1 < k2 < q1.len() ==> q1[k1].i != q1[k2].i,
        nd.i < len,
        !bit(inside, nd.i as int),
        forall|k: int| 0 <= k < q1.len() ==> (#[trigger] q1[k]).i != nd.i,
    ensures
        forall|k: int|
            0 <= k < q2.len() ==> (#[trigger] q2[k]).i < len && !bit(inside, q2[k].i as int),
        forall|k1: int, k2: int| 0 <= k1 < k2 < q2.len() ==> q2[k1].i != q2[k2].i,
{
    let m = choose|m: int| 0 <= m <= q1.len() && q2 == #[trigger] q1.insert(m, nd);
    assert forall|k: int|
        0 <= k < q2.len() implies (#[trigger] q2[k]).i < len && !bit(inside, q2[k].i as int) by {
        if k < m {
            assert(q2[k] == q1[k]);
        } else if k == m {
            assert(q2[k] == nd);
        } else {
            assert(q2[k] == q1[k - 1]);
        }
    }
    assert forall|k1: int, k2: int| 0 <= k1 < k2 < q2.len() implies q2[k1].i != q2[k2].i by {
        let e1 = if k1 < m {
            q1[k1]
        } else if k1 == m {
            nd
        } else {
            q1[k1 - 1]
        };
        let e2 = if k2 < m {
            q1[k2]
        } else if k2 == m {
            nd
        } else {
            q1[k2 - 1]
        };
        assert(q2[k1] == e1 && q2[k2] == e2);
    }
}

/// Non-linear progress estimate from the original frontier size `total`
/// and the current queue length `remaining`, clamped to never fall below
/// the previous report `prev`. While less than 3% of the original
/// frontier has been consumed the estimate ramps quickly toward 97;
/// afterwards it holds at 97 until the queue empties (the caller then
/// forces 100).
pub open spec fn spec_progress(total: int, remaining: int, prev: int) -> int {
    let done = total - remaining;
    let cand = if 100 * done < 3 * total {
        if done <= 0 {
            0
        } else {
            9700 * done / (3 * total)
        }
    } else {
        97
    };
    if cand < prev {
        prev
    } else {
        cand
    }
}

/// Compute the progress estimate for a tick that stopped at its batch
/// limit.
pub fn progress_estimate(total: u32, remaining: usize, prev: u32) -> (p: u32)
    requires
        remaining >= 1,
        prev <= 100,
    ensures
        p == spec_progress(total as int, remaining as int, prev as int),
        prev <= p <= 100,
        p <= if prev > 97 {
            prev as int
        } else {
            97
        },
{
    let cand: u32 = if remaining as u64 >= total as u64 {
        0
    } else {
        let done: u64 = total as u64 - remaining as u64;
        if 100 * done < 3 * (total as u64) {
            proof {
                assert(9700 * done / (3 * total as u64) < 97) by (nonlinear_arith)
                    requires
                        100 * done < 3 * (total as u64),
                        done >= 1,
                ;
            }
            ((9700 * done) / (3 * (total as u64))) as u32
        } else {
            97
        }
    };
    if cand < prev {
        prev
    } else {
        cand
    }
}

/// State of the axis-neighbor at `(x, y)`: whether it is known, and its
/// arrival time. Coordinates outside the grid read as unknown with the
/// sentinel time.
fn nbr_state(inside: &Bitmask, times: &Vec<u64>, width: u32, height: u32, x: i64, y: i64) -> (r: (
    bool,
    u64,
))
    requires
        width as int * height as int <= LEN_MAX,
        times@.len() == width as int * height as int,
        inside@.len() == word_count((width as int * height as int) as nat),
        -1 <= x <= width as int,
        -1 <= y <= height as int,
        forall|j: int| 0 <= j < times@.len() ==> times@[j] <= T_CAP,
    ensures
        r.0 == nbr_known(inside@, width as int, height as int, x as int, y as int),
        r.1 == nbr_time(times@, width as int, height as int, x as int, y as int),
        r.1 <= T_CAP,
{
    if x >= 0 && x < width as i64 && y >= 0 && y < height as i64 {
        proof {
            crate::inpaint::lemma_pos_in_grid(width as int, height as int, x as int, y as int);
            lemma_word_count_covers(times@.len() as nat, y as int * width as int + x as int);
        }
        let p = (y as usize) * (width as usize) + (x as usize);
        (!bitmask::get(inside, p), times[p])
    } else {
        (false, T_INF)
    }
}

/// Discover the unknown pixel at `(x, y)`: remove it from the unknown
/// set, fill its color with the directional inpainter, assign it the
/// solver's arrival time, and queue it on the frontier — in exactly that
/// order, so the pixel leaves the unknown set at the moment it is queued
/// and can never be queued twice.
fn discover(im: &mut Image, inside: &mut Bitmask, times: &mut Vec<u64>, queue: &mut Front, x: u32, y: u32)
    requires
        old(im).wf(),
        old(times)@.len() == old(im).len(),
        old(inside)@.len() == word_count(old(im).len() as nat),
        x < old(im).width,
        y < old(im).height,
        forall|j: int| 0 <= j < old(im).len() ==> old(times)@[j] <= T_CAP,
        forall|j: int|
            0 <= j < old(im).len() && bit(old(inside)@, j) ==> old(times)@[j] == T_INF,
        bit(old(inside)@, y as int * old(im).width as int + x as int),
        old(queue).wf(),
        forall|k: int|
            0 <= k < old(queue)@.len() ==> (#[trigger] old(queue)@[k]).i < old(im).len() && !bit(
                old(inside)@,
                old(queue)@[k].i as int,
            ),
        old(queue)@.len() <= 3 * LEN_MAX,
    ensures
        ({
            let w = old(im).width as int;
            let h = old(im).height as int;
            let n = y as int * w + x as int;
            let nt = spec_newtime(final(inside)@, old(times)@, w, h, x as int, y as int);
            &&& final(im).width == old(im).width
            &&& final(im).height == old(im).height
            &&& final(im).buf@.len() == old(im).buf@.len()
            &&& final(inside)@.len() == old(inside)@.len()
            &&& final(times)@.len() == old(times)@.len()
            &&& !bit(final(inside)@, n)
            &&& forall|j: int|
                0 <= j < old(im).len() && j != n ==> bit(final(inside)@, j) == bit(old(inside)@, j)
            &&& forall|k: int|
                0 <= k < old(im).buf@.len() && !(3 * n <= k < 3 * n + 3) ==> final(im).buf@[k]
                    == old(im).buf@[k]
            &&& (spec_total(final(inside)@, old(times)@, w, h, n) == 0 ==> final(im).buf@ == old(
                im,
            ).buf@)
            &&& (spec_total(final(inside)@, old(times)@, w, h, n) > 0 ==> forall|c: int|
                0 <= c < 3 ==> final(im).buf@[3 * n + c] == ceil_div(
                    spec_chan(old(im).buf@, final(inside)@, old(times)@, w, h, n, c),
                    spec_total(final(inside)@, old(times)@, w, h, n),
                ))
            &&& final(times)@[n] == nt
            &&& final(times)@[n] <= T_CAP
            &&& forall|j: int|
                0 <= j < old(times)@.len() && j != n ==> final(times)@[j] == old(times)@[j]
            &&& final(queue).wf()
            &&& final(queue)@.len() == old(queue)@.len() + 1
            &&& forall|j: u32| final(queue).has_index(j) <==> old(queue).has_index(j) || j == n
            &&& exists|m: int|
                0 <= m <= old(queue)@.len() && final(queue)@ == #[trigger] old(queue)@.insert(
                    m,
                    (Node { priority: nt as u64, i: n as u32 }),
                )
        }),
{
    let w = im.width;
    let h = im.height;
    proof {
        crate::inpaint::lemma_pos_in_grid(w as int, h as int, x as int, y as int);
        lemma_word_count_covers(old(im).len() as nat, y as int * w as int + x as int);
    }
    let n = (y as usize) * (w as usize) + (x as usize);
    bitmask::unset(inside, n);
    proof {
        assert forall|j: int|
            0 <= j < old(im).len() && j != n implies bit(inside@, j) == bit(old(inside)@, j) by {
            lemma_word_count_covers(old(im).len() as nat, j);
        }
    }
    inpaint(im, inside, times, n);
    let lft = nbr_state(inside, times, w, h, x as i64 - 1, y as i64);
    let rgt = nbr_state(inside, times, w, h, x as i64 + 1, y as i64);
    let up = nbr_state(inside, times, w, h, x as i64, y as i64 - 1);
    let dwn = nbr_state(inside, times, w, h, x as i64, y as i64 + 1);
    let t_lu = solve(lft.0, lft.1, up.0, up.1);
    let t_ru = solve(rgt.0, rgt.1, up.0, up.1);
    let t_ld = solve(lft.0, lft.1, dwn.0, dwn.1);
    let t_rd = solve(rgt.0, rgt.1, dwn.0, dwn.1);
    let m1 = if t_lu < t_ru {
        t_lu
    } else {
        t_ru
    };
    let m2 = if t_ld < t_rd {
        t_ld
    } else {
        t_rd
    };
    let nt = if m1 < m2 {
        m1
    } else {
        m2
    };
    times[n] = nt;
    proof {
        assert(!old(queue).has_index(n as u32)) by {
            if old(queue).has_index(n as u32) {
                let k = choose|k: int|
                    0 <= k < old(queue)@.len() && old(queue)@[k].i == n as u32;
                assert(!bit(old(inside)@, old(queue)@[k].i as int));
            }
        }
    }
    queue.push(nt, n as u32);
}

/// Inserting a fresh known pixel into a well-formed queue keeps every
/// entry known, in range and distinct.
proof fn lemma_queue_after_insert(
    q1: Seq<Node>,
    q2: Seq<Node>,
    nd: Node,
    len: int,
    inside1: Seq<u32>,
    inside2: Seq<u32>,
)
    requires
        exists|m: int| 0 <= m <= q1.len() && q2 == #[trigger] q1.insert(m, nd),
        forall|k: int|
            0 <= k < q1.len() ==> (#[trigger] q1[k]).i < len && !bit(inside1, q1[k].i as int),
        forall|k1: int, k2: int| 0 <= k1 < k2 < q1.len() ==> q1[k1].i != q1[k2].i,
        nd.i < len,
        !bit(inside2, nd.i as int),
        bit(inside1, nd.i as int),
        forall|j: int| 0 <= j < len && !bit(inside1, j) ==> !bit(inside2, j),
    ensures
        forall|k: int|
            0 <= k < q2.len() ==> (#[trigger] q2[k]).i < len && !bit(inside2, q2[k].i as int),
        forall|k1: int, k2: int| 0 <= k1 < k2 < q2.len() ==> q2[k1].i != q2[k2].i,
{
    let m = choose|m: int| 0 <= m <= q1.len() && q2 == #[trigger] q1.insert(m, nd);
    assert forall|k: int|
        0 <= k < q2.len() implies (#[trigger] q2[k]).i < len && !bit(inside2, q2[k].i as int) by {
        if k < m {
            assert(q2[k] == q1[k]);
        } else if k == m {
            assert(q2[k] == nd);
        } else {
            assert(q2[k] == q1[k - 1]);
        }
    }
    assert forall|k1: int, k2: int| 0 <= k1 < k2 < q2.len() implies q2[k1].i != q2[k2].i by {
        let e1 = if k1 < m {
            q1[k1]
        } else if k1 == m {
            nd
        } else {
            q1[k1 - 1]
        };
        let e2 = if k2 < m {
            q1[k2]
        } else if k2 == m {
            nd
        } else {
            q1[k2 - 1]
        };
        assert(q2[k1] == e1 && q2[k2] == e2);
        if k1 != m && k2 != m {
        } else {
            // one of the two is the fresh node, whose pixel was unknown
            // while every old entry's pixel was known
        }
    }
}

/// The moving parts of a tick are consistent: buffers sized to the
/// geometry, times capped with the sentinel on unknown pixels, and a
/// well-ordered queue of known, in-range, pairwise-distinct pixels.
pub open spec fn state_inv(im: Image, inside: Seq<u32>, times: Seq<u64>, q: Front) -> bool {
    &&& im.wf()
    &&& times.len() == im.len()
    &&& inside.len() == word_count(im.len() as nat)
    &&& forall|j: int| 0 <= j < im.len() ==> times[j] <= T_CAP
    &&& forall|j: int| 0 <= j < im.len() && bit(inside, j) ==> times[j] == T_INF
    &&& q.wf()
    &&& forall|k: int|
        0 <= k < q@.len() ==> (#[trigger] q@[k]).i < im.len() && !bit(inside, q@[k].i as int)
    &&& forall|k1: int, k2: int| 0 <= k1 < k2 < q@.len() ==> q@[k1].i != q@[k2].i
}

/// Discover the pixel at `(nx, ny)` if it is still unknown; do nothing
/// otherwise. Afterwards the pixel is known either way, and it entered
/// the queue exactly when it was unknown before.
fn try_discover(
    im: &mut Image,
    inside: &mut Bitmask,
    times: &mut Vec<u64>,
    queue: &mut Front,
    nx: u32,
    ny: u32,
)
    requires
        state_inv(*old(im), old(inside)@, old(times)@, *old(queue)),
        nx < old(im).width,
        ny < old(im).height,
        bit(old(inside)@, ny as int * old(im).width as int + nx as int) ==> old(queue)@.len() < 3
            * LEN_MAX,
    ensures
        ({
            let len = old(im).len();
            let n = ny as int * old(im).width as int + nx as int;
            let was = bit(old(inside)@, n);
            &&& state_inv(*final(im), final(inside)@, final(times)@, *final(queue))
            &&& final(im).width == old(im).width
            &&& final(im).height == old(im).height
            &&& final(im).buf@.len() == old(im).buf@.len()
            &&& final(inside)@.len() == old(inside)@.len()
            &&& final(times)@.len() == old(times)@.len()
            &&& !bit(final(inside)@, n)
            &&& forall|j: int| 0 <= j < len && j != n ==> bit(final(inside)@, j) == bit(
                old(inside)@,
                j,
            )
            &&& forall|k: int|
                0 <= k < old(im).buf@.len() && !(3 * n <= k < 3 * n + 3) ==> final(im).buf@[k]
                    == old(im).buf@[k]
            &&& forall|j: int|
                0 <= j < len && j != n ==> final(times)@[j] == old(times)@[j]
            &&& (!was ==> final(im).buf@ == old(im).buf@ && final(inside)@ == old(inside)@
                && final(times)@ == old(times)@ && final(queue)@ == old(queue)@)
            &&& final(queue)@.len() == old(queue)@.len() + (if was {
                1int
            } else {
                0
            })
            &&& (was ==> final(queue).has_index(n as u32))
            &&& forall|j: u32| old(queue).has_index(j) ==> final(queue).has_index(j)
            &&& count_unknown(final(inside)@, len as nat) + (if was {
                1int
            } else {
                0
            }) == count_unknown(old(inside)@, len as nat)
        }),
{
    let w = im.width;
    let h = im.height;
    proof {
        crate::inpaint::lemma_pos_in_grid(w as int, h as int, nx as int, ny as int);
        lemma_word_count_covers(old(im).len() as nat, ny as int * w as int + nx as int);
    }
    let n = (ny as usize) * (w as usize) + (nx as usize);
    let ghost len = im.len();
    if bitmask::get(inside, n) {
        let ghost inside0 = inside@;
        let ghost queue0 = *queue;
        discover(im, inside, times, queue, nx, ny);
        proof {
            assert forall|j: int| 0 <= j < len implies #[trigger] (j / 32) < inside@.len() by {
                lemma_word_count_covers(len as nat, j);
            }
            lemma_count_clear(inside0, inside@, n as int, len as nat);
            let nt = spec_newtime(inside@, old(times)@, w as int, h as int, nx as int, ny as int);
            lemma_queue_after_insert(
                queue0@,
                queue@,
                (Node { priority: nt as u64, i: n as u32 }),
                len,
                inside0,
                inside@,
            );
        }
    }
}

/// Coordinates of a pixel index and in-range bounds for its neighbors.
pub proof fn lemma_coords(w: int, h: int, p: int)
    requires
        w >= 1,
        h >= 1,
        0 <= p < w * h,
    ensures
        0 <= p % w < w,
        0 <= p / w < h,
        p == w * (p / w) + (p % w),
        p % w > 0 ==> 0 < p,
        p % w + 1 < w ==> p + 1 < w * h,
        p / w > 0 ==> w <= p,
        p / w + 1 < h ==> p + w < w * h,
{
    vstd::arithmetic::div_mod::lemma_fundamental_div_mod(p, w);
    vstd::arithmetic::div_mod::lemma_mod_bound(p, w);
    assert(0 <= p / w < h && (p % w > 0 ==> 0 < p) && (p % w + 1 < w ==> p + 1 < w * h) && (p / w
        > 0 ==> w <= p) && (p / w + 1 < h ==> p + w < w * h)) by (nonlinear_arith)
        requires
            p == w * (p / w) + (p % w),
            0 <= p % w < w,
            0 <= p < w * h,
            w >= 1,
            h >= 1,
    ;
}

/// A set bit within range makes the unknown count positive.
proof fn lemma_count_pos(inside: Seq<u32>, n: int, k: nat)
    requires
        0 <= n < k,
        bit(inside, n),
    ensures
        count_unknown(inside, k) >= 1,
    decreases k,
{
    if n < k - 1 {
        lemma_count_pos(inside, n, (k - 1) as nat);
    }
}

/// Discover the unknown horizontal neighbors of the known pixel at
/// `(xi, yi)`. Afterwards both its in-range horizontal neighbors are
/// known, newly discovered pixels are queued, queued pixels stay queued,
/// colors change only on pixels that were just discovered, and the
/// remaining work does not grow.
#[verifier::rlimit(100)]
fn expand_x(im: &mut Image, inside: &mut Bitmask, times: &mut Vec<u64>, queue: &mut Front, xi: u32, yi: u32)
    requires
        state_inv(*old(im), old(inside)@, old(times)@, *old(queue)),
        xi < old(im).width,
        yi < old(im).height,
        !bit(old(inside)@, yi as int * old(im).width as int + xi as int),
        old(queue)@.len() + 2 * count_unknown(old(inside)@, old(im).len() as nat) + 1 <= 3
            * LEN_MAX,
    ensures
        state_inv(*final(im), final(inside)@, final(times)@, *final(queue)),
        final(im).width == old(im).width,
        final(im).height == old(im).height,
        forall|j: int| 0 <= j < old(im).len() && bit(final(inside)@, j) ==> bit(old(inside)@, j),
        forall|j: int|
            #![trigger final(times)@[j]]
            0 <= j < old(im).len() && !bit(old(inside)@, j) ==> final(times)@[j] == old(times)@[j],
        forall|j: int|
            0 <= j < old(im).len() && bit(old(inside)@, j) && !bit(final(inside)@, j)
                ==> final(queue).has_index(j as u32),
        forall|j: u32| old(queue).has_index(j) ==> final(queue).has_index(j),
        forall|j: int|
            #![trigger bit(old(inside)@, j)]
            #![trigger bit(final(inside)@, j)]
            0 <= j < old(im).len() && (!bit(old(inside)@, j) || bit(final(inside)@, j))
                ==> final(im).buf@[3 * j] == old(im).buf@[3 * j] && final(im).buf@[3 * j + 1]
                == old(im).buf@[3 * j + 1] && final(im).buf@[3 * j + 2] == old(im).buf@[3 * j + 2],
        final(queue)@.len() + 2 * count_unknown(final(inside)@, old(im).len() as nat)
            <= old(queue)@.len() + 2 * count_unknown(old(inside)@, old(im).len() as nat),
        xi > 0 ==> !bit(final(inside)@, yi as int * old(im).width as int + xi as int - 1),
        xi + 1 < old(im).width ==> !bit(
            final(inside)@,
            yi as int * old(im).width as int + xi as int + 1,
        ),
{
    let w = im.width;
    let ghost len = im.len();
    let ghost s_inside = inside@;
    proof {
        lemma_room(s_inside, queue@.len() as int, len, yi as int * w as int + xi as int - 1);
        lemma_room(s_inside, queue@.len() as int, len, yi as int * w as int + xi as int + 1);
        if xi > 0 {
            crate::inpaint::lemma_pos_in_grid(
                w as int,
                im.height as int,
                xi as int - 1,
                yi as int,
            );
        }
        if xi + 1 < w {
            crate::inpaint::lemma_pos_in_grid(
                w as int,
                im.height as int,
                xi as int + 1,
                yi as int,
            );
        }
    }
    if xi > 0 {
        try_discover(im, inside, times, queue, xi - 1, yi);
        proof {
            lemma_room(inside@, queue@.len() as int, len, yi as int * w as int + xi as int + 1);
        }
    }
    if xi + 1 < w {
        try_discover(im, inside, times, queue, xi + 1, yi);
    }
}

/// Discover the unknown vertical neighbors of the known pixel at
/// `(xi, yi)`, with the same guarantees as the horizontal pass.
#[verifier::rlimit(100)]
fn expand_y(im: &mut Image, inside: &mut Bitmask, times: &mut Vec<u64>, queue: &mut Front, xi: u32, yi: u32)
    requires
        state_inv(*old(im), old(inside)@, old(times)@, *old(queue)),
        xi < old(im).width,
        yi < old(im).height,
        !bit(old(inside)@, yi as int * old(im).width as int + xi as int),
        old(queue)@.len() + 2 * count_unknown(old(inside)@, old(im).len() as nat) + 1 <= 3
            * LEN_MAX,
    ensures
        state_inv(*final(im), final(inside)@, final(times)@, *final(queue)),
        final(im).width == old(im).width,
        final(im).height == old(im).height,
        forall|j: int| 0 <= j < old(im).len() && bit(final(inside)@, j) ==> bit(old(inside)@, j),
        forall|j: int|
            #![trigger final(times)@[j]]
            0 <= j < old(im).len() && !bit(old(inside)@, j) ==> final(times)@[j] == old(times)@[j],
        forall|j: int|
            0 <= j < old(im).len() && bit(old(inside)@, j) && !bit(final(inside)@, j)
                ==> final(queue).has_index(j as u32),
        forall|j: u32| old(queue).has_index(j) ==> final(queue).has_index(j),
        forall|j: int|
            #![trigger bit(old(inside)@, j)]
            #![trigger bit(final(inside)@, j)]
            0 <= j < old(im).len() && (!bit(old(inside)@, j) || bit(final(inside)@, j))
                ==> final(im).buf@[3 * j] == old(im).buf@[3 * j] && final(im).buf@[3 * j + 1]
                == old(im).buf@[3 * j + 1] && final(im).buf@[3 * j + 2] == old(im).buf@[3 * j + 2],
        final(queue)@.len() + 2 * count_unknown(final(inside)@, old(im).len() as nat)
            <= old(queue)@.len() + 2 * count_unknown(old(inside)@, old(im).len() as nat),
        yi > 0 ==> !bit(final(inside)@, (yi as int - 1) * old(im).width as int + xi as int),
        yi + 1 < old(im).height ==> !bit(
            final(inside)@,
            (yi as int + 1) * old(im).width as int + xi as int,
        ),
{
    let w = im.width;
    let h = im.height;
    let ghost len = im.len();
    let ghost s_inside = inside@;
    proof {
        lemma_room(s_inside, queue@.len() as int, len, (yi as int - 1) * w as int + xi as int);
        lemma_room(s_inside, queue@.len() as int, len, (yi as int + 1) * w as int + xi as int);
        if yi > 0 {
            crate::inpaint::lemma_pos_in_grid(w as int, h as int, xi as int, yi as int - 1);
        }
        if yi + 1 < h {
            crate::inpaint::lemma_pos_in_grid(w as int, h as int, xi as int, yi as int + 1);
        }
    }
    if yi > 0 {
        try_discover(im, inside, times, queue, xi, yi - 1);
        proof {
            lemma_room(inside@, queue@.len() as int, len, (yi as int + 1) * w as int + xi as int);
        }
    }
    if yi + 1 < h {
        try_discover(im, inside, times, queue, xi, yi + 1);
    }
}

/// Expand one popped frontier pixel: discover each of its unknown
/// axis-neighbors. Afterwards every neighbor of the pixel is known, the
/// newly discovered pixels are queued, and the frontier again covers
/// every known pixel that touches the unknown region.
#[verifier::rlimit(100)]
fn expand(im: &mut Image, inside: &mut Bitmask, times: &mut Vec<u64>, queue: &mut Front, i: u32)
    requires
        state_inv(*old(im), old(inside)@, old(times)@, *old(queue)),
        i < old(im).len(),
        !bit(old(inside)@, i as int),
        // after the pop, the frontier covers every boundary pixel but `i`
        forall|p: int|
            0 <= p < old(im).len() && p != i && !bit(old(inside)@, p) && #[trigger]
            unknown_neighbor(
                old(inside)@,
                old(im).width as int,
                old(im).height as int,
                p,
            ) ==> old(queue).has_index(p as u32),
        old(queue)@.len() + 2 * count_unknown(old(inside)@, old(im).len() as nat) + 1 <= 3
            * LEN_MAX,
    ensures
        state_inv(*final(im), final(inside)@, final(times)@, *final(queue)),
        final(im).width == old(im).width,
        final(im).height == old(im).height,
        // bits are only ever cleared
        forall|j: int| 0 <= j < old(im).len() && bit(final(inside)@, j) ==> bit(old(inside)@, j),
        // a pixel already known keeps its arrival time: times are
        // finalized once, at the moment of discovery
        forall|j: int|
            #![trigger final(times)@[j]]
            0 <= j < old(im).len() && !bit(old(inside)@, j) ==> final(times)@[j] == old(times)@[j],
        // pixels known before, and pixels still unknown, keep their color
        forall|j: int|
            #![trigger bit(old(inside)@, j)]
            #![trigger bit(final(inside)@, j)]
            0 <= j < old(im).len() && (!bit(old(inside)@, j) || bit(final(inside)@, j))
                ==> final(im).buf@[3 * j] == old(im).buf@[3 * j] && final(im).buf@[3 * j + 1]
                == old(im).buf@[3 * j + 1] && final(im).buf@[3 * j + 2] == old(im).buf@[3 * j + 2],
        // the frontier coverage is restored
        forall|p: int|
            0 <= p < old(im).len() && !bit(final(inside)@, p) && #[trigger] unknown_neighbor(
                final(inside)@,
                old(im).width as int,
                old(im).height as int,
                p,
            ) ==> final(queue).has_index(p as u32),
        // the remaining work does not grow
        final(queue)@.len() + 2 * count_unknown(final(inside)@, old(im).len() as nat)
            <= old(queue)@.len() + 2 * count_unknown(old(inside)@, old(im).len() as nat),
{
    let w = im.width;
    let h = im.height;
    let ghost len = im.len();
    proof {
        assert(w >= 1) by (nonlinear_arith)
            requires
                len == w as int * h as int,
                0 <= i < len,
        ;
    }
    let xi = i % w;
    let yi = i / w;
    proof {
        vstd::arithmetic::div_mod::lemma_fundamental_div_mod(i as int, w as int);
        assert(yi < h) by (nonlinear_arith)
            requires
                i as int == w as int * yi as int + xi as int,
                0 <= xi < w,
                i < len,
                len == w as int * h as int,
                w >= 1,
        ;
        assert((yi as int - 1) * w as int == yi as int * w as int - w as int) by (nonlinear_arith);
        assert((yi as int + 1) * w as int == yi as int * w as int + w as int) by (nonlinear_arith);
    }
    let ghost s_inside = inside@;
    let ghost s_queue = *queue;
    expand_x(im, inside, times, queue, xi, yi);
    expand_y(im, inside, times, queue, xi, yi);
    proof {
        // coverage is restored after the expansion
        assert forall|p: int|
            0 <= p < len && !bit(inside@, p) && #[trigger] unknown_neighbor(
                inside@,
                w as int,
                h as int,
                p,
            ) implies queue.has_index(p as u32) by {
            lemma_coords(w as int, h as int, p);
            if bit(s_inside, p) {
                // p was discovered just now, so it was queued
                assert(queue.has_index(p as u32));
            } else if p == i as int {
                // every in-range neighbor of the popped pixel is known now
                assert(!unknown_neighbor(inside@, w as int, h as int, p));
            } else {
                // p still had an unknown neighbor before this expansion
                assert(unknown_neighbor(s_inside, w as int, h as int, p));
                assert(s_queue.has_index(p as u32));
            }
        }
    }
}

/// While the work bound holds and some pixel is still unknown, the queue
/// has room below its cap.
proof fn lemma_room(inside: Seq<u32>, qlen: int, len: int, n: int)
    requires
        qlen + 2 * count_unknown(inside, len as nat) + 1 <= 3 * LEN_MAX,
    ensures
        0 <= n < len && bit(inside, n) ==> qlen < 3 * LEN_MAX,
{
    if 0 <= n < len && bit(inside, n) {
        lemma_count_pos(inside, n, len as nat);
    }
}

/// Default number of frontier pixel expansions per tick.
pub const BATCH: usize = 500;

/// One tick of propagation with an explicit batch size: pop the
/// earliest frontier pixel, discover its unknown axis-neighbors, and
/// repeat until the batch is spent or the queue is empty. The queue
/// state survives across ticks, progress never decreases, and a pixel
/// once known never becomes unknown again.
#[verifier::rlimit(100)]
pub fn paint_batch(
    im: Image,
    inside: Bitmask,
    times: Vec<u64>,
    queue: Front,
    count: usize,
    max_queue: u32,
    progress: u32,
    batch: usize,
) -> (r: Painter)
    requires
        batch >= 1,
        (Painter { im, inside, times, queue, count, max_queue, progress }).wf(),
    ensures
        r.wf(),
        r.im.width == im.width,
        r.im.height == im.height,
        // a pixel once known never becomes unknown again
        forall|j: int| 0 <= j < r.len() && !bit(inside@, j) ==> !bit(r.inside@, j),
        // a pixel known at entry keeps its arrival time: times are
        // finalized once, at the moment of discovery
        forall|j: int|
            #![trigger r.times@[j]]
            0 <= j < r.len() && !bit(inside@, j) ==> r.times@[j] == times@[j],
        // pixels known at entry, and pixels still unknown at exit, keep
        // their color
        forall|j: int|
            #![trigger bit(inside@, j)]
            #![trigger bit(r.inside@, j)]
            0 <= j < r.len() && (!bit(inside@, j) || bit(r.inside@, j)) ==> r.im.buf@[3 * j]
                == im.buf@[3 * j] && r.im.buf@[3 * j + 1] == im.buf@[3 * j + 1] && r.im.buf@[3 * j
                + 2] == im.buf@[3 * j + 2],
        r.progress >= progress,
        r.progress == 100 <==> r.queue@.len() == 0,
        // an empty queue means the tick is a no-op that reports completion
        queue@.len() == 0 ==> r.im.buf@ == im.buf@ && r.inside@ == inside@ && r.times@ == times@
            && r.queue@ == queue@ && r.count == count && r.progress == 100,
        // every productive tick strictly lowers the remaining work
        queue@.len() > 0 ==> r.potential() < (Painter {
            im,
            inside,
            times,
            queue,
            count,
            max_queue,
            progress,
        }).potential(),
        count <= r.count <= count + batch,
        r.max_queue == if count == 0 && max_queue == 0 {
            queue@.len() as u32
        } else {
            max_queue
        },
{
    let ghost pre = Painter { im, inside, times, queue, count, max_queue, progress };
    let mut im = im;
    let mut inside = inside;
    let mut times = times;
    let mut queue = queue;
    let mut count = count;
    let mut max_queue = max_queue;
    let w = im.width;
    let h = im.height;
    let ghost len = im.len();
    if count == 0 && max_queue == 0 {
        max_queue = queue.len() as u32;
    }
    let progress_start = progress;
    let mut processed: usize = 0;
    while processed < batch && queue.len() > 0
        invariant
            im.width == pre.im.width,
            im.height == pre.im.height,
            im.wf(),
            len == im.len(),
            times@.len() == len,
            inside@.len() == word_count(len as nat),
            forall|j: int| 0 <= j < len ==> times@[j] <= T_CAP,
            forall|j: int| 0 <= j < len && bit(inside@, j) ==> times@[j] == T_INF,
            queue.wf(),
            forall|k: int|
                0 <= k < queue@.len() ==> (#[trigger] queue@[k]).i < len && !bit(
                    inside@,
                    queue@[k].i as int,
                ),
            forall|k1: int, k2: int|
                0 <= k1 < k2 < queue@.len() ==> queue@[k1].i != queue@[k2].i,
            forall|p: int|
                0 <= p < len && !bit(inside@, p) && #[trigger] unknown_neighbor(
                    inside@,
                    w as int,
                    h as int,
                    p,
                ) ==> queue.has_index(p as u32),
            count + queue@.len() + 2 * count_unknown(inside@, len as nat) <= 3 * LEN_MAX,
            forall|j: int| 0 <= j < len && !bit(pre.inside@, j) ==> !bit(inside@, j),
            forall|j: int|
                #![trigger times@[j]]
                0 <= j < len && !bit(pre.inside@, j) ==> times@[j] == pre.times@[j],
            forall|j: int|
                #![trigger bit(pre.inside@, j)]
                #![trigger bit(inside@, j)]
                0 <= j < len && (!bit(pre.inside@, j) || bit(inside@, j)) ==> im.buf@[3 * j]
                    == pre.im.buf@[3 * j] && im.buf@[3 * j + 1] == pre.im.buf@[3 * j + 1]
                    && im.buf@[3 * j + 2] == pre.im.buf@[3 * j + 2],
            count == pre.count + processed,
            processed <= batch,
            processed == 0 ==> queue@ == pre.queue@ && inside@ == pre.inside@ && times@
                == pre.times@ && im.buf@ == pre.im.buf@,
            pre.queue@.len() == 0 ==> processed == 0,
            queue@.len() + 2 * count_unknown(inside@, len as nat) as int + processed
                <= pre.queue@.len() + 2 * count_unknown(pre.inside@, len as nat) as int,
        decreases queue@.len() + 2 * count_unknown(inside@, len as nat) as int,
    {
        let ghost q_before = queue@;
        let ghost inside_before = inside@;
        let ghost buf_before = im.buf@;
        let popped = queue.pop();
        let node = match popped {
            Some(node) => node,
            None => {
                proof {
                    assert(false);
                }
                Node { priority: 0, i: 0 }
            },
        };
        let i = node.i;
        proof {
            // after the pop, every boundary pixel but the popped one is
            // still queued
            assert forall|p: int|
                0 <= p < len && p != i && !bit(inside@, p) && #[trigger] unknown_neighbor(
                    inside@,
                    w as int,
                    h as int,
                    p,
                ) implies queue.has_index(p as u32) by {
                assert(exists|k: int| 0 <= k < q_before.len() && q_before[k].i == p as u32);
                let k = choose|k: int| 0 <= k < q_before.len() && q_before[k].i == p as u32;
                assert(q_before[q_before.len() - 1].i == i);
                assert(k < q_before.len() - 1);
                assert(queue@[k] == q_before[k]);
            }
        }
        expand(&mut im, &mut inside, &mut times, &mut queue, i);
        count = count + 1;
        processed = processed + 1;
        proof {
            // chain the color preservation through this iteration
            assert forall|j: int|
                #![trigger bit(pre.inside@, j)]
                #![trigger bit(inside@, j)]
                0 <= j < len && (!bit(pre.inside@, j) || bit(inside@, j)) implies im.buf@[3 * j]
                == pre.im.buf@[3 * j] && im.buf@[3 * j + 1] == pre.im.buf@[3 * j + 1] && im.buf@[3
                * j + 2] == pre.im.buf@[3 * j + 2] by {
                if !bit(pre.inside@, j) {
                    assert(!bit(inside_before, j));
                } else {
                    assert(bit(inside_before, j));
                }
            }
        }
    }
    let progress_new: u32 = if queue.len() == 0 {
        100
    } else {
        progress_estimate(max_queue, queue.len(), progress_start)
    };
    Painter { im, inside, times, queue, count, max_queue, progress: progress_new }
}

/// One tick with the default batch size.
pub fn paint(
    im: Image,
    inside: Bitmask,
    times: Vec<u64>,
    queue: Front,
    count: usize,
    max_queue: u32,
    progress: u32,
) -> (r: Painter)
    requires
        (Painter { im, inside, times, queue, count, max_queue, progress }).wf(),
    ensures
        r.wf(),
        r.im.width == im.width,
        r.im.height == im.height,
        forall|j: int| 0 <= j < r.len() && !bit(inside@, j) ==> !bit(r.inside@, j),
        forall|j: int|
            #![trigger r.times@[j]]
            0 <= j < r.len() && !bit(inside@, j) ==> r.times@[j] == times@[j],
        forall|j: int|
            #![trigger bit(inside@, j)]
            #![trigger bit(r.inside@, j)]
            0 <= j < r.len() && (!bit(inside@, j) || bit(r.inside@, j)) ==> r.im.buf@[3 * j]
                == im.buf@[3 * j] && r.im.buf@[3 * j + 1] == im.buf@[3 * j + 1] && r.im.buf@[3 * j
                + 2] == im.buf@[3 * j + 2],
        r.progress >= progress,
        r.progress == 100 <==> r.queue@.len() == 0,
        queue@.len() == 0 ==> r.im.buf@ == im.buf@ && r.inside@ == inside@ && r.times@ == times@
            && r.queue@ == queue@ && r.count == count && r.progress == 100,
        queue@.len() > 0 ==> r.potential() < (Painter {
            im,
            inside,
            times,
            queue,
            count,
            max_queue,
            progress,
        }).potential(),
        count <= r.count <= count + BATCH,
        r.max_queue == if count == 0 && max_queue == 0 {
            queue@.len() as u32
        } else {
            max_queue
        },
{
    paint_batch(im, inside, times, queue, count, max_queue, progress, BATCH)
}

impl Painter {
    /// Set up a painter from a 3-channel color buffer and a 4-channel
    /// mask of the same resolution: a mask pixel with alpha 255 marks
    /// the color pixel as unknown. Every known pixel with an unknown
    /// axis-neighbor is seeded onto the frontier with arrival time zero.
    #[verifier::rlimit(100)]
    pub fn new(buf: Vec<u8>, mask: &Vec<u8>, width: u32, height: u32) -> (r: Painter)
        requires
            width as int * height as int <= LEN_MAX,
            buf@.len() == 3 * (width as int * height as int),
            mask@.len() == 4 * (width as int * height as int),
        ensures
            r.wf(),
            r.im.width == width,
            r.im.height == height,
            r.im.buf@ == buf@,
            forall|j: int|
                0 <= j < r.len() ==> (bit(r.inside@, j) <==> mask@[4 * j + 3] == 255),
            forall|j: int|
                0 <= j < r.len() ==> (#[trigger] r.times@[j]) == if mask@[4 * j + 3] == 255 {
                    T_INF
                } else {
                    0
                },
            forall|j: int|
                0 <= j < r.len() ==> (r.queue.has_index(j as u32) <==> (!bit(r.inside@, j)
                    && #[trigger] unknown_neighbor(r.inside@, width as int, height as int, j))),
            forall|k: int| 0 <= k < r.queue@.len() ==> (#[trigger] r.queue@[k]).priority == 0,
            r.count == 0,
            r.max_queue == 0,
            r.progress == 0,
    {
        let len = (width as usize) * (height as usize);
        let im = Image { buf, width, height };
        let mut inside = bitmask::new(len);
        let mut times: Vec<u64> = Vec::new();
        while times.len() < len
            invariant
                times@.len() <= len,
                forall|j: int| 0 <= j < times@.len() ==> times@[j] == 0u64,
            decreases len - times@.len(),
        {
            times.push(0);
        }
        let mut k: usize = 0;
        while k < len
            invariant
                k <= len,
                times@.len() == len,
                inside@.len() == word_count(len as nat),
                forall|j: int| 0 <= j < k ==> (bit(inside@, j) <==> mask@[4 * j + 3] == 255),
                forall|j: int| k <= j < len ==> !bit(inside@, j),
                forall|j: int|
                    0 <= j < len ==> (#[trigger] times@[j]) == if bit(inside@, j) {
                        T_INF
                    } else {
                        0
                    },
            decreases len - k,
        {
            if mask[4 * k + 3] == 255 {
                proof {
                    lemma_word_count_covers(len as nat, k as int);
                }
                let ghost inside0 = inside@;
                bitmask::set(&mut inside, k);
                times[k] = T_INF;
                proof {
                    assert forall|j: int| 0 <= j < len && j != k implies bit(inside@, j) == bit(
                        inside0,
                        j,
                    ) by {
                        lemma_word_count_covers(len as nat, j);
                    }
                }
            }
            k = k + 1;
        }
        let mut queue = Front::new();
        let mut p: usize = 0;
        while p < len
            invariant
                p <= len,
                queue.wf(),
                forall|j: int|
                    0 <= j < p ==> (queue.has_index(j as u32) <==> (!bit(inside@, j)
                        && #[trigger] unknown_neighbor(inside@, width as int, height as int, j))),
                forall|j: u32| p <= j < len ==> !queue.has_index(j),
                forall|k2: int| 0 <= k2 < queue@.len() ==> (#[trigger] queue@[k2]).priority == 0,
                forall|k2: int|
                    0 <= k2 < queue@.len() ==> (#[trigger] queue@[k2]).i < len && !bit(
                        inside@,
                        queue@[k2].i as int,
                    ),
                forall|k1: int, k2: int|
                    0 <= k1 < k2 < queue@.len() ==> queue@[k1].i != queue@[k2].i,
                queue@.len() <= p,
            decreases len - p,
        {
            proof {
                assert(width >= 1 && height >= 1) by (nonlinear_arith)
                    requires
                        0 <= p < width as int * height as int,
                ;
                lemma_coords(width as int, height as int, p as int);
                assert(p >= p as int % width as int) by (nonlinear_arith)
                    requires
                        p == width as int * (p as int / width as int) + p as int % width as int,
                        p as int / width as int >= 0,
                        width >= 1,
                ;
                assert(p as int / width as int > 0 ==> p >= width) by (nonlinear_arith)
                    requires
                        p == width as int * (p as int / width as int) + p as int % width as int,
                        p as int % width as int >= 0,
                        width >= 1,
                ;
                assert forall|q: int| 0 <= q < len implies #[trigger] (q / 32)
                    < inside@.len() by {
                    lemma_word_count_covers(len as nat, q);
                }
            }
            let x = p % (width as usize);
            let y = p / (width as usize);
            if !bitmask::get(&inside, p) && ((x > 0 && bitmask::get(&inside, p - 1)) || (x + 1
                < width as usize && bitmask::get(&inside, p + 1)) || (y > 0 && bitmask::get(
                &inside,
                p - width as usize,
            )) || (y + 1 < height as usize && bitmask::get(&inside, p + width as usize))) {
                let ghost q0 = queue@;
                let ghost qf = queue;
                queue.push(0, p as u32);
                proof {
                    assert forall|k2: int|
                        0 <= k2 < q0.len() implies (#[trigger] q0[k2]).i != p as u32 by {
                        if q0[k2].i == p as u32 {
                            assert(qf.has_index(p as u32));
                        }
                    }
                    lemma_queue_insert_fresh(
                        q0,
                        queue@,
                        (Node { priority: 0, i: p as u32 }),
                        len as int,
                        inside@,
                    );
                }
            }
            proof {
                // the pixel just scanned is queued exactly when it is a
                // boundary pixel
                assert(queue.has_index(p as u32) <==> (!bit(inside@, p as int) && #[trigger]
                unknown_neighbor(inside@, width as int, height as int, p as int)));
            }
            p = p + 1;
        }
        proof {
            assert(height as int * width as int == width as int * height as int)
                by (nonlinear_arith);
            lemma_count_le(inside@, len as nat);
        }
        Painter { im, inside, times, queue, count: 0, max_queue: 0, progress: 0 }
    }

    /// Run one tick on this painter, consuming and returning it.
    pub fn paint(self) -> (r: Painter)
        requires
            self.wf(),
        ensures
            r.wf(),
            r.im.width == self.im.width,
            r.im.height == self.im.height,
            forall|j: int| 0 <= j < r.len() && !bit(self.inside@, j) ==> !bit(r.inside@, j),
            forall|j: int|
                #![trigger r.times@[j]]
                0 <= j < r.len() && !bit(self.inside@, j) ==> r.times@[j] == self.times@[j],
            r.progress >= self.progress,
            r.progress == 100 <==> r.queue@.len() == 0,
            self.queue@.len() == 0 ==> r.im.buf@ == self.im.buf@ && r.inside@ == self.inside@
                && r.progress == 100,
            self.queue@.len() > 0 ==> r.potential() < self.potential(),
    {
        paint(self.im, self.inside, self.times, self.queue, self.count, self.max_queue, self.progress)
    }
}

} // verus!
