use fmm_inpaint::bitmask;
use fmm_inpaint::fixed::{T_CAP, T_INF};
use fmm_inpaint::front::Front;
use fmm_inpaint::painter::{paint_batch, progress_estimate, Painter};
use fmm_inpaint::solver::solve;

fn uniform_buf(w: usize, h: usize, rgb: [u8; 3]) -> Vec<u8> {
    let mut buf = Vec::new();
    for _ in 0..w * h {
        buf.extend_from_slice(&rgb);
    }
    buf
}

fn mask_with_unknown(w: usize, h: usize, unknown: &[usize]) -> Vec<u8> {
    let mut mask = vec![0u8; 4 * w * h];
    for &p in unknown {
        mask[4 * p + 3] = 255;
    }
    mask
}

fn run_to_done(mut p: Painter, max_ticks: usize) -> Painter {
    let mut ticks = 0;
    while p.progress != 100 {
        p = p.paint();
        ticks += 1;
        assert!(ticks <= max_ticks, "painter did not finish in time");
    }
    p
}

#[test]
fn bitmask_set_get_unset() {
    let mut v = bitmask::new(100);
    assert_eq!(v.len(), 4);
    for i in 0..100 {
        assert!(!bitmask::get(&v, i));
    }
    bitmask::set(&mut v, 37);
    assert!(bitmask::get(&v, 37));
    assert!(!bitmask::get(&v, 36));
    assert!(!bitmask::get(&v, 38));
    bitmask::unset(&mut v, 37);
    assert!(!bitmask::get(&v, 37));
}

#[test]
fn solver_exact_values() {
    // both neighbors known at time zero: the quadratic solve gives
    // sqrt(2)/2 in Q16.16, rounded down
    assert_eq!(solve(true, 0, true, 0), 46340);
    // only one neighbor known: one unit past it
    assert_eq!(solve(true, 65536, false, 0), 131072);
    assert_eq!(solve(false, 0, true, 131072), 196608);
    // both known, far apart: one unit past the earlier
    assert_eq!(solve(true, 0, true, 10 * 65536), 65536);
    // neither known: the sentinel fallback, capped
    assert_eq!(solve(false, T_INF, false, T_INF), T_CAP);
}

#[test]
fn frontier_pops_in_time_then_index_order() {
    let mut q = Front::new();
    q.push(5, 2);
    q.push(3, 7);
    q.push(3, 1);
    q.push(9, 0);
    let a = q.pop().unwrap();
    assert_eq!((a.priority, a.i), (3, 1));
    let b = q.pop().unwrap();
    assert_eq!((b.priority, b.i), (3, 7));
    let c = q.pop().unwrap();
    assert_eq!((c.priority, c.i), (5, 2));
    let d = q.pop().unwrap();
    assert_eq!((d.priority, d.i), (9, 0));
    assert!(q.pop().is_none());
}

#[test]
fn no_op_on_empty_mask() {
    // a mask with zero unknown pixels: done on the first tick, progress
    // 100, buffer unchanged
    let buf = uniform_buf(4, 3, [10, 20, 30]);
    let mask = mask_with_unknown(4, 3, &[]);
    let p = Painter::new(buf.clone(), &mask, 4, 3);
    assert_eq!(p.progress, 0);
    assert_eq!(p.queue.len(), 0);
    let p = p.paint();
    assert_eq!(p.progress, 100);
    assert_eq!(p.im.buf, buf);
}

#[test]
fn full_known_seed_center_pixel() {
    // a 5x5 uniform buffer with a single unknown center pixel: the
    // inpainted center is the weighted blend of uniform neighbors, so it
    // equals that color exactly
    let rgb = [100, 150, 200];
    let buf = uniform_buf(5, 5, rgb);
    let mask = mask_with_unknown(5, 5, &[12]);
    let p = Painter::new(buf, &mask, 5, 5);
    assert!(p.queue.len() > 0);
    let p = run_to_done(p, 10);
    for i in 0..25 {
        assert_eq!(p.im.buf[3 * i], rgb[0]);
        assert_eq!(p.im.buf[3 * i + 1], rgb[1]);
        assert_eq!(p.im.buf[3 * i + 2], rgb[2]);
    }
    // the discovered pixel is known afterwards
    assert!(!bitmask::get(&p.inside, 12));
    // its arrival time is the two-neighbor quadratic solve at time zero
    assert_eq!(p.times[12], 46340);
}

#[test]
fn progress_is_monotone_and_ends_at_100() {
    // an 8x8 buffer with a 4x4 unknown block, advanced one expansion per
    // tick so progress is sampled many times
    let buf = uniform_buf(8, 8, [50, 60, 70]);
    let mut unknown = Vec::new();
    for y in 2..6 {
        for x in 2..6 {
            unknown.push(y * 8 + x);
        }
    }
    let mask = mask_with_unknown(8, 8, &unknown);
    let mut p = Painter::new(buf, &mask, 8, 8);
    let mut last = p.progress;
    let mut ticks = 0;
    while p.progress != 100 {
        p = paint_batch(
            p.im, p.inside, p.times, p.queue, p.count, p.max_queue, p.progress, 1,
        );
        assert!(p.progress >= last, "progress went backwards");
        last = p.progress;
        ticks += 1;
        assert!(ticks < 1000);
    }
    assert_eq!(p.progress, 100);
    // frontier exhaustion: nothing is left unknown
    for i in 0..64 {
        assert!(!bitmask::get(&p.inside, i), "pixel {} still unknown", i);
    }
}

#[test]
fn known_pixels_never_rewritten() {
    // pixels outside the mask keep their exact bytes through a run
    let mut buf = Vec::new();
    for i in 0..64usize {
        buf.extend_from_slice(&[(i * 3) as u8, (i * 5) as u8, (i * 7) as u8]);
    }
    let unknown = [27usize, 28, 35, 36];
    let mask = mask_with_unknown(8, 8, &unknown);
    let p = Painter::new(buf.clone(), &mask, 8, 8);
    let p = run_to_done(p, 10);
    for i in 0..64 {
        if !unknown.contains(&i) {
            assert_eq!(&p.im.buf[3 * i..3 * i + 3], &buf[3 * i..3 * i + 3]);
        }
    }
}

#[test]
fn all_unknown_mask_finishes_without_painting() {
    // a mask covering the whole buffer has no boundary to seed, so the
    // painter reports done at once and leaves the buffer unchanged
    let buf = uniform_buf(3, 3, [1, 2, 3]);
    let unknown: Vec<usize> = (0..9).collect();
    let mask = mask_with_unknown(3, 3, &unknown);
    let p = Painter::new(buf.clone(), &mask, 3, 3);
    assert_eq!(p.queue.len(), 0);
    let p = p.paint();
    assert_eq!(p.progress, 100);
    assert_eq!(p.im.buf, buf);
    assert!(bitmask::get(&p.inside, 4));
}

#[test]
fn progress_estimate_values() {
    // early in the run the estimate ramps toward 97
    assert_eq!(progress_estimate(100, 99, 0), 32);
    assert_eq!(progress_estimate(100, 98, 0), 64);
    // past three percent of the original frontier it holds at 97
    assert_eq!(progress_estimate(100, 50, 0), 97);
    // and it never falls below the previous report
    assert_eq!(progress_estimate(100, 99, 50), 50);
    // a queue that grew beyond its original size reports no progress
    assert_eq!(progress_estimate(10, 20, 7), 7);
}

#[test]
fn painter_runs_twice_identically() {
    // determinism: two runs on identical input give byte-identical buffers
    let mut buf = Vec::new();
    for i in 0..100usize {
        buf.extend_from_slice(&[(i * 11) as u8, (i * 13) as u8, (i * 17) as u8]);
    }
    let mut unknown = Vec::new();
    for y in 3..7 {
        for x in 2..8 {
            unknown.push(y * 10 + x);
        }
    }
    let mask = mask_with_unknown(10, 10, &unknown);
    let p1 = run_to_done(Painter::new(buf.clone(), &mask, 10, 10), 20);
    let p2 = run_to_done(Painter::new(buf.clone(), &mask, 10, 10), 20);
    assert_eq!(p1.im.buf, p2.im.buf);
    assert_eq!(p1.times, p2.times);
    assert_eq!(p1.count, p2.count);
}
