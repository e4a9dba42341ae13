use fmm_inpaint::painter::{Image, Painter};
use fmm_inpaint::smoother::{ConfigError, Smoother};

fn uniform_buf(w: usize, h: usize, rgb: [u8; 3]) -> Vec<u8> {
    let mut buf = Vec::new();
    for _ in 0..w * h {
        buf.extend_from_slice(&rgb);
    }
    buf
}

fn mask_with_unknown(w: usize, h: usize, unknown: &[usize]) -> Vec<u8> {
    let mut mask = vec![0u8; 4 * w * h];
    for &p in unknown {
        mask[4 * p + 3] = 255;
    }
    mask
}

fn image(w: u32, h: u32, buf: Vec<u8>) -> Image {
    Image { buf, width: w, height: h }
}

#[test]
fn smoother_rejects_large_radius() {
    // radius at or above half the width must fail with a configuration
    // error, not read out of bounds
    let buf = uniform_buf(4, 8, [9, 9, 9]);
    let mask = mask_with_unknown(4, 8, &[]);
    let s = Smoother::new(buf, 4, 8, 2);
    assert!(matches!(s.smooth(&mask), Err(ConfigError::RadiusTooLarge)));
    // the same for the height
    let buf = uniform_buf(8, 4, [9, 9, 9]);
    let mask = mask_with_unknown(8, 4, &[]);
    let s = Smoother::new(buf, 8, 4, 2);
    assert!(matches!(s.smooth(&mask), Err(ConfigError::RadiusTooLarge)));
}

#[test]
fn smoother_rejects_mask_mismatch() {
    let buf = uniform_buf(8, 8, [9, 9, 9]);
    let mask = vec![0u8; 5];
    let s = Smoother::new(buf, 8, 8, 2);
    assert!(matches!(s.smooth(&mask), Err(ConfigError::MaskMismatch)));
}

#[test]
fn smooth_on_all_known_mask_changes_nothing() {
    let buf = uniform_buf(8, 8, [12, 34, 56]);
    let mask = mask_with_unknown(8, 8, &[]);
    let s = Smoother::new(buf.clone(), 8, 8, 2);
    let s = s.smooth(&mask).unwrap();
    assert_eq!(s.im.buf, buf);
    assert_eq!(s.blurriness, 2);
}

#[test]
fn smooth_on_uniform_buffer_keeps_color() {
    // blending uniform samples gives the same uniform color back
    let buf = uniform_buf(9, 9, [77, 88, 99]);
    let mask = mask_with_unknown(9, 9, &[40]);
    let s = Smoother::new(buf.clone(), 9, 9, 3);
    let s = s.smooth(&mask).unwrap();
    assert_eq!(s.im.buf, buf);
}

#[test]
fn denoise_averages_the_four_neighbors() {
    // a 3x3 image with distinct neighbor colors around the center
    let mut buf = vec![0u8; 27];
    // left (0,1) -> pixel 3, right (2,1) -> pixel 5,
    // up (1,0) -> pixel 1, down (1,2) -> pixel 7
    buf[3 * 3] = 10;
    buf[3 * 5] = 20;
    buf[3 * 1] = 30;
    buf[3 * 7] = 60;
    buf[3 * 3 + 1] = 8;
    buf[3 * 5 + 1] = 8;
    buf[3 * 1 + 1] = 8;
    buf[3 * 7 + 1] = 9;
    let im = image(3, 3, buf);
    let v = Smoother::denoise(&im, 1, 1);
    // red: (10 + 20 + 30 + 60) / 4 = 30; green: 33 / 4 = 8; blue: 0
    assert_eq!(v, 30 * 0x1000000 + 8 * 0x10000);
}

#[test]
fn radial_blur_averages_the_disk() {
    // radius 2 at the center of a 5x5: the open disk holds exactly the
    // 3x3 block around the center
    let mut buf = vec![0u8; 75];
    for (k, val) in [(6, 9u8), (7, 18), (8, 27), (11, 36), (12, 45), (13, 54), (16, 63), (17, 72), (
        18,
        81,
    )] {
        buf[3 * k] = val;
    }
    let im = image(5, 5, buf);
    let v = Smoother::radial_blur(&im, 2, 2, 2);
    // red: (9 + 18 + ... + 81) / 9 = 45, green and blue zero
    assert_eq!(v, 45 * 0x1000000);
}

#[test]
fn ring_blur_on_uniform_buffer_keeps_color() {
    let buf = uniform_buf(7, 7, [120, 130, 140]);
    let mask = mask_with_unknown(7, 7, &[24]);
    let im = image(7, 7, buf);
    let v = Smoother::radial_blur_edge_peel(&im, &mask, 3, 3, 3);
    assert_eq!(v, 120 * 0x1000000 + 130 * 0x10000 + 140 * 0x100);
    let v2 = Smoother::radial_blur_edge_peel_var(&im, &mask, 3, 3, 3);
    assert_eq!(v2, v);
    let v3 = Smoother::radial_blur_edge(&im, &mask, 3, 3, 3);
    assert_eq!(v3, v);
}

#[test]
fn pipeline_runs_twice_identically() {
    // determinism over the whole pipeline: paint, then smooth, twice
    let run = || {
        let mut buf = Vec::new();
        for i in 0..144usize {
            buf.extend_from_slice(&[(i * 7) as u8, (255 - (i % 256) as u8), (i % 97) as u8]);
        }
        let mut unknown = Vec::new();
        for y in 4..8 {
            for x in 5..9 {
                unknown.push(y * 12 + x);
            }
        }
        let mask = mask_with_unknown(12, 12, &unknown);
        let mut p = Painter::new(buf, &mask, 12, 12);
        let mut ticks = 0;
        while p.progress != 100 {
            p = p.paint();
            ticks += 1;
            assert!(ticks < 100);
        }
        let s = Smoother::new(p.im.buf, 12, 12, 2);
        s.smooth(&mask).unwrap().im.buf
    };
    assert_eq!(run(), run());
}
