use ryleigh_banff::canvas::Canvas;
use ryleigh_banff::oil::{oil_filter, oil_level, oil_radius, oil_stylize, OIL_LEVELS};

fn sample() -> Vec<u8> {
    vec![
        0, 0, 0, 7, 255, 255, 255, 7, 10, 20, 30, 7, //
        200, 100, 50, 7, 12, 22, 32, 0, 250, 250, 250, 1,
    ]
}

#[test]
fn oil_filter_window_of_radius_one() {
    let out = oil_filter(&sample(), 3, 2, 1);
    assert_eq!(
        out,
        vec![
            0, 0, 0, 255, 10, 20, 30, 255, 10, 20, 30, 255, //
            200, 100, 50, 255, 11, 21, 31, 255, 11, 21, 31, 255,
        ]
    );
}

#[test]
fn oil_filter_radius_zero_keeps_colours_and_makes_opaque() {
    let src = sample();
    let out = oil_filter(&src, 3, 2, 0);
    for p in 0..6 {
        assert_eq!(&out[p * 4..p * 4 + 3], &src[p * 4..p * 4 + 3]);
        assert_eq!(out[p * 4 + 3], 255);
    }
}

#[test]
fn oil_filter_negative_radius_paints_black() {
    let out = oil_filter(&sample(), 3, 2, -1);
    assert_eq!(out.len(), 24);
    for p in 0..6 {
        assert_eq!(&out[p * 4..p * 4 + 4], &[0, 0, 0, 255]);
    }
}

#[test]
fn oil_filter_sized_and_opaque_on_a_gradient() {
    let (w, h) = (17usize, 11usize);
    let mut src = Vec::new();
    for y in 0..h {
        for x in 0..w {
            src.extend_from_slice(&[(x * 15) as u8, (y * 23) as u8, ((x + y) * 7) as u8, 0]);
        }
    }
    let out = oil_filter(&src, w, h, 3);
    assert_eq!(out.len(), src.len());
    assert!(out.iter().skip(3).step_by(4).all(|&a| a == 255));
}

#[test]
fn oil_filter_flat_image_is_unchanged() {
    let mut src = Vec::new();
    for _ in 0..(5 * 4) {
        src.extend_from_slice(&[10, 200, 30, 9]);
    }
    let out = oil_filter(&src, 5, 4, 2);
    for p in 0..20 {
        assert_eq!(&out[p * 4..p * 4 + 4], &[10, 200, 30, 255]);
    }
}

#[test]
fn oil_filter_empty_image() {
    assert!(oil_filter(&[], 0, 5, 3).is_empty());
    assert!(oil_filter(&[], 4, 0, 3).is_empty());
}

#[test]
fn band_of_pixel_matches_single_precision_formula() {
    for s in 0..=765u32 {
        let r = s.min(255);
        let g = (s - r).min(255);
        let b = s - r - g;
        let mut lvl = ((r as f32 + g as f32 + b as f32) / 3.0 / 255.0 * (OIL_LEVELS as f32 - 1.0)) as usize;
        if lvl >= OIL_LEVELS {
            lvl = OIL_LEVELS - 1;
        }
        assert_eq!(oil_level(r as u8, g as u8, b as u8), lvl, "sum {}", s);
    }
    assert_eq!(oil_level(0, 0, 0), 0);
    assert_eq!(oil_level(255, 255, 255), 19);
    assert_eq!(oil_level(10, 20, 30), 1);
}

#[test]
fn band_means_match_single_precision_division() {
    for cnt in 1..=169u32 {
        for a in 0..=255 * cnt {
            assert_eq!((a as f32 / cnt as f32) as u8, (a / cnt) as u8);
        }
    }
    let cnt = 255u32 * 255;
    for k in 1..=255u32 {
        for a in [k * cnt - 1, k * cnt, k * cnt - cnt / 2] {
            assert_eq!((a as f32 / cnt as f32) as u8, (a / cnt) as u8);
        }
    }
}

#[test]
fn radius_scales_with_the_smaller_side() {
    assert_eq!(oil_radius(100, 100), 2);
    assert_eq!(oil_radius(64, 64), 2);
    assert_eq!(oil_radius(880, 5000), 4);
    assert_eq!(oil_radius(5000, 1100), 5);
    assert_eq!(oil_radius(2000, 3000), 6);
    assert_eq!(oil_radius(0, 0), 2);
}

#[test]
fn stylize_rejects_a_wrong_length_unchanged() {
    let bytes = vec![1u8, 2, 3];
    match oil_stylize(bytes.clone(), 2, 2) {
        Err(b) => assert_eq!(b, bytes),
        Ok(_) => panic!("length mismatch accepted"),
    }
}

#[test]
fn stylize_paints_with_the_size_radius() {
    let src = sample();
    match oil_stylize(src.clone(), 3, 2) {
        Ok(out) => assert_eq!(out, oil_filter(&src, 3, 2, 2)),
        Err(_) => panic!("matching length refused"),
    }
}

#[test]
fn canvas_read_after_write() {
    let mut c = Canvas::new(3, 2);
    assert_eq!(c.as_bytes(), &[0u8; 24][..]);
    c.set(1, 0, (1, 2, 3));
    assert_eq!(c.get(1, 0), (1, 2, 3));
    assert_eq!(&c.as_bytes()[4..8], &[1, 2, 3, 255]);
    assert_eq!(c.get(0, 0), (0, 0, 0));
    assert_eq!(c.as_bytes()[3], 0);
}

#[test]
fn canvas_ignores_writes_outside() {
    let mut c = Canvas::new(3, 2);
    c.set(3, 0, (9, 9, 9));
    c.set(0, 2, (9, 9, 9));
    assert_eq!(c.into_bytes(), vec![0u8; 24]);
}

#[test]
fn canvas_clamps_reads_to_the_edge() {
    let mut c = Canvas::new(3, 2);
    c.set(2, 1, (40, 50, 60));
    assert_eq!(c.get(7, 9), (40, 50, 60));
    assert_eq!(c.get(2, 100), (40, 50, 60));
    assert_eq!(c.width(), 3);
    assert_eq!(c.height(), 2);
}

#[test]
fn canvas_from_rgba_checks_length() {
    assert!(Canvas::from_rgba(vec![0; 23], 3, 2).is_none());
    assert!(Canvas::from_rgba(vec![0; 4], usize::MAX, 2).is_none());
    let c = Canvas::from_rgba(sample(), 3, 2).expect("length fits");
    assert_eq!(c.get(0, 1), (200, 100, 50));
    assert_eq!(c.into_bytes(), sample());
}

#[test]
fn oil_filter_preserves_size_and_opacity() {
    let mut rng = ryleigh_banff::rng::Rng::new(9);
    let mut src = Vec::new();
    for _ in 0..64 * 64 {
        let v = rng.next_u32().to_le_bytes();
        src.extend_from_slice(&v);
    }
    let out = oil_filter(&src, 64, 64, 3);
    assert_eq!(out.len(), src.len());
    assert!(out.iter().skip(3).step_by(4).all(|&a| a == 255));
}
