use pathtracer::ppm::{clamp, has_ppm_extension, encode_ppm};
use pathtracer::scalar::{key, ONE, ZERO};

/// A plain PPM file with this text behind the two bytes that mark it.
fn plain(rest: &str) -> Vec<u8> {
    let mut text = vec![80u8, 51];
    text.extend_from_slice(rest.as_bytes());
    text
}

fn kp(x: f64) -> i64 {
    key(x.to_bits())
}

#[test]
fn ppm_of_two_pixels() {
    let text = encode_ppm(2, 1, &vec![255, 0, 7, 10, 200, 99]);
    assert_eq!(text, plain("\n2 1\n255\n255 0 7 10 200 99 "));
    assert_eq!(text[0], b'P');
    assert_eq!(text[1], b'3');
}

#[test]
fn ppm_rows_follow_without_a_break() {
    let samples: Vec<u8> = (0..18).collect();
    let text = encode_ppm(3, 2, &samples);
    assert_eq!(text, plain("\n3 2\n255\n0 1 2 3 4 5 6 7 8 9 10 11 12 13 14 15 16 17 "));
}

#[test]
fn ppm_without_pixels_is_its_header() {
    assert_eq!(encode_ppm(0, 0, &vec![]), plain("\n0 0\n255\n"));
    assert_eq!(encode_ppm(1, 0, &vec![]), plain("\n1 0\n255\n"));
    assert_eq!(encode_ppm(0, 5, &vec![1, 2, 3]), plain("\n0 5\n255\n"));
}

#[test]
fn ppm_leaves_out_samples_beyond_the_image() {
    let text = encode_ppm(1, 1, &vec![1, 2, 3, 4, 5, 6]);
    assert_eq!(text, plain("\n1 1\n255\n1 2 3 "));
}

#[test]
fn extension_ppm_in_any_case() {
    assert!(has_ppm_extension("ppm"));
    assert!(has_ppm_extension("PPM"));
    assert!(has_ppm_extension("pPm"));
    assert!(has_ppm_extension("Ppm"));
    assert!(!has_ppm_extension("png"));
    assert!(!has_ppm_extension("pp"));
    assert!(!has_ppm_extension("ppmx"));
    assert!(!has_ppm_extension(""));
    assert!(!has_ppm_extension("pmp"));
    assert!(!has_ppm_extension("ppn"));
    assert!(!has_ppm_extension("p\u{70}\u{4d}\u{0}"));
    assert!(!has_ppm_extension("\u{ff50}pm"));
}

#[test]
fn clamp_to_the_unit_range() {
    assert_eq!(clamp(kp(-3.0)), ZERO);
    assert_eq!(clamp(kp(-1e-300)), ZERO);
    assert_eq!(clamp(kp(0.0)), kp(0.0));
    assert_eq!(clamp(kp(-0.0)), kp(-0.0));
    assert_eq!(clamp(kp(0.5)), kp(0.5));
    assert_eq!(clamp(kp(1.0)), ONE);
    assert_eq!(clamp(kp(1.0000001)), ONE);
    assert_eq!(clamp(kp(12.0)), ONE);
    assert_eq!(clamp(kp(f64::INFINITY)), ONE);
    assert_eq!(clamp(kp(f64::NEG_INFINITY)), ZERO);
}
