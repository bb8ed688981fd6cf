use scope_core::math::{fft_size, math_len, spectrum_len, MathOp};
use scope_core::measure::{compute_rise_fall, rising_zero_crossings, running_extreme};
use scope_core::sample::SampleKey;

fn key(x: f32) -> SampleKey {
    SampleKey::from_bits(x.to_bits())
}

fn keys(xs: &[f32]) -> Vec<SampleKey> {
    xs.iter().map(|&x| key(x)).collect()
}

#[test]
fn rise_and_fall_spans() {
    // 10% level 1.0, 90% level 9.0.
    let s = keys(&[0.0, 0.0, 5.0, 9.5, 10.0, 10.0, 5.0, 0.5, 0.0]);
    let (rise, fall) = compute_rise_fall(&s, key(1.0), key(9.0));
    // Rise starts at index 1 (0.0 <= 1.0 < 5.0) and reaches 9.0 at index 3.
    assert_eq!(rise, Some(2));
    // Fall starts at index 5 (10.0 >= 9.0 > 5.0) and reaches 1.0 at index 7.
    assert_eq!(fall, Some(2));
}

#[test]
fn aborted_rise_is_skipped() {
    // The first rise falls back below 1.0 before reaching 9.0.
    let s = keys(&[0.0, 5.0, 0.0, 2.0, 3.0, 9.0]);
    let (rise, fall) = compute_rise_fall(&s, key(1.0), key(9.0));
    assert_eq!(rise, Some(3)); // from index 2 to index 5
    assert_eq!(fall, None);
}

#[test]
fn short_windows_give_no_estimate() {
    let s = keys(&[0.0, 10.0, 0.0]);
    assert_eq!(compute_rise_fall(&s, key(1.0), key(9.0)), (None, None));
}

#[test]
fn zero_crossings_of_deviations() {
    let d = keys(&[-1.0, 0.5, 1.0, -0.5, 0.0, -2.0, f32::NAN, 1.0, -1.0, 3.0]);
    assert_eq!(rising_zero_crossings(&d), vec![1, 4, 9]);
    assert_eq!(rising_zero_crossings(&[]), Vec::<usize>::new());
}

#[test]
fn fft_sizes() {
    assert_eq!(fft_size(0), 1);
    assert_eq!(fft_size(1), 1);
    assert_eq!(fft_size(5), 8);
    assert_eq!(fft_size(1024), 1024);
    assert_eq!(fft_size(1025), 2048);
    for n in 0..3000usize {
        assert_eq!(fft_size(n), n.next_power_of_two());
    }
    assert_eq!(spectrum_len(0), 0);
    assert_eq!(spectrum_len(1024), 513);
    assert_eq!(spectrum_len(1000), 513);
    assert_eq!(spectrum_len(3), 3);
}

#[test]
fn math_channel_length() {
    assert_eq!(math_len(3, 5), 3);
    assert_eq!(math_len(7, 2), 2);
    assert_ne!(MathOp::Add, MathOp::Fft);
}

#[test]
fn sample_keys_order_like_numbers() {
    let xs = [f32::NEG_INFINITY, -1e30, -2.5, -1e-40, -0.0, 0.0, 1e-40, 0.5, 3.0, 1e30, f32::INFINITY];
    for &a in &xs {
        for &b in &xs {
            assert_eq!(key(a).less_than(&key(b)), a < b, "{a} < {b}");
            assert_eq!(key(a).less_or_equal(&key(b)), a <= b, "{a} <= {b}");
        }
        assert!(!key(a).less_than(&key(f32::NAN)));
        assert!(!key(f32::NAN).less_or_equal(&key(a)));
    }
}

#[test]
fn running_extremes_pick_first_extreme() {
    let s = keys(&[3.0, -1.0, 7.0, -1.0, f32::NAN, 7.0]);
    assert_eq!(running_extreme(&s, key(f32::MAX), true), Some(1));
    assert_eq!(running_extreme(&s, key(f32::MIN), false), Some(2));
    // Nothing beats the bound: the running extreme keeps it.
    assert_eq!(running_extreme(&s, key(-5.0), true), None);
    assert_eq!(running_extreme(&keys(&[f32::NAN]), key(f32::MAX), true), None);
    // +inf is not below f32::MAX, as in `s < f32::MAX`.
    assert_eq!(running_extreme(&keys(&[f32::INFINITY]), key(f32::MAX), true), None);
}
