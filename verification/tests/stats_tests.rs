use wavscan::stats::contour_record;

/// Every descriptor of a small contour, computed by hand:
/// samples [0, 5, -3, 8, 8, -2], committed at frame 1323, 44100 Hz.
#[test]
fn small_contour_descriptors_are_exact() {
    let c = vec![0i16, 5, -3, 8, 8, -2];
    let r = contour_record(&c, 1323, 44100);
    assert_eq!(r.start_frame, 1323);
    assert_eq!(r.note, 28);
    assert_eq!(r.num_smp, 6);
    assert_eq!(r.num_ep, 1);
    // first differences: 5, -8, 11, 0, -10 -> total 34, 34 / 6 = 5
    assert_eq!(r.avg_mag_roc, 5);
    // second differences: 5, -13, 19, -11, -10 -> total 58, 58 / 6 = 9
    assert_eq!(r.avg_mag_acc, 9);
    assert_eq!(r.max_amp, 8);
    assert_eq!(r.min_amp, -3);
    assert_eq!(r.num_max, 2);
    assert_eq!(r.num_min, 1);
    assert_eq!(r.steps_above, 3);
    assert_eq!(r.steps_below, 2);
    assert_eq!(r.steps_inc, 3);
    assert_eq!(r.steps_dec, 2);
}

/// The extremes are seeded at zero, so a contour entirely above zero
/// reports zero for the unreached minimum.
#[test]
fn one_sided_contour_reports_zero_extreme() {
    let c = vec![4i16, 9, 7, 12];
    let r = contour_record(&c, 0, 44100);
    assert_eq!(r.max_amp, 12);
    assert_eq!(r.min_amp, 0);
}

/// A single-sample contour has no differences to scan: everything but the
/// sample count is zero (the trend never turns).
#[test]
fn single_sample_contour() {
    let c = vec![7i16];
    let r = contour_record(&c, 0, 8000);
    assert_eq!(r.num_smp, 1);
    assert_eq!(r.num_ep, 0);
    assert_eq!(r.avg_mag_roc, 0);
    assert_eq!(r.avg_mag_acc, 0);
    assert_eq!(r.max_amp, 0);
    assert_eq!(r.min_amp, 0);
    assert_eq!(r.steps_inc, 0);
    assert_eq!(r.steps_dec, 0);
}

/// Reducing the same contour twice yields identical records: the
/// reduction is deterministic, with no hidden state.
#[test]
fn reduction_is_idempotent() {
    let c = vec![0i16, 900, -800, 450, -20, 3, 3, -7, 12000, -12000, 5];
    let r1 = contour_record(&c, 4410, 44100);
    let r2 = contour_record(&c, 4410, 44100);
    assert_eq!(r1, r2);
}

/// The nominal pitch label walks the placeholder formula:
/// (seconds / 2) mod 24 + 28.
#[test]
fn note_label_follows_start_time() {
    let c = vec![1i16, 2];
    // 441000 frames at 44100 Hz = 10 s -> (10 / 2) % 24 + 28 = 33
    assert_eq!(contour_record(&c, 441000, 44100).note, 33);
    // 48 whole 2-second steps wrap: 96 s -> (48 % 24) + 28 = 28
    assert_eq!(contour_record(&c, 96 * 44100, 44100).note, 28);
}
