use wavscan::engine::{check_period, extract_contours};

fn tri100(k: usize) -> i16 {
    let k = (k % 100) as i64;
    let v = if k <= 25 {
        k * 8000 / 25
    } else if k <= 75 {
        8000 - (k - 25) * 16000 / 50
    } else {
        -8000 + (k - 75) * 8000 / 25
    };
    v as i16
}

fn sample_bytes(samples: &[i16], stride: usize) -> Vec<u8> {
    // Channel-1 samples at the head of each `stride`-byte frame; any
    // further channel bytes are zero.
    let mut out = Vec::new();
    for &s in samples {
        let u = s as u16;
        out.push(u as u8);
        out.push((u >> 8) as u8);
        for _ in 2..stride {
            out.push(0);
        }
    }
    out
}

#[test]
fn identical_halves_validate() {
    let mut w = Vec::new();
    for k in 0..100 {
        w.push(tri100(k));
    }
    for k in 0..100 {
        w.push(tri100(k));
    }
    assert!(check_period(&w, 100, 1024));
}

#[test]
fn loud_dissimilar_halves_fail() {
    let w = vec![100i16, 100, 100, 100, 2000, 2000, 2000, 2000];
    // differences of 1900 with a threshold of max(2000/5, 1024) = 1024
    assert!(!check_period(&w, 4, 1024));
}

/// Halves that differ by no more than the significant amplitude at every
/// position are accepted even though their relative difference is far
/// above one fifth.
#[test]
fn quiet_halves_pass_under_the_floor() {
    let w = vec![100i16, 100, 100, 100, 600, 600, 600, 600];
    // differences of 500: 500/600 is well above 1/5, but 500 <= 1024
    assert!(check_period(&w, 4, 1024));
}

/// An exactly periodic stream, loud enough to be significant, commits one
/// contour per period once the hypothesis is validated, and abandons
/// nothing.
#[test]
fn exact_period_commits_contours() {
    let samples: Vec<i16> = (0..600).map(tri100).collect();
    let data = sample_bytes(&samples, 2);
    let (contours, failed) = extract_contours(&data, 0, 2, 1024);
    assert_eq!(failed.len(), 0);
    let lens: Vec<usize> = contours.iter().map(|c| c.samples.len()).collect();
    assert_eq!(lens, vec![101, 100, 100]);
    let frames: Vec<usize> = contours.iter().map(|c| c.start_frame).collect();
    assert_eq!(frames, vec![300, 400, 500]);
}

/// A stream that crosses zero erratically with no stable repeat is
/// abandoned within the retry budget, and clean periodic data after the
/// noisy span is still committed.
#[test]
fn erratic_stream_is_abandoned_then_scanning_resumes() {
    let blocks: [(i16, usize); 16] = [
        (5000, 7),
        (-5000, 9),
        (8000, 3),
        (-2000, 15),
        (3000, 23),
        (-9000, 4),
        (6000, 11),
        (-4000, 6),
        (7000, 5),
        (-3000, 19),
        (9000, 8),
        (-6000, 13),
        (2000, 21),
        (-8000, 3),
        (4000, 17),
        (-7000, 10),
    ];
    let mut samples: Vec<i16> = Vec::new();
    for &(a, l) in blocks.iter() {
        for _ in 0..l {
            samples.push(a);
        }
    }
    for k in 0..800 {
        samples.push(tri100(k));
    }
    let data = sample_bytes(&samples, 2);
    let (contours, failed) = extract_contours(&data, 0, 2, 1024);
    assert_eq!(failed.len(), 2);
    let failed_lens: Vec<usize> = failed.iter().map(|f| f.len()).collect();
    assert_eq!(failed_lens, vec![88, 174]);
    let lens: Vec<usize> = contours.iter().map(|c| c.samples.len()).collect();
    assert_eq!(lens, vec![101, 100, 100, 100, 100]);
}

#[test]
fn stereo_stride_reads_first_channel() {
    let samples: Vec<i16> = (0..600).map(tri100).collect();
    let data = sample_bytes(&samples, 4);
    let (contours, failed) = extract_contours(&data, 0, 4, 1024);
    assert_eq!(failed.len(), 0);
    let lens: Vec<usize> = contours.iter().map(|c| c.samples.len()).collect();
    assert_eq!(lens, vec![101, 100, 100]);
}

#[test]
fn silence_produces_nothing() {
    let samples = vec![0i16; 400];
    let data = sample_bytes(&samples, 2);
    let (contours, failed) = extract_contours(&data, 0, 2, 1024);
    assert_eq!(contours.len(), 0);
    assert_eq!(failed.len(), 0);
}
