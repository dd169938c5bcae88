use wavscan::analyze::analyze;
use wavscan::error::WavError;

fn le32_bytes(v: u32) -> [u8; 4] {
    [v as u8, (v >> 8) as u8, (v >> 16) as u8, (v >> 24) as u8]
}

fn push_chunk(out: &mut Vec<u8>, id: &[u8; 4], payload: &[u8]) {
    out.extend_from_slice(id);
    out.extend_from_slice(&le32_bytes(payload.len() as u32));
    out.extend_from_slice(payload);
    if payload.len() % 2 == 1 {
        out.push(0);
    }
}

fn pcm_payload(tag: u16, channels: u16, rate: u32, block: u16, bits: u16) -> Vec<u8> {
    let byte_rate = rate * block as u32;
    let mut p = Vec::new();
    p.extend_from_slice(&[tag as u8, (tag >> 8) as u8, channels as u8, (channels >> 8) as u8]);
    p.extend_from_slice(&le32_bytes(rate));
    p.extend_from_slice(&le32_bytes(byte_rate));
    p.extend_from_slice(&[block as u8, (block >> 8) as u8, bits as u8, (bits >> 8) as u8]);
    p
}

fn wav_bytes(fmt: Vec<u8>, data: &[u8]) -> Vec<u8> {
    let mut out = Vec::new();
    out.extend_from_slice(b"RIFF");
    out.extend_from_slice(&le32_bytes((28 + fmt.len() + data.len()) as u32));
    out.extend_from_slice(b"WAVE");
    push_chunk(&mut out, b"fmt ", &fmt);
    push_chunk(&mut out, b"data", data);
    out
}

fn tri441(k: usize) -> i16 {
    let k = (k % 441) as i64;
    let v = if k <= 110 {
        k * 10000 / 110
    } else if k <= 331 {
        10000 - (k - 110) * 20000 / 221
    } else {
        -10000 + (k - 331) * 10000 / 110
    };
    v as i16
}

fn mono_samples_bytes(samples: &[i16]) -> Vec<u8> {
    let mut out = Vec::new();
    for &s in samples {
        let u = s as u16;
        out.push(u as u8);
        out.push((u >> 8) as u8);
    }
    out
}

/// One second of 44100 Hz mono 16-bit audio made of 100 exact repetitions
/// of a 441-sample period, amplitude 10000: every committed contour stays
/// within 16 samples of the period, nothing is abandoned, and one report
/// row is owed per contour.
#[test]
fn one_second_of_exact_periods() {
    let samples: Vec<i16> = (0..44100).map(tri441).collect();
    let data = mono_samples_bytes(&samples);
    assert_eq!(data.len(), 88200);
    let a = analyze(&wav_bytes(pcm_payload(1, 1, 44100, 2, 16), &data)).unwrap();
    assert!(a.analyzed);
    assert_eq!(a.wav.num_channels, 1);
    assert_eq!(a.wav.sample_rate, 44100);
    assert_eq!(a.failed.len(), 0);
    // the first two crossings arm the machine and fix the hypothesis, so
    // commits run from the third crossing on
    assert_eq!(a.contours.len(), 97);
    for c in a.contours.iter() {
        let n = c.samples.len() as i64;
        assert!((n - 441).abs() <= 16);
    }
    assert_eq!(a.records.len(), a.contours.len());
    assert_eq!(a.contours[0].start_frame, 1323);
    assert_eq!(a.contours[1].start_frame, 1764);

    let r0 = &a.records[0];
    assert_eq!(r0.start_frame, 1323);
    assert_eq!(r0.note, 28);
    assert_eq!(r0.num_smp, 442);
    assert_eq!(r0.num_ep, 1);
    assert_eq!(r0.avg_mag_roc, 90);
    assert_eq!(r0.avg_mag_acc, 1);
    assert_eq!(r0.max_amp, 10000);
    assert_eq!(r0.min_amp, -10000);
    assert_eq!(r0.num_max, 1);
    assert_eq!(r0.num_min, 1);
    assert_eq!(r0.steps_above, 220);
    assert_eq!(r0.steps_below, 220);
    assert_eq!(r0.steps_inc, 220);
    assert_eq!(r0.steps_dec, 221);

    let r1 = &a.records[1];
    assert_eq!(r1.num_smp, 441);
    assert_eq!(r1.num_ep, 0);
    assert_eq!(r1.steps_inc, 219);
}

#[test]
fn unsupported_bit_depth_degrades_to_no_contours() {
    let data = mono_samples_bytes(&(0..400).map(tri441).collect::<Vec<i16>>());
    let a = analyze(&wav_bytes(pcm_payload(1, 1, 44100, 2, 8), &data)).unwrap();
    assert!(!a.analyzed);
    assert_eq!(a.contours.len(), 0);
    assert_eq!(a.failed.len(), 0);
    assert_eq!(a.records.len(), 0);
    assert_eq!(a.wav.bits_per_sample, 8);
}

#[test]
fn missing_data_chunk_is_fatal() {
    let mut out = Vec::new();
    out.extend_from_slice(b"RIFF");
    out.extend_from_slice(&le32_bytes(28));
    out.extend_from_slice(b"WAVE");
    push_chunk(&mut out, b"fmt ", &pcm_payload(1, 1, 44100, 2, 16));
    assert_eq!(analyze(&out).unwrap_err(), WavError::MissingData);
}

#[test]
fn zero_block_align_is_fatal() {
    let data = mono_samples_bytes(&[0, 5, -5, 5]);
    let bytes = wav_bytes(pcm_payload(1, 1, 44100, 0, 16), &data);
    assert_eq!(analyze(&bytes).unwrap_err(), WavError::BadBlockAlign);
}

#[test]
fn non_pcm_is_fatal() {
    let data = mono_samples_bytes(&[0, 5, -5, 5]);
    let bytes = wav_bytes(pcm_payload(3, 1, 44100, 2, 16), &data);
    assert_eq!(analyze(&bytes).unwrap_err(), WavError::NotPcm);
}

#[test]
fn short_format_record_is_fatal() {
    let data = mono_samples_bytes(&[0, 5, -5, 5]);
    let bytes = wav_bytes(vec![1, 0, 1, 0], &data);
    assert_eq!(analyze(&bytes).unwrap_err(), WavError::BadFmtLength);
}

#[test]
fn missing_format_chunk_is_fatal() {
    let mut out = Vec::new();
    out.extend_from_slice(b"RIFF");
    out.extend_from_slice(&le32_bytes(20));
    out.extend_from_slice(b"WAVE");
    push_chunk(&mut out, b"data", &[0, 0, 0, 0]);
    assert_eq!(analyze(&out).unwrap_err(), WavError::MissingFmt);
}

#[test]
fn truncated_stream_is_fatal() {
    let data = mono_samples_bytes(&[0, 5, -5, 5]);
    let mut bytes = wav_bytes(pcm_payload(1, 1, 44100, 2, 16), &data);
    bytes.truncate(bytes.len() - 3);
    assert_eq!(analyze(&bytes).unwrap_err(), WavError::Truncated);
}
