use wavscan::error::WavError;
use wavscan::format::WavFile;
use wavscan::chunk::Chunk;

fn le32_bytes(v: u32) -> [u8; 4] {
    [v as u8, (v >> 8) as u8, (v >> 16) as u8, (v >> 24) as u8]
}

fn pcm_payload(tag: u16, channels: u16, rate: u32, byte_rate: u32, block: u16, bits: u16) -> Vec<u8> {
    let mut p = Vec::new();
    p.extend_from_slice(&[tag as u8, (tag >> 8) as u8, channels as u8, (channels >> 8) as u8]);
    p.extend_from_slice(&le32_bytes(rate));
    p.extend_from_slice(&le32_bytes(byte_rate));
    p.extend_from_slice(&[block as u8, (block >> 8) as u8, bits as u8, (bits >> 8) as u8]);
    p
}

fn leaf(id: &[u8; 4], payload: Vec<u8>) -> Chunk {
    Chunk {
        address: 0,
        superchunk: None,
        identifier: id.to_vec(),
        length: payload.len() as u32,
        var_field: payload,
    }
}

/// A well-formed 16-byte PCM format chunk decodes to exactly its fields.
#[test]
fn decodes_pcm_format_fields() {
    let chunks = vec![leaf(b"fmt ", pcm_payload(1, 2, 44100, 176400, 4, 16))];
    let w = WavFile::new(chunks).unwrap();
    assert_eq!(w.num_channels, 2);
    assert_eq!(w.sample_rate, 44100);
    assert_eq!(w.byte_rate, 176400);
    assert_eq!(w.block_align, 4);
    assert_eq!(w.bits_per_sample, 16);
}

#[test]
fn non_pcm_tag_is_rejected() {
    let chunks = vec![leaf(b"fmt ", pcm_payload(2, 2, 44100, 176400, 4, 16))];
    assert_eq!(WavFile::new(chunks).unwrap_err(), WavError::NotPcm);
}

#[test]
fn wrong_length_is_rejected() {
    let mut payload = pcm_payload(1, 2, 44100, 176400, 4, 16);
    payload.push(0);
    payload.push(0);
    let chunks = vec![leaf(b"fmt ", payload)];
    assert_eq!(WavFile::new(chunks).unwrap_err(), WavError::BadFmtLength);
}

#[test]
fn missing_format_chunk_is_rejected() {
    let chunks = vec![leaf(b"data", vec![0, 0, 0, 0])];
    assert_eq!(WavFile::new(chunks).unwrap_err(), WavError::MissingFmt);
}

#[test]
fn later_format_chunk_shadows_earlier() {
    let chunks = vec![
        leaf(b"fmt ", pcm_payload(1, 2, 44100, 176400, 4, 16)),
        leaf(b"fmt ", pcm_payload(1, 1, 22050, 44100, 2, 16)),
    ];
    let w = WavFile::new(chunks).unwrap();
    assert_eq!(w.num_channels, 1);
    assert_eq!(w.sample_rate, 22050);
    assert_eq!(w.block_align, 2);
}
