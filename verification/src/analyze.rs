use vstd::prelude::*;

use crate::chunk::{chunk_views, parse_chunks, parse_rec, ChunkV};
use crate::engine::{
    contour_views, extract_contours, init_state, samples_from, scan, seq_views, Contour,
    lemma_scan_contours,
};
use crate::error::WavError;
use crate::format::{data_tag, find_last, fmt_bits_per_sample, fmt_block_align, fmt_byte_rate,
    fmt_channels, fmt_error, fmt_ok, fmt_sample_rate, find_last_chunk, lemma_find_last, WavFile};
use crate::stats::{contour_record, record_spec, ContourRecord};

verus! {

/// The significant-amplitude threshold for 16-bit samples: full scale,
/// `1 << 16`, divided by 64. A sample must exceed this to count as
/// audibly significant.
pub const SIGNIFICANT_AMPLITUDE_16: i16 = 1024;

/// The chunk sequence a byte stream parses to, where it parses at all.
pub open spec fn parsed(data: Seq<u8>) -> Seq<ChunkV> {
    parse_rec(data, 0)->Ok_0
}

/// When the whole pipeline succeeds: the container parses, the format
/// record resolves, a "data" chunk is present, and the block alignment
/// holds at least one 16-bit sample.
pub open spec fn analyze_ok(data: Seq<u8>) -> bool {
    &&& parse_rec(data, 0) is Ok
    &&& fmt_ok(parsed(data))
    &&& find_last(parsed(data), data_tag()) is Some
    &&& fmt_block_align(parsed(data)) >= 2
}

/// Which fatal condition a failing pipeline surfaces, checked in the
/// order the stages run.
pub open spec fn analyze_error(data: Seq<u8>) -> WavError {
    if parse_rec(data, 0) is Err {
        parse_rec(data, 0)->Err_0
    } else if !fmt_ok(parsed(data)) {
        fmt_error(parsed(data))
    } else if find_last(parsed(data), data_tag()) is None {
        WavError::MissingData
    } else {
        WavError::BadBlockAlign
    }
}

/// Whether the sample stream is analyzed at all: only 16-bit streams with
/// a positive sample rate are; others degrade to an empty contour list.
pub open spec fn analysis_supported(data: Seq<u8>) -> bool {
    &&& fmt_bits_per_sample(parsed(data)) == 16
    &&& fmt_sample_rate(parsed(data)) >= 1
}

/// The last "data" chunk of a parsed stream.
pub open spec fn data_chunk_of(data: Seq<u8>) -> ChunkV {
    parsed(data)[find_last(parsed(data), data_tag())->Some_0]
}

/// What the engine yields on the stream: the scan of the data payload,
/// read as frames of `block_align` bytes from the alignment correction of
/// the data chunk's address on.
pub open spec fn scan_of(data: Seq<u8>) -> crate::engine::ScanV {
    let dc = data_chunk_of(data);
    let ba = fmt_block_align(parsed(data)) as int;
    scan(samples_from(dc.var_field, dc.address % ba, ba), SIGNIFICANT_AMPLITUDE_16)
}

/// Everything the pipeline produces from one byte stream.
#[derive(Debug)]
pub struct Analysis {
    /// The chunk table and the decoded format parameters.
    pub wav: WavFile,
    /// The committed contours, in commit order.
    pub contours: Vec<Contour>,
    /// The abandoned segments, in order of abandonment.
    pub failed: Vec<Vec<i16>>,
    /// One row of descriptors per contour.
    pub records: Vec<ContourRecord>,
    /// Whether the sample stream was analyzed; false leaves the three
    /// vectors empty.
    pub analyzed: bool,
}

/// Runs the whole pipeline on one byte stream: parse the chunks, resolve
/// the format, scan the data payload's first channel for contours, and
/// reduce each contour to its record. Succeeds exactly when `analyze_ok`
/// holds, fails with `analyze_error` otherwise, and analyzes the samples
/// exactly when `analysis_supported` holds.
pub fn analyze(data: &Vec<u8>) -> (r: Result<Analysis, WavError>)
    ensures
        r is Ok <==> analyze_ok(data@),
        r matches Err(e) ==> e == analyze_error(data@),
        r matches Ok(a) ==> {
            let cv = chunk_views(a.wav.chunks@);
            &&& parse_rec(data@, 0) == Ok::<Seq<ChunkV>, WavError>(cv)
            &&& a.wav.num_channels == fmt_channels(cv)
            &&& a.wav.sample_rate == fmt_sample_rate(cv)
            &&& a.wav.byte_rate == fmt_byte_rate(cv)
            &&& a.wav.block_align == fmt_block_align(cv)
            &&& a.wav.bits_per_sample == fmt_bits_per_sample(cv)
            &&& a.analyzed == analysis_supported(data@)
            &&& (!a.analyzed ==> a.contours@.len() == 0 && a.failed@.len() == 0
                && a.records@.len() == 0)
            &&& (a.analyzed ==> {
                &&& contour_views(a.contours@) == scan_of(data@).contours
                &&& seq_views(a.failed@) == scan_of(data@).failed
                &&& a.records@.len() == a.contours@.len()
                &&& (forall|j: int|
                    0 <= j < a.records@.len() ==> a.records@[j]@ == record_spec(
                        a.contours@[j]@.samples,
                        a.contours@[j]@.start_frame,
                        a.wav.sample_rate,
                    ))
            })
        },
{
    let chunks = match parse_chunks(data) {
        Ok(cs) => cs,
        Err(e) => {
            return Err(e);
        },
    };
    let wav = match WavFile::new(chunks) {
        Ok(w) => w,
        Err(e) => {
            return Err(e);
        },
    };
    let dj = match find_last_chunk(&wav.chunks, 100, 97, 116, 97) {
        Some(j) => j,
        None => {
            return Err(WavError::MissingData);
        },
    };
    if wav.block_align < 2 {
        return Err(WavError::BadBlockAlign);
    }
    proof {
        lemma_find_last(chunk_views(wav.chunks@), seq![100u8, 97u8, 116u8, 97u8]);
        assert(chunk_views(wav.chunks@)[dj as int] == wav.chunks@[dj as int]@);
    }
    if wav.bits_per_sample != 16 || wav.sample_rate == 0 {
        return Ok(
            Analysis {
                wav,
                contours: Vec::new(),
                failed: Vec::new(),
                records: Vec::new(),
                analyzed: false,
            },
        );
    }
    let data_chunk = &wav.chunks[dj];
    let stride = wav.block_align as usize;
    let offset = data_chunk.address % stride;
    let (contours, failed) = extract_contours(
        &data_chunk.var_field,
        offset,
        stride,
        SIGNIFICANT_AMPLITUDE_16,
    );
    proof {
        lemma_scan_contours(
            samples_from(data_chunk.var_field@, offset as int, stride as int),
            0,
            init_state(),
            Seq::empty(),
            Seq::empty(),
            SIGNIFICANT_AMPLITUDE_16,
        );
    }
    let mut records: Vec<ContourRecord> = Vec::new();
    let mut idx: usize = 0;
    while idx < contours.len()
        invariant
            idx <= contours@.len(),
            wav.sample_rate >= 1,
            records@.len() == idx,
            forall|j: int|
                0 <= j < contours@.len() ==> #[trigger] contour_views(contours@)[j].samples.len()
                    >= 1,
            forall|j: int|
                0 <= j < idx ==> records@[j]@ == record_spec(
                    contours@[j]@.samples,
                    contours@[j]@.start_frame,
                    wav.sample_rate,
                ),
        decreases contours@.len() - idx,
    {
        proof {
            assert(contour_views(contours@)[idx as int].samples.len() >= 1);
            assert(contour_views(contours@)[idx as int] == contours@[idx as int]@);
        }
        let c = &contours[idx];
        let rec = contour_record(&c.samples, c.start_frame, wav.sample_rate);
        records.push(rec);
        idx = idx + 1;
    }
    Ok(Analysis { wav, contours, failed, records, analyzed: true })
}

} // verus!
