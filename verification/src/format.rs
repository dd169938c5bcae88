use vstd::prelude::*;

use crate::bytes::{bytes_to_16bit, bytes_to_32bit, le16, le32};
use crate::chunk::{chunk_views, Chunk, ChunkV};
use crate::error::WavError;

verus! {

/// The identifier "fmt " as bytes.
pub open spec fn fmt_tag() -> Seq<u8> {
    seq![102u8, 109u8, 116u8, 32u8]
}

/// The identifier "data" as bytes.
pub open spec fn data_tag() -> Seq<u8> {
    seq![100u8, 97u8, 116u8, 97u8]
}

/// The index of the last chunk whose identifier is `id`, if any. The last
/// one governs, as a later chunk of the same identifier shadows an earlier.
pub open spec fn find_last(cs: Seq<ChunkV>, id: Seq<u8>) -> Option<int>
    decreases cs.len(),
{
    if cs.len() == 0 {
        None
    } else if cs.last().identifier == id {
        Some(cs.len() - 1)
    } else {
        find_last(cs.drop_last(), id)
    }
}

/// `find_last` yields the largest index bearing `id`, or none at all.
pub proof fn lemma_find_last(cs: Seq<ChunkV>, id: Seq<u8>)
    ensures
        match find_last(cs, id) {
            Some(j) => 0 <= j < cs.len() && cs[j].identifier == id && (forall|m: int|
                j < m < cs.len() ==> cs[m].identifier != id),
            None => forall|m: int| 0 <= m < cs.len() ==> cs[m].identifier != id,
        },
    decreases cs.len(),
{
    if cs.len() > 0 && cs.last().identifier != id {
        lemma_find_last(cs.drop_last(), id);
        assert(forall|m: int| 0 <= m < cs.len() - 1 ==> cs[m] == cs.drop_last()[m]);
    }
}

/// The format payload: the bytes of the last "fmt " chunk.
pub open spec fn fmt_field(cs: Seq<ChunkV>) -> Seq<u8> {
    cs[find_last(cs, fmt_tag())->Some_0].var_field
}

/// A resolvable format record: a "fmt " chunk is present, declares the
/// 16-byte record it carries, and its format tag is 1 (linear PCM).
pub open spec fn fmt_ok(cs: Seq<ChunkV>) -> bool {
    match find_last(cs, fmt_tag()) {
        Some(j) => {
            let vf = cs[j].var_field;
            &&& cs[j].length == 16
            &&& vf.len() >= 16
            &&& le16(vf[0], vf[1]) == 1
        },
        None => false,
    }
}

/// Which fatal condition an unresolvable format record surfaces as.
pub open spec fn fmt_error(cs: Seq<ChunkV>) -> WavError {
    match find_last(cs, fmt_tag()) {
        Some(j) => if cs[j].length != 16 || cs[j].var_field.len() < 16 {
            WavError::BadFmtLength
        } else {
            WavError::NotPcm
        },
        None => WavError::MissingFmt,
    }
}

/// The decoded channel count.
pub open spec fn fmt_channels(cs: Seq<ChunkV>) -> u16 {
    le16(fmt_field(cs)[2], fmt_field(cs)[3])
}

/// The decoded sample rate.
pub open spec fn fmt_sample_rate(cs: Seq<ChunkV>) -> u32 {
    le32(fmt_field(cs)[4], fmt_field(cs)[5], fmt_field(cs)[6], fmt_field(cs)[7])
}

/// The decoded byte rate.
pub open spec fn fmt_byte_rate(cs: Seq<ChunkV>) -> u32 {
    le32(fmt_field(cs)[8], fmt_field(cs)[9], fmt_field(cs)[10], fmt_field(cs)[11])
}

/// The decoded block alignment.
pub open spec fn fmt_block_align(cs: Seq<ChunkV>) -> u16 {
    le16(fmt_field(cs)[12], fmt_field(cs)[13])
}

/// The decoded bits per sample.
pub open spec fn fmt_bits_per_sample(cs: Seq<ChunkV>) -> u16 {
    le16(fmt_field(cs)[14], fmt_field(cs)[15])
}

/// The chunk table together with the five decoded format parameters.
#[derive(Debug)]
pub struct WavFile {
    /// All chunks of the container, in scan order.
    pub chunks: Vec<Chunk>,
    /// Interleaved channels per frame.
    pub num_channels: u16,
    /// Frames per second.
    pub sample_rate: u32,
    /// Bytes of sample data per second.
    pub byte_rate: u32,
    /// Bytes per frame across all channels.
    pub block_align: u16,
    /// Bits of one sample; the analysis requires 16.
    pub bits_per_sample: u16,
}

/// True when `v` holds exactly the four bytes `b0 b1 b2 b3`.
fn is_tag(v: &Vec<u8>, b0: u8, b1: u8, b2: u8, b3: u8) -> (r: bool)
    ensures
        r == (v@ == seq![b0, b1, b2, b3]),
{
    let r = v.len() == 4 && v[0] == b0 && v[1] == b1 && v[2] == b2 && v[3] == b3;
    proof {
        if r {
            assert(v@ =~= seq![b0, b1, b2, b3]);
        }
        if v@ == seq![b0, b1, b2, b3] {
            assert(v@.len() == 4);
            assert(v@[0] == b0 && v@[1] == b1 && v@[2] == b2 && v@[3] == b3);
        }
    }
    r
}

/// The index of the last chunk of `cs` whose identifier is the four bytes
/// given, as `find_last` names it on the chunks' views.
pub fn find_last_chunk(cs: &Vec<Chunk>, b0: u8, b1: u8, b2: u8, b3: u8) -> (r: Option<usize>)
    ensures
        match r {
            Some(j) => find_last(chunk_views(cs@), seq![b0, b1, b2, b3]) == Some(j as int),
            None => find_last(chunk_views(cs@), seq![b0, b1, b2, b3]) is None,
        },
{
    proof {
        lemma_find_last(chunk_views(cs@), seq![b0, b1, b2, b3]);
    }
    let mut j = cs.len();
    while j > 0
        invariant
            j <= cs@.len(),
            forall|m: int|
                j <= m < cs@.len() ==> chunk_views(cs@)[m].identifier != seq![b0, b1, b2, b3],
        decreases j,
    {
        j = j - 1;
        if is_tag(&cs[j].identifier, b0, b1, b2, b3) {
            proof {
                lemma_find_last(chunk_views(cs@), seq![b0, b1, b2, b3]);
                let f = find_last(chunk_views(cs@), seq![b0, b1, b2, b3]);
                assert(chunk_views(cs@)[j as int].identifier == cs@[j as int].identifier@);
                if f is Some {
                    assert(f->Some_0 == j as int);
                }
            }
            return Some(j);
        }
        proof {
            assert(chunk_views(cs@)[j as int].identifier == cs@[j as int].identifier@);
        }
    }
    None
}

impl WavFile {
    /// Resolves the format record from the chunk table: requires the last
    /// "fmt " chunk to carry a 16-byte linear-PCM record, and decodes channel
    /// count, sample rate, byte rate, block alignment and bits per sample
    /// from their fixed little-endian offsets. Exactly the tables failing
    /// those conditions are rejected, with the condition named.
    pub fn new(chunks: Vec<Chunk>) -> (r: Result<WavFile, WavError>)
        ensures
            match r {
                Ok(w) => {
                    let cv = chunk_views(chunks@);
                    &&& fmt_ok(cv)
                    &&& w.chunks@ == chunks@
                    &&& w.num_channels == fmt_channels(cv)
                    &&& w.sample_rate == fmt_sample_rate(cv)
                    &&& w.byte_rate == fmt_byte_rate(cv)
                    &&& w.block_align == fmt_block_align(cv)
                    &&& w.bits_per_sample == fmt_bits_per_sample(cv)
                },
                Err(e) => !fmt_ok(chunk_views(chunks@)) && e == fmt_error(chunk_views(chunks@)),
            },
    {
        let j = match find_last_chunk(&chunks, 102, 109, 116, 32) {
            Some(j) => j,
            None => {
                return Err(WavError::MissingFmt);
            },
        };
        proof {
            lemma_find_last(chunk_views(chunks@), seq![102u8, 109u8, 116u8, 32u8]);
            assert(chunk_views(chunks@)[j as int] == chunks@[j as int]@);
        }
        let format = &chunks[j];
        if format.length != 16 || format.var_field.len() < 16 {
            return Err(WavError::BadFmtLength);
        }
        let vf = &format.var_field;
        if bytes_to_16bit(vf, 0) != 1 {
            return Err(WavError::NotPcm);
        }
        let num_channels = bytes_to_16bit(vf, 2);
        let sample_rate = bytes_to_32bit(vf, 4);
        let byte_rate = bytes_to_32bit(vf, 8);
        let block_align = bytes_to_16bit(vf, 12);
        let bits_per_sample = bytes_to_16bit(vf, 14);
        Ok(
            WavFile {
                chunks,
                num_channels,
                sample_rate,
                byte_rate,
                block_align,
                bits_per_sample,
            },
        )
    }
}

} // verus!
