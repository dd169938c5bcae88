use vstd::prelude::*;

use crate::bytes::{bytes_to_32bit, copy_byte_range, le32};
use crate::error::WavError;

verus! {

/// The identifier "RIFF" as bytes.
pub open spec fn riff_tag() -> Seq<u8> {
    seq![82u8, 73u8, 70u8, 70u8]
}

/// The identifier "LIST" as bytes.
pub open spec fn list_tag() -> Seq<u8> {
    seq![76u8, 73u8, 83u8, 84u8]
}

/// A four-byte identifier that marks a container chunk holding sub-chunks.
pub open spec fn is_container(id: Seq<u8>) -> bool {
    id == riff_tag() || id == list_tag()
}

/// One tag/length/value record of the container.
///
/// A leaf chunk carries `length` payload bytes in `var_field`. A container
/// chunk ("RIFF" or "LIST") carries none of its own: `superchunk` holds the
/// container tag, `identifier` the nested-content type, and its sub-chunks
/// are found by continuing the linear scan 12 bytes further on.
#[derive(Debug)]
pub struct Chunk {
    /// Byte address of this chunk's header within the file.
    pub address: usize,
    /// The container tag, for a container chunk; `None` for a leaf.
    pub superchunk: Option<Vec<u8>>,
    /// The exposed four-byte identifier.
    pub identifier: Vec<u8>,
    /// The declared payload length.
    pub length: u32,
    /// The payload bytes; empty for a container chunk.
    pub var_field: Vec<u8>,
}

/// The mathematical image of a `Chunk`.
#[verifier::ext_equal]
pub ghost struct ChunkV {
    pub address: int,
    pub superchunk: Option<Seq<u8>>,
    pub identifier: Seq<u8>,
    pub length: u32,
    pub var_field: Seq<u8>,
}

impl View for Chunk {
    type V = ChunkV;

    open spec fn view(&self) -> ChunkV {
        ChunkV {
            address: self.address as int,
            superchunk: match self.superchunk {
                Some(t) => Some(t@),
                None => None,
            },
            identifier: self.identifier@,
            length: self.length,
            var_field: self.var_field@,
        }
    }
}

/// What reading one chunk at the head of `d` yields: the record, or
/// `Truncated` when the header or the payload runs past the end of `d`.
pub open spec fn chunk_new_spec(d: Seq<u8>, address: int) -> Result<ChunkV, WavError> {
    if d.len() < 8 {
        Err(WavError::Truncated)
    } else {
        let id = d.subrange(0, 4);
        let length = le32(d[4], d[5], d[6], d[7]);
        if is_container(id) {
            if d.len() < 12 {
                Err(WavError::Truncated)
            } else {
                Ok(ChunkV {
                    address,
                    superchunk: Some(id),
                    identifier: d.subrange(8, 12),
                    length,
                    var_field: Seq::empty(),
                })
            }
        } else {
            if 8 + length <= d.len() {
                Ok(ChunkV {
                    address,
                    superchunk: None,
                    identifier: id,
                    length,
                    var_field: d.subrange(8, 8 + length),
                })
            } else {
                Err(WavError::Truncated)
            }
        }
    }
}

/// How far the scan advances past a chunk before its next sibling: 12 bytes
/// for a container header, otherwise the 8-byte header plus the payload plus
/// one pad byte when the payload length is odd.
pub open spec fn next_chunk_address(c: ChunkV) -> int {
    match c.superchunk {
        Some(_) => c.address + 12,
        None => c.address + 8 + c.length + (c.length % 2),
    }
}

/// The chunk sequence read by the linear scan of `data` from `addr` on:
/// stop on an exhausted buffer or on a chunk of length zero (excluded);
/// any out-of-bounds read is fatal.
pub open spec fn parse_rec(data: Seq<u8>, addr: int) -> Result<Seq<ChunkV>, WavError>
    decreases data.len() - addr,
{
    if addr < 0 || addr >= data.len() {
        Ok(Seq::empty())
    } else {
        match chunk_new_spec(data.subrange(addr, data.len() as int), addr) {
            Err(e) => Err(e),
            Ok(c) => {
                if c.length == 0 {
                    Ok(Seq::empty())
                } else {
                    let step = next_chunk_address(c) - addr;
                    let addr2 = if addr + step <= data.len() {
                        addr + step
                    } else {
                        data.len() as int
                    };
                    match parse_rec(data, addr2) {
                        Err(e) => Err(e),
                        Ok(rest) => Ok(seq![c] + rest),
                    }
                }
            },
        }
    }
}

/// The views of a sequence of chunks.
pub open spec fn chunk_views(s: Seq<Chunk>) -> Seq<ChunkV> {
    s.map_values(|c: Chunk| c@)
}

pub proof fn lemma_chunk_views_push(s: Seq<Chunk>, c: Chunk)
    ensures
        chunk_views(s.push(c)) == chunk_views(s).push(c@),
{
    assert(chunk_views(s.push(c)) =~= chunk_views(s).push(c@));
}

/// True when the first four bytes of `d` are a container tag.
fn is_container_id(d: &Vec<u8>) -> (r: bool)
    requires
        d@.len() >= 4,
    ensures
        r == is_container(d@.subrange(0, 4)),
{
    let riff = d[0] == 82 && d[1] == 73 && d[2] == 70 && d[3] == 70;
    let list = d[0] == 76 && d[1] == 73 && d[2] == 83 && d[3] == 84;
    proof {
        if riff {
            assert(d@.subrange(0, 4) =~= riff_tag());
        }
        if list {
            assert(d@.subrange(0, 4) =~= list_tag());
        }
        if d@.subrange(0, 4) == riff_tag() {
            assert(d@[0] == 82 && d@[1] == 73 && d@[2] == 70 && d@[3] == 70);
        }
        if d@.subrange(0, 4) == list_tag() {
            assert(d@[0] == 76 && d@[1] == 73 && d@[2] == 83 && d@[3] == 84);
        }
    }
    riff || list
}

impl Chunk {
    /// Reads the chunk at the head of `data`, recording `address` as its
    /// position in the file. Exactly the truncated inputs are rejected.
    pub fn new(data: &Vec<u8>, address: usize) -> (r: Result<Chunk, WavError>)
        ensures
            match r {
                Ok(c) => chunk_new_spec(data@, address as int) == Ok::<ChunkV, WavError>(c@),
                Err(e) => chunk_new_spec(data@, address as int) == Err::<ChunkV, WavError>(e),
            },
    {
        let n = data.len();
        if n < 8 {
            return Err(WavError::Truncated);
        }
        let length = bytes_to_32bit(data, 4);
        if is_container_id(data) {
            if n < 12 {
                return Err(WavError::Truncated);
            }
            let c = Chunk {
                address,
                superchunk: Some(copy_byte_range(data, 0, 4)),
                identifier: copy_byte_range(data, 8, 12),
                length,
                var_field: Vec::new(),
            };
            Ok(c)
        } else {
            if length as u64 + 8 > n as u64 {
                return Err(WavError::Truncated);
            }
            let c = Chunk {
                address,
                superchunk: None,
                identifier: copy_byte_range(data, 0, 4),
                length,
                var_field: copy_byte_range(data, 8, 8 + length as usize),
            };
            Ok(c)
        }
    }
}

/// Walks the whole byte stream into its ordered chunk sequence.
pub fn parse_chunks(data: &Vec<u8>) -> (r: Result<Vec<Chunk>, WavError>)
    ensures
        match r {
            Ok(cs) => parse_rec(data@, 0) == Ok::<Seq<ChunkV>, WavError>(chunk_views(cs@)),
            Err(e) => parse_rec(data@, 0) == Err::<Seq<ChunkV>, WavError>(e),
        },
{
    let mut chunks: Vec<Chunk> = Vec::new();
    let mut address: usize = 0;
    proof {
        assert(chunk_views(chunks@) =~= Seq::<ChunkV>::empty());
    }
    while address < data.len()
        invariant
            address <= data@.len(),
            match parse_rec(data@, address as int) {
                Ok(rest) => parse_rec(data@, 0) == Ok::<Seq<ChunkV>, WavError>(
                    chunk_views(chunks@) + rest,
                ),
                Err(e) => parse_rec(data@, 0) == Err::<Seq<ChunkV>, WavError>(e),
            },
        decreases data@.len() - address,
    {
        let tail = copy_byte_range(data, address, data.len());
        match Chunk::new(&tail, address) {
            Err(e) => {
                return Err(e);
            },
            Ok(c) => {
                if c.length == 0 {
                    proof {
                        assert(chunk_views(chunks@) + Seq::<ChunkV>::empty() =~= chunk_views(
                            chunks@,
                        ));
                    }
                    return Ok(chunks);
                }
                let step: u64 = match &c.superchunk {
                    Some(_) => 12,
                    None => 8 + c.length as u64 + (c.length % 2) as u64,
                };
                let remaining: u64 = (data.len() - address) as u64;
                let ghost prev_chunks = chunks@;
                let ghost prev_address = address as int;
                chunks.push(c);
                if step <= remaining {
                    address = address + step as usize;
                } else {
                    address = data.len();
                }
                proof {
                    lemma_chunk_views_push(prev_chunks, chunks@.last());
                    let cv = chunks@.last()@;
                    let rest2 = parse_rec(data@, address as int);
                    if rest2 is Ok {
                        assert(parse_rec(data@, prev_address) == Ok::<Seq<ChunkV>, WavError>(
                            seq![cv] + rest2->Ok_0,
                        ));
                        assert(chunk_views(prev_chunks) + (seq![cv] + rest2->Ok_0) =~= chunk_views(
                            chunks@,
                        ) + rest2->Ok_0);
                    }
                }
            },
        }
    }
    proof {
        assert(chunk_views(chunks@) + Seq::<ChunkV>::empty() =~= chunk_views(chunks@));
    }
    Ok(chunks)
}

/// A well-formed chunk record: a four-byte identifier, and a payload that
/// matches the declared length for a leaf but is absent for a container.
pub open spec fn chunk_wf(c: ChunkV) -> bool {
    &&& c.identifier.len() == 4
    &&& match c.superchunk {
        Some(t) => t.len() == 4 && c.var_field.len() == 0,
        None => c.var_field.len() == c.length,
    }
}

/// Every chunk the scan yields is well-formed.
pub proof fn lemma_parsed_chunks_wf(data: Seq<u8>, addr: int)
    requires
        parse_rec(data, addr) is Ok,
    ensures
        forall|j: int|
            0 <= j < parse_rec(data, addr)->Ok_0.len() ==> #[trigger] chunk_wf(
                parse_rec(data, addr)->Ok_0[j],
            ),
    decreases data.len() - addr,
{
    let cs = parse_rec(data, addr)->Ok_0;
    if 0 <= addr < data.len() {
        match chunk_new_spec(data.subrange(addr, data.len() as int), addr) {
            Err(_) => {},
            Ok(c) => {
                if c.length != 0 {
                    let step = next_chunk_address(c) - addr;
                    let addr2 = if addr + step <= data.len() {
                        addr + step
                    } else {
                        data.len() as int
                    };
                    lemma_parsed_chunks_wf(data, addr2);
                    assert(chunk_wf(c));
                    let rest = parse_rec(data, addr2)->Ok_0;
                    assert forall|j: int| 0 <= j < cs.len() implies #[trigger] chunk_wf(
                        cs[j],
                    ) by {
                        if j >= 1 {
                            assert(cs[j] == rest[j - 1]);
                        }
                    }
                }
            },
        }
    }
}

/// Consecutive parsed chunks advance by 12 bytes past a container header and
/// by the padded payload size past a leaf: each address after the first is
/// `next_chunk_address` of the chunk before it.
pub proof fn lemma_chunk_addresses(data: Seq<u8>, addr: int)
    requires
        0 <= addr,
        parse_rec(data, addr) is Ok,
    ensures
        ({
            let cs = parse_rec(data, addr)->Ok_0;
            &&& (cs.len() > 0 ==> cs[0].address == addr)
            &&& (forall|j: int|
                1 <= j < cs.len() ==> cs[j].address == next_chunk_address(cs[j - 1]))
        }),
    decreases data.len() - addr,
{
    let cs = parse_rec(data, addr)->Ok_0;
    if addr >= data.len() {
    } else {
        match chunk_new_spec(data.subrange(addr, data.len() as int), addr) {
            Err(_) => {},
            Ok(c) => {
                if c.length == 0 {
                } else {
                    let step = next_chunk_address(c) - addr;
                    let addr2 = if addr + step <= data.len() {
                        addr + step
                    } else {
                        data.len() as int
                    };
                    lemma_chunk_addresses(data, addr2);
                    let rest = parse_rec(data, addr2)->Ok_0;
                    if rest.len() > 0 {
                        assert(addr2 < data.len());
                        assert(addr2 == next_chunk_address(c));
                        assert(cs[1] == rest[0]);
                    }
                    assert forall|j: int| 1 <= j < cs.len() implies cs[j].address
                        == next_chunk_address(cs[j - 1]) by {
                        if j >= 2 {
                            assert(cs[j] == rest[j - 1]);
                            assert(cs[j - 1] == rest[j - 2]);
                        }
                    }
                }
            },
        }
    }
}

} // verus!
