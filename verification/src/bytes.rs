use vstd::prelude::*;

verus! {

/// The value of two bytes read as one little-endian 16-bit integer.
pub open spec fn le16(b0: u8, b1: u8) -> u16 {
    (b0 + b1 * 0x100) as u16
}

/// The value of four bytes read as one little-endian 32-bit integer.
pub open spec fn le32(b0: u8, b1: u8, b2: u8, b3: u8) -> u32 {
    (b0 + b1 * 0x100 + b2 * 0x10000 + b3 * 0x1000000) as u32
}

/// Reads the little-endian 16-bit integer at byte index `idx`.
pub fn bytes_to_16bit(bytes: &Vec<u8>, idx: usize) -> (r: u16)
    requires
        idx + 1 < bytes@.len(),
    ensures
        r == le16(bytes@[idx as int], bytes@[idx + 1]),
{
    let _n = bytes.len();  // pins the view's length below usize::MAX
    bytes[idx] as u16 + bytes[idx + 1] as u16 * 0x100
}

/// Reads the little-endian 32-bit integer at byte index `idx`.
pub fn bytes_to_32bit(bytes: &Vec<u8>, idx: usize) -> (r: u32)
    requires
        idx + 3 < bytes@.len(),
    ensures
        r == le32(bytes@[idx as int], bytes@[idx + 1], bytes@[idx + 2], bytes@[idx + 3]),
{
    let _n = bytes.len();  // pins the view's length below usize::MAX
    bytes[idx] as u32 + bytes[idx + 1] as u32 * 0x100 + bytes[idx + 2] as u32 * 0x10000
        + bytes[idx + 3] as u32 * 0x1000000
}

/// Copies the bytes of `data` in `[start, end)` into a fresh vector.
pub fn copy_byte_range(data: &Vec<u8>, start: usize, end: usize) -> (r: Vec<u8>)
    requires
        start <= end <= data@.len(),
    ensures
        r@ == data@.subrange(start as int, end as int),
{
    let mut out: Vec<u8> = Vec::new();
    let mut i: usize = start;
    while i < end
        invariant
            start <= i <= end <= data@.len(),
            out@ == data@.subrange(start as int, i as int),
        decreases end - i,
    {
        out.push(data[i]);
        proof {
            assert(out@ =~= data@.subrange(start as int, i + 1));
        }
        i = i + 1;
    }
    out
}

} // verus!
