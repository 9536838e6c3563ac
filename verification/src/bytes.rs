//! Little-endian numbers in byte buffers, as firmware tables and device
//! registers lay them out.
use vstd::prelude::*;

verus! {

/// The little-endian 16-bit number at `off`.
pub open spec fn le_u16(b: Seq<u8>, off: int) -> int {
    b[off] + 0x100 * b[off + 1]
}

/// The little-endian 32-bit number at `off`.
pub open spec fn le_u32(b: Seq<u8>, off: int) -> int {
    le_u16(b, off) + 0x1_0000 * le_u16(b, off + 2)
}

/// The little-endian 64-bit number at `off`.
pub open spec fn le_u64(b: Seq<u8>, off: int) -> int {
    le_u32(b, off) + 0x1_0000_0000 * le_u32(b, off + 4)
}

/// Reads the little-endian 16-bit number at `off`.
pub fn read_u16(b: &[u8], off: usize) -> (r: u16)
    requires
        off + 2 <= b@.len(),
    ensures
        r == le_u16(b@, off as int),
{
    let lo = b[off];
    let hi = b[off + 1];
    assert((lo as u16) | ((hi as u16) << 8u16) == lo as u16 + 0x100u16 * hi as u16) by (bit_vector);
    (lo as u16) | ((hi as u16) << 8u16)
}

/// Reads the little-endian 32-bit number at `off`.
pub fn read_u32(b: &[u8], off: usize) -> (r: u32)
    requires
        off + 4 <= b@.len(),
    ensures
        r == le_u32(b@, off as int),
{
    let _n = b.len();
    let lo = read_u16(b, off);
    let hi = read_u16(b, off + 2);
    assert((lo as u32) | ((hi as u32) << 16u32) == lo as u32 + 0x1_0000u32 * hi as u32) by (bit_vector);
    (lo as u32) | ((hi as u32) << 16u32)
}

/// Reads the little-endian 64-bit number at `off`.
pub fn read_u64(b: &[u8], off: usize) -> (r: u64)
    requires
        off + 8 <= b@.len(),
    ensures
        r == le_u64(b@, off as int),
{
    let _n = b.len();
    let lo = read_u32(b, off);
    let hi = read_u32(b, off + 4);
    assert((lo as u64) | ((hi as u64) << 32u64) == lo as u64 + 0x1_0000_0000u64 * hi as u64)
        by (bit_vector);
    (lo as u64) | ((hi as u64) << 32u64)
}

/// The sum of the bytes, as an unbounded number.
pub open spec fn byte_sum(b: Seq<u8>) -> int
    decreases b.len(),
{
    if b.len() == 0 {
        0
    } else {
        byte_sum(b.drop_last()) + b.last()
    }
}

/// The sum of the bytes, wrapping at 256: a table is valid when it is zero.
pub fn checksum(b: &[u8]) -> (r: u8)
    ensures
        r == byte_sum(b@) % 256,
{
    let mut sum: u8 = 0;
    let mut i: usize = 0;
    while i < b.len()
        invariant
            i <= b@.len(),
            sum == byte_sum(b@.take(i as int)) % 256,
        decreases b@.len() - i,
    {
        assert(b@.take(i + 1).drop_last() =~= b@.take(i as int));
        sum = sum.wrapping_add(b[i]);
        i = i + 1;
    }
    assert(b@.take(b@.len() as int) =~= b@);
    sum
}

} // verus!
