//! Little-endian field primitives. Every multi-byte integer of the container
//! formats is stored little-endian; these functions read such fields from a
//! fully buffered input and are specified by the arithmetic value of the
//! bytes they cover.

use vstd::prelude::*;

verus! {

/// The little-endian 16-bit value stored at byte offset `i`.
pub open spec fn le16_at(b: Seq<u8>, i: int) -> u16 {
    (b[i] + b[i + 1] * 0x100) as u16
}

/// The little-endian 24-bit value stored at byte offset `i`.
pub open spec fn le24_at(b: Seq<u8>, i: int) -> u32 {
    (b[i] + b[i + 1] * 0x100 + b[i + 2] * 0x10000) as u32
}

/// The little-endian 32-bit value stored at byte offset `i`.
pub open spec fn le32_at(b: Seq<u8>, i: int) -> u32 {
    (b[i] + b[i + 1] * 0x100 + b[i + 2] * 0x10000 + b[i + 3] * 0x1000000) as u32
}

/// Reads the byte at offset `i`.
pub fn get_u8(b: &Vec<u8>, i: usize) -> (r: u8)
    requires
        i < b@.len(),
    ensures
        r == b@[i as int],
{
    b[i]
}

/// Reads the little-endian 16-bit field at offset `i`.
pub fn get_u16_le(b: &Vec<u8>, i: usize) -> (r: u16)
    requires
        i + 2 <= b@.len(),
    ensures
        r == le16_at(b@, i as int),
{
    let n = b.len();
    proof {
        assert(i + 2 <= n);
    }
    b[i] as u16 + b[i + 1] as u16 * 0x100
}

/// Reads the little-endian 24-bit field at offset `i`.
pub fn get_u24_le(b: &Vec<u8>, i: usize) -> (r: u32)
    requires
        i + 3 <= b@.len(),
    ensures
        r == le24_at(b@, i as int),
{
    let n = b.len();
    proof {
        assert(i + 3 <= n);
    }
    b[i] as u32 + b[i + 1] as u32 * 0x100 + b[i + 2] as u32 * 0x10000
}

/// Reads the little-endian 32-bit field at offset `i`.
pub fn get_u32_le(b: &Vec<u8>, i: usize) -> (r: u32)
    requires
        i + 4 <= b@.len(),
    ensures
        r == le32_at(b@, i as int),
{
    let n = b.len();
    proof {
        assert(i + 4 <= n);
    }
    b[i] as u32 + b[i + 1] as u32 * 0x100 + b[i + 2] as u32 * 0x10000 + b[i + 3] as u32
        * 0x1000000
}

} // verus!
