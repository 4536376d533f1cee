//! Fixed-width integer decoding from byte sequences.
use vstd::prelude::*;

verus! {

/// The unsigned value of two bytes in network (big-endian) order.
pub open spec fn be16(b0: u8, b1: u8) -> u16 {
    (b0 as int * 256 + b1 as int) as u16
}

/// The unsigned value of four bytes in network (big-endian) order.
pub open spec fn be32(b0: u8, b1: u8, b2: u8, b3: u8) -> u32 {
    (b0 as int * 16777216 + b1 as int * 65536 + b2 as int * 256 + b3 as int) as u32
}

/// The big-endian `u16` stored at position `i` of `s`.
pub open spec fn be16_at(s: Seq<u8>, i: int) -> u16 {
    be16(s[i], s[i + 1])
}

/// The big-endian `u32` stored at position `i` of `s`.
pub open spec fn be32_at(s: Seq<u8>, i: int) -> u32 {
    be32(s[i], s[i + 1], s[i + 2], s[i + 3])
}

/// The little-endian `u16` stored at position `i` of `s`.
pub open spec fn le16_at(s: Seq<u8>, i: int) -> u16 {
    be16(s[i + 1], s[i])
}

/// The little-endian `u32` stored at position `i` of `s`.
pub open spec fn le32_at(s: Seq<u8>, i: int) -> u32 {
    be32(s[i + 3], s[i + 2], s[i + 1], s[i])
}

/// Decodes two bytes in big-endian order.
pub fn u16_from_be(b0: u8, b1: u8) -> (r: u16)
    ensures
        r == be16(b0, b1),
{
    (b0 as u16) * 256 + (b1 as u16)
}

/// Decodes four bytes in big-endian order.
pub fn u32_from_be(b0: u8, b1: u8, b2: u8, b3: u8) -> (r: u32)
    ensures
        r == be32(b0, b1, b2, b3),
{
    (b0 as u32) * 16777216 + (b1 as u32) * 65536 + (b2 as u32) * 256 + (b3 as u32)
}

/// Reads the big-endian `u16` at `i`.
pub fn read_be16(s: &[u8], i: usize) -> (r: u16)
    requires
        i + 2 <= s@.len(),
    ensures
        r == be16_at(s@, i as int),
{
    u16_from_be(s[i], s[i + 1])
}

/// Reads the big-endian `u32` at `i`.
pub fn read_be32(s: &[u8], i: usize) -> (r: u32)
    requires
        i + 4 <= s@.len(),
    ensures
        r == be32_at(s@, i as int),
{
    u32_from_be(s[i], s[i + 1], s[i + 2], s[i + 3])
}

/// Reads the little-endian `u16` at `i`.
pub fn read_le16(s: &[u8], i: usize) -> (r: u16)
    requires
        i + 2 <= s@.len(),
    ensures
        r == le16_at(s@, i as int),
{
    let lo: u8 = s[i];
    u16_from_be(s[i + 1], lo)
}

/// Reads the little-endian `u32` at `i`.
pub fn read_le32(s: &[u8], i: usize) -> (r: u32)
    requires
        i + 4 <= s@.len(),
    ensures
        r == le32_at(s@, i as int),
{
    let b0: u8 = s[i];
    let b1: u8 = s[i + 1];
    let b2: u8 = s[i + 2];
    u32_from_be(s[i + 3], b2, b1, b0)
}

/// Compares two byte slices element by element.
pub fn slices_equal(a: &[u8], b: &[u8]) -> (r: bool)
    ensures
        r == (a@ == b@),
{
    if a.len() != b.len() {
        return false;
    }
    let mut i: usize = 0;
    while i < a.len()
        invariant
            a@.len() == b@.len(),
            i <= a@.len(),
            forall|j: int| 0 <= j < i ==> a@[j] == b@[j],
        decreases a@.len() - i,
    {
        if a[i] != b[i] {
            return false;
        }
        i = i + 1;
    }
    assert(a@ =~= b@);
    true
}

} // verus!
