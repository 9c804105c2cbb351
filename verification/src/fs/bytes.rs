use vstd::prelude::*;

verus! {

/// The little-endian 16-bit value at `off`.
pub open spec fn le16(s: Seq<u8>, off: int) -> int {
    s[off] + s[off + 1] * 0x100
}

/// The little-endian 32-bit value at `off`.
pub open spec fn le32(s: Seq<u8>, off: int) -> int {
    s[off] + s[off + 1] * 0x100 + s[off + 2] * 0x10000 + s[off + 3] * 0x1000000
}

/// The little-endian 64-bit value at `off`.
pub open spec fn le64(s: Seq<u8>, off: int) -> int {
    le32(s, off) + le32(s, off + 4) * 0x1_0000_0000
}

pub fn read_u64(b: &[u8], off: usize) -> (v: u64)
    requires
        off + 8 <= b@.len(),
    ensures
        v == le64(b@, off as int),
{
    let n = b.len();
    let lo = read_u32(b, off);
    let hi = read_u32(b, off + 4);
    lo as u64 + (hi as u64) * 0x1_0000_0000
}

pub fn read_u16(b: &[u8], off: usize) -> (v: u16)
    requires
        off + 2 <= b@.len(),
    ensures
        v == le16(b@, off as int),
{
    b[off] as u16 + (b[off + 1] as u16) * 0x100
}

pub fn read_u32(b: &[u8], off: usize) -> (v: u32)
    requires
        off + 4 <= b@.len(),
    ensures
        v == le32(b@, off as int),
{
    b[off] as u32 + (b[off + 1] as u32) * 0x100 + (b[off + 2] as u32) * 0x10000 + (b[off + 3] as u32)
        * 0x1000000
}

/// Stores `v` little-endian at `off`; nothing else changes.
pub fn write_u16(b: &mut Vec<u8>, off: usize, v: u16)
    requires
        off + 2 <= old(b)@.len(),
    ensures
        final(b)@.len() == old(b)@.len(),
        le16(final(b)@, off as int) == v,
        forall|i: int| 0 <= i < old(b)@.len() && !(off <= i < off + 2) ==> #[trigger] final(b)@[i] == old(b)@[i],
{
    let n = b.len();
    b.set(off, (v % 0x100) as u8);
    b.set(off + 1, (v / 0x100) as u8);
}

/// Stores `v` little-endian at `off`; nothing else changes.
pub fn write_u32(b: &mut Vec<u8>, off: usize, v: u32)
    requires
        off + 4 <= old(b)@.len(),
    ensures
        final(b)@.len() == old(b)@.len(),
        le32(final(b)@, off as int) == v,
        forall|i: int| 0 <= i < old(b)@.len() && !(off <= i < off + 4) ==> #[trigger] final(b)@[i] == old(b)@[i],
{
    let n = b.len();
    b.set(off, (v % 0x100) as u8);
    b.set(off + 1, ((v / 0x100) % 0x100) as u8);
    b.set(off + 2, ((v / 0x10000) % 0x100) as u8);
    b.set(off + 3, (v / 0x1000000) as u8);
}

} // verus!
