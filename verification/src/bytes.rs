//! Little-endian integers in byte sequences.

use vstd::prelude::*;

verus! {

/// The little-endian 16-bit value at `o`.
pub open spec fn le16(s: Seq<u8>, o: int) -> int {
    s[o] as int + s[o + 1] as int * 0x100
}

/// The little-endian 32-bit value at `o`.
pub open spec fn le32(s: Seq<u8>, o: int) -> int {
    le16(s, o) + le16(s, o + 2) * 0x1_0000
}

/// The little-endian 64-bit value at `o`.
pub open spec fn le64(s: Seq<u8>, o: int) -> int {
    le32(s, o) + le32(s, o + 4) * 0x1_0000_0000
}

pub fn get_u16(data: &[u8], offset: usize) -> (r: u16)
    requires
        offset + 2 <= data@.len(),
    ensures
        r == le16(data@, offset as int),
{
    data[offset] as u16 + data[offset + 1] as u16 * 0x100
}

pub fn get_u32(data: &[u8], offset: usize) -> (r: u32)
    requires
        offset + 4 <= data@.len(),
    ensures
        r == le32(data@, offset as int),
{
    let _len = data.len();
    let low = get_u16(data, offset) as u32;
    let high = get_u16(data, offset + 2) as u32;
    assert(high * 0x1_0000 <= 0xffff_0000) by (nonlinear_arith)
        requires
            high <= 0xffff,
    ;
    low + high * 0x1_0000
}

pub fn get_u64(data: &[u8], offset: usize) -> (r: u64)
    requires
        offset + 8 <= data@.len(),
    ensures
        r == le64(data@, offset as int),
{
    let _len = data.len();
    let low = get_u32(data, offset) as u64;
    let high = get_u32(data, offset + 4) as u64;
    assert(high * 0x1_0000_0000 <= 0xffff_ffff_0000_0000) by (nonlinear_arith)
        requires
            high <= 0xffff_ffff,
    ;
    low + high * 0x1_0000_0000
}

/// Writes `v` at `offset` in little-endian order.
pub fn put_u16(data: &mut [u8], offset: usize, v: u16)
    requires
        offset + 2 <= old(data)@.len(),
    ensures
        final(data)@.len() == old(data)@.len(),
        le16(final(data)@, offset as int) == v,
        forall|i: int| 0 <= i < old(data)@.len() && !(offset <= i < offset + 2) ==> final(data)@[i] == old(data)@[i],
{
    let _len = data.len();
    data[offset] = (v % 0x100) as u8;
    data[offset + 1] = (v / 0x100) as u8;
}

/// Writes `v` at `offset` in little-endian order.
pub fn put_u32(data: &mut [u8], offset: usize, v: u32)
    requires
        offset + 4 <= old(data)@.len(),
    ensures
        final(data)@.len() == old(data)@.len(),
        le32(final(data)@, offset as int) == v,
        forall|i: int| 0 <= i < old(data)@.len() && !(offset <= i < offset + 4) ==> final(data)@[i] == old(data)@[i],
{
    let _len = data.len();
    let low = (v % 0x1_0000) as u16;
    let high = (v / 0x1_0000) as u16;
    put_u16(data, offset, low);
    let ghost mid = data@;
    put_u16(data, offset + 2, high);
    assert(data@[offset as int] == mid[offset as int]);
    assert(data@[offset + 1] == mid[offset + 1]);
}

/// Writes `v` at `offset` in little-endian order.
pub fn put_u64(data: &mut [u8], offset: usize, v: u64)
    requires
        offset + 8 <= old(data)@.len(),
    ensures
        final(data)@.len() == old(data)@.len(),
        le64(final(data)@, offset as int) == v,
        forall|i: int| 0 <= i < old(data)@.len() && !(offset <= i < offset + 8) ==> final(data)@[i] == old(data)@[i],
{
    let _len = data.len();
    let low = (v % 0x1_0000_0000) as u32;
    let high = (v / 0x1_0000_0000) as u32;
    put_u32(data, offset, low);
    let ghost mid = data@;
    put_u32(data, offset + 4, high);
    assert(le32(data@, offset as int) == le32(mid, offset as int)) by {
        assert(data@[offset as int] == mid[offset as int]);
        assert(data@[offset + 1] == mid[offset + 1]);
        assert(data@[offset + 2] == mid[offset + 2]);
        assert(data@[offset + 3] == mid[offset + 3]);
    }
}

} // verus!
