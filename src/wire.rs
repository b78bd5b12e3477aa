//! Little-endian integer fields of the binary layout, read from and appended
//! to byte buffers.
use vstd::prelude::*;

verus! {

/// Value of two little-endian bytes.
pub open spec fn le16(s: Seq<u8>) -> u16 {
    (s[0] as u16) | ((s[1] as u16) << 8u16)
}

/// Value of four little-endian bytes.
pub open spec fn le32(s: Seq<u8>) -> u32 {
    (s[0] as u32) | ((s[1] as u32) << 8u32) | ((s[2] as u32) << 16u32) | ((s[3] as u32) << 24u32)
}

/// Value of eight little-endian bytes.
pub open spec fn le64(s: Seq<u8>) -> u64 {
    (le32(s) as u64) | ((le32(s.subrange(4, 8)) as u64) << 32u64)
}

pub open spec fn bytes16(x: u16) -> Seq<u8> {
    seq![(x & 0xff) as u8, (x >> 8u16) as u8]
}

pub open spec fn bytes32(x: u32) -> Seq<u8> {
    seq![
        (x & 0xff) as u8,
        ((x >> 8u32) & 0xff) as u8,
        ((x >> 16u32) & 0xff) as u8,
        (x >> 24u32) as u8,
    ]
}

pub open spec fn bytes64(x: u64) -> Seq<u8> {
    bytes32((x & 0xffff_ffff) as u32) + bytes32((x >> 32u64) as u32)
}

/// A field of `w` bytes (4 or 8) holding `x`.
pub open spec fn field_bytes(x: u64, wide: bool) -> Seq<u8> {
    if wide { bytes64(x) } else { bytes32(x as u32) }
}

/// The field of 4 or 8 bytes at `pos`, if the data holds it.
pub open spec fn field_at(s: Seq<u8>, pos: int, wide: bool) -> Option<u64> {
    let w = field_width(wide);
    if 0 <= pos && pos + w <= s.len() {
        Some(if wide { le64(s.subrange(pos, pos + 8)) } else { le32(s.subrange(pos, pos + 4)) as u64 })
    } else {
        None
    }
}

pub open spec fn field_width(wide: bool) -> int {
    if wide { 8 } else { 4 }
}

pub proof fn lemma_le16_bytes(x: u16)
    ensures
        bytes16(x).len() == 2,
        le16(bytes16(x)) == x,
{
    assert(((((x & 0xff) as u8) as u16) | ((((x >> 8u16) as u8) as u16) << 8u16)) == x) by (bit_vector);
}

pub proof fn lemma_le32_bytes(x: u32)
    ensures
        bytes32(x).len() == 4,
        le32(bytes32(x)) == x,
{
    assert(((((x & 0xff) as u8) as u32) | (((((x >> 8u32) & 0xff) as u8) as u32) << 8u32) | (
    ((((x >> 16u32) & 0xff) as u8) as u32) << 16u32) | ((((x >> 24u32) as u8) as u32) << 24u32))
        == x) by (bit_vector);
}

pub proof fn lemma_le64_bytes(x: u64)
    ensures
        bytes64(x).len() == 8,
        le64(bytes64(x)) == x,
{
    let lo = (x & 0xffff_ffff) as u32;
    let hi = (x >> 32u64) as u32;
    lemma_le32_bytes(lo);
    lemma_le32_bytes(hi);
    let s = bytes64(x);
    assert(s.subrange(0, 4) =~= bytes32(lo));
    assert(s.subrange(4, 8) =~= bytes32(hi));
    assert(le32(s) == le32(s.subrange(0, 4)));
    assert(((((x & 0xffff_ffff) as u32) as u64) | ((((x >> 32u64) as u32) as u64) << 32u64)) == x)
        by (bit_vector);
}

pub proof fn lemma_field_round_trip(pre: Seq<u8>, x: u64, wide: bool, post: Seq<u8>)
    requires
        wide || x <= u32::MAX,
    ensures
        field_bytes(x, wide).len() == field_width(wide),
        field_at(pre + field_bytes(x, wide) + post, pre.len() as int, wide) == Some(x),
{
    let s = pre + field_bytes(x, wide) + post;
    let n = pre.len() as int;
    if wide {
        lemma_le64_bytes(x);
        assert(s.subrange(n, n + 8) =~= bytes64(x));
    } else {
        lemma_le32_bytes(x as u32);
        assert(s.subrange(n, n + 4) =~= bytes32(x as u32));
    }
}

pub fn read_u8(data: &Vec<u8>, pos: usize) -> (r: Option<u8>)
    ensures
        r == (if pos < data@.len() { Some(data@[pos as int]) } else { None::<u8> }),
{
    if pos < data.len() {
        Some(data[pos])
    } else {
        None
    }
}

pub fn read_u16(data: &Vec<u8>, pos: usize) -> (r: Option<u16>)
    ensures
        r == (if pos + 2 <= data@.len() {
            Some(le16(data@.subrange(pos as int, pos + 2)))
        } else {
            None::<u16>
        }),
{
    if pos <= data.len() && data.len() - pos >= 2 {
        Some((data[pos] as u16) | ((data[pos + 1] as u16) << 8u16))
    } else {
        None
    }
}

pub fn read_u32(data: &Vec<u8>, pos: usize) -> (r: Option<u32>)
    ensures
        r == (if pos + 4 <= data@.len() {
            Some(le32(data@.subrange(pos as int, pos + 4)))
        } else {
            None::<u32>
        }),
{
    if pos <= data.len() && data.len() - pos >= 4 {
        Some((data[pos] as u32) | ((data[pos + 1] as u32) << 8u32) | ((data[pos + 2] as u32) << 16u32)
            | ((data[pos + 3] as u32) << 24u32))
    } else {
        None
    }
}

pub fn read_u64(data: &Vec<u8>, pos: usize) -> (r: Option<u64>)
    ensures
        r == (if pos + 8 <= data@.len() {
            Some(le64(data@.subrange(pos as int, pos + 8)))
        } else {
            None::<u64>
        }),
{
    if pos <= data.len() && data.len() - pos >= 8 {
        let lo = read_u32(data, pos).unwrap();
        let hi = read_u32(data, pos + 4).unwrap();
        proof {
            let s = data@.subrange(pos as int, pos + 8);
            assert(s.subrange(0, 4) =~= data@.subrange(pos as int, pos + 4));
            assert(s.subrange(4, 8) =~= data@.subrange(pos + 4, pos + 8));
            assert(le32(s) == le32(s.subrange(0, 4)));
        }
        Some((lo as u64) | ((hi as u64) << 32u64))
    } else {
        None
    }
}

/// Reads a record field, 8 bytes wide or 4.
pub fn read_field(data: &Vec<u8>, pos: usize, wide: bool) -> (r: Option<u64>)
    ensures
        r == field_at(data@, pos as int, wide),
{
    if wide {
        read_u64(data, pos)
    } else {
        match read_u32(data, pos) {
            Some(x) => Some(x as u64),
            None => None,
        }
    }
}

pub fn push_u16(out: &mut Vec<u8>, x: u16)
    ensures
        final(out)@ == old(out)@ + bytes16(x),
{
    out.push((x & 0xff) as u8);
    out.push((x >> 8u16) as u8);
    assert(final(out)@ =~= old(out)@ + bytes16(x));
}

pub fn push_u32(out: &mut Vec<u8>, x: u32)
    ensures
        final(out)@ == old(out)@ + bytes32(x),
{
    out.push((x & 0xff) as u8);
    out.push(((x >> 8u32) & 0xff) as u8);
    out.push(((x >> 16u32) & 0xff) as u8);
    out.push((x >> 24u32) as u8);
    assert(final(out)@ =~= old(out)@ + bytes32(x));
}

pub fn push_u64(out: &mut Vec<u8>, x: u64)
    ensures
        final(out)@ == old(out)@ + bytes64(x),
{
    push_u32(out, (x & 0xffff_ffff) as u32);
    push_u32(out, (x >> 32u64) as u32);
    assert(final(out)@ =~= old(out)@ + bytes64(x));
}

/// Appends a record field, 8 bytes wide or 4.
pub fn push_field(out: &mut Vec<u8>, x: u64, wide: bool)
    requires
        wide || x <= u32::MAX,
    ensures
        final(out)@ == old(out)@ + field_bytes(x, wide),
{
    if wide {
        push_u64(out, x);
    } else {
        push_u32(out, x as u32);
    }
}

} // verus!
