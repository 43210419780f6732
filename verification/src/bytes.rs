//! Little-endian integers in byte buffers.

use vstd::prelude::*;

verus! {

/// The value of the two bytes at `pos`, least significant first.
pub open spec fn le16(b: Seq<u8>, pos: int) -> int {
    b[pos] + 256 * b[pos + 1]
}

/// The value of the four bytes at `pos`, least significant first.
pub open spec fn le32(b: Seq<u8>, pos: int) -> int {
    le16(b, pos) + 65536 * le16(b, pos + 2)
}

/// The value of the eight bytes at `pos`, least significant first.
pub open spec fn le64(b: Seq<u8>, pos: int) -> int {
    le32(b, pos) + 0x1_0000_0000 * le32(b, pos + 4)
}

/// The two bytes that hold a value below 2^16, least significant first.
pub open spec fn le16_bytes(v: int) -> Seq<u8> {
    seq![(v % 256) as u8, ((v / 256) % 256) as u8]
}

/// The four bytes that hold a value below 2^32, least significant first.
pub open spec fn le32_bytes(v: int) -> Seq<u8> {
    le16_bytes(v % 65536) + le16_bytes(v / 65536)
}

/// The eight bytes that hold a value below 2^64, least significant first.
pub open spec fn le64_bytes(v: int) -> Seq<u8> {
    le32_bytes(v % 0x1_0000_0000) + le32_bytes(v / 0x1_0000_0000)
}

/// Reads a byte.
pub fn read_u8(data: &[u8], pos: usize) -> (r: Option<u8>)
    ensures
        r is Some <==> pos < data@.len(),
        r is Some ==> pos + 1 <= usize::MAX,
        r matches Some(v) ==> v == data@[pos as int],
{
    if pos < data.len() {
        Some(data[pos])
    } else {
        None
    }
}

/// Reads a little-endian `u16`.
pub fn read_u16(data: &[u8], pos: usize) -> (r: Option<u16>)
    ensures
        r is Some <==> pos + 2 <= data@.len(),
        r is Some ==> pos + 2 <= usize::MAX,
        r matches Some(v) ==> v == le16(data@, pos as int),
{
    if pos < data.len() && data.len() - pos >= 2 {
        Some(data[pos] as u16 + 256 * (data[pos + 1] as u16))
    } else {
        None
    }
}

/// Reads a little-endian `u32`.
pub fn read_u32(data: &[u8], pos: usize) -> (r: Option<u32>)
    ensures
        r is Some <==> pos + 4 <= data@.len(),
        r is Some ==> pos + 4 <= usize::MAX,
        r matches Some(v) ==> v == le32(data@, pos as int),
{
    if pos < data.len() && data.len() - pos >= 4 {
        let lo = data[pos] as u32 + 256 * (data[pos + 1] as u32);
        let hi = data[pos + 2] as u32 + 256 * (data[pos + 3] as u32);
        Some(lo + 65536 * hi)
    } else {
        None
    }
}

/// Reads a little-endian `u64`.
pub fn read_u64(data: &[u8], pos: usize) -> (r: Option<u64>)
    ensures
        r is Some <==> pos + 8 <= data@.len(),
        r is Some ==> pos + 8 <= usize::MAX,
        r matches Some(v) ==> v == le64(data@, pos as int),
{
    if pos < data.len() && data.len() - pos >= 8 {
        let lo = read_u32(data, pos).unwrap() as u64;
        let hi = read_u32(data, pos + 4).unwrap() as u64;
        Some(lo + 0x1_0000_0000 * hi)
    } else {
        None
    }
}

/// Appends a little-endian `u16`.
pub fn write_u16(out: &mut Vec<u8>, v: u16)
    ensures
        final(out)@ == old(out)@ + le16_bytes(v as int),
{
    out.push((v % 256) as u8);
    out.push((v / 256) as u8);
    proof {
        assert(final(out)@ =~= old(out)@ + le16_bytes(v as int));
    }
}

/// Appends a little-endian `u32`.
pub fn write_u32(out: &mut Vec<u8>, v: u32)
    ensures
        final(out)@ == old(out)@ + le32_bytes(v as int),
{
    write_u16(out, (v % 65536) as u16);
    write_u16(out, (v / 65536) as u16);
    proof {
        assert(final(out)@ =~= old(out)@ + le32_bytes(v as int));
    }
}

/// Appends a little-endian `u64`.
pub fn write_u64(out: &mut Vec<u8>, v: u64)
    ensures
        final(out)@ == old(out)@ + le64_bytes(v as int),
{
    write_u32(out, (v % 0x1_0000_0000) as u32);
    write_u32(out, (v / 0x1_0000_0000) as u32);
    proof {
        assert(final(out)@ =~= old(out)@ + le64_bytes(v as int));
    }
}

/// Reading two bytes back gives the value they were written from.
pub proof fn lemma_le16_round_trip(pre: Seq<u8>, v: int, post: Seq<u8>)
    requires
        0 <= v < 65536,
    ensures
        le16(pre + le16_bytes(v) + post, pre.len() as int) == v,
{
    let b = pre + le16_bytes(v) + post;
    assert(b[pre.len() as int] == (v % 256) as u8);
    assert(b[pre.len() as int + 1] == ((v / 256) % 256) as u8);
}

/// Reading four bytes back gives the value they were written from.
pub proof fn lemma_le32_round_trip(pre: Seq<u8>, v: int, post: Seq<u8>)
    requires
        0 <= v < 0x1_0000_0000,
    ensures
        le32(pre + le32_bytes(v) + post, pre.len() as int) == v,
{
    let b = pre + le32_bytes(v) + post;
    assert(b =~= pre + le16_bytes(v % 65536) + (le16_bytes(v / 65536) + post));
    lemma_le16_round_trip(pre, v % 65536, le16_bytes(v / 65536) + post);
    assert(b =~= (pre + le16_bytes(v % 65536)) + le16_bytes(v / 65536) + post);
    lemma_le16_round_trip(pre + le16_bytes(v % 65536), v / 65536, post);
}

/// Reading eight bytes back gives the value they were written from.
pub proof fn lemma_le64_round_trip(pre: Seq<u8>, v: int, post: Seq<u8>)
    requires
        0 <= v < 0x1_0000_0000_0000_0000,
    ensures
        le64(pre + le64_bytes(v) + post, pre.len() as int) == v,
{
    let b = pre + le64_bytes(v) + post;
    let lo = v % 0x1_0000_0000;
    let hi = v / 0x1_0000_0000;
    assert(b =~= pre + le32_bytes(lo) + (le32_bytes(hi) + post));
    lemma_le32_round_trip(pre, lo, le32_bytes(hi) + post);
    assert(b =~= (pre + le32_bytes(lo)) + le32_bytes(hi) + post);
    lemma_le32_round_trip(pre + le32_bytes(lo), hi, post);
}


/// Two bytes in a buffer that hold a value read as that value.
pub proof fn lemma_le16_at(data: Seq<u8>, pos: int, v: int)
    requires
        0 <= pos,
        pos + 2 <= data.len(),
        0 <= v < 65536,
        data.subrange(pos, pos + 2) == le16_bytes(v),
    ensures
        le16(data, pos) == v,
{
    assert(data =~= data.take(pos) + le16_bytes(v) + data.skip(pos + 2));
    lemma_le16_round_trip(data.take(pos), v, data.skip(pos + 2));
}

/// Four bytes in a buffer that hold a value read as that value.
pub proof fn lemma_le32_at(data: Seq<u8>, pos: int, v: int)
    requires
        0 <= pos,
        pos + 4 <= data.len(),
        0 <= v < 0x1_0000_0000,
        data.subrange(pos, pos + 4) == le32_bytes(v),
    ensures
        le32(data, pos) == v,
{
    assert(data =~= data.take(pos) + le32_bytes(v) + data.skip(pos + 4));
    lemma_le32_round_trip(data.take(pos), v, data.skip(pos + 4));
}

} // verus!
