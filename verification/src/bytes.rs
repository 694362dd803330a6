//! Byte sequences as specifications see them: little-endian numbers and the
//! contents of vectors inside other types.

use vstd::prelude::*;

verus! {

/// The little-endian 16-bit number at `off`.
pub open spec fn le16(d: Seq<u8>, off: int) -> nat {
    d[off] as nat + 0x100 * d[off + 1] as nat
}

/// The little-endian 32-bit number at `off`.
pub open spec fn le32(d: Seq<u8>, off: int) -> nat {
    d[off] as nat + 0x100 * d[off + 1] as nat + 0x1_0000 * d[off + 2] as nat + 0x100_0000 * d[off
        + 3] as nat
}

/// The four little-endian bytes of `n`.
pub open spec fn le32_bytes(n: u32) -> Seq<u8> {
    seq![
        (n % 0x100) as u8,
        (n / 0x100 % 0x100) as u8,
        (n / 0x1_0000 % 0x100) as u8,
        (n / 0x100_0000) as u8,
    ]
}

/// The contents of a list of byte vectors.
pub open spec fn contents(list: Seq<Vec<u8>>) -> Seq<Seq<u8>> {
    list.map_values(|v: Vec<u8>| v@)
}

/// The contents of a byte vector that may be missing.
pub open spec fn optional(v: Option<Vec<u8>>) -> Option<Seq<u8>> {
    match v {
        Some(b) => Some(b@),
        None => None,
    }
}

/// The little-endian number of two bytes.
pub fn from_le16(lo: u8, hi: u8) -> (r: u16)
    ensures
        r == lo as nat + 0x100 * hi as nat,
{
    lo as u16 + 0x100 * hi as u16
}

/// The little-endian number of four bytes.
pub fn from_le32(b0: u8, b1: u8, b2: u8, b3: u8) -> (r: u32)
    ensures
        r == b0 as nat + 0x100 * b1 as nat + 0x1_0000 * b2 as nat + 0x100_0000 * b3 as nat,
{
    b0 as u32 + 0x100 * b1 as u32 + 0x1_0000 * b2 as u32 + 0x100_0000 * b3 as u32
}

/// Appends the four little-endian bytes of `n`.
pub fn push_le32(out: &mut Vec<u8>, n: u32)
    ensures
        final(out)@ == old(out)@ + le32_bytes(n),
{
    out.push((n % 0x100) as u8);
    out.push((n / 0x100 % 0x100) as u8);
    out.push((n / 0x1_0000 % 0x100) as u8);
    out.push((n / 0x100_0000) as u8);
    assert(out@ =~= old(out)@ + le32_bytes(n));
}

/// Appends a copy of `data`.
pub fn push_bytes(out: &mut Vec<u8>, data: &[u8])
    ensures
        final(out)@ == old(out)@ + data@,
{
    let n: usize = data.len();
    assert(out@ =~= old(out)@ + data@.take(0));
    for i in 0..n
        invariant
            n == data@.len(),
            out@ == old(out)@ + data@.take(i as int),
    {
        out.push(data[i]);
        assert(out@ =~= old(out)@ + data@.take(i + 1));
    }
    assert(data@.take(n as int) =~= data@);
}

/// The little-endian bytes of a number give that number back.
pub proof fn le32_reads_back(n: u32)
    ensures
        le32_bytes(n).len() == 4,
        le32(le32_bytes(n), 0) == n,
{
}

/// The low byte comes first: a 16-bit number is read from the byte of its
/// remainder and the byte of its quotient by 256, and a 32-bit number from the
/// 16-bit numbers of its halves.
pub proof fn low_byte_comes_first(d: Seq<u8>, off: int, n: u16, high: u16)
    requires
        0 <= off,
        off + 4 <= d.len(),
        d[off] == n % 0x100,
        d[off + 1] == n / 0x100,
        d[off + 2] == high % 0x100,
        d[off + 3] == high / 0x100,
    ensures
        le16(d, off) == n,
        le32(d, off) == n + 0x1_0000 * high,
{
}

} // verus!
