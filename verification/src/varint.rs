//! Variable-length and fixed-width integers as they appear in chunk files.

use integer_encoding::VarInt;
use vstd::prelude::*;

verus! {

/// Number of bytes of the varint that starts at index `i` of `s`, counted from
/// the start of `s`: the index just past the first byte below `0x80`, which
/// must be among the first ten bytes of `s`.
pub open spec fn varint_scan(s: Seq<u8>, i: int) -> Option<int>
    decreases 10 - i,
{
    if i < 0 || i >= 10 || i >= s.len() {
        None
    } else if s[i] < 0x80 {
        Some(i + 1)
    } else {
        varint_scan(s, i + 1)
    }
}

/// The low seven bits of each of the first `n` bytes of `s`, least significant
/// group first, packed into 64 bits. Bits that do not fit are dropped.
pub open spec fn varint_bits(s: Seq<u8>, n: int) -> u64
    decreases n,
{
    if n <= 0 {
        0
    } else {
        varint_bits(s, n - 1) | (((s[n - 1] & 0x7f) as u64) << ((7 * (n - 1)) as u64))
    }
}

/// Zig-zag decoding: even numbers are the non-negative values, odd numbers the
/// negative ones.
pub open spec fn zigzag(u: u64) -> i64 {
    if u % 2 == 0 {
        (u / 2) as i64
    } else {
        (-((u / 2) as int) - 1) as i64
    }
}

/// An unsigned varint read at `pos`: its value and the position after it.
pub open spec fn spec_uvarint(s: Seq<u8>, pos: int) -> Option<(u64, int)> {
    if 0 <= pos <= s.len() {
        match varint_scan(s.skip(pos), 0) {
            Some(n) => Some((varint_bits(s.skip(pos), n), pos + n)),
            None => None,
        }
    } else {
        None
    }
}

/// A signed (zig-zag) varint read at `pos`: its value and the position after it.
pub open spec fn spec_ivarint(s: Seq<u8>, pos: int) -> Option<(i64, int)> {
    match spec_uvarint(s, pos) {
        Some((u, p)) => Some((zigzag(u), p)),
        None => None,
    }
}

/// A varint that is found ends within the first ten bytes and within `s`.
pub proof fn lemma_varint_scan_bounds(s: Seq<u8>, i: int)
    requires
        0 <= i,
    ensures
        varint_scan(s, i) matches Some(n) ==> i < n <= 10 && n <= s.len(),
    decreases 10 - i,
{
    if i < 10 && i < s.len() && s[i] >= 0x80 {
        lemma_varint_scan_bounds(s, i + 1);
    }
}

/// `integer_encoding`'s `u64::decode_var`: walks the slice until a byte below
/// `0x80` or until ten bytes are consumed, or-ing the low seven bits of each
/// byte into place; gives the value and the byte count when the last byte
/// walked is below `0x80`, and nothing otherwise.
#[verifier::external_body]
fn decode_var_u64(src: &[u8]) -> (r: Option<(u64, usize)>)
    ensures
        match r {
            Some((v, n)) => varint_scan(src@, 0) == Some(n as int) && v == varint_bits(
                src@,
                n as int,
            ),
            None => varint_scan(src@, 0) is None,
        },
{
    u64::decode_var(src)
}

/// `integer_encoding`'s `i64::decode_var`: the unsigned decoding followed by
/// zig-zag decoding of the value.
#[verifier::external_body]
fn decode_var_i64(src: &[u8]) -> (r: Option<(i64, usize)>)
    ensures
        match r {
            Some((v, n)) => varint_scan(src@, 0) == Some(n as int) && v == zigzag(
                varint_bits(src@, n as int),
            ),
            None => varint_scan(src@, 0) is None,
        },
{
    i64::decode_var(src)
}

/// Reads an unsigned varint at `pos`.
pub fn read_uvarint(data: &[u8], pos: usize) -> (r: Option<(u64, usize)>)
    ensures
        match r {
            Some((v, p)) => spec_uvarint(data@, pos as int) == Some((v, p as int)),
            None => spec_uvarint(data@, pos as int) is None,
        },
{
    if pos > data.len() {
        return None;
    }
    let rest = vstd::slice::slice_subrange(data, pos, data.len());
    assert(rest@ =~= data@.skip(pos as int));
    proof {
        lemma_varint_scan_bounds(rest@, 0);
    }
    match decode_var_u64(rest) {
        Some((v, n)) => Some((v, pos + n)),
        None => None,
    }
}

/// Reads a signed varint at `pos`.
pub fn read_ivarint(data: &[u8], pos: usize) -> (r: Option<(i64, usize)>)
    ensures
        match r {
            Some((v, p)) => spec_ivarint(data@, pos as int) == Some((v, p as int)),
            None => spec_ivarint(data@, pos as int) is None,
        },
{
    if pos > data.len() {
        return None;
    }
    let rest = vstd::slice::slice_subrange(data, pos, data.len());
    assert(rest@ =~= data@.skip(pos as int));
    proof {
        lemma_varint_scan_bounds(rest@, 0);
    }
    match decode_var_i64(rest) {
        Some((v, n)) => Some((v, pos + n)),
        None => None,
    }
}

/// A successful varint read moves forward by one to ten bytes and stays
/// inside the data.
pub proof fn lemma_uvarint_advances(s: Seq<u8>, pos: int)
    ensures
        spec_uvarint(s, pos) matches Some((_, p)) ==> pos < p <= pos + 10 && p <= s.len(),
{
    if 0 <= pos <= s.len() {
        lemma_varint_scan_bounds(s.skip(pos), 0);
    }
}

/// Four bytes, most significant first, as one number.
pub open spec fn be32(b0: u8, b1: u8, b2: u8, b3: u8) -> u32 {
    (b0 as u32 * 0x100_0000 + b1 as u32 * 0x1_0000 + b2 as u32 * 0x100 + b3 as u32) as u32
}

/// The big-endian `u32` at `pos`, if four bytes are there.
pub open spec fn spec_u32_be(s: Seq<u8>, pos: int) -> Option<u32> {
    if 0 <= pos && pos + 4 <= s.len() {
        Some(be32(s[pos], s[pos + 1], s[pos + 2], s[pos + 3]))
    } else {
        None
    }
}

/// The little-endian `u32` at `pos`, if four bytes are there.
pub open spec fn spec_u32_le(s: Seq<u8>, pos: int) -> Option<u32> {
    if 0 <= pos && pos + 4 <= s.len() {
        Some(be32(s[pos + 3], s[pos + 2], s[pos + 1], s[pos]))
    } else {
        None
    }
}

/// The big-endian `u64` at `pos`, if eight bytes are there.
pub open spec fn spec_u64_be(s: Seq<u8>, pos: int) -> Option<u64> {
    if 0 <= pos && pos + 8 <= s.len() {
        Some(
            (be32(s[pos], s[pos + 1], s[pos + 2], s[pos + 3]) as u64 * 0x1_0000_0000 + be32(
                s[pos + 4],
                s[pos + 5],
                s[pos + 6],
                s[pos + 7],
            ) as u64) as u64,
        )
    } else {
        None
    }
}

fn pack_be32(b0: u8, b1: u8, b2: u8, b3: u8) -> (r: u32)
    ensures
        r == be32(b0, b1, b2, b3),
{
    let hi: u32 = (b0 as u32) * 0x100_0000 + (b1 as u32) * 0x1_0000;
    let lo: u32 = (b2 as u32) * 0x100 + (b3 as u32);
    hi + lo
}

/// Reads a big-endian `u32` at `pos`.
pub fn read_u32_be(data: &[u8], pos: usize) -> (r: Option<u32>)
    ensures
        r == spec_u32_be(data@, pos as int),
{
    if pos > data.len() || data.len() - pos < 4 {
        return None;
    }
    Some(pack_be32(data[pos], data[pos + 1], data[pos + 2], data[pos + 3]))
}

/// Reads a little-endian `u32` at `pos`.
pub fn read_u32_le(data: &[u8], pos: usize) -> (r: Option<u32>)
    ensures
        r == spec_u32_le(data@, pos as int),
{
    if pos > data.len() || data.len() - pos < 4 {
        return None;
    }
    Some(pack_be32(data[pos + 3], data[pos + 2], data[pos + 1], data[pos]))
}

/// Reads a big-endian `u64` at `pos`.
pub fn read_u64_be(data: &[u8], pos: usize) -> (r: Option<u64>)
    ensures
        r == spec_u64_be(data@, pos as int),
{
    if pos > data.len() || data.len() - pos < 8 {
        return None;
    }
    let hi: u32 = pack_be32(data[pos], data[pos + 1], data[pos + 2], data[pos + 3]);
    let lo: u32 = pack_be32(data[pos + 4], data[pos + 5], data[pos + 6], data[pos + 7]);
    Some((hi as u64) * 0x1_0000_0000 + (lo as u64))
}

} // verus!
