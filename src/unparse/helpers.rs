//! Writing fixed-size integers.

use vstd::prelude::*;
use crate::parse::helpers::{u32_at, spec_u32};
use crate::parse::error::VoxErrorKind;

verus! {

/// The four little-endian bytes of `v`.
pub open spec fn u32_le_bytes(v: u32) -> Seq<u8> {
    seq![(v % 256) as u8, (v / 256 % 256) as u8, (v / 65536 % 256) as u8, (v / 16777216) as u8]
}

/// Writes a `u32` as little-endian to the byte vector.
pub fn le_u32(dst: &mut Vec<u8>, v: u32)
    ensures
        final(dst)@ == old(dst)@ + u32_le_bytes(v),
{
    dst.push((v % 256) as u8);
    dst.push((v / 256 % 256) as u8);
    dst.push((v / 65536 % 256) as u8);
    dst.push((v / 16777216) as u8);
    assert(final(dst)@ =~= old(dst)@ + u32_le_bytes(v));
}

/// Writes an `i32` (two's complement) as little-endian to the byte vector.
pub fn le_i32(dst: &mut Vec<u8>, v: i32)
    ensures
        final(dst)@ == old(dst)@ + u32_le_bytes(v as u32),
{
    le_u32(dst, v as u32);
}

/// Reading the four bytes that `u32_le_bytes` writes gives the value back.
pub proof fn lemma_u32_round_trip(s: Seq<u8>, pos: int, v: u32)
    requires
        0 <= pos,
        pos + 4 <= s.len(),
        s.subrange(pos, pos + 4) == u32_le_bytes(v),
    ensures
        spec_u32(s, pos) == Ok::<(u32, int), VoxErrorKind>((v, pos + 4)),
{
    let x = v as int;
    assert(s[pos] == u32_le_bytes(v)[0]);
    assert(s[pos + 1] == u32_le_bytes(v)[1]);
    assert(s[pos + 2] == u32_le_bytes(v)[2]);
    assert(s[pos + 3] == u32_le_bytes(v)[3]);
    vstd::arithmetic::div_mod::lemma_fundamental_div_mod(x, 256);
    vstd::arithmetic::div_mod::lemma_fundamental_div_mod(x / 256, 256);
    vstd::arithmetic::div_mod::lemma_fundamental_div_mod(x / 65536, 256);
    vstd::arithmetic::div_mod::lemma_div_denominator(x, 256, 256);
    vstd::arithmetic::div_mod::lemma_div_denominator(x, 65536, 256);
    assert(x / 16777216 < 256);
    assert(u32_at(s, pos) == v);
}

/// A `u32` read from four bytes, written again, gives those bytes.
pub proof fn lemma_u32_bytes_of_read(s: Seq<u8>, pos: int)
    requires
        0 <= pos,
        pos + 4 <= s.len(),
    ensures
        u32_le_bytes(u32_at(s, pos)) == s.subrange(pos, pos + 4),
{
    let b0 = s[pos] as int;
    let b1 = s[pos + 1] as int;
    let b2 = s[pos + 2] as int;
    let b3 = s[pos + 3] as int;
    let x = b0 + b1 * 256 + b2 * 65536 + b3 * 16777216;
    assert(x % 256 == b0 && x / 256 % 256 == b1 && x / 65536 % 256 == b2 && x / 16777216 == b3)
        by (nonlinear_arith)
        requires
            x == b0 + b1 * 256 + b2 * 65536 + b3 * 16777216,
            0 <= b0 < 256,
            0 <= b1 < 256,
            0 <= b2 < 256,
            0 <= b3 < 256,
    ;
    assert(u32_le_bytes(u32_at(s, pos)) =~= s.subrange(pos, pos + 4));
}

} // verus!
