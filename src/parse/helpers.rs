//! Reading fixed-size integers and comparing byte strings.

use vstd::prelude::*;
use crate::parse::error::VoxErrorKind;

verus! {

/// The little-endian `u32` stored at `s[i..i + 4]`.
pub open spec fn u32_at(s: Seq<u8>, i: int) -> u32 {
    (s[i] as int + s[i + 1] as int * 256 + s[i + 2] as int * 65536 + s[i + 3] as int * 16777216) as u32
}

/// Reads a little-endian `u32` at `pos`, giving the position after it.
pub open spec fn spec_u32(s: Seq<u8>, pos: int) -> Result<(u32, int), VoxErrorKind> {
    if 0 <= pos && pos + 4 <= s.len() {
        Ok((u32_at(s, pos), pos + 4))
    } else {
        Err(VoxErrorKind::UnexpectedEnd)
    }
}

/// Reads a little-endian `i32` (two's complement) at `pos`.
pub open spec fn spec_i32(s: Seq<u8>, pos: int) -> Result<(i32, int), VoxErrorKind> {
    match spec_u32(s, pos) {
        Ok((v, p)) => Ok((v as i32, p)),
        Err(e) => Err(e),
    }
}

/// The little-endian `u32` at `pos`, which the input must hold.
pub fn u32_le_at(input: &[u8], pos: usize) -> (r: u32)
    requires
        pos + 4 <= input@.len(),
    ensures
        r == u32_at(input@, pos as int),
{
    input[pos] as u32 + input[pos + 1] as u32 * 256 + input[pos + 2] as u32 * 65536
        + input[pos + 3] as u32 * 16777216
}

/// Reads a little-endian `u32` at `pos`.
pub fn read_u32(input: &[u8], pos: usize) -> (r: Result<(u32, usize), VoxErrorKind>)
    ensures
        match r {
            Ok((v, p)) => spec_u32(input@, pos as int) == Ok::<(u32, int), VoxErrorKind>((v, p as int)),
            Err(e) => spec_u32(input@, pos as int) == Err::<(u32, int), VoxErrorKind>(e),
        },
{
    if pos > input.len() || input.len() - pos < 4 {
        return Err(VoxErrorKind::UnexpectedEnd);
    }
    Ok((u32_le_at(input, pos), pos + 4))
}

/// Reads a little-endian `i32` at `pos`.
pub fn read_i32(input: &[u8], pos: usize) -> (r: Result<(i32, usize), VoxErrorKind>)
    ensures
        match r {
            Ok((v, p)) => spec_i32(input@, pos as int) == Ok::<(i32, int), VoxErrorKind>((v, p as int)),
            Err(e) => spec_i32(input@, pos as int) == Err::<(i32, int), VoxErrorKind>(e),
        },
{
    let (v, p) = read_u32(input, pos)?;
    Ok((v as i32, p))
}

/// Reads one byte at `pos`.
pub fn read_u8(input: &[u8], pos: usize) -> (r: Result<(u8, usize), VoxErrorKind>)
    ensures
        match r {
            Ok((v, p)) => pos < input@.len() && v == input@[pos as int] && p == pos + 1,
            Err(e) => pos >= input@.len() && e == VoxErrorKind::UnexpectedEnd,
        },
{
    if pos >= input.len() {
        return Err(VoxErrorKind::UnexpectedEnd);
    }
    Ok((input[pos], pos + 1))
}

/// `true` iff the two byte strings are equal.
pub fn eq_bytes(a: &[u8], b: &[u8]) -> (r: bool)
    ensures
        r == (a@ == b@),
{
    if a.len() != b.len() {
        return false;
    }
    let mut i: usize = 0;
    while i < a.len()
        invariant
            a@.len() == b@.len(),
            i <= a.len(),
            forall|k: int| 0 <= k < i ==> a@[k] == b@[k],
        decreases a.len() - i,
    {
        if a[i] != b[i] {
            return false;
        }
        i += 1;
    }
    assert(a@ =~= b@);
    true
}

/// Copies `input[start..end]` into a new vector.
pub fn copy_range(input: &[u8], start: usize, end: usize) -> (r: Vec<u8>)
    requires
        start <= end <= input@.len(),
    ensures
        r@ == input@.subrange(start as int, end as int),
{
    let mut r: Vec<u8> = Vec::new();
    let mut i: usize = start;
    while i < end
        invariant
            start <= i <= end <= input@.len(),
            r@ == input@.subrange(start as int, i as int),
        decreases end - i,
    {
        r.push(input[i]);
        i += 1;
        assert(r@ =~= input@.subrange(start as int, i as int));
    }
    r
}

} // verus!
