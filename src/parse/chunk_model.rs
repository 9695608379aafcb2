//! Payload parsers of the model and palette chunks: `PACK`, `SIZE`, `XYZI`,
//! `RGBA`.

use vstd::prelude::*;
use crate::parse::error::VoxErrorKind;
use crate::parse::helpers::{u32_at, spec_u32, read_u32};

verus! {

/// The whole payload must be consumed: a parse of `s` from position 0 that
/// ends before the end is an error.
pub open spec fn all_consumed<T>(r: Result<(T, int), VoxErrorKind>, s: Seq<u8>) -> Result<T, VoxErrorKind> {
    match r {
        Ok((v, p)) => if p == s.len() { Ok(v) } else { Err(VoxErrorKind::TrailingBytes) },
        Err(e) => Err(e),
    }
}

/// The four bytes at `i` as a quadruple.
pub open spec fn quad_at(s: Seq<u8>, i: int) -> (u8, u8, u8, u8) {
    (s[i], s[i + 1], s[i + 2], s[i + 3])
}

/// `SIZE`: three `u32`s (x, y, z).
pub open spec fn spec_size(s: Seq<u8>, pos: int) -> Result<((u32, u32, u32), int), VoxErrorKind> {
    if 0 <= pos && pos + 12 <= s.len() {
        Ok(((u32_at(s, pos), u32_at(s, pos + 4), u32_at(s, pos + 8)), pos + 12))
    } else {
        Err(VoxErrorKind::UnexpectedEnd)
    }
}

/// `XYZI`: a `u32` count, then that many (x, y, z, color index) quadruples.
pub open spec fn spec_xyzi(s: Seq<u8>, pos: int) -> Result<(Seq<(u8, u8, u8, u8)>, int), VoxErrorKind> {
    match spec_u32(s, pos) {
        Err(e) => Err(e),
        Ok((n, p)) => if p + 4 * n <= s.len() {
            Ok((Seq::new(n as nat, |i: int| quad_at(s, p + 4 * i)), p + 4 * n))
        } else {
            Err(VoxErrorKind::UnexpectedEnd)
        },
    }
}

/// `RGBA`: 256 quadruples; the first 255 are the colors of palette slots 1 to
/// 255, the last is discarded.
pub open spec fn spec_rgba(s: Seq<u8>, pos: int) -> Result<(Seq<(u8, u8, u8, u8)>, int), VoxErrorKind> {
    if 0 <= pos && pos + 1024 <= s.len() {
        Ok((Seq::new(255, |i: int| quad_at(s, pos + 4 * i)), pos + 1024))
    } else {
        Err(VoxErrorKind::UnexpectedEnd)
    }
}

/// Parses the payload of the `PACK` chunk: the number of models (deprecated).
pub fn chunk_pack(input: &[u8], pos: usize) -> (r: Result<(u32, usize), VoxErrorKind>)
    ensures
        match r {
            Ok((v, p)) => spec_u32(input@, pos as int) == Ok::<(u32, int), VoxErrorKind>((v, p as int)),
            Err(e) => spec_u32(input@, pos as int) == Err::<(u32, int), VoxErrorKind>(e),
        },
{
    read_u32(input, pos)
}

/// Parses the payload of a `PACK` chunk, which must be used up exactly.
pub fn chunk_pack_all(input: &[u8]) -> (r: Result<u32, VoxErrorKind>)
    ensures
        r == all_consumed(spec_u32(input@, 0), input@),
{
    let (v, p) = chunk_pack(input, 0)?;
    if p != input.len() {
        return Err(VoxErrorKind::TrailingBytes);
    }
    Ok(v)
}

/// Parses the payload of the `SIZE` chunk: the dimensions of one model, z
/// being the gravity direction.
pub fn chunk_size(input: &[u8], pos: usize) -> (r: Result<((u32, u32, u32), usize), VoxErrorKind>)
    ensures
        match r {
            Ok((v, p)) => spec_size(input@, pos as int) == Ok::<((u32, u32, u32), int), VoxErrorKind>((v, p as int)),
            Err(e) => spec_size(input@, pos as int) == Err::<((u32, u32, u32), int), VoxErrorKind>(e),
        },
{
    if pos > input.len() || input.len() - pos < 12 {
        return Err(VoxErrorKind::UnexpectedEnd);
    }
    let (x, p) = read_u32(input, pos)?;
    let (y, p) = read_u32(input, p)?;
    let (z, p) = read_u32(input, p)?;
    Ok(((x, y, z), p))
}

/// Parses the payload of a `SIZE` chunk, which must be used up exactly.
pub fn chunk_size_all(input: &[u8]) -> (r: Result<(u32, u32, u32), VoxErrorKind>)
    ensures
        r == all_consumed(spec_size(input@, 0), input@),
{
    let (v, p) = chunk_size(input, 0)?;
    if p != input.len() {
        return Err(VoxErrorKind::TrailingBytes);
    }
    Ok(v)
}

/// Reads `n` quadruples starting at `pos`.
fn quads(input: &[u8], pos: usize, n: usize) -> (r: Vec<(u8, u8, u8, u8)>)
    requires
        pos + 4 * n <= input@.len(),
    ensures
        r@ == Seq::new(n as nat, |i: int| quad_at(input@, pos + 4 * i)),
{
    let mut r: Vec<(u8, u8, u8, u8)> = Vec::new();
    let mut i: usize = 0;
    let len = input.len();
    while i < n
        invariant
            i <= n,
            len == input@.len(),
            pos + 4 * n <= input@.len(),
            r@ == Seq::new(i as nat, |k: int| quad_at(input@, pos + 4 * k)),
        decreases n - i,
    {
        assert(4 * i + 4 <= 4 * n) by (nonlinear_arith)
            requires
                i < n,
        ;
        let q = pos + 4 * i;
        r.push((input[q], input[q + 1], input[q + 2], input[q + 3]));
        i += 1;
        assert(r@ =~= Seq::new(i as nat, |k: int| quad_at(input@, pos + 4 * k)));
    }
    r
}

/// Parses the payload of the `XYZI` chunk: the voxels of one model.
pub fn chunk_xyzi(input: &[u8], pos: usize) -> (r: Result<(Vec<(u8, u8, u8, u8)>, usize), VoxErrorKind>)
    ensures
        match r {
            Ok((v, p)) => spec_xyzi(input@, pos as int) == Ok::<(Seq<(u8, u8, u8, u8)>, int), VoxErrorKind>((v@, p as int)),
            Err(e) => spec_xyzi(input@, pos as int) == Err::<(Seq<(u8, u8, u8, u8)>, int), VoxErrorKind>(e),
        },
{
    let (n, p) = read_u32(input, pos)?;
    if (input.len() - p) / 4 < n as usize {
        return Err(VoxErrorKind::UnexpectedEnd);
    }
    let v = quads(input, p, n as usize);
    Ok((v, p + 4 * n as usize))
}

/// Parses the payload of a `XYZI` chunk, which must be used up exactly.
pub fn chunk_xyzi_all(input: &[u8]) -> (r: Result<Vec<(u8, u8, u8, u8)>, VoxErrorKind>)
    ensures
        match r {
            Ok(v) => all_consumed(spec_xyzi(input@, 0), input@) == Ok::<Seq<(u8, u8, u8, u8)>, VoxErrorKind>(v@),
            Err(e) => all_consumed(spec_xyzi(input@, 0), input@) == Err::<Seq<(u8, u8, u8, u8)>, VoxErrorKind>(e),
        },
{
    let (v, p) = chunk_xyzi(input, 0)?;
    if p != input.len() {
        return Err(VoxErrorKind::TrailingBytes);
    }
    Ok(v)
}

/// Parses the payload of the `RGBA` chunk: the colors of the palette. Only
/// the colors, not the materials.
pub fn chunk_rgba(input: &[u8], pos: usize) -> (r: Result<(Vec<(u8, u8, u8, u8)>, usize), VoxErrorKind>)
    ensures
        match r {
            Ok((v, p)) => spec_rgba(input@, pos as int) == Ok::<(Seq<(u8, u8, u8, u8)>, int), VoxErrorKind>((v@, p as int)),
            Err(e) => spec_rgba(input@, pos as int) == Err::<(Seq<(u8, u8, u8, u8)>, int), VoxErrorKind>(e),
        },
{
    if pos > input.len() || input.len() - pos < 1024 {
        return Err(VoxErrorKind::UnexpectedEnd);
    }
    let v = quads(input, pos, 255);
    Ok((v, pos + 1024))
}

/// Parses the payload of a `RGBA` chunk, which must be used up exactly.
pub fn chunk_rgba_all(input: &[u8]) -> (r: Result<Vec<(u8, u8, u8, u8)>, VoxErrorKind>)
    ensures
        match r {
            Ok(v) => all_consumed(spec_rgba(input@, 0), input@) == Ok::<Seq<(u8, u8, u8, u8)>, VoxErrorKind>(v@),
            Err(e) => all_consumed(spec_rgba(input@, 0), input@) == Err::<Seq<(u8, u8, u8, u8)>, VoxErrorKind>(e),
        },
{
    let (v, p) = chunk_rgba(input, 0)?;
    if p != input.len() {
        return Err(VoxErrorKind::TrailingBytes);
    }
    Ok(v)
}

} // verus!
