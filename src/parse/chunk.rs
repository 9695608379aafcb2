//! The generic chunk container: tag, payload length, children length, payload,
//! children; and the file framing around the `MAIN` chunk.

use vstd::prelude::*;
use crate::data::chunks::{RawChunk, RawChunkView, raw_view, raw_views, tag_main};
use crate::parse::error::VoxErrorKind;
use crate::parse::helpers::{spec_u32, read_u32, copy_range};

verus! {

/// The bytes of an optional fixed tag.
pub open spec fn opt_tag(t: Option<[u8; 4]>) -> Option<Seq<u8>> {
    match t {
        Some(t) => Some(t@),
        None => None,
    }
}

/// Reads one chunk at the start of `s`: its tag (checked against `known` if
/// given), the payload length `N` and children length `M`, `N` payload bytes,
/// then `M` bytes that must hold whole chunks back to back. Gives the chunk and
/// the number of bytes it took.
pub open spec fn spec_raw_chunk(known: Option<Seq<u8>>, s: Seq<u8>) -> Result<(RawChunkView, int), VoxErrorKind>
    decreases s.len(), 0int,
{
    if s.len() < 4 {
        Err(VoxErrorKind::UnexpectedEnd)
    } else if known is Some && s.subrange(0, 4) != known.unwrap() {
        Err(VoxErrorKind::InvalidTag)
    } else {
        match (spec_u32(s, 4), spec_u32(s, 8)) {
            (Err(e), _) => Err(e),
            (_, Err(e)) => Err(e),
            (Ok((n, _)), Ok((m, _))) => if 12 + n + m > s.len() {
                Err(VoxErrorKind::UnexpectedEnd)
            } else {
                match spec_children(s.subrange(12 + n, 12 + n + m)) {
                    Err(e) => Err(e),
                    Ok(cs) => Ok((RawChunkView { tag: s.subrange(0, 4), payload: s.subrange(12, 12 + n), children: cs }, 12 + n + m)),
                }
            },
        }
    }
}

/// Reads chunks back to back until `s` is used up exactly.
pub open spec fn spec_children(s: Seq<u8>) -> Result<Seq<RawChunkView>, VoxErrorKind>
    decreases s.len(), 1int,
{
    if s.len() == 0 {
        Ok(Seq::empty())
    } else {
        match spec_raw_chunk(None, s) {
            Err(e) => Err(e),
            Ok((c, n)) => if n <= 0 || n > s.len() {
                Err(VoxErrorKind::UnexpectedEnd)
            } else {
                match spec_children(s.subrange(n, s.len() as int)) {
                    Err(e) => Err(e),
                    Ok(cs) => Ok(seq![c] + cs),
                }
            },
        }
    }
}

/// The magic bytes at the start of a file: `VOX `.
pub open spec fn magic() -> Seq<u8> {
    seq![86u8, 79, 88, 32]
}

/// Reads a file: the magic `VOX `, the version (which must be 150), then the
/// `MAIN` chunk, which has no payload. Gives its children and the number of
/// bytes taken.
pub open spec fn spec_file_raw(s: Seq<u8>) -> Result<(Seq<RawChunkView>, int), VoxErrorKind> {
    if s.len() < 4 {
        Err(VoxErrorKind::UnexpectedEnd)
    } else if s.subrange(0, 4) != magic() {
        Err(VoxErrorKind::InvalidTag)
    } else {
        match spec_u32(s, 4) {
            Err(e) => Err(e),
            Ok((v, _)) => if v != 150 {
                Err(VoxErrorKind::FileVersionUnknown(v))
            } else {
                match spec_raw_chunk(Some(tag_main()), s.subrange(8, s.len() as int)) {
                    Err(e) => Err(e),
                    Ok((c, n)) => if c.payload.len() > 0 {
                        Err(VoxErrorKind::InvalidMainChunk)
                    } else {
                        Ok((c.children, 8 + n))
                    },
                }
            },
        }
    }
}

/// Parses a raw chunk at the start of `input`, giving it and the number of
/// bytes it took.
///
/// If a tag is given, parsing fails when the chunk's tag differs.
pub fn raw_chunk(known_tag: Option<[u8; 4]>, input: &[u8]) -> (r: Result<(RawChunk, usize), VoxErrorKind>)
    ensures
        match r {
            Ok((c, n)) => spec_raw_chunk(opt_tag(known_tag), input@) == Ok::<(RawChunkView, int), VoxErrorKind>((raw_view(c), n as int)),
            Err(e) => spec_raw_chunk(opt_tag(known_tag), input@) == Err::<(RawChunkView, int), VoxErrorKind>(e),
        },
    decreases input@.len(), 0int,
{
    if input.len() < 4 {
        return Err(VoxErrorKind::UnexpectedEnd);
    }
    let tag = copy4(input);
    if let Some(t) = known_tag {
        if !(t[0] == tag[0] && t[1] == tag[1] && t[2] == tag[2] && t[3] == tag[3]) {
            assert(input@.subrange(0, 4) != t@) by {
                assert(input@.subrange(0, 4)[0] == tag[0]);
                assert(input@.subrange(0, 4)[1] == tag[1]);
                assert(input@.subrange(0, 4)[2] == tag[2]);
                assert(input@.subrange(0, 4)[3] == tag[3]);
            }
            return Err(VoxErrorKind::InvalidTag);
        }
        assert(input@.subrange(0, 4) =~= t@);
    }
    let (n, _) = read_u32(input, 4)?;
    let (m, _) = read_u32(input, 8)?;
    if input.len() - 12 < n as usize || input.len() - 12 - (n as usize) < m as usize {
        return Err(VoxErrorKind::UnexpectedEnd);
    }
    let pay_end = 12 + n as usize;
    let end = pay_end + m as usize;
    let payload_data = copy_range(input, 12, pay_end);
    let children = children(&input[pay_end..end])?;
    let c = RawChunk { tag, payload_data, children };
    assert(raw_view(c).tag =~= input@.subrange(0, 4));
    Ok((c, end))
}

/// Parses chunks back to back until `input` is used up exactly.
pub fn children(input: &[u8]) -> (r: Result<Vec<RawChunk>, VoxErrorKind>)
    ensures
        match r {
            Ok(cs) => spec_children(input@) == Ok::<Seq<RawChunkView>, VoxErrorKind>(raw_views(cs@)),
            Err(e) => spec_children(input@) == Err::<Seq<RawChunkView>, VoxErrorKind>(e),
        },
    decreases input@.len(), 1int,
{
    let mut res: Vec<RawChunk> = Vec::new();
    let mut pos: usize = 0;
    assert(input@.subrange(0, input@.len() as int) =~= input@);
    while pos < input.len()
        invariant
            pos <= input@.len(),
            spec_children(input@) == (match spec_children(input@.subrange(pos as int, input@.len() as int)) {
                Ok(cs) => Ok::<Seq<RawChunkView>, VoxErrorKind>(raw_views(res@) + cs),
                Err(e) => Err(e),
            }),
        decreases input@.len() - pos,
    {
        let ghost rest = input@.subrange(pos as int, input@.len() as int);
        let sub = &input[pos..input.len()];
        assert(sub@ == rest);
        let (c, n) = raw_chunk(None, sub)?;
        assert(rest.subrange(n as int, rest.len() as int) =~= input@.subrange(pos + n, input@.len() as int));
        let ghost before = res@;
        res.push(c);
        proof {
            assert(res@.drop_last() =~= before);
            assert(raw_views(res@) == raw_views(before).push(raw_view(c)));
            match spec_children(input@.subrange(pos + n, input@.len() as int)) {
                Ok(cs) => {
                    assert(raw_views(before) + (seq![raw_view(c)] + cs) =~= raw_views(res@) + cs);
                },
                Err(e) => {},
            }
        }
        pos = pos + n;
    }
    proof {
        assert(input@.subrange(pos as int, input@.len() as int) =~= Seq::<u8>::empty());
        assert(raw_views(res@) + Seq::<RawChunkView>::empty() =~= raw_views(res@));
    }
    Ok(res)
}

/// The first four bytes, as a tag.
fn copy4(a: &[u8]) -> (r: [u8; 4])
    requires
        a@.len() >= 4,
    ensures
        r@ == a@.subrange(0, 4),
{
    let r = [a[0], a[1], a[2], a[3]];
    assert(r@ =~= a@.subrange(0, 4));
    r
}

/// Parses a `.vox` file into its top-level raw chunks, giving them and the
/// number of bytes taken.
pub fn file_raw(input: &[u8]) -> (r: Result<(Vec<RawChunk>, usize), VoxErrorKind>)
    ensures
        match r {
            Ok((cs, n)) => spec_file_raw(input@) == Ok::<(Seq<RawChunkView>, int), VoxErrorKind>((raw_views(cs@), n as int)),
            Err(e) => spec_file_raw(input@) == Err::<(Seq<RawChunkView>, int), VoxErrorKind>(e),
        },
{
    if input.len() < 4 {
        return Err(VoxErrorKind::UnexpectedEnd);
    }
    if !(input[0] == 86 && input[1] == 79 && input[2] == 88 && input[3] == 32) {
        assert(input@.subrange(0, 4) != magic()) by {
            assert(input@.subrange(0, 4)[0] == input@[0]);
            assert(input@.subrange(0, 4)[1] == input@[1]);
            assert(input@.subrange(0, 4)[2] == input@[2]);
            assert(input@.subrange(0, 4)[3] == input@[3]);
        }
        return Err(VoxErrorKind::InvalidTag);
    }
    assert(input@.subrange(0, 4) =~= magic());
    let (version, _) = read_u32(input, 4)?;
    if version != 150 {
        return Err(VoxErrorKind::FileVersionUnknown(version));
    }
    let main_tag: [u8; 4] = [77, 65, 73, 78];
    assert(main_tag@ =~= tag_main());
    let rest = &input[8..input.len()];
    let (main_chunk, n) = raw_chunk(Some(main_tag), rest)?;
    if main_chunk.payload_data.len() > 0 {
        return Err(VoxErrorKind::InvalidMainChunk);
    }
    Ok((main_chunk.children, 8 + n))
}

} // verus!
