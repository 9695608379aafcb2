//! Decoding a chunk's payload by its tag.

use vstd::prelude::*;
use crate::data::chunks::{Chunk, Matt, tag_pack, tag_size, tag_xyzi, tag_rgba, tag_matt, tag_ntrn,
    tag_ngrp, tag_nshp, tag_matl, tag_layr};
use crate::parse::error::VoxErrorKind;
use crate::parse::helpers::spec_u32;
use crate::parse::chunk_model::{all_consumed, spec_size, spec_xyzi, spec_rgba, chunk_pack_all,
    chunk_size_all, chunk_xyzi_all, chunk_rgba_all};
use crate::parse::chunk_scene::{TransformView, GroupView, ShapeView, LayrView, transform_view,
    group_view, shape_view, layr_view, spec_ntrn, spec_ngrp, spec_nshp, spec_layr, chunk_ntrn_all,
    chunk_ngrp_all, chunk_nshp_all, chunk_layr_all};
use crate::parse::chunk_material::{spec_matt, spec_matl_head, matl_from, matl_props_fail,
    chunk_matt_all, chunk_matl_all};

verus! {

/// `c` is a decoding of the payload `s` under tag `t` that uses all of `s`.
pub open spec fn chunk_decodes<F: Fn(&str) -> Option<u32>>(read_f32: F, t: Seq<u8>, s: Seq<u8>, c: Chunk) -> bool {
    match c {
        Chunk::PACK(v) => t == tag_pack() && all_consumed(spec_u32(s, 0), s) == Ok::<u32, VoxErrorKind>(v),
        Chunk::SIZE(v) => t == tag_size() && all_consumed(spec_size(s, 0), s) == Ok::<(u32, u32, u32), VoxErrorKind>(v),
        Chunk::XYZI(v) => t == tag_xyzi() && all_consumed(spec_xyzi(s, 0), s) == Ok::<Seq<(u8, u8, u8, u8)>, VoxErrorKind>(v@),
        Chunk::RGBA(v) => t == tag_rgba() && all_consumed(spec_rgba(s, 0), s) == Ok::<Seq<(u8, u8, u8, u8)>, VoxErrorKind>(v@),
        Chunk::MATT(v) => t == tag_matt() && all_consumed(spec_matt(s, 0), s) == Ok::<Matt, VoxErrorKind>(v),
        Chunk::NTRN(v) => t == tag_ntrn() && all_consumed(spec_ntrn(s, 0), s) == Ok::<TransformView, VoxErrorKind>(transform_view(v)),
        Chunk::NGRP(v) => t == tag_ngrp() && all_consumed(spec_ngrp(s, 0), s) == Ok::<GroupView, VoxErrorKind>(group_view(v)),
        Chunk::NSHP(v) => t == tag_nshp() && all_consumed(spec_nshp(s, 0), s) == Ok::<ShapeView, VoxErrorKind>(shape_view(v)),
        Chunk::MATL(v) => t == tag_matl() && match spec_matl_head(s, 0) {
            Ok((id, d, ty, end)) => end == s.len() && matl_from(read_f32, id, d, ty, v),
            Err(_) => false,
        },
        Chunk::LAYR(v) => t == tag_layr() && all_consumed(spec_layr(s, 0), s) == Ok::<LayrView, VoxErrorKind>(layr_view(v)),
    }
}

/// The known tags.
pub open spec fn known_tag(t: Seq<u8>) -> bool {
    t == tag_pack() || t == tag_size() || t == tag_xyzi() || t == tag_rgba() || t == tag_matt()
        || t == tag_ntrn() || t == tag_ngrp() || t == tag_nshp() || t == tag_matl() || t == tag_layr()
}

/// `e` is how decoding the payload `s` under tag `t` fails.
pub open spec fn chunk_fails<F: Fn(&str) -> Option<u32>>(read_f32: F, tag: [u8; 4], s: Seq<u8>, e: VoxErrorKind) -> bool {
    let t = tag@;
    if t == tag_pack() {
        all_consumed(spec_u32(s, 0), s) == Err::<u32, VoxErrorKind>(e)
    } else if t == tag_size() {
        all_consumed(spec_size(s, 0), s) == Err::<(u32, u32, u32), VoxErrorKind>(e)
    } else if t == tag_xyzi() {
        all_consumed(spec_xyzi(s, 0), s) == Err::<Seq<(u8, u8, u8, u8)>, VoxErrorKind>(e)
    } else if t == tag_rgba() {
        all_consumed(spec_rgba(s, 0), s) == Err::<Seq<(u8, u8, u8, u8)>, VoxErrorKind>(e)
    } else if t == tag_matt() {
        all_consumed(spec_matt(s, 0), s) == Err::<Matt, VoxErrorKind>(e)
    } else if t == tag_ntrn() {
        all_consumed(spec_ntrn(s, 0), s) == Err::<TransformView, VoxErrorKind>(e)
    } else if t == tag_ngrp() {
        all_consumed(spec_ngrp(s, 0), s) == Err::<GroupView, VoxErrorKind>(e)
    } else if t == tag_nshp() {
        all_consumed(spec_nshp(s, 0), s) == Err::<ShapeView, VoxErrorKind>(e)
    } else if t == tag_matl() {
        match spec_matl_head(s, 0) {
            Ok((_, d, _, end)) => (e == VoxErrorKind::InvalidMatlProperty && matl_props_fail(read_f32, d))
                || (e == VoxErrorKind::TrailingBytes && end != s.len()),
            Err(e2) => e == e2,
        }
    } else if t == tag_layr() {
        all_consumed(spec_layr(s, 0), s) == Err::<LayrView, VoxErrorKind>(e)
    } else {
        e == VoxErrorKind::UnknownChunk(tag)
    }
}

/// `true` iff the tag's bytes are `a b c d`.
fn tag_is(tag: [u8; 4], a: u8, b: u8, c: u8, d: u8) -> (r: bool)
    ensures
        r == (tag@ == seq![a, b, c, d]),
{
    let r = tag[0] == a && tag[1] == b && tag[2] == c && tag[3] == d;
    if r {
        assert(tag@ =~= seq![a, b, c, d]);
    } else {
        assert(tag@ != seq![a, b, c, d]) by {
            if tag@ == seq![a, b, c, d] {
                assert(tag@[0] == a && tag@[1] == b && tag@[2] == c && tag@[3] == d);
            }
        }
    }
    r
}

/// Decodes the payload of a chunk by its tag. The payload must be used up
/// exactly; an unknown tag gives [`VoxErrorKind::UnknownChunk`]. The decimal
/// text of `MATL` floats is turned into float bits by `read_f32`.
#[verifier::rlimit(50)]
pub fn chunk<F: Fn(&str) -> Option<u32>>(tag: [u8; 4], input: &[u8], read_f32: &F) -> (r: Result<Chunk, VoxErrorKind>)
    requires
        forall|x: &str| #[trigger] read_f32.requires((x,)),
    ensures
        match r {
            Ok(c) => chunk_decodes(*read_f32, tag@, input@, c),
            Err(e) => chunk_fails(*read_f32, tag, input@, e),
        },
{
    if tag_is(tag, 80, 65, 67, 75) {
        Ok(Chunk::PACK(chunk_pack_all(input)?))
    } else if tag_is(tag, 83, 73, 90, 69) {
        Ok(Chunk::SIZE(chunk_size_all(input)?))
    } else if tag_is(tag, 88, 89, 90, 73) {
        Ok(Chunk::XYZI(chunk_xyzi_all(input)?))
    } else if tag_is(tag, 82, 71, 66, 65) {
        Ok(Chunk::RGBA(chunk_rgba_all(input)?))
    } else if tag_is(tag, 77, 65, 84, 84) {
        Ok(Chunk::MATT(chunk_matt_all(input)?))
    } else if tag_is(tag, 110, 84, 82, 78) {
        Ok(Chunk::NTRN(chunk_ntrn_all(input)?))
    } else if tag_is(tag, 110, 71, 82, 80) {
        Ok(Chunk::NGRP(chunk_ngrp_all(input)?))
    } else if tag_is(tag, 110, 83, 72, 80) {
        Ok(Chunk::NSHP(chunk_nshp_all(input)?))
    } else if tag_is(tag, 77, 65, 84, 76) {
        Ok(Chunk::MATL(chunk_matl_all(input, read_f32)?))
    } else if tag_is(tag, 76, 65, 89, 82) {
        Ok(Chunk::LAYR(chunk_layr_all(input)?))
    } else {
        Err(VoxErrorKind::UnknownChunk(tag))
    }
}

} // verus!
