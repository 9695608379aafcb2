//! Writers of the chunk payloads, one per tag.

use vstd::prelude::*;
use vstd::utf8::{encode_utf8, decode_utf8};
use crate::data::chunks::{Chunk, Dict, Matt, MattType, TransformNode, GroupNode, ShapeNode, Matl, MatlType, Layr};
use crate::data::special::MatRowCols;
use crate::parse::special::dict_view;
use crate::parse::chunk_scene::opt_text;
use crate::unparse::helpers::{le_u32, u32_le_bytes};
use crate::unparse::special::{dict, dict_bytes, dict_fits, utf8_len, rotation_u8, rotation_byte};
use crate::unparse::text::{decimal_bytes, translation_bytes, decimal_text, translation_string, lemma_ascii_text,
    lemma_decimal_ascii, lemma_u32_digits, lemma_translation_ascii, lemma_unsigned_round_trip, lemma_translation_round_trip};
use crate::unparse::special::lemma_rotation_round_trip;
use crate::parse::chunk_scene::{TransformView, spec_ntrn, spec_ntrn_frame, transform_view, spec_rotation_attr, spec_translation_attr};
use crate::unparse::helpers::lemma_u32_round_trip;
use crate::parse::helpers::spec_u32;
use crate::parse::error::VoxErrorKind;
use crate::parse::chunk_model::{all_consumed, quad_at, spec_size, spec_xyzi, spec_rgba};
use crate::parse::chunk_scene::{GroupView, ShapeView, LayrView, spec_ngrp, spec_nshp, spec_layr, group_view, shape_view, layr_view};
use crate::parse::special::dict_get;
use crate::parse::number::spec_unsigned;
use crate::parse::chunk_material::{spec_matt, spec_matt_props, spec_matt_type, bit_set, matt_prop_ok, in_unit_open_closed, is_zero_or_one};
use crate::parse::helpers::u32_at;
use crate::unparse::special::{lemma_dict_round_trip, lemma_sub_of_sub};

verus! {

/// The UTF-8 encoding of a text takes at most four bytes per character.
pub proof fn lemma_utf8_len_bound(s: Seq<char>)
    ensures
        utf8_len(s) <= 4 * s.len(),
    decreases s.len(),
{
    if s.len() > 0 {
        lemma_utf8_len_bound(s.drop_first());
    }
}

/// `PACK`: the model count.
pub open spec fn pack_bytes(n: u32) -> Seq<u8> {
    u32_le_bytes(n)
}

/// `SIZE`: x, y, z.
pub open spec fn size_bytes(s: (u32, u32, u32)) -> Seq<u8> {
    u32_le_bytes(s.0) + u32_le_bytes(s.1) + u32_le_bytes(s.2)
}

/// Quadruples, four bytes each.
pub open spec fn quads_bytes(v: Seq<(u8, u8, u8, u8)>) -> Seq<u8>
    decreases v.len(),
{
    if v.len() == 0 {
        Seq::empty()
    } else {
        quads_bytes(v.drop_last()) + seq![v.last().0, v.last().1, v.last().2, v.last().3]
    }
}

/// `XYZI`: the voxel count, then the voxels.
pub open spec fn xyzi_bytes(v: Seq<(u8, u8, u8, u8)>) -> Seq<u8> {
    u32_le_bytes(v.len() as u32) + quads_bytes(v)
}

/// `RGBA`: the 255 colors, then one unused quadruple of zeros.
pub open spec fn rgba_bytes(v: Seq<(u8, u8, u8, u8)>) -> Seq<u8> {
    quads_bytes(v) + seq![0u8, 0, 0, 0]
}

/// The optional float properties of a `MATT`, in file order.
pub open spec fn matt_props(m: Matt) -> Seq<Option<u32>> {
    seq![m.prop_plastic, m.prop_roughness, m.prop_specular, m.prop_ior, m.prop_attenuation,
        m.prop_power, m.prop_glow]
}

/// The property bits of a `MATT`: bit `k` for each present property, bit 7
/// for the total power.
pub open spec fn matt_bits(m: Matt) -> u32 {
    flag(m.prop_plastic is Some) | (flag(m.prop_roughness is Some) << 1u32) | (flag(m.prop_specular is Some) << 2u32)
        | (flag(m.prop_ior is Some) << 3u32) | (flag(m.prop_attenuation is Some) << 4u32)
        | (flag(m.prop_power is Some) << 5u32) | (flag(m.prop_glow is Some) << 6u32)
        | (flag(m.prop_is_total_power) << 7u32)
}

/// 1 for `true`, 0 for `false`.
pub open spec fn flag(b: bool) -> u32 {
    if b { 1 } else { 0 }
}

/// The present properties, four bytes each.
pub open spec fn props_bytes(ps: Seq<Option<u32>>) -> Seq<u8>
    decreases ps.len(),
{
    if ps.len() == 0 {
        Seq::empty()
    } else {
        props_bytes(ps.drop_last()) + match ps.last() {
            Some(v) => u32_le_bytes(v),
            None => Seq::empty(),
        }
    }
}

/// The type code and weight of a `MATT` type; diffuse has weight 1.0.
pub open spec fn matt_type_code(t: MattType) -> (u32, u32) {
    match t {
        MattType::Diffuse => (0, 0x3F80_0000),
        MattType::Metal(w) => (1, w),
        MattType::Glass(w) => (2, w),
        MattType::Emissive(w) => (3, w),
    }
}

/// `MATT`: id, type, weight, property bits, properties.
pub open spec fn matt_bytes(m: Matt) -> Seq<u8> {
    u32_le_bytes(m.id as u32) + u32_le_bytes(matt_type_code(m.matt_type).0)
        + u32_le_bytes(matt_type_code(m.matt_type).1) + u32_le_bytes(matt_bits(m)) + props_bytes(matt_props(m))
}

/// The node attributes of a `nTRN`: its name if any, `_hidden` if hidden.
pub open spec fn ntrn_attrs(t: TransformNode) -> Seq<(Seq<char>, Seq<char>)> {
    (match opt_text(t.name) {
        Some(n) => seq![("_name"@, n)],
        None => Seq::empty(),
    }) + (if t.is_hidden { seq![("_hidden"@, "1"@)] } else { Seq::empty() })
}

/// The frame attributes of a `nTRN`: `_r` unless the rotation is the
/// identity, `_t` unless the translation is zero.
pub open spec fn frame_attrs(t: TransformNode) -> Seq<(Seq<char>, Seq<char>)> {
    (if t.rotation != MatRowCols::OneTwoThree(false, false, false) {
        seq![("_r"@, decode_utf8(decimal_bytes(rotation_byte(t.rotation) as nat)))]
    } else {
        Seq::empty()
    }) + (if t.translation != (0i32, 0i32, 0i32) {
        seq![("_t"@, decode_utf8(translation_bytes(t.translation)))]
    } else {
        Seq::empty()
    })
}

/// `nTRN`: node id, attributes, child id, reserved -1, layer id (-1 for
/// none), one frame, frame attributes.
pub open spec fn ntrn_bytes(t: TransformNode) -> Seq<u8> {
    u32_le_bytes(t.node_id) + dict_bytes(ntrn_attrs(t)) + u32_le_bytes(t.child_node_id)
        + u32_le_bytes(0xFFFF_FFFF) + u32_le_bytes(match t.layer_id { Some(l) => l, None => 0xFFFF_FFFF })
        + u32_le_bytes(1) + dict_bytes(frame_attrs(t))
}

/// `u32`s, four bytes each.
pub open spec fn u32s_bytes(v: Seq<u32>) -> Seq<u8>
    decreases v.len(),
{
    if v.len() == 0 { Seq::empty() } else { u32s_bytes(v.drop_last()) + u32_le_bytes(v.last()) }
}

/// `nGRP`: node id, attributes, child count, child ids.
pub open spec fn ngrp_bytes(g: GroupNode) -> Seq<u8> {
    u32_le_bytes(g.node_id) + dict_bytes(dict_view(g.attributes@)) + u32_le_bytes(g.child_nodes@.len() as u32)
        + u32s_bytes(g.child_nodes@)
}

/// `nSHP`: node id, attributes, model count 1, model id, model attributes.
pub open spec fn nshp_bytes(s: ShapeNode) -> Seq<u8> {
    u32_le_bytes(s.node_id) + dict_bytes(dict_view(s.attributes@)) + u32_le_bytes(1) + u32_le_bytes(s.model_id)
        + dict_bytes(dict_view(s.model_attributes@))
}

/// `LAYR`: id, attributes (`_name` if any, `_is_hidden` if hidden), reserved -1.
pub open spec fn layr_attrs(l: Layr) -> Seq<(Seq<char>, Seq<char>)> {
    (match opt_text(l.name) {
        Some(n) => seq![("_name"@, n)],
        None => Seq::empty(),
    }) + (if l.is_hidden { seq![("_is_hidden"@, "1"@)] } else { Seq::empty() })
}

pub open spec fn layr_bytes(l: Layr) -> Seq<u8> {
    u32_le_bytes(l.id) + dict_bytes(layr_attrs(l)) + u32_le_bytes(0xFFFF_FFFF)
}

/// The `_type` text of a `MATL` type.
pub open spec fn matl_type_text(t: MatlType) -> Seq<char> {
    match t {
        MatlType::Diffuse => "_diffuse"@,
        MatlType::Metal => "_metal"@,
        MatlType::Glass => "_glass"@,
        MatlType::Emit => "_emit"@,
        MatlType::Blend => "_blend"@,
        MatlType::Media => "_media"@,
    }
}

/// Writes the payload of the `PACK` chunk.
pub fn chunk_pack(dst: &mut Vec<u8>, num_models: &u32)
    ensures
        final(dst)@ == old(dst)@ + pack_bytes(*num_models),
{
    le_u32(dst, *num_models);
}

/// Writes the payload of the `SIZE` chunk.
pub fn chunk_size(dst: &mut Vec<u8>, size: &(u32, u32, u32))
    ensures
        final(dst)@ == old(dst)@ + size_bytes(*size),
{
    let (x, y, z) = *size;
    le_u32(dst, x);
    le_u32(dst, y);
    le_u32(dst, z);
    assert(final(dst)@ =~= old(dst)@ + size_bytes(*size));
}

/// Appends quadruples.
fn push_quads(dst: &mut Vec<u8>, v: &Vec<(u8, u8, u8, u8)>)
    ensures
        final(dst)@ == old(dst)@ + quads_bytes(v@),
{
    let ghost start = dst@;
    let mut i: usize = 0;
    assert(v@.subrange(0, 0) =~= Seq::<(u8, u8, u8, u8)>::empty());
    while i < v.len()
        invariant
            i <= v@.len(),
            dst@ == start + quads_bytes(v@.subrange(0, i as int)),
        decreases v@.len() - i,
    {
        let (a, b, c, d) = v[i];
        dst.push(a);
        dst.push(b);
        dst.push(c);
        dst.push(d);
        proof {
            let sub = v@.subrange(0, i + 1);
            assert(sub.drop_last() =~= v@.subrange(0, i as int));
            assert(sub.last() == v@[i as int]);
        }
        i += 1;
        assert(dst@ =~= start + quads_bytes(v@.subrange(0, i as int)));
    }
    assert(v@.subrange(0, v@.len() as int) =~= v@);
}

/// Writes the payload of the `XYZI` chunk.
pub fn chunk_xyzi(dst: &mut Vec<u8>, voxels: &Vec<(u8, u8, u8, u8)>)
    ensures
        final(dst)@ == old(dst)@ + xyzi_bytes(voxels@),
{
    le_u32(dst, voxels.len() as u32);
    push_quads(dst, voxels);
    assert(final(dst)@ =~= old(dst)@ + xyzi_bytes(voxels@));
}

/// Writes the payload of the `RGBA` chunk: the 255 colors and an unused
/// fourth-byte-group of zeros.
pub fn chunk_rgba(dst: &mut Vec<u8>, rgba: &Vec<(u8, u8, u8, u8)>)
    ensures
        final(dst)@ == old(dst)@ + rgba_bytes(rgba@),
{
    push_quads(dst, rgba);
    dst.push(0);
    dst.push(0);
    dst.push(0);
    dst.push(0);
    assert(final(dst)@ =~= old(dst)@ + rgba_bytes(rgba@));
}

/// Writes the payload of the `MATT` chunk.
pub fn chunk_matt(dst: &mut Vec<u8>, m: &Matt)
    ensures
        final(dst)@ == old(dst)@ + matt_bytes(*m),
{
    le_u32(dst, m.id as u32);
    let (code, w): (u32, u32) = match m.matt_type {
        MattType::Diffuse => (0, 0x3F80_0000),
        MattType::Metal(w) => (1, w),
        MattType::Glass(w) => (2, w),
        MattType::Emissive(w) => (3, w),
    };
    le_u32(dst, code);
    le_u32(dst, w);
    le_u32(dst, matt_property_bits(m));
    push_props(dst, m);
    assert(final(dst)@ =~= old(dst)@ + matt_bytes(*m));
}

/// The property bits of a `MATT` (see [`matt_bits`]).
fn matt_property_bits(m: &Matt) -> (r: u32)
    ensures
        r == matt_bits(*m),
{
    let f0: u32 = if m.prop_plastic.is_some() { 1 } else { 0 };
    let f1: u32 = if m.prop_roughness.is_some() { 1 } else { 0 };
    let f2: u32 = if m.prop_specular.is_some() { 1 } else { 0 };
    let f3: u32 = if m.prop_ior.is_some() { 1 } else { 0 };
    let f4: u32 = if m.prop_attenuation.is_some() { 1 } else { 0 };
    let f5: u32 = if m.prop_power.is_some() { 1 } else { 0 };
    let f6: u32 = if m.prop_glow.is_some() { 1 } else { 0 };
    let f7: u32 = if m.prop_is_total_power { 1 } else { 0 };
    f0 | (f1 << 1u32) | (f2 << 2u32) | (f3 << 3u32) | (f4 << 4u32) | (f5 << 5u32) | (f6 << 6u32) | (f7 << 7u32)
}

/// Appends the present `MATT` properties.
fn push_props(dst: &mut Vec<u8>, m: &Matt)
    ensures
        final(dst)@ == old(dst)@ + props_bytes(matt_props(*m)),
{
    let ghost mid = dst@;
    let ps = [m.prop_plastic, m.prop_roughness, m.prop_specular, m.prop_ior, m.prop_attenuation,
        m.prop_power, m.prop_glow];
    assert(ps@ =~= matt_props(*m));
    let mut k: usize = 0;
    assert(ps@.subrange(0, 0) =~= Seq::<Option<u32>>::empty());
    while k < 7
        invariant
            k <= 7,
            ps@.len() == 7,
            dst@ == mid + props_bytes(ps@.subrange(0, k as int)),
        decreases 7 - k,
    {
        if let Some(v) = ps[k] {
            le_u32(dst, v);
        }
        proof {
            let sub = ps@.subrange(0, k + 1);
            assert(sub.drop_last() =~= ps@.subrange(0, k as int));
            assert(sub.last() == ps@[k as int]);
        }
        k += 1;
        assert(dst@ =~= mid + props_bytes(ps@.subrange(0, k as int)));
    }
    assert(ps@.subrange(0, 7) =~= ps@);
}

/// Writes the payload of the `nTRN` chunk. Attributes at their defaults
/// (no name, not hidden, identity rotation, zero translation) are left out.
pub fn chunk_ntrn(dst: &mut Vec<u8>, t: &TransformNode)
    ensures
        final(dst)@ == old(dst)@ + ntrn_bytes(*t),
{
    le_u32(dst, t.node_id);
    let ghost a = dst@;
    ntrn_node_attrs(dst, t);
    let ghost b = dst@;
    le_u32(dst, t.child_node_id);
    le_u32(dst, 0xFFFF_FFFF);
    le_u32(dst, match t.layer_id { Some(l) => l, None => 0xFFFF_FFFF });
    le_u32(dst, 1);
    let ghost c = dst@;
    ntrn_frame_attrs(dst, t);
    assert(final(dst)@ =~= old(dst)@ + ntrn_bytes(*t));
}

/// Appends the node attributes of a `nTRN`.
fn ntrn_node_attrs(dst: &mut Vec<u8>, t: &TransformNode)
    ensures
        final(dst)@ == old(dst)@ + dict_bytes(ntrn_attrs(*t)),
{
    let mut attributes: Dict = Vec::new();
    if let Some(name) = &t.name {
        attributes.push(("_name".to_owned(), name.clone()));
    }
    if t.is_hidden {
        attributes.push(("_hidden".to_owned(), "1".to_owned()));
    }
    proof {
        assert(dict_view(attributes@) =~= ntrn_attrs(*t));
    }
    dict(dst, &attributes);
}

/// Appends the frame attributes of a `nTRN`.
fn ntrn_frame_attrs(dst: &mut Vec<u8>, t: &TransformNode)
    ensures
        final(dst)@ == old(dst)@ + dict_bytes(frame_attrs(*t)),
{
    let mut frame: Dict = Vec::new();
    if !t.rotation.is_identity() {
        frame.push(("_r".to_owned(), decimal_text(rotation_u8(t.rotation) as u32)));
    }
    if !(t.translation.0 == 0 && t.translation.1 == 0 && t.translation.2 == 0) {
        frame.push(("_t".to_owned(), translation_string(t.translation)));
    }
    proof {
        assert(dict_view(frame@) =~= frame_attrs(*t));
    }
    dict(dst, &frame);
}

/// Appends `u32`s.
fn push_u32s(dst: &mut Vec<u8>, v: &Vec<u32>)
    ensures
        final(dst)@ == old(dst)@ + u32s_bytes(v@),
{
    let ghost start = dst@;
    let mut i: usize = 0;
    assert(v@.subrange(0, 0) =~= Seq::<u32>::empty());
    while i < v.len()
        invariant
            i <= v@.len(),
            dst@ == start + u32s_bytes(v@.subrange(0, i as int)),
        decreases v@.len() - i,
    {
        le_u32(dst, v[i]);
        proof {
            let sub = v@.subrange(0, i + 1);
            assert(sub.drop_last() =~= v@.subrange(0, i as int));
        }
        i += 1;
        assert(dst@ =~= start + u32s_bytes(v@.subrange(0, i as int)));
    }
    assert(v@.subrange(0, v@.len() as int) =~= v@);
}

/// Writes the payload of the `nGRP` chunk.
pub fn chunk_ngrp(dst: &mut Vec<u8>, g: &GroupNode)
    ensures
        final(dst)@ == old(dst)@ + ngrp_bytes(*g),
{
    le_u32(dst, g.node_id);
    dict(dst, &g.attributes);
    le_u32(dst, g.child_nodes.len() as u32);
    push_u32s(dst, &g.child_nodes);
    assert(final(dst)@ =~= old(dst)@ + ngrp_bytes(*g));
}

/// Writes the payload of the `nSHP` chunk (one model).
pub fn chunk_nshp(dst: &mut Vec<u8>, s: &ShapeNode)
    ensures
        final(dst)@ == old(dst)@ + nshp_bytes(*s),
{
    le_u32(dst, s.node_id);
    dict(dst, &s.attributes);
    le_u32(dst, 1);
    le_u32(dst, s.model_id);
    dict(dst, &s.model_attributes);
    assert(final(dst)@ =~= old(dst)@ + nshp_bytes(*s));
}

/// Writes the payload of the `LAYR` chunk.
pub fn chunk_layr(dst: &mut Vec<u8>, l: &Layr)
    ensures
        final(dst)@ == old(dst)@ + layr_bytes(*l),
{
    le_u32(dst, l.id);
    let mut attributes: Dict = Vec::new();
    if let Some(name) = &l.name {
        attributes.push(("_name".to_owned(), name.clone()));
    }
    if l.is_hidden {
        attributes.push(("_is_hidden".to_owned(), "1".to_owned()));
    }
    proof {
        assert(dict_view(attributes@) =~= layr_attrs(*l));
    }
    dict(dst, &attributes);
    le_u32(dst, 0xFFFF_FFFF);
    assert(final(dst)@ =~= old(dst)@ + layr_bytes(*l));
}

/// `write_f32` can turn the float bits `b` into the text `t`.
pub open spec fn writes_f32<G: Fn(u32) -> String>(write_f32: G, b: u32, t: Seq<char>) -> bool {
    exists|s: String| s@ == t && #[trigger] write_f32.ensures((b,), s)
}

/// The pair `(k, t)` if the property is present.
pub open spec fn opt_pair(k: Seq<char>, v: Option<u32>, t: Seq<char>) -> Seq<(Seq<char>, Seq<char>)> {
    match v {
        Some(_) => seq![(k, t)],
        None => Seq::empty(),
    }
}

/// The float properties of a `MATL` in the order they are written, with
/// their keys.
pub open spec fn matl_out_floats(m: Matl) -> Seq<Option<u32>> {
    seq![m.prop_weight, m.prop_rough, m.prop_spec, m.prop_ior, m.prop_att, m.prop_density,
        m.prop_alpha, m.prop_emit, m.prop_ldr, m.prop_metal]
}

/// The first five float properties of a `MATL` (`_weight`, `_rough`,
/// `_spec`, `_ior`, `_att`) with their texts `ts`.
pub open spec fn matl_front(m: Matl, ts: Seq<Seq<char>>) -> Seq<(Seq<char>, Seq<char>)> {
    opt_pair("_weight"@, m.prop_weight, ts[0])
        + opt_pair("_rough"@, m.prop_rough, ts[1])
        + opt_pair("_spec"@, m.prop_spec, ts[2])
        + opt_pair("_ior"@, m.prop_ior, ts[3])
        + opt_pair("_att"@, m.prop_att, ts[4])
}

/// The last five float properties of a `MATL` (`_d`, `_alpha`, `_emit`,
/// `_ldr`, `_metal`) with their texts `ts`.
pub open spec fn matl_back(m: Matl, ts: Seq<Seq<char>>) -> Seq<(Seq<char>, Seq<char>)> {
    opt_pair("_d"@, m.prop_density, ts[0])
        + opt_pair("_alpha"@, m.prop_alpha, ts[1])
        + opt_pair("_emit"@, m.prop_emit, ts[2])
        + opt_pair("_ldr"@, m.prop_ldr, ts[3])
        + opt_pair("_metal"@, m.prop_metal, ts[4])
}

/// The `_flux` pair, in decimal, if present.
pub open spec fn flux_pair(m: Matl) -> Seq<(Seq<char>, Seq<char>)> {
    match m.prop_flux {
        Some(f) => seq![("_flux"@, decode_utf8(decimal_bytes(f as nat)))],
        None => Seq::empty(),
    }
}

/// The attributes of a `MATL` whose float texts are `ts` (in the order of
/// [`matl_out_floats`]): `_type`, each present property, and `_plastic`.
pub open spec fn matl_attrs(m: Matl, ts: Seq<Seq<char>>) -> Seq<(Seq<char>, Seq<char>)> {
    seq![("_type"@, matl_type_text(m.prop_type))] + matl_front(m, ts.subrange(0, 5)) + flux_pair(m)
        + matl_back(m, ts.subrange(5, 10)) + seq![("_plastic"@, if m.prop_plastic { "1"@ } else { "0"@ })]
}

/// `bytes` is a `MATL` payload for `m`, its floats written by `write_f32`.
pub open spec fn matl_written<G: Fn(u32) -> String>(write_f32: G, m: Matl, bytes: Seq<u8>) -> bool {
    exists|ts: Seq<Seq<char>>| #[trigger] ts.len() == 10
        && bytes == u32_le_bytes(m.id as u32) + dict_bytes(matl_attrs(m, ts))
        && forall|k: int| 0 <= k < 10 && matl_out_floats(m)[k] is Some
            ==> writes_f32(write_f32, matl_out_floats(m)[k].unwrap(), #[trigger] ts[k])
}

/// `write_f32` accepts every bit pattern.
pub open spec fn writes_any<G: Fn(u32) -> String>(write_f32: G) -> bool {
    forall|b: u32| #[trigger] write_f32.requires((b,))
}

/// Appends the pair for an optional float property.
fn push_float<G: Fn(u32) -> String>(d: &mut Dict, key: &str, v: Option<u32>, write_f32: &G) -> (t: Ghost<Seq<char>>)
    requires
        writes_any(*write_f32),
    ensures
        dict_view(final(d)@) == dict_view(old(d)@) + opt_pair(key@, v, t@),
        v is Some ==> writes_f32(*write_f32, v.unwrap(), t@),
{
    match v {
        None => {
            assert(dict_view(d@) =~= dict_view(d@) + Seq::<(Seq<char>, Seq<char>)>::empty());
            Ghost(Seq::empty())
        },
        Some(b) => {
            let s = write_f32(b);
            assert(write_f32.ensures((b,), s));
            let ghost sv = s@;
            let ghost before = d@;
            d.push((key.to_owned(), s));
            assert(dict_view(d@) =~= dict_view(before) + seq![(key@, sv)]);
            Ghost(sv)
        },
    }
}

/// Appends a pair of short texts.
fn push_pair(d: &mut Dict, key: String, value: String)
    ensures
        dict_view(final(d)@) == dict_view(old(d)@).push((key@, value@)),
{
    let ghost before = d@;
    let ghost kv = (key@, value@);
    d.push((key, value));
    assert(dict_view(d@) =~= dict_view(before).push(kv));
}

/// Appends the first five float properties (see [`matl_front`]).
fn push_front<G: Fn(u32) -> String>(d: &mut Dict, m: &Matl, write_f32: &G) -> (ts: Ghost<Seq<Seq<char>>>)
    requires
        writes_any(*write_f32),
    ensures
        ts@.len() == 5,
        dict_view(final(d)@) == dict_view(old(d)@) + matl_front(*m, ts@),
        forall|k: int| 0 <= k < 5 && matl_out_floats(*m)[k] is Some
            ==> writes_f32(*write_f32, matl_out_floats(*m)[k].unwrap(), #[trigger] ts@[k]),
{
    proof {
    }
    let ghost a = dict_view(d@);
    let Ghost(t0) = push_float(d, "_weight", m.prop_weight, write_f32);
    let Ghost(t1) = push_float(d, "_rough", m.prop_rough, write_f32);
    let Ghost(t2) = push_float(d, "_spec", m.prop_spec, write_f32);
    let Ghost(t3) = push_float(d, "_ior", m.prop_ior, write_f32);
    let Ghost(t4) = push_float(d, "_att", m.prop_att, write_f32);
    let ghost ts = seq![t0, t1, t2, t3, t4];
    proof {
        let fl = matl_out_floats(*m);
        assert(fl[0] == m.prop_weight && fl[1] == m.prop_rough && fl[2] == m.prop_spec && fl[3] == m.prop_ior
            && fl[4] == m.prop_att);
        assert(ts[0] == t0 && ts[1] == t1 && ts[2] == t2 && ts[3] == t3 && ts[4] == t4);
        assert(dict_view(d@) =~= a + matl_front(*m, ts));
        assert forall|k: int| 0 <= k < 5 && fl[k] is Some implies writes_f32(*write_f32, fl[k].unwrap(), #[trigger] ts[k]) by {
            if k == 0 {} else if k == 1 {} else if k == 2 {} else if k == 3 {} else {}
        }
    }
    Ghost(ts)
}

/// Appends the last five float properties (see [`matl_back`]).
fn push_back<G: Fn(u32) -> String>(d: &mut Dict, m: &Matl, write_f32: &G) -> (ts: Ghost<Seq<Seq<char>>>)
    requires
        writes_any(*write_f32),
    ensures
        ts@.len() == 5,
        dict_view(final(d)@) == dict_view(old(d)@) + matl_back(*m, ts@),
        forall|k: int| 0 <= k < 5 && matl_out_floats(*m)[k + 5] is Some
            ==> writes_f32(*write_f32, matl_out_floats(*m)[k + 5].unwrap(), #[trigger] ts@[k]),
{
    proof {
    }
    let ghost a = dict_view(d@);
    let Ghost(t0) = push_float(d, "_d", m.prop_density, write_f32);
    let Ghost(t1) = push_float(d, "_alpha", m.prop_alpha, write_f32);
    let Ghost(t2) = push_float(d, "_emit", m.prop_emit, write_f32);
    let Ghost(t3) = push_float(d, "_ldr", m.prop_ldr, write_f32);
    let Ghost(t4) = push_float(d, "_metal", m.prop_metal, write_f32);
    let ghost ts = seq![t0, t1, t2, t3, t4];
    assert(ts[0] == t0 && ts[1] == t1 && ts[2] == t2 && ts[3] == t3 && ts[4] == t4);
    assert(dict_view(d@) =~= a + matl_back(*m, ts));
    Ghost(ts)
}

/// The attributes of a `MATL` (see [`matl_attrs`]), with the texts of its
/// floats.
fn matl_dict<G: Fn(u32) -> String>(m: &Matl, write_f32: &G) -> (r: (Dict, Ghost<Seq<Seq<char>>>))
    requires
        writes_any(*write_f32),
    ensures
        r.1@.len() == 10,
        dict_view(r.0@) == matl_attrs(*m, r.1@),
        forall|k: int| 0 <= k < 10 && matl_out_floats(*m)[k] is Some
            ==> writes_f32(*write_f32, matl_out_floats(*m)[k].unwrap(), #[trigger] r.1@[k]),
{
    let type_text = match m.prop_type {
        MatlType::Diffuse => "_diffuse",
        MatlType::Metal => "_metal",
        MatlType::Glass => "_glass",
        MatlType::Emit => "_emit",
        MatlType::Blend => "_blend",
        MatlType::Media => "_media",
    };
    assert(type_text@ == matl_type_text(m.prop_type));
    let mut d: Dict = Vec::new();
    proof {
    }
    push_pair(&mut d, "_type".to_owned(), type_text.to_owned());
    let ghost a0 = dict_view(d@);
    let Ghost(front) = push_front(&mut d, m, write_f32);
    let ghost a1 = dict_view(d@);
    if let Some(f) = m.prop_flux {
        let t = decimal_text(f);
        push_pair(&mut d, "_flux".to_owned(), t);
    }
    assert(dict_view(d@) =~= a1 + flux_pair(*m));
    let Ghost(back) = push_back(&mut d, m, write_f32);
    let ghost a3 = dict_view(d@);
    push_pair(&mut d, "_plastic".to_owned(), (if m.prop_plastic { "1" } else { "0" }).to_owned());
    let ghost ts = front + back;
    proof {
        assert(ts.subrange(0, 5) =~= front);
        assert(ts.subrange(5, 10) =~= back);
        assert(dict_view(d@) =~= matl_attrs(*m, ts));
        assert forall|k: int| 0 <= k < 10 && matl_out_floats(*m)[k] is Some
            implies writes_f32(*write_f32, matl_out_floats(*m)[k].unwrap(), #[trigger] ts[k]) by {
            if k < 5 {
                assert(ts[k] == front[k]);
            } else {
                assert(ts[k] == back[k - 5]);
            }
        }
    }
    (d, Ghost(ts))
}

/// Writes the payload of the `MATL` chunk. Absent properties are left out;
/// float bits are turned into decimal text by `write_f32`.
pub fn chunk_matl<G: Fn(u32) -> String>(dst: &mut Vec<u8>, m: &Matl, write_f32: &G)
    requires
        writes_any(*write_f32),
    ensures
        matl_written(*write_f32, *m, final(dst)@.subrange(old(dst)@.len() as int, final(dst)@.len() as int)),
        final(dst)@.subrange(0, old(dst)@.len() as int) == old(dst)@,
{
    le_u32(dst, m.id as u32);
    let (d, Ghost(ts)) = matl_dict(m, write_f32);
    dict(dst, &d);
    proof {
        let written = final(dst)@.subrange(old(dst)@.len() as int, final(dst)@.len() as int);
        assert(written =~= u32_le_bytes(m.id as u32) + dict_bytes(matl_attrs(*m, ts)));
        assert(final(dst)@.subrange(0, old(dst)@.len() as int) =~= old(dst)@);
    }
}

/// The bytes of the quadruples, one after the other.
pub proof fn lemma_quads_index(v: Seq<(u8, u8, u8, u8)>)
    ensures
        quads_bytes(v).len() == 4 * v.len(),
        forall|i: int| 0 <= i < v.len() ==> #[trigger] quad_at(quads_bytes(v), 4 * i) == v[i],
    decreases v.len(),
{
    if v.len() > 0 {
        let init = v.drop_last();
        lemma_quads_index(init);
        let q = quads_bytes(v);
        assert forall|i: int| 0 <= i < v.len() implies #[trigger] quad_at(q, 4 * i) == v[i] by {
            if i < init.len() {
                assert(quad_at(quads_bytes(init), 4 * i) == init[i]);
                assert(q[4 * i] == quads_bytes(init)[4 * i]);
                assert(q[4 * i + 1] == quads_bytes(init)[4 * i + 1]);
                assert(q[4 * i + 2] == quads_bytes(init)[4 * i + 2]);
                assert(q[4 * i + 3] == quads_bytes(init)[4 * i + 3]);
            }
        }
    }
}

/// Quadruples written at `pos` read back as the same quadruples.
proof fn lemma_quads_read(s: Seq<u8>, pos: int, v: Seq<(u8, u8, u8, u8)>)
    requires
        0 <= pos,
        pos + 4 * v.len() <= s.len(),
        s.subrange(pos, pos + 4 * v.len()) == quads_bytes(v),
    ensures
        Seq::new(v.len(), |i: int| quad_at(s, pos + 4 * i)) == v,
{
    lemma_quads_index(v);
    let q = quads_bytes(v);
    assert forall|i: int| 0 <= i < v.len() implies #[trigger] quad_at(s, pos + 4 * i) == v[i] by {
        assert(quad_at(q, 4 * i) == v[i]);
        assert(s[pos + 4 * i] == s.subrange(pos, pos + 4 * v.len())[4 * i]);
        assert(s[pos + 4 * i + 1] == s.subrange(pos, pos + 4 * v.len())[4 * i + 1]);
        assert(s[pos + 4 * i + 2] == s.subrange(pos, pos + 4 * v.len())[4 * i + 2]);
        assert(s[pos + 4 * i + 3] == s.subrange(pos, pos + 4 * v.len())[4 * i + 3]);
    }
    assert(Seq::new(v.len(), |i: int| quad_at(s, pos + 4 * i)) =~= v);
}

/// A written `PACK` payload reads back as the same count.
pub proof fn lemma_pack_round_trip(n: u32)
    ensures
        all_consumed(spec_u32(pack_bytes(n), 0), pack_bytes(n)) == Ok::<u32, VoxErrorKind>(n),
{
    assert(pack_bytes(n).subrange(0, 4) =~= u32_le_bytes(n));
    lemma_u32_round_trip(pack_bytes(n), 0, n);
}

/// A written `SIZE` payload reads back as the same size.
pub proof fn lemma_size_round_trip(v: (u32, u32, u32))
    ensures
        all_consumed(spec_size(size_bytes(v), 0), size_bytes(v)) == Ok::<(u32, u32, u32), VoxErrorKind>(v),
{
    let b = size_bytes(v);
    assert(b.subrange(0, 4) =~= u32_le_bytes(v.0));
    lemma_u32_round_trip(b, 0, v.0);
    assert(b.subrange(4, 8) =~= u32_le_bytes(v.1));
    lemma_u32_round_trip(b, 4, v.1);
    assert(b.subrange(8, 12) =~= u32_le_bytes(v.2));
    lemma_u32_round_trip(b, 8, v.2);
}

/// A written `XYZI` payload reads back as the same voxels.
#[verifier::spinoff_prover]
#[verifier::rlimit(100)]
pub proof fn lemma_xyzi_round_trip(v: Seq<(u8, u8, u8, u8)>)
    requires
        v.len() <= u32::MAX,
    ensures
        all_consumed(spec_xyzi(xyzi_bytes(v), 0), xyzi_bytes(v)) == Ok::<Seq<(u8, u8, u8, u8)>, VoxErrorKind>(v),
{
    let b = xyzi_bytes(v);
    lemma_quads_index(v);
    assert(b.subrange(0, 4) =~= u32_le_bytes(v.len() as u32));
    lemma_u32_round_trip(b, 0, v.len() as u32);
    assert(b.subrange(4, 4 + 4 * v.len() as int) =~= quads_bytes(v));
    lemma_quads_read(b, 4, v);
}

/// A written `RGBA` payload reads back as the same 255 colors.
#[verifier::spinoff_prover]
#[verifier::rlimit(100)]
pub proof fn lemma_rgba_round_trip(v: Seq<(u8, u8, u8, u8)>)
    requires
        v.len() == 255,
    ensures
        all_consumed(spec_rgba(rgba_bytes(v), 0), rgba_bytes(v)) == Ok::<Seq<(u8, u8, u8, u8)>, VoxErrorKind>(v),
{
    let b = rgba_bytes(v);
    lemma_quads_index(v);
    assert(b.subrange(0, 1020) =~= quads_bytes(v));
    lemma_quads_read(b, 0, v);
}

/// `u32`s written at `pos` read back as the same values.
proof fn lemma_u32s_read(s: Seq<u8>, pos: int, v: Seq<u32>)
    requires
        0 <= pos,
        pos + u32s_bytes(v).len() <= s.len(),
        s.subrange(pos, pos + u32s_bytes(v).len()) == u32s_bytes(v),
    ensures
        u32s_bytes(v).len() == 4 * v.len(),
        Seq::new(v.len(), |i: int| u32_at(s, pos + 4 * i)) == v,
    decreases v.len(),
{
    if v.len() > 0 {
        let init = v.drop_last();
        let w = u32s_bytes(v);
        let wi = u32s_bytes(init);
        assert(w == wi + u32_le_bytes(v.last()));
        lemma_sub_of_sub(s, pos, w, 0, wi.len() as int);
        assert(w.subrange(0, wi.len() as int) =~= wi);
        lemma_u32s_read(s, pos, init);
        lemma_sub_of_sub(s, pos, w, wi.len() as int, w.len() as int);
        assert(w.subrange(wi.len() as int, w.len() as int) =~= u32_le_bytes(v.last()));
        lemma_u32_round_trip(s, pos + wi.len(), v.last());
        assert forall|i: int| 0 <= i < v.len() implies #[trigger] u32_at(s, pos + 4 * i) == v[i] by {
            if i < init.len() {
                assert(Seq::new(init.len(), |k: int| u32_at(s, pos + 4 * k))[i] == init[i]);
            }
        }
        assert(Seq::new(v.len(), |i: int| u32_at(s, pos + 4 * i)) =~= v);
    } else {
        assert(Seq::new(v.len(), |i: int| u32_at(s, pos + 4 * i)) =~= v);
    }
}

/// A written `nGRP` payload reads back as the same node.
#[verifier::spinoff_prover]
#[verifier::rlimit(100)]
pub proof fn lemma_ngrp_round_trip(g: GroupNode)
    requires
        dict_fits(dict_view(g.attributes@)),
        g.child_nodes@.len() <= u32::MAX,
    ensures
        all_consumed(spec_ngrp(ngrp_bytes(g), 0), ngrp_bytes(g)) == Ok::<GroupView, VoxErrorKind>(group_view(g)),
{
    reveal(spec_ngrp);
    let b = ngrp_bytes(g);
    let d = dict_view(g.attributes@);
    let db = dict_bytes(d);
    let ids = g.child_nodes@;
    let a: int = 4 + db.len() as int;
    assert(b.subrange(0, 4) =~= u32_le_bytes(g.node_id));
    lemma_u32_round_trip(b, 0, g.node_id);
    assert(b.subrange(4, a) =~= db);
    lemma_dict_round_trip(b, 4, d);
    assert(b.subrange(a as int, a + 4) =~= u32_le_bytes(ids.len() as u32));
    lemma_u32_round_trip(b, a as int, ids.len() as u32);
    assert(b.subrange(a + 4, b.len() as int) =~= u32s_bytes(ids));
    lemma_u32s_read(b, a + 4, ids);
}

/// A written `nSHP` payload reads back as the same node.
#[verifier::spinoff_prover]
#[verifier::rlimit(100)]
pub proof fn lemma_nshp_round_trip(n: ShapeNode)
    requires
        dict_fits(dict_view(n.attributes@)),
        dict_fits(dict_view(n.model_attributes@)),
    ensures
        all_consumed(spec_nshp(nshp_bytes(n), 0), nshp_bytes(n)) == Ok::<ShapeView, VoxErrorKind>(shape_view(n)),
{
    reveal(spec_nshp);
    let b = nshp_bytes(n);
    let d = dict_view(n.attributes@);
    let md = dict_view(n.model_attributes@);
    let a: int = 4 + dict_bytes(d).len() as int;
    assert(b.subrange(0, 4) =~= u32_le_bytes(n.node_id));
    lemma_u32_round_trip(b, 0, n.node_id);
    assert(b.subrange(4, a as int) =~= dict_bytes(d));
    lemma_dict_round_trip(b, 4, d);
    assert(b.subrange(a as int, a + 4) =~= u32_le_bytes(1));
    lemma_u32_round_trip(b, a as int, 1);
    assert(b.subrange(a + 4, a + 8) =~= u32_le_bytes(n.model_id));
    lemma_u32_round_trip(b, a + 4, n.model_id);
    assert(b.subrange(a + 8, b.len() as int) =~= dict_bytes(md));
    lemma_dict_round_trip(b, a + 8, md);
}

/// The attributes of a layer give back its name and hidden flag.
proof fn lemma_layr_attrs_get(l: Layr)
    ensures
        dict_get(layr_attrs(l), "_is_hidden"@) == (if l.is_hidden { Some("1"@) } else { None::<Seq<char>> }),
        dict_get(layr_attrs(l), "_name"@) == opt_text(l.name),
{
    reveal_strlit("_name");
    reveal_strlit("_is_hidden");
    let d = layr_attrs(l);
    let named = match opt_text(l.name) { Some(n) => seq![("_name"@, n)], None => Seq::empty() };
    assert("_name"@ != "_is_hidden"@) by {
        assert("_name"@.len() != "_is_hidden"@.len());
    }
    match opt_text(l.name) {
        Some(n) => {
            assert(named.drop_last() =~= Seq::<(Seq<char>, Seq<char>)>::empty());
            assert(dict_get(named, "_name"@) == Some(n));
            assert(dict_get(named, "_is_hidden"@) is None);
        },
        None => {},
    }
    if l.is_hidden {
        assert(d.drop_last() =~= named);
        assert(d.last() == ("_is_hidden"@, "1"@));
    } else {
        assert(d =~= named);
    }
}

/// A layer's attributes fit their `STRING`s when its name does.
proof fn lemma_layr_attrs_fit(l: Layr)
    requires
        match l.name { Some(n) => utf8_len(n@) <= u32::MAX, None => true },
    ensures
        dict_fits(layr_attrs(l)),
{
    reveal_strlit("_name");
    reveal_strlit("_is_hidden");
    reveal_strlit("1");
    lemma_utf8_len_bound("_name"@);
    lemma_utf8_len_bound("_is_hidden"@);
    lemma_utf8_len_bound("1"@);
    let d = layr_attrs(l);
    assert forall|i: int| 0 <= i < d.len() implies utf8_len(#[trigger] d[i].0) <= u32::MAX && utf8_len(d[i].1) <= u32::MAX by {
    }
}

/// A written `LAYR` payload reads back as the same layer.
#[verifier::spinoff_prover]
#[verifier::rlimit(100)]
pub proof fn lemma_layr_round_trip(l: Layr)
    requires
        match l.name { Some(n) => utf8_len(n@) <= u32::MAX, None => true },
    ensures
        all_consumed(spec_layr(layr_bytes(l), 0), layr_bytes(l)) == Ok::<LayrView, VoxErrorKind>(layr_view(l)),
{
    reveal(spec_layr);
    let b = layr_bytes(l);
    let d = layr_attrs(l);
    lemma_layr_attrs_fit(l);
    lemma_layr_attrs_get(l);
    let a: int = 4 + dict_bytes(d).len() as int;
    assert(b.subrange(0, 4) =~= u32_le_bytes(l.id));
    lemma_u32_round_trip(b, 0, l.id);
    assert(b.subrange(4, a) =~= dict_bytes(d));
    lemma_dict_round_trip(b, 4, d);
    assert(b.subrange(a, a + 4) =~= u32_le_bytes(0xFFFF_FFFF));
    lemma_u32_round_trip(b, a, 0xFFFF_FFFF);
    assert(0xFFFF_FFFFu32 as i32 == -1i32) by (bit_vector);
    reveal_strlit("1");
    reveal_strlit("0");
    assert("1"@ != "0"@) by {
        assert("1"@[0] != "0"@[0]);
    }
    assert(b.len() == a + 4);
}

/// The node attributes of a `nTRN` give back its name and hidden flag.
proof fn lemma_ntrn_attrs_get(t: TransformNode)
    ensures
        dict_get(ntrn_attrs(t), "_hidden"@) == (if t.is_hidden { Some("1"@) } else { None::<Seq<char>> }),
        dict_get(ntrn_attrs(t), "_name"@) == opt_text(t.name),
{
    reveal_strlit("_name");
    reveal_strlit("_hidden");
    let d = ntrn_attrs(t);
    let named = match opt_text(t.name) { Some(n) => seq![("_name"@, n)], None => Seq::empty() };
    assert("_name"@ != "_hidden"@) by {
        assert("_name"@.len() != "_hidden"@.len());
    }
    match opt_text(t.name) {
        Some(n) => {
            assert(named.last() == ("_name"@, n));
            assert(named.drop_last() =~= Seq::<(Seq<char>, Seq<char>)>::empty());
            assert(dict_get(named.drop_last(), "_hidden"@) is None);
            assert(dict_get(named, "_name"@) == Some(n));
            assert(dict_get(named, "_hidden"@) is None);
        },
        None => {},
    }
    if t.is_hidden {
        assert(d.drop_last() =~= named);
        assert(d.last() == ("_hidden"@, "1"@));
    } else {
        assert(d =~= named);
    }
}

/// The frame attributes of a `nTRN` give back its rotation and translation.
#[verifier::spinoff_prover]
#[verifier::rlimit(100)]
proof fn lemma_frame_attrs_get(t: TransformNode)
    requires
        t.translation.0 != i32::MIN,
        t.translation.1 != i32::MIN,
        t.translation.2 != i32::MIN,
    ensures
        spec_rotation_attr(dict_get(frame_attrs(t), "_r"@)) == Some(t.rotation),
        spec_translation_attr(dict_get(frame_attrs(t), "_t"@)) == Some(t.translation),
        dict_fits(frame_attrs(t)),
{
    reveal_strlit("_r");
    reveal_strlit("_t");
    lemma_utf8_len_bound("_r"@);
    lemma_utf8_len_bound("_t"@);
    assert("_r"@ != "_t"@) by {
        assert("_r"@[1] != "_t"@[1]);
    }
    let rb = decimal_bytes(rotation_byte(t.rotation) as nat);
    let tb = translation_bytes(t.translation);
    lemma_decimal_ascii(rotation_byte(t.rotation) as nat);
    lemma_u32_digits(rotation_byte(t.rotation) as u32);
    lemma_ascii_text(rb);
    lemma_translation_ascii(t.translation);
    lemma_ascii_text(tb);
    lemma_unsigned_round_trip(rotation_byte(t.rotation) as nat, 255);
    lemma_rotation_round_trip(t.rotation);
    let (x, y, z) = t.translation;
    lemma_translation_round_trip(x, y, z);
    let rp = if t.rotation != MatRowCols::OneTwoThree(false, false, false) {
        seq![("_r"@, decode_utf8(rb))]
    } else {
        Seq::empty()
    };
    let d = frame_attrs(t);
    let rbyte = rotation_byte(t.rotation);
    assert((rbyte as nat) as u8 == rbyte);
    assert(spec_unsigned(encode_utf8(decode_utf8(rb)), 255) == Some(rbyte as nat));
    assert(spec_rotation_attr(Some(decode_utf8(rb))) == Some(t.rotation));
    assert(spec_translation_attr(Some(decode_utf8(tb))) == Some(t.translation));
    if rp.len() > 0 {
        assert(rp.last() == ("_r"@, decode_utf8(rb)));
        assert(rp.drop_last() =~= Seq::<(Seq<char>, Seq<char>)>::empty());
        assert(dict_get(rp.drop_last(), "_t"@) is None);
        assert(dict_get(rp, "_r"@) == Some(decode_utf8(rb)));
        assert(dict_get(rp, "_t"@) is None);
    } else {
        assert(dict_get(rp, "_r"@) is None);
        assert(dict_get(rp, "_t"@) is None);
    }
    if t.translation != (0i32, 0i32, 0i32) {
        assert(d.drop_last() =~= rp);
        assert(d.last() == ("_t"@, decode_utf8(tb)));
        assert(dict_get(d, "_t"@) == Some(decode_utf8(tb)));
        assert(dict_get(d, "_r"@) == dict_get(rp, "_r"@));
    } else {
        assert(d =~= rp);
    }
    assert forall|i: int| 0 <= i < d.len() implies utf8_len(#[trigger] d[i].0) <= u32::MAX && utf8_len(d[i].1) <= u32::MAX by {
    }
}

/// The node attributes of a `nTRN` fit their `STRING`s when its name does.
proof fn lemma_ntrn_attrs_fit(t: TransformNode)
    requires
        match t.name { Some(n) => utf8_len(n@) <= u32::MAX, None => true },
    ensures
        dict_fits(ntrn_attrs(t)),
{
    reveal_strlit("_name");
    reveal_strlit("_hidden");
    reveal_strlit("1");
    lemma_utf8_len_bound("_name"@);
    lemma_utf8_len_bound("_hidden"@);
    lemma_utf8_len_bound("1"@);
    let d = ntrn_attrs(t);
    assert forall|i: int| 0 <= i < d.len() implies utf8_len(#[trigger] d[i].0) <= u32::MAX && utf8_len(d[i].1) <= u32::MAX by {
    }
}

/// The frame part of a written `nTRN` payload reads back as its rotation and
/// translation.
proof fn lemma_ntrn_frame_round_trip(b: Seq<u8>, pos: int, t: TransformNode)
    requires
        0 <= pos,
        t.translation.0 != i32::MIN,
        t.translation.1 != i32::MIN,
        t.translation.2 != i32::MIN,
        b.len() == pos + 4 + dict_bytes(frame_attrs(t)).len(),
        b.subrange(pos, pos + 4) == u32_le_bytes(1),
        b.subrange(pos + 4, b.len() as int) == dict_bytes(frame_attrs(t)),
    ensures
        spec_ntrn_frame(b, pos) == Ok::<((MatRowCols, (i32, i32, i32)), int), VoxErrorKind>(((t.rotation, t.translation), b.len() as int)),
{
    lemma_frame_attrs_get(t);
    lemma_u32_round_trip(b, pos, 1);
    assert(1u32 as i32 == 1i32) by (bit_vector);
    lemma_dict_round_trip(b, pos + 4, frame_attrs(t));
}

/// Where each field of a written `nTRN` payload stands.
#[verifier::spinoff_prover]
#[verifier::rlimit(100)]
proof fn lemma_ntrn_layout(t: TransformNode)
    ensures
        ({
            let b = ntrn_bytes(t);
            let a = 4 + dict_bytes(ntrn_attrs(t)).len() as int;
            let layer: u32 = match t.layer_id { Some(l) => l, None => 0xFFFF_FFFF };
            &&& b.len() == a + 16 + dict_bytes(frame_attrs(t)).len()
            &&& b.subrange(0, 4) == u32_le_bytes(t.node_id)
            &&& b.subrange(4, a) == dict_bytes(ntrn_attrs(t))
            &&& b.subrange(a, a + 4) == u32_le_bytes(t.child_node_id)
            &&& b.subrange(a + 4, a + 8) == u32_le_bytes(0xFFFF_FFFF)
            &&& b.subrange(a + 8, a + 12) == u32_le_bytes(layer)
            &&& b.subrange(a + 12, a + 16) == u32_le_bytes(1)
            &&& b.subrange(a + 16, b.len() as int) == dict_bytes(frame_attrs(t))
        }),
{
    let b = ntrn_bytes(t);
    let a = 4 + dict_bytes(ntrn_attrs(t)).len() as int;
    let layer: u32 = match t.layer_id { Some(l) => l, None => 0xFFFF_FFFF };
    assert(b.subrange(0, 4) =~= u32_le_bytes(t.node_id));
    assert(b.subrange(4, a) =~= dict_bytes(ntrn_attrs(t)));
    assert(b.subrange(a, a + 4) =~= u32_le_bytes(t.child_node_id));
    assert(b.subrange(a + 4, a + 8) =~= u32_le_bytes(0xFFFF_FFFF));
    assert(b.subrange(a + 8, a + 12) =~= u32_le_bytes(layer));
    assert(b.subrange(a + 12, a + 16) =~= u32_le_bytes(1));
    assert(b.subrange(a + 16, b.len() as int) =~= dict_bytes(frame_attrs(t)));
}

/// A written `nTRN` payload reads back as the same node, provided its name
/// fits a `STRING`, its layer id (if any) is below 2^31, and no translation
/// component is `i32::MIN`.
#[verifier::spinoff_prover]
#[verifier::rlimit(100)]
pub proof fn lemma_ntrn_round_trip(t: TransformNode)
    requires
        match t.name { Some(n) => utf8_len(n@) <= u32::MAX, None => true },
        match t.layer_id { Some(l) => l < 0x8000_0000, None => true },
        t.translation.0 != i32::MIN,
        t.translation.1 != i32::MIN,
        t.translation.2 != i32::MIN,
    ensures
        all_consumed(spec_ntrn(ntrn_bytes(t), 0), ntrn_bytes(t)) == Ok::<TransformView, VoxErrorKind>(transform_view(t)),
{
    reveal(spec_ntrn);
    let b = ntrn_bytes(t);
    let d = ntrn_attrs(t);
    let fd = frame_attrs(t);
    lemma_ntrn_attrs_fit(t);
    lemma_ntrn_attrs_get(t);
    let layer: u32 = match t.layer_id { Some(l) => l, None => 0xFFFF_FFFF };
    let a: int = 4 + dict_bytes(d).len() as int;
    lemma_ntrn_layout(t);
    lemma_u32_round_trip(b, 0, t.node_id);
    lemma_dict_round_trip(b, 4, d);
    lemma_u32_round_trip(b, a, t.child_node_id);
    lemma_u32_round_trip(b, a + 4, 0xFFFF_FFFF);
    lemma_u32_round_trip(b, a + 8, layer);
    lemma_ntrn_frame_round_trip(b, a + 12, t);
    assert(0xFFFF_FFFFu32 as i32 == -1i32) by (bit_vector);
    if let Some(l) = t.layer_id {
        assert(l < 0x8000_0000 ==> (l as i32) >= 0 && ((l as i32) as u32) == l) by (bit_vector);
    }
    reveal_strlit("1");
    reveal_strlit("0");
    assert("1"@ != "0"@) by {
        assert("1"@[0] != "0"@[0]);
    }
}

/// What a `MATT` chunk can hold: an id in [1, 255], a weight in (0.0, 1.0]
/// for the non-diffuse types, plastic 0.0 or 1.0, the other properties in
/// (0.0, 1.0].
pub open spec fn matt_valid(m: Matt) -> bool {
    &&& m.id >= 1
    &&& match m.matt_type {
        MattType::Diffuse => true,
        MattType::Metal(w) => in_unit_open_closed(w),
        MattType::Glass(w) => in_unit_open_closed(w),
        MattType::Emissive(w) => in_unit_open_closed(w),
    }
    &&& forall|k: int| 0 <= k < 7 && #[trigger] matt_props(m)[k] is Some ==> matt_prop_ok(k as u32, matt_props(m)[k].unwrap())
}

/// Bit `k` of the flags `f_i` shifted to bit `i` is flag `k`.
proof fn lemma_flag_bits(f0: u32, f1: u32, f2: u32, f3: u32, f4: u32, f5: u32, f6: u32, f7: u32)
    requires
        f0 <= 1, f1 <= 1, f2 <= 1, f3 <= 1, f4 <= 1, f5 <= 1, f6 <= 1, f7 <= 1,
    ensures
        ({
            let b = f0 | (f1 << 1u32) | (f2 << 2u32) | (f3 << 3u32) | (f4 << 4u32) | (f5 << 5u32) | (f6 << 6u32) | (f7 << 7u32);
            &&& (b >> 0u32) & 1 == f0
            &&& (b >> 1u32) & 1 == f1
            &&& (b >> 2u32) & 1 == f2
            &&& (b >> 3u32) & 1 == f3
            &&& (b >> 4u32) & 1 == f4
            &&& (b >> 5u32) & 1 == f5
            &&& (b >> 6u32) & 1 == f6
            &&& (b >> 7u32) & 1 == f7
        }),
{
    let b = f0 | (f1 << 1u32) | (f2 << 2u32) | (f3 << 3u32) | (f4 << 4u32) | (f5 << 5u32) | (f6 << 6u32) | (f7 << 7u32);
    assert((b >> 0u32) & 1 == f0 && (b >> 1u32) & 1 == f1 && (b >> 2u32) & 1 == f2 && (b >> 3u32) & 1 == f3
        && (b >> 4u32) & 1 == f4 && (b >> 5u32) & 1 == f5 && (b >> 6u32) & 1 == f6 && (b >> 7u32) & 1 == f7)
        by (bit_vector)
        requires
            f0 <= 1, f1 <= 1, f2 <= 1, f3 <= 1, f4 <= 1, f5 <= 1, f6 <= 1, f7 <= 1,
            b == f0 | (f1 << 1u32) | (f2 << 2u32) | (f3 << 3u32) | (f4 << 4u32) | (f5 << 5u32) | (f6 << 6u32) | (f7 << 7u32);
}

/// Bit `k` of the property bits says whether property `k` is there.
proof fn lemma_matt_bits(m: Matt)
    ensures
        forall|k: u32| k < 7 ==> #[trigger] bit_set(matt_bits(m), k) == (matt_props(m)[k as int] is Some),
        bit_set(matt_bits(m), 7) == m.prop_is_total_power,
{
    let ps = matt_props(m);
    lemma_flag_bits(flag(ps[0] is Some), flag(ps[1] is Some), flag(ps[2] is Some), flag(ps[3] is Some),
        flag(ps[4] is Some), flag(ps[5] is Some), flag(ps[6] is Some), flag(m.prop_is_total_power));
    assert forall|k: u32| k < 7 implies #[trigger] bit_set(matt_bits(m), k) == (ps[k as int] is Some) by {
        if k == 0 {} else if k == 1 {} else if k == 2 {} else if k == 3 {} else if k == 4 {} else if k == 5 {} else {}
    }
}

/// Written `MATT` properties read back, property by property.
proof fn lemma_matt_props_read(s: Seq<u8>, pos: int, m: Matt, k: nat)
    requires
        matt_valid(m),
        k <= 7,
        0 <= pos,
        pos + props_bytes(matt_props(m)).len() <= s.len(),
        s.subrange(pos, pos + props_bytes(matt_props(m)).len()) == props_bytes(matt_props(m)),
    ensures
        spec_matt_props(s, pos, matt_bits(m), k)
            == Ok::<(Seq<Option<u32>>, int), VoxErrorKind>((matt_props(m).subrange(0, k as int), pos + props_bytes(matt_props(m).subrange(0, k as int)).len())),
    decreases k,
{
    let ps = matt_props(m);
    if k == 0 {
        assert(ps.subrange(0, 0) =~= Seq::<Option<u32>>::empty());
    } else {
        lemma_matt_props_read(s, pos, m, (k - 1) as nat);
        lemma_matt_bits(m);
        let pre = ps.subrange(0, k - 1);
        let cur = ps.subrange(0, k as int);
        assert(cur.drop_last() =~= pre);
        assert(cur.last() == ps[k - 1]);
        lemma_props_prefix(ps, k as int);
        let q = pos + props_bytes(pre).len();
        assert(bit_set(matt_bits(m), (k - 1) as u32) == (ps[k - 1] is Some));
        if let Some(v) = ps[k - 1] {
            assert(props_bytes(cur) == props_bytes(pre) + u32_le_bytes(v));
            lemma_sub_of_sub(s, pos, props_bytes(ps), props_bytes(pre).len() as int, props_bytes(cur).len() as int);
            let pp = props_bytes(ps);
            let cc = props_bytes(cur);
            let lo = props_bytes(pre).len() as int;
            assert(pp.subrange(0, cc.len() as int) == cc);
            assert forall|i: int| 0 <= i < 4 implies #[trigger] pp.subrange(lo, cc.len() as int)[i] == u32_le_bytes(v)[i] by {
                assert(pp[lo + i] == pp.subrange(0, cc.len() as int)[lo + i]);
                assert(cc[lo + i] == u32_le_bytes(v)[i]);
            }
            assert(pp.subrange(lo, cc.len() as int) =~= u32_le_bytes(v));
            lemma_u32_round_trip(s, q, v);
            assert(matt_prop_ok((k - 1) as u32, v));
            assert(pre.push(Some(v)) =~= cur);
        } else {
            assert(props_bytes(cur) =~= props_bytes(pre));
            assert(pre.push(None) =~= cur);
        }
    }
}

/// The written bytes of a prefix of the properties are a prefix of all of them.
proof fn lemma_props_prefix(ps: Seq<Option<u32>>, k: int)
    requires
        0 <= k <= ps.len(),
    ensures
        props_bytes(ps.subrange(0, k)).len() <= props_bytes(ps).len(),
        props_bytes(ps).subrange(0, props_bytes(ps.subrange(0, k)).len() as int) == props_bytes(ps.subrange(0, k)),
    decreases ps.len(),
{
    if k == ps.len() {
        assert(ps.subrange(0, k) =~= ps);
        assert(props_bytes(ps).subrange(0, props_bytes(ps).len() as int) =~= props_bytes(ps));
    } else {
        lemma_props_prefix(ps.drop_last(), k);
        assert(ps.drop_last().subrange(0, k) =~= ps.subrange(0, k));
        let a = props_bytes(ps.subrange(0, k));
        let whole = props_bytes(ps);
        let init = props_bytes(ps.drop_last());
        assert(whole.subrange(0, a.len() as int) =~= init.subrange(0, a.len() as int));
    }
}

/// A written valid `MATT` payload reads back as the same material.
#[verifier::spinoff_prover]
#[verifier::rlimit(100)]
pub proof fn lemma_matt_round_trip(m: Matt)
    requires
        matt_valid(m),
    ensures
        all_consumed(spec_matt(matt_bytes(m), 0), matt_bytes(m)) == Ok::<Matt, VoxErrorKind>(m),
{
    reveal(spec_matt);
    let b = matt_bytes(m);
    let (code, w) = matt_type_code(m.matt_type);
    let pb = props_bytes(matt_props(m));
    assert(b.subrange(0, 4) =~= u32_le_bytes(m.id as u32));
    lemma_u32_round_trip(b, 0, m.id as u32);
    assert(b.subrange(4, 8) =~= u32_le_bytes(code));
    lemma_u32_round_trip(b, 4, code);
    assert(b.subrange(8, 12) =~= u32_le_bytes(w));
    lemma_u32_round_trip(b, 8, w);
    assert(b.subrange(12, 16) =~= u32_le_bytes(matt_bits(m)));
    lemma_u32_round_trip(b, 12, matt_bits(m));
    assert(spec_matt_type(code, w) == Some(m.matt_type));
    assert(b.subrange(16, b.len() as int) =~= pb);
    lemma_matt_props_read(b, 16, m, 7);
    assert(matt_props(m).subrange(0, 7) =~= matt_props(m));
    lemma_matt_bits(m);
    assert((m.id as u32) as u8 == m.id);
}

} // verus!
