//! Payload parsers of the scene chunks: `nTRN`, `nGRP`, `nSHP` and `LAYR`.

use vstd::prelude::*;
use vstd::utf8::encode_utf8;
use crate::data::chunks::{Dict, Layr, TransformNode, GroupNode, ShapeNode};
use crate::data::special::MatRowCols;
use crate::parse::error::VoxErrorKind;
use crate::parse::helpers::{u32_at, spec_u32, spec_i32, read_u32, read_i32, u32_le_at};
use crate::parse::special::{spec_dict, dict_view, dict_get, dict, dict_find, text_is, spec_rotation, rotation_u8};
use crate::parse::number::{spec_unsigned, spec_translation, parse_unsigned, translation_text};
use crate::parse::chunk_model::all_consumed;

verus! {

/// What a `LAYR` chunk holds, as plain values.
pub struct LayrView {
    pub id: u32,
    pub name: Option<Seq<char>>,
    pub is_hidden: bool,
}

/// What a `nTRN` chunk holds, as plain values.
pub struct TransformView {
    pub node_id: u32,
    pub name: Option<Seq<char>>,
    pub is_hidden: bool,
    pub child_node_id: u32,
    pub layer_id: Option<u32>,
    pub rotation: MatRowCols,
    pub translation: (i32, i32, i32),
}

/// What a `nGRP` chunk holds, as plain values.
pub struct GroupView {
    pub node_id: u32,
    pub attributes: Seq<(Seq<char>, Seq<char>)>,
    pub child_nodes: Seq<u32>,
}

/// What a `nSHP` chunk holds, as plain values.
pub struct ShapeView {
    pub node_id: u32,
    pub attributes: Seq<(Seq<char>, Seq<char>)>,
    pub model_id: u32,
    pub model_attributes: Seq<(Seq<char>, Seq<char>)>,
}

pub open spec fn opt_text(s: Option<String>) -> Option<Seq<char>> {
    match s {
        Some(s) => Some(s@),
        None => None,
    }
}

pub open spec fn layr_view(l: Layr) -> LayrView {
    LayrView { id: l.id, name: opt_text(l.name), is_hidden: l.is_hidden }
}

pub open spec fn transform_view(t: TransformNode) -> TransformView {
    TransformView {
        node_id: t.node_id,
        name: opt_text(t.name),
        is_hidden: t.is_hidden,
        child_node_id: t.child_node_id,
        layer_id: t.layer_id,
        rotation: t.rotation,
        translation: t.translation,
    }
}

pub open spec fn group_view(g: GroupNode) -> GroupView {
    GroupView { node_id: g.node_id, attributes: dict_view(g.attributes@), child_nodes: g.child_nodes@ }
}

pub open spec fn shape_view(s: ShapeNode) -> ShapeView {
    ShapeView {
        node_id: s.node_id,
        attributes: dict_view(s.attributes@),
        model_id: s.model_id,
        model_attributes: dict_view(s.model_attributes@),
    }
}

/// A `0`/`1` flag attribute: absent means `false`; any other text is invalid.
pub open spec fn spec_flag(v: Option<Seq<char>>) -> Option<bool> {
    match v {
        None => Some(false),
        Some(t) => if t == "0"@ {
            Some(false)
        } else if t == "1"@ {
            Some(true)
        } else {
            None
        },
    }
}

/// `LAYR`: a `u32` id, a DICT (`_name`, `_is_hidden`), and a reserved `i32`
/// that must be -1.
#[verifier::opaque]
pub open spec fn spec_layr(s: Seq<u8>, pos: int) -> Result<(LayrView, int), VoxErrorKind> {
    match spec_u32(s, pos) {
        Err(e) => Err(e),
        Ok((id, p1)) => match spec_dict(s, p1) {
            Err(e) => Err(e),
            Ok((d, p2)) => match spec_i32(s, p2) {
                Err(e) => Err(e),
                Ok((reserved, p3)) => if reserved != -1 {
                    Err(VoxErrorKind::InvalidLayrReserved(reserved))
                } else {
                    match spec_flag(dict_get(d, "_is_hidden"@)) {
                        None => Err(VoxErrorKind::InvalidLayrProperty),
                        Some(h) => Ok((LayrView { id, name: dict_get(d, "_name"@), is_hidden: h }, p3)),
                    }
                },
            },
        },
    }
}

/// The rotation that a `_r` attribute gives: absent means the identity; else
/// its text must be a `u8` that decodes to a matrix.
pub open spec fn spec_rotation_attr(v: Option<Seq<char>>) -> Option<MatRowCols> {
    match v {
        None => Some(MatRowCols::OneTwoThree(false, false, false)),
        Some(t) => match spec_unsigned(encode_utf8(t), 255) {
            None => None,
            Some(b) => spec_rotation(b as u8),
        },
    }
}

/// The translation that a `_t` attribute gives: absent means `(0, 0, 0)`.
pub open spec fn spec_translation_attr(v: Option<Seq<char>>) -> Option<(i32, i32, i32)> {
    match v {
        None => Some((0, 0, 0)),
        Some(t) => spec_translation(encode_utf8(t)),
    }
}

/// The layer id field of a `nTRN`: -1 means none, other negatives are invalid.
pub open spec fn spec_layer_id(l: i32) -> Result<Option<u32>, VoxErrorKind> {
    if l == -1 {
        Ok(None)
    } else if l < 0 {
        Err(VoxErrorKind::InvalidLayrId)
    } else {
        Ok(Some(l as u32))
    }
}

/// The frame part of a `nTRN`, from the frame count on.
pub open spec fn spec_ntrn_frame(s: Seq<u8>, p5: int) -> Result<((MatRowCols, (i32, i32, i32)), int), VoxErrorKind> {
    match spec_i32(s, p5) {
        Err(e) => Err(e),
        Ok((frames, p6)) => if frames != 1 {
            Err(VoxErrorKind::InvalidTRNFrames(frames))
        } else {
            match spec_dict(s, p6) {
                Err(e) => Err(e),
                Ok((fd, p7)) => match (spec_translation_attr(dict_get(fd, "_t"@)), spec_rotation_attr(dict_get(fd, "_r"@))) {
                    (Some(t), Some(r)) => Ok(((r, t), p7)),
                    _ => Err(VoxErrorKind::InvalidTRNProperty),
                },
            }
        },
    }
}

/// `nTRN`: node id, DICT (`_name`, `_hidden`), child node id, reserved id
/// (-1), layer id (-1 for none), frame count (1), frame DICT (`_r`, `_t`).
#[verifier::opaque]
pub open spec fn spec_ntrn(s: Seq<u8>, pos: int) -> Result<(TransformView, int), VoxErrorKind> {
    match spec_u32(s, pos) {
        Err(e) => Err(e),
        Ok((node_id, p1)) => match spec_dict(s, p1) {
            Err(e) => Err(e),
            Ok((d, p2)) => match spec_flag(dict_get(d, "_hidden"@)) {
                None => Err(VoxErrorKind::InvalidTRNHidden),
                Some(hidden) => match spec_u32(s, p2) {
                    Err(e) => Err(e),
                    Ok((child, p3)) => match spec_i32(s, p3) {
                        Err(e) => Err(e),
                        Ok((reserved, p4)) => if reserved != -1 {
                            Err(VoxErrorKind::InvalidTRNReserved(reserved))
                        } else {
                            match spec_i32(s, p4) {
                                Err(e) => Err(e),
                                Ok((layer, p5)) => match spec_layer_id(layer) {
                                    Err(e) => Err(e),
                                    Ok(layer_id) => match spec_ntrn_frame(s, p5) {
                                        Err(e) => Err(e),
                                        Ok(((rotation, translation), p7)) => Ok((TransformView {
                                            node_id,
                                            name: dict_get(d, "_name"@),
                                            is_hidden: hidden,
                                            child_node_id: child,
                                            layer_id,
                                            rotation,
                                            translation,
                                        }, p7)),
                                    },
                                },
                            }
                        },
                    },
                },
            },
        },
    }
}

/// `nGRP`: node id, DICT, then a `u32` count and that many child node ids.
#[verifier::opaque]
pub open spec fn spec_ngrp(s: Seq<u8>, pos: int) -> Result<(GroupView, int), VoxErrorKind> {
    match spec_u32(s, pos) {
        Err(e) => Err(e),
        Ok((node_id, p1)) => match spec_dict(s, p1) {
            Err(e) => Err(e),
            Ok((d, p2)) => match spec_u32(s, p2) {
                Err(e) => Err(e),
                Ok((n, p3)) => if p3 + 4 * n > s.len() {
                    Err(VoxErrorKind::UnexpectedEnd)
                } else {
                    Ok((GroupView {
                        node_id,
                        attributes: d,
                        child_nodes: Seq::new(n as nat, |i: int| u32_at(s, p3 + 4 * i)),
                    }, p3 + 4 * n))
                },
            },
        },
    }
}

/// `nSHP`: node id, DICT, model count (must be 1), model id, model DICT.
#[verifier::opaque]
pub open spec fn spec_nshp(s: Seq<u8>, pos: int) -> Result<(ShapeView, int), VoxErrorKind> {
    match spec_u32(s, pos) {
        Err(e) => Err(e),
        Ok((node_id, p1)) => match spec_dict(s, p1) {
            Err(e) => Err(e),
            Ok((d, p2)) => match spec_u32(s, p2) {
                Err(e) => Err(e),
                Ok((n, p3)) => if n != 1 {
                    Err(VoxErrorKind::InvalidSHPModelCount(n))
                } else {
                    match spec_u32(s, p3) {
                        Err(e) => Err(e),
                        Ok((model_id, p4)) => match spec_dict(s, p4) {
                            Err(e) => Err(e),
                            Ok((md, p5)) => Ok((ShapeView { node_id, attributes: d, model_id, model_attributes: md }, p5)),
                        },
                    }
                },
            },
        },
    }
}

/// Reads a `0`/`1` flag attribute (see [`spec_flag`]).
fn flag(d: &Dict, key: &str) -> (r: Option<bool>)
    ensures
        r == spec_flag(dict_get(dict_view(d@), key@)),
{
    match dict_find(d, key) {
        None => Some(false),
        Some(v) => if text_is(v, "0") {
            Some(false)
        } else if text_is(v, "1") {
            Some(true)
        } else {
            None
        },
    }
}

/// Copies the optional text of an attribute.
fn text_attr(d: &Dict, key: &str) -> (r: Option<String>)
    ensures
        opt_text(r) == dict_get(dict_view(d@), key@),
{
    match dict_find(d, key) {
        None => None,
        Some(v) => Some(v.as_str().to_owned()),
    }
}

/// Parses the payload of the `LAYR` chunk at `pos`.
pub fn chunk_layr(input: &[u8], pos: usize) -> (r: Result<(Layr, usize), VoxErrorKind>)
    ensures
        match r {
            Ok((l, p)) => spec_layr(input@, pos as int) == Ok::<(LayrView, int), VoxErrorKind>((layr_view(l), p as int)),
            Err(e) => spec_layr(input@, pos as int) == Err::<(LayrView, int), VoxErrorKind>(e),
        },
{
    proof {
        reveal(spec_layr);
    }
    let (id, p1) = read_u32(input, pos)?;
    let (d, p2) = dict(input, p1)?;
    let (reserved, p3) = read_i32(input, p2)?;
    if reserved != -1 {
        return Err(VoxErrorKind::InvalidLayrReserved(reserved));
    }
    let is_hidden = match flag(&d, "_is_hidden") {
        Some(h) => h,
        None => return Err(VoxErrorKind::InvalidLayrProperty),
    };
    let name = text_attr(&d, "_name");
    Ok((Layr { id, name, is_hidden }, p3))
}

/// Parses the payload of a `LAYR` chunk, which must be used up exactly.
pub fn chunk_layr_all(input: &[u8]) -> (r: Result<Layr, VoxErrorKind>)
    ensures
        match r {
            Ok(l) => all_consumed(spec_layr(input@, 0), input@) == Ok::<LayrView, VoxErrorKind>(layr_view(l)),
            Err(e) => all_consumed(spec_layr(input@, 0), input@) == Err::<LayrView, VoxErrorKind>(e),
        },
{
    let (l, p) = chunk_layr(input, 0)?;
    if p != input.len() {
        return Err(VoxErrorKind::TrailingBytes);
    }
    Ok(l)
}

/// Reads the `_r` attribute (see [`spec_rotation_attr`]).
fn rotation_attr(d: &Dict) -> (r: Option<MatRowCols>)
    ensures
        r == spec_rotation_attr(dict_get(dict_view(d@), "_r"@)),
{
    match dict_find(d, "_r") {
        None => Some(MatRowCols::OneTwoThree(false, false, false)),
        Some(v) => match parse_unsigned(v.as_str().as_bytes(), 255) {
            None => None,
            Some(b) => rotation_u8(b as u8),
        },
    }
}

/// Reads the `_t` attribute (see [`spec_translation_attr`]).
fn translation_attr(d: &Dict) -> (r: Option<(i32, i32, i32)>)
    ensures
        r == spec_translation_attr(dict_get(dict_view(d@), "_t"@)),
{
    match dict_find(d, "_t") {
        None => Some((0, 0, 0)),
        Some(v) => translation_text(v.as_str().as_bytes()),
    }
}

/// Parses the frame part of a `nTRN` payload, from the frame count on.
fn ntrn_frame(input: &[u8], pos: usize) -> (r: Result<((MatRowCols, (i32, i32, i32)), usize), VoxErrorKind>)
    ensures
        match r {
            Ok((v, p)) => spec_ntrn_frame(input@, pos as int) == Ok::<((MatRowCols, (i32, i32, i32)), int), VoxErrorKind>((v, p as int)),
            Err(e) => spec_ntrn_frame(input@, pos as int) == Err::<((MatRowCols, (i32, i32, i32)), int), VoxErrorKind>(e),
        },
{
    let (frames, p6) = read_i32(input, pos)?;
    if frames != 1 {
        return Err(VoxErrorKind::InvalidTRNFrames(frames));
    }
    let (fd, p7) = dict(input, p6)?;
    let t = translation_attr(&fd);
    let r = rotation_attr(&fd);
    match (t, r) {
        (Some(t), Some(r)) => Ok(((r, t), p7)),
        _ => Err(VoxErrorKind::InvalidTRNProperty),
    }
}

/// Parses the payload of the `nTRN` chunk at `pos`.
pub fn chunk_ntrn(input: &[u8], pos: usize) -> (r: Result<(TransformNode, usize), VoxErrorKind>)
    ensures
        match r {
            Ok((t, p)) => spec_ntrn(input@, pos as int) == Ok::<(TransformView, int), VoxErrorKind>((transform_view(t), p as int)),
            Err(e) => spec_ntrn(input@, pos as int) == Err::<(TransformView, int), VoxErrorKind>(e),
        },
{
    proof {
        reveal(spec_ntrn);
    }
    let (node_id, p1) = read_u32(input, pos)?;
    let (d, p2) = dict(input, p1)?;
    let is_hidden = match flag(&d, "_hidden") {
        Some(h) => h,
        None => return Err(VoxErrorKind::InvalidTRNHidden),
    };
    let name = text_attr(&d, "_name");
    let (child_node_id, p3) = read_u32(input, p2)?;
    let (reserved, p4) = read_i32(input, p3)?;
    if reserved != -1 {
        return Err(VoxErrorKind::InvalidTRNReserved(reserved));
    }
    let (layer, p5) = read_i32(input, p4)?;
    let layer_id = if layer == -1 {
        None
    } else if layer < 0 {
        return Err(VoxErrorKind::InvalidLayrId);
    } else {
        Some(layer as u32)
    };
    let ((rotation, translation), p7) = ntrn_frame(input, p5)?;
    Ok((TransformNode { node_id, name, is_hidden, child_node_id, layer_id, rotation, translation }, p7))
}

/// Parses the payload of a `nTRN` chunk, which must be used up exactly.
pub fn chunk_ntrn_all(input: &[u8]) -> (r: Result<TransformNode, VoxErrorKind>)
    ensures
        match r {
            Ok(t) => all_consumed(spec_ntrn(input@, 0), input@) == Ok::<TransformView, VoxErrorKind>(transform_view(t)),
            Err(e) => all_consumed(spec_ntrn(input@, 0), input@) == Err::<TransformView, VoxErrorKind>(e),
        },
{
    let (t, p) = chunk_ntrn(input, 0)?;
    if p != input.len() {
        return Err(VoxErrorKind::TrailingBytes);
    }
    Ok(t)
}

/// Reads `n` little-endian `u32`s starting at `pos`.
fn u32s(input: &[u8], pos: usize, n: usize) -> (r: Vec<u32>)
    requires
        pos + 4 * n <= input@.len(),
    ensures
        r@ == Seq::new(n as nat, |i: int| u32_at(input@, pos + 4 * i)),
{
    let mut r: Vec<u32> = Vec::new();
    let mut i: usize = 0;
    let len = input.len();
    while i < n
        invariant
            i <= n,
            len == input@.len(),
            pos + 4 * n <= input@.len(),
            r@ == Seq::new(i as nat, |k: int| u32_at(input@, pos + 4 * k)),
        decreases n - i,
    {
        assert(4 * i + 4 <= 4 * n) by (nonlinear_arith)
            requires
                i < n,
        ;
        let v = u32_le_at(input, pos + 4 * i);
        r.push(v);
        i += 1;
        assert(r@ =~= Seq::new(i as nat, |k: int| u32_at(input@, pos + 4 * k)));
    }
    r
}

/// Parses the payload of the `nGRP` chunk at `pos`.
pub fn chunk_ngrp(input: &[u8], pos: usize) -> (r: Result<(GroupNode, usize), VoxErrorKind>)
    ensures
        match r {
            Ok((g, p)) => spec_ngrp(input@, pos as int) == Ok::<(GroupView, int), VoxErrorKind>((group_view(g), p as int)),
            Err(e) => spec_ngrp(input@, pos as int) == Err::<(GroupView, int), VoxErrorKind>(e),
        },
{
    proof {
        reveal(spec_ngrp);
    }
    let (node_id, p1) = read_u32(input, pos)?;
    let (attributes, p2) = dict(input, p1)?;
    let (n, p3) = read_u32(input, p2)?;
    if (input.len() - p3) / 4 < n as usize {
        return Err(VoxErrorKind::UnexpectedEnd);
    }
    let child_nodes = u32s(input, p3, n as usize);
    Ok((GroupNode { node_id, attributes, child_nodes }, p3 + 4 * n as usize))
}

/// Parses the payload of a `nGRP` chunk, which must be used up exactly.
pub fn chunk_ngrp_all(input: &[u8]) -> (r: Result<GroupNode, VoxErrorKind>)
    ensures
        match r {
            Ok(g) => all_consumed(spec_ngrp(input@, 0), input@) == Ok::<GroupView, VoxErrorKind>(group_view(g)),
            Err(e) => all_consumed(spec_ngrp(input@, 0), input@) == Err::<GroupView, VoxErrorKind>(e),
        },
{
    let (g, p) = chunk_ngrp(input, 0)?;
    if p != input.len() {
        return Err(VoxErrorKind::TrailingBytes);
    }
    Ok(g)
}

/// Parses the payload of the `nSHP` chunk at `pos`.
pub fn chunk_nshp(input: &[u8], pos: usize) -> (r: Result<(ShapeNode, usize), VoxErrorKind>)
    ensures
        match r {
            Ok((s, p)) => spec_nshp(input@, pos as int) == Ok::<(ShapeView, int), VoxErrorKind>((shape_view(s), p as int)),
            Err(e) => spec_nshp(input@, pos as int) == Err::<(ShapeView, int), VoxErrorKind>(e),
        },
{
    proof {
        reveal(spec_nshp);
    }
    let (node_id, p1) = read_u32(input, pos)?;
    let (attributes, p2) = dict(input, p1)?;
    let (n, p3) = read_u32(input, p2)?;
    if n != 1 {
        return Err(VoxErrorKind::InvalidSHPModelCount(n));
    }
    let (model_id, p4) = read_u32(input, p3)?;
    let (model_attributes, p5) = dict(input, p4)?;
    Ok((ShapeNode { node_id, attributes, model_id, model_attributes }, p5))
}

/// Parses the payload of a `nSHP` chunk, which must be used up exactly.
pub fn chunk_nshp_all(input: &[u8]) -> (r: Result<ShapeNode, VoxErrorKind>)
    ensures
        match r {
            Ok(s) => all_consumed(spec_nshp(input@, 0), input@) == Ok::<ShapeView, VoxErrorKind>(shape_view(s)),
            Err(e) => all_consumed(spec_nshp(input@, 0), input@) == Err::<ShapeView, VoxErrorKind>(e),
        },
{
    let (s, p) = chunk_nshp(input, 0)?;
    if p != input.len() {
        return Err(VoxErrorKind::TrailingBytes);
    }
    Ok(s)
}

/// A `_r` frame attribute whose byte names the same column for rows one and
/// two makes the `nTRN` frame fail with `InvalidTRNProperty`.
pub proof fn lemma_equal_columns_fail_ntrn(s: Seq<u8>, pos: int, t: Seq<char>, b: nat)
    requires
        spec_i32(s, pos) is Ok,
        spec_i32(s, pos).unwrap().0 == 1,
        spec_dict(s, pos + 4) is Ok,
        dict_get(spec_dict(s, pos + 4).unwrap().0, "_r"@) == Some(t),
        spec_unsigned(encode_utf8(t), 255) == Some(b),
        b % 4 == (b / 4) % 4,
    ensures
        spec_rotation_attr(Some(t)) is None,
        spec_ntrn_frame(s, pos) == Err::<((MatRowCols, (i32, i32, i32)), int), VoxErrorKind>(VoxErrorKind::InvalidTRNProperty),
{
    crate::parse::special::lemma_equal_columns_no_matrix(b as u8);
}

} // verus!
